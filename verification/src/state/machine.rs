//! The state machine: executes transactions and blocks.

use crate::bytes::{contains_id, lemma_array_of_view, same_id};
use crate::crypto::{ed25519_valid, verify};
use crate::state::dispute::{evidence_step, raise, raise_step, submit_evidence, vote_checked, vote_step};
use crate::state::escrow::{create, create_step, refund, refund_step, release_checked, release_step};
use crate::state::participant::{deactivate, deactivate_step, register, register_step, update, update_step};
use crate::state::settlement::{rating_step, record_checked, record_rating_checked, record_step};
use crate::state::step::{one, outcome, refused, took, with_more, Outcome, Step};
use crate::state::token::{spend_checked, spend_step, transfer_checked, transfer_step};
use crate::store::{anchor_at, fits, law_store_limits, nonce_at, put_anchor, put_block, put_nonce, state_root, Db, Slot, Store};
use crate::text::{decimal, hex_text, push_decimal, to_hex};
use crate::types::state::event_views;
use crate::types::{AnchorRecord, Block, BlockView, Event, EventView, Id, PayloadView, RewardConfig, Transaction, TransactionView, TxPayload, EMPTY_HASH};
use crate::wire::{models, to_bytes, Wire};
use vstd::prelude::*;
use vstd::slice::slice_subrange;
use vstd::string::*;

verus! {

/// What a state machine goes by besides its records.
pub struct Rules {
    pub rewards: RewardConfig,
    pub vote_threshold: usize,
    pub platform_keys: Seq<Id>,
}

// ── Transitions ──

pub open spec fn nonce_too_low(got: u64, current: u64) -> Seq<char> {
    "Nonce too low: got "@ + decimal(got as nat) + ", expected > "@ + decimal(current as nat)
}

/// Anchor a batch, once; only the platform may.
pub open spec fn anchor_step(rules: Rules, db: Db, sender: Id, record: AnchorRecord) -> (Db, Outcome) {
    if !rules.platform_keys.contains(sender) {
        (db, Err("Unauthorized: only platform can anchor"@))
    } else {
        match anchor_at(db, record.batch_id) {
            Slot::Present(_) => (db, Err("Anchor batch already recorded"@)),
            Slot::Unreadable(why) => (db, Err(why)),
            Slot::Absent => (
                put_anchor(db, record.batch_id, record),
                Ok(seq![EventView::AnchorRecorded { batch_id: record.batch_id, merkle_root: record.merkle_root, entry_count: record.entry_count }]),
            ),
        }
    }
}

/// What a payload asks for.
#[verifier::opaque]
pub open spec fn payload_step(rules: Rules, db: Db, sender: Id, payload: PayloadView, timestamp: i64) -> Step {
    match payload {
        PayloadView::RegisterParticipant { id, p_type, metadata } => Some(register_step(db, sender, id, p_type, metadata, timestamp)),
        PayloadView::UpdateParticipant { id, metadata } => Some(update_step(db, sender, id, metadata, timestamp)),
        PayloadView::DeactivateParticipant { id } => Some(deactivate_step(db, sender, id)),
        PayloadView::RecordSettlement { participant_id, record } => record_step(db, sender, participant_id, record, timestamp, rules.rewards.settlement_recorded),
        PayloadView::RecordRating { participant_id, rating, success } => rating_step(db, participant_id, rating, success, timestamp, rules.rewards.rating_submitted),
        PayloadView::CreateEscrow { escrow_id, buyer, seller, amount, expires_at } => Some(create_step(db, sender, escrow_id, buyer, seller, amount, expires_at, timestamp)),
        PayloadView::ReleaseEscrow { escrow_id, evidence_hash } => release_step(db, sender, escrow_id, evidence_hash, timestamp, rules.rewards.escrow_completed),
        PayloadView::RefundEscrow { escrow_id } => Some(refund_step(db, sender, escrow_id, timestamp)),
        PayloadView::RaiseDispute { dispute_id, escrow_id, reason, evidence_hash } => Some(raise_step(db, dispute_id, escrow_id, sender, reason, evidence_hash, timestamp)),
        PayloadView::SubmitEvidence { dispute_id, evidence_hash } => Some(evidence_step(db, sender, dispute_id, evidence_hash)),
        PayloadView::VoteDispute { dispute_id, decision } => vote_step(db, dispute_id, sender, decision, timestamp, rules.rewards.dispute_won, rules.vote_threshold),
        PayloadView::TransferRCW { to, amount, memo: _ } => transfer_step(db, sender, to, amount),
        PayloadView::SpendRCW { amount, purpose } => spend_step(db, sender, amount, purpose),
        PayloadView::AnchorMerkleRoot { batch_id, merkle_root, entry_count, from_entry_id, to_entry_id } => Some(
            anchor_step(rules, db, sender, AnchorRecord { batch_id, merkle_root, entry_count, from_entry_id, to_entry_id, anchored_at: timestamp }),
        ),
    }
}

/// Execute a transaction: its nonce must exceed the sender's, which it replaces;
/// then the payload is carried out.
pub open spec fn execute_step(rules: Rules, db: Db, tx: TransactionView, timestamp: i64) -> Step {
    if tx.nonce <= nonce_at(db, tx.sender) {
        refused(db, nonce_too_low(tx.nonce, nonce_at(db, tx.sender)))
    } else {
        payload_step(rules, put_nonce(db, tx.sender, tx.nonce), tx.sender, tx.payload, timestamp)
    }
}

/// Did the sender sign the payload?
pub open spec fn is_signed(tx: TransactionView) -> bool {
    ed25519_valid(TxPayload::bytes(tx.payload), tx.signature.0@, tx.sender@)
}

/// Execute transactions in order, leaving out those without a valid signature.
/// The events of those that were not refused are kept.
pub open spec fn run_step(rules: Rules, db: Db, txs: Seq<TransactionView>, timestamp: i64) -> Option<(Db, Seq<EventView>)>
    decreases txs.len(),
{
    if txs.len() == 0 {
        Some((db, Seq::empty()))
    } else {
        match run_step(rules, db, txs.drop_last(), timestamp) {
            None => None,
            Some((before, events)) => {
                if is_signed(txs.last()) {
                    match execute_step(rules, before, txs.last(), timestamp) {
                        None => None,
                        Some((after, Ok(more))) => Some((after, events + more)),
                        Some((after, Err(_))) => Some((after, events)),
                    }
                } else {
                    Some((before, events))
                }
            },
        }
    }
}

pub open spec fn root_mismatch(height: u64, expected: Seq<u8>, computed: Seq<u8>) -> Seq<char> {
    "State root mismatch at height "@ + decimal(height as nat) + ": expected "@ + hex_text(expected.take(8)) + ", computed "@ + hex_text(computed.take(8))
}

/// Apply a block: execute its transactions; where its header gives a state root,
/// the state must have it; then the block is stored.
pub open spec fn apply_step(rules: Rules, db: Db, block: BlockView) -> Step {
    match run_step(rules, db, block.transactions, block.header.timestamp) {
        None => None,
        Some((after, events)) => {
            let root = block.header.state_root;
            if root != EMPTY_HASH && state_root(after) != root@ {
                refused(after, root_mismatch(block.header.height, root@, state_root(after)))
            } else {
                Some((put_block(after, block), Ok(events)))
            }
        },
    }
}

// ── The machine ──

/// State machine: executes transactions and updates state.
pub struct StateMachine {
    store: Store,
    reward_config: RewardConfig,
    dispute_vote_threshold: usize,
    platform_keys: Vec<Id>,
}

/// What a machine holds is limited, as every store is.
pub proof fn law_machine_limits(machine: StateMachine)
    ensures
        machine.db().dom().finite(),
        fits(machine.db()),
{
    law_store_limits(machine.store);
}

impl StateMachine {
    /// The machine's records.
    pub closed spec fn db(&self) -> Db {
        self.store@
    }

    /// What the store held when its writes were last handed out.
    pub closed spec fn saved(&self) -> Db {
        self.store.saved()
    }

    /// What the machine goes by.
    pub closed spec fn rules(&self) -> Rules {
        Rules {
            rewards: self.reward_config,
            vote_threshold: self.dispute_vote_threshold,
            platform_keys: self.platform_keys@,
        }
    }

    pub fn new(store: Store, reward_config: RewardConfig) -> (r: StateMachine)
        ensures
            r.db() == store@,
            r.saved() == store.saved(),
            r.rules() == (Rules { rewards: reward_config, vote_threshold: 3, platform_keys: Seq::empty() }),
    {
        let platform_keys: Vec<Id> = Vec::new();
        assert(platform_keys@ =~= Seq::<Id>::empty());
        StateMachine { store, reward_config, dispute_vote_threshold: 3, platform_keys }
    }

    pub fn with_dispute_threshold(self, threshold: usize) -> (r: StateMachine)
        ensures
            r.db() == self.db(),
            r.saved() == self.saved(),
            r.rules() == (Rules { vote_threshold: threshold, ..self.rules() }),
    {
        StateMachine {
            store: self.store,
            reward_config: self.reward_config,
            dispute_vote_threshold: threshold,
            platform_keys: self.platform_keys,
        }
    }

    pub fn with_platform_keys(self, keys: Vec<Id>) -> (r: StateMachine)
        ensures
            r.db() == self.db(),
            r.saved() == self.saved(),
            r.rules() == (Rules { platform_keys: keys@, ..self.rules() }),
    {
        StateMachine {
            store: self.store,
            reward_config: self.reward_config,
            dispute_vote_threshold: self.dispute_vote_threshold,
            platform_keys: keys,
        }
    }

    /// Verify a transaction's Ed25519 signature.
    pub fn verify_tx_signature(tx: &Transaction) -> (r: bool)
        ensures
            r == is_signed(tx@),
    {
        let payload_bytes = to_bytes::<TxPayload>(&tx.payload);
        verify(payload_bytes.as_slice(), &tx.signature.0, &tx.sender)
    }

    /// Validate and store the nonce for replay protection.
    fn check_and_update_nonce(&mut self, tx: &Transaction) -> (r: Result<(), String>)
        ensures
            final(self).rules() == old(self).rules(),
            final(self).saved() == old(self).saved(),
            if tx.nonce <= nonce_at(old(self).db(), tx.sender) {
                final(self).db() == old(self).db() && (r matches Err(e) && e@ == nonce_too_low(tx.nonce, nonce_at(old(self).db(), tx.sender)))
            } else {
                final(self).db() == put_nonce(old(self).db(), tx.sender, tx.nonce) && r is Ok
            },
    {
        let current_nonce: u64 = self.store.get_nonce(&tx.sender);
        if tx.nonce <= current_nonce {
            let mut text = "Nonce too low: got ".to_string();
            push_decimal(&mut text, tx.nonce);
            text.append(", expected > ");
            push_decimal(&mut text, current_nonce);
            return Err(text);
        }
        self.store.set_nonce(&tx.sender, tx.nonce)
    }

    fn record_anchor(&mut self, sender: &Id, record: &AnchorRecord) -> (r: Result<Vec<Event>, String>)
        ensures
            final(self).rules() == old(self).rules(),
            final(self).saved() == old(self).saved(),
            (final(self).db(), outcome(r)) == anchor_step(old(self).rules(), old(self).db(), *sender, *record),
    {
        if !contains_id(&self.platform_keys, sender) {
            return Err("Unauthorized: only platform can anchor".to_string());
        }
        match self.store.get_anchor(&record.batch_id) {
            Err(e) => return Err(e),
            Ok(Some(_)) => return Err("Anchor batch already recorded".to_string()),
            Ok(None) => {},
        }
        if let Err(e) = self.store.set_anchor(&record.batch_id, record) {
            return Err(e);
        }
        Ok(one(Event::AnchorRecorded { batch_id: record.batch_id, merkle_root: record.merkle_root, entry_count: record.entry_count }))
    }

    fn carry_out(&mut self, sender: &Id, payload: &TxPayload, timestamp: i64) -> (r: Option<Result<Vec<Event>, String>>)
        ensures
            took(payload_step(old(self).rules(), old(self).db(), *sender, payload@, timestamp), final(self).db(), r),
            final(self).rules() == old(self).rules(),
            final(self).saved() == old(self).saved(),
    {
        proof {
            reveal(payload_step);
        }
        match payload {
            // ── CTP: Participant ──
            TxPayload::RegisterParticipant { id, p_type, metadata } => {
                Some(register(&mut self.store, sender, id, *p_type, metadata.as_str(), timestamp))
            },
            TxPayload::UpdateParticipant { id, metadata } => {
                Some(update(&mut self.store, sender, id, metadata.as_str(), timestamp))
            },
            TxPayload::DeactivateParticipant { id } => Some(deactivate(&mut self.store, sender, id)),
            // ── CTP: Settlement ──
            TxPayload::RecordSettlement { participant_id, record } => {
                record_checked(&mut self.store, sender, participant_id, record, timestamp, self.reward_config.settlement_recorded)
            },
            TxPayload::RecordRating { participant_id, rating, success } => {
                record_rating_checked(&mut self.store, participant_id, *rating, *success, timestamp, self.reward_config.rating_submitted)
            },
            // ── CTP: Escrow ──
            TxPayload::CreateEscrow { escrow_id, buyer, seller, amount, expires_at } => {
                Some(create(&mut self.store, sender, escrow_id, buyer, seller, *amount, *expires_at, timestamp))
            },
            TxPayload::ReleaseEscrow { escrow_id, evidence_hash } => {
                release_checked(&mut self.store, sender, escrow_id, evidence_hash, timestamp, self.reward_config.escrow_completed)
            },
            TxPayload::RefundEscrow { escrow_id } => Some(refund(&mut self.store, sender, escrow_id, timestamp)),
            // ── CTP: Dispute ──
            TxPayload::RaiseDispute { dispute_id, escrow_id, reason, evidence_hash } => {
                Some(raise(&mut self.store, dispute_id, escrow_id, sender, *reason, evidence_hash, timestamp))
            },
            TxPayload::SubmitEvidence { dispute_id, evidence_hash } => {
                Some(submit_evidence(&mut self.store, sender, dispute_id, evidence_hash))
            },
            TxPayload::VoteDispute { dispute_id, decision } => {
                vote_checked(&mut self.store, dispute_id, sender, *decision, timestamp, self.reward_config.dispute_won, self.dispute_vote_threshold)
            },
            // ── RCW Token ──
            TxPayload::TransferRCW { to, amount, memo } => {
                transfer_checked(&mut self.store, sender, to, *amount, memo.as_str())
            },
            TxPayload::SpendRCW { amount, purpose } => spend_checked(&mut self.store, sender, *amount, purpose.as_str()),
            // ── CTP: Anchor ──
            TxPayload::AnchorMerkleRoot { batch_id, merkle_root, entry_count, from_entry_id, to_entry_id } => {
                let record = AnchorRecord {
                    batch_id: *batch_id,
                    merkle_root: *merkle_root,
                    entry_count: *entry_count,
                    from_entry_id: *from_entry_id,
                    to_entry_id: *to_entry_id,
                    anchored_at: timestamp,
                };
                Some(self.record_anchor(sender, &record))
            },
        }
    }

    /// As `execute`; nothing where a number would leave its range. The records are
    /// then of no more use: some writes may have been made and others not.
    pub fn execute_checked(&mut self, tx: &Transaction, timestamp: i64) -> (r: Option<Result<Vec<Event>, String>>)
        ensures
            took(execute_step(old(self).rules(), old(self).db(), tx@, timestamp), final(self).db(), r),
            final(self).rules() == old(self).rules(),
            final(self).saved() == old(self).saved(),
    {
        // Validate nonce (replay protection)
        if let Err(e) = self.check_and_update_nonce(tx) {
            return Some(Err(e));
        }
        self.carry_out(&tx.sender, &tx.payload, timestamp)
    }

    /// Execute a single transaction, return events.
    pub fn execute(&mut self, tx: &Transaction, timestamp: i64) -> (r: Result<Vec<Event>, String>)
        requires
            execute_step(old(self).rules(), old(self).db(), tx@, timestamp) is Some,
        ensures
            execute_step(old(self).rules(), old(self).db(), tx@, timestamp) == Some((final(self).db(), outcome(r))),
            final(self).rules() == old(self).rules(),
            final(self).saved() == old(self).saved(),
    {
        match self.execute_checked(tx, timestamp) {
            Some(r) => r,
            None => vstd::pervasive::unreached(),
        }
    }

    fn run(&mut self, txs: &Vec<Transaction>, timestamp: i64) -> (r: Option<Vec<Event>>)
        ensures
            match run_step(old(self).rules(), old(self).db(), models::<Transaction>(txs@), timestamp) {
                Some((db, events)) => r matches Some(v) && final(self).db() == db && event_views(v@) == events,
                None => r is None,
            },
            final(self).rules() == old(self).rules(),
            final(self).saved() == old(self).saved(),
    {
        let ghost (rules, db, saved) = (self.rules(), self.db(), self.saved());
        let ghost all = models::<Transaction>(txs@);
        let mut events: Vec<Event> = Vec::new();
        let n: usize = txs.len();
        let mut i: usize = 0;
        assert(event_views(events@) =~= Seq::<EventView>::empty());
        while i < n
            invariant
                n == txs@.len(),
                i <= n,
                all == models::<Transaction>(txs@),
                rules == old(self).rules(),
                db == old(self).db(),
                saved == old(self).saved(),
                self.rules() == rules,
                self.saved() == saved,
                run_step(rules, db, all.take(i as int), timestamp) == Some((self.db(), event_views(events@))),
            decreases n - i,
        {
            let ghost upto = all.take(i + 1);
            proof {
                assert(upto.drop_last() =~= all.take(i as int));
                assert(upto.last() == txs@[i as int]@);
            }
            // Verify transaction signature before execution
            if Self::verify_tx_signature(&txs[i]) {
                match self.execute_checked(&txs[i], timestamp) {
                    None => {
                        proof {
                            lemma_run_stops(rules, db, all, timestamp, i + 1);
                        }
                        return None;
                    },
                    Some(Ok(more)) => {
                        events = with_more(events, more);
                    },
                    Some(Err(_)) => {},
                }
            }
            i += 1;
        }
        assert(all.take(n as int) =~= all);
        Some(events)
    }

    fn apply(&mut self, block: &Block) -> (r: Option<Result<Vec<Event>, String>>)
        ensures
            took(apply_step(old(self).rules(), old(self).db(), block@), final(self).db(), r),
            final(self).rules() == old(self).rules(),
            final(self).saved() == old(self).saved(),
    {
        let events = match self.run(&block.transactions, block.header.timestamp) {
            Some(v) => v,
            None => return None,
        };

        // Verify state root matches after execution
        let computed_root = self.store.compute_state_root();
        if !same_id(&block.header.state_root, &EMPTY_HASH) && !same_id(&computed_root, &block.header.state_root) {
            let mut text = "State root mismatch at height ".to_string();
            push_decimal(&mut text, block.header.height);
            text.append(": expected ");
            text.append(to_hex(slice_subrange(block.header.state_root.as_slice(), 0, 8)).as_str());
            text.append(", computed ");
            text.append(to_hex(slice_subrange(computed_root.as_slice(), 0, 8)).as_str());
            proof {
                assert(block.header.state_root@.subrange(0, 8) =~= block.header.state_root@.take(8));
                assert(computed_root@.subrange(0, 8) =~= computed_root@.take(8));
                if computed_root@ == block.header.state_root@ {
                    lemma_array_of_view(computed_root, block.header.state_root);
                }
            }
            return Some(Err(text));
        }

        // Store the block
        if let Err(e) = self.store.put_block(block) {
            return Some(Err(e));
        }

        Some(Ok(events))
    }

    /// Execute all transactions in a block, verifying signatures and state root.
    pub fn apply_block(&mut self, block: &Block) -> (r: Result<Vec<Event>, String>)
        requires
            apply_step(old(self).rules(), old(self).db(), block@) is Some,
        ensures
            apply_step(old(self).rules(), old(self).db(), block@) == Some((final(self).db(), outcome(r))),
            final(self).rules() == old(self).rules(),
            final(self).saved() == old(self).saved(),
    {
        match self.apply(block) {
            Some(r) => r,
            None => vstd::pervasive::unreached(),
        }
    }

    /// Can the block be applied with all numbers in range? Tried on a copy.
    fn can_apply(&self, block: &Block) -> (r: bool)
        ensures
            r == (apply_step(self.rules(), self.db(), block@) is Some),
    {
        let mut trial = StateMachine {
            store: self.store.duplicate(),
            reward_config: self.reward_config,
            dispute_vote_threshold: self.dispute_vote_threshold,
            platform_keys: copy_ids(&self.platform_keys),
        };
        trial.apply(block).is_some()
    }

    /// As `apply_block`; nothing, with the records as they were, where a number would
    /// leave its range.
    pub fn apply_block_checked(&mut self, block: &Block) -> (r: Option<Result<Vec<Event>, String>>)
        ensures
            match apply_step(old(self).rules(), old(self).db(), block@) {
                Some((db, how)) => r is Some && final(self).db() == db && outcome(r->0) == how,
                None => r is None && final(self).db() == old(self).db(),
            },
            final(self).rules() == old(self).rules(),
            final(self).saved() == old(self).saved(),
    {
        if self.can_apply(block) {
            Some(self.apply_block(block))
        } else {
            None
        }
    }

    /// Get reference to store for read operations.
    pub fn store(&self) -> (r: &Store)
        ensures
            r@ == self.db(),
            r.saved() == self.saved(),
    {
        &self.store
    }

    /// Get reference to store for write operations.
    pub fn store_mut(&mut self) -> (r: &mut Store)
        ensures
            r@ == old(self).db(),
            r.saved() == old(self).saved(),
            final(self).db() == final(r)@,
            final(self).saved() == final(r).saved(),
            final(self).rules() == old(self).rules(),
    {
        &mut self.store
    }
}

/// A run that stops does not start again.
proof fn lemma_run_stops(rules: Rules, db: Db, txs: Seq<TransactionView>, timestamp: i64, at: int)
    requires
        0 <= at <= txs.len(),
        run_step(rules, db, txs.take(at), timestamp) is None,
    ensures
        run_step(rules, db, txs, timestamp) is None,
    decreases txs.len(),
{
    if at == txs.len() {
        assert(txs.take(at) =~= txs);
    } else {
        assert(txs.drop_last().take(at) =~= txs.take(at));
        lemma_run_stops(rules, db, txs.drop_last(), timestamp, at);
    }
}

/// A copy of a list of ids.
pub(crate) fn copy_ids(ids: &Vec<Id>) -> (r: Vec<Id>)
    ensures
        r@ == ids@,
{
    let mut r: Vec<Id> = Vec::new();
    let n: usize = ids.len();
    let mut i: usize = 0;
    while i < n
        invariant
            n == ids@.len(),
            i <= n,
            r@ =~= ids@.take(i as int),
        decreases n - i,
    {
        r.push(ids[i]);
        i += 1;
    }
    assert(ids@.take(n as int) =~= ids@);
    r
}

} // verus!
