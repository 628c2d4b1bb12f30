//! Tokens are neither made nor lost but where they are meant to be.

use crate::laws::invariants::law_finite_stays_finite;
use crate::laws::keys::law_keys_distinct;
use crate::laws::reads::law_balance_reads;
use crate::state::dispute::{verdict_step, vote_step};
use crate::state::escrow::{both_rewards_step, refund_step, release_step, released_step};
use crate::state::machine::{execute_step, payload_step, Rules};
use crate::state::settlement::{rating_step, record_step, reward_step};
use crate::state::step::Step;
use crate::state::token::{debit_step, debited, mint_step, spend_step, transfer_step};
use crate::store::{balance_at, balance_key, put_anchor, put_balance, put_dispute, put_escrow, put_nonce, put_participant, put_settlement, slot, Db};
use crate::types::{AnchorRecord, DisputeDecision, DisputeView, Escrow, EventView, Id, ParticipantView, PayloadView, RCWBalance, SettlementData, SettlementRecord, TransactionView, EMPTY_HASH};
use vstd::prelude::*;

verus! {

/// How many tokens an owner has.
pub open spec fn tokens(db: Db, owner: Id) -> nat
    recommends
        balance_at(db, owner) is Ok,
{
    balance_at(db, owner)->Ok_0.spec_total()
}

/// A payment takes the amount from what was earned first, then from what was
/// purchased, and no more.
pub proof fn law_earned_first(b: RCWBalance, amount: u64)
    requires
        b.spec_total() >= amount,
    ensures
        debited(b, amount).spec_total() + amount == b.spec_total(),
        debited(b, amount).owner == b.owner,
        amount <= b.earned ==> debited(b, amount).purchased == b.purchased,
        amount > b.earned ==> debited(b, amount).earned == 0,
{
}

/// A transfer moves tokens: what one has less the other has more, and whoever pays
/// oneself has as many as before. Nobody else's balance changes.
pub proof fn law_transfer_conserves(db: Db, from: Id, to: Id, amount: u64, other: Id)
    requires
        transfer_step(db, from, to, amount) matches Some((_, Ok(_))),
    ensures
        ({
            let (after, _) = transfer_step(db, from, to, amount)->0;
            &&& amount > 0
            &&& balance_at(db, from) is Ok && balance_at(db, to) is Ok
            &&& balance_at(after, from) is Ok && balance_at(after, to) is Ok
            &&& tokens(db, from) >= amount
            &&& if from == to {
                tokens(after, from) == tokens(db, from)
            } else {
                tokens(after, from) + amount == tokens(db, from) && tokens(after, to) == tokens(db, to) + amount
            }
            &&& other != from && other != to ==> balance_at(after, other) == balance_at(db, other)
        }),
{
    law_balance_reads(from);
    law_balance_reads(to);
    law_balance_reads(other);
    law_earned_first(balance_at(db, from)->Ok_0, amount);
}

/// Minting adds the amount to one balance, and changes no other.
pub proof fn law_mint_adds(db: Db, to: Id, amount: u64, reason: Seq<char>, other: Id)
    requires
        mint_step(db, to, amount, reason) matches Some((_, Ok(_))),
    ensures
        ({
            let (after, _) = mint_step(db, to, amount, reason)->0;
            &&& balance_at(db, to) is Ok && balance_at(after, to) is Ok
            &&& tokens(after, to) == tokens(db, to) + amount
            &&& other != to ==> balance_at(after, other) == balance_at(db, other)
        }),
{
    law_balance_reads(to);
    law_balance_reads(other);
}

/// Spending takes the amount from one balance, and changes no other.
pub proof fn law_spend_takes(db: Db, from: Id, amount: u64, purpose: Seq<char>, other: Id)
    requires
        spend_step(db, from, amount, purpose) matches Some((_, Ok(_))),
    ensures
        ({
            let (after, _) = spend_step(db, from, amount, purpose)->0;
            &&& balance_at(db, from) is Ok && balance_at(after, from) is Ok
            &&& tokens(after, from) + amount == tokens(db, from)
            &&& other != from ==> balance_at(after, other) == balance_at(db, other)
        }),
{
    law_balance_reads(from);
    law_balance_reads(other);
    law_earned_first(balance_at(db, from)->Ok_0, amount);
}

/// Nobody pays more than there is: a payment beyond the balance is refused and
/// changes nothing.
pub proof fn law_no_overdraft(db: Db, from: Id, to: Id, amount: u64, purpose: Seq<char>)
    requires
        balance_at(db, from) matches Ok(b) && b.spec_total() < amount,
    ensures
        transfer_step(db, from, to, amount) matches Some((after, Err(_))) && after == db,
        spend_step(db, from, amount, purpose) matches Some((after, Err(_))) && after == db,
{
}

// ── All tokens together ──

/// How many tokens an owner has, none where the record cannot be read.
pub open spec fn holdings(db: Db, owner: Id) -> nat {
    match balance_at(db, owner) {
        Ok(b) => b.spec_total(),
        Err(_) => 0,
    }
}

/// Those who have tokens.
pub open spec fn holders(db: Db) -> Set<Id> {
    Set::new(|id: Id| holdings(db, id) > 0)
}

/// How many tokens several owners have together.
pub open spec fn sum_over(db: Db, owners: Set<Id>) -> nat
    decreases owners.len(),
{
    if owners.finite() && owners.len() > 0 {
        let x = owners.choose();
        holdings(db, x) + sum_over(db, owners.remove(x))
    } else {
        0
    }
}

/// How many tokens there are.
#[verifier::opaque]
pub open spec fn supply(db: Db) -> nat {
    sum_over(db, holders(db))
}

/// Can every balance be read?
#[verifier::opaque]
pub open spec fn balances_readable(db: Db) -> bool {
    forall|id: Id| #[trigger] balance_at(db, id) is Ok
}

/// How many tokens events say were minted.
pub open spec fn minted(events: Seq<EventView>) -> nat
    decreases events.len(),
{
    if events.len() == 0 {
        0
    } else {
        minted(events.drop_last()) + match events.last() {
            EventView::RCWMinted { amount, .. } => amount as nat,
            _ => 0,
        }
    }
}

/// How many tokens events say were spent.
pub open spec fn spent(events: Seq<EventView>) -> nat
    decreases events.len(),
{
    if events.len() == 0 {
        0
    } else {
        spent(events.drop_last()) + match events.last() {
            EventView::RCWSpent { amount, .. } => amount as nat,
            _ => 0,
        }
    }
}

/// The tokens of one owner can be counted by themselves.
proof fn lemma_take_out(db: Db, owners: Set<Id>, x: Id)
    requires
        owners.finite(),
        owners.contains(x),
    ensures
        sum_over(db, owners) == holdings(db, x) + sum_over(db, owners.remove(x)),
    decreases owners.len(),
{
    let c = owners.choose();
    assert(owners.contains(c));
    if c != x {
        lemma_take_out(db, owners.remove(c), x);
        lemma_take_out(db, owners.remove(x), c);
        assert(owners.remove(c).remove(x) =~= owners.remove(x).remove(c));
    }
}

proof fn lemma_sum_agrees(a: Db, b: Db, owners: Set<Id>)
    requires
        forall|id: Id| owners.contains(id) ==> #[trigger] holdings(a, id) == holdings(b, id),
    ensures
        sum_over(a, owners) == sum_over(b, owners),
    decreases owners.len(),
{
    if owners.finite() && owners.len() > 0 {
        let c = owners.choose();
        assert(owners.contains(c));
        assert(holdings(a, c) == holdings(b, c));
        lemma_sum_agrees(a, b, owners.remove(c));
    }
}

/// Where one balance changes, the supply changes by as much.
proof fn lemma_one_changes(a: Db, b: Db, x: Id)
    requires
        holders(a).finite(),
        forall|id: Id| id != x ==> #[trigger] holdings(b, id) == holdings(a, id),
    ensures
        holders(b).finite(),
        supply(b) + holdings(a, x) == supply(a) + holdings(b, x),
{
    reveal(supply);
    let rest = holders(a).remove(x);
    assert forall|id: Id| holders(b).remove(x).contains(id) == rest.contains(id) by {
        if id != x {
            assert(holdings(b, id) == holdings(a, id));
        }
    }
    assert(holders(b).remove(x) =~= rest);
    assert(holders(b).subset_of(rest.insert(x)));
    vstd::set_lib::lemma_len_subset(holders(b), rest.insert(x));
    assert forall|id: Id| rest.contains(id) implies #[trigger] holdings(a, id) == holdings(b, id) by {
        assert(holdings(b, id) == holdings(a, id));
    }
    lemma_sum_agrees(a, b, rest);
    if holders(a).contains(x) {
        lemma_take_out(a, holders(a), x);
    } else {
        assert(rest =~= holders(a));
    }
    if holders(b).contains(x) {
        lemma_take_out(b, holders(b), x);
    } else {
        assert(rest =~= holders(b));
    }
}

/// Finitely many records have finitely many owners.
proof fn lemma_holders_finite(db: Db)
    requires
        db.dom().finite(),
    ensures
        holders(db).finite(),
{
    let owner = |k: Seq<u8>| choose|id: Id| balance_key(id) == k;
    let owners = db.dom().map(owner);
    db.dom().lemma_map_finite(owner);
    reveal(slot);
    assert forall|id: Id| holders(db).contains(id) implies owners.contains(id) by {
        let k = balance_key(id);
        assert(db.dom().contains(k));
        let c = owner(k);
        assert(balance_key(c) == k);
        law_keys_distinct(c, id, 0, 0);
    }
    vstd::set_lib::lemma_len_subset(holders(db), owners);
}

/// Can the tokens be counted?
spec fn countable(db: Db) -> bool {
    balances_readable(db) && holders(db).finite()
}

proof fn lemma_same_balances(a: Db, b: Db)
    requires
        countable(a),
        forall|id: Id| #[trigger] balance_at(b, id) == balance_at(a, id),
    ensures
        countable(b),
        supply(b) == supply(a),
{
    reveal(balances_readable);
    assert forall|id: Id| #[trigger] holdings(b, id) == holdings(a, id) by {
        assert(balance_at(b, id) == balance_at(a, id));
    }
    assert forall|id: Id| #[trigger] balance_at(b, id) is Ok by {
        assert(balance_at(a, id) is Ok);
    }
    lemma_one_changes(a, b, arbitrary());
}

/// How writes bear on the supply.
proof fn lemma_supply()
    ensures
        forall|db: Db, id: Id| countable(db) ==> #[trigger] balance_at(db, id) is Ok,
        forall|db: Db, id: Id, m: RCWBalance| countable(db) ==> countable(#[trigger] put_balance(db, id, m)) && supply(put_balance(db, id, m)) + holdings(db, id)
            == supply(db) + m.spec_total(),
        forall|db: Db, id: Id, m: ParticipantView| countable(db) ==> countable(#[trigger] put_participant(db, id, m)) && supply(put_participant(db, id, m)) == supply(db),
        forall|db: Db, id: Id, m: SettlementRecord| countable(db) ==> countable(#[trigger] put_settlement(db, id, m)) && supply(put_settlement(db, id, m)) == supply(db),
        forall|db: Db, id: Id, m: Escrow| countable(db) ==> countable(#[trigger] put_escrow(db, id, m)) && supply(put_escrow(db, id, m)) == supply(db),
        forall|db: Db, id: Id, m: DisputeView| countable(db) ==> countable(#[trigger] put_dispute(db, id, m)) && supply(put_dispute(db, id, m)) == supply(db),
        forall|db: Db, id: Id, m: AnchorRecord| countable(db) ==> countable(#[trigger] put_anchor(db, id, m)) && supply(put_anchor(db, id, m)) == supply(db),
        forall|db: Db, id: Id, n: u64| countable(db) ==> countable(#[trigger] put_nonce(db, id, n)) && supply(put_nonce(db, id, n)) == supply(db),
{
    assert forall|db: Db, id: Id| countable(db) implies #[trigger] balance_at(db, id) is Ok by {
        reveal(balances_readable);
    }
    assert forall|db: Db, id: Id, m: RCWBalance| countable(db) implies countable(#[trigger] put_balance(db, id, m)) && supply(put_balance(db, id, m)) + holdings(db, id)
        == supply(db) + m.spec_total() by {
        let after = put_balance(db, id, m);
        assert forall|x: Id| x != id implies #[trigger] holdings(after, x) == holdings(db, x) by {
            law_balance_reads(x);
        }
        law_balance_reads(id);
        lemma_one_changes(db, after, id);
        reveal(balances_readable);
        assert forall|x: Id| #[trigger] balance_at(after, x) is Ok by {
            law_balance_reads(x);
            assert(balance_at(db, x) is Ok);
        }
    }
    assert forall|db: Db, id: Id, m: ParticipantView| countable(db) implies countable(#[trigger] put_participant(db, id, m)) && supply(put_participant(db, id, m)) == supply(db) by {
        assert forall|x: Id| #[trigger] balance_at(put_participant(db, id, m), x) == balance_at(db, x) by {
            law_balance_reads(x);
        }
        lemma_same_balances(db, put_participant(db, id, m));
    }
    assert forall|db: Db, id: Id, m: SettlementRecord| countable(db) implies countable(#[trigger] put_settlement(db, id, m)) && supply(put_settlement(db, id, m)) == supply(db) by {
        assert forall|x: Id| #[trigger] balance_at(put_settlement(db, id, m), x) == balance_at(db, x) by {
            law_balance_reads(x);
        }
        lemma_same_balances(db, put_settlement(db, id, m));
    }
    assert forall|db: Db, id: Id, m: Escrow| countable(db) implies countable(#[trigger] put_escrow(db, id, m)) && supply(put_escrow(db, id, m)) == supply(db) by {
        assert forall|x: Id| #[trigger] balance_at(put_escrow(db, id, m), x) == balance_at(db, x) by {
            law_balance_reads(x);
        }
        lemma_same_balances(db, put_escrow(db, id, m));
    }
    assert forall|db: Db, id: Id, m: DisputeView| countable(db) implies countable(#[trigger] put_dispute(db, id, m)) && supply(put_dispute(db, id, m)) == supply(db) by {
        assert forall|x: Id| #[trigger] balance_at(put_dispute(db, id, m), x) == balance_at(db, x) by {
            law_balance_reads(x);
        }
        lemma_same_balances(db, put_dispute(db, id, m));
    }
    assert forall|db: Db, id: Id, m: AnchorRecord| countable(db) implies countable(#[trigger] put_anchor(db, id, m)) && supply(put_anchor(db, id, m)) == supply(db) by {
        assert forall|x: Id| #[trigger] balance_at(put_anchor(db, id, m), x) == balance_at(db, x) by {
            law_balance_reads(x);
        }
        lemma_same_balances(db, put_anchor(db, id, m));
    }
    assert forall|db: Db, id: Id, n: u64| countable(db) implies countable(#[trigger] put_nonce(db, id, n)) && supply(put_nonce(db, id, n)) == supply(db) by {
        assert forall|x: Id| #[trigger] balance_at(put_nonce(db, id, n), x) == balance_at(db, x) by {
            law_balance_reads(x);
        }
        lemma_same_balances(db, put_nonce(db, id, n));
    }
}

/// Does the supply change by what the events say?
spec fn accounts(db: Db, step: Step) -> bool {
    match step {
        Some((after, Ok(events))) => countable(after) && supply(after) + spent(events) == supply(db) + minted(events),
        Some((after, Err(_))) => countable(after) && supply(after) == supply(db),
        None => true,
    }
}

proof fn lemma_events()
    ensures
        forall|a: Seq<EventView>, b: Seq<EventView>| #[trigger] minted(a + b) == minted(a) + minted(b),
        forall|a: Seq<EventView>, b: Seq<EventView>| #[trigger] spent(a + b) == spent(a) + spent(b),
        forall|a: Seq<EventView>, e: EventView| #[trigger] minted(a.push(e)) == minted(a) + minted(seq![e]),
        forall|a: Seq<EventView>, e: EventView| #[trigger] spent(a.push(e)) == spent(a) + spent(seq![e]),
        forall|e: EventView| #[trigger] minted(seq![e]) == match e {
            EventView::RCWMinted { amount, .. } => amount as nat,
            _ => 0,
        },
        forall|e: EventView| #[trigger] spent(seq![e]) == match e {
            EventView::RCWSpent { amount, .. } => amount as nat,
            _ => 0,
        },
{
    assert forall|a: Seq<EventView>, b: Seq<EventView>| #[trigger] minted(a + b) == minted(a) + minted(b) by {
        lemma_events_join(a, b);
    }
    assert forall|a: Seq<EventView>, b: Seq<EventView>| #[trigger] spent(a + b) == spent(a) + spent(b) by {
        lemma_events_join(a, b);
    }
    assert forall|a: Seq<EventView>, e: EventView| #[trigger] minted(a.push(e)) == minted(a) + minted(seq![e]) by {
        assert(a.push(e) =~= a + seq![e]);
        lemma_events_join(a, seq![e]);
    }
    assert forall|a: Seq<EventView>, e: EventView| #[trigger] spent(a.push(e)) == spent(a) + spent(seq![e]) by {
        assert(a.push(e) =~= a + seq![e]);
        lemma_events_join(a, seq![e]);
    }
    assert forall|e: EventView| #[trigger] minted(seq![e]) == match e {
        EventView::RCWMinted { amount, .. } => amount as nat,
        _ => 0,
    } by {
        assert(minted(seq![e].drop_last()) == 0);
    }
    assert forall|e: EventView| #[trigger] spent(seq![e]) == match e {
        EventView::RCWSpent { amount, .. } => amount as nat,
        _ => 0,
    } by {
        assert(spent(seq![e].drop_last()) == 0);
    }
}

proof fn lemma_events_join(a: Seq<EventView>, b: Seq<EventView>)
    ensures
        minted(a + b) == minted(a) + minted(b),
        spent(a + b) == spent(a) + spent(b),
    decreases b.len(),
{
    if b.len() == 0 {
        assert(a + b =~= a);
    } else {
        lemma_events_join(a, b.drop_last());
        assert((a + b).drop_last() =~= a + b.drop_last());
        assert((a + b).last() == b.last());
    }
}

proof fn lemma_mint_accounts(db: Db, to: Id, amount: u64, reason: Seq<char>)
    requires
        countable(db),
    ensures
        accounts(db, mint_step(db, to, amount, reason)),
        !(mint_step(db, to, amount, reason) matches Some((_, Err(_)))),
{
    lemma_supply();
    lemma_events();
}

proof fn lemma_debit(db: Db, from: Id, amount: u64)
    requires
        countable(db),
    ensures
        match debit_step(db, from, amount) {
            Some((after, Ok(events))) => countable(after) && supply(after) + amount == supply(db) && events == Seq::<EventView>::empty(),
            Some((after, Err(_))) => after == db,
            None => true,
        },
{
    lemma_supply();
    if let Some((_, Ok(_))) = debit_step(db, from, amount) {
        law_earned_first(balance_at(db, from)->Ok_0, amount);
    }
}

proof fn lemma_transfer_accounts(db: Db, from: Id, to: Id, amount: u64, purpose: Seq<char>)
    requires
        countable(db),
    ensures
        accounts(db, transfer_step(db, from, to, amount)),
        accounts(db, spend_step(db, from, amount, purpose)),
{
    lemma_supply();
    lemma_events();
    lemma_debit(db, from, amount);
}

proof fn lemma_reward_accounts(db: Db, first: Seq<EventView>, to: Id, amount: u64, reason: Seq<char>)
    requires
        countable(db),
        minted(first) == 0,
        spent(first) == 0,
    ensures
        accounts(db, reward_step(db, first, to, amount, reason)),
        !(reward_step(db, first, to, amount, reason) matches Some((_, Err(_)))),
{
    lemma_mint_accounts(db, to, amount, reason);
    lemma_events();
}

proof fn lemma_both_account(db: Db, first: Seq<EventView>, buyer: Id, seller: Id, reward: u64)
    requires
        countable(db),
        minted(first) == 0,
        spent(first) == 0,
    ensures
        accounts(db, both_rewards_step(db, first, buyer, seller, reward)),
{
    lemma_events();
    lemma_mint_accounts(db, buyer, reward, "escrow_complete"@);
    if let Some((rewarded, Ok(_))) = mint_step(db, buyer, reward, "escrow_complete"@) {
        lemma_mint_accounts(rewarded, seller, reward, "escrow_complete"@);
    }
}

proof fn lemma_released_accounts(db: Db, escrow_id: Id, e: Escrow, timestamp: i64, reward: u64)
    requires
        countable(db),
    ensures
        accounts(db, released_step(db, escrow_id, e, timestamp, reward)),
{
    lemma_supply();
    lemma_events();
    let first = seq![EventView::EscrowReleased { escrow_id }];
    assert forall|d: Db| countable(d) implies accounts(d, #[trigger] both_rewards_step(d, first, e.buyer, e.seller, reward)) by {
        lemma_both_account(d, first, e.buyer, e.seller, reward);
    }
}

proof fn lemma_verdict_accounts(db: Db, raised_by: Id, e: Escrow, resolution: u8, reward: u64)
    requires
        countable(db),
    ensures
        accounts(db, verdict_step(db, raised_by, e, resolution, reward)),
{
    lemma_supply();
    assert forall|d: Db, to: Id| countable(d) implies accounts(d, #[trigger] reward_step(d, Seq::empty(), to, reward, "dispute_won"@)) by {
        lemma_reward_accounts(d, Seq::empty(), to, reward, "dispute_won"@);
    }
}

proof fn lemma_vote_accounts(db: Db, dispute_id: Id, voter: Id, decision: DisputeDecision, timestamp: i64, reward: u64, threshold: usize)
    requires
        countable(db),
    ensures
        accounts(db, vote_step(db, dispute_id, voter, decision, timestamp, reward, threshold)),
{
    lemma_supply();
    lemma_events();
    assert forall|by: Id, e: Escrow, v: u8| accounts(db, #[trigger] verdict_step(db, by, e, v, reward)) by {
        lemma_verdict_accounts(db, by, e, v, reward);
    }
}

proof fn lemma_settlement_accounts(db: Db, sender: Id, id: Id, data: SettlementData, rating: u16, success: bool, timestamp: i64, reward: u64)
    requires
        countable(db),
    ensures
        accounts(db, record_step(db, sender, id, data, timestamp, reward)),
        accounts(db, rating_step(db, id, rating, success, timestamp, reward)),
{
    lemma_supply();
    lemma_events();
    assert forall|d: Db, first: Seq<EventView>, reason: Seq<char>| countable(d) && minted(first) == 0 && spent(first) == 0 implies accounts(
        d,
        #[trigger] reward_step(d, first, id, reward, reason),
    ) by {
        lemma_reward_accounts(d, first, id, reward, reason);
    }
}

proof fn lemma_escrow_accounts(db: Db, sender: Id, escrow_id: Id, evidence_hash: [u8; 32], timestamp: i64, reward: u64)
    requires
        countable(db),
    ensures
        accounts(db, release_step(db, sender, escrow_id, evidence_hash, timestamp, reward)),
        accounts(db, Some(refund_step(db, sender, escrow_id, timestamp))),
{
    lemma_supply();
    lemma_events();
    assert forall|d: Db, e: Escrow| countable(d) implies accounts(d, #[trigger] released_step(d, escrow_id, e, timestamp, reward)) by {
        lemma_released_accounts(d, escrow_id, e, timestamp, reward);
    }
}

/// Tokens appear only where an event says that they were minted and disappear only
/// where one says that they were spent: a transaction that succeeds changes the supply
/// by just that, and one that is refused leaves it as it is. Balances stay readable.
pub proof fn law_tokens_conserved(rules: Rules, db: Db, tx: TransactionView, timestamp: i64)
    requires
        db.dom().finite(),
        balances_readable(db),
    ensures
        match execute_step(rules, db, tx, timestamp) {
            Some((after, Ok(events))) => balances_readable(after) && after.dom().finite() && supply(after) + spent(events) == supply(db) + minted(events),
            Some((after, Err(_))) => balances_readable(after) && after.dom().finite() && supply(after) == supply(db),
            None => true,
        },
{
    lemma_holders_finite(db);
    law_finite_stays_finite(rules, db, tx, timestamp);
    let noted = put_nonce(db, tx.sender, tx.nonce);
    assert(countable(noted) && supply(noted) == supply(db)) by {
        lemma_supply();
    }
    assert(accounts(noted, payload_step(rules, noted, tx.sender, tx.payload, timestamp))) by {
        reveal(payload_step);
        let sender = tx.sender;
        match tx.payload {
            PayloadView::RecordSettlement { participant_id, record } => {
                lemma_settlement_accounts(noted, sender, participant_id, record, 0, true, timestamp, rules.rewards.settlement_recorded);
            },
            PayloadView::RecordRating { participant_id, rating, success } => {
                lemma_settlement_accounts(noted, sender, participant_id, arbitrary(), rating, success, timestamp, rules.rewards.rating_submitted);
            },
            PayloadView::ReleaseEscrow { escrow_id, evidence_hash } => {
                lemma_escrow_accounts(noted, sender, escrow_id, evidence_hash, timestamp, rules.rewards.escrow_completed);
            },
            PayloadView::RefundEscrow { escrow_id } => {
                lemma_escrow_accounts(noted, sender, escrow_id, EMPTY_HASH, timestamp, 0);
            },
            PayloadView::VoteDispute { dispute_id, decision } => {
                lemma_vote_accounts(noted, dispute_id, sender, decision, timestamp, rules.rewards.dispute_won, rules.vote_threshold);
            },
            PayloadView::TransferRCW { to, amount, memo } => {
                lemma_transfer_accounts(noted, sender, to, amount, memo);
            },
            PayloadView::SpendRCW { amount, purpose } => {
                lemma_transfer_accounts(noted, sender, sender, amount, purpose);
            },
            _ => {
                lemma_supply();
                lemma_events();
            },
        }
    }
}

/// At first there are no tokens, and every balance can be read.
pub proof fn law_no_tokens_at_first()
    ensures
        supply(Map::empty()) == 0,
        balances_readable(Map::empty()),
{
    reveal(supply);
    reveal(balances_readable);
    reveal(slot);
    assert(holders(Map::empty()) =~= Set::empty());
}

} // verus!
