//! A node: what it decides at its start and in each turn of its loop.

use crate::consensus::{block_header_hash, header_hash, lemma_signers, turn_fits, Consensus, ConsensusView};
use crate::laws::consensus::law_own_vote;
use crate::laws::nodes::{loses_patience, responds, settles, takes_turn};
use crate::laws::reads::{law_latest, law_stored_block};
use crate::message::{frame, frame_bytes, frame_proposal, ConsensusMessage, MessageView, Peer, PeerView};
use crate::state::machine::{apply_step, execute_step, law_machine_limits, run_step, Rules};
use crate::state::step::{outcome, with_more};
use crate::state::StateMachine;
use crate::store::{block_at, fits, latest_height, law_store_limits, put_block, state_root, Db, Slot, Store};
use crate::text::{hex_text, json_field, json_object, json_pair, json_text, law_hex_read_back, parse_hex, to_hex, unhex};
use crate::types::state::event_views;
use crate::types::{Block, BlockHeader, BlockView, Event, EventView, Id, NodeSignature, PeerConfig, Transaction, TransactionView};
use crate::wire::models;
use vstd::prelude::*;

verus! {

// ── Start ──

/// 32 bytes in hexadecimal digits.
pub open spec fn is_key(text: Seq<char>) -> bool {
    unhex(text) is Some && unhex(text)->0.len() == 32
}

/// A keypair as it stands in a key file; nothing where either key is unreadable.
pub fn parse_keypair(public_hex: &str, private_hex: &str) -> (r: Option<([u8; 32], [u8; 32])>)
    ensures
        match r {
            Some((public_key, private_key)) => unhex(public_hex@) == Some(public_key@) && unhex(private_hex@) == Some(private_key@),
            None => !is_key(public_hex@) || !is_key(private_hex@),
        },
{
    match (parse_hex::<32>(public_hex), parse_hex::<32>(private_hex)) {
        (Some(public_key), Some(private_key)) => Some((public_key, private_key)),
        _ => None,
    }
}

/// The keypair in a key file; nothing where a key is missing or unreadable.
pub fn parse_key_file(contents: &str) -> (r: Option<([u8; 32], [u8; 32])>)
    ensures
        match r {
            Some((public_key, private_key)) => {
                &&& json_field(contents@, "public_key"@) matches Some(p) && unhex(p) == Some(public_key@)
                &&& json_field(contents@, "private_key"@) matches Some(p) && unhex(p) == Some(private_key@)
            },
            None => !(json_field(contents@, "public_key"@) matches Some(p) && is_key(p)) || !(json_field(contents@, "private_key"@) matches Some(p)
                && is_key(p)),
        },
{
    match (json_text(contents, "public_key"), json_text(contents, "private_key")) {
        (Some(public_hex), Some(private_hex)) => parse_keypair(public_hex.as_str(), private_hex.as_str()),
        _ => None,
    }
}

/// The contents of a key file. `parse_key_file` finds the keypair in it.
pub fn key_file(public_key: &[u8; 32], private_key: &[u8; 32]) -> (r: String)
    ensures
        r@ == json_pair("public_key"@, hex_text(public_key@), "private_key"@, hex_text(private_key@)),
        json_field(r@, "public_key"@) matches Some(p) && unhex(p) == Some(public_key@),
        json_field(r@, "private_key"@) matches Some(p) && unhex(p) == Some(private_key@),
{
    proof {
        reveal_strlit("public_key");
        reveal_strlit("private_key");
        assert("public_key"@.len() != "private_key"@.len());
        law_hex_read_back(public_key@);
        law_hex_read_back(private_key@);
    }
    let public_hex = to_hex(public_key.as_slice());
    let private_hex = to_hex(private_key.as_slice());
    json_object("public_key", public_hex.as_str(), "private_key", private_hex.as_str())
}

/// Does the peer say what the configuration says?
pub open spec fn is_configured(p: PeerView, c: PeerConfig) -> bool {
    &&& unhex(c.id@) == Some(p.id@)
    &&& unhex(c.public_key@) == Some(p.public_key@)
    &&& p.address == c.address@
}

/// Can the configured peer be read?
pub open spec fn is_readable(c: PeerConfig) -> bool {
    is_key(c.id@) && is_key(c.public_key@)
}

/// The configured peers that can be read.
pub open spec fn readable(configs: Seq<PeerConfig>) -> Seq<PeerConfig> {
    configs.filter(|c: PeerConfig| is_readable(c))
}

/// Build the peer list: the peers that can be read, in order.
pub fn parse_peers(configs: &Vec<PeerConfig>) -> (r: Vec<Peer>)
    ensures
        r@.len() == readable(configs@).len(),
        forall|i: int| 0 <= i < r@.len() ==> is_configured((#[trigger] r@[i])@, readable(configs@)[i]),
{
    let ghost good = |c: PeerConfig| is_readable(c);
    let mut peers: Vec<Peer> = Vec::new();
    let n: usize = configs.len();
    let mut i: usize = 0;
    proof {
        reveal(Seq::filter);
        assert(configs@.take(0).filter(good) =~= Seq::<PeerConfig>::empty());
    }
    while i < n
        invariant
            n == configs@.len(),
            i <= n,
            good == (|c: PeerConfig| is_readable(c)),
            peers@.len() == configs@.take(i as int).filter(good).len(),
            forall|j: int| 0 <= j < peers@.len() ==> is_configured((#[trigger] peers@[j])@, configs@.take(i as int).filter(good)[j]),
        decreases n - i,
    {
        proof {
            reveal(Seq::filter);
            assert(configs@.take(i + 1).drop_last() =~= configs@.take(i as int));
            assert(configs@.take(i + 1).last() == configs@[i as int]);
        }
        let c = &configs[i];
        match (parse_hex::<32>(c.id.as_str()), parse_hex::<32>(c.public_key.as_str())) {
            (Some(id), Some(public_key)) => {
                peers.push(Peer { id, address: c.address.clone(), public_key });
            },
            _ => {},
        }
        i += 1;
    }
    assert(configs@.take(n as int) =~= configs@);
    peers
}

/// The texts that are keys.
pub open spec fn key_texts(texts: Seq<String>) -> Seq<String> {
    texts.filter(|t: String| is_key(t@))
}

/// Parse platform keys for anchor authorization: those that can be read, in order.
pub fn parse_platform_keys(texts: &Vec<String>) -> (r: Vec<Id>)
    ensures
        r@.len() == key_texts(texts@).len(),
        forall|i: int| 0 <= i < r@.len() ==> unhex(key_texts(texts@)[i]@) == Some((#[trigger] r@[i])@),
{
    let ghost good = |t: String| is_key(t@);
    let mut keys: Vec<Id> = Vec::new();
    let n: usize = texts.len();
    let mut i: usize = 0;
    proof {
        reveal(Seq::filter);
        assert(texts@.take(0).filter(good) =~= Seq::<String>::empty());
    }
    while i < n
        invariant
            n == texts@.len(),
            i <= n,
            good == (|t: String| is_key(t@)),
            keys@.len() == texts@.take(i as int).filter(good).len(),
            forall|j: int| 0 <= j < keys@.len() ==> unhex(texts@.take(i as int).filter(good)[j]@) == Some((#[trigger] keys@[j])@),
        decreases n - i,
    {
        proof {
            reveal(Seq::filter);
            assert(texts@.take(i + 1).drop_last() =~= texts@.take(i as int));
            assert(texts@.take(i + 1).last() == texts@[i as int]);
        }
        if let Some(key) = parse_hex::<32>(texts[i].as_str()) {
            keys.push(key);
        }
        i += 1;
    }
    assert(texts@.take(n as int) =~= texts@);
    keys
}

/// How many signatures make a block final: a node without peers needs its own only.
pub fn required_signatures(peer_count: usize, configured: usize) -> (r: usize)
    ensures
        r == if peer_count == 0 {
            1
        } else {
            configured
        },
        peer_count == 0 ==> r == 1,
        peer_count > 0 ==> r == configured,
{
    if peer_count == 0 {
        1
    } else {
        configured
    }
}

/// Create the genesis block where there is none that can be read. Was it created?
pub fn ensure_genesis(store: &mut Store, timestamp: i64, node_id: Id) -> (r: bool)
    ensures
        r == (block_at(old(store)@, 0) !is Present),
        final(store)@ == if r {
            put_block(old(store)@, BlockView::genesis(timestamp, node_id))
        } else {
            old(store)@
        },
        final(store).saved() == old(store).saved(),
        block_at(final(store)@, 0) is Present,
        r ==> latest_height(final(store)@) == 0,
{
    match store.get_block(0) {
        Ok(Some(_)) => false,
        _ => {
            let genesis = Block::genesis(timestamp, node_id);
            match store.put_block(&genesis) {
                Ok(_) => {},
                Err(_) => {},
            }
            proof {
                law_store_limits(*store);
                law_stored_block(store@, old(store)@, genesis@);
            }
            true
        },
    }
}

// ── What a node stands for ──

/// What a node stands for.
pub struct NodeView {
    pub consensus: ConsensusView,
    pub rules: Rules,
    pub db: Db,
    /// The records when the writes were last handed out.
    pub saved: Db,
    /// The block that awaits signatures.
    pub pending: Option<BlockView>,
    /// When a new block was last seen.
    pub last_block_ms: i64,
    /// Did the node start with peers?
    pub networked: bool,
    pub block_time_ms: u64,
    pub view_change_timeout_ms: u64,
    pub listen_address: Seq<char>,
}

/// A node.
pub struct Node {
    consensus: Consensus,
    machine: StateMachine,
    pending_block: Option<Block>,
    last_block_ms: i64,
    networked: bool,
    block_time_ms: u64,
    view_change_timeout_ms: u64,
    listen_address: String,
}

pub open spec fn block_of(b: Option<Block>) -> Option<BlockView> {
    match b {
        Some(b) => Some(b@),
        None => None,
    }
}

impl View for Node {
    type V = NodeView;

    closed spec fn view(&self) -> NodeView {
        NodeView {
            consensus: self.consensus@,
            rules: self.machine.rules(),
            db: self.machine.db(),
            saved: self.machine.saved(),
            pending: block_of(self.pending_block),
            last_block_ms: self.last_block_ms,
            networked: self.networked,
            block_time_ms: self.block_time_ms,
            view_change_timeout_ms: self.view_change_timeout_ms,
            listen_address: self.listen_address@,
        }
    }
}

impl NodeView {
    /// How the node introduces itself.
    pub open spec fn handshake(self) -> MessageView {
        MessageView::Handshake {
            node_id: self.consensus.node_id,
            public_key: self.consensus.node_id,
            listen_addr: self.listen_address,
        }
    }

    /// The node after a message. Signatures for the pending block are kept if they are
    /// valid; votes count; strangers become peers.
    pub open spec fn after_message(self, m: MessageView) -> NodeView {
        match m {
            MessageView::Sign(height, sig) => match self.pending {
                Some(block) => {
                    if block.header.height == height && self.consensus.is_valid(block.header, sig) {
                        NodeView { pending: Some(BlockView { signatures: block.signatures.push(sig), ..block }), ..self }
                    } else {
                        self
                    }
                },
                None => self,
            },
            MessageView::ViewChange { height, round, node_id } => NodeView { consensus: self.consensus.vote_of(height, round, node_id).0, ..self },
            MessageView::Handshake { node_id, public_key, listen_addr } => NodeView {
                consensus: self.consensus.with_peer(PeerView { id: node_id, address: listen_addr, public_key }).0,
                ..self
            },
            _ => self,
        }
    }

    /// Where and what the node replies: a newcomer gets the node's handshake.
    pub open spec fn reply_to(self, m: MessageView) -> Option<(Seq<char>, Seq<u8>)> {
        match m {
            MessageView::Handshake { node_id, public_key, listen_addr } => {
                if self.consensus.with_peer(PeerView { id: node_id, address: listen_addr, public_key }).1 {
                    Some((listen_addr, frame_bytes(self.handshake())))
                } else {
                    None
                }
            },
            _ => None,
        }
    }

    /// For how long a block may await signatures, if that can be reckoned: four times
    /// half the time between blocks.
    pub open spec fn patience(self) -> Option<i64> {
        if (self.block_time_ms / 2) * 4 > u64::MAX {
            None
        } else {
            Some(((self.block_time_ms / 2) * 4) as u64 as i64)
        }
    }

    /// Are there enough signatures?
    pub open spec fn is_final(self, block: BlockView) -> bool {
        self.consensus.signers(block).len() >= self.consensus.min_signatures
    }
}

/// The turn can be told and the height reckoned.
pub open spec fn next_height(db: Db) -> Option<u64> {
    if latest_height(db) == u64::MAX {
        None
    } else {
        Some((latest_height(db) + 1) as u64)
    }
}

/// `end` less `start`, if it can be reckoned.
pub open spec fn elapsed(start: i64, end: i64) -> Option<i64> {
    if i64::MIN <= end - start <= i64::MAX {
        Some((end - start) as i64)
    } else {
        None
    }
}

/// What became of the pending block.
#[derive(Debug, Clone, Copy, PartialEq, Eq, Structural)]
pub enum PendingOutcome {
    /// There is none.
    Idle,
    /// It has enough signatures and was stored.
    Finalized,
    /// It waited too long and was dropped.
    TimedOut,
    /// It goes on waiting.
    Waiting,
}

/// What became of a proposal.
pub enum ProposalOutcome {
    /// A genesis block is never proposed.
    Genesis,
    /// There is a block at its height already.
    Fork,
    /// The block before it is missing.
    MissingParent,
    /// The node does not sign it.
    Rejected,
    /// The node signs it: the message to broadcast, and what applying the block came
    /// to. Nothing of the latter where a number left its range.
    Signed { frame: Vec<u8>, applied: Option<Result<Vec<Event>, String>> },
}

/// What became of the node's turn to produce a block.
pub enum ProduceOutcome {
    /// It is not the node's turn, or there is nothing to put in a block.
    Idle,
    /// The block before is missing.
    MissingParent,
    /// No transaction could be executed.
    NoneValid,
    /// A block was made: how many transactions and events it has, the message to
    /// broadcast where there are peers, and whether it was stored at once.
    Made { height: u64, transactions: usize, events: usize, frame: Option<Vec<u8>>, stored: bool },
}

/// Execute transactions in order: the records, those that were not refused, and
/// their events.
pub open spec fn select_step(rules: Rules, db: Db, txs: Seq<TransactionView>, timestamp: i64) -> Option<(Db, Seq<TransactionView>, Seq<EventView>)>
    decreases txs.len(),
{
    if txs.len() == 0 {
        Some((db, Seq::empty(), Seq::empty()))
    } else {
        match select_step(rules, db, txs.drop_last(), timestamp) {
            None => None,
            Some((before, kept, events)) => match execute_step(rules, before, txs.last(), timestamp) {
                None => None,
                Some((after, Ok(more))) => Some((after, kept.push(txs.last()), events + more)),
                Some((after, Err(_))) => Some((after, kept, events)),
            },
        }
    }
}

/// Do the records fit at first and after each of the transactions?
pub open spec fn fits_throughout(rules: Rules, db: Db, txs: Seq<TransactionView>, timestamp: i64) -> bool
    decreases txs.len(),
{
    &&& txs.len() > 0 ==> fits_throughout(rules, db, txs.drop_last(), timestamp)
    &&& select_step(rules, db, txs, timestamp) matches Some((after, _, _)) ==> fits(after)
}

proof fn lemma_select_stops(rules: Rules, db: Db, txs: Seq<TransactionView>, timestamp: i64, at: int)
    requires
        0 <= at <= txs.len(),
        select_step(rules, db, txs.take(at), timestamp) is None,
    ensures
        select_step(rules, db, txs, timestamp) is None,
    decreases txs.len(),
{
    if at == txs.len() {
        assert(txs.take(at) =~= txs);
    } else {
        assert(txs.drop_last().take(at) =~= txs.take(at));
        lemma_select_stops(rules, db, txs.drop_last(), timestamp, at);
    }
}

/// Execute transactions in order and keep those that were not refused.
pub fn select_txs(machine: &mut StateMachine, txs: Vec<Transaction>, timestamp: i64) -> (r: Option<(Vec<Transaction>, Vec<Event>)>)
    ensures
        match select_step(old(machine).rules(), old(machine).db(), models::<Transaction>(txs@), timestamp) {
            Some((db, kept, events)) => r matches Some((k, e)) && final(machine).db() == db && models::<Transaction>(k@) == kept && event_views(e@) == events,
            None => r is None,
        },
        r is Some ==> fits_throughout(old(machine).rules(), old(machine).db(), models::<Transaction>(txs@), timestamp),
        final(machine).rules() == old(machine).rules(),
        final(machine).saved() == old(machine).saved(),
{
    let ghost (rules, db, saved) = (machine.rules(), machine.db(), machine.saved());
    let ghost all = models::<Transaction>(txs@);
    let ghost given = txs@;
    let mut rest = txs;
    let mut kept: Vec<Transaction> = Vec::new();
    let mut events: Vec<Event> = Vec::new();
    // Taken from the end of the reversed list, they come in order.
    let mut queue: Vec<Transaction> = Vec::new();
    while rest.len() > 0
        invariant
            rest@.len() + queue@.len() == given.len(),
            rest@ =~= given.take(rest@.len() as int),
            queue@ =~= given.skip(rest@.len() as int).reverse(),
        decreases rest@.len(),
    {
        let ghost t0 = rest@;
        if let Some(tx) = rest.pop() {
            assert(given.skip(t0.len() - 1).reverse() =~= given.skip(t0.len() as int).reverse().push(tx));
            queue.push(tx);
        }
    }
    assert(queue@ =~= given.reverse());
    assert(event_views(events@) =~= Seq::<EventView>::empty());
    assert(models::<Transaction>(kept@) =~= Seq::<TransactionView>::empty());
    proof {
        law_machine_limits(*machine);
    }
    let n: usize = queue.len();
    let mut i: usize = 0;
    while i < n
        invariant
            n == given.len(),
            i <= n,
            fits_throughout(rules, db, all.take(i as int), timestamp),
            queue@ =~= given.skip(i as int).reverse(),
            all == models::<Transaction>(given),
            given == txs@,
            rules == old(machine).rules(),
            db == old(machine).db(),
            saved == old(machine).saved(),
            machine.rules() == rules,
            machine.saved() == saved,
            select_step(rules, db, all.take(i as int), timestamp) == Some((machine.db(), models::<Transaction>(kept@), event_views(events@))),
        decreases n - i,
    {
        let ghost upto = all.take(i + 1);
        let ghost q0 = queue@;
        proof {
            assert(upto.drop_last() =~= all.take(i as int));
            assert(upto.last() == given[i as int]@);
            assert(q0.last() == given[i as int]);
        }
        if let Some(tx) = queue.pop() {
            assert(queue@ =~= given.skip(i + 1).reverse());
            match machine.execute_checked(&tx, timestamp) {
                None => {
                    proof {
                        lemma_select_stops(rules, db, all, timestamp, i + 1);
                    }
                    return None;
                },
                Some(Ok(more)) => {
                    let ghost k0 = kept@;
                    events = with_more(events, more);
                    kept.push(tx);
                    assert(models::<Transaction>(kept@) =~= models::<Transaction>(k0).push(tx@));
                },
                Some(Err(_)) => {},
            }
            proof {
                law_machine_limits(*machine);
            }
        }
        i += 1;
    }
    assert(all.take(n as int) =~= all);
    Some((kept, events))
}

/// What a node holds is limited, as every store is.
pub proof fn law_node_limits(node: Node)
    ensures
        node@.db.dom().finite(),
        fits(node@.db),
{
    law_machine_limits(node.machine);
}

impl Node {
    /// A node at its start.
    pub fn new(consensus: Consensus, machine: StateMachine, now: i64, block_time_ms: u64, view_change_timeout_ms: u64, listen_address: String) -> (r: Node)
        ensures
            r@ == (NodeView {
                consensus: consensus@,
                rules: machine.rules(),
                db: machine.db(),
                saved: machine.saved(),
                pending: None,
                last_block_ms: now,
                networked: consensus@.peers.len() > 0,
                block_time_ms,
                view_change_timeout_ms,
                listen_address: listen_address@,
            }),
    {
        let networked = consensus.peer_count() > 0;
        Node { consensus, machine, pending_block: None, last_block_ms: now, networked, block_time_ms, view_change_timeout_ms, listen_address }
    }

    /// The node's side of the consensus.
    pub fn consensus(&self) -> (r: &Consensus)
        ensures
            r@ == self@.consensus,
    {
        &self.consensus
    }

    /// The node's records.
    pub fn store(&self) -> (r: &Store)
        ensures
            r@ == self@.db,
            r.saved() == self@.saved,
    {
        self.machine.store()
    }

    /// Did the node start with peers?
    pub fn is_networked(&self) -> (r: bool)
        ensures
            r == self@.networked,
    {
        self.networked
    }

    /// Hand out the writes to make on disk (see `Store::take_writes`).
    pub fn take_writes(&mut self) -> (r: Vec<(Vec<u8>, Vec<u8>)>)
        ensures
            crate::store::replay(old(self)@.saved, crate::store::pairs(r@)) == old(self)@.db,
            final(self)@ == (NodeView { saved: old(self)@.db, ..old(self)@ }),
    {
        self.machine.store_mut().take_writes()
    }

    /// How the node introduces itself, as it is sent.
    pub fn handshake_frame(&self) -> (r: Vec<u8>)
        ensures
            r@ == frame_bytes(self@.handshake()),
    {
        let id = self.consensus.node_id();
        frame(&ConsensusMessage::Handshake { node_id: id, public_key: id, listen_addr: self.listen_address.clone() })
    }

    /// Take in a message. Transactions and proposals are put on their lists; a reply,
    /// with the address it goes to, is handed back.
    pub fn receive(&mut self, msg: ConsensusMessage, txs: &mut Vec<Transaction>, proposals: &mut Vec<Block>) -> (r: Option<(String, Vec<u8>)>)
        ensures
            final(self)@ == old(self)@.after_message(msg@),
            match old(self)@.reply_to(msg@) {
                Some((address, bytes)) => r matches Some((a, b)) && a@ == address && b@ == bytes,
                None => r is None,
            },
            final(txs)@ == match msg {
                ConsensusMessage::SubmitTx(tx) => old(txs)@.push(tx),
                _ => old(txs)@,
            },
            final(proposals)@ == match msg {
                ConsensusMessage::Propose(block) => old(proposals)@.push(block),
                _ => old(proposals)@,
            },
    {
        match msg {
            ConsensusMessage::SubmitTx(tx) => {
                txs.push(tx);
                None
            },
            ConsensusMessage::Propose(block) => {
                proposals.push(block);
                None
            },
            ConsensusMessage::Sign(height, sig) => {
                // Collect signatures for pending block
                let mut pending: Option<Block> = None;
                std::mem::swap(&mut pending, &mut self.pending_block);
                match pending {
                    Some(mut block) => {
                        if block.header.height == height && self.consensus.verify_block_signature(&block, &sig) {
                            block.signatures.push(sig);
                        }
                        self.pending_block = Some(block);
                    },
                    None => {},
                }
                None
            },
            ConsensusMessage::RequestTxs => None,
            ConsensusMessage::ViewChange { height, round, node_id } => {
                self.consensus.receive_view_change(height, round, &node_id);
                None
            },
            ConsensusMessage::Handshake { node_id, public_key, listen_addr } => {
                let address = listen_addr.clone();
                if self.consensus.add_peer(node_id, public_key, listen_addr) {
                    // Send handshake back so the new peer knows about us
                    Some((address, self.handshake_frame()))
                } else {
                    None
                }
            },
        }
    }

    /// See to the pending block: store it if enough signatures have come in, drop it if
    /// it has waited too long at `now`. Nothing where a time is out of range.
    pub fn settle_pending(&mut self, now: i64) -> (r: Option<PendingOutcome>)
        ensures
            settles(old(self)@, final(self)@, r, now),
            ({
                let v = old(self)@;
                let after = final(self)@;
                match v.pending {
                    None => r == Some(PendingOutcome::Idle) && after == v,
                    Some(block) => if v.is_final(block) {
                        r == Some(PendingOutcome::Finalized) && after == (NodeView {
                            db: put_block(v.db, block),
                            consensus: ConsensusView { round: 0, votes: Map::empty(), ..v.consensus },
                            pending: None,
                            last_block_ms: now,
                            ..v
                        })
                    } else {
                        match (elapsed(block.header.timestamp, now), v.patience()) {
                            (Some(age), Some(limit)) => if age > limit {
                                r == Some(PendingOutcome::TimedOut) && after == (NodeView { pending: None, ..v })
                            } else {
                                r == Some(PendingOutcome::Waiting) && after == v
                            },
                            _ => r is None && after == v,
                        }
                    },
                }
            }),
    {
        let ghost v = self@;
        let mut pending: Option<Block> = None;
        std::mem::swap(&mut pending, &mut self.pending_block);
        match pending {
            None => Some(PendingOutcome::Idle),
            Some(block) => {
                if self.consensus.is_finalized(&block) {
                    match self.machine.store_mut().put_block(&block) {
                        Ok(_) => {},
                        Err(_) => {},
                    }
                    proof {
                        law_latest(v.db, block@);
                    }
                    self.last_block_ms = now;
                    self.consensus.reset_round();
                    return Some(PendingOutcome::Finalized);
                }
                // Check timeout: if block is too old, discard
                let started: i64 = block.header.timestamp;
                let half: u64 = self.block_time_ms / 2;
                match (now.checked_sub(started), half.checked_mul(4)) {
                    (Some(age_ms), Some(limit)) => {
                        if age_ms > #[verifier::truncate] (limit as i64) {
                            Some(PendingOutcome::TimedOut)
                        } else {
                            self.pending_block = Some(block);
                            Some(PendingOutcome::Waiting)
                        }
                    },
                    _ => {
                        self.pending_block = Some(block);
                        None
                    },
                }
            },
        }
    }

    /// Handle an incoming block proposal (follower) at time `now`. A block that is taken
    /// in counts as seen then. Nothing where its turn cannot be told.
    pub fn handle_proposal(&mut self, block: Block, now: i64) -> (r: Option<ProposalOutcome>)
        ensures
            responds(old(self)@, final(self)@, r, block@, now),
            ({
                let v = old(self)@;
                let after = final(self)@;
                let height = block.header.height;
                if height == 0 {
                    r matches Some(ProposalOutcome::Genesis) && after == v
                } else if block_at(v.db, height) is Present {
                    r matches Some(ProposalOutcome::Fork) && after == v
                } else {
                    match block_at(v.db, (height - 1) as u64) {
                        Slot::Present(parent) => if !turn_fits(height, v.consensus.round) {
                            r is None && after == v
                        } else if exists|prev: crate::types::Hash| prev@ == header_hash(parent.header) && v.consensus.accepts(block@, prev) {
                            &&& r matches Some(ProposalOutcome::Signed { frame, applied })
                            &&& exists|sig: NodeSignature|
                                v.consensus.is_own_signature(block.header, sig) && frame@ == #[trigger] frame_bytes(MessageView::Sign(height, sig))
                            &&& match apply_step(v.rules, v.db, block@) {
                                Some((db, how)) => applied is Some && outcome(applied->0) == how && after == (NodeView {
                                    db,
                                    last_block_ms: if how is Ok {
                                        now
                                    } else {
                                        v.last_block_ms
                                    },
                                    ..v
                                }),
                                None => applied is None && after == v,
                            }
                        } else {
                            r matches Some(ProposalOutcome::Rejected) && after == v
                        },
                        _ => r matches Some(ProposalOutcome::MissingParent) && after == v,
                    }
                }
            }),
    {
        let height: u64 = block.header.height;
        if block.is_genesis() {
            return Some(ProposalOutcome::Genesis);
        }

        // Fork detection: reject block if we already have one at this height
        if let Ok(Some(_)) = self.machine.store().get_block(height) {
            return Some(ProposalOutcome::Fork);
        }

        let prev_hash = match self.machine.store().get_block(height - 1) {
            Ok(Some(prev)) => block_header_hash(&prev.header),
            _ => return Some(ProposalOutcome::MissingParent),
        };

        // Proposer validation is done inside verify_and_sign (is_valid_proposer check)
        if !self.consensus.can_tell_leader(height) {
            return None;
        }
        let ghost parent = block_at(self@.db, (height - 1) as u64)->Present_0;
        proof {
            assert forall|prev: crate::types::Hash| prev@ == header_hash(parent.header) implies prev == prev_hash by {
                crate::bytes::lemma_array_of_view(prev, prev_hash);
            }
        }
        match self.consensus.verify_and_sign(&block, &prev_hash) {
            Some(sig) => {
                // Signature for the proposer
                let frame = frame(&ConsensusMessage::Sign(height, sig));
                assert(frame@ == frame_bytes(MessageView::Sign(height, sig)));
                // Apply block locally
                let ghost v = self@;
                let applied = self.machine.apply_block_checked(&block);
                proof {
                    if let Some((mid, _)) = run_step(v.rules, v.db, block@.transactions, block.header.timestamp) {
                        law_latest(mid, block@);
                    }
                }
                if let Some(Ok(_)) = &applied {
                    self.last_block_ms = now;
                }
                Some(ProposalOutcome::Signed { frame, applied })
            },
            None => Some(ProposalOutcome::Rejected),
        }
    }

    /// Feed transactions to consensus.
    pub fn push_txs(&mut self, txs: Vec<Transaction>)
        ensures
            final(self)@ == (NodeView {
                consensus: ConsensusView { pending: old(self)@.consensus.pending + models::<Transaction>(txs@), ..old(self)@.consensus },
                ..old(self)@
            }),
    {
        self.consensus.push_txs(txs);
    }

    /// Is a block awaiting signatures?
    pub fn has_pending_block(&self) -> (r: bool)
        ensures
            r == (self@.pending is Some),
    {
        self.pending_block.is_some()
    }

    /// View change timeout: if there has been no new block for too long at `now`, vote
    /// for the next round; the vote to broadcast is handed back. Nothing where a time,
    /// the height or the round is out of range.
    pub fn check_view_change(&mut self, now: i64) -> (r: Option<Option<Vec<u8>>>)
        ensures
            loses_patience(old(self)@, final(self)@, r, now),
            ({
                let v = old(self)@;
                let after = final(self)@;
                if !v.networked {
                    r matches Some(None) && after == v
                } else {
                    match elapsed(v.last_block_ms, now) {
                        None => r is None && after == v,
                        Some(time) => if time <= v.view_change_timeout_ms as i64 {
                            r matches Some(None) && after == v
                        } else if next_height(v.db) is None || v.consensus.round == u32::MAX {
                            r is None && after == v
                        } else {
                            let height = next_height(v.db)->0;
                            let round = (v.consensus.round + 1) as u32;
                            &&& r matches Some(Some(frame))
                            &&& frame@ == frame_bytes(MessageView::ViewChange { height, round, node_id: v.consensus.node_id })
                            &&& after == (NodeView {
                                consensus: v.consensus.own_vote(height).0,
                                last_block_ms: if v.consensus.own_vote(height).1 {
                                    now
                                } else {
                                    v.last_block_ms
                                },
                                ..v
                            })
                        },
                    }
                }
            }),
    {
        if !self.networked {
            return Some(None);
        }
        let time: i64 = match now.checked_sub(self.last_block_ms) {
            Some(t) => t,
            None => return None,
        };
        if time <= #[verifier::truncate] (self.view_change_timeout_ms as i64) {
            return Some(None);
        }
        let latest: u64 = self.machine.store().get_latest_height();
        if latest == u64::MAX || self.consensus.round() == u32::MAX {
            return None;
        }
        let height: u64 = latest + 1;
        let round: u32 = self.consensus.round() + 1;
        proof {
            law_own_vote(self@.consensus, height);
        }
        if self.consensus.request_view_change(height) {
            self.last_block_ms = now; // reset timer
        }
        // View change for the peers
        Some(Some(frame(&ConsensusMessage::ViewChange { height, round, node_id: self.consensus.node_id() })))
    }

    /// If it is the node's turn and there are transactions, make a block at time `now`:
    /// execute them, keep those that were not refused, sign. With enough signatures,
    /// or without peers, the block is stored at once; else it awaits signatures.
    /// Nothing where a number leaves its range.
    pub fn produce(&mut self, now: i64) -> (r: Option<ProduceOutcome>)
        ensures
            takes_turn(old(self)@, final(self)@, r, now),
            ({
                let v = old(self)@;
                let after = final(self)@;
                match next_height(v.db) {
                    None => r is None && after == v,
                    Some(height) => if !turn_fits(height, v.consensus.round) {
                        r is None && after == v
                    } else if v.consensus.leader(height, v.consensus.round) != v.consensus.node_id || v.consensus.pending.len() == 0 {
                        r matches Some(ProduceOutcome::Idle) && after == v
                    } else {
                        match block_at(v.db, (height - 1) as u64) {
                            Slot::Present(parent) => match select_step(v.rules, v.db, v.consensus.pending, now) {
                                None => r is None,
                                Some((db, kept, events)) => {
                                    let drained = ConsensusView { pending: Seq::empty(), ..v.consensus };
                                    &&& fits_throughout(v.rules, v.db, v.consensus.pending, now)
                                    &&& if kept.len() == 0 {
                                        r matches Some(ProduceOutcome::NoneValid) && after == (NodeView { db, consensus: drained, ..v })
                                    } else {
                                        exists|block: BlockView| #[trigger] v.is_made(block, parent.header, db, kept, height, now) && made(v, after, r, block, db, events, now)
                                    }
                                },
                            },
                            _ => r matches Some(ProduceOutcome::MissingParent) && after == v,
                        }
                    },
                }
            }),
    {
        let ghost v = self@;
        let latest: u64 = self.machine.store().get_latest_height();
        if latest == u64::MAX {
            return None;
        }
        let height: u64 = latest + 1;
        if !self.consensus.can_tell_leader(height) {
            return None;
        }
        if !self.consensus.is_leader(height) || !self.consensus.has_pending_txs() {
            return Some(ProduceOutcome::Idle);
        }

        // Leader: build and propose block
        let prev_hash = match self.machine.store().get_block(height - 1) {
            Ok(Some(prev)) => block_header_hash(&prev.header),
            _ => return Some(ProduceOutcome::MissingParent),
        };
        let txs = self.consensus.drain_pending_txs();

        // Execute transactions against state
        let (valid_txs, all_events) = match select_txs(&mut self.machine, txs, now) {
            Some(x) => x,
            None => return None,
        };
        if valid_txs.len() == 0 {
            return Some(ProduceOutcome::NoneValid);
        }
        let transactions: usize = valid_txs.len();
        let events: usize = all_events.len();

        // Compute state root after execution
        let state_root = self.machine.store().compute_state_root();
        let ghost db = self.machine.db();
        let block = self.consensus.build_block(valid_txs, now, height, prev_hash, state_root);
        let ghost made_block = block@;
        let ghost parent = block_at(v.db, (height - 1) as u64)->Present_0;
        proof {
            assert(v.is_made(made_block, parent.header, db, made_block.transactions, height, now));
            lemma_signers(v.consensus, self.consensus@, made_block);
        }

        if self.consensus.peer_count() > 0 {
            // Multi-node: broadcast and wait for signatures
            let bytes = frame_proposal(&block);
            // If already finalized (min_signatures=1), store immediately
            if self.consensus.is_finalized(&block) {
                match self.machine.store_mut().put_block(&block) {
                    Ok(_) => {},
                    Err(_) => {},
                }
                self.last_block_ms = now;
                self.consensus.reset_round();
                Some(ProduceOutcome::Made { height, transactions, events, frame: Some(bytes), stored: true })
            } else {
                // Wait for signatures in subsequent turns
                self.pending_block = Some(block);
                Some(ProduceOutcome::Made { height, transactions, events, frame: Some(bytes), stored: false })
            }
        } else {
            // Solo node: immediately final
            match self.machine.store_mut().put_block(&block) {
                Ok(_) => {},
                Err(_) => {},
            }
            self.last_block_ms = now;
            Some(ProduceOutcome::Made { height, transactions, events, frame: None, stored: true })
        }
    }
}

impl NodeView {
    /// Is this the block that the node makes of the transactions that were kept?
    pub open spec fn is_made(self, block: BlockView, parent: BlockHeader, db: Db, kept: Seq<TransactionView>, height: u64, now: i64) -> bool {
        &&& block.header.prev_hash@ == header_hash(parent)
        &&& block.header.state_root@ == state_root(db)
        &&& (ConsensusView { pending: kept, ..self.consensus }).proposes(block, now, height, block.header.prev_hash, block.header.state_root)
    }
}

/// What making a block leads to.
pub open spec fn made(v: NodeView, after: NodeView, r: Option<ProduceOutcome>, block: BlockView, db: Db, events: Seq<EventView>, now: i64) -> bool {
    let drained = ConsensusView { pending: Seq::empty(), ..v.consensus };
    match r {
        Some(ProduceOutcome::Made { height, transactions, events: count, frame, stored }) => {
            &&& height == block.header.height
            &&& transactions == block.transactions.len()
            &&& count == events.len()
            &&& if v.consensus.peers.len() > 0 {
                &&& frame matches Some(f) && f@ == frame_bytes(MessageView::Propose(block))
                &&& stored == v.is_final(block)
                &&& after == if stored {
                    NodeView {
                        db: put_block(db, block),
                        consensus: ConsensusView { round: 0, votes: Map::empty(), ..drained },
                        last_block_ms: now,
                        ..v
                    }
                } else {
                    NodeView { db, consensus: drained, pending: Some(block), ..v }
                }
            } else {
                &&& frame is None
                &&& stored
                &&& after == (NodeView { db: put_block(db, block), consensus: drained, last_block_ms: now, ..v })
            }
        },
        _ => false,
    }
}

} // verus!
