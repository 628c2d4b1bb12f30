//! What a node does with messages, time and its turn.

use crate::consensus::ConsensusView;
use crate::crypto::blake3_hash;
use crate::laws::consensus::{law_newcomer, law_proposal, law_round_begins, law_votes_noted};
use crate::laws::reads::law_block_reads;
use crate::message::{frame_bytes, law_frame_read_back, ConsensusMessage, MessageView, PeerView, MAX_MESSAGE};
use crate::node::{elapsed, made, next_height, select_step, NodeView, PendingOutcome, ProduceOutcome, ProposalOutcome};
use crate::store::{block_at, latest_height, state_bytes, Db, Slot};
use crate::types::{Block, BlockHeader, BlockView, EventView, Id, NodeSignature, TransactionView};
use crate::votes::voters;
use crate::wire::{parsed, Wire};
use vstd::prelude::*;

verus! {

// ── Messages ──

/// All but the consensus and the pending block is as it was.
pub open spec fn same_elsewhere(v: NodeView, w: NodeView) -> bool {
    &&& w.rules == v.rules && w.db == v.db && w.saved == v.saved && w.last_block_ms == v.last_block_ms && w.networked == v.networked
    &&& w.block_time_ms == v.block_time_ms && w.view_change_timeout_ms == v.view_change_timeout_ms && w.listen_address == v.listen_address
}

/// A signature is added to the pending block just where it is a valid one of that
/// block and for its height; nothing else changes.
pub proof fn law_signature_arrives(v: NodeView, height: u64, sig: NodeSignature)
    ensures
        ({
            let after = v.after_message(MessageView::Sign(height, sig));
            &&& same_elsewhere(v, after) && after.consensus == v.consensus
            &&& v.pending is None ==> after.pending is None
            &&& v.pending matches Some(block) ==> (after.pending matches Some(b) && {
                &&& b.header == block.header && b.transactions == block.transactions
                &&& if block.header.height == height && v.consensus.is_valid(block.header, sig) {
                    b.signatures.len() == block.signatures.len() + 1 && b.signatures.drop_last() == block.signatures && b.signatures.last() == sig
                } else {
                    b.signatures == block.signatures
                }
            })
        }),
{
    if let Some(block) = v.pending {
        assert(block.signatures.push(sig).drop_last() =~= block.signatures);
    }
}

/// A vote that arrives counts for the one it names, at the height and for the round
/// that it names; nothing else changes.
pub proof fn law_vote_arrives(v: NodeView, height: u64, round: u32, from: Id)
    ensures
        ({
            let after = v.after_message(MessageView::ViewChange { height, round, node_id: from });
            &&& same_elsewhere(v, after) && after.pending == v.pending
            &&& voters(after.consensus.votes, height, round) == voters(v.consensus.votes, height, round).insert(from)
            &&& after.consensus.round == if round > v.consensus.round && 2 * voters(v.consensus.votes, height, round).insert(from).len() > v.consensus.peers.len() + 1 {
                round
            } else {
                v.consensus.round
            }
            &&& after.consensus.peers == v.consensus.peers && after.consensus.pending == v.consensus.pending && after.consensus.node_id == v.consensus.node_id
        }),
{
    law_round_begins(v.consensus, height, round, from);
    law_votes_noted(v.consensus, height, round, from, height, round);
}

/// Whoever introduces itself and is neither known nor the node itself becomes a peer
/// under the id, the key and the address that it gives, and is sent the node's own
/// introduction at that address. To everybody else nothing is sent, and nothing
/// changes.
pub proof fn law_stranger_arrives(v: NodeView, peer: PeerView)
    ensures
        ({
            let m = MessageView::Handshake { node_id: peer.id, public_key: peer.public_key, listen_addr: peer.address };
            let after = v.after_message(m);
            let new = peer.id != v.consensus.node_id && forall|i: int| 0 <= i < v.consensus.peers.len() ==> (#[trigger] v.consensus.peers[i]).id != peer.id;
            let own = MessageView::Handshake { node_id: v.consensus.node_id, public_key: v.consensus.node_id, listen_addr: v.listen_address };
            &&& same_elsewhere(v, after) && after.pending == v.pending
            &&& new ==> after.consensus.peers.len() == v.consensus.peers.len() + 1 && after.consensus.peers.last() == peer && after.consensus.peers.drop_last() == v.consensus.peers
            &&& !new ==> after.consensus.peers == v.consensus.peers
            &&& after.consensus.round == v.consensus.round && after.consensus.votes == v.consensus.votes && after.consensus.pending == v.consensus.pending
            &&& v.reply_to(m) is Some <==> new
            &&& v.reply_to(m) matches Some((address, bytes)) ==> address == peer.address && bytes == frame_bytes(own)
        }),
{
    law_newcomer(v.consensus, peer);
}

/// A transaction, a proposal or a request changes nothing of the node and gets no
/// reply. Neither does a signature or a vote get one.
pub proof fn law_quiet_messages(v: NodeView, m: MessageView)
    ensures
        !(m is Handshake) ==> v.reply_to(m) is None,
        m is SubmitTx || m is Propose || m is RequestTxs ==> v.after_message(m) == v,
{
}

/// What the node says of itself, another reads: its id, which is its key, and its
/// address.
pub proof fn law_introduction_read(v: NodeView)
    requires
        ConsensusMessage::bytes(v.handshake()).len() <= MAX_MESSAGE,
    ensures
        parsed::<ConsensusMessage>(frame_bytes(v.handshake()).skip(4)) matches Some(MessageView::Handshake { node_id, public_key, listen_addr }) && node_id
            == v.consensus.node_id && public_key == v.consensus.node_id && listen_addr == v.listen_address,
{
    law_frame_read_back(v.handshake());
}

/// A message names its sender: the proposer, the signer, the one whose transaction or
/// vote it is, the one who introduces itself. A request names nobody.
pub proof fn law_senders(m: MessageView)
    ensures
        m matches MessageView::Propose(block) ==> m.sender() == block.header.proposer,
        m matches MessageView::Sign(_, sig) ==> m.sender() == sig.node_id,
        m matches MessageView::SubmitTx(tx) ==> m.sender() == tx.sender,
        m matches MessageView::ViewChange { node_id, .. } ==> m.sender() == node_id,
        m matches MessageView::Handshake { node_id, .. } ==> m.sender() == node_id,
        m is RequestTxs ==> forall|i: int| 0 <= i < 32 ==> #[trigger] m.sender()[i] == 0,
{
}

// ── Time ──

/// A block awaits signatures for twice the time between blocks, rounded down to four
/// milliseconds, if that can be reckoned.
pub proof fn law_patience(v: NodeView)
    ensures
        v.block_time_ms <= i64::MAX / 2 ==> (v.patience() matches Some(limit) && limit % 4 == 0 && 2 * v.block_time_ms - 2 <= limit <= 2 * v.block_time_ms),
        v.patience() is None <==> 2 * v.block_time_ms - 2 * (v.block_time_ms % 2) > u64::MAX,
{
}

/// The time from a start to an end, if it can be reckoned.
pub proof fn law_elapsed(start: i64, end: i64)
    ensures
        elapsed(start, end) matches Some(time) ==> start + time == end,
        elapsed(start, end) is None <==> end - start > i64::MAX || end - start < i64::MIN,
{
}

/// The next block is one higher than the latest, as long as there is a higher number.
pub proof fn law_next_height(db: Db)
    ensures
        next_height(db) matches Some(height) ==> height == latest_height(db) + 1,
        next_height(db) is None <==> latest_height(db) == u64::MAX,
{
}

/// What comes of a pending block at a time. With enough signatures it is stored and is
/// the latest, and the node starts over with round zero and no votes. Else it is
/// dropped once it has waited for longer than twice the time between blocks, rounded
/// down to four milliseconds, and otherwise stays.
pub open spec fn settles(v: NodeView, after: NodeView, r: Option<PendingOutcome>, now: i64) -> bool {
    &&& v.pending is None ==> r == Some(PendingOutcome::Idle) && after == v
    &&& v.pending matches Some(block) ==> {
        let enough = v.consensus.signers(block).len() >= v.consensus.min_signatures;
        let age = now - block.header.timestamp;
        let limit = 2 * v.block_time_ms - 2 * (v.block_time_ms % 2);
        &&& r == Some(PendingOutcome::Finalized) <==> enough
        &&& enough ==> {
            &&& latest_height(after.db) == block.header.height && after.pending is None && after.last_block_ms == now
            &&& after.consensus.round == 0 && after.consensus.votes.dom().is_empty()
        }
        &&& !enough ==> after.db == v.db && after.consensus == v.consensus && after.last_block_ms == v.last_block_ms
        &&& !enough && i64::MIN <= age <= i64::MAX && limit <= i64::MAX ==> {
            &&& age > limit ==> r == Some(PendingOutcome::TimedOut) && after.pending is None
            &&& age <= limit ==> r == Some(PendingOutcome::Waiting) && after == v
        }
    }
}

/// When a node votes for the next round: where it has peers and has seen no new block
/// for longer than its limit. Its vote is for the next height and round, and it is
/// sent; the time starts anew if the round begins with it.
pub open spec fn loses_patience(v: NodeView, after: NodeView, r: Option<Option<Vec<u8>>>, now: i64) -> bool {
    let time = now - v.last_block_ms;
    let (height, round) = (latest_height(v.db) + 1, v.consensus.round + 1);
    &&& !v.networked ==> (r matches Some(None))
    &&& !(r matches Some(Some(_))) ==> after == v
    &&& v.networked && i64::MIN <= time <= i64::MAX && v.view_change_timeout_ms <= i64::MAX && height <= u64::MAX && round <= u32::MAX ==> {
        &&& time <= v.view_change_timeout_ms ==> (r matches Some(None))
        &&& time > v.view_change_timeout_ms ==> (r matches Some(Some(_)))
    }
    &&& r matches Some(Some(frame)) ==> {
        let votes = voters(v.consensus.votes, height as u64, round as u32).insert(v.consensus.node_id);
        let begins = 2 * votes.len() > v.consensus.peers.len() + 1;
        &&& height <= u64::MAX && round <= u32::MAX
        &&& frame@ == frame_bytes(MessageView::ViewChange { height: height as u64, round: round as u32, node_id: v.consensus.node_id })
        &&& voters(after.consensus.votes, height as u64, round as u32) == votes
        &&& begins ==> after.consensus.round == round && after.last_block_ms == now
        &&& !begins ==> after.consensus.round == v.consensus.round && after.last_block_ms == v.last_block_ms
        &&& after.db == v.db && after.pending == v.pending && after.consensus.peers == v.consensus.peers && after.consensus.pending == v.consensus.pending
    }
}

// ── A block of another ──

/// When a node signs what is proposed: not a first block, not where it has a block at
/// that height, on the block that it has before it, and where it accepts it. It signs
/// nothing else, and what it does not sign changes nothing. What it signs it takes in;
/// a block that could be taken in counts as seen.
pub open spec fn responds(v: NodeView, after: NodeView, r: Option<ProposalOutcome>, block: BlockView, now: i64) -> bool {
    let height = block.header.height;
    let follows = block_at(v.db, (height - 1) as u64) matches Slot::Present(parent) && block.header.prev_hash@ == blake3_hash(BlockHeader::bytes(parent.header));
    let good = height > 0 && block_at(v.db, height) !is Present && follows && v.consensus.accepts(block, block.header.prev_hash);
    &&& height + v.consensus.round <= usize::MAX ==> (good <==> (r matches Some(ProposalOutcome::Signed { .. })))
    &&& !(r matches Some(ProposalOutcome::Signed { .. })) ==> after == v
    &&& r matches Some(ProposalOutcome::Signed { frame, applied }) ==> {
        &&& after.consensus == v.consensus && after.pending == v.pending && after.rules == v.rules && after.saved == v.saved
        &&& applied matches Some(Ok(_)) ==> latest_height(after.db) == height && after.last_block_ms == now
        &&& !(applied matches Some(Ok(_))) ==> after.last_block_ms == v.last_block_ms
    }
}

// ── A block of one's own ──

/// What a node does in a turn: nothing unless it leads at the next height and has
/// transactions; nothing where it lacks the block before. Else it takes all of them out
/// of its pool and makes a block, at the next height, of those that are not refused,
/// if there are any.
pub open spec fn takes_turn(v: NodeView, after: NodeView, r: Option<ProduceOutcome>, now: i64) -> bool {
    let height = latest_height(v.db) + 1;
    let leads = v.consensus.leader(height as u64, v.consensus.round) == v.consensus.node_id && v.consensus.pending.len() > 0;
    &&& height <= u64::MAX && height + v.consensus.round <= usize::MAX ==> {
        &&& !leads <==> (r matches Some(ProduceOutcome::Idle))
        &&& leads && block_at(v.db, latest_height(v.db)) !is Present <==> (r matches Some(ProduceOutcome::MissingParent))
        &&& r matches Some(ProduceOutcome::NoneValid) ==> select_step(v.rules, v.db, v.consensus.pending, now) matches Some((db, kept, _)) && kept.len() == 0 && after.db == db
        &&& r matches Some(ProduceOutcome::Made { height: h, transactions, .. }) ==> h == height && transactions > 0 && (select_step(
            v.rules,
            v.db,
            v.consensus.pending,
            now,
        ) matches Some((_, kept, _)) && transactions == kept.len())
    }
    &&& (r matches Some(ProduceOutcome::Idle)) || (r matches Some(ProduceOutcome::MissingParent)) ==> after == v
    &&& (r matches Some(ProduceOutcome::NoneValid)) || (r matches Some(ProduceOutcome::Made { .. })) ==> after.consensus.pending.len() == 0
}

/// Are there enough? As many different nodes as are required must have signed.
pub proof fn law_final(v: NodeView, block: BlockView)
    ensures
        v.is_final(block) <==> v.consensus.signers(block).len() >= v.consensus.min_signatures,
{
}

/// What comes of a block that the node made. A node without peers stores it at once. A
/// node with peers sends it to them; it stores it at once if its own signature is
/// enough, and then starts over with round zero and no votes, and else keeps it until
/// enough have signed. Either way the transactions are taken out of the pool.
pub proof fn law_block_made(v: NodeView, after: NodeView, r: Option<ProduceOutcome>, block: BlockView, db: Db, events: Seq<EventView>, now: i64)
    requires
        made(v, after, r, block, db, events, now),
        Block::bytes(block).len() <= u64::MAX,
    ensures
        r matches Some(ProduceOutcome::Made { height, transactions, events: count, frame, stored }) && {
            let alone = v.consensus.peers.len() == 0;
            &&& height == block.header.height && transactions == block.transactions.len() && count == events.len()
            &&& frame is None <==> alone
            &&& frame matches Some(f) ==> f@ == frame_bytes(MessageView::Propose(block))
            &&& stored <==> alone || v.consensus.signers(block).len() >= v.consensus.min_signatures
            &&& stored ==> {
                &&& block_at(after.db, block.header.height) == Slot::Present(block)
                &&& latest_height(after.db) == block.header.height
                &&& after.last_block_ms == now && after.pending == v.pending
            }
            &&& !stored ==> after.db == db && after.pending == Some(block) && after.last_block_ms == v.last_block_ms
            &&& after.consensus.pending.len() == 0 && after.consensus.peers == v.consensus.peers && after.consensus.node_id == v.consensus.node_id
            &&& if stored && !alone {
                after.consensus.round == 0 && after.consensus.votes.dom().is_empty()
            } else {
                after.consensus.round == v.consensus.round && after.consensus.votes == v.consensus.votes
            }
            &&& after.rules == v.rules && after.saved == v.saved && after.networked == v.networked
        },
{
    law_block_reads(db, block, block.header.height);
}

/// The block that a node makes is on the block before, tells the state it leads to,
/// and holds what was kept, at the height and the time.
pub proof fn law_block_is_made(v: NodeView, block: BlockView, parent: BlockHeader, db: Db, kept: Seq<TransactionView>, height: u64, now: i64)
    requires
        v.is_made(block, parent, db, kept, height, now),
    ensures
        block.header.prev_hash@ == blake3_hash(BlockHeader::bytes(parent)),
        block.header.state_root@ == blake3_hash(state_bytes(db)),
        block.transactions == kept,
        block.header.height == height && block.header.timestamp == now && block.header.proposer == v.consensus.node_id,
        kept.len() <= u32::MAX ==> block.header.tx_count == kept.len(),
        block.signatures.len() == 1 && block.signatures[0].node_id == v.consensus.node_id,
{
    law_proposal(
        ConsensusView { pending: kept, ..v.consensus },
        block,
        now,
        height,
        block.header.prev_hash,
        block.header.state_root,
    );
}

} // verus!
