//! Turns, votes and signatures.

use crate::bytes::{le, lex_lt};
use crate::consensus::{peer_ids, peer_key, ConsensusView};
use crate::crypto::{blake3_hash, ed25519_public, ed25519_valid};
use crate::message::PeerView;
use crate::roster::{id_leq, id_order, in_order, lemma_id_order_total, lemma_in_order, lemma_order_keeps};
use crate::types::{BlockHeader, BlockView, Id, NodeSignature, Transaction, EMPTY_HASH};
use crate::votes::{cast, voters, Votes};
use crate::wire::{run, Wire};
use vstd::prelude::*;

verus! {

/// The ids of all nodes that a node knows, itself included, as it knows them.
pub open spec fn known(v: ConsensusView) -> Seq<Id> {
    peer_ids(v.peers).push(v.node_id)
}

/// Everybody that a node knows has a place in its order, and nobody else.
pub proof fn law_roster(v: ConsensusView)
    ensures
        v.roster().len() == v.peers.len() + 1,
        forall|id: Id| #[trigger] v.roster().contains(id) <==> (id == v.node_id || peer_ids(v.peers).contains(id)),
{
    lemma_order_keeps(known(v));
    assert forall|id: Id| #[trigger] known(v).contains(id) <==> (id == v.node_id || peer_ids(v.peers).contains(id)) by {
        if known(v).contains(id) {
            let i = known(v).index_of(id);
            assert(i < v.peers.len() ==> peer_ids(v.peers)[i] == id);
        }
        if peer_ids(v.peers).contains(id) {
            let i = peer_ids(v.peers).index_of(id);
            assert(known(v)[i] == id);
        }
        assert(known(v)[v.peers.len() as int] == v.node_id);
    }
}

/// Nodes that know the same nodes, in whatever order, name the same leader.
pub proof fn law_leader_agreed(a: ConsensusView, b: ConsensusView, height: u64, round: u32)
    requires
        known(a).to_multiset() == known(b).to_multiset(),
    ensures
        a.leader(height, round) == b.leader(height, round),
{
    lemma_order_keeps(known(b));
    lemma_in_order(known(a), in_order(known(b)));
}

/// Turns repeat: after as many blocks as there are nodes, the same node leads.
pub proof fn law_turns_repeat(v: ConsensusView, height: u64, round: u32)
    requires
        height + v.roster().len() <= u64::MAX,
    ensures
        v.leader((height + v.roster().len()) as u64, round) == v.leader(height, round),
{
    law_roster(v);
    let n = v.roster().len() as int;
    vstd::arithmetic::div_mod::lemma_mod_add_multiples_vanish(height + round, n);
}

/// Everybody gets a turn: each node leads at one of the first heights.
pub proof fn law_everyone_leads(v: ConsensusView, id: Id) -> (height: u64)
    requires
        v.roster().contains(id),
        v.roster().len() <= u64::MAX,
    ensures
        height < v.roster().len(),
        v.leader(height, 0) == id,
{
    let i = v.roster().index_of(id);
    vstd::arithmetic::div_mod::lemma_small_mod(i as nat, v.roster().len());
    i as u64
}

/// A node alone always leads.
pub proof fn law_solo_leads(v: ConsensusView, height: u64, round: u32)
    requires
        v.peers.len() == 0,
    ensures
        v.leader(height, round) == v.node_id,
{
    law_roster(v);
    assert((height + round) % 1 == 0);
    assert(v.roster().contains(v.roster()[0]));
    assert(peer_ids(v.peers).len() == 0);
}

/// A change of view changes the leader: where there are several nodes, all
/// different, the next round has another leader.
pub proof fn law_next_round_next_leader(v: ConsensusView, height: u64, round: u32)
    requires
        v.peers.len() > 0,
        known(v).no_duplicates(),
        round < u32::MAX,
    ensures
        v.leader(height, (round + 1) as u32) != v.leader(height, round),
{
    let n = v.roster().len() as int;
    law_roster(v);
    lemma_order_keeps(known(v));
    known(v).lemma_multiset_has_no_duplicates();
    v.roster().lemma_multiset_has_no_duplicates_conv();
    let x = height + round;
    assert((x + 1) % n != x % n) by (nonlinear_arith)
        requires
            n >= 2,
            x >= 0,
    ;
    assert(0 <= x % n < n && 0 <= (x + 1) % n < n) by (nonlinear_arith)
        requires
            n >= 2,
    ;
}

/// Does `a` come no later than `b`, byte by byte?
pub open spec fn no_later(a: Id, b: Id) -> bool {
    a == b || lex_lt(a@, b@)
}

/// The first turn is that of the node with the lowest id.
pub proof fn law_lowest_first(v: ConsensusView, id: Id)
    requires
        v.roster().contains(id),
    ensures
        no_later(v.leader(0, 0), id),
{
    law_roster(v);
    lemma_order_keeps(known(v));
    let i = v.roster().index_of(id);
    let r = id_order();
    assert(0int % (v.roster().len() as int) == 0) by (nonlinear_arith)
        requires
            v.roster().len() > 0,
    ;
    if i > 0 {
        assert(r(v.roster()[0], v.roster()[i]));
    }
}

/// A round passes the turn on as a block does.
pub proof fn law_round_like_block(v: ConsensusView, height: u64, round: u32)
    requires
        height < u64::MAX,
        round < u32::MAX,
    ensures
        v.leader(height, (round + 1) as u32) == v.leader((height + 1) as u64, round),
{
}

/// The turn passes to the node with the next higher id, and from the highest to the
/// lowest.
pub proof fn law_turn_passes_on(v: ConsensusView, height: u64, round: u32, id: Id)
    requires
        known(v).no_duplicates(),
        height < u64::MAX,
        v.roster().contains(id),
    ensures
        ({
            let now = v.leader(height, round);
            let next = v.leader((height + 1) as u64, round);
            &&& v.roster().contains(now) && v.roster().contains(next)
            // Nobody stands between the two, and if the next is not higher, nobody is
            &&& next != now && no_later(now, next) && no_later(now, id) && id != now ==> no_later(next, id)
            &&& next == now || !no_later(now, next) ==> no_later(id, now) && no_later(next, id)
        }),
{
    let n = v.roster().len() as int;
    let r = id_order();
    law_roster(v);
    lemma_order_keeps(known(v));
    lemma_id_order_total();
    known(v).lemma_multiset_has_no_duplicates();
    v.roster().lemma_multiset_has_no_duplicates_conv();
    let x = height + round;
    let (i, j) = (x % n, (x + 1) % n);
    assert(0 <= i < n && 0 <= j < n && (j == i + 1 || (i == n - 1 && j == 0))) by {
        vstd::arithmetic::div_mod::lemma_mod_bound(x, n);
        vstd::arithmetic::div_mod::lemma_mod_bound(x + 1, n);
        if i == n - 1 {
            vstd::arithmetic::div_mod::lemma_fundamental_div_mod(x, n);
            assert(x + 1 == n * (x / n + 1)) by (nonlinear_arith)
                requires
                    x == n * (x / n) + (n - 1),
            ;
            vstd::arithmetic::div_mod::lemma_fundamental_div_mod_converse(x + 1, n, x / n + 1, 0);
        } else {
            vstd::arithmetic::div_mod::lemma_fundamental_div_mod(x, n);
            assert(x + 1 == (x / n) * n + (i + 1)) by (nonlinear_arith)
                requires
                    x == n * (x / n) + i,
            ;
            vstd::arithmetic::div_mod::lemma_fundamental_div_mod_converse(x + 1, n, x / n, i + 1);
        }
    }
    let k = v.roster().index_of(id);
    assert(v.roster()[k] == id);
    assert forall|a: int, b: int| 0 <= a < b < n implies r(#[trigger] v.roster()[a], #[trigger] v.roster()[b]) && v.roster()[a] != v.roster()[b] by {}
    assert(v.roster().contains(v.roster()[i]));
    assert(v.roster().contains(v.roster()[j]));
    let (now, next) = (v.roster()[i], v.roster()[j]);
    assert(v.leader(height, round) == now && v.leader((height + 1) as u64, round) == next);
    assert(r(now, next) == id_leq(now, next) && r(next, now) == id_leq(next, now));
    assert(r(now, id) == id_leq(now, id) && r(id, now) == id_leq(id, now));
    assert(r(next, id) == id_leq(next, id));
    if j == i + 1 {
        assert(r(v.roster()[i], v.roster()[j]));
        if k < i {
            assert(r(v.roster()[k], v.roster()[i]));
        } else if k > j {
            assert(r(v.roster()[j], v.roster()[k]));
        }
    } else {
        if k < i {
            assert(r(v.roster()[k], v.roster()[i]));
        }
        if k > 0 {
            assert(r(v.roster()[0], v.roster()[k]));
        }
        if i > 0 {
            assert(r(v.roster()[0], v.roster()[i]));
        }
    }
}

/// When the round is reset, the leader is the first again.
pub proof fn law_reset_restores_leader(v: ConsensusView, height: u64, round: u32, votes: Votes)
    ensures
        (ConsensusView { round, votes, ..v }).leader(height, 0) == v.leader(height, 0),
{
}

// ── Votes for a round ──

/// A node's vote counts once, however often it is cast.
pub proof fn law_vote_counts_once(votes: Votes, height: u64, round: u32, voter: Id)
    ensures
        cast(cast(votes, height, round, voter), height, round, voter) == cast(votes, height, round, voter),
{
    let once = cast(votes, height, round, voter);
    assert(voters(once, height, round).insert(voter) =~= voters(once, height, round));
    assert(cast(once, height, round, voter) =~= once);
}

/// A round begins just where it lies ahead and more than half of the nodes have voted
/// for it, this vote included. Nothing else of the node's side changes with a vote.
pub proof fn law_round_begins(v: ConsensusView, height: u64, round: u32, from: Id)
    ensures
        ({
            let (after, begins) = v.vote_of(height, round, from);
            let votes = voters(v.votes, height, round).insert(from);
            &&& begins <==> round > v.round && 2 * votes.len() > v.peers.len() + 1
            &&& after.round == if begins {
                round
            } else {
                v.round
            }
            &&& begins <==> after.round != v.round
            &&& after.node_id == v.node_id && after.peers == v.peers && after.pending == v.pending && after.min_signatures == v.min_signatures && after.private_key
                == v.private_key
        }),
{
    law_roster(v);
    assert(voters(cast(v.votes, height, round, from), height, round) == voters(v.votes, height, round).insert(from));
}

/// A vote is noted under its height and round. When a round begins, the votes for
/// lower heights are forgotten; all other votes stay as they are.
pub proof fn law_votes_noted(v: ConsensusView, height: u64, round: u32, from: Id, h: u64, r: u32)
    ensures
        ({
            let (after, begins) = v.vote_of(height, round, from);
            voters(after.votes, h, r) == if h == height && r == round {
                voters(v.votes, height, round).insert(from)
            } else if begins && h < height {
                Set::empty()
            } else {
                voters(v.votes, h, r)
            }
        }),
{
}

/// A node's own vote is for the round after its own, and counts like any other.
pub proof fn law_own_vote(v: ConsensusView, height: u64)
    requires
        v.round < u32::MAX,
    ensures
        ({
            let (after, begins) = v.own_vote(height);
            let next = (v.round + 1) as u32;
            let votes = voters(v.votes, height, next).insert(v.node_id);
            &&& begins <==> 2 * votes.len() > v.peers.len() + 1
            &&& after.round == if begins {
                next
            } else {
                v.round
            }
            &&& voters(after.votes, height, next) == votes
            &&& v.vote_of(height, next, v.node_id) == (after, begins)
            &&& after.node_id == v.node_id && after.peers == v.peers && after.pending == v.pending && after.min_signatures == v.min_signatures
        }),
{
    let next = (v.round + 1) as u32;
    law_round_begins(v, height, next, v.node_id);
    law_votes_noted(v, height, next, v.node_id, height, next);
}

// ── Peers ──

/// A newcomer is taken in once: it has a place in the order then, and is turned down
/// the next time.
pub proof fn law_peer_once(v: ConsensusView, peer: PeerView, again: PeerView)
    requires
        v.with_peer(peer).1,
        again.id == peer.id,
    ensures
        v.with_peer(peer).0.roster().contains(peer.id),
        v.with_peer(peer).0.roster().len() == v.roster().len() + 1,
        v.with_peer(peer).0.with_peer(again) == (v.with_peer(peer).0, false),
{
    let after = v.with_peer(peer).0;
    law_roster(v);
    law_roster(after);
    assert(peer_ids(after.peers)[v.peers.len() as int] == peer.id);
}

/// A newcomer is one who is neither the node itself nor known. It is added after the
/// others; whoever else introduces itself changes nothing.
pub proof fn law_newcomer(v: ConsensusView, peer: PeerView)
    ensures
        ({
            let (after, new) = v.with_peer(peer);
            &&& new <==> peer.id != v.node_id && forall|i: int| 0 <= i < v.peers.len() ==> (#[trigger] v.peers[i]).id != peer.id
            &&& new ==> after.peers.len() == v.peers.len() + 1 && after.peers.last() == peer && after.peers.drop_last() == v.peers
            &&& !new ==> after.peers == v.peers
            &&& after.node_id == v.node_id && after.private_key == v.private_key && after.min_signatures == v.min_signatures && after.pending == v.pending
            &&& after.round == v.round && after.votes == v.votes
        }),
{
    let (after, new) = v.with_peer(peer);
    if peer_ids(v.peers).contains(peer.id) {
        let i = peer_ids(v.peers).index_of(peer.id);
        assert(v.peers[i].id == peer.id);
    }
    if exists|i: int| 0 <= i < v.peers.len() && (#[trigger] v.peers[i]).id == peer.id {
        let i = choose|i: int| 0 <= i < v.peers.len() && (#[trigger] v.peers[i]).id == peer.id;
        assert(peer_ids(v.peers)[i] == peer.id);
    }
    if new {
        assert(after.peers.drop_last() =~= v.peers);
    }
}

// ── Signatures ──

/// The signature of a peer is valid by that peer's key, and of the node itself by its
/// id. Nobody else's is valid.
pub proof fn law_valid_signature(v: ConsensusView, header: BlockHeader, sig: NodeSignature, i: int)
    ensures
        sig.node_id == v.node_id ==> v.is_valid(header, sig) == ed25519_valid(BlockHeader::bytes(header), sig.signature.0@, v.node_id@),
        sig.node_id != v.node_id && 0 <= i < v.peers.len() && v.peers[i].id == sig.node_id && (forall|j: int| 0 <= j < i ==> (#[trigger] v.peers[j]).id != sig.node_id)
            ==> v.is_valid(header, sig) == ed25519_valid(BlockHeader::bytes(header), sig.signature.0@, v.peers[i].public_key@),
        sig.node_id != v.node_id && (forall|j: int| 0 <= j < v.peers.len() ==> (#[trigger] v.peers[j]).id != sig.node_id) ==> !v.is_valid(header, sig),
{
    lemma_first_key(v.peers, sig.node_id, i);
}

proof fn lemma_first_key(peers: Seq<PeerView>, id: Id, i: int)
    ensures
        0 <= i < peers.len() && peers[i].id == id && (forall|j: int| 0 <= j < i ==> (#[trigger] peers[j]).id != id) ==> peer_key(peers, id) == Some(peers[i].public_key),
        (forall|j: int| 0 <= j < peers.len() ==> (#[trigger] peers[j]).id != id) ==> peer_key(peers, id) is None,
    decreases peers.len(),
{
    if peers.len() > 0 && peers[0].id != id {
        let rest = peers.drop_first();
        lemma_first_key(rest, id, i - 1);
        assert forall|j: int| 0 <= j < rest.len() implies #[trigger] rest[j] == peers[j + 1] by {}
    }
}

/// Those who signed a block are those of whom it has a valid signature.
pub proof fn law_signers(v: ConsensusView, block: BlockView, id: Id)
    ensures
        v.signers(block).contains(id) <==> exists|i: int| 0 <= i < block.signatures.len() && (#[trigger] block.signatures[i]).node_id == id && v.is_valid(
            block.header,
            block.signatures[i],
        ),
        v.signers(block).finite(),
    decreases block.signatures.len(),
{
    reveal(Seq::filter);
    if block.signatures.len() > 0 {
        let n = block.signatures.len() - 1;
        let rest = BlockView { signatures: block.signatures.drop_last(), ..block };
        law_signers(v, rest, id);
        law_signature_counts_once(v, rest, block.signatures[n]);
        assert(rest.signatures.push(block.signatures[n]) =~= block.signatures);
        if v.signers(block).contains(id) {
            if v.signers(rest).contains(id) {
                let i = choose|i: int| 0 <= i < rest.signatures.len() && (#[trigger] rest.signatures[i]).node_id == id && v.is_valid(block.header, rest.signatures[i]);
                assert(block.signatures[i] == rest.signatures[i]);
            } else {
                assert(block.signatures[n].node_id == id);
            }
        }
        if exists|i: int| 0 <= i < block.signatures.len() && (#[trigger] block.signatures[i]).node_id == id && v.is_valid(block.header, block.signatures[i]) {
            let i = choose|i: int| 0 <= i < block.signatures.len() && (#[trigger] block.signatures[i]).node_id == id && v.is_valid(block.header, block.signatures[i]);
            if i < n {
                assert(rest.signatures[i] == block.signatures[i]);
            }
        }
    } else {
        assert(v.signers(block) =~= Set::<Id>::empty());
    }
}

/// A node signs what the leader of its round proposes on the block that it expects,
/// under the leader's name and with the leader's valid signature in front, where the
/// header tells the hash of just these transactions. It signs nothing else.
pub proof fn law_accepts(v: ConsensusView, block: BlockView, expected: crate::types::Hash)
    ensures
        v.accepts(block, expected) <==> {
            &&& block.header.proposer == v.leader(block.header.height, v.round)
            &&& block.header.prev_hash == expected
            &&& block.signatures.len() > 0 && block.signatures[0].node_id == block.header.proposer
            &&& block.header.proposer == v.node_id || v.is_valid(block.header, block.signatures[0])
            &&& block.transactions.len() == 0 ==> forall|i: int| 0 <= i < 32 ==> #[trigger] block.header.tx_hash[i] == 0
            &&& block.transactions.len() > 0 ==> block.header.tx_hash@ == blake3_hash(le(block.transactions.len() as int, 8) + run::<Transaction>(block.transactions))
        },
{
    if block.transactions.len() == 0 {
        if forall|i: int| 0 <= i < 32 ==> #[trigger] block.header.tx_hash[i] == 0 {
            assert(block.header.tx_hash@ =~= EMPTY_HASH@);
        }
    }
}

/// What a node proposes: a block at the height and time, on the block before, with the
/// state root that it is given; its transactions in order, with their number and
/// their hash; in its name and with its signature, which is valid.
pub proof fn law_proposal(v: ConsensusView, block: BlockView, timestamp: i64, height: u64, prev_hash: crate::types::Hash, state_root: crate::types::Hash)
    requires
        v.proposes(block, timestamp, height, prev_hash, state_root),
    ensures
        block.header.height == height && block.header.timestamp == timestamp,
        block.header.prev_hash == prev_hash && block.header.state_root == state_root,
        block.header.proposer == v.node_id,
        block.transactions == v.pending,
        block.transactions.len() <= u32::MAX ==> block.header.tx_count == block.transactions.len(),
        block.transactions.len() > 0 ==> block.header.tx_hash@ == blake3_hash(le(block.transactions.len() as int, 8) + run::<Transaction>(block.transactions)),
        block.signatures.len() == 1 && block.signatures[0].node_id == v.node_id,
        ed25519_valid(BlockHeader::bytes(block.header), block.signatures[0].signature.0@, ed25519_public(v.private_key@)),
{
}

/// A signature more: the signer counts if the signature is valid and the node known,
/// and counts once.
pub proof fn law_signature_counts_once(v: ConsensusView, block: BlockView, sig: NodeSignature)
    ensures
        v.signers(BlockView { signatures: block.signatures.push(sig), ..block }) == if v.is_valid(block.header, sig) {
            v.signers(block).insert(sig.node_id)
        } else {
            v.signers(block)
        },
{
    let valid = |s: NodeSignature| v.is_valid(block.header, s);
    let name = |s: NodeSignature| s.node_id;
    let more = block.signatures.push(sig);
    reveal(Seq::filter);
    assert(more.drop_last() =~= block.signatures);
    let before = block.signatures.filter(valid).map_values(name);
    let after = more.filter(valid).map_values(name);
    if v.is_valid(block.header, sig) {
        assert(after =~= before.push(sig.node_id));
        before.lemma_push_to_set_commute(sig.node_id);
    } else {
        assert(after =~= before);
    }
}

/// Only nodes that are known count towards finality.
pub proof fn law_signers_known(v: ConsensusView, block: BlockView)
    ensures
        forall|id: Id| #[trigger] v.signers(block).contains(id) ==> v.roster().contains(id),
        v.signers(block).len() <= v.roster().len(),
    decreases block.signatures.len(),
{
    law_roster(v);
    reveal(Seq::filter);
    if block.signatures.len() > 0 {
        let rest = BlockView { signatures: block.signatures.drop_last(), ..block };
        let last = block.signatures.last();
        law_signers_known(v, rest);
        law_signature_counts_once(v, rest, last);
        assert(rest.signatures.push(last) =~= block.signatures);
        if v.is_valid(block.header, last) && last.node_id != v.node_id {
            lemma_key_means_known(v.peers, last.node_id);
        }
    } else {
        assert(v.signers(block) =~= Set::<Id>::empty());
    }
    vstd::seq_lib::seq_to_set_is_finite(v.roster());
    vstd::set_lib::lemma_len_subset(v.signers(block), v.roster().to_set());
    v.roster().lemma_cardinality_of_set();
}

proof fn lemma_key_means_known(peers: Seq<PeerView>, id: Id)
    requires
        peer_key(peers, id) is Some,
    ensures
        peer_ids(peers).contains(id),
    decreases peers.len(),
{
    if peers[0].id == id {
        assert(peer_ids(peers)[0] == id);
    } else {
        lemma_key_means_known(peers.drop_first(), id);
        let i = peer_ids(peers.drop_first()).index_of(id);
        assert(peer_ids(peers)[i + 1] == id);
    }
}

/// A block that is final stays final, whatever signatures are added.
pub proof fn law_final_stays_final(v: ConsensusView, block: BlockView, sig: NodeSignature)
    requires
        v.signers(block).len() >= v.min_signatures,
    ensures
        v.signers(BlockView { signatures: block.signatures.push(sig), ..block }).len() >= v.min_signatures,
{
    law_signature_counts_once(v, block, sig);
    vstd::seq_lib::seq_to_set_is_finite(
        block.signatures.filter(|s: NodeSignature| v.is_valid(block.header, s)).map_values(|s: NodeSignature| s.node_id),
    );
}

/// A node's signature counts with everybody who knows the node by the public key of
/// its private key.
pub proof fn law_own_signature_counts(v: ConsensusView, w: ConsensusView, header: BlockHeader, sig: NodeSignature)
    requires
        v.is_own_signature(header, sig),
        w.key_of(v.node_id) matches Some(key) && key@ == ed25519_public(v.private_key@),
    ensures
        w.is_valid(header, sig),
{
}

/// An honest proposal is signed: a node in the same round, which knows the same
/// nodes and the proposer's key, accepts what the leader proposes on the block that
/// both take for the last.
pub proof fn law_honest_proposal_accepted(
    leader: ConsensusView,
    follower: ConsensusView,
    block: BlockView,
    timestamp: i64,
    height: u64,
    prev_hash: crate::types::Hash,
    state_root: crate::types::Hash,
)
    requires
        leader.proposes(block, timestamp, height, prev_hash, state_root),
        leader.node_id == leader.leader(height, leader.round),
        known(leader).to_multiset() == known(follower).to_multiset(),
        follower.round == leader.round,
        follower.node_id != leader.node_id,
        follower.key_of(leader.node_id) matches Some(key) && key@ == ed25519_public(leader.private_key@),
    ensures
        follower.accepts(block, prev_hash),
        follower.is_valid(block.header, block.signatures[0]),
        follower.signers(block).contains(leader.node_id),
{
    law_leader_agreed(leader, follower, height, leader.round);
    let none = BlockView { signatures: block.signatures.drop_last(), ..block };
    law_signature_counts_once(follower, none, block.signatures[0]);
    assert(none.signatures.push(block.signatures[0]) =~= block.signatures);
}

} // verus!
