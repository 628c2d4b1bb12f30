//! What votes on a dispute come to.

use crate::state::dispute::{tally, verdict};
use crate::types::DisputeVote;
use vstd::prelude::*;

verus! {

/// How many votes are for this decision.
pub open spec fn votes_for(votes: Seq<DisputeVote>, decision: u8) -> nat {
    votes.filter(|v: DisputeVote| v.decision == decision).len()
}

/// A vote more: it is for its own decision and for no other.
pub proof fn law_vote_adds(votes: Seq<DisputeVote>, vote: DisputeVote, decision: u8)
    ensures
        votes_for(votes.push(vote), decision) == votes_for(votes, decision) + if vote.decision == decision {
            1nat
        } else {
            0
        },
        votes_for(Seq::empty(), decision) == 0,
{
    reveal(Seq::filter);
    assert(votes.push(vote).drop_last() =~= votes);
}

/// A side's tally is the votes for it and those for a split.
proof fn lemma_tally(votes: Seq<DisputeVote>, side: u8)
    requires
        side < 2,
    ensures
        tally(votes, side) == votes_for(votes, side) + votes_for(votes, 2),
    decreases votes.len(),
{
    if votes.len() == 0 {
        assert(votes =~= Seq::empty());
        law_vote_adds(votes, arbitrary(), side);
        law_vote_adds(votes, arbitrary(), 2);
    } else {
        lemma_tally(votes.drop_last(), side);
        assert(votes.drop_last().push(votes.last()) =~= votes);
        law_vote_adds(votes.drop_last(), votes.last(), side);
        law_vote_adds(votes.drop_last(), votes.last(), 2);
    }
}

/// A vote for a split counts one for each side: each side's tally is the number of
/// votes for it and of those for a split.
pub proof fn law_split_counts_for_both(votes: Seq<DisputeVote>)
    ensures
        tally(votes, 0) == votes_for(votes, 0) + votes_for(votes, 2),
        tally(votes, 1) == votes_for(votes, 1) + votes_for(votes, 2),
{
    lemma_tally(votes, 0);
    lemma_tally(votes, 1);
}

/// The dispute goes to the buyer just where more votes are for the buyer than for the
/// seller, to the seller just where fewer are, and else it is a split. Votes for a
/// split decide nothing.
pub proof fn law_verdict(votes: Seq<DisputeVote>)
    ensures
        verdict(votes) == 0 <==> votes_for(votes, 0) > votes_for(votes, 1),
        verdict(votes) == 1 <==> votes_for(votes, 0) < votes_for(votes, 1),
        verdict(votes) == 2 <==> votes_for(votes, 0) == votes_for(votes, 1),
        verdict(votes) <= 2,
{
    lemma_tally(votes, 0);
    lemma_tally(votes, 1);
}

proof fn lemma_one_out(votes: Seq<DisputeVote>, i: int, side: u8)
    requires
        0 <= i < votes.len(),
        side < 2,
    ensures
        tally(votes, side) == tally(votes.remove(i), side) + if votes[i].decision == side || votes[i].decision == 2 {
            1nat
        } else {
            0
        },
    decreases votes.len(),
{
    if i == votes.len() - 1 {
        assert(votes.remove(i) =~= votes.drop_last());
    } else {
        lemma_one_out(votes.drop_last(), i, side);
        assert(votes.remove(i).drop_last() =~= votes.drop_last().remove(i));
        assert(votes.remove(i).last() == votes.last());
    }
}

proof fn lemma_same_tally(a: Seq<DisputeVote>, b: Seq<DisputeVote>, side: u8)
    requires
        a.to_multiset() == b.to_multiset(),
        side < 2,
    ensures
        tally(a, side) == tally(b, side),
    decreases a.len(),
{
    broadcast use vstd::seq_lib::group_to_multiset_ensures;

    a.to_multiset_ensures();
    b.to_multiset_ensures();
    assert(a.len() == b.len());
    if a.len() > 0 {
        let n = a.len() - 1;
        assert(a.contains(a[n]));
        assert(b.to_multiset().count(a[n]) > 0);
        assert(b.contains(a[n]));
        let i = b.index_of(a[n]);
        assert(a.remove(n).to_multiset() =~= b.remove(i).to_multiset());
        lemma_same_tally(a.remove(n), b.remove(i), side);
        lemma_one_out(a, n, side);
        lemma_one_out(b, i, side);
        assert(b[i] == a[n]);
    }
}

/// In whatever order the votes come in, the verdict is the same.
pub proof fn law_order_of_votes(a: Seq<DisputeVote>, b: Seq<DisputeVote>)
    requires
        a.to_multiset() == b.to_multiset(),
    ensures
        verdict(a) == verdict(b),
{
    lemma_same_tally(a, b, 0);
    lemma_same_tally(a, b, 1);
}

} // verus!
