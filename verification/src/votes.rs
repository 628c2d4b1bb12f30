//! Votes for a change of leader, by height and round.

use crate::bytes::contains_id;
use crate::types::Id;
use vstd::prelude::*;

verus! {

/// Who voted, for each height and round.
pub type Votes = Map<(u64, u32), Set<Id>>;

/// The voters for a height and round: nobody where nothing is noted.
pub open spec fn voters(votes: Votes, height: u64, round: u32) -> Set<Id> {
    if votes.dom().contains((height, round)) {
        votes[(height, round)]
    } else {
        Set::empty()
    }
}

/// The votes with one more, which counts once.
pub open spec fn cast(votes: Votes, height: u64, round: u32, voter: Id) -> Votes {
    votes.insert((height, round), voters(votes, height, round).insert(voter))
}

/// The votes for a height and above.
pub open spec fn kept_from(votes: Votes, height: u64) -> Votes {
    Map::new(|k: (u64, u32)| votes.dom().contains(k) && k.0 >= height, |k: (u64, u32)| votes[k])
}

struct RoundVotes {
    height: u64,
    round: u32,
    voters: Vec<Id>,
}

/// The votes collected by a node.
pub struct VoteBook {
    entries: Vec<RoundVotes>,
}

spec fn key_of(e: Seq<RoundVotes>, i: int) -> (u64, u32) {
    (e[i].height, e[i].round)
}

spec fn well_kept(e: Seq<RoundVotes>) -> bool {
    &&& forall|i: int, j: int| 0 <= i < j < e.len() ==> #[trigger] key_of(e, i) != #[trigger] key_of(e, j)
    &&& forall|i: int| 0 <= i < e.len() ==> (#[trigger] e[i]).voters@.no_duplicates()
}

spec fn has_key(e: Seq<RoundVotes>, k: (u64, u32)) -> bool {
    exists|i: int| 0 <= i < e.len() && #[trigger] key_of(e, i) == k
}

spec fn contents(e: Seq<RoundVotes>) -> Votes {
    Map::new(|k: (u64, u32)| has_key(e, k), |k: (u64, u32)| e[choose|i: int| 0 <= i < e.len() && #[trigger] key_of(e, i) == k].voters@.to_set())
}

proof fn lemma_contents_at(e: Seq<RoundVotes>, i: int)
    requires
        well_kept(e),
        0 <= i < e.len(),
    ensures
        contents(e).dom().contains(key_of(e, i)),
        contents(e)[key_of(e, i)] == e[i].voters@.to_set(),
{
    let k = key_of(e, i);
    let c = choose|c: int| 0 <= c < e.len() && #[trigger] key_of(e, c) == k;
    assert(has_key(e, k));
    if c < i {
        assert(key_of(e, c) != key_of(e, i));
    }
    if i < c {
        assert(key_of(e, i) != key_of(e, c));
    }
}

/// An entry more.
proof fn lemma_contents_push(e: Seq<RoundVotes>, x: RoundVotes)
    requires
        well_kept(e),
        x.voters@.no_duplicates(),
        !contents(e).dom().contains((x.height, x.round)),
    ensures
        well_kept(e.push(x)),
        contents(e.push(x)) == contents(e).insert((x.height, x.round), x.voters@.to_set()),
{
    let f = e.push(x);
    let k = (x.height, x.round);
    assert forall|i: int, j: int| 0 <= i < j < f.len() implies #[trigger] key_of(f, i) != #[trigger] key_of(f, j) by {
        assert(key_of(f, i) == key_of(e, i));
        if j < e.len() {
            assert(key_of(f, j) == key_of(e, j));
        } else if key_of(f, i) == k {
            assert(has_key(e, k));
        }
    }
    assert forall|i: int| 0 <= i < f.len() implies (#[trigger] f[i]).voters@.no_duplicates() by {
        if i < e.len() {
            assert(f[i] == e[i]);
        }
    }
    assert forall|y: (u64, u32)| contents(f).dom().contains(y) <==> contents(e).insert(k, x.voters@.to_set()).dom().contains(y) by {
        if has_key(f, y) {
            let c = choose|c: int| 0 <= c < f.len() && #[trigger] key_of(f, c) == y;
            if c < e.len() {
                assert(key_of(e, c) == y);
            }
        }
        if has_key(e, y) {
            let c = choose|c: int| 0 <= c < e.len() && #[trigger] key_of(e, c) == y;
            assert(key_of(f, c) == y);
        }
        assert(key_of(f, e.len() as int) == k);
    }
    assert forall|y: (u64, u32)| contents(f).dom().contains(y) implies contents(f)[y] == contents(e).insert(k, x.voters@.to_set())[y] by {
        let c = choose|c: int| 0 <= c < f.len() && #[trigger] key_of(f, c) == y;
        lemma_contents_at(f, c);
        if c < e.len() {
            assert(key_of(e, c) == y);
            lemma_contents_at(e, c);
        }
    }
    assert(contents(f) =~= contents(e).insert(k, x.voters@.to_set()));
}

/// An entry less: the last one.
proof fn lemma_contents_pop(e: Seq<RoundVotes>)
    requires
        well_kept(e),
        e.len() > 0,
    ensures
        well_kept(e.drop_last()),
        contents(e.drop_last()) == contents(e).remove((e.last().height, e.last().round)),
{
    let f = e.drop_last();
    let k = (e.last().height, e.last().round);
    assert(key_of(e, e.len() - 1) == k);
    assert forall|i: int, j: int| 0 <= i < j < f.len() implies #[trigger] key_of(f, i) != #[trigger] key_of(f, j) by {
        assert(key_of(e, i) != key_of(e, j));
    }
    assert forall|i: int| 0 <= i < f.len() implies (#[trigger] f[i]).voters@.no_duplicates() by {
        assert(f[i] == e[i]);
    }
    assert forall|y: (u64, u32)| contents(f).dom().contains(y) <==> contents(e).remove(k).dom().contains(y) by {
        if has_key(f, y) {
            let c = choose|c: int| 0 <= c < f.len() && #[trigger] key_of(f, c) == y;
            assert(key_of(e, c) == y);
            assert(key_of(e, c) != key_of(e, e.len() - 1));
        }
        if has_key(e, y) && y != k {
            let c = choose|c: int| 0 <= c < e.len() && #[trigger] key_of(e, c) == y;
            assert(key_of(f, c) == y);
        }
    }
    assert forall|y: (u64, u32)| contents(f).dom().contains(y) implies contents(f)[y] == contents(e).remove(k)[y] by {
        let c = choose|c: int| 0 <= c < f.len() && #[trigger] key_of(f, c) == y;
        lemma_contents_at(f, c);
        assert(key_of(e, c) == y);
        lemma_contents_at(e, c);
    }
    assert(contents(f) =~= contents(e).remove(k));
}

impl View for VoteBook {
    type V = Votes;

    closed spec fn view(&self) -> Votes {
        contents(self.entries@)
    }
}

impl VoteBook {
    /// One entry for each height and round, and nobody twice in it.
    #[verifier::type_invariant]
    spec fn inv(self) -> bool {
        well_kept(self.entries@)
    }

    /// No votes.
    pub fn new() -> (r: VoteBook)
        ensures
            r@ == Map::<(u64, u32), Set<Id>>::empty(),
    {
        let entries: Vec<RoundVotes> = Vec::new();
        assert(contents(entries@) =~= Map::<(u64, u32), Set<Id>>::empty());
        VoteBook { entries }
    }

    /// Note a vote; how many have voted for that height and round now?
    pub fn cast(&mut self, height: u64, round: u32, voter: &Id) -> (r: usize)
        ensures
            final(self)@ == cast(old(self)@, height, round, *voter),
            r == voters(final(self)@, height, round).len(),
    {
        proof {
            use_type_invariant(&*self);
        }
        let ghost before = self.entries@;
        let ghost k = (height, round);
        let mut whole = VoteBook::new();
        std::mem::swap(self, &mut whole);
        let VoteBook { entries: mut rest } = whole;
        let mut done: Vec<RoundVotes> = Vec::new();
        // Move the entries over until the one sought comes up.
        let mut found: Vec<Id> = Vec::new();
        assert(contents(done@) =~= Map::<(u64, u32), Set<Id>>::empty());
        assert(found@.to_set() =~= Set::<Id>::empty());
        while rest.len() > 0
            invariant
                k == (height, round),
                well_kept(rest@),
                well_kept(done@),
                well_kept(before),
                found@.no_duplicates(),
                !contents(done@).dom().contains(k),
                forall|y: (u64, u32)| contents(rest@).dom().contains(y) ==> !#[trigger] contents(done@).dom().contains(y),
                forall|y: (u64, u32)| y != k ==> (#[trigger] contents(before).dom().contains(y) <==> contents(done@).dom().contains(y) || contents(rest@).dom().contains(y)),
                forall|y: (u64, u32)| y != k && #[trigger] contents(done@).dom().contains(y) ==> contents(done@)[y] == contents(before)[y],
                forall|y: (u64, u32)| #[trigger] contents(rest@).dom().contains(y) ==> contents(before).dom().contains(y) && contents(rest@)[y] == contents(before)[y],
                contents(rest@).dom().contains(k) ==> found@.len() == 0,
                !contents(rest@).dom().contains(k) ==> found@.to_set() == voters(contents(before), height, round),
            decreases rest@.len(),
        {
            let ghost r0 = rest@;
            let ghost d0 = done@;
            proof {
                lemma_contents_pop(r0);
                lemma_contents_at(r0, r0.len() - 1);
            }
            if let Some(e) = rest.pop() {
                assert(rest@ =~= r0.drop_last());
                assert(key_of(r0, r0.len() - 1) == (e.height, e.round));
                assert(r0[r0.len() - 1].voters@.no_duplicates());
                if e.height == height && e.round == round {
                    found = e.voters;
                } else {
                    proof {
                        assert(contents(r0).dom().contains((e.height, e.round)));
                        assert(!contents(d0).dom().contains((e.height, e.round)));
                        lemma_contents_push(d0, e);
                    }
                    done.push(e);
                }
            }
        }
        proof {
            assert(contents(rest@) =~= Map::<(u64, u32), Set<Id>>::empty());
            assert(found@.to_set() == voters(contents(before), height, round));
        }
        let ghost seen = found@;
        if !contains_id(&found, voter) {
            found.push(*voter);
            assert(found@.to_set() =~= seen.to_set().insert(*voter)) by {
                seen.lemma_push_to_set_commute(*voter);
            }
        } else {
            assert(seen.to_set().insert(*voter) =~= seen.to_set());
        }
        let n: usize = found.len();
        let entry = RoundVotes { height, round, voters: found };
        proof {
            lemma_contents_push(done@, entry);
            found@.unique_seq_to_set();
        }
        done.push(entry);
        proof {
            let after = contents(done@);
            let want = cast(contents(before), height, round, *voter);
            assert forall|y: (u64, u32)| after.dom().contains(y) <==> want.dom().contains(y) by {}
            assert forall|y: (u64, u32)| after.dom().contains(y) implies after[y] == want[y] by {}
            assert(after =~= want);
        }
        *self = VoteBook { entries: done };
        n
    }

    /// Forget the votes below a height.
    pub fn keep_from(&mut self, height: u64)
        ensures
            final(self)@ == kept_from(old(self)@, height),
    {
        proof {
            use_type_invariant(&*self);
        }
        let ghost before = self.entries@;
        let mut whole = VoteBook::new();
        std::mem::swap(self, &mut whole);
        let VoteBook { entries: mut rest } = whole;
        let mut done: Vec<RoundVotes> = Vec::new();
        assert(contents(done@) =~= Map::<(u64, u32), Set<Id>>::empty());
        while rest.len() > 0
            invariant
                well_kept(rest@),
                well_kept(done@),
                forall|y: (u64, u32)| contents(rest@).dom().contains(y) ==> !#[trigger] contents(done@).dom().contains(y),
                forall|y: (u64, u32)| y.0 >= height ==> (#[trigger] contents(before).dom().contains(y) <==> contents(done@).dom().contains(y) || contents(rest@).dom().contains(y)),
                forall|y: (u64, u32)| #[trigger] contents(done@).dom().contains(y) ==> y.0 >= height && contents(done@)[y] == contents(before)[y],
                forall|y: (u64, u32)| #[trigger] contents(rest@).dom().contains(y) ==> contents(rest@)[y] == contents(before)[y],
            decreases rest@.len(),
        {
            let ghost r0 = rest@;
            let ghost d0 = done@;
            proof {
                lemma_contents_pop(r0);
                lemma_contents_at(r0, r0.len() - 1);
            }
            if let Some(e) = rest.pop() {
                assert(rest@ =~= r0.drop_last());
                assert(key_of(r0, r0.len() - 1) == (e.height, e.round));
                assert(r0[r0.len() - 1].voters@.no_duplicates());
                if e.height >= height {
                    proof {
                        assert(contents(r0).dom().contains((e.height, e.round)));
                        assert(!contents(d0).dom().contains((e.height, e.round)));
                        lemma_contents_push(d0, e);
                    }
                    done.push(e);
                }
            }
        }
        proof {
            assert(contents(rest@) =~= Map::<(u64, u32), Set<Id>>::empty());
            let after = contents(done@);
            let want = kept_from(contents(before), height);
            assert forall|y: (u64, u32)| after.dom().contains(y) <==> want.dom().contains(y) by {}
            assert(after =~= want);
        }
        *self = VoteBook { entries: done };
    }

    /// Forget all votes.
    pub fn clear(&mut self)
        ensures
            final(self)@ == Map::<(u64, u32), Set<Id>>::empty(),
    {
        *self = VoteBook::new();
    }
}

} // verus!
