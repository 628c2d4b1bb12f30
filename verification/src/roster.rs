//! The nodes in their common order.

use crate::bytes::{lemma_array_of_view, lemma_lex_irreflexive, lemma_lex_total, lemma_lex_transitive, lex_lt, lex_order, Order};
use crate::types::Id;
use vstd::prelude::*;
use vstd::relations::{sorted_by, total_ordering};

verus! {

/// Byte by byte, `a` comes no later than `b`.
pub open spec fn id_leq(a: Id, b: Id) -> bool {
    a == b || lex_lt(a@, b@)
}

/// The order of ids.
pub open spec fn id_order() -> spec_fn(Id, Id) -> bool {
    |a: Id, b: Id| id_leq(a, b)
}

/// The ids in order.
pub open spec fn in_order(ids: Seq<Id>) -> Seq<Id> {
    ids.sort_by(id_order())
}

pub proof fn lemma_id_order_total()
    ensures
        total_ordering(id_order()),
{
    let r = id_order();
    assert forall|x: Id, y: Id| #[trigger] r(x, y) && #[trigger] r(y, x) implies x == y by {
        if x != y {
            lemma_lex_transitive(x@, y@, x@);
            lemma_lex_irreflexive(x@);
        }
    }
    assert forall|x: Id, y: Id, z: Id| #[trigger] r(x, y) && #[trigger] r(y, z) implies r(x, z) by {
        if x != y && y != z {
            lemma_lex_transitive(x@, y@, z@);
        }
    }
    assert forall|x: Id, y: Id| #[trigger] r(x, y) || #[trigger] r(y, x) by {
        lemma_lex_total(x@, y@);
        if x@ == y@ {
            lemma_array_of_view(x, y);
        }
    }
}

/// What is sorted and holds the same ids is the ids in order.
pub proof fn lemma_in_order(ids: Seq<Id>, sorted: Seq<Id>)
    requires
        sorted_by(sorted, id_order()),
        sorted.to_multiset() == ids.to_multiset(),
    ensures
        sorted == in_order(ids),
{
    lemma_id_order_total();
    ids.lemma_sort_by_ensures(id_order());
    vstd::seq_lib::lemma_sorted_unique(sorted, in_order(ids), id_order());
}

/// The order does not depend on how the ids were listed; none is lost or added.
pub proof fn lemma_order_keeps(ids: Seq<Id>)
    ensures
        in_order(ids).to_multiset() == ids.to_multiset(),
        in_order(ids).len() == ids.len(),
        sorted_by(in_order(ids), id_order()),
        forall|id: Id| #[trigger] in_order(ids).contains(id) <==> ids.contains(id),
{
    broadcast use vstd::seq_lib::group_to_multiset_ensures;

    lemma_id_order_total();
    ids.lemma_sort_by_ensures(id_order());
    assert(in_order(ids).to_multiset().len() == ids.to_multiset().len());
    assert forall|id: Id| #[trigger] in_order(ids).contains(id) <==> ids.contains(id) by {
        assert(in_order(ids).to_multiset().count(id) == ids.to_multiset().count(id));
    }
}

/// Put an id in its place.
fn insert_in_order(list: &mut Vec<Id>, id: Id)
    requires
        sorted_by(old(list)@, id_order()),
    ensures
        sorted_by(final(list)@, id_order()),
        final(list)@.to_multiset() == old(list)@.to_multiset().insert(id),
{
    broadcast use vstd::seq_lib::group_to_multiset_ensures;

    let ghost before = list@;
    let n: usize = list.len();
    let mut i: usize = 0;
    while i < n
        invariant_except_break
            forall|j: int| 0 <= j < i ==> id_leq(#[trigger] before[j], id),
        invariant
            n == list@.len(),
            list@ == before,
            i <= n,
            sorted_by(before, id_order()),
        ensures
            forall|j: int| 0 <= j < i ==> id_leq(#[trigger] before[j], id),
            forall|j: int| i <= j < n ==> id_leq(id, #[trigger] before[j]),
        decreases n - i,
    {
        match lex_order(list[i].as_slice(), id.as_slice()) {
            Order::After => {
                proof {
                    lemma_id_order_total();
                    let r = id_order();
                    assert forall|j: int| i <= j < n implies id_leq(id, #[trigger] before[j]) by {
                        assert(r(id, before[i as int]));
                        if j > i {
                            assert(r(before[i as int], before[j]));
                            assert(r(id, before[j]));
                        }
                    }
                }
                break;
            },
            Order::Before => {},
            Order::Same => {
                proof {
                    lemma_array_of_view(before[i as int], id);
                }
            },
        }
        i += 1;
    }
    list.insert(i, id);
    proof {
        let after = list@;
        let r = id_order();
        assert(after == before.insert(i as int, id));
        assert forall|a: int, b: int| 0 <= a < b < after.len() implies #[trigger] r(after[a], after[b]) by {
            let oa = if a < i { a } else { a - 1 };
            let ob = if b < i { b } else { b - 1 };
            if a == i {
                assert(id_leq(id, before[ob]));
            } else if b == i {
                assert(id_leq(before[oa], id));
            } else {
                assert(r(before[oa], before[ob]));
            }
        }
    }
}

/// Sort ids.
pub fn sort_ids(ids: &Vec<Id>) -> (r: Vec<Id>)
    ensures
        r@ == in_order(ids@),
{
    let mut sorted: Vec<Id> = Vec::new();
    let n: usize = ids.len();
    let mut i: usize = 0;
    assert(sorted@ =~= ids@.take(0));
    while i < n
        invariant
            n == ids@.len(),
            i <= n,
            sorted_by(sorted@, id_order()),
            sorted@.to_multiset() == ids@.take(i as int).to_multiset(),
        decreases n - i,
    {
        insert_in_order(&mut sorted, ids[i]);
        proof {
            assert(ids@.take(i + 1) =~= ids@.take(i as int).push(ids@[i as int]));
            vstd::seq_lib::to_multiset_build(ids@.take(i as int), ids@[i as int]);
            assert(sorted@.to_multiset() =~= ids@.take(i + 1).to_multiset());
        }
        i += 1;
    }
    proof {
        assert(ids@.take(n as int) =~= ids@);
        lemma_in_order(ids@, sorted@);
    }
    sorted
}

} // verus!
