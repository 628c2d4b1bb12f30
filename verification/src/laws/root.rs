//! The state root tells states apart, as far as its hash does.

use crate::bytes::{be, lemma_prefixes_agree};
use crate::laws::agreement::{is_state_key, law_root_of_state, lemma_at_part, lemma_leads, lemma_other_prefix, lemma_same_db, state_of};
use crate::laws::invariants::law_writes_suffice;
use crate::laws::keys::{at, lemma_at_put, lemma_number_found, lemma_prefixes_differ};
use crate::state::machine::{execute_step, Rules};
use crate::store::{anchor_key, balance_key, dispute_key, entry_bytes, escrow_key, fits, lemma_listing_exists, listing, nonce_key, participant_key, put_anchor, put_balance, put_dispute, put_escrow, put_nonce, put_participant, put_settlement, settlement_key, state_bytes, Db, PREFIX_ANCHOR, PREFIX_BALANCE, PREFIX_DISPUTE, PREFIX_ESCROW, PREFIX_NONCE, PREFIX_PARTICIPANT, PREFIX_SETTLEMENT};
use crate::types::{AnchorRecord, Dispute, DisputeView, Escrow, Id, Participant, ParticipantView, RCWBalance, SettlementRecord, TransactionView};
use crate::wire::Wire;
use vstd::prelude::*;

verus! {

/// Is `v` just what a record of the key's kind is written as?
pub open spec fn is_exact(k: Seq<u8>, v: Seq<u8>) -> bool {
    &&& k.len() == 36
    &&& PREFIX_PARTICIPANT@.is_prefix_of(k) ==> exists|m: ParticipantView| v == #[trigger] Participant::bytes(m)
    &&& PREFIX_SETTLEMENT@.is_prefix_of(k) ==> exists|m: SettlementRecord| v == #[trigger] SettlementRecord::bytes(m)
    &&& PREFIX_BALANCE@.is_prefix_of(k) ==> exists|m: RCWBalance| v == #[trigger] RCWBalance::bytes(m)
    &&& PREFIX_ESCROW@.is_prefix_of(k) ==> exists|m: Escrow| v == #[trigger] Escrow::bytes(m)
    &&& PREFIX_DISPUTE@.is_prefix_of(k) ==> exists|m: DisputeView| v == #[trigger] Dispute::bytes(m)
    &&& PREFIX_ANCHOR@.is_prefix_of(k) ==> exists|m: AnchorRecord| v == #[trigger] AnchorRecord::bytes(m)
    &&& PREFIX_NONCE@.is_prefix_of(k) ==> v.len() == 8
}

/// Does the state hold nothing but records as they are written?
pub open spec fn exact(db: Db) -> bool {
    forall|k: Seq<u8>| is_state_key(k) ==> ((#[trigger] at(db, k)) matches Some(v) ==> is_exact(k, v))
}

/// At most one record of a kind leads an input.
proof fn lemma_exact_unique(k: Seq<u8>, v: Seq<u8>, w: Seq<u8>, s: Seq<u8>)
    requires
        is_state_key(k),
        is_exact(k, v),
        is_exact(k, w),
        v.is_prefix_of(s),
        w.is_prefix_of(s),
        v.len() <= u64::MAX,
        w.len() <= u64::MAX,
    ensures
        v == w,
{
    let n = if v.len() < w.len() { w.len() } else { v.len() } as int;
    let s = s.take(n);
    assert(v =~= s.subrange(0, v.len() as int));
    assert(w =~= s.subrange(0, w.len() as int));
    if PREFIX_PARTICIPANT@.is_prefix_of(k) {
        let x = choose|m: ParticipantView| v == #[trigger] Participant::bytes(m);
        let y = choose|m: ParticipantView| w == #[trigger] Participant::bytes(m);
        Participant::lemma_unique(x, y, s);
    } else if PREFIX_SETTLEMENT@.is_prefix_of(k) {
        let x = choose|m: SettlementRecord| v == #[trigger] SettlementRecord::bytes(m);
        let y = choose|m: SettlementRecord| w == #[trigger] SettlementRecord::bytes(m);
        SettlementRecord::lemma_unique(x, y, s);
    } else if PREFIX_BALANCE@.is_prefix_of(k) {
        let x = choose|m: RCWBalance| v == #[trigger] RCWBalance::bytes(m);
        let y = choose|m: RCWBalance| w == #[trigger] RCWBalance::bytes(m);
        RCWBalance::lemma_unique(x, y, s);
    } else if PREFIX_ESCROW@.is_prefix_of(k) {
        let x = choose|m: Escrow| v == #[trigger] Escrow::bytes(m);
        let y = choose|m: Escrow| w == #[trigger] Escrow::bytes(m);
        Escrow::lemma_unique(x, y, s);
    } else if PREFIX_DISPUTE@.is_prefix_of(k) {
        let x = choose|m: DisputeView| v == #[trigger] Dispute::bytes(m);
        let y = choose|m: DisputeView| w == #[trigger] Dispute::bytes(m);
        Dispute::lemma_unique(x, y, s);
    } else if PREFIX_ANCHOR@.is_prefix_of(k) {
        let x = choose|m: AnchorRecord| v == #[trigger] AnchorRecord::bytes(m);
        let y = choose|m: AnchorRecord| w == #[trigger] AnchorRecord::bytes(m);
        AnchorRecord::lemma_unique(x, y, s);
    } else {
        lemma_prefixes_agree(v, w, s);
    }
}

proof fn lemma_entries_join(db: Db, a: Seq<Seq<u8>>, b: Seq<Seq<u8>>)
    ensures
        entry_bytes(db, a + b) == entry_bytes(db, a) + entry_bytes(db, b),
    decreases b.len(),
{
    if b.len() == 0 {
        assert(a + b =~= a);
        assert(entry_bytes(db, a + b) =~= entry_bytes(db, a) + entry_bytes(db, b));
    } else {
        lemma_entries_join(db, a, b.drop_last());
        assert((a + b).drop_last() =~= a + b.drop_last());
        assert((a + b).last() == b.last());
        assert(entry_bytes(db, a + b) =~= entry_bytes(db, a) + entry_bytes(db, b));
    }
}

/// The first entry leads the bytes of several.
proof fn lemma_first_entry(db: Db, keys: Seq<Seq<u8>>)
    requires
        keys.len() > 0,
    ensures
        entry_bytes(db, keys) == keys[0] + (db[keys[0]] + entry_bytes(db, keys.drop_first())),
{
    let head = seq![keys[0]];
    assert(head + keys.drop_first() =~= keys);
    lemma_entries_join(db, head, keys.drop_first());
    assert(head.drop_last() =~= Seq::<Seq<u8>>::empty());
    assert(entry_bytes(db, head.drop_last()) =~= Seq::<u8>::empty());
    assert(entry_bytes(db, head) =~= keys[0] + db[keys[0]]);
    assert(entry_bytes(db, keys) =~= keys[0] + (db[keys[0]] + entry_bytes(db, keys.drop_first())));
}

/// Are these keys of the state, with exact records under them?
spec fn well_listed(db: Db, keys: Seq<Seq<u8>>) -> bool {
    forall|i: int| 0 <= i < keys.len() ==> is_state_key(#[trigger] keys[i]) && db.dom().contains(keys[i]) && is_exact(keys[i], db[keys[i]])
}

/// The entry that leads some bytes is the only one that does.
proof fn lemma_entry_unique(k: Seq<u8>, v: Seq<u8>, p: Seq<u8>, l: Seq<u8>, w: Seq<u8>, q: Seq<u8>)
    requires
        is_state_key(k),
        is_exact(k, v),
        is_exact(l, w),
        k + (v + p) == l + (w + q),
        v.len() <= u64::MAX,
        w.len() <= u64::MAX,
    ensures
        k == l,
        v == w,
        p == q,
{
    let s = k + (v + p);
    lemma_leads(k, v + p);
    lemma_leads(l, w + q);
    lemma_prefixes_agree(k, l, s);
    let rest = s.skip(36);
    assert(rest =~= v + p);
    assert(rest =~= w + q);
    lemma_leads(v, p);
    lemma_leads(w, q);
    lemma_exact_unique(k, v, w, rest);
    assert(rest.skip(v.len() as int) =~= p);
    assert(rest.skip(v.len() as int) =~= q);
}

/// The bytes of entries give the entries back.
proof fn lemma_entries_unique(a: Db, x: Seq<Seq<u8>>, b: Db, y: Seq<Seq<u8>>)
    requires
        well_listed(a, x),
        well_listed(b, y),
        entry_bytes(a, x) == entry_bytes(b, y),
        fits(a),
        fits(b),
    ensures
        x == y,
        forall|i: int| 0 <= i < x.len() ==> a[#[trigger] x[i]] == b[x[i]],
    decreases x.len(),
{
    if x.len() > 0 {
        lemma_first_entry(a, x);
    }
    if y.len() > 0 {
        lemma_first_entry(b, y);
    }
    if x.len() == 0 || y.len() == 0 {
        assert(x =~= y);
    } else {
        let (k, l) = (x[0], y[0]);
        lemma_entry_unique(k, a[k], entry_bytes(a, x.drop_first()), l, b[l], entry_bytes(b, y.drop_first()));
        assert forall|i: int| 0 <= i < x.drop_first().len() implies is_state_key(#[trigger] x.drop_first()[i]) && a.dom().contains(x.drop_first()[i]) && is_exact(
            x.drop_first()[i],
            a[x.drop_first()[i]],
        ) by {
            assert(x.drop_first()[i] == x[i + 1]);
        }
        assert forall|i: int| 0 <= i < y.drop_first().len() implies is_state_key(#[trigger] y.drop_first()[i]) && b.dom().contains(y.drop_first()[i]) && is_exact(
            y.drop_first()[i],
            b[y.drop_first()[i]],
        ) by {
            assert(y.drop_first()[i] == y[i + 1]);
        }
        lemma_entries_unique(a, x.drop_first(), b, y.drop_first());
        assert(x =~= seq![k] + x.drop_first());
        assert(y =~= seq![l] + y.drop_first());
        assert forall|i: int| 0 <= i < x.len() implies a[#[trigger] x[i]] == b[x[i]] by {
            if i > 0 {
                assert(x[i] == x.drop_first()[i - 1]);
            }
        }
    }
}

/// All keys of the state, section by section.
spec fn state_keys(db: Db) -> Seq<Seq<u8>> {
    listing(db, PREFIX_PARTICIPANT@) + listing(db, PREFIX_SETTLEMENT@) + listing(db, PREFIX_BALANCE@) + listing(db, PREFIX_ESCROW@) + listing(db, PREFIX_DISPUTE@) + listing(db, PREFIX_NONCE@) + listing(db, PREFIX_ANCHOR@)
}

proof fn lemma_state_keys(db: Db)
    requires
        db.dom().finite(),
    ensures
        state_bytes(db) == entry_bytes(db, state_keys(db)),
        forall|k: Seq<u8>| #[trigger] state_keys(db).contains(k) <==> (db.dom().contains(k) && is_state_key(k)),
{
    let l_participant = listing(db, PREFIX_PARTICIPANT@);
    lemma_listing_exists(db, PREFIX_PARTICIPANT@);
    let l_settlement = listing(db, PREFIX_SETTLEMENT@);
    lemma_listing_exists(db, PREFIX_SETTLEMENT@);
    let l_balance = listing(db, PREFIX_BALANCE@);
    lemma_listing_exists(db, PREFIX_BALANCE@);
    let l_escrow = listing(db, PREFIX_ESCROW@);
    lemma_listing_exists(db, PREFIX_ESCROW@);
    let l_dispute = listing(db, PREFIX_DISPUTE@);
    lemma_listing_exists(db, PREFIX_DISPUTE@);
    let l_nonce = listing(db, PREFIX_NONCE@);
    lemma_listing_exists(db, PREFIX_NONCE@);
    let l_anchor = listing(db, PREFIX_ANCHOR@);
    lemma_listing_exists(db, PREFIX_ANCHOR@);
    lemma_entries_join(db, l_participant, l_settlement);
    lemma_contains_join(l_participant, l_settlement);
    lemma_entries_join(db, l_participant + l_settlement, l_balance);
    lemma_contains_join(l_participant + l_settlement, l_balance);
    lemma_entries_join(db, l_participant + l_settlement + l_balance, l_escrow);
    lemma_contains_join(l_participant + l_settlement + l_balance, l_escrow);
    lemma_entries_join(db, l_participant + l_settlement + l_balance + l_escrow, l_dispute);
    lemma_contains_join(l_participant + l_settlement + l_balance + l_escrow, l_dispute);
    lemma_entries_join(db, l_participant + l_settlement + l_balance + l_escrow + l_dispute, l_nonce);
    lemma_contains_join(l_participant + l_settlement + l_balance + l_escrow + l_dispute, l_nonce);
    lemma_entries_join(db, l_participant + l_settlement + l_balance + l_escrow + l_dispute + l_nonce, l_anchor);
    lemma_contains_join(l_participant + l_settlement + l_balance + l_escrow + l_dispute + l_nonce, l_anchor);
    assert(state_bytes(db) =~= entry_bytes(db, state_keys(db)));
}

proof fn lemma_contains_join(a: Seq<Seq<u8>>, b: Seq<Seq<u8>>)
    ensures
        forall|k: Seq<u8>| #[trigger] (a + b).contains(k) <==> (a.contains(k) || b.contains(k)),
{
    assert forall|k: Seq<u8>| #[trigger] (a + b).contains(k) <==> (a.contains(k) || b.contains(k)) by {
        if a.contains(k) {
            assert((a + b)[a.index_of(k)] == k);
        }
        if b.contains(k) {
            assert((a + b)[a.len() + b.index_of(k)] == k);
        }
        if (a + b).contains(k) {
            let i = (a + b).index_of(k);
            if i < a.len() {
                assert(a[i] == k);
            } else {
                assert(b[i - a.len()] == k);
            }
        }
    }
}

/// What the state root is the hash of tells states apart: of two stores with exact
/// records, those bytes are the same just where all records but the blocks are. So
/// whatever record is added, changed or missing, the bytes differ.
pub proof fn law_root_tells_states_apart(a: Db, b: Db)
    requires
        a.dom().finite(),
        b.dom().finite(),
        exact(a),
        exact(b),
        fits(a),
        fits(b),
    ensures
        state_bytes(a) == state_bytes(b) <==> state_of(a) == state_of(b),
{
    law_root_of_state(a);
    law_root_of_state(b);
    if state_bytes(a) == state_bytes(b) {
        lemma_state_keys(a);
        lemma_state_keys(b);
        let (x, y) = (state_keys(a), state_keys(b));
        assert forall|i: int| 0 <= i < x.len() implies is_state_key(#[trigger] x[i]) && a.dom().contains(x[i]) && is_exact(x[i], a[x[i]]) by {
            assert(x.contains(x[i]));
            assert(at(a, x[i]) == Some(a[x[i]]));
        }
        assert forall|i: int| 0 <= i < y.len() implies is_state_key(#[trigger] y[i]) && b.dom().contains(y[i]) && is_exact(y[i], b[y[i]]) by {
            assert(y.contains(y[i]));
            assert(at(b, y[i]) == Some(b[y[i]]));
        }
        lemma_entries_unique(a, x, b, y);
        lemma_at_part(a);
        lemma_at_part(b);
        assert forall|k: Seq<u8>| #[trigger] at(state_of(a), k) == at(state_of(b), k) by {
            assert(x.contains(k) <==> (a.dom().contains(k) && is_state_key(k)));
            assert(y.contains(k) <==> (b.dom().contains(k) && is_state_key(k)));
            if x.contains(k) {
                let i = x.index_of(k);
                assert(x[i] == k);
                assert(a[x[i]] == b[x[i]]);
            }
        }
        lemma_same_db(state_of(a), state_of(b));
    }
}

/// A key of one kind is of no other.
proof fn lemma_one_kind(p: Seq<u8>, id: Id)
    requires
        p.len() == 4,
    ensures
        (p + id@).len() == 36,
        forall|q: Seq<u8>| q.len() == 4 && #[trigger] q.is_prefix_of(p + id@) ==> q == p,
{
    assert forall|q: Seq<u8>| q.len() == 4 && #[trigger] q.is_prefix_of(p + id@) implies q == p by {
        lemma_other_prefix(p + id@, q);
        assert((p + id@).take(4) =~= p);
    }
}

/// A record with an exact one more is exact.
proof fn lemma_exact_put(a: Db, b: Db, p: Seq<u8>, id: Id, v: Seq<u8>)
    requires
        p.len() == 4,
        exact(a),
        is_exact(p + id@, v),
        forall|k: Seq<u8>| #[trigger] at(b, k) == if k == p + id@ { Some(v) } else { at(a, k) },
    ensures
        exact(b),
{
    assert forall|k: Seq<u8>| is_state_key(k) implies ((#[trigger] at(b, k)) matches Some(w) ==> is_exact(k, w)) by {
        assert(at(a, k) matches Some(w) ==> is_exact(k, w));
    }
}

/// The state holds nothing but records as they are written, whatever is executed.
pub proof fn law_exact_stays_exact(rules: Rules, db: Db, tx: TransactionView, timestamp: i64)
    requires
        exact(db),
    ensures
        execute_step(rules, db, tx, timestamp) matches Some((after, _)) ==> exact(after),
{
    let inv = |d: Db| exact(d);
    lemma_prefixes_differ();
    assert forall|d: Db, id: Id, m: ParticipantView| inv(d) implies inv(#[trigger] put_participant(d, id, m)) by {
        lemma_one_kind(PREFIX_PARTICIPANT@, id);
        assert forall|k: Seq<u8>| #[trigger] at(put_participant(d, id, m), k) == if k == participant_key(id) { Some(Participant::bytes(m)) } else { at(d, k) } by {
            lemma_at_put(k);
        }
        lemma_exact_put(d, put_participant(d, id, m), PREFIX_PARTICIPANT@, id, Participant::bytes(m));
    }
    assert forall|d: Db, id: Id, m: SettlementRecord| inv(d) implies inv(#[trigger] put_settlement(d, id, m)) by {
        lemma_one_kind(PREFIX_SETTLEMENT@, id);
        assert forall|k: Seq<u8>| #[trigger] at(put_settlement(d, id, m), k) == if k == settlement_key(id) { Some(SettlementRecord::bytes(m)) } else { at(d, k) } by {
            lemma_at_put(k);
        }
        lemma_exact_put(d, put_settlement(d, id, m), PREFIX_SETTLEMENT@, id, SettlementRecord::bytes(m));
    }
    assert forall|d: Db, id: Id, m: RCWBalance| inv(d) implies inv(#[trigger] put_balance(d, id, m)) by {
        lemma_one_kind(PREFIX_BALANCE@, id);
        assert forall|k: Seq<u8>| #[trigger] at(put_balance(d, id, m), k) == if k == balance_key(id) { Some(RCWBalance::bytes(m)) } else { at(d, k) } by {
            lemma_at_put(k);
        }
        lemma_exact_put(d, put_balance(d, id, m), PREFIX_BALANCE@, id, RCWBalance::bytes(m));
    }
    assert forall|d: Db, id: Id, m: Escrow| inv(d) implies inv(#[trigger] put_escrow(d, id, m)) by {
        lemma_one_kind(PREFIX_ESCROW@, id);
        assert forall|k: Seq<u8>| #[trigger] at(put_escrow(d, id, m), k) == if k == escrow_key(id) { Some(Escrow::bytes(m)) } else { at(d, k) } by {
            lemma_at_put(k);
        }
        lemma_exact_put(d, put_escrow(d, id, m), PREFIX_ESCROW@, id, Escrow::bytes(m));
    }
    assert forall|d: Db, id: Id, m: DisputeView| inv(d) implies inv(#[trigger] put_dispute(d, id, m)) by {
        lemma_one_kind(PREFIX_DISPUTE@, id);
        assert forall|k: Seq<u8>| #[trigger] at(put_dispute(d, id, m), k) == if k == dispute_key(id) { Some(Dispute::bytes(m)) } else { at(d, k) } by {
            lemma_at_put(k);
        }
        lemma_exact_put(d, put_dispute(d, id, m), PREFIX_DISPUTE@, id, Dispute::bytes(m));
    }
    assert forall|d: Db, id: Id, m: AnchorRecord| inv(d) implies inv(#[trigger] put_anchor(d, id, m)) by {
        lemma_one_kind(PREFIX_ANCHOR@, id);
        assert forall|k: Seq<u8>| #[trigger] at(put_anchor(d, id, m), k) == if k == anchor_key(id) { Some(AnchorRecord::bytes(m)) } else { at(d, k) } by {
            lemma_at_put(k);
        }
        lemma_exact_put(d, put_anchor(d, id, m), PREFIX_ANCHOR@, id, AnchorRecord::bytes(m));
    }
    assert forall|d: Db, id: Id, n: u64| inv(d) implies inv(#[trigger] put_nonce(d, id, n)) by {
        lemma_one_kind(PREFIX_NONCE@, id);
        lemma_number_found(n);
        assert forall|k: Seq<u8>| #[trigger] at(put_nonce(d, id, n), k) == if k == nonce_key(id) { Some(be(n as int, 8)) } else { at(d, k) } by {
            lemma_at_put(k);
        }
        lemma_exact_put(d, put_nonce(d, id, n), PREFIX_NONCE@, id, be(n as int, 8));
    }
    assert(inv(db));
    law_writes_suffice(inv, rules, db, tx, timestamp);
}

/// At first the state holds nothing.
pub proof fn law_exact_at_first()
    ensures
        exact(Map::empty()),
{
}

} // verus!
