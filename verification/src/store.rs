//! The store: records under byte keys, in the order of their keys.
//!
//! The whole store is held in memory. Each write is also noted, so that what is
//! kept on disk can be brought up to date: `take_writes` hands the notes out.

use crate::bytes::{append, be, from_be, lemma_lex_between, lemma_lex_irreflexive, lemma_lex_total, lemma_lex_transitive, lex_lt, lex_order, starts_with, to_be, un_be, Order};
use crate::crypto::{blake3_hash, hasher_finalize, hasher_input, hasher_is_plain, hasher_new, hasher_update};
use crate::types::{AnchorRecord, Block, BlockView, Dispute, DisputeView, Escrow, Id, Participant, ParticipantView, RCWBalance, SettlementRecord};
use crate::wire::{from_bytes, parsed, to_bytes, Wire};
use vstd::prelude::*;
use vstd::slice::slice_to_vec;

verus! {

// ── Keys ──

pub const PREFIX_BLOCK: [u8; 4] = [98, 108, 107, 47];

pub const PREFIX_PARTICIPANT: [u8; 4] = [112, 114, 116, 47];

pub const PREFIX_SETTLEMENT: [u8; 4] = [115, 116, 108, 47];

pub const PREFIX_BALANCE: [u8; 4] = [98, 97, 108, 47];

pub const PREFIX_ESCROW: [u8; 4] = [101, 115, 99, 47];

pub const PREFIX_DISPUTE: [u8; 4] = [100, 115, 112, 47];

pub const PREFIX_NONCE: [u8; 4] = [110, 110, 99, 47];

pub const PREFIX_ANCHOR: [u8; 4] = [97, 110, 99, 47];

/// "meta/latest_height".
pub const KEY_LATEST_HEIGHT: [u8; 18] = [109, 101, 116, 97, 47, 108, 97, 116, 101, 115, 116, 95, 104, 101, 105, 103, 104, 116];

/// "blk/" and the height, most significant byte first.
pub open spec fn block_key(height: u64) -> Seq<u8> {
    PREFIX_BLOCK@ + be(height as int, 8)
}

/// "prt/" and the id.
pub open spec fn participant_key(id: Id) -> Seq<u8> {
    PREFIX_PARTICIPANT@ + id@
}

/// "stl/" and the id.
pub open spec fn settlement_key(id: Id) -> Seq<u8> {
    PREFIX_SETTLEMENT@ + id@
}

/// "bal/" and the id.
pub open spec fn balance_key(id: Id) -> Seq<u8> {
    PREFIX_BALANCE@ + id@
}

/// "esc/" and the id.
pub open spec fn escrow_key(id: Id) -> Seq<u8> {
    PREFIX_ESCROW@ + id@
}

/// "dsp/" and the id.
pub open spec fn dispute_key(id: Id) -> Seq<u8> {
    PREFIX_DISPUTE@ + id@
}

/// "nnc/" and the id.
pub open spec fn nonce_key(id: Id) -> Seq<u8> {
    PREFIX_NONCE@ + id@
}

/// "anc/" and the id.
pub open spec fn anchor_key(id: Id) -> Seq<u8> {
    PREFIX_ANCHOR@ + id@
}

// ── What a store stands for ──

/// The bytes under each key.
pub type Db = Map<Seq<u8>, Seq<u8>>;

/// What is found where a record is looked for.
pub enum Slot<M> {
    /// Nothing is there.
    Absent,
    /// What is there is no record of the kind, for the reason given.
    Unreadable(Seq<char>),
    /// A record.
    Present(M),
}

/// What is found under `key` as a record of type `T`.
#[verifier::opaque]
pub open spec fn slot<T: Wire>(db: Db, key: Seq<u8>) -> Slot<T::Model> {
    if db.dom().contains(key) {
        match parsed::<T>(db[key]) {
            Some(m) => Slot::Present(m),
            None => Slot::Unreadable(T::refusal(db[key])),
        }
    } else {
        Slot::Absent
    }
}

pub open spec fn block_at(db: Db, height: u64) -> Slot<BlockView> {
    slot::<Block>(db, block_key(height))
}

pub open spec fn participant_at(db: Db, id: Id) -> Slot<ParticipantView> {
    slot::<Participant>(db, participant_key(id))
}

pub open spec fn settlement_at(db: Db, id: Id) -> Slot<SettlementRecord> {
    slot::<SettlementRecord>(db, settlement_key(id))
}

pub open spec fn escrow_at(db: Db, id: Id) -> Slot<Escrow> {
    slot::<Escrow>(db, escrow_key(id))
}

pub open spec fn dispute_at(db: Db, id: Id) -> Slot<DisputeView> {
    slot::<Dispute>(db, dispute_key(id))
}

pub open spec fn anchor_at(db: Db, id: Id) -> Slot<AnchorRecord> {
    slot::<AnchorRecord>(db, anchor_key(id))
}

/// Can the length of every record be told in eight bytes?
pub open spec fn fits(db: Db) -> bool {
    forall|k: Seq<u8>| #[trigger] db.dom().contains(k) ==> db[k].len() <= u64::MAX
}

/// The balance of an owner: none at first; the reason where the record is unreadable.
pub open spec fn balance_at(db: Db, owner: Id) -> Result<RCWBalance, Seq<char>> {
    match slot::<RCWBalance>(db, balance_key(owner)) {
        Slot::Absent => Ok(RCWBalance::zero(owner)),
        Slot::Unreadable(why) => Err(why),
        Slot::Present(b) => Ok(b),
    }
}

/// The number under `key` in eight bytes, most significant first; else zero.
pub open spec fn number_at(db: Db, key: Seq<u8>) -> u64 {
    if db.dom().contains(key) && db[key].len() == 8 {
        un_be(db[key]) as u64
    } else {
        0
    }
}

pub open spec fn nonce_at(db: Db, sender: Id) -> u64 {
    number_at(db, nonce_key(sender))
}

pub open spec fn latest_height(db: Db) -> u64 {
    number_at(db, KEY_LATEST_HEIGHT@)
}

#[verifier::opaque]
pub open spec fn put_block(db: Db, block: BlockView) -> Db {
    db.insert(block_key(block.header.height), Block::bytes(block)).insert(KEY_LATEST_HEIGHT@, be(block.header.height as int, 8))
}

#[verifier::opaque]
pub open spec fn put_participant(db: Db, id: Id, p: ParticipantView) -> Db {
    db.insert(participant_key(id), Participant::bytes(p))
}

#[verifier::opaque]
pub open spec fn put_settlement(db: Db, id: Id, r: SettlementRecord) -> Db {
    db.insert(settlement_key(id), SettlementRecord::bytes(r))
}

#[verifier::opaque]
pub open spec fn put_balance(db: Db, owner: Id, b: RCWBalance) -> Db {
    db.insert(balance_key(owner), RCWBalance::bytes(b))
}

#[verifier::opaque]
pub open spec fn put_escrow(db: Db, id: Id, e: Escrow) -> Db {
    db.insert(escrow_key(id), Escrow::bytes(e))
}

#[verifier::opaque]
pub open spec fn put_dispute(db: Db, id: Id, d: DisputeView) -> Db {
    db.insert(dispute_key(id), Dispute::bytes(d))
}

#[verifier::opaque]
pub open spec fn put_nonce(db: Db, sender: Id, nonce: u64) -> Db {
    db.insert(nonce_key(sender), be(nonce as int, 8))
}

#[verifier::opaque]
pub open spec fn put_anchor(db: Db, id: Id, r: AnchorRecord) -> Db {
    db.insert(anchor_key(id), AnchorRecord::bytes(r))
}

/// Writes, one after the other.
pub open spec fn replay(db: Db, writes: Seq<(Seq<u8>, Seq<u8>)>) -> Db
    decreases writes.len(),
{
    if writes.len() == 0 {
        db
    } else {
        replay(db, writes.drop_last()).insert(writes.last().0, writes.last().1)
    }
}

/// What keys and values stand for.
pub open spec fn pairs(v: Seq<(Vec<u8>, Vec<u8>)>) -> Seq<(Seq<u8>, Seq<u8>)> {
    Seq::new(v.len(), |i: int| (v[i].0@, v[i].1@))
}

// ── State root ──

/// The keys with a prefix, in order.
pub open spec fn is_listing(db: Db, prefix: Seq<u8>, keys: Seq<Seq<u8>>) -> bool {
    &&& strictly_sorted(keys)
    &&& forall|k: Seq<u8>| #[trigger] keys.contains(k) <==> (db.dom().contains(k) && prefix.is_prefix_of(k))
}

pub open spec fn strictly_sorted(keys: Seq<Seq<u8>>) -> bool {
    forall|i: int, j: int| 0 <= i < j < keys.len() ==> lex_lt(#[trigger] keys[i], #[trigger] keys[j])
}

/// The keys with a prefix, in order.
pub open spec fn listing(db: Db, prefix: Seq<u8>) -> Seq<Seq<u8>> {
    choose|keys: Seq<Seq<u8>>| is_listing(db, prefix, keys)
}

/// Each key followed by what is under it.
pub open spec fn entry_bytes(db: Db, keys: Seq<Seq<u8>>) -> Seq<u8>
    decreases keys.len(),
{
    if keys.len() == 0 {
        Seq::empty()
    } else {
        entry_bytes(db, keys.drop_last()) + keys.last() + db[keys.last()]
    }
}

/// All entries with a prefix, in order.
pub open spec fn section(db: Db, prefix: Seq<u8>) -> Seq<u8> {
    entry_bytes(db, listing(db, prefix))
}

/// Everything that the state root covers: all records but the blocks.
pub open spec fn state_bytes(db: Db) -> Seq<u8> {
    section(db, PREFIX_PARTICIPANT@) + section(db, PREFIX_SETTLEMENT@) + section(db, PREFIX_BALANCE@) + section(db, PREFIX_ESCROW@)
        + section(db, PREFIX_DISPUTE@) + section(db, PREFIX_NONCE@) + section(db, PREFIX_ANCHOR@)
}

/// The hash of the state.
pub open spec fn state_root(db: Db) -> Seq<u8> {
    blake3_hash(state_bytes(db))
}

proof fn lemma_sorted_unique(a: Seq<Seq<u8>>, b: Seq<Seq<u8>>)
    requires
        strictly_sorted(a),
        strictly_sorted(b),
        forall|k: Seq<u8>| #[trigger] a.contains(k) <==> b.contains(k),
    ensures
        a == b,
    decreases a.len(),
{
    if a.len() == 0 {
        if b.len() > 0 {
            assert(b.contains(b[0]));
            assert(a.contains(b[0]));
        }
        assert(a =~= b);
    } else {
        assert(a.contains(a[0]));
        let j = b.index_of(a[0]);
        assert(b[j] == a[0]);
        assert(b.contains(b[0]));
        assert(a.contains(b[0]));
        let i = a.index_of(b[0]);
        assert(a[i] == b[0]);
        if j > 0 {
            assert(lex_lt(b[0], b[j]));
            if i > 0 {
                assert(lex_lt(a[0], a[i]));
                lemma_lex_transitive(a[0], b[0], a[0]);
            }
            lemma_lex_irreflexive(a[0]);
        }
        assert(a[0] == b[0]);
        let (x, y) = (a.drop_first(), b.drop_first());
        assert forall|k: Seq<u8>| #[trigger] x.contains(k) <==> y.contains(k) by {
            if x.contains(k) {
                let n = x.index_of(k);
                assert(a[n + 1] == k);
                assert(lex_lt(a[0], a[n + 1]));
                lemma_lex_irreflexive(k);
                assert(a.contains(a[n + 1]));
                assert(b.contains(k));
                let m = b.index_of(k);
                assert(b[m] == k);
                assert(y[m - 1] == k);
            }
            if y.contains(k) {
                let n = y.index_of(k);
                assert(b[n + 1] == k);
                assert(lex_lt(b[0], b[n + 1]));
                lemma_lex_irreflexive(k);
                assert(b.contains(k));
                assert(a.contains(k));
                let m = a.index_of(k);
                assert(a[m] == k);
                assert(x[m - 1] == k);
            }
        }
        assert forall|i: int, j: int| 0 <= i < j < x.len() implies lex_lt(#[trigger] x[i], #[trigger] x[j]) by {
            assert(lex_lt(a[i + 1], a[j + 1]));
        }
        assert forall|i: int, j: int| 0 <= i < j < y.len() implies lex_lt(#[trigger] y[i], #[trigger] y[j]) by {
            assert(lex_lt(b[i + 1], b[j + 1]));
        }
        lemma_sorted_unique(x, y);
        assert(a =~= seq![a[0]] + x);
        assert(b =~= seq![b[0]] + y);
    }
}

proof fn lemma_listing(db: Db, prefix: Seq<u8>, keys: Seq<Seq<u8>>)
    requires
        is_listing(db, prefix, keys),
    ensures
        listing(db, prefix) == keys,
{
    let other = listing(db, prefix);
    assert(is_listing(db, prefix, other));
    assert forall|k: Seq<u8>| #[trigger] other.contains(k) <==> keys.contains(k) by {}
    lemma_sorted_unique(other, keys);
}

proof fn lemma_insert_sorted(keys: Seq<Seq<u8>>, x: Seq<u8>) -> (r: Seq<Seq<u8>>)
    requires
        strictly_sorted(keys),
        !keys.contains(x),
    ensures
        strictly_sorted(r),
        forall|k: Seq<u8>| #[trigger] r.contains(k) <==> (k == x || keys.contains(k)),
    decreases keys.len(),
{
    if keys.len() == 0 {
        let r = seq![x];
        assert(r[0] == x);
        r
    } else {
        let last = keys.last();
        let rest = keys.drop_last();
        assert(keys.contains(last));
        assert forall|i: int, j: int| 0 <= i < j < rest.len() implies lex_lt(#[trigger] rest[i], #[trigger] rest[j]) by {
            assert(lex_lt(keys[i], keys[j]));
        }
        assert forall|k: Seq<u8>| #[trigger] keys.contains(k) <==> (k == last || rest.contains(k)) by {
            if keys.contains(k) && k != last {
                let i = keys.index_of(k);
                assert(rest[i] == k);
            }
            if rest.contains(k) {
                let i = rest.index_of(k);
                assert(keys[i] == k);
            }
        }
        lemma_lex_total(last, x);
        if lex_lt(last, x) {
            let r = keys.push(x);
            assert forall|i: int, j: int| 0 <= i < j < r.len() implies lex_lt(#[trigger] r[i], #[trigger] r[j]) by {
                if j < keys.len() {
                    assert(lex_lt(keys[i], keys[j]));
                } else if i < keys.len() - 1 {
                    assert(lex_lt(keys[i], keys[keys.len() - 1]));
                    lemma_lex_transitive(keys[i], last, x);
                }
            }
            assert forall|k: Seq<u8>| #[trigger] r.contains(k) <==> (k == x || keys.contains(k)) by {
                if keys.contains(k) {
                    let i = keys.index_of(k);
                    assert(r[i] == k);
                }
                assert(r[keys.len() as int] == x);
            }
            r
        } else {
            assert(!rest.contains(x));
            let s = lemma_insert_sorted(rest, x);
            let r = s.push(last);
            assert forall|i: int, j: int| 0 <= i < j < r.len() implies lex_lt(#[trigger] r[i], #[trigger] r[j]) by {
                if j < s.len() {
                    assert(lex_lt(s[i], s[j]));
                } else {
                    assert(s.contains(s[i]));
                    if s[i] != x {
                        assert(rest.contains(s[i]));
                        let n = rest.index_of(s[i]);
                        assert(lex_lt(keys[n], keys[keys.len() - 1]));
                    }
                }
            }
            assert forall|k: Seq<u8>| #[trigger] r.contains(k) <==> (k == x || keys.contains(k)) by {
                if r.contains(k) && k != last {
                    let i = r.index_of(k);
                    assert(s[i] == k);
                    assert(s.contains(k));
                }
                if s.contains(k) {
                    let i = s.index_of(k);
                    assert(r[i] == k);
                }
                assert(s.contains(x));
                assert(r[s.len() as int] == last);
            }
            r
        }
    }
}

proof fn lemma_sorted_listing(keys: Set<Seq<u8>>) -> (r: Seq<Seq<u8>>)
    requires
        keys.finite(),
    ensures
        strictly_sorted(r),
        forall|k: Seq<u8>| #[trigger] r.contains(k) <==> keys.contains(k),
    decreases keys.len(),
{
    if keys.len() == 0 {
        assert(keys =~= Set::empty());
        Seq::empty()
    } else {
        let x = keys.choose();
        let rest = lemma_sorted_listing(keys.remove(x));
        assert(!rest.contains(x));
        let r = lemma_insert_sorted(rest, x);
        assert forall|k: Seq<u8>| #[trigger] r.contains(k) <==> keys.contains(k) by {
            assert(rest.contains(k) <==> keys.remove(x).contains(k));
        }
        r
    }
}

/// The keys of finitely many records can be listed.
pub proof fn lemma_listing_exists(db: Db, prefix: Seq<u8>)
    requires
        db.dom().finite(),
    ensures
        is_listing(db, prefix, listing(db, prefix)),
{
    let keys = db.dom().filter(|k: Seq<u8>| prefix.is_prefix_of(k));
    db.dom().lemma_len_filter(|k: Seq<u8>| prefix.is_prefix_of(k));
    let r = lemma_sorted_listing(keys);
    assert forall|k: Seq<u8>| #[trigger] r.contains(k) <==> (db.dom().contains(k) && prefix.is_prefix_of(k)) by {
        assert(r.contains(k) <==> keys.contains(k));
    }
    assert(is_listing(db, prefix, r));
}

proof fn lemma_entry_bytes_agree(a: Db, b: Db, keys: Seq<Seq<u8>>)
    requires
        forall|i: int| 0 <= i < keys.len() ==> a[#[trigger] keys[i]] == b[keys[i]],
    ensures
        entry_bytes(a, keys) == entry_bytes(b, keys),
    decreases keys.len(),
{
    if keys.len() > 0 {
        assert(keys.last() == keys[keys.len() - 1]);
        assert forall|i: int| 0 <= i < keys.drop_last().len() implies a[#[trigger] keys.drop_last()[i]] == b[keys.drop_last()[i]] by {
            assert(keys.drop_last()[i] == keys[i]);
        }
        lemma_entry_bytes_agree(a, b, keys.drop_last());
    }
}

/// Stores that agree on what is under a prefix agree on its section.
pub proof fn lemma_section_agree(a: Db, b: Db, prefix: Seq<u8>)
    requires
        exists|keys: Seq<Seq<u8>>| is_listing(a, prefix, keys),
        forall|k: Seq<u8>| prefix.is_prefix_of(k) ==> (#[trigger] a.dom().contains(k) <==> b.dom().contains(k)),
        forall|k: Seq<u8>| prefix.is_prefix_of(k) && a.dom().contains(k) ==> #[trigger] a[k] == b[k],
    ensures
        section(a, prefix) == section(b, prefix),
{
    let keys = listing(a, prefix);
    assert(is_listing(a, prefix, keys));
    assert forall|k: Seq<u8>| #[trigger] keys.contains(k) <==> (b.dom().contains(k) && prefix.is_prefix_of(k)) by {
        assert(keys.contains(k) <==> (a.dom().contains(k) && prefix.is_prefix_of(k)));
        assert(prefix.is_prefix_of(k) ==> (a.dom().contains(k) <==> b.dom().contains(k)));
    }
    lemma_listing(b, prefix, keys);
    assert forall|i: int| 0 <= i < keys.len() implies a[#[trigger] keys[i]] == b[keys[i]] by {
        assert(keys.contains(keys[i]));
    }
    lemma_entry_bytes_agree(a, b, keys);
}

// ── The store ──

/// Storage for blocks and state.
pub struct Store {
    entries: Vec<(Vec<u8>, Vec<u8>)>,
    writes: Vec<(Vec<u8>, Vec<u8>)>,
    saved: Ghost<Db>,
}

spec fn key_of(e: Seq<(Vec<u8>, Vec<u8>)>, i: int) -> Seq<u8> {
    e[i].0@
}

spec fn keys_sorted(e: Seq<(Vec<u8>, Vec<u8>)>) -> bool {
    forall|i: int, j: int| 0 <= i < j < e.len() ==> lex_lt(#[trigger] key_of(e, i), #[trigger] key_of(e, j))
}

spec fn has_key(e: Seq<(Vec<u8>, Vec<u8>)>, k: Seq<u8>) -> bool {
    exists|i: int| 0 <= i < e.len() && #[trigger] key_of(e, i) == k
}

spec fn contents(e: Seq<(Vec<u8>, Vec<u8>)>) -> Db {
    Map::new(|k: Seq<u8>| has_key(e, k), |k: Seq<u8>| e[choose|i: int| 0 <= i < e.len() && #[trigger] key_of(e, i) == k].1@)
}

proof fn lemma_contents_at(e: Seq<(Vec<u8>, Vec<u8>)>, i: int)
    requires
        keys_sorted(e),
        0 <= i < e.len(),
    ensures
        contents(e).dom().contains(key_of(e, i)),
        contents(e)[key_of(e, i)] == e[i].1@,
{
    let k = key_of(e, i);
    let c = choose|c: int| 0 <= c < e.len() && #[trigger] key_of(e, c) == k;
    assert(has_key(e, k));
    if c < i {
        assert(lex_lt(key_of(e, c), key_of(e, i)));
        lemma_lex_irreflexive(k);
    }
    if i < c {
        assert(lex_lt(key_of(e, i), key_of(e, c)));
        lemma_lex_irreflexive(k);
    }
}

/// Where `key` is, or where it belongs.
fn find(e: &Vec<(Vec<u8>, Vec<u8>)>, key: &[u8]) -> (r: Result<usize, usize>)
    requires
        keys_sorted(e@),
    ensures
        match r {
            Ok(i) => i < e@.len() && key_of(e@, i as int) == key@,
            Err(i) => i <= e@.len() && (forall|j: int| 0 <= j < i ==> lex_lt(#[trigger] key_of(e@, j), key@)) && (forall|j: int| i <= j < e@.len() ==> lex_lt(key@, #[trigger] key_of(e@, j))),
        },
{
    let mut lo: usize = 0;
    let mut hi: usize = e.len();
    while lo < hi
        invariant
            keys_sorted(e@),
            lo <= hi <= e@.len(),
            forall|j: int| 0 <= j < lo ==> lex_lt(#[trigger] key_of(e@, j), key@),
            forall|j: int| hi <= j < e@.len() ==> lex_lt(key@, #[trigger] key_of(e@, j)),
        decreases hi - lo,
    {
        let mid: usize = lo + (hi - lo) / 2;
        let ghost at = key_of(e@, mid as int);
        match lex_order(e[mid].0.as_slice(), key) {
            Order::Same => {
                return Ok(mid);
            },
            Order::Before => {
                proof {
                    assert forall|j: int| 0 <= j < mid + 1 implies lex_lt(#[trigger] key_of(e@, j), key@) by {
                        if lo <= j && j < mid {
                            lemma_lex_transitive(key_of(e@, j), at, key@);
                        }
                    }
                }
                lo = mid + 1;
            },
            Order::After => {
                proof {
                    assert forall|j: int| mid <= j < e@.len() implies lex_lt(key@, #[trigger] key_of(e@, j)) by {
                        if mid < j && j < hi {
                            lemma_lex_transitive(key@, at, key_of(e@, j));
                        }
                    }
                }
                hi = mid;
            },
        }
    }
    Err(lo)
}

proof fn lemma_not_found(e: Seq<(Vec<u8>, Vec<u8>)>, key: Seq<u8>, at: int)
    requires
        0 <= at <= e.len(),
        forall|j: int| 0 <= j < at ==> lex_lt(#[trigger] key_of(e, j), key),
        forall|j: int| at <= j < e.len() ==> lex_lt(key, #[trigger] key_of(e, j)),
    ensures
        !contents(e).dom().contains(key),
{
    if has_key(e, key) {
        let i = choose|i: int| 0 <= i < e.len() && #[trigger] key_of(e, i) == key;
        lemma_lex_irreflexive(key);
        assert(i < at || at <= i);
    }
}

/// Put one entry in its place.
fn place(e: &mut Vec<(Vec<u8>, Vec<u8>)>, key: Vec<u8>, value: Vec<u8>)
    requires
        keys_sorted(old(e)@),
    ensures
        keys_sorted(final(e)@),
        contents(final(e)@) == contents(old(e)@).insert(key@, value@),
{
    let ghost before = e@;
    let ghost (k, v) = (key@, value@);
    match find(e, key.as_slice()) {
        Ok(i) => {
            e[i] = (key, value);
            proof {
                let after = e@;
                assert(after =~= before.update(i as int, after[i as int]));
                assert forall|a: int, b: int| 0 <= a < b < after.len() implies lex_lt(#[trigger] key_of(after, a), #[trigger] key_of(after, b)) by {
                    assert(key_of(after, a) == key_of(before, a));
                    assert(key_of(after, b) == key_of(before, b));
                }
                lemma_contents_at(after, i as int);
                assert forall|x: Seq<u8>| contents(after).dom().contains(x) <==> contents(before).insert(k, v).dom().contains(x) by {
                    if has_key(after, x) {
                        let c = choose|c: int| 0 <= c < after.len() && #[trigger] key_of(after, c) == x;
                        assert(key_of(before, c) == x);
                    }
                    if has_key(before, x) {
                        let c = choose|c: int| 0 <= c < before.len() && #[trigger] key_of(before, c) == x;
                        assert(key_of(after, c) == x);
                    }
                }
                assert forall|x: Seq<u8>| contents(after).dom().contains(x) implies contents(after)[x] == contents(before).insert(k, v)[x] by {
                    let c = choose|c: int| 0 <= c < after.len() && #[trigger] key_of(after, c) == x;
                    lemma_contents_at(after, c);
                    lemma_contents_at(before, c);
                    if x != k {
                        assert(c != i);
                    }
                }
                assert(contents(after) =~= contents(before).insert(k, v));
            }
        },
        Err(i) => {
            e.insert(i, (key, value));
            proof {
                let after = e@;
                let at = i as int;
                assert(key_of(after, at) == k);
                assert forall|j: int| 0 <= j < at implies #[trigger] key_of(after, j) == key_of(before, j) by {}
                assert forall|j: int| at < j < after.len() implies #[trigger] key_of(after, j) == key_of(before, j - 1) by {}
                assert forall|a: int, b: int| 0 <= a < b < after.len() implies lex_lt(#[trigger] key_of(after, a), #[trigger] key_of(after, b)) by {
                    let oa = if a < at { a } else { a - 1 };
                    let ob = if b < at { b } else { b - 1 };
                    if a != at {
                        assert(key_of(after, a) == key_of(before, oa));
                    }
                    if b != at {
                        assert(key_of(after, b) == key_of(before, ob));
                    }
                    if a != at && b != at {
                        assert(lex_lt(key_of(before, oa), key_of(before, ob)));
                    }
                }
                lemma_contents_at(after, at);
                assert forall|x: Seq<u8>| contents(after).dom().contains(x) <==> contents(before).insert(k, v).dom().contains(x) by {
                    if has_key(after, x) {
                        let c = choose|c: int| 0 <= c < after.len() && #[trigger] key_of(after, c) == x;
                        if c != at {
                            let o = if c < at { c } else { c - 1 };
                            assert(key_of(before, o) == x);
                        }
                    }
                    if has_key(before, x) {
                        let c = choose|c: int| 0 <= c < before.len() && #[trigger] key_of(before, c) == x;
                        let n = if c < at { c } else { c + 1 };
                        assert(key_of(after, n) == x);
                    }
                }
                assert forall|x: Seq<u8>| contents(after).dom().contains(x) implies contents(after)[x] == contents(before).insert(k, v)[x] by {
                    let c = choose|c: int| 0 <= c < after.len() && #[trigger] key_of(after, c) == x;
                    lemma_contents_at(after, c);
                    if c != at {
                        let o = if c < at { c } else { c - 1 };
                        assert(key_of(before, o) == x);
                        lemma_contents_at(before, o);
                        lemma_not_found(before, k, at);
                    }
                }
                assert(contents(after) =~= contents(before).insert(k, v));
            }
        },
    }
}

fn concat(a: &[u8], b: &[u8]) -> (r: Vec<u8>)
    ensures
        r@ == a@ + b@,
{
    let mut r: Vec<u8> = slice_to_vec(a);
    append(&mut r, b);
    r
}

/// Does a look-up report what is found?
pub open spec fn reports<T: Wire>(r: Result<Option<T>, String>, found: Slot<T::Model>) -> bool {
    match found {
        Slot::Absent => r matches Ok(None),
        Slot::Unreadable(why) => r matches Err(e) && e@ == why,
        Slot::Present(m) => r matches Ok(Some(v)) && v.model() == m,
    }
}

impl View for Store {
    type V = Db;

    closed spec fn view(&self) -> Db {
        contents(self.entries@)
    }
}

impl Store {
    /// Keys in order, and the noted writes lead from what is saved to what is held.
    #[verifier::type_invariant]
    spec fn inv(self) -> bool {
        &&& keys_sorted(self.entries@)
        &&& replay(self.saved@, pairs(self.writes@)) == contents(self.entries@)
    }

    /// What the store held when its writes were last handed out.
    pub closed spec fn saved(&self) -> Db {
        self.saved@
    }

    /// An empty store.
    pub fn new() -> (r: Store)
        ensures
            r@ == Map::<Seq<u8>, Seq<u8>>::empty(),
            r.saved() == r@,
    {
        let entries: Vec<(Vec<u8>, Vec<u8>)> = Vec::new();
        let writes: Vec<(Vec<u8>, Vec<u8>)> = Vec::new();
        proof {
            assert(contents(entries@) =~= Map::<Seq<u8>, Seq<u8>>::empty());
            assert(pairs(writes@).len() == 0);
        }
        Store { entries, writes, saved: Ghost(Map::empty()) }
    }

    /// A store with the given entries; of two with one key the later stays.
    pub fn from_entries(list: Vec<(Vec<u8>, Vec<u8>)>) -> (r: Store)
        ensures
            r@ == replay(Map::empty(), pairs(list@)),
            r.saved() == r@,
    {
        let mut entries: Vec<(Vec<u8>, Vec<u8>)> = Vec::new();
        let n: usize = list.len();
        let mut i: usize = 0;
        assert(contents(entries@) =~= Map::<Seq<u8>, Seq<u8>>::empty());
        assert(pairs(list@).take(0).len() == 0);
        while i < n
            invariant
                n == list@.len(),
                i <= n,
                keys_sorted(entries@),
                contents(entries@) == replay(Map::empty(), pairs(list@).take(i as int)),
            decreases n - i,
        {
            place(&mut entries, slice_to_vec(list[i].0.as_slice()), slice_to_vec(list[i].1.as_slice()));
            proof {
                let t = pairs(list@).take(i + 1);
                assert(t.drop_last() =~= pairs(list@).take(i as int));
                assert(t.last() == (list@[i as int].0@, list@[i as int].1@));
            }
            i += 1;
        }
        proof {
            assert(pairs(list@).take(n as int) =~= pairs(list@));
        }
        let writes: Vec<(Vec<u8>, Vec<u8>)> = Vec::new();
        assert(pairs(writes@).len() == 0);
        Store { entries, writes, saved: Ghost(contents(entries@)) }
    }

    /// A store that holds the same, with no writes noted.
    pub fn duplicate(&self) -> (r: Store)
        ensures
            r@ == self@,
            r.saved() == r@,
    {
        proof {
            use_type_invariant(&*self);
        }
        let mut entries: Vec<(Vec<u8>, Vec<u8>)> = Vec::new();
        let n: usize = self.entries.len();
        let mut i: usize = 0;
        while i < n
            invariant
                n == self.entries@.len(),
                i <= n,
                entries@.len() == i,
                forall|j: int| 0 <= j < i ==> (#[trigger] entries@[j]).0@ == self.entries@[j].0@ && entries@[j].1@ == self.entries@[j].1@,
            decreases n - i,
        {
            entries.push((slice_to_vec(self.entries[i].0.as_slice()), slice_to_vec(self.entries[i].1.as_slice())));
            i += 1;
        }
        proof {
            let (a, b) = (entries@, self.entries@);
            assert forall|j: int| 0 <= j < a.len() implies #[trigger] key_of(a, j) == key_of(b, j) by {
                assert(a[j].0@ == b[j].0@);
            }
            assert(keys_sorted(a));
            assert forall|x: Seq<u8>| contents(a).dom().contains(x) <==> contents(b).dom().contains(x) by {
                if has_key(a, x) {
                    let c = choose|c: int| 0 <= c < a.len() && #[trigger] key_of(a, c) == x;
                    assert(key_of(b, c) == x);
                }
                if has_key(b, x) {
                    let c = choose|c: int| 0 <= c < b.len() && #[trigger] key_of(b, c) == x;
                    assert(key_of(a, c) == x);
                }
            }
            assert forall|x: Seq<u8>| contents(a).dom().contains(x) implies contents(a)[x] == contents(b)[x] by {
                let c = choose|c: int| 0 <= c < a.len() && #[trigger] key_of(a, c) == x;
                lemma_contents_at(a, c);
                lemma_contents_at(b, c);
                assert(a[c].1@ == b[c].1@);
            }
            assert(contents(a) =~= contents(b));
        }
        let writes: Vec<(Vec<u8>, Vec<u8>)> = Vec::new();
        assert(pairs(writes@).len() == 0);
        Store { entries, writes, saved: Ghost(contents(entries@)) }
    }

    /// Hand out the writes made since this was last called. Made in order upon what
    /// was saved then, they lead to what the store holds.
    pub fn take_writes(&mut self) -> (r: Vec<(Vec<u8>, Vec<u8>)>)
        ensures
            replay(old(self).saved(), pairs(r@)) == old(self)@,
            final(self)@ == old(self)@,
            final(self).saved() == final(self)@,
    {
        proof {
            use_type_invariant(&*self);
        }
        let mut whole = Store::new();
        std::mem::swap(self, &mut whole);
        let Store { entries, writes, saved: _ } = whole;
        let none: Vec<(Vec<u8>, Vec<u8>)> = Vec::new();
        assert(pairs(none@).len() == 0);
        *self = Store { entries, writes: none, saved: Ghost(contents(entries@)) };
        writes
    }

    fn put(&mut self, key: Vec<u8>, value: Vec<u8>)
        ensures
            final(self)@ == old(self)@.insert(key@, value@),
            final(self).saved() == old(self).saved(),
    {
        proof {
            use_type_invariant(&*self);
        }
        let ghost before = *self;
        let mut whole = Store::new();
        std::mem::swap(self, &mut whole);
        let Store { mut entries, mut writes, saved } = whole;
        writes.push((slice_to_vec(key.as_slice()), slice_to_vec(value.as_slice())));
        proof {
            let w = pairs(writes@);
            assert(w.drop_last() =~= pairs(before.writes@));
            assert(w.last() == (key@, value@));
        }
        place(&mut entries, key, value);
        *self = Store { entries, writes, saved };
    }

    fn get(&self, key: &[u8]) -> (r: Option<&Vec<u8>>)
        ensures
            match r {
                Some(v) => self@.dom().contains(key@) && self@[key@] == v@,
                None => !self@.dom().contains(key@),
            },
    {
        proof {
            use_type_invariant(&*self);
        }
        match find(&self.entries, key) {
            Ok(i) => {
                proof {
                    lemma_contents_at(self.entries@, i as int);
                }
                Some(&self.entries[i].1)
            },
            Err(i) => {
                proof {
                    lemma_not_found(self.entries@, key@, i as int);
                }
                None
            },
        }
    }

    fn get_record<T: Wire>(&self, key: &[u8]) -> (r: Result<Option<T>, String>)
        ensures
            reports::<T>(r, slot::<T>(self@, key@)),
    {
        proof {
            reveal(slot);
        }
        match self.get(key) {
            Some(bytes) => match from_bytes::<T>(bytes.as_slice()) {
                Ok(v) => Ok(Some(v)),
                Err(e) => Err(e),
            },
            None => Ok(None),
        }
    }

    fn get_number(&self, key: &[u8]) -> (r: u64)
        ensures
            r == number_at(self@, key@),
    {
        match self.get(key) {
            Some(bytes) => {
                if bytes.len() == 8 {
                    from_be(bytes.as_slice())
                } else {
                    0
                }
            },
            None => 0,
        }
    }

    fn get_state<T: Wire>(&self, prefix: &[u8], id: &Id) -> (r: Result<Option<T>, String>)
        ensures
            reports::<T>(r, slot::<T>(self@, prefix@ + id@)),
    {
        let key = concat(prefix, id.as_slice());
        self.get_record::<T>(key.as_slice())
    }

    fn set_state<T: Wire>(&mut self, prefix: &[u8], id: &Id, value: &T) -> (r: Result<(), String>)
        ensures
            r is Ok,
            final(self)@ == old(self)@.insert(prefix@ + id@, T::bytes(value.model())),
            final(self).saved() == old(self).saved(),
    {
        let key = concat(prefix, id.as_slice());
        let bytes = to_bytes::<T>(value);
        self.put(key, bytes);
        Ok(())
    }

    // ── Block Storage ──

    pub fn put_block(&mut self, block: &Block) -> (r: Result<(), String>)
        ensures
            r is Ok,
            final(self)@ == put_block(old(self)@, block@),
            final(self).saved() == old(self).saved(),
    {
        proof {
            reveal(put_block);
        }
        let height = to_be::<8>(block.header.height);
        let key = concat(PREFIX_BLOCK.as_slice(), height.as_slice());
        let bytes = to_bytes::<Block>(block);
        self.put(key, bytes);
        self.put(slice_to_vec(KEY_LATEST_HEIGHT.as_slice()), slice_to_vec(height.as_slice()));
        Ok(())
    }

    pub fn get_block(&self, height: u64) -> (r: Result<Option<Block>, String>)
        ensures
            reports::<Block>(r, block_at(self@, height)),
    {
        let h = to_be::<8>(height);
        let key = concat(PREFIX_BLOCK.as_slice(), h.as_slice());
        self.get_record::<Block>(key.as_slice())
    }

    pub fn get_latest_height(&self) -> (r: u64)
        ensures
            r == latest_height(self@),
    {
        self.get_number(KEY_LATEST_HEIGHT.as_slice())
    }

    // ── Participant Storage ──

    pub fn get_participant(&self, id: &Id) -> (r: Result<Option<Participant>, String>)
        ensures
            reports::<Participant>(r, participant_at(self@, *id)),
    {
        self.get_state::<Participant>(PREFIX_PARTICIPANT.as_slice(), id)
    }

    pub fn set_participant(&mut self, id: &Id, participant: &Participant) -> (r: Result<(), String>)
        ensures
            r is Ok,
            final(self)@ == put_participant(old(self)@, *id, participant@),
            final(self).saved() == old(self).saved(),
    {
        proof {
            reveal(put_participant);
        }
        self.set_state(PREFIX_PARTICIPANT.as_slice(), id, participant)
    }

    // ── Settlement Storage ──

    pub fn get_settlement(&self, record_id: &Id) -> (r: Result<Option<SettlementRecord>, String>)
        ensures
            reports::<SettlementRecord>(r, settlement_at(self@, *record_id)),
    {
        self.get_state::<SettlementRecord>(PREFIX_SETTLEMENT.as_slice(), record_id)
    }

    pub fn set_settlement(&mut self, record_id: &Id, record: &SettlementRecord) -> (r: Result<(), String>)
        ensures
            r is Ok,
            final(self)@ == put_settlement(old(self)@, *record_id, *record),
            final(self).saved() == old(self).saved(),
    {
        proof {
            reveal(put_settlement);
        }
        self.set_state(PREFIX_SETTLEMENT.as_slice(), record_id, record)
    }

    // ── RCW Balance Storage ──

    pub fn get_balance(&self, owner: &Id) -> (r: Result<RCWBalance, String>)
        ensures
            match balance_at(self@, *owner) {
                Ok(b) => r == Ok::<RCWBalance, String>(b),
                Err(why) => r matches Err(e) && e@ == why,
            },
    {
        match self.get_state::<RCWBalance>(PREFIX_BALANCE.as_slice(), owner) {
            Ok(Some(b)) => Ok(b),
            Ok(None) => Ok(RCWBalance { owner: *owner, earned: 0, purchased: 0 }),
            Err(e) => Err(e),
        }
    }

    pub fn set_balance(&mut self, owner: &Id, balance: &RCWBalance) -> (r: Result<(), String>)
        ensures
            r is Ok,
            final(self)@ == put_balance(old(self)@, *owner, *balance),
            final(self).saved() == old(self).saved(),
    {
        proof {
            reveal(put_balance);
        }
        self.set_state(PREFIX_BALANCE.as_slice(), owner, balance)
    }

    // ── Escrow Storage ──

    pub fn get_escrow(&self, escrow_id: &Id) -> (r: Result<Option<Escrow>, String>)
        ensures
            reports::<Escrow>(r, escrow_at(self@, *escrow_id)),
    {
        self.get_state::<Escrow>(PREFIX_ESCROW.as_slice(), escrow_id)
    }

    pub fn set_escrow(&mut self, escrow_id: &Id, escrow: &Escrow) -> (r: Result<(), String>)
        ensures
            r is Ok,
            final(self)@ == put_escrow(old(self)@, *escrow_id, *escrow),
            final(self).saved() == old(self).saved(),
    {
        proof {
            reveal(put_escrow);
        }
        self.set_state(PREFIX_ESCROW.as_slice(), escrow_id, escrow)
    }

    // ── Nonce Storage (replay protection) ──

    pub fn get_nonce(&self, sender: &Id) -> (r: u64)
        ensures
            r == nonce_at(self@, *sender),
    {
        let key = concat(PREFIX_NONCE.as_slice(), sender.as_slice());
        self.get_number(key.as_slice())
    }

    pub fn set_nonce(&mut self, sender: &Id, nonce: u64) -> (r: Result<(), String>)
        ensures
            r is Ok,
            final(self)@ == put_nonce(old(self)@, *sender, nonce),
            final(self).saved() == old(self).saved(),
    {
        proof {
            reveal(put_nonce);
        }
        let key = concat(PREFIX_NONCE.as_slice(), sender.as_slice());
        self.put(key, slice_to_vec(to_be::<8>(nonce).as_slice()));
        Ok(())
    }

    // ── Anchor Storage ──

    pub fn get_anchor(&self, batch_id: &Id) -> (r: Result<Option<AnchorRecord>, String>)
        ensures
            reports::<AnchorRecord>(r, anchor_at(self@, *batch_id)),
    {
        self.get_state::<AnchorRecord>(PREFIX_ANCHOR.as_slice(), batch_id)
    }

    pub fn set_anchor(&mut self, batch_id: &Id, record: &AnchorRecord) -> (r: Result<(), String>)
        ensures
            r is Ok,
            final(self)@ == put_anchor(old(self)@, *batch_id, *record),
            final(self).saved() == old(self).saved(),
    {
        proof {
            reveal(put_anchor);
        }
        self.set_state(PREFIX_ANCHOR.as_slice(), batch_id, record)
    }

    // ── Dispute Storage ──

    pub fn get_dispute(&self, dispute_id: &Id) -> (r: Result<Option<Dispute>, String>)
        ensures
            reports::<Dispute>(r, dispute_at(self@, *dispute_id)),
    {
        self.get_state::<Dispute>(PREFIX_DISPUTE.as_slice(), dispute_id)
    }

    pub fn set_dispute(&mut self, dispute_id: &Id, dispute: &Dispute) -> (r: Result<(), String>)
        ensures
            r is Ok,
            final(self)@ == put_dispute(old(self)@, *dispute_id, dispute@),
            final(self).saved() == old(self).saved(),
    {
        proof {
            reveal(put_dispute);
        }
        self.set_state(PREFIX_DISPUTE.as_slice(), dispute_id, dispute)
    }

    // ── Atomic Batch Writes ──

    /// Create a new write batch for atomic multi-key operations.
    pub fn new_batch(&self) -> (r: StoreBatch)
        ensures
            r@ == Seq::<(Seq<u8>, Seq<u8>)>::empty(),
    {
        let writes: Vec<(Vec<u8>, Vec<u8>)> = Vec::new();
        assert(pairs(writes@) =~= Seq::<(Seq<u8>, Seq<u8>)>::empty());
        StoreBatch { writes }
    }

    /// Commit a batch: all its writes, in order.
    pub fn commit_batch(&mut self, batch: StoreBatch) -> (r: Result<(), String>)
        ensures
            r is Ok,
            final(self)@ == replay(old(self)@, batch@),
            final(self).saved() == old(self).saved(),
    {
        let n: usize = batch.writes.len();
        let mut i: usize = 0;
        let ghost before = self@;
        let ghost saved = self.saved();
        assert(batch@.take(0).len() == 0);
        while i < n
            invariant
                n == batch.writes@.len(),
                i <= n,
                self@ == replay(before, batch@.take(i as int)),
                self.saved() == saved,
            decreases n - i,
        {
            self.put(slice_to_vec(batch.writes[i].0.as_slice()), slice_to_vec(batch.writes[i].1.as_slice()));
            proof {
                let t = batch@.take(i + 1);
                assert(t.drop_last() =~= batch@.take(i as int));
            }
            i += 1;
        }
        assert(batch@.take(n as int) =~= batch@);
        Ok(())
    }

    // ── State Root ──

    /// Feed all entries with a prefix to a hasher, in order.
    fn hash_section(&self, hasher: &mut blake3::Hasher, prefix: &[u8])
        requires
            hasher_is_plain(*old(hasher)),
        ensures
            hasher_input(*final(hasher)) == hasher_input(*old(hasher)) + section(self@, prefix@),
            hasher_is_plain(*final(hasher)),
            exists|keys: Seq<Seq<u8>>| is_listing(self@, prefix@, keys),
    {
        proof {
            use_type_invariant(&*self);
        }
        let ghost db = self@;
        let ghost e = self.entries@;
        let ghost p = prefix@;
        let ghost fed = hasher_input(*hasher);
        let ghost mut keys: Seq<Seq<u8>> = Seq::empty();
        let n: usize = self.entries.len();
        let start: usize = match find(&self.entries, prefix) {
            Ok(i) => i,
            Err(i) => i,
        };
        proof {
            // Nothing before the start has the prefix; nothing from it on comes before the prefix.
            assert forall|j: int| 0 <= j < start implies !p.is_prefix_of(#[trigger] key_of(e, j)) by {
                if start < e.len() && key_of(e, start as int) == p {
                    assert(lex_lt(key_of(e, j), key_of(e, start as int)));
                }
                lemma_prefix_not_after(p, key_of(e, j));
            }
            assert forall|j: int| start <= j < e.len() implies key_of(e, j) == p || lex_lt(p, #[trigger] key_of(e, j)) by {
                if key_of(e, start as int) == p && j > start {
                    assert(lex_lt(key_of(e, start as int), key_of(e, j)));
                }
            }
            assert(fed + entry_bytes(db, keys) =~= fed);
        }
        let mut i: usize = start;
        while i < n
            invariant
                n == self.entries@.len(),
                e == self.entries@,
                db == contents(e),
                keys_sorted(e),
                p == prefix@,
                start <= i <= n,
                forall|j: int| 0 <= j < start ==> !p.is_prefix_of(#[trigger] key_of(e, j)),
                forall|j: int| start <= j < e.len() ==> key_of(e, j) == p || lex_lt(p, #[trigger] key_of(e, j)),
                keys.len() == i - start,
                forall|j: int| 0 <= j < keys.len() ==> #[trigger] keys[j] == key_of(e, start + j) && p.is_prefix_of(keys[j]),
                hasher_input(*hasher) == fed + entry_bytes(db, keys),
                hasher_is_plain(*hasher),
            ensures
                start <= i <= n,
                keys.len() == i - start,
                forall|j: int| 0 <= j < keys.len() ==> #[trigger] keys[j] == key_of(e, start + j) && p.is_prefix_of(keys[j]),
                i < n ==> !p.is_prefix_of(key_of(e, i as int)),
                hasher_input(*hasher) == fed + entry_bytes(db, keys),
                hasher_is_plain(*hasher),
            decreases n - i,
        {
            if !starts_with(self.entries[i].0.as_slice(), prefix) {
                break;
            }
            hasher_update(hasher, self.entries[i].0.as_slice());
            hasher_update(hasher, self.entries[i].1.as_slice());
            proof {
                let k = key_of(e, i as int);
                lemma_contents_at(e, i as int);
                let more = keys.push(k);
                assert(more.drop_last() =~= keys);
                assert(fed + entry_bytes(db, keys) + k + db[k] =~= fed + entry_bytes(db, more));
                keys = more;
            }
            i += 1;
        }
        proof {
            assert forall|k: Seq<u8>| #[trigger] keys.contains(k) <==> (db.dom().contains(k) && p.is_prefix_of(k)) by {
                if keys.contains(k) {
                    let j = keys.index_of(k);
                    assert(keys[j] == k);
                    lemma_contents_at(e, start + j);
                }
                if db.dom().contains(k) && p.is_prefix_of(k) {
                    assert(has_key(e, k));
                    let c = choose|c: int| 0 <= c < e.len() && #[trigger] key_of(e, c) == k;
                    assert(c >= start);
                    if c > i {
                        let stop = key_of(e, i as int);
                        assert(lex_lt(stop, key_of(e, c)));
                        assert(stop == p || lex_lt(p, stop));
                        lemma_is_own_prefix(p);
                        if stop != p {
                            lemma_lex_between(p, p, stop, k);
                        }
                    }
                    assert(c < i);
                    assert(keys[c - start] == k);
                }
            }
            assert forall|a: int, b: int| 0 <= a < b < keys.len() implies lex_lt(#[trigger] keys[a], #[trigger] keys[b]) by {
                assert(lex_lt(key_of(e, start + a), key_of(e, start + b)));
            }
            assert(is_listing(db, p, keys));
            lemma_listing(db, p, keys);
        }
    }

    /// Compute a deterministic hash over all state entries (Merkle-like state root).
    pub fn compute_state_root(&self) -> (r: [u8; 32])
        ensures
            r@ == state_root(self@),
            self@.dom().finite(),
    {
        proof {
            law_store_limits(*self);
        }
        let mut hasher = hasher_new();
        self.hash_section(&mut hasher, PREFIX_PARTICIPANT.as_slice());
        self.hash_section(&mut hasher, PREFIX_SETTLEMENT.as_slice());
        self.hash_section(&mut hasher, PREFIX_BALANCE.as_slice());
        self.hash_section(&mut hasher, PREFIX_ESCROW.as_slice());
        self.hash_section(&mut hasher, PREFIX_DISPUTE.as_slice());
        self.hash_section(&mut hasher, PREFIX_NONCE.as_slice());
        self.hash_section(&mut hasher, PREFIX_ANCHOR.as_slice());
        assert(hasher_input(hasher) =~= state_bytes(self@));
        hasher_finalize(&hasher)
    }
}

/// What a store holds is limited: there are finitely many records, and the length of
/// each can be told in eight bytes.
pub proof fn law_store_limits(store: Store)
    ensures
        store@.dom().finite(),
        fits(store@),
{
    let e = store.entries@;
    let keys = e.map_values(|x: (Vec<u8>, Vec<u8>)| x.0@);
    assert(store@.dom() =~= keys.to_set()) by {
        assert forall|k: Seq<u8>| store@.dom().contains(k) <==> keys.to_set().contains(k) by {
            if has_key(e, k) {
                let i = choose|i: int| 0 <= i < e.len() && #[trigger] key_of(e, i) == k;
                assert(keys[i] == k);
            }
            if keys.contains(k) {
                let i = keys.index_of(k);
                assert(key_of(e, i) == k);
            }
        }
    }
    vstd::seq_lib::seq_to_set_is_finite(keys);
    assert forall|k: Seq<u8>| #[trigger] store@.dom().contains(k) implies store@[k].len() <= u64::MAX by {
        let i = choose|i: int| 0 <= i < e.len() && #[trigger] key_of(e, i) == k;
        let v = e[i].1;
        assert(v@.len() == v.len());
    }
}

proof fn lemma_is_own_prefix(p: Seq<u8>)
    ensures
        p.is_prefix_of(p),
{
    assert(p =~= p.subrange(0, p.len() as int));
}

/// What has a prefix does not come before it.
proof fn lemma_prefix_not_after(p: Seq<u8>, k: Seq<u8>)
    requires
        lex_lt(k, p),
    ensures
        !p.is_prefix_of(k),
    decreases p.len(),
{
    if p.is_prefix_of(k) {
        assert(p =~= k.subrange(0, p.len() as int));
        assert(k.len() > 0 && k[0] == p[0]);
        assert(p.drop_first() =~= k.drop_first().subrange(0, p.len() - 1));
        lemma_prefix_not_after(p.drop_first(), k.drop_first());
    }
}

/// Atomic write batch: collects writes, which are committed together.
pub struct StoreBatch {
    writes: Vec<(Vec<u8>, Vec<u8>)>,
}

impl View for StoreBatch {
    type V = Seq<(Seq<u8>, Seq<u8>)>;

    closed spec fn view(&self) -> Seq<(Seq<u8>, Seq<u8>)> {
        pairs(self.writes@)
    }
}

impl StoreBatch {
    fn put(&mut self, key: Vec<u8>, value: Vec<u8>)
        ensures
            final(self)@ == old(self)@.push((key@, value@)),
    {
        let ghost before = self@;
        let ghost kv = (key@, value@);
        self.writes.push((key, value));
        assert(self@ =~= before.push(kv));
    }

    fn put_state<T: Wire>(&mut self, prefix: &[u8], id: &Id, value: &T)
        ensures
            final(self)@ == old(self)@.push((prefix@ + id@, T::bytes(value.model()))),
    {
        let key = concat(prefix, id.as_slice());
        let bytes = to_bytes::<T>(value);
        self.put(key, bytes);
    }

    pub fn set_participant(&mut self, id: &Id, participant: &Participant)
        ensures
            final(self)@ == old(self)@.push((participant_key(*id), Participant::bytes(participant@))),
    {
        self.put_state(PREFIX_PARTICIPANT.as_slice(), id, participant);
    }

    pub fn set_settlement(&mut self, record_id: &Id, record: &SettlementRecord)
        ensures
            final(self)@ == old(self)@.push((settlement_key(*record_id), SettlementRecord::bytes(*record))),
    {
        self.put_state(PREFIX_SETTLEMENT.as_slice(), record_id, record);
    }

    pub fn set_balance(&mut self, owner: &Id, balance: &RCWBalance)
        ensures
            final(self)@ == old(self)@.push((balance_key(*owner), RCWBalance::bytes(*balance))),
    {
        self.put_state(PREFIX_BALANCE.as_slice(), owner, balance);
    }

    pub fn set_escrow(&mut self, escrow_id: &Id, escrow: &Escrow)
        ensures
            final(self)@ == old(self)@.push((escrow_key(*escrow_id), Escrow::bytes(*escrow))),
    {
        self.put_state(PREFIX_ESCROW.as_slice(), escrow_id, escrow);
    }

    pub fn set_dispute(&mut self, dispute_id: &Id, dispute: &Dispute)
        ensures
            final(self)@ == old(self)@.push((dispute_key(*dispute_id), Dispute::bytes(dispute@))),
    {
        self.put_state(PREFIX_DISPUTE.as_slice(), dispute_id, dispute);
    }

    pub fn set_nonce(&mut self, sender: &Id, nonce: u64)
        ensures
            final(self)@ == old(self)@.push((nonce_key(*sender), be(nonce as int, 8))),
    {
        let key = concat(PREFIX_NONCE.as_slice(), sender.as_slice());
        self.put(key, slice_to_vec(to_be::<8>(nonce).as_slice()));
    }
}

} // verus!
