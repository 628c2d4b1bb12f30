//! What is read after a write.

use crate::bytes::{be, lemma_le_len};
use crate::laws::keys::{at, law_keys_distinct, lemma_at_put, lemma_fixed_sizes, lemma_found, lemma_number_found, lemma_slot_at};
use crate::store::{anchor_at, anchor_key, balance_at, balance_key, block_at, block_key, dispute_at, dispute_key, escrow_at, escrow_key, fits, latest_height, nonce_at, nonce_key, participant_at, participant_key, put_anchor, put_balance, put_block, put_dispute, put_escrow, put_nonce, put_participant, put_settlement, replay, settlement_at, settlement_key, slot, Db, Slot, KEY_LATEST_HEIGHT};
use crate::types::{AnchorRecord, Block, BlockView, Dispute, DisputeView, Escrow, Id, Participant, ParticipantView, RCWBalance, SettlementRecord};
use crate::wire::{i64_bits, Wire};
use vstd::prelude::*;
use vstd::utf8::encode_utf8;

verus! {

/// Can the length of a participant's record be told in eight bytes?
pub open spec fn participant_fits(p: ParticipantView) -> bool {
    122 + encode_utf8(p.metadata).len() <= u64::MAX
}

pub proof fn lemma_participant_size(p: ParticipantView)
    ensures
        Participant::bytes(p).len() == 122 + encode_utf8(p.metadata).len(),
{
    lemma_le_len(encode_utf8(p.metadata).len() as int, 8);
    lemma_le_len(p.total_tx as int, 8);
    lemma_le_len(p.success_tx as int, 8);
    lemma_le_len(p.dispute_count as int, 8);
    lemma_le_len(p.dispute_won as int, 8);
    lemma_le_len(p.rating_sum as int, 8);
    lemma_le_len(p.rating_count as int, 8);
    lemma_le_len(p.total_volume as int, 8);
    lemma_le_len(p.total_settled as int, 8);
    lemma_le_len(i64_bits(p.registered_at), 8);
    lemma_le_len(i64_bits(p.last_activity_at), 8);
}

/// What was read fits where everything does.
pub proof fn lemma_present_fits<T: Wire>(db: Db, k: Seq<u8>)
    requires
        fits(db),
    ensures
        slot::<T>(db, k) matches Slot::Present(m) ==> T::bytes(m).len() <= u64::MAX,
{
    reveal(slot);
    if db.dom().contains(k) {
        let v = db[k];
        if let Some(m) = crate::wire::parsed::<T>(v) {
            assert(T::bytes(m).is_prefix_of(v));
        }
    }
}

/// A participant that is there fits where everything does.
pub proof fn lemma_participant_fits(db: Db, id: Id)
    requires
        fits(db),
    ensures
        participant_at(db, id) matches Slot::Present(p) ==> participant_fits(p),
        forall|m: ParticipantView| at(db, participant_key(id)) == Some(#[trigger] Participant::bytes(m)) ==> participant_fits(m),
{
    lemma_present_fits::<Participant>(db, participant_key(id));
    if let Slot::Present(p) = participant_at(db, id) {
        lemma_participant_size(p);
    }
    assert forall|m: ParticipantView| at(db, participant_key(id)) == Some(#[trigger] Participant::bytes(m)) implies participant_fits(m) by {
        lemma_participant_size(m);
    }
}

/// A participant that is written is read back, and no other write changes it.
pub proof fn law_participant_reads(id: Id)
    ensures
        forall|db: Db, m: ParticipantView| participant_fits(m) ==> #[trigger] participant_at(put_participant(db, id, m), id) == Slot::Present(m),
        forall|db: Db, x: Id, m: ParticipantView| x != id ==> #[trigger] participant_at(put_participant(db, x, m), id) == participant_at(db, id),
        forall|db: Db, x: Id, m: SettlementRecord| #[trigger] participant_at(put_settlement(db, x, m), id) == participant_at(db, id),
        forall|db: Db, x: Id, m: RCWBalance| #[trigger] participant_at(put_balance(db, x, m), id) == participant_at(db, id),
        forall|db: Db, x: Id, m: Escrow| #[trigger] participant_at(put_escrow(db, x, m), id) == participant_at(db, id),
        forall|db: Db, x: Id, m: DisputeView| #[trigger] participant_at(put_dispute(db, x, m), id) == participant_at(db, id),
        forall|db: Db, x: Id, m: AnchorRecord| #[trigger] participant_at(put_anchor(db, x, m), id) == participant_at(db, id),
        forall|db: Db, x: Id, n: u64| #[trigger] participant_at(put_nonce(db, x, n), id) == participant_at(db, id),
        forall|db: Db, b: BlockView| #[trigger] participant_at(put_block(db, b), id) == participant_at(db, id),
{
    let k = participant_key(id);
    lemma_at_put(k);
    lemma_slot_at::<Participant>(k);
    assert forall|x: Id| #![trigger participant_key(x)] x != id implies participant_key(x) != k by {
        law_keys_distinct(x, id, 0, 0);
    }
    assert forall|x: Id| #![trigger settlement_key(x)] settlement_key(x) != k by {
        law_keys_distinct(id, x, 0, 0);
    }
    assert forall|x: Id| #![trigger balance_key(x)] balance_key(x) != k by {
        law_keys_distinct(id, x, 0, 0);
    }
    assert forall|x: Id| #![trigger escrow_key(x)] escrow_key(x) != k by {
        law_keys_distinct(id, x, 0, 0);
    }
    assert forall|x: Id| #![trigger dispute_key(x)] dispute_key(x) != k by {
        law_keys_distinct(id, x, 0, 0);
    }
    assert forall|x: Id| #![trigger anchor_key(x)] anchor_key(x) != k by {
        law_keys_distinct(id, x, 0, 0);
    }
    assert forall|x: Id| #![trigger nonce_key(x)] nonce_key(x) != k by {
        law_keys_distinct(id, x, 0, 0);
    }
    assert forall|h: u64| #![trigger block_key(h)] block_key(h) != k && KEY_LATEST_HEIGHT@ != k by {
        law_keys_distinct(id, id, h, h);
    }
    assert forall|m: ParticipantView| participant_fits(m) implies crate::wire::parsed::<Participant>(#[trigger] Participant::bytes(m)) == Some(m) by {
        lemma_participant_size(m);
        lemma_found::<Participant>(m);
    }
}

/// A balance that is written is read back, and no other write changes it.
pub proof fn law_balance_reads(id: Id)
    ensures
        forall|db: Db, m: RCWBalance| #[trigger] balance_at(put_balance(db, id, m), id) == Ok::<RCWBalance, Seq<char>>(m),
        forall|db: Db, x: Id, m: RCWBalance| x != id ==> #[trigger] balance_at(put_balance(db, x, m), id) == balance_at(db, id),
        forall|db: Db, x: Id, m: ParticipantView| #[trigger] balance_at(put_participant(db, x, m), id) == balance_at(db, id),
        forall|db: Db, x: Id, m: SettlementRecord| #[trigger] balance_at(put_settlement(db, x, m), id) == balance_at(db, id),
        forall|db: Db, x: Id, m: Escrow| #[trigger] balance_at(put_escrow(db, x, m), id) == balance_at(db, id),
        forall|db: Db, x: Id, m: DisputeView| #[trigger] balance_at(put_dispute(db, x, m), id) == balance_at(db, id),
        forall|db: Db, x: Id, m: AnchorRecord| #[trigger] balance_at(put_anchor(db, x, m), id) == balance_at(db, id),
        forall|db: Db, x: Id, n: u64| #[trigger] balance_at(put_nonce(db, x, n), id) == balance_at(db, id),
        forall|db: Db, b: BlockView| #[trigger] balance_at(put_block(db, b), id) == balance_at(db, id),
{
    let k = balance_key(id);
    lemma_at_put(k);
    lemma_slot_at::<RCWBalance>(k);
    assert forall|x: Id| #![trigger balance_key(x)] x != id implies balance_key(x) != k by {
        law_keys_distinct(x, id, 0, 0);
    }
    assert forall|x: Id| #![trigger settlement_key(x)] settlement_key(x) != k by {
        law_keys_distinct(x, id, 0, 0);
    }
    assert forall|x: Id| #![trigger participant_key(x)] participant_key(x) != k by {
        law_keys_distinct(x, id, 0, 0);
    }
    assert forall|x: Id| #![trigger escrow_key(x)] escrow_key(x) != k by {
        law_keys_distinct(id, x, 0, 0);
    }
    assert forall|x: Id| #![trigger dispute_key(x)] dispute_key(x) != k by {
        law_keys_distinct(id, x, 0, 0);
    }
    assert forall|x: Id| #![trigger anchor_key(x)] anchor_key(x) != k by {
        law_keys_distinct(id, x, 0, 0);
    }
    assert forall|x: Id| #![trigger nonce_key(x)] nonce_key(x) != k by {
        law_keys_distinct(id, x, 0, 0);
    }
    assert forall|h: u64| #![trigger block_key(h)] block_key(h) != k && KEY_LATEST_HEIGHT@ != k by {
        law_keys_distinct(id, id, h, h);
    }
    assert forall|m: RCWBalance| crate::wire::parsed::<RCWBalance>(#[trigger] RCWBalance::bytes(m)) == Some(m) by {
        lemma_fixed_sizes();
        lemma_found::<RCWBalance>(m);
    }
}

/// An escrow that is written is read back, and no other write changes it.
#[verifier::rlimit(30)]
pub proof fn law_escrow_reads(id: Id)
    ensures
        forall|db: Db, m: Escrow| #[trigger] escrow_at(put_escrow(db, id, m), id) == Slot::Present(m),
        forall|db: Db, x: Id, m: Escrow| x != id ==> #[trigger] escrow_at(put_escrow(db, x, m), id) == escrow_at(db, id),
        forall|db: Db, x: Id, m: ParticipantView| #[trigger] escrow_at(put_participant(db, x, m), id) == escrow_at(db, id),
        forall|db: Db, x: Id, m: SettlementRecord| #[trigger] escrow_at(put_settlement(db, x, m), id) == escrow_at(db, id),
        forall|db: Db, x: Id, m: RCWBalance| #[trigger] escrow_at(put_balance(db, x, m), id) == escrow_at(db, id),
        forall|db: Db, x: Id, m: DisputeView| #[trigger] escrow_at(put_dispute(db, x, m), id) == escrow_at(db, id),
        forall|db: Db, x: Id, m: AnchorRecord| #[trigger] escrow_at(put_anchor(db, x, m), id) == escrow_at(db, id),
        forall|db: Db, x: Id, n: u64| #[trigger] escrow_at(put_nonce(db, x, n), id) == escrow_at(db, id),
        forall|db: Db, b: BlockView| #[trigger] escrow_at(put_block(db, b), id) == escrow_at(db, id),
{
    let k = escrow_key(id);
    lemma_at_put(k);
    lemma_slot_at::<Escrow>(k);
    assert forall|x: Id| #![trigger escrow_key(x)] x != id implies escrow_key(x) != k by {
        law_keys_distinct(x, id, 0, 0);
    }
    assert forall|x: Id| #![trigger settlement_key(x)] settlement_key(x) != k by {
        law_keys_distinct(x, id, 0, 0);
    }
    assert forall|x: Id| #![trigger participant_key(x)] participant_key(x) != k by {
        law_keys_distinct(x, id, 0, 0);
    }
    assert forall|x: Id| #![trigger balance_key(x)] balance_key(x) != k by {
        law_keys_distinct(x, id, 0, 0);
    }
    assert forall|x: Id| #![trigger dispute_key(x)] dispute_key(x) != k by {
        law_keys_distinct(id, x, 0, 0);
    }
    assert forall|x: Id| #![trigger anchor_key(x)] anchor_key(x) != k by {
        law_keys_distinct(id, x, 0, 0);
    }
    assert forall|x: Id| #![trigger nonce_key(x)] nonce_key(x) != k by {
        law_keys_distinct(id, x, 0, 0);
    }
    assert forall|h: u64| #![trigger block_key(h)] block_key(h) != k && KEY_LATEST_HEIGHT@ != k by {
        law_keys_distinct(id, id, h, h);
    }
    assert forall|m: Escrow| crate::wire::parsed::<Escrow>(#[trigger] Escrow::bytes(m)) == Some(m) by {
        lemma_fixed_sizes();
        lemma_found::<Escrow>(m);
    }
}

/// Can the length of a dispute's record be told in eight bytes?
pub open spec fn dispute_fits(d: DisputeView) -> bool {
    Dispute::bytes(d).len() <= u64::MAX
}

/// A dispute that is written is read back, and no other write changes it.
pub proof fn law_dispute_reads(id: Id)
    ensures
        forall|db: Db, m: DisputeView| dispute_fits(m) ==> #[trigger] dispute_at(put_dispute(db, id, m), id) == Slot::Present(m),
        forall|db: Db, x: Id, m: DisputeView| x != id ==> #[trigger] dispute_at(put_dispute(db, x, m), id) == dispute_at(db, id),
        forall|db: Db, x: Id, m: ParticipantView| #[trigger] dispute_at(put_participant(db, x, m), id) == dispute_at(db, id),
        forall|db: Db, x: Id, m: SettlementRecord| #[trigger] dispute_at(put_settlement(db, x, m), id) == dispute_at(db, id),
        forall|db: Db, x: Id, m: RCWBalance| #[trigger] dispute_at(put_balance(db, x, m), id) == dispute_at(db, id),
        forall|db: Db, x: Id, m: Escrow| #[trigger] dispute_at(put_escrow(db, x, m), id) == dispute_at(db, id),
        forall|db: Db, x: Id, m: AnchorRecord| #[trigger] dispute_at(put_anchor(db, x, m), id) == dispute_at(db, id),
        forall|db: Db, x: Id, n: u64| #[trigger] dispute_at(put_nonce(db, x, n), id) == dispute_at(db, id),
        forall|db: Db, b: BlockView| #[trigger] dispute_at(put_block(db, b), id) == dispute_at(db, id),
{
    let k = dispute_key(id);
    lemma_at_put(k);
    lemma_slot_at::<Dispute>(k);
    assert forall|x: Id| #![trigger dispute_key(x)] x != id implies dispute_key(x) != k by {
        law_keys_distinct(x, id, 0, 0);
    }
    assert forall|x: Id| #![trigger settlement_key(x)] settlement_key(x) != k by {
        law_keys_distinct(x, id, 0, 0);
    }
    assert forall|x: Id| #![trigger participant_key(x)] participant_key(x) != k by {
        law_keys_distinct(x, id, 0, 0);
    }
    assert forall|x: Id| #![trigger balance_key(x)] balance_key(x) != k by {
        law_keys_distinct(x, id, 0, 0);
    }
    assert forall|x: Id| #![trigger escrow_key(x)] escrow_key(x) != k by {
        law_keys_distinct(x, id, 0, 0);
    }
    assert forall|x: Id| #![trigger anchor_key(x)] anchor_key(x) != k by {
        law_keys_distinct(id, x, 0, 0);
    }
    assert forall|x: Id| #![trigger nonce_key(x)] nonce_key(x) != k by {
        law_keys_distinct(id, x, 0, 0);
    }
    assert forall|h: u64| #![trigger block_key(h)] block_key(h) != k && KEY_LATEST_HEIGHT@ != k by {
        law_keys_distinct(id, id, h, h);
    }
    assert forall|m: DisputeView| dispute_fits(m) implies crate::wire::parsed::<Dispute>(#[trigger] Dispute::bytes(m)) == Some(m) by {
        lemma_found::<Dispute>(m);
    }
}

/// Settlements, anchors and nonces that are written are read back, and writing them
/// under another id changes nothing.
pub proof fn law_other_reads(db: Db, id: Id, x: Id, s: SettlementRecord, a: AnchorRecord, n: u64)
    ensures
        settlement_at(put_settlement(db, id, s), id) == Slot::Present(s),
        anchor_at(put_anchor(db, id, a), id) == Slot::Present(a),
        nonce_at(put_nonce(db, id, n), id) == n,
        x != id ==> settlement_at(put_settlement(db, x, s), id) == settlement_at(db, id),
        x != id ==> anchor_at(put_anchor(db, x, a), id) == anchor_at(db, id),
        x != id ==> nonce_at(put_nonce(db, x, n), id) == nonce_at(db, id),
{
    lemma_at_put(settlement_key(id));
    lemma_at_put(anchor_key(id));
    lemma_at_put(nonce_key(id));
    lemma_slot_at::<SettlementRecord>(settlement_key(id));
    lemma_slot_at::<AnchorRecord>(anchor_key(id));
    law_keys_distinct(x, id, 0, 0);
    lemma_fixed_sizes();
    lemma_found::<SettlementRecord>(s);
    lemma_found::<AnchorRecord>(a);
    lemma_number_found(n);
    assert(at(put_nonce(db, id, n), nonce_key(id)) == Some(be(n as int, 8)));
    assert(x != id ==> at(put_nonce(db, x, n), nonce_key(id)) == at(db, nonce_key(id)));
}

/// A block that is stored is read back under its height, which becomes the latest;
/// blocks at other heights stay.
pub proof fn law_block_reads(db: Db, b: BlockView, height: u64)
    requires
        Block::bytes(b).len() <= u64::MAX,
    ensures
        block_at(put_block(db, b), b.header.height) == Slot::Present(b),
        latest_height(put_block(db, b)) == b.header.height,
        height != b.header.height ==> block_at(put_block(db, b), height) == block_at(db, height),
{
    let h = b.header.height;
    lemma_at_put(block_key(h));
    lemma_at_put(block_key(height));
    lemma_at_put(KEY_LATEST_HEIGHT@);
    lemma_slot_at::<Block>(block_key(h));
    lemma_slot_at::<Block>(block_key(height));
    law_keys_distinct(b.header.proposer, b.header.proposer, h, height);
    law_keys_distinct(b.header.proposer, b.header.proposer, height, h);
    lemma_found::<Block>(b);
    lemma_number_found(h);
    assert(at(put_block(db, b), KEY_LATEST_HEIGHT@) == Some(be(h as int, 8)));
}

/// A block that is stored is the latest.
pub proof fn law_latest(db: Db, b: BlockView)
    ensures
        latest_height(put_block(db, b)) == b.header.height,
{
    lemma_at_put(KEY_LATEST_HEIGHT@);
    lemma_number_found(b.header.height);
    assert(at(put_block(db, b), KEY_LATEST_HEIGHT@) == Some(be(b.header.height as int, 8)));
}

/// A block that could be stored is read back under its height, and is the latest.
pub proof fn law_stored_block(after: Db, db: Db, b: BlockView)
    requires
        after == put_block(db, b),
        fits(after),
    ensures
        block_at(after, b.header.height) == Slot::Present(b),
        latest_height(after) == b.header.height,
{
    let h = b.header.height;
    lemma_at_put(block_key(h));
    law_keys_distinct(b.header.proposer, b.header.proposer, h, h);
    assert(at(after, block_key(h)) == Some(Block::bytes(b)));
    assert(after.dom().contains(block_key(h)));
    law_block_reads(db, b, h);
}

/// After a batch each key that it writes holds what it wrote last, and all other
/// keys hold what they held.
pub proof fn law_batch(db: Db, writes: Seq<(Seq<u8>, Seq<u8>)>, k: Seq<u8>)
    ensures
        forall|i: int| 0 <= i < writes.len() && (#[trigger] writes[i]).0 == k && (forall|j: int| i < j < writes.len() ==> (#[trigger] writes[j]).0 != k)
            ==> at(replay(db, writes), k) == Some(writes[i].1),
        (forall|j: int| 0 <= j < writes.len() ==> (#[trigger] writes[j]).0 != k) ==> at(replay(db, writes), k) == at(db, k),
    decreases writes.len(),
{
    if writes.len() > 0 {
        let rest = writes.drop_last();
        let last = writes.len() - 1;
        law_batch(db, rest, k);
        assert(writes.last() == writes[last]);
        if writes[last].0 != k {
            assert forall|i: int| 0 <= i < writes.len() && (#[trigger] writes[i]).0 == k && (forall|j: int| i < j < writes.len() ==> (#[trigger] writes[j]).0 != k) implies at(
                replay(db, writes),
                k,
            ) == Some(writes[i].1) by {
                assert(i != last);
                assert(rest[i] == writes[i]);
                assert forall|j: int| i < j < rest.len() implies (#[trigger] rest[j]).0 != k by {
                    assert(rest[j] == writes[j]);
                }
            }
            if forall|j: int| 0 <= j < writes.len() ==> (#[trigger] writes[j]).0 != k {
                assert forall|j: int| 0 <= j < rest.len() implies (#[trigger] rest[j]).0 != k by {
                    assert(rest[j] == writes[j]);
                }
            }
        }
    }
}

/// Writes handed out in several lots add up: made one lot after the other they come
/// to the same as made at once.
pub proof fn law_writes_add_up(db: Db, first: Seq<(Seq<u8>, Seq<u8>)>, second: Seq<(Seq<u8>, Seq<u8>)>)
    ensures
        replay(replay(db, first), second) == replay(db, first + second),
    decreases second.len(),
{
    if second.len() == 0 {
        assert(first + second =~= first);
    } else {
        law_writes_add_up(db, first, second.drop_last());
        assert((first + second).drop_last() =~= first + second.drop_last());
    }
}

/// Does the list hold every entry of the store, in whatever order, and nothing else?
pub open spec fn lists(db: Db, list: Seq<(Seq<u8>, Seq<u8>)>) -> bool {
    &&& forall|i: int| 0 <= i < list.len() ==> at(db, (#[trigger] list[i]).0) == Some(list[i].1)
    &&& forall|k: Seq<u8>| db.dom().contains(k) ==> exists|i: int| 0 <= i < list.len() && (#[trigger] list[i]).0 == k
}

/// A store is what a list of its entries is read as.
pub proof fn law_entries_read_back(db: Db, list: Seq<(Seq<u8>, Seq<u8>)>)
    requires
        lists(db, list),
    ensures
        replay(Map::empty(), list) == db,
{
    let read = replay(Map::empty(), list);
    assert forall|k: Seq<u8>| #[trigger] read.dom().contains(k) == db.dom().contains(k) && (db.dom().contains(k) ==> read[k] == db[k]) by {
        lemma_listed(list, list.len() as int, k);
        if at(read, k) is Some {
            let i = choose|i: int| 0 <= i < list.len() && (#[trigger] list[i]).0 == k && at(read, k) == Some(list[i].1);
            assert(at(db, list[i].0) == Some(list[i].1));
        }
        if db.dom().contains(k) {
            let i = choose|i: int| 0 <= i < list.len() && (#[trigger] list[i]).0 == k;
            assert(list[i].0 == k);
        }
    }
    assert(read =~= db);
}

/// What entries leave under a key: one of those that have the key, if any has.
proof fn lemma_listed(list: Seq<(Seq<u8>, Seq<u8>)>, n: int, k: Seq<u8>)
    requires
        0 <= n <= list.len(),
    ensures
        match at(replay(Map::empty(), list.take(n)), k) {
            Some(v) => exists|i: int| 0 <= i < n && (#[trigger] list[i]).0 == k && list[i].1 == v,
            None => forall|i: int| 0 <= i < n ==> (#[trigger] list[i]).0 != k,
        },
        n == list.len() ==> list.take(n) == list,
    decreases n,
{
    if n == list.len() {
        assert(list.take(n) =~= list);
    }
    if n > 0 {
        lemma_listed(list, n - 1, k);
        assert(list.take(n).drop_last() =~= list.take(n - 1));
        assert(list.take(n).last() == list[n - 1]);
        let before = at(replay(Map::empty(), list.take(n - 1)), k);
        if list[n - 1].0 != k && before is Some {
            let i = choose|i: int| 0 <= i < n - 1 && (#[trigger] list[i]).0 == k && Some(list[i].1) == before;
            assert(list[i].0 == k);
        }
    }
}

} // verus!
