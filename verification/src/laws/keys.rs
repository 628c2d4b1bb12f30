//! Records do not get in each other's way.

use crate::bytes::{be, lemma_array_of_view, lemma_be_round_trip, lemma_le_len, lemma_pow256_values, un_be};
use crate::store::{anchor_key, balance_key, block_key, dispute_key, escrow_key, nonce_key, participant_key, put_anchor, put_balance, put_block, put_dispute, put_escrow, put_nonce, put_participant, put_settlement, settlement_key, slot, Db, Slot, KEY_LATEST_HEIGHT, PREFIX_ANCHOR, PREFIX_BALANCE, PREFIX_BLOCK, PREFIX_DISPUTE, PREFIX_ESCROW, PREFIX_NONCE, PREFIX_PARTICIPANT, PREFIX_SETTLEMENT};
use crate::types::{AnchorRecord, Block, BlockView, Dispute, DisputeView, Escrow, Id, Participant, ParticipantView, RCWBalance, SettlementRecord};
use crate::wire::{law_read_back, parsed, Wire};
use vstd::prelude::*;

verus! {

/// What is under a key, if anything is.
pub open spec fn at(db: Db, k: Seq<u8>) -> Option<Seq<u8>> {
    if db.dom().contains(k) {
        Some(db[k])
    } else {
        None
    }
}

proof fn lemma_split(p: Seq<u8>, a: Seq<u8>, q: Seq<u8>, b: Seq<u8>)
    requires
        p.len() == q.len(),
        p + a == q + b,
    ensures
        p == q,
        a == b,
{
    assert(p =~= (p + a).subrange(0, p.len() as int));
    assert(q =~= (q + b).subrange(0, q.len() as int));
    assert(a =~= (p + a).subrange(p.len() as int, (p + a).len() as int));
    assert(b =~= (q + b).subrange(q.len() as int, (q + b).len() as int));
}

/// No two kinds of record have the same prefix.
pub proof fn lemma_prefixes_differ()
    ensures
        PREFIX_PARTICIPANT@ != PREFIX_SETTLEMENT@,
        PREFIX_PARTICIPANT@ != PREFIX_BALANCE@,
        PREFIX_PARTICIPANT@ != PREFIX_ESCROW@,
        PREFIX_PARTICIPANT@ != PREFIX_DISPUTE@,
        PREFIX_PARTICIPANT@ != PREFIX_NONCE@,
        PREFIX_PARTICIPANT@ != PREFIX_ANCHOR@,
        PREFIX_SETTLEMENT@ != PREFIX_BALANCE@,
        PREFIX_SETTLEMENT@ != PREFIX_ESCROW@,
        PREFIX_SETTLEMENT@ != PREFIX_DISPUTE@,
        PREFIX_SETTLEMENT@ != PREFIX_NONCE@,
        PREFIX_SETTLEMENT@ != PREFIX_ANCHOR@,
        PREFIX_BALANCE@ != PREFIX_ESCROW@,
        PREFIX_BALANCE@ != PREFIX_DISPUTE@,
        PREFIX_BALANCE@ != PREFIX_NONCE@,
        PREFIX_BALANCE@ != PREFIX_ANCHOR@,
        PREFIX_ESCROW@ != PREFIX_DISPUTE@,
        PREFIX_ESCROW@ != PREFIX_NONCE@,
        PREFIX_ESCROW@ != PREFIX_ANCHOR@,
        PREFIX_DISPUTE@ != PREFIX_NONCE@,
        PREFIX_DISPUTE@ != PREFIX_ANCHOR@,
        PREFIX_NONCE@ != PREFIX_ANCHOR@,
        PREFIX_BLOCK@ != PREFIX_PARTICIPANT@,
        PREFIX_BLOCK@ != PREFIX_SETTLEMENT@,
        PREFIX_BLOCK@ != PREFIX_BALANCE@,
        PREFIX_BLOCK@ != PREFIX_ESCROW@,
        PREFIX_BLOCK@ != PREFIX_DISPUTE@,
        PREFIX_BLOCK@ != PREFIX_NONCE@,
        PREFIX_BLOCK@ != PREFIX_ANCHOR@,
{
    assert(PREFIX_PARTICIPANT@[0] == 112 && PREFIX_SETTLEMENT@[0] == 115 && PREFIX_BALANCE@[0] == 98 && PREFIX_ESCROW@[0] == 101);
    assert(PREFIX_DISPUTE@[0] == 100 && PREFIX_NONCE@[0] == 110 && PREFIX_ANCHOR@[0] == 97 && PREFIX_BLOCK@[0] == 98);
    assert(PREFIX_BALANCE@[1] == 97 && PREFIX_BLOCK@[1] == 108);
}

/// Each record has a key of its own: different ids have different keys, and no key
/// serves two kinds.
pub proof fn law_keys_distinct(a: Id, b: Id, h: u64, g: u64)
    ensures
        a != b ==> participant_key(a) != participant_key(b),
        a != b ==> settlement_key(a) != settlement_key(b),
        a != b ==> balance_key(a) != balance_key(b),
        a != b ==> escrow_key(a) != escrow_key(b),
        a != b ==> dispute_key(a) != dispute_key(b),
        a != b ==> nonce_key(a) != nonce_key(b),
        a != b ==> anchor_key(a) != anchor_key(b),
        h != g ==> block_key(h) != block_key(g),
        participant_key(a) != settlement_key(b),
        participant_key(a) != balance_key(b),
        participant_key(a) != escrow_key(b),
        participant_key(a) != dispute_key(b),
        participant_key(a) != nonce_key(b),
        participant_key(a) != anchor_key(b),
        settlement_key(a) != balance_key(b),
        settlement_key(a) != escrow_key(b),
        settlement_key(a) != dispute_key(b),
        settlement_key(a) != nonce_key(b),
        settlement_key(a) != anchor_key(b),
        balance_key(a) != escrow_key(b),
        balance_key(a) != dispute_key(b),
        balance_key(a) != nonce_key(b),
        balance_key(a) != anchor_key(b),
        escrow_key(a) != dispute_key(b),
        escrow_key(a) != nonce_key(b),
        escrow_key(a) != anchor_key(b),
        dispute_key(a) != nonce_key(b),
        dispute_key(a) != anchor_key(b),
        nonce_key(a) != anchor_key(b),
        participant_key(a).len() == 36,
        settlement_key(a).len() == 36,
        balance_key(a).len() == 36,
        escrow_key(a).len() == 36,
        dispute_key(a).len() == 36,
        nonce_key(a).len() == 36,
        anchor_key(a).len() == 36,
        block_key(h).len() == 12,
        KEY_LATEST_HEIGHT@.len() == 18,
{
    lemma_prefixes_differ();
    lemma_pow256_values();
    lemma_be_round_trip(h as int, 8);
    lemma_be_round_trip(g as int, 8);
    lemma_apart(PREFIX_PARTICIPANT@, a, PREFIX_PARTICIPANT@, b);
    lemma_apart(PREFIX_SETTLEMENT@, a, PREFIX_SETTLEMENT@, b);
    lemma_apart(PREFIX_BALANCE@, a, PREFIX_BALANCE@, b);
    lemma_apart(PREFIX_ESCROW@, a, PREFIX_ESCROW@, b);
    lemma_apart(PREFIX_DISPUTE@, a, PREFIX_DISPUTE@, b);
    lemma_apart(PREFIX_NONCE@, a, PREFIX_NONCE@, b);
    lemma_apart(PREFIX_ANCHOR@, a, PREFIX_ANCHOR@, b);
    lemma_apart(PREFIX_PARTICIPANT@, a, PREFIX_SETTLEMENT@, b);
    lemma_apart(PREFIX_PARTICIPANT@, a, PREFIX_BALANCE@, b);
    lemma_apart(PREFIX_PARTICIPANT@, a, PREFIX_ESCROW@, b);
    lemma_apart(PREFIX_PARTICIPANT@, a, PREFIX_DISPUTE@, b);
    lemma_apart(PREFIX_PARTICIPANT@, a, PREFIX_NONCE@, b);
    lemma_apart(PREFIX_PARTICIPANT@, a, PREFIX_ANCHOR@, b);
    lemma_apart(PREFIX_SETTLEMENT@, a, PREFIX_BALANCE@, b);
    lemma_apart(PREFIX_SETTLEMENT@, a, PREFIX_ESCROW@, b);
    lemma_apart(PREFIX_SETTLEMENT@, a, PREFIX_DISPUTE@, b);
    lemma_apart(PREFIX_SETTLEMENT@, a, PREFIX_NONCE@, b);
    lemma_apart(PREFIX_SETTLEMENT@, a, PREFIX_ANCHOR@, b);
    lemma_apart(PREFIX_BALANCE@, a, PREFIX_ESCROW@, b);
    lemma_apart(PREFIX_BALANCE@, a, PREFIX_DISPUTE@, b);
    lemma_apart(PREFIX_BALANCE@, a, PREFIX_NONCE@, b);
    lemma_apart(PREFIX_BALANCE@, a, PREFIX_ANCHOR@, b);
    lemma_apart(PREFIX_ESCROW@, a, PREFIX_DISPUTE@, b);
    lemma_apart(PREFIX_ESCROW@, a, PREFIX_NONCE@, b);
    lemma_apart(PREFIX_ESCROW@, a, PREFIX_ANCHOR@, b);
    lemma_apart(PREFIX_DISPUTE@, a, PREFIX_NONCE@, b);
    lemma_apart(PREFIX_DISPUTE@, a, PREFIX_ANCHOR@, b);
    lemma_apart(PREFIX_NONCE@, a, PREFIX_ANCHOR@, b);
    if block_key(h) == block_key(g) {
        lemma_split(PREFIX_BLOCK@, be(h as int, 8), PREFIX_BLOCK@, be(g as int, 8));
    }
}

proof fn lemma_apart(p: Seq<u8>, a: Id, q: Seq<u8>, b: Id)
    requires
        p.len() == q.len(),
    ensures
        p + a@ == q + b@ ==> p == q && a == b,
{
    if p + a@ == q + b@ {
        lemma_split(p, a@, q, b@);
        lemma_array_of_view(a, b);
    }
}

/// What a write leaves under a key.
pub proof fn lemma_at_put(k: Seq<u8>)
    ensures
        forall|db: Db, id: Id, m: ParticipantView| #[trigger] at(put_participant(db, id, m), k) == if participant_key(id) == k { Some(Participant::bytes(m)) } else { at(db, k) },
        forall|db: Db, id: Id, m: SettlementRecord| #[trigger] at(put_settlement(db, id, m), k) == if settlement_key(id) == k { Some(SettlementRecord::bytes(m)) } else { at(db, k) },
        forall|db: Db, id: Id, m: RCWBalance| #[trigger] at(put_balance(db, id, m), k) == if balance_key(id) == k { Some(RCWBalance::bytes(m)) } else { at(db, k) },
        forall|db: Db, id: Id, m: Escrow| #[trigger] at(put_escrow(db, id, m), k) == if escrow_key(id) == k { Some(Escrow::bytes(m)) } else { at(db, k) },
        forall|db: Db, id: Id, m: DisputeView| #[trigger] at(put_dispute(db, id, m), k) == if dispute_key(id) == k { Some(Dispute::bytes(m)) } else { at(db, k) },
        forall|db: Db, id: Id, m: AnchorRecord| #[trigger] at(put_anchor(db, id, m), k) == if anchor_key(id) == k { Some(AnchorRecord::bytes(m)) } else { at(db, k) },
        forall|db: Db, id: Id, n: u64| #[trigger] at(put_nonce(db, id, n), k) == if nonce_key(id) == k { Some(be(n as int, 8)) } else { at(db, k) },
        forall|db: Db, b: BlockView| #[trigger] at(put_block(db, b), k) == if KEY_LATEST_HEIGHT@ == k { Some(be(b.header.height as int, 8)) } else if block_key(b.header.height) == k { Some(Block::bytes(b)) } else { at(db, k) },
{
    reveal(put_participant);
    reveal(put_settlement);
    reveal(put_balance);
    reveal(put_escrow);
    reveal(put_dispute);
    reveal(put_anchor);
    reveal(put_nonce);
    reveal(put_block);
}

/// What is found depends on what is under the key.
pub proof fn lemma_slot_at<T: Wire>(k: Seq<u8>)
    ensures
        forall|db: Db| #[trigger] slot::<T>(db, k) == match at(db, k) {
            None => Slot::Absent,
            Some(bytes) => match parsed::<T>(bytes) {
                None => Slot::Unreadable(T::refusal(bytes)),
                Some(m) => Slot::Present(m),
            },
        },
        forall|a: Db, b: Db| at(a, k) == at(b, k) ==> #[trigger] slot::<T>(a, k) == #[trigger] slot::<T>(b, k),
{
    reveal(slot);
}

/// A record that is written is found.
pub proof fn lemma_found<T: Wire>(m: T::Model)
    requires
        T::bytes(m).len() <= u64::MAX,
    ensures
        parsed::<T>(T::bytes(m)) == Some(m),
{
    law_read_back::<T>(m, Seq::empty());
    assert(T::bytes(m) + Seq::<u8>::empty() =~= T::bytes(m));
}

/// A number that is written is found.
pub proof fn lemma_number_found(n: u64)
    ensures
        be(n as int, 8).len() == 8,
        un_be(be(n as int, 8)) == n,
{
    lemma_pow256_values();
    lemma_be_round_trip(n as int, 8);
}

/// How long the records of fixed size are.
pub proof fn lemma_fixed_sizes()
    ensures
        forall|m: RCWBalance| #[trigger] RCWBalance::bytes(m).len() == 48,
        forall|m: SettlementRecord| #[trigger] SettlementRecord::bytes(m).len() == 108,
        forall|m: AnchorRecord| #[trigger] AnchorRecord::bytes(m).len() == 96,
        forall|m: Escrow| 126 <= #[trigger] Escrow::bytes(m).len() <= 190,
{
    assert forall|m: RCWBalance| #[trigger] RCWBalance::bytes(m).len() == 48 by {
        lemma_le_len(m.earned as int, 8);
        lemma_le_len(m.purchased as int, 8);
    }
    assert forall|m: SettlementRecord| #[trigger] SettlementRecord::bytes(m).len() == 108 by {
        lemma_le_len(m.gross_amount as int, 8);
        lemma_le_len(m.platform_fee as int, 8);
        lemma_le_len(m.net_amount as int, 8);
        lemma_le_len(crate::wire::i64_bits(m.settled_at), 8);
        lemma_le_len(crate::wire::i64_bits(m.recorded_at), 8);
    }
    assert forall|m: AnchorRecord| #[trigger] AnchorRecord::bytes(m).len() == 96 by {
        lemma_le_len(m.entry_count as int, 8);
        lemma_le_len(m.from_entry_id as int, 8);
        lemma_le_len(m.to_entry_id as int, 8);
        lemma_le_len(crate::wire::i64_bits(m.anchored_at), 8);
    }
    assert forall|m: Escrow| 126 <= #[trigger] Escrow::bytes(m).len() <= 190 by {
        lemma_le_len(m.amount as int, 8);
        lemma_le_len(m.state.index() as int, 4);
        lemma_le_len(crate::wire::i64_bits(m.created_at), 8);
        lemma_le_len(crate::wire::i64_bits(m.expires_at), 8);
    }
}

} // verus!
