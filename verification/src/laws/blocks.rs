//! Transactions one after the other, and blocks of them.

use crate::crypto::ed25519_valid;
use crate::laws::frames::law_execution_keeps_blocks;
use crate::laws::reads::law_block_reads;
use crate::node::select_step;
use crate::state::machine::{apply_step, execute_step, run_step, Rules};
use crate::store::{block_at, latest_height, state_root, Db, Slot, KEY_LATEST_HEIGHT};
use crate::types::{Block, BlockView, EventView, Id, TransactionView, TxPayload};
use crate::wire::Wire;
use vstd::prelude::*;

verus! {

// ── What others made ──

/// Is the signature one of the payload, by the sender's id as its key?
pub open spec fn has_own_signature(tx: TransactionView) -> bool {
    ed25519_valid(TxPayload::bytes(tx.payload), tx.signature.0@, tx.sender@)
}

/// No transactions change nothing. One without its sender's signature is left out; one
/// with it is executed, and its events are kept unless it is refused.
pub proof fn law_run_one(rules: Rules, db: Db, tx: TransactionView, timestamp: i64)
    ensures
        run_step(rules, db, Seq::empty(), timestamp) == Some((db, Seq::<EventView>::empty())),
        !has_own_signature(tx) ==> run_step(rules, db, seq![tx], timestamp) == Some((db, Seq::<EventView>::empty())),
        has_own_signature(tx) ==> match execute_step(rules, db, tx, timestamp) {
            None => run_step(rules, db, seq![tx], timestamp) is None,
            Some((after, Ok(events))) => run_step(rules, db, seq![tx], timestamp) == Some((after, events)),
            Some((after, Err(_))) => run_step(rules, db, seq![tx], timestamp) == Some((after, Seq::<EventView>::empty())),
        },
{
    assert(seq![tx].drop_last() =~= Seq::<TransactionView>::empty());
    reveal_with_fuel(run_step, 2);
    if let Some((after, Ok(events))) = execute_step(rules, db, tx, timestamp) {
        assert(Seq::<EventView>::empty() + events =~= events);
    }
}

/// Transactions take effect in their order: several and then more are the same as
/// all of them.
pub proof fn law_run_in_order(rules: Rules, db: Db, first: Seq<TransactionView>, then: Seq<TransactionView>, timestamp: i64)
    ensures
        run_step(rules, db, first + then, timestamp) == match run_step(rules, db, first, timestamp) {
            None => None,
            Some((mid, before)) => match run_step(rules, mid, then, timestamp) {
                None => None,
                Some((after, more)) => Some((after, before + more)),
            },
        },
    decreases then.len(),
{
    if then.len() == 0 {
        assert(first + then =~= first);
        if let Some((mid, before)) = run_step(rules, db, first, timestamp) {
            assert(before + Seq::<EventView>::empty() =~= before);
        }
    } else {
        let rest = then.drop_last();
        law_run_in_order(rules, db, first, rest, timestamp);
        assert((first + then).drop_last() =~= first + rest);
        assert((first + then).last() == then.last());
        if let Some((mid, before)) = run_step(rules, db, first, timestamp) {
            if let Some((last, more)) = run_step(rules, mid, rest, timestamp) {
                if let Some((after, Ok(events))) = execute_step(rules, last, then.last(), timestamp) {
                    assert(before + more + events =~= before + (more + events));
                }
            }
        }
    }
}

proof fn lemma_run_keeps_blocks(rules: Rules, db: Db, txs: Seq<TransactionView>, timestamp: i64, height: u64)
    ensures
        run_step(rules, db, txs, timestamp) matches Some((after, _)) ==> block_at(after, height) == block_at(db, height) && latest_height(after) == latest_height(db),
    decreases txs.len(),
{
    if txs.len() > 0 {
        lemma_run_keeps_blocks(rules, db, txs.drop_last(), timestamp, height);
        if let Some((before, _)) = run_step(rules, db, txs.drop_last(), timestamp) {
            law_execution_keeps_blocks(rules, before, txs.last(), timestamp, height);
        }
    }
}

/// A block that is taken in has had its transactions executed, in order and at its
/// time, and is the latest; blocks at other heights stay. It is refused just where it
/// tells a state root, not all zeros, that the state then does not have; and then no
/// block is stored.
pub proof fn law_take_in(rules: Rules, db: Db, block: BlockView, height: u64)
    requires
        Block::bytes(block).len() <= u64::MAX,
    ensures
        match run_step(rules, db, block.transactions, block.header.timestamp) {
            None => apply_step(rules, db, block) is None,
            Some((mid, events)) => apply_step(rules, db, block) matches Some((after, how)) && {
                let told = exists|i: int| 0 <= i < 32 && #[trigger] block.header.state_root[i] != 0;
                &&& how is Err <==> told && state_root(mid) != block.header.state_root@
                &&& how is Err ==> after == mid && block_at(after, height) == block_at(db, height) && latest_height(after) == latest_height(db)
                &&& how matches Ok(seen) ==> {
                    &&& seen == events
                    &&& block_at(after, block.header.height) == Slot::Present(block)
                    &&& latest_height(after) == block.header.height
                    &&& height != block.header.height ==> block_at(after, height) == block_at(db, height)
                }
            },
        },
{
    lemma_run_keeps_blocks(rules, db, block.transactions, block.header.timestamp, height);
    if let Some((mid, _)) = run_step(rules, db, block.transactions, block.header.timestamp) {
        law_block_reads(mid, block, height);
        let root = block.header.state_root;
        if !exists|i: int| 0 <= i < 32 && #[trigger] root[i] != 0 {
            assert(root@ =~= crate::types::EMPTY_HASH@);
            crate::bytes::lemma_array_of_view(root, crate::types::EMPTY_HASH);
        } else {
            let i = choose|i: int| 0 <= i < 32 && #[trigger] root[i] != 0;
            assert(crate::types::EMPTY_HASH@[i] == 0);
            assert(root@[i] != 0);
        }
    }
}

/// Before the first block the latest height is zero.
pub proof fn law_height_at_first(db: Db)
    requires
        !db.dom().contains(KEY_LATEST_HEIGHT@),
    ensures
        latest_height(db) == 0,
{
}

/// A chain starts with an empty block at height zero: nothing before it, no
/// transactions, no signatures, and no hashes but zeros.
pub proof fn law_genesis(timestamp: i64, proposer: Id)
    ensures
        ({
            let block = BlockView::genesis(timestamp, proposer);
            &&& block.header.height == 0 && block.header.timestamp == timestamp && block.header.proposer == proposer
            &&& block.header.tx_count == 0 && block.transactions.len() == 0 && block.signatures.len() == 0
            &&& forall|i: int| 0 <= i < 32 ==> #[trigger] block.header.prev_hash[i] == 0
            &&& forall|i: int| 0 <= i < 32 ==> #[trigger] block.header.tx_hash[i] == 0
            &&& forall|i: int| 0 <= i < 32 ==> #[trigger] block.header.state_root[i] == 0
        }),
{
}

// ── What a node makes ──

/// Of one transaction a node keeps it and its events, unless it is refused.
pub proof fn law_select_one(rules: Rules, db: Db, tx: TransactionView, timestamp: i64)
    ensures
        select_step(rules, db, Seq::empty(), timestamp) == Some((db, Seq::<TransactionView>::empty(), Seq::<EventView>::empty())),
        match execute_step(rules, db, tx, timestamp) {
            None => select_step(rules, db, seq![tx], timestamp) is None,
            Some((after, Ok(events))) => select_step(rules, db, seq![tx], timestamp) == Some((after, seq![tx], events)),
            Some((after, Err(_))) => select_step(rules, db, seq![tx], timestamp) == Some((after, Seq::<TransactionView>::empty(), Seq::<EventView>::empty())),
        },
{
    assert(seq![tx].drop_last() =~= Seq::<TransactionView>::empty());
    reveal_with_fuel(select_step, 2);
    if let Some((after, Ok(events))) = execute_step(rules, db, tx, timestamp) {
        assert(Seq::<EventView>::empty() + events =~= events);
        assert(Seq::<TransactionView>::empty().push(tx) =~= seq![tx]);
    }
}

/// What a node keeps of several transactions and then of more is what it keeps of all
/// of them, in their order.
pub proof fn law_select_in_order(rules: Rules, db: Db, first: Seq<TransactionView>, then: Seq<TransactionView>, timestamp: i64)
    ensures
        select_step(rules, db, first + then, timestamp) == match select_step(rules, db, first, timestamp) {
            None => None,
            Some((mid, kept, before)) => match select_step(rules, mid, then, timestamp) {
                None => None,
                Some((after, more_kept, more)) => Some((after, kept + more_kept, before + more)),
            },
        },
    decreases then.len(),
{
    if then.len() == 0 {
        assert(first + then =~= first);
        if let Some((mid, kept, before)) = select_step(rules, db, first, timestamp) {
            assert(before + Seq::<EventView>::empty() =~= before);
            assert(kept + Seq::<TransactionView>::empty() =~= kept);
        }
    } else {
        let rest = then.drop_last();
        law_select_in_order(rules, db, first, rest, timestamp);
        assert((first + then).drop_last() =~= first + rest);
        assert((first + then).last() == then.last());
        if let Some((mid, kept, before)) = select_step(rules, db, first, timestamp) {
            if let Some((last, more_kept, more)) = select_step(rules, mid, rest, timestamp) {
                if let Some((after, Ok(events))) = execute_step(rules, last, then.last(), timestamp) {
                    assert(before + more + events =~= before + (more + events));
                    assert((kept + more_kept).push(then.last()) =~= kept + more_kept.push(then.last()));
                }
            }
        }
    }
}

} // verus!
