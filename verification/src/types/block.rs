//! Blocks.

use crate::types::transaction::{Transaction, TransactionView};
use crate::types::{Id, Signature, EMPTY_HASH};
use crate::wire::{models, Wire};
use vstd::prelude::*;

verus! {

/// A block in the chain.
#[derive(Debug, Clone)]
pub struct Block {
    pub header: BlockHeader,
    pub transactions: Vec<Transaction>,
    pub signatures: Vec<NodeSignature>,
}

/// Block header: its hash is the block's identity.
#[derive(Debug, Clone, Copy)]
pub struct BlockHeader {
    /// Block height (0 = genesis).
    pub height: u64,
    /// blake3 hash of the previous block's header.
    pub prev_hash: crate::types::Hash,
    /// Unix timestamp (milliseconds).
    pub timestamp: i64,
    /// Number of transactions in this block.
    pub tx_count: u32,
    /// blake3 hash of the serialized transactions.
    pub tx_hash: crate::types::Hash,
    /// blake3 hash of the state after this block.
    pub state_root: crate::types::Hash,
    /// Node ID of the block proposer.
    pub proposer: Id,
}

/// A validator's signature on a block.
#[derive(Debug, Clone, Copy)]
pub struct NodeSignature {
    pub node_id: Id,
    pub signature: Signature,
}

/// What a block stands for.
pub struct BlockView {
    pub header: BlockHeader,
    pub transactions: Seq<TransactionView>,
    pub signatures: Seq<NodeSignature>,
}

impl View for Block {
    type V = BlockView;

    open spec fn view(&self) -> BlockView {
        BlockView {
            header: self.header,
            transactions: models::<Transaction>(self.transactions@),
            signatures: self.signatures@,
        }
    }
}

impl BlockView {
    /// The block that a chain starts with.
    pub open spec fn genesis(timestamp: i64, proposer: Id) -> BlockView {
        BlockView {
            header: BlockHeader {
                height: 0,
                prev_hash: EMPTY_HASH,
                timestamp,
                tx_count: 0,
                tx_hash: EMPTY_HASH,
                state_root: EMPTY_HASH,
                proposer,
            },
            transactions: Seq::empty(),
            signatures: Seq::empty(),
        }
    }
}

impl Block {
    /// Create the genesis block.
    pub fn genesis(timestamp: i64, proposer: Id) -> (r: Block)
        ensures
            r@ == BlockView::genesis(timestamp, proposer),
    {
        let block = Block {
            header: BlockHeader {
                height: 0,
                prev_hash: EMPTY_HASH,
                timestamp,
                tx_count: 0,
                tx_hash: EMPTY_HASH,
                state_root: EMPTY_HASH,
                proposer,
            },
            transactions: Vec::new(),
            signatures: Vec::new(),
        };
        assert(block@.transactions =~= Seq::<TransactionView>::empty());
        block
    }

    /// Check if this is the genesis block.
    pub fn is_genesis(&self) -> (r: bool)
        ensures
            r == (self.header.height == 0),
    {
        self.header.height == 0
    }

    /// Number of validator signatures.
    pub fn signature_count(&self) -> (r: usize)
        ensures
            r == self.signatures@.len(),
    {
        self.signatures.len()
    }
}

// ── Layout ──

/// The fields as they are written.
pub type HeaderFields = (u64, (crate::types::Hash, (i64, (u32, (crate::types::Hash, (crate::types::Hash, Id))))));

impl BlockHeader {
    /// The fields in the order in which they are written.
    pub open spec fn fields(self) -> (u64, (crate::types::Hash, (i64, (u32, (crate::types::Hash, (crate::types::Hash, Id)))))) {
        (self.height, (self.prev_hash, (self.timestamp, (self.tx_count, (self.tx_hash, (self.state_root, self.proposer))))))
    }
}

impl Wire for BlockHeader {
    type Model = BlockHeader;

    open spec fn model(&self) -> BlockHeader {
        *self
    }

    open spec fn bytes(m: BlockHeader) -> Seq<u8> {
        <HeaderFields as Wire>::bytes(m.fields())
    }

    open spec fn refusal(s: Seq<u8>) -> Seq<char> {
        <HeaderFields as Wire>::refusal(s)
    }

    proof fn lemma_nonempty(m: BlockHeader) {
        <HeaderFields as Wire>::lemma_nonempty(m.fields());
    }

    proof fn lemma_unique(a: BlockHeader, b: BlockHeader, s: Seq<u8>) {
        <HeaderFields as Wire>::lemma_unique(a.fields(), b.fields(), s);
    }

    fn encode(&self, out: &mut Vec<u8>) {
        (self.height, (self.prev_hash, (self.timestamp, (self.tx_count, (self.tx_hash, (self.state_root, self.proposer)))))).encode(out);
    }

    fn decode(buf: &[u8]) -> (r: Result<(BlockHeader, usize), String>) {
        match <HeaderFields as Wire>::decode(buf) {
            Ok(((height, (prev_hash, (timestamp, (tx_count, (tx_hash, (state_root, proposer)))))), n)) => {
                Ok((BlockHeader { height, prev_hash, timestamp, tx_count, tx_hash, state_root, proposer }, n))
            },
            Err(e) => Err(e),
        }
    }
}

impl NodeSignature {
    /// The fields in the order in which they are written.
    pub open spec fn fields(self) -> (Id, Signature) {
        (self.node_id, self.signature)
    }
}

impl Wire for NodeSignature {
    type Model = NodeSignature;

    open spec fn model(&self) -> NodeSignature {
        *self
    }

    open spec fn bytes(m: NodeSignature) -> Seq<u8> {
        <(Id, Signature) as Wire>::bytes(m.fields())
    }

    open spec fn refusal(s: Seq<u8>) -> Seq<char> {
        <(Id, Signature) as Wire>::refusal(s)
    }

    proof fn lemma_nonempty(m: NodeSignature) {
        <(Id, Signature) as Wire>::lemma_nonempty(m.fields());
    }

    proof fn lemma_unique(a: NodeSignature, b: NodeSignature, s: Seq<u8>) {
        <(Id, Signature) as Wire>::lemma_unique(a.fields(), b.fields(), s);
    }

    fn encode(&self, out: &mut Vec<u8>) {
        (self.node_id, self.signature).encode(out);
    }

    fn decode(buf: &[u8]) -> (r: Result<(NodeSignature, usize), String>) {
        match <(Id, Signature) as Wire>::decode(buf) {
            Ok(((node_id, signature), n)) => Ok((NodeSignature { node_id, signature }, n)),
            Err(e) => Err(e),
        }
    }
}

/// The parts as they are written.
pub type BlockFields = (BlockHeader, (Vec<Transaction>, Vec<NodeSignature>));

impl BlockView {
    /// The parts in the order in which they are written.
    pub open spec fn fields(self) -> (BlockHeader, (Seq<TransactionView>, Seq<NodeSignature>)) {
        (self.header, (self.transactions, self.signatures))
    }
}

impl Wire for Block {
    type Model = BlockView;

    open spec fn model(&self) -> BlockView {
        self@
    }

    open spec fn bytes(m: BlockView) -> Seq<u8> {
        <BlockFields as Wire>::bytes(m.fields())
    }

    open spec fn refusal(s: Seq<u8>) -> Seq<char> {
        <BlockFields as Wire>::refusal(s)
    }

    proof fn lemma_nonempty(m: BlockView) {
        <BlockFields as Wire>::lemma_nonempty(m.fields());
    }

    proof fn lemma_unique(a: BlockView, b: BlockView, s: Seq<u8>) {
        <BlockFields as Wire>::lemma_unique(a.fields(), b.fields(), s);
    }

    fn encode(&self, out: &mut Vec<u8>) {
        let ghost before = out@;
        self.header.encode(out);
        self.transactions.encode(out);
        self.signatures.encode(out);
        assert(self.signatures.model() =~= self.signatures@);
        assert(out@ =~= before + Self::bytes(self@));
    }

    fn decode(buf: &[u8]) -> (r: Result<(Block, usize), String>) {
        match <BlockFields as Wire>::decode(buf) {
            Ok(((header, (transactions, signatures)), n)) => {
                assert(signatures.model() =~= signatures@);
                Ok((Block { header, transactions, signatures }, n))
            },
            Err(e) => Err(e),
        }
    }
}

} // verus!
