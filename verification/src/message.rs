//! Messages between nodes, and how they are framed.

use crate::bytes::{append, be, from_be, le, lemma_be_round_trip, lemma_le_len, lemma_pow256_values, lemma_prefix_split, to_be, un_be};
use crate::types::{Block, BlockView, Id, NodeSignature, Transaction, TransactionView, ZERO_ID};
use crate::wire::{form_refusal, from_bytes, law_read_back, lemma_parsed, lemma_tag_read, lemma_tagged, parsed, to_bytes, unknown_form, Wire};
use vstd::prelude::*;
use vstd::slice::slice_subrange;

verus! {

/// Peer node info.
#[derive(Debug, Clone)]
pub struct Peer {
    pub id: Id,
    pub address: String,
    pub public_key: [u8; 32],
}

/// What a peer stands for.
pub struct PeerView {
    pub id: Id,
    pub address: Seq<char>,
    pub public_key: [u8; 32],
}

impl View for Peer {
    type V = PeerView;

    open spec fn view(&self) -> PeerView {
        PeerView { id: self.id, address: self.address@, public_key: self.public_key }
    }
}

/// Messages between nodes.
#[derive(Debug, Clone)]
pub enum ConsensusMessage {
    /// Leader proposes a new block.
    Propose(Block),
    /// Follower signs the proposed block (height, signature).
    Sign(u64, NodeSignature),
    /// Request pending transactions from peers.
    RequestTxs,
    /// Submit transaction to leader.
    SubmitTx(Transaction),
    /// Request leader rotation when the current leader is unresponsive.
    ViewChange { height: u64, round: u32, node_id: Id },
    /// Peer discovery handshake.
    Handshake { node_id: Id, public_key: [u8; 32], listen_addr: String },
}

/// What a message stands for.
pub enum MessageView {
    Propose(BlockView),
    Sign(u64, NodeSignature),
    RequestTxs,
    SubmitTx(TransactionView),
    ViewChange { height: u64, round: u32, node_id: Id },
    Handshake { node_id: Id, public_key: [u8; 32], listen_addr: Seq<char> },
}

impl View for ConsensusMessage {
    type V = MessageView;

    open spec fn view(&self) -> MessageView {
        match *self {
            ConsensusMessage::Propose(block) => MessageView::Propose(block@),
            ConsensusMessage::Sign(height, sig) => MessageView::Sign(height, sig),
            ConsensusMessage::RequestTxs => MessageView::RequestTxs,
            ConsensusMessage::SubmitTx(tx) => MessageView::SubmitTx(tx@),
            ConsensusMessage::ViewChange { height, round, node_id } => MessageView::ViewChange { height, round, node_id },
            ConsensusMessage::Handshake { node_id, public_key, listen_addr } => MessageView::Handshake { node_id, public_key, listen_addr: listen_addr@ },
        }
    }
}

// ── Layout ──

impl MessageView {
    /// The number that leads a message of this kind.
    pub open spec fn index(self) -> u32 {
        match self {
            MessageView::Propose(_) => 0,
            MessageView::Sign(_, _) => 1,
            MessageView::RequestTxs => 2,
            MessageView::SubmitTx(_) => 3,
            MessageView::ViewChange { .. } => 4,
            MessageView::Handshake { .. } => 5,
        }
    }

    /// The fields of a message, one after the other.
    pub open spec fn body(self) -> Seq<u8> {
        match self {
            MessageView::Propose(block) => <Block as Wire>::bytes(block),
            MessageView::Sign(height, sig) => <(u64, NodeSignature) as Wire>::bytes((height, sig)),
            MessageView::RequestTxs => Seq::empty(),
            MessageView::SubmitTx(tx) => <Transaction as Wire>::bytes(tx),
            MessageView::ViewChange { height, round, node_id } => <(u64, (u32, Id)) as Wire>::bytes((height, (round, node_id))),
            MessageView::Handshake { node_id, public_key, listen_addr } => <(Id, ([u8; 32], String)) as Wire>::bytes((node_id, (public_key, listen_addr))),
        }
    }

    /// Who a message comes from, as it says itself.
    pub open spec fn sender(self) -> Id {
        match self {
            MessageView::Propose(block) => block.header.proposer,
            MessageView::Sign(_, sig) => sig.node_id,
            MessageView::RequestTxs => ZERO_ID,
            MessageView::SubmitTx(tx) => tx.sender,
            MessageView::ViewChange { node_id, .. } => node_id,
            MessageView::Handshake { node_id, .. } => node_id,
        }
    }
}

proof fn lemma_body_unique(a: MessageView, b: MessageView, s: Seq<u8>)
    requires
        a.index() == b.index(),
        a.body().is_prefix_of(s),
        b.body().is_prefix_of(s),
        s.len() <= u64::MAX,
    ensures
        a == b,
{
    match (a, b) {
        (MessageView::Propose(x), MessageView::Propose(y)) => {
            <Block as Wire>::lemma_unique(x, y, s);
        },
        (MessageView::Sign(h, x), MessageView::Sign(k, y)) => {
            <(u64, NodeSignature) as Wire>::lemma_unique((h, x), (k, y), s);
        },
        (MessageView::SubmitTx(x), MessageView::SubmitTx(y)) => {
            <Transaction as Wire>::lemma_unique(x, y, s);
        },
        (MessageView::ViewChange { height, round, node_id }, MessageView::ViewChange { height: h2, round: r2, node_id: n2 }) => {
            <(u64, (u32, Id)) as Wire>::lemma_unique((height, (round, node_id)), (h2, (r2, n2)), s);
        },
        (MessageView::Handshake { node_id, public_key, listen_addr }, MessageView::Handshake { node_id: n2, public_key: k2, listen_addr: l2 }) => {
            <(Id, ([u8; 32], String)) as Wire>::lemma_unique((node_id, (public_key, listen_addr)), (n2, (k2, l2)), s);
        },
        _ => {},
    }
}

/// What is said of fields that do not lead an input.
pub open spec fn body_refusal(tag: u32, s: Seq<u8>) -> Seq<char> {
    match tag {
        0 => <Block as Wire>::refusal(s),
        1 => <(u64, NodeSignature) as Wire>::refusal(s),
        3 => <Transaction as Wire>::refusal(s),
        4 => <(u64, (u32, Id)) as Wire>::refusal(s),
        5 => <(Id, ([u8; 32], String)) as Wire>::refusal(s),
        _ => form_refusal(tag, 6),
    }
}

/// Read the fields of a message of the given kind.
fn decode_body(tag: u32, rest: &[u8]) -> (r: Result<(ConsensusMessage, usize), String>)
    ensures
        match r {
            Ok((p, n)) => p@.index() == tag && n <= rest@.len() && rest@.take(n as int) == p@.body(),
            Err(e) => (forall|m: MessageView| m.index() == tag ==> !(#[trigger] m.body()).is_prefix_of(rest@)) && e@ == body_refusal(tag, rest@),
        },
{
    match tag {
        0 => match <Block as Wire>::decode(rest) {
            Ok((block, n)) => Ok((ConsensusMessage::Propose(block), n)),
            Err(e) => Err(e),
        },
        1 => match <(u64, NodeSignature) as Wire>::decode(rest) {
            Ok(((height, sig), n)) => Ok((ConsensusMessage::Sign(height, sig), n)),
            Err(e) => Err(e),
        },
        2 => {
            assert(rest@.take(0) =~= Seq::<u8>::empty());
            Ok((ConsensusMessage::RequestTxs, 0))
        },
        3 => match <Transaction as Wire>::decode(rest) {
            Ok((tx, n)) => Ok((ConsensusMessage::SubmitTx(tx), n)),
            Err(e) => Err(e),
        },
        4 => match <(u64, (u32, Id)) as Wire>::decode(rest) {
            Ok(((height, (round, node_id)), n)) => Ok((ConsensusMessage::ViewChange { height, round, node_id }, n)),
            Err(e) => Err(e),
        },
        5 => match <(Id, ([u8; 32], String)) as Wire>::decode(rest) {
            Ok(((node_id, (public_key, listen_addr)), n)) => Ok((ConsensusMessage::Handshake { node_id, public_key, listen_addr }, n)),
            Err(e) => Err(e),
        },
        _ => Err(unknown_form(tag, 6)),
    }
}

impl ConsensusMessage {
    fn encode_body(&self, out: &mut Vec<u8>)
        ensures
            final(out)@ == old(out)@ + self@.body(),
    {
        match self {
            ConsensusMessage::Propose(block) => block.encode(out),
            ConsensusMessage::Sign(height, sig) => (*height, *sig).encode(out),
            ConsensusMessage::RequestTxs => {
                assert(out@ =~= out@ + Seq::<u8>::empty());
            },
            ConsensusMessage::SubmitTx(tx) => tx.encode(out),
            ConsensusMessage::ViewChange { height, round, node_id } => (*height, (*round, *node_id)).encode(out),
            ConsensusMessage::Handshake { node_id, public_key, listen_addr } => (*node_id, (*public_key, listen_addr.clone())).encode(out),
        }
    }

    fn tag(&self) -> (r: u32)
        ensures
            r == self@.index(),
    {
        match self {
            ConsensusMessage::Propose(_) => 0,
            ConsensusMessage::Sign(_, _) => 1,
            ConsensusMessage::RequestTxs => 2,
            ConsensusMessage::SubmitTx(_) => 3,
            ConsensusMessage::ViewChange { .. } => 4,
            ConsensusMessage::Handshake { .. } => 5,
        }
    }

    /// Who a message comes from, as it says itself.
    pub fn sender(&self) -> (r: Id)
        ensures
            r == self@.sender(),
    {
        match self {
            ConsensusMessage::Sign(_, sig) => sig.node_id,
            ConsensusMessage::Propose(block) => block.header.proposer,
            ConsensusMessage::SubmitTx(tx) => tx.sender,
            ConsensusMessage::RequestTxs => ZERO_ID,
            ConsensusMessage::ViewChange { node_id, .. } => *node_id,
            ConsensusMessage::Handshake { node_id, .. } => *node_id,
        }
    }
}

impl Wire for ConsensusMessage {
    type Model = MessageView;

    open spec fn model(&self) -> MessageView {
        self@
    }

    open spec fn bytes(m: MessageView) -> Seq<u8> {
        le(m.index() as int, 4) + m.body()
    }

    open spec fn refusal(s: Seq<u8>) -> Seq<char> {
        match parsed::<u32>(s) {
            None => u32::refusal(s),
            Some(tag) => body_refusal(tag, s.skip(4)),
        }
    }

    proof fn lemma_nonempty(m: MessageView) {
        lemma_le_len(m.index() as int, 4);
    }

    proof fn lemma_unique(a: MessageView, b: MessageView, s: Seq<u8>) {
        lemma_le_len(b.index() as int, 4);
        lemma_prefix_split(le(b.index() as int, 4), b.body(), s);
        lemma_tagged(a.index(), a.body(), b.index(), s);
        lemma_tagged(b.index(), b.body(), b.index(), s);
        lemma_body_unique(a, b, s.skip(4));
    }

    fn encode(&self, out: &mut Vec<u8>) {
        let ghost before = out@;
        self.tag().encode(out);
        self.encode_body(out);
        assert(out@ =~= before + Self::bytes(self@));
    }

    fn decode(buf: &[u8]) -> (r: Result<(ConsensusMessage, usize), String>) {
        match u32::decode(buf) {
            Err(e) => {
                proof {
                    assert forall|m: MessageView| !(#[trigger] Self::bytes(m)).is_prefix_of(buf@) by {
                        lemma_prefix_split(le(m.index() as int, 4), m.body(), buf@);
                        assert(!u32::bytes(m.index()).is_prefix_of(buf@));
                    }
                }
                Err(e)
            },
            Ok((tag, k)) => {
                proof {
                    assert(buf@.len() == buf.len());
                    lemma_tag_read(tag, k, buf@);
                    lemma_parsed::<u32>(tag, buf@);
                }
                let rest = slice_subrange(buf, k, buf.len());
                assert(rest@ =~= buf@.skip(4));
                match decode_body(tag, rest) {
                    Err(e) => {
                        proof {
                            assert forall|m: MessageView| !(#[trigger] Self::bytes(m)).is_prefix_of(buf@) by {
                                if Self::bytes(m).is_prefix_of(buf@) {
                                    lemma_tagged(m.index(), m.body(), tag, buf@);
                                }
                            }
                        }
                        Err(e)
                    },
                    Ok((p, n)) => {
                        assert(buf@.take(4 + n) =~= buf@.take(4) + rest@.take(n as int));
                        assert(buf@.len() == buf.len());
                        Ok((p, k + n))
                    },
                }
            },
        }
    }
}

// ── Frames ──

/// The longest message that is read: 16 MiB.
pub const MAX_MESSAGE: usize = 16777216;

/// Maximum concurrent P2P connections.
pub const MAX_CONNECTIONS: usize = 1000;

/// Is there room for one more connection?
pub fn admits(active: usize) -> (r: bool)
    ensures
        r == (active < MAX_CONNECTIONS),
{
    active < MAX_CONNECTIONS
}

/// A message as it is sent: the four low bytes of its length, most significant
/// first, then the message.
pub open spec fn frame_bytes(m: MessageView) -> Seq<u8> {
    be(ConsensusMessage::bytes(m).len() as int, 4) + ConsensusMessage::bytes(m)
}

fn frame_data(data: &[u8]) -> (r: Vec<u8>)
    ensures
        r@ == be(data@.len() as int, 4) + data@,
{
    let len = to_be::<4>(data.len() as u64);
    let mut out: Vec<u8> = Vec::new();
    append(&mut out, len.as_slice());
    append(&mut out, data);
    assert(out@ =~= be(data@.len() as int, 4) + data@);
    out
}

/// A message as it is sent.
pub fn frame(msg: &ConsensusMessage) -> (r: Vec<u8>)
    ensures
        r@ == frame_bytes(msg@),
{
    let data = to_bytes::<ConsensusMessage>(msg);
    frame_data(data.as_slice())
}

/// A proposal of a block as it is sent.
pub fn frame_proposal(block: &Block) -> (r: Vec<u8>)
    ensures
        r@ == frame_bytes(MessageView::Propose(block@)),
{
    let mut data: Vec<u8> = Vec::new();
    0u32.encode(&mut data);
    block.encode(&mut data);
    assert(data@ =~= ConsensusMessage::bytes(MessageView::Propose(block@)));
    frame_data(data.as_slice())
}

/// How long the message behind these four bytes is; nothing where it is too long
/// to be read.
pub fn frame_length(len_buf: &[u8; 4]) -> (r: Option<usize>)
    ensures
        match r {
            Some(n) => n == un_be(len_buf@) && n <= MAX_MESSAGE,
            None => un_be(len_buf@) > MAX_MESSAGE,
        },
{
    let n: u64 = from_be(len_buf.as_slice());
    if n > MAX_MESSAGE as u64 {
        None
    } else {
        Some(n as usize)
    }
}

/// The message in `buf` with the one it comes from, as it says itself; nothing
/// where no message leads it.
pub fn read_message(buf: &[u8]) -> (r: Option<(Id, ConsensusMessage)>)
    ensures
        match parsed::<ConsensusMessage>(buf@) {
            Some(m) => r matches Some((from, msg)) && msg@ == m && from == m.sender(),
            None => r is None,
        },
{
    match from_bytes::<ConsensusMessage>(buf) {
        Ok(msg) => Some((msg.sender(), msg)),
        Err(_) => None,
    }
}

/// What is framed is read: of a message that is not too long, the first four bytes
/// of the frame give the length of the rest, and the rest is the message.
pub proof fn law_frame_read_back(m: MessageView)
    requires
        ConsensusMessage::bytes(m).len() <= MAX_MESSAGE,
    ensures
        frame_bytes(m).len() == 4 + ConsensusMessage::bytes(m).len(),
        un_be(frame_bytes(m).take(4)) == ConsensusMessage::bytes(m).len(),
        parsed::<ConsensusMessage>(frame_bytes(m).skip(4)) == Some(m),
{
    let data = ConsensusMessage::bytes(m);
    lemma_pow256_values();
    lemma_be_round_trip(data.len() as int, 4);
    assert(frame_bytes(m).take(4) =~= be(data.len() as int, 4));
    assert(frame_bytes(m).skip(4) =~= data + Seq::<u8>::empty());
    law_read_back::<ConsensusMessage>(m, Seq::empty());
}

} // verus!
