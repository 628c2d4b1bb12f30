//! Signed transactions and what they ask for.

use crate::bytes::{le, lemma_le_len, lemma_prefix_split};
use crate::types::{Id, Signature};
use crate::wire::{form_refusal, lemma_parsed, lemma_tag_read, lemma_tagged, parsed, unknown_form, Wire};
use vstd::prelude::*;
use vstd::slice::slice_subrange;

verus! {

/// A signed transaction submitted to the chain.
#[derive(Debug, Clone)]
pub struct Transaction {
    /// What the transaction asks for.
    pub payload: TxPayload,
    /// The sender's public key.
    pub sender: Id,
    /// Ed25519 signature of the serialized payload.
    pub signature: Signature,
    /// Unix timestamp (milliseconds).
    pub timestamp: i64,
    /// Grows with each transaction of one sender.
    pub nonce: u64,
}

/// Everything that a transaction can ask for.
#[derive(Debug, Clone)]
pub enum TxPayload {
    RegisterParticipant { id: Id, p_type: ParticipantType, metadata: String },
    UpdateParticipant { id: Id, metadata: String },
    DeactivateParticipant { id: Id },
    RecordSettlement { participant_id: Id, record: SettlementData },
    RecordRating { participant_id: Id, rating: u16, success: bool },
    CreateEscrow { escrow_id: Id, buyer: Id, seller: Id, amount: u64, expires_at: i64 },
    ReleaseEscrow { escrow_id: Id, evidence_hash: [u8; 32] },
    RefundEscrow { escrow_id: Id },
    RaiseDispute { dispute_id: Id, escrow_id: Id, reason: DisputeReason, evidence_hash: [u8; 32] },
    SubmitEvidence { dispute_id: Id, evidence_hash: [u8; 32] },
    VoteDispute { dispute_id: Id, decision: DisputeDecision },
    TransferRCW { to: Id, amount: u64, memo: String },
    SpendRCW { amount: u64, purpose: String },
    AnchorMerkleRoot { batch_id: Id, merkle_root: [u8; 32], entry_count: u64, from_entry_id: u64, to_entry_id: u64 },
}

/// Participant types across all domains.
#[derive(Debug, Clone, Copy, PartialEq, Eq, Structural)]
pub enum ParticipantType {
    Seller,
    Buyer,
    Author,
    ContentWork,
    Franchisee,
    Investor,
    Host,
    Influencer,
    Brand,
    Agency,
    ServiceProvider,
    BuyerAgent,
    SellerAgent,
    MatchingAgent,
    Arbiter,
}

/// A settlement as its participant reports it.
#[derive(Debug, Clone, Copy)]
pub struct SettlementData {
    pub record_id: Id,
    pub gross_amount: u64,
    pub platform_fee: u64,
    pub net_amount: u64,
    pub currency: [u8; 4],
    pub settled_at: i64,
}

/// Why a dispute is raised.
#[derive(Debug, Clone, Copy, PartialEq, Eq, Structural)]
pub enum DisputeReason {
    NotDelivered,
    Damaged,
    NotAsDescribed,
    Unauthorized,
    Other,
}

/// How an arbiter decides.
#[derive(Debug, Clone, Copy, PartialEq, Eq, Structural)]
pub enum DisputeDecision {
    FavorBuyer,
    FavorSeller,
    Split,
}

// ── Numeric codes kept in records ──

impl ParticipantType {
    /// The number that a participant's record holds for its type.
    pub open spec fn spec_code(self) -> u8 {
        match self {
            ParticipantType::Seller => 1,
            ParticipantType::Buyer => 2,
            ParticipantType::Author => 10,
            ParticipantType::ContentWork => 11,
            ParticipantType::Franchisee => 20,
            ParticipantType::Investor => 21,
            ParticipantType::Host => 22,
            ParticipantType::Influencer => 30,
            ParticipantType::Brand => 31,
            ParticipantType::Agency => 32,
            ParticipantType::ServiceProvider => 40,
            ParticipantType::BuyerAgent => 50,
            ParticipantType::SellerAgent => 51,
            ParticipantType::MatchingAgent => 52,
            ParticipantType::Arbiter => 54,
        }
    }

    /// The number that a participant's record holds for its type.
    #[verifier::when_used_as_spec(spec_code)]
    pub fn code(self) -> (r: u8)
        ensures
            r == self.spec_code(),
    {
        match self {
            ParticipantType::Seller => 1,
            ParticipantType::Buyer => 2,
            ParticipantType::Author => 10,
            ParticipantType::ContentWork => 11,
            ParticipantType::Franchisee => 20,
            ParticipantType::Investor => 21,
            ParticipantType::Host => 22,
            ParticipantType::Influencer => 30,
            ParticipantType::Brand => 31,
            ParticipantType::Agency => 32,
            ParticipantType::ServiceProvider => 40,
            ParticipantType::BuyerAgent => 50,
            ParticipantType::SellerAgent => 51,
            ParticipantType::MatchingAgent => 52,
            ParticipantType::Arbiter => 54,
        }
    }

    /// The place of the type in the record format.
    pub open spec fn index(self) -> u32 {
        match self {
            ParticipantType::Seller => 0,
            ParticipantType::Buyer => 1,
            ParticipantType::Author => 2,
            ParticipantType::ContentWork => 3,
            ParticipantType::Franchisee => 4,
            ParticipantType::Investor => 5,
            ParticipantType::Host => 6,
            ParticipantType::Influencer => 7,
            ParticipantType::Brand => 8,
            ParticipantType::Agency => 9,
            ParticipantType::ServiceProvider => 10,
            ParticipantType::BuyerAgent => 11,
            ParticipantType::SellerAgent => 12,
            ParticipantType::MatchingAgent => 13,
            ParticipantType::Arbiter => 14,
        }
    }
}

impl DisputeReason {
    /// The number that a dispute's record holds for its reason.
    pub open spec fn spec_code(self) -> u8 {
        match self {
            DisputeReason::NotDelivered => 0,
            DisputeReason::Damaged => 1,
            DisputeReason::NotAsDescribed => 2,
            DisputeReason::Unauthorized => 3,
            DisputeReason::Other => 99,
        }
    }

    /// The number that a dispute's record holds for its reason.
    #[verifier::when_used_as_spec(spec_code)]
    pub fn code(self) -> (r: u8)
        ensures
            r == self.spec_code(),
    {
        match self {
            DisputeReason::NotDelivered => 0,
            DisputeReason::Damaged => 1,
            DisputeReason::NotAsDescribed => 2,
            DisputeReason::Unauthorized => 3,
            DisputeReason::Other => 99,
        }
    }

    /// The place of the reason in the record format.
    pub open spec fn index(self) -> u32 {
        match self {
            DisputeReason::NotDelivered => 0,
            DisputeReason::Damaged => 1,
            DisputeReason::NotAsDescribed => 2,
            DisputeReason::Unauthorized => 3,
            DisputeReason::Other => 4,
        }
    }
}

impl DisputeDecision {
    /// The number that a vote's record holds for its decision; also its place in
    /// the record format.
    pub open spec fn spec_code(self) -> u8 {
        match self {
            DisputeDecision::FavorBuyer => 0,
            DisputeDecision::FavorSeller => 1,
            DisputeDecision::Split => 2,
        }
    }

    /// The number that a vote's record holds for its decision.
    #[verifier::when_used_as_spec(spec_code)]
    pub fn code(self) -> (r: u8)
        ensures
            r == self.spec_code(),
    {
        match self {
            DisputeDecision::FavorBuyer => 0,
            DisputeDecision::FavorSeller => 1,
            DisputeDecision::Split => 2,
        }
    }
}

// ── What a transaction stands for ──

/// What a payload stands for.
pub enum PayloadView {
    RegisterParticipant { id: Id, p_type: ParticipantType, metadata: Seq<char> },
    UpdateParticipant { id: Id, metadata: Seq<char> },
    DeactivateParticipant { id: Id },
    RecordSettlement { participant_id: Id, record: SettlementData },
    RecordRating { participant_id: Id, rating: u16, success: bool },
    CreateEscrow { escrow_id: Id, buyer: Id, seller: Id, amount: u64, expires_at: i64 },
    ReleaseEscrow { escrow_id: Id, evidence_hash: [u8; 32] },
    RefundEscrow { escrow_id: Id },
    RaiseDispute { dispute_id: Id, escrow_id: Id, reason: DisputeReason, evidence_hash: [u8; 32] },
    SubmitEvidence { dispute_id: Id, evidence_hash: [u8; 32] },
    VoteDispute { dispute_id: Id, decision: DisputeDecision },
    TransferRCW { to: Id, amount: u64, memo: Seq<char> },
    SpendRCW { amount: u64, purpose: Seq<char> },
    AnchorMerkleRoot { batch_id: Id, merkle_root: [u8; 32], entry_count: u64, from_entry_id: u64, to_entry_id: u64 },
}

/// What a transaction stands for.
pub struct TransactionView {
    pub payload: PayloadView,
    pub sender: Id,
    pub signature: Signature,
    pub timestamp: i64,
    pub nonce: u64,
}

impl View for TxPayload {
    type V = PayloadView;

    open spec fn view(&self) -> PayloadView {
        match *self {
            TxPayload::RegisterParticipant { id, p_type, metadata } => PayloadView::RegisterParticipant { id, p_type, metadata: metadata@ },
            TxPayload::UpdateParticipant { id, metadata } => PayloadView::UpdateParticipant { id, metadata: metadata@ },
            TxPayload::DeactivateParticipant { id } => PayloadView::DeactivateParticipant { id },
            TxPayload::RecordSettlement { participant_id, record } => PayloadView::RecordSettlement { participant_id, record },
            TxPayload::RecordRating { participant_id, rating, success } => PayloadView::RecordRating { participant_id, rating, success },
            TxPayload::CreateEscrow { escrow_id, buyer, seller, amount, expires_at } => PayloadView::CreateEscrow { escrow_id, buyer, seller, amount, expires_at },
            TxPayload::ReleaseEscrow { escrow_id, evidence_hash } => PayloadView::ReleaseEscrow { escrow_id, evidence_hash },
            TxPayload::RefundEscrow { escrow_id } => PayloadView::RefundEscrow { escrow_id },
            TxPayload::RaiseDispute { dispute_id, escrow_id, reason, evidence_hash } => PayloadView::RaiseDispute { dispute_id, escrow_id, reason, evidence_hash },
            TxPayload::SubmitEvidence { dispute_id, evidence_hash } => PayloadView::SubmitEvidence { dispute_id, evidence_hash },
            TxPayload::VoteDispute { dispute_id, decision } => PayloadView::VoteDispute { dispute_id, decision },
            TxPayload::TransferRCW { to, amount, memo } => PayloadView::TransferRCW { to, amount, memo: memo@ },
            TxPayload::SpendRCW { amount, purpose } => PayloadView::SpendRCW { amount, purpose: purpose@ },
            TxPayload::AnchorMerkleRoot { batch_id, merkle_root, entry_count, from_entry_id, to_entry_id } => PayloadView::AnchorMerkleRoot { batch_id, merkle_root, entry_count, from_entry_id, to_entry_id },
        }
    }
}

impl View for Transaction {
    type V = TransactionView;

    open spec fn view(&self) -> TransactionView {
        TransactionView {
            payload: self.payload@,
            sender: self.sender,
            signature: self.signature,
            timestamp: self.timestamp,
            nonce: self.nonce,
        }
    }
}

// ── Layout ──

impl Wire for ParticipantType {
    type Model = ParticipantType;

    open spec fn model(&self) -> ParticipantType {
        *self
    }

    open spec fn bytes(m: ParticipantType) -> Seq<u8> {
        u32::bytes(m.index())
    }

    open spec fn refusal(s: Seq<u8>) -> Seq<char> {
        match parsed::<u32>(s) {
            None => u32::refusal(s),
            Some(i) => form_refusal(i, 15),
        }
    }

    proof fn lemma_nonempty(m: ParticipantType) {
        u32::lemma_nonempty(m.index());
    }

    proof fn lemma_unique(a: ParticipantType, b: ParticipantType, s: Seq<u8>) {
        u32::lemma_unique(a.index(), b.index(), s);
    }

    fn encode(&self, out: &mut Vec<u8>) {
        let i: u32 = match *self {
            ParticipantType::Seller => 0,
            ParticipantType::Buyer => 1,
            ParticipantType::Author => 2,
            ParticipantType::ContentWork => 3,
            ParticipantType::Franchisee => 4,
            ParticipantType::Investor => 5,
            ParticipantType::Host => 6,
            ParticipantType::Influencer => 7,
            ParticipantType::Brand => 8,
            ParticipantType::Agency => 9,
            ParticipantType::ServiceProvider => 10,
            ParticipantType::BuyerAgent => 11,
            ParticipantType::SellerAgent => 12,
            ParticipantType::MatchingAgent => 13,
            ParticipantType::Arbiter => 14,
        };
        i.encode(out);
    }

    fn decode(buf: &[u8]) -> (r: Result<(ParticipantType, usize), String>) {
        match u32::decode(buf) {
            Err(e) => Err(e),
            Ok((i, n)) => {
                proof {
                    assert(u32::bytes(i).is_prefix_of(buf@)) by {
                        assert(buf@.take(n as int) =~= buf@.subrange(0, n as int));
                    }
                    assert(buf@.len() == buf.len());
                    lemma_parsed::<u32>(i, buf@);
                    assert forall|m: ParticipantType| (#[trigger] Self::bytes(m)).is_prefix_of(buf@) implies m.index() == i by {
                        assert(buf@.len() == buf.len());
                        u32::lemma_unique(m.index(), i, buf@);
                    }
                }
                match i {
                    0 => Ok((ParticipantType::Seller, n)),
                    1 => Ok((ParticipantType::Buyer, n)),
                    2 => Ok((ParticipantType::Author, n)),
                    3 => Ok((ParticipantType::ContentWork, n)),
                    4 => Ok((ParticipantType::Franchisee, n)),
                    5 => Ok((ParticipantType::Investor, n)),
                    6 => Ok((ParticipantType::Host, n)),
                    7 => Ok((ParticipantType::Influencer, n)),
                    8 => Ok((ParticipantType::Brand, n)),
                    9 => Ok((ParticipantType::Agency, n)),
                    10 => Ok((ParticipantType::ServiceProvider, n)),
                    11 => Ok((ParticipantType::BuyerAgent, n)),
                    12 => Ok((ParticipantType::SellerAgent, n)),
                    13 => Ok((ParticipantType::MatchingAgent, n)),
                    14 => Ok((ParticipantType::Arbiter, n)),
                    _ => Err(unknown_form(i, 15)),
                }
            },
        }
    }
}

impl Wire for DisputeReason {
    type Model = DisputeReason;

    open spec fn model(&self) -> DisputeReason {
        *self
    }

    open spec fn bytes(m: DisputeReason) -> Seq<u8> {
        u32::bytes(m.index())
    }

    open spec fn refusal(s: Seq<u8>) -> Seq<char> {
        match parsed::<u32>(s) {
            None => u32::refusal(s),
            Some(i) => form_refusal(i, 5),
        }
    }

    proof fn lemma_nonempty(m: DisputeReason) {
        u32::lemma_nonempty(m.index());
    }

    proof fn lemma_unique(a: DisputeReason, b: DisputeReason, s: Seq<u8>) {
        u32::lemma_unique(a.index(), b.index(), s);
    }

    fn encode(&self, out: &mut Vec<u8>) {
        let i: u32 = match *self {
            DisputeReason::NotDelivered => 0,
            DisputeReason::Damaged => 1,
            DisputeReason::NotAsDescribed => 2,
            DisputeReason::Unauthorized => 3,
            DisputeReason::Other => 4,
        };
        i.encode(out);
    }

    fn decode(buf: &[u8]) -> (r: Result<(DisputeReason, usize), String>) {
        match u32::decode(buf) {
            Err(e) => Err(e),
            Ok((i, n)) => {
                proof {
                    assert(u32::bytes(i).is_prefix_of(buf@)) by {
                        assert(buf@.take(n as int) =~= buf@.subrange(0, n as int));
                    }
                    assert(buf@.len() == buf.len());
                    lemma_parsed::<u32>(i, buf@);
                    assert forall|m: DisputeReason| (#[trigger] Self::bytes(m)).is_prefix_of(buf@) implies m.index() == i by {
                        assert(buf@.len() == buf.len());
                        u32::lemma_unique(m.index(), i, buf@);
                    }
                }
                match i {
                    0 => Ok((DisputeReason::NotDelivered, n)),
                    1 => Ok((DisputeReason::Damaged, n)),
                    2 => Ok((DisputeReason::NotAsDescribed, n)),
                    3 => Ok((DisputeReason::Unauthorized, n)),
                    4 => Ok((DisputeReason::Other, n)),
                    _ => Err(unknown_form(i, 5)),
                }
            },
        }
    }
}

impl Wire for DisputeDecision {
    type Model = DisputeDecision;

    open spec fn model(&self) -> DisputeDecision {
        *self
    }

    open spec fn bytes(m: DisputeDecision) -> Seq<u8> {
        u32::bytes(m.code() as u32)
    }

    open spec fn refusal(s: Seq<u8>) -> Seq<char> {
        match parsed::<u32>(s) {
            None => u32::refusal(s),
            Some(i) => form_refusal(i, 3),
        }
    }

    proof fn lemma_nonempty(m: DisputeDecision) {
        u32::lemma_nonempty(m.code() as u32);
    }

    proof fn lemma_unique(a: DisputeDecision, b: DisputeDecision, s: Seq<u8>) {
        u32::lemma_unique(a.code() as u32, b.code() as u32, s);
    }

    fn encode(&self, out: &mut Vec<u8>) {
        (self.code() as u32).encode(out);
    }

    fn decode(buf: &[u8]) -> (r: Result<(DisputeDecision, usize), String>) {
        match u32::decode(buf) {
            Err(e) => Err(e),
            Ok((i, n)) => {
                proof {
                    assert(u32::bytes(i).is_prefix_of(buf@)) by {
                        assert(buf@.take(n as int) =~= buf@.subrange(0, n as int));
                    }
                    assert(buf@.len() == buf.len());
                    lemma_parsed::<u32>(i, buf@);
                    assert forall|m: DisputeDecision| (#[trigger] Self::bytes(m)).is_prefix_of(buf@) implies m.code() as u32 == i by {
                        assert(buf@.len() == buf.len());
                        u32::lemma_unique(m.code() as u32, i, buf@);
                    }
                }
                match i {
                    0 => Ok((DisputeDecision::FavorBuyer, n)),
                    1 => Ok((DisputeDecision::FavorSeller, n)),
                    2 => Ok((DisputeDecision::Split, n)),
                    _ => Err(unknown_form(i, 3)),
                }
            },
        }
    }
}

impl SettlementData {
    /// The fields in the order in which they are written.
    pub open spec fn fields(self) -> (Id, (u64, (u64, (u64, ([u8; 4], i64))))) {
        (self.record_id, (self.gross_amount, (self.platform_fee, (self.net_amount, (self.currency, self.settled_at)))))
    }
}

impl Wire for SettlementData {
    type Model = SettlementData;

    open spec fn model(&self) -> SettlementData {
        *self
    }

    open spec fn bytes(m: SettlementData) -> Seq<u8> {
        <(Id, (u64, (u64, (u64, ([u8; 4], i64))))) as Wire>::bytes(m.fields())
    }

    open spec fn refusal(s: Seq<u8>) -> Seq<char> {
        <(Id, (u64, (u64, (u64, ([u8; 4], i64))))) as Wire>::refusal(s)
    }

    proof fn lemma_nonempty(m: SettlementData) {
        <(Id, (u64, (u64, (u64, ([u8; 4], i64))))) as Wire>::lemma_nonempty(m.fields());
    }

    proof fn lemma_unique(a: SettlementData, b: SettlementData, s: Seq<u8>) {
        <(Id, (u64, (u64, (u64, ([u8; 4], i64))))) as Wire>::lemma_unique(a.fields(), b.fields(), s);
    }

    fn encode(&self, out: &mut Vec<u8>) {
        (self.record_id, (self.gross_amount, (self.platform_fee, (self.net_amount, (self.currency, self.settled_at))))).encode(out);
    }

    fn decode(buf: &[u8]) -> (r: Result<(SettlementData, usize), String>) {
        match <(Id, (u64, (u64, (u64, ([u8; 4], i64))))) as Wire>::decode(buf) {
            Ok(((record_id, (gross_amount, (platform_fee, (net_amount, (currency, settled_at))))), n)) => {
                Ok((SettlementData { record_id, gross_amount, platform_fee, net_amount, currency, settled_at }, n))
            },
            Err(e) => Err(e),
        }
    }
}

impl PayloadView {
    /// The number that leads a payload of this kind.
    pub open spec fn index(self) -> u32 {
        match self {
            PayloadView::RegisterParticipant { .. } => 0,
            PayloadView::UpdateParticipant { .. } => 1,
            PayloadView::DeactivateParticipant { .. } => 2,
            PayloadView::RecordSettlement { .. } => 3,
            PayloadView::RecordRating { .. } => 4,
            PayloadView::CreateEscrow { .. } => 5,
            PayloadView::ReleaseEscrow { .. } => 6,
            PayloadView::RefundEscrow { .. } => 7,
            PayloadView::RaiseDispute { .. } => 8,
            PayloadView::SubmitEvidence { .. } => 9,
            PayloadView::VoteDispute { .. } => 10,
            PayloadView::TransferRCW { .. } => 11,
            PayloadView::SpendRCW { .. } => 12,
            PayloadView::AnchorMerkleRoot { .. } => 13,
        }
    }

    /// The fields of a payload, one after the other.
    pub open spec fn body(self) -> Seq<u8> {
        match self {
            PayloadView::RegisterParticipant { id, p_type, metadata } => <(Id, (ParticipantType, String)) as Wire>::bytes((id, (p_type, metadata))),
            PayloadView::UpdateParticipant { id, metadata } => <(Id, String) as Wire>::bytes((id, metadata)),
            PayloadView::DeactivateParticipant { id } => <Id as Wire>::bytes(id),
            PayloadView::RecordSettlement { participant_id, record } => <(Id, SettlementData) as Wire>::bytes((participant_id, record)),
            PayloadView::RecordRating { participant_id, rating, success } => <(Id, (u16, bool)) as Wire>::bytes((participant_id, (rating, success))),
            PayloadView::CreateEscrow { escrow_id, buyer, seller, amount, expires_at } => <(Id, (Id, (Id, (u64, i64)))) as Wire>::bytes((escrow_id, (buyer, (seller, (amount, expires_at))))),
            PayloadView::ReleaseEscrow { escrow_id, evidence_hash } => <(Id, [u8; 32]) as Wire>::bytes((escrow_id, evidence_hash)),
            PayloadView::RefundEscrow { escrow_id } => <Id as Wire>::bytes(escrow_id),
            PayloadView::RaiseDispute { dispute_id, escrow_id, reason, evidence_hash } => <(Id, (Id, (DisputeReason, [u8; 32]))) as Wire>::bytes((dispute_id, (escrow_id, (reason, evidence_hash)))),
            PayloadView::SubmitEvidence { dispute_id, evidence_hash } => <(Id, [u8; 32]) as Wire>::bytes((dispute_id, evidence_hash)),
            PayloadView::VoteDispute { dispute_id, decision } => <(Id, DisputeDecision) as Wire>::bytes((dispute_id, decision)),
            PayloadView::TransferRCW { to, amount, memo } => <(Id, (u64, String)) as Wire>::bytes((to, (amount, memo))),
            PayloadView::SpendRCW { amount, purpose } => <(u64, String) as Wire>::bytes((amount, purpose)),
            PayloadView::AnchorMerkleRoot { batch_id, merkle_root, entry_count, from_entry_id, to_entry_id } => <(Id, ([u8; 32], (u64, (u64, u64)))) as Wire>::bytes((batch_id, (merkle_root, (entry_count, (from_entry_id, to_entry_id))))),
        }
    }
}

proof fn lemma_body_unique(a: PayloadView, b: PayloadView, s: Seq<u8>)
    requires
        a.index() == b.index(),
        a.body().is_prefix_of(s),
        b.body().is_prefix_of(s),
        s.len() <= u64::MAX,
    ensures
        a == b,
{
    match (a, b) {
        (PayloadView::RegisterParticipant { id, p_type, metadata }, PayloadView::RegisterParticipant { id: id2, p_type: p2, metadata: m2 }) => {
            <(Id, (ParticipantType, String)) as Wire>::lemma_unique((id, (p_type, metadata)), (id2, (p2, m2)), s);
        },
        (PayloadView::UpdateParticipant { id, metadata }, PayloadView::UpdateParticipant { id: id2, metadata: m2 }) => {
            <(Id, String) as Wire>::lemma_unique((id, metadata), (id2, m2), s);
        },
        (PayloadView::DeactivateParticipant { id }, PayloadView::DeactivateParticipant { id: id2 }) => {
            <Id as Wire>::lemma_unique(id, id2, s);
        },
        (PayloadView::RecordSettlement { participant_id, record }, PayloadView::RecordSettlement { participant_id: p2, record: r2 }) => {
            <(Id, SettlementData) as Wire>::lemma_unique((participant_id, record), (p2, r2), s);
        },
        (PayloadView::RecordRating { participant_id, rating, success }, PayloadView::RecordRating { participant_id: p2, rating: r2, success: s2 }) => {
            <(Id, (u16, bool)) as Wire>::lemma_unique((participant_id, (rating, success)), (p2, (r2, s2)), s);
        },
        (PayloadView::CreateEscrow { escrow_id, buyer, seller, amount, expires_at }, PayloadView::CreateEscrow { escrow_id: e2, buyer: b2, seller: s2, amount: a2, expires_at: x2 }) => {
            <(Id, (Id, (Id, (u64, i64)))) as Wire>::lemma_unique((escrow_id, (buyer, (seller, (amount, expires_at)))), (e2, (b2, (s2, (a2, x2)))), s);
        },
        (PayloadView::ReleaseEscrow { escrow_id, evidence_hash }, PayloadView::ReleaseEscrow { escrow_id: e2, evidence_hash: h2 }) => {
            <(Id, [u8; 32]) as Wire>::lemma_unique((escrow_id, evidence_hash), (e2, h2), s);
        },
        (PayloadView::RefundEscrow { escrow_id }, PayloadView::RefundEscrow { escrow_id: e2 }) => {
            <Id as Wire>::lemma_unique(escrow_id, e2, s);
        },
        (PayloadView::RaiseDispute { dispute_id, escrow_id, reason, evidence_hash }, PayloadView::RaiseDispute { dispute_id: d2, escrow_id: e2, reason: r2, evidence_hash: h2 }) => {
            <(Id, (Id, (DisputeReason, [u8; 32]))) as Wire>::lemma_unique((dispute_id, (escrow_id, (reason, evidence_hash))), (d2, (e2, (r2, h2))), s);
        },
        (PayloadView::SubmitEvidence { dispute_id, evidence_hash }, PayloadView::SubmitEvidence { dispute_id: d2, evidence_hash: h2 }) => {
            <(Id, [u8; 32]) as Wire>::lemma_unique((dispute_id, evidence_hash), (d2, h2), s);
        },
        (PayloadView::VoteDispute { dispute_id, decision }, PayloadView::VoteDispute { dispute_id: d2, decision: c2 }) => {
            <(Id, DisputeDecision) as Wire>::lemma_unique((dispute_id, decision), (d2, c2), s);
        },
        (PayloadView::TransferRCW { to, amount, memo }, PayloadView::TransferRCW { to: t2, amount: a2, memo: m2 }) => {
            <(Id, (u64, String)) as Wire>::lemma_unique((to, (amount, memo)), (t2, (a2, m2)), s);
        },
        (PayloadView::SpendRCW { amount, purpose }, PayloadView::SpendRCW { amount: a2, purpose: p2 }) => {
            <(u64, String) as Wire>::lemma_unique((amount, purpose), (a2, p2), s);
        },
        (PayloadView::AnchorMerkleRoot { batch_id, merkle_root, entry_count, from_entry_id, to_entry_id }, PayloadView::AnchorMerkleRoot { batch_id: b2, merkle_root: m2, entry_count: c2, from_entry_id: f2, to_entry_id: t2 }) => {
            <(Id, ([u8; 32], (u64, (u64, u64)))) as Wire>::lemma_unique((batch_id, (merkle_root, (entry_count, (from_entry_id, to_entry_id)))), (b2, (m2, (c2, (f2, t2)))), s);
        },
        _ => {},
    }
}

/// What is said of fields that do not lead an input.
pub open spec fn body_refusal(tag: u32, s: Seq<u8>) -> Seq<char> {
    match tag {
        0 => <(Id, (ParticipantType, String)) as Wire>::refusal(s),
        1 => <(Id, String) as Wire>::refusal(s),
        2 => <Id as Wire>::refusal(s),
        3 => <(Id, SettlementData) as Wire>::refusal(s),
        4 => <(Id, (u16, bool)) as Wire>::refusal(s),
        5 => <(Id, (Id, (Id, (u64, i64)))) as Wire>::refusal(s),
        6 => <(Id, [u8; 32]) as Wire>::refusal(s),
        7 => <Id as Wire>::refusal(s),
        8 => <(Id, (Id, (DisputeReason, [u8; 32]))) as Wire>::refusal(s),
        9 => <(Id, [u8; 32]) as Wire>::refusal(s),
        10 => <(Id, DisputeDecision) as Wire>::refusal(s),
        11 => <(Id, (u64, String)) as Wire>::refusal(s),
        12 => <(u64, String) as Wire>::refusal(s),
        13 => <(Id, ([u8; 32], (u64, (u64, u64)))) as Wire>::refusal(s),
        _ => form_refusal(tag, 14),
    }
}

/// Read the fields of a payload of the given kind.
fn decode_body(tag: u32, rest: &[u8]) -> (r: Result<(TxPayload, usize), String>)
    ensures
        match r {
            Ok((p, n)) => p@.index() == tag && n <= rest@.len() && rest@.take(n as int) == p@.body(),
            Err(e) => (forall|m: PayloadView| m.index() == tag ==> !(#[trigger] m.body()).is_prefix_of(rest@)) && e@ == body_refusal(tag, rest@),
        },
{
    match tag {
        0 => match <(Id, (ParticipantType, String)) as Wire>::decode(rest) {
            Ok(((id, (p_type, metadata)), n)) => Ok((TxPayload::RegisterParticipant { id, p_type, metadata }, n)),
            Err(e) => Err(e),
        },
        1 => match <(Id, String) as Wire>::decode(rest) {
            Ok(((id, metadata), n)) => Ok((TxPayload::UpdateParticipant { id, metadata }, n)),
            Err(e) => Err(e),
        },
        2 => match <Id as Wire>::decode(rest) {
            Ok((id, n)) => Ok((TxPayload::DeactivateParticipant { id }, n)),
            Err(e) => Err(e),
        },
        3 => match <(Id, SettlementData) as Wire>::decode(rest) {
            Ok(((participant_id, record), n)) => Ok((TxPayload::RecordSettlement { participant_id, record }, n)),
            Err(e) => Err(e),
        },
        4 => match <(Id, (u16, bool)) as Wire>::decode(rest) {
            Ok(((participant_id, (rating, success)), n)) => Ok((TxPayload::RecordRating { participant_id, rating, success }, n)),
            Err(e) => Err(e),
        },
        5 => match <(Id, (Id, (Id, (u64, i64)))) as Wire>::decode(rest) {
            Ok(((escrow_id, (buyer, (seller, (amount, expires_at)))), n)) => Ok((TxPayload::CreateEscrow { escrow_id, buyer, seller, amount, expires_at }, n)),
            Err(e) => Err(e),
        },
        6 => match <(Id, [u8; 32]) as Wire>::decode(rest) {
            Ok(((escrow_id, evidence_hash), n)) => Ok((TxPayload::ReleaseEscrow { escrow_id, evidence_hash }, n)),
            Err(e) => Err(e),
        },
        7 => match <Id as Wire>::decode(rest) {
            Ok((escrow_id, n)) => Ok((TxPayload::RefundEscrow { escrow_id }, n)),
            Err(e) => Err(e),
        },
        8 => match <(Id, (Id, (DisputeReason, [u8; 32]))) as Wire>::decode(rest) {
            Ok(((dispute_id, (escrow_id, (reason, evidence_hash))), n)) => Ok((TxPayload::RaiseDispute { dispute_id, escrow_id, reason, evidence_hash }, n)),
            Err(e) => Err(e),
        },
        9 => match <(Id, [u8; 32]) as Wire>::decode(rest) {
            Ok(((dispute_id, evidence_hash), n)) => Ok((TxPayload::SubmitEvidence { dispute_id, evidence_hash }, n)),
            Err(e) => Err(e),
        },
        10 => match <(Id, DisputeDecision) as Wire>::decode(rest) {
            Ok(((dispute_id, decision), n)) => Ok((TxPayload::VoteDispute { dispute_id, decision }, n)),
            Err(e) => Err(e),
        },
        11 => match <(Id, (u64, String)) as Wire>::decode(rest) {
            Ok(((to, (amount, memo)), n)) => Ok((TxPayload::TransferRCW { to, amount, memo }, n)),
            Err(e) => Err(e),
        },
        12 => match <(u64, String) as Wire>::decode(rest) {
            Ok(((amount, purpose), n)) => Ok((TxPayload::SpendRCW { amount, purpose }, n)),
            Err(e) => Err(e),
        },
        13 => match <(Id, ([u8; 32], (u64, (u64, u64)))) as Wire>::decode(rest) {
            Ok(((batch_id, (merkle_root, (entry_count, (from_entry_id, to_entry_id)))), n)) => Ok((TxPayload::AnchorMerkleRoot { batch_id, merkle_root, entry_count, from_entry_id, to_entry_id }, n)),
            Err(e) => Err(e),
        },
        _ => Err(unknown_form(tag, 14)),
    }
}

impl TxPayload {
    fn encode_body(&self, out: &mut Vec<u8>)
        ensures
            final(out)@ == old(out)@ + self@.body(),
    {
        match self {
            TxPayload::RegisterParticipant { id, p_type, metadata } => (*id, (*p_type, metadata.clone())).encode(out),
            TxPayload::UpdateParticipant { id, metadata } => (*id, metadata.clone()).encode(out),
            TxPayload::DeactivateParticipant { id } => id.encode(out),
            TxPayload::RecordSettlement { participant_id, record } => (*participant_id, *record).encode(out),
            TxPayload::RecordRating { participant_id, rating, success } => (*participant_id, (*rating, *success)).encode(out),
            TxPayload::CreateEscrow { escrow_id, buyer, seller, amount, expires_at } => (*escrow_id, (*buyer, (*seller, (*amount, *expires_at)))).encode(out),
            TxPayload::ReleaseEscrow { escrow_id, evidence_hash } => (*escrow_id, *evidence_hash).encode(out),
            TxPayload::RefundEscrow { escrow_id } => escrow_id.encode(out),
            TxPayload::RaiseDispute { dispute_id, escrow_id, reason, evidence_hash } => (*dispute_id, (*escrow_id, (*reason, *evidence_hash))).encode(out),
            TxPayload::SubmitEvidence { dispute_id, evidence_hash } => (*dispute_id, *evidence_hash).encode(out),
            TxPayload::VoteDispute { dispute_id, decision } => (*dispute_id, *decision).encode(out),
            TxPayload::TransferRCW { to, amount, memo } => (*to, (*amount, memo.clone())).encode(out),
            TxPayload::SpendRCW { amount, purpose } => (*amount, purpose.clone()).encode(out),
            TxPayload::AnchorMerkleRoot { batch_id, merkle_root, entry_count, from_entry_id, to_entry_id } => (*batch_id, (*merkle_root, (*entry_count, (*from_entry_id, *to_entry_id)))).encode(out),
        }
    }

    fn tag(&self) -> (r: u32)
        ensures
            r == self@.index(),
    {
        match self {
            TxPayload::RegisterParticipant { .. } => 0,
            TxPayload::UpdateParticipant { .. } => 1,
            TxPayload::DeactivateParticipant { .. } => 2,
            TxPayload::RecordSettlement { .. } => 3,
            TxPayload::RecordRating { .. } => 4,
            TxPayload::CreateEscrow { .. } => 5,
            TxPayload::ReleaseEscrow { .. } => 6,
            TxPayload::RefundEscrow { .. } => 7,
            TxPayload::RaiseDispute { .. } => 8,
            TxPayload::SubmitEvidence { .. } => 9,
            TxPayload::VoteDispute { .. } => 10,
            TxPayload::TransferRCW { .. } => 11,
            TxPayload::SpendRCW { .. } => 12,
            TxPayload::AnchorMerkleRoot { .. } => 13,
        }
    }
}

impl Wire for TxPayload {
    type Model = PayloadView;

    open spec fn model(&self) -> PayloadView {
        self@
    }

    open spec fn bytes(m: PayloadView) -> Seq<u8> {
        le(m.index() as int, 4) + m.body()
    }

    open spec fn refusal(s: Seq<u8>) -> Seq<char> {
        match parsed::<u32>(s) {
            None => u32::refusal(s),
            Some(tag) => body_refusal(tag, s.skip(4)),
        }
    }

    proof fn lemma_nonempty(m: PayloadView) {
        lemma_le_len(m.index() as int, 4);
    }

    proof fn lemma_unique(a: PayloadView, b: PayloadView, s: Seq<u8>) {
        lemma_le_len(b.index() as int, 4);
        lemma_prefix_split(le(b.index() as int, 4), b.body(), s);
        lemma_tagged(a.index(), a.body(), b.index(), s);
        lemma_tagged(b.index(), b.body(), b.index(), s);
        lemma_body_unique(a, b, s.skip(4));
    }

    fn encode(&self, out: &mut Vec<u8>) {
        let ghost before = out@;
        self.tag().encode(out);
        self.encode_body(out);
        assert(out@ =~= before + Self::bytes(self@));
    }

    fn decode(buf: &[u8]) -> (r: Result<(TxPayload, usize), String>) {
        match u32::decode(buf) {
            Err(e) => {
                proof {
                    assert forall|m: PayloadView| !(#[trigger] Self::bytes(m)).is_prefix_of(buf@) by {
                        lemma_prefix_split(le(m.index() as int, 4), m.body(), buf@);
                        assert(!u32::bytes(m.index()).is_prefix_of(buf@));
                    }
                }
                Err(e)
            },
            Ok((tag, k)) => {
                proof {
                    assert(buf@.len() == buf.len());
                    lemma_tag_read(tag, k, buf@);
                    lemma_parsed::<u32>(tag, buf@);
                }
                let rest = slice_subrange(buf, k, buf.len());
                assert(rest@ =~= buf@.skip(4));
                match decode_body(tag, rest) {
                    Err(e) => {
                        proof {
                            assert forall|m: PayloadView| !(#[trigger] Self::bytes(m)).is_prefix_of(buf@) by {
                                if Self::bytes(m).is_prefix_of(buf@) {
                                    lemma_tagged(m.index(), m.body(), tag, buf@);
                                }
                            }
                        }
                        Err(e)
                    },
                    Ok((p, n)) => {
                        assert(buf@.take(4 + n) =~= buf@.take(4) + rest@.take(n as int));
                        assert(buf@.len() == buf.len());
                        Ok((p, k + n))
                    },
                }
            },
        }
    }
}

impl TransactionView {
    /// The fields in the order in which they are written.
    pub open spec fn fields(self) -> (PayloadView, (Id, (Signature, (i64, u64)))) {
        (self.payload, (self.sender, (self.signature, (self.timestamp, self.nonce))))
    }
}

impl Wire for Transaction {
    type Model = TransactionView;

    open spec fn model(&self) -> TransactionView {
        self@
    }

    open spec fn bytes(m: TransactionView) -> Seq<u8> {
        <(TxPayload, (Id, (Signature, (i64, u64)))) as Wire>::bytes(m.fields())
    }

    open spec fn refusal(s: Seq<u8>) -> Seq<char> {
        <(TxPayload, (Id, (Signature, (i64, u64)))) as Wire>::refusal(s)
    }

    proof fn lemma_nonempty(m: TransactionView) {
        <(TxPayload, (Id, (Signature, (i64, u64)))) as Wire>::lemma_nonempty(m.fields());
    }

    proof fn lemma_unique(a: TransactionView, b: TransactionView, s: Seq<u8>) {
        <(TxPayload, (Id, (Signature, (i64, u64)))) as Wire>::lemma_unique(a.fields(), b.fields(), s);
    }

    fn encode(&self, out: &mut Vec<u8>) {
        let ghost before = out@;
        self.payload.encode(out);
        (self.sender, (self.signature, (self.timestamp, self.nonce))).encode(out);
        assert(out@ =~= before + Self::bytes(self@));
    }

    fn decode(buf: &[u8]) -> (r: Result<(Transaction, usize), String>) {
        match <(TxPayload, (Id, (Signature, (i64, u64)))) as Wire>::decode(buf) {
            Ok(((payload, (sender, (signature, (timestamp, nonce)))), n)) => {
                Ok((Transaction { payload, sender, signature, timestamp, nonce }, n))
            },
            Err(e) => Err(e),
        }
    }
}

} // verus!
