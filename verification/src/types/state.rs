//! Records of the chain's state, the trust score, and the events of a transition.

use crate::types::{Id, ZERO_ID};
use crate::wire::{form_refusal, lemma_parsed, parsed, unknown_form, Wire};
use vstd::prelude::*;

verus! {

/// Participant trust profile.
#[derive(Debug)]
pub struct Participant {
    pub id: Id,
    pub p_type: u8,
    pub metadata: String,
    pub total_tx: u64,
    pub success_tx: u64,
    pub dispute_count: u64,
    pub dispute_won: u64,
    pub rating_sum: u64,
    pub rating_count: u64,
    pub total_volume: u64,
    pub total_settled: u64,
    pub registered_at: i64,
    pub last_activity_at: i64,
    pub is_active: bool,
}

/// What a participant's record stands for.
pub struct ParticipantView {
    pub id: Id,
    pub p_type: u8,
    pub metadata: Seq<char>,
    pub total_tx: u64,
    pub success_tx: u64,
    pub dispute_count: u64,
    pub dispute_won: u64,
    pub rating_sum: u64,
    pub rating_count: u64,
    pub total_volume: u64,
    pub total_settled: u64,
    pub registered_at: i64,
    pub last_activity_at: i64,
    pub is_active: bool,
}

impl View for Participant {
    type V = ParticipantView;

    open spec fn view(&self) -> ParticipantView {
        ParticipantView {
            id: self.id,
            p_type: self.p_type,
            metadata: self.metadata@,
            total_tx: self.total_tx,
            success_tx: self.success_tx,
            dispute_count: self.dispute_count,
            dispute_won: self.dispute_won,
            rating_sum: self.rating_sum,
            rating_count: self.rating_count,
            total_volume: self.total_volume,
            total_settled: self.total_settled,
            registered_at: self.registered_at,
            last_activity_at: self.last_activity_at,
            is_active: self.is_active,
        }
    }
}

impl ParticipantView {
    /// A participant of whom nothing is known.
    pub open spec fn blank(id: Id, metadata: Seq<char>) -> ParticipantView {
        ParticipantView {
            id,
            p_type: 0,
            metadata,
            total_tx: 0,
            success_tx: 0,
            dispute_count: 0,
            dispute_won: 0,
            rating_sum: 0,
            rating_count: 0,
            total_volume: 0,
            total_settled: 0,
            registered_at: 0,
            last_activity_at: 0,
            is_active: false,
        }
    }
}

impl Default for Participant {
    fn default() -> (r: Participant)
        ensures
            r@ == ParticipantView::blank(ZERO_ID, Seq::empty()),
    {
        let metadata = String::new();
        assert(metadata@ =~= Seq::<char>::empty());
        Participant {
            id: ZERO_ID,
            p_type: 0,
            metadata,
            total_tx: 0,
            success_tx: 0,
            dispute_count: 0,
            dispute_won: 0,
            rating_sum: 0,
            rating_count: 0,
            total_volume: 0,
            total_settled: 0,
            registered_at: 0,
            last_activity_at: 0,
            is_active: false,
        }
    }
}

impl Clone for Participant {
    fn clone(&self) -> (r: Participant)
        ensures
            r@ == self@,
    {
        Participant {
            id: self.id,
            p_type: self.p_type,
            metadata: self.metadata.clone(),
            total_tx: self.total_tx,
            success_tx: self.success_tx,
            dispute_count: self.dispute_count,
            dispute_won: self.dispute_won,
            rating_sum: self.rating_sum,
            rating_count: self.rating_count,
            total_volume: self.total_volume,
            total_settled: self.total_settled,
            registered_at: self.registered_at,
            last_activity_at: self.last_activity_at,
            is_active: self.is_active,
        }
    }
}

/// RCW token balance.
#[derive(Debug, Clone, Copy)]
pub struct RCWBalance {
    pub owner: Id,
    pub earned: u64,
    pub purchased: u64,
}

impl RCWBalance {
    /// All tokens, however they were come by.
    pub open spec fn spec_total(self) -> nat {
        (self.earned + self.purchased) as nat
    }

    /// A balance without tokens.
    pub open spec fn zero(owner: Id) -> RCWBalance {
        RCWBalance { owner, earned: 0, purchased: 0 }
    }

    /// All tokens, however they were come by.
    pub fn total(&self) -> (r: u64)
        requires
            self.spec_total() <= u64::MAX,
        ensures
            r == self.spec_total(),
    {
        self.earned + self.purchased
    }
}

impl Default for RCWBalance {
    fn default() -> (r: RCWBalance)
        ensures
            r == RCWBalance::zero(ZERO_ID),
    {
        RCWBalance { owner: ZERO_ID, earned: 0, purchased: 0 }
    }
}

/// Money held until a delivery is confirmed.
#[derive(Debug, Clone, Copy)]
pub struct Escrow {
    pub id: Id,
    pub buyer: Id,
    pub seller: Id,
    pub amount: u64,
    pub state: EscrowState,
    pub created_at: i64,
    pub expires_at: i64,
    pub evidence_hash: Option<[u8; 32]>,
    pub dispute_id: Option<Id>,
}

/// Where an escrow stands.
#[derive(Debug, Clone, Copy, PartialEq, Eq, Structural)]
pub enum EscrowState {
    Created,
    Funded,
    Released,
    Refunded,
    Disputed,
}

/// A quarrel over an escrow.
#[derive(Debug, Clone)]
pub struct Dispute {
    pub id: Id,
    pub escrow_id: Id,
    pub raised_by: Id,
    pub reason: u8,
    pub evidence_hashes: Vec<[u8; 32]>,
    pub votes: Vec<DisputeVote>,
    pub state: DisputeState,
    pub resolution: Option<u8>,
    pub raised_at: i64,
    pub resolved_at: Option<i64>,
}

/// What a dispute's record stands for.
pub struct DisputeView {
    pub id: Id,
    pub escrow_id: Id,
    pub raised_by: Id,
    pub reason: u8,
    pub evidence_hashes: Seq<[u8; 32]>,
    pub votes: Seq<DisputeVote>,
    pub state: DisputeState,
    pub resolution: Option<u8>,
    pub raised_at: i64,
    pub resolved_at: Option<i64>,
}

impl View for Dispute {
    type V = DisputeView;

    open spec fn view(&self) -> DisputeView {
        DisputeView {
            id: self.id,
            escrow_id: self.escrow_id,
            raised_by: self.raised_by,
            reason: self.reason,
            evidence_hashes: self.evidence_hashes@,
            votes: self.votes@,
            state: self.state,
            resolution: self.resolution,
            raised_at: self.raised_at,
            resolved_at: self.resolved_at,
        }
    }
}

/// Where a dispute stands.
#[derive(Debug, Clone, Copy, PartialEq, Eq, Structural)]
pub enum DisputeState {
    Raised,
    Evidence,
    Voting,
    Resolved,
}

/// One arbiter's vote.
#[derive(Debug, Clone, Copy)]
pub struct DisputeVote {
    pub voter: Id,
    pub decision: u8,
    pub voted_at: i64,
}

/// A settlement as the chain keeps it.
#[derive(Debug, Clone, Copy)]
pub struct SettlementRecord {
    pub record_id: Id,
    pub participant_id: Id,
    pub gross_amount: u64,
    pub platform_fee: u64,
    pub net_amount: u64,
    pub currency: [u8; 4],
    pub settled_at: i64,
    pub recorded_at: i64,
}

/// The root of a batch of entries kept elsewhere.
#[derive(Debug, Clone, Copy)]
pub struct AnchorRecord {
    pub batch_id: Id,
    pub merkle_root: [u8; 32],
    pub entry_count: u64,
    pub from_entry_id: u64,
    pub to_entry_id: u64,
    pub anchored_at: i64,
}

// ── Trust score ──

/// Share of successful transactions, in hundredths of a percent.
pub open spec fn success_score(p: ParticipantView) -> int {
    (p.success_tx * 10000) / (p.total_tx as int)
}

/// Full marks without disputes; each hundredth of a percent of disputed
/// transactions costs three.
pub open spec fn dispute_score(p: ParticipantView) -> int {
    let rate = (p.dispute_count * 10000) / (p.total_tx as int);
    if rate * 3 >= 10000 {
        0
    } else {
        10000 - rate * 3
    }
}

/// Two thousand times the average rating.
pub open spec fn rating_score(p: ParticipantView) -> int {
    if p.rating_count > 0 {
        (p.rating_sum * 2000) / (p.rating_count as int)
    } else {
        0
    }
}

/// Marks for the volume traded.
pub open spec fn volume_score(p: ParticipantView) -> int {
    if p.total_volume == 0 {
        0
    } else if p.total_volume <= 100_000 {
        2500
    } else if p.total_volume <= 1_000_000 {
        5000
    } else if p.total_volume <= 10_000_000 {
        7500
    } else {
        10000
    }
}

/// Whole days between registration and the last activity.
pub open spec fn active_days(p: ParticipantView) -> int {
    if p.last_activity_at > p.registered_at {
        (p.last_activity_at - p.registered_at) / 86400
    } else {
        0
    }
}

/// Marks for the time since registration.
pub open spec fn longevity_score(p: ParticipantView) -> int {
    let days = active_days(p);
    if days <= 30 {
        2000
    } else if days <= 90 {
        4000
    } else if days <= 180 {
        6000
    } else if days <= 365 {
        8000
    } else {
        10000
    }
}

/// How much of the score counts, by the number of transactions.
pub open spec fn maturity_factor(p: ParticipantView) -> int {
    if p.total_tx <= 9 {
        3000
    } else if p.total_tx <= 49 {
        6000
    } else if p.total_tx <= 99 {
        8000
    } else {
        10000
    }
}

/// The weighted sum of the five scores.
pub open spec fn raw_score(p: ParticipantView) -> int {
    success_score(p) * 35 + dispute_score(p) * 25 + rating_score(p) * 20 + volume_score(p) * 10 + longevity_score(p) * 10
}

/// The trust score before it is cut to sixteen bits.
pub open spec fn full_score(p: ParticipantView) -> int {
    if p.total_tx == 0 {
        0
    } else {
        raw_score(p) * maturity_factor(p) / 10000 / 100
    }
}

/// The trust score.
pub open spec fn trust_score(p: ParticipantView) -> u16 {
    (full_score(p) % 0x1_0000) as u16
}

/// The time between registration and the last activity can be reckoned.
pub open spec fn age_fits(p: ParticipantView) -> bool {
    p.total_tx == 0 || p.last_activity_at - p.registered_at <= i64::MAX
}

/// Can the trust score be computed?
pub fn can_score(p: &Participant) -> (r: bool)
    ensures
        r == age_fits(p@),
{
    if p.total_tx == 0 {
        return true;
    }
    if p.registered_at >= 0 {
        return true;
    }
    // registered_at < 0, so the sum cannot leave the range
    p.last_activity_at <= i64::MAX + p.registered_at
}

/// Trust Score computation: a pure function of the profile.
pub fn compute_trust_score(p: &Participant) -> (r: u16)
    requires
        age_fits(p@),
    ensures
        r == trust_score(p@),
{
    if p.total_tx == 0 {
        return 0;
    }

    let total: u128 = p.total_tx as u128;
    let success: u128 = (p.success_tx as u128 * 10000) / total;
    proof {
        lemma_quotient_bound(p.success_tx as int * 10000, total as int);
        lemma_quotient_bound(p.dispute_count as int * 10000, total as int);
    }

    let dispute: u128 = if p.dispute_count > 0 {
        let rate: u128 = (p.dispute_count as u128 * 10000) / total;
        10000u128.saturating_sub(rate * 3)
    } else {
        assert(0int / (total as int) == 0) by (nonlinear_arith)
            requires
                total > 0,
        ;
        10000
    };
    assert(dispute == dispute_score(p@));

    let rating: u128 = if p.rating_count > 0 {
        proof {
            lemma_quotient_bound(p.rating_sum as int * 2000, p.rating_count as int);
        }
        (p.rating_sum as u128 * 2000) / p.rating_count as u128
    } else {
        0
    };

    let volume: u128 = if p.total_volume == 0 {
        0
    } else if p.total_volume <= 100_000 {
        2500
    } else if p.total_volume <= 1_000_000 {
        5000
    } else if p.total_volume <= 10_000_000 {
        7500
    } else {
        10000
    };

    let days: i64 = if p.last_activity_at > p.registered_at {
        (p.last_activity_at - p.registered_at) / 86400
    } else {
        0
    };
    assert(days == active_days(p@));
    let longevity: u128 = if days <= 30 {
        2000
    } else if days <= 90 {
        4000
    } else if days <= 180 {
        6000
    } else if days <= 365 {
        8000
    } else {
        10000
    };

    let raw_total: u128 = success * 35 + dispute * 25 + rating * 20 + volume * 10 + longevity * 10;
    assert(raw_total == raw_score(p@));

    let maturity: u128 = if p.total_tx <= 9 {
        3000
    } else if p.total_tx <= 49 {
        6000
    } else if p.total_tx <= 99 {
        8000
    } else {
        10000
    };

    assert(raw_total * maturity <= 0x1_0000_0000_0000_0000_0000_0000 * 10000) by (nonlinear_arith)
        requires
            raw_total <= 0x1_0000_0000_0000_0000_0000_0000,
            maturity <= 10000,
    ;
    let score: u128 = raw_total * maturity / 10000 / 100;
    assert(score as u16 == score % 0x1_0000) by (bit_vector);
    #[verifier::truncate]
    (score as u16)
}

proof fn lemma_quotient_bound(a: int, b: int)
    requires
        a >= 0,
        b > 0,
    ensures
        0 <= a / b <= a,
{
    vstd::arithmetic::div_mod::lemma_div_is_ordered_by_denominator(a, 1, b);
    vstd::arithmetic::div_mod::lemma_div_pos_is_pos(a, b);
}

/// Where no more transactions succeeded than took place, and ratings average five
/// at most, the score is at most ten thousand.
pub proof fn law_score_bound(p: ParticipantView)
    requires
        p.success_tx <= p.total_tx,
        p.rating_sum <= 5 * p.rating_count,
    ensures
        trust_score(p) == full_score(p),
        trust_score(p) <= 10000,
{
    if p.total_tx > 0 {
        let n = p.total_tx as int;
        vstd::arithmetic::div_mod::lemma_div_is_ordered(p.success_tx * 10000, n * 10000, n);
        vstd::arithmetic::div_mod::lemma_div_multiples_vanish(10000, n);
        lemma_quotient_bound(p.success_tx * 10000, n);
        lemma_quotient_bound(p.dispute_count * 10000, n);
        if p.rating_count > 0 {
            let c = p.rating_count as int;
            vstd::arithmetic::div_mod::lemma_div_is_ordered(p.rating_sum * 2000, c * 10000, c);
            vstd::arithmetic::div_mod::lemma_div_multiples_vanish(10000, c);
            lemma_quotient_bound(p.rating_sum * 2000, c);
        }
        assert(0 <= raw_score(p) <= 1_000_000);
        let f = maturity_factor(p);
        assert(0 <= raw_score(p) * f <= 1_000_000 * 10000) by (nonlinear_arith)
            requires
                0 <= raw_score(p) <= 1_000_000,
                0 <= f <= 10000,
        ;
    }
}

// ── Events ──

/// Events emitted by state transitions.
#[derive(Debug, Clone)]
pub enum Event {
    ParticipantRegistered { id: Id, p_type: u8 },
    ParticipantUpdated { id: Id },
    ParticipantDeactivated { id: Id },
    SettlementRecorded { participant_id: Id, record_id: Id },
    RatingRecorded { participant_id: Id, new_score: u16 },
    EscrowCreated { escrow_id: Id, buyer: Id, seller: Id, amount: u64 },
    EscrowReleased { escrow_id: Id },
    EscrowRefunded { escrow_id: Id },
    DisputeRaised { dispute_id: Id, escrow_id: Id },
    DisputeResolved { dispute_id: Id, decision: u8 },
    RCWMinted { to: Id, amount: u64, reason: String },
    RCWTransferred { from: Id, to: Id, amount: u64 },
    RCWSpent { from: Id, amount: u64, purpose: String },
    AnchorRecorded { batch_id: Id, merkle_root: [u8; 32], entry_count: u64 },
}

/// What an event stands for.
pub enum EventView {
    ParticipantRegistered { id: Id, p_type: u8 },
    ParticipantUpdated { id: Id },
    ParticipantDeactivated { id: Id },
    SettlementRecorded { participant_id: Id, record_id: Id },
    RatingRecorded { participant_id: Id, new_score: u16 },
    EscrowCreated { escrow_id: Id, buyer: Id, seller: Id, amount: u64 },
    EscrowReleased { escrow_id: Id },
    EscrowRefunded { escrow_id: Id },
    DisputeRaised { dispute_id: Id, escrow_id: Id },
    DisputeResolved { dispute_id: Id, decision: u8 },
    RCWMinted { to: Id, amount: u64, reason: Seq<char> },
    RCWTransferred { from: Id, to: Id, amount: u64 },
    RCWSpent { from: Id, amount: u64, purpose: Seq<char> },
    AnchorRecorded { batch_id: Id, merkle_root: [u8; 32], entry_count: u64 },
}

impl View for Event {
    type V = EventView;

    open spec fn view(&self) -> EventView {
        match *self {
            Event::ParticipantRegistered { id, p_type } => EventView::ParticipantRegistered { id, p_type },
            Event::ParticipantUpdated { id } => EventView::ParticipantUpdated { id },
            Event::ParticipantDeactivated { id } => EventView::ParticipantDeactivated { id },
            Event::SettlementRecorded { participant_id, record_id } => EventView::SettlementRecorded { participant_id, record_id },
            Event::RatingRecorded { participant_id, new_score } => EventView::RatingRecorded { participant_id, new_score },
            Event::EscrowCreated { escrow_id, buyer, seller, amount } => EventView::EscrowCreated { escrow_id, buyer, seller, amount },
            Event::EscrowReleased { escrow_id } => EventView::EscrowReleased { escrow_id },
            Event::EscrowRefunded { escrow_id } => EventView::EscrowRefunded { escrow_id },
            Event::DisputeRaised { dispute_id, escrow_id } => EventView::DisputeRaised { dispute_id, escrow_id },
            Event::DisputeResolved { dispute_id, decision } => EventView::DisputeResolved { dispute_id, decision },
            Event::RCWMinted { to, amount, reason } => EventView::RCWMinted { to, amount, reason: reason@ },
            Event::RCWTransferred { from, to, amount } => EventView::RCWTransferred { from, to, amount },
            Event::RCWSpent { from, amount, purpose } => EventView::RCWSpent { from, amount, purpose: purpose@ },
            Event::AnchorRecorded { batch_id, merkle_root, entry_count } => EventView::AnchorRecorded { batch_id, merkle_root, entry_count },
        }
    }
}

/// What several events stand for.
pub open spec fn event_views(events: Seq<Event>) -> Seq<EventView> {
    Seq::new(events.len(), |i: int| events[i]@)
}

// ── Layout ──

/// The fields as they are written.
pub type ParticipantFields = (Id, (u8, (String, (u64, (u64, (u64, (u64, (u64, (u64, (u64, (u64, (i64, (i64, bool)))))))))))));

impl ParticipantView {
    /// The fields in the order in which they are written.
    pub open spec fn fields(self) -> (Id, (u8, (Seq<char>, (u64, (u64, (u64, (u64, (u64, (u64, (u64, (u64, (i64, (i64, bool))))))))))))) {
        (self.id, (self.p_type, (self.metadata, (self.total_tx, (self.success_tx, (self.dispute_count, (self.dispute_won, (self.rating_sum, (self.rating_count, (self.total_volume, (self.total_settled, (self.registered_at, (self.last_activity_at, self.is_active)))))))))))))
    }
}

impl Wire for Participant {
    type Model = ParticipantView;

    open spec fn model(&self) -> ParticipantView {
        self@
    }

    open spec fn bytes(m: ParticipantView) -> Seq<u8> {
        <ParticipantFields as Wire>::bytes(m.fields())
    }

    open spec fn refusal(s: Seq<u8>) -> Seq<char> {
        <ParticipantFields as Wire>::refusal(s)
    }

    proof fn lemma_nonempty(m: ParticipantView) {
        <ParticipantFields as Wire>::lemma_nonempty(m.fields());
    }

    proof fn lemma_unique(a: ParticipantView, b: ParticipantView, s: Seq<u8>) {
        <ParticipantFields as Wire>::lemma_unique(a.fields(), b.fields(), s);
    }

    fn encode(&self, out: &mut Vec<u8>) {
        (self.id, (self.p_type, (self.metadata.clone(), (self.total_tx, (self.success_tx, (self.dispute_count, (self.dispute_won, (self.rating_sum, (self.rating_count, (self.total_volume, (self.total_settled, (self.registered_at, (self.last_activity_at, self.is_active))))))))))))).encode(out);
    }

    fn decode(buf: &[u8]) -> (r: Result<(Participant, usize), String>) {
        match <ParticipantFields as Wire>::decode(buf) {
            Ok(((id, (p_type, (metadata, (total_tx, (success_tx, (dispute_count, (dispute_won, (rating_sum, (rating_count, (total_volume, (total_settled, (registered_at, (last_activity_at, is_active))))))))))))), n)) => {
                Ok((Participant { id, p_type, metadata, total_tx, success_tx, dispute_count, dispute_won, rating_sum, rating_count, total_volume, total_settled, registered_at, last_activity_at, is_active }, n))
            },
            Err(e) => Err(e),
        }
    }
}

impl RCWBalance {
    /// The fields in the order in which they are written.
    pub open spec fn fields(self) -> (Id, (u64, u64)) {
        (self.owner, (self.earned, self.purchased))
    }
}

impl Wire for RCWBalance {
    type Model = RCWBalance;

    open spec fn model(&self) -> RCWBalance {
        *self
    }

    open spec fn bytes(m: RCWBalance) -> Seq<u8> {
        <(Id, (u64, u64)) as Wire>::bytes(m.fields())
    }

    open spec fn refusal(s: Seq<u8>) -> Seq<char> {
        <(Id, (u64, u64)) as Wire>::refusal(s)
    }

    proof fn lemma_nonempty(m: RCWBalance) {
        <(Id, (u64, u64)) as Wire>::lemma_nonempty(m.fields());
    }

    proof fn lemma_unique(a: RCWBalance, b: RCWBalance, s: Seq<u8>) {
        <(Id, (u64, u64)) as Wire>::lemma_unique(a.fields(), b.fields(), s);
    }

    fn encode(&self, out: &mut Vec<u8>) {
        (self.owner, (self.earned, self.purchased)).encode(out);
    }

    fn decode(buf: &[u8]) -> (r: Result<(RCWBalance, usize), String>) {
        match <(Id, (u64, u64)) as Wire>::decode(buf) {
            Ok(((owner, (earned, purchased)), n)) => Ok((RCWBalance { owner, earned, purchased }, n)),
            Err(e) => Err(e),
        }
    }
}

impl EscrowState {
    /// The place of the state in the record format.
    pub open spec fn index(self) -> u32 {
        match self {
            EscrowState::Created => 0,
            EscrowState::Funded => 1,
            EscrowState::Released => 2,
            EscrowState::Refunded => 3,
            EscrowState::Disputed => 4,
        }
    }
}

impl Wire for EscrowState {
    type Model = EscrowState;

    open spec fn model(&self) -> EscrowState {
        *self
    }

    open spec fn bytes(m: EscrowState) -> Seq<u8> {
        u32::bytes(m.index())
    }

    open spec fn refusal(s: Seq<u8>) -> Seq<char> {
        match parsed::<u32>(s) {
            None => u32::refusal(s),
            Some(i) => form_refusal(i, 5),
        }
    }

    proof fn lemma_nonempty(m: EscrowState) {
        u32::lemma_nonempty(m.index());
    }

    proof fn lemma_unique(a: EscrowState, b: EscrowState, s: Seq<u8>) {
        u32::lemma_unique(a.index(), b.index(), s);
    }

    fn encode(&self, out: &mut Vec<u8>) {
        let i: u32 = match *self {
            EscrowState::Created => 0,
            EscrowState::Funded => 1,
            EscrowState::Released => 2,
            EscrowState::Refunded => 3,
            EscrowState::Disputed => 4,
        };
        i.encode(out);
    }

    fn decode(buf: &[u8]) -> (r: Result<(EscrowState, usize), String>) {
        match u32::decode(buf) {
            Err(e) => Err(e),
            Ok((i, n)) => {
                proof {
                    assert(u32::bytes(i).is_prefix_of(buf@)) by {
                        assert(buf@.take(n as int) =~= buf@.subrange(0, n as int));
                    }
                    assert(buf@.len() == buf.len());
                    lemma_parsed::<u32>(i, buf@);
                    assert forall|m: EscrowState| (#[trigger] Self::bytes(m)).is_prefix_of(buf@) implies m.index() == i by {
                        assert(buf@.len() == buf.len());
                        u32::lemma_unique(m.index(), i, buf@);
                    }
                }
                match i {
                    0 => Ok((EscrowState::Created, n)),
                    1 => Ok((EscrowState::Funded, n)),
                    2 => Ok((EscrowState::Released, n)),
                    3 => Ok((EscrowState::Refunded, n)),
                    4 => Ok((EscrowState::Disputed, n)),
                    _ => Err(unknown_form(i, 5)),
                }
            },
        }
    }
}

impl DisputeState {
    /// The place of the state in the record format.
    pub open spec fn index(self) -> u32 {
        match self {
            DisputeState::Raised => 0,
            DisputeState::Evidence => 1,
            DisputeState::Voting => 2,
            DisputeState::Resolved => 3,
        }
    }
}

impl Wire for DisputeState {
    type Model = DisputeState;

    open spec fn model(&self) -> DisputeState {
        *self
    }

    open spec fn bytes(m: DisputeState) -> Seq<u8> {
        u32::bytes(m.index())
    }

    open spec fn refusal(s: Seq<u8>) -> Seq<char> {
        match parsed::<u32>(s) {
            None => u32::refusal(s),
            Some(i) => form_refusal(i, 4),
        }
    }

    proof fn lemma_nonempty(m: DisputeState) {
        u32::lemma_nonempty(m.index());
    }

    proof fn lemma_unique(a: DisputeState, b: DisputeState, s: Seq<u8>) {
        u32::lemma_unique(a.index(), b.index(), s);
    }

    fn encode(&self, out: &mut Vec<u8>) {
        let i: u32 = match *self {
            DisputeState::Raised => 0,
            DisputeState::Evidence => 1,
            DisputeState::Voting => 2,
            DisputeState::Resolved => 3,
        };
        i.encode(out);
    }

    fn decode(buf: &[u8]) -> (r: Result<(DisputeState, usize), String>) {
        match u32::decode(buf) {
            Err(e) => Err(e),
            Ok((i, n)) => {
                proof {
                    assert(u32::bytes(i).is_prefix_of(buf@)) by {
                        assert(buf@.take(n as int) =~= buf@.subrange(0, n as int));
                    }
                    assert(buf@.len() == buf.len());
                    lemma_parsed::<u32>(i, buf@);
                    assert forall|m: DisputeState| (#[trigger] Self::bytes(m)).is_prefix_of(buf@) implies m.index() == i by {
                        assert(buf@.len() == buf.len());
                        u32::lemma_unique(m.index(), i, buf@);
                    }
                }
                match i {
                    0 => Ok((DisputeState::Raised, n)),
                    1 => Ok((DisputeState::Evidence, n)),
                    2 => Ok((DisputeState::Voting, n)),
                    3 => Ok((DisputeState::Resolved, n)),
                    _ => Err(unknown_form(i, 4)),
                }
            },
        }
    }
}

/// The fields as they are written.
pub type EscrowFields = (Id, (Id, (Id, (u64, (EscrowState, (i64, (i64, (Option<[u8; 32]>, Option<Id>))))))));

impl Escrow {
    /// The fields in the order in which they are written.
    pub open spec fn fields(self) -> (Id, (Id, (Id, (u64, (EscrowState, (i64, (i64, (Option<[u8; 32]>, Option<Id>)))))))) {
        (self.id, (self.buyer, (self.seller, (self.amount, (self.state, (self.created_at, (self.expires_at, (self.evidence_hash, self.dispute_id))))))))
    }
}

impl Wire for Escrow {
    type Model = Escrow;

    open spec fn model(&self) -> Escrow {
        *self
    }

    open spec fn bytes(m: Escrow) -> Seq<u8> {
        <EscrowFields as Wire>::bytes(m.fields())
    }

    open spec fn refusal(s: Seq<u8>) -> Seq<char> {
        <EscrowFields as Wire>::refusal(s)
    }

    proof fn lemma_nonempty(m: Escrow) {
        <EscrowFields as Wire>::lemma_nonempty(m.fields());
    }

    proof fn lemma_unique(a: Escrow, b: Escrow, s: Seq<u8>) {
        <EscrowFields as Wire>::lemma_unique(a.fields(), b.fields(), s);
    }

    fn encode(&self, out: &mut Vec<u8>) {
        let fields: EscrowFields = (self.id, (self.buyer, (self.seller, (self.amount, (self.state, (self.created_at, (self.expires_at, (self.evidence_hash, self.dispute_id))))))));
        fields.encode(out);
    }

    fn decode(buf: &[u8]) -> (r: Result<(Escrow, usize), String>) {
        match <EscrowFields as Wire>::decode(buf) {
            Ok(((id, (buyer, (seller, (amount, (state, (created_at, (expires_at, (evidence_hash, dispute_id)))))))), n)) => {
                Ok((Escrow { id, buyer, seller, amount, state, created_at, expires_at, evidence_hash, dispute_id }, n))
            },
            Err(e) => Err(e),
        }
    }
}

impl DisputeVote {
    /// The fields in the order in which they are written.
    pub open spec fn fields(self) -> (Id, (u8, i64)) {
        (self.voter, (self.decision, self.voted_at))
    }
}

impl Wire for DisputeVote {
    type Model = DisputeVote;

    open spec fn model(&self) -> DisputeVote {
        *self
    }

    open spec fn bytes(m: DisputeVote) -> Seq<u8> {
        <(Id, (u8, i64)) as Wire>::bytes(m.fields())
    }

    open spec fn refusal(s: Seq<u8>) -> Seq<char> {
        <(Id, (u8, i64)) as Wire>::refusal(s)
    }

    proof fn lemma_nonempty(m: DisputeVote) {
        <(Id, (u8, i64)) as Wire>::lemma_nonempty(m.fields());
    }

    proof fn lemma_unique(a: DisputeVote, b: DisputeVote, s: Seq<u8>) {
        <(Id, (u8, i64)) as Wire>::lemma_unique(a.fields(), b.fields(), s);
    }

    fn encode(&self, out: &mut Vec<u8>) {
        (self.voter, (self.decision, self.voted_at)).encode(out);
    }

    fn decode(buf: &[u8]) -> (r: Result<(DisputeVote, usize), String>) {
        match <(Id, (u8, i64)) as Wire>::decode(buf) {
            Ok(((voter, (decision, voted_at)), n)) => Ok((DisputeVote { voter, decision, voted_at }, n)),
            Err(e) => Err(e),
        }
    }
}

/// The fields as they are written.
pub type DisputeFields = ((Id, (Id, (Id, u8))), (Vec<[u8; 32]>, (Vec<DisputeVote>, (DisputeState, (Option<u8>, (i64, Option<i64>))))));

impl DisputeView {
    /// The fields in the order in which they are written.
    pub open spec fn fields(self) -> ((Id, (Id, (Id, u8))), (Seq<[u8; 32]>, (Seq<DisputeVote>, (DisputeState, (Option<u8>, (i64, Option<i64>)))))) {
        ((self.id, (self.escrow_id, (self.raised_by, self.reason))), (self.evidence_hashes, (self.votes, (self.state, (self.resolution, (self.raised_at, self.resolved_at))))))
    }
}

impl Wire for Dispute {
    type Model = DisputeView;

    open spec fn model(&self) -> DisputeView {
        self@
    }

    open spec fn bytes(m: DisputeView) -> Seq<u8> {
        <DisputeFields as Wire>::bytes(m.fields())
    }

    open spec fn refusal(s: Seq<u8>) -> Seq<char> {
        <DisputeFields as Wire>::refusal(s)
    }

    proof fn lemma_nonempty(m: DisputeView) {
        <DisputeFields as Wire>::lemma_nonempty(m.fields());
    }

    proof fn lemma_unique(a: DisputeView, b: DisputeView, s: Seq<u8>) {
        <DisputeFields as Wire>::lemma_unique(a.fields(), b.fields(), s);
    }

    fn encode(&self, out: &mut Vec<u8>) {
        let ghost before = out@;
        let head = (self.id, (self.escrow_id, (self.raised_by, self.reason)));
        let tail: (DisputeState, (Option<u8>, (i64, Option<i64>))) = (self.state, (self.resolution, (self.raised_at, self.resolved_at)));
        head.encode(out);
        self.evidence_hashes.encode(out);
        self.votes.encode(out);
        tail.encode(out);
        assert(self.evidence_hashes.model() =~= self.evidence_hashes@);
        assert(self.votes.model() =~= self.votes@);
        assert(out@ =~= before + Self::bytes(self@));
    }

    fn decode(buf: &[u8]) -> (r: Result<(Dispute, usize), String>) {
        match <DisputeFields as Wire>::decode(buf) {
            Ok((((id, (escrow_id, (raised_by, reason))), (evidence_hashes, (votes, (state, (resolution, (raised_at, resolved_at)))))), n)) => {
                assert(evidence_hashes.model() =~= evidence_hashes@);
                assert(votes.model() =~= votes@);
                Ok((Dispute { id, escrow_id, raised_by, reason, evidence_hashes, votes, state, resolution, raised_at, resolved_at }, n))
            },
            Err(e) => Err(e),
        }
    }
}

/// The fields as they are written.
pub type SettlementFields = (Id, (Id, (u64, (u64, (u64, ([u8; 4], (i64, i64)))))));

impl SettlementRecord {
    /// The fields in the order in which they are written.
    pub open spec fn fields(self) -> (Id, (Id, (u64, (u64, (u64, ([u8; 4], (i64, i64))))))) {
        (self.record_id, (self.participant_id, (self.gross_amount, (self.platform_fee, (self.net_amount, (self.currency, (self.settled_at, self.recorded_at)))))))
    }
}

impl Wire for SettlementRecord {
    type Model = SettlementRecord;

    open spec fn model(&self) -> SettlementRecord {
        *self
    }

    open spec fn bytes(m: SettlementRecord) -> Seq<u8> {
        <SettlementFields as Wire>::bytes(m.fields())
    }

    open spec fn refusal(s: Seq<u8>) -> Seq<char> {
        <SettlementFields as Wire>::refusal(s)
    }

    proof fn lemma_nonempty(m: SettlementRecord) {
        <SettlementFields as Wire>::lemma_nonempty(m.fields());
    }

    proof fn lemma_unique(a: SettlementRecord, b: SettlementRecord, s: Seq<u8>) {
        <SettlementFields as Wire>::lemma_unique(a.fields(), b.fields(), s);
    }

    fn encode(&self, out: &mut Vec<u8>) {
        (self.record_id, (self.participant_id, (self.gross_amount, (self.platform_fee, (self.net_amount, (self.currency, (self.settled_at, self.recorded_at))))))).encode(out);
    }

    fn decode(buf: &[u8]) -> (r: Result<(SettlementRecord, usize), String>) {
        match <SettlementFields as Wire>::decode(buf) {
            Ok(((record_id, (participant_id, (gross_amount, (platform_fee, (net_amount, (currency, (settled_at, recorded_at))))))), n)) => {
                Ok((SettlementRecord { record_id, participant_id, gross_amount, platform_fee, net_amount, currency, settled_at, recorded_at }, n))
            },
            Err(e) => Err(e),
        }
    }
}

/// The fields as they are written.
pub type AnchorFields = (Id, ([u8; 32], (u64, (u64, (u64, i64)))));

impl AnchorRecord {
    /// The fields in the order in which they are written.
    pub open spec fn fields(self) -> (Id, ([u8; 32], (u64, (u64, (u64, i64))))) {
        (self.batch_id, (self.merkle_root, (self.entry_count, (self.from_entry_id, (self.to_entry_id, self.anchored_at)))))
    }
}

impl Wire for AnchorRecord {
    type Model = AnchorRecord;

    open spec fn model(&self) -> AnchorRecord {
        *self
    }

    open spec fn bytes(m: AnchorRecord) -> Seq<u8> {
        <AnchorFields as Wire>::bytes(m.fields())
    }

    open spec fn refusal(s: Seq<u8>) -> Seq<char> {
        <AnchorFields as Wire>::refusal(s)
    }

    proof fn lemma_nonempty(m: AnchorRecord) {
        <AnchorFields as Wire>::lemma_nonempty(m.fields());
    }

    proof fn lemma_unique(a: AnchorRecord, b: AnchorRecord, s: Seq<u8>) {
        <AnchorFields as Wire>::lemma_unique(a.fields(), b.fields(), s);
    }

    fn encode(&self, out: &mut Vec<u8>) {
        (self.batch_id, (self.merkle_root, (self.entry_count, (self.from_entry_id, (self.to_entry_id, self.anchored_at))))).encode(out);
    }

    fn decode(buf: &[u8]) -> (r: Result<(AnchorRecord, usize), String>) {
        match <AnchorFields as Wire>::decode(buf) {
            Ok(((batch_id, (merkle_root, (entry_count, (from_entry_id, (to_entry_id, anchored_at))))), n)) => {
                Ok((AnchorRecord { batch_id, merkle_root, entry_count, from_entry_id, to_entry_id, anchored_at }, n))
            },
            Err(e) => Err(e),
        }
    }
}

} // verus!
