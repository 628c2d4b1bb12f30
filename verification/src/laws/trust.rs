//! What the trust score says of a profile.

use crate::types::state::{active_days, age_fits, dispute_score, full_score, longevity_score, maturity_factor, rating_score, success_score, trust_score, volume_score};
use crate::types::ParticipantView;
use vstd::arithmetic::div_mod::{lemma_div_is_ordered, lemma_fundamental_div_mod, lemma_fundamental_div_mod_converse};
use vstd::prelude::*;

verus! {

/// Is `q` how often `b` goes into `a`?
pub open spec fn goes_into(q: int, a: int, b: int) -> bool {
    q * b <= a < (q + 1) * b
}

/// One where it is so, else nothing.
pub open spec fn one_if(so: bool) -> int {
    if so {
        1
    } else {
        0
    }
}

proof fn lemma_goes_into(a: int, b: int)
    requires
        b > 0,
    ensures
        goes_into(a / b, a, b),
        forall|q: int| #[trigger] goes_into(q, a, b) ==> q == a / b,
{
    lemma_fundamental_div_mod(a, b);
    assert(goes_into(a / b, a, b)) by (nonlinear_arith)
        requires
            a == b * (a / b) + a % b,
            0 <= a % b < b,
    ;
    assert forall|q: int| #[trigger] goes_into(q, a, b) implies q == a / b by {
        assert(0 <= a - q * b < b) by (nonlinear_arith)
            requires
                q * b <= a < (q + 1) * b,
        ;
        lemma_fundamental_div_mod_converse(a, b, q, a - q * b);
    }
}

proof fn lemma_no_less(a: int, b: int, c: int)
    requires
        a <= b,
        c > 0,
    ensures
        a / c <= b / c,
{
    lemma_div_is_ordered(a, b, c);
}

// ── The parts ──

/// The success part is the share of successful transactions, in ten thousandths and
/// rounded down. So it is full marks just where nothing failed, and no marks just
/// where fewer than one in ten thousand succeeded.
pub proof fn law_success_part(p: ParticipantView)
    requires
        p.total_tx > 0,
    ensures
        success_score(p) * p.total_tx <= 10000 * p.success_tx < (success_score(p) + 1) * p.total_tx,
        p.success_tx == p.total_tx ==> success_score(p) == 10000,
        p.success_tx < p.total_tx ==> success_score(p) < 10000,
        p.success_tx == 0 ==> success_score(p) == 0,
{
    let (a, b) = (p.success_tx * 10000, p.total_tx as int);
    lemma_goes_into(a, b);
    if p.success_tx == p.total_tx {
        assert(goes_into(10000, a, b)) by (nonlinear_arith)
            requires
                a == b * 10000,
                b > 0,
        ;
    }
    if p.success_tx < p.total_tx {
        let q = success_score(p);
        assert(q < 10000) by (nonlinear_arith)
            requires
                q * b <= a,
                a < b * 10000,
                b > 0,
        ;
    }
    if p.success_tx == 0 {
        assert(goes_into(0, 0, b)) by (nonlinear_arith)
            requires
                b > 0,
        ;
    }
}

/// Each transaction that succeeds counts: of two profiles with as many transactions,
/// the one with more successes has no smaller success part, and the one without
/// failures the greater one.
pub proof fn law_failures_cost(p: ParticipantView, q: ParticipantView)
    requires
        p.total_tx == q.total_tx,
        p.total_tx > 0,
        p.success_tx < q.success_tx,
    ensures
        success_score(p) <= success_score(q),
        q.success_tx == q.total_tx ==> success_score(p) < success_score(q),
{
    lemma_no_less(p.success_tx * 10000, q.success_tx * 10000, p.total_tx as int);
    law_success_part(p);
    law_success_part(q);
}

/// The dispute part is full marks less three times the share of disputes among the
/// transactions, in ten thousandths and rounded down, and never less than none.
pub proof fn law_dispute_part(p: ParticipantView, rate: int)
    requires
        p.total_tx > 0,
        goes_into(rate, 10000 * p.dispute_count, p.total_tx as int),
    ensures
        3 * rate < 10000 ==> dispute_score(p) == 10000 - 3 * rate,
        3 * rate >= 10000 ==> dispute_score(p) == 0,
        p.dispute_count == 0 ==> dispute_score(p) == 10000,
{
    lemma_goes_into(p.dispute_count * 10000, p.total_tx as int);
    if p.dispute_count == 0 {
        assert(rate == 0) by (nonlinear_arith)
            requires
                rate * p.total_tx <= 0,
                0 < (rate + 1) * p.total_tx,
                p.total_tx > 0,
        ;
    }
}

/// More disputes out of as many transactions never give more marks.
pub proof fn law_disputes_cost(p: ParticipantView, q: ParticipantView)
    requires
        p.total_tx == q.total_tx,
        p.total_tx > 0,
        p.dispute_count <= q.dispute_count,
    ensures
        dispute_score(p) >= dispute_score(q),
{
    lemma_no_less(p.dispute_count * 10000, q.dispute_count * 10000, p.total_tx as int);
}

/// The rating part is two thousand times the average of the ratings, rounded down,
/// and nothing where there are none.
pub proof fn law_rating_part(p: ParticipantView)
    ensures
        p.rating_count == 0 ==> rating_score(p) == 0,
        p.rating_count > 0 ==> rating_score(p) * p.rating_count <= 2000 * p.rating_sum < (rating_score(p) + 1) * p.rating_count,
{
    if p.rating_count > 0 {
        lemma_goes_into(p.rating_sum * 2000, p.rating_count as int);
    }
}

/// The volume part is a quarter of the marks for each of four limits that the volume
/// exceeds: nothing, a hundred thousand, a million and ten million.
pub proof fn law_volume_part(p: ParticipantView)
    ensures
        volume_score(p) == 2500 * (one_if(p.total_volume > 0) + one_if(p.total_volume > 100_000) + one_if(p.total_volume > 1_000_000) + one_if(
            p.total_volume > 10_000_000,
        )),
{
}

/// The part for time is a fifth of the marks, and a fifth more for each of four spans
/// from the registration to the last activity: 31, 91, 181 and 366 whole days of
/// 86400.
pub proof fn law_longevity_part(p: ParticipantView)
    ensures
        ({
            let span = p.last_activity_at - p.registered_at;
            longevity_score(p) == 2000 * (1 + one_if(span >= 31 * 86400) + one_if(span >= 91 * 86400) + one_if(span >= 181 * 86400) + one_if(span >= 366 * 86400))
        }),
{
    let span = p.last_activity_at - p.registered_at;
    if span > 0 {
        assert(active_days(p) == span / 86400);
    }
}

/// How much of the marks counts: three tenths at first, six from the tenth
/// transaction, eight from the fiftieth and all from the hundredth.
pub proof fn law_maturity(p: ParticipantView)
    ensures
        maturity_factor(p) == 3000 + 3000 * one_if(p.total_tx >= 10) + 2000 * one_if(p.total_tx >= 50) + 2000 * one_if(p.total_tx >= 100),
{
}

// ── The score ──

/// What the parts of a profile's score are, said of the profile alone.
pub open spec fn has_parts(p: ParticipantView, success: int, rate: int, rating: int) -> bool {
    &&& goes_into(success, 10000 * p.success_tx, p.total_tx as int)
    &&& goes_into(rate, 10000 * p.dispute_count, p.total_tx as int)
    &&& if p.rating_count == 0 {
        rating == 0
    } else {
        goes_into(rating, 2000 * p.rating_sum, p.rating_count as int)
    }
}

/// The marks of a profile with these parts: success weighs 35 in a hundred, disputes
/// 25, ratings 20, the volume and the time 10 each.
pub open spec fn marks(p: ParticipantView, success: int, rate: int, rating: int) -> int {
    let span = p.last_activity_at - p.registered_at;
    let unscathed = if 3 * rate >= 10000 {
        0
    } else {
        10000 - 3 * rate
    };
    let volume = one_if(p.total_volume > 0) + one_if(p.total_volume > 100_000) + one_if(p.total_volume > 1_000_000) + one_if(p.total_volume > 10_000_000);
    let time = 1 + one_if(span >= 31 * 86400) + one_if(span >= 91 * 86400) + one_if(span >= 181 * 86400) + one_if(span >= 366 * 86400);
    35 * success + 25 * unscathed + 20 * rating + 10 * (2500 * volume) + 10 * (2000 * time)
}

/// The trust score of a profile with transactions: a hundredth of its marks, as far
/// as they count, rounded down, of which the low sixteen bits are kept.
pub proof fn law_trust_score(p: ParticipantView, success: int, rate: int, rating: int, score: int)
    requires
        p.total_tx > 0,
        has_parts(p, success, rate, rating),
        goes_into(
            score,
            marks(p, success, rate, rating) * (3000 + 3000 * one_if(p.total_tx >= 10) + 2000 * one_if(p.total_tx >= 50) + 2000 * one_if(p.total_tx >= 100)),
            1_000_000,
        ),
    ensures
        full_score(p) == score,
        trust_score(p) == score % 65536,
        0 <= score < 65536 ==> trust_score(p) == score,
{
    let total = p.total_tx as int;
    lemma_goes_into(p.success_tx * 10000, total);
    lemma_goes_into(p.dispute_count * 10000, total);
    if p.rating_count > 0 {
        lemma_goes_into(p.rating_sum * 2000, p.rating_count as int);
    }
    law_volume_part(p);
    law_longevity_part(p);
    law_maturity(p);
    let f = maturity_factor(p);
    let m = marks(p, success, rate, rating);
    assert(m == crate::types::state::raw_score(p));
    lemma_goes_into(m * f, 1_000_000);
    vstd::arithmetic::div_mod::lemma_div_denominator(m * f, 10000, 100);
    assert(full_score(p) == score);
}

/// A profile has a score unless it has transactions and the time from its registration
/// to its last activity cannot be reckoned.
pub proof fn law_has_score(p: ParticipantView)
    ensures
        !age_fits(p) <==> p.total_tx > 0 && p.last_activity_at > p.registered_at + i64::MAX,
        p.registered_at >= 0 ==> age_fits(p),
{
}

/// Who has done nothing has no score.
pub proof fn law_no_score_at_first(p: ParticipantView)
    requires
        p.total_tx == 0,
    ensures
        trust_score(p) == 0,
{
}

/// Is `q` the profile `p` with nothing to its disadvantage: as many transactions, no
/// fewer successes, no more disputes, no lower ratings, no less volume and time?
pub open spec fn no_worse(p: ParticipantView, q: ParticipantView) -> bool {
    &&& q.total_tx == p.total_tx
    &&& q.success_tx >= p.success_tx
    &&& q.dispute_count <= p.dispute_count
    &&& q.rating_count == p.rating_count && q.rating_sum >= p.rating_sum
    &&& q.total_volume >= p.total_volume
    &&& q.last_activity_at - q.registered_at >= p.last_activity_at - p.registered_at
}

/// A better profile never has a lower score, but for the bits that are cut off.
pub proof fn law_score_is_fair(p: ParticipantView, q: ParticipantView)
    requires
        no_worse(p, q),
    ensures
        full_score(p) <= full_score(q),
        0 <= full_score(p) && full_score(q) < 65536 ==> trust_score(p) <= trust_score(q),
{
    if p.total_tx > 0 {
        let total = p.total_tx as int;
        lemma_no_less(p.success_tx * 10000, q.success_tx * 10000, total);
        lemma_no_less(q.dispute_count * 10000, p.dispute_count * 10000, total);
        if p.rating_count > 0 {
            lemma_no_less(p.rating_sum * 2000, q.rating_sum * 2000, p.rating_count as int);
        }
        law_volume_part(p);
        law_volume_part(q);
        law_longevity_part(p);
        law_longevity_part(q);
        let (a, b, f) = (crate::types::state::raw_score(p), crate::types::state::raw_score(q), maturity_factor(p));
        assert(a * f <= b * f) by (nonlinear_arith)
            requires
                a <= b,
                f > 0,
        ;
        lemma_no_less(a * f, b * f, 10000);
        lemma_no_less(a * f / 10000, b * f / 10000, 100);
    }
}

} // verus!
