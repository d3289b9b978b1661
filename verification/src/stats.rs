//! The summary of one burst: shortest, longest, mean and median round-trip
//! time in milliseconds, and the share of probes that went unanswered.
//!
//! Round-trip times come in as whole nanoseconds. Every statistic goes out
//! as an exact fraction, so the summary of a burst is a matter of integer
//! arithmetic alone.

use vstd::prelude::*;
use vstd::seq_lib::*;
use crate::order::{
    ascending, in_order, lemma_ascending, lemma_ascending_of_rearranged, lemma_ascending_unique,
    sorted_copy,
};
use crate::ratio::{Fraction, Ratio};

verus! {

/// How many nanoseconds make a millisecond.
pub const NANOS_PER_MILLI: u64 = 1_000_000;

/// What every time statistic reads when no probe of the burst was answered.
pub const UNDEFINED: i64 = -1;

/// The loss, in percent, of a burst in which no probe was answered.
pub const TOTAL_LOSS: i64 = 100;

/// The mathematical summary of a burst. Times are in milliseconds, `loss`
/// is in percent.
pub struct Summary {
    pub min: Fraction,
    pub max: Fraction,
    pub avg: Fraction,
    pub median: Fraction,
    pub loss: Fraction,
}

/// The summary of a burst in machine integers.
#[derive(Clone, Copy, Debug, PartialEq, Eq)]
pub struct RttSummary {
    pub min: Ratio,
    pub max: Ratio,
    pub avg: Ratio,
    pub median: Ratio,
    pub loss: Ratio,
}

impl View for RttSummary {
    type V = Summary;

    open spec fn view(&self) -> Summary {
        Summary {
            min: self.min@,
            max: self.max@,
            avg: self.avg@,
            median: self.median@,
            loss: self.loss@,
        }
    }
}

/// The shortest time in `s`.
pub open spec fn lowest(s: Seq<u64>) -> u64
    recommends
        s.len() > 0,
{
    ascending(s).first()
}

/// The longest time in `s`.
pub open spec fn highest(s: Seq<u64>) -> u64
    recommends
        s.len() > 0,
{
    ascending(s).last()
}

/// The sum of the times in `s`.
pub open spec fn total(s: Seq<u64>) -> int
    decreases s.len(),
{
    if s.len() == 0 {
        0
    } else {
        total(s.drop_last()) + s.last()
    }
}

/// The median of the times in `s`, in milliseconds: the middle one in
/// ascending order where their number is odd, the mean of the two middle
/// ones where it is even.
pub open spec fn median_of(s: Seq<u64>) -> Fraction
    recommends
        s.len() > 0,
{
    let a = ascending(s);
    let mid = a.len() as int / 2;
    if a.len() % 2 == 0 {
        Fraction { num: a[mid - 1] + a[mid], den: 2 * NANOS_PER_MILLI }
    } else {
        Fraction { num: a[mid] as int, den: NANOS_PER_MILLI as int }
    }
}

/// The summary that stands for "no probe was answered": every time is
/// [`UNDEFINED`], and the loss is [`TOTAL_LOSS`].
pub open spec fn sentinel() -> Summary {
    Summary {
        min: Fraction::whole(UNDEFINED as int),
        max: Fraction::whole(UNDEFINED as int),
        avg: Fraction::whole(UNDEFINED as int),
        median: Fraction::whole(UNDEFINED as int),
        loss: Fraction::whole(TOTAL_LOSS as int),
    }
}

/// The summary of a burst of `expected` probes of which those in `s` were
/// answered, `s` holding their round-trip times in nanoseconds.
pub open spec fn summary_of(s: Seq<u64>, expected: int) -> Summary
    recommends
        s.len() <= expected,
{
    if s.len() == 0 {
        sentinel()
    } else {
        Summary {
            min: Fraction { num: lowest(s) as int, den: NANOS_PER_MILLI as int },
            max: Fraction { num: highest(s) as int, den: NANOS_PER_MILLI as int },
            avg: Fraction { num: total(s), den: s.len() * NANOS_PER_MILLI },
            median: median_of(s),
            loss: Fraction { num: (expected - s.len()) * 100, den: expected },
        }
    }
}

/// The shortest time of a non-empty `s` occurs in `s` and no time in `s`
/// is shorter; likewise the longest.
pub proof fn lemma_extremes(s: Seq<u64>)
    requires
        s.len() > 0,
    ensures
        s.contains(lowest(s)),
        s.contains(highest(s)),
        forall|i: int| 0 <= i < s.len() ==> lowest(s) <= #[trigger] s[i] <= highest(s),
{
    broadcast use group_to_multiset_ensures;

    lemma_ascending(s);
    let a = ascending(s);
    assert(a.contains(a.first()));
    assert(a.contains(a.last()));
    assert(s.to_multiset().count(a.first()) > 0);
    assert(s.to_multiset().count(a.last()) > 0);
    assert forall|i: int| 0 <= i < s.len() implies lowest(s) <= #[trigger] s[i] <= highest(s) by {
        assert(s.contains(s[i]));
        assert(a.to_multiset().count(s[i]) > 0);
        assert(a.contains(s[i]));
        let k = choose|k: int| 0 <= k < a.len() && a[k] == s[i];
        assert(a[0] <= a[k] <= a[a.len() - 1]);
    }
}

/// A time that occurs in `s` and that no time in `s` undercuts is the
/// shortest; one that none exceeds is the longest.
pub proof fn lemma_extremes_unique(s: Seq<u64>, lo: u64, hi: u64)
    requires
        s.contains(lo),
        s.contains(hi),
        forall|i: int| 0 <= i < s.len() ==> lo <= #[trigger] s[i] <= hi,
    ensures
        lo == lowest(s),
        hi == highest(s),
{
    lemma_extremes(s);
    let i = choose|i: int| 0 <= i < s.len() && s[i] == lo;
    let j = choose|j: int| 0 <= j < s.len() && s[j] == hi;
    let a = choose|a: int| 0 <= a < s.len() && s[a] == lowest(s);
    let b = choose|b: int| 0 <= b < s.len() && s[b] == highest(s);
    assert(lo <= s[a] && s[i] >= lowest(s));
    assert(hi >= s[b] && s[j] <= highest(s));
}

/// The sum of `s` lies between its length times a lower bound of its
/// elements and its length times an upper bound of them.
pub proof fn lemma_total_bounds(s: Seq<u64>, lo: int, hi: int)
    requires
        forall|i: int| 0 <= i < s.len() ==> lo <= #[trigger] s[i] <= hi,
    ensures
        s.len() * lo <= total(s) <= s.len() * hi,
    decreases s.len(),
{
    if s.len() > 0 {
        let t = s.drop_last();
        assert forall|i: int| 0 <= i < t.len() implies lo <= #[trigger] t[i] <= hi by {
            assert(t[i] == s[i]);
        }
        lemma_total_bounds(t, lo, hi);
        assert(s.len() * lo == t.len() * lo + lo && s.len() * hi == t.len() * hi + hi)
            by (nonlinear_arith)
            requires
                s.len() == t.len() + 1,
        ;
    }
}

/// Every fraction of a summary has a positive denominator.
pub proof fn lemma_summary_wf(s: Seq<u64>, expected: int)
    requires
        s.len() <= expected,
    ensures
        summary_of(s, expected).min.wf(),
        summary_of(s, expected).max.wf(),
        summary_of(s, expected).avg.wf(),
        summary_of(s, expected).median.wf(),
        summary_of(s, expected).loss.wf(),
{
    if s.len() > 0 {
        assert(s.len() * NANOS_PER_MILLI > 0) by (nonlinear_arith)
            requires
                s.len() > 0,
        ;
    }
}

/// A burst without a single answer has the sentinel summary, however many
/// probes were sent: every time reads -1 and the loss reads 100.
pub proof fn lemma_unanswered(s: Seq<u64>, expected: int)
    requires
        s.len() == 0,
    ensures
        summary_of(s, expected) == sentinel(),
        sentinel().min == Fraction::whole(-1),
        sentinel().max == Fraction::whole(-1),
        sentinel().avg == Fraction::whole(-1),
        sentinel().median == Fraction::whole(-1),
        sentinel().loss == Fraction::whole(100),
{
}

/// The loss of a burst is the share of its probes that went unanswered, in
/// percent: `(expected - received) / expected * 100`, exactly. It lies
/// between 0 and 100.
pub proof fn lemma_loss(s: Seq<u64>, expected: int)
    requires
        s.len() <= expected,
        expected > 0,
    ensures
        summary_of(s, expected).loss.same(
            Fraction { num: (expected - s.len()) * 100, den: expected },
        ),
        Fraction::whole(0).le(summary_of(s, expected).loss),
        summary_of(s, expected).loss.le(Fraction::whole(100)),
{
    let loss = summary_of(s, expected).loss;
    let lost = expected - s.len();
    if s.len() == 0 {
        assert(loss == Fraction::whole(100));
        assert(100 * expected == (lost * 100) * 1);
    } else {
        assert(loss == Fraction { num: lost * 100, den: expected });
        assert(lost * 100 * 1 <= 100 * expected);
    }
    assert(0 * loss.den == 0) by (nonlinear_arith);
}

/// In a burst with at least one answer, the median and the mean both lie
/// between the shortest and the longest time.
pub proof fn lemma_summary_ordered(s: Seq<u64>, expected: int)
    requires
        s.len() > 0,
    ensures
        summary_of(s, expected).min.le(summary_of(s, expected).median),
        summary_of(s, expected).median.le(summary_of(s, expected).max),
        summary_of(s, expected).min.le(summary_of(s, expected).avg),
        summary_of(s, expected).avg.le(summary_of(s, expected).max),
        summary_of(s, expected).min.le(summary_of(s, expected).max),
{
    lemma_ascending(s);
    lemma_extremes(s);
    let a = ascending(s);
    let n = s.len() as int;
    let m = NANOS_PER_MILLI as int;
    let lo = lowest(s) as int;
    let hi = highest(s) as int;
    let mid = n / 2;
    assert(a[0] <= a[mid] <= a[n - 1]);
    if n % 2 == 0 {
        assert(a[0] <= a[mid - 1] <= a[n - 1]);
        let two = a[mid - 1] + a[mid];
        assert(lo * (2 * m) <= two * m && two * m <= hi * (2 * m)) by (nonlinear_arith)
            requires
                2 * lo <= two <= 2 * hi,
                m > 0,
        ;
    } else {
        let one = a[mid] as int;
        assert(lo * m <= one * m && one * m <= hi * m) by (nonlinear_arith)
            requires
                lo <= one <= hi,
                m > 0,
        ;
    }
    lemma_total_bounds(s, lo, hi);
    let sum = total(s);
    assert(lo * (n * m) <= sum * m && sum * m <= hi * (n * m)) by (nonlinear_arith)
        requires
            n * lo <= sum <= n * hi,
            m > 0,
    ;
    assert(lo * m <= hi * m) by (nonlinear_arith)
        requires
            lo <= hi,
            m > 0,
    ;
}

/// A burst in which every probe was answered has no loss, and its median
/// and mean lie between its shortest and its longest time.
pub proof fn lemma_full_burst(s: Seq<u64>, expected: int)
    requires
        s.len() == expected,
        expected > 0,
    ensures
        summary_of(s, expected).loss.same(Fraction::whole(0)),
        summary_of(s, expected).min.le(summary_of(s, expected).median),
        summary_of(s, expected).median.le(summary_of(s, expected).max),
        summary_of(s, expected).min.le(summary_of(s, expected).avg),
        summary_of(s, expected).avg.le(summary_of(s, expected).max),
{
    lemma_summary_ordered(s, expected);
    let loss = summary_of(s, expected).loss;
    assert(loss.num == 0);
    assert(loss.num * 1 == 0 * loss.den) by (nonlinear_arith)
        requires
            loss.num == 0,
    ;
}

/// The median is read off any arrangement `t` of the burst that is in
/// order: the middle element of `t` for an odd number of times, the mean of
/// its two middle elements for an even number.
pub proof fn lemma_median_in_order(s: Seq<u64>, t: Seq<u64>)
    requires
        s.len() > 0,
        in_order(t),
        t.to_multiset() == s.to_multiset(),
    ensures
        t.len() == s.len(),
        s.len() % 2 == 1 ==> median_of(s) == (Fraction {
            num: t[s.len() as int / 2] as int,
            den: NANOS_PER_MILLI as int,
        }),
        s.len() % 2 == 0 ==> median_of(s) == (Fraction {
            num: t[s.len() as int / 2 - 1] + t[s.len() as int / 2],
            den: 2 * NANOS_PER_MILLI,
        }),
{
    lemma_ascending(s);
    lemma_ascending_unique(s, t);
}

/// The median does not depend on the order in which the times came in.
pub proof fn lemma_median_rearranged(s: Seq<u64>, t: Seq<u64>)
    requires
        s.to_multiset() == t.to_multiset(),
    ensures
        median_of(s) == median_of(t),
{
    lemma_ascending_of_rearranged(s, t);
}

/// Neither does any other statistic: two bursts of the same size that hold
/// the same times have the same summary.
pub proof fn lemma_summary_rearranged(s: Seq<u64>, t: Seq<u64>, expected: int)
    requires
        s.to_multiset() == t.to_multiset(),
    ensures
        summary_of(s, expected) == summary_of(t, expected),
{
    broadcast use group_to_multiset_ensures;

    lemma_ascending_of_rearranged(s, t);
    assert(s.len() == s.to_multiset().len() && t.len() == t.to_multiset().len());
    lemma_total_rearranged(s, t);
}

/// The sum does not depend on the order of its terms.
pub proof fn lemma_total_rearranged(s: Seq<u64>, t: Seq<u64>)
    requires
        s.to_multiset() == t.to_multiset(),
    ensures
        total(s) == total(t),
    decreases s.len(),
{
    broadcast use group_to_multiset_ensures;

    assert(s.len() == s.to_multiset().len() && t.len() == t.to_multiset().len());
    if s.len() > 0 {
        let x = s.last();
        assert(s.contains(x));
        assert(t.to_multiset().count(x) > 0);
        assert(t.contains(x));
        let k = choose|k: int| 0 <= k < t.len() && t[k] == x;
        let t1 = t.remove(k);
        assert(s.drop_last() =~= s.remove(s.len() - 1));
        assert(s.drop_last().to_multiset() =~= t1.to_multiset());
        lemma_total_rearranged(s.drop_last(), t1);
        lemma_total_remove(t, k);
    }
}

/// Taking one term out of a sum lowers it by that term.
pub proof fn lemma_total_remove(s: Seq<u64>, k: int)
    requires
        0 <= k < s.len(),
    ensures
        total(s) == total(s.remove(k)) + s[k],
    decreases s.len(),
{
    if k == s.len() - 1 {
        assert(s.remove(k) =~= s.drop_last());
    } else {
        assert(s.remove(k).drop_last() =~= s.drop_last().remove(k));
        assert(s.remove(k).last() == s.last());
        lemma_total_remove(s.drop_last(), k);
    }
}

/// The median, in milliseconds, of the round-trip times of a non-empty
/// burst, which are in nanoseconds. The burst is left as it is: a copy of
/// it is sorted.
pub fn median(burst: &[u64]) -> (r: Ratio)
    requires
        burst.len() > 0,
    ensures
        r@ == median_of(burst@),
{
    let sorted = sorted_copy(burst);
    proof {
        lemma_ascending(burst@);
    }
    let mid: usize = sorted.len() / 2;
    if sorted.len() % 2 == 0 {
        Ratio { num: sorted[mid - 1] as i128 + sorted[mid] as i128, den: 2 * NANOS_PER_MILLI }
    } else {
        Ratio { num: sorted[mid] as i128, den: NANOS_PER_MILLI }
    }
}

/// The summary of a burst of `expected` probes, given the round-trip times
/// in nanoseconds of those that were answered, in the order in which they
/// were sent.
///
/// Without a single answer the summary is the sentinel: no statistic is
/// drawn from an empty burst.
pub fn create_rtt(burst: &[u64], expected: u8) -> (r: RttSummary)
    requires
        burst.len() <= expected,
    ensures
        r@ == summary_of(burst@, expected as int),
        burst.len() == 0 ==> r@ == sentinel(),
        expected > 0 ==> r@.loss.same(
            Fraction { num: (expected - burst.len()) * 100, den: expected as int },
        ),
        r@.min.wf() && r@.max.wf() && r@.avg.wf() && r@.median.wf() && r@.loss.wf(),
{
    proof {
        lemma_summary_wf(burst@, expected as int);
        if expected > 0 {
            lemma_loss(burst@, expected as int);
        }
    }
    if burst.len() == 0 {
        return RttSummary {
            min: Ratio::whole(UNDEFINED),
            max: Ratio::whole(UNDEFINED),
            avg: Ratio::whole(UNDEFINED),
            median: Ratio::whole(UNDEFINED),
            loss: Ratio::whole(TOTAL_LOSS),
        };
    }
    let received: usize = burst.len();
    let mut lo: u64 = burst[0];
    let mut hi: u64 = burst[0];
    let mut sum: u128 = 0;
    let mut i: usize = 0;
    assert(burst@.take(0) =~= Seq::empty());
    while i < received
        invariant
            0 <= i <= received == burst.len() <= 255,
            burst@.contains(lo),
            burst@.contains(hi),
            forall|k: int| 0 <= k < i ==> lo <= #[trigger] burst@[k] <= hi,
            sum == total(burst@.take(i as int)),
            sum <= i * u64::MAX,
        decreases received - i,
    {
        let x: u64 = burst[i];
        proof {
            assert(burst@.take(i + 1).drop_last() =~= burst@.take(i as int));
            assert(burst@.contains(x));
            assert((i + 1) * u64::MAX == i * u64::MAX + u64::MAX) by (nonlinear_arith);
            assert(i * u64::MAX <= 255 * u64::MAX) by (nonlinear_arith)
                requires
                    i <= 255,
            ;
        }
        if x < lo {
            lo = x;
        }
        if x > hi {
            hi = x;
        }
        sum = sum + x as u128;
        i += 1;
    }
    proof {
        assert(burst@.take(received as int) =~= burst@);
        lemma_extremes_unique(burst@, lo, hi);
        assert(received * u64::MAX <= 255 * u64::MAX) by (nonlinear_arith)
            requires
                received <= 255,
        ;
    }
    RttSummary {
        min: Ratio { num: lo as i128, den: NANOS_PER_MILLI },
        max: Ratio { num: hi as i128, den: NANOS_PER_MILLI },
        avg: Ratio { num: sum as i128, den: received as u64 * NANOS_PER_MILLI },
        median: median(burst),
        loss: Ratio { num: (expected as i128 - received as i128) * 100, den: expected as u64 },
    }
}

} // verus!
