//! Statistics aggregator: extrema, arithmetic mean and jitter
//! (population standard deviation, rounded down) over the ordered
//! sample sequence collected by the probe loop.

use vstd::prelude::*;
use crate::protocol::LatencyResults;
use crate::types::DiagError;
use vstd::arithmetic::div_mod::{
    lemma_div_is_ordered, lemma_div_multiples_vanish, lemma_div_pos_is_pos,
};

verus! {

/// Largest accepted round-trip sample: one million seconds, in
/// microseconds. Keeps the squared-deviation sum inside u128.
pub const MAX_SAMPLE_US: u64 = 1000000000000;

/// Sum of a sample sequence.
pub open spec fn spec_sum(s: Seq<u64>) -> int
    decreases s.len(),
{
    if s.len() == 0 {
        0
    } else {
        spec_sum(s.drop_last()) + s.last()
    }
}

/// Smallest element of a non-empty sample sequence.
pub open spec fn spec_min(s: Seq<u64>) -> u64
    recommends
        s.len() > 0,
    decreases s.len(),
{
    if s.len() <= 1 {
        if s.len() == 1 {
            s[0]
        } else {
            0
        }
    } else {
        let m = spec_min(s.drop_last());
        if s.last() < m {
            s.last()
        } else {
            m
        }
    }
}

/// Largest element of a non-empty sample sequence.
pub open spec fn spec_max(s: Seq<u64>) -> u64
    recommends
        s.len() > 0,
    decreases s.len(),
{
    if s.len() <= 1 {
        if s.len() == 1 {
            s[0]
        } else {
            0
        }
    } else {
        let m = spec_max(s.drop_last());
        if s.last() > m {
            s.last()
        } else {
            m
        }
    }
}

/// Arithmetic mean, rounded down.
pub open spec fn spec_avg(s: Seq<u64>) -> int
    recommends
        s.len() > 0,
{
    spec_sum(s) / (s.len() as int)
}

/// Sum of squared deviations from `mu`.
pub open spec fn spec_sq_dev_sum(s: Seq<u64>, mu: int) -> int
    decreases s.len(),
{
    if s.len() == 0 {
        0
    } else {
        spec_sq_dev_sum(s.drop_last(), mu) + (s.last() - mu) * (s.last() - mu)
    }
}

/// Population variance about the rounded-down mean, rounded down.
pub open spec fn spec_variance(s: Seq<u64>) -> int
    recommends
        s.len() > 0,
{
    spec_sq_dev_sum(s, spec_avg(s)) / (s.len() as int)
}

/// `r` is the integer square root of `n`, rounded down.
pub open spec fn is_isqrt(n: int, r: int) -> bool {
    0 <= r && r * r <= n && n < (r + 1) * (r + 1)
}

/// Every sample is at most `MAX_SAMPLE_US`.
pub open spec fn samples_bounded(s: Seq<u64>) -> bool {
    forall|i: int| 0 <= i < s.len() ==> #[trigger] s[i] <= MAX_SAMPLE_US
}

/// The sum of a non-empty sequence lies between `len * min` and
/// `len * max`.
pub proof fn lemma_sum_bounds(s: Seq<u64>)
    requires
        s.len() > 0,
    ensures
        s.len() * (spec_min(s) as int) <= spec_sum(s) <= s.len() * (spec_max(s) as int),
    decreases s.len(),
{
    if s.len() == 1 {
        assert(spec_sum(s) == spec_sum(s.drop_last()) + s.last());
        assert(spec_sum(s.drop_last()) == 0);
    } else {
        let t = s.drop_last();
        lemma_sum_bounds(t);
        assert(spec_min(s) <= spec_min(t) && spec_min(s) <= s.last());
        assert(spec_max(s) >= spec_max(t) && spec_max(s) >= s.last());
        assert(t.len() * (spec_min(t) as int) >= t.len() * (spec_min(s) as int)) by (nonlinear_arith)
            requires
                spec_min(t) >= spec_min(s),
                t.len() >= 0,
        ;
        assert(t.len() * (spec_max(t) as int) <= t.len() * (spec_max(s) as int)) by (nonlinear_arith)
            requires
                spec_max(t) <= spec_max(s),
                t.len() >= 0,
        ;
        assert(s.len() * (spec_min(s) as int) == t.len() * (spec_min(s) as int) + spec_min(s))
            by (nonlinear_arith)
            requires
                s.len() == t.len() + 1,
        ;
        assert(s.len() * (spec_max(s) as int) == t.len() * (spec_max(s) as int) + spec_max(s))
            by (nonlinear_arith)
            requires
                s.len() == t.len() + 1,
        ;
    }
}

/// For any non-empty sample set the extrema bracket the mean, the
/// variance is non-negative, and so is any integer square root of it:
/// `min <= avg <= max` and `jitter >= 0`.
pub proof fn lemma_latency_invariant(s: Seq<u64>)
    requires
        s.len() > 0,
    ensures
        spec_min(s) <= spec_avg(s) <= spec_max(s),
        spec_variance(s) >= 0,
        forall|r: int| is_isqrt(spec_variance(s), r) ==> r >= 0,
{
    let n = s.len() as int;
    lemma_sum_bounds(s);
    lemma_div_is_ordered(n * (spec_min(s) as int), spec_sum(s), n);
    lemma_div_is_ordered(spec_sum(s), n * (spec_max(s) as int), n);
    lemma_div_multiples_vanish(spec_min(s) as int, n);
    lemma_div_multiples_vanish(spec_max(s) as int, n);
    lemma_sq_dev_sum_nonneg(s, spec_avg(s));
    lemma_div_pos_is_pos(spec_sq_dev_sum(s, spec_avg(s)), n);
}

/// The extrema bracket every element of the sequence.
pub proof fn lemma_extrema_bound(s: Seq<u64>)
    requires
        s.len() > 0,
    ensures
        forall|i: int|
            0 <= i < s.len() ==> spec_min(s) <= #[trigger] s[i] <= spec_max(s),
    decreases s.len(),
{
    if s.len() > 1 {
        let t = s.drop_last();
        lemma_extrema_bound(t);
        assert(forall|i: int| 0 <= i < t.len() ==> t[i] == s[i]);
        assert(s[s.len() - 1] == s.last());
    }
}

/// The extrema are themselves elements of the sequence.
pub proof fn lemma_extrema_contained(s: Seq<u64>)
    requires
        s.len() > 0,
    ensures
        s.contains(spec_min(s)),
        s.contains(spec_max(s)),
    decreases s.len(),
{
    if s.len() == 1 {
        assert(s[0] == spec_min(s));
        assert(s[0] == spec_max(s));
    } else {
        let t = s.drop_last();
        lemma_extrema_contained(t);
        assert(forall|i: int| 0 <= i < t.len() ==> t[i] == s[i]);
        assert(s.last() == s[s.len() - 1]);
        if s.last() < spec_min(t) {
            assert(s.contains(spec_min(s)));
        } else {
            let k = choose|k: int| 0 <= k < t.len() && t[k] == spec_min(t);
            assert(s[k] == spec_min(s));
        }
        if s.last() > spec_max(t) {
            assert(s.contains(spec_max(s)));
        } else {
            let k = choose|k: int| 0 <= k < t.len() && t[k] == spec_max(t);
            assert(s[k] == spec_max(s));
        }
    }
}

proof fn lemma_max_bounded(s: Seq<u64>)
    requires
        s.len() > 0,
        samples_bounded(s),
    ensures
        spec_max(s) <= MAX_SAMPLE_US,
    decreases s.len(),
{
    if s.len() > 1 {
        let t = s.drop_last();
        assert(samples_bounded(t)) by {
            assert(forall|i: int| 0 <= i < t.len() ==> t[i] == s[i]);
        }
        lemma_max_bounded(t);
    }
}

proof fn lemma_sq_dev_sum_nonneg(s: Seq<u64>, mu: int)
    ensures
        spec_sq_dev_sum(s, mu) >= 0,
    decreases s.len(),
{
    if s.len() > 0 {
        lemma_sq_dev_sum_nonneg(s.drop_last(), mu);
        assert((s.last() - mu) * (s.last() - mu) >= 0) by (nonlinear_arith);
    }
}

/// Integer square root by bisection: returns `r` with
/// `r * r <= n < (r + 1) * (r + 1)`.
fn isqrt_u128(n: u128) -> (r: u128)
    requires
        n < (1u128 << 126),
    ensures
        is_isqrt(n as int, r as int),
        r < (1u128 << 63),
{
    proof {
        assert(0u128 < (1u128 << 63)) by (bit_vector);
    }
    if n == 0 {
        return 0;
    }
    let mut lo: u128 = 0;
    let mut hi: u128 = 1u128 << 63;
    proof {
        assert((1u128 << 63) as int * (1u128 << 63) as int == (1u128 << 126) as int)
            by (bit_vector);
        assert((1u128 << 126) > 0u128) by (bit_vector);
    }
    while lo + 1 < hi
        invariant
            lo < hi,
            hi <= 1u128 << 63,
            (lo as int) * (lo as int) <= n as int,
            (n as int) < (hi as int) * (hi as int),
        decreases hi - lo,
    {
        let mid = lo + (hi - lo) / 2;
        proof {
            assert(lo < mid < hi);
            assert((1u128 << 63) as int * (1u128 << 63) as int == (1u128 << 126) as int)
                by (bit_vector);
            assert(1u128 << 126 == 0x40000000000000000000000000000000u128) by (bit_vector);
            assert((mid as int) * (mid as int) < (1u128 << 126) as int) by (nonlinear_arith)
                requires
                    0 <= mid as int,
                    (mid as int) < (1u128 << 63) as int,
                    (1u128 << 63) as int * (1u128 << 63) as int == (1u128 << 126) as int,
            ;
        }
        if mid * mid <= n {
            lo = mid;
        } else {
            hi = mid;
        }
    }
    lo
}

/// Computes latency statistics over the collected samples: extrema,
/// rounded-down mean, jitter as the rounded-down population standard
/// deviation, zero loss, and the samples themselves in probe order.
/// Zero samples fail with `InsufficientSamples`.
pub fn compute_latency_results(samples: &Vec<u64>) -> (r: Result<LatencyResults, DiagError>)
    requires
        samples@.len() <= 0xffff_ffff,
        samples_bounded(samples@),
    ensures
        samples@.len() == 0 ==> r == Err::<LatencyResults, DiagError>(
            DiagError::InsufficientSamples,
        ),
        samples@.len() > 0 ==> (r matches Ok(l) && l.min_us == spec_min(samples@) && l.max_us
            == spec_max(samples@) && l.avg_us == spec_avg(samples@) && is_isqrt(
            spec_variance(samples@),
            l.jitter_us as int,
        ) && l.packet_loss_percent == 0 && l.samples@ == samples@ && l.min_us <= l.avg_us
            <= l.max_us),
{
    let n = samples.len();
    if n == 0 {
        return Err(DiagError::InsufficientSamples);
    }
    let mut min: u64 = samples[0];
    let mut max: u64 = samples[0];
    let mut sum: u128 = 0;
    let mut i: usize = 0;
    proof {
        assert(samples@.take(1).drop_last() =~= Seq::<u64>::empty());
    }
    while i < n
        invariant
            n == samples@.len(),
            0 < n <= 0xffff_ffff,
            samples_bounded(samples@),
            i <= n,
            i > 0 ==> min == spec_min(samples@.take(i as int)),
            i > 0 ==> max == spec_max(samples@.take(i as int)),
            i == 0 ==> min == samples@[0] && max == samples@[0],
            sum == spec_sum(samples@.take(i as int)),
            sum <= (i as int) * (MAX_SAMPLE_US as int),
        decreases n - i,
    {
        let x = samples[i];
        proof {
            let t = samples@.take(i + 1);
            assert(t.drop_last() =~= samples@.take(i as int));
            assert(t.last() == samples@[i as int]);
            assert((i as int) * (MAX_SAMPLE_US as int) + (MAX_SAMPLE_US as int) == ((i + 1) as int)
                * (MAX_SAMPLE_US as int)) by (nonlinear_arith);
        }
        if x < min {
            min = x;
        }
        if x > max {
            max = x;
        }
        sum = sum + x as u128;
        i = i + 1;
    }
    proof {
        assert(samples@.take(n as int) =~= samples@);
        lemma_latency_invariant(samples@);
        lemma_max_bounded(samples@);
    }
    let avg: u64 = (sum / (n as u128)) as u64;
    let mut sq_sum: u128 = 0;
    let mut j: usize = 0;
    proof {
        assert(samples@.take(0) =~= Seq::<u64>::empty());
    }
    while j < n
        invariant
            n == samples@.len(),
            0 < n <= 0xffff_ffff,
            samples_bounded(samples@),
            j <= n,
            avg == spec_avg(samples@),
            0 <= avg <= MAX_SAMPLE_US,
            sq_sum == spec_sq_dev_sum(samples@.take(j as int), avg as int),
            sq_sum <= (j as int) * ((MAX_SAMPLE_US as int) * (MAX_SAMPLE_US as int)),
        decreases n - j,
    {
        let x = samples[j];
        let d: u64 = if x >= avg {
            x - avg
        } else {
            avg - x
        };
        proof {
            assert(d <= MAX_SAMPLE_US);
            assert((d as int) * (d as int) <= (MAX_SAMPLE_US as int) * (MAX_SAMPLE_US as int))
                by (nonlinear_arith)
                requires
                    0 <= d as int <= MAX_SAMPLE_US as int,
            ;
        }
        let dd: u128 = (d as u128) * (d as u128);
        proof {
            let t = samples@.take(j + 1);
            assert(t.drop_last() =~= samples@.take(j as int));
            assert(t.last() == samples@[j as int]);
            assert((x as int - avg as int) * (x as int - avg as int) == (d as int) * (d as int))
                by (nonlinear_arith)
                requires
                    d as int == if x as int >= avg as int {
                        x as int - avg as int
                    } else {
                        avg as int - x as int
                    },
            ;
            assert((d as int) * (d as int) <= (MAX_SAMPLE_US as int) * (MAX_SAMPLE_US as int))
                by (nonlinear_arith)
                requires
                    0 <= d as int <= MAX_SAMPLE_US as int,
            ;
            assert((j as int) * ((MAX_SAMPLE_US as int) * (MAX_SAMPLE_US as int)) + (
            MAX_SAMPLE_US as int) * (MAX_SAMPLE_US as int) == ((j + 1) as int) * ((
            MAX_SAMPLE_US as int) * (MAX_SAMPLE_US as int))) by (nonlinear_arith);
            assert((0xffff_ffff as int) * ((MAX_SAMPLE_US as int) * (MAX_SAMPLE_US as int))
                < 0x100000000000000000000000000000000int);
            assert(((j + 1) as int) * ((MAX_SAMPLE_US as int) * (MAX_SAMPLE_US as int)) <= (
            0xffff_ffff as int) * ((MAX_SAMPLE_US as int) * (MAX_SAMPLE_US as int)))
                by (nonlinear_arith)
                requires
                    0 <= j + 1 <= 0xffff_ffff,
            ;
        }
        sq_sum = sq_sum + dd;
        j = j + 1;
    }
    proof {
        assert(samples@.take(n as int) =~= samples@);
        lemma_div_is_ordered(
            spec_sq_dev_sum(samples@, avg as int),
            (n as int) * ((MAX_SAMPLE_US as int) * (MAX_SAMPLE_US as int)),
            n as int,
        );
        lemma_div_multiples_vanish((MAX_SAMPLE_US as int) * (MAX_SAMPLE_US as int), n as int);
        lemma_sq_dev_sum_nonneg(samples@, avg as int);
        lemma_div_pos_is_pos(spec_sq_dev_sum(samples@, avg as int), n as int);
        assert(1u128 << 126 == 0x40000000000000000000000000000000u128) by (bit_vector);
        assert((MAX_SAMPLE_US as int) * (MAX_SAMPLE_US as int) < (1u128 << 126) as int);
    }
    let variance: u128 = sq_sum / (n as u128);
    let jitter128 = isqrt_u128(variance);
    proof {
        assert(jitter128 as int <= MAX_SAMPLE_US as int) by (nonlinear_arith)
            requires
                is_isqrt(variance as int, jitter128 as int),
                variance as int <= (MAX_SAMPLE_US as int) * (MAX_SAMPLE_US as int),
                MAX_SAMPLE_US as int > 0,
        ;
    }
    let jitter: u64 = jitter128 as u64;
    let mut out: Vec<u64> = Vec::new();
    let mut k: usize = 0;
    while k < n
        invariant
            n == samples@.len(),
            k <= n,
            out@ =~= samples@.take(k as int),
        decreases n - k,
    {
        out.push(samples[k]);
        k = k + 1;
    }
    proof {
        assert(samples@.take(n as int) =~= samples@);
    }
    Ok(
        LatencyResults {
            min_us: min,
            max_us: max,
            avg_us: avg,
            jitter_us: jitter,
            packet_loss_percent: 0,
            samples: out,
        },
    )
}

} // verus!
