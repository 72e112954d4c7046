//! Terminal visualization utilities: sparkline, histogram and
//! nearest-rank percentile over the integer sample series.

use vstd::prelude::*;
use crate::stats::{
    lemma_extrema_bound, lemma_extrema_contained, lemma_sum_bounds, spec_max, spec_min, spec_sum,
};
use vstd::arithmetic::div_mod::{
    lemma_div_is_ordered, lemma_div_multiples_vanish, lemma_fundamental_div_mod_converse,
    lemma_div_pos_is_pos,
};
use vstd::multiset::Multiset;
use vstd::relations::sorted_by;
use vstd::string::StringExecFns;
use vstd::seq_lib::lemma_sorted_unique;

verus! {

/// The elements appear in ascending order.
pub open spec fn is_ascending(s: Seq<u64>) -> bool {
    forall|i: int, j: int| 0 <= i <= j < s.len() ==> s[i] <= s[j]
}

/// The unique ascending reordering of a sequence.
pub open spec fn sort_of(s: Seq<u64>) -> Seq<u64> {
    s.sort_by(|x: u64, y: u64| x <= y)
}

/// What `sort_of` promises: same elements, ascending order.
pub proof fn lemma_sort_of_ensures(s: Seq<u64>)
    ensures
        s.to_multiset() =~= sort_of(s).to_multiset(),
        is_ascending(sort_of(s)),
        sort_of(s).len() == s.len(),
{
    let leq = |x: u64, y: u64| x <= y;
    s.lemma_sort_by_ensures(leq);
    assert(is_ascending(sort_of(s))) by {
        assert(sorted_by(sort_of(s), leq));
        assert forall|i: int, j: int| 0 <= i <= j < sort_of(s).len() implies sort_of(s)[i]
            <= sort_of(s)[j] by {
            if i < j {
                assert(leq(sort_of(s)[i], sort_of(s)[j]));
            }
        }
    }
    s.to_multiset_ensures();
    sort_of(s).to_multiset_ensures();
    assert(s.len() == s.to_multiset().len());
    assert(sort_of(s).len() == sort_of(s).to_multiset().len());
    assert(s.to_multiset() == sort_of(s).to_multiset());
}

/// An ascending sequence with the same elements as `s` is `sort_of(s)`.
pub proof fn lemma_sorted_version_unique(s: Seq<u64>, t: Seq<u64>)
    requires
        is_ascending(t),
        t.to_multiset() =~= s.to_multiset(),
    ensures
        t =~= sort_of(s),
{
    let leq = |x: u64, y: u64| x <= y;
    lemma_sort_of_ensures(s);
    assert(sorted_by(t, leq));
    assert(sorted_by(sort_of(s), leq));
    lemma_sorted_unique(t, sort_of(s), leq);
}

/// Returns the elements of `data` in ascending order.
pub fn sorted_copy(data: &Vec<u64>) -> (r: Vec<u64>)
    ensures
        r@ =~= sort_of(data@),
        r@.len() == data@.len(),
{
    broadcast use vstd::seq_lib::group_to_multiset_ensures;

    let mut rest: Vec<u64> = Vec::new();
    let mut i: usize = 0;
    while i < data.len()
        invariant
            i <= data@.len(),
            rest@ =~= data@.take(i as int),
        decreases data@.len() - i,
    {
        rest.push(data[i]);
        i = i + 1;
    }
    proof {
        assert(data@.take(data@.len() as int) =~= data@);
    }
    let mut out: Vec<u64> = Vec::new();
    while rest.len() > 0
        invariant
            out@.to_multiset().add(rest@.to_multiset()) =~= data@.to_multiset(),
            is_ascending(out@),
            forall|a: int, b: int|
                0 <= a < out@.len() && 0 <= b < rest@.len() ==> out@[a] <= rest@[b],
        decreases rest@.len(),
    {
        let mut k: usize = 0;
        let mut m: usize = 0;
        while k < rest.len()
            invariant
                rest@.len() > 0,
                k <= rest@.len(),
                m < rest@.len(),
                forall|j: int| 0 <= j < k ==> rest@[m as int] <= #[trigger] rest@[j],
            decreases rest@.len() - k,
        {
            if rest[k] < rest[m] {
                m = k;
            }
            k = k + 1;
        }
        let ghost old_out = out@;
        let ghost old_rest = rest@;
        let v = rest.remove(m);
        out.push(v);
        proof {
            old_rest.to_multiset_ensures();
            old_out.to_multiset_ensures();
            assert(old_rest.remove(m as int).to_multiset() =~= old_rest.to_multiset().remove(v));
            assert(old_out.push(v).to_multiset() =~= old_out.to_multiset().insert(v));
            assert(old_rest.contains(v)) by {
                assert(old_rest[m as int] == v);
            }
            assert(old_rest.to_multiset().count(v) > 0);
            assert(out@.to_multiset().add(rest@.to_multiset()) =~= data@.to_multiset());
            assert forall|a: int, b: int|
                0 <= a < out@.len() && 0 <= b < rest@.len() implies out@[a] <= rest@[b] by {
                assert(rest@[b] == if b < m { old_rest[b] } else { old_rest[b + 1] });
                if a < out@.len() - 1 {
                    assert(out@[a] == old_out[a]);
                } else {
                    assert(out@[a] == v);
                }
            }
            assert(is_ascending(out@)) by {
                assert forall|a: int, b: int| 0 <= a <= b < out@.len() implies out@[a]
                    <= out@[b] by {
                    if b < out@.len() - 1 {
                        assert(out@[a] == old_out[a] && out@[b] == old_out[b]);
                    } else if a < b {
                        assert(out@[a] == old_out[a] && out@[b] == v);
                        assert(old_rest.contains(v));
                    }
                }
            }
        }
    }
    proof {
        assert(rest@.to_multiset() =~= Multiset::<u64>::empty());
        assert(out@.to_multiset() =~= data@.to_multiset());
        lemma_sorted_version_unique(data@, out@);
        lemma_sort_of_ensures(data@);
    }
    out
}

/// Nearest-rank index for percentile `p` over `n` samples:
/// `round((n - 1) * p / 100)`.
pub open spec fn percentile_index(n: int, p: int) -> int {
    ((n - 1) * p + 50) / 100
}

proof fn lemma_percentile_index_in_range(n: int, p: int)
    requires
        n >= 1,
        0 <= p <= 100,
    ensures
        0 <= percentile_index(n, p) < n,
{
    let n1 = n - 1;
    assert(n1 * p >= 0) by (nonlinear_arith)
        requires
            n1 >= 0,
            p >= 0,
    ;
    lemma_div_pos_is_pos(n1 * p + 50, 100);
    assert(n1 * p <= n1 * 100) by (nonlinear_arith)
        requires
            n1 >= 0,
            p <= 100,
    ;
    lemma_div_is_ordered(n1 * p + 50, n1 * 100 + 50, 100);
    lemma_fundamental_div_mod_converse(n1 * 100 + 50, 100, n1, 50);
    assert(n1 * 100 + 50 == 100 * n1 + 50) by (nonlinear_arith);
}

/// Nearest-rank percentile: the element at index
/// `round((n - 1) * p / 100)` of the ascending reordering of `data`.
/// An empty series gives 0.
pub fn percentile(data: &Vec<u64>, p: u64) -> (r: u64)
    requires
        p <= 100,
    ensures
        data@.len() == 0 ==> r == 0,
        data@.len() > 0 ==> r == sort_of(data@)[percentile_index(data@.len() as int, p as int)],
{
    let n = data.len();
    if n == 0 {
        return 0;
    }
    let sorted = sorted_copy(data);
    proof {
        lemma_percentile_index_in_range(n as int, p as int);
    }
    let idx128: u128 = (((n - 1) as u128) * (p as u128) + 50) / 100;
    proof {
        assert(idx128 as int == percentile_index(n as int, p as int));
    }
    let idx: usize = idx128 as usize;
    sorted[idx]
}

// ---------------------------------------------------------------------
// Sparkline
// ---------------------------------------------------------------------

/// Linear mapping of `v` into the eight intensity levels, rounded to
/// the nearest level: `round((v - mn) / (mx - mn) * 7)`.
pub open spec fn level_of(v: u64, mn: u64, mx: u64) -> int
    recommends
        mn < mx,
        mn <= v <= mx,
{
    (14 * (v - mn) + (mx - mn)) / (2 * (mx - mn))
}

/// The block glyph for an intensity level, lowest to full.
pub open spec fn spec_glyph_char(level: int) -> char {
    if level <= 0 {
        '\u{2581}'
    } else if level == 1 {
        '\u{2582}'
    } else if level == 2 {
        '\u{2583}'
    } else if level == 3 {
        '\u{2584}'
    } else if level == 4 {
        '\u{2585}'
    } else if level == 5 {
        '\u{2586}'
    } else if level == 6 {
        '\u{2587}'
    } else {
        '\u{2588}'
    }
}

/// The glyph drawn for value `v` given the extrema of the series: the
/// mid glyph for a degenerate all-equal series, the mapped level
/// otherwise.
pub open spec fn spark_char(v: u64, mn: u64, mx: u64) -> char {
    if mn == mx {
        '\u{2585}'
    } else {
        spec_glyph_char(level_of(v, mn, mx))
    }
}

/// The `i`-th contiguous chunk of size `k` (the last may be shorter).
pub open spec fn chunk_of(s: Seq<u64>, k: int, i: int) -> Seq<u64>
    recommends
        k >= 1,
        0 <= i,
        i * k < s.len(),
{
    s.subrange(
        i * k,
        if (i + 1) * k <= s.len() {
            (i + 1) * k
        } else {
            s.len() as int
        },
    )
}

/// Rounded-down mean of the `i`-th chunk.
pub open spec fn chunk_mean(s: Seq<u64>, k: int, i: int) -> u64
    recommends
        k >= 1,
        0 <= i,
        i * k < s.len(),
{
    (spec_sum(chunk_of(s, k, i)) / (chunk_of(s, k, i).len() as int)) as u64
}

/// A series longer than `width` is downsampled into contiguous chunks
/// of `len / width` values, each replaced by its mean.
pub open spec fn downsampled(s: Seq<u64>, width: int) -> Seq<u64>
    recommends
        width >= 1,
{
    if s.len() <= width {
        s
    } else {
        let k = s.len() as int / width;
        Seq::new(((s.len() + k - 1) / k) as nat, |i: int| chunk_mean(s, k, i))
    }
}

/// The sparkline of a series: one glyph per (possibly downsampled)
/// point, mapped by `spark_char` over the downsampled extrema.
pub open spec fn spec_sparkline(s: Seq<u64>, width: int) -> Seq<char>
    recommends
        width >= 1,
{
    if s.len() == 0 {
        Seq::empty()
    } else {
        let v = downsampled(s, width);
        Seq::new(v.len(), |i: int| spark_char(v[i], spec_min(v), spec_max(v)))
    }
}

fn min_of(v: &Vec<u64>) -> (r: u64)
    requires
        v@.len() > 0,
    ensures
        r == spec_min(v@),
{
    let mut r = v[0];
    let mut i: usize = 1;
    while i < v.len()
        invariant
            1 <= i <= v@.len(),
            r == spec_min(v@.take(i as int)),
        decreases v@.len() - i,
    {
        proof {
            assert(v@.take(i + 1).drop_last() =~= v@.take(i as int));
            assert(v@.take(i + 1).last() == v@[i as int]);
        }
        if v[i] < r {
            r = v[i];
        }
        i = i + 1;
    }
    proof {
        assert(v@.take(v@.len() as int) =~= v@);
    }
    r
}

fn max_of(v: &Vec<u64>) -> (r: u64)
    requires
        v@.len() > 0,
    ensures
        r == spec_max(v@),
{
    let mut r = v[0];
    let mut i: usize = 1;
    while i < v.len()
        invariant
            1 <= i <= v@.len(),
            r == spec_max(v@.take(i as int)),
        decreases v@.len() - i,
    {
        proof {
            assert(v@.take(i + 1).drop_last() =~= v@.take(i as int));
            assert(v@.take(i + 1).last() == v@[i as int]);
        }
        if v[i] > r {
            r = v[i];
        }
        i = i + 1;
    }
    proof {
        assert(v@.take(v@.len() as int) =~= v@);
    }
    r
}

fn glyph_str(level: u64) -> (r: &'static str)
    ensures
        r@ =~= seq![spec_glyph_char(level as int)],
{
    proof {
        reveal_strlit("\u{2581}");
        reveal_strlit("\u{2582}");
        reveal_strlit("\u{2583}");
        reveal_strlit("\u{2584}");
        reveal_strlit("\u{2585}");
        reveal_strlit("\u{2586}");
        reveal_strlit("\u{2587}");
        reveal_strlit("\u{2588}");
    }
    if level == 0 {
        "\u{2581}"
    } else if level == 1 {
        "\u{2582}"
    } else if level == 2 {
        "\u{2583}"
    } else if level == 3 {
        "\u{2584}"
    } else if level == 4 {
        "\u{2585}"
    } else if level == 5 {
        "\u{2586}"
    } else if level == 6 {
        "\u{2587}"
    } else {
        "\u{2588}"
    }
}

fn exec_level(x: u64, mn: u64, mx: u64) -> (r: u64)
    requires
        mn < mx,
        mn <= x <= mx,
    ensures
        r as int == level_of(x, mn, mx),
        r <= 7,
{
    let d: u128 = (mx - mn) as u128;
    let num: u128 = 14 * ((x - mn) as u128) + d;
    let den: u128 = 2 * d;
    proof {
        lemma_div_pos_is_pos(num as int, den as int);
        lemma_fundamental_div_mod_converse(15 * (d as int), 2 * (d as int), 7, d as int);
        lemma_div_is_ordered(num as int, 15 * (d as int), den as int);
    }
    (num / den) as u64
}

/// Monotone values map to monotone levels.
proof fn lemma_level_monotone(v1: u64, v2: u64, mn: u64, mx: u64)
    requires
        mn < mx,
        mn <= v1 <= v2 <= mx,
    ensures
        level_of(v1, mn, mx) <= level_of(v2, mn, mx),
{
    lemma_div_is_ordered(
        14 * (v1 - mn) + (mx - mn),
        14 * (v2 - mn) + (mx - mn),
        2 * (mx - mn),
    );
}

/// Renders a sample series as one block glyph per point, downsampling
/// by chunk means when the series is longer than `width`.
pub fn sparkline(data: &Vec<u64>, width: usize) -> (r: String)
    requires
        width >= 1,
    ensures
        r@ =~= spec_sparkline(data@, width as int),
{
    let n = data.len();
    if n == 0 {
        return String::new();
    }
    let mut v: Vec<u64> = Vec::new();
    if n > width {
        let k = n / width;
        proof {
            lemma_div_pos_is_pos(n as int, width as int);
            assert(k >= 1) by {
                lemma_div_is_ordered(width as int, n as int, width as int);
                lemma_div_multiples_vanish(1, width as int);
            }
        }
        let mut start: usize = 0;
        proof {
            // the loop invariant needs the product spelled out on entry
            assert(v@.len() == 0);
            assert(v@.len() * k == 0);
        }
        while start < n
            invariant
                n == data@.len(),
                1 <= k,
                n > width >= 1,
                start <= n,
                start < n ==> start == v@.len() * k,
                start == n ==> v@.len() >= 1 && (v@.len() - 1) * k < n <= v@.len() * k,
                v@.len() <= n,
                forall|j: int| 0 <= j < v@.len() ==> v@[j] == chunk_mean(data@, k as int, j),
            decreases n - start,
        {
            let ghost i = v@.len() as int;
            let end = if n - start < k {
                n
            } else {
                start + k
            };
            let mut sum: u128 = 0;
            let mut t: usize = start;
            proof {
                assert(data@.subrange(start as int, start as int) =~= Seq::<u64>::empty());
            }
            while t < end
                invariant
                    n == data@.len(),
                    start <= t <= end <= n,
                    sum == spec_sum(data@.subrange(start as int, t as int)),
                decreases end - t,
            {
                proof {
                    assert(data@.subrange(start as int, t + 1).drop_last() =~= data@.subrange(
                        start as int,
                        t as int,
                    ));
                    assert(data@.subrange(start as int, t + 1).last() == data@[t as int]);
                    let c = data@.subrange(start as int, t + 1);
                    lemma_sum_bounds(c);
                    assert(c.len() * (spec_max(c) as int) <= c.len() * 0xffff_ffff_ffff_ffffu64)
                        by (nonlinear_arith)
                        requires
                            spec_max(c) <= 0xffff_ffff_ffff_ffffu64,
                            c.len() >= 0,
                    ;
                }
                sum = sum + data[t] as u128;
                t = t + 1;
            }
            let cnt = end - start;
            proof {
                let c = data@.subrange(start as int, end as int);
                assert(c.len() == cnt);
                lemma_sum_bounds(c);
                lemma_div_is_ordered(
                    spec_sum(c),
                    (cnt as int) * (spec_max(c) as int),
                    cnt as int,
                );
                lemma_div_multiples_vanish(spec_max(c) as int, cnt as int);
            }
            let mean: u64 = (sum / (cnt as u128)) as u64;
            proof {
                assert((i + 1) * k == i * k + k) by (nonlinear_arith);
                assert(chunk_of(data@, k as int, i) =~= data@.subrange(
                    start as int,
                    end as int,
                ));
                assert(mean == chunk_mean(data@, k as int, i));
            }
            v.push(mean);
            start = end;
            proof {
                assert((i + 1) * k == i * k + k) by (nonlinear_arith);
                assert(i <= i * k) by (nonlinear_arith)
                    requires
                        i >= 0,
                        k >= 1,
                ;
            }
        }
        proof {
            let len = v@.len() as int;
            let r0 = n as int + k - 1 - len * k;
            assert((len - 1) * k == len * k - k) by (nonlinear_arith);
            assert(0 <= r0 < k);
            lemma_fundamental_div_mod_converse(n as int + k - 1, k as int, len, r0);
            assert(v@ =~= downsampled(data@, width as int));
        }
    } else {
        let mut i: usize = 0;
        while i < n
            invariant
                n == data@.len(),
                i <= n,
                v@ =~= data@.take(i as int),
            decreases n - i,
        {
            v.push(data[i]);
            i = i + 1;
        }
        proof {
            assert(data@.take(n as int) =~= data@);
            assert(v@ =~= downsampled(data@, width as int));
        }
    }
    proof {
        if data@.len() > width {
            let k = data@.len() as int / width as int;
            lemma_div_is_ordered(width as int, data@.len() as int, width as int);
            lemma_div_multiples_vanish(1, width as int);
            assert(v@.len() >= 1);
        }
    }
    let mn = min_of(&v);
    let mx = max_of(&v);
    proof {
        lemma_extrema_bound(v@);
        reveal_strlit("\u{2585}");
    }
    let mut out = String::new();
    let mut i: usize = 0;
    if mn == mx {
        while i < v.len()
            invariant
                i <= v@.len(),
                mn == spec_min(v@) && mx == spec_max(v@) && mn == mx,
                out@ =~= Seq::new(i as nat, |j: int| spark_char(v@[j], mn, mx)),
            decreases v@.len() - i,
        {
            proof {
                reveal_strlit("\u{2585}");
            }
            out.append("\u{2585}");
            proof {
                assert(out@ =~= Seq::new((i + 1) as nat, |j: int| spark_char(v@[j], mn, mx)));
            }
            i = i + 1;
        }
    } else {
        while i < v.len()
            invariant
                i <= v@.len(),
                mn == spec_min(v@) && mx == spec_max(v@) && mn < mx,
                forall|j: int| 0 <= j < v@.len() ==> mn <= #[trigger] v@[j] <= mx,
                out@ =~= Seq::new(i as nat, |j: int| spark_char(v@[j], mn, mx)),
            decreases v@.len() - i,
        {
            let lv = exec_level(v[i], mn, mx);
            let g = glyph_str(lv);
            out.append(g);
            proof {
                assert(out@ =~= Seq::new((i + 1) as nat, |j: int| spark_char(v@[j], mn, mx)));
            }
            i = i + 1;
        }
    }
    proof {
        assert(out@ =~= spec_sparkline(data@, width as int));
    }
    out
}

/// In a strictly increasing sequence, every earlier element is
/// strictly below every later one.
proof fn lemma_strict_elems(s: Seq<u64>, a: int, b: int)
    requires
        forall|i: int| 0 <= i < s.len() - 1 ==> #[trigger] s[i] < s[i + 1],
        0 <= a < b < s.len(),
    ensures
        s[a] < s[b],
    decreases b - a,
{
    if a + 1 < b {
        lemma_strict_elems(s, a, b - 1);
    }
}

/// A chunk of a series in range is non-empty and its mean lies between
/// its extrema.
proof fn lemma_chunk_mean_bounds(s: Seq<u64>, k: int, i: int)
    requires
        k >= 1,
        0 <= i,
        i * k < s.len(),
    ensures
        1 <= chunk_of(s, k, i).len() <= k,
        spec_min(chunk_of(s, k, i)) <= chunk_mean(s, k, i) <= spec_max(chunk_of(s, k, i)),
{
    let c = chunk_of(s, k, i);
    assert((i + 1) * k == i * k + k) by (nonlinear_arith);
    assert(c.len() >= 1);
    lemma_sum_bounds(c);
    lemma_div_is_ordered(c.len() * (spec_min(c) as int), spec_sum(c), c.len() as int);
    lemma_div_is_ordered(spec_sum(c), c.len() * (spec_max(c) as int), c.len() as int);
    lemma_div_multiples_vanish(spec_min(c) as int, c.len() as int);
    lemma_div_multiples_vanish(spec_max(c) as int, c.len() as int);
}

/// Chunks of size `k` over a series of length `len` number
/// `(len + k - 1) / k`, and each of them starts inside the series.
proof fn lemma_chunks_cover(len: int, k: int)
    requires
        k >= 1,
        len >= 1,
    ensures
        (len + k - 1) / k >= 1,
        forall|j: int| 0 <= j < (len + k - 1) / k ==> #[trigger] (j * k) < len,
{
    let nchunks = (len + k - 1) / k;
    vstd::arithmetic::div_mod::lemma_fundamental_div_mod(len + k - 1, k);
    assert(k * nchunks >= len);
    assert(nchunks >= 1) by {
        lemma_div_is_ordered(k, len + k - 1, k);
        lemma_div_multiples_vanish(1, k);
    }
    assert forall|j: int| 0 <= j < nchunks implies #[trigger] (j * k) < len by {
        assert((nchunks - 1) * k == nchunks * k - k) by (nonlinear_arith);
        assert(nchunks * k == k * nchunks) by (nonlinear_arith);
        assert(k * nchunks == len + k - 1 - ((len + k - 1) % k));
        assert((nchunks - 1) * k < len);
        assert(j * k <= (nchunks - 1) * k) by (nonlinear_arith)
            requires
                j <= nchunks - 1,
                k >= 1,
        ;
    }
}

/// Downsampling a strictly increasing series gives a strictly
/// increasing series of chunk means.
proof fn lemma_downsampled_strict(s: Seq<u64>, width: int)
    requires
        1 <= width,
        s.len() > width,
        forall|i: int| 0 <= i < s.len() - 1 ==> #[trigger] s[i] < s[i + 1],
    ensures
        downsampled(s, width).len() >= 1,
        forall|i: int|
            0 <= i < downsampled(s, width).len() - 1 ==> #[trigger] downsampled(s, width)[i]
                < downsampled(s, width)[i + 1],
{
    let len = s.len() as int;
    let k = len / width;
    assert(k >= 1) by {
        lemma_div_is_ordered(width, len, width);
        lemma_div_multiples_vanish(1, width);
    }
    let nchunks = (len + k - 1) / k;
    let v = downsampled(s, width);
    assert(v.len() == nchunks);
    lemma_chunks_cover(len, k);
    assert forall|i: int| 0 <= i < v.len() - 1 implies #[trigger] v[i] < v[i + 1] by {
        assert(i * k < len && (i + 1) * k < len);
        lemma_chunk_mean_bounds(s, k, i);
        lemma_chunk_mean_bounds(s, k, i + 1);
        let ci = chunk_of(s, k, i);
        let cj = chunk_of(s, k, i + 1);
        lemma_extrema_contained(ci);
        lemma_extrema_contained(cj);
        let p = choose|p: int| 0 <= p < ci.len() && ci[p] == spec_max(ci);
        let q = choose|q: int| 0 <= q < cj.len() && cj[q] == spec_min(cj);
        assert((i + 1) * k == i * k + k) by (nonlinear_arith);
        assert((i + 2) * k == (i + 1) * k + k) by (nonlinear_arith);
        assert(ci[p] == s[i * k + p]);
        assert(cj[q] == s[(i + 1) * k + q]);
        lemma_strict_elems(s, i * k + p, (i + 1) * k + q);
        assert(v[i] == chunk_mean(s, k, i));
        assert(v[i + 1] == chunk_mean(s, k, i + 1));
    }
}

/// The sparkline of a strictly increasing sample series never
/// decreases in mapped intensity level between consecutive points,
/// downsampled or not.
#[verifier::rlimit(60)]
pub proof fn lemma_sparkline_monotone(s: Seq<u64>, width: int)
    requires
        1 <= s.len(),
        1 <= width,
        forall|i: int| 0 <= i < s.len() - 1 ==> #[trigger] s[i] < s[i + 1],
    ensures
        spec_sparkline(s, width).len() == downsampled(s, width).len(),
        ({
            let v = downsampled(s, width);
            forall|i: int|
                0 <= i < v.len() - 1 ==> #[trigger] level_of(v[i], spec_min(v), spec_max(v))
                    <= level_of(v[i + 1], spec_min(v), spec_max(v))
        }),
        ({
            let v = downsampled(s, width);
            v.len() >= 2 ==> forall|i: int|
                0 <= i < v.len() ==> spec_sparkline(s, width)[i] == spec_glyph_char(
                    #[trigger] level_of(v[i], spec_min(v), spec_max(v)),
                )
        }),
{
    let v = downsampled(s, width);
    if s.len() > width {
        lemma_downsampled_strict(s, width);
    }
    assert(v.len() >= 1);
    assert(forall|i: int| 0 <= i < v.len() - 1 ==> #[trigger] v[i] < v[i + 1]);
    let mn = spec_min(v);
    let mx = spec_max(v);
    lemma_extrema_bound(v);
    if v.len() >= 2 {
        assert(mn <= v[0] < v[1] <= mx);
        assert forall|i: int| 0 <= i < v.len() - 1 implies #[trigger] level_of(v[i], mn, mx)
            <= level_of(v[i + 1], mn, mx) by {
            lemma_level_monotone(v[i], v[i + 1], mn, mx);
        }
    }
}

/// A constant series renders as the mid-intensity glyph repeated for
/// every rendered point, downsampled or not.
pub proof fn lemma_sparkline_constant(s: Seq<u64>, width: int)
    requires
        1 <= s.len(),
        1 <= width,
        forall|i: int| 0 <= i < s.len() ==> #[trigger] s[i] == s[0],
    ensures
        downsampled(s, width).len() >= 1,
        spec_sparkline(s, width) =~= Seq::new(downsampled(s, width).len(), |i: int| '\u{2585}'),
{
    let v = downsampled(s, width);
    if s.len() > width {
        let len = s.len() as int;
        let k = len / width;
        assert(k >= 1) by {
            lemma_div_is_ordered(width, len, width);
            lemma_div_multiples_vanish(1, width);
        }
        lemma_chunks_cover(len, k);
        assert forall|j: int| 0 <= j < v.len() implies #[trigger] v[j] == s[0] by {
            assert(j * k < len);
            assert(j * k >= 0) by (nonlinear_arith)
                requires
                    j >= 0,
                    k >= 1,
            ;
            assert((j + 1) * k == j * k + k) by (nonlinear_arith);
            lemma_chunk_mean_bounds(s, k, j);
            let c = chunk_of(s, k, j);
            lemma_extrema_contained(c);
            let a = choose|a: int| 0 <= a < c.len() && c[a] == spec_min(c);
            let b = choose|b: int| 0 <= b < c.len() && c[b] == spec_max(c);
            assert(c[a] == s[j * k + a] && c[b] == s[j * k + b]);
            assert(spec_min(c) == s[0] && spec_max(c) == s[0]);
        }
    }
    assert(v.len() >= 1);
    lemma_extrema_contained(v);
    assert(spec_min(v) == v[0] && spec_max(v) == v[0]) by {
        let a = choose|a: int| 0 <= a < v.len() && v[a] == spec_min(v);
        let b = choose|b: int| 0 <= b < v.len() && v[b] == spec_max(v);
        if s.len() <= width {
            assert(v[a] == s[0] && v[b] == s[0] && v[0] == s[0]);
        }
    }
}

// ---------------------------------------------------------------------
// Histogram
// ---------------------------------------------------------------------

/// The bin that value `v` falls into: proportional position scaled to
/// the bin count, with the maximum clamped into the last bin.
pub open spec fn bin_index(v: u64, mn: u64, range: u64, bins: int) -> int
    recommends
        range > 0,
        bins > 0,
        mn <= v,
{
    let raw = (v - mn) * bins / (range as int);
    if raw < bins {
        raw
    } else {
        bins - 1
    }
}

/// How many elements of `s` fall into bin `b`.
pub open spec fn spec_bin_count(s: Seq<u64>, mn: u64, range: u64, bins: int, b: int) -> int
    decreases s.len(),
{
    if s.len() == 0 {
        0
    } else {
        spec_bin_count(s.drop_last(), mn, range, bins, b) + if bin_index(s.last(), mn, range, bins)
            == b {
            1int
        } else {
            0int
        }
    }
}

/// The largest count over all bins, at least 1.
pub open spec fn spec_max_count(counts: Seq<usize>) -> int
    decreases counts.len(),
{
    if counts.len() == 0 {
        1
    } else {
        let m = spec_max_count(counts.drop_last());
        if counts.last() > m {
            counts.last() as int
        } else {
            m
        }
    }
}

fn exec_bin_index(v: u64, mn: u64, range: u64, bins: usize) -> (r: usize)
    requires
        range > 0,
        bins > 0,
        mn <= v,
        v - mn <= range,
    ensures
        r as int == bin_index(v, mn, range, bins as int),
        r < bins,
{
    proof {
        assert(((v - mn) as int) * (bins as int) < 0x100000000000000000000000000000000int)
            by (nonlinear_arith)
            requires
                0 <= (v - mn) as int,
                ((v - mn) as int) < 0x10000000000000000int,
                0 <= bins as int,
                (bins as int) < 0x10000000000000000int,
        ;
    }
    let raw128: u128 = ((v - mn) as u128) * (bins as u128) / (range as u128);
    proof {
        assert(((v - mn) as int) * (bins as int) <= (range as int) * (bins as int))
            by (nonlinear_arith)
            requires
                0 <= (v - mn) as int <= range as int,
                bins as int >= 0,
        ;
        lemma_div_is_ordered(
            ((v - mn) as int) * (bins as int),
            (range as int) * (bins as int),
            range as int,
        );
        assert((range as int) * (bins as int) == (bins as int) * (range as int))
            by (nonlinear_arith);
        lemma_div_multiples_vanish(bins as int, range as int);
    }
    let raw = raw128 as usize;
    if raw < bins {
        raw
    } else {
        bins - 1
    }
}

/// Tallies how many samples fall into each of `bins` bins.
fn bin_counts(data: &Vec<u64>, mn: u64, range: u64, bins: usize) -> (r: Vec<usize>)
    requires
        range > 0,
        bins > 0,
        forall|i: int| 0 <= i < data@.len() ==> mn <= #[trigger] data@[i] && data@[i] - mn <= range,
    ensures
        r@.len() == bins,
        forall|b: int|
            0 <= b < bins ==> #[trigger] r@[b] == spec_bin_count(
                data@,
                mn,
                range,
                bins as int,
                b,
            ),
        forall|b: int| 0 <= b < bins ==> #[trigger] r@[b] <= data@.len(),
{
    let mut counts: Vec<usize> = Vec::new();
    let mut b: usize = 0;
    while b < bins
        invariant
            b <= bins,
            counts@.len() == b,
            forall|j: int| 0 <= j < b ==> #[trigger] counts@[j] == 0,
        decreases bins - b,
    {
        counts.push(0);
        b = b + 1;
    }
    proof {
        assert forall|j: int| 0 <= j < bins implies #[trigger] counts@[j] == spec_bin_count(
            data@.take(0),
            mn,
            range,
            bins as int,
            j,
        ) by {
            assert(data@.take(0) =~= Seq::<u64>::empty());
        }
    }
    let mut i: usize = 0;
    while i < data.len()
        invariant
            range > 0,
            bins > 0,
            i <= data@.len(),
            counts@.len() == bins,
            forall|k: int|
                0 <= k < data@.len() ==> mn <= #[trigger] data@[k] && data@[k] - mn <= range,
            forall|j: int|
                0 <= j < bins ==> #[trigger] counts@[j] == spec_bin_count(
                    data@.take(i as int),
                    mn,
                    range,
                    bins as int,
                    j,
                ),
            forall|j: int| 0 <= j < bins ==> #[trigger] counts@[j] <= i,
        decreases data@.len() - i,
    {
        let idx = exec_bin_index(data[i], mn, range, bins);
        let c = counts[idx];
        counts.set(idx, c + 1);
        proof {
            let t = data@.take(i + 1);
            assert(t.drop_last() =~= data@.take(i as int));
            assert(t.last() == data@[i as int]);
        }
        i = i + 1;
    }
    proof {
        assert(data@.take(data@.len() as int) =~= data@);
    }
    counts
}

/// One histogram row: the bin's bounds in milliseconds, an axis tick,
/// and a bar proportional to the bin's share of the largest count.
pub open spec fn spec_hist_row(
    s: Seq<u64>,
    mn: u64,
    range: u64,
    bins: int,
    width: int,
    b: int,
) -> Seq<char> {
    let count = spec_bin_count(s, mn, range, bins, b);
    let maxc = spec_max_count(Seq::new(bins as nat, |j: int| spec_bin_count(s, mn, range, bins, j) as usize));
    let start = mn + b * (range as int) / bins;
    let end = mn + (b + 1) * (range as int) / bins;
    crate::render::spec_pad_left(crate::render::spec_ms1(start), 5) + "-"@
        + crate::render::spec_pad_left(crate::render::spec_ms1(end), 5) + "ms \u{2524}"@
        + crate::render::spec_repeat(seq!['\u{2588}'], count * width / maxc)
}

/// Renders a horizontal bar chart of the sample distribution: one row
/// per bin. An empty series or zero bins give no rows; an all-equal
/// series gives a single note instead.
pub fn histogram(data: &Vec<u64>, bins: usize, width: usize) -> (r: Vec<String>)
    ensures
        data@.len() == 0 || bins == 0 ==> r.deep_view() =~= Seq::<Seq<char>>::empty(),
        data@.len() > 0 && bins > 0 && spec_min(data@) == spec_max(data@) ==> r.deep_view()
            =~= seq!["All values identical"@],
        data@.len() > 0 && bins > 0 && spec_min(data@) != spec_max(data@) ==> r.deep_view()
            =~= Seq::new(
            bins as nat,
            |b: int| spec_hist_row(
                data@,
                spec_min(data@),
                (spec_max(data@) - spec_min(data@)) as u64,
                bins as int,
                width as int,
                b,
            ),
        ),
{
    let mut out: Vec<String> = Vec::new();
    if data.len() == 0 || bins == 0 {
        return out;
    }
    let mn = min_of(data);
    let mx = max_of(data);
    if mn == mx {
        out.push(String::from_str("All values identical"));
        proof {
            assert(out.deep_view() =~= seq!["All values identical"@]);
        }
        return out;
    }
    let range = mx - mn;
    proof {
        lemma_extrema_bound(data@);
    }
    let counts = bin_counts(data, mn, range, bins);
    let mut maxc: usize = 1;
    let mut j: usize = 0;
    proof {
        assert(counts@.take(0) =~= Seq::<usize>::empty());
    }
    while j < counts.len()
        invariant
            j <= counts@.len(),
            maxc as int == spec_max_count(counts@.take(j as int)),
            maxc >= 1,
        decreases counts@.len() - j,
    {
        proof {
            assert(counts@.take(j + 1).drop_last() =~= counts@.take(j as int));
            assert(counts@.take(j + 1).last() == counts@[j as int]);
        }
        if counts[j] > maxc {
            maxc = counts[j];
        }
        j = j + 1;
    }
    proof {
        assert(counts@.take(counts@.len() as int) =~= counts@);
        assert(counts@ =~= Seq::new(
            bins as nat,
            |b: int| spec_bin_count(data@, mn, range, bins as int, b) as usize,
        ));
    }
    let mut b: usize = 0;
    while b < bins
        invariant
            bins > 0,
            range > 0,
            b <= bins,
            mn == spec_min(data@),
            mx == spec_max(data@),
            range == mx - mn,
            counts@.len() == bins,
            forall|k: int|
                0 <= k < bins ==> #[trigger] counts@[k] == spec_bin_count(
                    data@,
                    mn,
                    range,
                    bins as int,
                    k,
                ),
            maxc as int == spec_max_count(counts@),
            maxc >= 1,
            forall|k: int| 0 <= k < bins ==> #[trigger] counts@[k] <= data@.len(),
            out.deep_view() =~= Seq::new(
                b as nat,
                |k: int| spec_hist_row(data@, mn, range, bins as int, width as int, k),
            ),
        decreases bins - b,
    {
        proof {
            reveal_strlit("-");
            reveal_strlit("ms \u{2524}");
            reveal_strlit("\u{2588}");
            assert("-"@ =~= seq!['-']);
            assert("ms \u{2524}"@ =~= seq!['m', 's', ' ', '\u{2524}']);
            assert("\u{2588}"@ =~= seq!['\u{2588}']);
            assert((b as int) * (range as int) <= (bins as int) * (range as int))
                by (nonlinear_arith)
                requires
                    0 <= b as int <= bins as int,
                    range as int >= 0,
            ;
            assert(((b + 1) as int) * (range as int) <= (bins as int) * (range as int))
                by (nonlinear_arith)
                requires
                    0 <= (b + 1) as int <= bins as int,
                    range as int >= 0,
            ;
            lemma_div_is_ordered(
                (b as int) * (range as int),
                (bins as int) * (range as int),
                bins as int,
            );
            lemma_div_is_ordered(
                ((b + 1) as int) * (range as int),
                (bins as int) * (range as int),
                bins as int,
            );
            lemma_div_multiples_vanish(range as int, bins as int);
            lemma_div_pos_is_pos((b as int) * (range as int), bins as int);
            lemma_div_pos_is_pos(((b + 1) as int) * (range as int), bins as int);
            assert((b as int) * (range as int) >= 0) by (nonlinear_arith)
                requires
                    b as int >= 0,
                    range as int >= 0,
            ;
            assert(((b + 1) as int) * (range as int) >= 0) by (nonlinear_arith)
                requires
                    (b + 1) as int >= 0,
                    range as int >= 0,
            ;
        }
        proof {
            assert(((b + 1) as int) * (range as int) < 0x100000000000000000000000000000000int)
                by (nonlinear_arith)
                requires
                    0 <= (b + 1) as int,
                    ((b + 1) as int) <= 0x10000000000000000int,
                    0 <= range as int,
                    (range as int) < 0x10000000000000000int,
            ;
            assert((b as int) * (range as int) < 0x100000000000000000000000000000000int)
                by (nonlinear_arith)
                requires
                    0 <= b as int,
                    (b as int) <= 0x10000000000000000int,
                    0 <= range as int,
                    (range as int) < 0x10000000000000000int,
            ;
        }
        let start: u64 = mn + (((b as u128) * (range as u128)) / (bins as u128)) as u64;
        let end: u64 = mn + ((((b + 1) as u128) * (range as u128)) / (bins as u128)) as u64;
        let count = counts[b];
        proof {
            let cc = count as int;
            let ww = width as int;
            assert(cc * ww <= (data@.len() as int) * ww) by (nonlinear_arith)
                requires
                    0 <= cc <= data@.len() as int,
                    ww >= 0,
            ;
            lemma_bin_count_le_max(counts@, b as int);
            assert(cc * ww <= (maxc as int) * ww) by (nonlinear_arith)
                requires
                    0 <= cc <= maxc as int,
                    ww >= 0,
            ;
            lemma_div_is_ordered(cc * ww, (maxc as int) * ww, maxc as int);
            assert((maxc as int) * ww == ww * (maxc as int)) by (nonlinear_arith);
            lemma_div_multiples_vanish(ww, maxc as int);
            assert(cc * ww < 0x100000000000000000000000000000000int) by (nonlinear_arith)
                requires
                    0 <= cc,
                    cc < 0x10000000000000000int,
                    0 <= ww,
                    ww < 0x10000000000000000int,
            ;
        }
        let barw: usize = (((count as u128) * (width as u128)) / (maxc as u128)) as usize;
        let mut row = crate::render::pad_left(crate::render::fmt_ms1(start), 5);
        row.append("-");
        let e = crate::render::pad_left(crate::render::fmt_ms1(end), 5);
        row.append(e.as_str());
        row.append("ms \u{2524}");
        let bar = crate::render::repeat_str("\u{2588}", barw);
        row.append(bar.as_str());
        let ghost prev = out.deep_view();
        out.push(row);
        proof {
            assert(out.deep_view() =~= prev.push(out@.last()@));
            assert(counts@ =~= Seq::new(
                bins as nat,
                |k: int| spec_bin_count(data@, mn, range, bins as int, k) as usize,
            ));
            assert(out.deep_view() =~= Seq::new(
                (b + 1) as nat,
                |k: int| spec_hist_row(data@, mn, range, bins as int, width as int, k),
            ));
        }
        b = b + 1;
    }
    out
}

/// Every bin's count is at most the largest count.
proof fn lemma_bin_count_le_max(counts: Seq<usize>, b: int)
    requires
        0 <= b < counts.len(),
    ensures
        counts[b] as int <= spec_max_count(counts),
    decreases counts.len(),
{
    if b == counts.len() - 1 {
        assert(counts.last() == counts[b]);
    } else {
        lemma_bin_count_le_max(counts.drop_last(), b);
        assert(counts.drop_last()[b] == counts[b]);
    }
}

} // verus!
