//! Histograms with a fixed number of bins of equal width.
//!
//! The width is the observed range divided by the number of bins, rounded
//! down. Bin `i` starts at `min + i * width`. Every bin but the last is
//! half-open and ends where the next one starts; the last one reaches up to
//! the greatest value and includes it, so that every observation is counted
//! exactly once.
//!
//! Where the range is narrower than the number of bins the width is zero:
//! all bins but the last are then empty and the last holds every value.

use vstd::prelude::*;

verus! {

/// One bin: its bounds and how many observations fell in it.
///
/// `lower` is inclusive. `upper` is exclusive in every bin but the last of a
/// histogram, where it is the greatest observation and inclusive.
#[derive(Debug, Clone, Copy, PartialEq, Eq, Structural)]
pub struct Bin {
    pub lower: u64,
    pub upper: u64,
    pub count: u64,
}

/// Why no histogram could be made.
#[derive(Debug, Clone, Copy, PartialEq, Eq, Structural)]
pub enum HistogramError {
    /// There are no observations, so no least and no greatest one.
    EmptyInput,
}

/// The least value of a non-empty sequence.
pub open spec fn min_of(values: Seq<u64>) -> int
    decreases values.len(),
{
    if values.len() == 0 {
        0
    } else if values.len() == 1 {
        values[0] as int
    } else {
        let m = min_of(values.drop_last());
        if values.last() < m {
            values.last() as int
        } else {
            m
        }
    }
}

/// The greatest value of a non-empty sequence.
pub open spec fn max_of(values: Seq<u64>) -> int
    decreases values.len(),
{
    if values.len() == 0 {
        0
    } else if values.len() == 1 {
        values[0] as int
    } else {
        let m = max_of(values.drop_last());
        if values.last() > m {
            values.last() as int
        } else {
            m
        }
    }
}

/// How many of the values lie in `[lo, hi)`.
pub open spec fn count_between(values: Seq<u64>, lo: int, hi: int) -> nat
    decreases values.len(),
{
    if values.len() == 0 {
        0
    } else {
        count_between(values.drop_last(), lo, hi) + if lo <= values.last() < hi {
            1nat
        } else {
            0nat
        }
    }
}

/// The width of each bin.
pub open spec fn bin_width(values: Seq<u64>, bins: int) -> int {
    (max_of(values) - min_of(values)) / bins
}

/// Where bin `i` starts.
pub open spec fn bin_lower(values: Seq<u64>, bins: int, i: int) -> int {
    min_of(values) + i * bin_width(values, bins)
}

/// The bound that bin `i` shows as its upper one: the start of the next bin,
/// and for the last bin the greatest value.
pub open spec fn bin_upper(values: Seq<u64>, bins: int, i: int) -> int {
    if i == bins - 1 {
        max_of(values)
    } else {
        bin_lower(values, bins, i + 1)
    }
}

/// The first value that is too large for bin `i`.
pub open spec fn bin_end(values: Seq<u64>, bins: int, i: int) -> int {
    if i == bins - 1 {
        max_of(values) + 1
    } else {
        bin_lower(values, bins, i + 1)
    }
}

/// How many values fall in bin `i`.
pub open spec fn bin_count(values: Seq<u64>, bins: int, i: int) -> nat {
    count_between(values, bin_lower(values, bins, i), bin_end(values, bins, i))
}

/// The sum of the counts of some bins.
pub open spec fn total_count(bins: Seq<Bin>) -> nat
    decreases bins.len(),
{
    if bins.len() == 0 {
        0
    } else {
        total_count(bins.drop_last()) + bins.last().count as nat
    }
}

/// The histogram of `values` with `bins` bins.
pub open spec fn bins_of(values: Seq<u64>, bins: nat) -> Seq<Bin> {
    Seq::new(
        bins,
        |i: int|
            Bin {
                lower: bin_lower(values, bins as int, i) as u64,
                upper: bin_upper(values, bins as int, i) as u64,
                count: bin_count(values, bins as int, i) as u64,
            },
    )
}

/// `bins` is the histogram of `values`.
pub open spec fn is_histogram_of(bins: Seq<Bin>, values: Seq<u64>) -> bool {
    forall|i: int|
        0 <= i < bins.len() ==> {
            &&& (#[trigger] bins[i]).lower == bin_lower(values, bins.len() as int, i)
            &&& bins[i].upper == bin_upper(values, bins.len() as int, i)
            &&& bins[i].count == bin_count(values, bins.len() as int, i)
        }
}

/// The least value is one of the values and none is below it; likewise the
/// greatest.
pub proof fn lemma_min_max(values: Seq<u64>)
    requires
        values.len() > 0,
    ensures
        forall|i: int| 0 <= i < values.len() ==> min_of(values) <= #[trigger] values[i] <= max_of(
            values,
        ),
        exists|i: int| 0 <= i < values.len() && values[i] == min_of(values),
        exists|i: int| 0 <= i < values.len() && values[i] == max_of(values),
        0 <= min_of(values) <= max_of(values) <= u64::MAX,
    decreases values.len(),
{
    if values.len() == 1 {
        assert(values[0] == min_of(values));
        assert(values[0] == max_of(values));
    } else {
        let rest = values.drop_last();
        lemma_min_max(rest);
        let a = choose|i: int| 0 <= i < rest.len() && rest[i] == min_of(rest);
        let b = choose|i: int| 0 <= i < rest.len() && rest[i] == max_of(rest);
        assert(values[a] == rest[a]);
        assert(values[b] == rest[b]);
        let last = values.len() - 1;
        assert(values[last] == values.last());
        assert forall|i: int| 0 <= i < values.len() implies min_of(values) <= #[trigger] values[i]
            <= max_of(values) by {
            if i < rest.len() {
                assert(values[i] == rest[i]);
            }
        }
        if values.last() < min_of(rest) {
            assert(values[last] == min_of(values));
        } else {
            assert(values[a] == min_of(values));
        }
        if values.last() > max_of(rest) {
            assert(values[last] == max_of(values));
        } else {
            assert(values[b] == max_of(values));
        }
    }
}

/// No more values lie in a range than there are values.
pub proof fn lemma_count_bounded(values: Seq<u64>, lo: int, hi: int)
    ensures
        count_between(values, lo, hi) <= values.len(),
    decreases values.len(),
{
    if values.len() > 0 {
        lemma_count_bounded(values.drop_last(), lo, hi);
    }
}

/// Two ranges that meet hold together what the range over both holds.
pub proof fn lemma_count_split(values: Seq<u64>, a: int, b: int, c: int)
    requires
        a <= b <= c,
    ensures
        count_between(values, a, b) + count_between(values, b, c) == count_between(values, a, c),
    decreases values.len(),
{
    if values.len() > 0 {
        lemma_count_split(values.drop_last(), a, b, c);
    }
}

/// A range that holds every value counts them all.
pub proof fn lemma_count_all(values: Seq<u64>, lo: int, hi: int)
    requires
        forall|i: int| 0 <= i < values.len() ==> lo <= #[trigger] values[i] < hi,
    ensures
        count_between(values, lo, hi) == values.len(),
    decreases values.len(),
{
    if values.len() > 0 {
        let rest = values.drop_last();
        assert forall|i: int| 0 <= i < rest.len() implies lo <= #[trigger] rest[i] < hi by {
            assert(rest[i] == values[i]);
        }
        lemma_count_all(rest, lo, hi);
        assert(values.last() == values[values.len() - 1]);
    }
}

/// The bins lie in order inside the observed range: each starts where the
/// one before ends, the first at the least value, and none starts beyond the
/// greatest.
pub proof fn lemma_bin_bounds(values: Seq<u64>, bins: int, i: int)
    requires
        values.len() > 0,
        bins >= 1,
        0 <= i < bins,
    ensures
        bin_lower(values, bins, 0) == min_of(values),
        min_of(values) <= bin_lower(values, bins, i) <= bin_upper(values, bins, i) <= max_of(
            values,
        ),
        bin_lower(values, bins, i) <= bin_end(values, bins, i),
        i + 1 < bins ==> bin_end(values, bins, i) == bin_lower(values, bins, i + 1),
        bin_lower(values, bins, i + 1) == bin_lower(values, bins, i) + bin_width(values, bins),
        bin_width(values, bins) >= 0,
{
    lemma_min_max(values);
    let d = max_of(values) - min_of(values);
    let w = bin_width(values, bins);
    assert(w >= 0 && bins * w <= d) by (nonlinear_arith)
        requires
            d >= 0,
            bins >= 1,
            w == d / bins,
    ;
    assert(0 <= i * w && (i + 1) * w == i * w + w && (i + 1) * w <= bins * w) by (nonlinear_arith)
        requires
            0 <= i < bins,
            w >= 0,
    ;
    assert(0 * w == 0);
}

/// The counts of the first `k` bins are the values below the start of bin
/// `k`.
pub proof fn lemma_prefix_total(bins: Seq<Bin>, values: Seq<u64>, n: int, k: int)
    requires
        values.len() > 0,
        n >= 1,
        0 <= k < n,
        bins.len() == k,
        forall|i: int|
            0 <= i < k ==> (#[trigger] bins[i]).count == bin_count(values, n, i),
    ensures
        total_count(bins) == count_between(values, min_of(values), bin_lower(values, n, k)),
    decreases k,
{
    lemma_bin_bounds(values, n, k);
    if k == 0 {
        lemma_count_split(values, min_of(values), min_of(values), min_of(values));
    } else {
        let rest = bins.drop_last();
        assert forall|i: int| 0 <= i < k - 1 implies (#[trigger] rest[i]).count == bin_count(
            values,
            n,
            i,
        ) by {
            assert(rest[i] == bins[i]);
        }
        lemma_prefix_total(rest, values, n, k - 1);
        lemma_bin_bounds(values, n, k - 1);
        assert(bins.last() == bins[k - 1]);
        lemma_count_split(
            values,
            min_of(values),
            bin_lower(values, n, k - 1),
            bin_lower(values, n, k),
        );
    }
}

/// The counts of a histogram add up to the number of observations.
pub proof fn lemma_histogram_total(bins: Seq<Bin>, values: Seq<u64>)
    requires
        values.len() > 0,
        bins.len() >= 1,
        is_histogram_of(bins, values),
        values.len() <= u64::MAX,
    ensures
        total_count(bins) == values.len(),
{
    let n = bins.len() as int;
    let head = bins.drop_last();
    assert forall|i: int| 0 <= i < n - 1 implies (#[trigger] head[i]).count == bin_count(
        values,
        n,
        i,
    ) by {
        assert(head[i] == bins[i]);
        lemma_count_bounded(values, bin_lower(values, n, i), bin_end(values, n, i));
    }
    lemma_prefix_total(head, values, n, n - 1);
    lemma_bin_bounds(values, n, n - 1);
    lemma_min_max(values);
    let top = bins[n - 1];
    assert(bins.last() == top);
    lemma_count_bounded(values, bin_lower(values, n, n - 1), max_of(values) + 1);
    lemma_count_split(
        values,
        min_of(values),
        bin_lower(values, n, n - 1),
        max_of(values) + 1,
    );
    lemma_count_all(values, min_of(values), max_of(values) + 1);
}

/// A histogram has as many bins as were asked for, and their counts add up
/// to the number of observations: every value is counted exactly once.
pub proof fn lemma_bins_of_total(values: Seq<u64>, bins: nat)
    requires
        values.len() > 0,
        values.len() <= u64::MAX,
        bins >= 1,
    ensures
        bins_of(values, bins).len() == bins,
        is_histogram_of(bins_of(values, bins), values),
        total_count(bins_of(values, bins)) == values.len(),
{
    let h = bins_of(values, bins);
    assert forall|i: int| 0 <= i < h.len() implies {
        &&& (#[trigger] h[i]).lower == bin_lower(values, h.len() as int, i)
        &&& h[i].upper == bin_upper(values, h.len() as int, i)
        &&& h[i].count == bin_count(values, h.len() as int, i)
    } by {
        lemma_bin_bounds(values, bins as int, i);
        lemma_min_max(values);
        lemma_count_bounded(
            values,
            bin_lower(values, bins as int, i),
            bin_end(values, bins as int, i),
        );
    }
    lemma_histogram_total(h, values);
}

/// The least and the greatest of the values.
fn min_max(values: &[u64]) -> (r: (u64, u64))
    requires
        values@.len() > 0,
    ensures
        r.0 == min_of(values@),
        r.1 == max_of(values@),
{
    let mut lo = values[0];
    let mut hi = values[0];
    let mut k: usize = 1;
    assert(values@.take(1) =~= seq![values@[0]]);
    while k < values.len()
        invariant
            1 <= k <= values@.len(),
            lo == min_of(values@.take(k as int)),
            hi == max_of(values@.take(k as int)),
        decreases values@.len() - k,
    {
        let v = values[k];
        proof {
            let next = values@.take(k + 1);
            assert(next.drop_last() =~= values@.take(k as int));
            assert(next.last() == v);
        }
        if v < lo {
            lo = v;
        }
        if v > hi {
            hi = v;
        }
        k = k + 1;
    }
    assert(values@.take(k as int) =~= values@);
    (lo, hi)
}

/// Counts the values that are at least `lo` and below `hi`, or up to `hi`
/// where `closed` is set.
fn count_in(values: &[u64], lo: u64, hi: u64, closed: bool) -> (n: u64)
    ensures
        n == count_between(values@, lo as int, if closed { hi + 1 } else { hi as int }),
{
    let ghost end = if closed { hi + 1 } else { hi as int };
    let mut n: u64 = 0;
    let mut k: usize = 0;
    while k < values.len()
        invariant
            k <= values@.len(),
            end == if closed { hi + 1 } else { hi as int },
            n == count_between(values@.take(k as int), lo as int, end),
            n <= k,
        decreases values@.len() - k,
    {
        let v = values[k];
        proof {
            let next = values@.take(k + 1);
            assert(next.drop_last() =~= values@.take(k as int));
            assert(next.last() == v);
        }
        if lo <= v && (v < hi || (closed && v == hi)) {
            n = n + 1;
        }
        k = k + 1;
    }
    assert(values@.take(k as int) =~= values@);
    n
}

/// Bins the values into `bins` bins of equal width.
///
/// Fails on no values, and only then. Otherwise there are exactly `bins`
/// bins, each with the bounds and the count that the module describes, and
/// their counts add up to the number of values.
pub fn histogram(values: &[u64], bins: usize) -> (r: Result<Vec<Bin>, HistogramError>)
    requires
        bins >= 1,
    ensures
        values@.len() == 0 ==> r == Err::<Vec<Bin>, HistogramError>(HistogramError::EmptyInput),
        values@.len() > 0 ==> r is Ok,
        r matches Ok(h) ==> {
            &&& h@.len() == bins
            &&& h@ == bins_of(values@, bins as nat)
            &&& is_histogram_of(h@, values@)
            &&& total_count(h@) == values@.len()
            &&& forall|i: int|
                0 <= i < h@.len() ==> min_of(values@) <= (#[trigger] h@[i]).lower <= h@[i].upper
                    <= max_of(values@)
        },
{
    if values.len() == 0 {
        return Err(HistogramError::EmptyInput);
    }
    let (lo, hi) = min_max(values);
    proof {
        lemma_min_max(values@);
    }
    let width = (hi - lo) / (bins as u64);
    let ghost n = bins as int;
    let mut out: Vec<Bin> = Vec::new();
    let mut lower: u64 = lo;
    let mut i: usize = 0;
    proof {
        lemma_bin_bounds(values@, n, 0);
    }
    while i < bins
        invariant
            n == bins,
            bins >= 1,
            values@.len() > 0,
            i <= bins,
            lo == min_of(values@),
            hi == max_of(values@),
            width == bin_width(values@, n),
            out@.len() == i,
            i < bins ==> lower == bin_lower(values@, n, i as int),
            forall|j: int|
                0 <= j < i ==> {
                    &&& (#[trigger] out@[j]).lower == bin_lower(values@, n, j)
                    &&& out@[j].upper == bin_upper(values@, n, j)
                    &&& out@[j].count == bin_count(values@, n, j)
                },
        decreases bins - i,
    {
        proof {
            lemma_bin_bounds(values@, n, i as int);
            if i + 1 < bins {
                lemma_bin_bounds(values@, n, i + 1);
            }
        }
        let last = i + 1 == bins;
        let upper = if last {
            hi
        } else {
            lower + width
        };
        let count = count_in(values, lower, upper, last);
        out.push(Bin { lower, upper, count });
        lower = upper;
        i = i + 1;
    }
    proof {
        assert(is_histogram_of(out@, values@));
        lemma_histogram_total(out@, values@);
        assert(out@ =~= bins_of(values@, bins as nat));
        assert forall|j: int| 0 <= j < out@.len() implies min_of(values@) <= (
        #[trigger] out@[j]).lower <= out@[j].upper <= max_of(values@) by {
            lemma_bin_bounds(values@, n, j);
        }
    }
    Ok(out)
}

} // verus!
