//! The statistics gathered so far: one length and one quality for every
//! record that has been seen, in the order of arrival.

use crate::histogram::{bins_of, histogram, lemma_min_max, max_of, total_count, HistogramError};
use crate::label::{human_label, human_labels, plain_label, plain_labels, Histogram};
use vstd::prelude::*;

verus! {

/// The greatest quality that a byte can hold.
pub const QUALITY_CEILING: u64 = 255;

/// The lengths and qualities of all reads seen so far.
///
/// Entries are only ever added, and a read's length and quality are kept
/// together, so the two sequences have the same length at all times.
#[derive(Debug, Clone)]
pub struct ReadStats {
    reads: Vec<(u32, u8)>,
}

/// The values as 64-bit numbers, as the histogram takes them.
pub open spec fn widened_u8(values: Seq<u8>) -> Seq<u64> {
    Seq::new(values.len(), |i: int| values[i] as u64)
}

/// The values as 64-bit numbers, as the histogram takes them.
pub open spec fn widened_u32(values: Seq<u32>) -> Seq<u64> {
    Seq::new(values.len(), |i: int| values[i] as u64)
}

/// Each value with its position.
pub open spec fn indexed_u8(values: Seq<u8>) -> Seq<(usize, u8)> {
    Seq::new(values.len(), |i: int| (i as usize, values[i]))
}

/// Each value with its position.
pub open spec fn indexed_u32(values: Seq<u32>) -> Seq<(usize, u32)> {
    Seq::new(values.len(), |i: int| (i as usize, values[i]))
}

/// No widened quality exceeds the ceiling, so neither does their greatest.
pub proof fn lemma_quality_ceiling(values: Seq<u8>)
    requires
        values.len() > 0,
    ensures
        max_of(widened_u8(values)) <= QUALITY_CEILING,
{
    let w = widened_u8(values);
    lemma_min_max(w);
    let i = choose|i: int| 0 <= i < w.len() && w[i] == max_of(w);
    assert(w[i] == values[i] as u64);
}

impl ReadStats {
    /// The lengths recorded so far, oldest first.
    pub closed spec fn lengths(&self) -> Seq<u32> {
        Seq::new(self.reads@.len(), |i: int| self.reads@[i].0)
    }

    /// The qualities recorded so far, oldest first.
    pub closed spec fn qualities(&self) -> Seq<u8> {
        Seq::new(self.reads@.len(), |i: int| self.reads@[i].1)
    }

    /// There is one quality for each length.
    pub proof fn lemma_paired(&self)
        ensures
            self.lengths().len() == self.qualities().len(),
    {
    }

    /// Statistics of no reads.
    pub fn new() -> (stats: ReadStats)
        ensures
            stats.lengths() == Seq::<u32>::empty(),
            stats.qualities() == Seq::<u8>::empty(),
    {
        let stats = ReadStats { reads: Vec::new() };
        assert(stats.lengths() =~= Seq::<u32>::empty());
        assert(stats.qualities() =~= Seq::<u8>::empty());
        stats
    }

    /// The number of reads recorded.
    pub fn len(&self) -> (n: usize)
        ensures
            n == self.lengths().len(),
            n == self.qualities().len(),
    {
        self.reads.len()
    }

    /// Records one read: its length and its quality, together.
    pub fn ingest(&mut self, length: u32, quality: u8)
        ensures
            final(self).lengths() == old(self).lengths().push(length),
            final(self).qualities() == old(self).qualities().push(quality),
    {
        self.reads.push((length, quality));
        assert(self.lengths() =~= old(self).lengths().push(length));
        assert(self.qualities() =~= old(self).qualities().push(quality));
    }

    /// A copy of what has been recorded so far: the lengths, then the
    /// qualities. Later additions do not show in it.
    pub fn snapshot(&self) -> (r: (Vec<u32>, Vec<u8>))
        ensures
            r.0@ == self.lengths(),
            r.1@ == self.qualities(),
    {
        let mut lengths: Vec<u32> = Vec::new();
        let mut qualities: Vec<u8> = Vec::new();
        let mut i: usize = 0;
        while i < self.reads.len()
            invariant
                i <= self.reads@.len(),
                lengths@.len() == i,
                qualities@.len() == i,
                forall|j: int| 0 <= j < i ==> lengths@[j] == self.reads@[j].0,
                forall|j: int| 0 <= j < i ==> qualities@[j] == self.reads@[j].1,
            decreases self.reads@.len() - i,
        {
            lengths.push(self.reads[i].0);
            qualities.push(self.reads[i].1);
            i = i + 1;
        }
        assert(lengths@ =~= self.lengths());
        assert(qualities@ =~= self.qualities());
        (lengths, qualities)
    }

    /// The qualities as points to plot: each with its position.
    pub fn quals_as_data(&self) -> (data: Vec<(usize, u8)>)
        ensures
            data@ == indexed_u8(self.qualities()),
    {
        let mut data: Vec<(usize, u8)> = Vec::new();
        let mut i: usize = 0;
        while i < self.reads.len()
            invariant
                i <= self.reads@.len(),
                data@.len() == i,
                forall|j: int| 0 <= j < i ==> data@[j] == (j as usize, self.reads@[j].1),
            decreases self.reads@.len() - i,
        {
            data.push((i, self.reads[i].1));
            i = i + 1;
        }
        assert(data@ =~= indexed_u8(self.qualities()));
        data
    }

    /// The lengths as points to plot: each with its position.
    pub fn lengths_as_data(&self) -> (data: Vec<(usize, u32)>)
        ensures
            data@ == indexed_u32(self.lengths()),
    {
        let mut data: Vec<(usize, u32)> = Vec::new();
        let mut i: usize = 0;
        while i < self.reads.len()
            invariant
                i <= self.reads@.len(),
                data@.len() == i,
                forall|j: int| 0 <= j < i ==> data@[j] == (j as usize, self.reads@[j].0),
            decreases self.reads@.len() - i,
        {
            data.push((i, self.reads[i].0));
            i = i + 1;
        }
        assert(data@ =~= indexed_u32(self.lengths()));
        data
    }

    fn quality_values(&self) -> (out: Vec<u64>)
        ensures
            out@ == widened_u8(self.qualities()),
    {
        let mut out: Vec<u64> = Vec::new();
        let mut i: usize = 0;
        while i < self.reads.len()
            invariant
                i <= self.reads@.len(),
                out@.len() == i,
                forall|j: int| 0 <= j < i ==> out@[j] == self.reads@[j].1 as u64,
            decreases self.reads@.len() - i,
        {
            out.push(self.reads[i].1 as u64);
            i = i + 1;
        }
        assert(out@ =~= widened_u8(self.qualities()));
        out
    }

    fn length_values(&self) -> (out: Vec<u64>)
        ensures
            out@ == widened_u32(self.lengths()),
    {
        let mut out: Vec<u64> = Vec::new();
        let mut i: usize = 0;
        while i < self.reads.len()
            invariant
                i <= self.reads@.len(),
                out@.len() == i,
                forall|j: int| 0 <= j < i ==> out@[j] == self.reads@[j].0 as u64,
            decreases self.reads@.len() - i,
        {
            out.push(self.reads[i].0 as u64);
            i = i + 1;
        }
        assert(out@ =~= widened_u32(self.lengths()));
        out
    }

    /// The histogram of the qualities, its bounds shown as plain numbers.
    ///
    /// Fails while nothing has been recorded, and only then. No bound shown
    /// exceeds [`QUALITY_CEILING`].
    pub fn quals_histogram(&self, bins: usize) -> (r: Result<Histogram, HistogramError>)
        requires
            bins >= 1,
        ensures
            self.qualities().len() == 0 ==> r == Err::<Histogram, HistogramError>(
                HistogramError::EmptyInput,
            ),
            self.qualities().len() > 0 ==> r is Ok,
            r matches Ok(h) ==> {
                let b = bins_of(widened_u8(self.qualities()), bins as nat);
                &&& h@.len() == bins
                &&& forall|i: int|
                    0 <= i < bins ==> (#[trigger] h@[i]).0@ == plain_label(b[i]) && h@[i].1
                        == b[i].count
                &&& forall|i: int|
                    0 <= i < bins ==> (#[trigger] b[i]).lower <= b[i].upper <= QUALITY_CEILING
                &&& total_count(b) == self.qualities().len()
            },
    {
        let values = self.quality_values();
        match histogram(values.as_slice(), bins) {
            Ok(b) => {
                proof {
                    lemma_quality_ceiling(self.qualities());
                }
                Ok(plain_labels(&b))
            },
            Err(e) => Err(e),
        }
    }

    /// The histogram of the lengths, its bounds shown in units of magnitude.
    ///
    /// Fails while nothing has been recorded, and only then.
    pub fn length_histogram(&self, bins: usize) -> (r: Result<Histogram, HistogramError>)
        requires
            bins >= 1,
        ensures
            self.lengths().len() == 0 ==> r == Err::<Histogram, HistogramError>(
                HistogramError::EmptyInput,
            ),
            self.lengths().len() > 0 ==> r is Ok,
            r matches Ok(h) ==> {
                let b = bins_of(widened_u32(self.lengths()), bins as nat);
                &&& h@.len() == bins
                &&& forall|i: int|
                    0 <= i < bins ==> (#[trigger] h@[i]).0@ == human_label(b[i]) && h@[i].1
                        == b[i].count
                &&& total_count(b) == self.lengths().len()
            },
    {
        let values = self.length_values();
        match histogram(values.as_slice(), bins) {
            Ok(b) => Ok(human_labels(&b)),
            Err(e) => Err(e),
        }
    }
}

} // verus!
