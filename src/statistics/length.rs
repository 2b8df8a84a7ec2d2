//! Read-length distribution.
use vstd::prelude::*;
use crate::ratio::{Ratio, ratio_or_zero};
use crate::record::{FastqRecord, RecordView};
use crate::runner::Statistic;
use crate::statistics::avproportion::max_seq_len;
use crate::statistics::gcperread::base_total;

verus! {

/// Length of the shortest sequence of `h`; zero when `h` is empty.
pub open spec fn min_seq_len(h: Seq<RecordView>) -> nat
    decreases h.len(),
{
    if h.len() == 0 {
        0
    } else if h.len() == 1 {
        h[0].seq.len()
    } else {
        let m = min_seq_len(h.drop_last());
        if h.last().seq.len() < m {
            h.last().seq.len()
        } else {
            m
        }
    }
}

/// The summary of a read-length distribution. All fields are zero when no
/// read was seen.
#[derive(Clone, Copy, Debug, PartialEq, Eq, Structural)]
pub struct LengthSummary {
    pub min_length: usize,
    pub max_length: usize,
    /// Total length over the number of reads.
    pub average_length: Ratio,
    pub total_length: usize,
}

/// The length summary of the reads `h`.
pub open spec fn length_summary(h: Seq<RecordView>) -> LengthSummary {
    LengthSummary {
        min_length: min_seq_len(h) as usize,
        max_length: max_seq_len(h) as usize,
        average_length: ratio_or_zero(base_total(h) as int, h.len() as int),
        total_length: base_total(h) as usize,
    }
}

/// A read is never longer than all reads together, nor shorter than the shortest.
proof fn lemma_lengths_within_total(h: Seq<RecordView>)
    ensures
        max_seq_len(h) <= base_total(h),
        min_seq_len(h) <= max_seq_len(h),
        forall|k: int| 0 <= k < h.len() ==> #[trigger] h[k].seq.len() <= base_total(h),
    decreases h.len(),
{
    if h.len() > 0 {
        lemma_lengths_within_total(h.drop_last());
        assert forall|k: int| 0 <= k < h.len() implies #[trigger] h[k].seq.len() <= base_total(h) by {
            if k < h.len() - 1 {
                assert(h[k] == h.drop_last()[k]);
            }
        }
    }
}

/// The length of every read, and their sum.
pub struct ReadLengthStatistic {
    lengths: Vec<usize>,
    total_length: usize,
    seen: Ghost<Seq<RecordView>>,
}

impl ReadLengthStatistic {
    /// No read seen.
    pub fn new() -> (r: Self)
        ensures
            r.wf(),
            r.seen() == Seq::<RecordView>::empty(),
    {
        let r = ReadLengthStatistic { lengths: Vec::new(), total_length: 0, seen: Ghost(Seq::empty()) };
        assert(r.lengths@ =~= r.seen@.map_values(|v: RecordView| v.seq.len() as usize));
        r
    }

    /// The length of each read seen, in order.
    pub fn lengths(&self) -> (r: &Vec<usize>)
        requires
            self.wf(),
        ensures
            r@.len() == self.seen().len(),
            forall|k: int| 0 <= k < r@.len() ==> #[trigger] r@[k] == self.seen()[k].seq.len(),
    {
        proof {
            lemma_lengths_within_total(self.seen@);
        }
        &self.lengths
    }

    /// Shortest, longest, average and total length of the reads seen.
    pub fn summarize(&self) -> (r: LengthSummary)
        requires
            self.wf(),
        ensures
            r == length_summary(self.seen()),
    {
        let ghost h = self.seen@;
        proof {
            lemma_lengths_within_total(h);
        }
        let lengths = self.lengths();
        let n = lengths.len();
        let mut min: usize = 0;
        let mut max: usize = 0;
        let mut i: usize = 0;
        while i < n
            invariant
                n == h.len(),
                i <= n,
                lengths@.len() == n,
                forall|k: int| 0 <= k < n ==> #[trigger] lengths@[k] == h[k].seq.len(),
                min == min_seq_len(h.take(i as int)),
                max == max_seq_len(h.take(i as int)),
            decreases n - i,
        {
            let l = lengths[i];
            proof {
                assert(h.take(i + 1).drop_last() =~= h.take(i as int));
                assert(h.take(i + 1).last() == h[i as int]);
                if i == 0 {
                    assert(h.take(1)[0] == h[0]);
                }
            }
            if i == 0 || l < min {
                min = l;
            }
            if l > max {
                max = l;
            }
            i = i + 1;
        }
        assert(h.take(n as int) =~= h);
        LengthSummary {
            min_length: min,
            max_length: max,
            average_length: Ratio::of(self.total_length as u128, n as u128),
            total_length: self.total_length,
        }
    }
}

impl Statistic for ReadLengthStatistic {
    closed spec fn seen(&self) -> Seq<RecordView> {
        self.seen@
    }

    closed spec fn wf(&self) -> bool {
        &&& self.total_length == base_total(self.seen@)
        &&& self.lengths@ == self.seen@.map_values(|v: RecordView| v.seq.len() as usize)
    }

    open spec fn has_room(&self, record: RecordView) -> bool {
        base_total(self.seen()) + record.seq.len() <= usize::MAX
    }

    fn can_process(&self, record: &FastqRecord) -> (r: bool) {
        record.seq.len() <= usize::MAX - self.total_length
    }

    fn process(&mut self, record: &FastqRecord) {
        let ghost h0 = self.seen@;
        let length = record.seq.len();
        self.lengths.push(length);
        self.total_length = self.total_length + length;
        self.seen = Ghost(h0.push(record@));
        proof {
            assert(h0.push(record@).drop_last() =~= h0);
            assert(self.lengths@ =~= self.seen@.map_values(|v: RecordView| v.seq.len() as usize));
        }
    }
}

} // verus!
