//! Mean base quality over every quality byte of every read.
use vstd::prelude::*;
use crate::parser::{calculate_phred, lemma_phred_sum_bounds, phred_sum};
use crate::ratio::{Ratio, ratio_or_zero};
use crate::record::{FastqRecord, RecordView};
use crate::runner::Statistic;

verus! {

/// Most quality bytes the accumulator takes: the Phred sum of that many bytes
/// still fits in a `u64`.
pub const MAX_QUALITY_VALUES: u64 = 0x00FF_FFFF_FFFF_FFFF;

/// The quality bytes of all reads of `h`, in order.
pub open spec fn all_quals(h: Seq<RecordView>) -> Seq<u8>
    decreases h.len(),
{
    if h.len() == 0 {
        Seq::empty()
    } else {
        all_quals(h.drop_last()) + h.last().qual
    }
}

/// Sum of `b - 33` over the bytes `b` of `q`, with no floor.
pub open spec fn offset_sum(q: Seq<u8>) -> int
    decreases q.len(),
{
    if q.len() == 0 {
        0
    } else {
        offset_sum(q.drop_last()) + q.last() - 33
    }
}

/// Mean Phred score of the bases of all reads seen, kept as an exact sum of
/// scores and a count of bases.
pub struct AvBaseQualityStatistic {
    sum: u64,
    count: u64,
    seen: Ghost<Seq<RecordView>>,
}

impl AvBaseQualityStatistic {
    /// The mean: the Phred sum of all quality bytes over their number.
    pub open spec fn mean_spec(&self) -> Ratio {
        ratio_or_zero(phred_sum(all_quals(self.seen())), all_quals(self.seen()).len() as int)
    }

    /// No read seen.
    pub fn new() -> (r: Self)
        ensures
            r.wf(),
            r.seen() == Seq::<RecordView>::empty(),
    {
        AvBaseQualityStatistic { sum: 0, count: 0, seen: Ghost(Seq::empty()) }
    }

    /// The mean Phred score of all quality bytes seen; `0 / 1` before any.
    pub fn mean(&self) -> (r: Ratio)
        requires
            self.wf(),
        ensures
            r == self.mean_spec(),
    {
        Ratio::of(self.sum as u128, self.count as u128)
    }

    /// Number of quality bytes seen.
    pub fn count(&self) -> (r: u64)
        requires
            self.wf(),
        ensures
            r == all_quals(self.seen()).len(),
    {
        self.count
    }
}

impl Statistic for AvBaseQualityStatistic {
    closed spec fn seen(&self) -> Seq<RecordView> {
        self.seen@
    }

    closed spec fn wf(&self) -> bool {
        &&& self.sum == phred_sum(all_quals(self.seen@))
        &&& self.count == all_quals(self.seen@).len()
        &&& self.count <= MAX_QUALITY_VALUES
    }

    open spec fn has_room(&self, record: RecordView) -> bool {
        all_quals(self.seen()).len() + record.qual.len() <= MAX_QUALITY_VALUES
    }

    fn can_process(&self, record: &FastqRecord) -> (r: bool) {
        record.qual.len() as u64 <= MAX_QUALITY_VALUES - self.count
    }

    fn process(&mut self, record: &FastqRecord) {
        let ghost h0 = self.seen@;
        let ghost q0 = all_quals(h0);
        let n = record.qual.len();
        let mut i: usize = 0;
        while i < n
            invariant
                n == record.qual@.len(),
                i <= n,
                q0.len() + n <= MAX_QUALITY_VALUES,
                self.count == q0.len() + i,
                self.sum == phred_sum(q0 + record.qual@.take(i as int)),
                self.seen@ == h0,
            decreases n - i,
        {
            proof {
                lemma_phred_sum_bounds(q0 + record.qual@.take(i as int));
                assert((q0 + record.qual@.take(i + 1)).drop_last() =~= q0 + record.qual@.take(
                    i as int,
                ));
            }
            let q = calculate_phred(record.qual[i]);
            self.sum = self.sum + q as u64;
            self.count = self.count + 1;
            i = i + 1;
        }
        self.seen = Ghost(h0.push(record@));
        proof {
            assert(h0.push(record@).drop_last() =~= h0);
            assert(record.qual@.take(n as int) =~= record.qual@);
        }
    }
}

/// Over bytes at or above the Phred+33 floor the score is exactly `b - 33`.
pub proof fn lemma_valid_bytes_offset(q: Seq<u8>)
    requires
        forall|k: int| 0 <= k < q.len() ==> #[trigger] q[k] >= 33,
    ensures
        phred_sum(q) == offset_sum(q),
    decreases q.len(),
{
    if q.len() > 0 {
        lemma_valid_bytes_offset(q.drop_last());
    }
}

/// The running mean is the arithmetic mean of `byte - 33` over every quality
/// byte seen, when all of them lie in the Phred+33 range.
pub proof fn law_mean_is_arithmetic_mean(stat: &AvBaseQualityStatistic)
    requires
        forall|k: int|
            0 <= k < all_quals(stat.seen()).len() ==> #[trigger] all_quals(stat.seen())[k] >= 33,
    ensures
        stat.mean_spec() == ratio_or_zero(
            offset_sum(all_quals(stat.seen())),
            all_quals(stat.seen()).len() as int,
        ),
{
    lemma_valid_bytes_offset(all_quals(stat.seen()));
}

} // verus!
