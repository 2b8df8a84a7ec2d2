//! Mean base quality per read position.
use vstd::prelude::*;
use crate::phred::phred_of;
pub use crate::parser::calculate_phred;
use crate::ratio::{Ratio, ratio_or_zero};
use crate::record::{FastqRecord, RecordView, views_of};
use crate::runner::Statistic;

verus! {

/// Most reads the per-position accumulator takes: a position's Phred sum over
/// that many reads still fits in a `u64`.
pub const MAX_QUALITY_READS: u64 = 0x00FF_FFFF_FFFF_FFFF;

/// Number of reads of `h` with a quality byte at position `i`.
pub open spec fn qual_covering(h: Seq<RecordView>, i: int) -> nat
    decreases h.len(),
{
    if h.len() == 0 {
        0
    } else {
        qual_covering(h.drop_last(), i) + if 0 <= i < h.last().qual.len() {
            1nat
        } else {
            0nat
        }
    }
}

/// Sum of the Phred scores at position `i` over the reads of `h` that reach it.
pub open spec fn qual_sum_at(h: Seq<RecordView>, i: int) -> int
    decreases h.len(),
{
    if h.len() == 0 {
        0
    } else {
        qual_sum_at(h.drop_last(), i) + if 0 <= i < h.last().qual.len() {
            phred_of(h.last().qual[i] as int)
        } else {
            0
        }
    }
}

/// Length of the longest quality string of `h`.
pub open spec fn max_qual_len(h: Seq<RecordView>) -> nat
    decreases h.len(),
{
    if h.len() == 0 {
        0
    } else {
        let m = max_qual_len(h.drop_last());
        if h.last().qual.len() > m {
            h.last().qual.len()
        } else {
            m
        }
    }
}

/// The mean Phred score at every position reached by a quality string of `h`.
pub open spec fn quality_by_position(h: Seq<RecordView>) -> Seq<Ratio> {
    Seq::new(
        max_qual_len(h),
        |i: int| ratio_or_zero(qual_sum_at(h, i), qual_covering(h, i) as int),
    )
}

/// Bounds on what a position accumulates, and nothing past the longest read.
pub proof fn lemma_qual_position_bounds(h: Seq<RecordView>, i: int)
    ensures
        qual_covering(h, i) <= h.len(),
        0 <= qual_sum_at(h, i) <= 255 * qual_covering(h, i),
        i >= max_qual_len(h) ==> qual_covering(h, i) == 0 && qual_sum_at(h, i) == 0,
    decreases h.len(),
{
    if h.len() > 0 {
        lemma_qual_position_bounds(h.drop_last(), i);
    }
}

/// Sum and number of the Phred scores seen at one position.
#[derive(Clone, Copy, Debug, PartialEq, Eq, Structural)]
pub struct QualityCounts {
    sum_quality: u64,
    count: u64,
}

impl QualityCounts {
    /// Sum of the scores seen.
    pub closed spec fn sum_spec(&self) -> int {
        self.sum_quality as int
    }

    /// Number of scores seen.
    pub closed spec fn count_spec(&self) -> int {
        self.count as int
    }

    /// No score seen.
    pub fn new() -> (r: Self)
        ensures
            r.sum_spec() == 0,
            r.count_spec() == 0,
    {
        QualityCounts { sum_quality: 0, count: 0 }
    }

    /// Adds one score.
    pub fn update(&mut self, quality: u8)
        requires
            old(self).sum_spec() + quality <= u64::MAX,
            old(self).count_spec() < u64::MAX,
        ensures
            final(self).sum_spec() == old(self).sum_spec() + quality,
            final(self).count_spec() == old(self).count_spec() + 1,
    {
        self.sum_quality = self.sum_quality + quality as u64;
        self.count = self.count + 1;
    }

    /// The mean score; `0 / 1` before any.
    pub fn get_average(&self) -> (r: Ratio)
        ensures
            r == ratio_or_zero(self.sum_spec(), self.count_spec()),
    {
        Ratio::of(self.sum_quality as u128, self.count as u128)
    }
}

/// Mean base quality per position, over the reads long enough to have one.
pub struct BaseQualityPosStatistic {
    positions: Vec<QualityCounts>,
    reads: u64,
    seen: Ghost<Seq<RecordView>>,
}

impl BaseQualityPosStatistic {
    /// No read seen.
    pub fn new() -> (r: Self)
        ensures
            r.wf(),
            r.seen() == Seq::<RecordView>::empty(),
    {
        BaseQualityPosStatistic { positions: Vec::new(), reads: 0, seen: Ghost(Seq::empty()) }
    }

    /// The mean Phred score of each position up to the longest quality string.
    pub fn results(&self) -> (r: Vec<Ratio>)
        requires
            self.wf(),
        ensures
            r@ == quality_by_position(self.seen()),
    {
        let ghost h = self.seen@;
        let mut r: Vec<Ratio> = Vec::new();
        let mut i: usize = 0;
        while i < self.positions.len()
            invariant
                self.wf(),
                h == self.seen@,
                i <= self.positions@.len(),
                r@.len() == i,
                forall|j: int|
                    0 <= j < i ==> #[trigger] r@[j] == ratio_or_zero(
                        qual_sum_at(h, j),
                        qual_covering(h, j) as int,
                    ),
            decreases self.positions@.len() - i,
        {
            r.push(self.positions[i].get_average());
            i = i + 1;
        }
        assert(r@ =~= quality_by_position(h));
        r
    }
}

impl Statistic for BaseQualityPosStatistic {
    closed spec fn seen(&self) -> Seq<RecordView> {
        self.seen@
    }

    closed spec fn wf(&self) -> bool {
        &&& self.reads == self.seen@.len()
        &&& self.reads <= MAX_QUALITY_READS
        &&& self.positions@.len() == max_qual_len(self.seen@)
        &&& forall|i: int|
            0 <= i < self.positions@.len() ==> {
                &&& #[trigger] self.positions@[i].sum_spec() == qual_sum_at(self.seen@, i)
                &&& self.positions@[i].count_spec() == qual_covering(self.seen@, i)
            }
    }

    open spec fn has_room(&self, record: RecordView) -> bool {
        self.seen().len() < MAX_QUALITY_READS
    }

    fn can_process(&self, record: &FastqRecord) -> (r: bool) {
        self.reads < MAX_QUALITY_READS
    }

    fn process(&mut self, record: &FastqRecord) {
        let ghost h0 = self.seen@;
        let ghost h1 = h0.push(record@);
        let ghost old_len = self.positions@.len();
        let len = record.qual.len();
        while self.positions.len() < len
            invariant
                old_len <= self.positions@.len() <= if len > old_len {
                    len as int
                } else {
                    old_len as int
                },
                self.positions@.len() == old_len || self.positions@.len() <= len,
                h0.len() == self.reads,
                self.reads < MAX_QUALITY_READS,
                forall|i: int|
                    0 <= i < self.positions@.len() ==> {
                        &&& #[trigger] self.positions@[i].sum_spec() == qual_sum_at(h0, i)
                        &&& self.positions@[i].count_spec() == qual_covering(h0, i)
                    },
                self.seen@ == h0,
                old_len == max_qual_len(h0),
            decreases len - self.positions@.len(),
        {
            proof {
                lemma_qual_position_bounds(h0, self.positions@.len() as int);
            }
            self.positions.push(QualityCounts::new());
        }
        assert(h1.drop_last() =~= h0);
        let mut i: usize = 0;
        while i < len
            invariant
                len == record.qual@.len(),
                self.positions@.len() == max_qual_len(h1),
                len <= self.positions@.len(),
                i <= len,
                forall|j: int|
                    0 <= j < self.positions@.len() ==> {
                        &&& #[trigger] self.positions@[j].sum_spec() == if j < i {
                            qual_sum_at(h1, j)
                        } else {
                            qual_sum_at(h0, j)
                        }
                        &&& self.positions@[j].count_spec() == if j < i {
                            qual_covering(h1, j)
                        } else {
                            qual_covering(h0, j)
                        }
                    },
                self.seen@ == h0,
                h0.len() == self.reads,
                self.reads < MAX_QUALITY_READS,
                h1 == h0.push(record@),
            decreases len - i,
        {
            let mut c = self.positions[i];
            let q = calculate_phred(record.qual[i]);
            proof {
                lemma_qual_position_bounds(h0, i as int);
                assert(h1.drop_last() =~= h0);
                assert(self.positions@[i as int].sum_spec() == qual_sum_at(h0, i as int));
                assert(c.sum_spec() + q <= u64::MAX) by (nonlinear_arith)
                    requires
                        c.sum_spec() <= 255 * c.count_spec(),
                        c.count_spec() <= h0.len(),
                        h0.len() < MAX_QUALITY_READS,
                        q <= 255,
                ;
            }
            c.update(q);
            assert(qual_sum_at(h1, i as int) == qual_sum_at(h0, i as int) + q);
            self.positions.set(i, c);
            i = i + 1;
        }
        self.reads = self.reads + 1;
        self.seen = Ghost(h1);
        proof {
            assert(h1.drop_last() =~= h0);
            assert forall|j: int| 0 <= j < self.positions@.len() implies {
                &&& #[trigger] self.positions@[j].sum_spec() == qual_sum_at(h1, j)
                &&& self.positions@[j].count_spec() == qual_covering(h1, j)
            } by {
                assert(h1.last() == record@);
                if j >= len {
                    assert(self.positions@[j].sum_spec() == qual_sum_at(h0, j));
                    assert(self.positions@[j].count_spec() == qual_covering(h0, j));
                    assert(qual_sum_at(h1, j) == qual_sum_at(h0, j));
                    assert(qual_covering(h1, j) == qual_covering(h0, j));
                } else {
                    assert(self.positions@[j].sum_spec() == qual_sum_at(h1, j));
                }
            }
        }
    }
}

/// Mean base quality per position over a list of reads.
pub fn avg_base_quality(reads: &Vec<FastqRecord>) -> (r: Vec<Ratio>)
    requires
        reads@.len() <= MAX_QUALITY_READS,
    ensures
        r@ == quality_by_position(views_of(reads@)),
{
    let mut stat = BaseQualityPosStatistic::new();
    let mut i: usize = 0;
    while i < reads.len()
        invariant
            i <= reads@.len(),
            reads@.len() <= MAX_QUALITY_READS,
            stat.wf(),
            stat.seen() == views_of(reads@.subrange(0, i as int)),
        decreases reads@.len() - i,
    {
        stat.process(&reads[i]);
        assert(views_of(reads@.subrange(0, i + 1)) =~= views_of(reads@.subrange(0, i as int)).push(
            reads@[i as int]@,
        ));
        i = i + 1;
    }
    assert(reads@.subrange(0, reads@.len() as int) =~= reads@);
    stat.results()
}

} // verus!
