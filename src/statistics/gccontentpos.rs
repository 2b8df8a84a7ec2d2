//! GC content per read position.
use vstd::prelude::*;
use crate::ratio::{Ratio, ratio_or_zero};
use crate::record::{FastqRecord, RecordView, views_of};
use crate::runner::Statistic;
use crate::statistics::avproportion::{
    PositionTallies,
    class_count,
    covering,
    lemma_slots_cover,
    max_seq_len,
};

verus! {

/// GC content at position `i` of the reads `h`: the reads with `G` or `C`
/// there over the reads covering `i`, or zero when none does.
pub open spec fn position_gc(h: Seq<RecordView>, i: int) -> Ratio {
    ratio_or_zero((class_count(h, i, 1) + class_count(h, i, 2)) as int, covering(h, i) as int)
}

/// GC content at every position reached by a read of `h`.
pub open spec fn gc_by_position(h: Seq<RecordView>) -> Seq<Ratio> {
    Seq::new(max_seq_len(h), |i: int| position_gc(h, i))
}

/// Average G/C content per read position.
pub struct CGContentPosStatistic {
    tallies: PositionTallies,
}

impl CGContentPosStatistic {
    /// No read seen.
    pub fn new() -> (r: Self)
        ensures
            r.wf(),
            r.seen() == Seq::<RecordView>::empty(),
    {
        CGContentPosStatistic { tallies: PositionTallies::new() }
    }

    /// The GC content of each position up to the longest read seen.
    pub fn results(&self) -> (r: Vec<Ratio>)
        requires
            self.wf(),
        ensures
            r@ == gc_by_position(self.seen()),
    {
        let ghost h = self.seen();
        proof {
            self.tallies.lemma_agree();
        }
        let counts = self.tallies.counts();
        let mut r: Vec<Ratio> = Vec::new();
        let mut i: usize = 0;
        while i < counts.len()
            invariant
                PositionTallies::tallies_agree(counts@, h),
                h.len() <= u64::MAX,
                i <= counts@.len(),
                r@.len() == i,
                forall|j: int| 0 <= j < i ==> #[trigger] r@[j] == position_gc(h, j),
            decreases counts@.len() - i,
        {
            let c = counts[i];
            proof {
                lemma_slots_cover(h, i as int);
                assert(c.slot(0) == class_count(h, i as int, 0));
                assert(c.slot(1) == class_count(h, i as int, 1));
                assert(c.slot(2) == class_count(h, i as int, 2));
                assert(c.slot(3) == class_count(h, i as int, 3));
                assert(c.slot(4) == class_count(h, i as int, 4));
            }
            let total = c.get_total();
            r.push(Ratio::of(c.c as u128 + c.g as u128, total as u128));
            i = i + 1;
        }
        assert(r@ =~= gc_by_position(h));
        r
    }
}

impl Statistic for CGContentPosStatistic {
    closed spec fn seen(&self) -> Seq<RecordView> {
        self.tallies.seen_spec()
    }

    closed spec fn wf(&self) -> bool {
        self.tallies.wf_spec()
    }

    open spec fn has_room(&self, record: RecordView) -> bool {
        self.seen().len() < u64::MAX
    }

    fn can_process(&self, record: &FastqRecord) -> (r: bool) {
        self.tallies.has_room_exec()
    }

    fn process(&mut self, record: &FastqRecord) {
        self.tallies.add(record);
    }
}

/// GC content per position over a list of reads.
pub fn gc_content_per_position(reads: &Vec<FastqRecord>) -> (r: Vec<Ratio>)
    ensures
        r@ == gc_by_position(views_of(reads@)),
{
    let mut stat = CGContentPosStatistic::new();
    let mut i: usize = 0;
    while i < reads.len()
        invariant
            i <= reads@.len(),
            stat.wf(),
            stat.seen() == views_of(reads@.subrange(0, i as int)),
        decreases reads@.len() - i,
    {
        proof {
            stat.tallies.lemma_agree();
        }
        stat.process(&reads[i]);
        assert(views_of(reads@.subrange(0, i + 1)) =~= views_of(reads@.subrange(0, i as int)).push(
            reads@[i as int]@,
        ));
        i = i + 1;
    }
    assert(reads@.subrange(0, reads@.len() as int) =~= reads@);
    stat.results()
}

} // verus!
