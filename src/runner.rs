//! The accumulator contract and the pipeline that feeds records to accumulators.
use vstd::prelude::*;
pub use crate::record::FastqRecord;
use crate::record::{
    ReadOutcome,
    RecordView,
    lemma_lines_from_len,
    lines_from,
    lines_of,
    read_next,
    records_of,
    records_of_lines,
};
use crate::statistics::avbase::AvBaseQualityStatistic;
use crate::statistics::avproportion::AverageProportionsStatistic;
use crate::statistics::basequalitypos::BaseQualityPosStatistic;
use crate::statistics::gccontentpos::CGContentPosStatistic;
use crate::statistics::gcperread::GCContentStatistic;
use crate::statistics::length::ReadLengthStatistic;

verus! {

/// An accumulator: it takes records one at a time and keeps what its summary
/// needs. Each implementation ties its state to `seen`, the records it has
/// taken, through `wf`.
pub trait Statistic {
    /// The records taken so far, in order.
    spec fn seen(&self) -> Seq<RecordView>;

    /// The state agrees with `seen`.
    spec fn wf(&self) -> bool;

    /// Taking `record` keeps every counter within its integer type.
    spec fn has_room(&self, record: RecordView) -> bool;

    /// Tells whether `record` can be taken.
    fn can_process(&self, record: &FastqRecord) -> (r: bool)
        requires
            self.wf(),
        ensures
            r == self.has_room(record@),
    ;

    /// Takes one record.
    fn process(&mut self, record: &FastqRecord)
        requires
            old(self).wf(),
            old(self).has_room(record@),
        ensures
            final(self).wf(),
            final(self).seen() == old(self).seen().push(record@),
    ;
}

/// One accumulator of any of the library's kinds.
pub enum Accumulator {
    AvBaseQuality(AvBaseQualityStatistic),
    AverageProportions(AverageProportionsStatistic),
    GcPerRead(GCContentStatistic),
    ReadLength(ReadLengthStatistic),
    GcPerPosition(CGContentPosStatistic),
    QualityPerPosition(BaseQualityPosStatistic),
}

impl Statistic for Accumulator {
    open spec fn seen(&self) -> Seq<RecordView> {
        match self {
            Accumulator::AvBaseQuality(s) => s.seen(),
            Accumulator::AverageProportions(s) => s.seen(),
            Accumulator::GcPerRead(s) => s.seen(),
            Accumulator::ReadLength(s) => s.seen(),
            Accumulator::GcPerPosition(s) => s.seen(),
            Accumulator::QualityPerPosition(s) => s.seen(),
        }
    }

    open spec fn wf(&self) -> bool {
        match self {
            Accumulator::AvBaseQuality(s) => s.wf(),
            Accumulator::AverageProportions(s) => s.wf(),
            Accumulator::GcPerRead(s) => s.wf(),
            Accumulator::ReadLength(s) => s.wf(),
            Accumulator::GcPerPosition(s) => s.wf(),
            Accumulator::QualityPerPosition(s) => s.wf(),
        }
    }

    open spec fn has_room(&self, record: RecordView) -> bool {
        match self {
            Accumulator::AvBaseQuality(s) => s.has_room(record),
            Accumulator::AverageProportions(s) => s.has_room(record),
            Accumulator::GcPerRead(s) => s.has_room(record),
            Accumulator::ReadLength(s) => s.has_room(record),
            Accumulator::GcPerPosition(s) => s.has_room(record),
            Accumulator::QualityPerPosition(s) => s.has_room(record),
        }
    }

    fn can_process(&self, record: &FastqRecord) -> (r: bool) {
        match self {
            Accumulator::AvBaseQuality(s) => s.can_process(record),
            Accumulator::AverageProportions(s) => s.can_process(record),
            Accumulator::GcPerRead(s) => s.can_process(record),
            Accumulator::ReadLength(s) => s.can_process(record),
            Accumulator::GcPerPosition(s) => s.can_process(record),
            Accumulator::QualityPerPosition(s) => s.can_process(record),
        }
    }

    fn process(&mut self, record: &FastqRecord) {
        match self {
            Accumulator::AvBaseQuality(s) => s.process(record),
            Accumulator::AverageProportions(s) => s.process(record),
            Accumulator::GcPerRead(s) => s.process(record),
            Accumulator::ReadLength(s) => s.process(record),
            Accumulator::GcPerPosition(s) => s.process(record),
            Accumulator::QualityPerPosition(s) => s.process(record),
        }
    }
}

/// Why a run over a stream stopped before its end.
#[derive(Clone, Copy, Debug, PartialEq, Eq, Structural)]
pub enum RunError {
    /// The stream ends inside a record; `records` complete records came before.
    Truncated { records: usize },
    /// Record number `records` (counting from zero) would overflow an
    /// accumulator's counters; it and what follows were not taken.
    CapacityExceeded { records: usize },
}

/// A single-use pipeline over one input stream: it frames records and hands
/// each one to every accumulator, in registration order.
pub struct WorkflowRunner {
    statistics: Vec<Accumulator>,
}

/// Every accumulator of `s` agrees with what it has seen.
pub open spec fn all_wf(s: Seq<Accumulator>) -> bool {
    forall|i: int| 0 <= i < s.len() ==> #[trigger] s[i].wf()
}

/// `after` is `before` with the records `recs` taken by every accumulator.
pub open spec fn all_took(before: Seq<Accumulator>, after: Seq<Accumulator>, recs: Seq<RecordView>) -> bool {
    &&& after.len() == before.len()
    &&& forall|i: int| 0 <= i < after.len() ==> #[trigger] after[i].seen() == before[i].seen() + recs
}

impl View for WorkflowRunner {
    type V = Seq<Accumulator>;

    closed spec fn view(&self) -> Seq<Accumulator> {
        self.statistics@
    }
}

impl WorkflowRunner {
    /// A pipeline with no accumulator.
    pub fn new() -> (r: Self)
        ensures
            r@ == Seq::<Accumulator>::empty(),
    {
        WorkflowRunner { statistics: Vec::new() }
    }

    /// A pipeline with the usual accumulators, none of which has seen a
    /// read: mean base quality, per-position base proportions, per-read GC
    /// content, read lengths and per-position GC content, in that order.
    pub fn standard() -> (r: Self)
        ensures
            all_wf(r@),
            r@.len() == 5,
            forall|i: int| 0 <= i < 5 ==> #[trigger] r@[i].seen() == Seq::<RecordView>::empty(),
            r@[0] is AvBaseQuality,
            r@[1] is AverageProportions,
            r@[2] is GcPerRead,
            r@[3] is ReadLength,
            r@[4] is GcPerPosition,
    {
        let mut r = WorkflowRunner::new();
        r.register(Accumulator::AvBaseQuality(AvBaseQualityStatistic::new()));
        r.register(Accumulator::AverageProportions(AverageProportionsStatistic::new()));
        r.register(Accumulator::GcPerRead(GCContentStatistic::new()));
        r.register(Accumulator::ReadLength(ReadLengthStatistic::new()));
        r.register(Accumulator::GcPerPosition(CGContentPosStatistic::new()));
        r
    }

    /// Adds an accumulator after those already registered.
    pub fn register(&mut self, statistic: Accumulator)
        requires
            statistic.wf(),
        ensures
            final(self)@ == old(self)@.push(statistic),
    {
        self.statistics.push(statistic);
    }

    /// Tells whether every accumulator can take `record`.
    fn all_have_room(&self, record: &FastqRecord) -> (r: bool)
        requires
            all_wf(self@),
        ensures
            r == forall|i: int| 0 <= i < self@.len() ==> #[trigger] self@[i].has_room(record@),
    {
        let mut i: usize = 0;
        while i < self.statistics.len()
            invariant
                all_wf(self@),
                i <= self@.len(),
                forall|j: int| 0 <= j < i ==> #[trigger] self@[j].has_room(record@),
            decreases self@.len() - i,
        {
            if !self.statistics[i].can_process(record) {
                return false;
            }
            i = i + 1;
        }
        true
    }

    /// Hands `record` to every accumulator, in registration order.
    fn dispatch(&mut self, record: &FastqRecord)
        requires
            all_wf(old(self)@),
            forall|i: int| 0 <= i < old(self)@.len() ==> #[trigger] old(self)@[i].has_room(record@),
        ensures
            all_wf(final(self)@),
            all_took(old(self)@, final(self)@, seq![record@]),
    {
        let ghost before = self@;
        let mut i: usize = 0;
        while i < self.statistics.len()
            invariant
                self@.len() == before.len(),
                i <= self@.len(),
                all_wf(self@),
                forall|j: int| i <= j < self@.len() ==> #[trigger] self@[j] == before[j],
                forall|j: int| 0 <= j < before.len() ==> #[trigger] before[j].has_room(record@),
                forall|j: int|
                    0 <= j < i ==> #[trigger] self@[j].seen() == before[j].seen().push(record@),
            decreases self@.len() - i,
        {
            self.statistics[i].process(record);
            i = i + 1;
        }
        proof {
            assert forall|j: int| 0 <= j < self@.len() implies #[trigger] self@[j].seen()
                == before[j].seen() + seq![record@] by {
                assert(before[j].seen().push(record@) =~= before[j].seen() + seq![record@]);
            }
        }
    }

    /// Reads every record of the FASTQ stream `data` and hands each one to
    /// every accumulator. Stops at the end of the stream; at a record cut
    /// short by the end, which is reported; or before a record that would
    /// overflow an accumulator. The records taken before a stop stay taken.
    pub fn process(&mut self, data: &[u8]) -> (r: Result<usize, RunError>)
        requires
            all_wf(old(self)@),
        ensures
            all_wf(final(self)@),
            ({
                let recs = records_of(data@);
                let complete = lines_of(data@).len() % 4 == 0;
                match r {
                    Ok(n) => n == recs.len() && complete && all_took(old(self)@, final(self)@, recs),
                    Err(RunError::Truncated { records: n }) => n == recs.len() && !complete
                        && all_took(old(self)@, final(self)@, recs),
                    Err(RunError::CapacityExceeded { records: n }) => {
                        &&& n < recs.len()
                        &&& all_took(old(self)@, final(self)@, recs.take(n as int))
                        &&& exists|i: int|
                            0 <= i < final(self)@.len() && !(#[trigger] final(self)@[i].has_room(
                                recs[n as int],
                            ))
                    },
                }
            }),
    {
        let ghost before = self@;
        let ghost lines = lines_of(data@);
        let ghost recs = records_of(data@);
        let mut record = FastqRecord { seq: Vec::new(), qual: Vec::new() };
        let data_len = data.len();
        let mut pos: usize = 0;
        let mut k: usize = 0;
        proof {
            lemma_lines_from_len(data@, 0);
            assert(recs.take(0) =~= Seq::<RecordView>::empty());
            assert forall|j: int| 0 <= j < self@.len() implies #[trigger] self@[j].seen()
                == before[j].seen() + recs.take(0) by {
                assert(before[j].seen() + recs.take(0) =~= before[j].seen());
            }
            assert(lines.skip(0) =~= lines);
        }
        loop
            invariant
                pos <= data@.len(),
                lines == lines_of(data@),
                recs == records_of_lines(lines),
                4 * k <= lines.len(),
                lines.len() <= data@.len(),
                lines_from(data@, pos as int) == lines.skip(4 * k),
                all_wf(self@),
                all_took(before, self@, recs.take(k as int)),
                before == old(self)@,
                data_len == data@.len(),
            decreases data@.len() - pos,
        {
            let outcome = read_next(data, pos, &mut record);
            match outcome {
                ReadOutcome::Record { next } => {
                    proof {
                        assert(recs.len() > k);
                        assert(lines.len() / 4 <= lines.len());
                        assert(record@ == recs[k as int]) by {
                            let rest = lines.skip(4 * k);
                            let group = lines.subrange(4 * k, 4 * k + 4);
                            assert(rest[1] == group[1]);
                            assert(rest[3] == group[3]);
                        }
                        assert(lines.skip(4 * k).skip(4) =~= lines.skip(4 * (k + 1)));
                    }
                    if !self.all_have_room(&record) {
                        assert(all_took(before, self@, recs.take(k as int)));
                        assert(exists|i: int|
                            0 <= i < self@.len() && !(#[trigger] self@[i].has_room(recs[k as int])));
                        return Err(RunError::CapacityExceeded { records: k });
                    }
                    self.dispatch(&record);
                    proof {
                        assert forall|j: int| 0 <= j < self@.len() implies #[trigger] self@[j].seen()
                            == before[j].seen() + recs.take(k + 1) by {
                            assert(recs.take(k + 1) =~= recs.take(k as int) + seq![recs[k as int]]);
                            assert(before[j].seen() + recs.take(k as int) + seq![recs[k as int]]
                                =~= before[j].seen() + recs.take(k + 1));
                        }
                    }
                    pos = next;
                    k = k + 1;
                },
                ReadOutcome::EndOfStream => {
                    proof {
                        assert(lines.len() == 4 * k);
                        assert(recs.take(k as int) =~= recs);
                    }
                    return Ok(k);
                },
                ReadOutcome::FramingError => {
                    proof {
                        assert(recs.len() == k);
                        assert(recs.take(k as int) =~= recs);
                    }
                    return Err(RunError::Truncated { records: k });
                },
            }
        }
    }

    /// Ends the run and hands over the accumulators, in registration order.
    pub fn finalize(self) -> (r: Vec<Accumulator>)
        ensures
            r@ == self@,
    {
        self.statistics
    }
}

} // verus!
