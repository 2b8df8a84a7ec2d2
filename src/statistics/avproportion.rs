//! Base tallies, position-indexed vectors of them, and the per-position base
//! proportions accumulator.
use vstd::prelude::*;
use crate::ratio::{Ratio, ratio_or_zero};
use crate::record::{FastqRecord, RecordView, read_all, records_of, views_of};
use crate::runner::Statistic;

verus! {

/// The tally slot of a base code: 0 for `A`, 1 for `C`, 2 for `G`, 3 for `T`
/// and 4 for anything else.
pub open spec fn base_class(b: u8) -> int {
    if b == 65 {
        0
    } else if b == 67 {
        1
    } else if b == 71 {
        2
    } else if b == 84 {
        3
    } else {
        4
    }
}

/// Number of reads of `h` whose sequence reaches position `i` with a base of
/// slot `k` there.
pub open spec fn class_count(h: Seq<RecordView>, i: int, k: int) -> nat
    decreases h.len(),
{
    if h.len() == 0 {
        0
    } else {
        class_count(h.drop_last(), i, k) + if 0 <= i < h.last().seq.len() && base_class(
            h.last().seq[i],
        ) == k {
            1nat
        } else {
            0nat
        }
    }
}

/// Number of reads of `h` whose sequence is longer than `i`.
pub open spec fn covering(h: Seq<RecordView>, i: int) -> nat
    decreases h.len(),
{
    if h.len() == 0 {
        0
    } else {
        covering(h.drop_last(), i) + if 0 <= i < h.last().seq.len() {
            1nat
        } else {
            0nat
        }
    }
}

/// Length of the longest sequence of `h`; zero when `h` is empty.
pub open spec fn max_seq_len(h: Seq<RecordView>) -> nat
    decreases h.len(),
{
    if h.len() == 0 {
        0
    } else {
        let m = max_seq_len(h.drop_last());
        if h.last().seq.len() > m {
            h.last().seq.len()
        } else {
            m
        }
    }
}

/// The five slots of a position together count the reads covering it, and no
/// more than all reads.
pub proof fn lemma_slots_cover(h: Seq<RecordView>, i: int)
    ensures
        class_count(h, i, 0) + class_count(h, i, 1) + class_count(h, i, 2) + class_count(h, i, 3)
            + class_count(h, i, 4) == covering(h, i),
        covering(h, i) <= h.len(),
        i >= max_seq_len(h) ==> covering(h, i) == 0,
    decreases h.len(),
{
    if h.len() > 0 {
        lemma_slots_cover(h.drop_last(), i);
    }
}

/// Counters for the five slots at one read position.
#[derive(Clone, Copy, Debug, PartialEq, Eq, Structural)]
pub struct BaseCounts {
    pub a: u64,
    pub c: u64,
    pub g: u64,
    pub t: u64,
    pub n: u64,
}

/// The proportion of each slot in `b`, against `total`; all `0 / 1` when
/// `total` is zero.
pub open spec fn proportions_spec(b: BaseCounts, total: int) -> (Ratio, Ratio, Ratio, Ratio, Ratio) {
    (
        ratio_or_zero(b.a as int, total),
        ratio_or_zero(b.c as int, total),
        ratio_or_zero(b.g as int, total),
        ratio_or_zero(b.t as int, total),
        ratio_or_zero(b.n as int, total),
    )
}

impl BaseCounts {
    /// The counter of slot `k`.
    pub open spec fn slot(&self, k: int) -> int {
        if k == 0 {
            self.a as int
        } else if k == 1 {
            self.c as int
        } else if k == 2 {
            self.g as int
        } else if k == 3 {
            self.t as int
        } else if k == 4 {
            self.n as int
        } else {
            0
        }
    }

    /// Sum of the five counters.
    pub open spec fn total_spec(&self) -> int {
        self.a + self.c + self.g + self.t + self.n
    }

    /// All counters at zero.
    pub fn new() -> (r: BaseCounts)
        ensures
            r.total_spec() == 0,
            forall|k: int| #[trigger] r.slot(k) == 0,
    {
        BaseCounts { a: 0, c: 0, g: 0, t: 0, n: 0 }
    }

    /// Counts one base in its slot.
    pub fn update(&mut self, base: u8)
        requires
            old(self).total_spec() < u64::MAX,
        ensures
            final(self).total_spec() == old(self).total_spec() + 1,
            forall|k: int|
                #[trigger] final(self).slot(k) == old(self).slot(k) + if base_class(base) == k {
                    1int
                } else {
                    0int
                },
    {
        if base == 65 {
            self.a = self.a + 1;
        } else if base == 67 {
            self.c = self.c + 1;
        } else if base == 71 {
            self.g = self.g + 1;
        } else if base == 84 {
            self.t = self.t + 1;
        } else {
            self.n = self.n + 1;
        }
    }

    /// The proportion of each slot against `total`.
    pub fn get_proportions(&self, total: u64) -> (r: (Ratio, Ratio, Ratio, Ratio, Ratio))
        ensures
            r == proportions_spec(*self, total as int),
    {
        let d = total as u128;
        (
            Ratio::of(self.a as u128, d),
            Ratio::of(self.c as u128, d),
            Ratio::of(self.g as u128, d),
            Ratio::of(self.t as u128, d),
            Ratio::of(self.n as u128, d),
        )
    }

    /// Sum of the five counters.
    pub fn get_total(&self) -> (r: u64)
        requires
            self.total_spec() <= u64::MAX,
        ensures
            r == self.total_spec(),
    {
        self.a + self.c + self.g + self.t + self.n
    }
}

/// The proportions of a tally against its own total sum to one: the
/// numerators add up to the common denominator. An empty tally has all
/// proportions zero.
pub proof fn law_proportions_sum_to_one(b: BaseCounts)
    ensures
        ({
            let p = proportions_spec(b, b.total_spec());
            &&& b.total_spec() > 0 ==> {
                &&& p.0.denom == b.total_spec() && p.1.denom == b.total_spec() && p.2.denom
                    == b.total_spec() && p.3.denom == b.total_spec() && p.4.denom
                    == b.total_spec()
                &&& p.0.numer + p.1.numer + p.2.numer + p.3.numer + p.4.numer == p.0.denom
            }
            &&& b.total_spec() == 0 ==> p.0.numer == 0 && p.1.numer == 0 && p.2.numer == 0
                && p.3.numer == 0 && p.4.numer == 0
        }),
{
}

/// A position-indexed vector of base tallies: entry `i` tallies the base at
/// offset `i` of every read long enough to have one. It only grows: a longer
/// read appends fresh entries, a shorter one leaves the entries past its end
/// as they were.
pub struct PositionTallies {
    counts: Vec<BaseCounts>,
    reads: u64,
    seen: Ghost<Seq<RecordView>>,
}

impl PositionTallies {
    /// Entry `i` counts, in each slot, the reads of `seen` with such a base at `i`.
    pub open spec fn tallies_agree(counts: Seq<BaseCounts>, h: Seq<RecordView>) -> bool {
        &&& counts.len() == max_seq_len(h)
        &&& forall|i: int, k: int|
            0 <= i < counts.len() ==> #[trigger] counts[i].slot(k) == class_count(h, i, k)
    }

    /// The reads counted so far.
    pub closed spec fn seen_spec(&self) -> Seq<RecordView> {
        self.seen@
    }

    /// The tallies agree with the reads counted.
    pub closed spec fn wf_spec(&self) -> bool {
        &&& self.reads == self.seen@.len()
        &&& Self::tallies_agree(self.counts@, self.seen@)
    }

    /// Another read can be counted without overflow.
    pub open spec fn room_spec(&self) -> bool {
        self.seen_spec().len() < u64::MAX
    }

    /// The tally vector, one entry per position.
    pub closed spec fn counts_spec(&self) -> Seq<BaseCounts> {
        self.counts@
    }

    /// What a well-formed vector holds, stated over `seen`.
    pub proof fn lemma_agree(&self)
        requires
            self.wf_spec(),
        ensures
            Self::tallies_agree(self.counts_spec(), self.seen_spec()),
            self.seen_spec().len() <= u64::MAX,
            self.room_spec() <==> self.seen_spec().len() < u64::MAX,
    {
    }

    /// No position tallied, no read seen.
    pub fn new() -> (r: PositionTallies)
        ensures
            r.wf_spec(),
            r.seen_spec() == Seq::<RecordView>::empty(),
    {
        PositionTallies { counts: Vec::new(), reads: 0, seen: Ghost(Seq::empty()) }
    }

    /// The tally vector.
    pub fn counts(&self) -> (r: &Vec<BaseCounts>)
        ensures
            r@ == self.counts_spec(),
    {
        &self.counts
    }

    /// Hands over the tally vector.
    pub fn into_counts(self) -> (r: Vec<BaseCounts>)
        ensures
            r@ == self.counts_spec(),
    {
        self.counts
    }

    /// Tells whether another read can be counted.
    pub fn has_room_exec(&self) -> (r: bool)
        requires
            self.wf_spec(),
        ensures
            r == self.room_spec(),
    {
        self.reads < u64::MAX
    }

    /// Tallies the bases of one read, growing the vector to its length.
    pub fn add(&mut self, record: &FastqRecord)
        requires
            old(self).wf_spec(),
            old(self).room_spec(),
        ensures
            final(self).wf_spec(),
            final(self).seen_spec() == old(self).seen_spec().push(record@),
    {
        let ghost h0 = self.seen@;
        let ghost h1 = h0.push(record@);
        let ghost old_len = self.counts@.len();
        assert(h1.drop_last() =~= h0);
        let len = record.seq.len();
        while self.counts.len() < len
            invariant
                old_len <= self.counts@.len() <= if len > old_len { len as int } else { old_len as int },
                self.counts@.len() == old_len || self.counts@.len() <= len,
                forall|i: int, k: int|
                    0 <= i < self.counts@.len() ==> #[trigger] self.counts@[i].slot(k)
                        == class_count(h0, i, k),
                self.seen@ == h0,
                h0.len() == self.reads,
                old_len == max_seq_len(h0),
            decreases len - self.counts@.len(),
        {
            proof {
                lemma_slots_cover(h0, self.counts@.len() as int);
                assert forall|k: int| class_count(h0, self.counts@.len() as int, k) == 0 by {
                    if 0 <= k <= 4 {
                    } else {
                        lemma_other_slots_empty(h0, self.counts@.len() as int, k);
                    }
                }
            }
            self.counts.push(BaseCounts::new());
        }
        let mut i: usize = 0;
        while i < len
            invariant
                len == record.seq@.len(),
                self.counts@.len() == max_seq_len(h1),
                len <= self.counts@.len(),
                i <= len,
                forall|j: int, k: int|
                    0 <= j < self.counts@.len() ==> #[trigger] self.counts@[j].slot(k) == if j
                        < i {
                        class_count(h1, j, k)
                    } else {
                        class_count(h0, j, k)
                    },
                self.seen@ == h0,
                h0.len() == self.reads,
                self.reads < u64::MAX,
                h1 == h0.push(record@),
            decreases len - i,
        {
            let mut c = self.counts[i];
            proof {
                lemma_slots_cover(h0, i as int);
                assert(c.total_spec() == covering(h0, i as int)) by {
                    assert(c.slot(0) == class_count(h0, i as int, 0));
                    assert(c.slot(1) == class_count(h0, i as int, 1));
                    assert(c.slot(2) == class_count(h0, i as int, 2));
                    assert(c.slot(3) == class_count(h0, i as int, 3));
                    assert(c.slot(4) == class_count(h0, i as int, 4));
                }
            }
            c.update(record.seq[i]);
            proof {
                assert(h1.drop_last() =~= h0);
                assert forall|k: int|
                    #[trigger] class_count(h1, i as int, k) == class_count(h0, i as int, k) + if base_class(
                        record.seq@[i as int],
                    ) == k {
                        1int
                    } else {
                        0int
                    } by {}
            }
            self.counts.set(i, c);
            i = i + 1;
        }
        self.reads = self.reads + 1;
        self.seen = Ghost(h1);
        proof {
            assert forall|j: int, k: int|
                0 <= j < self.counts@.len() implies #[trigger] self.counts@[j].slot(k)
                == class_count(h1, j, k) by {
                if j >= len {
                }
            }
        }
    }
}

/// Slots outside `0..5` never count anything.
pub proof fn lemma_other_slots_empty(h: Seq<RecordView>, i: int, k: int)
    requires
        !(0 <= k <= 4),
    ensures
        class_count(h, i, k) == 0,
    decreases h.len(),
{
    if h.len() > 0 {
        lemma_other_slots_empty(h.drop_last(), i, k);
    }
}

/// The proportions of the five slots at position `i` of the reads `h`: each
/// slot's count over the number of reads covering `i`.
pub open spec fn position_proportions(h: Seq<RecordView>, i: int) -> (
    Ratio,
    Ratio,
    Ratio,
    Ratio,
    Ratio,
) {
    (
        ratio_or_zero(class_count(h, i, 0) as int, covering(h, i) as int),
        ratio_or_zero(class_count(h, i, 1) as int, covering(h, i) as int),
        ratio_or_zero(class_count(h, i, 2) as int, covering(h, i) as int),
        ratio_or_zero(class_count(h, i, 3) as int, covering(h, i) as int),
        ratio_or_zero(class_count(h, i, 4) as int, covering(h, i) as int),
    )
}

/// The proportions at every position reached by a read of `h`.
pub open spec fn proportions_by_position(h: Seq<RecordView>) -> Seq<
    (Ratio, Ratio, Ratio, Ratio, Ratio),
> {
    Seq::new(max_seq_len(h), |i: int| position_proportions(h, i))
}

/// The proportions of each tally against its own total.
pub fn calculate_proportions(counts: &Vec<BaseCounts>) -> (r: Vec<(Ratio, Ratio, Ratio, Ratio, Ratio)>)
    requires
        forall|i: int| 0 <= i < counts@.len() ==> #[trigger] counts@[i].total_spec() <= u64::MAX,
    ensures
        r@.len() == counts@.len(),
        forall|i: int|
            0 <= i < counts@.len() ==> #[trigger] r@[i] == proportions_spec(
                counts@[i],
                counts@[i].total_spec(),
            ),
{
    let mut r: Vec<(Ratio, Ratio, Ratio, Ratio, Ratio)> = Vec::new();
    let mut i: usize = 0;
    while i < counts.len()
        invariant
            i <= counts@.len(),
            r@.len() == i,
            forall|j: int| 0 <= j < counts@.len() ==> #[trigger] counts@[j].total_spec() <= u64::MAX,
            forall|j: int|
                0 <= j < i ==> #[trigger] r@[j] == proportions_spec(
                    counts@[j],
                    counts@[j].total_spec(),
                ),
        decreases counts@.len() - i,
    {
        let c = &counts[i];
        let total = c.get_total();
        r.push(c.get_proportions(total));
        i = i + 1;
    }
    r
}

/// Per-position base proportions: for each read offset, the share of `A`,
/// `C`, `G`, `T` and other bases among the reads long enough to have one.
pub struct AverageProportionsStatistic {
    ave_prop: PositionTallies,
}

impl AverageProportionsStatistic {
    /// No read seen.
    pub fn new() -> (r: Self)
        ensures
            r.wf(),
            r.seen() == Seq::<RecordView>::empty(),
    {
        AverageProportionsStatistic { ave_prop: PositionTallies::new() }
    }

    /// The tally vector, one entry per position.
    pub closed spec fn tallies(&self) -> Seq<BaseCounts> {
        self.ave_prop.counts_spec()
    }

    /// The tally of each position.
    pub fn counts(&self) -> (r: &Vec<BaseCounts>)
        requires
            self.wf(),
        ensures
            r@ == self.tallies(),
            PositionTallies::tallies_agree(r@, self.seen()),
    {
        proof {
            self.ave_prop.lemma_agree();
        }
        self.ave_prop.counts()
    }

    /// The proportions at each position, one tuple `(A, C, G, T, other)` per
    /// position up to the longest read seen.
    pub fn proportions(&self) -> (r: Vec<(Ratio, Ratio, Ratio, Ratio, Ratio)>)
        requires
            self.wf(),
        ensures
            r@ == proportions_by_position(self.seen()),
    {
        let counts = self.counts();
        let ghost h = self.seen();
        proof {
            self.ave_prop.lemma_agree();
            assert forall|i: int| 0 <= i < counts@.len() implies #[trigger] counts@[i].total_spec()
                <= u64::MAX && counts@[i].total_spec() == covering(h, i) by {
                lemma_slots_cover(h, i);
                assert(counts@[i].slot(0) == class_count(h, i, 0));
                assert(counts@[i].slot(1) == class_count(h, i, 1));
                assert(counts@[i].slot(2) == class_count(h, i, 2));
                assert(counts@[i].slot(3) == class_count(h, i, 3));
                assert(counts@[i].slot(4) == class_count(h, i, 4));
            }
        }
        let r = calculate_proportions(counts);
        proof {
            assert forall|i: int| 0 <= i < r@.len() implies #[trigger] r@[i] == position_proportions(
                h,
                i,
            ) by {
                assert(counts@[i].slot(0) == class_count(h, i, 0));
                assert(counts@[i].slot(1) == class_count(h, i, 1));
                assert(counts@[i].slot(2) == class_count(h, i, 2));
                assert(counts@[i].slot(3) == class_count(h, i, 3));
                assert(counts@[i].slot(4) == class_count(h, i, 4));
            }
            assert(r@ =~= proportions_by_position(h));
        }
        r
    }
}

impl Statistic for AverageProportionsStatistic {
    closed spec fn seen(&self) -> Seq<RecordView> {
        self.ave_prop.seen_spec()
    }

    closed spec fn wf(&self) -> bool {
        self.ave_prop.wf_spec()
    }

    open spec fn has_room(&self, record: RecordView) -> bool {
        self.seen().len() < u64::MAX
    }

    fn can_process(&self, record: &FastqRecord) -> (r: bool) {
        self.ave_prop.has_room_exec()
    }

    fn process(&mut self, record: &FastqRecord) {
        self.ave_prop.add(record);
    }
}

/// `max_seq_len` is the length of the longest sequence.
pub proof fn lemma_max_seq_len_is_max(h: Seq<RecordView>)
    ensures
        forall|k: int| 0 <= k < h.len() ==> #[trigger] h[k].seq.len() <= max_seq_len(h),
        h.len() > 0 ==> exists|k: int| 0 <= k < h.len() && #[trigger] h[k].seq.len() == max_seq_len(h),
    decreases h.len(),
{
    if h.len() > 0 {
        let t = h.drop_last();
        lemma_max_seq_len_is_max(t);
        assert forall|k: int| 0 <= k < h.len() implies #[trigger] h[k].seq.len() <= max_seq_len(h) by {
            if k < h.len() - 1 {
                assert(h[k] == t[k]);
            }
        }
        if h.last().seq.len() > max_seq_len(t) || t.len() == 0 {
            assert(h[h.len() - 1].seq.len() == max_seq_len(h));
        } else {
            let k = choose|k: int| 0 <= k < t.len() && #[trigger] t[k].seq.len() == max_seq_len(t);
            assert(h[k] == t[k]);
        }
    }
}

/// The per-position vector grows to the longest read and no further, and
/// the tally at position `i` counts exactly the reads longer than `i`: after
/// reads of lengths `L1, ..., Ln` it has `max(L1, ..., Ln)` entries.
pub proof fn law_positions_only_grow(stat: &AverageProportionsStatistic)
    requires
        stat.wf(),
    ensures
        forall|k: int| 0 <= k < stat.seen().len() ==> #[trigger] stat.seen()[k].seq.len() <= stat.tallies().len(),
        stat.seen().len() > 0 ==> exists|k: int|
            0 <= k < stat.seen().len() && #[trigger] stat.seen()[k].seq.len() == stat.tallies().len(),
        stat.seen().len() == 0 ==> stat.tallies().len() == 0,
        forall|i: int|
            0 <= i < stat.tallies().len() ==> #[trigger] stat.tallies()[i].total_spec() == covering(
                stat.seen(),
                i,
            ),
{
    let h = stat.seen();
    stat.ave_prop.lemma_agree();
    lemma_max_seq_len_is_max(h);
    assert forall|i: int| 0 <= i < stat.tallies().len() implies #[trigger] stat.tallies()[i].total_spec()
        == covering(h, i) by {
        lemma_slots_cover(h, i);
        let c = stat.tallies()[i];
        assert(c.slot(0) == class_count(h, i, 0));
        assert(c.slot(1) == class_count(h, i, 1));
        assert(c.slot(2) == class_count(h, i, 2));
        assert(c.slot(3) == class_count(h, i, 3));
        assert(c.slot(4) == class_count(h, i, 4));
    }
}

/// Taking a read never shortens the per-position vector nor lowers any
/// position's count.
pub proof fn law_tallies_never_shrink(h: Seq<RecordView>, r: RecordView, i: int)
    ensures
        max_seq_len(h.push(r)) >= max_seq_len(h),
        covering(h.push(r), i) >= covering(h, i),
{
    assert(h.push(r).drop_last() =~= h);
}

/// Tallies the bases at each position over the complete records of the FASTQ
/// stream `data`.
pub fn count_bases_per_position(data: &[u8]) -> (r: Vec<BaseCounts>)
    ensures
        PositionTallies::tallies_agree(r@, records_of(data@)),
{
    let (records, _complete) = read_all(data);
    let mut tallies = PositionTallies::new();
    let mut i: usize = 0;
    while i < records.len()
        invariant
            i <= records@.len(),
            tallies.wf_spec(),
            tallies.seen_spec() == views_of(records@.subrange(0, i as int)),
        decreases records@.len() - i,
    {
        tallies.add(&records[i]);
        assert(views_of(records@.subrange(0, i + 1)) =~= views_of(records@.subrange(0, i as int)).push(
            records@[i as int]@,
        ));
        i = i + 1;
    }
    assert(records@.subrange(0, records@.len() as int) =~= records@);
    proof {
        tallies.lemma_agree();
    }
    tallies.into_counts()
}

} // verus!
