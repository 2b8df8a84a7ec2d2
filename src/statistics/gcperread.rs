//! GC content of each read, and over all reads.
use vstd::prelude::*;
use crate::ratio::{Ratio, ratio_or_zero};
use crate::record::{FastqRecord, RecordView};
use crate::runner::Statistic;

verus! {

/// Whether a base code is `G` or `C`.
pub open spec fn is_gc(b: u8) -> bool {
    b == 71 || b == 67
}

/// Number of `G` and `C` bases in `s`.
pub open spec fn gc_count(s: Seq<u8>) -> nat
    decreases s.len(),
{
    if s.len() == 0 {
        0
    } else {
        gc_count(s.drop_last()) + if is_gc(s.last()) {
            1nat
        } else {
            0nat
        }
    }
}

/// A sequence has no more `G` and `C` bases than bases.
pub proof fn lemma_gc_count_bound(s: Seq<u8>)
    ensures
        gc_count(s) <= s.len(),
    decreases s.len(),
{
    if s.len() > 0 {
        lemma_gc_count_bound(s.drop_last());
    }
}

/// Number of `G` and `C` bases over all reads of `h`.
pub open spec fn gc_total(h: Seq<RecordView>) -> nat
    decreases h.len(),
{
    if h.len() == 0 {
        0
    } else {
        gc_total(h.drop_last()) + gc_count(h.last().seq)
    }
}

/// Number of bases over all reads of `h`.
pub open spec fn base_total(h: Seq<RecordView>) -> nat
    decreases h.len(),
{
    if h.len() == 0 {
        0
    } else {
        base_total(h.drop_last()) + h.last().seq.len()
    }
}

/// The GC fraction of one read; zero for an empty read.
pub open spec fn read_gc(r: RecordView) -> Ratio {
    ratio_or_zero(gc_count(r.seq) as int, r.seq.len() as int)
}

/// GC content per read: the GC fraction of each read (its percentage is a
/// hundred times that), and the totals over all reads.
pub struct GCContentStatistic {
    gc_fractions: Vec<Ratio>,
    total_gc: usize,
    total_bases: usize,
    seen: Ghost<Seq<RecordView>>,
}

impl GCContentStatistic {
    /// No read seen.
    pub fn new() -> (r: Self)
        ensures
            r.wf(),
            r.seen() == Seq::<RecordView>::empty(),
    {
        let r = GCContentStatistic {
            gc_fractions: Vec::new(),
            total_gc: 0,
            total_bases: 0,
            seen: Ghost(Seq::empty()),
        };
        assert(r.gc_fractions@ =~= r.seen@.map_values(|v: RecordView| read_gc(v)));
        r
    }

    /// Number of `G` and `C` bases seen.
    pub fn total_gc(&self) -> (r: usize)
        requires
            self.wf(),
        ensures
            r == gc_total(self.seen()),
    {
        self.total_gc
    }

    /// Number of bases seen.
    pub fn total_bases(&self) -> (r: usize)
        requires
            self.wf(),
        ensures
            r == base_total(self.seen()),
    {
        self.total_bases
    }

    /// The GC fraction over all bases seen; `0 / 1` when there are none.
    pub fn average_gc(&self) -> (r: Ratio)
        requires
            self.wf(),
        ensures
            r == ratio_or_zero(gc_total(self.seen()) as int, base_total(self.seen()) as int),
    {
        Ratio::of(self.total_gc as u128, self.total_bases as u128)
    }

    /// The GC fraction of each read seen, in order.
    pub fn gc_fractions(&self) -> (r: &Vec<Ratio>)
        requires
            self.wf(),
        ensures
            r@ == self.seen().map_values(|v: RecordView| read_gc(v)),
    {
        &self.gc_fractions
    }
}

/// Counts the `G` and `C` bases of `s`.
fn count_gc(s: &Vec<u8>) -> (r: usize)
    ensures
        r == gc_count(s@),
{
    let mut r: usize = 0;
    let mut i: usize = 0;
    while i < s.len()
        invariant
            i <= s@.len(),
            r == gc_count(s@.take(i as int)),
            r <= i,
        decreases s@.len() - i,
    {
        assert(s@.take(i + 1).drop_last() =~= s@.take(i as int));
        if s[i] == 71 || s[i] == 67 {
            r = r + 1;
        }
        i = i + 1;
    }
    assert(s@.take(i as int) =~= s@);
    r
}

impl Statistic for GCContentStatistic {
    closed spec fn seen(&self) -> Seq<RecordView> {
        self.seen@
    }

    closed spec fn wf(&self) -> bool {
        &&& self.total_gc == gc_total(self.seen@)
        &&& self.total_bases == base_total(self.seen@)
        &&& self.total_gc <= self.total_bases
        &&& self.gc_fractions@ == self.seen@.map_values(|v: RecordView| read_gc(v))
    }

    open spec fn has_room(&self, record: RecordView) -> bool {
        base_total(self.seen()) + record.seq.len() <= usize::MAX
    }

    fn can_process(&self, record: &FastqRecord) -> (r: bool) {
        record.seq.len() <= usize::MAX - self.total_bases
    }

    fn process(&mut self, record: &FastqRecord) {
        let ghost h0 = self.seen@;
        let gc = count_gc(&record.seq);
        let total = record.seq.len();
        proof {
            lemma_gc_count_bound(record.seq@);
        }
        self.gc_fractions.push(Ratio::of(gc as u128, total as u128));
        self.total_gc = self.total_gc + gc;
        self.total_bases = self.total_bases + total;
        self.seen = Ghost(h0.push(record@));
        proof {
            assert(h0.push(record@).drop_last() =~= h0);
            assert(self.gc_fractions@ =~= self.seen@.map_values(|v: RecordView| read_gc(v)));
        }
    }
}

} // verus!
