//! FASTQ records and the record reader, which frames them out of a byte stream.
//!
//! A stream is read as lines: each line ends at a line feed, or at the end of
//! the data; a line feed at the very end opens no further line. A record is
//! four lines (header, sequence, separator, quality); the header and the
//! separator are not kept.
use vstd::prelude::*;

verus! {

/// One sequencing read: its bases and their quality codes.
#[derive(Debug, Default, Clone, PartialEq, Eq)]
pub struct FastqRecord {
    pub seq: Vec<u8>,
    pub qual: Vec<u8>,
}

/// What a record holds, as sequences of bytes.
pub struct RecordView {
    pub seq: Seq<u8>,
    pub qual: Seq<u8>,
}

impl View for FastqRecord {
    type V = RecordView;

    open spec fn view(&self) -> RecordView {
        RecordView { seq: self.seq@, qual: self.qual@ }
    }
}

impl FastqRecord {
    /// Whether the record has one quality code per base. A record that does
    /// not is malformed in content, though framed correctly.
    pub fn is_consistent(&self) -> (r: bool)
        ensures
            r == (self.seq@.len() == self.qual@.len()),
    {
        self.seq.len() == self.qual.len()
    }
}

/// Index of the first line feed at or after `pos`, or the end of the data.
pub open spec fn line_end(data: Seq<u8>, pos: int) -> int
    decreases data.len() - pos,
{
    if pos < 0 || pos >= data.len() {
        data.len() as int
    } else if data[pos] == 10 {
        pos
    } else {
        line_end(data, pos + 1)
    }
}

/// Where the line after the one starting at `pos` starts.
pub open spec fn next_start(data: Seq<u8>, pos: int) -> int {
    if line_end(data, pos) < data.len() {
        line_end(data, pos) + 1
    } else {
        data.len() as int
    }
}

/// The lines of `data` from `pos` on, without their line feeds.
pub open spec fn lines_from(data: Seq<u8>, pos: int) -> Seq<Seq<u8>>
    decreases data.len() - pos,
{
    if 0 <= pos < next_start(data, pos) <= data.len() {
        seq![data.subrange(pos, line_end(data, pos))] + lines_from(data, next_start(data, pos))
    } else {
        Seq::empty()
    }
}

/// The lines of a whole stream.
pub open spec fn lines_of(data: Seq<u8>) -> Seq<Seq<u8>> {
    lines_from(data, 0)
}

/// A line terminator byte: line feed or carriage return.
pub open spec fn is_terminator(b: u8) -> bool {
    b == 10 || b == 13
}

/// `s` without the line terminators at its end.
pub open spec fn trim_end(s: Seq<u8>) -> Seq<u8>
    decreases s.len(),
{
    if s.len() > 0 && is_terminator(s.last()) {
        trim_end(s.drop_last())
    } else {
        s
    }
}

/// The record framed by four lines: the second is its sequence, the fourth
/// its quality string.
pub open spec fn record_of(lines: Seq<Seq<u8>>) -> RecordView {
    RecordView { seq: trim_end(lines[1]), qual: trim_end(lines[3]) }
}

/// The complete records of a sequence of lines: one per four lines, a
/// partial group at the end giving none.
pub open spec fn records_of_lines(lines: Seq<Seq<u8>>) -> Seq<RecordView> {
    Seq::new(
        lines.len() / 4,
        |k: int| record_of(lines.subrange(4 * k, 4 * k + 4)),
    )
}

/// The complete records of a stream.
pub open spec fn records_of(data: Seq<u8>) -> Seq<RecordView> {
    records_of_lines(lines_of(data))
}

/// The line starting at `pos` runs to `line_end`, which is a line feed or the end.
pub proof fn lemma_line_end(data: Seq<u8>, pos: int)
    requires
        0 <= pos <= data.len(),
    ensures
        pos <= line_end(data, pos) <= data.len(),
        line_end(data, pos) < data.len() ==> data[line_end(data, pos)] == 10,
        forall|k: int| pos <= k < line_end(data, pos) ==> data[k] != 10,
    decreases data.len() - pos,
{
    if pos < data.len() && data[pos] != 10 {
        lemma_line_end(data, pos + 1);
    }
}

/// One step of `lines_from`: no line at the end, else one line and the rest.
pub proof fn lemma_lines_from_step(data: Seq<u8>, pos: int)
    requires
        0 <= pos <= data.len(),
    ensures
        pos == data.len() ==> lines_from(data, pos) == Seq::<Seq<u8>>::empty(),
        pos < data.len() ==> pos < next_start(data, pos) <= data.len(),
        pos < data.len() ==> lines_from(data, pos) == seq![data.subrange(pos, line_end(data, pos))]
            + lines_from(data, next_start(data, pos)),
{
    lemma_line_end(data, pos);
}

/// Every line holds at least one byte of the data, counting its line feed.
pub proof fn lemma_lines_from_len(data: Seq<u8>, pos: int)
    requires
        0 <= pos <= data.len(),
    ensures
        lines_from(data, pos).len() <= data.len() - pos,
    decreases data.len() - pos,
{
    lemma_lines_from_step(data, pos);
    if pos < data.len() {
        lemma_lines_from_len(data, next_start(data, pos));
    }
}

/// What the record reader found at a position of the stream.
#[derive(Clone, Copy, Debug, PartialEq, Eq, Structural)]
pub enum ReadOutcome {
    /// A complete record; the next one starts at `next`.
    Record { next: usize },
    /// The stream ended cleanly, before any line of a new record.
    EndOfStream,
    /// The stream ended after one, two or three lines of a record.
    FramingError,
}

/// Returns `(line_end, next_start)` of the line starting at `pos`.
fn scan_line(data: &[u8], pos: usize) -> (r: (usize, usize))
    requires
        pos <= data@.len(),
    ensures
        r.0 == line_end(data@, pos as int),
        r.1 == next_start(data@, pos as int),
{
    let mut i = pos;
    while i < data.len() && data[i] != 10
        invariant
            pos <= i <= data@.len(),
            line_end(data@, pos as int) == line_end(data@, i as int),
        decreases data@.len() - i,
    {
        i = i + 1;
    }
    if i < data.len() {
        (i, i + 1)
    } else {
        (i, i)
    }
}

/// Overwrites `dst` with `data[start..end]` without its trailing terminators.
fn copy_trimmed(dst: &mut Vec<u8>, data: &[u8], start: usize, end: usize)
    requires
        start <= end <= data@.len(),
    ensures
        final(dst)@ == trim_end(data@.subrange(start as int, end as int)),
{
    let mut stop = end;
    while stop > start && (data[stop - 1] == 10 || data[stop - 1] == 13)
        invariant
            start <= stop <= end <= data@.len(),
            trim_end(data@.subrange(start as int, end as int)) == trim_end(
                data@.subrange(start as int, stop as int),
            ),
        decreases stop - start,
    {
        assert(data@.subrange(start as int, stop as int).drop_last() =~= data@.subrange(
            start as int,
            stop - 1,
        ));
        stop = stop - 1;
    }
    assert(trim_end(data@.subrange(start as int, stop as int)) == data@.subrange(
        start as int,
        stop as int,
    ));
    dst.clear();
    let mut i = start;
    while i < stop
        invariant
            start <= i <= stop <= data@.len(),
            dst@ == data@.subrange(start as int, i as int),
        decreases stop - i,
    {
        dst.push(data[i]);
        assert(dst@ =~= data@.subrange(start as int, i + 1));
        i = i + 1;
    }
}

/// Reads the record whose header line starts at `pos`, refilling `record`
/// with its sequence and quality lines (line terminators removed).
pub fn read_next(data: &[u8], pos: usize, record: &mut FastqRecord) -> (r: ReadOutcome)
    requires
        pos <= data@.len(),
    ensures
        ({
            let lines = lines_from(data@, pos as int);
            &&& r == ReadOutcome::EndOfStream <==> lines.len() == 0
            &&& r == ReadOutcome::FramingError <==> 0 < lines.len() < 4
            &&& r is Record ==> {
                &&& lines.len() >= 4
                &&& final(record)@ == record_of(lines)
                &&& pos < r->next <= data@.len()
                &&& lines_from(data@, r->next as int) == lines.skip(4)
            }
        }),
{
    let ghost d = data@;
    if pos == data.len() {
        proof {
            lemma_lines_from_step(d, pos as int);
        }
        return ReadOutcome::EndOfStream;
    }
    let (_e0, p1) = scan_line(data, pos);
    proof {
        lemma_lines_from_step(d, pos as int);
        lemma_lines_from_step(d, p1 as int);
    }
    if p1 == data.len() {
        return ReadOutcome::FramingError;
    }
    let (e1, p2) = scan_line(data, p1);
    proof {
        lemma_lines_from_step(d, p2 as int);
    }
    if p2 == data.len() {
        return ReadOutcome::FramingError;
    }
    let (_e2, p3) = scan_line(data, p2);
    proof {
        lemma_lines_from_step(d, p3 as int);
    }
    if p3 == data.len() {
        return ReadOutcome::FramingError;
    }
    let (e3, p4) = scan_line(data, p3);
    proof {
        lemma_lines_from_step(d, p4 as int);
        lemma_line_end(d, p1 as int);
        lemma_line_end(d, p3 as int);
    }
    copy_trimmed(&mut record.seq, data, p1, e1);
    copy_trimmed(&mut record.qual, data, p3, e3);
    proof {
        let lines = lines_from(d, pos as int);
        assert(lines.len() >= 4);
        assert(lines[1] == d.subrange(p1 as int, e1 as int));
        assert(lines[3] == d.subrange(p3 as int, e3 as int));
        assert(lines.skip(4) =~= lines_from(d, p4 as int));
    }
    ReadOutcome::Record { next: p4 }
}

} // verus!

verus! {

/// The views of a list of records, in order.
pub open spec fn views_of(v: Seq<FastqRecord>) -> Seq<RecordView> {
    v.map_values(|r: FastqRecord| r@)
}

} // verus!

verus! {

/// Frames every record of the stream `data`. Returns the complete records, in
/// order, and whether the stream ended cleanly (its line count is a multiple
/// of four) rather than inside a record.
pub fn read_all(data: &[u8]) -> (r: (Vec<FastqRecord>, bool))
    ensures
        views_of(r.0@) == records_of(data@),
        r.0@.len() == lines_of(data@).len() / 4,
        r.1 == (lines_of(data@).len() % 4 == 0),
{
    let ghost lines = lines_of(data@);
    let ghost recs = records_of(data@);
    let mut out: Vec<FastqRecord> = Vec::new();
    let mut pos: usize = 0;
    proof {
        assert(lines.skip(0) =~= lines);
        assert(views_of(out@) =~= recs.take(0));
    }
    loop
        invariant
            pos <= data@.len(),
            lines == lines_of(data@),
            recs == records_of_lines(lines),
            4 * out@.len() <= lines.len(),
            lines_from(data@, pos as int) == lines.skip(4 * out@.len() as int),
            views_of(out@) == recs.take(out@.len() as int),
        decreases data@.len() - pos,
    {
        let mut record = FastqRecord { seq: Vec::new(), qual: Vec::new() };
        let ghost k = out@.len() as int;
        match read_next(data, pos, &mut record) {
            ReadOutcome::Record { next } => {
                proof {
                    let rest = lines.skip(4 * k);
                    let group = lines.subrange(4 * k, 4 * k + 4);
                    assert(rest[1] == group[1]);
                    assert(rest[3] == group[3]);
                    assert(lines.skip(4 * k).skip(4) =~= lines.skip(4 * (k + 1)));
                }
                out.push(record);
                proof {
                    assert(views_of(out@) =~= recs.take(k + 1));
                }
                pos = next;
            },
            ReadOutcome::EndOfStream => {
                assert(recs.take(k) =~= recs);
                return (out, true);
            },
            ReadOutcome::FramingError => {
                assert(recs.take(k) =~= recs);
                return (out, false);
            },
        }
    }
}

} // verus!
