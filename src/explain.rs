//! Splitting a read or file name into its fields.
use vstd::prelude::*;

verus! {

/// The characters that separate the fields of a name: space, colon, full
/// stop and underscore.
pub open spec fn is_separator(c: char) -> bool {
    c == ' ' || c == ':' || c == '.' || c == '_'
}

/// The fields of `s` between separators, in order: `k` separators give
/// `k + 1` fields, some of which may be empty.
pub open spec fn fields_of(s: Seq<char>) -> Seq<Seq<char>>
    decreases s.len(),
{
    if s.len() == 0 {
        seq![Seq::empty()]
    } else {
        let f = fields_of(s.drop_last());
        if is_separator(s.last()) {
            f.push(Seq::empty())
        } else {
            f.update(f.len() - 1, f.last().push(s.last()))
        }
    }
}

/// There is always at least one field.
proof fn lemma_fields_nonempty(s: Seq<char>)
    ensures
        fields_of(s).len() >= 1,
    decreases s.len(),
{
    if s.len() > 0 {
        lemma_fields_nonempty(s.drop_last());
    }
}

/// The layout of a name, told by its fields.
#[derive(Clone, Copy, Debug, PartialEq, Eq, Structural)]
pub enum NameLayout {
    /// A file name such as `SAMPLE_BARCODE_L001_R1_001.fastq.gz`: sample,
    /// barcode, lane, read number, set number, then `fastq`.
    FileName,
    /// A read header such as `@INSTRUMENT:RUN:FLOWCELL:LANE:TILE:X:Y ...`,
    /// with at least eleven fields.
    ReadHeader,
    /// Neither.
    Unknown,
}

/// Splits a name at every separator.
pub fn split_name(name: &str) -> (r: Vec<String>)
    ensures
        r@.len() == fields_of(name@).len(),
        forall|k: int| 0 <= k < r@.len() ==> #[trigger] r@[k]@ == fields_of(name@)[k],
{
    let n = name.unicode_len();
    let mut r: Vec<String> = Vec::new();
    let mut start: usize = 0;
    let mut i: usize = 0;
    while i < n
        invariant
            n == name@.len(),
            start <= i <= n,
            fields_of(name@.take(i as int)).len() == r@.len() + 1,
            forall|k: int|
                0 <= k < r@.len() ==> #[trigger] r@[k]@ == fields_of(name@.take(i as int))[k],
            fields_of(name@.take(i as int)).last() == name@.subrange(start as int, i as int),
        decreases n - i,
    {
        let c = name.get_char(i);
        proof {
            lemma_fields_nonempty(name@.take(i as int));
            assert(name@.take(i + 1).drop_last() =~= name@.take(i as int));
        }
        if c == ' ' || c == ':' || c == '.' || c == '_' {
            let field = name.substring_char(start, i).to_owned();
            r.push(field);
            start = i + 1;
            proof {
                assert(name@.subrange(start as int, i + 1) =~= Seq::<char>::empty());
            }
        } else {
            proof {
                assert(name@.subrange(start as int, i + 1) =~= name@.subrange(start as int, i as int).push(c));
            }
        }
        i = i + 1;
    }
    let last = name.substring_char(start, n).to_owned();
    r.push(last);
    proof {
        assert(name@.take(n as int) =~= name@);
    }
    r
}

/// Tells a file name from a read header by its fields: a file name has
/// `fastq` as its sixth field; a read header is anything else with at least
/// eleven fields.
pub fn name_layout(fields: &Vec<String>) -> (r: NameLayout)
    ensures
        r == (if fields@.len() >= 6 && fields@[5]@ == "fastq"@ {
            NameLayout::FileName
        } else if fields@.len() >= 11 {
            NameLayout::ReadHeader
        } else {
            NameLayout::Unknown
        }),
{
    if fields.len() >= 6 && fields[5] == "fastq".to_owned() {
        NameLayout::FileName
    } else if fields.len() >= 11 {
        NameLayout::ReadHeader
    } else {
        NameLayout::Unknown
    }
}

} // verus!
