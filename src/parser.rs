//! Byte-level Phred conversion, input naming and the command-line options.
use vstd::prelude::*;
use crate::phred::phred_of;
use crate::ratio::{Ratio, ratio_or_zero};
use crate::record::{read_all, records_of, views_of};

verus! {

/// Sum of the Phred scores of the quality bytes `q`.
pub open spec fn phred_sum(q: Seq<u8>) -> int
    decreases q.len(),
{
    if q.len() == 0 {
        0
    } else {
        phred_sum(q.drop_last()) + phred_of(q.last() as int)
    }
}

/// Each quality byte adds at most 255 to a Phred sum.
pub proof fn lemma_phred_sum_bounds(q: Seq<u8>)
    ensures
        0 <= phred_sum(q) <= 255 * q.len(),
    decreases q.len(),
{
    if q.len() > 0 {
        lemma_phred_sum_bounds(q.drop_last());
    }
}

/// Phred score of one quality byte; bytes below `'!'` score zero.
pub fn calculate_phred(qual: u8) -> (r: u8)
    ensures
        r as int == phred_of(qual as int),
{
    if qual >= 33 {
        qual - 33
    } else {
        0
    }
}

/// Mean Phred score of one quality line, as the exact fraction
/// `sum of scores / number of bytes`; `0 / 1` for an empty line.
pub fn read_qual(qual_string: &[u8]) -> (r: Ratio)
    ensures
        r == ratio_or_zero(phred_sum(qual_string@), qual_string@.len() as int),
{
    let n = qual_string.len();
    let mut qual_sum: u128 = 0;
    let mut i: usize = 0;
    while i < n
        invariant
            n == qual_string@.len(),
            i <= n,
            qual_sum as int == phred_sum(qual_string@.subrange(0, i as int)),
            qual_sum <= 255 * i,
        decreases n - i,
    {
        let q = calculate_phred(qual_string[i]);
        proof {
            let s = qual_string@.subrange(0, i + 1);
            assert(s.drop_last() =~= qual_string@.subrange(0, i as int));
        }
        qual_sum = qual_sum + q as u128;
        i = i + 1;
    }
    assert(qual_string@.subrange(0, n as int) =~= qual_string@);
    Ratio::of(qual_sum, n as u128)
}

/// The mean Phred score of the quality line of each complete record of the
/// FASTQ stream `data`, in order.
pub fn read_quality_means(data: &[u8]) -> (r: Vec<Ratio>)
    ensures
        r@.len() == records_of(data@).len(),
        forall|k: int|
            0 <= k < r@.len() ==> #[trigger] r@[k] == ratio_or_zero(
                phred_sum(records_of(data@)[k].qual),
                records_of(data@)[k].qual.len() as int,
            ),
{
    let (records, _complete) = read_all(data);
    let ghost recs = records_of(data@);
    let mut r: Vec<Ratio> = Vec::new();
    let mut i: usize = 0;
    while i < records.len()
        invariant
            views_of(records@) == recs,
            i <= records@.len(),
            r@.len() == i,
            forall|k: int|
                0 <= k < i ==> #[trigger] r@[k] == ratio_or_zero(
                    phred_sum(recs[k].qual),
                    recs[k].qual.len() as int,
                ),
        decreases records@.len() - i,
    {
        assert(recs[i as int] == records@[i as int]@);
        r.push(read_qual(records[i].qual.as_slice()));
        i = i + 1;
    }
    r
}

/// Whether `s` ends with `suffix`.
pub open spec fn has_suffix(s: Seq<char>, suffix: Seq<char>) -> bool {
    suffix.len() <= s.len() && s.subrange(s.len() - suffix.len(), s.len() as int) == suffix
}

/// Whether an input path names a gzip-compressed file, by its `.gz` suffix.
pub fn is_gzip_path(path: &str) -> (r: bool)
    ensures
        r == has_suffix(path@, seq!['.', 'g', 'z']),
{
    let n = path.unicode_len();
    if n < 3 {
        return false;
    }
    let a = path.get_char(n - 3);
    let b = path.get_char(n - 2);
    let c = path.get_char(n - 1);
    let r = a == '.' && b == 'g' && c == 'z';
    assert(r == (path@.subrange(n - 3, n as int) =~= seq!['.', 'g', 'z']));
    r
}

/// The command-line options: the first read file, and optionally the second
/// read file of a paired-end run.
#[derive(Clone, Debug)]
pub struct Args {
    pub read1: String,
    pub read2: Option<String>,
}

/// One unit of work: summarize the reads of `input` into the file `output`.
pub struct Job {
    pub input: String,
    pub output: String,
}

impl Args {
    /// The files to process, in order, each with the name of its report:
    /// the first read file always, the second one when it is given.
    pub fn jobs(&self) -> (r: Vec<Job>)
        ensures
            r@.len() == if self.read2.is_some() { 2int } else { 1int },
            r@[0].input@ == self.read1@,
            r@[0].output@ == "output_read1.json"@,
            self.read2.is_some() ==> r@[1].input@ == self.read2.unwrap()@ && r@[1].output@
                == "output_read2.json"@,
    {
        let mut r: Vec<Job> = Vec::new();
        r.push(Job { input: self.read1.clone(), output: "output_read1.json".to_owned() });
        match &self.read2 {
            Some(p) => {
                r.push(Job { input: p.clone(), output: "output_read2.json".to_owned() });
            },
            None => {},
        }
        r
    }
}

} // verus!
