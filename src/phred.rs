//! Phred+33 quality scores of single characters and whole quality strings.
use vstd::prelude::*;

verus! {

/// The Phred score encoded by a quality code: the code minus 33. Codes below
/// the Phred+33 floor carry no quality and score zero.
pub open spec fn phred_of(code: int) -> int {
    if code >= 33 {
        code - 33
    } else {
        0
    }
}

/// Sum of the Phred scores of the characters of `s`.
pub open spec fn char_phred_sum(s: Seq<char>) -> int
    decreases s.len(),
{
    if s.len() == 0 {
        0
    } else {
        char_phred_sum(s.drop_last()) + phred_of(s.last() as int)
    }
}

/// Phred score of one quality character; characters below `'!'` score zero.
pub fn calculate_phred(qual: char) -> (r: usize)
    ensures
        r as int == phred_of(qual as int),
{
    let code = qual as u32;
    if code >= 33 {
        (code - 33) as usize
    } else {
        0
    }
}

/// Mean Phred score of a quality string, rounded down; zero for an empty string.
pub fn read_qual(qual_string: &str) -> (r: usize)
    ensures
        qual_string@.len() == 0 ==> r == 0,
        qual_string@.len() > 0 ==> r as int == char_phred_sum(qual_string@) / (
        qual_string@.len() as int),
{
    let n = qual_string.unicode_len();
    if n == 0 {
        return 0;
    }
    let mut qual_sum: u128 = 0;
    let mut i: usize = 0;
    while i < n
        invariant
            n as int == qual_string@.len(),
            i <= n,
            qual_sum as int == char_phred_sum(qual_string@.subrange(0, i as int)),
            qual_sum <= 0x11_0000 * i,
        decreases n - i,
    {
        let c = qual_string.get_char(i);
        let q = calculate_phred(c);
        proof {
            let s = qual_string@.subrange(0, i + 1);
            assert(s.drop_last() =~= qual_string@.subrange(0, i as int));
        }
        qual_sum = qual_sum + q as u128;
        i = i + 1;
    }
    assert(qual_string@.subrange(0, n as int) =~= qual_string@);
    let mean = qual_sum / (n as u128);
    assert(mean <= 0x11_0000) by (nonlinear_arith)
        requires
            qual_sum <= 0x11_0000 * n,
            n > 0,
            mean == qual_sum / (n as u128),
    ;
    mean as usize
}

} // verus!
