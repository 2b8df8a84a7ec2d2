use fastq_stats::parser;
use fastq_stats::phred;
use fastq_stats::ratio::Ratio;
use fastq_stats::statistics::basequalitypos;

fn as_f64(r: Ratio) -> f64 {
    r.numer as f64 / r.denom as f64
}

#[test]
fn parser_test_calculate_phred_other() {
    let tests: Vec<(u8, u8)> = vec![(b'&', 5), (b'+', 10)];
    for test in tests {
        let res = parser::calculate_phred(test.0);
        assert_eq!(test.1, res);
    }
}

#[test]
fn parser_test_read_qual() {
    let qual_string = b"&&+";
    let res = parser::read_qual(qual_string);
    let expected = 6.666666666666667;
    println!("res :{} ", as_f64(res));
    assert_eq!(expected, as_f64(res));
}

#[test]
fn phred_test_calculate_phred_other() {
    let tests: Vec<(char, usize)> = vec![('&', 5), ('+', 10)];
    for test in tests {
        let res = phred::calculate_phred(test.0);
        assert_eq!(test.1, res);
    }
}

#[test]
fn phred_test_read_qual() {
    let qual_string = "&&+";
    let res: usize = phred::read_qual(qual_string);
    let expected: usize = 6;
    println!("res :{} ", res);
    assert_eq!(expected, res);
}

#[test]
fn test_calculate_phred() {
    let qual: u8 = b'&';
    let expected: u8 = 5;
    let res = basequalitypos::calculate_phred(qual);
    assert_eq!(expected, res);
}

#[test]
fn test_calculate_phred_range() {
    for ascii in 33..=126 {
        let qual = ascii as u8;
        let expected = (ascii - 33) as u8;
        assert_eq!(basequalitypos::calculate_phred(qual), expected);
    }
}

#[test]
fn basequalitypos_test_calculate_phred_other() {
    let tests: Vec<(u8, u8)> = vec![(b'&', 5), (b'+', 10)];
    for test in tests {
        let res = basequalitypos::calculate_phred(test.0);
        assert_eq!(test.1, res);
    }
}

#[test]
fn phred_below_floor_scores_zero() {
    assert_eq!(parser::calculate_phred(b' '), 0);
    assert_eq!(parser::calculate_phred(0), 0);
    assert_eq!(phred::calculate_phred('\n'), 0);
    assert_eq!(phred::calculate_phred('!'), 0);
    assert_eq!(phred::calculate_phred('I'), 40);
}

#[test]
fn read_qual_of_empty_line_is_zero() {
    let r = parser::read_qual(b"");
    assert_eq!(r, Ratio { numer: 0, denom: 1 });
    assert_eq!(phred::read_qual(""), 0);
}

#[test]
fn read_qual_keeps_exact_fraction() {
    let r = parser::read_qual(b"&&+");
    assert_eq!(r, Ratio { numer: 20, denom: 3 });
    assert_eq!(phred::read_qual("II5"), 33);
}

#[test]
fn ratio_of_zero_denominator_is_zero() {
    assert_eq!(Ratio::of(7, 0), Ratio { numer: 0, denom: 1 });
    assert_eq!(Ratio::of(7, 2), Ratio { numer: 7, denom: 2 });
}
