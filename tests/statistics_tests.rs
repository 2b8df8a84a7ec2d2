use fastq_stats::ratio::Ratio;
use fastq_stats::runner::{FastqRecord, Statistic};
use fastq_stats::statistics::avbase::AvBaseQualityStatistic;
use fastq_stats::statistics::avproportion::{
    calculate_proportions, count_bases_per_position, AverageProportionsStatistic, BaseCounts,
};
use fastq_stats::statistics::basequalitypos::{avg_base_quality, BaseQualityPosStatistic, QualityCounts};
use fastq_stats::statistics::gccontentpos::{gc_content_per_position, CGContentPosStatistic};
use fastq_stats::statistics::gcperread::GCContentStatistic;
use fastq_stats::statistics::length::{LengthSummary, ReadLengthStatistic};

fn as_f64(r: Ratio) -> f64 {
    r.numer as f64 / r.denom as f64
}

fn rec(seq: &[u8], qual: &[u8]) -> FastqRecord {
    FastqRecord { seq: seq.to_vec(), qual: qual.to_vec() }
}

fn gc_reads() -> Vec<FastqRecord> {
    vec![rec(b"ACGT", b"IIII"), rec(b"GGCC", b"IIII"), rec(b"ATGC", b"IIII")]
}

#[test]
fn test_av_base_quality_statistic_with_rolling_mean() {
    let record = rec(b"AGCT", b"IIII");
    let mut av_stat = AvBaseQualityStatistic::new();
    av_stat.process(&record);
    let mean = as_f64(av_stat.mean());
    println!("Final Rolling Mean: {:.2}", mean);
    assert!((mean - 40.0).abs() < 0.01);
}

#[test]
fn running_mean_of_mixed_scores() {
    let mut av_stat = AvBaseQualityStatistic::new();
    av_stat.process(&rec(b"AAA", b"&&+"));
    assert_eq!(as_f64(av_stat.mean()), 6.666666666666667);
    av_stat.process(&rec(b"A", b"I"));
    av_stat.process(&rec(b"", b""));
    assert_eq!(av_stat.count(), 4);
    assert_eq!(av_stat.mean(), Ratio { numer: 60, denom: 4 });
}

#[test]
fn running_mean_matches_arithmetic_mean() {
    let quals: Vec<&[u8]> = vec![b"!#%'", b"5?IJ", b"~", b"++++++"];
    let mut av_stat = AvBaseQualityStatistic::new();
    let mut sum = 0.0f64;
    let mut n = 0.0f64;
    for q in &quals {
        av_stat.process(&rec(q, q));
        for &b in q.iter() {
            sum += (b - 33) as f64;
            n += 1.0;
        }
    }
    assert!((as_f64(av_stat.mean()) - sum / n).abs() < 1e-9);
}

#[test]
fn test_average_proportions_statistic_to_json() {
    let counts = vec![
        BaseCounts { a: 10, c: 20, g: 30, t: 40, n: 0 },
        BaseCounts { a: 5, c: 15, g: 25, t: 35, n: 0 },
    ];
    let proportions: Vec<(f64, f64, f64, f64, f64)> = calculate_proportions(&counts)
        .iter()
        .map(|p| (as_f64(p.0), as_f64(p.1), as_f64(p.2), as_f64(p.3), as_f64(p.4)))
        .collect();
    let json_output = serde_json::to_string(&proportions).unwrap();
    let expected_json = r#"[[0.1,0.2,0.3,0.4,0.0],[0.0625,0.1875,0.3125,0.4375,0.0]]"#;
    println!("JSON Output: {}", json_output);
    assert_eq!(json_output, expected_json);
}

#[test]
fn tally_proportions_of_known_counts() {
    let t = BaseCounts { a: 10, c: 20, g: 30, t: 40, n: 0 };
    assert_eq!(t.get_total(), 100);
    let p = t.get_proportions(t.get_total());
    let v = [as_f64(p.0), as_f64(p.1), as_f64(p.2), as_f64(p.3), as_f64(p.4)];
    assert_eq!(v, [0.1, 0.2, 0.3, 0.4, 0.0]);
}

#[test]
fn tally_proportions_sum_to_one() {
    let tallies = [
        BaseCounts { a: 1, c: 1, g: 1, t: 0, n: 0 },
        BaseCounts { a: 3, c: 0, g: 7, t: 11, n: 13 },
        BaseCounts { a: 0, c: 0, g: 0, t: 0, n: 9 },
    ];
    for t in tallies.iter() {
        let p = t.get_proportions(t.get_total());
        let s = as_f64(p.0) + as_f64(p.1) + as_f64(p.2) + as_f64(p.3) + as_f64(p.4);
        assert!((s - 1.0).abs() < 1e-12);
    }
    let empty = BaseCounts::new();
    let p = empty.get_proportions(empty.get_total());
    for r in [p.0, p.1, p.2, p.3, p.4] {
        assert_eq!(as_f64(r), 0.0);
    }
}

#[test]
fn tally_update_sorts_bases() {
    let mut t = BaseCounts::new();
    for &b in b"ACGTNacgt-".iter() {
        t.update(b);
    }
    assert_eq!(t, BaseCounts { a: 1, c: 1, g: 1, t: 1, n: 6 });
}

#[test]
fn proportions_grow_with_longest_read() {
    let mut stat = AverageProportionsStatistic::new();
    stat.process(&rec(b"ACG", b"III"));
    assert_eq!(stat.counts().len(), 3);
    stat.process(&rec(b"TTTTT", b"IIIII"));
    assert_eq!(stat.counts().len(), 5);
    stat.process(&rec(b"GN", b"II"));
    assert_eq!(stat.counts().len(), 5);
    let totals: Vec<u64> = stat.counts().iter().map(|c| c.get_total()).collect();
    assert_eq!(totals, vec![3, 3, 2, 1, 1]);
    let props = stat.proportions();
    assert_eq!(props.len(), 5);
    assert_eq!(props[0].0, Ratio { numer: 1, denom: 3 });
    assert_eq!(props[1].4, Ratio { numer: 1, denom: 3 });
    assert_eq!(props[4].3, Ratio { numer: 1, denom: 1 });
}

#[test]
fn test_base_quality_pos_statistic() {
    let mut statistic = BaseQualityPosStatistic::new();
    let reads = vec![rec(b"ACGT", b"AAA!"), rec(b"ACGT", b"BBB!"), rec(b"ACGT", b"xxx!")];
    for record in reads.iter() {
        statistic.process(record);
    }
    let results: Vec<f64> = statistic.results().into_iter().map(as_f64).collect();
    let expected: Vec<f64> = vec![50.666666666666664, 50.666666666666664, 50.666666666666664, 0.0];
    assert_eq!(results, expected);
    let direct: Vec<f64> = avg_base_quality(&reads).into_iter().map(as_f64).collect();
    assert_eq!(direct, expected);
}

#[test]
fn quality_per_position_with_uneven_reads() {
    let reads = vec![rec(b"AC", b"+5"), rec(b"A", b"I")];
    let r = avg_base_quality(&reads);
    assert_eq!(r, vec![Ratio { numer: 50, denom: 2 }, Ratio { numer: 20, denom: 1 }]);
    assert!(avg_base_quality(&Vec::new()).is_empty());
}

#[test]
fn quality_counts_average() {
    let mut q = QualityCounts::new();
    assert_eq!(q.get_average(), Ratio { numer: 0, denom: 1 });
    q.update(10);
    q.update(5);
    assert_eq!(q.get_average(), Ratio { numer: 15, denom: 2 });
}

#[test]
fn test_gc_content_per_position() {
    let reads = gc_reads();
    let results = gc_content_per_position(&reads);
    let expected: Vec<f64> = vec![0.333, 0.666, 1.0, 0.666];
    assert_eq!(results.len(), expected.len());
    for (computed, expected) in results.iter().zip(expected.iter()) {
        assert!((as_f64(*computed) - expected).abs() < 0.01, "Mismatch at position");
    }
}

#[test]
fn test_cg_content_pos_statistic() {
    let mut statistic = CGContentPosStatistic::new();
    let reads = gc_reads();
    for record in reads.iter() {
        statistic.process(record);
    }
    let results = statistic.results();
    let expected: Vec<f64> = vec![0.333, 0.666, 1.0, 0.666];
    assert_eq!(results.len(), expected.len());
    for (computed, expected) in results.iter().zip(expected.iter()) {
        assert!((as_f64(*computed) - expected).abs() < 0.01, "Mismatch at position");
    }
}

#[test]
fn gc_per_position_counts_only_covering_reads() {
    let reads = vec![rec(b"GGGG", b"IIII"), rec(b"A", b"I")];
    let r = gc_content_per_position(&reads);
    assert_eq!(
        r,
        vec![
            Ratio { numer: 1, denom: 2 },
            Ratio { numer: 1, denom: 1 },
            Ratio { numer: 1, denom: 1 },
            Ratio { numer: 1, denom: 1 },
        ]
    );
}

#[test]
fn gc_per_read_fractions_and_totals() {
    let mut stat = GCContentStatistic::new();
    stat.process(&rec(b"GGCC", b"IIII"));
    stat.process(&rec(b"", b""));
    stat.process(&rec(b"ATGA", b"IIII"));
    assert_eq!(stat.total_gc(), 5);
    assert_eq!(stat.total_bases(), 8);
    assert_eq!(as_f64(stat.average_gc()) * 100.0, 62.5);
    let per_read: Vec<f64> = stat.gc_fractions().iter().map(|r| as_f64(*r) * 100.0).collect();
    assert_eq!(per_read, vec![100.0, 0.0, 25.0]);
}

#[test]
fn read_lengths_summary() {
    let mut stat = ReadLengthStatistic::new();
    for s in [&b"ACGTA"[..], &b"AC"[..], &b"ACGTACGT"[..]] {
        stat.process(&rec(s, s));
    }
    let summary = stat.summarize();
    assert_eq!(summary.min_length, 2);
    assert_eq!(summary.max_length, 8);
    assert_eq!(summary.total_length, 15);
    assert_eq!(as_f64(summary.average_length), 5.0);
    assert_eq!(stat.lengths(), &vec![5, 2, 8]);
}

#[test]
fn summaries_are_idempotent() {
    let mut len = ReadLengthStatistic::new();
    let mut props = AverageProportionsStatistic::new();
    let mut gc = CGContentPosStatistic::new();
    for r in gc_reads().iter() {
        len.process(r);
        props.process(r);
        gc.process(r);
    }
    assert_eq!(len.summarize(), len.summarize());
    assert_eq!(props.proportions(), props.proportions());
    assert_eq!(gc.results(), gc.results());
}

#[test]
fn empty_accumulators_report_zero() {
    let av = AvBaseQualityStatistic::new();
    assert_eq!(as_f64(av.mean()), 0.0);
    assert!(AverageProportionsStatistic::new().proportions().is_empty());
    assert!(CGContentPosStatistic::new().results().is_empty());
    assert!(BaseQualityPosStatistic::new().results().is_empty());
    let gc = GCContentStatistic::new();
    assert_eq!((gc.total_gc(), gc.total_bases()), (0, 0));
    assert_eq!(as_f64(gc.average_gc()), 0.0);
    assert!(gc.gc_fractions().is_empty());
    let len = ReadLengthStatistic::new();
    assert_eq!(
        len.summarize(),
        LengthSummary {
            min_length: 0,
            max_length: 0,
            average_length: Ratio { numer: 0, denom: 1 },
            total_length: 0,
        }
    );
    assert!(len.lengths().is_empty());
}

#[test]
fn bases_counted_per_position_over_a_stream() {
    let data = b"@a\nACG\n+\nIII\n@b\nAT\n+\nII\n@c\n";
    let counts = count_bases_per_position(data);
    assert_eq!(
        counts,
        vec![
            BaseCounts { a: 2, c: 0, g: 0, t: 0, n: 0 },
            BaseCounts { a: 0, c: 1, g: 0, t: 1, n: 0 },
            BaseCounts { a: 0, c: 0, g: 1, t: 0, n: 0 },
        ]
    );
    let proportions = calculate_proportions(&counts);
    assert_eq!(proportions[1].1, Ratio { numer: 1, denom: 2 });
}
