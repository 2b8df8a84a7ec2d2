use fastq_stats::explain::{name_layout, split_name, NameLayout};
use fastq_stats::parser::{is_gzip_path, read_quality_means, Args};
use fastq_stats::ratio::Ratio;
use fastq_stats::record::{read_all, read_next, FastqRecord, ReadOutcome};
use fastq_stats::runner::{Accumulator, RunError, Statistic, WorkflowRunner};

fn as_f64(r: Ratio) -> f64 {
    r.numer as f64 / r.denom as f64
}

const TWO_RECORDS: &[u8] = b"@r1\nACGT\n+\nIIII\n@r2\nGGCC\n+\n&&+5\n";

#[test]
fn reader_frames_records_then_ends() {
    let mut record = FastqRecord::default();
    let first = read_next(TWO_RECORDS, 0, &mut record);
    let next = match first {
        ReadOutcome::Record { next } => next,
        other => panic!("expected a record, got {:?}", other),
    };
    assert_eq!(record.seq, b"ACGT".to_vec());
    assert_eq!(record.qual, b"IIII".to_vec());
    let second = read_next(TWO_RECORDS, next, &mut record);
    let next = match second {
        ReadOutcome::Record { next } => next,
        other => panic!("expected a record, got {:?}", other),
    };
    assert_eq!(record.seq, b"GGCC".to_vec());
    assert_eq!(record.qual, b"&&+5".to_vec());
    assert_eq!(next, TWO_RECORDS.len());
    assert_eq!(read_next(TWO_RECORDS, next, &mut record), ReadOutcome::EndOfStream);
}

#[test]
fn reader_overwrites_longer_previous_record() {
    let data = b"@a\nAAAAAAAA\n+\nIIIIIIII\n@b\nC\n+\n5\n";
    let (records, complete) = read_all(data);
    assert!(complete);
    assert_eq!(records.len(), 2);
    assert_eq!(records[1].seq, b"C".to_vec());
    assert_eq!(records[1].qual, b"5".to_vec());
}

#[test]
fn reader_strips_line_terminators() {
    let data = b"@a\r\nAC\r\n+\r\nII\r\n";
    let (records, complete) = read_all(data);
    assert!(complete);
    assert_eq!(records, vec![FastqRecord { seq: b"AC".to_vec(), qual: b"II".to_vec() }]);
}

#[test]
fn reader_accepts_missing_final_newline() {
    let data = b"@a\nAC\n+\nII";
    let (records, complete) = read_all(data);
    assert!(complete);
    assert_eq!(records.len(), 1);
    assert_eq!(records[0].qual, b"II".to_vec());
}

#[test]
fn reader_counts_records_by_lines() {
    let mut data: Vec<u8> = Vec::new();
    for k in 0..12 {
        let line = format!("line{}\n", k);
        data.extend_from_slice(line.as_bytes());
        let (records, complete) = read_all(&data);
        let lines = k + 1;
        assert_eq!(records.len(), lines / 4);
        assert_eq!(complete, lines % 4 == 0);
    }
    let (records, complete) = read_all(b"");
    assert!(records.is_empty());
    assert!(complete);
}

#[test]
fn six_lines_give_one_record_then_framing_error() {
    let data = b"@r1\nACGT\n+\nIIII\n@r2\nGG\n";
    let mut record = FastqRecord::default();
    let next = match read_next(data, 0, &mut record) {
        ReadOutcome::Record { next } => next,
        other => panic!("expected a record, got {:?}", other),
    };
    assert_eq!(read_next(data, next, &mut record), ReadOutcome::FramingError);

    let mut runner = WorkflowRunner::standard();
    assert_eq!(runner.process(data), Err(RunError::Truncated { records: 1 }));
    for stat in runner.finalize().iter() {
        match stat {
            Accumulator::AvBaseQuality(s) => assert_eq!(as_f64(s.mean()), 40.0),
            Accumulator::AverageProportions(s) => assert_eq!(s.counts().len(), 4),
            Accumulator::GcPerRead(s) => assert_eq!(s.total_bases(), 4),
            Accumulator::ReadLength(s) => assert_eq!(s.lengths(), &vec![4]),
            Accumulator::GcPerPosition(s) => {
                let r: Vec<f64> = s.results().into_iter().map(as_f64).collect();
                assert_eq!(r, vec![0.0, 1.0, 1.0, 0.0]);
            }
            Accumulator::QualityPerPosition(_) => panic!("not registered"),
        }
    }
}

#[test]
fn empty_stream_gives_zero_summaries() {
    let mut runner = WorkflowRunner::standard();
    assert_eq!(runner.process(b""), Ok(0));
    let stats = runner.finalize();
    assert_eq!(stats.len(), 5);
    for stat in stats.iter() {
        match stat {
            Accumulator::AvBaseQuality(s) => assert_eq!(as_f64(s.mean()), 0.0),
            Accumulator::AverageProportions(s) => assert!(s.proportions().is_empty()),
            Accumulator::GcPerRead(s) => {
                assert_eq!(s.total_gc(), 0);
                assert_eq!(s.total_bases(), 0);
                assert_eq!(as_f64(s.average_gc()), 0.0);
                assert!(s.gc_fractions().is_empty());
            }
            Accumulator::ReadLength(s) => {
                let summary = s.summarize();
                assert_eq!((summary.min_length, summary.max_length, summary.total_length), (0, 0, 0));
                assert_eq!(as_f64(summary.average_length), 0.0);
            }
            Accumulator::GcPerPosition(s) => assert!(s.results().is_empty()),
            Accumulator::QualityPerPosition(_) => panic!("not registered"),
        }
    }
}

#[test]
fn runner_feeds_every_accumulator() {
    let mut runner = WorkflowRunner::new();
    runner.register(Accumulator::QualityPerPosition(
        fastq_stats::statistics::basequalitypos::BaseQualityPosStatistic::new(),
    ));
    runner.register(Accumulator::AvBaseQuality(
        fastq_stats::statistics::avbase::AvBaseQualityStatistic::new(),
    ));
    assert_eq!(runner.process(TWO_RECORDS), Ok(2));
    let stats = runner.finalize();
    match &stats[0] {
        Accumulator::QualityPerPosition(s) => {
            assert_eq!(
                s.results(),
                vec![
                    Ratio { numer: 45, denom: 2 },
                    Ratio { numer: 45, denom: 2 },
                    Ratio { numer: 50, denom: 2 },
                    Ratio { numer: 60, denom: 2 },
                ]
            );
        }
        _ => panic!("wrong order"),
    }
    match &stats[1] {
        Accumulator::AvBaseQuality(s) => {
            assert_eq!(s.mean(), Ratio { numer: 200, denom: 8 });
            assert_eq!(s.count(), 8);
        }
        _ => panic!("wrong order"),
    }
}

#[test]
fn accumulator_dispatch_matches_direct_use() {
    let mut acc = Accumulator::GcPerRead(fastq_stats::statistics::gcperread::GCContentStatistic::new());
    let r = FastqRecord { seq: b"GCGA".to_vec(), qual: b"IIII".to_vec() };
    assert!(acc.can_process(&r));
    acc.process(&r);
    match acc {
        Accumulator::GcPerRead(s) => assert_eq!(s.average_gc(), Ratio { numer: 3, denom: 4 }),
        _ => unreachable!(),
    }
}

#[test]
fn quality_means_per_read() {
    let means: Vec<f64> = read_quality_means(TWO_RECORDS).into_iter().map(as_f64).collect();
    assert_eq!(means, vec![40.0, 10.0]);
    let truncated = b"@r1\nACGT\n+\nIIII\n@r2\n";
    assert_eq!(read_quality_means(truncated).len(), 1);
}

#[test]
fn gzip_paths_by_suffix() {
    assert!(is_gzip_path("data/test.R1com.fastq.gz"));
    assert!(!is_gzip_path("data/test.R1.fastq"));
    assert!(!is_gzip_path("gz"));
    assert!(is_gzip_path(".gz"));
}

#[test]
fn jobs_follow_the_arguments() {
    let args = Args { read1: "a.fastq".to_string(), read2: None };
    let jobs = args.jobs();
    assert_eq!(jobs.len(), 1);
    assert_eq!(jobs[0].input, "a.fastq");
    assert_eq!(jobs[0].output, "output_read1.json");
    let args = Args { read1: "a.fastq".to_string(), read2: Some("b.fastq.gz".to_string()) };
    let jobs = args.jobs();
    assert_eq!(jobs.len(), 2);
    assert_eq!(jobs[1].input, "b.fastq.gz");
    assert_eq!(jobs[1].output, "output_read2.json");
}

#[test]
fn split_file_name_into_fields() {
    let fields = split_name("NIST7035_TAAGGCGA_L001_R1_001.fastq.gz");
    assert_eq!(fields, vec!["NIST7035", "TAAGGCGA", "L001", "R1", "001", "fastq", "gz"]);
    assert_eq!(name_layout(&fields), NameLayout::FileName);
}

#[test]
fn split_read_header_into_fields() {
    let fields = split_name("@HWI-D00107:50:H6BP8ACWV:5:2204:10131:51624 2:N:0:AGGCAGAA");
    assert_eq!(
        fields,
        vec!["@HWI-D00107", "50", "H6BP8ACWV", "5", "2204", "10131", "51624", "2", "N", "0", "AGGCAGAA"]
    );
    assert_eq!(name_layout(&fields), NameLayout::ReadHeader);
    assert_eq!(split_name(""), vec![""]);
    assert_eq!(split_name("a..b"), vec!["a", "", "b"]);
    assert_eq!(name_layout(&split_name("a_b")), NameLayout::Unknown);
}

#[test]
fn record_consistency_is_detectable() {
    let (records, complete) = read_all(b"@a\nACGT\n+\nII\n");
    assert!(complete);
    assert!(!records[0].is_consistent());
    let (records, _) = read_all(TWO_RECORDS);
    assert!(records.iter().all(|r| r.is_consistent()));
}
