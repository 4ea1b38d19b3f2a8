use lightcurve::batch::{align_points, assemble_batch, max_sample_len, Batch};
use lightcurve::discover::list_learn_files;
use lightcurve::infer::{is_end_line, parse_point_line, predict_model, InferError, InputLineError};
use lightcurve::normalize::normalize_points;
use lightcurve::ops::{Classifier, ProgressSink, ScalarOps};
use lightcurve::parse::{parse_i64, parse_learn_content, split_lines, tokenize, ParseError};
use lightcurve::pipeline::{prepare_dataset, prepare_sample};
use lightcurve::train::{train_model, TrainConfig, TrainError, EPOCHS, F64_INF_BITS, REPORT_INTERVAL};
use lightcurve::Point;

/// Scalar capability over real IEEE 754 single/double precision.
struct Ops;

impl ScalarOps for Ops {
    fn parse_scalar(&self, token: &Vec<u8>) -> Option<u32> {
        let s = std::str::from_utf8(token).ok()?;
        let v: f32 = s.parse().ok()?;
        Some(v.to_bits())
    }
    fn add(&self, a: u32, b: u32) -> u32 {
        (f32::from_bits(a) + f32::from_bits(b)).to_bits()
    }
    fn sub(&self, a: u32, b: u32) -> u32 {
        (f32::from_bits(a) - f32::from_bits(b)).to_bits()
    }
    fn div(&self, a: u32, b: u32) -> u32 {
        (f32::from_bits(a) / f32::from_bits(b)).to_bits()
    }
    fn square(&self, a: u32) -> u32 {
        f32::from_bits(a).powi(2).to_bits()
    }
    fn sqrt(&self, a: u32) -> u32 {
        f32::from_bits(a).sqrt().to_bits()
    }
    fn of_count(&self, n: usize) -> u32 {
        (n as f32).to_bits()
    }
    fn is_positive(&self, a: u32) -> bool {
        f32::from_bits(a) > 0.0
    }
    fn loss_lower(&self, a: u64, b: u64) -> bool {
        f64::from_bits(a) < f64::from_bits(b)
    }
}

/// A classifier stand-in that replays a fixed loss schedule and records
/// how often it was stepped, saved, and asked to classify.
struct FakeClassifier {
    losses: Vec<f64>,
    epochs_run: usize,
    saves: usize,
    save_ok: bool,
    classify_calls: usize,
    predicted: i64,
}

impl FakeClassifier {
    fn with_losses(losses: Vec<f64>) -> FakeClassifier {
        FakeClassifier {
            losses,
            epochs_run: 0,
            saves: 0,
            save_ok: true,
            classify_calls: 0,
            predicted: 0,
        }
    }
}

impl Classifier for FakeClassifier {
    fn run_epoch(&mut self, _batch: &Batch) -> u64 {
        let loss = if self.losses.is_empty() {
            1.0
        } else {
            self.losses[self.epochs_run.min(self.losses.len() - 1)]
        };
        self.epochs_run += 1;
        loss.to_bits()
    }
    fn save_checkpoint(&mut self) -> bool {
        if self.save_ok {
            self.saves += 1;
        }
        self.save_ok
    }
    fn classify(&mut self, _input: &Vec<Point>) -> i64 {
        self.classify_calls += 1;
        self.predicted
    }
}

struct Recorder {
    reports: Vec<(usize, usize, u64)>,
}

impl ProgressSink for Recorder {
    fn emit(&mut self, epoch: usize, total: usize, loss: u64) {
        self.reports.push((epoch, total, loss));
    }
}

fn pts(raw: &[(f32, f32)]) -> Vec<Point> {
    raw.iter()
        .map(|&(f, t)| Point { flux: f.to_bits(), time: t.to_bits() })
        .collect()
}

fn fluxes(points: &[Point]) -> Vec<f32> {
    points.iter().map(|p| f32::from_bits(p.flux)).collect()
}

fn times(points: &[Point]) -> Vec<f32> {
    points.iter().map(|p| f32::from_bits(p.time)).collect()
}

fn tiny_batch() -> Batch {
    let samples = vec![(pts(&[(1.0, 0.0), (2.0, 1.0)]), 1i64)];
    assemble_batch(&samples, 2)
}

#[test]
fn normalized_channels_have_zero_mean_unit_std() {
    let points = pts(&[(1.0, 0.0), (2.0, 1.0), (5.0, 3.0), (9.0, 7.0)]);
    let n = normalize_points(&Ops, &points);
    assert_eq!(n.points.len(), 4);
    assert!(n.flux_scaled);
    assert!(n.time_scaled);
    for values in [fluxes(&n.points), times(&n.points)] {
        let count = values.len() as f32;
        let mean: f32 = values.iter().sum::<f32>() / count;
        let var: f32 = values.iter().map(|v| (v - mean) * (v - mean)).sum::<f32>() / count;
        assert!(mean.abs() < 1e-5, "mean {mean}");
        assert!((var.sqrt() - 1.0).abs() < 1e-4, "std {}", var.sqrt());
    }
}

#[test]
fn constant_channel_normalizes_to_exact_zero() {
    let points = pts(&[(3.5, 1.0), (3.5, 2.0), (3.5, 3.0)]);
    let n = normalize_points(&Ops, &points);
    assert!(!n.flux_scaled);
    assert!(n.time_scaled);
    for v in fluxes(&n.points) {
        assert_eq!(v, 0.0);
        assert_eq!(v.to_bits(), 0);
    }
    // the time channel is independent of the constant flux channel
    assert!(times(&n.points).iter().any(|v| *v != 0.0));
}

#[test]
fn align_pads_with_zero_pairs() {
    let points = pts(&[(1.0, 2.0), (3.0, 4.0)]);
    let a = align_points(&points, 5);
    assert_eq!(a.len(), 5);
    assert_eq!(&a[..2], &points[..]);
    for p in &a[2..] {
        assert_eq!(p.flux, 0);
        assert_eq!(p.time, 0);
    }
}

#[test]
fn align_truncates_from_the_end() {
    let points = pts(&[(1.0, 2.0), (3.0, 4.0), (5.0, 6.0)]);
    let a = align_points(&points, 2);
    assert_eq!(a.len(), 2);
    assert_eq!(&a[..], &points[..2]);
}

#[test]
fn align_keeps_equal_length_unchanged() {
    let points = pts(&[(1.0, 2.0), (3.0, 4.0)]);
    let a = align_points(&points, 2);
    assert_eq!(&a[..], &points[..]);
}

#[test]
fn best_loss_is_monotone_and_checkpoints_iff_improved() {
    let mut losses = Vec::new();
    for e in 1..=200usize {
        // falls, then rises again: later boundaries must not checkpoint
        let x = e as f64;
        losses.push((x - 120.0) * (x - 120.0) / 1000.0 + 0.5);
    }
    let mut clf = FakeClassifier::with_losses(losses);
    let mut sink = Recorder { reports: Vec::new() };
    let cfg = TrainConfig { epochs: 200, report_interval: 50, initial_best: F64_INF_BITS };
    let batch = tiny_batch();
    let rep = train_model(&mut clf, &Ops, &mut sink, &batch, &cfg).unwrap();
    assert_eq!(rep.reports.len(), 4);
    let mut best = f64::INFINITY;
    let mut improvements = 0;
    for r in &rep.reports {
        let loss = f64::from_bits(r.loss);
        assert_eq!(f64::from_bits(r.best_before), best);
        assert_eq!(r.improved, loss < best);
        if r.improved {
            best = loss;
            improvements += 1;
        }
        assert_eq!(f64::from_bits(r.best_after), best);
        assert!(f64::from_bits(r.best_after) <= f64::from_bits(r.best_before));
    }
    // losses fall until epoch 120 and rise after: epochs 50 and 100 improve,
    // 150 and 200 do not
    assert_eq!(improvements, 2);
    assert_eq!(clf.saves, 2);
    assert_eq!(clf.epochs_run, 200);
}

#[test]
fn final_epoch_always_reports_even_off_interval() {
    let mut clf = FakeClassifier::with_losses(vec![1.0]);
    let mut sink = Recorder { reports: Vec::new() };
    let cfg = TrainConfig { epochs: 60, report_interval: 50, initial_best: F64_INF_BITS };
    let batch = tiny_batch();
    let rep = train_model(&mut clf, &Ops, &mut sink, &batch, &cfg).unwrap();
    let epochs: Vec<usize> = rep.reports.iter().map(|r| r.epoch).collect();
    assert_eq!(epochs, vec![50, 60]);
    // the constant loss improves on infinity once and never again
    assert!(rep.reports[0].improved);
    assert!(!rep.reports[1].improved);
    assert_eq!(clf.saves, 1);
}

#[test]
fn zero_epochs_train_nothing() {
    let mut clf = FakeClassifier::with_losses(vec![1.0]);
    let mut sink = Recorder { reports: Vec::new() };
    let cfg = TrainConfig { epochs: 0, report_interval: 50, initial_best: F64_INF_BITS };
    let batch = tiny_batch();
    let rep = train_model(&mut clf, &Ops, &mut sink, &batch, &cfg).unwrap();
    assert!(rep.reports.is_empty());
    assert_eq!(rep.final_best, F64_INF_BITS);
    assert_eq!(clf.epochs_run, 0);
    assert_eq!(clf.saves, 0);
}

#[test]
fn failed_checkpoint_write_aborts_training() {
    let mut clf = FakeClassifier::with_losses(vec![1.0]);
    clf.save_ok = false;
    let mut sink = Recorder { reports: Vec::new() };
    let cfg = TrainConfig { epochs: 100, report_interval: 50, initial_best: F64_INF_BITS };
    let batch = tiny_batch();
    let r = train_model(&mut clf, &Ops, &mut sink, &batch, &cfg);
    assert_eq!(r.unwrap_err(), TrainError::Persistence { epoch: 50 });
}

#[test]
fn full_run_produces_exactly_forty_reports() {
    let mut losses = Vec::new();
    for e in 1..=EPOCHS {
        losses.push(1.0 / e as f64);
    }
    let mut clf = FakeClassifier::with_losses(losses);
    let mut sink = Recorder { reports: Vec::new() };
    let cfg = TrainConfig::full_run();
    assert_eq!(cfg.epochs, 2000);
    assert_eq!(cfg.report_interval, 50);
    let batch = tiny_batch();
    let rep = train_model(&mut clf, &Ops, &mut sink, &batch, &cfg).unwrap();
    assert_eq!(rep.reports.len(), 40);
    assert_eq!(sink.reports.len(), 40);
    assert_eq!(rep.reports.last().unwrap().epoch, 2000);
    for (i, r) in rep.reports.iter().enumerate() {
        assert_eq!(r.epoch, (i + 1) * REPORT_INTERVAL);
    }
    // strictly falling losses: every boundary improves, one write each
    assert!(clf.saves <= 40);
    assert_eq!(clf.saves, 40);
}

#[test]
fn sample_file_parses_to_label_and_points() {
    let content = b"1.0 0.0\n2.0 1.0\nresult 3\n".to_vec();
    let raw = parse_learn_content(&Ops, &content).unwrap();
    assert_eq!(raw.label, 3);
    assert_eq!(raw.points.len(), 2);
    assert_eq!(f32::from_bits(raw.points[0].flux), 1.0);
    assert_eq!(f32::from_bits(raw.points[1].time), 1.0);

    let (normalized, label) = prepare_sample(&Ops, &content).unwrap();
    assert_eq!(label, 3);
    let f = fluxes(&normalized);
    assert!((f[0] + 1.0).abs() < 1e-5, "flux {}", f[0]);
    assert!((f[1] - 1.0).abs() < 1e-5, "flux {}", f[1]);
}

#[test]
fn discovery_filters_and_sorts() {
    let names: Vec<Vec<u8>> = vec![
        b"notes.txt".to_vec(),
        b"learn2.txt".to_vec(),
        b"learn1.txt".to_vec(),
        b"learning.log".to_vec(),
        b"xlearn3.txt".to_vec(),
    ];
    let r = list_learn_files(&names);
    let got: Vec<&[u8]> = r.iter().map(|n| n.as_slice()).collect();
    assert_eq!(got, vec![b"learn1.txt".as_slice(), b"learn2.txt".as_slice()]);
}

#[test]
fn discovery_of_nothing_is_empty() {
    let names: Vec<Vec<u8>> = vec![b"notes.txt".to_vec(), b"learn".to_vec()];
    let r = list_learn_files(&names);
    assert!(r.is_empty());
}

#[test]
fn empty_input_is_degenerate_and_never_classifies() {
    let mut clf = FakeClassifier::with_losses(vec![]);
    clf.predicted = 7;
    let r = predict_model(&mut clf, &Ops, &Vec::new(), 10);
    assert_eq!(r.unwrap_err(), InferError::DegenerateInput);
    assert_eq!(clf.classify_calls, 0);

    let points = pts(&[(0.9, 1.0)]);
    let r = predict_model(&mut clf, &Ops, &points, 10);
    assert_eq!(r.unwrap(), 7);
    assert_eq!(clf.classify_calls, 1);
}

#[test]
fn malformed_records_are_rejected_with_their_line() {
    let one_token = b"1.0\nresult 3\n".to_vec();
    assert_eq!(
        parse_learn_content(&Ops, &one_token).unwrap_err(),
        ParseError::MalformedRecord { line: 0 }
    );
    let non_numeric = b"1.0 0.0\n2.0 abc\nresult 1\n".to_vec();
    assert_eq!(
        parse_learn_content(&Ops, &non_numeric).unwrap_err(),
        ParseError::MalformedRecord { line: 1 }
    );
    let bare_result = b"1.0 2.0\nresult\n".to_vec();
    assert_eq!(
        parse_learn_content(&Ops, &bare_result).unwrap_err(),
        ParseError::MalformedRecord { line: 1 }
    );
    let bad_label = b"1.0 2.0\nresult x\n".to_vec();
    assert_eq!(
        parse_learn_content(&Ops, &bad_label).unwrap_err(),
        ParseError::MalformedRecord { line: 1 }
    );
    let three_tokens = b"1.0 2.0 3.0\n".to_vec();
    assert_eq!(
        parse_learn_content(&Ops, &three_tokens).unwrap_err(),
        ParseError::MalformedRecord { line: 0 }
    );
}

#[test]
fn prepare_sample_forwards_parse_errors() {
    let one_token = b"1.0 2.0\nbad\n".to_vec();
    assert_eq!(
        prepare_sample(&Ops, &one_token).unwrap_err(),
        ParseError::MalformedRecord { line: 1 }
    );
    let no_data = b"result 4\n".to_vec();
    assert_eq!(
        prepare_sample(&Ops, &no_data).unwrap_err(),
        ParseError::DegenerateSample
    );
}

#[test]
fn file_without_data_lines_is_degenerate() {
    let content = b"result 3\n".to_vec();
    assert_eq!(
        parse_learn_content(&Ops, &content).unwrap_err(),
        ParseError::DegenerateSample
    );
    let empty = Vec::new();
    assert_eq!(
        parse_learn_content(&Ops, &empty).unwrap_err(),
        ParseError::DegenerateSample
    );
}

#[test]
fn missing_label_defaults_to_zero_and_last_label_wins() {
    let unlabeled = b"1.0 2.0\n3.0 4.0\n".to_vec();
    assert_eq!(parse_learn_content(&Ops, &unlabeled).unwrap().label, 0);
    let twice = b"result 1\n1.0 2.0\nresult 2\n".to_vec();
    assert_eq!(parse_learn_content(&Ops, &twice).unwrap().label, 2);
}

#[test]
fn integer_tokens_parse_exactly() {
    assert_eq!(parse_i64(&b"42".to_vec()), Some(42));
    assert_eq!(parse_i64(&b"-7".to_vec()), Some(-7));
    assert_eq!(parse_i64(&b"+5".to_vec()), Some(5));
    assert_eq!(parse_i64(&b"0".to_vec()), Some(0));
    assert_eq!(parse_i64(&b"".to_vec()), None);
    assert_eq!(parse_i64(&b"-".to_vec()), None);
    assert_eq!(parse_i64(&b"1a".to_vec()), None);
    assert_eq!(parse_i64(&b"9223372036854775807".to_vec()), Some(i64::MAX));
    assert_eq!(parse_i64(&b"9223372036854775808".to_vec()), None);
    assert_eq!(parse_i64(&b"-9223372036854775808".to_vec()), Some(i64::MIN));
    assert_eq!(parse_i64(&b"-9223372036854775809".to_vec()), None);
}

#[test]
fn tokenizer_and_line_splitter_follow_the_format() {
    let toks = tokenize(&b"  1.5\t2.5 ".to_vec());
    assert_eq!(toks, vec![b"1.5".to_vec(), b"2.5".to_vec()]);
    let lines = split_lines(&b"a b\r\nc\n\nd".to_vec());
    assert_eq!(
        lines,
        vec![b"a b".to_vec(), b"c".to_vec(), b"".to_vec(), b"d".to_vec()]
    );
}

#[test]
fn interactive_lines_parse_or_report() {
    let ok = parse_point_line(&Ops, &b"0.998 131.2".to_vec()).unwrap();
    assert_eq!(f32::from_bits(ok.flux), 0.998);
    assert_eq!(f32::from_bits(ok.time), 131.2);
    assert_eq!(
        parse_point_line(&Ops, &b"0.998".to_vec()),
        Err(InputLineError::WrongTokenCount)
    );
    assert_eq!(
        parse_point_line(&Ops, &b"a b".to_vec()),
        Err(InputLineError::NonNumeric)
    );
    assert!(is_end_line(&b"end".to_vec()));
    assert!(is_end_line(&b"  end ".to_vec()));
    assert!(!is_end_line(&b"end x".to_vec()));
    assert!(!is_end_line(&b"ende".to_vec()));
}

#[test]
fn dataset_is_one_full_batch_at_the_longest_length() {
    let contents = vec![
        b"1.0 0.0\n2.0 1.0\nresult 3\n".to_vec(),
        b"result 1\n5.0 0.0\n6.0 1.0\n7.0 2.0\n".to_vec(),
    ];
    let batch = prepare_dataset(&Ops, &contents).unwrap();
    assert_eq!(batch.seq_len, 3);
    assert_eq!(batch.rows.len(), 2);
    assert_eq!(batch.labels, vec![3, 1]);
    for row in &batch.rows {
        assert_eq!(row.len(), 3);
    }
    // the shorter sample is padded with zero pairs at the end
    assert_eq!(batch.rows[0][2].flux, 0);
    assert_eq!(batch.rows[0][2].time, 0);
}

#[test]
fn dataset_error_names_the_file() {
    let contents = vec![
        b"1.0 0.0\nresult 1\n".to_vec(),
        b"oops\n".to_vec(),
    ];
    let e = prepare_dataset(&Ops, &contents).unwrap_err();
    assert_eq!(e.file, 1);
    assert_eq!(e.cause, ParseError::MalformedRecord { line: 0 });
}

#[test]
fn longest_sample_sets_the_length() {
    let samples = vec![
        (pts(&[(1.0, 1.0)]), 0i64),
        (pts(&[(1.0, 1.0), (2.0, 2.0), (3.0, 3.0)]), 1i64),
        (pts(&[(1.0, 1.0), (2.0, 2.0)]), 2i64),
    ];
    assert_eq!(max_sample_len(&samples), 3);
}
