use std::path::PathBuf;

use ssh_bench::bench::{plan_samples, resolve_targets, select_runner_kind, select_target, SampleSlot};
use ssh_bench::cli::{BenchmarkKind, Config, TargetInput};
use ssh_bench::error::{AppError, ErrorKind};
use ssh_bench::model::{summarize_samples, SampleFacts};
use ssh_bench::report::{render_header_lines, render_trailer_lines};
use ssh_bench::target::Target;

fn config(kind: BenchmarkKind, parallel: usize, number: usize, warmup: usize) -> Config {
    Config {
        parallel,
        number,
        warmup,
        kind,
        target_input: TargetInput::Single(Target::new("u", "h", 22)),
        identity_path: PathBuf::from("/tmp/id"),
        command: "true".to_string(),
        throughput_command: "dd if={file} bs=1M count={count}".to_string(),
        size_bytes: 1024,
        file: "/dev/zero".to_string(),
        json: false,
    }
}

fn ok(metric: bool) -> SampleFacts {
    SampleFacts {
        success: true,
        has_metric: metric,
        has_setup_time: false,
        bytes_transferred: 0,
        missing_exit_status: false,
        error_kind: None,
    }
}

fn failed(kind: ErrorKind, missing: bool) -> SampleFacts {
    SampleFacts {
        success: false,
        has_metric: false,
        has_setup_time: false,
        bytes_transferred: 0,
        missing_exit_status: missing,
        error_kind: Some(kind),
    }
}

#[test]
fn runner_kind_names() {
    assert_eq!(select_runner_kind(BenchmarkKind::Auth), "auth");
    assert_eq!(select_runner_kind(BenchmarkKind::Command), "command");
}

#[test]
fn resolves_single_and_listed_targets() {
    let single = resolve_targets(&TargetInput::Single(Target::new("u", "h", 22)), "ignored").unwrap();
    assert_eq!(single, vec![Target::new("u", "h", 22)]);
    let listed = resolve_targets(&TargetInput::List(PathBuf::from("/x")), "a@b:1\n\nc@d:2\n").unwrap();
    assert_eq!(listed, vec![Target::new("a", "b", 1), Target::new("c", "d", 2)]);
    match resolve_targets(&TargetInput::List(PathBuf::from("/x")), "a@b:1\nc@d").unwrap_err() {
        AppError::Target(message) => assert_eq!(message, "missing :port suffix"),
        other => panic!("unexpected error {:?}", other),
    }
}

#[test]
fn selecting_from_no_targets_is_a_config_error() {
    match select_target(&[], 0, 0).unwrap_err() {
        AppError::Config(message) => assert_eq!(message, "no targets available"),
        other => panic!("unexpected error {:?}", other),
    }
    let targets = vec![Target::new("a", "h1", 1), Target::new("b", "h2", 2), Target::new("c", "h3", 3)];
    assert_eq!(select_target(&targets, 2, 2).unwrap().host, "h2");
}

#[test]
fn plans_latency_samples_per_worker() {
    // 2 workers, 3 measured, 1 warmup: 6 samples; worker i's j-th sample uses target (j + i) % 3
    let slots = plan_samples(&config(BenchmarkKind::Auth, 2, 3, 1), 3).unwrap();
    let expected: Vec<SampleSlot> = vec![
        SampleSlot { iteration: 0, worker: 0, target_index: 0 },
        SampleSlot { iteration: 1, worker: 1, target_index: 1 },
        SampleSlot { iteration: 2, worker: 0, target_index: 1 },
        SampleSlot { iteration: 3, worker: 1, target_index: 2 },
        SampleSlot { iteration: 4, worker: 0, target_index: 2 },
        SampleSlot { iteration: 5, worker: 1, target_index: 0 },
    ];
    assert_eq!(slots, expected);
}

#[test]
fn plans_one_throughput_sample_per_worker() {
    let slots = plan_samples(&config(BenchmarkKind::Throughput, 3, 0, 0), 2).unwrap();
    let targets: Vec<usize> = slots.iter().map(|s| s.target_index).collect();
    assert_eq!(targets, vec![0, 1, 0]);
    let slots = plan_samples(&config(BenchmarkKind::Throughput, 0, 0, 0), 2).unwrap();
    assert_eq!(slots.len(), 1);
}

#[test]
fn planning_without_targets_fails() {
    match plan_samples(&config(BenchmarkKind::Command, 1, 1, 0), 0).unwrap_err() {
        AppError::Config(message) => assert_eq!(message, "no targets available"),
        other => panic!("unexpected error {:?}", other),
    }
    assert!(plan_samples(&config(BenchmarkKind::Command, 0, 0, 0), 0).unwrap().is_empty());
}

#[test]
fn latency_window_is_taken_before_failures_are_dropped() {
    let samples = vec![
        failed(ErrorKind::CommandTimeout, false),
        ok(true),
        ok(true),
        failed(ErrorKind::CommandTimeout, false),
    ];
    let counts = summarize_samples(BenchmarkKind::Command, &samples, 1, 1, 2);
    assert_eq!(counts.metric_indices, vec![1, 2]);
    // a full run (1 + 1 + 2 samples) counts the retained window 1..3 only
    assert_eq!(counts.success_count, 2);
    assert_eq!(counts.failure_count, 0);
    assert!(counts.error_counts.is_empty());
    assert_eq!(counts.total_bytes, None);
}

#[test]
fn full_latency_run_counts_the_retained_window() {
    let samples = vec![
        ok(true),
        failed(ErrorKind::CommandTimeout, true),
        ok(true),
        failed(ErrorKind::Io, false),
        failed(ErrorKind::ReadTimeout, false),
    ];
    // warmup 1, parallel 2, number 2: the window is samples 1 and 2; the
    // warmup sample and the last two are left out of the counts
    let counts = summarize_samples(BenchmarkKind::Command, &samples, 1, 2, 2);
    assert_eq!(counts.success_count, 1);
    assert_eq!(counts.failure_count, 1);
    assert_eq!(counts.error_counts, vec![(ErrorKind::CommandTimeout, 1)]);
    assert_eq!(counts.missing_exit_status, 1);
    assert_eq!(counts.metric_indices, vec![2]);

    // a successful warmup sample is not counted
    let samples = vec![ok(true), failed(ErrorKind::CommandTimeout, false), ok(true)];
    let counts = summarize_samples(BenchmarkKind::Auth, &samples, 1, 1, 1);
    assert_eq!(counts.success_count, 0);
    assert_eq!(counts.failure_count, 1);
    assert_eq!(counts.error_counts, vec![(ErrorKind::CommandTimeout, 1)]);
}

#[test]
fn short_latency_run_counts_every_sample() {
    // fewer samples than warmup + parallel + number: nothing is left out of the counts
    let samples = vec![ok(true), failed(ErrorKind::Io, false), ok(true)];
    let counts = summarize_samples(BenchmarkKind::Command, &samples, 1, 1, 2);
    assert_eq!(counts.success_count, 2);
    assert_eq!(counts.failure_count, 1);
    assert_eq!(counts.error_counts, vec![(ErrorKind::Io, 1)]);
    // the measured window is sample 1 alone, which failed
    assert!(counts.metric_indices.is_empty());
}

#[test]
fn counts_cover_every_sample() {
    let samples = vec![
        failed(ErrorKind::ReadTimeout, true),
        ok(true),
        failed(ErrorKind::Config, false),
        failed(ErrorKind::ReadTimeout, false),
    ];
    let counts = summarize_samples(BenchmarkKind::Auth, &samples, 0, 1, 1);
    assert_eq!(counts.success_count, 1);
    assert_eq!(counts.failure_count, 3);
    assert_eq!(counts.missing_exit_status, 1);
    assert_eq!(
        counts.error_counts,
        vec![(ErrorKind::Config, 1), (ErrorKind::ReadTimeout, 2)]
    );
    // the window is the first sample only, which failed
    assert!(counts.metric_indices.is_empty());
}

#[test]
fn throughput_measures_all_successful_samples() {
    let mut a = ok(true);
    a.bytes_transferred = 4000;
    a.has_setup_time = true;
    let mut b = ok(false);
    b.bytes_transferred = 1000;
    let mut c = failed(ErrorKind::ReadTimeout, true);
    c.bytes_transferred = 77;
    let counts = summarize_samples(BenchmarkKind::Throughput, &[a, b, c], 0, 1, 0);
    assert_eq!(counts.total_bytes, Some(5000));
    assert_eq!(counts.metric_indices, vec![0]);
    assert_eq!(counts.setup_indices, vec![0]);
    assert_eq!(counts.missing_exit_status, 1);
}

#[test]
fn renders_report_count_lines() {
    assert_eq!(
        render_header_lines("auth", 1, 0),
        vec!["benchmark: auth", "success_count: 1", "failure_count: 0"]
    );
    assert_eq!(
        render_trailer_lines(1, &[(ErrorKind::CommandTimeout, 1), (ErrorKind::Io, 12)]),
        vec!["missing_exit_status: 1", "error_counts:", "  CommandTimeout: 1", "  Io: 12"]
    );
    assert!(render_trailer_lines(0, &[]).is_empty());
}
