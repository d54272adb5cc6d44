use std::path::PathBuf;

use ssh_bench::cli::{BenchmarkKind, BenchmarkKindArg, Cli, TargetInput};
use ssh_bench::ssh::session::render_throughput_command;

fn cli(parallel: usize, number: usize, warmup: usize, kind: BenchmarkKindArg) -> Cli {
    Cli {
        parallel,
        number,
        warmup,
        kind,
        connect: Some("alice@example.com:22".to_string()),
        connect_list: None,
        identity: PathBuf::from("/tmp/id_ed25519"),
        command: "true".to_string(),
        throughput_command: "dd if={file} bs=1M count={count}".to_string(),
        size: "1GiB".to_string(),
        file: "/dev/zero".to_string(),
        json: false,
    }
}

#[test]
fn parses_identity_and_single_target_config() {
    let cli = cli(4, 10, 2, BenchmarkKindArg::Auth);

    let config = cli.into_config().unwrap();
    assert_eq!(config.parallel, 4);
    assert_eq!(config.number, 10);
    assert_eq!(config.warmup, 2);
    assert_eq!(config.kind, BenchmarkKind::Auth);
    assert_eq!(config.identity_path.to_string_lossy(), "/tmp/id_ed25519");

    match config.target_input {
        TargetInput::Single(target) => assert_eq!(target.host, "example.com"),
        TargetInput::List(_) => panic!("expected single target"),
    }
}

#[test]
fn renders_default_throughput_command() {
    let command = render_throughput_command(
        "dd if={file} bs=1M count={count}",
        "/dev/zero",
        1024 * 1024 * 1024,
    )
    .unwrap();

    assert_eq!(command, "dd if=/dev/zero bs=1M count=1024");
}

#[test]
fn rejects_both_connect_and_connect_list() {
    let mut cli = cli(2, 10, 0, BenchmarkKindArg::Auth);
    cli.connect_list = Some(PathBuf::from("/tmp/targets.txt"));

    let error = cli.into_config().unwrap_err();
    assert!(error.contains("mutually exclusive"));
}

#[test]
fn rejects_zero_parallel() {
    let cli = cli(0, 10, 0, BenchmarkKindArg::Auth);

    let error = cli.into_config().unwrap_err();
    assert!(error.contains("parallel must be greater than 0"));
}

#[test]
fn throughput_allows_zero_number_and_parses_size() {
    let mut cli = cli(4, 0, 0, BenchmarkKindArg::Throughput);
    cli.size = "2GiB".to_string();

    let config = cli.into_config().unwrap();
    assert_eq!(config.kind, BenchmarkKind::Throughput);
    assert_eq!(config.number, 0);
    assert_eq!(config.size_bytes, 2 * 1024 * 1024 * 1024);
}

#[test]
fn throughput_normalizes_unused_number_and_warmup() {
    let cli = cli(4, 9, 3, BenchmarkKindArg::Throughput);

    let config = cli.into_config().unwrap();

    assert_eq!(config.kind, BenchmarkKind::Throughput);
    assert_eq!(config.number, 0);
    assert_eq!(config.warmup, 0);
}

#[test]
fn latency_modes_require_positive_number() {
    let cli = cli(2, 0, 0, BenchmarkKindArg::Auth);

    let error = cli.into_config().unwrap_err();
    assert!(error.contains("number must be greater than 0"));
}

#[test]
fn rounds_up_non_integral_mib_count() {
    let command = render_throughput_command(
        "dd if={file} bs=1M count={count}",
        "/tmp/data.bin",
        1024 * 1024 + 1,
    )
    .unwrap();

    assert_eq!(command, "dd if=/tmp/data.bin bs=1M count=2");
}

#[test]
fn requires_a_target_source() {
    let mut cli = cli(2, 10, 0, BenchmarkKindArg::Command);
    cli.connect = None;
    assert_eq!(
        cli.into_config().unwrap_err(),
        "either --connect or --connect-list is required"
    );
}

#[test]
fn keeps_connect_list_path() {
    let mut cli = cli(2, 10, 1, BenchmarkKindArg::Session);
    cli.connect = None;
    cli.connect_list = Some(PathBuf::from("/tmp/targets.txt"));
    let config = cli.into_config().unwrap();
    assert_eq!(config.kind, BenchmarkKind::Session);
    assert_eq!(config.warmup, 1);
    match config.target_input {
        TargetInput::List(path) => assert_eq!(path, PathBuf::from("/tmp/targets.txt")),
        TargetInput::Single(_) => panic!("expected a target list"),
    }
}

#[test]
fn reports_target_parse_errors() {
    let mut cli = cli(2, 10, 0, BenchmarkKindArg::Auth);
    cli.connect = Some("example.com:22".to_string());
    assert_eq!(cli.into_config().unwrap_err(), "missing @ separator");
}

#[test]
fn parses_size_units() {
    let mut c = cli(1, 1, 0, BenchmarkKindArg::Command);
    c.size = "3MiB".to_string();
    assert_eq!(c.into_config().unwrap().size_bytes, 3 * 1024 * 1024);

    let mut c = cli(1, 1, 0, BenchmarkKindArg::Command);
    c.size = "+12345".to_string();
    assert_eq!(c.into_config().unwrap().size_bytes, 12345);

    let mut c = cli(1, 1, 0, BenchmarkKindArg::Command);
    c.size = "GiB".to_string();
    assert_eq!(c.into_config().unwrap_err(), "invalid GiB size");

    let mut c = cli(1, 1, 0, BenchmarkKindArg::Command);
    c.size = "1.5MiB".to_string();
    assert_eq!(c.into_config().unwrap_err(), "invalid MiB size");

    let mut c = cli(1, 1, 0, BenchmarkKindArg::Command);
    c.size = "1KiB".to_string();
    assert_eq!(c.into_config().unwrap_err(), "size must be bytes, MiB or GiB");

    let mut c = cli(1, 1, 0, BenchmarkKindArg::Command);
    c.size = "18446744073709551616".to_string();
    assert_eq!(c.into_config().unwrap_err(), "size must be bytes, MiB or GiB");
}

#[test]
fn detects_sizes_beyond_u64() {
    assert!(ssh_bench::cli::size_fits_u64("17179869183GiB"));
    assert!(!ssh_bench::cli::size_fits_u64("17179869184GiB"));
    assert!(ssh_bench::cli::size_fits_u64("17592186044415MiB"));
    assert!(!ssh_bench::cli::size_fits_u64("17592186044416MiB"));
    assert!(ssh_bench::cli::size_fits_u64("not a size"));
}

#[test]
fn converts_benchmark_kind_arguments() {
    assert_eq!(BenchmarkKind::from(BenchmarkKindArg::Auth), BenchmarkKind::Auth);
    assert_eq!(BenchmarkKind::from(BenchmarkKindArg::Session), BenchmarkKind::Session);
    assert_eq!(BenchmarkKind::from(BenchmarkKindArg::Command), BenchmarkKind::Command);
    assert_eq!(BenchmarkKind::from(BenchmarkKindArg::Throughput), BenchmarkKind::Throughput);
    assert_eq!(BenchmarkKind::Throughput.as_str(), "throughput");
    assert_eq!(BenchmarkKind::Session.as_str(), "session");
}

#[test]
fn refuses_templates_without_placeholders() {
    assert_eq!(
        render_throughput_command("cat {file}", "/dev/zero", 1).unwrap_err(),
        "template must contain {file} and {count}"
    );
    assert_eq!(
        render_throughput_command("{count}{count} {file}", "f{count}", 0).unwrap(),
        "00 f0"
    );
}

#[test]
fn validates_options_before_the_size() {
    let mut c = cli(2, 10, 0, BenchmarkKindArg::Auth);
    c.size = "99999999999999999999GiB".to_string();
    assert_eq!(c.validate_options(), Ok(()));
    let mut c = cli(2, 10, 0, BenchmarkKindArg::Auth);
    c.connect = Some("bad".to_string());
    c.size = "17179869184GiB".to_string();
    assert_eq!(c.validate_options().unwrap_err(), "missing @ separator");
    assert_eq!(c.into_config().unwrap_err(), "missing @ separator");
    let c = cli(0, 10, 0, BenchmarkKindArg::Auth);
    assert_eq!(c.validate_options().unwrap_err(), "parallel must be greater than 0");
}

#[test]
fn checks_the_target_source_before_the_counts() {
    let mut c = cli(0, 0, 0, BenchmarkKindArg::Command);
    c.connect = None;
    assert_eq!(
        c.validate_options().unwrap_err(),
        "either --connect or --connect-list is required"
    );
    assert_eq!(
        c.into_config().unwrap_err(),
        "either --connect or --connect-list is required"
    );
    let mut c = cli(0, 10, 0, BenchmarkKindArg::Auth);
    c.connect = Some("bad".to_string());
    assert_eq!(c.into_config().unwrap_err(), "missing @ separator");
    let mut c = cli(2, 0, 0, BenchmarkKindArg::Command);
    c.connect_list = Some(PathBuf::from("/tmp/hosts"));
    assert_eq!(
        c.into_config().unwrap_err(),
        "--connect and --connect-list are mutually exclusive"
    );
    let c = cli(2, 0, 0, BenchmarkKindArg::Command);
    assert_eq!(c.into_config().unwrap_err(), "number must be greater than 0");
}
