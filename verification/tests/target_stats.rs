use ssh_bench::stats::{percentile_index, select_measured_window};
use ssh_bench::target::{parse_target, parse_target_list, pick_target_for_worker, Target};

#[test]
fn selects_middle_window_after_warmup_and_parallel() {
    let values = vec![1_u64, 2, 3, 4, 5, 6, 7];
    let window = select_measured_window(&values, 2, 2, 3);
    assert_eq!(window, vec![3, 4, 5]);
}

#[test]
fn parses_user_host_port_target() {
    let target = parse_target("alice@example.com:2222").unwrap();
    assert_eq!(target.user, "alice");
    assert_eq!(target.host, "example.com");
    assert_eq!(target.port, 2222);
}

#[test]
fn rotates_targets_by_worker_and_iteration() {
    let targets = vec![
        Target::new("u1", "h1", 22),
        Target::new("u2", "h2", 22),
        Target::new("u3", "h3", 22),
    ];

    let picked = pick_target_for_worker(&targets, 1, 2).unwrap();
    assert_eq!(picked.host, "h1");
}

#[test]
fn loads_targets_from_file_with_trimmed_lines() {
    let targets = parse_target_list(" alice@example.com:22 \n\n bob@example.com:2222 \n").unwrap();

    assert_eq!(targets.len(), 2);
    assert_eq!(targets[0].user, "alice");
    assert_eq!(targets[1].port, 2222);
}

#[test]
fn window_of_a_full_run_keeps_number_samples() {
    // parallel 3, number 4, warmup 2: 9 samples, the middle 4 are kept
    let values: Vec<u64> = (0..9).collect();
    assert_eq!(select_measured_window(&values, 2, 3, 4), vec![2, 3, 4, 5]);
    // fewer samples than warmup and parallel: nothing is kept
    assert!(select_measured_window(&values, 8, 3, 4).is_empty());
    assert!(select_measured_window(&values, 20, 0, 4).is_empty());
}

#[test]
fn percentile_ranks() {
    assert_eq!(percentile_index(1, 50), 0);
    assert_eq!(percentile_index(3, 50), 1);
    assert_eq!(percentile_index(4, 50), 1);
    assert_eq!(percentile_index(100, 99), 98);
    assert_eq!(percentile_index(101, 99), 99);
    assert_eq!(percentile_index(0, 99), 0);
    assert_eq!(percentile_index(7, 100), 6);
    assert_eq!(percentile_index(7, 0), 0);
}

#[test]
fn refuses_malformed_targets() {
    assert_eq!(parse_target("example.com:22").unwrap_err(), "missing @ separator");
    assert_eq!(parse_target("alice@example.com").unwrap_err(), "missing :port suffix");
    assert_eq!(
        parse_target("@example.com:22").unwrap_err(),
        "target must include user, host and port"
    );
    assert_eq!(
        parse_target("alice@:22").unwrap_err(),
        "target must include user, host and port"
    );
    assert_eq!(
        parse_target("alice@example.com:").unwrap_err(),
        "target must include user, host and port"
    );
    assert_eq!(
        parse_target("alice@::1:22").unwrap_err(),
        "ipv6 targets are not supported"
    );
    assert_eq!(parse_target("alice@example.com:65536").unwrap_err(), "port must be a valid u16");
    assert_eq!(parse_target("alice@example.com:-1").unwrap_err(), "port must be a valid u16");
    assert_eq!(parse_target("alice@example.com:+").unwrap_err(), "port must be a valid u16");
}

#[test]
fn splits_at_first_at_and_last_colon() {
    let target = parse_target("alice@bob@h:+0065535").unwrap();
    assert_eq!(target.user, "alice");
    assert_eq!(target.host, "bob@h");
    assert_eq!(target.port, 65535);
    let target = parse_target("é@ü:1").unwrap();
    assert_eq!(target, Target::new("é", "ü", 1));
}

#[test]
fn target_roundtrip_through_text() {
    for (user, host, port) in [("alice", "example.com", 22_u16), ("u", "10.0.0.1", 0), ("x", "h", 65535)] {
        let text = format!("{}@{}:{}", user, host, port);
        assert_eq!(parse_target(&text).unwrap(), Target::new(user, host, port));
    }
}

#[test]
fn target_lists_skip_blank_lines_and_report_the_first_bad_line() {
    assert_eq!(parse_target_list("").unwrap(), vec![]);
    assert_eq!(parse_target_list(" \t\r\n\n").unwrap(), vec![]);
    assert_eq!(
        parse_target_list("a@h:1\r\nb@h:2").unwrap(),
        vec![Target::new("a", "h", 1), Target::new("b", "h", 2)]
    );
    assert_eq!(
        parse_target_list("a@h:1\nnot a target\nb@h:x").unwrap_err(),
        "missing @ separator"
    );
    assert_eq!(
        parse_target_list("a@h:1\nb@h:x\nnot a target").unwrap_err(),
        "port must be a valid u16"
    );
    // a non-breaking space is whitespace too
    assert_eq!(
        parse_target_list("\u{a0}a@h:1\u{3000}").unwrap(),
        vec![Target::new("a", "h", 1)]
    );
}

#[test]
fn no_target_without_targets() {
    assert_eq!(pick_target_for_worker(&[], 0, 0), None);
    let targets = vec![Target::new("u1", "h1", 22), Target::new("u2", "h2", 22)];
    assert_eq!(pick_target_for_worker(&targets, usize::MAX, usize::MAX).unwrap().host, "h1");
    assert_eq!(pick_target_for_worker(&targets, usize::MAX, 0).unwrap().host, "h2");
}
