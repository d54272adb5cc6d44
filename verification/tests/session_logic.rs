use ssh_bench::error::{AppError, ErrorKind};
use ssh_bench::ssh::client::{
    client_settings, format_error_kind, map_connect_error, map_key_error, ClientProfile,
    ConnectFailure,
};
use ssh_bench::ssh::session::{
    classify_error, labelled_error, ChannelEvent, CommandProgress, Step, StreamProgress,
};

fn message(error: &AppError) -> String {
    match error {
        AppError::Config(m) => m.clone(),
        other => panic!("unexpected error {:?}", other),
    }
}

#[test]
fn error_kind_names() {
    assert_eq!(ErrorKind::Config.as_str(), "config");
    assert_eq!(ErrorKind::KeyRead.as_str(), "key_read");
    assert_eq!(ErrorKind::CommandTimeout.as_str(), "command_timeout");
    assert_eq!(ErrorKind::Protocol.as_str(), "protocol");
    assert_eq!(ErrorKind::Exec.index(), 8);
    assert_eq!(ErrorKind::from_index(8), ErrorKind::Exec);
}

#[test]
fn error_variants_have_kinds() {
    assert_eq!(AppError::Config("x".into()).kind(), ErrorKind::Config);
    assert_eq!(AppError::Target("x".into()).kind(), ErrorKind::Target);
    assert_eq!(AppError::Io("x".into()).kind(), ErrorKind::Io);
    assert_eq!(AppError::Ssh("x".into()).kind(), ErrorKind::Protocol);
    assert_eq!(AppError::Key("x".into()).kind(), ErrorKind::KeyFormat);
    assert_eq!(AppError::Timeout("x").kind(), ErrorKind::CommandTimeout);
}

#[test]
fn classifies_labelled_errors_back() {
    for kind in [
        ErrorKind::KeyRead,
        ErrorKind::TcpConnect,
        ErrorKind::SshHandshake,
        ErrorKind::KeyFormat,
        ErrorKind::Authentication,
        ErrorKind::SessionOpen,
        ErrorKind::Exec,
        ErrorKind::CommandTimeout,
        ErrorKind::ReadTimeout,
    ] {
        let error = labelled_error(&kind, "tcp_connect: nested detail");
        assert_eq!(classify_error(&error), kind);
    }
    let error = labelled_error(&ErrorKind::Protocol, "x");
    assert_eq!(message(&error), "protocol: x");
    assert_eq!(classify_error(&error), ErrorKind::Config);
    assert_eq!(classify_error(&AppError::Config("exec:".into())), ErrorKind::Exec);
    assert_eq!(classify_error(&AppError::Config("exec".into())), ErrorKind::Config);
    assert_eq!(classify_error(&AppError::Key("bad".into())), ErrorKind::KeyFormat);
    assert_eq!(classify_error(&AppError::Ssh("bad".into())), ErrorKind::Protocol);
}

#[test]
fn labels_connection_and_key_failures() {
    let e = map_connect_error(ConnectFailure::Transport, "refused", false);
    assert_eq!(message(&e), "tcp_connect: refused");
    let e = map_connect_error(ConnectFailure::Handshake, "kex", true);
    assert_eq!(message(&e), "ssh_handshake: kex");
    let e = map_connect_error(ConnectFailure::Other, "odd", true);
    assert_eq!(classify_error(&e), ErrorKind::TcpConnect);
    let e = map_connect_error(ConnectFailure::Other, "odd", false);
    assert_eq!(classify_error(&e), ErrorKind::SshHandshake);
    let e = map_key_error(AppError::Key("not a key".into()));
    assert_eq!(message(&e), "key_format: not a key");
    assert_eq!(classify_error(&e), ErrorKind::KeyFormat);
    match map_key_error(AppError::Io("gone".into())) {
        AppError::Io(m) => assert_eq!(m, "gone"),
        other => panic!("unexpected error {:?}", other),
    }
    assert_eq!(format_error_kind(&ErrorKind::Exec), "protocol");
    assert_eq!(format_error_kind(&ErrorKind::KeyFormat), "key_format");
}

#[test]
fn client_profiles() {
    let d = client_settings(ClientProfile::Default);
    assert_eq!(d.inactivity_timeout_secs, 5);
    assert_eq!(d.window_size, None);
    let t = client_settings(ClientProfile::Throughput);
    assert_eq!(t.window_size, Some(16 * 1024 * 1024));
    assert_eq!(t.channel_buffer_size, Some(1024));
    assert_eq!(t.nodelay, Some(true));
}

#[test]
fn command_completion_prefers_exit_status() {
    let mut p = CommandProgress::new();
    assert!(matches!(p.observe(ChannelEvent::Data(5)), Step::Wait));
    assert!(matches!(p.observe(ChannelEvent::ExitStatus(3)), Step::Wait));
    assert!(matches!(p.observe(ChannelEvent::Data(2)), Step::Wait));
    assert!(matches!(p.observe(ChannelEvent::Eof), Step::Finish));
    assert_eq!(p.exit_status, Some(3));
    assert!(!p.missing_exit_status);
    assert_eq!(p.bytes_read, 7);
}

#[test]
fn command_without_exit_status_is_marked() {
    let mut p = CommandProgress::new();
    assert!(matches!(p.observe(ChannelEvent::Other), Step::Wait));
    assert!(matches!(p.observe(ChannelEvent::Close), Step::Finish));
    assert!(p.missing_exit_status);
    let mut q = CommandProgress::new();
    match q.observe(ChannelEvent::TimedOut) {
        Step::Fail(error, missing) => {
            assert!(missing);
            assert_eq!(message(&error), "command_timeout: waiting for command event timed out");
            assert_eq!(classify_error(&error), ErrorKind::CommandTimeout);
        }
        other => panic!("unexpected step {:?}", other),
    }
    assert!(matches!(q.observe(ChannelEvent::Ended), Step::Finish));
    assert!(q.missing_exit_status);
}

#[test]
fn exit_status_after_end_of_output_is_kept() {
    // the usual order: output, end of output, exit status, close
    let mut p = CommandProgress::new();
    assert!(matches!(p.observe(ChannelEvent::Data(3)), Step::Wait));
    assert!(matches!(p.observe(ChannelEvent::Eof), Step::Wait));
    assert!(matches!(p.observe(ChannelEvent::ExitStatus(0)), Step::Finish));
    assert_eq!(p.exit_status, Some(0));
    assert!(!p.missing_exit_status);
    assert_eq!(p.bytes_read, 3);
}

#[test]
fn end_of_output_without_exit_status_waits_for_close_or_timeout() {
    let mut p = CommandProgress::new();
    assert!(matches!(p.observe(ChannelEvent::Eof), Step::Wait));
    assert!(matches!(p.observe(ChannelEvent::Close), Step::Finish));
    assert_eq!(p.exit_status, None);
    assert!(p.missing_exit_status);
    let mut q = CommandProgress::new();
    assert!(matches!(q.observe(ChannelEvent::Eof), Step::Wait));
    match q.observe(ChannelEvent::TimedOut) {
        Step::Fail(error, missing) => {
            assert!(missing);
            assert_eq!(classify_error(&error), ErrorKind::CommandTimeout);
        }
        other => panic!("unexpected step {:?}", other),
    }
}

#[test]
fn stream_counts_the_lesser_of_limit_and_output() {
    let mut p = StreamProgress::new(1000);
    for n in [100_u64, 200, 300] {
        p.observe(ChannelEvent::Data(n));
    }
    p.observe(ChannelEvent::ExitStatus(1));
    p.observe(ChannelEvent::ExitStatus(2));
    assert_eq!(p.total, 600);
    assert_eq!(p.finish(), (600, Some(2), false));
}

#[test]
fn stream_stops_counting_at_the_limit() {
    let mut p = StreamProgress::new(10);
    assert!(p.wants_more());
    p.observe(ChannelEvent::Data(4));
    p.observe(ChannelEvent::Data(100));
    assert_eq!(p.total, 10);
    assert!(!p.wants_more());
    p.observe(ChannelEvent::Data(u64::MAX));
    assert_eq!(p.finish(), (10, None, true));
    let mut q = StreamProgress::new(100);
    q.observe(ChannelEvent::Data(30));
    q.observe(ChannelEvent::ExitStatus(0));
    assert!(matches!(q.observe(ChannelEvent::Eof), Step::Finish));
    assert_eq!(q.finish(), (30, Some(0), false));
    match q.observe(ChannelEvent::TimedOut) {
        Step::Fail(error, missing) => {
            assert!(!missing);
            assert_eq!(classify_error(&error), ErrorKind::ReadTimeout);
        }
        other => panic!("unexpected step {:?}", other),
    }
}
