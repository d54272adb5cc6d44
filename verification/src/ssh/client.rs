//! The logic of SSH client connections: connection settings per profile and the
//! labelling of connection and key failures.
use vstd::prelude::*;

use crate::error::{kind_name, AppError, ErrorKind};
use crate::ssh::session::{labelled_message, lemma_classify_labelled_error, spec_classify_error};
use crate::text::push_str;

verus! {

/// How a client connection is tuned.
#[derive(Debug, Clone, Copy, PartialEq, Eq, Structural)]
pub enum ClientProfile {
    Default,
    Throughput,
}

/// The connection settings of a profile. `None` keeps the SSH library's default.
#[derive(Debug, Clone, Copy, PartialEq, Eq)]
pub struct ClientSettings {
    pub inactivity_timeout_secs: u64,
    pub window_size: Option<u32>,
    pub channel_buffer_size: Option<usize>,
    pub nodelay: Option<bool>,
}

/// Both profiles drop an idle connection after 5 s; the throughput profile also
/// opens a 16 MiB window, buffers 1024 channel messages and disables Nagle's
/// algorithm.
pub open spec fn spec_client_settings(profile: ClientProfile) -> ClientSettings {
    match profile {
        ClientProfile::Default => ClientSettings {
            inactivity_timeout_secs: 5,
            window_size: None,
            channel_buffer_size: None,
            nodelay: None,
        },
        ClientProfile::Throughput => ClientSettings {
            inactivity_timeout_secs: 5,
            window_size: Some(16777216),
            channel_buffer_size: Some(1024),
            nodelay: Some(true),
        },
    }
}

pub fn client_settings(profile: ClientProfile) -> (r: ClientSettings)
    ensures
        r == spec_client_settings(profile),
{
    match profile {
        ClientProfile::Default => ClientSettings {
            inactivity_timeout_secs: 5,
            window_size: None,
            channel_buffer_size: None,
            nodelay: None,
        },
        ClientProfile::Throughput => ClientSettings {
            inactivity_timeout_secs: 5,
            window_size: Some(16 * 1024 * 1024),
            channel_buffer_size: Some(1024),
            nodelay: Some(true),
        },
    }
}

/// The label that connection and key failures carry: the category's name for
/// TCP, handshake and key-format failures, `protocol` for any other.
pub open spec fn failure_label(kind: ErrorKind) -> Seq<char> {
    match kind {
        ErrorKind::TcpConnect => kind_name(ErrorKind::TcpConnect),
        ErrorKind::SshHandshake => kind_name(ErrorKind::SshHandshake),
        ErrorKind::KeyFormat => kind_name(ErrorKind::KeyFormat),
        _ => kind_name(ErrorKind::Protocol),
    }
}

pub fn format_error_kind(kind: &ErrorKind) -> (r: &'static str)
    ensures
        r@ == failure_label(*kind),
{
    match kind {
        ErrorKind::TcpConnect => "tcp_connect",
        ErrorKind::SshHandshake => "ssh_handshake",
        ErrorKind::KeyFormat => "key_format",
        _ => "protocol",
    }
}

/// How the SSH library reported a failed connection.
#[derive(Debug, Clone, Copy, PartialEq, Eq, Structural)]
pub enum ConnectFailure {
    /// An I/O error, a connection timeout or a disconnect.
    Transport,
    /// A key exchange, version, algorithm or host key failure.
    Handshake,
    /// Any other failure.
    Other,
}

/// The category of a failed connection: transport failures are TCP failures and
/// handshake failures handshake failures; any other failure counts as a TCP failure
/// when the host is an IPv4 address, else as a handshake failure.
pub open spec fn connect_failure_kind(failure: ConnectFailure, host_is_ipv4: bool) -> ErrorKind {
    match failure {
        ConnectFailure::Transport => ErrorKind::TcpConnect,
        ConnectFailure::Handshake => ErrorKind::SshHandshake,
        ConnectFailure::Other => if host_is_ipv4 {
            ErrorKind::TcpConnect
        } else {
            ErrorKind::SshHandshake
        },
    }
}

/// The message `"<label>: <detail>"`.
pub open spec fn label_message(label: Seq<char>, detail: Seq<char>) -> Seq<char> {
    label + seq![':', ' '] + detail
}

fn label_error(label: &str, detail: &str) -> (r: AppError)
    ensures
        r matches AppError::Config(m) && m@ == label_message(label@, detail@),
{
    let mut m = String::new();
    push_str(&mut m, label);
    m.push(':');
    m.push(' ');
    push_str(&mut m, detail);
    assert(m@ =~= label_message(label@, detail@));
    AppError::Config(m)
}

/// The error for a failed connection, labelled with its category; `detail` is the
/// SSH library's description of the failure.
pub fn map_connect_error(failure: ConnectFailure, detail: &str, host_is_ipv4: bool) -> (r: AppError)
    ensures
        r matches AppError::Config(m) && m@ == label_message(
            failure_label(connect_failure_kind(failure, host_is_ipv4)),
            detail@,
        ),
{
    let label = match failure {
        ConnectFailure::Transport => ErrorKind::TcpConnect,
        ConnectFailure::Handshake => ErrorKind::SshHandshake,
        ConnectFailure::Other => if host_is_ipv4 {
            ErrorKind::TcpConnect
        } else {
            ErrorKind::SshHandshake
        },
    };
    label_error(format_error_kind(&label), detail)
}

/// A key error becomes a configuration error labelled `key_format`; any other error
/// is kept.
pub fn map_key_error(error: AppError) -> (r: AppError)
    ensures
        match error {
            AppError::Key(message) => r matches AppError::Config(m) && m@ == label_message(
                failure_label(ErrorKind::KeyFormat),
                message@,
            ),
            _ => r == error,
        },
{
    match error {
        AppError::Key(message) => label_error(
            format_error_kind(&ErrorKind::KeyFormat),
            message.as_str(),
        ),
        other => other,
    }
}

/// A failed connection is classified as the category its label names: a TCP or a
/// handshake failure.
pub proof fn lemma_classify_connect_error(
    failure: ConnectFailure,
    detail: Seq<char>,
    host_is_ipv4: bool,
    error: AppError,
)
    requires
        error matches AppError::Config(m) && m@ == label_message(
            failure_label(connect_failure_kind(failure, host_is_ipv4)),
            detail,
        ),
    ensures
        spec_classify_error(error) == connect_failure_kind(failure, host_is_ipv4),
{
    let kind = connect_failure_kind(failure, host_is_ipv4);
    assert(label_message(failure_label(kind), detail) == labelled_message(kind, detail));
    lemma_classify_labelled_error(kind, detail, error);
}

/// A key error, once mapped, is classified as a key-format failure.
pub proof fn lemma_classify_key_error(message: Seq<char>, error: AppError)
    requires
        error matches AppError::Config(m) && m@ == label_message(
            failure_label(ErrorKind::KeyFormat),
            message,
        ),
    ensures
        spec_classify_error(error) == ErrorKind::KeyFormat,
{
    assert(label_message(failure_label(ErrorKind::KeyFormat), message) == labelled_message(
        ErrorKind::KeyFormat,
        message,
    ));
    lemma_classify_labelled_error(ErrorKind::KeyFormat, message, error);
}

} // verus!
