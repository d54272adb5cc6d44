//! Error categories and the library's error type.
use vstd::prelude::*;

verus! {

/// The stable categories into which failures are sorted.
#[derive(Debug, Clone, PartialEq, Eq, Structural, PartialOrd, Ord, Hash)]
pub enum ErrorKind {
    Config,
    Target,
    KeyRead,
    KeyFormat,
    TcpConnect,
    SshHandshake,
    Authentication,
    SessionOpen,
    Exec,
    CommandTimeout,
    ReadTimeout,
    Io,
    Protocol,
}

/// The `snake_case` name of a category.
pub open spec fn kind_name(kind: ErrorKind) -> Seq<char> {
    match kind {
        ErrorKind::Config => "config"@,
        ErrorKind::Target => "target"@,
        ErrorKind::KeyRead => "key_read"@,
        ErrorKind::KeyFormat => "key_format"@,
        ErrorKind::TcpConnect => "tcp_connect"@,
        ErrorKind::SshHandshake => "ssh_handshake"@,
        ErrorKind::Authentication => "authentication"@,
        ErrorKind::SessionOpen => "session_open"@,
        ErrorKind::Exec => "exec"@,
        ErrorKind::CommandTimeout => "command_timeout"@,
        ErrorKind::ReadTimeout => "read_timeout"@,
        ErrorKind::Io => "io"@,
        ErrorKind::Protocol => "protocol"@,
    }
}

/// Position of a category in declaration order, which is also its order under `Ord`.
pub open spec fn kind_index(kind: ErrorKind) -> nat {
    match kind {
        ErrorKind::Config => 0,
        ErrorKind::Target => 1,
        ErrorKind::KeyRead => 2,
        ErrorKind::KeyFormat => 3,
        ErrorKind::TcpConnect => 4,
        ErrorKind::SshHandshake => 5,
        ErrorKind::Authentication => 6,
        ErrorKind::SessionOpen => 7,
        ErrorKind::Exec => 8,
        ErrorKind::CommandTimeout => 9,
        ErrorKind::ReadTimeout => 10,
        ErrorKind::Io => 11,
        ErrorKind::Protocol => 12,
    }
}

/// The category at position `i` in declaration order.
pub open spec fn kind_at(i: nat) -> ErrorKind {
    if i == 0 {
        ErrorKind::Config
    } else if i == 1 {
        ErrorKind::Target
    } else if i == 2 {
        ErrorKind::KeyRead
    } else if i == 3 {
        ErrorKind::KeyFormat
    } else if i == 4 {
        ErrorKind::TcpConnect
    } else if i == 5 {
        ErrorKind::SshHandshake
    } else if i == 6 {
        ErrorKind::Authentication
    } else if i == 7 {
        ErrorKind::SessionOpen
    } else if i == 8 {
        ErrorKind::Exec
    } else if i == 9 {
        ErrorKind::CommandTimeout
    } else if i == 10 {
        ErrorKind::ReadTimeout
    } else if i == 11 {
        ErrorKind::Io
    } else {
        ErrorKind::Protocol
    }
}

/// The number of categories.
pub const KIND_COUNT: usize = 13;

impl ErrorKind {
    pub fn as_str(&self) -> (r: &'static str)
        ensures
            r@ == kind_name(*self),
    {
        match self {
            Self::Config => "config",
            Self::Target => "target",
            Self::KeyRead => "key_read",
            Self::KeyFormat => "key_format",
            Self::TcpConnect => "tcp_connect",
            Self::SshHandshake => "ssh_handshake",
            Self::Authentication => "authentication",
            Self::SessionOpen => "session_open",
            Self::Exec => "exec",
            Self::CommandTimeout => "command_timeout",
            Self::ReadTimeout => "read_timeout",
            Self::Io => "io",
            Self::Protocol => "protocol",
        }
    }

    /// Position of this category in declaration order.
    pub fn index(&self) -> (r: usize)
        ensures
            r == kind_index(*self),
            r < KIND_COUNT,
    {
        match self {
            Self::Config => 0,
            Self::Target => 1,
            Self::KeyRead => 2,
            Self::KeyFormat => 3,
            Self::TcpConnect => 4,
            Self::SshHandshake => 5,
            Self::Authentication => 6,
            Self::SessionOpen => 7,
            Self::Exec => 8,
            Self::CommandTimeout => 9,
            Self::ReadTimeout => 10,
            Self::Io => 11,
            Self::Protocol => 12,
        }
    }

    /// The category at position `i` in declaration order.
    pub fn from_index(i: usize) -> (r: ErrorKind)
        requires
            i < KIND_COUNT,
        ensures
            r == kind_at(i as nat),
            kind_index(r) == i,
    {
        if i == 0 {
            Self::Config
        } else if i == 1 {
            Self::Target
        } else if i == 2 {
            Self::KeyRead
        } else if i == 3 {
            Self::KeyFormat
        } else if i == 4 {
            Self::TcpConnect
        } else if i == 5 {
            Self::SshHandshake
        } else if i == 6 {
            Self::Authentication
        } else if i == 7 {
            Self::SessionOpen
        } else if i == 8 {
            Self::Exec
        } else if i == 9 {
            Self::CommandTimeout
        } else if i == 10 {
            Self::ReadTimeout
        } else if i == 11 {
            Self::Io
        } else {
            Self::Protocol
        }
    }
}

/// Positions and categories correspond one to one.
pub proof fn lemma_kind_index_roundtrip(kind: ErrorKind)
    ensures
        kind_index(kind) < KIND_COUNT,
        kind_at(kind_index(kind)) == kind,
{
}

/// The failures of a run. Outside errors (I/O, SSH) are carried by their message.
#[derive(Debug)]
pub enum AppError {
    Config(String),
    Target(String),
    Io(String),
    Ssh(String),
    Key(String),
    Timeout(&'static str),
}

/// The category that an error belongs to by its variant alone.
pub open spec fn variant_kind(error: AppError) -> ErrorKind {
    match error {
        AppError::Config(_) => ErrorKind::Config,
        AppError::Target(_) => ErrorKind::Target,
        AppError::Io(_) => ErrorKind::Io,
        AppError::Ssh(_) => ErrorKind::Protocol,
        AppError::Key(_) => ErrorKind::KeyFormat,
        AppError::Timeout(_) => ErrorKind::CommandTimeout,
    }
}

impl AppError {
    pub fn kind(&self) -> (r: ErrorKind)
        ensures
            r == variant_kind(*self),
    {
        match self {
            Self::Config(_) => ErrorKind::Config,
            Self::Target(_) => ErrorKind::Target,
            Self::Io(_) => ErrorKind::Io,
            Self::Ssh(_) => ErrorKind::Protocol,
            Self::Key(_) => ErrorKind::KeyFormat,
            Self::Timeout(_) => ErrorKind::CommandTimeout,
        }
    }
}

} // verus!
