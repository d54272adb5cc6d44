//! Command-line options and their validation into a run configuration.
use vstd::prelude::*;
use vstd::std_specs::convert::FromSpecImpl;

use crate::target::{parse_target, spec_parse_target, Target};
use crate::text::{chars_of, ends_with, parse_unsigned, parse_unsigned_range, range_ends_with};

verus! {

/// `std::path::PathBuf`, carried through as an opaque value.
#[verifier::external_type_specification]
#[verifier::external_body]
pub struct ExPathBuf(std::path::PathBuf);

/// `PathBuf::clone`: cloning a path gives a path; nothing more is claimed of it.
pub assume_specification[ <std::path::PathBuf as Clone>::clone ](p: &std::path::PathBuf) -> std::path::PathBuf;

/// The four kinds of benchmark.
#[derive(Debug, Clone, PartialEq, Eq, Structural)]
pub enum BenchmarkKind {
    Auth,
    Session,
    Command,
    Throughput,
}

/// The name of a benchmark kind, as reports print it.
pub open spec fn kind_label(kind: BenchmarkKind) -> Seq<char> {
    match kind {
        BenchmarkKind::Auth => "auth"@,
        BenchmarkKind::Session => "session"@,
        BenchmarkKind::Command => "command"@,
        BenchmarkKind::Throughput => "throughput"@,
    }
}

impl BenchmarkKind {
    pub fn as_str(&self) -> (r: &'static str)
        ensures
            r@ == kind_label(*self),
    {
        match self {
            Self::Auth => "auth",
            Self::Session => "session",
            Self::Command => "command",
            Self::Throughput => "throughput",
        }
    }
}

/// Where the targets come from: one target, or a file that lists them.
#[derive(Debug, Clone, PartialEq, Eq)]
pub enum TargetInput {
    Single(Target),
    List(std::path::PathBuf),
}

/// A validated run configuration.
#[derive(Debug, Clone, PartialEq, Eq)]
pub struct Config {
    pub parallel: usize,
    pub number: usize,
    pub warmup: usize,
    pub kind: BenchmarkKind,
    pub target_input: TargetInput,
    pub identity_path: std::path::PathBuf,
    pub command: String,
    pub throughput_command: String,
    pub size_bytes: u64,
    pub file: String,
    pub json: bool,
}

/// The options as given on the command line.
#[derive(Debug)]
pub struct Cli {
    pub parallel: usize,
    pub number: usize,
    pub warmup: usize,
    pub kind: BenchmarkKindArg,
    pub connect: Option<String>,
    pub connect_list: Option<std::path::PathBuf>,
    pub identity: std::path::PathBuf,
    pub command: String,
    pub throughput_command: String,
    pub size: String,
    pub file: String,
    pub json: bool,
}

/// The benchmark kind as the command line names it.
#[derive(Debug, Clone, Copy, PartialEq, Eq, Structural)]
pub enum BenchmarkKindArg {
    Auth,
    Session,
    Command,
    Throughput,
}

pub open spec fn kind_of_arg(value: BenchmarkKindArg) -> BenchmarkKind {
    match value {
        BenchmarkKindArg::Auth => BenchmarkKind::Auth,
        BenchmarkKindArg::Session => BenchmarkKind::Session,
        BenchmarkKindArg::Command => BenchmarkKind::Command,
        BenchmarkKindArg::Throughput => BenchmarkKind::Throughput,
    }
}

impl From<BenchmarkKindArg> for BenchmarkKind {
    fn from(value: BenchmarkKindArg) -> (r: Self) {
        match value {
            BenchmarkKindArg::Auth => Self::Auth,
            BenchmarkKindArg::Session => Self::Session,
            BenchmarkKindArg::Command => Self::Command,
            BenchmarkKindArg::Throughput => Self::Throughput,
        }
    }
}

impl FromSpecImpl<BenchmarkKindArg> for BenchmarkKind {
    open spec fn obeys_from_spec() -> bool {
        true
    }

    open spec fn from_spec(v: BenchmarkKindArg) -> BenchmarkKind {
        kind_of_arg(v)
    }
}

pub const MIB: u64 = 1048576;

pub const GIB: u64 = 1073741824;

pub open spec fn gib_suffix() -> Seq<char> {
    seq!['G', 'i', 'B']
}

pub open spec fn mib_suffix() -> Seq<char> {
    seq!['M', 'i', 'B']
}

pub open spec fn invalid_gib_message() -> Seq<char> {
    "invalid GiB size"@
}

pub open spec fn invalid_mib_message() -> Seq<char> {
    "invalid MiB size"@
}

pub open spec fn invalid_size_message() -> Seq<char> {
    "size must be bytes, MiB or GiB"@
}

/// The number of bytes that a size option names, as a mathematical number: a
/// `u64` followed by `GiB` or `MiB`, or a plain `u64` of bytes.
pub open spec fn spec_size(s: Seq<char>) -> Result<nat, Seq<char>> {
    if ends_with(s, gib_suffix()) {
        match parse_unsigned(s.take(s.len() - 3), u64::MAX as nat) {
            Some(v) => Ok(v * (GIB as nat)),
            None => Err(invalid_gib_message()),
        }
    } else if ends_with(s, mib_suffix()) {
        match parse_unsigned(s.take(s.len() - 3), u64::MAX as nat) {
            Some(v) => Ok(v * (MIB as nat)),
            None => Err(invalid_mib_message()),
        }
    } else {
        match parse_unsigned(s, u64::MAX as nat) {
            Some(v) => Ok(v),
            None => Err(invalid_size_message()),
        }
    }
}

/// The size option names more bytes than a `u64` holds.
pub open spec fn size_overflows(s: Seq<char>) -> bool {
    spec_size(s) matches Ok(n) && n > u64::MAX
}

/// Whether the size option `size` names no more bytes than a `u64` holds.
pub fn size_fits_u64(size: &str) -> (r: bool)
    ensures
        r == !size_overflows(size@),
{
    let v = chars_of(size);
    let n = v.len();
    assert(v@.subrange(0, n as int) == v@);
    let gib: Vec<char> = vec!['G', 'i', 'B'];
    let mib: Vec<char> = vec!['M', 'i', 'B'];
    assert(gib@ == gib_suffix());
    assert(mib@ == mib_suffix());
    if range_ends_with(&v, 0, n, &gib) {
        assert(v@.take(n - 3) == v@.subrange(0, n - 3));
        match parse_unsigned_range(&v, 0, n - 3, u64::MAX) {
            Some(x) => x <= u64::MAX / GIB,
            None => true,
        }
    } else if range_ends_with(&v, 0, n, &mib) {
        assert(v@.take(n - 3) == v@.subrange(0, n - 3));
        match parse_unsigned_range(&v, 0, n - 3, u64::MAX) {
            Some(x) => x <= u64::MAX / MIB,
            None => true,
        }
    } else {
        true
    }
}

/// Reads a size option; `requires` leaves out the sizes beyond `u64`, on which the
/// multiplication would overflow.
fn parse_size_bytes(input: &str) -> (r: Result<u64, String>)
    requires
        !size_overflows(input@),
    ensures
        match spec_size(input@) {
            Ok(n) => r matches Ok(b) && b == n,
            Err(e) => r matches Err(m) && m@ == e,
        },
{
    let v = chars_of(input);
    let n = v.len();
    assert(v@.subrange(0, n as int) == v@);
    let gib: Vec<char> = vec!['G', 'i', 'B'];
    let mib: Vec<char> = vec!['M', 'i', 'B'];
    assert(gib@ == gib_suffix());
    assert(mib@ == mib_suffix());
    if range_ends_with(&v, 0, n, &gib) {
        assert(v@.take(n - 3) == v@.subrange(0, n - 3));
        match parse_unsigned_range(&v, 0, n - 3, u64::MAX) {
            Some(x) => Ok(x * GIB),
            None => Err("invalid GiB size".to_owned()),
        }
    } else if range_ends_with(&v, 0, n, &mib) {
        assert(v@.take(n - 3) == v@.subrange(0, n - 3));
        match parse_unsigned_range(&v, 0, n - 3, u64::MAX) {
            Some(x) => Ok(x * MIB),
            None => Err("invalid MiB size".to_owned()),
        }
    } else {
        match parse_unsigned_range(&v, 0, n, u64::MAX) {
            Some(x) => Ok(x),
            None => Err("size must be bytes, MiB or GiB".to_owned()),
        }
    }
}

pub open spec fn zero_parallel_message() -> Seq<char> {
    "parallel must be greater than 0"@
}

pub open spec fn zero_number_message() -> Seq<char> {
    "number must be greater than 0"@
}

pub open spec fn exclusive_targets_message() -> Seq<char> {
    "--connect and --connect-list are mutually exclusive"@
}

pub open spec fn missing_targets_message() -> Seq<char> {
    "either --connect or --connect-list is required"@
}

/// The refusal of the target options, if any: not exactly one target source, or
/// a single target that does not parse.
pub open spec fn target_option_error(cli: Cli) -> Option<Seq<char>> {
    match (cli.connect, cli.connect_list) {
        (Some(t), None) => match spec_parse_target(t@) {
            Err(e) => Some(e),
            Ok(_) => None,
        },
        (None, Some(_)) => None,
        (Some(_), Some(_)) => Some(exclusive_targets_message()),
        (None, None) => Some(missing_targets_message()),
    }
}

/// The first refusal of the options before the size is read: the target
/// options first ([`target_option_error`]), then no workers, then no measured
/// samples in a latency benchmark.
pub open spec fn option_error(cli: Cli) -> Option<Seq<char>> {
    match target_option_error(cli) {
        Some(e) => Some(e),
        None => if cli.parallel == 0 {
            Some(zero_parallel_message())
        } else if kind_of_arg(cli.kind) != BenchmarkKind::Throughput && cli.number == 0 {
            Some(zero_number_message())
        } else {
            None
        },
    }
}

/// The first refusal of the options, if any: [`option_error`], else a size that
/// does not parse.
pub open spec fn config_error(cli: Cli) -> Option<Seq<char>> {
    match option_error(cli) {
        Some(e) => Some(e),
        None => match spec_size(cli.size@) {
            Err(e) => Some(e),
            Ok(_) => None,
        },
    }
}

/// A refused target source is what the options are refused for, whatever the
/// worker count, the sample count and the size.
pub proof fn lemma_target_error_comes_first(cli: Cli)
    requires
        target_option_error(cli) is Some,
    ensures
        option_error(cli) == target_option_error(cli),
        config_error(cli) == target_option_error(cli),
{
}

impl Cli {
    /// The checks that come before the size is read, in the order [`Cli::into_config`]
    /// makes them: callers use it to know whether the size will be read at all.
    pub fn validate_options(&self) -> (r: Result<(), String>)
        ensures
            r is Err <==> option_error(*self) is Some,
            r matches Err(e) ==> e@ == option_error(*self)->Some_0,
    {
        match (&self.connect, &self.connect_list) {
            (Some(target), None) => match parse_target(target.as_str()) {
                Ok(_) => {},
                Err(e) => {
                    return Err(e);
                },
            },
            (None, Some(_)) => {},
            (Some(_), Some(_)) => {
                return Err("--connect and --connect-list are mutually exclusive".to_owned());
            },
            (None, None) => {
                return Err("either --connect or --connect-list is required".to_owned());
            },
        }
        if self.parallel == 0 {
            return Err("parallel must be greater than 0".to_owned());
        }
        let kind = BenchmarkKind::from(self.kind);
        if kind != BenchmarkKind::Throughput && self.number == 0 {
            return Err("number must be greater than 0".to_owned());
        }
        Ok(())
    }

    /// Validates the options and normalises them into a [`Config`]: throughput runs
    /// one round on each connection, so its sample count and warmup become 0.
    pub fn into_config(self) -> (r: Result<Config, String>)
        requires
            option_error(self) is None ==> !size_overflows(self.size@),
        ensures
            r is Err <==> config_error(self) is Some,
            r matches Err(e) ==> e@ == config_error(self)->Some_0,
            r matches Ok(c) ==> {
                let throughput = kind_of_arg(self.kind) == BenchmarkKind::Throughput;
                &&& c.parallel == self.parallel
                &&& c.number == (if throughput { 0 } else { self.number })
                &&& c.warmup == (if throughput { 0 } else { self.warmup })
                &&& c.kind == kind_of_arg(self.kind)
                &&& c.identity_path == self.identity
                &&& c.command == self.command
                &&& c.throughput_command == self.throughput_command
                &&& c.size_bytes == spec_size(self.size@)->Ok_0
                &&& c.file == self.file
                &&& c.json == self.json
                &&& match c.target_input {
                    TargetInput::Single(t) => self.connect matches Some(s) && spec_parse_target(s@)
                        == Ok::<crate::target::TargetValue, Seq<char>>(t@),
                    TargetInput::List(p) => self.connect is None && self.connect_list == Some(p),
                }
            },
    {
        let Cli {
            parallel,
            number,
            warmup,
            kind,
            connect,
            connect_list,
            identity,
            command,
            throughput_command,
            size,
            file,
            json,
        } = self;
        let target_input = match (connect, connect_list) {
            (Some(target), None) => match parse_target(target.as_str()) {
                Ok(t) => TargetInput::Single(t),
                Err(e) => {
                    return Err(e);
                },
            },
            (None, Some(path)) => TargetInput::List(path),
            (Some(_), Some(_)) => {
                return Err("--connect and --connect-list are mutually exclusive".to_owned());
            },
            (None, None) => {
                return Err("either --connect or --connect-list is required".to_owned());
            },
        };
        if parallel == 0 {
            return Err("parallel must be greater than 0".to_owned());
        }
        let kind = BenchmarkKind::from(kind);
        let throughput = kind == BenchmarkKind::Throughput;
        if !throughput && number == 0 {
            return Err("number must be greater than 0".to_owned());
        }
        let size_bytes = match parse_size_bytes(size.as_str()) {
            Ok(b) => b,
            Err(e) => {
                return Err(e);
            },
        };
        Ok(Config {
            parallel,
            number: if throughput { 0 } else { number },
            warmup: if throughput { 0 } else { warmup },
            kind,
            target_input,
            identity_path: identity,
            command,
            throughput_command,
            size_bytes,
            file,
            json,
        })
    }
}

} // verus!
