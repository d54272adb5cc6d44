//! The counting lines of a text report.
//!
//! A report's measured figures are floating point and are rendered outside the
//! library; the lines that only carry names and counts are rendered here.
use vstd::prelude::*;

use crate::error::{kind_name, ErrorKind};
use crate::text::{decimal, push_decimal, push_str};

verus! {

/// The name of a category as the error distribution of a text report prints it.
pub open spec fn variant_name(kind: ErrorKind) -> Seq<char> {
    match kind {
        ErrorKind::Config => "Config"@,
        ErrorKind::Target => "Target"@,
        ErrorKind::KeyRead => "KeyRead"@,
        ErrorKind::KeyFormat => "KeyFormat"@,
        ErrorKind::TcpConnect => "TcpConnect"@,
        ErrorKind::SshHandshake => "SshHandshake"@,
        ErrorKind::Authentication => "Authentication"@,
        ErrorKind::SessionOpen => "SessionOpen"@,
        ErrorKind::Exec => "Exec"@,
        ErrorKind::CommandTimeout => "CommandTimeout"@,
        ErrorKind::ReadTimeout => "ReadTimeout"@,
        ErrorKind::Io => "Io"@,
        ErrorKind::Protocol => "Protocol"@,
    }
}

/// `s` with its underscores left out.
pub open spec fn without_underscores(s: Seq<char>) -> Seq<char>
    decreases s.len(),
{
    if s.len() == 0 {
        s
    } else if s.last() == '_' {
        without_underscores(s.drop_last())
    } else {
        without_underscores(s.drop_last()).push(s.last())
    }
}

/// The same letter, in either case.
pub open spec fn same_letter(a: char, b: char) -> bool {
    ||| a == b
    ||| ('A' <= a <= 'Z' && b as int == a as int + 32)
    ||| ('A' <= b <= 'Z' && a as int == b as int + 32)
}

/// Two names spell the same letters in the same order, ignoring case and
/// underscores.
pub open spec fn spells_like(a: Seq<char>, b: Seq<char>) -> bool {
    let x = without_underscores(a);
    let y = without_underscores(b);
    &&& x.len() == y.len()
    &&& forall|i: int| 0 <= i < x.len() ==> same_letter(#[trigger] x[i], y[i])
}

proof fn lemma_spells_config()
    ensures
        spells_like("Config"@, "config"@),
        "Config"@.len() > 0 && 'A' <= "Config"@[0] <= 'Z',
{
    reveal_with_fuel(without_underscores, 16);
    reveal_strlit("Config");
    reveal_strlit("config");
}

proof fn lemma_spells_target()
    ensures
        spells_like("Target"@, "target"@),
        "Target"@.len() > 0 && 'A' <= "Target"@[0] <= 'Z',
{
    reveal_with_fuel(without_underscores, 16);
    reveal_strlit("Target");
    reveal_strlit("target");
}

proof fn lemma_spells_key_read()
    ensures
        spells_like("KeyRead"@, "key_read"@),
        "KeyRead"@.len() > 0 && 'A' <= "KeyRead"@[0] <= 'Z',
{
    reveal_with_fuel(without_underscores, 16);
    reveal_strlit("KeyRead");
    reveal_strlit("key_read");
}

proof fn lemma_spells_key_format()
    ensures
        spells_like("KeyFormat"@, "key_format"@),
        "KeyFormat"@.len() > 0 && 'A' <= "KeyFormat"@[0] <= 'Z',
{
    reveal_with_fuel(without_underscores, 16);
    reveal_strlit("KeyFormat");
    reveal_strlit("key_format");
}

proof fn lemma_spells_tcp_connect()
    ensures
        spells_like("TcpConnect"@, "tcp_connect"@),
        "TcpConnect"@.len() > 0 && 'A' <= "TcpConnect"@[0] <= 'Z',
{
    reveal_with_fuel(without_underscores, 16);
    reveal_strlit("TcpConnect");
    reveal_strlit("tcp_connect");
}

proof fn lemma_spells_ssh_handshake()
    ensures
        spells_like("SshHandshake"@, "ssh_handshake"@),
        "SshHandshake"@.len() > 0 && 'A' <= "SshHandshake"@[0] <= 'Z',
{
    reveal_with_fuel(without_underscores, 16);
    reveal_strlit("SshHandshake");
    reveal_strlit("ssh_handshake");
}

proof fn lemma_spells_authentication()
    ensures
        spells_like("Authentication"@, "authentication"@),
        "Authentication"@.len() > 0 && 'A' <= "Authentication"@[0] <= 'Z',
{
    reveal_with_fuel(without_underscores, 16);
    reveal_strlit("Authentication");
    reveal_strlit("authentication");
}

proof fn lemma_spells_session_open()
    ensures
        spells_like("SessionOpen"@, "session_open"@),
        "SessionOpen"@.len() > 0 && 'A' <= "SessionOpen"@[0] <= 'Z',
{
    reveal_with_fuel(without_underscores, 16);
    reveal_strlit("SessionOpen");
    reveal_strlit("session_open");
}

proof fn lemma_spells_exec()
    ensures
        spells_like("Exec"@, "exec"@),
        "Exec"@.len() > 0 && 'A' <= "Exec"@[0] <= 'Z',
{
    reveal_with_fuel(without_underscores, 16);
    reveal_strlit("Exec");
    reveal_strlit("exec");
}

proof fn lemma_spells_command_timeout()
    ensures
        spells_like("CommandTimeout"@, "command_timeout"@),
        "CommandTimeout"@.len() > 0 && 'A' <= "CommandTimeout"@[0] <= 'Z',
{
    reveal_with_fuel(without_underscores, 16);
    reveal_strlit("CommandTimeout");
    reveal_strlit("command_timeout");
}

proof fn lemma_spells_read_timeout()
    ensures
        spells_like("ReadTimeout"@, "read_timeout"@),
        "ReadTimeout"@.len() > 0 && 'A' <= "ReadTimeout"@[0] <= 'Z',
{
    reveal_with_fuel(without_underscores, 16);
    reveal_strlit("ReadTimeout");
    reveal_strlit("read_timeout");
}

proof fn lemma_spells_io()
    ensures
        spells_like("Io"@, "io"@),
        "Io"@.len() > 0 && 'A' <= "Io"@[0] <= 'Z',
{
    reveal_with_fuel(without_underscores, 16);
    reveal_strlit("Io");
    reveal_strlit("io");
}

proof fn lemma_spells_protocol()
    ensures
        spells_like("Protocol"@, "protocol"@),
        "Protocol"@.len() > 0 && 'A' <= "Protocol"@[0] <= 'Z',
{
    reveal_with_fuel(without_underscores, 16);
    reveal_strlit("Protocol");
    reveal_strlit("protocol");
}

/// The name a report prints for a category is that category's own name (the one
/// its errors are labelled with), written with capitals in place of underscores:
/// it starts with a capital and spells the same letters.
pub proof fn lemma_report_name_spells_category(kind: ErrorKind)
    ensures
        spells_like(variant_name(kind), kind_name(kind)),
        variant_name(kind).len() > 0,
        'A' <= variant_name(kind)[0] <= 'Z',
{
    match kind {
        ErrorKind::Config => lemma_spells_config(),
        ErrorKind::Target => lemma_spells_target(),
        ErrorKind::KeyRead => lemma_spells_key_read(),
        ErrorKind::KeyFormat => lemma_spells_key_format(),
        ErrorKind::TcpConnect => lemma_spells_tcp_connect(),
        ErrorKind::SshHandshake => lemma_spells_ssh_handshake(),
        ErrorKind::Authentication => lemma_spells_authentication(),
        ErrorKind::SessionOpen => lemma_spells_session_open(),
        ErrorKind::Exec => lemma_spells_exec(),
        ErrorKind::CommandTimeout => lemma_spells_command_timeout(),
        ErrorKind::ReadTimeout => lemma_spells_read_timeout(),
        ErrorKind::Io => lemma_spells_io(),
        ErrorKind::Protocol => lemma_spells_protocol(),
    }
}

/// The name of a category in a report's error distribution.
pub fn report_name(kind: &ErrorKind) -> (r: &'static str)
    ensures
        r@ == variant_name(*kind),
{
    match kind {
        ErrorKind::Config => "Config",
        ErrorKind::Target => "Target",
        ErrorKind::KeyRead => "KeyRead",
        ErrorKind::KeyFormat => "KeyFormat",
        ErrorKind::TcpConnect => "TcpConnect",
        ErrorKind::SshHandshake => "SshHandshake",
        ErrorKind::Authentication => "Authentication",
        ErrorKind::SessionOpen => "SessionOpen",
        ErrorKind::Exec => "Exec",
        ErrorKind::CommandTimeout => "CommandTimeout",
        ErrorKind::ReadTimeout => "ReadTimeout",
        ErrorKind::Io => "Io",
        ErrorKind::Protocol => "Protocol",
    }
}

/// The line `"<label>: <n>"`.
pub open spec fn count_line(label: Seq<char>, n: nat) -> Seq<char> {
    label + seq![':', ' '] + decimal(n)
}

/// One line of the error distribution: the category, indented, and its count.
pub open spec fn error_line(kind: ErrorKind, n: nat) -> Seq<char> {
    seq![' ', ' '] + count_line(variant_name(kind), n)
}

/// The lines of the error distribution, one per entry.
pub open spec fn error_lines(errors: Seq<(ErrorKind, usize)>) -> Seq<Seq<char>> {
    Seq::new(errors.len(), |i: int| error_line(errors[i].0, errors[i].1 as nat))
}

/// The lines that open a report: the benchmark and its success and failure counts.
pub open spec fn header_lines(benchmark: Seq<char>, success_count: nat, failure_count: nat) -> Seq<
    Seq<char>,
> {
    seq![
        "benchmark: "@ + benchmark,
        count_line("success_count"@, success_count),
        count_line("failure_count"@, failure_count),
    ]
}

/// The lines that close a report: the number of samples without an exit status,
/// when there are any, then the error distribution, when there are errors.
pub open spec fn trailer_lines(missing_exit_status: nat, errors: Seq<(ErrorKind, usize)>) -> Seq<
    Seq<char>,
> {
    (if missing_exit_status > 0 {
        seq![count_line("missing_exit_status"@, missing_exit_status)]
    } else {
        seq![]
    }) + (if errors.len() > 0 {
        seq!["error_counts:"@] + error_lines(errors)
    } else {
        seq![]
    })
}

/// The strings of a list of lines.
pub open spec fn lines_view(lines: Seq<String>) -> Seq<Seq<char>> {
    Seq::new(lines.len(), |i: int| lines[i]@)
}

fn render_count_line(label: &str, n: u64) -> (r: String)
    ensures
        r@ == count_line(label@, n as nat),
{
    let mut s = String::new();
    push_str(&mut s, label);
    s.push(':');
    s.push(' ');
    push_decimal(&mut s, n);
    assert(s@ =~= count_line(label@, n as nat));
    s
}

/// The lines that open a text report.
pub fn render_header_lines(benchmark: &str, success_count: usize, failure_count: usize) -> (r: Vec<
    String,
>)
    ensures
        lines_view(r@) == header_lines(benchmark@, success_count as nat, failure_count as nat),
{
    let mut first = String::new();
    push_str(&mut first, "benchmark: ");
    push_str(&mut first, benchmark);
    let mut lines: Vec<String> = Vec::new();
    lines.push(first);
    lines.push(render_count_line("success_count", success_count as u64));
    lines.push(render_count_line("failure_count", failure_count as u64));
    assert(lines_view(lines@) =~= header_lines(
        benchmark@,
        success_count as nat,
        failure_count as nat,
    ));
    lines
}

/// The lines that close a text report.
pub fn render_trailer_lines(missing_exit_status: usize, errors: &[(ErrorKind, usize)]) -> (r: Vec<
    String,
>)
    ensures
        lines_view(r@) == trailer_lines(missing_exit_status as nat, errors@),
{
    let mut lines: Vec<String> = Vec::new();
    if missing_exit_status > 0 {
        lines.push(render_count_line("missing_exit_status", missing_exit_status as u64));
    }
    let ghost head = lines_view(lines@);
    assert(head =~= (if missing_exit_status > 0 {
        seq![count_line("missing_exit_status"@, missing_exit_status as nat)]
    } else {
        Seq::<Seq<char>>::empty()
    }));
    if errors.len() > 0 {
        lines.push("error_counts:".to_owned());
        let ghost start = lines_view(lines@);
        let n = errors.len();
        let mut i: usize = 0;
        while i < n
            invariant
                i <= n == errors@.len(),
                lines_view(lines@) == start + error_lines(errors@).take(i as int),
            decreases n - i,
        {
            let (kind, count) = &errors[i];
            let mut line = String::new();
            line.push(' ');
            line.push(' ');
            push_str(&mut line, report_name(kind));
            line.push(':');
            line.push(' ');
            push_decimal(&mut line, *count as u64);
            assert(line@ =~= error_line(*kind, *count as nat));
            let ghost before = lines@;
            lines.push(line);
            assert(lines_view(lines@) =~= lines_view(before).push(line@));
            assert(error_lines(errors@).take(i + 1) =~= error_lines(errors@).take(i as int).push(
                line@,
            ));
            i = i + 1;
        }
        assert(error_lines(errors@).take(n as int) =~= error_lines(errors@));
    }
    assert(lines_view(lines@) =~= trailer_lines(missing_exit_status as nat, errors@));
    lines
}

} // verus!
