//! The logic of SSH sessions: the throughput command, error labels, and the
//! decisions taken on each message of a channel.
use vstd::prelude::*;

use crate::cli::MIB;
use crate::error::{kind_name, variant_kind, AppError, ErrorKind};
use crate::text::{
    chars_of, contains_chars, contains_seq, decimal, matches_at, occurs_at, push_decimal, push_str,
    replace_all, replace_chars, starts_with, string_of_range,
};

verus! {

pub open spec fn file_placeholder() -> Seq<char> {
    seq!['{', 'f', 'i', 'l', 'e', '}']
}

pub open spec fn count_placeholder() -> Seq<char> {
    seq!['{', 'c', 'o', 'u', 'n', 't', '}']
}

pub open spec fn template_message() -> Seq<char> {
    "template must contain {file} and {count}"@
}

/// The number of 1 MiB blocks that hold `size_bytes` bytes, rounded up.
pub open spec fn mib_blocks(size_bytes: nat) -> nat {
    size_bytes / (MIB as nat) + if size_bytes % (MIB as nat) == 0 {
        0nat
    } else {
        1nat
    }
}

/// The throughput command: the template with `{file}` replaced by the remote path,
/// then `{count}` by the number of MiB blocks to read; a template that lacks either
/// placeholder is refused.
pub open spec fn spec_render_throughput_command(
    template: Seq<char>,
    file: Seq<char>,
    size_bytes: nat,
) -> Result<Seq<char>, Seq<char>> {
    if !contains_seq(template, file_placeholder()) || !contains_seq(template, count_placeholder()) {
        Err(template_message())
    } else {
        Ok(
            replace_all(
                replace_all(template, file_placeholder(), file),
                count_placeholder(),
                decimal(mib_blocks(size_bytes)),
            ),
        )
    }
}

/// `pat` stands somewhere in `s`, letter for letter.
pub open spec fn has_placeholder(s: Seq<char>, pat: Seq<char>) -> bool {
    exists|i: int| 0 <= i && i + pat.len() <= s.len() && #[trigger] s.subrange(i, i + pat.len()) == pat
}

/// A throughput template is rendered exactly when it holds both `{file}` and
/// `{count}`; a template that lacks either is refused with the template message,
/// whatever the file and the size.
pub proof fn lemma_throughput_template_needs_both_placeholders(
    template: Seq<char>,
    file: Seq<char>,
    size_bytes: nat,
)
    ensures
        spec_render_throughput_command(template, file, size_bytes) is Ok <==> (has_placeholder(
            template,
            "{file}"@,
        ) && has_placeholder(template, "{count}"@)),
        !has_placeholder(template, "{file}"@) ==> spec_render_throughput_command(
            template,
            file,
            size_bytes,
        ) == Err::<Seq<char>, Seq<char>>("template must contain {file} and {count}"@),
        !has_placeholder(template, "{count}"@) ==> spec_render_throughput_command(
            template,
            file,
            size_bytes,
        ) == Err::<Seq<char>, Seq<char>>("template must contain {file} and {count}"@),
{
    reveal_strlit("{file}");
    reveal_strlit("{count}");
    assert("{file}"@ =~= file_placeholder());
    assert("{count}"@ =~= count_placeholder());
    if has_placeholder(template, file_placeholder()) {
        let i = choose|i: int|
            0 <= i && i + file_placeholder().len() <= template.len() && #[trigger] template.subrange(
                i,
                i + file_placeholder().len(),
            ) == file_placeholder();
        assert(occurs_at(template, file_placeholder(), i));
    }
    if has_placeholder(template, count_placeholder()) {
        let i = choose|i: int|
            0 <= i && i + count_placeholder().len() <= template.len() && #[trigger] template.subrange(
                i,
                i + count_placeholder().len(),
            ) == count_placeholder();
        assert(occurs_at(template, count_placeholder(), i));
    }
}

/// `s` holds no opening brace.
pub open spec fn no_brace(s: Seq<char>) -> bool {
    forall|i: int| 0 <= i < s.len() ==> s[i] != '{'
}

/// Replacing a brace-led pattern leaves a brace-free prefix as it is.
proof fn lemma_replace_skips_prefix(x: Seq<char>, y: Seq<char>, pat: Seq<char>, rep: Seq<char>)
    requires
        pat.len() > 0,
        pat[0] == '{',
        no_brace(x),
    ensures
        replace_all(x + y, pat, rep) == x + replace_all(y, pat, rep),
    decreases x.len(),
{
    let s = x + y;
    if x.len() == 0 {
        assert(s =~= y);
    } else if s.len() < pat.len() {
        assert(y.len() < pat.len());
    } else {
        assert(s[0] == x[0]);
        assert(s.take(pat.len() as int)[0] != pat[0]);
        assert(s.skip(1) =~= x.skip(1) + y);
        lemma_replace_skips_prefix(x.skip(1), y, pat, rep);
        assert(seq![s[0]] + (x.skip(1) + replace_all(y, pat, rep)) =~= x + replace_all(y, pat, rep));
    }
}

/// Replacing a brace-led pattern in a brace-free text changes nothing.
proof fn lemma_replace_nothing(x: Seq<char>, pat: Seq<char>, rep: Seq<char>)
    requires
        pat.len() > 0,
        pat[0] == '{',
        no_brace(x),
    ensures
        replace_all(x, pat, rep) == x,
{
    lemma_replace_skips_prefix(x, Seq::empty(), pat, rep);
    assert(x + Seq::<char>::empty() =~= x);
}

/// Replacing a pattern at the front of a text puts the replacement there.
proof fn lemma_replace_at_front(y: Seq<char>, pat: Seq<char>, rep: Seq<char>)
    requires
        pat.len() > 0,
    ensures
        replace_all(pat + y, pat, rep) == rep + replace_all(y, pat, rep),
{
    assert((pat + y).take(pat.len() as int) =~= pat);
    assert((pat + y).skip(pat.len() as int) =~= y);
}

/// The `{file}` step of rendering a template of the form `a{file}b{count}c`.
proof fn lemma_fill_file(a: Seq<char>, b: Seq<char>, c: Seq<char>, file: Seq<char>)
    requires
        no_brace(a),
        no_brace(b),
        no_brace(c),
    ensures
        replace_all(a + file_placeholder() + b + count_placeholder() + c, file_placeholder(), file)
            == a + file + b + count_placeholder() + c,
{
    let f = file_placeholder();
    let k = count_placeholder();
    let rest = k.skip(1) + c;
    assert forall|i: int| 0 <= i < rest.len() implies rest[i] != '{' by {
        if i < k.len() - 1 {
            assert(rest[i] == k[i + 1]);
        } else {
            assert(rest[i] == c[i - (k.len() - 1)]);
        }
    }
    assert(k + c =~= seq![k[0]] + rest);
    assert((k + c).skip(1) =~= rest);
    assert((k + c).take(f.len() as int)[1] != f[1]);
    assert((k + c).take(f.len() as int) != f);
    lemma_replace_nothing(rest, f, file);
    assert(replace_all(k + c, f, file) == seq![(k + c)[0]] + replace_all(rest, f, file));
    assert(replace_all(k + c, f, file) == k + c);
    lemma_replace_skips_prefix(b, k + c, f, file);
    lemma_replace_at_front(b + (k + c), f, file);
    lemma_replace_skips_prefix(a, f + (b + (k + c)), f, file);
    assert(a + f + b + k + c =~= a + (f + (b + (k + c))));
    assert(a + (file + (b + (k + c))) =~= a + file + b + k + c);
}

/// The `{count}` step of rendering, once the path stands in place of `{file}`.
proof fn lemma_fill_count(x: Seq<char>, c: Seq<char>, n: Seq<char>)
    requires
        no_brace(x),
        no_brace(c),
    ensures
        replace_all(x + count_placeholder() + c, count_placeholder(), n) == x + n + c,
{
    let k = count_placeholder();
    lemma_replace_nothing(c, k, n);
    lemma_replace_at_front(c, k, n);
    lemma_replace_skips_prefix(x, k + c, k, n);
    assert(x + k + c =~= x + (k + c));
    assert(x + (n + c) =~= x + n + c);
}

/// A brace-free text of three parts is brace-free.
proof fn lemma_no_brace_concat(a: Seq<char>, b: Seq<char>, c: Seq<char>)
    requires
        no_brace(a),
        no_brace(b),
        no_brace(c),
    ensures
        no_brace(a + b + c),
{
    let x = a + b + c;
    assert forall|i: int| 0 <= i < x.len() implies x[i] != '{' by {
        if i < a.len() {
            assert(x[i] == a[i]);
        } else if i < a.len() + b.len() {
            assert(x[i] == b[i - a.len()]);
        } else {
            assert(x[i] == c[i - a.len() - b.len()]);
        }
    }
}

/// A template made of brace-free text around one `{file}` followed by one
/// `{count}` renders to that text with the remote path in place of `{file}` and
/// the number of MiB blocks in place of `{count}` (for a path without braces).
pub proof fn lemma_throughput_command_fills_placeholders(
    a: Seq<char>,
    b: Seq<char>,
    c: Seq<char>,
    file: Seq<char>,
    size_bytes: nat,
)
    requires
        no_brace(a),
        no_brace(b),
        no_brace(c),
        no_brace(file),
    ensures
        spec_render_throughput_command(a + "{file}"@ + b + "{count}"@ + c, file, size_bytes) == Ok::<
            Seq<char>,
            Seq<char>,
        >(a + file + b + decimal(mib_blocks(size_bytes)) + c),
{
    reveal_strlit("{file}");
    reveal_strlit("{count}");
    let f = file_placeholder();
    let k = count_placeholder();
    assert("{file}"@ =~= f);
    assert("{count}"@ =~= k);
    let t = a + f + b + k + c;
    assert(t.subrange(a.len() as int, (a.len() + f.len()) as int) =~= f);
    assert(occurs_at(t, f, a.len() as int));
    let kpos: int = (a.len() + f.len() + b.len()) as int;
    assert(t.subrange(kpos, (kpos + k.len()) as int) =~= k);
    assert(occurs_at(t, k, kpos));
    lemma_fill_file(a, b, c, file);
    lemma_no_brace_concat(a, file, b);
    lemma_fill_count(a + file + b, c, decimal(mib_blocks(size_bytes)));
}

/// A string result taken by its view.
pub open spec fn text_result_view(r: Result<String, String>) -> Result<Seq<char>, Seq<char>> {
    match r {
        Ok(s) => Ok(s@),
        Err(e) => Err(e@),
    }
}

pub fn render_throughput_command(template: &str, file: &str, size_bytes: u64) -> (r: Result<
    String,
    String,
>)
    ensures
        text_result_view(r) == spec_render_throughput_command(template@, file@, size_bytes as nat),
{
    let t = chars_of(template);
    let file_pat: Vec<char> = vec!['{', 'f', 'i', 'l', 'e', '}'];
    let count_pat: Vec<char> = vec!['{', 'c', 'o', 'u', 'n', 't', '}'];
    assert(file_pat@ == file_placeholder());
    assert(count_pat@ == count_placeholder());
    if !contains_chars(&t, &file_pat) || !contains_chars(&t, &count_pat) {
        return Err("template must contain {file} and {count}".to_owned());
    }
    let count = size_bytes / MIB + if size_bytes % MIB == 0 {
        0
    } else {
        1
    };
    let mut count_text = String::new();
    push_decimal(&mut count_text, count);
    assert(count_text@ == decimal(count as nat));
    let count_chars = chars_of(count_text.as_str());
    let file_chars = chars_of(file);
    let step = replace_chars(&t, &file_pat, &file_chars);
    let done = replace_chars(&step, &count_pat, &count_chars);
    let out = string_of_range(&done, 0, done.len());
    assert(done@.subrange(0, done@.len() as int) == done@);
    Ok(out)
}

/// The text that marks an error of category `kind`: its name and a colon.
pub open spec fn label_prefix(kind: ErrorKind) -> Seq<char> {
    kind_name(kind).push(':')
}

/// The message of an error labelled with `kind`: `"<name>: <detail>"`.
pub open spec fn labelled_message(kind: ErrorKind, detail: Seq<char>) -> Seq<char> {
    kind_name(kind) + seq![':', ' '] + detail
}

/// An error whose message is labelled with its category, as the SSH steps report
/// their failures.
pub fn labelled_error(kind: &ErrorKind, detail: &str) -> (r: AppError)
    ensures
        r matches AppError::Config(m) && m@ == labelled_message(*kind, detail@),
{
    let mut m = String::new();
    push_str(&mut m, kind.as_str());
    m.push(':');
    m.push(' ');
    push_str(&mut m, detail);
    assert(m@ =~= labelled_message(*kind, detail@));
    AppError::Config(m)
}

/// Whether `message` starts with the label of `kind`.
fn has_label(message: &Vec<char>, kind: ErrorKind) -> (r: bool)
    ensures
        r == starts_with(message@, label_prefix(kind)),
{
    let mut p = chars_of(kind.as_str());
    p.push(':');
    let r = matches_at(message, &p, 0);
    proof {
        if starts_with(message@, p@) {
            assert(message@.subrange(0, p@.len() as int) =~= message@.take(p@.len() as int));
        }
        if r {
            assert(message@.subrange(0, p@.len() as int) =~= message@.take(p@.len() as int));
        }
    }
    r
}

/// The category named by the label at the start of a message, tried in a fixed order.
pub open spec fn message_kind(m: Seq<char>) -> Option<ErrorKind> {
    if starts_with(m, label_prefix(ErrorKind::KeyRead)) {
        Some(ErrorKind::KeyRead)
    } else if starts_with(m, label_prefix(ErrorKind::TcpConnect)) {
        Some(ErrorKind::TcpConnect)
    } else if starts_with(m, label_prefix(ErrorKind::SshHandshake)) {
        Some(ErrorKind::SshHandshake)
    } else if starts_with(m, label_prefix(ErrorKind::KeyFormat)) {
        Some(ErrorKind::KeyFormat)
    } else if starts_with(m, label_prefix(ErrorKind::Authentication)) {
        Some(ErrorKind::Authentication)
    } else if starts_with(m, label_prefix(ErrorKind::SessionOpen)) {
        Some(ErrorKind::SessionOpen)
    } else if starts_with(m, label_prefix(ErrorKind::Exec)) {
        Some(ErrorKind::Exec)
    } else if starts_with(m, label_prefix(ErrorKind::CommandTimeout)) {
        Some(ErrorKind::CommandTimeout)
    } else if starts_with(m, label_prefix(ErrorKind::ReadTimeout)) {
        Some(ErrorKind::ReadTimeout)
    } else {
        None
    }
}

/// The category of an error: a configuration error carries it in the label of its
/// message, any other error in its variant.
pub open spec fn spec_classify_error(error: AppError) -> ErrorKind {
    match error {
        AppError::Config(m) => match message_kind(m@) {
            Some(k) => k,
            None => ErrorKind::Config,
        },
        _ => variant_kind(error),
    }
}

pub fn classify_error(error: &AppError) -> (r: ErrorKind)
    ensures
        r == spec_classify_error(*error),
{
    match error {
        AppError::Config(message) => {
            let m = chars_of(message.as_str());
            if has_label(&m, ErrorKind::KeyRead) {
                ErrorKind::KeyRead
            } else if has_label(&m, ErrorKind::TcpConnect) {
                ErrorKind::TcpConnect
            } else if has_label(&m, ErrorKind::SshHandshake) {
                ErrorKind::SshHandshake
            } else if has_label(&m, ErrorKind::KeyFormat) {
                ErrorKind::KeyFormat
            } else if has_label(&m, ErrorKind::Authentication) {
                ErrorKind::Authentication
            } else if has_label(&m, ErrorKind::SessionOpen) {
                ErrorKind::SessionOpen
            } else if has_label(&m, ErrorKind::Exec) {
                ErrorKind::Exec
            } else if has_label(&m, ErrorKind::CommandTimeout) {
                ErrorKind::CommandTimeout
            } else if has_label(&m, ErrorKind::ReadTimeout) {
                ErrorKind::ReadTimeout
            } else {
                ErrorKind::Config
            }
        },
        _ => error.kind(),
    }
}

/// What waiting on a channel produced.
#[derive(Debug, Clone, Copy, PartialEq, Eq, Structural)]
pub enum ChannelEvent {
    /// Output data of the given length in bytes.
    Data(u64),
    /// The remote command's exit status.
    ExitStatus(u32),
    /// End of the output.
    Eof,
    /// The channel was closed.
    Close,
    /// Any other channel message.
    Other,
    /// The channel has no more messages.
    Ended,
    /// No message arrived within the wait timeout.
    TimedOut,
}

/// What to do after a channel event.
#[derive(Debug)]
pub enum Step {
    /// Wait for the next event.
    Wait,
    /// Stop reading; the outcome is complete.
    Finish,
    /// Stop with an error; the flag tells whether no exit status had arrived.
    Fail(AppError, bool),
}

pub open spec fn command_wait_detail() -> Seq<char> {
    "waiting for command event timed out"@
}

pub open spec fn stream_wait_detail() -> Seq<char> {
    "reading throughput stream timed out"@
}

/// The state after one event: output is counted, an exit status kept, the end of
/// output remembered, and a close or end of the channel with no exit status yet
/// marks it as missing.
pub open spec fn command_next(p: CommandProgress, event: ChannelEvent) -> CommandProgress {
    match event {
        ChannelEvent::Data(n) => CommandProgress { bytes_read: (p.bytes_read + n) as u64, ..p },
        ChannelEvent::ExitStatus(status) => CommandProgress { exit_status: Some(status), ..p },
        ChannelEvent::Eof => CommandProgress { output_ended: true, ..p },
        ChannelEvent::Close | ChannelEvent::Ended => CommandProgress {
            missing_exit_status: p.missing_exit_status || p.exit_status is None,
            ..p
        },
        _ => p,
    }
}

/// Whether an event completes a command: its exit status once the output has
/// ended, the end of output once the exit status has arrived, or the close or end of
/// the channel. An end of output with no exit status yet does not complete it: the
/// exit status is still awaited, until the channel closes or a wait times out.
pub open spec fn command_completes(p: CommandProgress, event: ChannelEvent) -> bool {
    match event {
        ChannelEvent::ExitStatus(_) => p.output_ended,
        ChannelEvent::Eof => p.exit_status is Some,
        ChannelEvent::Close | ChannelEvent::Ended => true,
        _ => false,
    }
}

/// The state after one event: as [`command_next`], but output counts only up to
/// the byte limit.
pub open spec fn stream_next(p: StreamProgress, event: ChannelEvent) -> StreamProgress {
    match event {
        ChannelEvent::Data(n) => {
            let room = p.size_limit - p.total;
            StreamProgress {
                total: (p.total + if n < room {
                    n as int
                } else {
                    room
                }) as u64,
                ..p
            }
        },
        ChannelEvent::ExitStatus(status) => StreamProgress { exit_status: Some(status), ..p },
        ChannelEvent::Eof | ChannelEvent::Close => StreamProgress {
            missing_exit_status: p.missing_exit_status || p.exit_status is None,
            ..p
        },
        _ => p,
    }
}

/// The state of a command after a sequence of events.
pub open spec fn command_after(p: CommandProgress, events: Seq<ChannelEvent>) -> CommandProgress
    decreases events.len(),
{
    if events.len() == 0 {
        p
    } else {
        command_next(command_after(p, events.drop_last()), events.last())
    }
}

/// The state of a remote command while its channel is read: the exit status seen so
/// far, whether the channel closed before any exit status, the bytes of output,
/// and whether the output has ended.
#[derive(Debug, Clone, Copy, PartialEq, Eq)]
pub struct CommandProgress {
    pub exit_status: Option<u32>,
    pub missing_exit_status: bool,
    pub bytes_read: u64,
    pub output_ended: bool,
}

impl CommandProgress {
    pub fn new() -> (r: CommandProgress)
        ensures
            r == initial_command(),
    {
        CommandProgress {
            exit_status: None,
            missing_exit_status: false,
            bytes_read: 0,
            output_ended: false,
        }
    }

    /// Takes one event of the channel. Output is counted and an exit status kept.
    /// The command is complete once both its exit status and the end of its output
    /// have arrived, or when the channel closes or ends; a close or end with no exit
    /// status marks it as missing. A timeout, also one that comes while the exit
    /// status is awaited after the end of output, fails the command with a
    /// `command_timeout` error.
    pub fn observe(&mut self, event: ChannelEvent) -> (r: Step)
        requires
            event matches ChannelEvent::Data(n) ==> old(self).bytes_read + n <= u64::MAX,
        ensures
            *final(self) == command_next(*old(self), event),
            match event {
                ChannelEvent::TimedOut => {
                    &&& r matches Step::Fail(AppError::Config(m), missing)
                    &&& m@ == labelled_message(ErrorKind::CommandTimeout, command_wait_detail())
                    &&& missing == (old(self).exit_status is None)
                },
                _ => if command_completes(*old(self), event) {
                    r is Finish
                } else {
                    r is Wait
                },
            },
    {
        match event {
            ChannelEvent::Data(n) => {
                self.bytes_read = self.bytes_read + n;
                Step::Wait
            },
            ChannelEvent::ExitStatus(status) => {
                self.exit_status = Some(status);
                if self.output_ended {
                    Step::Finish
                } else {
                    Step::Wait
                }
            },
            ChannelEvent::Eof => {
                self.output_ended = true;
                if self.exit_status.is_some() {
                    Step::Finish
                } else {
                    Step::Wait
                }
            },
            ChannelEvent::Close | ChannelEvent::Ended => {
                if self.exit_status.is_none() {
                    self.missing_exit_status = true;
                }
                Step::Finish
            },
            ChannelEvent::Other => Step::Wait,
            ChannelEvent::TimedOut => Step::Fail(
                labelled_error(&ErrorKind::CommandTimeout, "waiting for command event timed out"),
                self.exit_status.is_none(),
            ),
        }
    }
}

/// The state of a throughput stream while it is read: the byte limit, the bytes
/// counted so far, the exit status seen so far and whether the output ended before
/// any exit status.
#[derive(Debug, Clone, Copy, PartialEq, Eq)]
pub struct StreamProgress {
    pub size_limit: u64,
    pub total: u64,
    pub exit_status: Option<u32>,
    pub missing_exit_status: bool,
}

impl StreamProgress {
    /// No more bytes are counted than the limit.
    pub open spec fn wf(self) -> bool {
        self.total <= self.size_limit
    }

    pub fn new(size_limit: u64) -> (r: StreamProgress)
        ensures
            r == initial_stream(size_limit),
            r.wf(),
    {
        StreamProgress { size_limit, total: 0, exit_status: None, missing_exit_status: false }
    }

    /// Whether the limit is still to be reached.
    pub fn wants_more(&self) -> (r: bool)
        ensures
            r == (self.total < self.size_limit),
    {
        self.total < self.size_limit
    }

    /// Takes one event of the stream. Output counts up to the limit and no further;
    /// otherwise as [`CommandProgress::observe`], with a `read_timeout` error.
    pub fn observe(&mut self, event: ChannelEvent) -> (r: Step)
        requires
            old(self).wf(),
        ensures
            final(self).wf(),
            final(self).size_limit == old(self).size_limit,
            *final(self) == stream_next(*old(self), event),
            match event {
                ChannelEvent::Data(_) | ChannelEvent::ExitStatus(_) | ChannelEvent::Other => r is Wait,
                ChannelEvent::Eof | ChannelEvent::Close | ChannelEvent::Ended => r is Finish,
                ChannelEvent::TimedOut => {
                    &&& r matches Step::Fail(AppError::Config(m), missing)
                    &&& m@ == labelled_message(ErrorKind::ReadTimeout, stream_wait_detail())
                    &&& missing == (old(self).exit_status is None)
                },
            },
    {
        match event {
            ChannelEvent::Data(n) => {
                let room = self.size_limit - self.total;
                self.total = self.total + if n < room {
                    n
                } else {
                    room
                };
                Step::Wait
            },
            ChannelEvent::ExitStatus(status) => {
                self.exit_status = Some(status);
                Step::Wait
            },
            ChannelEvent::Eof | ChannelEvent::Close => {
                if self.exit_status.is_none() {
                    self.missing_exit_status = true;
                }
                Step::Finish
            },
            ChannelEvent::Other => Step::Wait,
            ChannelEvent::Ended => Step::Finish,
            ChannelEvent::TimedOut => Step::Fail(
                labelled_error(&ErrorKind::ReadTimeout, "reading throughput stream timed out"),
                self.exit_status.is_none(),
            ),
        }
    }

    /// The outcome once reading stops: the bytes read (never above the limit), the
    /// exit status, and whether it is missing, which it is whenever none arrived.
    pub fn finish(&self) -> (r: (u64, Option<u32>, bool))
        ensures
            r.0 == (if self.total < self.size_limit { self.total } else { self.size_limit }),
            r.1 == self.exit_status,
            r.2 == (self.missing_exit_status || self.exit_status is None),
    {
        let total = if self.total < self.size_limit {
            self.total
        } else {
            self.size_limit
        };
        (total, self.exit_status, self.missing_exit_status || self.exit_status.is_none())
    }
}

/// A command's state before any event.
pub open spec fn initial_command() -> CommandProgress {
    CommandProgress { exit_status: None, missing_exit_status: false, bytes_read: 0, output_ended: false }
}

/// The exit status reported last among `events`, if any.
pub open spec fn last_exit_status(events: Seq<ChannelEvent>) -> Option<u32>
    decreases events.len(),
{
    if events.len() == 0 {
        None
    } else {
        match events.last() {
            ChannelEvent::ExitStatus(status) => Some(status),
            _ => last_exit_status(events.drop_last()),
        }
    }
}

/// The bytes of output reported among `events`.
pub open spec fn data_total(events: Seq<ChannelEvent>) -> nat
    decreases events.len(),
{
    if events.len() == 0 {
        0
    } else {
        data_total(events.drop_last()) + match events.last() {
            ChannelEvent::Data(n) => n as nat,
            _ => 0nat,
        }
    }
}

/// The events of one reading of a command's channel: none before the last completes
/// the command or times out, and the last completes it.
pub open spec fn completed_command_run(events: Seq<ChannelEvent>) -> bool {
    &&& events.len() > 0
    &&& forall|i: int|
        0 <= i < events.len() - 1 ==> !(#[trigger] events[i] is TimedOut) && !command_completes(
            command_after(initial_command(), events.take(i)),
            events[i],
        )
    &&& command_completes(command_after(initial_command(), events.drop_last()), events.last())
}

/// What a command's state records after any events: the last exit status, whether
/// the output ended, and the bytes of output (while they fit in a `u64`).
pub proof fn lemma_command_state(events: Seq<ChannelEvent>)
    ensures
        command_after(initial_command(), events).exit_status == last_exit_status(events),
        command_after(initial_command(), events).output_ended <==> exists|i: int|
            0 <= i < events.len() && #[trigger] events[i] is Eof,
        data_total(events) <= u64::MAX ==> command_after(initial_command(), events).bytes_read
            == data_total(events),
    decreases events.len(),
{
    if events.len() > 0 {
        let prev = events.drop_last();
        lemma_command_state(prev);
        if data_total(events) <= u64::MAX {
            assert(data_total(prev) <= data_total(events));
        }
        assert forall|i: int| 0 <= i < prev.len() implies #[trigger] prev[i] == events[i] by {}
        if !(events.last() is Eof) {
            assert forall|i: int| 0 <= i < events.len() && #[trigger] events[i] is Eof implies i
                < prev.len() && prev[i] is Eof by {}
        } else {
            assert(events[events.len() - 1] is Eof);
        }
    }
}

proof fn lemma_command_no_missing(events: Seq<ChannelEvent>, k: int)
    requires
        0 <= k <= events.len(),
        forall|i: int|
            0 <= i < k ==> !command_completes(
                command_after(initial_command(), events.take(i)),
                #[trigger] events[i],
            ),
    ensures
        !command_after(initial_command(), events.take(k)).missing_exit_status,
    decreases k,
{
    if k > 0 {
        lemma_command_no_missing(events, k - 1);
        assert(events.take(k).drop_last() =~= events.take(k - 1));
        assert(events.take(k).last() == events[k - 1]);
        assert(!command_completes(
            command_after(initial_command(), events.take(k - 1)),
            events[k - 1],
        ));
    } else {
        assert(events.take(0) =~= Seq::<ChannelEvent>::empty());
    }
}

/// Completion of a command: when a reading of its channel completes, the exit
/// status is the last one that arrived, it is reported missing exactly when none
/// arrived, and the output counted is all the output that arrived. An end of output
/// before the exit status does not complete it (see [`command_completes`]).
pub proof fn lemma_command_completion(events: Seq<ChannelEvent>)
    requires
        completed_command_run(events),
    ensures
        command_after(initial_command(), events).exit_status == last_exit_status(events),
        command_after(initial_command(), events).missing_exit_status == (last_exit_status(
            events,
        ) is None),
        data_total(events) <= u64::MAX ==> command_after(initial_command(), events).bytes_read
            == data_total(events),
{
    let n = events.len() - 1;
    assert(events.drop_last() =~= events.take(n));
    assert forall|i: int| 0 <= i < n implies !command_completes(
        command_after(initial_command(), events.take(i)),
        #[trigger] events[i],
    ) by {}
    lemma_command_no_missing(events, n);
    lemma_command_state(events);
    lemma_command_state(events.drop_last());
}

/// The state of a stream after a sequence of events.
pub open spec fn stream_after(p: StreamProgress, events: Seq<ChannelEvent>) -> StreamProgress
    decreases events.len(),
{
    if events.len() == 0 {
        p
    } else {
        stream_next(stream_after(p, events.drop_last()), events.last())
    }
}

/// A stream's state before any event, with the byte limit `size_limit`.
pub open spec fn initial_stream(size_limit: u64) -> StreamProgress {
    StreamProgress { size_limit, total: 0, exit_status: None, missing_exit_status: false }
}

/// Reading a throughput stream: whatever events arrive, the bytes counted are the
/// lesser of the limit and the output that arrived, and the exit status is the last
/// one that arrived.
pub proof fn lemma_stream_reading(size_limit: u64, events: Seq<ChannelEvent>)
    ensures
        stream_after(initial_stream(size_limit), events).wf(),
        stream_after(initial_stream(size_limit), events).size_limit == size_limit,
        stream_after(initial_stream(size_limit), events).total == if data_total(events)
            < size_limit {
            data_total(events)
        } else {
            size_limit as nat
        },
        stream_after(initial_stream(size_limit), events).exit_status == last_exit_status(events),
    decreases events.len(),
{
    if events.len() > 0 {
        lemma_stream_reading(size_limit, events.drop_last());
    }
}

/// A throughput count never exceeds its limit, whatever events arrive.
pub proof fn lemma_stream_within_limit(p: StreamProgress, event: ChannelEvent)
    requires
        p.wf(),
    ensures
        stream_next(p, event).wf(),
        stream_next(p, event).size_limit == p.size_limit,
        stream_next(p, event).total >= p.total,
{
}

/// The number of MiB blocks covers the size: at most one block more than needed,
/// and exactly the size when it is a whole number of MiB.
pub proof fn lemma_mib_blocks_cover(size_bytes: nat)
    ensures
        mib_blocks(size_bytes) * (MIB as nat) >= size_bytes,
        size_bytes > 0 ==> (mib_blocks(size_bytes) - 1) * (MIB as nat) < size_bytes,
        size_bytes % (MIB as nat) == 0 ==> mib_blocks(size_bytes) * (MIB as nat) == size_bytes,
{
    let m = MIB as int;
    let q = size_bytes as int / m;
    let r = size_bytes as int % m;
    vstd::arithmetic::div_mod::lemma_fundamental_div_mod(size_bytes as int, m);
    assert(size_bytes == m * q + r);
    assert(0 <= r < m);
    if r == 0 {
        assert(mib_blocks(size_bytes) == q);
        assert(q * m == size_bytes) by (nonlinear_arith)
            requires
                size_bytes == m * q + r,
                r == 0,
        ;
        if size_bytes > 0 {
            assert((q - 1) * m < size_bytes) by (nonlinear_arith)
                requires
                    size_bytes == m * q,
                    m > 0,
            ;
        }
    } else {
        assert(mib_blocks(size_bytes) == q + 1);
        assert((q + 1) * m >= size_bytes && q * m < size_bytes) by (nonlinear_arith)
            requires
                size_bytes == m * q + r,
                0 < r < m,
        ;
    }
}

/// The categories that a message label can name.
pub open spec fn is_label_kind(kind: ErrorKind) -> bool {
    match kind {
        ErrorKind::KeyRead | ErrorKind::TcpConnect | ErrorKind::SshHandshake | ErrorKind::KeyFormat
        | ErrorKind::Authentication | ErrorKind::SessionOpen | ErrorKind::Exec
        | ErrorKind::CommandTimeout | ErrorKind::ReadTimeout => true,
        _ => false,
    }
}

proof fn lemma_differs_at(m: Seq<char>, p: Seq<char>, j: int)
    requires
        0 <= j < p.len(),
        j < m.len(),
        m[j] != p[j],
    ensures
        !starts_with(m, p),
{
    if starts_with(m, p) {
        assert(m.take(p.len() as int)[j] == p[j]);
    }
}

proof fn lemma_not_labelled(m: Seq<char>, kind: ErrorKind, j: int)
    requires
        0 <= j < kind_name(kind).len(),
        j < m.len(),
        m[j] != kind_name(kind)[j],
    ensures
        !starts_with(m, label_prefix(kind)),
{
    lemma_differs_at(m, label_prefix(kind), j);
}

/// Classifying an error labelled with a category gives that category back, when
/// labels name it; an error labelled otherwise is a configuration error.
pub proof fn lemma_classify_labelled_error(kind: ErrorKind, detail: Seq<char>, error: AppError)
    requires
        error matches AppError::Config(m) && m@ == labelled_message(kind, detail),
    ensures
        spec_classify_error(error) == if is_label_kind(kind) {
            kind
        } else {
            ErrorKind::Config
        },
{
    reveal_strlit("config");
    reveal_strlit("target");
    reveal_strlit("key_read");
    reveal_strlit("key_format");
    reveal_strlit("tcp_connect");
    reveal_strlit("ssh_handshake");
    reveal_strlit("authentication");
    reveal_strlit("session_open");
    reveal_strlit("exec");
    reveal_strlit("command_timeout");
    reveal_strlit("read_timeout");
    reveal_strlit("io");
    reveal_strlit("protocol");
    let m = labelled_message(kind, detail);
    let name = kind_name(kind);
    assert(m.take(name.len() + 1int) =~= label_prefix(kind));
    assert forall|j: int| 0 <= j < name.len() implies #[trigger] m[j] == name[j] by {}
    assert(name.len() >= 2);
    assert(m[0] == name[0]);
    assert(m[1] == name[1]);
    let all = seq![
        ErrorKind::KeyRead,
        ErrorKind::TcpConnect,
        ErrorKind::SshHandshake,
        ErrorKind::KeyFormat,
        ErrorKind::Authentication,
        ErrorKind::SessionOpen,
        ErrorKind::Exec,
        ErrorKind::CommandTimeout,
        ErrorKind::ReadTimeout,
    ];
    assert forall|i: int| 0 <= i < all.len() && all[i] != kind implies !starts_with(
        m,
        label_prefix(#[trigger] all[i]),
    ) by {
        let other = all[i];
        if m[0] != kind_name(other)[0] {
            lemma_not_labelled(m, other, 0);
        } else if m[1] != kind_name(other)[1] {
            lemma_not_labelled(m, other, 1);
        } else if name.len() > 2 && m[2] != kind_name(other)[2] {
            assert(m[2] == name[2]);
            lemma_not_labelled(m, other, 2);
        } else {
            assert(m[4] == name[4]);
            lemma_not_labelled(m, other, 4);
        }
    }
    assert(all[0] == ErrorKind::KeyRead);
    assert(all[1] == ErrorKind::TcpConnect);
    assert(all[2] == ErrorKind::SshHandshake);
    assert(all[3] == ErrorKind::KeyFormat);
    assert(all[4] == ErrorKind::Authentication);
    assert(all[5] == ErrorKind::SessionOpen);
    assert(all[6] == ErrorKind::Exec);
    assert(all[7] == ErrorKind::CommandTimeout);
    assert(all[8] == ErrorKind::ReadTimeout);
}

} // verus!
