//! Benchmark targets: parsing `user@host:port`, target lists, and the rotation of
//! targets over workers.
use vstd::prelude::*;

use crate::text::{
    decimal, is_digit, is_first_index, is_last_index, lemma_decimal_roundtrip,
    lemma_first_index_unique, lemma_last_index_unique, lemma_parse_decimal, chars_of, find_first, find_last, first_index_of, last_index_of, parse_unsigned,
    parse_unsigned_range, string_of_range, trim, trim_range,
};

verus! {

/// An SSH endpoint: the user to log in as, the host and the port.
#[derive(Debug, Clone, PartialEq, Eq)]
pub struct Target {
    pub user: String,
    pub host: String,
    pub port: u16,
}

/// The abstract value of a [`Target`].
pub struct TargetValue {
    pub user: Seq<char>,
    pub host: Seq<char>,
    pub port: u16,
}

impl View for Target {
    type V = TargetValue;

    open spec fn view(&self) -> TargetValue {
        TargetValue { user: self.user@, host: self.host@, port: self.port }
    }
}

/// The abstract values of a sequence of targets.
pub open spec fn target_values(ts: Seq<Target>) -> Seq<TargetValue> {
    Seq::new(ts.len(), |i: int| ts[i]@)
}

impl Target {
    pub fn new(user: &str, host: &str, port: u16) -> (t: Target)
        ensures
            t@ == (TargetValue { user: user@, host: host@, port }),
    {
        Target { user: user.to_owned(), host: host.to_owned(), port }
    }

    /// A copy of this target.
    pub fn duplicate(&self) -> (t: Target)
        ensures
            t@ == self@,
    {
        Target { user: self.user.clone(), host: self.host.clone(), port: self.port }
    }
}

pub open spec fn missing_at_message() -> Seq<char> {
    "missing @ separator"@
}

pub open spec fn missing_port_message() -> Seq<char> {
    "missing :port suffix"@
}

pub open spec fn incomplete_target_message() -> Seq<char> {
    "target must include user, host and port"@
}

pub open spec fn ipv6_message() -> Seq<char> {
    "ipv6 targets are not supported"@
}

pub open spec fn bad_port_message() -> Seq<char> {
    "port must be a valid u16"@
}

/// The meaning of `user@host:port`: the user ends at the first `@`, the port starts
/// after the last `:`; none of the three may be empty, the host may hold no `:`
/// (IPv6 literals are refused), and the port is read as `str::parse::<u16>` reads it.
pub open spec fn spec_parse_target(s: Seq<char>) -> Result<TargetValue, Seq<char>> {
    match first_index_of(s, '@') {
        None => Err(missing_at_message()),
        Some(a) => {
            let user = s.take(a);
            let host_port = s.skip(a + 1);
            match last_index_of(host_port, ':') {
                None => Err(missing_port_message()),
                Some(c) => {
                    let host = host_port.take(c);
                    let port = host_port.skip(c + 1);
                    if user.len() == 0 || host.len() == 0 || port.len() == 0 {
                        Err(incomplete_target_message())
                    } else if first_index_of(host, ':') is Some {
                        Err(ipv6_message())
                    } else {
                        match parse_unsigned(port, 65535) {
                            None => Err(bad_port_message()),
                            Some(p) => Ok(TargetValue { user, host, port: p as u16 }),
                        }
                    }
                },
            }
        },
    }
}

/// The result of a parse, with each target taken by its value.
pub open spec fn parsed_target_view(r: Result<Target, String>) -> Result<TargetValue, Seq<char>> {
    match r {
        Ok(t) => Ok(t@),
        Err(e) => Err(e@),
    }
}

/// Parses the target written in `v[lo..hi]`.
fn parse_target_range(v: &Vec<char>, lo: usize, hi: usize) -> (r: Result<Target, String>)
    requires
        lo <= hi <= v.len(),
    ensures
        parsed_target_view(r) == spec_parse_target(v@.subrange(lo as int, hi as int)),
{
    let ghost s = v@.subrange(lo as int, hi as int);
    let a = match find_first(v, lo, hi, '@') {
        None => {
            return Err("missing @ separator".to_owned());
        },
        Some(a) => a,
    };
    let hp = lo + a + 1;
    let ghost host_port = s.skip(a + 1);
    assert(host_port =~= v@.subrange(hp as int, hi as int));
    assert(s.take(a as int) =~= v@.subrange(lo as int, lo + a));
    let c = match find_last(v, hp, hi, ':') {
        None => {
            return Err("missing :port suffix".to_owned());
        },
        Some(c) => c,
    };
    let host_end = hp + c;
    assert(host_port.take(c as int) =~= v@.subrange(hp as int, host_end as int));
    assert(host_port.skip(c + 1) =~= v@.subrange(host_end + 1, hi as int));
    if a == 0 || c == 0 || host_end + 1 == hi {
        return Err("target must include user, host and port".to_owned());
    }
    if find_first(v, hp, host_end, ':').is_some() {
        return Err("ipv6 targets are not supported".to_owned());
    }
    let port = match parse_unsigned_range(v, host_end + 1, hi, 65535) {
        None => {
            return Err("port must be a valid u16".to_owned());
        },
        Some(p) => p as u16,
    };
    let user = string_of_range(v, lo, lo + a);
    let host = string_of_range(v, hp, host_end);
    Ok(Target { user, host, port })
}

/// Parses `user@host:port`.
pub fn parse_target(input: &str) -> (r: Result<Target, String>)
    ensures
        parsed_target_view(r) == spec_parse_target(input@),
{
    let v = chars_of(input);
    assert(v@.subrange(0, v@.len() as int) == v@);
    parse_target_range(&v, 0, v.len())
}

/// Reading back a target written as `user@host:port`, with the port in decimal,
/// gives that target, whenever the user holds no `@` and the host no `:`.
pub proof fn lemma_parse_target_roundtrip(user: Seq<char>, host: Seq<char>, port: u16)
    requires
        user.len() > 0,
        host.len() > 0,
        forall|i: int| 0 <= i < user.len() ==> user[i] != '@',
        forall|i: int| 0 <= i < host.len() ==> host[i] != ':',
    ensures
        spec_parse_target(user + seq!['@'] + host + seq![':'] + decimal(port as nat)) == Ok::<
            TargetValue,
            Seq<char>,
        >(TargetValue { user, host, port }),
{
    let d = decimal(port as nat);
    lemma_decimal_roundtrip(port as nat);
    lemma_parse_decimal(port as nat, 65535);
    let s = user + seq!['@'] + host + seq![':'] + d;
    let a = user.len() as int;
    assert(s[a] == '@');
    assert forall|j: int| 0 <= j < a implies s[j] != '@' by {
        assert(s[j] == user[j]);
    }
    assert(is_first_index(s, '@', a));
    lemma_first_index_unique(s, '@', a);
    let hp = s.skip(a + 1);
    assert(hp =~= host + seq![':'] + d);
    let c = host.len() as int;
    assert(hp[c] == ':');
    assert forall|j: int| c < j < hp.len() implies hp[j] != ':' by {
        assert(hp[j] == d[j - c - 1]);
        assert(is_digit(d[j - c - 1]));
    }
    assert(is_last_index(hp, ':', c));
    lemma_last_index_unique(hp, ':', c);
    assert(s.take(a) =~= user);
    assert(hp.take(c) =~= host);
    assert(hp.skip(c + 1) =~= d);
    assert(!exists|k: int| is_first_index(host, ':', k));
}

/// What one line of a target list holds: nothing when it is blank, else a target
/// written as `user@host:port` between optional surrounding whitespace.
pub open spec fn spec_parse_target_line(line: Seq<char>) -> Result<Option<TargetValue>, Seq<char>> {
    let t = trim(line);
    if t.len() == 0 {
        Ok(None)
    } else {
        match spec_parse_target(t) {
            Ok(v) => Ok(Some(v)),
            Err(e) => Err(e),
        }
    }
}

/// `ts` with `first` in front of it, if there is one.
pub open spec fn prepend_opt(first: Option<TargetValue>, ts: Seq<TargetValue>) -> Seq<TargetValue> {
    match first {
        Some(t) => seq![t] + ts,
        None => ts,
    }
}

/// The targets of a target list: one per non-blank line, in order; the first line
/// that is not a valid target decides the error.
pub open spec fn spec_parse_target_list(s: Seq<char>) -> Result<Seq<TargetValue>, Seq<char>>
    decreases s.len(),
{
    match first_index_of(s, '\n') {
        Some(i) => match spec_parse_target_line(s.take(i)) {
            Err(e) => Err(e),
            Ok(first) => match spec_parse_target_list(s.skip(i + 1)) {
                Err(e) => Err(e),
                Ok(rest) => Ok(prepend_opt(first, rest)),
            },
        },
        None => match spec_parse_target_line(s) {
            Err(e) => Err(e),
            Ok(first) => Ok(prepend_opt(first, seq![])),
        },
    }
}

/// The lines of a text: the pieces between `\n` characters, the last piece included.
pub open spec fn split_lines(s: Seq<char>) -> Seq<Seq<char>>
    decreases s.len(),
{
    match first_index_of(s, '\n') {
        Some(i) => seq![s.take(i)] + split_lines(s.skip(i + 1)),
        None => seq![s],
    }
}

/// A line of a target list is valid when, trimmed, it is blank or a target.
pub open spec fn line_valid(line: Seq<char>) -> bool {
    trim(line).len() == 0 || spec_parse_target(trim(line)) is Ok
}

/// The target that a valid line holds: none for a blank line.
pub open spec fn line_target(line: Seq<char>) -> Option<TargetValue> {
    if trim(line).len() == 0 {
        None
    } else {
        match spec_parse_target(trim(line)) {
            Ok(t) => Some(t),
            Err(_) => None,
        }
    }
}

/// The targets of a sequence of lines, in order, blank lines skipped.
pub open spec fn targets_of_lines(lines: Seq<Seq<char>>) -> Seq<TargetValue>
    decreases lines.len(),
{
    if lines.len() == 0 {
        seq![]
    } else {
        prepend_opt(line_target(lines[0]), targets_of_lines(lines.skip(1)))
    }
}

/// A target list reads without error exactly when every line, trimmed, is blank or
/// a target; it then holds the targets of its non-blank lines, in order.
pub proof fn lemma_target_list_lines(s: Seq<char>)
    ensures
        spec_parse_target_list(s) is Ok <==> forall|i: int|
            0 <= i < split_lines(s).len() ==> line_valid(#[trigger] split_lines(s)[i]),
        spec_parse_target_list(s) is Ok ==> spec_parse_target_list(s)->Ok_0 == targets_of_lines(
            split_lines(s),
        ),
    decreases s.len(),
{
    match first_index_of(s, '\n') {
        Some(i) => {
            let rest = s.skip(i + 1);
            lemma_target_list_lines(rest);
            let lines = split_lines(s);
            assert(lines == seq![s.take(i)] + split_lines(rest));
            assert(lines.skip(1) =~= split_lines(rest));
            assert(lines[0] == s.take(i));
            assert forall|k: int| 0 <= k < split_lines(rest).len() implies #[trigger] split_lines(
                rest,
            )[k] == lines[k + 1] by {}
            if spec_parse_target_list(s) is Ok {
                assert(spec_parse_target_line(lines[0]) is Ok);
                assert(spec_parse_target_line(lines[0])->Ok_0 == line_target(lines[0]));
                assert(spec_parse_target_list(rest) is Ok);
                assert(targets_of_lines(lines) == prepend_opt(
                    line_target(lines[0]),
                    targets_of_lines(lines.skip(1)),
                ));
                assert forall|k: int| 0 <= k < lines.len() implies line_valid(
                    #[trigger] lines[k],
                ) by {
                    if k > 0 {
                        assert(lines[k] == split_lines(rest)[k - 1]);
                    }
                }
            }
            if forall|k: int| 0 <= k < lines.len() ==> line_valid(#[trigger] lines[k]) {
                assert(line_valid(lines[0]));
                assert forall|k: int| 0 <= k < split_lines(rest).len() implies line_valid(
                    #[trigger] split_lines(rest)[k],
                ) by {
                    assert(line_valid(lines[k + 1]));
                }
            }
        },
        None => {
            let lines = split_lines(s);
            assert(lines == seq![s]);
            assert(lines.skip(1) =~= Seq::<Seq<char>>::empty());
            if spec_parse_target_list(s) is Ok {
                assert(line_valid(lines[0]));
                assert(spec_parse_target_line(lines[0])->Ok_0 == line_target(lines[0]));
                assert(targets_of_lines(lines.skip(1)) == Seq::<TargetValue>::empty());
                assert(targets_of_lines(lines) == prepend_opt(
                    line_target(lines[0]),
                    targets_of_lines(lines.skip(1)),
                ));
            }
        },
    }
}

/// `done` followed by what `rest` holds, or the error of `rest`.
pub open spec fn append_parsed(
    done: Seq<TargetValue>,
    rest: Result<Seq<TargetValue>, Seq<char>>,
) -> Result<Seq<TargetValue>, Seq<char>> {
    match rest {
        Ok(ts) => Ok(done + ts),
        Err(e) => Err(e),
    }
}

/// The result of parsing a target list, with each target taken by its value.
pub open spec fn parsed_list_view(r: Result<Vec<Target>, String>) -> Result<
    Seq<TargetValue>,
    Seq<char>,
> {
    match r {
        Ok(ts) => Ok(target_values(ts@)),
        Err(e) => Err(e@),
    }
}

/// Parses the line `v[lo..hi]` of a target list and appends the target it holds to `out`.
fn parse_line_into(v: &Vec<char>, lo: usize, hi: usize, out: &mut Vec<Target>) -> (r: Result<
    (),
    String,
>)
    requires
        lo <= hi <= v.len(),
    ensures
        match spec_parse_target_line(v@.subrange(lo as int, hi as int)) {
            Err(e) => r matches Err(m) && m@ == e,
            Ok(first) => r is Ok && target_values(final(out)@) == target_values(old(out)@)
                + prepend_opt(first, seq![]),
        },
{
    let ghost line = v@.subrange(lo as int, hi as int);
    let (a, b) = trim_range(v, lo, hi);
    if a == b {
        assert(target_values(out@) == target_values(out@) + Seq::<TargetValue>::empty());
        return Ok(());
    }
    match parse_target_range(v, a, b) {
        Err(e) => Err(e),
        Ok(t) => {
            let ghost before = out@;
            out.push(t);
            assert(target_values(out@) =~= target_values(before) + seq![t@]);
            Ok(())
        },
    }
}

/// Parses the text of a target list: one `user@host:port` per line, blank lines ignored.
pub fn parse_target_list(text: &str) -> (r: Result<Vec<Target>, String>)
    ensures
        parsed_list_view(r) == spec_parse_target_list(text@),
        r is Ok <==> forall|i: int|
            0 <= i < split_lines(text@).len() ==> line_valid(#[trigger] split_lines(text@)[i]),
        r matches Ok(ts) ==> target_values(ts@) == targets_of_lines(split_lines(text@)),
{
    let r = parse_target_text(text);
    proof {
        lemma_target_list_lines(text@);
    }
    r
}

fn parse_target_text(text: &str) -> (r: Result<Vec<Target>, String>)
    ensures
        parsed_list_view(r) == spec_parse_target_list(text@),
{
    let v = chars_of(text);
    let n = v.len();
    let mut out: Vec<Target> = Vec::new();
    let mut pos: usize = 0;
    assert(v@.subrange(0, n as int) == v@);
    assert(target_values(out@) =~= Seq::<TargetValue>::empty());
    loop
        invariant
            pos <= n == v.len(),
            v@ == text@,
            spec_parse_target_list(v@) == append_parsed(
                target_values(out@),
                spec_parse_target_list(v@.subrange(pos as int, n as int)),
            ),
        decreases n - pos,
    {
        let ghost rest = v@.subrange(pos as int, n as int);
        let ghost done = target_values(out@);
        match find_first(&v, pos, n, '\n') {
            None => {
                assert(v@.subrange(pos as int, n as int) == rest);
                match parse_line_into(&v, pos, n, &mut out) {
                    Err(e) => {
                        return Err(e);
                    },
                    Ok(()) => {
                        assert(target_values(out@) =~= done + spec_parse_target_list(rest)->Ok_0);
                        return Ok(out);
                    },
                }
            },
            Some(i) => {
                assert(rest.take(i as int) =~= v@.subrange(pos as int, pos + i));
                assert(rest.skip(i + 1) =~= v@.subrange(pos + i + 1, n as int));
                match parse_line_into(&v, pos, pos + i, &mut out) {
                    Err(e) => {
                        return Err(e);
                    },
                    Ok(()) => {},
                }
                proof {
                    let first = spec_parse_target_line(rest.take(i as int))->Ok_0;
                    match spec_parse_target_list(rest.skip(i + 1)) {
                        Ok(ts) => {
                            assert(target_values(out@) + ts =~= done + prepend_opt(first, ts));
                        },
                        Err(_) => {},
                    }
                }
                pos = pos + i + 1;
            },
        }
    }
}

/// The target that a worker uses for one of its samples: worker `worker_index`
/// takes, for its `iteration`-th sample, the entry `(iteration + worker_index) % len`.
pub open spec fn rotation_slot(len: nat, worker_index: nat, iteration: nat) -> int
    recommends
        len > 0,
{
    ((iteration + worker_index) as int) % (len as int)
}

/// `(iteration + worker_index) % len`, computed without overflow.
pub fn rotation_index(len: usize, worker_index: usize, iteration: usize) -> (r: usize)
    requires
        len > 0,
    ensures
        r == rotation_slot(len as nat, worker_index as nat, iteration as nat),
        r < len,
{
    let a = iteration % len;
    let b = worker_index % len;
    proof {
        let m = len as int;
        vstd::arithmetic::div_mod::lemma_add_mod_noop(iteration as int, worker_index as int, m);
        if a + b >= len {
            let x = a + b - m;
            vstd::arithmetic::div_mod::lemma_mod_add_multiples_vanish(x, m);
            vstd::arithmetic::div_mod::lemma_small_mod(x as nat, len as nat);
            assert(m + x == a + b);
        } else {
            vstd::arithmetic::div_mod::lemma_small_mod((a + b) as nat, len as nat);
        }
    }
    if a >= len - b {
        a - (len - b)
    } else {
        a + b
    }
}

/// The target for sample `iteration` of worker `worker_index`, rotating through
/// `targets`; `None` when there are no targets.
pub fn pick_target_for_worker(targets: &[Target], worker_index: usize, iteration: usize) -> (r: Option<Target>)
    ensures
        targets@.len() == 0 <==> r is None,
        r matches Some(t) ==> t@ == targets@[rotation_slot(
            targets@.len(),
            worker_index as nat,
            iteration as nat,
        )]@,
{
    if targets.len() == 0 {
        return None;
    }
    let index = rotation_index(targets.len(), worker_index, iteration);
    Some(targets[index].duplicate())
}

} // verus!
