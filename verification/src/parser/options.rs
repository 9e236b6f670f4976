//! The values of the options of a process line.

use vstd::prelude::*;
use crate::parser::ast::{
    names_view, signal_named, OptionsModel, ProbeModel, ProcessOptions, ReadyProbe, Signal,
    TimeSpan,
};
use crate::parser::number::{parse_uint, uint_of};
use crate::parser::tokenizer::{run_end, scan_run, CharClass};
use crate::parser::trim::{last_index_of, rfind, trim, trimmed};
use crate::text::{append_chars, chars_of, copy_range, spells, string_of, uppercase};

verus! {

/// An error of the manifest: the line it was found on, counted from 1 (0
/// where no single line is at fault), and what is wrong.
#[derive(Debug, Clone, PartialEq, Eq)]
pub struct ParseError {
    pub line: usize,
    pub message: String,
}

/// The mathematical value of a [`ParseError`].
pub struct ErrorModel {
    pub line: int,
    pub message: Seq<char>,
}

impl View for ParseError {
    type V = ErrorModel;

    open spec fn view(&self) -> ErrorModel {
        ErrorModel { line: self.line as int, message: self.message@ }
    }
}

/// The error on `line` whose message is `prefix` followed by `detail`.
pub open spec fn error_model(line: int, prefix: Seq<char>, detail: Seq<char>) -> ErrorModel {
    ErrorModel { line, message: prefix + detail }
}

/// Builds the error on `line` whose message is `prefix` followed by `detail`.
pub fn error_with(line: usize, prefix: &str, detail: &Vec<char>) -> (e: ParseError)
    ensures
        e@ == error_model(line as int, prefix@, detail@),
{
    let mut text = chars_of(prefix);
    append_chars(&mut text, detail);
    ParseError { line, message: string_of(&text) }
}

/// The length of time, in milliseconds, that `v` writes: a number and one of
/// the units `ms`, `s` and `m`.
pub open spec fn duration_of(v: Seq<char>) -> Option<int> {
    let n = v.len() as int;
    if n >= 2 && v[n - 2] == 'm' && v[n - 1] == 's' {
        match uint_of(v.subrange(0, n - 2), u64::MAX) {
            Some(x) => Some(x as int),
            None => None,
        }
    } else if n >= 1 && v[n - 1] == 's' {
        match uint_of(v.subrange(0, n - 1), u64::MAX) {
            Some(x) => Some(x * 1000),
            None => None,
        }
    } else if n >= 1 && v[n - 1] == 'm' {
        match uint_of(v.subrange(0, n - 1), u64::MAX) {
            Some(x) => Some(x * 60000),
            None => None,
        }
    } else {
        None
    }
}

/// Reads a length of time from its characters.
pub fn duration_from_chars(v: &Vec<char>) -> (r: Option<TimeSpan>)
    ensures
        match r {
            Some(d) => duration_of(v@) == Some(d.millis as int),
            None => duration_of(v@).is_none(),
        },
{
    let n = v.len();
    if n >= 2 && v[n - 2] == 'm' && v[n - 1] == 's' {
        let digits = copy_range(v, 0, n - 2);
        match parse_uint(&digits, u64::MAX) {
            Some(x) => Some(TimeSpan { millis: x as u128 }),
            None => None,
        }
    } else if n >= 1 && v[n - 1] == 's' {
        let digits = copy_range(v, 0, n - 1);
        match parse_uint(&digits, u64::MAX) {
            Some(x) => Some(TimeSpan { millis: (x as u128) * 1000 }),
            None => None,
        }
    } else if n >= 1 && v[n - 1] == 'm' {
        let digits = copy_range(v, 0, n - 1);
        match parse_uint(&digits, u64::MAX) {
            Some(x) => Some(TimeSpan { millis: (x as u128) * 60000 }),
            None => None,
        }
    } else {
        None
    }
}

/// Reads the value of `debounce` or `shutdown`. Anything but a number with a
/// unit is refused with `invalid duration: ` and the value.
pub fn parse_duration(value: &str, line_num: usize) -> (r: Result<TimeSpan, ParseError>)
    ensures
        match r {
            Ok(d) => duration_of(value@) == Some(d.millis as int),
            Err(e) => duration_of(value@).is_none() && e@ == error_model(
                line_num as int,
                "invalid duration: "@,
                value@,
            ),
        },
{
    let v = chars_of(value);
    match duration_from_chars(&v) {
        Some(d) => Ok(d),
        None => Err(error_with(line_num, "invalid duration: ", &v)),
    }
}

/// Whether `v` starts with `http:`.
pub open spec fn is_http(v: Seq<char>) -> bool {
    v.len() >= 5 && v[0] == 'h' && v[1] == 't' && v[2] == 't' && v[3] == 'p' && v[4] == ':'
}

/// Whether `v` starts with `exec:`.
pub open spec fn is_exec(v: Seq<char>) -> bool {
    v.len() >= 5 && v[0] == 'e' && v[1] == 'x' && v[2] == 'e' && v[3] == 'c' && v[4] == ':'
}

/// What follows the last `=` of `rest`, if there is one.
pub open spec fn status_text(rest: Seq<char>) -> Option<Seq<char>> {
    if last_index_of(rest, '=') >= 0 {
        Some(rest.skip(last_index_of(rest, '=') + 1))
    } else {
        None
    }
}

/// What precedes the last `=` of `rest`; all of it where there is none.
pub open spec fn before_status(rest: Seq<char>) -> Seq<char> {
    if last_index_of(rest, '=') >= 0 {
        rest.take(last_index_of(rest, '='))
    } else {
        rest
    }
}

/// The port of `<port>[/<path>]`: what precedes the first slash.
pub open spec fn port_text(body: Seq<char>) -> Seq<char> {
    body.take(run_end(body, 0, CharClass::NotSlash))
}

/// The path of `<port>[/<path>]`: from the first slash on, or `/`.
pub open spec fn path_text(body: Seq<char>) -> Seq<char> {
    if run_end(body, 0, CharClass::NotSlash) < body.len() {
        body.skip(run_end(body, 0, CharClass::NotSlash))
    } else {
        seq!['/']
    }
}

/// The probe that `http:` followed by `rest` writes, or the message that
/// refuses it.
pub open spec fn http_probe_of(rest: Seq<char>) -> Result<ProbeModel, Seq<char>> {
    let status = status_text(rest);
    let body = before_status(rest);
    if status.is_some() && uint_of(status.unwrap(), 65535).is_none() {
        Err("invalid status code in ready probe: "@ + status.unwrap())
    } else if uint_of(port_text(body), 65535).is_none() {
        Err("invalid port in ready probe: "@ + port_text(body))
    } else {
        Ok(
            ProbeModel::Http {
                port: uint_of(port_text(body), 65535).unwrap() as u16,
                path: path_text(body),
                expected_status: if status.is_some() {
                    Some(uint_of(status.unwrap(), 65535).unwrap() as u16)
                } else {
                    None
                },
            },
        )
    }
}

/// The probe that the value `v` of `ready` writes, or the message that
/// refuses it: `http:<port>[/<path>][=<status>]`, `exec:<command>`, or a bare
/// port for a TCP probe.
pub open spec fn probe_of(v: Seq<char>) -> Result<ProbeModel, Seq<char>> {
    if is_http(v) {
        http_probe_of(v.skip(5))
    } else if is_exec(v) {
        if trimmed(v.skip(5)).len() == 0 {
            Err("exec probe requires a command"@)
        } else {
            Ok(ProbeModel::Exec { command: trimmed(v.skip(5)) })
        }
    } else if uint_of(v, 65535).is_none() {
        Err("invalid ready probe format: "@ + v)
    } else {
        Ok(ProbeModel::Tcp { port: uint_of(v, 65535).unwrap() as u16 })
    }
}

/// Builds the message `prefix` followed by `detail`.
pub fn message_with(prefix: &str, detail: &Vec<char>) -> (m: Vec<char>)
    ensures
        m@ == prefix@ + detail@,
{
    let mut text = chars_of(prefix);
    append_chars(&mut text, detail);
    text
}

/// Reads what follows `http:` in the value of `ready`.
pub fn http_probe_from_chars(rest: &Vec<char>) -> (r: Result<ReadyProbe, Vec<char>>)
    ensures
        match r {
            Ok(p) => http_probe_of(rest@) == Ok::<ProbeModel, Seq<char>>(p@),
            Err(m) => http_probe_of(rest@) == Err::<ProbeModel, Seq<char>>(m@),
        },
{
    let mut expected_status: Option<u16> = None;
    let body: Vec<char>;
    match rfind(rest, '=') {
        Some(idx) => {
            let end = rest.len();
            let status = copy_range(rest, idx + 1, end);
            assert(status@ =~= rest@.skip(idx + 1));
            match parse_uint(&status, 65535) {
                Some(code) => {
                    expected_status = Some(code as u16);
                },
                None => {
                    return Err(message_with("invalid status code in ready probe: ", &status));
                },
            }
            body = copy_range(rest, 0, idx);
            assert(body@ =~= rest@.take(idx as int));
        },
        None => {
            body = copy_range(rest, 0, rest.len());
            assert(body@ =~= rest@);
        },
    }
    let slash = scan_run(&body, 0, CharClass::NotSlash);
    let port_chars = copy_range(&body, 0, slash);
    assert(port_chars@ =~= body@.take(slash as int));
    let path: Vec<char> = if slash < body.len() {
        let p = copy_range(&body, slash, body.len());
        assert(p@ =~= body@.skip(slash as int));
        p
    } else {
        let mut p: Vec<char> = Vec::new();
        p.push('/');
        assert(p@ =~= seq!['/']);
        p
    };
    match parse_uint(&port_chars, 65535) {
        Some(port) => Ok(
            ReadyProbe::Http { port: port as u16, path: string_of(&path), expected_status },
        ),
        None => Err(message_with("invalid port in ready probe: ", &port_chars)),
    }
}

/// Reads the value of `ready` from its characters.
pub fn probe_from_chars(v: &Vec<char>) -> (r: Result<ReadyProbe, Vec<char>>)
    ensures
        match r {
            Ok(p) => probe_of(v@) == Ok::<ProbeModel, Seq<char>>(p@),
            Err(m) => probe_of(v@) == Err::<ProbeModel, Seq<char>>(m@),
        },
{
    let n = v.len();
    if n >= 5 && v[0] == 'h' && v[1] == 't' && v[2] == 't' && v[3] == 'p' && v[4] == ':' {
        let rest = copy_range(v, 5, n);
        assert(rest@ =~= v@.skip(5));
        http_probe_from_chars(&rest)
    } else if n >= 5 && v[0] == 'e' && v[1] == 'x' && v[2] == 'e' && v[3] == 'c' && v[4] == ':' {
        let rest = copy_range(v, 5, n);
        assert(rest@ =~= v@.skip(5));
        let command = trim(&rest);
        if command.len() == 0 {
            Err(chars_of("exec probe requires a command"))
        } else {
            Ok(ReadyProbe::Exec { command: string_of(&command) })
        }
    } else {
        match parse_uint(v, 65535) {
            Some(port) => Ok(ReadyProbe::Tcp { port: port as u16 }),
            None => Err(message_with("invalid ready probe format: ", v)),
        }
    }
}

/// Reads the value of `ready`. A value that writes no probe is refused, with
/// the message that says which part is wrong.
pub fn parse_ready_probe(value: &str, line_num: usize) -> (r: Result<ReadyProbe, ParseError>)
    ensures
        match r {
            Ok(p) => probe_of(value@) == Ok::<ProbeModel, Seq<char>>(p@),
            Err(e) => probe_of(value@) == Err::<ProbeModel, Seq<char>>(e.message@) && e.line
                == line_num,
        },
{
    let v = chars_of(value);
    match probe_from_chars(&v) {
        Ok(p) => Ok(p),
        Err(m) => Err(ParseError { line: line_num, message: string_of(&m) }),
    }
}

/// The names of a comma-separated list from `i`, with `acc` read so far,
/// each trimmed of white space.
pub open spec fn after_from(s: Seq<char>, i: int, acc: Seq<Seq<char>>) -> Seq<Seq<char>>
    decreases s.len() - i,
{
    let j = run_end(s, i, CharClass::NotComma);
    if 0 <= i <= j < s.len() {
        after_from(s, j + 1, acc.push(trimmed(s.subrange(i, j))))
    } else if 0 <= i <= j <= s.len() {
        acc.push(trimmed(s.subrange(i, j)))
    } else {
        acc
    }
}

/// The names that the value `s` of `after` lists.
pub open spec fn after_list(s: Seq<char>) -> Seq<Seq<char>> {
    after_from(s, 0, Seq::empty())
}

/// Reads the value of `after`.
pub fn parse_after(s: &Vec<char>) -> (r: Vec<String>)
    ensures
        names_view(r@) == after_list(s@),
{
    let mut names: Vec<String> = Vec::new();
    let mut pos: usize = 0;
    assert(names_view(names@) =~= Seq::empty());
    loop
        invariant
            pos <= s@.len(),
            after_list(s@) == after_from(s@, pos as int, names_view(names@)),
        decreases s@.len() - pos,
    {
        let j = scan_run(s, pos, CharClass::NotComma);
        let piece = copy_range(s, pos, j);
        let name = trim(&piece);
        let ghost before = names_view(names@);
        let ghost text = name@;
        names.push(string_of(&name));
        assert(names_view(names@) =~= before.push(text));
        if j < s.len() {
            pos = j + 1;
        } else {
            return names;
        }
    }
}

/// The options `o` with the option `key` set to what `value` writes, or the
/// error that refuses the pair.
pub open spec fn option_applied(o: OptionsModel, key: Seq<char>, value: Seq<char>, line: int)
    -> Result<OptionsModel, ErrorModel> {
    if key == "after"@ {
        Ok(
            OptionsModel {
                after: after_list(value),
                ready: o.ready,
                signal: o.signal,
                debounce: o.debounce,
                dir: o.dir,
                shutdown: o.shutdown,
            },
        )
    } else if key == "ready"@ {
        match probe_of(value) {
            Ok(p) => Ok(
                OptionsModel {
                    after: o.after,
                    ready: Some(p),
                    signal: o.signal,
                    debounce: o.debounce,
                    dir: o.dir,
                    shutdown: o.shutdown,
                },
            ),
            Err(m) => Err(ErrorModel { line, message: m }),
        }
    } else if key == "signal"@ {
        match signal_named(uppercase(value)) {
            Some(sig) => Ok(
                OptionsModel {
                    after: o.after,
                    ready: o.ready,
                    signal: sig,
                    debounce: o.debounce,
                    dir: o.dir,
                    shutdown: o.shutdown,
                },
            ),
            None => Err(error_model(line, "invalid signal: "@, value)),
        }
    } else if key == "debounce"@ {
        match duration_of(value) {
            Some(d) => Ok(
                OptionsModel {
                    after: o.after,
                    ready: o.ready,
                    signal: o.signal,
                    debounce: d,
                    dir: o.dir,
                    shutdown: o.shutdown,
                },
            ),
            None => Err(error_model(line, "invalid duration: "@, value)),
        }
    } else if key == "dir"@ {
        Ok(
            OptionsModel {
                after: o.after,
                ready: o.ready,
                signal: o.signal,
                debounce: o.debounce,
                dir: Some(value),
                shutdown: o.shutdown,
            },
        )
    } else if key == "shutdown"@ {
        match duration_of(value) {
            Some(d) => Ok(
                OptionsModel {
                    after: o.after,
                    ready: o.ready,
                    signal: o.signal,
                    debounce: o.debounce,
                    dir: o.dir,
                    shutdown: d,
                },
            ),
            None => Err(error_model(line, "invalid duration: "@, value)),
        }
    } else {
        Err(error_model(line, "unknown option: "@, key))
    }
}

/// Sets the option `key` of `opts` to what `value` writes. On an error
/// `opts` is left as it was.
pub fn apply_option(opts: &mut ProcessOptions, key: &str, value: &str, line_num: usize) -> (r:
    Result<(), ParseError>)
    ensures
        match r {
            Ok(_) => option_applied(old(opts)@, key@, value@, line_num as int) == Ok::<
                OptionsModel,
                ErrorModel,
            >(final(opts)@),
            Err(e) => option_applied(old(opts)@, key@, value@, line_num as int) == Err::<
                OptionsModel,
                ErrorModel,
            >(e@) && final(opts)@ == old(opts)@,
        },
{
    let k = chars_of(key);
    let v = chars_of(value);
    if spells(&k, "after") {
        opts.after = parse_after(&v);
        Ok(())
    } else if spells(&k, "ready") {
        match parse_ready_probe(value, line_num) {
            Ok(p) => {
                opts.ready = Some(p);
                Ok(())
            },
            Err(e) => Err(e),
        }
    } else if spells(&k, "signal") {
        match Signal::from_str(value) {
            Some(sig) => {
                opts.signal = sig;
                Ok(())
            },
            None => Err(error_with(line_num, "invalid signal: ", &v)),
        }
    } else if spells(&k, "debounce") {
        match parse_duration(value, line_num) {
            Ok(d) => {
                opts.debounce = d;
                Ok(())
            },
            Err(e) => Err(e),
        }
    } else if spells(&k, "dir") {
        opts.dir = Some(string_of(&v));
        Ok(())
    } else if spells(&k, "shutdown") {
        match parse_duration(value, line_num) {
            Ok(d) => {
                opts.shutdown = d;
                Ok(())
            },
            Err(e) => Err(e),
        }
    } else {
        Err(error_with(line_num, "unknown option: ", &k))
    }
}

impl ParseError {
    /// The text of the error: the line number, a colon and the message; the
    /// message alone, behind a space, where the error has no line.
    pub open spec fn text(&self) -> Seq<char> {
        if self.line == 0 {
            seq![' '] + self.message@
        } else {
            crate::parser::number::decimal_text(self.line as nat) + ": "@ + self.message@
        }
    }

    /// Writes the error out.
    pub fn to_string(&self) -> (r: String)
        ensures
            r@ == self.text(),
    {
        let message = chars_of(self.message.as_str());
        if self.line == 0 {
            let mut out: Vec<char> = Vec::new();
            out.push(' ');
            assert(out@ =~= seq![' ']);
            append_chars(&mut out, &message);
            string_of(&out)
        } else {
            let mut out = crate::parser::number::decimal(self.line as u64);
            let colon = chars_of(": ");
            append_chars(&mut out, &colon);
            append_chars(&mut out, &message);
            string_of(&out)
        }
    }
}

} // verus!
