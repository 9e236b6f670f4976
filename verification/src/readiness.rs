//! Readiness probes: what is sent, what is read out of the answer, and when
//! a process counts as ready.

use vstd::prelude::*;
use crate::output::line_between;
use crate::parser::ast::{ProbeModel, ReadyProbe};
use crate::parser::number::{decimal, decimal_text, parse_uint, uint_of};
use crate::parser::tokenizer::{run_end, scan_run, CharClass};
use crate::text::{append_chars, chars_of, copy_range, string_of};

verus! {

/// How waiting for a probe ended.
#[derive(Debug, Clone, Copy, PartialEq, Eq, Structural)]
pub enum ReadinessResult {
    Ready,
    TimedOut,
}

/// The milliseconds between two checks of a probe.
pub const POLL_INTERVAL_MS: u64 = 250;

/// The milliseconds after which a probe that never passed aborts startup.
pub const PROBE_TIMEOUT_MS: u64 = 30000;

/// The milliseconds allowed for one connection, one read and one write.
pub const CONNECT_TIMEOUT_MS: u64 = 500;

/// The two loopback addresses of `port`.
pub open spec fn loopback_texts(port: u16) -> Seq<Seq<char>> {
    seq![
        "127.0.0.1:"@ + decimal_text(port as nat),
        "[::1]:"@ + decimal_text(port as nat),
    ]
}

/// The addresses that a probe of `port` tries: IPv4 loopback, then IPv6.
pub fn loopback_addresses(port: u16) -> (r: Vec<String>)
    ensures
        crate::parser::ast::names_view(r@) == loopback_texts(port),
{
    let digits = decimal(port as u64);
    let mut v4 = chars_of("127.0.0.1:");
    append_chars(&mut v4, &digits);
    let mut v6 = chars_of("[::1]:");
    append_chars(&mut v6, &digits);
    let mut out: Vec<String> = Vec::new();
    out.push(string_of(&v4));
    out.push(string_of(&v6));
    assert(crate::parser::ast::names_view(out@) =~= loopback_texts(port));
    out
}

/// `path`, with a slash before it unless it starts with one.
pub open spec fn normalized_path(path: Seq<char>) -> Seq<char> {
    if path.len() > 0 && path[0] == '/' {
        path
    } else {
        seq!['/'] + path
    }
}

/// The request of an HTTP probe.
pub open spec fn request_text(port: u16, path: Seq<char>) -> Seq<char> {
    "GET "@ + normalized_path(path) + " HTTP/1.0\r\nHost: localhost:"@ + decimal_text(port as nat)
        + "\r\nConnection: close\r\n\r\n"@
}

/// Builds the request of an HTTP probe: a `GET` of the normalised path in
/// HTTP/1.0, for the host `localhost` and the port, asking to close.
pub fn http_request(port: u16, path: &str) -> (r: String)
    ensures
        r@ == request_text(port, path@),
{
    let p = chars_of(path);
    let mut out = chars_of("GET ");
    if !(p.len() > 0 && p[0] == '/') {
        out.push('/');
    }
    append_chars(&mut out, &p);
    assert(out@ =~= "GET "@ + normalized_path(path@));
    let middle = chars_of(" HTTP/1.0\r\nHost: localhost:");
    append_chars(&mut out, &middle);
    let digits = decimal(port as u64);
    append_chars(&mut out, &digits);
    let end = chars_of("\r\nConnection: close\r\n\r\n");
    append_chars(&mut out, &end);
    string_of(&out)
}

/// The first line of `s`, without its line ending; none where `s` is empty.
pub open spec fn first_line(s: Seq<char>) -> Option<Seq<char>> {
    if s.len() == 0 {
        None
    } else {
        Some(line_between(s, 0, run_end(s, 0, CharClass::NotLf)))
    }
}

/// The next word of `s` from `i` on: where it starts and where it ends. A
/// word is a run of characters that are no white space.
pub open spec fn word_at(s: Seq<char>, i: int) -> Option<(int, int)> {
    let a = run_end(s, i, CharClass::Space);
    let b = run_end(s, a, CharClass::NonSpace);
    if a < b {
        Some((a, b))
    } else {
        None
    }
}

/// The status code of an HTTP response: the second word of its first line,
/// where that is a number that fits in 16 bits.
pub open spec fn status_of(response: Seq<char>) -> Option<u16> {
    match first_line(response) {
        None => None,
        Some(line) => match word_at(line, 0) {
            None => None,
            Some((a, b)) => match word_at(line, b) {
                None => None,
                Some((c, d)) => match uint_of(line.subrange(c, d), 65535) {
                    None => None,
                    Some(code) => Some(code as u16),
                },
            },
        },
    }
}

fn next_word(s: &Vec<char>, i: usize) -> (r: Option<(usize, usize)>)
    requires
        i <= s@.len(),
    ensures
        match r {
            Some((a, b)) => word_at(s@, i as int) == Some((a as int, b as int)) && i <= a < b
                <= s@.len(),
            None => word_at(s@, i as int).is_none(),
        },
{
    let a = scan_run(s, i, CharClass::Space);
    let b = scan_run(s, a, CharClass::NonSpace);
    if a < b {
        Some((a, b))
    } else {
        None
    }
}

/// Reads the status code out of an HTTP response.
pub fn parse_http_status(response: &str) -> (r: Option<u16>)
    ensures
        r == status_of(response@),
{
    let s = chars_of(response);
    if s.len() == 0 {
        return None;
    }
    let j = scan_run(&s, 0, CharClass::NotLf);
    let end = if j < s.len() && 0 < j && s[j - 1] == '\r' {
        j - 1
    } else {
        j
    };
    let line = copy_range(&s, 0, end);
    assert(first_line(response@) == Some(line@));
    let (_a, b) = match next_word(&line, 0) {
        Some(w) => w,
        None => {
            return None;
        },
    };
    let (c, d) = match next_word(&line, b) {
        Some(w) => w,
        None => {
            return None;
        },
    };
    let word = copy_range(&line, c, d);
    match parse_uint(&word, 65535) {
        Some(code) => Some(code as u16),
        None => None,
    }
}

/// Whether a response with the status `code` shows readiness: with an
/// expected status, the code must equal it; without one, any code below 500
/// will do. No code, no readiness.
pub open spec fn status_ready(code: Option<u16>, expected: Option<u16>) -> bool {
    match (code, expected) {
        (Some(c), Some(e)) => c == e,
        (Some(c), None) => c < 500,
        (None, _) => false,
    }
}

/// Whether the response of an HTTP probe shows readiness.
pub fn response_ready(response: &str, expected_status: Option<u16>) -> (r: bool)
    ensures
        r == status_ready(status_of(response@), expected_status),
{
    match (parse_http_status(response), expected_status) {
        (Some(code), Some(expected)) => code == expected,
        (Some(code), None) => code < 500,
        (None, _) => false,
    }
}

/// A TCP probe passes where a connection to either loopback address was
/// made: `connected` holds, for each address tried, whether it was.
pub fn check_tcp(connected: &Vec<bool>) -> (r: bool)
    ensures
        r == connected@.contains(true),
{
    let mut i: usize = 0;
    while i < connected.len()
        invariant
            i <= connected@.len(),
            forall|k: int| 0 <= k < i ==> !connected@[k],
        decreases connected@.len() - i,
    {
        if connected[i] {
            return true;
        }
        i += 1;
    }
    false
}

/// Whether one of the responses shows readiness.
pub open spec fn any_response_ready(responses: Seq<Option<String>>, expected: Option<u16>) -> bool {
    exists|i: int|
        0 <= i < responses.len() && (#[trigger] responses[i]).is_some() && status_ready(
            status_of(responses[i].unwrap()@),
            expected,
        )
}

/// An HTTP probe passes where either loopback address gave a response that
/// shows readiness: `responses` holds, for each address tried, what was read
/// of the response, or nothing where the attempt failed.
pub fn check_http(responses: &Vec<Option<String>>, expected_status: Option<u16>) -> (r: bool)
    ensures
        r == any_response_ready(responses@, expected_status),
{
    let mut i: usize = 0;
    while i < responses.len()
        invariant
            i <= responses@.len(),
            forall|k: int|
                0 <= k < i ==> !((#[trigger] responses@[k]).is_some() && status_ready(
                    status_of(responses@[k].unwrap()@),
                    expected_status,
                )),
        decreases responses@.len() - i,
    {
        match &responses[i] {
            Some(text) => {
                if response_ready(text.as_str(), expected_status) {
                    return true;
                }
            },
            None => {},
        }
        i += 1;
    }
    false
}

/// An exec probe passes where the command ran and left with code 0.
pub fn check_exec(exit_code: Option<i32>) -> (r: bool)
    ensures
        r == (exit_code == Some(0i32)),
{
    match exit_code {
        Some(code) => code == 0,
        None => false,
    }
}

/// What one attempt of a probe found.
#[derive(Debug, Clone, PartialEq, Eq)]
pub enum ProbeOutcome {
    /// For each loopback address, whether the connection was made.
    Tcp(Vec<bool>),
    /// For each loopback address, what was read of the response.
    Http(Vec<Option<String>>),
    /// The exit code of the command, where it ran and left with one.
    Exec(Option<i32>),
}

/// Whether the outcome `outcome` of one attempt shows that the process with
/// the probe `probe` is ready. An outcome of another kind of probe shows
/// nothing.
pub open spec fn outcome_ready(probe: ProbeModel, outcome: ProbeOutcome) -> bool {
    match (probe, outcome) {
        (ProbeModel::Tcp { port }, ProbeOutcome::Tcp(connected)) => connected@.contains(true),
        (
            ProbeModel::Http { port, path, expected_status },
            ProbeOutcome::Http(responses),
        ) => any_response_ready(responses@, expected_status),
        (ProbeModel::Exec { command }, ProbeOutcome::Exec(code)) => code == Some(0i32),
        _ => false,
    }
}

/// Checks a probe once, from what the attempt found.
pub fn check_probe(probe: &ReadyProbe, outcome: &ProbeOutcome) -> (r: bool)
    ensures
        r == outcome_ready(probe@, *outcome),
{
    match (probe, outcome) {
        (ReadyProbe::Tcp { port }, ProbeOutcome::Tcp(connected)) => check_tcp(connected),
        (
            ReadyProbe::Http { port, path, expected_status },
            ProbeOutcome::Http(responses),
        ) => check_http(responses, *expected_status),
        (ReadyProbe::Exec { command }, ProbeOutcome::Exec(code)) => check_exec(*code),
        _ => false,
    }
}

/// Whether the process is ready, by one attempt of its probe.
pub fn is_ready(probe: &ReadyProbe, outcome: &ProbeOutcome) -> (r: bool)
    ensures
        r == outcome_ready(probe@, *outcome),
{
    check_probe(probe, outcome)
}

/// What waiting for a probe does after `elapsed_ms` milliseconds, where
/// `passed` says whether the check made at that time passed: it ends as
/// timed out once the timeout is reached, ends as ready where the check
/// passed, and else goes on after the poll interval.
pub fn wait_for_ready(elapsed_ms: u64, passed: bool) -> (r: Option<ReadinessResult>)
    ensures
        r == (if elapsed_ms >= PROBE_TIMEOUT_MS {
            Some(ReadinessResult::TimedOut)
        } else if passed {
            Some(ReadinessResult::Ready)
        } else {
            None
        }),
{
    if elapsed_ms >= PROBE_TIMEOUT_MS {
        Some(ReadinessResult::TimedOut)
    } else if passed {
        Some(ReadinessResult::Ready)
    } else {
        None
    }
}

} // verus!
