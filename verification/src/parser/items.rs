//! The lines of a manifest: blank lines, comments, global environment
//! assignments and process lines.

use vstd::prelude::*;
use crate::parser::ast::names_view;
use crate::parser::command::{command_part, command_part_at, newline_len, newline_width};
use crate::parser::tokenizer::{declaration_tokens_at, double_quoted, double_quoted_at, run_end, scan_run, single_quoted, single_quoted_at, tokenize_before_colon, CharClass};
use crate::text::{char_is_alpha, copy_range, is_alpha, string_of};

verus! {

/// A process line: the tokens before the colon, the command after it, and the
/// line of the manifest on which it starts, counted from 1.
#[derive(Debug, Clone, PartialEq, Eq)]
pub struct ProcessLine {
    pub declaration_tokens: Vec<String>,
    pub command: String,
    pub line: usize,
}

/// One item of a manifest.
#[derive(Debug, Clone, PartialEq, Eq)]
pub enum ProcfileItem {
    GlobalEnv { key: String, value: String },
    Process(ProcessLine),
}

/// The mathematical value of a [`ProcfileItem`].
pub enum ItemModel {
    GlobalEnv { key: Seq<char>, value: Seq<char> },
    Process { tokens: Seq<Seq<char>>, command: Seq<char>, line: int },
}

impl View for ProcfileItem {
    type V = ItemModel;

    open spec fn view(&self) -> ItemModel {
        match self {
            ProcfileItem::GlobalEnv { key, value } => ItemModel::GlobalEnv {
                key: key@,
                value: value@,
            },
            ProcfileItem::Process(p) => ItemModel::Process {
                tokens: names_view(p.declaration_tokens@),
                command: p.command@,
                line: p.line as int,
            },
        }
    }
}

/// The values of the items in `v`.
pub open spec fn items_view(v: Seq<ProcfileItem>) -> Seq<ItemModel> {
    Seq::new(v.len(), |i: int| v[i]@)
}

/// What is wrong with a line that is no item.
#[derive(Debug, Clone, Copy, PartialEq, Eq, Structural)]
pub enum SyntaxErrorKind {
    /// A quote is opened and never closed.
    UnterminatedQuote,
    /// A colon with no token before it.
    EmptyDeclaration,
    /// The line ends before a separating colon.
    MissingColon,
    /// A character that starts no token.
    UnexpectedCharacter,
}

/// A syntax error and the position of the character at which it was found.
#[derive(Debug, Clone, Copy, PartialEq, Eq, Structural)]
pub struct SyntaxError {
    pub kind: SyntaxErrorKind,
    pub pos: usize,
}

/// The number of line feeds in `s[0..i]`.
pub open spec fn newlines_before(s: Seq<char>, i: int) -> int
    decreases i,
{
    if i <= 0 || i > s.len() {
        0
    } else if s[i - 1] == '\n' {
        newlines_before(s, i - 1) + 1
    } else {
        newlines_before(s, i - 1)
    }
}

/// The line on which position `i` lies, counted from 1 (and held at the
/// largest `usize` where it would pass it).
pub open spec fn line_of(s: Seq<char>, i: int) -> int {
    if newlines_before(s, i) < usize::MAX {
        newlines_before(s, i) + 1
    } else {
        usize::MAX as int
    }
}

pub fn line_number(s: &Vec<char>, i: usize) -> (r: usize)
    requires
        i <= s@.len(),
    ensures
        r == line_of(s@, i as int),
        r >= 1,
{
    let mut count: usize = 0;
    let mut k: usize = 0;
    while k < i
        invariant
            k <= i <= s@.len(),
            count == newlines_before(s@, k as int),
            count <= k,
        decreases i - k,
    {
        if s[k] == '\n' {
            count += 1;
        }
        k += 1;
    }
    if count < usize::MAX {
        count + 1
    } else {
        count
    }
}

/// A blank line at `i`: spaces and tabs up to a line break, or, at the end of
/// the input, at least one of them. Gives the position of the next line.
pub open spec fn blank_line_at(s: Seq<char>, i: int) -> Option<int> {
    let j = run_end(s, i, CharClass::Hspace);
    let n = newline_len(s, j);
    if n > 0 {
        Some(j + n)
    } else if j >= s.len() && j > i {
        Some(j)
    } else {
        None
    }
}

pub fn blank_line(s: &Vec<char>, i: usize) -> (r: Option<usize>)
    requires
        i <= s@.len(),
    ensures
        match r {
            Some(n) => blank_line_at(s@, i as int) == Some(n as int) && i < n <= s@.len(),
            None => blank_line_at(s@, i as int).is_none(),
        },
{
    let j = scan_run(s, i, CharClass::Hspace);
    let n = newline_width(s, j);
    if n > 0 {
        Some(j + n)
    } else if j >= s.len() && j > i {
        Some(j)
    } else {
        None
    }
}

/// A comment line at `i`: spaces and tabs, a `#`, and the rest of the line.
/// Gives the position of the next line.
pub open spec fn comment_line_at(s: Seq<char>, i: int) -> Option<int> {
    let j = run_end(s, i, CharClass::Hspace);
    if 0 <= j < s.len() && s[j] == '#' {
        let k = run_end(s, j + 1, CharClass::NotEol);
        Some(k + newline_len(s, k))
    } else {
        None
    }
}

pub fn comment_line(s: &Vec<char>, i: usize) -> (r: Option<usize>)
    requires
        i <= s@.len(),
    ensures
        match r {
            Some(n) => comment_line_at(s@, i as int) == Some(n as int) && i < n <= s@.len(),
            None => comment_line_at(s@, i as int).is_none(),
        },
{
    let j = scan_run(s, i, CharClass::Hspace);
    if j < s.len() && s[j] == '#' {
        let k = scan_run(s, j + 1, CharClass::NotEol);
        let w = newline_width(s, k);
        Some(k + w)
    } else {
        None
    }
}

/// The value of an environment assignment at `i`: a single-quoted string, a
/// double-quoted string, or else the run of characters up to the next white
/// space.
pub open spec fn env_value_at(s: Seq<char>, i: int) -> (Seq<char>, int) {
    if single_quoted_at(s, i).is_some() {
        single_quoted_at(s, i).unwrap()
    } else if double_quoted_at(s, i).is_some() {
        double_quoted_at(s, i).unwrap()
    } else {
        (s.subrange(i, run_end(s, i, CharClass::NonSpace)), run_end(s, i, CharClass::NonSpace))
    }
}

pub fn env_var_value(s: &Vec<char>, i: usize) -> (r: (Vec<char>, usize))
    requires
        i <= s@.len(),
    ensures
        env_value_at(s@, i as int) == (r.0@, r.1 as int),
        i <= r.1 <= s@.len(),
{
    match single_quoted(s, i) {
        Some(r) => {
            return r;
        },
        None => {},
    }
    match double_quoted(s, i) {
        Some(r) => {
            return r;
        },
        None => {},
    }
    let j = scan_run(s, i, CharClass::NonSpace);
    (copy_range(s, i, j), j)
}

/// A global environment line at `i`: spaces and tabs, a name
/// (`[A-Za-z_][A-Za-z0-9_]*`), `=`, a value, spaces and tabs, and the end of
/// the line. Gives the name, the value and the position of the next line.
pub open spec fn env_line_at(s: Seq<char>, i: int) -> Option<(Seq<char>, Seq<char>, int)> {
    let j = run_end(s, i, CharClass::Hspace);
    if 0 <= j < s.len() && (is_alpha(s[j]) || s[j] == '_') {
        let k = run_end(s, j + 1, CharClass::EnvName);
        if 0 <= k < s.len() && s[k] == '=' {
            let value = env_value_at(s, k + 1);
            let q = run_end(s, value.1, CharClass::Hspace);
            if q >= s.len() {
                Some((s.subrange(j, k), value.0, q))
            } else if newline_len(s, q) > 0 {
                Some((s.subrange(j, k), value.0, q + newline_len(s, q)))
            } else {
                None
            }
        } else {
            None
        }
    } else {
        None
    }
}

pub fn global_env_line(s: &Vec<char>, i: usize) -> (r: Option<(String, String, usize)>)
    requires
        i <= s@.len(),
    ensures
        match r {
            Some((key, value, n)) => env_line_at(s@, i as int) == Some((key@, value@, n as int))
                && i < n <= s@.len(),
            None => env_line_at(s@, i as int).is_none(),
        },
{
    let j = scan_run(s, i, CharClass::Hspace);
    if j < s.len() && (char_is_alpha(s[j]) || s[j] == '_') {
        let k = scan_run(s, j + 1, CharClass::EnvName);
        if k < s.len() && s[k] == '=' {
            let (value, p) = env_var_value(s, k + 1);
            let q = scan_run(s, p, CharClass::Hspace);
            let w = newline_width(s, q);
            if q >= s.len() {
                let key = copy_range(s, j, k);
                Some((string_of(&key), string_of(&value), q))
            } else if w > 0 {
                let key = copy_range(s, j, k);
                Some((string_of(&key), string_of(&value), q + w))
            } else {
                None
            }
        } else {
            None
        }
    } else {
        None
    }
}

/// Why no token starts at `e`.
pub open spec fn token_error_kind(s: Seq<char>, e: int) -> SyntaxErrorKind {
    if 0 <= e < s.len() && s[e] == '\'' && single_quoted_at(s, e).is_none() {
        SyntaxErrorKind::UnterminatedQuote
    } else if 0 <= e < s.len() && s[e] == '"' && double_quoted_at(s, e).is_none() {
        SyntaxErrorKind::UnterminatedQuote
    } else if 0 <= e < s.len() && (s[e] == '\n' || s[e] == '\r') {
        SyntaxErrorKind::MissingColon
    } else {
        SyntaxErrorKind::UnexpectedCharacter
    }
}

/// A process line at `i`: spaces and tabs, at least one token, the separating
/// colon and the command. `Ok` gives the tokens, the command and the position
/// of the next line; `Err` gives the kind of the error and its position.
pub open spec fn process_line_at(s: Seq<char>, i: int) -> Result<
    (Seq<Seq<char>>, Seq<char>, int),
    (SyntaxErrorKind, int),
> {
    let j = run_end(s, i, CharClass::Hspace);
    match declaration_tokens_at(s, j) {
        Err(e) => Err((token_error_kind(s, e), e)),
        Ok((tokens, c)) => {
            if c >= s.len() {
                Err((SyntaxErrorKind::MissingColon, c))
            } else if tokens.len() == 0 {
                Err((SyntaxErrorKind::EmptyDeclaration, c))
            } else {
                let command = command_part_at(s, c + 1);
                Ok((tokens, command.0, command.1))
            }
        },
    }
}

/// Reads a process line. The line number of the result is that of `i`.
pub fn process_line(s: &Vec<char>, i: usize) -> (r: Result<(ProcessLine, usize), SyntaxError>)
    requires
        i <= s@.len(),
    ensures
        match r {
            Ok((p, n)) => process_line_at(s@, i as int) == Ok::<
                (Seq<Seq<char>>, Seq<char>, int),
                (SyntaxErrorKind, int),
            >((names_view(p.declaration_tokens@), p.command@, n as int)) && p.line == line_of(
                s@,
                i as int,
            ) && i < n <= s@.len(),
            Err(e) => process_line_at(s@, i as int) == Err::<
                (Seq<Seq<char>>, Seq<char>, int),
                (SyntaxErrorKind, int),
            >((e.kind, e.pos as int)) && i <= e.pos <= s@.len(),
        },
{
    let j = scan_run(s, i, CharClass::Hspace);
    match tokenize_before_colon(s, j) {
        Err(e) => {
            let c = s[e];
            let kind = if c == '\'' && single_quoted(s, e).is_none() {
                SyntaxErrorKind::UnterminatedQuote
            } else if c == '"' && double_quoted(s, e).is_none() {
                SyntaxErrorKind::UnterminatedQuote
            } else if c == '\n' || c == '\r' {
                SyntaxErrorKind::MissingColon
            } else {
                SyntaxErrorKind::UnexpectedCharacter
            };
            Err(SyntaxError { kind, pos: e })
        },
        Ok((tokens, c)) => {
            if c >= s.len() {
                Err(SyntaxError { kind: SyntaxErrorKind::MissingColon, pos: c })
            } else if tokens.len() == 0 {
                Err(SyntaxError { kind: SyntaxErrorKind::EmptyDeclaration, pos: c })
            } else {
                let (command, n) = command_part(s, c + 1);
                let line = line_number(s, i);
                Ok(
                    (
                        ProcessLine {
                            declaration_tokens: tokens,
                            command: string_of(&command),
                            line,
                        },
                        n,
                    ),
                )
            }
        },
    }
}

/// The items of the manifest from `i`, with `acc` read so far. At each line
/// these are tried in order: a blank line, a comment, a global environment
/// line, a process line. The first line that is none of them is an error.
/// (Every line ends behind its start and inside the input; the tests on `n`
/// only make the definition well-founded.)
pub open spec fn items_from(s: Seq<char>, i: int, acc: Seq<ItemModel>) -> Result<
    Seq<ItemModel>,
    (SyntaxErrorKind, int),
>
    decreases s.len() - i,
{
    if i < 0 || i >= s.len() {
        Ok(acc)
    } else if blank_line_at(s, i).is_some() {
        let n = blank_line_at(s, i).unwrap();
        if i < n <= s.len() {
            items_from(s, n, acc)
        } else {
            Ok(acc)
        }
    } else if comment_line_at(s, i).is_some() {
        let n = comment_line_at(s, i).unwrap();
        if i < n <= s.len() {
            items_from(s, n, acc)
        } else {
            Ok(acc)
        }
    } else if env_line_at(s, i).is_some() {
        let e = env_line_at(s, i).unwrap();
        if i < e.2 <= s.len() {
            items_from(s, e.2, acc.push(ItemModel::GlobalEnv { key: e.0, value: e.1 }))
        } else {
            Ok(acc)
        }
    } else {
        match process_line_at(s, i) {
            Err(e) => Err(e),
            Ok((tokens, command, n)) => {
                if i < n <= s.len() {
                    items_from(
                        s,
                        n,
                        acc.push(ItemModel::Process { tokens, command, line: line_of(s, i) }),
                    )
                } else {
                    Ok(acc)
                }
            },
        }
    }
}

/// The items of the manifest `s`, in document order, or its first syntax
/// error.
pub open spec fn items_of(s: Seq<char>) -> Result<Seq<ItemModel>, (SyntaxErrorKind, int)> {
    items_from(s, 0, Seq::empty())
}

/// Reads the whole manifest into items.
pub fn parse_procfile(s: &Vec<char>) -> (r: Result<Vec<ProcfileItem>, SyntaxError>)
    ensures
        match r {
            Ok(items) => items_of(s@) == Ok::<Seq<ItemModel>, (SyntaxErrorKind, int)>(
                items_view(items@),
            ),
            Err(e) => items_of(s@) == Err::<Seq<ItemModel>, (SyntaxErrorKind, int)>(
                (e.kind, e.pos as int),
            ) && e.pos <= s@.len(),
        },
{
    let mut items: Vec<ProcfileItem> = Vec::new();
    let mut pos: usize = 0;
    assert(items_view(items@) =~= Seq::empty());
    while pos < s.len()
        invariant
            pos <= s@.len(),
            items_of(s@) == items_from(s@, pos as int, items_view(items@)),
        decreases s@.len() - pos,
    {
        let ghost before = items_view(items@);
        match blank_line(s, pos) {
            Some(n) => {
                pos = n;
                continue ;
            },
            None => {},
        }
        match comment_line(s, pos) {
            Some(n) => {
                pos = n;
                continue ;
            },
            None => {},
        }
        match global_env_line(s, pos) {
            Some((key, value, n)) => {
                let ghost item = ItemModel::GlobalEnv { key: key@, value: value@ };
                items.push(ProcfileItem::GlobalEnv { key, value });
                assert(items_view(items@) =~= before.push(item));
                pos = n;
                continue ;
            },
            None => {},
        }
        match process_line(s, pos) {
            Err(e) => {
                return Err(e);
            },
            Ok((p, n)) => {
                let ghost item = ItemModel::Process {
                    tokens: names_view(p.declaration_tokens@),
                    command: p.command@,
                    line: p.line as int,
                };
                items.push(ProcfileItem::Process(p));
                assert(items_view(items@) =~= before.push(item));
                pos = n;
            },
        }
    }
    Ok(items)
}

} // verus!
