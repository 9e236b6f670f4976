//! The lexical layer of the manifest: character runs, quoted strings, and
//! tokens with embedded colons.

use vstd::prelude::*;
use crate::parser::ast::names_view;
use crate::text::{
    append_chars, char_is_alnum, char_is_hspace, char_is_space, copy_range, is_alnum, is_hspace, is_space, string_of,
};

verus! {

/// The character classes that the scanner takes maximal runs of.
#[derive(Debug, Clone, Copy, PartialEq, Eq, Structural)]
pub enum CharClass {
    /// Space or tab.
    Hspace,
    /// A character of a bare word.
    Bare,
    /// Anything but a single quote.
    NotQuote,
    /// Anything but a line feed or a carriage return.
    NotEol,
    /// Anything but a line feed, a carriage return or a backslash.
    Plain,
    /// A letter, a digit or an underscore.
    EnvName,
    /// Anything but white space.
    NonSpace,
    /// White space.
    Space,
    /// Anything but a comma.
    NotComma,
    /// Anything but a slash.
    NotSlash,
    /// Anything but a line feed.
    NotLf,
}

/// A character of a bare word: `[A-Za-z0-9_\-/.*?\[\]{}!,]`.
pub open spec fn is_bare(c: char) -> bool {
    is_alnum(c) || c == '_' || c == '-' || c == '/' || c == '.' || c == '*' || c == '?' || c == '['
        || c == ']' || c == '{' || c == '}' || c == '!' || c == ','
}

/// Whether `c` belongs to the class `k`.
pub open spec fn in_class(k: CharClass, c: char) -> bool {
    match k {
        CharClass::Hspace => is_hspace(c),
        CharClass::Bare => is_bare(c),
        CharClass::NotQuote => c != '\'',
        CharClass::NotEol => c != '\n' && c != '\r',
        CharClass::Plain => c != '\n' && c != '\r' && c != '\\',
        CharClass::EnvName => is_alnum(c) || c == '_',
        CharClass::NonSpace => !is_space(c),
        CharClass::Space => is_space(c),
        CharClass::NotComma => c != ',',
        CharClass::NotSlash => c != '/',
        CharClass::NotLf => c != '\n',
    }
}

pub fn char_in_class(k: CharClass, c: char) -> (r: bool)
    ensures
        r == in_class(k, c),
{
    match k {
        CharClass::Hspace => char_is_hspace(c),
        CharClass::Bare => char_is_alnum(c) || c == '_' || c == '-' || c == '/' || c == '.' || c
            == '*' || c == '?' || c == '[' || c == ']' || c == '{' || c == '}' || c == '!' || c
            == ',',
        CharClass::NotQuote => c != '\'',
        CharClass::NotEol => c != '\n' && c != '\r',
        CharClass::Plain => c != '\n' && c != '\r' && c != '\\',
        CharClass::EnvName => char_is_alnum(c) || c == '_',
        CharClass::NonSpace => !char_is_space(c),
        CharClass::Space => char_is_space(c),
        CharClass::NotComma => c != ',',
        CharClass::NotSlash => c != '/',
        CharClass::NotLf => c != '\n',
    }
}

/// Where the maximal run of characters of class `k` that starts at `i` ends:
/// `j` with `i <= j <= s.len()`, every character of `s[i..j]` in the class,
/// and `s[j]`, if there is one, outside it.
pub open spec fn is_run_end(s: Seq<char>, i: int, k: CharClass, j: int) -> bool {
    &&& i <= j <= s.len()
    &&& forall|x: int| i <= x < j ==> in_class(k, #[trigger] s[x])
    &&& (j < s.len() ==> !in_class(k, s[j]))
}

/// The end of the maximal run of class `k` from `i`.
pub open spec fn run_end(s: Seq<char>, i: int, k: CharClass) -> int
    decreases s.len() - i,
{
    if 0 <= i < s.len() && in_class(k, s[i]) {
        run_end(s, i + 1, k)
    } else {
        i
    }
}

/// `run_end` is the one position that `is_run_end` describes.
pub proof fn lemma_run_end(s: Seq<char>, i: int, k: CharClass)
    requires
        0 <= i <= s.len(),
    ensures
        is_run_end(s, i, k, run_end(s, i, k)),
    decreases s.len() - i,
{
    if i < s.len() && in_class(k, s[i]) {
        lemma_run_end(s, i + 1, k);
    }
}

/// A run's end is unique.
pub proof fn lemma_run_end_unique(s: Seq<char>, i: int, k: CharClass, j: int)
    requires
        0 <= i <= s.len(),
        is_run_end(s, i, k, j),
    ensures
        j == run_end(s, i, k),
    decreases s.len() - i,
{
    if i < s.len() && in_class(k, s[i]) {
        if j == i {
            assert(!in_class(k, s[j]));
        }
        lemma_run_end_unique(s, i + 1, k, j);
    } else {
        if j > i {
            assert(in_class(k, s[i]));
        }
    }
}

/// Skips the maximal run of class `k` from `i`.
pub fn scan_run(s: &Vec<char>, i: usize, k: CharClass) -> (j: usize)
    requires
        i <= s@.len(),
    ensures
        j == run_end(s@, i as int, k),
        is_run_end(s@, i as int, k, j as int),
{
    let mut j: usize = i;
    while j < s.len() && char_in_class(k, s[j])
        invariant
            i <= j <= s@.len(),
            forall|x: int| i <= x < j ==> in_class(k, #[trigger] s@[x]),
        decreases s@.len() - j,
    {
        j += 1;
    }
    proof {
        lemma_run_end_unique(s@, i as int, k, j as int);
    }
    j
}

/// A single-quoted string at `i`: the literal content between the quotes and
/// the position after the closing quote; `None` where `s[i]` is no single
/// quote or no closing quote follows.
pub open spec fn single_quoted_at(s: Seq<char>, i: int) -> Option<(Seq<char>, int)> {
    if 0 <= i < s.len() && s[i] == '\'' {
        let j = run_end(s, i + 1, CharClass::NotQuote);
        if j < s.len() {
            Some((s.subrange(i + 1, j), j + 1))
        } else {
            None
        }
    } else {
        None
    }
}

pub fn single_quoted(s: &Vec<char>, i: usize) -> (r: Option<(Vec<char>, usize)>)
    requires
        i <= s@.len(),
    ensures
        match r {
            Some((t, j)) => single_quoted_at(s@, i as int) == Some((t@, j as int)) && i < j
                <= s@.len(),
            None => single_quoted_at(s@, i as int).is_none(),
        },
{
    if i < s.len() && s[i] == '\'' {
        let j = scan_run(s, i + 1, CharClass::NotQuote);
        if j < s.len() {
            Some((copy_range(s, i + 1, j), j + 1))
        } else {
            None
        }
    } else {
        None
    }
}

/// The character that a backslash followed by `c` stands for inside double
/// quotes, if `c` forms an escape.
pub open spec fn escape_of(c: char) -> Option<char> {
    if c == '\\' {
        Some('\\')
    } else if c == '"' {
        Some('"')
    } else if c == 'n' {
        Some('\n')
    } else if c == 't' {
        Some('\t')
    } else if c == 'r' {
        Some('\r')
    } else {
        None
    }
}

/// The rest of a double-quoted string from `i`, with `acc` read so far.
pub open spec fn double_quoted_from(s: Seq<char>, i: int, acc: Seq<char>) -> Option<
    (Seq<char>, int),
>
    decreases s.len() - i,
{
    if i < 0 || i >= s.len() {
        None
    } else if s[i] == '"' {
        Some((acc, i + 1))
    } else if s[i] == '\\' {
        if i + 1 < s.len() && escape_of(s[i + 1]).is_some() {
            double_quoted_from(s, i + 2, acc.push(escape_of(s[i + 1]).unwrap()))
        } else {
            None
        }
    } else {
        double_quoted_from(s, i + 1, acc.push(s[i]))
    }
}

/// A double-quoted string at `i`, with the escapes `\\`, `\"`, `\n`, `\t`
/// and `\r` resolved; `None` where `s[i]` is no double quote, a backslash is
/// followed by anything else, or no closing quote follows.
pub open spec fn double_quoted_at(s: Seq<char>, i: int) -> Option<(Seq<char>, int)> {
    if 0 <= i < s.len() && s[i] == '"' {
        double_quoted_from(s, i + 1, Seq::empty())
    } else {
        None
    }
}

pub fn escaped(c: char) -> (r: Option<char>)
    ensures
        r == escape_of(c),
{
    if c == '\\' {
        Some('\\')
    } else if c == '"' {
        Some('"')
    } else if c == 'n' {
        Some('\n')
    } else if c == 't' {
        Some('\t')
    } else if c == 'r' {
        Some('\r')
    } else {
        None
    }
}

pub fn double_quoted(s: &Vec<char>, i: usize) -> (r: Option<(Vec<char>, usize)>)
    requires
        i <= s@.len(),
    ensures
        match r {
            Some((t, j)) => double_quoted_at(s@, i as int) == Some((t@, j as int)) && i < j
                <= s@.len(),
            None => double_quoted_at(s@, i as int).is_none(),
        },
{
    if !(i < s.len() && s[i] == '"') {
        return None;
    }
    let mut acc: Vec<char> = Vec::new();
    let mut j: usize = i + 1;
    assert(acc@ =~= Seq::empty());
    loop
        invariant
            i < j <= s@.len(),
            double_quoted_at(s@, i as int) == double_quoted_from(s@, j as int, acc@),
        decreases s@.len() - j,
    {
        if j >= s.len() {
            return None;
        }
        let c = s[j];
        if c == '"' {
            return Some((acc, j + 1));
        } else if c == '\\' {
            if j + 1 >= s.len() {
                return None;
            }
            match escaped(s[j + 1]) {
                Some(e) => {
                    acc.push(e);
                    j += 2;
                },
                None => {
                    return None;
                },
            }
        } else {
            acc.push(c);
            j += 1;
        }
    }
}

/// Whether the colon at `i` separates a declaration from its command: it is
/// followed by a space, a tab, a line feed, a carriage return, or nothing.
pub open spec fn at_separator(s: Seq<char>, i: int) -> bool {
    &&& 0 <= i < s.len()
    &&& s[i] == ':'
    &&& (i + 1 == s.len() || s[i + 1] == ' ' || s[i + 1] == '\t' || s[i + 1] == '\n' || s[i + 1]
        == '\r')
}

pub fn is_separator(s: &Vec<char>, i: usize) -> (r: bool)
    requires
        i <= s@.len(),
    ensures
        r == at_separator(s@, i as int),
{
    if i < s.len() && s[i] == ':' {
        if i + 1 == s.len() {
            true
        } else {
            let c = s[i + 1];
            c == ' ' || c == '\t' || c == '\n' || c == '\r'
        }
    } else {
        false
    }
}

/// Whether `i` holds a colon that belongs to a token: one that is no
/// separator.
pub open spec fn at_embedded_colon(s: Seq<char>, i: int) -> bool {
    0 <= i < s.len() && s[i] == ':' && !at_separator(s, i)
}

/// One colon-free piece of a token at `i`, tried in this order: a
/// single-quoted string, a double-quoted string, a bare word, a lone `=`.
pub open spec fn token_part_at(s: Seq<char>, i: int) -> Option<(Seq<char>, int)> {
    if single_quoted_at(s, i).is_some() {
        single_quoted_at(s, i)
    } else if double_quoted_at(s, i).is_some() {
        double_quoted_at(s, i)
    } else if run_end(s, i, CharClass::Bare) > i {
        Some((s.subrange(i, run_end(s, i, CharClass::Bare)), run_end(s, i, CharClass::Bare)))
    } else if 0 <= i < s.len() && s[i] == '=' {
        Some((seq!['='], i + 1))
    } else {
        None
    }
}

pub fn token_part(s: &Vec<char>, i: usize) -> (r: Option<(Vec<char>, usize)>)
    requires
        i <= s@.len(),
    ensures
        match r {
            Some((t, j)) => token_part_at(s@, i as int) == Some((t@, j as int)) && i < j
                <= s@.len(),
            None => token_part_at(s@, i as int).is_none(),
        },
{
    let sq = single_quoted(s, i);
    if sq.is_some() {
        return sq;
    }
    let dq = double_quoted(s, i);
    if dq.is_some() {
        return dq;
    }
    let j = scan_run(s, i, CharClass::Bare);
    if j > i {
        return Some((copy_range(s, i, j), j));
    }
    if i < s.len() && s[i] == '=' {
        let mut t: Vec<char> = Vec::new();
        t.push('=');
        assert(t@ =~= seq!['=']);
        return Some((t, i + 1));
    }
    None
}

/// The rest of a token from `i`, with `acc` read so far: pieces and embedded
/// colons, concatenated, up to the first position that starts neither.
pub open spec fn token_from(s: Seq<char>, i: int, acc: Seq<char>) -> (Seq<char>, int)
    decreases s.len() - i,
{
    let part = token_part_at(s, i);
    let acc1 = if part.is_some() {
        acc + part.unwrap().0
    } else {
        acc
    };
    let i1 = if part.is_some() && part.unwrap().1 > i {
        part.unwrap().1
    } else {
        i
    };
    if at_embedded_colon(s, i1) {
        token_from(s, i1 + 1, acc1.push(':'))
    } else {
        (acc1, i1)
    }
}

/// The token at `i`: its text and the position after it. The text is empty
/// where no token starts at `i`.
pub open spec fn token_at(s: Seq<char>, i: int) -> (Seq<char>, int) {
    token_from(s, i, Seq::empty())
}

/// Reads the token at `i`; `None` where its text would be empty.
pub fn token_with_colon(s: &Vec<char>, i: usize) -> (r: Option<(Vec<char>, usize)>)
    requires
        i <= s@.len(),
    ensures
        match r {
            Some((t, j)) => token_at(s@, i as int) == (t@, j as int) && t@.len() > 0 && i < j
                <= s@.len(),
            None => token_at(s@, i as int).0.len() == 0,
        },
{
    let mut acc: Vec<char> = Vec::new();
    let mut j: usize = i;
    assert(acc@ =~= Seq::empty());
    loop
        invariant
            i <= j <= s@.len(),
            token_at(s@, i as int) == token_from(s@, j as int, acc@),
            acc@.len() > 0 ==> i < j,
        decreases s@.len() - j,
    {
        match token_part(s, j) {
            Some((t, k)) => {
                append_chars(&mut acc, &t);
                j = k;
            },
            None => {},
        }
        if j < s.len() && s[j] == ':' && !is_separator(s, j) {
            acc.push(':');
            j += 1;
        } else {
            if acc.len() == 0 {
                return None;
            } else {
                return Some((acc, j));
            }
        }
    }
}

/// The tokens of a declaration from `i`, with `acc` read so far: tokens
/// separated by spaces and tabs, up to the separating colon or the end of the
/// input. `Ok` holds the tokens and the position of the colon (or the end);
/// `Err` holds the position at which no token starts. (The tests on `k`
/// only make the definition well-founded: a token that is not empty ends
/// behind its start and inside the input.)
pub open spec fn tokens_from(s: Seq<char>, i: int, acc: Seq<Seq<char>>) -> Result<
    (Seq<Seq<char>>, int),
    int,
>
    decreases s.len() - i,
{
    let j = run_end(s, i, CharClass::Hspace);
    if j >= s.len() || at_separator(s, j) {
        Ok((acc, j))
    } else {
        let t = token_at(s, j).0;
        let k = token_at(s, j).1;
        if t.len() == 0 || k <= j || j < i || k > s.len() {
            Err(j)
        } else {
            tokens_from(s, k, acc.push(t))
        }
    }
}

/// The tokens of the declaration that starts at `i`.
pub open spec fn declaration_tokens_at(s: Seq<char>, i: int) -> Result<(Seq<Seq<char>>, int), int> {
    tokens_from(s, i, Seq::empty())
}

/// Reads the tokens of a declaration, stopping before the colon that ends it.
pub fn tokenize_before_colon(s: &Vec<char>, i: usize) -> (r: Result<(Vec<String>, usize), usize>)
    requires
        i <= s@.len(),
    ensures
        match r {
            Ok((tokens, j)) => declaration_tokens_at(s@, i as int) == Ok::<
                (Seq<Seq<char>>, int),
                int,
            >((names_view(tokens@), j as int)) && i <= j <= s@.len() && (j == s@.len()
                || at_separator(s@, j as int)),
            Err(e) => declaration_tokens_at(s@, i as int) == Err::<(Seq<Seq<char>>, int), int>(
                e as int,
            ) && i <= e < s@.len(),
        },
{
    let mut tokens: Vec<String> = Vec::new();
    let mut pos: usize = i;
    assert(names_view(tokens@) =~= Seq::empty());
    loop
        invariant
            i <= pos <= s@.len(),
            declaration_tokens_at(s@, i as int) == tokens_from(
                s@,
                pos as int,
                names_view(tokens@),
            ),
        decreases s@.len() - pos,
    {
        let j = scan_run(s, pos, CharClass::Hspace);
        if j >= s.len() || is_separator(s, j) {
            return Ok((tokens, j));
        }
        match token_with_colon(s, j) {
            Some((t, k)) => {
                let ghost before = names_view(tokens@);
                let text = string_of(&t);
                tokens.push(text);
                assert(names_view(tokens@) =~= before.push(t@));
                pos = k;
            },
            None => {
                return Err(j);
            },
        }
    }
}

/// Steps over the colon that ends a declaration.
pub fn skip_colon(s: &Vec<char>, i: usize) -> (r: Option<usize>)
    requires
        i <= s@.len(),
    ensures
        r == (if i < s@.len() && s@[i as int] == ':' {
            Some((i + 1) as usize)
        } else {
            None
        }),
{
    if i < s.len() && s[i] == ':' {
        Some(i + 1)
    } else {
        None
    }
}

} // verus!
