//! The command of a process line: inline with backslash continuations, or an
//! indented block on the lines that follow the colon.

use vstd::prelude::*;
use crate::text::{append_chars, copy_range};
use crate::parser::tokenizer::{run_end, scan_run, CharClass};

verus! {

/// The length of the line break at `i`: 1 for a line feed, 2 for a carriage
/// return and a line feed, 0 where there is none.
pub open spec fn newline_len(s: Seq<char>, i: int) -> int {
    if 0 <= i < s.len() && s[i] == '\n' {
        1
    } else if 0 <= i && i + 1 < s.len() && s[i] == '\r' && s[i + 1] == '\n' {
        2
    } else {
        0
    }
}

pub fn newline_width(s: &Vec<char>, i: usize) -> (n: usize)
    requires
        i <= s@.len(),
    ensures
        n == newline_len(s@, i as int),
        i + n <= s@.len() <= usize::MAX,
{
    if i < s.len() && s[i] == '\n' {
        1
    } else if i < s.len() && s.len() - i >= 2 && s[i] == '\r' && s[i + 1] == '\n' {
        2
    } else {
        0
    }
}

/// `acc`, followed by one space unless it already ends in one.
pub open spec fn spaced(acc: Seq<char>) -> Seq<char> {
    if acc.len() > 0 && acc.last() == ' ' {
        acc
    } else {
        acc.push(' ')
    }
}

/// The rest of a logical line from `i`, with `acc` read so far, and the
/// position of the line break (or the end of the input) that ends it. A
/// backslash before a line break joins the next line: the break and the
/// spaces and tabs after it become one space, unless a space precedes. Any
/// other backslash stands for itself. (The tests on the positions only make
/// the definition well-founded: a run ends at or behind its start and inside
/// the input.)
pub open spec fn continued_from(s: Seq<char>, i: int, acc: Seq<char>) -> (Seq<char>, int)
    decreases s.len() - i,
{
    let j = run_end(s, i, CharClass::Plain);
    if 0 <= i <= j < s.len() && s[j] == '\\' {
        let acc1 = acc + s.subrange(i, j);
        let n = newline_len(s, j + 1);
        if n > 0 {
            let k = run_end(s, j + 1 + n, CharClass::Hspace);
            if j < k <= s.len() {
                continued_from(s, k, spaced(acc1))
            } else {
                (acc1, j)
            }
        } else {
            continued_from(s, j + 1, acc1.push('\\'))
        }
    } else if 0 <= i <= j <= s.len() {
        (acc + s.subrange(i, j), j)
    } else {
        (acc, i)
    }
}

/// The logical line that starts at `i`.
pub open spec fn continued_at(s: Seq<char>, i: int) -> (Seq<char>, int) {
    continued_from(s, i, Seq::empty())
}

/// Reads a logical line, joining the lines that a backslash continues.
pub fn continued_line_content(s: &Vec<char>, i: usize) -> (r: (Vec<char>, usize))
    requires
        i <= s@.len(),
    ensures
        continued_at(s@, i as int) == (r.0@, r.1 as int),
        i <= r.1 <= s@.len(),
        r.1 > i || r.1 == s@.len() || s@[r.1 as int] == '\n' || s@[r.1 as int] == '\r',
{
    let mut acc: Vec<char> = Vec::new();
    let mut pos: usize = i;
    assert(acc@ =~= Seq::empty());
    loop
        invariant
            i <= pos <= s@.len(),
            continued_at(s@, i as int) == continued_from(s@, pos as int, acc@),
        decreases s@.len() - pos,
    {
        let j = scan_run(s, pos, CharClass::Plain);
        let chunk = copy_range(s, pos, j);
        append_chars(&mut acc, &chunk);
        if j < s.len() && s[j] == '\\' {
            let n = newline_width(s, j + 1);
            if n > 0 {
                let k = scan_run(s, j + 1 + n, CharClass::Hspace);
                if acc.len() == 0 || acc[acc.len() - 1] != ' ' {
                    acc.push(' ');
                }
                pos = k;
            } else {
                acc.push('\\');
                pos = j + 1;
            }
        } else {
            return (acc, j);
        }
    }
}

/// The characters of each row.
pub open spec fn rows(v: Seq<Vec<char>>) -> Seq<Seq<char>> {
    Seq::new(v.len(), |i: int| v[i]@)
}

/// The lines of an indented block from `i`, with `acc` read so far, and the
/// position of the first line that does not belong to it. A line of spaces
/// and tabs that ends in a line break counts as an empty line; any other line
/// belongs to the block if it starts with a space or a tab. (The tests on
/// the positions only make the definition well-founded.)
pub open spec fn block_lines_from(s: Seq<char>, i: int, acc: Seq<Seq<char>>) -> (
    Seq<Seq<char>>,
    int,
)
    decreases s.len() - i,
{
    let j = run_end(s, i, CharClass::Hspace);
    let n = newline_len(s, j);
    if n > 0 && 0 <= i <= j && j + n <= s.len() {
        block_lines_from(s, j + n, acc.push(Seq::empty()))
    } else if 0 <= i < s.len() && (s[i] == ' ' || s[i] == '\t') {
        let line = continued_at(s, i).0;
        let k = continued_at(s, i).1;
        let k2 = k + newline_len(s, k);
        if i < k2 <= s.len() {
            block_lines_from(s, k2, acc.push(line))
        } else {
            (acc, i)
        }
    } else {
        (acc, i)
    }
}

/// Reads the lines of an indented block.
pub fn block_lines(s: &Vec<char>, i: usize) -> (r: (Vec<Vec<char>>, usize))
    requires
        i <= s@.len(),
    ensures
        block_lines_from(s@, i as int, Seq::empty()) == (rows(r.0@), r.1 as int),
        i <= r.1 <= s@.len(),
{
    let mut lines: Vec<Vec<char>> = Vec::new();
    let mut pos: usize = i;
    assert(rows(lines@) =~= Seq::empty());
    loop
        invariant
            i <= pos <= s@.len(),
            block_lines_from(s@, i as int, Seq::empty()) == block_lines_from(
                s@,
                pos as int,
                rows(lines@),
            ),
        decreases s@.len() - pos,
    {
        let j = scan_run(s, pos, CharClass::Hspace);
        let n = newline_width(s, j);
        let ghost before = rows(lines@);
        if n > 0 {
            let empty: Vec<char> = Vec::new();
            assert(empty@ =~= Seq::empty());
            lines.push(empty);
            assert(rows(lines@) =~= before.push(Seq::empty()));
            pos = j + n;
        } else if pos < s.len() && (s[pos] == ' ' || s[pos] == '\t') {
            let (line, k) = continued_line_content(s, pos);
            let k2 = k + newline_width(s, k);
            proof {
                crate::parser::tokenizer::lemma_run_end(s@, pos as int, CharClass::Plain);
            }
            assert(k2 > pos);
            let ghost l = line@;
            lines.push(line);
            assert(rows(lines@) =~= before.push(l));
            pos = k2;
        } else {
            return (lines, pos);
        }
    }
}

/// The number of white-space characters that `l` starts with.
pub open spec fn indent_of(l: Seq<char>) -> int {
    run_end(l, 0, CharClass::Space)
}

/// Whether `l` holds nothing but white space.
pub open spec fn is_blank(l: Seq<char>) -> bool {
    indent_of(l) == l.len()
}

/// How many of `lines` remain when the blank lines at the end are dropped.
pub open spec fn trimmed_len(lines: Seq<Seq<char>>) -> int
    decreases lines.len(),
{
    if lines.len() > 0 && is_blank(lines.last()) {
        trimmed_len(lines.drop_last())
    } else {
        lines.len() as int
    }
}

/// The least indentation among the first `n` lines that are not blank;
/// `None` where all of them are blank.
pub open spec fn min_indent(lines: Seq<Seq<char>>, n: int) -> Option<int>
    decreases n,
{
    if n <= 0 || n > lines.len() {
        None
    } else {
        let rest = min_indent(lines, n - 1);
        let l = lines[n - 1];
        if is_blank(l) {
            rest
        } else if rest.is_some() && rest.unwrap() <= indent_of(l) {
            rest
        } else {
            Some(indent_of(l))
        }
    }
}

/// The line `l` without the common indentation `m`; a blank line becomes
/// empty.
pub open spec fn dedent(l: Seq<char>, m: int) -> Seq<char> {
    if is_blank(l) {
        Seq::empty()
    } else if 0 <= m < l.len() {
        l.subrange(m, l.len() as int)
    } else {
        l.subrange(indent_of(l), l.len() as int)
    }
}

/// The first `n` lines, each without the indentation `m`, joined by line
/// feeds.
pub open spec fn joined(lines: Seq<Seq<char>>, n: int, m: int) -> Seq<char>
    decreases n,
{
    if n <= 0 || n > lines.len() {
        Seq::empty()
    } else if n == 1 {
        dedent(lines[0], m)
    } else {
        joined(lines, n - 1, m).push('\n') + dedent(lines[n - 1], m)
    }
}

/// The command that the lines of a block make: the blank lines at the end
/// dropped, the common indentation of the others stripped, the lines joined by
/// line feeds.
pub open spec fn block_command(lines: Seq<Seq<char>>) -> Seq<char> {
    let n = trimmed_len(lines);
    let m = match min_indent(lines, n) {
        Some(m) => m,
        None => 0,
    };
    joined(lines, n, m)
}

/// The number of white-space characters that `l` starts with.
pub fn leading_space(l: &Vec<char>) -> (r: usize)
    ensures
        r == indent_of(l@),
        r <= l@.len(),
{
    scan_run(l, 0, CharClass::Space)
}

/// Builds the command of a block from its lines.
pub fn command_of_block(lines: &Vec<Vec<char>>) -> (r: Vec<char>)
    ensures
        r@ == block_command(rows(lines@)),
{
    let ghost all = rows(lines@);
    let mut n: usize = lines.len();
    assert(all.subrange(0, n as int) =~= all);
    while n > 0 && leading_space(&lines[n - 1]) == lines[n - 1].len()
        invariant
            n <= lines@.len(),
            all == rows(lines@),
            trimmed_len(all) == trimmed_len(all.subrange(0, n as int)),
        decreases n,
    {
        assert(all.subrange(0, n as int).drop_last() =~= all.subrange(0, n - 1));
        n -= 1;
    }
    assert(trimmed_len(all) == n);
    let mut least: Option<usize> = None;
    let mut i: usize = 0;
    while i < n
        invariant
            i <= n <= lines@.len(),
            all == rows(lines@),
            match least {
                Some(m) => min_indent(all, i as int) == Some(m as int),
                None => min_indent(all, i as int).is_none(),
            },
        decreases n - i,
    {
        let d = leading_space(&lines[i]);
        if d != lines[i].len() {
            match least {
                Some(m) => {
                    if d < m {
                        least = Some(d);
                    }
                },
                None => {
                    least = Some(d);
                },
            }
        }
        i += 1;
    }
    let m: usize = match least {
        Some(m) => m,
        None => 0,
    };
    let mut out: Vec<char> = Vec::new();
    let mut k: usize = 0;
    assert(out@ =~= Seq::empty());
    while k < n
        invariant
            k <= n <= lines@.len(),
            all == rows(lines@),
            out@ == joined(all, k as int, m as int),
        decreases n - k,
    {
        if k > 0 {
            out.push('\n');
        }
        let l = &lines[k];
        let d = leading_space(l);
        if d == l.len() {
        } else if m < l.len() {
            let piece = copy_range(l, m, l.len());
            append_chars(&mut out, &piece);
        } else {
            let piece = copy_range(l, d, l.len());
            append_chars(&mut out, &piece);
        }
        assert(out@ =~= joined(all, k + 1, m as int));
        k += 1;
    }
    out
}

/// The command that follows the colon, from `i`, and the position of the
/// next line. Spaces and tabs are skipped first. Where a line break follows,
/// the command is the indented block on the next lines; where the input ends,
/// it is empty; else it is the rest of the logical line.
pub open spec fn command_part_at(s: Seq<char>, i: int) -> (Seq<char>, int) {
    let q = run_end(s, i, CharClass::Hspace);
    let n = newline_len(s, q);
    if q >= s.len() {
        (Seq::empty(), q)
    } else if n > 0 {
        let block = block_lines_from(s, q + n, Seq::empty());
        (block_command(block.0), block.1)
    } else {
        let line = continued_at(s, q);
        (line.0, line.1 + newline_len(s, line.1))
    }
}

/// Reads the command that follows the colon of a process line.
pub fn command_part(s: &Vec<char>, i: usize) -> (r: (Vec<char>, usize))
    requires
        i <= s@.len(),
    ensures
        command_part_at(s@, i as int) == (r.0@, r.1 as int),
        i <= r.1 <= s@.len(),
{
    let q = scan_run(s, i, CharClass::Hspace);
    let n = newline_width(s, q);
    if q >= s.len() {
        let empty: Vec<char> = Vec::new();
        assert(empty@ =~= Seq::empty());
        (empty, q)
    } else if n > 0 {
        let (lines, k) = block_lines(s, q + n);
        (command_of_block(&lines), k)
    } else {
        let (line, k) = continued_line_content(s, q);
        let w = newline_width(s, k);
        (line, k + w)
    }
}

} // verus!
