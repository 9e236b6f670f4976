//! A line feed at the end of a manifest changes nothing.

use vstd::prelude::*;
use crate::parser::command::{
    block_command, block_lines_from, command_part_at, continued_at, continued_from, indent_of,
    is_blank, joined, min_indent, newline_len, spaced, trimmed_len,
};
use crate::parser::items::{
    blank_line_at, comment_line_at, env_line_at, env_value_at, items_from, items_of, line_of,
    newlines_before, process_line_at, token_error_kind, ItemModel, SyntaxErrorKind,
};
use crate::parser::lowered;
use crate::parser::tokenizer::{at_embedded_colon, at_separator, double_quoted_at, double_quoted_from, in_class, lemma_run_end, lemma_run_end_unique, run_end, single_quoted_at, token_at, token_from, declaration_tokens_at, token_part_at, tokens_from, CharClass};

verus! {

/// Whether a line feed may be added at the end of `s` without changing what
/// `s` says: `s` does not end in a backslash, which would join the added
/// line, nor in a carriage return, which the line feed would complete to a
/// line break.
pub open spec fn closed_at_end(s: Seq<char>) -> bool {
    s.len() == 0 || (s.last() != '\\' && s.last() != '\r')
}

proof fn lemma_run_end_push(s: Seq<char>, i: int, k: CharClass)
    requires
        0 <= i <= s.len(),
    ensures
        run_end(s.push('\n'), i, k) == (if run_end(s, i, k) < s.len() {
            run_end(s, i, k)
        } else if in_class(k, '\n') {
            (s.len() + 1) as int
        } else {
            s.len() as int
        }),
        i <= run_end(s, i, k) <= s.len(),
    decreases s.len() - i,
{
    let t = s.push('\n');
    lemma_run_end(s, i, k);
    if i < s.len() {
        assert(t[i] == s[i]);
        if in_class(k, s[i]) {
            lemma_run_end_push(s, i + 1, k);
        }
    } else {
        assert(t[i] == '\n');
        assert(t.len() == s.len() + 1);
        assert(run_end(t, i + 1, k) == i + 1);
        assert(run_end(s, i, k) == i);
    }
}

proof fn lemma_single_quoted_push(s: Seq<char>, i: int)
    requires
        0 <= i <= s.len(),
    ensures
        single_quoted_at(s.push('\n'), i) == single_quoted_at(s, i),
{
    let t = s.push('\n');
    if i < s.len() {
        assert(t[i] == s[i]);
        if s[i] == '\'' {
            lemma_run_end_push(s, i + 1, CharClass::NotQuote);
            let j = run_end(s, i + 1, CharClass::NotQuote);
            if j < s.len() {
                assert(t.subrange(i + 1, j) =~= s.subrange(i + 1, j));
            }
        }
    } else {
        assert(t[i] == '\n');
    }
}

proof fn lemma_double_quoted_from_push(s: Seq<char>, i: int, acc: Seq<char>)
    requires
        0 <= i <= s.len(),
        closed_at_end(s),
    ensures
        double_quoted_from(s.push('\n'), i, acc) == double_quoted_from(s, i, acc),
    decreases s.len() - i,
{
    let t = s.push('\n');
    if i < s.len() {
        assert(t[i] == s[i]);
        if s[i] == '"' {
        } else if s[i] == '\\' {
            assert(i + 1 < s.len());
            assert(t[i + 1] == s[i + 1]);
            if crate::parser::tokenizer::escape_of(s[i + 1]).is_some() {
                lemma_double_quoted_from_push(
                    s,
                    i + 2,
                    acc.push(crate::parser::tokenizer::escape_of(s[i + 1]).unwrap()),
                );
            }
        } else {
            lemma_double_quoted_from_push(s, i + 1, acc.push(s[i]));
        }
    } else {
        assert(t[i] == '\n');
        assert(double_quoted_from(t, i + 1, acc.push('\n')).is_none());
    }
}

proof fn lemma_double_quoted_push(s: Seq<char>, i: int)
    requires
        0 <= i <= s.len(),
        closed_at_end(s),
    ensures
        double_quoted_at(s.push('\n'), i) == double_quoted_at(s, i),
{
    let t = s.push('\n');
    if i < s.len() {
        assert(t[i] == s[i]);
        if s[i] == '"' {
            lemma_double_quoted_from_push(s, i + 1, Seq::empty());
        }
    } else {
        assert(t[i] == '\n');
    }
}

proof fn lemma_separator_push(s: Seq<char>, i: int)
    requires
        0 <= i <= s.len(),
    ensures
        at_separator(s.push('\n'), i) == at_separator(s, i),
        at_embedded_colon(s.push('\n'), i) == at_embedded_colon(s, i),
{
    let t = s.push('\n');
    if i < s.len() {
        assert(t[i] == s[i]);
        if i + 1 < s.len() {
            assert(t[i + 1] == s[i + 1]);
        } else {
            assert(t[i + 1] == '\n');
        }
    } else {
        assert(t[i] == '\n');
    }
}

proof fn lemma_token_part_push(s: Seq<char>, i: int)
    requires
        0 <= i <= s.len(),
        closed_at_end(s),
    ensures
        token_part_at(s.push('\n'), i) == token_part_at(s, i),
        token_part_at(s, i).is_some() ==> i < token_part_at(s, i).unwrap().1 <= s.len(),
{
    let t = s.push('\n');
    lemma_single_quoted_push(s, i);
    lemma_double_quoted_push(s, i);
    lemma_run_end_push(s, i, CharClass::Bare);
    lemma_run_end(s, i, CharClass::Bare);
    let j = run_end(s, i, CharClass::Bare);
    assert(t.subrange(i, j) =~= s.subrange(i, j));
    if i < s.len() {
        assert(t[i] == s[i]);
        if s[i] == '\'' {
            lemma_run_end(s, i + 1, CharClass::NotQuote);
        }
        if s[i] == '"' {
            lemma_double_quoted_bound(s, i + 1, Seq::empty());
        }
    } else {
        assert(t[i] == '\n');
    }
}

proof fn lemma_double_quoted_bound(s: Seq<char>, i: int, acc: Seq<char>)
    requires
        0 <= i <= s.len(),
    ensures
        double_quoted_from(s, i, acc).is_some() ==> i < double_quoted_from(s, i, acc).unwrap().1
            <= s.len(),
    decreases s.len() - i,
{
    if i < s.len() {
        if s[i] == '"' {
        } else if s[i] == '\\' {
            if i + 1 < s.len() && crate::parser::tokenizer::escape_of(s[i + 1]).is_some() {
                lemma_double_quoted_bound(
                    s,
                    i + 2,
                    acc.push(crate::parser::tokenizer::escape_of(s[i + 1]).unwrap()),
                );
            }
        } else {
            lemma_double_quoted_bound(s, i + 1, acc.push(s[i]));
        }
    }
}

proof fn lemma_token_from_push(s: Seq<char>, i: int, acc: Seq<char>)
    requires
        0 <= i <= s.len(),
        closed_at_end(s),
    ensures
        token_from(s.push('\n'), i, acc) == token_from(s, i, acc),
        i <= token_from(s, i, acc).1 <= s.len(),
        token_from(s, i, acc).0.len() >= acc.len(),
        token_from(s, i, acc).0.len() > acc.len() ==> token_from(s, i, acc).1 > i,
    decreases s.len() - i,
{
    let t = s.push('\n');
    lemma_token_part_push(s, i);
    let part = token_part_at(s, i);
    let acc1 = if part.is_some() {
        acc + part.unwrap().0
    } else {
        acc
    };
    let i1 = if part.is_some() && part.unwrap().1 > i {
        part.unwrap().1
    } else {
        i
    };
    lemma_separator_push(s, i1);
    if at_embedded_colon(s, i1) {
        lemma_token_from_push(s, i1 + 1, acc1.push(':'));
    }
}

proof fn lemma_tokens_from_push(s: Seq<char>, i: int, acc: Seq<Seq<char>>)
    requires
        0 <= i <= s.len(),
        closed_at_end(s),
    ensures
        match tokens_from(s, i, acc) {
            Ok((tokens, c)) => i <= c <= s.len() && (if c < s.len() {
                tokens_from(s.push('\n'), i, acc) == Ok::<(Seq<Seq<char>>, int), int>((tokens, c))
                    && at_separator(s, c)
            } else {
                tokens_from(s.push('\n'), i, acc) == Err::<(Seq<Seq<char>>, int), int>(
                    s.len() as int,
                )
            }),
            Err(e) => i <= e < s.len() && tokens_from(s.push('\n'), i, acc) == Err::<
                (Seq<Seq<char>>, int),
                int,
            >(e),
        },
    decreases s.len() - i,
{
    let t = s.push('\n');
    lemma_run_end_push(s, i, CharClass::Hspace);
    let j = run_end(s, i, CharClass::Hspace);
    assert(run_end(t, i, CharClass::Hspace) == j);
    lemma_separator_push(s, j);
    lemma_token_from_push(s, j, Seq::empty());
    if j >= s.len() {
        assert(t[j] == '\n');
        assert(!at_separator(t, j));
        assert(token_at(t, j).0.len() == 0);
    } else if at_separator(s, j) {
    } else {
        let tk = token_at(s, j).0;
        let k = token_at(s, j).1;
        if tk.len() == 0 || k <= j || j < i || k > s.len() {
        } else {
            lemma_tokens_from_push(s, k, acc.push(tk));
        }
    }
}

proof fn lemma_newline_len_push(s: Seq<char>, i: int)
    requires
        0 <= i <= s.len(),
        closed_at_end(s),
    ensures
        i < s.len() ==> newline_len(s.push('\n'), i) == newline_len(s, i),
        newline_len(s, s.len() as int) == 0,
        newline_len(s.push('\n'), s.len() as int) == 1,
        0 <= newline_len(s, i) <= 2,
        i + newline_len(s, i) <= s.len(),
{
    let t = s.push('\n');
    assert(t[s.len() as int] == '\n');
    if i < s.len() {
        assert(t[i] == s[i]);
        if i + 1 < s.len() {
            assert(t[i + 1] == s[i + 1]);
        }
    }
}

proof fn lemma_continued_from_push(s: Seq<char>, i: int, acc: Seq<char>)
    requires
        0 <= i <= s.len(),
        closed_at_end(s),
    ensures
        continued_from(s.push('\n'), i, acc) == continued_from(s, i, acc),
        i <= continued_from(s, i, acc).1 <= s.len(),
        continued_from(s, i, acc).1 < s.len() ==> (s[continued_from(s, i, acc).1] == '\n'
            || s[continued_from(s, i, acc).1] == '\r'),
    decreases s.len() - i,
{
    let t = s.push('\n');
    lemma_run_end_push(s, i, CharClass::Plain);
    lemma_run_end(s, i, CharClass::Plain);
    let j = run_end(s, i, CharClass::Plain);
    assert(run_end(t, i, CharClass::Plain) == j);
    assert(t.subrange(i, j) =~= s.subrange(i, j));
    if j < s.len() {
        assert(t[j] == s[j]);
        if s[j] == '\\' {
            assert(j + 1 < s.len());
            lemma_newline_len_push(s, j + 1);
            let acc1 = acc + s.subrange(i, j);
            let n = newline_len(s, j + 1);
            if n > 0 {
                lemma_run_end_push(s, j + 1 + n, CharClass::Hspace);
                lemma_run_end(s, j + 1 + n, CharClass::Hspace);
                let k = run_end(s, j + 1 + n, CharClass::Hspace);
                assert(run_end(t, j + 1 + n, CharClass::Hspace) == k);
                lemma_continued_from_push(s, k, spaced(acc1));
            } else {
                lemma_continued_from_push(s, j + 1, acc1.push('\\'));
            }
        } else {
            assert(!in_class(CharClass::Plain, s[j]));
        }
    } else {
        assert(t[j] == '\n');
    }
}

/// Whether the lines `b` are the lines `a` but for the end: the same; or
/// with one more line, which is empty; or with an empty last line in place
/// of a blank one.
pub open spec fn lines_agree(a: Seq<Seq<char>>, b: Seq<Seq<char>>) -> bool {
    ||| b == a
    ||| b == a.push(Seq::empty())
    ||| (a.len() > 0 && is_blank(a.last()) && b == a.drop_last().push(Seq::empty()))
}

proof fn lemma_hspace_is_blank(l: Seq<char>)
    requires
        forall|x: int| 0 <= x < l.len() ==> in_class(CharClass::Hspace, #[trigger] l[x]),
    ensures
        is_blank(l),
{
    assert forall|x: int| 0 <= x < l.len() implies in_class(CharClass::Space, #[trigger] l[x]) by {
        assert(in_class(CharClass::Hspace, l[x]));
    }
    lemma_run_end_unique(l, 0, CharClass::Space, l.len() as int);
}

proof fn lemma_block_lines_push(s: Seq<char>, i: int, acc: Seq<Seq<char>>)
    requires
        0 <= i <= s.len(),
        closed_at_end(s),
    ensures
        lines_agree(block_lines_from(s, i, acc).0, block_lines_from(s.push('\n'), i, acc).0),
        i <= block_lines_from(s, i, acc).1 <= s.len(),
        block_lines_from(s, i, acc).1 < s.len() ==> block_lines_from(s.push('\n'), i, acc).1
            == block_lines_from(s, i, acc).1,
        block_lines_from(s, i, acc).1 == s.len() ==> block_lines_from(s.push('\n'), i, acc).1
            == s.len() + 1,
    decreases s.len() - i,
{
    let t = s.push('\n');
    lemma_run_end_push(s, i, CharClass::Hspace);
    lemma_run_end(s, i, CharClass::Hspace);
    let j = run_end(s, i, CharClass::Hspace);
    assert(run_end(t, i, CharClass::Hspace) == j);
    lemma_newline_len_push(s, j);
    if i == s.len() {
        assert(newline_len(t, j) == 1);
        assert(block_lines_from(s, i, acc) == (acc, i));
        let acc2 = acc.push(Seq::empty());
        assert(run_end(t, i + 1, CharClass::Hspace) == i + 1);
        assert(newline_len(t, i + 1) == 0);
        assert(block_lines_from(t, i + 1, acc2) == (acc2, i + 1));
    } else if j == s.len() {
        // Spaces and tabs up to the end: a line of its own in `s`, a blank
        // line in `s` with the line feed.
        assert(newline_len(s, j) == 0);
        assert(newline_len(t, j) == 1);
        assert(in_class(CharClass::Hspace, s[i]));
        lemma_continued_from_push(s, i, Seq::empty());
        lemma_run_end(s, i, CharClass::Plain);
        let p = run_end(s, i, CharClass::Plain);
        assert(p == s.len()) by {
            if p < s.len() {
                assert(in_class(CharClass::Hspace, s[p]));
            }
        }
        let line = s.subrange(i, s.len() as int);
        assert(Seq::<char>::empty() + line =~= line);
        assert(continued_at(s, i) == (line, s.len() as int));
        assert forall|x: int| 0 <= x < line.len() implies in_class(
            CharClass::Hspace,
            #[trigger] line[x],
        ) by {
            assert(line[x] == s[i + x]);
        }
        lemma_hspace_is_blank(line);
        let a = acc.push(line);
        let b = acc.push(Seq::empty());
        assert(run_end(s, s.len() as int, CharClass::Hspace) == s.len());
        assert(block_lines_from(s, s.len() as int, a) == (a, s.len() as int));
        assert(run_end(t, j + 1, CharClass::Hspace) == j + 1);
        assert(newline_len(t, j + 1) == 0);
        assert(block_lines_from(t, j + 1, b) == (b, j + 1));
        assert(a.drop_last() =~= acc);
    } else {
        assert(t[i] == s[i]);
        let n = newline_len(s, j);
        assert(newline_len(t, j) == n);
        if n > 0 {
            lemma_block_lines_push(s, j + n, acc.push(Seq::empty()));
        } else if s[i] == ' ' || s[i] == '\t' {
            lemma_continued_from_push(s, i, Seq::empty());
            let line = continued_at(s, i).0;
            let k = continued_at(s, i).1;
            lemma_newline_len_push(s, k);
            lemma_run_end(s, i, CharClass::Plain);
            assert(k > i) by {
                lemma_continued_progress(s, i, Seq::empty());
            }
            if k < s.len() {
                let k2 = k + newline_len(s, k);
                lemma_block_lines_push(s, k2, acc.push(line));
            } else {
                let a = acc.push(line);
                assert(run_end(s, s.len() as int, CharClass::Hspace) == s.len());
                assert(block_lines_from(s, s.len() as int, a) == (a, s.len() as int));
                assert(run_end(t, k + 1, CharClass::Hspace) == k + 1);
                assert(newline_len(t, k + 1) == 0);
                assert(block_lines_from(t, k + 1, a) == (a, k + 1));
            }
        }
    }
}

proof fn lemma_continued_progress(s: Seq<char>, i: int, acc: Seq<char>)
    requires
        0 <= i < s.len(),
        in_class(CharClass::Plain, s[i]),
    ensures
        continued_from(s, i, acc).1 > i,
{
    lemma_run_end(s, i, CharClass::Plain);
    let j = run_end(s, i, CharClass::Plain);
    assert(j > i);
    if j < s.len() && s[j] == '\\' {
        let acc1 = acc + s.subrange(i, j);
        let n = newline_len(s, j + 1);
        if n > 0 {
            let k = run_end(s, j + 1 + n, CharClass::Hspace);
            if j < k <= s.len() {
                lemma_continued_bound(s, k, spaced(acc1));
            }
        } else {
            lemma_continued_bound(s, j + 1, acc1.push('\\'));
        }
    }
}

proof fn lemma_continued_bound(s: Seq<char>, i: int, acc: Seq<char>)
    requires
        0 <= i <= s.len(),
    ensures
        i <= continued_from(s, i, acc).1,
    decreases s.len() - i,
{
    lemma_run_end(s, i, CharClass::Plain);
    let j = run_end(s, i, CharClass::Plain);
    if j < s.len() && s[j] == '\\' {
        let acc1 = acc + s.subrange(i, j);
        let n = newline_len(s, j + 1);
        if n > 0 {
            let k = run_end(s, j + 1 + n, CharClass::Hspace);
            if j < k <= s.len() {
                lemma_continued_bound(s, k, spaced(acc1));
            }
        } else {
            lemma_continued_bound(s, j + 1, acc1.push('\\'));
        }
    }
}

proof fn lemma_trimmed_bound(lines: Seq<Seq<char>>)
    ensures
        0 <= trimmed_len(lines) <= lines.len(),
    decreases lines.len(),
{
    if lines.len() > 0 && is_blank(lines.last()) {
        lemma_trimmed_bound(lines.drop_last());
    }
}

proof fn lemma_same_prefix(a: Seq<Seq<char>>, b: Seq<Seq<char>>, n: int, m: int)
    requires
        0 <= n <= a.len(),
        n <= b.len(),
        forall|k: int| 0 <= k < n ==> a[k] == b[k],
    ensures
        min_indent(a, n) == min_indent(b, n),
        joined(a, n, m) == joined(b, n, m),
    decreases n,
{
    if n > 0 {
        lemma_same_prefix(a, b, n - 1, m);
    }
}

proof fn lemma_block_command_agree(a: Seq<Seq<char>>, b: Seq<Seq<char>>)
    requires
        lines_agree(a, b),
    ensures
        block_command(a) == block_command(b),
{
    let empty = Seq::<char>::empty();
    assert(is_blank(empty));
    if b == a {
    } else if b == a.push(empty) {
        assert(b.drop_last() =~= a);
        lemma_trimmed_bound(a);
        let n = trimmed_len(a);
        assert(trimmed_len(b) == n);
        lemma_same_prefix(a, b, n, 0);
        let m = match min_indent(a, n) {
            Some(m) => m,
            None => 0,
        };
        lemma_same_prefix(a, b, n, m);
    } else {
        let c = a.drop_last();
        assert(b.drop_last() =~= c);
        lemma_trimmed_bound(c);
        let n = trimmed_len(c);
        assert(trimmed_len(a) == n);
        assert(trimmed_len(b) == n);
        lemma_same_prefix(a, b, n, 0);
        let m = match min_indent(a, n) {
            Some(m) => m,
            None => 0,
        };
        lemma_same_prefix(a, b, n, m);
    }
}

proof fn lemma_command_part_push(s: Seq<char>, i: int)
    requires
        0 <= i <= s.len(),
        closed_at_end(s),
    ensures
        command_part_at(s.push('\n'), i).0 == command_part_at(s, i).0,
        i <= command_part_at(s, i).1 <= s.len(),
        command_part_at(s, i).1 < s.len() ==> command_part_at(s.push('\n'), i).1
            == command_part_at(s, i).1,
        command_part_at(s, i).1 == s.len() ==> (command_part_at(s.push('\n'), i).1 == s.len()
            || command_part_at(s.push('\n'), i).1 == s.len() + 1),
{
    let t = s.push('\n');
    lemma_run_end_push(s, i, CharClass::Hspace);
    lemma_run_end(s, i, CharClass::Hspace);
    let q = run_end(s, i, CharClass::Hspace);
    assert(run_end(t, i, CharClass::Hspace) == q);
    lemma_newline_len_push(s, q);
    if q >= s.len() {
        let none = Seq::<Seq<char>>::empty();
        assert(newline_len(t, q) == 1);
        assert(run_end(t, q + 1, CharClass::Hspace) == q + 1);
        assert(newline_len(t, q + 1) == 0);
        assert(block_lines_from(t, q + 1, none) == (none, q + 1));
        assert(trimmed_len(none) == 0);
        assert(block_command(none) =~= Seq::<char>::empty());
    } else {
        let n = newline_len(s, q);
        assert(newline_len(t, q) == n);
        if n > 0 {
            lemma_block_lines_push(s, q + n, Seq::empty());
            lemma_block_command_agree(
                block_lines_from(s, q + n, Seq::empty()).0,
                block_lines_from(t, q + n, Seq::empty()).0,
            );
        } else {
            lemma_continued_from_push(s, q, Seq::empty());
            let k = continued_at(s, q).1;
            lemma_newline_len_push(s, k);
        }
    }
}

/// Whether the position `pt` in the text with the line feed is the position
/// `ps` in the text without it: the same, or, at the end, behind the line
/// feed.
pub open spec fn same_place(s: Seq<char>, ps: int, pt: int) -> bool {
    &&& 0 <= ps <= s.len()
    &&& ps < s.len() ==> pt == ps
    &&& ps == s.len() ==> (pt == s.len() || pt == s.len() + 1)
}

proof fn lemma_blank_line_push(s: Seq<char>, i: int)
    requires
        0 <= i < s.len(),
        closed_at_end(s),
    ensures
        blank_line_at(s.push('\n'), i).is_some() == blank_line_at(s, i).is_some(),
        blank_line_at(s, i).is_some() ==> i < blank_line_at(s, i).unwrap() && same_place(
            s,
            blank_line_at(s, i).unwrap(),
            blank_line_at(s.push('\n'), i).unwrap(),
        ),
{
    let t = s.push('\n');
    lemma_run_end_push(s, i, CharClass::Hspace);
    lemma_run_end(s, i, CharClass::Hspace);
    let j = run_end(s, i, CharClass::Hspace);
    lemma_newline_len_push(s, j);
}

proof fn lemma_comment_line_push(s: Seq<char>, i: int)
    requires
        0 <= i < s.len(),
        closed_at_end(s),
    ensures
        comment_line_at(s.push('\n'), i).is_some() == comment_line_at(s, i).is_some(),
        comment_line_at(s, i).is_some() ==> i < comment_line_at(s, i).unwrap() && same_place(
            s,
            comment_line_at(s, i).unwrap(),
            comment_line_at(s.push('\n'), i).unwrap(),
        ),
{
    let t = s.push('\n');
    lemma_run_end_push(s, i, CharClass::Hspace);
    lemma_run_end(s, i, CharClass::Hspace);
    let j = run_end(s, i, CharClass::Hspace);
    if j < s.len() {
        assert(t[j] == s[j]);
        if s[j] == '#' {
            lemma_run_end_push(s, j + 1, CharClass::NotEol);
            lemma_run_end(s, j + 1, CharClass::NotEol);
            let k = run_end(s, j + 1, CharClass::NotEol);
            lemma_newline_len_push(s, k);
        }
    } else {
        assert(t[j] == '\n');
    }
}

proof fn lemma_env_value_push(s: Seq<char>, i: int)
    requires
        0 <= i <= s.len(),
        closed_at_end(s),
    ensures
        env_value_at(s.push('\n'), i) == env_value_at(s, i),
        i <= env_value_at(s, i).1 <= s.len(),
{
    let t = s.push('\n');
    lemma_single_quoted_push(s, i);
    lemma_double_quoted_push(s, i);
    lemma_token_part_push(s, i);
    lemma_run_end_push(s, i, CharClass::NonSpace);
    lemma_run_end(s, i, CharClass::NonSpace);
    let j = run_end(s, i, CharClass::NonSpace);
    assert(t.subrange(i, j) =~= s.subrange(i, j));
    if i < s.len() && s[i] == '\'' {
        lemma_run_end(s, i + 1, CharClass::NotQuote);
    }
    if i < s.len() && s[i] == '"' {
        lemma_double_quoted_bound(s, i + 1, Seq::empty());
    }
}

proof fn lemma_env_line_push(s: Seq<char>, i: int)
    requires
        0 <= i < s.len(),
        closed_at_end(s),
    ensures
        env_line_at(s.push('\n'), i).is_some() == env_line_at(s, i).is_some(),
        env_line_at(s, i).is_some() ==> env_line_at(s.push('\n'), i).unwrap().0 == env_line_at(
            s,
            i,
        ).unwrap().0 && env_line_at(s.push('\n'), i).unwrap().1 == env_line_at(s, i).unwrap().1
            && i < env_line_at(s, i).unwrap().2 && same_place(
            s,
            env_line_at(s, i).unwrap().2,
            env_line_at(s.push('\n'), i).unwrap().2,
        ),
{
    let t = s.push('\n');
    lemma_run_end_push(s, i, CharClass::Hspace);
    lemma_run_end(s, i, CharClass::Hspace);
    let j = run_end(s, i, CharClass::Hspace);
    if j < s.len() {
        assert(t[j] == s[j]);
        if crate::text::is_alpha(s[j]) || s[j] == '_' {
            lemma_run_end_push(s, j + 1, CharClass::EnvName);
            lemma_run_end(s, j + 1, CharClass::EnvName);
            let k = run_end(s, j + 1, CharClass::EnvName);
            assert(run_end(t, j + 1, CharClass::EnvName) == k);
            if k < s.len() {
                assert(t[k] == s[k]);
                if s[k] == '=' {
                    lemma_env_value_push(s, k + 1);
                    let value = env_value_at(s, k + 1);
                    lemma_run_end_push(s, value.1, CharClass::Hspace);
                    lemma_run_end(s, value.1, CharClass::Hspace);
                    let q = run_end(s, value.1, CharClass::Hspace);
                    lemma_newline_len_push(s, q);
                    assert(t.subrange(j, k) =~= s.subrange(j, k));
                }
            } else {
                assert(t[k] == '\n');
            }
        }
    } else {
        assert(t[j] == '\n');
    }
}

proof fn lemma_process_line_push(s: Seq<char>, i: int)
    requires
        0 <= i < s.len(),
        closed_at_end(s),
    ensures
        match process_line_at(s, i) {
            Ok((tokens, command, n)) => i < n && (match process_line_at(s.push('\n'), i) {
                Ok((tokens2, command2, n2)) => tokens2 == tokens && command2 == command
                    && same_place(s, n, n2),
                Err(_) => false,
            }),
            Err((kind, pos)) => process_line_at(s.push('\n'), i) == Err::<
                (Seq<Seq<char>>, Seq<char>, int),
                (SyntaxErrorKind, int),
            >((kind, pos)) && 0 <= pos <= s.len(),
        },
{
    let t = s.push('\n');
    lemma_run_end_push(s, i, CharClass::Hspace);
    lemma_run_end(s, i, CharClass::Hspace);
    let j = run_end(s, i, CharClass::Hspace);
    assert(run_end(t, i, CharClass::Hspace) == j);
    lemma_tokens_from_push(s, j, Seq::empty());
    match declaration_tokens_at(s, j) {
        Err(e) => {
            assert(t[e] == s[e]);
            lemma_single_quoted_push(s, e);
            lemma_double_quoted_push(s, e);
        },
        Ok((tokens, c)) => {
            if c >= s.len() {
                assert(t[c] == '\n');
                assert(token_error_kind(t, c) == SyntaxErrorKind::MissingColon);
            } else if tokens.len() == 0 {
            } else {
                lemma_command_part_push(s, c + 1);
            }
        },
    }
}

proof fn lemma_newlines_before_push(s: Seq<char>, i: int)
    requires
        0 <= i <= s.len(),
    ensures
        newlines_before(s.push('\n'), i) == newlines_before(s, i),
        line_of(s.push('\n'), i) == line_of(s, i),
    decreases i,
{
    if i > 0 {
        lemma_newlines_before_push(s, i - 1);
        assert(s.push('\n')[i - 1] == s[i - 1]);
    }
}

proof fn lemma_items_tail(s: Seq<char>, acc: Seq<ItemModel>)
    ensures
        items_from(s.push('\n'), s.len() as int, acc) == Ok::<
            Seq<ItemModel>,
            (SyntaxErrorKind, int),
        >(acc),
        items_from(s.push('\n'), (s.len() + 1) as int, acc) == Ok::<
            Seq<ItemModel>,
            (SyntaxErrorKind, int),
        >(acc),
{
    let t = s.push('\n');
    let i = s.len() as int;
    assert(t[i] == '\n');
    assert(run_end(t, i, CharClass::Hspace) == i);
    assert(newline_len(t, i) == 1);
    assert(blank_line_at(t, i) == Some(i + 1));
}

proof fn lemma_items_from_push(s: Seq<char>, i: int, acc: Seq<ItemModel>)
    requires
        0 <= i <= s.len(),
        closed_at_end(s),
    ensures
        items_from(s.push('\n'), i, acc) == items_from(s, i, acc),
        match items_from(s, i, acc) {
            Ok(_) => true,
            Err((_, pos)) => 0 <= pos <= s.len(),
        },
    decreases s.len() - i,
{
    let t = s.push('\n');
    if i == s.len() {
        lemma_items_tail(s, acc);
    } else {
        lemma_blank_line_push(s, i);
        lemma_comment_line_push(s, i);
        lemma_env_line_push(s, i);
        lemma_process_line_push(s, i);
        lemma_newlines_before_push(s, i);
        if blank_line_at(s, i).is_some() {
            let n = blank_line_at(s, i).unwrap();
            let n2 = blank_line_at(t, i).unwrap();
            lemma_items_from_push(s, n, acc);
            lemma_items_tail(s, acc);
            assert(items_from(t, n2, acc) == items_from(s, n, acc));
        } else if comment_line_at(s, i).is_some() {
            let n = comment_line_at(s, i).unwrap();
            let n2 = comment_line_at(t, i).unwrap();
            lemma_items_from_push(s, n, acc);
            lemma_items_tail(s, acc);
            assert(items_from(t, n2, acc) == items_from(s, n, acc));
        } else if env_line_at(s, i).is_some() {
            let e = env_line_at(s, i).unwrap();
            let e2 = env_line_at(t, i).unwrap();
            let acc2 = acc.push(ItemModel::GlobalEnv { key: e.0, value: e.1 });
            lemma_items_from_push(s, e.2, acc2);
            lemma_items_tail(s, acc2);
            assert(items_from(t, e2.2, acc2) == items_from(s, e.2, acc2));
        } else {
            match process_line_at(s, i) {
                Err(_) => {},
                Ok((tokens, command, n)) => {
                    let acc2 = acc.push(
                        ItemModel::Process { tokens, command, line: line_of(s, i) },
                    );
                    lemma_items_from_push(s, n, acc2);
                    lemma_items_tail(s, acc2);
                    match process_line_at(t, i) {
                        Ok((tokens2, command2, n2)) => {
                            assert(items_from(t, n2, acc2) == items_from(s, n, acc2));
                        },
                        Err(_) => {},
                    }
                },
            }
        }
    }
}

/// A line feed at the end changes nothing: a manifest that does not end in a
/// backslash or a carriage return declares the same environment and the same
/// processes, or has the same error on the same line, with and without a
/// line feed added at its end.
pub proof fn lemma_trailing_newline(s: Seq<char>)
    requires
        closed_at_end(s),
    ensures
        items_of(s.push('\n')) == items_of(s),
        lowered(s.push('\n')) == lowered(s),
{
    lemma_items_from_push(s, 0, Seq::empty());
    match items_of(s) {
        Ok(_) => {},
        Err((_, pos)) => {
            lemma_newlines_before_push(s, pos);
        },
    }
}

/// Blank lines and comments between items add nothing: where a blank line or
/// a comment stands at `i` and the next line starts at `n`, the items from
/// `i` on are the items from `n` on.
pub proof fn lemma_blank_separator(s: Seq<char>, i: int, acc: Seq<ItemModel>)
    requires
        0 <= i < s.len(),
    ensures
        blank_line_at(s, i).is_some() && i < blank_line_at(s, i).unwrap() <= s.len()
            ==> items_from(s, i, acc) == items_from(s, blank_line_at(s, i).unwrap(), acc),
        blank_line_at(s, i).is_none() && comment_line_at(s, i).is_some() && i < comment_line_at(
            s,
            i,
        ).unwrap() <= s.len() ==> items_from(s, i, acc) == items_from(
            s,
            comment_line_at(s, i).unwrap(),
            acc,
        ),
{
}

} // verus!
