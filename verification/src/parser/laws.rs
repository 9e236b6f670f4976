//! What holds of the tokenizer and of the messages of validation, for every
//! input.

use vstd::prelude::*;
use crate::parser::tokenizer::{at_embedded_colon, at_separator, double_quoted_at, double_quoted_from, escape_of, in_class, is_bare, is_run_end, lemma_run_end_unique, run_end, single_quoted_at, token_at, token_from, token_part_at, CharClass};
use crate::parser::validate::{arrow_joined, cycle_message};

verus! {

/// A bare word tokenises as itself: a text that is not empty and holds only
/// characters of bare words is one token, read to its end.
pub proof fn lemma_bare_word_is_one_token(w: Seq<char>)
    requires
        w.len() > 0,
        forall|i: int| 0 <= i < w.len() ==> is_bare(#[trigger] w[i]),
    ensures
        token_at(w, 0) == (w, w.len() as int),
{
    assert(is_bare(w[0]));
    assert(is_run_end(w, 0, CharClass::Bare, w.len() as int)) by {
        assert forall|x: int| 0 <= x < w.len() implies in_class(CharClass::Bare, #[trigger] w[x]) by {
            assert(is_bare(w[x]));
        }
    }
    lemma_run_end_unique(w, 0, CharClass::Bare, w.len() as int);
    assert(single_quoted_at(w, 0).is_none());
    assert(double_quoted_at(w, 0).is_none());
    assert(w.subrange(0, w.len() as int) =~= w);
    assert(token_part_at(w, 0) == Some((w, w.len() as int)));
    assert(!at_embedded_colon(w, w.len() as int));
    assert(Seq::<char>::empty() + w =~= w);
}

/// `content` between single quotes.
pub open spec fn single_quoted_text(content: Seq<char>) -> Seq<char> {
    seq!['\''] + content + seq!['\'']
}

/// A single-quoted string tokenises to its content: whatever stands between
/// the quotes, as long as it holds no single quote, is read unchanged.
pub proof fn lemma_single_quoted_gives_content(content: Seq<char>)
    requires
        forall|i: int| 0 <= i < content.len() ==> #[trigger] content[i] != '\'',
    ensures
        single_quoted_at(single_quoted_text(content), 0) == Some(
            (content, (content.len() + 2) as int),
        ),
        content.len() > 0 ==> token_at(single_quoted_text(content), 0) == (
            content,
            (content.len() + 2) as int,
        ),
{
    let s = single_quoted_text(content);
    let end: int = (content.len() + 1) as int;
    assert(s.len() == content.len() + 2);
    assert(s[0] == '\'');
    assert(s[end] == '\'');
    assert(is_run_end(s, 1, CharClass::NotQuote, end)) by {
        assert forall|x: int| 1 <= x < end implies in_class(
            CharClass::NotQuote,
            #[trigger] s[x],
        ) by {
            assert(s[x] == content[x - 1]);
        }
    }
    lemma_run_end_unique(s, 1, CharClass::NotQuote, end);
    assert(s.subrange(1, end) =~= content);
    assert(!at_embedded_colon(s, s.len() as int));
    assert(Seq::<char>::empty() + content =~= content);
}

/// How a character is written between double quotes: a backslash and a
/// letter for the backslash, the double quote, the line feed, the tab and the
/// carriage return; itself otherwise.
pub open spec fn escaped_form(c: char) -> Seq<char> {
    if c == '\\' {
        seq!['\\', '\\']
    } else if c == '"' {
        seq!['\\', '"']
    } else if c == '\n' {
        seq!['\\', 'n']
    } else if c == '\t' {
        seq!['\\', 't']
    } else if c == '\r' {
        seq!['\\', 'r']
    } else {
        seq![c]
    }
}

/// `content` as it is written between double quotes.
pub open spec fn escaped_text(content: Seq<char>) -> Seq<char>
    decreases content.len(),
{
    if content.len() == 0 {
        Seq::empty()
    } else {
        escaped_form(content[0]) + escaped_text(content.skip(1))
    }
}

/// `content` written as a double-quoted string.
pub open spec fn double_quoted_text(content: Seq<char>) -> Seq<char> {
    seq!['"'] + escaped_text(content) + seq!['"']
}

proof fn lemma_double_quoted_from(head: Seq<char>, content: Seq<char>, acc: Seq<char>)
    ensures
        double_quoted_from(
            head + escaped_text(content) + seq!['"'],
            head.len() as int,
            acc,
        ) == Some(
            (acc + content, (head.len() + escaped_text(content).len() + 1) as int),
        ),
    decreases content.len(),
{
    let s = head + escaped_text(content) + seq!['"'];
    let i = head.len() as int;
    if content.len() == 0 {
        assert(s[i] == '"');
        assert(acc + content =~= acc);
    } else {
        let c = content[0];
        let form = escaped_form(c);
        let rest = content.skip(1);
        let head2 = head + form;
        assert(escaped_text(content) == form + escaped_text(rest));
        assert(head2 + escaped_text(rest) + seq!['"'] =~= s);
        lemma_double_quoted_from(head2, rest, acc.push(c));
        assert(acc.push(c) + rest =~= acc + content);
        assert(s[i] == form[0]);
        if form.len() == 2 {
            assert(s[i + 1] == form[1]);
            assert(escape_of(s[i + 1]) == Some(c));
        }
    }
}

/// A double-quoted string tokenises to its logical content: what was written
/// with escapes between the quotes is read back as it was.
pub proof fn lemma_double_quoted_gives_content(content: Seq<char>)
    ensures
        double_quoted_at(double_quoted_text(content), 0) == Some(
            (content, double_quoted_text(content).len() as int),
        ),
{
    let s = double_quoted_text(content);
    lemma_double_quoted_from(seq!['"'], content, Seq::empty());
    assert(s[0] == '"');
    assert(Seq::<char>::empty() + content =~= content);
}

/// Whether `c` after a colon makes the colon a separator.
pub open spec fn ends_declaration(c: char) -> bool {
    c == ' ' || c == '\t' || c == '\n' || c == '\r'
}

/// The rule of the embedded colon. A colon followed by anything but a space,
/// a tab or a line break is never a separator: it belongs to the token, which
/// goes on behind it. A colon at the end of the input, or followed by a
/// space, a tab or a line break, always is one.
pub proof fn lemma_embedded_colon_rule(s: Seq<char>, i: int, acc: Seq<char>)
    requires
        0 <= i < s.len(),
        s[i] == ':',
    ensures
        (i + 1 < s.len() && !ends_declaration(s[i + 1])) ==> !at_separator(s, i)
            && at_embedded_colon(s, i) && token_from(s, i, acc) == token_from(
            s,
            i + 1,
            acc.push(':'),
        ),
        (i + 1 == s.len() || ends_declaration(s[i + 1])) ==> at_separator(s, i)
            && !at_embedded_colon(s, i) && token_from(s, i, acc) == (acc, i),
{
    assert(single_quoted_at(s, i).is_none());
    assert(double_quoted_at(s, i).is_none());
    assert(!in_class(CharClass::Bare, s[i]));
    assert(run_end(s, i, CharClass::Bare) == i);
    assert(token_part_at(s, i).is_none());
}

/// Whether `needle` stands somewhere in `hay`.
pub open spec fn occurs_in(needle: Seq<char>, hay: Seq<char>) -> bool {
    exists|at: int|
        0 <= at && at + needle.len() <= hay.len() && #[trigger] hay.subrange(
            at,
            at + needle.len(),
        ) == needle
}

proof fn lemma_joined_mentions(names: Seq<Seq<char>>, path: Seq<usize>, n: int, k: int)
    requires
        0 <= k < n <= path.len(),
    ensures
        occurs_in(names[path[k] as int], arrow_joined(names, path, n)),
    decreases n,
{
    let whole = arrow_joined(names, path, n);
    let name = names[path[k] as int];
    if n == 1 {
        assert(whole.subrange(0, 0 + name.len() as int) =~= name);
    } else if k == n - 1 {
        let at = whole.len() - name.len();
        assert(whole.subrange(at, at + name.len()) =~= name);
    } else {
        lemma_joined_mentions(names, path, n - 1, k);
        let before = arrow_joined(names, path, n - 1);
        let at = choose|at: int|
            0 <= at && at + name.len() <= before.len() && #[trigger] before.subrange(
                at,
                at + name.len(),
            ) == name;
        assert(whole.subrange(at, at + name.len()) =~= before.subrange(at, at + name.len()));
    }
}

/// The message that reports a cycle names every participant of the cycle.
pub proof fn lemma_cycle_message_names_participants(
    names: Seq<Seq<char>>,
    path: Seq<usize>,
    k: int,
)
    requires
        0 <= k < path.len(),
    ensures
        occurs_in(names[path[k] as int], cycle_message(names, path)),
{
    lemma_joined_mentions(names, path, path.len() as int, k);
    let joined = arrow_joined(names, path, path.len() as int);
    let name = names[path[k] as int];
    let at = choose|at: int|
        0 <= at && at + name.len() <= joined.len() && #[trigger] joined.subrange(
            at,
            at + name.len(),
        ) == name;
    let head = "circular dependency: "@;
    let whole = cycle_message(names, path);
    assert(whole.subrange(head.len() + at, head.len() + at + name.len()) =~= joined.subrange(
        at,
        at + name.len(),
    ));
}

} // verus!
