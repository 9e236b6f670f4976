//! The declaration of a process: its name, its watch patterns and its
//! options.

use vstd::prelude::*;
use crate::parser::ast::{
    default_options, patterns_view, GlobPattern, OptionsModel, PatternModel, ProcessDef,
    ProcessModel, ProcessOptions,
};
use crate::parser::ast::names_view;
use crate::parser::options::{apply_option, error_model, error_with, option_applied, ErrorModel, ParseError};

use crate::text::{append_chars, char_is_alnum, chars_of, copy_range, is_alnum, spells, string_of};

verus! {

/// A character of a process name: an ASCII letter or digit, `_` or `-`.
pub open spec fn is_name_char(c: char) -> bool {
    is_alnum(c) || c == '_' || c == '-'
}

/// Whether `n` is a process name: not empty, and made of name characters.
pub open spec fn valid_name(n: Seq<char>) -> bool {
    n.len() > 0 && forall|i: int| 0 <= i < n.len() ==> is_name_char(#[trigger] n[i])
}

/// Whether `name` can name a process.
pub fn is_valid_name(name: &str) -> (r: bool)
    ensures
        r == valid_name(name@),
{
    let v = chars_of(name);
    if v.len() == 0 {
        return false;
    }
    let mut i: usize = 0;
    while i < v.len()
        invariant
            i <= v@.len(),
            v@ == name@,
            forall|k: int| 0 <= k < i ==> is_name_char(#[trigger] v@[k]),
        decreases v@.len() - i,
    {
        let c = v[i];
        if !(char_is_alnum(c) || c == '_' || c == '-') {
            return false;
        }
        i += 1;
    }
    true
}

/// The name that the first token `t` declares: `t` without a `!` at its end.
pub open spec fn declared_name(t: Seq<char>) -> Seq<char> {
    if t.len() > 0 && t.last() == '!' {
        t.drop_last()
    } else {
        t
    }
}

/// Whether the first token `t` declares a one-shot process: it ends in `!`.
pub open spec fn declared_oneshot(t: Seq<char>) -> bool {
    t.len() > 0 && t.last() == '!'
}

/// The pattern that the token `t` writes; a `!` at its start marks an
/// exclusion.
pub open spec fn pattern_of(t: Seq<char>) -> PatternModel {
    if t.len() > 0 && t[0] == '!' {
        PatternModel { pattern: t.skip(1), exclude: true }
    } else {
        PatternModel { pattern: t, exclude: false }
    }
}

/// Whether an option starts at token `i`: a key, a `=` and a value.
pub open spec fn option_at(tokens: Seq<Seq<char>>, i: int) -> bool {
    0 <= i && i + 2 < tokens.len() && tokens[i + 1] == seq!['=']
}

/// Whether the option at token `i` is `ready` with a second `=` and a value
/// after it, which then belong to the probe.
pub open spec fn ready_extended_at(tokens: Seq<Seq<char>>, i: int) -> bool {
    option_at(tokens, i) && tokens[i] == "ready"@ && i + 4 < tokens.len() && tokens[i + 3]
        == seq!['=']
}

/// The value of the option at token `i`.
pub open spec fn option_value_at(tokens: Seq<Seq<char>>, i: int) -> Seq<char> {
    if ready_extended_at(tokens, i) {
        tokens[i + 2].push('=') + tokens[i + 4]
    } else {
        tokens[i + 2]
    }
}

/// The options and patterns that the tokens from `i` on add to `o` and
/// `pats`, or the first error among them.
pub open spec fn walk_from(
    tokens: Seq<Seq<char>>,
    i: int,
    o: OptionsModel,
    pats: Seq<PatternModel>,
    line: int,
) -> Result<(OptionsModel, Seq<PatternModel>), ErrorModel>
    decreases tokens.len() - i,
{
    if i < 0 || i >= tokens.len() {
        Ok((o, pats))
    } else if option_at(tokens, i) {
        let next = if ready_extended_at(tokens, i) {
            i + 5
        } else {
            i + 3
        };
        match option_applied(o, tokens[i], option_value_at(tokens, i), line) {
            Err(e) => Err(e),
            Ok(o2) => walk_from(tokens, next, o2, pats, line),
        }
    } else {
        walk_from(tokens, i + 1, o, pats.push(pattern_of(tokens[i])), line)
    }
}

/// The process that a line declares, or the error that refuses it. The first
/// token is the name, with `!` for a one-shot; the others are options and
/// watch patterns; the command must not be empty; a one-shot has no probe.
pub open spec fn declaration_of(tokens: Seq<Seq<char>>, command: Seq<char>, line: int) -> Result<
    ProcessModel,
    ErrorModel,
> {
    if tokens.len() == 0 {
        Err(error_model(line, "missing process name"@, Seq::empty()))
    } else if !valid_name(declared_name(tokens[0])) {
        Err(error_model(line, "invalid process name: "@, declared_name(tokens[0])))
    } else {
        match walk_from(tokens, 1, default_options(), Seq::empty(), line) {
            Err(e) => Err(e),
            Ok((o, pats)) => {
                if command.len() == 0 {
                    Err(error_model(line, "missing command"@, Seq::empty()))
                } else if declared_oneshot(tokens[0]) && o.ready.is_some() {
                    Err(
                        error_model(
                            line,
                            "one-shot processes cannot have a ready probe (they become ready on exit)"@,
                            Seq::empty(),
                        ),
                    )
                } else {
                    Ok(
                        ProcessModel {
                            name: declared_name(tokens[0]),
                            watch_patterns: pats,
                            options: o,
                            command,
                            oneshot: declared_oneshot(tokens[0]),
                        },
                    )
                }
            },
        }
    }
}

/// Whether the token is a lone `=`.
fn is_equals(t: &String) -> (r: bool)
    ensures
        r == (t@ == seq!['=']),
{
    let v = chars_of(t.as_str());
    let r = v.len() == 1 && v[0] == '=';
    if r {
        assert(v@ =~= seq!['=']);
    }
    r
}

/// Builds a process from the tokens of its declaration and its command.
pub fn parse_declaration(decl_tokens: &Vec<String>, command: &str, line: usize) -> (r: Result<
    ProcessDef,
    ParseError,
>)
    ensures
        match r {
            Ok(p) => declaration_of(names_view(decl_tokens@), command@, line as int) == Ok::<
                ProcessModel,
                ErrorModel,
            >(p@),
            Err(e) => declaration_of(names_view(decl_tokens@), command@, line as int) == Err::<
                ProcessModel,
                ErrorModel,
            >(e@),
        },
{
    let ghost tokens = names_view(decl_tokens@);
    let none: Vec<char> = Vec::new();
    assert(none@ =~= Seq::empty());
    if decl_tokens.len() == 0 {
        return Err(error_with(line, "missing process name", &none));
    }
    let raw = chars_of(decl_tokens[0].as_str());
    assert(raw@ == tokens[0]);
    let oneshot = raw.len() > 0 && raw[raw.len() - 1] == '!';
    let name_chars = if oneshot {
        let n = copy_range(&raw, 0, raw.len() - 1);
        assert(n@ =~= raw@.drop_last());
        n
    } else {
        raw
    };
    let name = string_of(&name_chars);
    if !is_valid_name(name.as_str()) {
        return Err(error_with(line, "invalid process name: ", &name_chars));
    }
    let mut watch_patterns: Vec<GlobPattern> = Vec::new();
    let mut options = ProcessOptions::default();
    let mut i: usize = 1;
    assert(patterns_view(watch_patterns@) =~= Seq::empty());
    while i < decl_tokens.len()
        invariant
            1 <= i,
            tokens == names_view(decl_tokens@),
            tokens.len() > 0,
            valid_name(declared_name(tokens[0])),
            walk_from(tokens, 1, default_options(), Seq::empty(), line as int) == walk_from(
                tokens,
                i as int,
                options@,
                patterns_view(watch_patterns@),
                line as int,
            ),
        decreases decl_tokens@.len() - i,
    {
        let n = decl_tokens.len();
        assert(tokens.len() == n);
        if n - i > 2 && is_equals(&decl_tokens[i + 1]) {
            assert(tokens[i + 1] == decl_tokens@[i + 1]@);
            assert(option_at(tokens, i as int));
            let key = &decl_tokens[i];
            assert(tokens[i as int] == key@);
            let key_chars = chars_of(key.as_str());
            let extended = spells(&key_chars, "ready") && n - i > 4 && is_equals(
                &decl_tokens[i + 3],
            );
            assert(tokens[i + 2] == decl_tokens@[i + 2]@);
            let value: String = if extended {
                assert(tokens[i + 3] == decl_tokens@[i + 3]@);
                assert(tokens[i + 4] == decl_tokens@[i + 4]@);
                let mut v = chars_of(decl_tokens[i + 2].as_str());
                v.push('=');
                let tail = chars_of(decl_tokens[i + 4].as_str());
                append_chars(&mut v, &tail);
                string_of(&v)
            } else {
                if n - i > 4 {
                    assert(tokens[i + 3] == decl_tokens@[i + 3]@);
                }
                decl_tokens[i + 2].clone()
            };
            assert(extended == ready_extended_at(tokens, i as int));
            assert(value@ == option_value_at(tokens, i as int));
            match apply_option(&mut options, key.as_str(), value.as_str(), line) {
                Ok(_) => {},
                Err(e) => {
                    return Err(e);
                },
            }
            if extended {
                i += 5;
            } else {
                i += 3;
            }
        } else {
            if n - i > 2 {
                assert(tokens[i + 1] == decl_tokens@[i + 1]@);
            }
            assert(!option_at(tokens, i as int));
            let t = chars_of(decl_tokens[i].as_str());
            assert(tokens[i as int] == t@);
            let ghost before = patterns_view(watch_patterns@);
            let pattern = if t.len() > 0 && t[0] == '!' {
                let p = copy_range(&t, 1, t.len());
                assert(p@ =~= t@.skip(1));
                GlobPattern { pattern: string_of(&p), exclude: true }
            } else {
                GlobPattern { pattern: string_of(&t), exclude: false }
            };
            assert(pattern@ == pattern_of(tokens[i as int]));
            watch_patterns.push(pattern);
            assert(patterns_view(watch_patterns@) =~= before.push(pattern_of(tokens[i as int])));
            i += 1;
        }
    }
    let command_chars = chars_of(command);
    if command_chars.len() == 0 {
        return Err(error_with(line, "missing command", &none));
    }
    if oneshot && options.ready.is_some() {
        return Err(
            error_with(
                line,
                "one-shot processes cannot have a ready probe (they become ready on exit)",
                &none,
            ),
        );
    }
    Ok(
        ProcessDef {
            name,
            watch_patterns,
            options,
            command: string_of(&command_chars),
            oneshot,
        },
    )
}

} // verus!
