//! Trimming of white space and searching for a character.

use vstd::prelude::*;
use crate::parser::tokenizer::{run_end, scan_run, CharClass};
use crate::text::{char_is_space, copy_range, is_space};

verus! {

/// The number of white-space characters that `s` ends with.
pub open spec fn trailing_space(s: Seq<char>) -> int
    decreases s.len(),
{
    if s.len() > 0 && is_space(s.last()) {
        trailing_space(s.drop_last()) + 1
    } else {
        0
    }
}

/// `s` without the white space at its start and at its end.
pub open spec fn trimmed(s: Seq<char>) -> Seq<char> {
    let a = run_end(s, 0, CharClass::Space);
    let b = s.len() - trailing_space(s);
    if a < b {
        s.subrange(a, b)
    } else {
        Seq::empty()
    }
}

/// Trims white space at both ends.
pub fn trim(s: &Vec<char>) -> (r: Vec<char>)
    ensures
        r@ == trimmed(s@),
{
    let a = scan_run(s, 0, CharClass::Space);
    let mut b: usize = s.len();
    assert(s@.subrange(0, b as int) =~= s@);
    while b > 0 && char_is_space(s[b - 1])
        invariant
            b <= s@.len(),
            trailing_space(s@) == trailing_space(s@.subrange(0, b as int)) + (s@.len() - b),
        decreases b,
    {
        assert(s@.subrange(0, b as int).drop_last() =~= s@.subrange(0, b - 1));
        b -= 1;
    }
    if a < b {
        copy_range(s, a, b)
    } else {
        let empty: Vec<char> = Vec::new();
        assert(empty@ =~= Seq::empty());
        empty
    }
}

/// The index of the last `c` in `s`, or -1 where there is none.
pub open spec fn last_index_of(s: Seq<char>, c: char) -> int
    decreases s.len(),
{
    if s.len() == 0 {
        -1
    } else if s.last() == c {
        s.len() - 1
    } else {
        last_index_of(s.drop_last(), c)
    }
}

/// Finds the last `c` in `s`.
pub fn rfind(s: &Vec<char>, c: char) -> (r: Option<usize>)
    ensures
        match r {
            Some(i) => last_index_of(s@, c) == i && i < s@.len() && s@[i as int] == c,
            None => last_index_of(s@, c) == -1,
        },
{
    let mut b: usize = s.len();
    assert(s@.subrange(0, b as int) =~= s@);
    while b > 0
        invariant
            b <= s@.len(),
            last_index_of(s@, c) == last_index_of(s@.subrange(0, b as int), c),
        decreases b,
    {
        if s[b - 1] == c {
            return Some(b - 1);
        }
        assert(s@.subrange(0, b as int).drop_last() =~= s@.subrange(0, b - 1));
        b -= 1;
    }
    None
}

} // verus!
