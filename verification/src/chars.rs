//! Reading characters: the classes of the pattern language, runs of one
//! class, and comparison of text.

use crate::grammar::{in_class, is_reserved, opens_capture, run_end, CharClass};
use vstd::prelude::*;

verus! {

/// The characters of a string, one by one.
pub(crate) fn to_chars(text: &str) -> (chars: Vec<char>)
    ensures
        chars@ == text@,
{
    let mut chars: Vec<char> = Vec::new();
    for c in it: text.chars()
        invariant
            chars@ == it.seq().take(it.index() as int),
            it.seq() == text@,
    {
        chars.push(c);
    }
    chars
}

/// Tests whether the character is reserved.
pub(crate) fn reserved(c: char) -> (r: bool)
    ensures
        r == is_reserved(c),
{
    c == '/' || c == ':' || c == '*' || c == '{' || c == '}' || c == '?' || c == '&' || c == '='
        || c == '#' || c == '!'
}

/// Tests whether the character opens a capture.
pub(crate) fn capture_opener(c: char) -> (r: bool)
    ensures
        r == opens_capture(c),
{
    c == ':' || c == '*' || c == '{'
}

/// Tests whether the character is of the class.
pub(crate) fn member(class: CharClass, c: char) -> (r: bool)
    ensures
        r == in_class(class, c),
{
    match class {
        CharClass::Literal => !reserved(c),
        CharClass::Name => ('a' <= c && c <= 'z') || ('A' <= c && c <= 'Z') || ('0' <= c && c
            <= '9') || c == '_',
        CharClass::Digit => '0' <= c && c <= '9',
    }
}

/// Finds where the longest run of characters of `class` from `pos` on ends.
pub(crate) fn scan_run(chars: &[char], pos: usize, class: CharClass) -> (end: usize)
    requires
        pos <= chars.len(),
    ensures
        end == run_end(chars@, pos as int, class),
        pos <= end <= chars.len(),
{
    let mut end: usize = pos;
    while end < chars.len() && member(class, chars[end])
        invariant
            pos <= end <= chars.len(),
            run_end(chars@, pos as int, class) == run_end(chars@, end as int, class),
        decreases chars.len() - end,
    {
        end += 1;
    }
    end
}

/// Whether `text` continues with `literal` at `pos`.
pub open spec fn continues_with(text: Seq<char>, pos: int, literal: Seq<char>) -> bool {
    0 <= pos && pos + literal.len() <= text.len() && text.subrange(pos, pos + literal.len())
        == literal
}

} // verus!
