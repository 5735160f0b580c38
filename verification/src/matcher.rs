//! Matching an input against a compiled pattern.
//!
//! The input is read from left to right, one compiled token at a time, and
//! nothing is tried twice: once a capture has taken its text, a later
//! mismatch fails the whole match.
//!
//! A segment is a run of characters up to the next delimiter of the dialect
//! (`/` in a path, `&` in a query, none in a fragment) or to the end of the
//! input. A capture of one segment, or of a fixed number of them, takes whole
//! segments that are not empty, with the delimiters between them; its text is
//! what it took. A greedy capture takes as much as the token behind it
//! allows: everything that is left where nothing or the end marker follows,
//! and everything up to the last place where the literal behind it still
//! matches. A greedy capture with another capture behind it has no such bound,
//! and matches nothing.

use crate::captures::Captures;
use crate::chars::{continues_with, to_chars};
use crate::grammar::{delimiter, parse_spec};
use crate::laws::lemma_compiled_pattern_is_well_formed;
use crate::optimizer::{optimized, parse_str_and_optimize_tokens, well_formed};
use crate::parser::PrettyParseError;
use crate::token::{CaptureSpec, CaptureVariant, FieldType, MatcherToken, TokenSpec};
use vstd::prelude::*;
use vstd::string::StrSliceExecFns;

verus! {

/// Where the segment that starts at `pos` ends.
pub open spec fn segment_end(input: Seq<char>, pos: int, delimiter: Option<char>) -> int
    decreases input.len() - pos,
{
    if pos < 0 || pos >= input.len() || delimiter == Some(input[pos]) {
        pos
    } else {
        segment_end(input, pos + 1, delimiter)
    }
}

/// Where `sections` segments in a row end that start at `pos`, none of them
/// empty; `None` where the input holds fewer.
pub open spec fn sections_end(
    input: Seq<char>,
    pos: int,
    sections: nat,
    delimiter: Option<char>,
) -> Option<int>
    decreases sections,
{
    let end = segment_end(input, pos, delimiter);
    if sections == 0 {
        Some(pos)
    } else if end == pos {
        None
    } else if sections == 1 {
        Some(end)
    } else if end < input.len() {
        sections_end(input, end + 1, (sections - 1) as nat, delimiter)
    } else {
        None
    }
}

/// The last place from `pos` on, at or before `from`, where the input
/// continues with `literal`.
pub open spec fn last_match_before(input: Seq<char>, pos: int, literal: Seq<char>, from: int)
    -> Option<int>
    decreases from - pos + 1,
{
    if from < pos {
        None
    } else if continues_with(input, from, literal) {
        Some(from)
    } else {
        last_match_before(input, pos, literal, from - 1)
    }
}

/// The last place from `pos` on where the input continues with `literal`.
pub open spec fn last_match(input: Seq<char>, pos: int, literal: Seq<char>) -> Option<int> {
    last_match_before(input, pos, literal, input.len() as int)
}

/// Where the text ends that `capture` takes from `pos` on, with `next` the
/// token behind the capture; `None` where the capture does not match.
pub open spec fn capture_end(
    capture: CaptureSpec,
    next: Option<TokenSpec>,
    input: Seq<char>,
    pos: int,
    delimiter: Option<char>,
) -> Option<int> {
    match capture {
        CaptureSpec::Unnamed | CaptureSpec::Named(_) => sections_end(input, pos, 1, delimiter),
        CaptureSpec::NumberedUnnamed { sections } | CaptureSpec::NumberedNamed { sections, .. } =>
            sections_end(input, pos, sections, delimiter),
        CaptureSpec::ManyUnnamed | CaptureSpec::ManyNamed(_) => match next {
            None => Some(input.len() as int),
            Some(TokenSpec::End) => Some(input.len() as int),
            Some(TokenSpec::Exact(literal)) => last_match(input, pos, literal),
            Some(TokenSpec::Capture(_)) => None,
        },
    }
}

/// The token behind the one at `at`, if there is one.
pub open spec fn token_after(tokens: Seq<TokenSpec>, at: int) -> Option<TokenSpec> {
    if 0 <= at + 1 < tokens.len() {
        Some(tokens[at + 1])
    } else {
        None
    }
}

/// The mapping once `capture` has taken `text`: a named capture binds its
/// name, and replaces what the name was bound to.
pub open spec fn bound(
    captured: Map<Seq<char>, Seq<char>>,
    capture: CaptureSpec,
    text: Seq<char>,
) -> Map<Seq<char>, Seq<char>> {
    match capture.name() {
        Some(name) => captured.insert(name, text),
        None => captured,
    }
}

/// What matching yields from the token at `at` and the position `pos` on,
/// with `captured` what was bound before: the final mapping, or `None` for a
/// mismatch.
pub open spec fn matched_from(
    tokens: Seq<TokenSpec>,
    at: int,
    input: Seq<char>,
    pos: int,
    delimiter: Option<char>,
    captured: Map<Seq<char>, Seq<char>>,
) -> Option<Map<Seq<char>, Seq<char>>>
    decreases tokens.len() - at,
{
    if at < 0 || at >= tokens.len() {
        Some(captured)
    } else {
        match tokens[at] {
            TokenSpec::Exact(literal) => if continues_with(input, pos, literal) {
                matched_from(tokens, at + 1, input, pos + literal.len(), delimiter, captured)
            } else {
                None
            },
            TokenSpec::End => if pos == input.len() {
                matched_from(tokens, at + 1, input, pos, delimiter, captured)
            } else {
                None
            },
            TokenSpec::Capture(capture) => match capture_end(
                capture,
                token_after(tokens, at),
                input,
                pos,
                delimiter,
            ) {
                Some(end) => matched_from(
                    tokens,
                    at + 1,
                    input,
                    end,
                    delimiter,
                    bound(captured, capture, input.subrange(pos, end)),
                ),
                None => None,
            },
        }
    }
}

/// What matching `input` against compiled tokens of the given dialect
/// yields: the mapping of all named captures, or `None` for a mismatch.
pub open spec fn matched(tokens: Seq<TokenSpec>, field_type: FieldType, input: Seq<char>)
    -> Option<Map<Seq<char>, Seq<char>>> {
    matched_from(tokens, 0, input, 0, delimiter(field_type), Map::empty())
}

/// A segment ends at or behind its start and inside the input, at a delimiter
/// or at the end, and holds no delimiter.
pub proof fn lemma_segment_end(input: Seq<char>, pos: int, delimiter: Option<char>)
    requires
        0 <= pos <= input.len(),
    ensures
        pos <= segment_end(input, pos, delimiter) <= input.len(),
        segment_end(input, pos, delimiter) < input.len() ==> delimiter == Some(
            input[segment_end(input, pos, delimiter)],
        ),
        forall|i: int|
            pos <= i < segment_end(input, pos, delimiter) ==> delimiter != Some(#[trigger] input[i]),
    decreases input.len() - pos,
{
    if pos < input.len() && delimiter != Some(input[pos]) {
        lemma_segment_end(input, pos + 1, delimiter);
    }
}

/// The last match is a match, and no later place is one.
pub proof fn lemma_last_match_before(input: Seq<char>, pos: int, literal: Seq<char>, from: int)
    requires
        0 <= pos,
    ensures
        match last_match_before(input, pos, literal, from) {
            Some(place) => pos <= place <= from && continues_with(input, place, literal)
                && forall|later: int|
                place < later <= from ==> !continues_with(input, later, literal),
            None => forall|place: int|
                pos <= place <= from ==> !continues_with(input, place, literal),
        },
    decreases from - pos + 1,
{
    if from >= pos && !continues_with(input, from, literal) {
        lemma_last_match_before(input, pos, literal, from - 1);
    }
}

/// Tests whether `text` continues with `literal` at `pos`.
fn continues(text: &[char], pos: usize, literal: &str) -> (r: bool)
    requires
        pos <= text.len(),
    ensures
        r == continues_with(text@, pos as int, literal@),
{
    let mut at: usize = pos;
    for c in it: literal.chars()
        invariant
            it.seq() == literal@,
            at == pos + it.index(),
            at <= text.len(),
            forall|j: int| 0 <= j < it.index() ==> text[pos + j] == literal@[j],
    {
        if at >= text.len() {
            return false;
        }
        if text[at] != c {
            assert(pos + literal@.len() <= text.len() ==> text@.subrange(
                pos as int,
                pos + literal@.len(),
            )[at - pos] != literal@[at - pos]);
            return false;
        }
        at += 1;
    }
    assert(text@.subrange(pos as int, pos + literal@.len()) =~= literal@);
    true
}

/// Finds where the segment that starts at `pos` ends.
fn find_segment_end(text: &[char], pos: usize, separator: Option<char>) -> (end: usize)
    requires
        pos <= text.len(),
    ensures
        end == segment_end(text@, pos as int, separator),
        pos <= end <= text.len(),
{
    let mut end: usize = pos;
    while end < text.len() && !is_separator(separator, text[end])
        invariant
            pos <= end <= text.len(),
            segment_end(text@, pos as int, separator) == segment_end(text@, end as int, separator),
        decreases text.len() - end,
    {
        end += 1;
    }
    end
}

/// Tests whether the character is the delimiter.
fn is_separator(separator: Option<char>, c: char) -> (r: bool)
    ensures
        r == (separator == Some(c)),
{
    match separator {
        Some(s) => s == c,
        None => false,
    }
}

/// Finds where `sections` segments in a row end that start at `pos`.
fn find_sections_end(text: &[char], pos: usize, sections: usize, separator: Option<char>) -> (end:
    Option<usize>)
    requires
        pos <= text.len(),
    ensures
        match end {
            Some(end) => sections_end(text@, pos as int, sections as nat, separator) == Some(
                end as int,
            ) && pos <= end <= text.len(),
            None => sections_end(text@, pos as int, sections as nat, separator) is None,
        },
{
    if sections == 0 {
        return Some(pos);
    }
    let mut start: usize = pos;
    let mut left: usize = sections;
    loop
        invariant
            pos <= start <= text.len(),
            1 <= left <= sections,
            sections_end(text@, pos as int, sections as nat, separator) == sections_end(
                text@,
                start as int,
                left as nat,
                separator,
            ),
        decreases left,
    {
        let end = find_segment_end(text, start, separator);
        if end == start {
            return None;
        }
        if left == 1 {
            return Some(end);
        }
        if end >= text.len() {
            return None;
        }
        start = end + 1;
        left -= 1;
    }
}

/// Finds the last place from `pos` on where `text` continues with `literal`.
fn find_last_match(text: &[char], pos: usize, literal: &str) -> (place: Option<usize>)
    requires
        pos <= text.len(),
    ensures
        match place {
            Some(place) => last_match(text@, pos as int, literal@) == Some(place as int) && pos
                <= place <= text.len(),
            None => last_match(text@, pos as int, literal@) is None,
        },
{
    let mut from: usize = text.len();
    loop
        invariant
            pos <= from <= text.len(),
            last_match(text@, pos as int, literal@) == last_match_before(
                text@,
                pos as int,
                literal@,
                from as int,
            ),
        decreases from - pos,
    {
        if continues(text, from, literal) {
            return Some(from);
        }
        if from == pos {
            return None;
        }
        from -= 1;
    }
}

/// The dialect's delimiter between two segments.
pub fn separator_of(field_type: FieldType) -> (separator: Option<char>)
    ensures
        separator == delimiter(field_type),
{
    match field_type {
        FieldType::Path => Some('/'),
        FieldType::Query => Some('&'),
        FieldType::Fragment => None,
    }
}

/// Finds where the text ends that `capture` takes from `pos` on.
fn find_capture_end(
    capture: &CaptureVariant,
    next: Option<&MatcherToken>,
    text: &[char],
    pos: usize,
    separator: Option<char>,
) -> (end: Option<usize>)
    requires
        pos <= text.len(),
    ensures
        match end {
            Some(end) => capture_end(
                capture@,
                match next {
                    Some(token) => Some(token@),
                    None => None,
                },
                text@,
                pos as int,
                separator,
            ) == Some(end as int) && pos <= end <= text.len(),
            None => capture_end(
                capture@,
                match next {
                    Some(token) => Some(token@),
                    None => None,
                },
                text@,
                pos as int,
                separator,
            ) is None,
        },
{
    match capture {
        CaptureVariant::Unnamed | CaptureVariant::Named(_) => find_sections_end(
            text,
            pos,
            1,
            separator,
        ),
        CaptureVariant::NumberedUnnamed { sections } => find_sections_end(
            text,
            pos,
            *sections,
            separator,
        ),
        CaptureVariant::NumberedNamed { sections, .. } => find_sections_end(
            text,
            pos,
            *sections,
            separator,
        ),
        CaptureVariant::ManyUnnamed | CaptureVariant::ManyNamed(_) => match next {
            None => Some(text.len()),
            Some(MatcherToken::End) => Some(text.len()),
            Some(MatcherToken::Exact(literal)) => find_last_match(text, pos, literal.as_str()),
            Some(MatcherToken::Capture(_)) => None,
        },
    }
}

/// Matches `input` against compiled tokens of the given dialect.
///
/// Returns the mapping of every named capture to the text it took, or `None`
/// where the input does not match; a mismatch leaves nothing behind. Input
/// that is left when the tokens are used up is no mismatch: only the end
/// marker asks for the input to end.
pub fn match_tokens(tokens: &[MatcherToken], field_type: FieldType, input: &str) -> (found: Option<
    Captures,
>)
    ensures
        match found {
            Some(captures) => matched(tokens.deep_view(), field_type, input@) == Some(captures@),
            None => matched(tokens.deep_view(), field_type, input@) is None,
        },
{
    let text = to_chars(input);
    let separator = separator_of(field_type);
    let mut captures = Captures::new();
    let mut pos: usize = 0;
    let mut at: usize = 0;
    while at < tokens.len()
        invariant
            text@ == input@,
            separator == delimiter(field_type),
            at <= tokens.len(),
            pos <= text.len(),
            matched(tokens.deep_view(), field_type, input@) == matched_from(
                tokens.deep_view(),
                at as int,
                input@,
                pos as int,
                separator,
                captures@,
            ),
        decreases tokens.len() - at,
    {
        assert(tokens.deep_view()[at as int] == tokens[at as int]@);
        match &tokens[at] {
            MatcherToken::Exact(literal) => {
                if !continues(text.as_slice(), pos, literal.as_str()) {
                    return None;
                }
                pos += literal.as_str().unicode_len();
            },
            MatcherToken::End => {
                if pos != text.len() {
                    return None;
                }
            },
            MatcherToken::Capture(capture) => {
                let next = if at + 1 < tokens.len() {
                    assert(tokens.deep_view()[at + 1] == tokens[at + 1]@);
                    Some(&tokens[at + 1])
                } else {
                    None
                };
                let end = match find_capture_end(capture, next, text.as_slice(), pos, separator) {
                    Some(end) => end,
                    None => {
                        return None;
                    },
                };
                match capture {
                    CaptureVariant::Named(name)
                    | CaptureVariant::ManyNamed(name)
                    | CaptureVariant::NumberedNamed { name, .. } => {
                        captures.insert(name.clone(), input.substring_char(pos, end).to_owned());
                    },
                    _ => {},
                }
                pos = end;
            },
        }
        at += 1;
    }
    Some(captures)
}

/// A pattern in compiled form, ready to be matched against any number of
/// inputs.
#[derive(Debug)]
pub struct CompiledMatcher {
    /// The compiled tokens.
    pub tokens: Vec<MatcherToken>,
    /// The dialect that the pattern was written in.
    pub field_type: FieldType,
}

impl CompiledMatcher {
    /// Whether this is the compiled form of `pattern` in the given dialect.
    pub open spec fn is_compiled_from(&self, pattern: Seq<char>, field_type: FieldType) -> bool {
        &&& parse_spec(pattern, field_type) is Ok
        &&& self.tokens.deep_view() == optimized(parse_spec(pattern, field_type)->Ok_0)
        &&& self.field_type == field_type
    }
}

/// Compiles a pattern of the given dialect: reads it into tokens and
/// compacts them. In the compiled form no two literal tokens stand side by
/// side, a literal token parts any two captures, and the end marker is last.
/// A pattern that the grammar refuses yields the parser's report.
pub fn compile(pattern: &str, field_type: FieldType) -> (compiled: Result<
    CompiledMatcher,
    PrettyParseError,
>)
    ensures
        match compiled {
            Ok(matcher) => matcher.is_compiled_from(pattern@, field_type) && well_formed(
                matcher.tokens.deep_view(),
            ),
            Err(error) => parse_spec(pattern@, field_type) is Err && error.reports(
                pattern@,
                parse_spec(pattern@, field_type)->Err_0,
            ),
        },
{
    match parse_str_and_optimize_tokens(pattern, field_type) {
        Ok(tokens) => {
            proof {
                lemma_compiled_pattern_is_well_formed(pattern@, field_type);
            }
            Ok(CompiledMatcher { tokens, field_type })
        },
        Err(error) => Err(error),
    }
}

/// Matches `input` against a compiled pattern: the mapping of every named
/// capture to the text it took, or `None` where the input does not match.
pub fn match_path(compiled: &CompiledMatcher, input: &str) -> (found: Option<Captures>)
    ensures
        match found {
            Some(captures) => matched(compiled.tokens.deep_view(), compiled.field_type, input@)
                == Some(captures@),
            None => matched(compiled.tokens.deep_view(), compiled.field_type, input@) is None,
        },
{
    match_tokens(compiled.tokens.as_slice(), compiled.field_type, input)
}

} // verus!
