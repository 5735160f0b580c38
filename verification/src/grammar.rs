//! The pattern language, stated over sequences of characters.
//!
//! A pattern is read from left to right, one token at a time. Which token may
//! come next depends on the dialect, on what was read last and on the next
//! character: nothing is ever read twice.
//!
//! * Path: segments separated by `/`. A segment is a literal or a capture,
//!   never both: `:name` takes one segment, `:name*` any number of them, `*`
//!   and `**` do the same without a name, `{3}` and `{3:name}` take exactly
//!   three. A count is positive and written without a leading zero.
//! * Query: `?`, then pairs `key=value` separated by `&`. A value is a literal
//!   or a capture of one segment.
//! * Fragment: `#`, then at most one literal or capture of one segment.
//!
//! A final `!` asks that the matched input end there.

use crate::decimal::{decimal_value, is_digit};
use crate::token::{CaptureSpec, FieldType, RawTokenSpec, ValueSpec};
use vstd::prelude::*;

verus! {

/// The characters that have a meaning in a pattern and cannot stand in a literal.
pub open spec fn is_reserved(c: char) -> bool {
    c == '/' || c == ':' || c == '*' || c == '{' || c == '}' || c == '?' || c == '&' || c == '='
        || c == '#' || c == '!'
}

/// The characters that a capture's name is made of.
pub open spec fn is_name_char(c: char) -> bool {
    ('a' <= c && c <= 'z') || ('A' <= c && c <= 'Z') || ('0' <= c && c <= '9') || c == '_'
}

/// The characters that open a capture.
pub open spec fn opens_capture(c: char) -> bool {
    c == ':' || c == '*' || c == '{'
}

/// The kinds of character runs that the language is made of.
#[derive(Clone, Copy, Debug, PartialEq, Eq, Structural)]
pub enum CharClass {
    /// Anything but a reserved character.
    Literal,
    /// Letters, digits and the underscore.
    Name,
    /// Decimal digits.
    Digit,
}

/// Whether the character is of the class.
pub open spec fn in_class(class: CharClass, c: char) -> bool {
    match class {
        CharClass::Literal => !is_reserved(c),
        CharClass::Name => is_name_char(c),
        CharClass::Digit => is_digit(c),
    }
}

/// Where the longest run of characters of `class` that starts at `pos` ends.
pub open spec fn run_end(input: Seq<char>, pos: int, class: CharClass) -> int
    decreases input.len() - pos,
{
    if 0 <= pos < input.len() && in_class(class, input[pos]) {
        run_end(input, pos + 1, class)
    } else {
        pos
    }
}

/// Why a pattern was refused.
#[derive(Clone, Copy, Debug, PartialEq, Eq, Structural)]
pub enum ParseErrorReason {
    /// A query does not start with `?`, or a fragment does not start with `#`.
    MissingSectionMarker,
    /// A reserved character stands where it opens nothing.
    ReservedCharacter,
    /// A literal or a capture follows a segment without a delimiter between them.
    AdjacentSegments,
    /// `:` is not followed by a name.
    MissingCaptureName,
    /// `{` is not followed by a positive number, written without a leading
    /// zero, that the machine can hold.
    BadSectionCount,
    /// A capture in braces is not closed.
    UnterminatedCapture,
    /// A capture of more than one segment stands outside a path.
    UnsupportedCapture,
    /// A query key is not followed by `=`.
    MissingEquals,
    /// `!` is not the last character.
    EndNotLast,
}

/// What was read last.
#[derive(Clone, Copy, Debug, PartialEq, Eq, Structural)]
pub enum Prev {
    /// Nothing yet.
    Nothing,
    /// A delimiter or a section marker.
    Marker,
    /// A literal, or a query pair with a literal value.
    Literal,
    /// A capture, or a query pair with a captured value.
    Capture,
}

impl Prev {
    /// Whether a segment was read last, so that only a delimiter may follow.
    pub open spec fn is_segment(self) -> bool {
        self is Literal || self is Capture
    }
}

/// A capture and the position behind it.
pub struct CaptureStep {
    pub capture: CaptureSpec,
    pub next: int,
}

/// A token, the position behind it, and what kind of thing it was.
pub struct Step {
    pub token: RawTokenSpec,
    pub next: int,
    pub prev: Prev,
}

/// The capture that starts at `pos`, where `input[pos]` opens one.
pub open spec fn capture_at(input: Seq<char>, pos: int) -> Result<CaptureStep, ParseErrorReason>
    recommends
        0 <= pos < input.len(),
        opens_capture(input[pos]),
{
    if input[pos] == ':' {
        let end = run_end(input, pos + 1, CharClass::Name);
        let name = input.subrange(pos + 1, end);
        if end == pos + 1 {
            Err(ParseErrorReason::MissingCaptureName)
        } else if end < input.len() && input[end] == '*' {
            Ok(CaptureStep { capture: CaptureSpec::ManyNamed(name), next: end + 1 })
        } else {
            Ok(CaptureStep { capture: CaptureSpec::Named(name), next: end })
        }
    } else if input[pos] == '*' {
        if pos + 1 < input.len() && input[pos + 1] == '*' {
            Ok(CaptureStep { capture: CaptureSpec::ManyUnnamed, next: pos + 2 })
        } else {
            Ok(CaptureStep { capture: CaptureSpec::Unnamed, next: pos + 1 })
        }
    } else {
        let digits_end = run_end(input, pos + 1, CharClass::Digit);
        let digits = input.subrange(pos + 1, digits_end);
        let sections = decimal_value(digits);
        if digits.len() == 0 || digits[0] == '0' || sections > usize::MAX {
            Err(ParseErrorReason::BadSectionCount)
        } else if digits_end < input.len() && input[digits_end] == '}' {
            Ok(
                CaptureStep {
                    capture: CaptureSpec::NumberedUnnamed { sections },
                    next: digits_end + 1,
                },
            )
        } else if digits_end < input.len() && input[digits_end] == ':' {
            let end = run_end(input, digits_end + 1, CharClass::Name);
            let name = input.subrange(digits_end + 1, end);
            if end == digits_end + 1 {
                Err(ParseErrorReason::MissingCaptureName)
            } else if end < input.len() && input[end] == '}' {
                Ok(
                    CaptureStep {
                        capture: CaptureSpec::NumberedNamed { sections, name },
                        next: end + 1,
                    },
                )
            } else {
                Err(ParseErrorReason::UnterminatedCapture)
            }
        } else {
            Err(ParseErrorReason::UnterminatedCapture)
        }
    }
}

/// The capture that starts at `pos`, where only one of a single segment is legal.
pub open spec fn single_capture_at(input: Seq<char>, pos: int) -> Result<
    CaptureStep,
    ParseErrorReason,
> {
    match capture_at(input, pos) {
        Ok(step) => if step.capture.is_single() {
            Ok(step)
        } else {
            Err(ParseErrorReason::UnsupportedCapture)
        },
        Err(reason) => Err(reason),
    }
}

/// The query pair that starts at `pos`, where `input[pos]` is not reserved.
pub open spec fn pair_at(input: Seq<char>, pos: int) -> Result<Step, ParseErrorReason> {
    let key_end = run_end(input, pos, CharClass::Literal);
    let ident = input.subrange(pos, key_end);
    if !(key_end < input.len() && input[key_end] == '=') {
        Err(ParseErrorReason::MissingEquals)
    } else if key_end + 1 < input.len() && opens_capture(input[key_end + 1]) {
        match single_capture_at(input, key_end + 1) {
            Ok(step) => Ok(
                Step {
                    token: RawTokenSpec::Query { ident, value: ValueSpec::Capture(step.capture) },
                    next: step.next,
                    prev: Prev::Capture,
                },
            ),
            Err(reason) => Err(reason),
        }
    } else {
        let value_end = run_end(input, key_end + 1, CharClass::Literal);
        Ok(
            Step {
                token: RawTokenSpec::Query {
                    ident,
                    value: ValueSpec::Exact(input.subrange(key_end + 1, value_end)),
                },
                next: value_end,
                prev: Prev::Literal,
            },
        )
    }
}

/// The segment that starts at `pos`, where the dialect expects one.
pub open spec fn segment_at(input: Seq<char>, pos: int, field_type: FieldType) -> Result<
    Step,
    ParseErrorReason,
> {
    let c = input[pos];
    if field_type is Query {
        if is_reserved(c) {
            Err(ParseErrorReason::ReservedCharacter)
        } else {
            pair_at(input, pos)
        }
    } else if opens_capture(c) {
        let found = if field_type is Path {
            capture_at(input, pos)
        } else {
            single_capture_at(input, pos)
        };
        match found {
            Ok(step) => Ok(
                Step {
                    token: RawTokenSpec::Capture(step.capture),
                    next: step.next,
                    prev: Prev::Capture,
                },
            ),
            Err(reason) => Err(reason),
        }
    } else if is_reserved(c) {
        Err(ParseErrorReason::ReservedCharacter)
    } else {
        let end = run_end(input, pos, CharClass::Literal);
        Ok(
            Step {
                token: RawTokenSpec::Exact(input.subrange(pos, end)),
                next: end,
                prev: Prev::Literal,
            },
        )
    }
}

/// The delimiter that parts two segments of the dialect, if it has one.
pub open spec fn delimiter(field_type: FieldType) -> Option<char> {
    match field_type {
        FieldType::Path => Some('/'),
        FieldType::Query => Some('&'),
        FieldType::Fragment => None,
    }
}

/// The marker that a pattern of the dialect starts with, if it needs one.
pub open spec fn section_marker(field_type: FieldType) -> Option<char> {
    match field_type {
        FieldType::Path => None,
        FieldType::Query => Some('?'),
        FieldType::Fragment => Some('#'),
    }
}

/// The token a delimiter or marker of the dialect is read into.
pub open spec fn marker_token(field_type: FieldType, prev: Prev) -> RawTokenSpec {
    match field_type {
        FieldType::Path => RawTokenSpec::Separator,
        FieldType::Query => if prev is Nothing {
            RawTokenSpec::QueryBegin
        } else {
            RawTokenSpec::QuerySeparator
        },
        FieldType::Fragment => RawTokenSpec::FragmentBegin,
    }
}

/// The token that starts at `pos`, for `0 <= pos < input.len()`.
pub open spec fn step_at(input: Seq<char>, pos: int, field_type: FieldType, prev: Prev) -> Result<
    Step,
    ParseErrorReason,
> {
    let c = input[pos];
    let marker = Step { token: marker_token(field_type, prev), next: pos + 1, prev: Prev::Marker };
    if prev is Nothing && section_marker(field_type) is Some {
        if section_marker(field_type) == Some(c) {
            Ok(marker)
        } else {
            Err(ParseErrorReason::MissingSectionMarker)
        }
    } else if c == '!' {
        if pos + 1 == input.len() {
            Ok(Step { token: RawTokenSpec::End, next: pos + 1, prev: Prev::Marker })
        } else {
            Err(ParseErrorReason::EndNotLast)
        }
    } else if delimiter(field_type) == Some(c) && (field_type is Path || prev.is_segment()) {
        Ok(marker)
    } else if prev.is_segment() {
        if !is_reserved(c) || opens_capture(c) {
            Err(ParseErrorReason::AdjacentSegments)
        } else {
            Err(ParseErrorReason::ReservedCharacter)
        }
    } else {
        segment_at(input, pos, field_type)
    }
}

/// A refusal: where reading stopped, and why.
pub struct ParseFailure {
    pub position: int,
    pub reason: ParseErrorReason,
}

/// `tokens` put in front of what a later part of the pattern was read into.
pub open spec fn prepend(tokens: Seq<RawTokenSpec>, rest: Result<Seq<RawTokenSpec>, ParseFailure>)
    -> Result<Seq<RawTokenSpec>, ParseFailure> {
    match rest {
        Ok(more) => Ok(tokens + more),
        Err(failure) => Err(failure),
    }
}

/// What the pattern is read into from `pos` on.
pub open spec fn parse_from(input: Seq<char>, pos: int, field_type: FieldType, prev: Prev)
    -> Result<Seq<RawTokenSpec>, ParseFailure>
    decreases input.len() - pos,
{
    if pos < 0 || pos >= input.len() {
        Ok(Seq::empty())
    } else {
        match step_at(input, pos, field_type, prev) {
            Ok(step) => {
                proof {
                    lemma_step_advances(input, pos, field_type, prev);
                }
                prepend(seq![step.token], parse_from(input, step.next, field_type, step.prev))
            },
            Err(reason) => Err(ParseFailure { position: pos, reason }),
        }
    }
}

/// What a whole pattern is read into: its tokens, or the first refusal.
pub open spec fn parse_spec(input: Seq<char>, field_type: FieldType) -> Result<
    Seq<RawTokenSpec>,
    ParseFailure,
> {
    parse_from(input, 0, field_type, Prev::Nothing)
}

/// A run ends at or behind its start and inside the input; all of it is of the
/// class, and what follows it is not.
pub proof fn lemma_run_end(input: Seq<char>, pos: int, class: CharClass)
    requires
        0 <= pos <= input.len(),
    ensures
        pos <= run_end(input, pos, class) <= input.len(),
        forall|i: int| pos <= i < run_end(input, pos, class) ==> in_class(class, #[trigger] input[i]),
        run_end(input, pos, class) < input.len() ==> !in_class(
            class,
            input[run_end(input, pos, class)],
        ),
    decreases input.len() - pos,
{
    if pos < input.len() && in_class(class, input[pos]) {
        lemma_run_end(input, pos + 1, class);
    }
}

/// A capture ends behind the character that opens it, and inside the input.
pub proof fn lemma_capture_advances(input: Seq<char>, pos: int)
    requires
        0 <= pos < input.len(),
    ensures
        capture_at(input, pos) is Ok ==> pos < capture_at(input, pos)->Ok_0.next <= input.len(),
        single_capture_at(input, pos) is Ok ==> pos < single_capture_at(input, pos)->Ok_0.next
            <= input.len(),
{
    lemma_run_end(input, pos + 1, CharClass::Name);
    lemma_run_end(input, pos + 1, CharClass::Digit);
    let digits_end = run_end(input, pos + 1, CharClass::Digit);
    if digits_end < input.len() {
        lemma_run_end(input, digits_end + 1, CharClass::Name);
    }
}

/// Every token ends behind its first character, and inside the input.
pub proof fn lemma_step_advances(input: Seq<char>, pos: int, field_type: FieldType, prev: Prev)
    requires
        0 <= pos < input.len(),
    ensures
        step_at(input, pos, field_type, prev) is Ok ==> pos < step_at(
            input,
            pos,
            field_type,
            prev,
        )->Ok_0.next <= input.len(),
{
    lemma_capture_advances(input, pos);
    lemma_run_end(input, pos, CharClass::Literal);
    let key_end = run_end(input, pos, CharClass::Literal);
    if key_end < input.len() {
        lemma_run_end(input, key_end + 1, CharClass::Literal);
        if key_end + 1 < input.len() {
            lemma_capture_advances(input, key_end + 1);
        }
    }
}

} // verus!
