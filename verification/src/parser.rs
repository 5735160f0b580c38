//! Reading a pattern into raw tokens.

use crate::chars::{capture_opener, reserved, scan_run, to_chars};
use crate::decimal::read_decimal;
use crate::grammar::{
    capture_at, lemma_run_end, lemma_step_advances, opens_capture, pair_at, parse_from,
    parse_spec, prepend, segment_at, single_capture_at, step_at, CaptureStep, CharClass,
    ParseErrorReason, ParseFailure, Prev, Step,
};
use crate::token::{CaptureOrExact, FieldType, RawTokenSpec, RefCaptureVariant, RouteParserToken};
use vstd::prelude::*;
use vstd::string::{StrSliceExecFns, StringExecFns};

verus! {

impl ParseErrorReason {
    /// The cause in words.
    pub open spec fn text(self) -> Seq<char> {
        match self {
            ParseErrorReason::MissingSectionMarker => "the pattern must start with its section marker"@,
            ParseErrorReason::ReservedCharacter => "a reserved character stands where it has no meaning"@,
            ParseErrorReason::AdjacentSegments => "a delimiter must part two segments"@,
            ParseErrorReason::MissingCaptureName => "a capture's name is missing"@,
            ParseErrorReason::BadSectionCount => "a count of segments must be a positive number without a leading zero"@,
            ParseErrorReason::UnterminatedCapture => "a capture in braces is not closed"@,
            ParseErrorReason::UnsupportedCapture => "only a path can hold a capture of several segments"@,
            ParseErrorReason::MissingEquals => "a query key must be followed by `=`"@,
            ParseErrorReason::EndNotLast => "`!` must be the last character"@,
        }
    }

    /// The cause in words.
    pub fn as_str(&self) -> (text: &'static str)
        ensures
            text@ == self.text(),
    {
        match self {
            ParseErrorReason::MissingSectionMarker => "the pattern must start with its section marker",
            ParseErrorReason::ReservedCharacter => "a reserved character stands where it has no meaning",
            ParseErrorReason::AdjacentSegments => "a delimiter must part two segments",
            ParseErrorReason::MissingCaptureName => "a capture's name is missing",
            ParseErrorReason::BadSectionCount => "a count of segments must be a positive number without a leading zero",
            ParseErrorReason::UnterminatedCapture => "a capture in braces is not closed",
            ParseErrorReason::UnsupportedCapture => "only a path can hold a capture of several segments",
            ParseErrorReason::MissingEquals => "a query key must be followed by `=`",
            ParseErrorReason::EndNotLast => "`!` must be the last character",
        }
    }
}

/// A pattern that could not be read: what was left of it when reading stopped,
/// and why it stopped.
#[derive(Debug, PartialEq, Eq)]
pub struct PrettyParseError {
    /// The pattern from the offending token on.
    pub remaining: String,
    /// How many characters were read before it.
    pub position: usize,
    /// What is wrong there.
    pub reason: ParseErrorReason,
}

impl PrettyParseError {
    /// Where reading stopped, and why.
    pub open spec fn failure(&self) -> ParseFailure {
        ParseFailure { position: self.position as int, reason: self.reason }
    }

    /// Whether this is the report of `failure` in `pattern`.
    pub open spec fn reports(&self, pattern: Seq<char>, failure: ParseFailure) -> bool {
        &&& self.failure() == failure
        &&& 0 <= failure.position <= pattern.len()
        &&& self.remaining@ == pattern.skip(failure.position)
    }

    /// The report in one line: the cause, then what was left of the pattern.
    pub fn describe(&self) -> (line: String)
        ensures
            line@ == self.reason.text() + ": "@ + self.remaining@,
    {
        let mut line = self.reason.as_str().to_owned();
        line.append(": ");
        line.append(self.remaining.as_str());
        line
    }
}

impl Clone for PrettyParseError {
    fn clone(&self) -> (copy: Self)
        ensures
            copy.remaining@ == self.remaining@,
            copy.position == self.position,
            copy.reason == self.reason,
    {
        PrettyParseError {
            remaining: self.remaining.clone(),
            position: self.position,
            reason: self.reason,
        }
    }
}

/// Reads the capture that starts at `pos`.
fn read_capture<'a>(pattern: &'a str, chars: &[char], pos: usize) -> (found: Result<
    (RefCaptureVariant<'a>, usize),
    ParseErrorReason,
>)
    requires
        chars@ == pattern@,
        pos < chars.len(),
        opens_capture(chars[pos as int]),
    ensures
        match found {
            Ok((capture, next)) => capture_at(pattern@, pos as int) == Ok::<_, ParseErrorReason>(
                (CaptureStep { capture: capture@, next: next as int }),
            ),
            Err(reason) => capture_at(pattern@, pos as int) == Err::<CaptureStep, _>(reason),
        },
{
    let c = chars[pos];
    if c == ':' {
        let end = scan_run(chars, pos + 1, CharClass::Name);
        if end == pos + 1 {
            return Err(ParseErrorReason::MissingCaptureName);
        }
        let name = pattern.substring_char(pos + 1, end);
        if end < chars.len() && chars[end] == '*' {
            Ok((RefCaptureVariant::ManyNamed(name), end + 1))
        } else {
            Ok((RefCaptureVariant::Named(name), end))
        }
    } else if c == '*' {
        if pos + 1 < chars.len() && chars[pos + 1] == '*' {
            Ok((RefCaptureVariant::ManyUnnamed, pos + 2))
        } else {
            Ok((RefCaptureVariant::Unnamed, pos + 1))
        }
    } else {
        let digits_end = scan_run(chars, pos + 1, CharClass::Digit);
        proof {
            lemma_run_end(chars@, pos + 1, CharClass::Digit);
        }
        if digits_end == pos + 1 || chars[pos + 1] == '0' {
            return Err(ParseErrorReason::BadSectionCount);
        }
        let sections = match read_decimal(chars, pos + 1, digits_end) {
            Some(sections) => sections,
            None => {
                return Err(ParseErrorReason::BadSectionCount);
            },
        };
        if digits_end < chars.len() && chars[digits_end] == '}' {
            Ok((RefCaptureVariant::NumberedUnnamed { sections }, digits_end + 1))
        } else if digits_end < chars.len() && chars[digits_end] == ':' {
            let end = scan_run(chars, digits_end + 1, CharClass::Name);
            if end == digits_end + 1 {
                return Err(ParseErrorReason::MissingCaptureName);
            }
            if end < chars.len() && chars[end] == '}' {
                let name = pattern.substring_char(digits_end + 1, end);
                Ok((RefCaptureVariant::NumberedNamed { sections, name }, end + 1))
            } else {
                Err(ParseErrorReason::UnterminatedCapture)
            }
        } else {
            Err(ParseErrorReason::UnterminatedCapture)
        }
    }
}

/// Reads the capture that starts at `pos`, where only one of a single segment
/// is legal.
fn read_single_capture<'a>(pattern: &'a str, chars: &[char], pos: usize) -> (found: Result<
    (RefCaptureVariant<'a>, usize),
    ParseErrorReason,
>)
    requires
        chars@ == pattern@,
        pos < chars.len(),
        opens_capture(chars[pos as int]),
    ensures
        match found {
            Ok((capture, next)) => single_capture_at(pattern@, pos as int) == Ok::<
                _,
                ParseErrorReason,
            >((CaptureStep { capture: capture@, next: next as int })),
            Err(reason) => single_capture_at(pattern@, pos as int) == Err::<CaptureStep, _>(reason),
        },
{
    match read_capture(pattern, chars, pos) {
        Ok((capture, next)) => match capture {
            RefCaptureVariant::Unnamed | RefCaptureVariant::Named(_) => Ok((capture, next)),
            _ => Err(ParseErrorReason::UnsupportedCapture),
        },
        Err(reason) => Err(reason),
    }
}

/// Whether `found` is the outcome `step` of reading one token.
pub open spec fn is_step<'a>(
    found: Result<(RouteParserToken<'a>, usize, Prev), ParseErrorReason>,
    step: Result<Step, ParseErrorReason>,
) -> bool {
    match found {
        Ok((token, next, prev)) => step == Ok::<_, ParseErrorReason>(
            (Step { token: token@, next: next as int, prev }),
        ),
        Err(reason) => step == Err::<Step, _>(reason),
    }
}

/// Reads the query pair that starts at `pos`.
fn read_pair<'a>(pattern: &'a str, chars: &[char], pos: usize) -> (found: Result<
    (RouteParserToken<'a>, usize, Prev),
    ParseErrorReason,
>)
    requires
        chars@ == pattern@,
        pos < chars.len(),
    ensures
        is_step(found, pair_at(pattern@, pos as int)),
{
    let key_end = scan_run(chars, pos, CharClass::Literal);
    if !(key_end < chars.len() && chars[key_end] == '=') {
        return Err(ParseErrorReason::MissingEquals);
    }
    let ident = pattern.substring_char(pos, key_end);
    if key_end + 1 < chars.len() && capture_opener(chars[key_end + 1]) {
        match read_single_capture(pattern, chars, key_end + 1) {
            Ok((capture, next)) => Ok(
                (
                    RouteParserToken::Query {
                        ident,
                        capture_or_exact: CaptureOrExact::Capture(capture),
                    },
                    next,
                    Prev::Capture,
                ),
            ),
            Err(reason) => Err(reason),
        }
    } else {
        let value_end = scan_run(chars, key_end + 1, CharClass::Literal);
        let value = pattern.substring_char(key_end + 1, value_end);
        Ok(
            (
                RouteParserToken::Query { ident, capture_or_exact: CaptureOrExact::Exact(value) },
                value_end,
                Prev::Literal,
            ),
        )
    }
}

/// Reads the segment that starts at `pos`.
fn read_segment<'a>(pattern: &'a str, chars: &[char], pos: usize, field_type: FieldType) -> (found:
    Result<(RouteParserToken<'a>, usize, Prev), ParseErrorReason>)
    requires
        chars@ == pattern@,
        pos < chars.len(),
    ensures
        is_step(found, segment_at(pattern@, pos as int, field_type)),
{
    let c = chars[pos];
    match field_type {
        FieldType::Query => {
            if reserved(c) {
                Err(ParseErrorReason::ReservedCharacter)
            } else {
                read_pair(pattern, chars, pos)
            }
        },
        _ => {
            if capture_opener(c) {
                let found = match field_type {
                    FieldType::Path => read_capture(pattern, chars, pos),
                    _ => read_single_capture(pattern, chars, pos),
                };
                match found {
                    Ok((capture, next)) => Ok(
                        (RouteParserToken::Capture(capture), next, Prev::Capture),
                    ),
                    Err(reason) => Err(reason),
                }
            } else if reserved(c) {
                Err(ParseErrorReason::ReservedCharacter)
            } else {
                let end = scan_run(chars, pos, CharClass::Literal);
                let literal = pattern.substring_char(pos, end);
                Ok((RouteParserToken::Exact(literal), end, Prev::Literal))
            }
        },
    }
}

/// Reads the token that starts at `pos`.
fn read_token<'a>(
    pattern: &'a str,
    chars: &[char],
    pos: usize,
    field_type: FieldType,
    prev: Prev,
) -> (found: Result<(RouteParserToken<'a>, usize, Prev), ParseErrorReason>)
    requires
        chars@ == pattern@,
        pos < chars.len(),
    ensures
        is_step(found, step_at(pattern@, pos as int, field_type, prev)),
{
    let c = chars[pos];
    let after_segment = match prev {
        Prev::Literal | Prev::Capture => true,
        _ => false,
    };
    let at_start = match prev {
        Prev::Nothing => true,
        _ => false,
    };
    match field_type {
        FieldType::Query => {
            if at_start {
                return if c == '?' {
                    Ok((RouteParserToken::QueryBegin, pos + 1, Prev::Marker))
                } else {
                    Err(ParseErrorReason::MissingSectionMarker)
                };
            }
        },
        FieldType::Fragment => {
            if at_start {
                return if c == '#' {
                    Ok((RouteParserToken::FragmentBegin, pos + 1, Prev::Marker))
                } else {
                    Err(ParseErrorReason::MissingSectionMarker)
                };
            }
        },
        FieldType::Path => {},
    }
    if c == '!' {
        return if pos + 1 == chars.len() {
            Ok((RouteParserToken::End, pos + 1, Prev::Marker))
        } else {
            Err(ParseErrorReason::EndNotLast)
        };
    }
    match field_type {
        FieldType::Path => {
            if c == '/' {
                return Ok((RouteParserToken::Separator, pos + 1, Prev::Marker));
            }
        },
        FieldType::Query => {
            if c == '&' && after_segment {
                return Ok((RouteParserToken::QuerySeparator, pos + 1, Prev::Marker));
            }
        },
        FieldType::Fragment => {},
    }
    if after_segment {
        if !reserved(c) || capture_opener(c) {
            Err(ParseErrorReason::AdjacentSegments)
        } else {
            Err(ParseErrorReason::ReservedCharacter)
        }
    } else {
        read_segment(pattern, chars, pos, field_type)
    }
}

/// Reads a pattern of the given dialect into its tokens.
///
/// The tokens are those that the grammar assigns to the pattern. A pattern
/// that the grammar refuses yields no tokens at all, but a report that holds
/// the reason, the place, and the pattern from that place on.
pub fn parse<'a>(pattern: &'a str, field_type: FieldType) -> (parsed: Result<
    Vec<RouteParserToken<'a>>,
    PrettyParseError,
>)
    ensures
        match parsed {
            Ok(tokens) => parse_spec(pattern@, field_type) == Ok::<_, ParseFailure>(
                tokens.deep_view(),
            ),
            Err(error) => parse_spec(pattern@, field_type) is Err && error.reports(
                pattern@,
                parse_spec(pattern@, field_type)->Err_0,
            ),
        },
{
    let chars = to_chars(pattern);
    let mut tokens: Vec<RouteParserToken<'a>> = Vec::new();
    let mut pos: usize = 0;
    let mut prev = Prev::Nothing;
    assert(tokens.deep_view() =~= Seq::<RawTokenSpec>::empty());
    assert(Seq::<RawTokenSpec>::empty() + Seq::<RawTokenSpec>::empty() =~= Seq::<
        RawTokenSpec,
    >::empty());
    while pos < chars.len()
        invariant
            chars@ == pattern@,
            pos <= chars.len(),
            parse_spec(pattern@, field_type) == prepend(
                tokens.deep_view(),
                parse_from(pattern@, pos as int, field_type, prev),
            ),
        decreases chars.len() - pos,
    {
        proof {
            lemma_step_advances(pattern@, pos as int, field_type, prev);
        }
        match read_token(pattern, chars.as_slice(), pos, field_type, prev) {
            Ok((token, next, kind)) => {
                let ghost before = tokens.deep_view();
                tokens.push(token);
                proof {
                    let rest = parse_from(pattern@, next as int, field_type, kind);
                    assert(tokens.deep_view() =~= before + seq![token@]);
                    if rest is Ok {
                        assert(before + (seq![token@] + rest->Ok_0) =~= tokens.deep_view()
                            + rest->Ok_0);
                    }
                }
                pos = next;
                prev = kind;
            },
            Err(reason) => {
                let remaining = pattern.substring_char(pos, chars.len()).to_owned();
                return Err(PrettyParseError { remaining, position: pos, reason });
            },
        }
    }
    assert(tokens.deep_view() + Seq::<RawTokenSpec>::empty() =~= tokens.deep_view());
    Ok(tokens)
}

} // verus!
