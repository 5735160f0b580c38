//! What holds of every pattern: laws that relate reading, compacting and
//! matching.

use crate::chars::continues_with;
use crate::decimal::{is_digit, lemma_decimal_text_of_value};
use crate::grammar::{
    capture_at, delimiter, lemma_capture_advances, lemma_run_end, lemma_step_advances,
    opens_capture, parse_from, parse_spec, run_end, single_capture_at, step_at, CharClass, Prev,
};
use crate::matcher::{
    bound, capture_end, last_match, lemma_last_match_before, lemma_segment_end, matched,
    matched_from, sections_end, token_after,
};
use crate::optimizer::{
    captures_follow_literals, counts_are_positive_raw, end_is_last_raw, flushed,
    lemma_optimized_is_merged, lemma_optimized_keeps_captures_apart, lemma_optimized_keeps_counts,
    lemma_optimized_keeps_end_last, no_adjacent_exact, optimized, optimized_after, pending_text,
    well_formed,
};
use crate::token::{CaptureSpec, FieldType, RawTokenSpec, TokenSpec, ValueSpec};
use vstd::prelude::*;

verus! {

/// Raw tokens as they are written in a pattern, one after the other.
pub open spec fn spelled(tokens: Seq<RawTokenSpec>) -> Seq<char>
    decreases tokens.len(),
{
    if tokens.len() == 0 {
        Seq::empty()
    } else {
        tokens.first().text() + spelled(tokens.drop_first())
    }
}

/// A capture is read from exactly the text that it is written as, and a
/// count that was read is positive.
pub proof fn lemma_capture_spells_its_source(input: Seq<char>, pos: int)
    requires
        0 <= pos < input.len(),
        opens_capture(input[pos]),
        capture_at(input, pos) is Ok,
    ensures
        pos < capture_at(input, pos)->Ok_0.next <= input.len(),
        capture_at(input, pos)->Ok_0.capture.text() == input.subrange(
            pos,
            capture_at(input, pos)->Ok_0.next,
        ),
        capture_at(input, pos)->Ok_0.capture.has_positive_count(),
{
    lemma_capture_advances(input, pos);
    let step = capture_at(input, pos)->Ok_0;
    let source = input.subrange(pos, step.next);
    if input[pos] == ':' {
        lemma_run_end(input, pos + 1, CharClass::Name);
        assert(step.capture.text() =~= source);
    } else if input[pos] == '*' {
        assert(step.capture.text() =~= source);
    } else {
        lemma_run_end(input, pos + 1, CharClass::Digit);
        let digits_end = run_end(input, pos + 1, CharClass::Digit);
        let digits = input.subrange(pos + 1, digits_end);
        assert forall|i: int| 0 <= i < digits.len() implies is_digit(#[trigger] digits[i]) by {
            assert(digits[i] == input[pos + 1 + i]);
        }
        lemma_decimal_text_of_value(digits);
        if input[digits_end] == ':' {
            lemma_run_end(input, digits_end + 1, CharClass::Name);
            let end = run_end(input, digits_end + 1, CharClass::Name);
            assert(seq!['{'] + digits + seq![':'] + input.subrange(digits_end + 1, end) + seq!['}']
                =~= source);
        } else {
            assert(seq!['{'] + digits + seq!['}'] =~= source);
        }
    }
}

/// A token is read from exactly the text that it is written as, and a count
/// that was read is positive.
pub proof fn lemma_token_spells_its_source(
    input: Seq<char>,
    pos: int,
    field_type: FieldType,
    prev: Prev,
)
    requires
        0 <= pos < input.len(),
        step_at(input, pos, field_type, prev) is Ok,
    ensures
        pos < step_at(input, pos, field_type, prev)->Ok_0.next <= input.len(),
        step_at(input, pos, field_type, prev)->Ok_0.token.text() == input.subrange(
            pos,
            step_at(input, pos, field_type, prev)->Ok_0.next,
        ),
        step_at(input, pos, field_type, prev)->Ok_0.token.capture() matches Some(capture)
            ==> capture.has_positive_count(),
{
    lemma_step_advances(input, pos, field_type, prev);
    let step = step_at(input, pos, field_type, prev)->Ok_0;
    let source = input.subrange(pos, step.next);
    match step.token {
        RawTokenSpec::Exact(literal) => {
            assert(literal =~= source);
        },
        RawTokenSpec::Capture(capture) => {
            lemma_capture_spells_its_source(input, pos);
            assert(single_capture_at(input, pos) is Ok ==> single_capture_at(input, pos)
                == capture_at(input, pos));
        },
        RawTokenSpec::Query { ident, value } => {
            let key_end = run_end(input, pos, CharClass::Literal);
            lemma_run_end(input, pos, CharClass::Literal);
            assert(ident == input.subrange(pos, key_end));
            assert(input[key_end] == '=');
            if key_end + 1 < input.len() && opens_capture(input[key_end + 1]) {
                lemma_capture_spells_its_source(input, key_end + 1);
                assert(single_capture_at(input, key_end + 1) == capture_at(input, key_end + 1));
                assert(value.text() == input.subrange(key_end + 1, step.next));
            } else {
                lemma_run_end(input, key_end + 1, CharClass::Literal);
                assert(value.text() == input.subrange(key_end + 1, step.next));
            }
            assert(ident + seq!['='] + input.subrange(key_end + 1, step.next) =~= source);
        },
        _ => {
            assert(step.next == pos + 1);
            assert(step.token.text() =~= seq![input[pos]]);
            assert(source =~= seq![input[pos]]);
        },
    }
}

/// What is read from a pattern spells what was left of the pattern, and
/// holds no count that is not positive.
pub proof fn lemma_tokens_spell_their_source(
    input: Seq<char>,
    pos: int,
    field_type: FieldType,
    prev: Prev,
)
    requires
        0 <= pos <= input.len(),
        parse_from(input, pos, field_type, prev) is Ok,
    ensures
        spelled(parse_from(input, pos, field_type, prev)->Ok_0) == input.skip(pos),
        counts_are_positive_raw(parse_from(input, pos, field_type, prev)->Ok_0),
    decreases input.len() - pos,
{
    let tokens = parse_from(input, pos, field_type, prev)->Ok_0;
    if pos >= input.len() {
        assert(input.skip(pos) =~= Seq::<char>::empty());
    } else {
        let step = step_at(input, pos, field_type, prev)->Ok_0;
        let rest = parse_from(input, step.next, field_type, step.prev)->Ok_0;
        assert(tokens =~= seq![step.token] + rest);
        assert(tokens.first() == step.token);
        assert(tokens.drop_first() =~= rest);
        lemma_token_spells_its_source(input, pos, field_type, prev);
        lemma_tokens_spell_their_source(input, step.next, field_type, step.prev);
        assert(input.subrange(pos, step.next) + input.skip(step.next) =~= input.skip(pos));
        assert forall|i: int|
            0 <= i < tokens.len() && (#[trigger] tokens[i]).capture() is Some implies tokens[i].capture()->Some_0.has_positive_count() by {
            if i > 0 {
                assert(tokens[i] == rest[i - 1]);
            }
        }
    }
}

/// Reading loses nothing: the tokens that a pattern is read into, written
/// out one after the other, are the pattern.
pub proof fn lemma_parsed_tokens_spell_the_pattern(pattern: Seq<char>, field_type: FieldType)
    requires
        parse_spec(pattern, field_type) is Ok,
    ensures
        spelled(parse_spec(pattern, field_type)->Ok_0) == pattern,
{
    lemma_tokens_spell_their_source(pattern, 0, field_type, Prev::Nothing);
    assert(pattern.skip(0) =~= pattern);
}

/// Whether every token is literal text: no capture and no end marker.
pub open spec fn all_literal(tokens: Seq<RawTokenSpec>) -> bool {
    forall|i: int| 0 <= i < tokens.len() ==> (#[trigger] tokens[i]).is_literal()
}

/// Literal tokens compile to a single literal token that holds their text
/// behind the text gathered before, and to nothing where there is neither.
pub proof fn lemma_literal_tokens_merge(pending: Option<Seq<char>>, tokens: Seq<RawTokenSpec>)
    requires
        all_literal(tokens),
    ensures
        optimized_after(pending, tokens) == flushed(
            if tokens.len() == 0 {
                pending
            } else {
                Some(pending_text(pending) + spelled(tokens))
            },
        ),
    decreases tokens.len(),
{
    if tokens.len() > 0 {
        let rest = tokens.drop_first();
        let gathered = Some(pending_text(pending) + tokens.first().text());
        assert(tokens[0].is_literal());
        assert forall|i: int| 0 <= i < rest.len() implies (#[trigger] rest[i]).is_literal() by {
            assert(rest[i] == tokens[i + 1]);
        }
        lemma_literal_tokens_merge(gathered, rest);
        if rest.len() == 0 {
            assert(spelled(rest) =~= Seq::<char>::empty());
            assert(pending_text(pending) + tokens.first().text() =~= pending_text(pending)
                + spelled(tokens));
        } else {
            assert(pending_text(gathered) + spelled(rest) =~= pending_text(pending) + spelled(
                tokens,
            ));
        }
    }
}

/// Round trip: a pattern without captures and without the end marker, used
/// as the input, matches its own compiled form, and nothing is captured.
pub proof fn lemma_literal_pattern_matches_itself(pattern: Seq<char>, field_type: FieldType)
    requires
        parse_spec(pattern, field_type) is Ok,
        all_literal(parse_spec(pattern, field_type)->Ok_0),
    ensures
        matched(optimized(parse_spec(pattern, field_type)->Ok_0), field_type, pattern) == Some(
            Map::<Seq<char>, Seq<char>>::empty(),
        ),
{
    let tokens = parse_spec(pattern, field_type)->Ok_0;
    lemma_literal_tokens_merge(None, tokens);
    lemma_parsed_tokens_spell_the_pattern(pattern, field_type);
    if tokens.len() > 0 {
        let compiled = optimized(tokens);
        assert(Seq::<char>::empty() + pattern =~= pattern);
        assert(compiled == seq![TokenSpec::Exact(pattern)]);
        assert(pattern.subrange(0, pattern.len() as int) =~= pattern);
        assert(continues_with(pattern, 0, pattern));
        assert(compiled[0] == TokenSpec::Exact(pattern));
        let nothing = Map::<Seq<char>, Seq<char>>::empty();
        assert(matched_from(
            compiled,
            1,
            pattern,
            pattern.len() as int,
            delimiter(field_type),
            nothing,
        ) == Some(nothing));
    }
}

/// What is read from a pattern keeps its captures apart: every capture but a
/// leading one stands directly behind literal text, a capture leads only
/// where no segment was read just before, and the end marker is last.
pub proof fn lemma_parsed_tokens_keep_captures_apart(
    input: Seq<char>,
    pos: int,
    field_type: FieldType,
    prev: Prev,
)
    requires
        0 <= pos <= input.len(),
        parse_from(input, pos, field_type, prev) is Ok,
    ensures
        captures_follow_literals(parse_from(input, pos, field_type, prev)->Ok_0),
        end_is_last_raw(parse_from(input, pos, field_type, prev)->Ok_0),
        parse_from(input, pos, field_type, prev)->Ok_0.len() > 0 && parse_from(
            input,
            pos,
            field_type,
            prev,
        )->Ok_0.first() is Capture ==> !prev.is_segment(),
    decreases input.len() - pos,
{
    let tokens = parse_from(input, pos, field_type, prev)->Ok_0;
    if pos < input.len() {
        lemma_step_advances(input, pos, field_type, prev);
        let step = step_at(input, pos, field_type, prev)->Ok_0;
        let rest = parse_from(input, step.next, field_type, step.prev)->Ok_0;
        assert(tokens =~= seq![step.token] + rest);
        lemma_parsed_tokens_keep_captures_apart(input, step.next, field_type, step.prev);
        assert forall|i: int|
            0 < i < tokens.len() && #[trigger] tokens[i] is Capture implies tokens[i
            - 1].is_literal() by {
            assert(tokens[i] == rest[i - 1]);
            if i == 1 {
                assert(rest.first() is Capture);
            } else {
                assert(tokens[i - 1] == rest[i - 2]);
            }
        }
        assert forall|i: int| 0 <= i < tokens.len() && #[trigger] tokens[i] is End implies i
            == tokens.len() - 1 by {
            if i > 0 {
                assert(tokens[i] == rest[i - 1]);
            }
        }
    }
}

/// The compiled form of a pattern is well formed: its literal tokens are
/// merged, a literal token parts any two captures, the end marker is last,
/// and every count is positive. So no capture of a compiled pattern is ever
/// followed by another.
pub proof fn lemma_compiled_pattern_is_well_formed(pattern: Seq<char>, field_type: FieldType)
    requires
        parse_spec(pattern, field_type) is Ok,
    ensures
        well_formed(optimized(parse_spec(pattern, field_type)->Ok_0)),
{
    let tokens = parse_spec(pattern, field_type)->Ok_0;
    lemma_parsed_tokens_keep_captures_apart(pattern, 0, field_type, Prev::Nothing);
    lemma_tokens_spell_their_source(pattern, 0, field_type, Prev::Nothing);
    lemma_optimized_is_merged(None, tokens);
    lemma_optimized_keeps_captures_apart(None, tokens);
    lemma_optimized_keeps_end_last(None, tokens);
    lemma_optimized_keeps_counts(None, tokens);
}

/// Compiled tokens as they are written in a pattern, one after the other.
pub open spec fn written(tokens: Seq<TokenSpec>) -> Seq<char>
    decreases tokens.len(),
{
    if tokens.len() == 0 {
        Seq::empty()
    } else {
        tokens.first().text() + written(tokens.drop_first())
    }
}

/// A token alone is written as itself.
pub proof fn lemma_written_alone(token: TokenSpec)
    ensures
        written(seq![token]) == token.text(),
{
    let alone = seq![token];
    assert(alone.drop_first() =~= Seq::<TokenSpec>::empty());
    assert(written(alone.drop_first()) =~= Seq::<char>::empty());
    assert(token.text() + Seq::<char>::empty() =~= token.text());
}

/// Tokens put one after the other are written one after the other.
pub proof fn lemma_written_in_turn(front: Seq<TokenSpec>, back: Seq<TokenSpec>)
    ensures
        written(front + back) == written(front) + written(back),
    decreases front.len(),
{
    if front.len() == 0 {
        assert(front + back =~= back);
        assert(written(front) + written(back) =~= written(back));
    } else {
        assert((front + back).first() == front.first());
        assert((front + back).drop_first() =~= front.drop_first() + back);
        lemma_written_in_turn(front.drop_first(), back);
        assert(front.first().text() + (written(front.drop_first()) + written(back))
            =~= front.first().text() + written(front.drop_first()) + written(back));
    }
}

/// Compacting loses nothing: the compiled tokens are written as the text
/// gathered before and the raw tokens are.
pub proof fn lemma_optimized_is_written_the_same(
    pending: Option<Seq<char>>,
    tokens: Seq<RawTokenSpec>,
)
    ensures
        written(optimized_after(pending, tokens)) == pending_text(pending) + spelled(tokens),
    decreases tokens.len(),
{
    let gathered = pending_text(pending);
    assert(written(flushed(pending)) =~= gathered) by {
        if pending is Some {
            lemma_written_alone(TokenSpec::Exact(gathered));
        }
    }
    if tokens.len() == 0 {
        assert(gathered + spelled(tokens) =~= gathered);
    } else {
        let first = tokens.first();
        let rest = tokens.drop_first();
        if first.is_literal() {
            lemma_optimized_is_written_the_same(Some(gathered + first.text()), rest);
            assert(gathered + first.text() + spelled(rest) =~= gathered + spelled(tokens));
        } else {
            lemma_optimized_is_written_the_same(None, rest);
            assert(Seq::<char>::empty() + spelled(rest) =~= spelled(rest));
            let head = match first {
                RawTokenSpec::Capture(capture) => flushed(pending) + seq![
                    TokenSpec::Capture(capture),
                ],
                RawTokenSpec::Query { ident, value: ValueSpec::Capture(capture) } => seq![
                    TokenSpec::Exact(gathered + ident + seq!['=']),
                    TokenSpec::Capture(capture),
                ],
                _ => flushed(pending) + seq![TokenSpec::End],
            };
            assert(optimized_after(pending, tokens) =~= head + optimized_after(None, rest));
            lemma_written_in_turn(head, optimized_after(None, rest));
            assert(written(head) =~= gathered + first.text()) by {
                match first {
                    RawTokenSpec::Query { ident, value: ValueSpec::Capture(capture) } => {
                        let tail = seq![TokenSpec::Capture(capture)];
                        assert(head.drop_first() =~= tail);
                        lemma_written_alone(TokenSpec::Capture(capture));
                        assert(gathered + ident + seq!['='] + capture.text() =~= gathered + (
                        ident + seq!['='] + capture.text()));
                    },
                    _ => {
                        let last = seq![head.last()];
                        assert(head =~= flushed(pending) + last);
                        lemma_written_in_turn(flushed(pending), last);
                        lemma_written_alone(head.last());
                    },
                }
            }
            assert(gathered + first.text() + spelled(rest) =~= gathered + spelled(tokens));
        }
    }
}

/// Compiling loses nothing: the compiled form of a pattern, written out
/// token by token, is the pattern.
pub proof fn lemma_compiled_pattern_is_written_back(pattern: Seq<char>, field_type: FieldType)
    requires
        parse_spec(pattern, field_type) is Ok,
    ensures
        written(optimized(parse_spec(pattern, field_type)->Ok_0)) == pattern,
{
    lemma_parsed_tokens_spell_the_pattern(pattern, field_type);
    lemma_optimized_is_written_the_same(None, parse_spec(pattern, field_type)->Ok_0);
    assert(Seq::<char>::empty() + pattern =~= pattern);
}

/// Determinism: compiling is a function of the raw tokens alone, so two
/// compiled forms of the same raw tokens are the same.
pub proof fn lemma_optimizing_twice_agrees(
    tokens: Seq<RawTokenSpec>,
    first: Seq<TokenSpec>,
    second: Seq<TokenSpec>,
)
    requires
        first == optimized(tokens),
        second == optimized(tokens),
    ensures
        first == second,
{
}

/// A compiled token as the raw token that stands for the same thing.
pub open spec fn raised(token: TokenSpec) -> RawTokenSpec {
    match token {
        TokenSpec::Exact(literal) => RawTokenSpec::Exact(literal),
        TokenSpec::Capture(capture) => RawTokenSpec::Capture(capture),
        TokenSpec::End => RawTokenSpec::End,
    }
}

/// Compiled tokens as raw tokens, one for one.
pub open spec fn raised_all(tokens: Seq<TokenSpec>) -> Seq<RawTokenSpec> {
    Seq::new(tokens.len(), |i: int| raised(tokens[i]))
}

/// Merged tokens, taken as raw tokens behind gathered text that no literal
/// token follows, compile to themselves behind that text.
pub proof fn lemma_merged_tokens_compile_to_themselves(
    pending: Option<Seq<char>>,
    tokens: Seq<TokenSpec>,
)
    requires
        no_adjacent_exact(tokens),
        pending is Some ==> tokens.len() == 0 || !(tokens.first() is Exact),
    ensures
        optimized_after(pending, raised_all(tokens)) == flushed(pending) + tokens,
    decreases tokens.len(),
{
    if tokens.len() == 0 {
        assert(flushed(pending) + tokens =~= flushed(pending));
    } else {
        let rest = tokens.drop_first();
        assert(raised_all(tokens).first() == raised(tokens.first()));
        assert(raised_all(tokens).drop_first() =~= raised_all(rest));
        assert forall|i: int| 0 <= i && i + 1 < rest.len() implies !(#[trigger] rest[i] is Exact
            && rest[i + 1] is Exact) by {
            assert(rest[i] == tokens[i + 1]);
            assert(rest[i + 1] == tokens[i + 2]);
        }
        match tokens.first() {
            TokenSpec::Exact(literal) => {
                if rest.len() > 0 {
                    assert(tokens[0] is Exact);
                    assert(rest.first() == tokens[1]);
                }
                assert(pending_text(pending) + literal =~= literal);
                lemma_merged_tokens_compile_to_themselves(Some(literal), rest);
                assert(flushed(Some(literal)) + rest =~= flushed(pending) + tokens);
            },
            _ => {
                lemma_merged_tokens_compile_to_themselves(None, rest);
                assert(flushed(pending) + seq![tokens.first()] + (flushed(None) + rest)
                    =~= flushed(pending) + tokens);
            },
        }
    }
}

/// Idempotence: compiled tokens are compact already. Taken as raw tokens
/// and compiled once more, they come out unchanged.
pub proof fn lemma_optimizing_is_idempotent(tokens: Seq<RawTokenSpec>)
    ensures
        optimized(raised_all(optimized(tokens))) == optimized(tokens),
{
    lemma_optimized_is_merged(None, tokens);
    lemma_merged_tokens_compile_to_themselves(None, optimized(tokens));
    assert(flushed(None) + optimized(tokens) =~= optimized(tokens));
}

/// Merge invariant: in the compiled form of any raw tokens, no two literal
/// tokens stand side by side.
pub proof fn lemma_compiled_tokens_are_merged(tokens: Seq<RawTokenSpec>)
    ensures
        no_adjacent_exact(optimized(tokens)),
{
    lemma_optimized_is_merged(None, tokens);
}

/// A capture of one segment takes text that is not empty and holds no
/// delimiter, up to the next delimiter or to the end of the input.
pub proof fn lemma_single_capture_takes_one_segment(
    capture: CaptureSpec,
    next: Option<TokenSpec>,
    input: Seq<char>,
    pos: int,
    delimiter: Option<char>,
)
    requires
        capture.is_single(),
        0 <= pos <= input.len(),
    ensures
        match capture_end(capture, next, input, pos, delimiter) {
            Some(end) => pos < end <= input.len() && (end < input.len() ==> delimiter == Some(
                input[end],
            )) && forall|i: int| pos <= i < end ==> delimiter != Some(#[trigger] input[i]),
            None => pos == input.len() || delimiter == Some(input[pos]),
        },
{
    lemma_segment_end(input, pos, delimiter);
    assert(capture_end(capture, next, input, pos, delimiter) == sections_end(
        input,
        pos,
        1,
        delimiter,
    ));
}

/// Many-capture boundedness: a greedy capture in front of a literal token
/// ends at the last place where the literal still matches, and does not
/// match where there is no such place.
pub proof fn lemma_greedy_capture_is_bounded(
    capture: CaptureSpec,
    literal: Seq<char>,
    input: Seq<char>,
    pos: int,
    delimiter: Option<char>,
)
    requires
        capture is ManyUnnamed || capture is ManyNamed,
        0 <= pos,
    ensures
        match capture_end(capture, Some(TokenSpec::Exact(literal)), input, pos, delimiter) {
            Some(end) => pos <= end <= input.len() && continues_with(input, end, literal)
                && forall|later: int| end < later ==> !continues_with(input, later, literal),
            None => forall|place: int| pos <= place ==> !continues_with(input, place, literal),
        },
{
    lemma_last_match_before(input, pos, literal, input.len() as int);
    assert(capture_end(capture, Some(TokenSpec::Exact(literal)), input, pos, delimiter)
        == last_match(input, pos, literal));
}

/// The names that the captures of a compiled pattern bind.
pub open spec fn capture_names(tokens: Seq<TokenSpec>) -> Set<Seq<char>> {
    Set::new(
        |name: Seq<char>|
            exists|i: int|
                0 <= i < tokens.len() && #[trigger] tokens[i] is Capture
                    && tokens[i]->Capture_0.name() == Some(name),
    )
}

/// A match binds no name but those of the pattern's captures, besides what
/// was bound before.
pub proof fn lemma_match_binds_capture_names(
    tokens: Seq<TokenSpec>,
    at: int,
    input: Seq<char>,
    pos: int,
    delimiter: Option<char>,
    captured: Map<Seq<char>, Seq<char>>,
)
    requires
        0 <= at,
        matched_from(tokens, at, input, pos, delimiter, captured) is Some,
    ensures
        forall|name: Seq<char>| #[trigger]
            matched_from(tokens, at, input, pos, delimiter, captured)->Some_0.contains_key(name)
                ==> captured.contains_key(name) || capture_names(tokens).contains(name),
    decreases tokens.len() - at,
{
    if at < tokens.len() {
        match tokens[at] {
            TokenSpec::Exact(literal) => {
                lemma_match_binds_capture_names(
                    tokens,
                    at + 1,
                    input,
                    pos + literal.len(),
                    delimiter,
                    captured,
                );
            },
            TokenSpec::End => {
                lemma_match_binds_capture_names(tokens, at + 1, input, pos, delimiter, captured);
            },
            TokenSpec::Capture(capture) => {
                let end = capture_end(capture, token_after(tokens, at), input, pos, delimiter)->Some_0;
                let next = bound(captured, capture, input.subrange(pos, end));
                lemma_match_binds_capture_names(tokens, at + 1, input, end, delimiter, next);
                assert forall|name: Seq<char>| #[trigger]
                    next.contains_key(name) implies captured.contains_key(name)
                    || capture_names(tokens).contains(name) by {
                    if !captured.contains_key(name) {
                        assert(tokens[at] is Capture && tokens[at]->Capture_0.name() == Some(name));
                    }
                }
            },
        }
    }
}

/// Only named captures appear in the result of a match: every name that is
/// bound is the name of a capture of the pattern.
pub proof fn lemma_match_binds_only_captures(
    tokens: Seq<TokenSpec>,
    field_type: FieldType,
    input: Seq<char>,
)
    requires
        matched(tokens, field_type, input) is Some,
    ensures
        matched(tokens, field_type, input)->Some_0.dom().subset_of(capture_names(tokens)),
{
    lemma_match_binds_capture_names(tokens, 0, input, 0, delimiter(field_type), Map::empty());
}

} // verus!
