//! Compacting raw tokens into the compiled form that paths are matched
//! against: every run of literal text becomes one token.

use crate::grammar::parse_spec;
use crate::parser::{parse, PrettyParseError};
use crate::token::{
    CaptureOrExact, CaptureVariant, FieldType, MatcherToken, RawTokenSpec, RefCaptureVariant,
    RouteParserToken, TokenSpec, ValueSpec,
};
use vstd::prelude::*;
use vstd::std_specs::convert::FromSpecImpl;
use vstd::string::StringExecFns;

verus! {

impl<'a> From<RefCaptureVariant<'a>> for CaptureVariant {
    /// The same capture, with a name of its own.
    fn from(v: RefCaptureVariant<'a>) -> (owned: Self)
        ensures
            owned@ == v@,
    {
        match v {
            RefCaptureVariant::Named(s) => CaptureVariant::Named(s.to_owned()),
            RefCaptureVariant::ManyNamed(s) => CaptureVariant::ManyNamed(s.to_owned()),
            RefCaptureVariant::NumberedNamed { sections, name } => CaptureVariant::NumberedNamed {
                sections,
                name: name.to_owned(),
            },
            RefCaptureVariant::Unnamed => CaptureVariant::Unnamed,
            RefCaptureVariant::ManyUnnamed => CaptureVariant::ManyUnnamed,
            RefCaptureVariant::NumberedUnnamed { sections } => CaptureVariant::NumberedUnnamed {
                sections,
            },
        }
    }
}

impl<'a> FromSpecImpl<RefCaptureVariant<'a>> for CaptureVariant {
    /// An owned name is a new value each time: the conversion is stated by
    /// its view, not as a function.
    open spec fn obeys_from_spec() -> bool {
        false
    }

    /// Some owned capture with the same view.
    open spec fn from_spec(v: RefCaptureVariant<'a>) -> Self {
        choose|owned: CaptureVariant| owned@ == v@
    }
}

impl<'a> From<CaptureOrExact<'a>> for MatcherToken {
    /// The compiled token that a query value alone stands for.
    fn from(value: CaptureOrExact<'a>) -> (token: Self)
        ensures
            token@ == value_token(value@),
    {
        match value {
            CaptureOrExact::Exact(m) => MatcherToken::Exact(m.to_owned()),
            CaptureOrExact::Capture(v) => MatcherToken::Capture(CaptureVariant::from(v)),
        }
    }
}

impl<'a> FromSpecImpl<CaptureOrExact<'a>> for MatcherToken {
    /// Owned text is a new value each time: the conversion is stated by its
    /// view, not as a function.
    open spec fn obeys_from_spec() -> bool {
        false
    }

    /// Some compiled token with the view that the value stands for.
    open spec fn from_spec(value: CaptureOrExact<'a>) -> Self {
        choose|token: MatcherToken| token@ == value_token(value@)
    }
}

/// The compiled token that a query value alone stands for.
pub open spec fn value_token(value: ValueSpec) -> TokenSpec {
    match value {
        ValueSpec::Exact(literal) => TokenSpec::Exact(literal),
        ValueSpec::Capture(capture) => TokenSpec::Capture(capture),
    }
}

/// The text of a run of textual tokens, one after the other.
pub open spec fn joined(run: Seq<RawTokenSpec>) -> Seq<char>
    decreases run.len(),
{
    if run.len() == 0 {
        Seq::empty()
    } else {
        joined(run.drop_last()) + run.last().text()
    }
}

/// The text gathered so far, where `None` is an empty run.
pub open spec fn pending_text(pending: Option<Seq<char>>) -> Seq<char> {
    match pending {
        Some(text) => text,
        None => Seq::empty(),
    }
}

/// The token that a run is flushed into: none for an empty run.
pub open spec fn flushed(pending: Option<Seq<char>>) -> Seq<TokenSpec> {
    match pending {
        Some(text) => seq![TokenSpec::Exact(text)],
        None => Seq::empty(),
    }
}

/// What raw tokens compile to behind a run of literal text that is still
/// open.
///
/// A literal token extends the run. A capture closes the run and follows it; a
/// query pair with a captured value first extends the run by its key and `=`.
/// The end marker closes the run and follows it. What is left of the run at
/// the end is closed.
pub open spec fn optimized_after(pending: Option<Seq<char>>, tokens: Seq<RawTokenSpec>) -> Seq<
    TokenSpec,
>
    decreases tokens.len(),
{
    if tokens.len() == 0 {
        flushed(pending)
    } else {
        let rest = tokens.drop_first();
        match tokens.first() {
            RawTokenSpec::Capture(capture) => flushed(pending) + seq![TokenSpec::Capture(capture)]
                + optimized_after(None, rest),
            RawTokenSpec::Query { ident, value: ValueSpec::Capture(capture) } => seq![
                TokenSpec::Exact(pending_text(pending) + ident + seq!['=']),
                TokenSpec::Capture(capture),
            ] + optimized_after(None, rest),
            RawTokenSpec::End => flushed(pending) + seq![TokenSpec::End] + optimized_after(
                None,
                rest,
            ),
            literal => optimized_after(
                Some(pending_text(pending) + literal.text()),
                rest,
            ),
        }
    }
}

/// What a sequence of raw tokens compiles to.
pub open spec fn optimized(tokens: Seq<RawTokenSpec>) -> Seq<TokenSpec> {
    optimized_after(None, tokens)
}

/// No two literal tokens stand side by side.
pub open spec fn no_adjacent_exact(tokens: Seq<TokenSpec>) -> bool {
    forall|i: int|
        0 <= i && i + 1 < tokens.len() ==> !(#[trigger] tokens[i] is Exact && tokens[i + 1] is Exact)
}

/// Compiled tokens never hold two literal tokens side by side, whatever the
/// raw tokens were.
pub proof fn lemma_optimized_is_merged(pending: Option<Seq<char>>, tokens: Seq<RawTokenSpec>)
    ensures
        no_adjacent_exact(optimized_after(pending, tokens)),
    decreases tokens.len(),
{
    if tokens.len() > 0 {
        let rest = tokens.drop_first();
        if tokens.first().is_literal() {
            lemma_optimized_is_merged(
                Some(pending_text(pending) + tokens.first().text()),
                rest,
            );
        } else {
            lemma_optimized_is_merged(None, rest);
        }
    }
}

/// Every capture but a leading one stands directly behind literal text.
pub open spec fn captures_follow_literals(tokens: Seq<RawTokenSpec>) -> bool {
    forall|i: int|
        0 < i < tokens.len() && #[trigger] tokens[i] is Capture ==> tokens[i - 1].is_literal()
}

/// The end marker stands nowhere but at the end.
pub open spec fn end_is_last_raw(tokens: Seq<RawTokenSpec>) -> bool {
    forall|i: int| 0 <= i < tokens.len() && #[trigger] tokens[i] is End ==> i == tokens.len() - 1
}

/// Every capture but a leading one stands directly behind a literal token.
pub open spec fn captures_follow_exact(tokens: Seq<TokenSpec>) -> bool {
    forall|i: int|
        0 < i < tokens.len() && #[trigger] tokens[i] is Capture ==> tokens[i - 1] is Exact
}

/// The end marker stands nowhere but at the end.
pub open spec fn end_is_last(tokens: Seq<TokenSpec>) -> bool {
    forall|i: int| 0 <= i < tokens.len() && #[trigger] tokens[i] is End ==> i == tokens.len() - 1
}

/// Every capture of a fixed number of segments takes at least one.
pub open spec fn counts_are_positive_raw(tokens: Seq<RawTokenSpec>) -> bool {
    forall|i: int|
        0 <= i < tokens.len() && (#[trigger] tokens[i]).capture() is Some
            ==> tokens[i].capture()->Some_0.has_positive_count()
}

/// Every capture of a fixed number of segments takes at least one.
pub open spec fn counts_are_positive(tokens: Seq<TokenSpec>) -> bool {
    forall|i: int|
        0 <= i < tokens.len() && #[trigger] tokens[i] is Capture
            ==> tokens[i]->Capture_0.has_positive_count()
}

/// The shape of a compiled pattern in which no capture is ambiguous: literal
/// tokens are merged, a literal token parts any two captures, the end marker
/// is last, and a capture of a fixed number of segments takes at least one.
pub open spec fn well_formed(tokens: Seq<TokenSpec>) -> bool {
    &&& no_adjacent_exact(tokens)
    &&& captures_follow_exact(tokens)
    &&& end_is_last(tokens)
    &&& counts_are_positive(tokens)
}

/// Compiling keeps every capture as it is: where the counts of the raw
/// tokens are positive, so are those of the compiled tokens.
pub proof fn lemma_optimized_keeps_counts(pending: Option<Seq<char>>, tokens: Seq<RawTokenSpec>)
    requires
        counts_are_positive_raw(tokens),
    ensures
        counts_are_positive(optimized_after(pending, tokens)),
    decreases tokens.len(),
{
    if tokens.len() > 0 {
        let rest = tokens.drop_first();
        assert forall|i: int|
            0 <= i < rest.len() && (#[trigger] rest[i]).capture() is Some implies rest[i].capture()->Some_0.has_positive_count() by {
            assert(rest[i] == tokens[i + 1]);
        }
        assert(tokens[0].capture() is Some ==> tokens[0].capture()->Some_0.has_positive_count());
        if tokens.first().is_literal() {
            lemma_optimized_keeps_counts(Some(pending_text(pending) + tokens.first().text()), rest);
        } else {
            lemma_optimized_keeps_counts(None, rest);
        }
    }
}

/// Where literal text parts the captures of the raw tokens, a literal token
/// parts the captures of the compiled tokens; and the compiled tokens start
/// with a capture only where the raw tokens do and no text was gathered.
pub proof fn lemma_optimized_keeps_captures_apart(
    pending: Option<Seq<char>>,
    tokens: Seq<RawTokenSpec>,
)
    requires
        captures_follow_literals(tokens),
    ensures
        captures_follow_exact(optimized_after(pending, tokens)),
        optimized_after(pending, tokens).len() > 0 && optimized_after(pending, tokens).first()
            is Capture ==> pending is None && tokens.len() > 0 && tokens.first() is Capture,
    decreases tokens.len(),
{
    if tokens.len() > 0 {
        let rest = tokens.drop_first();
        assert forall|i: int| 0 < i < rest.len() && #[trigger] rest[i] is Capture implies rest[i
            - 1].is_literal() by {
            assert(rest[i] == tokens[i + 1]);
            assert(rest[i - 1] == tokens[i]);
        }
        if rest.len() > 0 && rest.first() is Capture {
            assert(tokens[1] is Capture);
            assert(tokens[0].is_literal());
        }
        if tokens.first().is_literal() {
            lemma_optimized_keeps_captures_apart(
                Some(pending_text(pending) + tokens.first().text()),
                rest,
            );
        } else {
            lemma_optimized_keeps_captures_apart(None, rest);
        }
    }
}

/// Where the end marker is last in the raw tokens, it is last in the compiled
/// tokens.
pub proof fn lemma_optimized_keeps_end_last(pending: Option<Seq<char>>, tokens: Seq<RawTokenSpec>)
    requires
        end_is_last_raw(tokens),
    ensures
        end_is_last(optimized_after(pending, tokens)),
    decreases tokens.len(),
{
    if tokens.len() > 0 {
        let rest = tokens.drop_first();
        assert forall|i: int| 0 <= i < rest.len() && #[trigger] rest[i] is End implies i
            == rest.len() - 1 by {
            assert(rest[i] == tokens[i + 1]);
        }
        if tokens.first() is End {
            assert(tokens[0] is End);
            assert(rest.len() == 0);
        }
        if tokens.first().is_literal() {
            lemma_optimized_keeps_end_last(
                Some(pending_text(pending) + tokens.first().text()),
                rest,
            );
        } else {
            lemma_optimized_keeps_end_last(None, rest);
        }
    }
}

/// Closes the run: its text becomes one literal token, and the run is empty
/// again.
fn empty_run(run: &mut Vec<RouteParserToken>) -> (token: MatcherToken)
    requires
        forall|i: int| 0 <= i < old(run).len() ==> (#[trigger] old(run)[i])@.is_textual(),
    ensures
        final(run).len() == 0,
        token@ == TokenSpec::Exact(joined(old(run).deep_view())),
{
    let mut segment = String::new();
    let mut i: usize = 0;
    while i < run.len()
        invariant
            i <= run.len(),
            *run == *old(run),
            forall|j: int| 0 <= j < run.len() ==> (#[trigger] run[j])@.is_textual(),
            segment@ == joined(run.deep_view().take(i as int)),
        decreases run.len() - i,
    {
        proof {
            let longer = run.deep_view().take(i + 1);
            assert(longer.drop_last() =~= run.deep_view().take(i as int));
            assert(longer.last() == run[i as int]@);
        }
        segment.append(run[i].as_str());
        i += 1;
    }
    assert(run.deep_view().take(run.len() as int) =~= run.deep_view());
    run.clear();
    MatcherToken::Exact(segment)
}

/// Closes the run in front of a captured query value: the text of the run,
/// the key and `=` become one literal token.
fn empty_run_with_query_cap_at_end(run: &mut Vec<RouteParserToken>, query_lhs: &str) -> (token:
    MatcherToken)
    requires
        forall|i: int| 0 <= i < old(run).len() ==> (#[trigger] old(run)[i])@.is_textual(),
    ensures
        final(run).len() == 0,
        token@ == TokenSpec::Exact(joined(old(run).deep_view()) + query_lhs@ + seq!['=']),
{
    match empty_run(run) {
        MatcherToken::Exact(mut segment) => {
            segment.append(query_lhs);
            segment.append("=");
            proof {
                reveal_strlit("=");
                assert("="@ =~= seq!['=']);
            }
            MatcherToken::Exact(segment)
        },
        other => other,
    }
}

/// The run as the text gathered so far.
pub open spec fn run_pending(run: Seq<RawTokenSpec>) -> Option<Seq<char>> {
    if run.len() == 0 {
        None
    } else {
        Some(joined(run))
    }
}

/// Converts raw tokens into compiled tokens.
///
/// Consecutive literal tokens are condensed into one `Exact` token; a query
/// key in front of a captured value ends the literal before the capture with
/// the key and `=`. The result never holds two `Exact` tokens side by side.
pub fn convert_tokens(tokens: &[RouteParserToken]) -> (compiled: Vec<MatcherToken>)
    ensures
        compiled.deep_view() == optimized(tokens.deep_view()),
        no_adjacent_exact(compiled.deep_view()),
{
    let mut new_tokens: Vec<MatcherToken> = Vec::new();
    let mut run: Vec<RouteParserToken> = Vec::new();
    let mut i: usize = 0;
    proof {
        assert(tokens.deep_view().skip(0) =~= tokens.deep_view());
        assert(new_tokens.deep_view() =~= Seq::<TokenSpec>::empty());
        assert(run.deep_view() =~= Seq::<RawTokenSpec>::empty());
        assert(Seq::<TokenSpec>::empty() + optimized(tokens.deep_view()) =~= optimized(
            tokens.deep_view(),
        ));
    }
    while i < tokens.len()
        invariant
            i <= tokens.len(),
            forall|j: int| 0 <= j < run.len() ==> (#[trigger] run[j])@.is_textual(),
            optimized(tokens.deep_view()) == new_tokens.deep_view() + optimized_after(
                run_pending(run.deep_view()),
                tokens.deep_view().skip(i as int),
            ),
        decreases tokens.len() - i,
    {
        let token = &tokens[i];
        let ghost rest = tokens.deep_view().skip(i as int);
        let ghost before = new_tokens.deep_view();
        let ghost gathered = run.deep_view();
        proof {
            assert(rest.first() == token@);
            assert(rest.drop_first() =~= tokens.deep_view().skip(i + 1));
        }
        match token {
            RouteParserToken::QueryBegin
            | RouteParserToken::FragmentBegin
            | RouteParserToken::Separator
            | RouteParserToken::QuerySeparator
            | RouteParserToken::Exact(_) => {
                run.push(*token);
                proof {
                    assert(run.deep_view().drop_last() =~= gathered);
                    assert(run.deep_view().last() == token@);
                    assert(joined(gathered) == pending_text(run_pending(gathered)));
                }
            },
            RouteParserToken::Capture(cap) => {
                if !run.is_empty() {
                    let flushed_token = empty_run(&mut run);
                    new_tokens.push(flushed_token);
                }
                new_tokens.push(MatcherToken::Capture(CaptureVariant::from(*cap)));
                proof {
                    assert(new_tokens.deep_view() =~= before + flushed(run_pending(gathered))
                        + seq![TokenSpec::Capture(cap@)]);
                    assert(run.deep_view() =~= Seq::<RawTokenSpec>::empty());
                }
            },
            RouteParserToken::Query { ident, capture_or_exact } => match capture_or_exact {
                CaptureOrExact::Exact(s) => {
                    run.push(RouteParserToken::Exact(ident));
                    run.push(RouteParserToken::Exact("="));
                    run.push(RouteParserToken::Exact(s));
                    proof {
                        reveal_strlit("=");
                        assert("="@ =~= seq!['=']);
                        let one = gathered.push(RawTokenSpec::Exact(ident@));
                        let two = one.push(RawTokenSpec::Exact(seq!['=']));
                        let three = two.push(RawTokenSpec::Exact(s@));
                        assert(run.deep_view() =~= three);
                        assert(three.drop_last() =~= two);
                        assert(two.drop_last() =~= one);
                        assert(one.drop_last() =~= gathered);
                        assert(joined(gathered) == pending_text(run_pending(gathered)));
                        assert(joined(one) == joined(gathered) + ident@);
                        assert(joined(two) == joined(one) + seq!['=']);
                        assert(joined(three) == joined(two) + s@);
                        assert(joined(three) =~= joined(gathered) + (ident@ + seq!['='] + s@));
                    }
                },
                CaptureOrExact::Capture(cap) => {
                    proof {
                        assert(joined(gathered) == pending_text(run_pending(gathered)));
                    }
                    let flushed_token = empty_run_with_query_cap_at_end(&mut run, *ident);
                    new_tokens.push(flushed_token);
                    new_tokens.push(MatcherToken::Capture(CaptureVariant::from(*cap)));
                    proof {
                        assert(new_tokens.deep_view() =~= before + seq![
                            TokenSpec::Exact(joined(gathered) + ident@ + seq!['=']),
                            TokenSpec::Capture(cap@),
                        ]);
                        assert(run.deep_view() =~= Seq::<RawTokenSpec>::empty());
                    }
                },
            },
            RouteParserToken::End => {
                if !run.is_empty() {
                    let flushed_token = empty_run(&mut run);
                    new_tokens.push(flushed_token);
                }
                new_tokens.push(MatcherToken::End);
                proof {
                    assert(new_tokens.deep_view() =~= before + flushed(run_pending(gathered))
                        + seq![TokenSpec::End]);
                    assert(run.deep_view() =~= Seq::<RawTokenSpec>::empty());
                }
            },
        }
        i += 1;
    }
    // Empty the run at the end.
    let ghost before = new_tokens.deep_view();
    let ghost gathered = run.deep_view();
    if !run.is_empty() {
        let flushed_token = empty_run(&mut run);
        new_tokens.push(flushed_token);
    }
    proof {
        assert(tokens.deep_view().skip(tokens.len() as int) =~= Seq::<RawTokenSpec>::empty());
        assert(new_tokens.deep_view() =~= before + flushed(run_pending(gathered)));
        lemma_optimized_is_merged(None, tokens.deep_view());
    }
    new_tokens
}

/// Parses the pattern and then optimizes the tokens.
pub fn parse_str_and_optimize_tokens(i: &str, field_type: FieldType) -> (compiled: Result<
    Vec<MatcherToken>,
    PrettyParseError,
>)
    ensures
        match compiled {
            Ok(tokens) => parse_spec(i@, field_type) is Ok && tokens.deep_view() == optimized(
                parse_spec(i@, field_type)->Ok_0,
            ) && no_adjacent_exact(tokens.deep_view()),
            Err(error) => parse_spec(i@, field_type) is Err && error.reports(
                i@,
                parse_spec(i@, field_type)->Err_0,
            ),
        },
{
    match parse(i, field_type) {
        Ok(tokens) => Ok(convert_tokens(tokens.as_slice())),
        Err(error) => Err(error),
    }
}

} // verus!
