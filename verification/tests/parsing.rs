use route_pattern::grammar::ParseErrorReason;
use route_pattern::parser::{parse, PrettyParseError};
use route_pattern::token::{CaptureOrExact, FieldType, RefCaptureVariant, RouteParserToken};

fn refused(pattern: &str, field_type: FieldType) -> PrettyParseError {
    match parse(pattern, field_type) {
        Ok(tokens) => panic!("{:?} was read into {:?}", pattern, tokens),
        Err(error) => error,
    }
}

fn written(capture: RefCaptureVariant) -> String {
    match capture {
        RefCaptureVariant::Unnamed => "*".to_string(),
        RefCaptureVariant::Named(name) => format!(":{}", name),
        RefCaptureVariant::ManyUnnamed => "**".to_string(),
        RefCaptureVariant::ManyNamed(name) => format!(":{}*", name),
        RefCaptureVariant::NumberedUnnamed { sections } => format!("{{{}}}", sections),
        RefCaptureVariant::NumberedNamed { sections, name } => format!("{{{}:{}}}", sections, name),
    }
}

fn report(remaining: &str, position: usize, reason: ParseErrorReason) -> PrettyParseError {
    PrettyParseError { remaining: remaining.to_string(), position, reason }
}

#[test]
fn empty_pattern_has_no_tokens() {
    assert_eq!(parse("", FieldType::Path), Ok(vec![]));
    assert_eq!(parse("", FieldType::Query), Ok(vec![]));
    assert_eq!(parse("", FieldType::Fragment), Ok(vec![]));
}

#[test]
fn literal_path_is_separators_and_literals() {
    assert_eq!(
        parse("/a/bc", FieldType::Path),
        Ok(vec![
            RouteParserToken::Separator,
            RouteParserToken::Exact("a"),
            RouteParserToken::Separator,
            RouteParserToken::Exact("bc"),
        ])
    );
}

#[test]
fn path_may_start_without_separator_and_repeat_it() {
    assert_eq!(
        parse("a//b/", FieldType::Path),
        Ok(vec![
            RouteParserToken::Exact("a"),
            RouteParserToken::Separator,
            RouteParserToken::Separator,
            RouteParserToken::Exact("b"),
            RouteParserToken::Separator,
        ])
    );
}

#[test]
fn named_capture_is_read() {
    assert_eq!(
        parse("/b/:sub_path", FieldType::Path),
        Ok(vec![
            RouteParserToken::Separator,
            RouteParserToken::Exact("b"),
            RouteParserToken::Separator,
            RouteParserToken::Capture(RefCaptureVariant::Named("sub_path")),
        ])
    );
}

#[test]
fn many_named_capture_is_read() {
    assert_eq!(
        parse("/:many*/tail", FieldType::Path),
        Ok(vec![
            RouteParserToken::Separator,
            RouteParserToken::Capture(RefCaptureVariant::ManyNamed("many")),
            RouteParserToken::Separator,
            RouteParserToken::Exact("tail"),
        ])
    );
}

#[test]
fn unnamed_captures_are_read() {
    assert_eq!(
        parse("/*/**", FieldType::Path),
        Ok(vec![
            RouteParserToken::Separator,
            RouteParserToken::Capture(RefCaptureVariant::Unnamed),
            RouteParserToken::Separator,
            RouteParserToken::Capture(RefCaptureVariant::ManyUnnamed),
        ])
    );
}

#[test]
fn numbered_captures_are_read() {
    assert_eq!(
        parse("/{3}/{12:pair}", FieldType::Path),
        Ok(vec![
            RouteParserToken::Separator,
            RouteParserToken::Capture(RefCaptureVariant::NumberedUnnamed { sections: 3 }),
            RouteParserToken::Separator,
            RouteParserToken::Capture(RefCaptureVariant::NumberedNamed {
                sections: 12,
                name: "pair",
            }),
        ])
    );
}

#[test]
fn count_may_hold_zeros_but_not_lead_with_one() {
    assert_eq!(
        parse("{100}", FieldType::Path),
        Ok(vec![RouteParserToken::Capture(RefCaptureVariant::NumberedUnnamed { sections: 100 })])
    );
    assert_eq!(
        refused("{007}", FieldType::Path),
        report("{007}", 0, ParseErrorReason::BadSectionCount)
    );
    assert_eq!(
        refused("/{01:a}", FieldType::Path),
        report("{01:a}", 1, ParseErrorReason::BadSectionCount)
    );
}

#[test]
fn count_may_be_as_large_as_the_machine_holds() {
    let pattern = format!("/{{{}}}", usize::MAX);
    assert_eq!(
        parse(&pattern, FieldType::Path),
        Ok(vec![
            RouteParserToken::Separator,
            RouteParserToken::Capture(RefCaptureVariant::NumberedUnnamed { sections: usize::MAX }),
        ])
    );
    let pattern = format!("/{{{}0}}", usize::MAX);
    assert_eq!(
        refused(&pattern, FieldType::Path),
        report(&pattern[1..], 1, ParseErrorReason::BadSectionCount)
    );
}

#[test]
fn tokens_spell_the_pattern() {
    let patterns = [
        (FieldType::Path, "/a//:b/*/**"),
        (FieldType::Path, "x/{2}/{10:y}/:rest*!"),
        (FieldType::Query, "?a=b&c=:d&e=*&f=!"),
        (FieldType::Fragment, "#:frag!"),
    ];
    for (field_type, pattern) in patterns {
        let tokens = parse(pattern, field_type).expect("the pattern is well formed");
        let mut spelled = String::new();
        for token in tokens {
            match token {
                RouteParserToken::Capture(capture) => spelled.push_str(&written(capture)),
                RouteParserToken::Query { ident, capture_or_exact } => {
                    spelled.push_str(ident);
                    spelled.push('=');
                    match capture_or_exact {
                        CaptureOrExact::Exact(value) => spelled.push_str(value),
                        CaptureOrExact::Capture(capture) => spelled.push_str(&written(capture)),
                    }
                }
                RouteParserToken::End => spelled.push('!'),
                textual => spelled.push_str(textual.as_str()),
            }
        }
        assert_eq!(spelled, pattern);
    }
}

#[test]
fn end_marker_is_read_last() {
    assert_eq!(
        parse("/a!", FieldType::Path),
        Ok(vec![RouteParserToken::Separator, RouteParserToken::Exact("a"), RouteParserToken::End])
    );
    assert_eq!(parse("!", FieldType::Path), Ok(vec![RouteParserToken::End]));
    assert_eq!(
        parse("/:id!", FieldType::Path),
        Ok(vec![
            RouteParserToken::Separator,
            RouteParserToken::Capture(RefCaptureVariant::Named("id")),
            RouteParserToken::End,
        ])
    );
}

#[test]
fn literal_holds_any_unreserved_character() {
    assert_eq!(
        parse("/caf\u{e9} au-lait.html", FieldType::Path),
        Ok(vec![RouteParserToken::Separator, RouteParserToken::Exact("caf\u{e9} au-lait.html")])
    );
}

#[test]
fn query_pairs_are_read() {
    assert_eq!(
        parse("?lorem=ipsum&dolor=:sit&x=*", FieldType::Query),
        Ok(vec![
            RouteParserToken::QueryBegin,
            RouteParserToken::Query {
                ident: "lorem",
                capture_or_exact: CaptureOrExact::Exact("ipsum"),
            },
            RouteParserToken::QuerySeparator,
            RouteParserToken::Query {
                ident: "dolor",
                capture_or_exact: CaptureOrExact::Capture(RefCaptureVariant::Named("sit")),
            },
            RouteParserToken::QuerySeparator,
            RouteParserToken::Query {
                ident: "x",
                capture_or_exact: CaptureOrExact::Capture(RefCaptureVariant::Unnamed),
            },
        ])
    );
}

#[test]
fn query_value_may_be_empty() {
    assert_eq!(
        parse("?a=&b=c!", FieldType::Query),
        Ok(vec![
            RouteParserToken::QueryBegin,
            RouteParserToken::Query { ident: "a", capture_or_exact: CaptureOrExact::Exact("") },
            RouteParserToken::QuerySeparator,
            RouteParserToken::Query { ident: "b", capture_or_exact: CaptureOrExact::Exact("c") },
            RouteParserToken::End,
        ])
    );
}

#[test]
fn query_may_stop_after_its_marker_or_a_separator() {
    assert_eq!(parse("?", FieldType::Query), Ok(vec![RouteParserToken::QueryBegin]));
    assert_eq!(
        parse("?a=b&", FieldType::Query),
        Ok(vec![
            RouteParserToken::QueryBegin,
            RouteParserToken::Query { ident: "a", capture_or_exact: CaptureOrExact::Exact("b") },
            RouteParserToken::QuerySeparator,
        ])
    );
}

#[test]
fn fragment_is_read() {
    assert_eq!(parse("#", FieldType::Fragment), Ok(vec![RouteParserToken::FragmentBegin]));
    assert_eq!(
        parse("#top", FieldType::Fragment),
        Ok(vec![RouteParserToken::FragmentBegin, RouteParserToken::Exact("top")])
    );
    assert_eq!(
        parse("#:number!", FieldType::Fragment),
        Ok(vec![
            RouteParserToken::FragmentBegin,
            RouteParserToken::Capture(RefCaptureVariant::Named("number")),
            RouteParserToken::End,
        ])
    );
}

#[test]
fn separator_is_refused_outside_a_path() {
    assert_eq!(
        refused("?a=b/c", FieldType::Query),
        report("/c", 4, ParseErrorReason::ReservedCharacter)
    );
    assert_eq!(
        refused("#a/b", FieldType::Fragment),
        report("/b", 2, ParseErrorReason::ReservedCharacter)
    );
    assert_eq!(
        refused("#/", FieldType::Fragment),
        report("/", 1, ParseErrorReason::ReservedCharacter)
    );
}

#[test]
fn section_marker_is_required() {
    assert_eq!(
        refused("a=b", FieldType::Query),
        report("a=b", 0, ParseErrorReason::MissingSectionMarker)
    );
    assert_eq!(
        refused("top", FieldType::Fragment),
        report("top", 0, ParseErrorReason::MissingSectionMarker)
    );
    assert_eq!(
        refused("!", FieldType::Query),
        report("!", 0, ParseErrorReason::MissingSectionMarker)
    );
}

#[test]
fn reserved_character_is_refused_where_it_opens_nothing() {
    assert_eq!(
        refused("/a/}", FieldType::Path),
        report("}", 3, ParseErrorReason::ReservedCharacter)
    );
    assert_eq!(
        refused("/a?b=c", FieldType::Path),
        report("?b=c", 2, ParseErrorReason::ReservedCharacter)
    );
    assert_eq!(
        refused("/a#b", FieldType::Path),
        report("#b", 2, ParseErrorReason::ReservedCharacter)
    );
    assert_eq!(
        refused("?&", FieldType::Query),
        report("&", 1, ParseErrorReason::ReservedCharacter)
    );
    assert_eq!(
        refused("?:a=b", FieldType::Query),
        report(":a=b", 1, ParseErrorReason::ReservedCharacter)
    );
    assert_eq!(
        refused("?a=b=c", FieldType::Query),
        report("=c", 4, ParseErrorReason::ReservedCharacter)
    );
}

#[test]
fn segments_must_be_parted() {
    assert_eq!(
        refused("/a:b", FieldType::Path),
        report(":b", 2, ParseErrorReason::AdjacentSegments)
    );
    assert_eq!(
        refused("/:a-b", FieldType::Path),
        report("-b", 3, ParseErrorReason::AdjacentSegments)
    );
    assert_eq!(
        refused("/:a:b", FieldType::Path),
        report(":b", 3, ParseErrorReason::AdjacentSegments)
    );
    assert_eq!(
        refused("/***", FieldType::Path),
        report("*", 3, ParseErrorReason::AdjacentSegments)
    );
    assert_eq!(
        refused("/:many**", FieldType::Path),
        report("*", 7, ParseErrorReason::AdjacentSegments)
    );
    assert_eq!(
        refused("?a=:b-c", FieldType::Query),
        report("-c", 5, ParseErrorReason::AdjacentSegments)
    );
    assert_eq!(
        refused("#:a:b", FieldType::Fragment),
        report(":b", 3, ParseErrorReason::AdjacentSegments)
    );
    assert_eq!(
        refused("#a*", FieldType::Fragment),
        report("*", 2, ParseErrorReason::AdjacentSegments)
    );
}

#[test]
fn capture_needs_a_name() {
    assert_eq!(
        refused("/:", FieldType::Path),
        report(":", 1, ParseErrorReason::MissingCaptureName)
    );
    assert_eq!(
        refused("/:/a", FieldType::Path),
        report(":/a", 1, ParseErrorReason::MissingCaptureName)
    );
    assert_eq!(
        refused("/{2:}", FieldType::Path),
        report("{2:}", 1, ParseErrorReason::MissingCaptureName)
    );
}

#[test]
fn section_count_must_be_a_positive_number() {
    assert_eq!(
        refused("/{}", FieldType::Path),
        report("{}", 1, ParseErrorReason::BadSectionCount)
    );
    assert_eq!(
        refused("/{0}", FieldType::Path),
        report("{0}", 1, ParseErrorReason::BadSectionCount)
    );
    assert_eq!(
        refused("/{name}", FieldType::Path),
        report("{name}", 1, ParseErrorReason::BadSectionCount)
    );
    assert_eq!(
        refused("/{99999999999999999999999999}", FieldType::Path),
        report("{99999999999999999999999999}", 1, ParseErrorReason::BadSectionCount)
    );
}

#[test]
fn braces_must_be_closed() {
    assert_eq!(
        refused("/{2", FieldType::Path),
        report("{2", 1, ParseErrorReason::UnterminatedCapture)
    );
    assert_eq!(
        refused("/{2:pair", FieldType::Path),
        report("{2:pair", 1, ParseErrorReason::UnterminatedCapture)
    );
    assert_eq!(
        refused("/{2:pair/x}", FieldType::Path),
        report("{2:pair/x}", 1, ParseErrorReason::UnterminatedCapture)
    );
    assert_eq!(
        refused("/{2x}", FieldType::Path),
        report("{2x}", 1, ParseErrorReason::UnterminatedCapture)
    );
}

#[test]
fn wide_captures_are_refused_outside_a_path() {
    assert_eq!(
        refused("?a=:b*", FieldType::Query),
        report("a=:b*", 1, ParseErrorReason::UnsupportedCapture)
    );
    assert_eq!(
        refused("?a=**", FieldType::Query),
        report("a=**", 1, ParseErrorReason::UnsupportedCapture)
    );
    assert_eq!(
        refused("#{2:x}", FieldType::Fragment),
        report("{2:x}", 1, ParseErrorReason::UnsupportedCapture)
    );
}

#[test]
fn query_key_needs_equals() {
    assert_eq!(
        refused("?a", FieldType::Query),
        report("a", 1, ParseErrorReason::MissingEquals)
    );
    assert_eq!(
        refused("?a=b&c&d=e", FieldType::Query),
        report("c&d=e", 5, ParseErrorReason::MissingEquals)
    );
}

#[test]
fn end_marker_must_be_last() {
    assert_eq!(
        refused("/a!/b", FieldType::Path),
        report("!/b", 2, ParseErrorReason::EndNotLast)
    );
    assert_eq!(refused("!!", FieldType::Path), report("!!", 0, ParseErrorReason::EndNotLast));
}

#[test]
fn report_counts_characters_not_bytes() {
    assert_eq!(
        refused("/\u{e9}\u{e9}/}", FieldType::Path),
        report("}", 4, ParseErrorReason::ReservedCharacter)
    );
}

#[test]
fn report_is_described_in_one_line() {
    let error = refused("/a/}", FieldType::Path);
    assert_eq!(error.describe(), "a reserved character stands where it has no meaning: }");
    assert_eq!(
        ParseErrorReason::EndNotLast.as_str(),
        "`!` must be the last character"
    );
    assert_eq!(error.clone(), error);
}

#[test]
fn textual_tokens_have_text() {
    assert_eq!(RouteParserToken::Separator.as_str(), "/");
    assert_eq!(RouteParserToken::Exact("lorem").as_str(), "lorem");
    assert_eq!(RouteParserToken::QueryBegin.as_str(), "?");
    assert_eq!(RouteParserToken::QuerySeparator.as_str(), "&");
    assert_eq!(RouteParserToken::FragmentBegin.as_str(), "#");
}
