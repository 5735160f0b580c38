use route_pattern::grammar::ParseErrorReason;
use route_pattern::optimizer::{convert_tokens, parse_str_and_optimize_tokens};
use route_pattern::token::{
    CaptureOrExact, CaptureVariant, FieldType, MatcherToken, RefCaptureVariant, RouteParserToken,
};

fn exact(text: &str) -> MatcherToken {
    MatcherToken::Exact(text.to_string())
}

fn named(name: &str) -> MatcherToken {
    MatcherToken::Capture(CaptureVariant::Named(name.to_string()))
}

fn no_two_exact_side_by_side(tokens: &[MatcherToken]) -> bool {
    tokens.windows(2).all(|pair| {
        !(matches!(pair[0], MatcherToken::Exact(_)) && matches!(pair[1], MatcherToken::Exact(_)))
    })
}

#[test]
fn no_tokens_compile_to_no_tokens() {
    assert_eq!(convert_tokens(&[]), vec![]);
}

#[test]
fn literal_tokens_are_condensed_into_one() {
    let raw = [
        RouteParserToken::Separator,
        RouteParserToken::Exact("lorem"),
        RouteParserToken::Separator,
        RouteParserToken::Exact("ipsum"),
        RouteParserToken::QueryBegin,
        RouteParserToken::QuerySeparator,
        RouteParserToken::FragmentBegin,
    ];
    assert_eq!(convert_tokens(&raw), vec![exact("/lorem/ipsum?&#")]);
}

#[test]
fn capture_closes_the_run() {
    let raw = [
        RouteParserToken::Separator,
        RouteParserToken::Exact("b"),
        RouteParserToken::Separator,
        RouteParserToken::Capture(RefCaptureVariant::Named("sub_path")),
        RouteParserToken::Separator,
        RouteParserToken::Exact("c"),
    ];
    assert_eq!(convert_tokens(&raw), vec![exact("/b/"), named("sub_path"), exact("/c")]);
}

#[test]
fn empty_run_leaves_no_token() {
    let raw = [
        RouteParserToken::Capture(RefCaptureVariant::Unnamed),
        RouteParserToken::Capture(RefCaptureVariant::ManyUnnamed),
        RouteParserToken::End,
    ];
    assert_eq!(
        convert_tokens(&raw),
        vec![
            MatcherToken::Capture(CaptureVariant::Unnamed),
            MatcherToken::Capture(CaptureVariant::ManyUnnamed),
            MatcherToken::End,
        ]
    );
}

#[test]
fn run_of_empty_literals_is_flushed() {
    let raw = [RouteParserToken::Exact(""), RouteParserToken::End];
    assert_eq!(convert_tokens(&raw), vec![exact(""), MatcherToken::End]);
}

#[test]
fn literal_query_pair_joins_the_run() {
    let raw = [
        RouteParserToken::QueryBegin,
        RouteParserToken::Query { ident: "lorem", capture_or_exact: CaptureOrExact::Exact("ipsum") },
        RouteParserToken::QuerySeparator,
        RouteParserToken::Query { ident: "dolor", capture_or_exact: CaptureOrExact::Exact("") },
    ];
    assert_eq!(convert_tokens(&raw), vec![exact("?lorem=ipsum&dolor=")]);
}

#[test]
fn captured_query_pair_ends_the_literal_with_its_key() {
    let raw = [
        RouteParserToken::QueryBegin,
        RouteParserToken::Query {
            ident: "lorem",
            capture_or_exact: CaptureOrExact::Capture(RefCaptureVariant::Named("ipsum")),
        },
    ];
    assert_eq!(convert_tokens(&raw), vec![exact("?lorem="), named("ipsum")]);
}

#[test]
fn captured_query_pair_without_a_run_still_gets_its_key() {
    let raw = [
        RouteParserToken::Capture(RefCaptureVariant::Unnamed),
        RouteParserToken::Query {
            ident: "k",
            capture_or_exact: CaptureOrExact::Capture(RefCaptureVariant::Named("v")),
        },
    ];
    assert_eq!(
        convert_tokens(&raw),
        vec![MatcherToken::Capture(CaptureVariant::Unnamed), exact("k="), named("v")]
    );
}

#[test]
fn end_closes_the_run() {
    let raw = [RouteParserToken::Separator, RouteParserToken::Exact("a"), RouteParserToken::End];
    assert_eq!(convert_tokens(&raw), vec![exact("/a"), MatcherToken::End]);
}

#[test]
fn every_capture_keeps_its_kind() {
    let raw = [
        RouteParserToken::Capture(RefCaptureVariant::Unnamed),
        RouteParserToken::Capture(RefCaptureVariant::Named("a")),
        RouteParserToken::Capture(RefCaptureVariant::ManyUnnamed),
        RouteParserToken::Capture(RefCaptureVariant::ManyNamed("b")),
        RouteParserToken::Capture(RefCaptureVariant::NumberedUnnamed { sections: 2 }),
        RouteParserToken::Capture(RefCaptureVariant::NumberedNamed { sections: 3, name: "c" }),
    ];
    assert_eq!(
        convert_tokens(&raw),
        vec![
            MatcherToken::Capture(CaptureVariant::Unnamed),
            MatcherToken::Capture(CaptureVariant::Named("a".to_string())),
            MatcherToken::Capture(CaptureVariant::ManyUnnamed),
            MatcherToken::Capture(CaptureVariant::ManyNamed("b".to_string())),
            MatcherToken::Capture(CaptureVariant::NumberedUnnamed { sections: 2 }),
            MatcherToken::Capture(CaptureVariant::NumberedNamed {
                sections: 3,
                name: "c".to_string(),
            }),
        ]
    );
}

#[test]
fn borrowed_capture_becomes_owned() {
    assert_eq!(
        CaptureVariant::from(RefCaptureVariant::ManyNamed("rest")),
        CaptureVariant::ManyNamed("rest".to_string())
    );
    assert_eq!(
        CaptureVariant::from(RefCaptureVariant::NumberedNamed { sections: 4, name: "n" }),
        CaptureVariant::NumberedNamed { sections: 4, name: "n".to_string() }
    );
    assert_eq!(CaptureVariant::from(RefCaptureVariant::Unnamed), CaptureVariant::Unnamed);
}

#[test]
fn query_value_becomes_a_compiled_token() {
    assert_eq!(MatcherToken::from(CaptureOrExact::Exact("ipsum")), exact("ipsum"));
    assert_eq!(
        MatcherToken::from(CaptureOrExact::Capture(RefCaptureVariant::Named("sit"))),
        named("sit")
    );
}

#[test]
fn compiled_tokens_can_be_cloned() {
    let tokens = vec![exact("/a/"), named("b"), MatcherToken::End];
    assert_eq!(tokens.clone(), tokens);
}

#[test]
fn optimizing_twice_yields_the_same() {
    let raw = [
        RouteParserToken::Separator,
        RouteParserToken::Exact("a"),
        RouteParserToken::Separator,
        RouteParserToken::Capture(RefCaptureVariant::ManyNamed("rest")),
        RouteParserToken::Separator,
        RouteParserToken::Exact("tail"),
        RouteParserToken::End,
    ];
    assert_eq!(convert_tokens(&raw), convert_tokens(&raw));
    assert_eq!(
        convert_tokens(&raw),
        vec![
            exact("/a/"),
            MatcherToken::Capture(CaptureVariant::ManyNamed("rest".to_string())),
            exact("/tail"),
            MatcherToken::End,
        ]
    );
}

#[test]
fn compiled_tokens_compile_to_themselves() {
    let compiled = parse_str_and_optimize_tokens("/a/:b/c/{2:d}!", FieldType::Path)
        .expect("the pattern is well formed");
    let raised: Vec<RouteParserToken> = compiled
        .iter()
        .map(|token| match token {
            MatcherToken::Exact(text) => RouteParserToken::Exact(text.as_str()),
            MatcherToken::Capture(CaptureVariant::Named(name)) => {
                RouteParserToken::Capture(RefCaptureVariant::Named(name.as_str()))
            }
            MatcherToken::Capture(CaptureVariant::NumberedNamed { sections, name }) => {
                RouteParserToken::Capture(RefCaptureVariant::NumberedNamed {
                    sections: *sections,
                    name: name.as_str(),
                })
            }
            MatcherToken::End => RouteParserToken::End,
            other => unreachable!("{:?} is not in the pattern", other),
        })
        .collect();
    assert_eq!(convert_tokens(&raised), compiled);
}

#[test]
fn no_two_exact_tokens_are_adjacent() {
    let patterns = ["", "/", "/a/b/c", "/a/:b/c", "/:a/:b", "/*/**!", "a//b/{2}/c!"];
    for pattern in patterns {
        let compiled = parse_str_and_optimize_tokens(pattern, FieldType::Path)
            .expect("the pattern is well formed");
        assert!(no_two_exact_side_by_side(&compiled), "{:?}", compiled);
    }
    let queries = ["?a=b&c=d", "?a=:b&c=d&e=:f", "?a=b&c=*!"];
    for pattern in queries {
        let compiled = parse_str_and_optimize_tokens(pattern, FieldType::Query)
            .expect("the pattern is well formed");
        assert!(no_two_exact_side_by_side(&compiled), "{:?}", compiled);
    }
    let raw = [
        RouteParserToken::Exact("a"),
        RouteParserToken::Exact("b"),
        RouteParserToken::End,
        RouteParserToken::Exact("c"),
        RouteParserToken::Query { ident: "k", capture_or_exact: CaptureOrExact::Exact("v") },
        RouteParserToken::Query {
            ident: "k",
            capture_or_exact: CaptureOrExact::Capture(RefCaptureVariant::Unnamed),
        },
        RouteParserToken::Exact("d"),
    ];
    let compiled = convert_tokens(&raw);
    assert!(no_two_exact_side_by_side(&compiled), "{:?}", compiled);
    assert_eq!(
        compiled,
        vec![
            exact("ab"),
            MatcherToken::End,
            exact("ck=vk="),
            MatcherToken::Capture(CaptureVariant::Unnamed),
            exact("d"),
        ]
    );
}

#[test]
fn pattern_is_parsed_and_optimized() {
    assert_eq!(
        parse_str_and_optimize_tokens("/b/:sub_path", FieldType::Path),
        Ok(vec![exact("/b/"), named("sub_path")])
    );
    assert_eq!(
        parse_str_and_optimize_tokens("?lorem=ipsum&dolor=:sit", FieldType::Query),
        Ok(vec![exact("?lorem=ipsum&dolor="), named("sit")])
    );
    assert_eq!(
        parse_str_and_optimize_tokens("#:number", FieldType::Fragment),
        Ok(vec![exact("#"), named("number")])
    );
    assert_eq!(parse_str_and_optimize_tokens("", FieldType::Path), Ok(vec![]));
}

#[test]
fn refused_pattern_is_not_optimized() {
    let error = parse_str_and_optimize_tokens("/a/:", FieldType::Path)
        .expect_err("the capture has no name");
    assert_eq!(error.reason, ParseErrorReason::MissingCaptureName);
    assert_eq!(error.position, 3);
    assert_eq!(error.remaining, ":");
}
