use route_pattern::captures::Captures;
use route_pattern::convert::{
    from_matches, optional_number, parse_field, parse_number, required, required_number,
    FromMatches, FromMatchesError,
};
use route_pattern::matcher::{compile, match_path};
use route_pattern::token::FieldType;

fn mapping(pairs: &[(&str, &str)]) -> Captures {
    let mut captures = Captures::new();
    for (name, value) in pairs {
        captures.insert(name.to_string(), value.to_string());
    }
    captures
}

fn missing(name: &str) -> FromMatchesError {
    FromMatchesError::MissingField { field_name: name.to_string() }
}

fn malformed(name: &str, value: &str) -> FromMatchesError {
    FromMatchesError::FailedParse { field_name: name.to_string(), value: value.to_string() }
}

#[derive(Debug, PartialEq)]
struct Numbered {
    number: usize,
}

impl FromMatches for Numbered {
    fn from_matches(matches: &Captures) -> Result<Self, FromMatchesError> {
        Ok(Numbered { number: required_number(matches, "number")? })
    }
}

#[derive(Debug, PartialEq)]
struct Props {
    number: Option<usize>,
    sub_path: Option<String>,
}

impl FromMatches for Props {
    fn from_matches(matches: &Captures) -> Result<Self, FromMatchesError> {
        Ok(Props {
            number: optional_number(matches, "number")?,
            sub_path: matches.get("sub_path").cloned(),
        })
    }
}

#[test]
fn new_mapping_is_empty() {
    let captures = Captures::new();
    assert!(captures.is_empty());
    assert_eq!(captures.len(), 0);
    assert_eq!(captures.get("a"), None);
    assert!(!captures.contains_key("a"));
}

#[test]
fn mapping_holds_what_was_inserted() {
    let captures = mapping(&[("a", "1"), ("b", "2")]);
    assert!(!captures.is_empty());
    assert_eq!(captures.len(), 2);
    assert_eq!(captures.get("a"), Some(&"1".to_string()));
    assert_eq!(captures.get("b"), Some(&"2".to_string()));
    assert_eq!(captures.get("c"), None);
    assert!(captures.contains_key("b"));
    assert!(!captures.contains_key(""));
}

#[test]
fn inserting_a_bound_name_replaces_its_text() {
    let captures = mapping(&[("a", "1"), ("b", "2"), ("a", "3")]);
    assert_eq!(captures.len(), 2);
    assert_eq!(captures.get("a"), Some(&"3".to_string()));
    assert_eq!(captures.get("b"), Some(&"2".to_string()));
}

#[test]
fn mapping_hands_out_each_binding_once() {
    let mut pairs = mapping(&[("a", "1"), ("b", "2"), ("a", "3")]).into_pairs();
    pairs.sort();
    assert_eq!(
        pairs,
        vec![("a".to_string(), "3".to_string()), ("b".to_string(), "2".to_string())]
    );
    assert_eq!(Captures::new().into_pairs(), vec![]);
}

#[test]
fn malformed_number_is_a_conversion_error() {
    let matches = mapping(&[("number", "abc")]);
    assert_eq!(Numbered::from_matches(&matches), Err(malformed("number", "abc")));
}

#[test]
fn missing_required_field_is_named() {
    let matches = mapping(&[("other", "12")]);
    assert_eq!(Numbered::from_matches(&matches), Err(missing("number")));
    assert_eq!(Numbered::from_matches(&Captures::new()), Err(missing("number")));
}

#[test]
fn well_formed_number_is_converted() {
    let matches = mapping(&[("number", "42"), ("other", "x")]);
    assert_eq!(Numbered::from_matches(&matches), Ok(Numbered { number: 42 }));
    assert_eq!(from_matches::<Numbered>(&matches), Ok(Numbered { number: 42 }));
}

#[test]
fn optional_fields_may_be_absent() {
    assert_eq!(
        Props::from_matches(&Captures::new()),
        Ok(Props { number: None, sub_path: None })
    );
    assert_eq!(
        Props::from_matches(&mapping(&[("sub_path", "hello")])),
        Ok(Props { number: None, sub_path: Some("hello".to_string()) })
    );
    assert_eq!(
        Props::from_matches(&mapping(&[("sub_path", "hello"), ("number", "7")])),
        Ok(Props { number: Some(7), sub_path: Some("hello".to_string()) })
    );
}

#[test]
fn optional_field_that_is_present_must_be_well_formed() {
    assert_eq!(
        Props::from_matches(&mapping(&[("number", "7x")])),
        Err(malformed("number", "7x"))
    );
}

#[test]
fn unit_is_built_from_any_mapping() {
    assert_eq!(<()>::from_matches(&Captures::new()), Ok(()));
    assert_eq!(<()>::from_matches(&mapping(&[("a", "b")])), Ok(()));
}

#[test]
fn optional_structure_is_none_where_it_cannot_be_built() {
    assert_eq!(<Option<Numbered>>::from_matches(&mapping(&[("number", "abc")])), Ok(None));
    assert_eq!(<Option<Numbered>>::from_matches(&Captures::new()), Ok(None));
    assert_eq!(
        <Option<Numbered>>::from_matches(&mapping(&[("number", "5")])),
        Ok(Some(Numbered { number: 5 }))
    );
}

#[test]
fn numbers_are_decimal_digits_after_an_optional_plus() {
    assert_eq!(parse_number("0"), Some(0));
    assert_eq!(parse_number("7"), Some(7));
    assert_eq!(parse_number("1234567890"), Some(1234567890));
    assert_eq!(parse_number("+15"), Some(15));
    assert_eq!(parse_number("007"), Some(7));
    assert_eq!(parse_number(""), None);
    assert_eq!(parse_number("+"), None);
    assert_eq!(parse_number("++1"), None);
    assert_eq!(parse_number("-1"), None);
    assert_eq!(parse_number("1+"), None);
    assert_eq!(parse_number("12a"), None);
    assert_eq!(parse_number(" 12"), None);
    assert_eq!(parse_number("1_000"), None);
    assert_eq!(parse_number("\u{663}"), None);
}

#[test]
fn numbers_must_fit_the_machine() {
    assert_eq!(parse_number(&usize::MAX.to_string()), Some(usize::MAX));
    assert_eq!(parse_number(&format!("{}0", usize::MAX)), None);
    assert_eq!(parse_number("340282366920938463463374607431768211456"), None);
    let one_more = format!("{}", usize::MAX as u128 + 1);
    assert_eq!(parse_number(&one_more), None);
}

#[test]
fn numbers_agree_with_the_standard_library() {
    for text in ["0", "+0", "10", "+", "", "9x", "00012", "18446744073709551615", "99999999999999999999"] {
        assert_eq!(parse_number(text), text.parse::<usize>().ok(), "{:?}", text);
    }
}

#[test]
fn required_text_is_found_or_named() {
    let matches = mapping(&[("sub_path", "hello")]);
    assert_eq!(required(&matches, "sub_path"), Ok(&"hello".to_string()));
    assert_eq!(required(&matches, "number"), Err(missing("number")));
}

#[test]
fn field_is_parsed_or_reported_with_its_text() {
    assert_eq!(parse_field("number", "12"), Ok(12));
    assert_eq!(parse_field("number", "twelve"), Err(malformed("number", "twelve")));
}

#[test]
fn required_number_is_found_and_parsed() {
    let matches = mapping(&[("a", "12"), ("b", "x")]);
    assert_eq!(required_number(&matches, "a"), Ok(12));
    assert_eq!(required_number(&matches, "b"), Err(malformed("b", "x")));
    assert_eq!(required_number(&matches, "c"), Err(missing("c")));
}

#[test]
fn optional_number_is_parsed_where_present() {
    let matches = mapping(&[("a", "12"), ("b", "x")]);
    assert_eq!(optional_number(&matches, "a"), Ok(Some(12)));
    assert_eq!(optional_number(&matches, "b"), Err(malformed("b", "x")));
    assert_eq!(optional_number(&matches, "c"), Ok(None));
}

#[test]
fn matched_path_becomes_a_typed_structure() {
    let matcher = compile("/b/:sub_path/:number", FieldType::Path).expect("the pattern is well formed");
    let captures = match_path(&matcher, "/b/hello/12").expect("the path matches");
    assert_eq!(
        Props::from_matches(&captures),
        Ok(Props { number: Some(12), sub_path: Some("hello".to_string()) })
    );
    let captures = match_path(&matcher, "/b/hello/twelve").expect("the path matches");
    assert_eq!(Props::from_matches(&captures), Err(malformed("number", "twelve")));
}
