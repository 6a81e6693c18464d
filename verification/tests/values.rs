use yew_router_route_parser::captures::Captures;
use yew_router_route_parser::matcher::match_route;
use yew_router_route_parser::text::{decimal_string, digit, Text};
use yew_router_route_parser::token::{Capture, CaptureVariant, MatcherToken};
use yew_router_route_parser::token_optimizer::parse_str_and_optimize_tokens;

#[test]
fn numerals_are_written_in_base_ten() {
    assert_eq!(decimal_string(0), "0");
    assert_eq!(decimal_string(7), "7");
    assert_eq!(decimal_string(10), "10");
    assert_eq!(decimal_string(1234567890), "1234567890");
    assert_eq!(decimal_string(usize::MAX), usize::MAX.to_string());
    assert!(digit('0') && digit('9') && !digit('a') && !digit('/'));
}

#[test]
fn a_text_is_read_by_character() {
    let text = Text::new("/ü/é");
    assert_eq!(text.len(), 4);
    assert_eq!(text.at(1), 'ü');
    assert!(text.is_at(2, '/'));
    assert!(!text.is_at(4, '/'));
    assert_eq!(text.slice(1, 3), "ü/");
    assert_eq!(text.owned(3, 4), "é");
    assert!(text.has_literal_at(2, "/é"));
    assert!(text.has_literal_at(4, ""));
    assert!(!text.has_literal_at(3, "é/"));
    assert!(!text.has_literal_at(5, ""));
}

#[test]
fn captured_values_are_kept_under_distinct_keys() {
    let mut captures = Captures::new();
    assert!(captures.is_empty());
    captures.insert("a".to_string(), "1".to_string());
    captures.insert("b".to_string(), "2".to_string());
    captures.insert("a".to_string(), "3".to_string());
    assert_eq!(captures.len(), 2);
    assert_eq!(captures.get("a"), Some(&"3".to_string()));
    assert_eq!(captures.get("b"), Some(&"2".to_string()));
    assert_eq!(captures.get("c"), None);
    assert_eq!(captures.key_at(0), "a");
    assert_eq!(captures.value_at(1), "2");
    let copy = captures.duplicate();
    assert_eq!(
        copy.into_entries(),
        vec![
            ("a".to_string(), "3".to_string()),
            ("b".to_string(), "2".to_string())
        ]
    );
}

#[test]
fn a_repeated_name_keeps_its_place_and_takes_the_later_value() {
    let name = |n: &str| MatcherToken::Capture(Capture::from(CaptureVariant::Named(n.to_string())));
    let tokens = vec![
        MatcherToken::Match("/".to_string()),
        name("a"),
        MatcherToken::Match("/".to_string()),
        name("b"),
        MatcherToken::Match("/".to_string()),
        name("a"),
    ];
    let captures = match_route(&tokens, "/1/2/3").unwrap();
    assert_eq!(
        captures.into_entries(),
        vec![
            ("a".to_string(), "3".to_string()),
            ("b".to_string(), "2".to_string())
        ]
    );
}

#[test]
fn captures_work_on_any_characters() {
    let tokens = parse_str_and_optimize_tokens("/ü/{x}/é", false).unwrap();
    let captures = match_route(&tokens, "/ü/日本語/é").unwrap();
    assert_eq!(captures.get("x"), Some(&"日本語".to_string()));
    assert!(match_route(&tokens, "/u/日本語/é").is_none());
}

#[test]
fn no_sections_are_an_empty_value() {
    let tokens = parse_str_and_optimize_tokens("/{0:n}x", false);
    assert!(tokens.is_err());
    let tokens = parse_str_and_optimize_tokens("/{0:n}/x", false).unwrap();
    let captures = match_route(&tokens, "//x").unwrap();
    assert_eq!(captures.get("n"), Some(&"".to_string()));
    let tokens = parse_str_and_optimize_tokens("/{1:n}", false).unwrap();
    let captures = match_route(&tokens, "/").unwrap();
    assert_eq!(captures.get("n"), Some(&"".to_string()));
    let tokens = parse_str_and_optimize_tokens("/{2:n}", false).unwrap();
    assert!(match_route(&tokens, "/a").is_none());
    let captures = match_route(&tokens, "/a/").unwrap();
    assert_eq!(captures.get("n"), Some(&"a/".to_string()));
}

#[test]
fn a_capture_before_optional_groups_may_reach_the_end() {
    let tokens = parse_str_and_optimize_tokens("/{a}(/x)(/y)", false).unwrap();
    let captures = match_route(&tokens, "/v").unwrap();
    assert_eq!(captures.get("a"), Some(&"v".to_string()));
    let captures = match_route(&tokens, "/v/y").unwrap();
    assert_eq!(captures.get("a"), Some(&"v".to_string()));
    let captures = match_route(&tokens, "/v/x/y").unwrap();
    assert_eq!(captures.get("a"), Some(&"v".to_string()));
    assert!(match_route(&tokens, "/v/y/x").is_none());
    let tokens = parse_str_and_optimize_tokens("/{a}(/{b})", false).unwrap();
    let captures = match_route(&tokens, "/v/w").unwrap();
    assert_eq!(
        captures.into_entries(),
        vec![
            ("a".to_string(), "v".to_string()),
            ("b".to_string(), "w".to_string())
        ]
    );
}

#[test]
fn a_capture_ends_at_the_first_delimiter() {
    let tokens = parse_str_and_optimize_tokens("/{a}/x", false).unwrap();
    assert!(match_route(&tokens, "/b/x/x").is_none());
    let captures = match_route(&tokens, "/b/c/x").unwrap();
    assert_eq!(captures.get("a"), Some(&"b/c".to_string()));
    assert!(match_route(&tokens, "/b").is_none());
}
