use yew_router_route_parser::idempotence::raise_tokens;
use yew_router_route_parser::matcher::next_delimiters;
use yew_router_route_parser::parser::parse;
use yew_router_route_parser::parser::primitives::{capture, capture_or_match};
use yew_router_route_parser::token::{
    Capture, CaptureOrMatch, CaptureVariant, MatcherToken, RouteParserToken,
};
use yew_router_route_parser::token_optimizer::{
    optimize_tokens, parse_str_and_optimize_tokens, token_to_string,
};

fn literal(text: &str) -> MatcherToken {
    MatcherToken::Match(text.to_string())
}

fn named(name: &str) -> Capture {
    Capture::from(CaptureVariant::Named(name.to_string()))
}

fn slash_group() -> MatcherToken {
    MatcherToken::Optional(vec![literal("/")])
}

#[test]
fn a_pattern_is_split_into_tokens() {
    assert_eq!(
        parse("/a/{b}?c=d&e={f}#g"),
        Ok(vec![
            RouteParserToken::Separator,
            RouteParserToken::Match("a".to_string()),
            RouteParserToken::Separator,
            RouteParserToken::Capture(named("b")),
            RouteParserToken::QueryBegin,
            RouteParserToken::QueryCapture {
                ident: "c".to_string(),
                capture_or_match: CaptureOrMatch::Match("d".to_string()),
            },
            RouteParserToken::QuerySeparator,
            RouteParserToken::QueryCapture {
                ident: "e".to_string(),
                capture_or_match: CaptureOrMatch::Capture(named("f")),
            },
            RouteParserToken::FragmentBegin,
            RouteParserToken::Match("g".to_string()),
        ])
    );
    assert_eq!(parse(""), Ok(vec![]));
    assert_eq!(parse("/"), Ok(vec![RouteParserToken::Separator]));
    assert_eq!(
        parse("{*}/skip/"),
        Ok(vec![
            RouteParserToken::Capture(Capture::from(CaptureVariant::ManyUnnamed)),
            RouteParserToken::Separator,
            RouteParserToken::Match("skip".to_string()),
            RouteParserToken::Separator,
        ])
    );
}

#[test]
fn optional_groups_nest() {
    assert_eq!(
        parse("/a(/b(/c))(#d)"),
        Ok(vec![
            RouteParserToken::Separator,
            RouteParserToken::Match("a".to_string()),
            RouteParserToken::Optional(vec![
                RouteParserToken::Separator,
                RouteParserToken::Match("b".to_string()),
                RouteParserToken::Optional(vec![
                    RouteParserToken::Separator,
                    RouteParserToken::Match("c".to_string()),
                ]),
            ]),
            RouteParserToken::Optional(vec![
                RouteParserToken::FragmentBegin,
                RouteParserToken::Match("d".to_string()),
            ]),
        ])
    );
    assert_eq!(
        parse("(?(query=this))"),
        Ok(vec![RouteParserToken::Optional(vec![
            RouteParserToken::QueryBegin,
            RouteParserToken::Optional(vec![RouteParserToken::QueryCapture {
                ident: "query".to_string(),
                capture_or_match: CaptureOrMatch::Match("this".to_string()),
            }]),
        ])])
    );
    assert_eq!(
        parse("?a=b&c=d(&e=f)(&g=h)#(i)"),
        Ok(vec![
            RouteParserToken::QueryBegin,
            RouteParserToken::QueryCapture {
                ident: "a".to_string(),
                capture_or_match: CaptureOrMatch::Match("b".to_string()),
            },
            RouteParserToken::QuerySeparator,
            RouteParserToken::QueryCapture {
                ident: "c".to_string(),
                capture_or_match: CaptureOrMatch::Match("d".to_string()),
            },
            RouteParserToken::Optional(vec![
                RouteParserToken::QuerySeparator,
                RouteParserToken::QueryCapture {
                    ident: "e".to_string(),
                    capture_or_match: CaptureOrMatch::Match("f".to_string()),
                },
            ]),
            RouteParserToken::Optional(vec![
                RouteParserToken::QuerySeparator,
                RouteParserToken::QueryCapture {
                    ident: "g".to_string(),
                    capture_or_match: CaptureOrMatch::Match("h".to_string()),
                },
            ]),
            RouteParserToken::FragmentBegin,
            RouteParserToken::Optional(vec![RouteParserToken::Match("i".to_string())]),
        ])
    );
}

#[test]
fn captures_may_list_allowed_values() {
    assert_eq!(
        capture("{x(yes|no)}/rest"),
        Ok((
            "/rest",
            RouteParserToken::Capture(Capture {
                capture_variant: CaptureVariant::Named("x".to_string()),
                exact_possibilities: Some(vec!["yes".to_string(), "no".to_string()]),
            })
        ))
    );
    assert_eq!(
        capture("{(yes|no)}"),
        Ok((
            "",
            RouteParserToken::Capture(Capture {
                capture_variant: CaptureVariant::Unnamed,
                exact_possibilities: Some(vec!["yes".to_string(), "no".to_string()]),
            })
        ))
    );
    assert_eq!(
        capture("{*(a)}"),
        Ok((
            "",
            RouteParserToken::Capture(Capture {
                capture_variant: CaptureVariant::ManyUnnamed,
                exact_possibilities: Some(vec!["a".to_string()]),
            })
        ))
    );
    assert_eq!(
        capture("{12:n(a|b|c)}"),
        Ok((
            "",
            RouteParserToken::Capture(Capture {
                capture_variant: CaptureVariant::NumberedNamed {
                    sections: 12,
                    name: "n".to_string()
                },
                exact_possibilities: Some(vec![
                    "a".to_string(),
                    "b".to_string(),
                    "c".to_string()
                ]),
            })
        ))
    );
    assert_eq!(
        capture_or_match("lorem{}"),
        Ok(("{}", CaptureOrMatch::Match("lorem".to_string())))
    );
    assert_eq!(
        capture_or_match("{007}x"),
        Ok((
            "x",
            CaptureOrMatch::Capture(Capture::from(CaptureVariant::NumberedUnnamed {
                sections: 7
            }))
        ))
    );
}

#[test]
fn literals_that_follow_one_another_are_joined() {
    assert_eq!(
        parse_str_and_optimize_tokens("/a/{b}?c=d&e={f}#g", false),
        Ok(vec![
            literal("/a/"),
            MatcherToken::Capture(named("b")),
            literal("?c=d&e="),
            MatcherToken::Capture(named("f")),
            literal("#g"),
        ])
    );
    assert_eq!(
        parse_str_and_optimize_tokens("/a(/b/c)/d", false),
        Ok(vec![
            literal("/a"),
            MatcherToken::Optional(vec![literal("/b/c")]),
            literal("/d"),
        ])
    );
    assert_eq!(parse_str_and_optimize_tokens("", true), Ok(vec![]));
}

#[test]
fn the_optional_slash_follows_a_literal_or_a_group() {
    assert_eq!(
        parse_str_and_optimize_tokens("/user", true),
        Ok(vec![literal("/user"), slash_group()])
    );
    assert_eq!(
        parse_str_and_optimize_tokens("/user", false),
        Ok(vec![literal("/user")])
    );
    assert_eq!(
        parse_str_and_optimize_tokens("/user/", true),
        Ok(vec![literal("/user/")])
    );
    assert_eq!(
        parse_str_and_optimize_tokens("/{a}", true),
        Ok(vec![literal("/"), MatcherToken::Capture(named("a"))])
    );
    assert_eq!(
        parse_str_and_optimize_tokens("/a(/b)", true),
        Ok(vec![
            literal("/a"),
            MatcherToken::Optional(vec![literal("/b")]),
            slash_group(),
        ])
    );
}

#[test]
fn optimizing_twice_changes_nothing() {
    for pattern in [
        "/a/{b}?c=d&e={f}#g",
        "/a(/b(/c))(#d)",
        "?a=b&c=d(&e=f)(&g=h)#(i)",
        "/user",
        "/{5:name}/rest",
    ] {
        for slash in [false, true] {
            let once = parse_str_and_optimize_tokens(pattern, slash).unwrap();
            let twice = optimize_tokens(raise_tokens(&once), false);
            assert_eq!(once, twice);
        }
    }
    let once = parse_str_and_optimize_tokens("/user", true).unwrap();
    assert_eq!(
        optimize_tokens(raise_tokens(&once), true),
        vec![literal("/user"), slash_group(), slash_group()]
    );
}

#[test]
fn literal_tokens_have_text() {
    assert_eq!(token_to_string(&RouteParserToken::Separator), "/");
    assert_eq!(token_to_string(&RouteParserToken::QueryBegin), "?");
    assert_eq!(token_to_string(&RouteParserToken::QuerySeparator), "&");
    assert_eq!(token_to_string(&RouteParserToken::FragmentBegin), "#");
    assert_eq!(
        token_to_string(&RouteParserToken::Match("lorem".to_string())),
        "lorem"
    );
}

#[test]
fn a_query_value_becomes_a_matcher_token() {
    assert_eq!(
        MatcherToken::from(CaptureOrMatch::Match("a".to_string())),
        literal("a")
    );
    assert_eq!(
        MatcherToken::from(CaptureOrMatch::Capture(named("a"))),
        MatcherToken::Capture(named("a"))
    );
}

#[test]
fn tokens_can_be_copied() {
    let tokens = parse("/a(/{b(x|y)})?c={5:d}").unwrap();
    let copies: Vec<RouteParserToken> = tokens.iter().map(|token| token.clone()).collect();
    assert_eq!(tokens, copies);
    let tokens = optimize_tokens(tokens, true);
    let copies: Vec<MatcherToken> = tokens.iter().map(|token| token.clone()).collect();
    assert_eq!(tokens, copies);
}

#[test]
fn delimiters_are_the_next_literals() {
    let tokens = vec![literal("/a"), literal("/b")];
    let found = next_delimiters(&tokens);
    assert_eq!(found.literals, vec!["/a"]);
    assert!(!found.or_end);

    let tokens = vec![
        MatcherToken::Optional(vec![MatcherToken::Capture(named("x")), literal("/b")]),
        MatcherToken::Optional(vec![MatcherToken::Capture(named("y"))]),
        MatcherToken::Optional(vec![MatcherToken::Optional(vec![literal("/c")])]),
        MatcherToken::Capture(named("z")),
        literal("/d"),
        literal("/e"),
    ];
    let found = next_delimiters(&tokens);
    assert_eq!(found.literals, vec!["/b", "/c", "/d"]);
    assert!(found.or_end);

    let found = next_delimiters(&[]);
    assert!(found.literals.is_empty());
    assert!(found.or_end);

    let tokens = vec![MatcherToken::Capture(named("z")), literal("/d")];
    let found = next_delimiters(&tokens);
    assert_eq!(found.literals, vec!["/d"]);
    assert!(!found.or_end);
}
