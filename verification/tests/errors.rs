use yew_router_route_parser::parser::error::{ErrorContext, ParseError};
use yew_router_route_parser::parser::parse;
use yew_router_route_parser::parser::primitives::{
    capture, capture_or_match, match_exact, valid_exact_match_characters, valid_ident_characters,
};
use yew_router_route_parser::parser::query::query_parser;
use yew_router_route_parser::token_optimizer::parse_str_and_optimize_tokens;

fn error(context: ErrorContext, offset: usize) -> ParseError {
    ParseError { context, offset }
}

#[test]
fn a_name_must_not_be_empty_nor_start_with_a_digit() {
    assert_eq!(
        valid_ident_characters(""),
        Err(error(ErrorContext::ValidIdent, 0))
    );
    assert_eq!(
        valid_ident_characters("1abc"),
        Err(error(ErrorContext::ValidIdent, 0))
    );
    assert_eq!(
        valid_ident_characters("+-lorem"),
        Err(error(ErrorContext::ValidIdent, 0))
    );
    assert_eq!(valid_ident_characters("abc1/rest"), Ok(("/rest", "abc1")));
    assert_eq!(valid_ident_characters("a.b"), Ok((".b", "a")));
}

#[test]
fn a_literal_must_not_be_empty() {
    assert_eq!(
        valid_exact_match_characters(""),
        Err(error(ErrorContext::ValidExactMatch, 0))
    );
    assert_eq!(
        valid_exact_match_characters("/x"),
        Err(error(ErrorContext::ValidExactMatch, 0))
    );
    assert_eq!(valid_exact_match_characters("a.b-c/d"), Ok(("/d", "a.b-c")));
    assert_eq!(
        match_exact("(x)").map(|found| found.0),
        Err(error(ErrorContext::ValidExactMatch, 0))
    );
}

#[test]
fn a_section_count_must_fit_the_machine_word() {
    assert_eq!(
        capture("{99999999999999999999999999999999999999999}").map(|found| found.0),
        Err(error(ErrorContext::Number, 1))
    );
}

#[test]
fn a_capture_must_be_well_formed() {
    assert_eq!(
        capture("abc").map(|found| found.0),
        Err(error(ErrorContext::Capture, 0))
    );
    assert_eq!(
        capture("{aoeu").map(|found| found.0),
        Err(error(ErrorContext::Capture, 5))
    );
    assert_eq!(
        capture("{+}").map(|found| found.0),
        Err(error(ErrorContext::Capture, 1))
    );
    assert_eq!(
        capture("{*:}").map(|found| found.0),
        Err(error(ErrorContext::Capture, 2))
    );
    assert_eq!(
        capture("{a()}").map(|found| found.0),
        Err(error(ErrorContext::Capture, 2))
    );
    assert_eq!(
        capture("{a(x|)}").map(|found| found.0),
        Err(error(ErrorContext::Capture, 2))
    );
    assert_eq!(
        capture_or_match("{a").map(|found| found.0),
        Err(error(ErrorContext::Capture, 2))
    );
}

#[test]
fn a_query_must_be_well_formed() {
    assert_eq!(
        query_parser("&query=this").map(|found| found.0),
        Err(error(ErrorContext::Query, 0))
    );
    assert_eq!(
        query_parser("?a").map(|found| found.0),
        Err(error(ErrorContext::Query, 2))
    );
    assert_eq!(
        query_parser("?=a").map(|found| found.0),
        Err(error(ErrorContext::ValidIdent, 1))
    );
    assert_eq!(
        query_parser("?a=").map(|found| found.0),
        Err(error(ErrorContext::ValidExactMatch, 3))
    );
}

#[test]
fn an_optional_group_must_be_closed() {
    assert_eq!(
        query_parser("(?a=b").map(|found| found.0),
        Err(error(ErrorContext::Optional, 5))
    );
}

#[test]
fn a_pattern_is_rejected_at_the_first_character_that_fits_no_rule() {
    assert_eq!(parse("x y"), Err(error(ErrorContext::Path, 1)));
    assert_eq!(parse("/a{b"), Err(error(ErrorContext::Capture, 2)));
    assert_eq!(parse("/a}"), Err(error(ErrorContext::Capture, 2)));
    assert_eq!(parse("/a#"), Err(error(ErrorContext::Fragment, 2)));
    assert_eq!(parse("/a?"), Err(error(ErrorContext::Query, 2)));
    assert_eq!(parse("/a&b=c"), Err(error(ErrorContext::Query, 2)));
    assert_eq!(parse("/a(/b"), Err(error(ErrorContext::Optional, 2)));
    assert_eq!(parse("/a)"), Err(error(ErrorContext::Optional, 2)));
    assert_eq!(
        parse("?query=this?query=that"),
        Err(error(ErrorContext::Query, 11))
    );
    assert_eq!(
        parse("?(query=this)(another=query)&other=thing"),
        Err(error(ErrorContext::Query, 28))
    );
    assert_eq!(parse("/{a}{b}"), Err(error(ErrorContext::Capture, 4)));
}

#[test]
fn two_captures_must_not_share_a_name() {
    assert_eq!(
        parse_str_and_optimize_tokens("/{a}/{a}", false),
        Err(error(ErrorContext::DuplicateKey, 8))
    );
    assert_eq!(
        parse_str_and_optimize_tokens("/{a}(/{*:a})", true),
        Err(error(ErrorContext::DuplicateKey, 12))
    );
    assert!(parse_str_and_optimize_tokens("/{a}/{b}/{}/{}", false).is_ok());
}

#[test]
fn error_contexts_have_names() {
    assert_eq!(ErrorContext::ValidIdent.name(), "valid ident");
    assert_eq!(ErrorContext::ValidExactMatch.name(), "valid exact match");
    assert_eq!(ErrorContext::Number.name(), "number");
    assert_eq!(ErrorContext::Capture.name(), "capture");
    assert_eq!(ErrorContext::Optional.name(), "optional");
    assert_eq!(ErrorContext::Path.name(), "path");
    assert_eq!(ErrorContext::Query.name(), "query");
    assert_eq!(ErrorContext::Fragment.name(), "fragment");
    assert_eq!(ErrorContext::DuplicateKey.name(), "duplicate key");
}
