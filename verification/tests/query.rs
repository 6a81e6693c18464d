use yew_router_route_parser::parser::error::{ErrorContext, ParseError};
use yew_router_route_parser::parser::query::query_parser;
use yew_router_route_parser::token::RouteParserToken;

/// Succeeds only if the parser succeeded and left nothing of the input.
fn all_consuming(
    result: Result<(&str, Vec<RouteParserToken>), ParseError>,
    input: &str,
) -> Result<(&'static str, Vec<RouteParserToken>), ParseError> {
    match result {
        Ok((rest, tokens)) => {
            if rest.is_empty() {
                Ok(("", tokens))
            } else {
                Err(ParseError {
                    context: ErrorContext::Query,
                    offset: input.chars().count() - rest.chars().count(),
                })
            }
        }
        Err(error) => Err(error),
    }
}

#[test]
fn single_match() {
    query_parser("?hello=there").expect("should match");
}

#[test]
fn single_capture() {
    query_parser("?hello={there}").expect("should match");
}

#[test]
fn multiple_match() {
    query_parser("?hello=there&general=kenobi").expect("should match");
}

#[test]
fn multiple_capture() {
    query_parser("?hello={there}&general={}").expect("should match");
}

#[test]
fn multiple_mixed() {
    query_parser("?hello=there&general={}").expect("should match");
}

#[test]
fn cant_start_with_and() {
    query_parser("&query=this").expect_err("should not match");
}

#[test]
fn cant_separate_with_with_question() {
    let input = "?query=this?query=that";
    all_consuming(query_parser(input), input).expect_err("should not match");
}

#[test]
fn optional_second_query() {
    query_parser("?query=this(&another=query)").expect("should parse");
}

#[test]
fn optional_second_and_third_query() {
    query_parser("?query=this(&another=query)(&yet_another=query)").expect("should parse");
}

#[test]
fn optional_many_first_queries() {
    query_parser("?(query=this)(another=query)").expect("should parse");
}

#[test]
fn cant_have_second_query_after_optional_first_queries() {
    let input = "?(query=this)(another=query)&other=thing";
    all_consuming(query_parser(input), input).expect_err("should not parse");
}

#[test]
fn optional_query_parser() {
    query_parser("(?query=this)").expect("should parse");
}

#[test]
fn optional_nested_query_parser() {
    query_parser("(?(query=this))").expect("should parse");
}

#[test]
fn optional_nested_query_parser_2() {
    query_parser("(?query=this(&otherquery=this))").expect("should parse");
}
