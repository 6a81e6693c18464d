//! The tokenizer: from a pattern to a sequence of tokens.
//!
//! A pattern is a path, a query and a fragment, each of which may be absent:
//!
//! ```text
//! pattern  := path? query? fragment?
//! path     := section? part*                     (not empty)
//! part     := "/" section? | "(" path ")"
//! section  := capture | literal
//! capture  := "{" variant ("(" literal ("|" literal)* ")")? "}"
//! variant  := "" | "*:" name | "*" | name | digits ":" name | digits
//! query    := begin | "(" begin ")"
//! begin    := "?" term ("&" term)* ("(" ("&" term)* ")")*
//!           | "?" ("(" term ")")+
//! term     := name "=" section
//! fragment := "#" section | "#(" section ")" | "(#" section ")"
//! ```
//!
//! Choices are ordered, and a repetition takes as many items as it finds.
//! Each rule is a spec function from a string and a position to the value
//! found and the position after it; the executable functions are proved to
//! compute exactly these.
use crate::parser::error::{ErrorContext, Failure, ParseError};
use crate::parser::fragment::{fragment_in, spec_fragment};
use crate::parser::path::{path_in, spec_path};
use crate::parser::query::{query_parser_in, spec_query_parser};
use crate::text::Text;
use crate::token::{RouteParserToken, RouteParserTokenView};
use vstd::prelude::*;

pub mod error;
pub mod fragment;
pub mod path;
pub mod primitives;
pub mod query;
pub mod shape;
pub mod spelling;

verus! {

/// The part of the grammar that a character which no rule accepts belongs
/// to.
pub open spec fn spec_context_of(c: char) -> ErrorContext {
    if c == '{' || c == '}' {
        ErrorContext::Capture
    } else if c == '(' || c == ')' {
        ErrorContext::Optional
    } else if c == '?' || c == '&' || c == '=' {
        ErrorContext::Query
    } else if c == '#' {
        ErrorContext::Fragment
    } else {
        ErrorContext::Path
    }
}

/// The tokens of the pattern `s`: those of its path, its query and its
/// fragment, as far as each is present. A pattern that goes on after them is
/// rejected at the first character that was not consumed.
pub open spec fn spec_parse(s: Seq<char>) -> Result<Seq<RouteParserTokenView>, Failure> {
    let (path, path_end) = match spec_path(s, 0) {
        Ok(found) => found,
        Err(_) => (Seq::empty(), 0),
    };
    let (query, query_end) = match spec_query_parser(s, path_end) {
        Ok(found) => found,
        Err(_) => (Seq::empty(), path_end),
    };
    let (fragment, end) = match spec_fragment(s, query_end) {
        Ok(found) => found,
        Err(_) => (Seq::empty(), query_end),
    };
    if end == s.len() {
        Ok(path + query + fragment)
    } else {
        Err(Failure { context: spec_context_of(s[end]), offset: end })
    }
}

/// The part of the grammar that a character which no rule accepts belongs
/// to.
fn context_of(c: char) -> (context: ErrorContext)
    ensures
        context == spec_context_of(c),
{
    if c == '{' || c == '}' {
        ErrorContext::Capture
    } else if c == '(' || c == ')' {
        ErrorContext::Optional
    } else if c == '?' || c == '&' || c == '=' {
        ErrorContext::Query
    } else if c == '#' {
        ErrorContext::Fragment
    } else {
        ErrorContext::Path
    }
}

/// Splits the pattern `i` into tokens.
pub fn parse(i: &str) -> (result: Result<Vec<RouteParserToken>, ParseError>)
    ensures
        match spec_parse(i@) {
            Ok(tokens) => result matches Ok(found) && found.deep_view() == tokens,
            Err(failure) => result matches Err(error) && error.deep_view() == failure,
        },
{
    let text = Text::new(i);
    let mut tokens: Vec<RouteParserToken> = Vec::new();
    let ghost mut so_far: Seq<RouteParserTokenView> = Seq::empty();
    assert(tokens.deep_view() =~= so_far);
    let path_end = match path_in(&text, 0) {
        Ok((mut path, end)) => {
            proof {
                so_far = path.deep_view();
            }
            tokens.append(&mut path);
            assert(tokens.deep_view() =~= so_far);
            end
        },
        Err(_) => 0,
    };
    let query_end = match query_parser_in(&text, path_end) {
        Ok((mut query, end)) => {
            proof {
                so_far = so_far + query.deep_view();
            }
            tokens.append(&mut query);
            assert(tokens.deep_view() =~= so_far);
            end
        },
        Err(_) => {
            assert(so_far + Seq::empty() =~= so_far);
            path_end
        },
    };
    let end = match fragment_in(&text, query_end) {
        Ok((mut fragment, end)) => {
            proof {
                so_far = so_far + fragment.deep_view();
            }
            tokens.append(&mut fragment);
            assert(tokens.deep_view() =~= so_far);
            end
        },
        Err(_) => {
            assert(so_far + Seq::empty() =~= so_far);
            query_end
        },
    };
    if end == text.len() {
        Ok(tokens)
    } else {
        Err(ParseError { context: context_of(text.at(end)), offset: end })
    }
}

} // verus!
