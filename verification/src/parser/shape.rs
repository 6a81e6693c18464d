//! The shape of the tokens of a pattern: a capture is always followed by
//! one of the marks `/`, `?`, `&` and `#`, by an optional group, or by
//! nothing; and the name of a capture is never empty and never starts with a
//! digit.
use crate::parser::fragment::spec_fragment;
use crate::parser::path::{lemma_path_bounds, spec_path, spec_path_part, spec_path_parts};
use crate::parser::primitives::{
    lemma_run_end, lemma_section_bounds, run_end, spec_capture, spec_capture_or_match,
    spec_section, spec_valid_ident, CharClass,
};
use crate::parser::query::{
    lemma_query_bounds, lemma_query_parser_bounds, lemma_query_runs_bounds, spec_begin_query,
    spec_optional_queries, spec_optional_query, spec_query, spec_query_parser, spec_rest_group,
    spec_rest_groups, spec_rest_queries,
};
use crate::parser::spec_parse;
use crate::text::{has_char_at, is_digit};
use crate::token::{CaptureOrMatchView, CaptureView, RouteParserTokenView};
use vstd::prelude::*;

verus! {

/// Whether the text can be the name of a capture: it is not empty and does
/// not start with a digit.
pub open spec fn is_name(text: Seq<char>) -> bool {
    text.len() > 0 && !is_digit(text[0])
}

/// Whether the capture has no name or one that can be the name of a
/// capture.
pub open spec fn well_named(capture: CaptureView) -> bool {
    capture.capture_variant.name() matches Some(name) ==> is_name(name)
}

/// Whether the token is one of `/`, `?`, `&` and `#`.
pub open spec fn is_mark(token: RouteParserTokenView) -> bool {
    match token {
        RouteParserTokenView::Separator => true,
        RouteParserTokenView::QueryBegin => true,
        RouteParserTokenView::QuerySeparator => true,
        RouteParserTokenView::FragmentBegin => true,
        _ => false,
    }
}

/// Whether the token ends in a capture.
pub open spec fn takes_value(token: RouteParserTokenView) -> bool {
    match token {
        RouteParserTokenView::Capture(_) => true,
        RouteParserTokenView::QueryCapture { capture_or_match, .. } => capture_or_match
            is Capture,
        _ => false,
    }
}

/// Whether the capture of the token, if it has one, is well named.
pub open spec fn token_well_named(token: RouteParserTokenView) -> bool {
    match token {
        RouteParserTokenView::Capture(capture) => well_named(capture),
        RouteParserTokenView::QueryCapture {
            capture_or_match: CaptureOrMatchView::Capture(capture),
            ..
        } => well_named(capture),
        _ => true,
    }
}

/// Whether the token can follow a capture: it is a mark or an optional
/// group.
pub open spec fn sets_apart(token: RouteParserTokenView) -> bool {
    is_mark(token) || token is Optional
}

/// Whether every capture among the tokens is well named and is followed by a
/// mark, by an optional group, or by nothing.
pub open spec fn shaped(tokens: Seq<RouteParserTokenView>) -> bool {
    forall|i: int|
        0 <= i < tokens.len() ==> token_well_named(#[trigger] tokens[i]) && (takes_value(
            tokens[i],
        ) ==> i + 1 == tokens.len() || sets_apart(tokens[i + 1]))
}

/// Whether the tokens can follow a capture: there are none, or the first is
/// a mark or an optional group.
pub open spec fn starts_apart(tokens: Seq<RouteParserTokenView>) -> bool {
    tokens.len() == 0 || sets_apart(tokens[0])
}

/// Tokens in shape, followed by tokens in shape that can follow a capture,
/// are in shape.
proof fn lemma_shaped_join(front: Seq<RouteParserTokenView>, back: Seq<RouteParserTokenView>)
    requires
        shaped(front),
        shaped(back),
        starts_apart(back),
    ensures
        shaped(front + back),
        front.len() > 0 ==> starts_apart(front + back) == starts_apart(front),
        front.len() == 0 ==> starts_apart(front + back),
{
    let all = front + back;
    assert forall|i: int| 0 <= i < all.len() implies token_well_named(#[trigger] all[i]) && (
    takes_value(all[i]) ==> i + 1 == all.len() || sets_apart(all[i + 1])) by {
        if i < front.len() {
            assert(all[i] == front[i]);
            if i + 1 < front.len() {
                assert(all[i + 1] == front[i + 1]);
            } else if i + 1 < all.len() {
                assert(all[i + 1] == back[0]);
            }
        } else {
            assert(all[i] == back[i - front.len()]);
            if i + 1 < all.len() {
                assert(all[i + 1] == back[i + 1 - front.len()]);
            }
        }
    }
    if front.len() > 0 {
        assert(all[0] == front[0]);
    } else {
        assert(all =~= back);
    }
}

/// A single token is in shape if its capture is well named.
proof fn lemma_shaped_one(token: RouteParserTokenView)
    requires
        token_well_named(token),
    ensures
        shaped(seq![token]),
        starts_apart(seq![token]) == sets_apart(token),
{
    assert(seq![token][0] == token);
}

/// No tokens are in shape.
proof fn lemma_shaped_none()
    ensures
        shaped(Seq::<RouteParserTokenView>::empty()),
        starts_apart(Seq::<RouteParserTokenView>::empty()),
{
}

/// A name that was found can be the name of a capture.
proof fn lemma_ident_is_name(s: Seq<char>, pos: int)
    requires
        0 <= pos,
    ensures
        spec_valid_ident(s, pos) matches Ok((name, _)) ==> is_name(name),
{
    lemma_run_end(s, pos, CharClass::Ident);
}

/// A capture that was found is well named.
proof fn lemma_capture_well_named(s: Seq<char>, pos: int)
    requires
        0 <= pos,
    ensures
        spec_capture(s, pos) matches Ok((capture, _)) ==> well_named(capture),
        spec_capture_or_match(s, pos) matches Ok((CaptureOrMatchView::Capture(capture), _))
            ==> well_named(capture),
        spec_section(s, pos) matches Ok((token, _)) ==> token_well_named(token),
{
    lemma_ident_is_name(s, pos + 1);
    lemma_ident_is_name(s, pos + 3);
    lemma_run_end(s, pos + 1, CharClass::Digit);
    lemma_ident_is_name(s, run_end(s, pos + 1, CharClass::Digit) + 1);
}

/// The parts of a path are in shape and can follow a capture.
proof fn lemma_shaped_path_part(s: Seq<char>, pos: int)
    requires
        0 <= pos,
    ensures
        spec_path_part(s, pos) matches Ok((tokens, _)) ==> shaped(tokens) && starts_apart(
            tokens,
        ),
{
    if has_char_at(s, pos, '/') {
        lemma_capture_well_named(s, pos + 1);
        match spec_section(s, pos + 1) {
            Ok((section, _)) => {
                lemma_shaped_one(RouteParserTokenView::Separator);
                lemma_shaped_one(section);
                let tokens = seq![RouteParserTokenView::Separator, section];
                assert(tokens[0] == RouteParserTokenView::Separator);
                assert(tokens[1] == section);
            },
            Err(_) => {
                lemma_shaped_one(RouteParserTokenView::Separator);
            },
        }
    } else if has_char_at(s, pos, '(') {
        if let Ok((inner, _)) = spec_path(s, pos + 1) {
            lemma_shaped_one(RouteParserTokenView::Optional(inner));
        }
    }
}

/// The parts of a path that follow one another are in shape and can follow
/// a capture.
proof fn lemma_shaped_path_parts(s: Seq<char>, pos: int)
    requires
        0 <= pos,
    ensures
        shaped(spec_path_parts(s, pos).0),
        starts_apart(spec_path_parts(s, pos).0),
    decreases s.len() - pos,
{
    lemma_shaped_none();
    lemma_shaped_path_part(s, pos);
    if let Ok((part, end)) = spec_path_part(s, pos) {
        if pos < end <= s.len() {
            lemma_shaped_path_parts(s, end);
            lemma_shaped_join(part, spec_path_parts(s, end).0);
        }
    }
}

/// A path is in shape.
proof fn lemma_shaped_path(s: Seq<char>, pos: int)
    requires
        0 <= pos,
    ensures
        spec_path(s, pos) matches Ok((tokens, _)) ==> shaped(tokens),
{
    lemma_shaped_none();
    lemma_capture_well_named(s, pos);
    match spec_section(s, pos) {
        Ok((section, end)) => {
            lemma_section_bounds(s, pos);
            lemma_shaped_one(section);
            lemma_shaped_path_parts(s, end);
            lemma_shaped_join(seq![section], spec_path_parts(s, end).0);
        },
        Err(_) => {
            lemma_shaped_path_parts(s, pos);
            lemma_shaped_join(Seq::empty(), spec_path_parts(s, pos).0);
        },
    }
}

/// A query term is well named.
proof fn lemma_query_well_named(s: Seq<char>, pos: int)
    requires
        0 <= pos,
    ensures
        spec_query(s, pos) matches Ok((token, _)) ==> token_well_named(token) && !sets_apart(
            token,
        ),
{
    lemma_run_end(s, pos, CharClass::Ident);
    lemma_capture_well_named(s, run_end(s, pos, CharClass::Ident) + 1);
}

/// Further query terms are in shape and can follow a capture.
proof fn lemma_shaped_rest_queries(s: Seq<char>, pos: int)
    requires
        0 <= pos,
    ensures
        shaped(spec_rest_queries(s, pos).0),
        starts_apart(spec_rest_queries(s, pos).0),
    decreases s.len() - pos,
{
    lemma_shaped_none();
    if has_char_at(s, pos, '&') {
        lemma_query_well_named(s, pos + 1);
        if let Ok((query, end)) = spec_query(s, pos + 1) {
            if pos < end <= s.len() {
                let pair = seq![RouteParserTokenView::QuerySeparator, query];
                assert(pair[0] == RouteParserTokenView::QuerySeparator);
                assert(pair[1] == query);
                lemma_shaped_rest_queries(s, end);
                lemma_shaped_join(pair, spec_rest_queries(s, end).0);
            }
        }
    }
}

/// Optional groups of further query terms are in shape and can follow a
/// capture.
proof fn lemma_shaped_rest_groups(s: Seq<char>, pos: int)
    requires
        0 <= pos,
    ensures
        shaped(spec_rest_groups(s, pos).0),
        starts_apart(spec_rest_groups(s, pos).0),
    decreases s.len() - pos,
{
    lemma_shaped_none();
    if let Ok((group, end)) = spec_rest_group(s, pos) {
        if pos < end <= s.len() {
            lemma_shaped_one(group);
            lemma_shaped_rest_groups(s, end);
            lemma_shaped_join(seq![group], spec_rest_groups(s, end).0);
        }
    }
}

/// Optional first query terms are in shape and can follow a capture.
proof fn lemma_shaped_optional_queries(s: Seq<char>, pos: int)
    requires
        0 <= pos,
    ensures
        shaped(spec_optional_queries(s, pos).0),
        starts_apart(spec_optional_queries(s, pos).0),
    decreases s.len() - pos,
{
    lemma_shaped_none();
    if let Ok((group, end)) = spec_optional_query(s, pos) {
        if pos < end <= s.len() {
            lemma_shaped_one(group);
            lemma_shaped_optional_queries(s, end);
            lemma_shaped_join(seq![group], spec_optional_queries(s, end).0);
        }
    }
}

/// A query is in shape and can follow a capture.
proof fn lemma_shaped_query_parser(s: Seq<char>, pos: int)
    requires
        0 <= pos,
    ensures
        spec_begin_query(s, pos) matches Ok((tokens, _)) ==> shaped(tokens) && starts_apart(
            tokens,
        ),
        spec_query_parser(s, pos) matches Ok((tokens, _)) ==> shaped(tokens) && starts_apart(
            tokens,
        ),
{
    lemma_shaped_begin_query(s, pos);
    if has_char_at(s, pos, '(') {
        lemma_shaped_begin_query(s, pos + 1);
        if let Ok((inner, _)) = spec_begin_query(s, pos + 1) {
            lemma_shaped_one(RouteParserTokenView::Optional(inner));
        }
    }
}

/// A query that starts with `?` is in shape and can follow a capture.
proof fn lemma_shaped_begin_query(s: Seq<char>, pos: int)
    requires
        0 <= pos,
    ensures
        spec_begin_query(s, pos) matches Ok((tokens, _)) ==> shaped(tokens) && starts_apart(
            tokens,
        ),
{
    if has_char_at(s, pos, '?') {
        lemma_query_well_named(s, pos + 1);
        match spec_query(s, pos + 1) {
            Ok((first, first_end)) => {
                lemma_query_bounds(s, pos + 1);
                let begin = seq![RouteParserTokenView::QueryBegin, first];
                assert(begin[0] == RouteParserTokenView::QueryBegin);
                assert(begin[1] == first);
                lemma_shaped_rest_queries(s, first_end);
                let (rest, rest_end) = spec_rest_queries(s, first_end);
                lemma_query_runs_bounds(s, first_end);
                lemma_shaped_rest_groups(s, rest_end);
                let (groups, _) = spec_rest_groups(s, rest_end);
                lemma_shaped_join(begin, rest);
                lemma_shaped_join(begin + rest, groups);
            },
            Err(_) => {
                lemma_shaped_one(RouteParserTokenView::QueryBegin);
                lemma_shaped_optional_queries(s, pos + 1);
                lemma_shaped_join(
                    seq![RouteParserTokenView::QueryBegin],
                    spec_optional_queries(s, pos + 1).0,
                );
            },
        }
    }
}

/// A fragment is in shape and can follow a capture.
proof fn lemma_shaped_fragment(s: Seq<char>, pos: int)
    requires
        0 <= pos,
    ensures
        spec_fragment(s, pos) matches Ok((tokens, _)) ==> shaped(tokens) && starts_apart(tokens),
{
    lemma_capture_well_named(s, pos + 1);
    lemma_capture_well_named(s, pos + 2);
    if let Ok((tokens, _)) = spec_fragment(s, pos) {
        assert(tokens.len() <= 2);
        assert(tokens.len() == 2 ==> tokens[0] == RouteParserTokenView::FragmentBegin);
    }
}

/// The tokens of a pattern are in shape.
pub proof fn lemma_parsed_is_shaped(pattern: Seq<char>)
    ensures
        spec_parse(pattern) matches Ok(tokens) ==> shaped(tokens),
{
    let s = pattern;
    lemma_shaped_none();
    lemma_shaped_path(s, 0);
    let (path, path_end) = match spec_path(s, 0) {
        Ok(found) => found,
        Err(_) => (Seq::empty(), 0),
    };
    lemma_path_bounds(s, 0);
    lemma_shaped_query_parser(s, path_end);
    let (query, query_end) = match spec_query_parser(s, path_end) {
        Ok(found) => found,
        Err(_) => (Seq::empty(), path_end),
    };
    lemma_query_parser_bounds(s, path_end);
    lemma_shaped_fragment(s, query_end);
    let (fragment, _) = match spec_fragment(s, query_end) {
        Ok(found) => found,
        Err(_) => (Seq::empty(), query_end),
    };
    lemma_shaped_join(path, query);
    lemma_shaped_join(path + query, fragment);
}

} // verus!
