//! The query of a pattern: `?` and terms `name=value` separated by `&`, any
//! of which may be optional.
use crate::parser::error::{agrees, fail, failure, ErrorContext, ParseError, ParseResult, Parsed};
use crate::parser::primitives::{
    agrees_with_rest, capture_or_match_in, ident_in, lemma_run_end, lemma_section_bounds, run_end,
    spec_capture_or_match, spec_valid_ident, with_rest, CharClass,
};
use crate::text::{has_char_at, Text};
use crate::token::{lemma_parser_optional_view, RouteParserToken, RouteParserTokenView};
use vstd::prelude::*;

verus! {

/// A query term `name=value` at `pos`.
pub open spec fn spec_query(s: Seq<char>, pos: int) -> Parsed<RouteParserTokenView> {
    match spec_valid_ident(s, pos) {
        Ok((ident, end)) => {
            if has_char_at(s, end, '=') {
                match spec_capture_or_match(s, end + 1) {
                    Ok((capture_or_match, value_end)) => Ok(
                        (RouteParserTokenView::QueryCapture { ident, capture_or_match }, value_end),
                    ),
                    Err(failure) => Err(failure),
                }
            } else {
                failure(ErrorContext::Query, end)
            }
        },
        Err(failure) => Err(failure),
    }
}

/// The terms `&name=value` that follow one another from `pos` on.
pub open spec fn spec_rest_queries(s: Seq<char>, pos: int) -> (Seq<RouteParserTokenView>, int)
    decreases s.len() - pos,
{
    if has_char_at(s, pos, '&') {
        match spec_query(s, pos + 1) {
            Ok((query, end)) => {
                if pos < end <= s.len() {
                    let (others, others_end) = spec_rest_queries(s, end);
                    (seq![RouteParserTokenView::QuerySeparator, query] + others, others_end)
                } else {
                    (Seq::empty(), pos)
                }
            },
            Err(_) => (Seq::empty(), pos),
        }
    } else {
        (Seq::empty(), pos)
    }
}

/// An optional group of further terms `(&name=value…)` at `pos`.
pub open spec fn spec_rest_group(s: Seq<char>, pos: int) -> Parsed<RouteParserTokenView> {
    if has_char_at(s, pos, '(') {
        let (inner, end) = spec_rest_queries(s, pos + 1);
        if has_char_at(s, end, ')') {
            Ok((RouteParserTokenView::Optional(inner), end + 1))
        } else {
            failure(ErrorContext::Optional, end)
        }
    } else {
        failure(ErrorContext::Optional, pos)
    }
}

/// The optional groups of further terms that follow one another from `pos`
/// on.
pub open spec fn spec_rest_groups(s: Seq<char>, pos: int) -> (Seq<RouteParserTokenView>, int)
    decreases s.len() - pos,
{
    match spec_rest_group(s, pos) {
        Ok((group, end)) => {
            if pos < end <= s.len() {
                let (others, others_end) = spec_rest_groups(s, end);
                (seq![group] + others, others_end)
            } else {
                (Seq::empty(), pos)
            }
        },
        Err(_) => (Seq::empty(), pos),
    }
}

/// An optional first term `(name=value)` at `pos`.
pub open spec fn spec_optional_query(s: Seq<char>, pos: int) -> Parsed<RouteParserTokenView> {
    if has_char_at(s, pos, '(') {
        match spec_query(s, pos + 1) {
            Ok((query, end)) => {
                if has_char_at(s, end, ')') {
                    Ok((RouteParserTokenView::Optional(seq![query]), end + 1))
                } else {
                    failure(ErrorContext::Optional, end)
                }
            },
            Err(failure) => Err(failure),
        }
    } else {
        failure(ErrorContext::Optional, pos)
    }
}

/// The optional first terms that follow one another from `pos` on.
pub open spec fn spec_optional_queries(s: Seq<char>, pos: int) -> (Seq<RouteParserTokenView>, int)
    decreases s.len() - pos,
{
    match spec_optional_query(s, pos) {
        Ok((group, end)) => {
            if pos < end <= s.len() {
                let (others, others_end) = spec_optional_queries(s, end);
                (seq![group] + others, others_end)
            } else {
                (Seq::empty(), pos)
            }
        },
        Err(_) => (Seq::empty(), pos),
    }
}

/// A query at `pos` that starts with `?`. Either a first term follows, then
/// further terms, then optional groups of further terms; or one or more
/// optional first terms follow, and nothing else.
pub open spec fn spec_begin_query(s: Seq<char>, pos: int) -> Parsed<Seq<RouteParserTokenView>> {
    if !has_char_at(s, pos, '?') {
        failure(ErrorContext::Query, pos)
    } else {
        match spec_query(s, pos + 1) {
            Ok((first, first_end)) => {
                let (rest, rest_end) = spec_rest_queries(s, first_end);
                let (groups, end) = spec_rest_groups(s, rest_end);
                Ok((seq![RouteParserTokenView::QueryBegin, first] + rest + groups, end))
            },
            Err(failure) => {
                let (optionals, end) = spec_optional_queries(s, pos + 1);
                if end == pos + 1 {
                    Err(failure)
                } else {
                    Ok((seq![RouteParserTokenView::QueryBegin] + optionals, end))
                }
            },
        }
    }
}

/// A query at `pos`, which may as a whole stand in parentheses.
pub open spec fn spec_query_parser(s: Seq<char>, pos: int) -> Parsed<Seq<RouteParserTokenView>> {
    if has_char_at(s, pos, '(') {
        match spec_begin_query(s, pos + 1) {
            Ok((inner, end)) => {
                if has_char_at(s, end, ')') {
                    Ok((seq![RouteParserTokenView::Optional(inner)], end + 1))
                } else {
                    failure(ErrorContext::Optional, end)
                }
            },
            Err(failure) => Err(failure),
        }
    } else {
        spec_begin_query(s, pos)
    }
}

/// A query term ends within the string, after its start.
pub proof fn lemma_query_bounds(s: Seq<char>, pos: int)
    requires
        0 <= pos,
    ensures
        spec_query(s, pos) matches Ok((_, end)) ==> pos < end <= s.len(),
{
    lemma_run_end(s, pos, CharClass::Ident);
    lemma_section_bounds(s, run_end(s, pos, CharClass::Ident) + 1);
}

/// Runs of query terms and groups end within the string, at or after their
/// start.
pub proof fn lemma_query_runs_bounds(s: Seq<char>, pos: int)
    requires
        0 <= pos <= s.len(),
    ensures
        pos <= spec_rest_queries(s, pos).1 <= s.len(),
        pos <= spec_rest_groups(s, pos).1 <= s.len(),
        pos <= spec_optional_queries(s, pos).1 <= s.len(),
    decreases s.len() - pos,
{
    if has_char_at(s, pos, '&') {
        if let Ok((_, end)) = spec_query(s, pos + 1) {
            if pos < end <= s.len() {
                lemma_query_runs_bounds(s, end);
            }
        }
    }
    if let Ok((_, end)) = spec_rest_group(s, pos) {
        if pos < end <= s.len() {
            lemma_query_runs_bounds(s, end);
        }
    }
    if let Ok((_, end)) = spec_optional_query(s, pos) {
        if pos < end <= s.len() {
            lemma_query_runs_bounds(s, end);
        }
    }
}

/// A query ends within the string, after its start.
pub proof fn lemma_query_parser_bounds(s: Seq<char>, pos: int)
    requires
        0 <= pos,
    ensures
        spec_begin_query(s, pos) matches Ok((_, end)) ==> pos < end <= s.len(),
        spec_query_parser(s, pos) matches Ok((_, end)) ==> pos < end <= s.len(),
{
    lemma_begin_query_bounds(s, pos);
    lemma_begin_query_bounds(s, pos + 1);
}

/// A query that starts with `?` ends within the string, after its start.
pub proof fn lemma_begin_query_bounds(s: Seq<char>, pos: int)
    requires
        0 <= pos,
    ensures
        spec_begin_query(s, pos) matches Ok((_, end)) ==> pos < end <= s.len(),
{
    if has_char_at(s, pos, '?') {
        lemma_query_bounds(s, pos + 1);
        lemma_query_runs_bounds(s, pos + 1);
        if let Ok((_, first_end)) = spec_query(s, pos + 1) {
            lemma_query_runs_bounds(s, first_end);
            lemma_query_runs_bounds(s, spec_rest_queries(s, first_end).1);
        }
    }
}

/// A query term at `pos`.
pub fn query_in(text: &Text, pos: usize) -> (result: ParseResult<RouteParserToken>)
    ensures
        agrees(result, spec_query(text@, pos as int)),
        result matches Ok((_, end)) ==> pos < end <= text@.len(),
{
    match ident_in(text, pos) {
        Ok((ident, end)) => {
            if text.is_at(end, '=') {
                match capture_or_match_in(text, end + 1) {
                    Ok((capture_or_match, value_end)) => Ok(
                        (RouteParserToken::QueryCapture { ident, capture_or_match }, value_end),
                    ),
                    Err(error) => Err(error),
                }
            } else {
                fail(ErrorContext::Query, end)
            }
        },
        Err(error) => Err(error),
    }
}

/// The terms `&name=value` that follow one another from `pos` on. The tokens
/// are added to `tokens`, and the position after the last term is returned.
pub fn rest_queries_in(text: &Text, pos: usize, tokens: &mut Vec<RouteParserToken>) -> (end: usize)
    requires
        pos <= text@.len(),
    ensures
        final(tokens).deep_view() == old(tokens).deep_view() + spec_rest_queries(
            text@,
            pos as int,
        ).0,
        end == spec_rest_queries(text@, pos as int).1,
        pos <= end <= text@.len(),
{
    let mut end = pos;
    let ghost before = tokens.deep_view();
    assert(tokens.deep_view() =~= before + Seq::empty());
    loop
        invariant
            before == old(tokens).deep_view(),
            pos <= end <= text@.len(),
            spec_rest_queries(text@, pos as int).1 == spec_rest_queries(text@, end as int).1,
            tokens.deep_view() + spec_rest_queries(text@, end as int).0 == before
                + spec_rest_queries(text@, pos as int).0,
        decreases text@.len() - end,
    {
        if !text.is_at(end, '&') {
            assert(tokens.deep_view() + Seq::empty() =~= tokens.deep_view());
            return end;
        }
        match query_in(text, end + 1) {
            Ok((query, query_end)) => {
                let ghost tokens_view = tokens.deep_view();
                let ghost added = seq![RouteParserTokenView::QuerySeparator, query.deep_view()];
                tokens.push(RouteParserToken::QuerySeparator);
                tokens.push(query);
                proof {
                    assert(tokens.deep_view() =~= tokens_view + added);
                    let others = spec_rest_queries(text@, query_end as int).0;
                    assert((tokens_view + added) + others =~= tokens_view + (added + others));
                }
                end = query_end;
            },
            Err(_) => {
                assert(tokens.deep_view() + Seq::empty() =~= tokens.deep_view());
                return end;
            },
        }
    }
}

/// An optional group of further terms at `pos`.
pub fn rest_group_in(text: &Text, pos: usize) -> (result: ParseResult<RouteParserToken>)
    ensures
        agrees(result, spec_rest_group(text@, pos as int)),
        result matches Ok((_, end)) ==> pos < end <= text@.len(),
{
    if text.is_at(pos, '(') {
        let mut inner: Vec<RouteParserToken> = Vec::new();
        assert(inner.deep_view() =~= Seq::empty());
        let end = rest_queries_in(text, pos + 1, &mut inner);
        assert(inner.deep_view() =~= spec_rest_queries(text@, pos + 1).0);
        if text.is_at(end, ')') {
            proof {
                lemma_parser_optional_view(inner);
            }
            Ok((RouteParserToken::Optional(inner), end + 1))
        } else {
            fail(ErrorContext::Optional, end)
        }
    } else {
        fail(ErrorContext::Optional, pos)
    }
}

/// The optional groups of further terms that follow one another from `pos`
/// on. The tokens are added to `tokens`, and the position after the last group
/// is returned.
pub fn rest_groups_in(text: &Text, pos: usize, tokens: &mut Vec<RouteParserToken>) -> (end: usize)
    requires
        pos <= text@.len(),
    ensures
        final(tokens).deep_view() == old(tokens).deep_view() + spec_rest_groups(
            text@,
            pos as int,
        ).0,
        end == spec_rest_groups(text@, pos as int).1,
        pos <= end <= text@.len(),
{
    let mut end = pos;
    let ghost before = tokens.deep_view();
    assert(tokens.deep_view() =~= before + Seq::empty());
    loop
        invariant
            before == old(tokens).deep_view(),
            pos <= end <= text@.len(),
            spec_rest_groups(text@, pos as int).1 == spec_rest_groups(text@, end as int).1,
            tokens.deep_view() + spec_rest_groups(text@, end as int).0 == before
                + spec_rest_groups(text@, pos as int).0,
        decreases text@.len() - end,
    {
        match rest_group_in(text, end) {
            Ok((group, group_end)) => {
                let ghost tokens_view = tokens.deep_view();
                let ghost added = seq![group.deep_view()];
                tokens.push(group);
                proof {
                    assert(tokens.deep_view() =~= tokens_view + added);
                    let others = spec_rest_groups(text@, group_end as int).0;
                    assert((tokens_view + added) + others =~= tokens_view + (added + others));
                }
                end = group_end;
            },
            Err(_) => {
                assert(tokens.deep_view() + Seq::empty() =~= tokens.deep_view());
                return end;
            },
        }
    }
}

/// An optional first term at `pos`.
pub fn optional_query_in(text: &Text, pos: usize) -> (result: ParseResult<RouteParserToken>)
    ensures
        agrees(result, spec_optional_query(text@, pos as int)),
        result matches Ok((_, end)) ==> pos < end <= text@.len(),
{
    if text.is_at(pos, '(') {
        match query_in(text, pos + 1) {
            Ok((query, end)) => {
                if text.is_at(end, ')') {
                    let mut inner: Vec<RouteParserToken> = Vec::new();
                    inner.push(query);
                    proof {
                        assert(inner.deep_view() =~= seq![query.deep_view()]);
                        lemma_parser_optional_view(inner);
                    }
                    Ok((RouteParserToken::Optional(inner), end + 1))
                } else {
                    fail(ErrorContext::Optional, end)
                }
            },
            Err(error) => Err(error),
        }
    } else {
        fail(ErrorContext::Optional, pos)
    }
}

/// The optional first terms that follow one another from `pos` on. The
/// tokens are added to `tokens`, and the position after the last term is
/// returned.
pub fn optional_queries_in(text: &Text, pos: usize, tokens: &mut Vec<RouteParserToken>) -> (end:
    usize)
    requires
        pos <= text@.len(),
    ensures
        final(tokens).deep_view() == old(tokens).deep_view() + spec_optional_queries(
            text@,
            pos as int,
        ).0,
        end == spec_optional_queries(text@, pos as int).1,
        pos <= end <= text@.len(),
{
    let mut end = pos;
    let ghost before = tokens.deep_view();
    assert(tokens.deep_view() =~= before + Seq::empty());
    loop
        invariant
            before == old(tokens).deep_view(),
            pos <= end <= text@.len(),
            spec_optional_queries(text@, pos as int).1 == spec_optional_queries(
                text@,
                end as int,
            ).1,
            tokens.deep_view() + spec_optional_queries(text@, end as int).0 == before
                + spec_optional_queries(text@, pos as int).0,
        decreases text@.len() - end,
    {
        match optional_query_in(text, end) {
            Ok((group, group_end)) => {
                let ghost tokens_view = tokens.deep_view();
                let ghost added = seq![group.deep_view()];
                tokens.push(group);
                proof {
                    assert(tokens.deep_view() =~= tokens_view + added);
                    let others = spec_optional_queries(text@, group_end as int).0;
                    assert((tokens_view + added) + others =~= tokens_view + (added + others));
                }
                end = group_end;
            },
            Err(_) => {
                assert(tokens.deep_view() + Seq::empty() =~= tokens.deep_view());
                return end;
            },
        }
    }
}

/// A query at `pos` that starts with `?`.
pub fn begin_query_in(text: &Text, pos: usize) -> (result: ParseResult<Vec<RouteParserToken>>)
    ensures
        agrees(result, spec_begin_query(text@, pos as int)),
        result matches Ok((_, end)) ==> pos < end <= text@.len(),
{
    if !text.is_at(pos, '?') {
        return fail(ErrorContext::Query, pos);
    }
    let mut tokens: Vec<RouteParserToken> = Vec::new();
    tokens.push(RouteParserToken::QueryBegin);
    match query_in(text, pos + 1) {
        Ok((first, first_end)) => {
            tokens.push(first);
            assert(tokens.deep_view() =~= seq![
                RouteParserTokenView::QueryBegin,
                first.deep_view(),
            ]);
            let rest_end = rest_queries_in(text, first_end, &mut tokens);
            let end = rest_groups_in(text, rest_end, &mut tokens);
            Ok((tokens, end))
        },
        Err(error) => {
            assert(tokens.deep_view() =~= seq![RouteParserTokenView::QueryBegin]);
            let end = optional_queries_in(text, pos + 1, &mut tokens);
            if end == pos + 1 {
                Err(error)
            } else {
                Ok((tokens, end))
            }
        },
    }
}

/// A query at `pos`, which may as a whole stand in parentheses.
pub fn query_parser_in(text: &Text, pos: usize) -> (result: ParseResult<Vec<RouteParserToken>>)
    ensures
        agrees(result, spec_query_parser(text@, pos as int)),
        result matches Ok((_, end)) ==> pos < end <= text@.len(),
{
    if text.is_at(pos, '(') {
        match begin_query_in(text, pos + 1) {
            Ok((inner, end)) => {
                if text.is_at(end, ')') {
                    let ghost inner_view = inner.deep_view();
                    proof {
                        lemma_parser_optional_view(inner);
                    }
                    let mut tokens: Vec<RouteParserToken> = Vec::new();
                    tokens.push(RouteParserToken::Optional(inner));
                    assert(tokens.deep_view() =~= seq![
                        RouteParserTokenView::Optional(inner_view),
                    ]);
                    Ok((tokens, end + 1))
                } else {
                    fail(ErrorContext::Optional, end)
                }
            },
            Err(error) => Err(error),
        }
    } else {
        begin_query_in(text, pos)
    }
}

/// Takes a query from the start of `i` and returns its tokens with the rest
/// of the input.
///
/// A query is `?name=value`, where the value is a literal or a capture. It
/// may be followed by further terms `&name=value`, and then by groups of
/// further terms in parentheses, which are optional: `?a=b&c=d(&e=f)`. The
/// first term may instead be optional, as in `?(a=b)(c=d)`; no other term can
/// follow then. The whole query may stand in parentheses: `(?a=b)`.
pub fn query_parser(i: &str) -> (result: Result<(&str, Vec<RouteParserToken>), ParseError>)
    ensures
        agrees_with_rest(result, i@, spec_query_parser(i@, 0)),
{
    let text = Text::new(i);
    let result = query_parser_in(&text, 0);
    with_rest(&text, result)
}

} // verus!
