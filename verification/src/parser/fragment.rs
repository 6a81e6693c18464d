//! The fragment of a pattern: `#` and a section, either of which may be
//! optional.
use crate::parser::error::{agrees, fail, failure, ErrorContext, ParseResult, Parsed};
use crate::parser::primitives::{section_in, spec_section};
use crate::text::{has_char_at, Text};
use crate::token::{lemma_parser_optional_view, RouteParserToken, RouteParserTokenView};
use vstd::prelude::*;

verus! {

/// A fragment at `pos`: `#section`, `#(section)` or `(#section)`.
pub open spec fn spec_fragment(s: Seq<char>, pos: int) -> Parsed<Seq<RouteParserTokenView>> {
    if has_char_at(s, pos, '#') {
        if has_char_at(s, pos + 1, '(') {
            match spec_section(s, pos + 2) {
                Ok((section, end)) => {
                    if has_char_at(s, end, ')') {
                        Ok(
                            (
                                seq![
                                    RouteParserTokenView::FragmentBegin,
                                    RouteParserTokenView::Optional(seq![section]),
                                ],
                                end + 1,
                            ),
                        )
                    } else {
                        failure(ErrorContext::Optional, end)
                    }
                },
                Err(failure) => Err(failure),
            }
        } else {
            match spec_section(s, pos + 1) {
                Ok((section, end)) => Ok(
                    (seq![RouteParserTokenView::FragmentBegin, section], end),
                ),
                Err(failure) => Err(failure),
            }
        }
    } else if has_char_at(s, pos, '(') && has_char_at(s, pos + 1, '#') {
        match spec_section(s, pos + 2) {
            Ok((section, end)) => {
                if has_char_at(s, end, ')') {
                    Ok(
                        (
                            seq![
                                RouteParserTokenView::Optional(
                                    seq![RouteParserTokenView::FragmentBegin, section],
                                ),
                            ],
                            end + 1,
                        ),
                    )
                } else {
                    failure(ErrorContext::Optional, end)
                }
            },
            Err(failure) => Err(failure),
        }
    } else {
        failure(ErrorContext::Fragment, pos)
    }
}

/// A fragment at `pos`.
pub fn fragment_in(text: &Text, pos: usize) -> (result: ParseResult<Vec<RouteParserToken>>)
    ensures
        agrees(result, spec_fragment(text@, pos as int)),
        result matches Ok((_, end)) ==> pos < end <= text@.len(),
{
    let mut tokens: Vec<RouteParserToken> = Vec::new();
    if text.is_at(pos, '#') {
        tokens.push(RouteParserToken::FragmentBegin);
        if text.is_at(pos + 1, '(') {
            match section_in(text, pos + 2) {
                Ok((section, end)) => {
                    if text.is_at(end, ')') {
                        let mut inner: Vec<RouteParserToken> = Vec::new();
                        inner.push(section);
                        proof {
                            assert(inner.deep_view() =~= seq![section.deep_view()]);
                            lemma_parser_optional_view(inner);
                        }
                        tokens.push(RouteParserToken::Optional(inner));
                        assert(tokens.deep_view() =~= seq![
                            RouteParserTokenView::FragmentBegin,
                            RouteParserTokenView::Optional(seq![section.deep_view()]),
                        ]);
                        Ok((tokens, end + 1))
                    } else {
                        fail(ErrorContext::Optional, end)
                    }
                },
                Err(error) => Err(error),
            }
        } else {
            match section_in(text, pos + 1) {
                Ok((section, end)) => {
                    tokens.push(section);
                    assert(tokens.deep_view() =~= seq![
                        RouteParserTokenView::FragmentBegin,
                        section.deep_view(),
                    ]);
                    Ok((tokens, end))
                },
                Err(error) => Err(error),
            }
        }
    } else if text.is_at(pos, '(') && text.is_at(pos + 1, '#') {
        match section_in(text, pos + 2) {
            Ok((section, end)) => {
                if text.is_at(end, ')') {
                    let mut inner: Vec<RouteParserToken> = Vec::new();
                    inner.push(RouteParserToken::FragmentBegin);
                    inner.push(section);
                    proof {
                        assert(inner.deep_view() =~= seq![
                            RouteParserTokenView::FragmentBegin,
                            section.deep_view(),
                        ]);
                        lemma_parser_optional_view(inner);
                    }
                    tokens.push(RouteParserToken::Optional(inner));
                    assert(tokens.deep_view() =~= seq![
                        RouteParserTokenView::Optional(
                            seq![RouteParserTokenView::FragmentBegin, section.deep_view()],
                        ),
                    ]);
                    Ok((tokens, end + 1))
                } else {
                    fail(ErrorContext::Optional, end)
                }
            },
            Err(error) => Err(error),
        }
    } else {
        fail(ErrorContext::Fragment, pos)
    }
}

} // verus!
