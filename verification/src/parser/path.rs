//! The path of a pattern: sections separated by `/`, with optional groups.
use crate::parser::error::{agrees, fail, failure, ErrorContext, ParseResult, Parsed};
use crate::parser::primitives::{lemma_section_bounds, section_in, spec_section};
use crate::text::{has_char_at, Text};
use crate::token::{
    lemma_parser_optional_view, RouteParserToken, RouteParserTokenView,
};
use vstd::prelude::*;

verus! {

/// One part of a path at `pos`: `/` with the section that may follow it, or
/// a path in parentheses.
pub open spec fn spec_path_part(s: Seq<char>, pos: int) -> Parsed<Seq<RouteParserTokenView>>
    decreases s.len() - pos, 0int,
{
    if has_char_at(s, pos, '/') {
        match spec_section(s, pos + 1) {
            Ok((section, end)) => Ok((seq![RouteParserTokenView::Separator, section], end)),
            Err(_) => Ok((seq![RouteParserTokenView::Separator], pos + 1)),
        }
    } else if has_char_at(s, pos, '(') {
        match spec_path(s, pos + 1) {
            Ok((inner, end)) => {
                if has_char_at(s, end, ')') {
                    Ok((seq![RouteParserTokenView::Optional(inner)], end + 1))
                } else {
                    failure(ErrorContext::Optional, end)
                }
            },
            Err(failure) => Err(failure),
        }
    } else {
        failure(ErrorContext::Path, pos)
    }
}

/// The parts of a path that follow one another from `pos` on, up to the
/// first position where no part is found.
pub open spec fn spec_path_parts(s: Seq<char>, pos: int) -> (Seq<RouteParserTokenView>, int)
    decreases s.len() - pos, 1int,
{
    match spec_path_part(s, pos) {
        Ok((part, end)) => {
            if pos < end <= s.len() {
                let (others, others_end) = spec_path_parts(s, end);
                (part + others, others_end)
            } else {
                (Seq::empty(), pos)
            }
        },
        Err(_) => (Seq::empty(), pos),
    }
}

/// A path at `pos`: a section or a part, followed by any number of parts.
pub open spec fn spec_path(s: Seq<char>, pos: int) -> Parsed<Seq<RouteParserTokenView>>
    decreases s.len() - pos, 2int,
    via spec_path_decreases
{
    let (lead, lead_end) = match spec_section(s, pos) {
        Ok((section, end)) => (seq![section], end),
        Err(_) => (Seq::empty(), pos),
    };
    let (parts, end) = spec_path_parts(s, lead_end);
    if end == pos {
        failure(ErrorContext::Path, pos)
    } else {
        Ok((lead + parts, end))
    }
}

#[via_fn]
proof fn spec_path_decreases(s: Seq<char>, pos: int) {
    if 0 <= pos {
        lemma_section_bounds(s, pos);
    }
}

/// What follows a part of a path is found after it, within the string.
pub proof fn lemma_path_bounds(s: Seq<char>, pos: int)
    requires
        0 <= pos,
    ensures
        spec_path_part(s, pos) matches Ok((_, end)) ==> pos < end <= s.len(),
        pos <= s.len() ==> pos <= spec_path_parts(s, pos).1 <= s.len(),
        spec_path(s, pos) matches Ok((_, end)) ==> pos < end <= s.len(),
    decreases s.len() - pos, 3int,
{
    lemma_section_bounds(s, pos);
    lemma_section_bounds(s, pos + 1);
    if pos <= s.len() {
        lemma_path_parts_bounds(s, pos);
        if let Ok((_, end)) = spec_section(s, pos) {
            lemma_path_parts_bounds(s, end);
        }
    }
    if has_char_at(s, pos, '(') {
        lemma_path_bounds(s, pos + 1);
    }
}

/// The parts of a path end within the string, at or after their start.
pub proof fn lemma_path_parts_bounds(s: Seq<char>, pos: int)
    requires
        0 <= pos <= s.len(),
    ensures
        pos <= spec_path_parts(s, pos).1 <= s.len(),
    decreases s.len() - pos, 1int,
{
    if let Ok((_, end)) = spec_path_part(s, pos) {
        if pos < end <= s.len() {
            lemma_path_parts_bounds(s, end);
        }
    }
}

/// One part of a path at `pos`.
pub fn path_part_in(text: &Text, pos: usize) -> (result: ParseResult<Vec<RouteParserToken>>)
    ensures
        agrees(result, spec_path_part(text@, pos as int)),
        result matches Ok((_, end)) ==> pos < end <= text@.len(),
    decreases text@.len() - pos, 0int,
{
    let mut tokens: Vec<RouteParserToken> = Vec::new();
    if text.is_at(pos, '/') {
        tokens.push(RouteParserToken::Separator);
        match section_in(text, pos + 1) {
            Ok((section, end)) => {
                tokens.push(section);
                assert(tokens.deep_view() =~= seq![
                    RouteParserTokenView::Separator,
                    section.deep_view(),
                ]);
                Ok((tokens, end))
            },
            Err(_) => {
                assert(tokens.deep_view() =~= seq![RouteParserTokenView::Separator]);
                Ok((tokens, pos + 1))
            },
        }
    } else if text.is_at(pos, '(') {
        match path_in(text, pos + 1) {
            Ok((inner, end)) => {
                if text.is_at(end, ')') {
                    proof {
                        lemma_parser_optional_view(inner);
                    }
                    let ghost inner_view = inner.deep_view();
                    tokens.push(RouteParserToken::Optional(inner));
                    assert(tokens.deep_view() =~= seq![
                        RouteParserTokenView::Optional(inner_view),
                    ]);
                    Ok((tokens, end + 1))
                } else {
                    fail(ErrorContext::Optional, end)
                }
            },
            Err(error) => Err(error),
        }
    } else {
        fail(ErrorContext::Path, pos)
    }
}

/// The parts of a path that follow one another from `pos` on. The tokens are
/// added to `tokens`, and the position after the last part is returned.
pub fn path_parts_in(text: &Text, pos: usize, tokens: &mut Vec<RouteParserToken>) -> (end: usize)
    requires
        pos <= text@.len(),
    ensures
        final(tokens).deep_view() == old(tokens).deep_view() + spec_path_parts(
            text@,
            pos as int,
        ).0,
        end == spec_path_parts(text@, pos as int).1,
        pos <= end <= text@.len(),
    decreases text@.len() - pos, 1int,
{
    let mut end = pos;
    let ghost before = tokens.deep_view();
    assert(tokens.deep_view() =~= before + Seq::empty());
    loop
        invariant
            before == old(tokens).deep_view(),
            pos <= end <= text@.len(),
            spec_path_parts(text@, pos as int).1 == spec_path_parts(text@, end as int).1,
            tokens.deep_view() + spec_path_parts(text@, end as int).0 == before + spec_path_parts(
                text@,
                pos as int,
            ).0,
        decreases text@.len() - end,
    {
        match path_part_in(text, end) {
            Ok((mut part, part_end)) => {
                let ghost part_view = part.deep_view();
                let ghost tokens_view = tokens.deep_view();
                tokens.append(&mut part);
                proof {
                    assert(tokens.deep_view() =~= tokens_view + part_view);
                    let others = spec_path_parts(text@, part_end as int).0;
                    assert((tokens_view + part_view) + others =~= tokens_view + (part_view
                        + others));
                }
                end = part_end;
            },
            Err(_) => {
                assert(tokens.deep_view() + Seq::empty() =~= tokens.deep_view());
                return end;
            },
        }
    }
}

/// A path at `pos`.
pub fn path_in(text: &Text, pos: usize) -> (result: ParseResult<Vec<RouteParserToken>>)
    requires
        pos <= text@.len(),
    ensures
        agrees(result, spec_path(text@, pos as int)),
        result matches Ok((_, end)) ==> pos < end <= text@.len(),
    decreases text@.len() - pos, 2int,
{
    let mut tokens: Vec<RouteParserToken> = Vec::new();
    let lead_end = match section_in(text, pos) {
        Ok((section, end)) => {
            tokens.push(section);
            assert(tokens.deep_view() =~= seq![section.deep_view()]);
            end
        },
        Err(_) => {
            assert(tokens.deep_view() =~= Seq::empty());
            pos
        },
    };
    let end = path_parts_in(text, lead_end, &mut tokens);
    if end == pos {
        fail(ErrorContext::Path, pos)
    } else {
        Ok((tokens, end))
    }
}

} // verus!
