//! What the tokens of a pattern without captures spell out: the pattern
//! itself, without the parentheses of its optional groups.
use crate::literal_patterns::{described, described_token, literal_only};
use crate::parser::fragment::spec_fragment;
use crate::parser::path::{spec_path, spec_path_part, spec_path_parts};
use crate::parser::primitives::{
    lemma_run_end, spec_capture_or_match, spec_section, spec_valid_exact_match, spec_valid_ident,
    CharClass,
};
use crate::parser::query::{
    spec_begin_query, spec_optional_queries, spec_query, spec_query_parser, spec_rest_groups,
    spec_rest_queries,
};
use crate::parser::spec_parse;
use crate::text::has_char_at;
use crate::token::{CaptureOrMatchView, RouteParserTokenView};
use vstd::prelude::*;

verus! {

/// Whether the pattern holds no `{`, and so no capture.
pub open spec fn capture_free(pattern: Seq<char>) -> bool {
    forall|i: int| 0 <= i < pattern.len() ==> pattern[i] != '{'
}

/// The text without the characters `(` and `)`.
pub open spec fn without_parentheses(text: Seq<char>) -> Seq<char>
    decreases text.len(),
{
    if text.len() == 0 {
        Seq::empty()
    } else if text.last() == '(' || text.last() == ')' {
        without_parentheses(text.drop_last())
    } else {
        without_parentheses(text.drop_last()).push(text.last())
    }
}

/// Removing the parentheses of a text in two parts is removing those of
/// each part.
pub proof fn lemma_without_parentheses_add(front: Seq<char>, back: Seq<char>)
    ensures
        without_parentheses(front + back) == without_parentheses(front) + without_parentheses(
            back,
        ),
    decreases back.len(),
{
    if back.len() == 0 {
        assert(front + back =~= front);
        assert(without_parentheses(front) + without_parentheses(back) =~= without_parentheses(
            front,
        ));
    } else {
        assert((front + back).drop_last() =~= front + back.drop_last());
        lemma_without_parentheses_add(front, back.drop_last());
        let a = without_parentheses(front);
        let b = without_parentheses(back.drop_last());
        assert((a + b).push(back.last()) =~= a + b.push(back.last()));
    }
}

/// A text without parentheses is unchanged by removing them.
pub proof fn lemma_without_parentheses_plain(text: Seq<char>)
    requires
        forall|i: int| 0 <= i < text.len() ==> text[i] != '(' && text[i] != ')',
    ensures
        without_parentheses(text) == text,
    decreases text.len(),
{
    if text.len() > 0 {
        lemma_without_parentheses_plain(text.drop_last());
        assert(text.drop_last().push(text.last()) =~= text);
    }
}

/// Whether `tokens` are the tokens of the part of `s` from `pos` to `end`,
/// hold no captures, and describe that part without its parentheses.
pub open spec fn spells(
    tokens: Seq<RouteParserTokenView>,
    s: Seq<char>,
    pos: int,
    end: int,
) -> bool {
    &&& pos <= end <= s.len()
    &&& literal_only(tokens)
    &&& described(tokens) == without_parentheses(s.subrange(pos, end))
}

/// What one token and further tokens describe, if the one describes the
/// part up to `mid` and the others the part from there on.
proof fn lemma_spells_join(
    front: Seq<RouteParserTokenView>,
    back: Seq<RouteParserTokenView>,
    s: Seq<char>,
    pos: int,
    mid: int,
    end: int,
)
    requires
        0 <= pos,
        spells(front, s, pos, mid),
        spells(back, s, mid, end),
    ensures
        spells(front + back, s, pos, end),
{
    let all = front + back;
    assert(s.subrange(pos, end) =~= s.subrange(pos, mid) + s.subrange(mid, end));
    lemma_without_parentheses_add(s.subrange(pos, mid), s.subrange(mid, end));
    lemma_described_add(front, back);
    assert forall|i: int| 0 <= i < all.len() implies match #[trigger] all[i] {
        RouteParserTokenView::Capture(_) => false,
        RouteParserTokenView::QueryCapture { capture_or_match, .. } => capture_or_match is Match,
        RouteParserTokenView::Optional(inner) => literal_only(inner),
        _ => true,
    } by {
        if i < front.len() {
            assert(all[i] == front[i]);
        } else {
            assert(all[i] == back[i - front.len()]);
        }
    }
}

/// What tokens that follow one another describe is what the first describe,
/// then what the second describe.
pub proof fn lemma_described_add(
    front: Seq<RouteParserTokenView>,
    back: Seq<RouteParserTokenView>,
)
    ensures
        described(front + back) == described(front) + described(back),
    decreases back.len(),
{
    if back.len() == 0 {
        assert(front + back =~= front);
        assert(described(front) + described(back) =~= described(front));
    } else {
        assert((front + back).drop_last() =~= front + back.drop_last());
        lemma_described_add(front, back.drop_last());
        let last = described_token(back.last());
        assert((described(front) + described(back.drop_last())) + last =~= described(front) + (
        described(back.drop_last()) + last));
    }
}

/// A single token describes what it describes as a token.
proof fn lemma_described_one(token: RouteParserTokenView)
    ensures
        described(seq![token]) == described_token(token),
{
    let tokens = seq![token];
    assert(tokens.drop_last() =~= Seq::<RouteParserTokenView>::empty());
    assert(described(Seq::<RouteParserTokenView>::empty()) =~= Seq::<char>::empty());
    assert(Seq::<char>::empty() + described_token(token) =~= described_token(token));
}

/// No tokens spell out an empty part.
proof fn lemma_spells_nothing(s: Seq<char>, pos: int)
    requires
        0 <= pos <= s.len(),
    ensures
        spells(Seq::empty(), s, pos, pos),
{
    assert(s.subrange(pos, pos) =~= Seq::<char>::empty());
}

/// A literal token whose text is one character spells out that character.
proof fn lemma_spells_mark(token: RouteParserTokenView, s: Seq<char>, pos: int, c: char)
    requires
        has_char_at(s, pos, c),
        c != '(' && c != ')',
        token == RouteParserTokenView::Separator && c == '/' || token
            == RouteParserTokenView::QueryBegin && c == '?' || token
            == RouteParserTokenView::QuerySeparator && c == '&' || token
            == RouteParserTokenView::FragmentBegin && c == '#',
    ensures
        spells(seq![token], s, pos, pos + 1),
{
    lemma_described_one(token);
    assert(s.subrange(pos, pos + 1) =~= seq![c]);
    lemma_without_parentheses_plain(seq![c]);
}

/// A group spells out the part in parentheses that its tokens spell out.
proof fn lemma_spells_group(inner: Seq<RouteParserTokenView>, s: Seq<char>, pos: int, end: int)
    requires
        has_char_at(s, pos, '('),
        has_char_at(s, end, ')'),
        spells(inner, s, pos + 1, end),
    ensures
        spells(seq![RouteParserTokenView::Optional(inner)], s, pos, end + 1),
{
    let token = RouteParserTokenView::Optional(inner);
    lemma_described_one(token);
    let open = s.subrange(pos, pos + 1);
    let middle = s.subrange(pos + 1, end);
    let close = s.subrange(end, end + 1);
    assert(s.subrange(pos, end + 1) =~= (open + middle) + close);
    lemma_without_parentheses_add(open + middle, close);
    lemma_without_parentheses_add(open, middle);
    assert(open =~= seq!['(']);
    assert(close =~= seq![')']);
    assert(open.drop_last() =~= Seq::<char>::empty());
    assert(close.drop_last() =~= Seq::<char>::empty());
    assert(without_parentheses(Seq::<char>::empty()) =~= Seq::<char>::empty());
    assert(without_parentheses(open) =~= Seq::<char>::empty());
    assert(without_parentheses(close) =~= Seq::<char>::empty());
    assert((Seq::<char>::empty() + without_parentheses(middle)) + Seq::<char>::empty()
        =~= without_parentheses(middle));
    assert(seq![token][0] == token);
}

/// A run of literal characters holds no parentheses.
proof fn lemma_exact_run_plain(s: Seq<char>, pos: int)
    requires
        0 <= pos,
    ensures
        spec_valid_exact_match(s, pos) matches Ok((literal, end)) ==> pos < end <= s.len()
            && literal == s.subrange(pos, end) && without_parentheses(literal) == literal,
{
    lemma_run_end(s, pos, CharClass::Exact);
    if let Ok((literal, end)) = spec_valid_exact_match(s, pos) {
        assert forall|i: int| 0 <= i < literal.len() implies literal[i] != '(' && literal[i]
            != ')' by {
            assert(CharClass::Exact.admits(s[pos + i]));
        }
        lemma_without_parentheses_plain(literal);
    }
}

/// A name holds no parentheses.
proof fn lemma_ident_plain(s: Seq<char>, pos: int)
    requires
        0 <= pos,
    ensures
        spec_valid_ident(s, pos) matches Ok((name, end)) ==> pos < end <= s.len() && name
            == s.subrange(pos, end) && without_parentheses(name) == name,
{
    lemma_run_end(s, pos, CharClass::Ident);
    if let Ok((name, end)) = spec_valid_ident(s, pos) {
        assert forall|i: int| 0 <= i < name.len() implies name[i] != '(' && name[i] != ')' by {
            assert(CharClass::Ident.admits(s[pos + i]));
        }
        lemma_without_parentheses_plain(name);
    }
}

/// In a pattern without captures, a section is a literal, which spells out
/// itself.
proof fn lemma_spells_section(s: Seq<char>, pos: int)
    requires
        capture_free(s),
        0 <= pos,
    ensures
        spec_capture_or_match(s, pos) matches Ok((value, end)) ==> pos < end <= s.len() && value
            == CaptureOrMatchView::Match(s.subrange(pos, end)) && without_parentheses(
            s.subrange(pos, end),
        ) == s.subrange(pos, end),
        spec_section(s, pos) matches Ok((token, end)) ==> spells(seq![token], s, pos, end) && pos
            < end,
{
    lemma_exact_run_plain(s, pos);
    if let Ok((token, end)) = spec_section(s, pos) {
        lemma_described_one(token);
        assert(seq![token][0] == token);
    }
}

/// In a pattern without captures, the parts of a path spell out the pattern
/// where they were found.
proof fn lemma_spells_path_part(s: Seq<char>, pos: int)
    requires
        capture_free(s),
        0 <= pos,
    ensures
        spec_path_part(s, pos) matches Ok((tokens, end)) ==> spells(tokens, s, pos, end),
    decreases s.len() - pos, 0int,
{
    if has_char_at(s, pos, '/') {
        lemma_spells_mark(RouteParserTokenView::Separator, s, pos, '/');
        lemma_spells_section(s, pos + 1);
        match spec_section(s, pos + 1) {
            Ok((section, end)) => {
                lemma_spells_join(
                    seq![RouteParserTokenView::Separator],
                    seq![section],
                    s,
                    pos,
                    pos + 1,
                    end,
                );
                assert(seq![RouteParserTokenView::Separator] + seq![section] =~= seq![
                    RouteParserTokenView::Separator,
                    section,
                ]);
            },
            Err(_) => {},
        }
    } else if has_char_at(s, pos, '(') {
        lemma_spells_path(s, pos + 1);
        if let Ok((inner, end)) = spec_path(s, pos + 1) {
            if has_char_at(s, end, ')') {
                lemma_spells_group(inner, s, pos, end);
            }
        }
    }
}

/// In a pattern without captures, the parts of a path that follow one
/// another spell out the pattern where they were found.
proof fn lemma_spells_path_parts(s: Seq<char>, pos: int)
    requires
        capture_free(s),
        0 <= pos <= s.len(),
    ensures
        spells(spec_path_parts(s, pos).0, s, pos, spec_path_parts(s, pos).1),
    decreases s.len() - pos, 1int,
{
    lemma_spells_nothing(s, pos);
    lemma_spells_path_part(s, pos);
    if let Ok((part, end)) = spec_path_part(s, pos) {
        if pos < end <= s.len() {
            lemma_spells_path_parts(s, end);
            let (others, others_end) = spec_path_parts(s, end);
            lemma_spells_join(part, others, s, pos, end, others_end);
        }
    }
}

/// In a pattern without captures, a path spells out the pattern where it
/// was found.
proof fn lemma_spells_path(s: Seq<char>, pos: int)
    requires
        capture_free(s),
        0 <= pos,
    ensures
        spec_path(s, pos) matches Ok((tokens, end)) ==> spells(tokens, s, pos, end),
    decreases s.len() - pos, 2int,
{
    lemma_spells_section(s, pos);
    if pos <= s.len() {
        lemma_spells_nothing(s, pos);
        let (lead, lead_end) = match spec_section(s, pos) {
            Ok((section, end)) => (seq![section], end),
            Err(_) => (Seq::empty(), pos),
        };
        lemma_spells_path_parts(s, lead_end);
        let (parts, end) = spec_path_parts(s, lead_end);
        lemma_spells_join(lead, parts, s, pos, lead_end, end);
    }
}

/// In a pattern without captures, a query term spells out the pattern where
/// it was found.
proof fn lemma_spells_query(s: Seq<char>, pos: int)
    requires
        capture_free(s),
        0 <= pos,
    ensures
        spec_query(s, pos) matches Ok((token, end)) ==> spells(seq![token], s, pos, end) && pos
            < end,
{
    lemma_ident_plain(s, pos);
    if let Ok((ident, ident_end)) = spec_valid_ident(s, pos) {
        lemma_spells_section(s, ident_end + 1);
        if let Ok((token, end)) = spec_query(s, pos) {
            let value = s.subrange(ident_end + 1, end);
            lemma_described_one(token);
            assert(seq![token][0] == token);
            assert(s.subrange(pos, end) =~= ident.push('=') + value);
            assert forall|i: int| 0 <= i < s.subrange(pos, end).len() implies s.subrange(
                pos,
                end,
            )[i] != '(' && s.subrange(pos, end)[i] != ')' by {
                if i < ident.len() {
                    lemma_run_end(s, pos, CharClass::Ident);
                    assert(CharClass::Ident.admits(s[pos + i]));
                } else if i > ident.len() {
                    lemma_run_end(s, ident_end + 1, CharClass::Exact);
                    assert(CharClass::Exact.admits(s[pos + i]));
                }
            }
            lemma_without_parentheses_plain(s.subrange(pos, end));
        }
    }
}

/// In a pattern without captures, further query terms spell out the pattern
/// where they were found.
proof fn lemma_spells_rest_queries(s: Seq<char>, pos: int)
    requires
        capture_free(s),
        0 <= pos <= s.len(),
    ensures
        spells(spec_rest_queries(s, pos).0, s, pos, spec_rest_queries(s, pos).1),
    decreases s.len() - pos,
{
    lemma_spells_nothing(s, pos);
    if has_char_at(s, pos, '&') {
        lemma_spells_query(s, pos + 1);
        if let Ok((query, end)) = spec_query(s, pos + 1) {
            if pos < end <= s.len() {
                lemma_spells_mark(RouteParserTokenView::QuerySeparator, s, pos, '&');
                lemma_spells_join(
                    seq![RouteParserTokenView::QuerySeparator],
                    seq![query],
                    s,
                    pos,
                    pos + 1,
                    end,
                );
                assert(seq![RouteParserTokenView::QuerySeparator] + seq![query] =~= seq![
                    RouteParserTokenView::QuerySeparator,
                    query,
                ]);
                lemma_spells_rest_queries(s, end);
                let (others, others_end) = spec_rest_queries(s, end);
                lemma_spells_join(
                    seq![RouteParserTokenView::QuerySeparator, query],
                    others,
                    s,
                    pos,
                    end,
                    others_end,
                );
            }
        }
    }
}

/// In a pattern without captures, optional groups of further query terms
/// spell out the pattern where they were found.
proof fn lemma_spells_rest_groups(s: Seq<char>, pos: int)
    requires
        capture_free(s),
        0 <= pos <= s.len(),
    ensures
        spells(spec_rest_groups(s, pos).0, s, pos, spec_rest_groups(s, pos).1),
    decreases s.len() - pos,
{
    lemma_spells_nothing(s, pos);
    if has_char_at(s, pos, '(') {
        lemma_spells_rest_queries(s, pos + 1);
        let (inner, inner_end) = spec_rest_queries(s, pos + 1);
        if has_char_at(s, inner_end, ')') {
            lemma_spells_group(inner, s, pos, inner_end);
            let end = inner_end + 1;
            lemma_spells_rest_groups(s, end);
            let (others, others_end) = spec_rest_groups(s, end);
            lemma_spells_join(
                seq![RouteParserTokenView::Optional(inner)],
                others,
                s,
                pos,
                end,
                others_end,
            );
        }
    }
}

/// In a pattern without captures, optional first query terms spell out the
/// pattern where they were found.
proof fn lemma_spells_optional_queries(s: Seq<char>, pos: int)
    requires
        capture_free(s),
        0 <= pos <= s.len(),
    ensures
        spells(spec_optional_queries(s, pos).0, s, pos, spec_optional_queries(s, pos).1),
    decreases s.len() - pos,
{
    lemma_spells_nothing(s, pos);
    if has_char_at(s, pos, '(') {
        lemma_spells_query(s, pos + 1);
        if let Ok((query, query_end)) = spec_query(s, pos + 1) {
            if has_char_at(s, query_end, ')') {
                lemma_spells_group(seq![query], s, pos, query_end);
                let end = query_end + 1;
                lemma_spells_optional_queries(s, end);
                let (others, others_end) = spec_optional_queries(s, end);
                lemma_spells_join(
                    seq![RouteParserTokenView::Optional(seq![query])],
                    others,
                    s,
                    pos,
                    end,
                    others_end,
                );
            }
        }
    }
}

/// In a pattern without captures, a query that starts with `?` spells out
/// the pattern where it was found.
proof fn lemma_spells_begin_query(s: Seq<char>, pos: int)
    requires
        capture_free(s),
        0 <= pos,
    ensures
        spec_begin_query(s, pos) matches Ok((tokens, end)) ==> spells(tokens, s, pos, end),
{
    if has_char_at(s, pos, '?') {
        let begin = seq![RouteParserTokenView::QueryBegin];
        lemma_spells_mark(RouteParserTokenView::QueryBegin, s, pos, '?');
        lemma_spells_query(s, pos + 1);
        match spec_query(s, pos + 1) {
            Ok((first, first_end)) => {
                lemma_spells_rest_queries(s, first_end);
                let (rest, rest_end) = spec_rest_queries(s, first_end);
                lemma_spells_rest_groups(s, rest_end);
                let (groups, end) = spec_rest_groups(s, rest_end);
                lemma_spells_join(begin, seq![first], s, pos, pos + 1, first_end);
                assert(begin + seq![first] =~= seq![RouteParserTokenView::QueryBegin, first]);
                lemma_spells_join(
                    seq![RouteParserTokenView::QueryBegin, first],
                    rest,
                    s,
                    pos,
                    first_end,
                    rest_end,
                );
                lemma_spells_join(
                    seq![RouteParserTokenView::QueryBegin, first] + rest,
                    groups,
                    s,
                    pos,
                    rest_end,
                    end,
                );
            },
            Err(_) => {
                lemma_spells_optional_queries(s, pos + 1);
                let (optionals, end) = spec_optional_queries(s, pos + 1);
                lemma_spells_join(begin, optionals, s, pos, pos + 1, end);
            },
        }
    }
}

/// In a pattern without captures, a query spells out the pattern where it
/// was found.
proof fn lemma_spells_query_parser(s: Seq<char>, pos: int)
    requires
        capture_free(s),
        0 <= pos,
    ensures
        spec_query_parser(s, pos) matches Ok((tokens, end)) ==> spells(tokens, s, pos, end),
{
    if has_char_at(s, pos, '(') {
        lemma_spells_begin_query(s, pos + 1);
        if let Ok((inner, end)) = spec_begin_query(s, pos + 1) {
            if has_char_at(s, end, ')') {
                lemma_spells_group(inner, s, pos, end);
            }
        }
    } else {
        lemma_spells_begin_query(s, pos);
    }
}

/// In a pattern without captures, a fragment spells out the pattern where
/// it was found.
proof fn lemma_spells_fragment(s: Seq<char>, pos: int)
    requires
        capture_free(s),
        0 <= pos,
    ensures
        spec_fragment(s, pos) matches Ok((tokens, end)) ==> spells(tokens, s, pos, end),
{
    let begin = seq![RouteParserTokenView::FragmentBegin];
    if has_char_at(s, pos, '#') {
        lemma_spells_mark(RouteParserTokenView::FragmentBegin, s, pos, '#');
        if has_char_at(s, pos + 1, '(') {
            lemma_spells_section(s, pos + 2);
            if let Ok((section, end)) = spec_section(s, pos + 2) {
                if has_char_at(s, end, ')') {
                    lemma_spells_group(seq![section], s, pos + 1, end);
                    let group = seq![RouteParserTokenView::Optional(seq![section])];
                    lemma_spells_join(begin, group, s, pos, pos + 1, end + 1);
                    assert(begin + group =~= seq![
                        RouteParserTokenView::FragmentBegin,
                        RouteParserTokenView::Optional(seq![section]),
                    ]);
                }
            }
        } else {
            lemma_spells_section(s, pos + 1);
            if let Ok((section, end)) = spec_section(s, pos + 1) {
                lemma_spells_join(begin, seq![section], s, pos, pos + 1, end);
                assert(begin + seq![section] =~= seq![
                    RouteParserTokenView::FragmentBegin,
                    section,
                ]);
            }
        }
    } else if has_char_at(s, pos, '(') && has_char_at(s, pos + 1, '#') {
        lemma_spells_mark(RouteParserTokenView::FragmentBegin, s, pos + 1, '#');
        lemma_spells_section(s, pos + 2);
        if let Ok((section, end)) = spec_section(s, pos + 2) {
            if has_char_at(s, end, ')') {
                lemma_spells_join(begin, seq![section], s, pos + 1, pos + 2, end);
                assert(begin + seq![section] =~= seq![
                    RouteParserTokenView::FragmentBegin,
                    section,
                ]);
                lemma_spells_group(
                    seq![RouteParserTokenView::FragmentBegin, section],
                    s,
                    pos,
                    end,
                );
            }
        }
    }
}

/// The tokens of a pattern without captures hold no captures, and describe
/// the pattern without its parentheses.
pub proof fn lemma_tokens_spell_pattern(pattern: Seq<char>)
    requires
        capture_free(pattern),
        spec_parse(pattern) is Ok,
    ensures
        literal_only(spec_parse(pattern)->Ok_0),
        described(spec_parse(pattern)->Ok_0) == without_parentheses(pattern),
{
    let s = pattern;
    lemma_spells_nothing(s, 0);
    lemma_spells_path(s, 0);
    let (path, path_end) = match spec_path(s, 0) {
        Ok(found) => found,
        Err(_) => (Seq::empty(), 0),
    };
    lemma_spells_nothing(s, path_end);
    lemma_spells_query_parser(s, path_end);
    let (query, query_end) = match spec_query_parser(s, path_end) {
        Ok(found) => found,
        Err(_) => (Seq::empty(), path_end),
    };
    lemma_spells_nothing(s, query_end);
    lemma_spells_fragment(s, query_end);
    let (fragment, end) = match spec_fragment(s, query_end) {
        Ok(found) => found,
        Err(_) => (Seq::empty(), query_end),
    };
    lemma_spells_join(path, query, s, 0, path_end, query_end);
    lemma_spells_join(path + query, fragment, s, 0, query_end, end);
    assert(s.subrange(0, s.len() as int) =~= s);
}

} // verus!
