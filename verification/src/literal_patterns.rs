//! Tokens without captures match the text they spell out, and capture
//! nothing.
use crate::captures::Entries;
use crate::matcher::{match_prefix, matched};
use crate::parser::spec_parse;
use crate::parser::spelling::{capture_free, lemma_tokens_spell_pattern, without_parentheses};
use crate::text::occurs_at;
use crate::token::{CaptureOrMatchView, MatcherTokenView, RouteParserTokenView};
use crate::token_optimizer::{
    capture_names, compiled, literal_text, lowered, lowered_token, merged, optimized,
    optional_slash, push_merged, takes_optional_slash,
};
use vstd::prelude::*;

verus! {

/// Whether the tokens hold no capture, at any depth.
pub open spec fn without_captures(tokens: Seq<MatcherTokenView>) -> bool
    decreases tokens,
{
    forall|i: int|
        0 <= i < tokens.len() ==> match #[trigger] tokens[i] {
            MatcherTokenView::Match(_) => true,
            MatcherTokenView::Capture(_) => false,
            MatcherTokenView::Optional(inner) => without_captures(inner),
        }
}

/// The text that the literals among the tokens spell out, those in optional
/// groups included.
pub open spec fn full_text(tokens: Seq<MatcherTokenView>) -> Seq<char>
    decreases tokens,
{
    if tokens.len() == 0 {
        Seq::empty()
    } else {
        (match tokens.first() {
            MatcherTokenView::Match(literal) => literal,
            MatcherTokenView::Capture(_) => Seq::empty(),
            MatcherTokenView::Optional(inner) => full_text(inner),
        }) + full_text(tokens.drop_first())
    }
}

/// Where a text stands, its front part stands, and its back part stands
/// after that.
pub proof fn lemma_occurs_at_parts(input: Seq<char>, pos: int, front: Seq<char>, back: Seq<char>)
    requires
        occurs_at(input, pos, front + back),
    ensures
        occurs_at(input, pos, front),
        occurs_at(input, pos + front.len(), back),
{
    let whole = input.subrange(pos, pos + (front + back).len());
    assert(input.subrange(pos, pos + front.len()) =~= whole.subrange(0, front.len() as int));
    assert((front + back).subrange(0, front.len() as int) =~= front);
    assert(input.subrange(pos + front.len(), pos + front.len() + back.len()) =~= whole.subrange(
        front.len() as int,
        whole.len() as int,
    ));
    assert((front + back).subrange(front.len() as int, (front + back).len() as int) =~= back);
}

/// The rest of tokens without captures holds no captures.
proof fn lemma_without_captures_rest(tokens: Seq<MatcherTokenView>)
    requires
        without_captures(tokens),
        tokens.len() > 0,
    ensures
        without_captures(tokens.drop_first()),
        tokens.first() matches MatcherTokenView::Optional(inner) ==> without_captures(inner),
        !(tokens.first() is Capture),
{
    let rest = tokens.drop_first();
    assert forall|i: int| 0 <= i < rest.len() implies match #[trigger] rest[i] {
        MatcherTokenView::Match(_) => true,
        MatcherTokenView::Capture(_) => false,
        MatcherTokenView::Optional(inner) => without_captures(inner),
    } by {
        assert(rest[i] == tokens[i + 1]);
    }
    assert(tokens.first() == tokens[0]);
}

/// Tokens without captures match their text wherever it stands, up to its
/// end, and store nothing.
pub proof fn lemma_text_is_matched(
    tokens: Seq<MatcherTokenView>,
    input: Seq<char>,
    pos: int,
    captures: Entries,
)
    requires
        without_captures(tokens),
        occurs_at(input, pos, full_text(tokens)),
    ensures
        match_prefix(tokens, input, pos, captures) == Some(
            (pos + full_text(tokens).len(), captures),
        ),
    decreases tokens,
{
    if tokens.len() > 0 {
        lemma_without_captures_rest(tokens);
        let rest = tokens.drop_first();
        match tokens.first() {
            MatcherTokenView::Match(literal) => {
                lemma_occurs_at_parts(input, pos, literal, full_text(rest));
                lemma_text_is_matched(rest, input, pos + literal.len(), captures);
            },
            MatcherTokenView::Capture(_) => {},
            MatcherTokenView::Optional(inner) => {
                lemma_occurs_at_parts(input, pos, full_text(inner), full_text(rest));
                lemma_text_is_matched(inner, input, pos, captures);
                lemma_text_is_matched(rest, input, pos + full_text(inner).len(), captures);
            },
        }
    }
}

/// Tokens without captures match the text they spell out, and capture
/// nothing.
pub proof fn lemma_literal_tokens_match_their_text(tokens: Seq<MatcherTokenView>)
    requires
        without_captures(tokens),
    ensures
        matched(tokens, full_text(tokens)) == Some(Seq::<(Seq<char>, Seq<char>)>::empty()),
{
    let text = full_text(tokens);
    assert(text.subrange(0, text.len() as int) =~= text);
    lemma_text_is_matched(tokens, text, 0, Seq::empty());
}

/// Matching tokens of which the front part holds no captures is matching
/// the front part and then the back part.
pub proof fn lemma_match_in_parts(
    front: Seq<MatcherTokenView>,
    back: Seq<MatcherTokenView>,
    input: Seq<char>,
    pos: int,
    captures: Entries,
)
    requires
        without_captures(front),
    ensures
        match_prefix(front + back, input, pos, captures) == match match_prefix(
            front,
            input,
            pos,
            captures,
        ) {
            Some((end, stored)) => match_prefix(back, input, end, stored),
            None => None,
        },
    decreases front.len(),
{
    if front.len() == 0 {
        assert(front + back =~= back);
    } else {
        lemma_without_captures_rest(front);
        let rest = front.drop_first();
        assert((front + back).drop_first() =~= rest + back);
        assert((front + back).first() == front.first());
        match front.first() {
            MatcherTokenView::Match(literal) => {
                lemma_match_in_parts(rest, back, input, pos + literal.len(), captures);
            },
            MatcherTokenView::Capture(_) => {},
            MatcherTokenView::Optional(inner) => {
                match match_prefix(inner, input, pos, captures) {
                    Some((end, stored)) => {
                        lemma_match_in_parts(rest, back, input, end, stored);
                    },
                    None => {
                        lemma_match_in_parts(rest, back, input, pos, captures);
                    },
                }
            },
        }
    }
}

/// Whether tokenizer tokens hold no capture, at any depth.
pub open spec fn literal_only(tokens: Seq<RouteParserTokenView>) -> bool
    decreases tokens,
{
    forall|i: int|
        0 <= i < tokens.len() ==> match #[trigger] tokens[i] {
            RouteParserTokenView::Capture(_) => false,
            RouteParserTokenView::QueryCapture { capture_or_match, .. } => capture_or_match
                is Match,
            RouteParserTokenView::Optional(inner) => literal_only(inner),
            _ => true,
        }
}

/// The text that a tokenizer token without captures describes.
pub open spec fn described_token(token: RouteParserTokenView) -> Seq<char>
    decreases token, 0int,
{
    match token {
        RouteParserTokenView::Capture(_) => Seq::empty(),
        RouteParserTokenView::QueryCapture { ident, capture_or_match } => ident.push('=') + (
        match capture_or_match {
            CaptureOrMatchView::Match(literal) => literal,
            CaptureOrMatchView::Capture(_) => Seq::empty(),
        }),
        RouteParserTokenView::Optional(inner) => described(inner),
        _ => literal_text(token),
    }
}

/// The text that tokenizer tokens without captures describe, with every
/// optional group present.
pub open spec fn described(tokens: Seq<RouteParserTokenView>) -> Seq<char>
    decreases tokens, 1int,
{
    if tokens.len() == 0 {
        Seq::empty()
    } else {
        described(tokens.drop_last()) + described_token(tokens.last())
    }
}

/// The text of tokens with one more token is the text of the tokens, then
/// that of the token.
pub proof fn lemma_full_text_push(tokens: Seq<MatcherTokenView>, token: MatcherTokenView)
    ensures
        full_text(tokens.push(token)) == full_text(tokens) + full_text(seq![token]),
    decreases tokens.len(),
{
    if tokens.len() == 0 {
        assert(tokens.push(token) =~= seq![token]);
        assert(full_text(tokens) + full_text(seq![token]) =~= full_text(seq![token]));
    } else {
        let rest = tokens.drop_first();
        assert(tokens.push(token).drop_first() =~= rest.push(token));
        lemma_full_text_push(rest, token);
        let head = full_text(seq![tokens.first()]);
        assert(seq![tokens.first()].drop_first() =~= Seq::<MatcherTokenView>::empty());
        let first_text = match tokens.first() {
            MatcherTokenView::Match(literal) => literal,
            MatcherTokenView::Capture(_) => Seq::empty(),
            MatcherTokenView::Optional(inner) => full_text(inner),
        };
        assert((first_text + full_text(rest)) + full_text(seq![token]) =~= first_text + (
        full_text(rest) + full_text(seq![token])));
    }
}

/// The text of a literal alone is the literal.
proof fn lemma_full_text_literal(literal: Seq<char>)
    ensures
        full_text(seq![MatcherTokenView::Match(literal)]) == literal,
{
    let tokens = seq![MatcherTokenView::Match(literal)];
    assert(tokens.drop_first() =~= Seq::<MatcherTokenView>::empty());
    assert(full_text(Seq::<MatcherTokenView>::empty()) =~= Seq::<char>::empty());
    assert(tokens.first() == MatcherTokenView::Match(literal));
    assert(literal + Seq::<char>::empty() =~= literal);
}

/// The text of a group alone is the text of its tokens.
proof fn lemma_full_text_group(inner: Seq<MatcherTokenView>)
    ensures
        full_text(seq![MatcherTokenView::Optional(inner)]) == full_text(inner),
{
    let tokens = seq![MatcherTokenView::Optional(inner)];
    assert(tokens.drop_first() =~= Seq::<MatcherTokenView>::empty());
    assert(full_text(Seq::<MatcherTokenView>::empty()) =~= Seq::<char>::empty());
    assert(tokens.first() == MatcherTokenView::Optional(inner));
    assert(full_text(inner) + Seq::<char>::empty() =~= full_text(inner));
}

/// Adding a token with joining adds its text, and adds no capture if the
/// token holds none.
proof fn lemma_push_merged_text(tokens: Seq<MatcherTokenView>, token: MatcherTokenView)
    ensures
        full_text(push_merged(tokens, token)) == full_text(tokens) + full_text(seq![token]),
        without_captures(tokens) && without_captures(seq![token]) ==> without_captures(
            push_merged(tokens, token),
        ),
{
    let after = push_merged(tokens, token);
    if tokens.len() > 0 && tokens.last() is Match && token is Match {
        let front = tokens.drop_last();
        let first = tokens.last()->Match_0;
        let second = token->Match_0;
        assert(tokens =~= front.push(tokens.last()));
        lemma_full_text_push(front, tokens.last());
        lemma_full_text_push(front, MatcherTokenView::Match(first + second));
        lemma_full_text_literal(first);
        lemma_full_text_literal(second);
        lemma_full_text_literal(first + second);
        assert(full_text(front) + (first + second) =~= (full_text(front) + first) + second);
        if without_captures(tokens) {
            assert forall|i: int| 0 <= i < after.len() implies match #[trigger] after[i] {
                MatcherTokenView::Match(_) => true,
                MatcherTokenView::Capture(_) => false,
                MatcherTokenView::Optional(inner) => without_captures(inner),
            } by {
                if i < front.len() {
                    assert(after[i] == tokens[i]);
                }
            }
        }
    } else {
        lemma_full_text_push(tokens, token);
        if without_captures(tokens) && without_captures(seq![token]) {
            assert forall|i: int| 0 <= i < after.len() implies match #[trigger] after[i] {
                MatcherTokenView::Match(_) => true,
                MatcherTokenView::Capture(_) => false,
                MatcherTokenView::Optional(inner) => without_captures(inner),
            } by {
                if i < tokens.len() {
                    assert(after[i] == tokens[i]);
                } else {
                    assert(after[i] == seq![token][0]);
                }
            }
        }
    }
}

/// Joining literals keeps the text, and adds no captures.
pub proof fn lemma_merged_text(tokens: Seq<MatcherTokenView>)
    ensures
        full_text(merged(tokens)) == full_text(tokens),
        without_captures(tokens) ==> without_captures(merged(tokens)),
    decreases tokens.len(),
{
    if tokens.len() > 0 {
        let front = tokens.drop_last();
        lemma_merged_text(front);
        lemma_push_merged_text(merged(front), tokens.last());
        assert(tokens =~= front.push(tokens.last()));
        lemma_full_text_push(front, tokens.last());
        if without_captures(tokens) {
            assert forall|i: int| 0 <= i < front.len() implies match #[trigger] front[i] {
                MatcherTokenView::Match(_) => true,
                MatcherTokenView::Capture(_) => false,
                MatcherTokenView::Optional(inner) => without_captures(inner),
            } by {
                assert(front[i] == tokens[i]);
            }
            assert(seq![tokens.last()][0] == tokens[tokens.len() - 1]);
        }
    }
}

/// What tokenizer tokens without captures stand for holds no captures and
/// spells out the text they describe.
proof fn lemma_lowered_text(tokens: Seq<RouteParserTokenView>)
    requires
        literal_only(tokens),
    ensures
        without_captures(lowered(tokens)),
        full_text(lowered(tokens)) == described(tokens),
    decreases tokens, 1int,
{
    if tokens.len() > 0 {
        let front = tokens.drop_last();
        let last = tokens.last();
        assert forall|i: int| 0 <= i < front.len() implies match #[trigger] front[i] {
            RouteParserTokenView::Capture(_) => false,
            RouteParserTokenView::QueryCapture { capture_or_match, .. } => capture_or_match
                is Match,
            RouteParserTokenView::Optional(inner) => literal_only(inner),
            _ => true,
        } by {
            assert(front[i] == tokens[i]);
        }
        assert(last == tokens[tokens.len() - 1]);
        lemma_lowered_text(front);
        let added = lowered_token(last);
        match last {
            RouteParserTokenView::Capture(_) => {},
            RouteParserTokenView::QueryCapture { ident, capture_or_match } => {
                let key = MatcherTokenView::Match(ident.push('='));
                let value = MatcherTokenView::Match(capture_or_match->Match_0);
                assert(added =~= seq![key].push(value));
                lemma_full_text_push(seq![key], value);
                lemma_full_text_literal(ident.push('='));
                lemma_full_text_literal(capture_or_match->Match_0);
            },
            RouteParserTokenView::Optional(inner) => {
                lemma_optimized_text(inner);
                lemma_full_text_group(optimized(inner, false));
            },
            _ => {
                lemma_full_text_literal(literal_text(last));
            },
        }
        assert(full_text(added) == described_token(last));
        assert(without_captures(added));
        lemma_full_text_add(lowered(front), added);
        assert forall|i: int| 0 <= i < lowered(tokens).len() implies match #[trigger] lowered(
            tokens,
        )[i] {
            MatcherTokenView::Match(_) => true,
            MatcherTokenView::Capture(_) => false,
            MatcherTokenView::Optional(inner) => without_captures(inner),
        } by {
            if i < lowered(front).len() {
                assert(lowered(tokens)[i] == lowered(front)[i]);
            } else {
                assert(lowered(tokens)[i] == added[i - lowered(front).len()]);
            }
        }
    }
}

/// The text of tokens that follow one another is the text of the first,
/// then that of the second.
pub proof fn lemma_full_text_add(front: Seq<MatcherTokenView>, back: Seq<MatcherTokenView>)
    ensures
        full_text(front + back) == full_text(front) + full_text(back),
    decreases back.len(),
{
    if back.len() == 0 {
        assert(front + back =~= front);
        assert(full_text(front) + full_text(back) =~= full_text(front));
    } else {
        let init = back.drop_last();
        assert(front + back =~= (front + init).push(back.last()));
        assert(back =~= init.push(back.last()));
        lemma_full_text_push(front + init, back.last());
        lemma_full_text_push(init, back.last());
        lemma_full_text_add(front, init);
        assert((full_text(front) + full_text(init)) + full_text(seq![back.last()]) =~= full_text(
            front,
        ) + (full_text(init) + full_text(seq![back.last()])));
    }
}

/// The optimized form of tokenizer tokens without captures holds no
/// captures, and spells out the text that the tokens describe.
pub proof fn lemma_optimized_text(tokens: Seq<RouteParserTokenView>)
    requires
        literal_only(tokens),
    ensures
        without_captures(optimized(tokens, false)),
        full_text(optimized(tokens, false)) == described(tokens),
    decreases tokens, 2int,
{
    lemma_lowered_text(tokens);
    lemma_merged_text(lowered(tokens));
}

/// Tokens without captures still match their text when an optional `/` is
/// added after them.
pub proof fn lemma_optional_slash_is_passed_over(tokens: Seq<MatcherTokenView>)
    requires
        without_captures(tokens),
    ensures
        matched(tokens.push(optional_slash()), full_text(tokens)) == Some(
            Seq::<(Seq<char>, Seq<char>)>::empty(),
        ),
{
    let text = full_text(tokens);
    let nothing = Seq::<(Seq<char>, Seq<char>)>::empty();
    assert(text.subrange(0, text.len() as int) =~= text);
    lemma_text_is_matched(tokens, text, 0, nothing);
    assert(tokens.push(optional_slash()) =~= tokens + seq![optional_slash()]);
    lemma_match_in_parts(tokens, seq![optional_slash()], text, 0, nothing);
    let group = seq![optional_slash()];
    let inner = seq![MatcherTokenView::Match(seq!['/'])];
    let end = text.len() as int;
    assert(group.drop_first() =~= Seq::<MatcherTokenView>::empty());
    assert(group.first() == optional_slash());
    assert(inner.first() == MatcherTokenView::Match(seq!['/']));
    assert(!occurs_at(text, end, seq!['/']));
    assert(match_prefix(inner, text, end, nothing) is None);
    assert(match_prefix(Seq::empty(), text, end, nothing) == Some((end, nothing)));
    assert(match_prefix(group, text, end, nothing) == Some((end, nothing)));
}

/// Tokens without captures hold no capture names.
pub proof fn lemma_no_capture_names(tokens: Seq<MatcherTokenView>)
    requires
        without_captures(tokens),
    ensures
        capture_names(tokens) == Seq::<Seq<char>>::empty(),
    decreases tokens,
{
    if tokens.len() > 0 {
        lemma_without_captures_rest(tokens);
        lemma_no_capture_names(tokens.drop_first());
        if let MatcherTokenView::Optional(inner) = tokens.first() {
            lemma_no_capture_names(inner);
        }
        assert(Seq::<Seq<char>>::empty() + Seq::<Seq<char>>::empty() =~= Seq::<
            Seq<char>,
        >::empty());
    }
}

/// A pattern without captures, once compiled, matches the text it
/// describes, which is the pattern without the parentheses of its optional
/// groups, and captures nothing. Where compiling added the optional final
/// `/`, the text followed by `/` is matched as well.
pub proof fn lemma_pattern_without_captures_matches_its_text(
    pattern: Seq<char>,
    append_optional_slash: bool,
)
    requires
        capture_free(pattern),
        spec_parse(pattern) is Ok,
    ensures
        compiled(pattern, append_optional_slash) is Ok,
        compiled(pattern, false) is Ok,
        without_captures(compiled(pattern, append_optional_slash)->Ok_0),
        matched(
            compiled(pattern, append_optional_slash)->Ok_0,
            without_parentheses(pattern),
        ) == Some(Seq::<(Seq<char>, Seq<char>)>::empty()),
        append_optional_slash && takes_optional_slash(compiled(pattern, false)->Ok_0) ==> matched(
            compiled(pattern, append_optional_slash)->Ok_0,
            without_parentheses(pattern).push('/'),
        ) == Some(Seq::<(Seq<char>, Seq<char>)>::empty()),
{
    let parsed = spec_parse(pattern)->Ok_0;
    let base = optimized(parsed, false);
    lemma_tokens_spell_pattern(pattern);
    lemma_optimized_text(parsed);
    lemma_no_capture_names(base);
    if append_optional_slash && takes_optional_slash(base) {
        let tokens = base.push(optional_slash());
        lemma_optional_slash_is_passed_over(base);
        lemma_full_text_push(base, optional_slash());
        lemma_full_text_group(seq![MatcherTokenView::Match(seq!['/'])]);
        lemma_full_text_literal(seq!['/']);
        assert(full_text(base) + seq!['/'] =~= full_text(base).push('/'));
        assert(without_captures(seq![MatcherTokenView::Match(seq!['/'])]));
        assert forall|i: int| 0 <= i < tokens.len() implies match #[trigger] tokens[i] {
            MatcherTokenView::Match(_) => true,
            MatcherTokenView::Capture(_) => false,
            MatcherTokenView::Optional(inner) => without_captures(inner),
        } by {
            if i < base.len() {
                assert(tokens[i] == base[i]);
            }
        }
        lemma_literal_tokens_match_their_text(tokens);
        lemma_no_capture_names(tokens);
    } else {
        lemma_literal_tokens_match_their_text(base);
    }
}

} // verus!
