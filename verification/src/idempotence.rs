//! Optimized tokens are in normal form: optimizing them again changes
//! nothing.
use crate::token::{
    lemma_matcher_optional_view, lemma_parser_optional_view, MatcherToken, MatcherTokenView,
    RouteParserToken, RouteParserTokenView,
};
use crate::token_optimizer::{
    lemma_lowered_push, lowered, lowered_token, merged, optimized, push_merged,
    with_optional_slash,
};
use vstd::prelude::*;

verus! {

/// Whether no two literals stand next to each other.
pub open spec fn no_adjacent_literals(tokens: Seq<MatcherTokenView>) -> bool {
    forall|i: int|
        0 <= i < tokens.len() - 1 ==> !(#[trigger] tokens[i] is Match && tokens[i + 1] is Match)
}

/// Whether the tokens are in the form the optimizer produces: no two
/// literals stand next to each other, in the tokens and in every optional
/// group among them.
pub open spec fn is_optimized(tokens: Seq<MatcherTokenView>) -> bool
    decreases tokens,
{
    &&& no_adjacent_literals(tokens)
    &&& forall|i: int|
        0 <= i < tokens.len() ==> (#[trigger] tokens[i] matches MatcherTokenView::Optional(inner)
            ==> is_optimized(inner))
}

/// The tokenizer token that a matcher token can be read as.
pub open spec fn raised_token(token: MatcherTokenView) -> RouteParserTokenView
    decreases token,
{
    match token {
        MatcherTokenView::Match(literal) => RouteParserTokenView::Match(literal),
        MatcherTokenView::Capture(capture) => RouteParserTokenView::Capture(capture),
        MatcherTokenView::Optional(inner) => RouteParserTokenView::Optional(
            Seq::new(
                inner.len(),
                |i: int|
                    if 0 <= i < inner.len() {
                        raised_token(inner[i])
                    } else {
                        RouteParserTokenView::Separator
                    },
            ),
        ),
    }
}

/// The tokenizer tokens that matcher tokens can be read as: literals as
/// literals, captures as captures, and groups as groups.
pub open spec fn raised(tokens: Seq<MatcherTokenView>) -> Seq<RouteParserTokenView> {
    Seq::new(tokens.len(), |i: int| raised_token(tokens[i]))
}

/// A group is read as the group of what its tokens are read as.
proof fn lemma_raised_group(inner: Seq<MatcherTokenView>)
    ensures
        raised_token(MatcherTokenView::Optional(inner)) == RouteParserTokenView::Optional(
            raised(inner),
        ),
{
    assert(raised_token(MatcherTokenView::Optional(inner))->Optional_0 =~= raised(inner));
}

/// Joining literals leaves none next to each other, and keeps optional
/// groups in the form the optimizer produces.
proof fn lemma_merged_is_optimized(tokens: Seq<MatcherTokenView>)
    requires
        forall|i: int|
            0 <= i < tokens.len() ==> (#[trigger] tokens[i] matches MatcherTokenView::Optional(
                inner,
            ) ==> is_optimized(inner)),
    ensures
        is_optimized(merged(tokens)),
    decreases tokens.len(),
{
    if tokens.len() > 0 {
        let before = merged(tokens.drop_last());
        lemma_merged_is_optimized(tokens.drop_last());
        let after = push_merged(before, tokens.last());
        assert(after == merged(tokens));
        assert forall|i: int| 0 <= i < after.len() - 1 implies !(#[trigger] after[i] is Match
            && after[i + 1] is Match) by {
            if i < before.len() - 2 {
                assert(after[i] == before[i]);
                assert(after[i + 1] == before[i + 1]);
            } else if i == before.len() - 2 {
                assert(after[i] == before[i]);
                assert(!(before[i] is Match && before[i + 1] is Match));
            }
        }
        assert forall|i: int| 0 <= i < after.len() implies (
        #[trigger] after[i] matches MatcherTokenView::Optional(inner) ==> is_optimized(inner)) by {
            if i < before.len() - 1 {
                assert(after[i] == before[i]);
            } else if i == before.len() - 1 && after.len() > before.len() {
                assert(after[i] == before[i]);
            }
        }
    }
}

/// Every optional group among the tokens that tokenizer tokens stand for is
/// in the form the optimizer produces.
proof fn lemma_lowered_groups(tokens: Seq<RouteParserTokenView>)
    ensures
        forall|i: int|
            0 <= i < lowered(tokens).len() ==> (
            #[trigger] lowered(tokens)[i] matches MatcherTokenView::Optional(inner)
                ==> is_optimized(inner)),
    decreases tokens, 1int,
{
    if tokens.len() > 0 {
        lemma_lowered_groups(tokens.drop_last());
        match tokens.last() {
            RouteParserTokenView::Optional(inner) => {
                lemma_optimized_is_optimized(inner, false);
            },
            _ => {},
        }
        let before = lowered(tokens.drop_last());
        let added = lowered_token(tokens.last());
        assert forall|i: int| 0 <= i < lowered(tokens).len() implies (
        #[trigger] lowered(tokens)[i] matches MatcherTokenView::Optional(inner) ==> is_optimized(
            inner,
        )) by {
            if i < before.len() {
                assert(lowered(tokens)[i] == before[i]);
            } else {
                assert(lowered(tokens)[i] == added[i - before.len()]);
            }
        }
    }
}

/// What the optimizer produces holds no two literals next to each other, at
/// any depth.
pub proof fn lemma_optimized_is_optimized(
    tokens: Seq<RouteParserTokenView>,
    append_optional_slash: bool,
)
    ensures
        is_optimized(optimized(tokens, append_optional_slash)),
    decreases tokens, 2int,
{
    lemma_lowered_groups(tokens);
    lemma_merged_is_optimized(lowered(tokens));
    if append_optional_slash {
        let joined = merged(lowered(tokens));
        let result = with_optional_slash(joined);
        assert(is_optimized(seq![MatcherTokenView::Match(seq!['/'])]));
        assert forall|i: int| 0 <= i < result.len() implies (
        #[trigger] result[i] matches MatcherTokenView::Optional(inner) ==> is_optimized(inner)) by {
            if i < joined.len() {
                assert(result[i] == joined[i]);
            }
        }
        assert forall|i: int| 0 <= i < result.len() - 1 implies !(#[trigger] result[i] is Match
            && result[i + 1] is Match) by {
            if i < joined.len() - 1 {
                assert(result[i] == joined[i]);
                assert(result[i + 1] == joined[i + 1]);
            }
        }
    }
}

/// Joining literals changes nothing where no two literals stand next to each
/// other.
proof fn lemma_merged_fixes(tokens: Seq<MatcherTokenView>)
    requires
        no_adjacent_literals(tokens),
    ensures
        merged(tokens) == tokens,
    decreases tokens.len(),
{
    if tokens.len() > 0 {
        let front = tokens.drop_last();
        assert forall|i: int| 0 <= i < front.len() - 1 implies !(#[trigger] front[i] is Match
            && front[i + 1] is Match) by {
            assert(front[i] == tokens[i]);
            assert(front[i + 1] == tokens[i + 1]);
        }
        lemma_merged_fixes(front);
        if front.len() > 0 {
            assert(front.last() == tokens[tokens.len() - 2]);
            assert(!(tokens[tokens.len() - 2] is Match && tokens[tokens.len() - 1] is Match));
        }
        assert(front.push(tokens.last()) =~= tokens);
    }
}

/// Optimized tokens, read as tokenizer tokens, stand for themselves.
proof fn lemma_lowered_raised(tokens: Seq<MatcherTokenView>)
    requires
        is_optimized(tokens),
    ensures
        lowered(raised(tokens)) == tokens,
    decreases tokens, 0int,
{
    if tokens.len() > 0 {
        let front = tokens.drop_last();
        let last = tokens.last();
        assert forall|i: int| 0 <= i < front.len() - 1 implies !(#[trigger] front[i] is Match
            && front[i + 1] is Match) by {
            assert(front[i] == tokens[i]);
            assert(front[i + 1] == tokens[i + 1]);
        }
        assert forall|i: int| 0 <= i < front.len() implies (
        #[trigger] front[i] matches MatcherTokenView::Optional(inner) ==> is_optimized(inner)) by {
            assert(front[i] == tokens[i]);
        }
        lemma_lowered_raised(front);
        assert(raised(tokens) =~= raised(front).push(raised_token(last)));
        lemma_lowered_push(raised(front), raised_token(last));
        match last {
            MatcherTokenView::Optional(inner) => {
                assert(tokens[tokens.len() - 1] == last);
                lemma_raised_group(inner);
                lemma_reoptimized(inner);
            },
            _ => {},
        }
        assert(lowered_token(raised_token(last)) =~= seq![last]);
        assert(front + seq![last] =~= tokens);
    } else {
        assert(raised(tokens) =~= Seq::empty());
    }
}

/// Optimized tokens, read as tokenizer tokens and optimized again without
/// adding the optional final `/`, are unchanged.
pub proof fn lemma_reoptimized(tokens: Seq<MatcherTokenView>)
    requires
        is_optimized(tokens),
    ensures
        optimized(raised(tokens), false) == tokens,
    decreases tokens, 1int,
{
    lemma_lowered_raised(tokens);
    lemma_merged_fixes(tokens);
}

/// Running the optimizer on its own result, without asking for the optional
/// final `/` again, yields the same result. Asking for it again adds it
/// where it can be added, which is the case whenever the first run added it.
pub proof fn lemma_optimize_twice(
    tokens: Seq<RouteParserTokenView>,
    append_optional_slash: bool,
    again: bool,
)
    ensures
        optimized(raised(optimized(tokens, append_optional_slash)), again) == if again {
            with_optional_slash(optimized(tokens, append_optional_slash))
        } else {
            optimized(tokens, append_optional_slash)
        },
{
    lemma_optimized_is_optimized(tokens, append_optional_slash);
    lemma_reoptimized(optimized(tokens, append_optional_slash));
}

/// Reads matcher tokens as tokenizer tokens.
pub fn raise_tokens(tokens: &[MatcherToken]) -> (result: Vec<RouteParserToken>)
    ensures
        result.deep_view() == raised(tokens.deep_view()),
    decreases tokens@,
{
    let mut result: Vec<RouteParserToken> = Vec::new();
    let mut i: usize = 0;
    while i < tokens.len()
        invariant
            i <= tokens.len(),
            result.len() == i,
            forall|k: int|
                0 <= k < i ==> #[trigger] result[k].deep_view() == raised_token(
                    tokens[k].deep_view(),
                ),
        decreases tokens.len() - i,
    {
        let token = match &tokens[i] {
            MatcherToken::Match(literal) => RouteParserToken::Match(literal.clone()),
            MatcherToken::Capture(capture) => RouteParserToken::Capture(capture.duplicate()),
            MatcherToken::Optional(inner) => {
                let tokens_of_group = inner.as_slice();
                assert(tokens_of_group.deep_view() =~= inner.deep_view());
                let group = raise_tokens(tokens_of_group);
                proof {
                    lemma_matcher_optional_view(*inner);
                    lemma_parser_optional_view(group);
                    lemma_raised_group(inner.deep_view());
                }
                RouteParserToken::Optional(group)
            },
        };
        result.push(token);
        i += 1;
    }
    assert(result.deep_view() =~= raised(tokens.deep_view()));
    result
}

} // verus!
