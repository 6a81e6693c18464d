//! The optimizer: from the tokens of the tokenizer to the tokens the matcher
//! works on.
//!
//! Every token becomes the matcher tokens it stands for; literals that stand
//! next to each other are then joined into one, so that the result never
//! holds two literals in a row.
use crate::idempotence::{is_optimized, lemma_optimized_is_optimized};
use crate::matcher::lemma_skip_view;
use crate::parser::error::{ErrorContext, Failure, ParseError};
use crate::parser::{parse, spec_parse};
use crate::token::{
    lemma_matcher_optional_view, lemma_parser_optional_view, CaptureOrMatch, CaptureOrMatchView,
    CaptureVariant, MatcherTokenView, RouteParserToken, RouteParserTokenView,
};
use vstd::prelude::*;

pub use crate::token::MatcherToken;

verus! {

/// Whether a token stands for fixed text.
pub open spec fn is_literal(token: RouteParserTokenView) -> bool {
    match token {
        RouteParserTokenView::Separator => true,
        RouteParserTokenView::Match(_) => true,
        RouteParserTokenView::QueryBegin => true,
        RouteParserTokenView::QuerySeparator => true,
        RouteParserTokenView::FragmentBegin => true,
        _ => false,
    }
}

/// The text a literal token stands for.
pub open spec fn literal_text(token: RouteParserTokenView) -> Seq<char>
    recommends
        is_literal(token),
{
    match token {
        RouteParserTokenView::Separator => seq!['/'],
        RouteParserTokenView::Match(literal) => literal,
        RouteParserTokenView::QueryBegin => seq!['?'],
        RouteParserTokenView::QuerySeparator => seq!['&'],
        RouteParserTokenView::FragmentBegin => seq!['#'],
        _ => Seq::empty(),
    }
}

/// The matcher token of the value of a query term.
pub open spec fn value_token(value: CaptureOrMatchView) -> MatcherTokenView {
    match value {
        CaptureOrMatchView::Match(literal) => MatcherTokenView::Match(literal),
        CaptureOrMatchView::Capture(capture) => MatcherTokenView::Capture(capture),
    }
}

/// The matcher tokens that one token stands for: its text for a literal, the
/// capture for a capture, `ident=` and the value for a query term, and the
/// optimized group for an optional group.
pub open spec fn lowered_token(token: RouteParserTokenView) -> Seq<MatcherTokenView>
    decreases token, 0int,
{
    match token {
        RouteParserTokenView::Capture(capture) => seq![MatcherTokenView::Capture(capture)],
        RouteParserTokenView::QueryCapture { ident, capture_or_match } => seq![
            MatcherTokenView::Match(ident.push('=')),
            value_token(capture_or_match),
        ],
        RouteParserTokenView::Optional(inner) => seq![
            MatcherTokenView::Optional(optimized(inner, false)),
        ],
        _ => seq![MatcherTokenView::Match(literal_text(token))],
    }
}

/// The matcher tokens that a sequence of tokens stands for, one after the
/// other.
pub open spec fn lowered(tokens: Seq<RouteParserTokenView>) -> Seq<MatcherTokenView>
    decreases tokens, 1int,
{
    if tokens.len() == 0 {
        Seq::empty()
    } else {
        lowered(tokens.drop_last()) + lowered_token(tokens.last())
    }
}

/// Adds a token at the end, joining it with the last token if both are
/// literals.
pub open spec fn push_merged(tokens: Seq<MatcherTokenView>, token: MatcherTokenView) -> Seq<
    MatcherTokenView,
> {
    if tokens.len() > 0 && tokens.last() is Match && token is Match {
        tokens.drop_last().push(MatcherTokenView::Match(tokens.last()->Match_0 + token->Match_0))
    } else {
        tokens.push(token)
    }
}

/// The tokens with every run of literals joined into one literal.
pub open spec fn merged(tokens: Seq<MatcherTokenView>) -> Seq<MatcherTokenView>
    decreases tokens.len(),
{
    if tokens.len() == 0 {
        Seq::empty()
    } else {
        push_merged(merged(tokens.drop_last()), tokens.last())
    }
}

/// The group that lets a pattern match with or without a final `/`.
pub open spec fn optional_slash() -> MatcherTokenView {
    MatcherTokenView::Optional(seq![MatcherTokenView::Match(seq!['/'])])
}

/// Whether a final `/` can be added to what the tokens match: they end in an
/// optional group, or in a literal that does not end in `/`.
pub open spec fn takes_optional_slash(tokens: Seq<MatcherTokenView>) -> bool {
    tokens.len() > 0 && match tokens.last() {
        MatcherTokenView::Match(literal) => literal.len() == 0 || literal.last() != '/',
        MatcherTokenView::Optional(_) => true,
        MatcherTokenView::Capture(_) => false,
    }
}

/// The tokens, followed by the optional `/` where it can be added.
pub open spec fn with_optional_slash(tokens: Seq<MatcherTokenView>) -> Seq<MatcherTokenView> {
    if takes_optional_slash(tokens) {
        tokens.push(optional_slash())
    } else {
        tokens
    }
}

/// The optimized form of a sequence of tokens: what the tokens stand for,
/// with runs of literals joined, and with the optional final `/` if
/// `append_optional_slash` asks for it. Optional groups are optimized in the
/// same way, without the optional final `/`.
pub open spec fn optimized(tokens: Seq<RouteParserTokenView>, append_optional_slash: bool) -> Seq<
    MatcherTokenView,
>
    decreases tokens, 2int,
{
    if append_optional_slash {
        with_optional_slash(merged(lowered(tokens)))
    } else {
        merged(lowered(tokens))
    }
}

/// The names of the captures among the tokens, in the order of the tokens,
/// those in optional groups included.
pub open spec fn capture_names(tokens: Seq<MatcherTokenView>) -> Seq<Seq<char>>
    decreases tokens,
{
    if tokens.len() == 0 {
        Seq::empty()
    } else {
        (match tokens.first() {
            MatcherTokenView::Match(_) => Seq::empty(),
            MatcherTokenView::Capture(capture) => match capture.capture_variant.name() {
                Some(name) => seq![name],
                None => Seq::empty(),
            },
            MatcherTokenView::Optional(inner) => capture_names(inner),
        }) + capture_names(tokens.drop_first())
    }
}

/// What a pattern compiles to: the optimized form of its tokens. A pattern
/// in which two captures have the same name is rejected.
pub open spec fn compiled(pattern: Seq<char>, append_optional_slash: bool) -> Result<
    Seq<MatcherTokenView>,
    Failure,
> {
    match spec_parse(pattern) {
        Ok(tokens) => {
            let optimized = optimized(tokens, append_optional_slash);
            if capture_names(optimized).no_duplicates() {
                Ok(optimized)
            } else {
                Err(Failure { context: ErrorContext::DuplicateKey, offset: pattern.len() as int })
            }
        },
        Err(failure) => Err(failure),
    }
}

impl From<CaptureOrMatch> for MatcherToken {
    fn from(value: CaptureOrMatch) -> (token: MatcherToken) {
        match value {
            CaptureOrMatch::Match(literal) => MatcherToken::Match(literal),
            CaptureOrMatch::Capture(capture) => MatcherToken::Capture(capture),
        }
    }
}

impl vstd::std_specs::convert::FromSpecImpl<CaptureOrMatch> for MatcherToken {
    open spec fn obeys_from_spec() -> bool {
        true
    }

    open spec fn from_spec(value: CaptureOrMatch) -> MatcherToken {
        match value {
            CaptureOrMatch::Match(literal) => MatcherToken::Match(literal),
            CaptureOrMatch::Capture(capture) => MatcherToken::Capture(capture),
        }
    }
}

/// The text of a literal token.
pub fn token_to_string(token: &RouteParserToken) -> (text: &str)
    requires
        is_literal(token.deep_view()),
    ensures
        text@ == literal_text(token.deep_view()),
{
    proof {
        reveal_strlit("/");
        reveal_strlit("?");
        reveal_strlit("&");
        reveal_strlit("#");
    }
    let text = match token {
        RouteParserToken::Separator => "/",
        RouteParserToken::Match(literal) => literal.as_str(),
        RouteParserToken::QueryBegin => "?",
        RouteParserToken::QuerySeparator => "&",
        RouteParserToken::FragmentBegin => "#",
        _ => "",
    };
    assert(text@ =~= literal_text(token.deep_view()));
    text
}

/// Matcher tokens under construction: the tokens that are complete, and the
/// literal that further literals are still joined to.
struct Run {
    complete: Vec<MatcherToken>,
    text: String,
    open: bool,
}

impl Run {
    /// The tokens built so far.
    spec fn tokens(self) -> Seq<MatcherTokenView> {
        if self.open {
            self.complete.deep_view().push(MatcherTokenView::Match(self.text@))
        } else {
            self.complete.deep_view()
        }
    }

    /// The last complete token is not a literal: a literal stays open until
    /// a token of another kind follows it.
    spec fn well_formed(self) -> bool {
        self.complete.len() > 0 ==> !(self.complete[self.complete.len() - 1].deep_view() is Match)
    }

    /// No tokens.
    fn new() -> (run: Run)
        ensures
            run.well_formed(),
            run.tokens() == Seq::<MatcherTokenView>::empty(),
    {
        let run = Run { complete: Vec::new(), text: String::new(), open: false };
        assert(run.tokens() =~= Seq::empty());
        run
    }

    /// Adds the literal `text`.
    fn literal(&mut self, text: &str)
        requires
            old(self).well_formed(),
        ensures
            final(self).well_formed(),
            final(self).tokens() == push_merged(
                old(self).tokens(),
                MatcherTokenView::Match(text@),
            ),
    {
        if self.open {
            self.text.append(text);
            assert(self.tokens() =~= push_merged(
                old(self).tokens(),
                MatcherTokenView::Match(text@),
            ));
        } else {
            self.text = String::from_str(text);
            self.open = true;
        }
    }

    /// Completes the literal that is held open, if there is one.
    fn flush(&mut self)
        requires
            old(self).well_formed(),
        ensures
            !final(self).open,
            final(self).complete.deep_view() == old(self).tokens(),
    {
        if self.open {
            let ghost before = self.complete.deep_view();
            let mut text = String::new();
            core::mem::swap(&mut text, &mut self.text);
            self.complete.push(MatcherToken::Match(text));
            self.open = false;
            assert(self.complete.deep_view() =~= before.push(MatcherTokenView::Match(text@)));
        }
    }

    /// Adds a token that is not a literal.
    fn token(&mut self, token: MatcherToken)
        requires
            old(self).well_formed(),
            !(token.deep_view() is Match),
        ensures
            final(self).well_formed(),
            final(self).tokens() == push_merged(old(self).tokens(), token.deep_view()),
    {
        self.flush();
        let ghost before = self.complete.deep_view();
        self.complete.push(token);
        assert(self.complete.deep_view() =~= before.push(token.deep_view()));
    }

    /// The tokens built.
    fn finish(self) -> (tokens: Vec<MatcherToken>)
        requires
            self.well_formed(),
        ensures
            tokens.deep_view() == self.tokens(),
    {
        let mut run = self;
        run.flush();
        run.complete
    }
}

/// Joining literals after adding a token at the end is adding it joined.
pub proof fn lemma_merged_push(tokens: Seq<MatcherTokenView>, token: MatcherTokenView)
    ensures
        merged(tokens.push(token)) == push_merged(merged(tokens), token),
{
    assert(tokens.push(token).drop_last() =~= tokens);
}

/// What one more token stands for is added at the end.
pub proof fn lemma_lowered_push(tokens: Seq<RouteParserTokenView>, token: RouteParserTokenView)
    ensures
        lowered(tokens.push(token)) == lowered(tokens) + lowered_token(token),
{
    assert(tokens.push(token).drop_last() =~= tokens);
}

/// Optimizes the tokens of a pattern or of an optional group.
fn optimize(tokens: &Vec<RouteParserToken>, append_optional_slash: bool) -> (result: Vec<
    MatcherToken,
>)
    ensures
        result.deep_view() == optimized(tokens.deep_view(), append_optional_slash),
    decreases tokens,
{
    let ghost view = tokens.deep_view();
    let mut run = Run::new();
    let mut i: usize = 0;
    assert(view.take(0) =~= Seq::empty());
    while i < tokens.len()
        invariant
            i <= tokens.len(),
            view == tokens.deep_view(),
            run.well_formed(),
            run.tokens() == merged(lowered(view.take(i as int))),
        decreases tokens.len() - i,
    {
        let ghost before = lowered(view.take(i as int));
        proof {
            assert(view.take(i + 1) =~= view.take(i as int).push(view[i as int]));
            lemma_lowered_push(view.take(i as int), view[i as int]);
        }
        match &tokens[i] {
            RouteParserToken::Capture(capture) => {
                run.token(MatcherToken::Capture(capture.duplicate()));
                proof {
                    let token = MatcherTokenView::Capture(capture.deep_view());
                    assert(before + seq![token] =~= before.push(token));
                    lemma_merged_push(before, token);
                }
            },
            RouteParserToken::QueryCapture { ident, capture_or_match } => {
                proof {
                    reveal_strlit("=");
                }
                run.literal(ident.as_str());
                run.literal("=");
                let ghost key = MatcherTokenView::Match(ident@.push('='));
                proof {
                    let name = MatcherTokenView::Match(ident@);
                    let equals = MatcherTokenView::Match("="@);
                    let joined = merged(before);
                    assert(ident@ + "="@ =~= ident@.push('='));
                    assert(push_merged(push_merged(joined, name), equals) =~= push_merged(
                        joined,
                        key,
                    )) by {
                        if joined.len() > 0 && joined.last() is Match {
                            assert((joined.last()->Match_0 + ident@) + "="@ =~= joined.last()->Match_0
                                + (ident@ + "="@));
                        }
                    }
                    lemma_merged_push(before, key);
                }
                match capture_or_match {
                    CaptureOrMatch::Match(literal) => {
                        run.literal(literal.as_str());
                    },
                    CaptureOrMatch::Capture(capture) => {
                        run.token(MatcherToken::Capture(capture.duplicate()));
                    },
                }
                proof {
                    let value = value_token(capture_or_match.deep_view());
                    assert(before + seq![key, value] =~= before.push(key).push(value));
                    lemma_merged_push(before.push(key), value);
                }
            },
            RouteParserToken::Optional(inner) => {
                let group = optimize(inner, false);
                proof {
                    lemma_matcher_optional_view(group);
                    lemma_parser_optional_view(*inner);
                }
                run.token(MatcherToken::Optional(group));
                proof {
                    let token = MatcherTokenView::Optional(optimized(inner.deep_view(), false));
                    assert(before + seq![token] =~= before.push(token));
                    lemma_merged_push(before, token);
                }
            },
            token => {
                run.literal(token_to_string(token));
                proof {
                    let literal = MatcherTokenView::Match(literal_text(token.deep_view()));
                    assert(before + seq![literal] =~= before.push(literal));
                    lemma_merged_push(before, literal);
                }
            },
        }
        i += 1;
    }
    assert(view.take(tokens.len() as int) =~= view);
    let mut result = run.finish();
    if append_optional_slash && takes_slash(&result) {
        let ghost before = result.deep_view();
        result.push(slash_group());
        assert(result.deep_view() =~= before.push(optional_slash()));
    }
    result
}

/// Whether a final `/` can be added to what the tokens match.
fn takes_slash(tokens: &Vec<MatcherToken>) -> (takes: bool)
    ensures
        takes == takes_optional_slash(tokens.deep_view()),
{
    if tokens.len() == 0 {
        return false;
    }
    match &tokens[tokens.len() - 1] {
        MatcherToken::Match(literal) => {
            let n = literal.as_str().unicode_len();
            n == 0 || literal.as_str().get_char(n - 1) != '/'
        },
        MatcherToken::Optional(_) => true,
        MatcherToken::Capture(_) => false,
    }
}

/// The group that lets a pattern match with or without a final `/`.
fn slash_group() -> (group: MatcherToken)
    ensures
        group.deep_view() == optional_slash(),
{
    proof {
        reveal_strlit("/");
    }
    let mut inner: Vec<MatcherToken> = Vec::new();
    inner.push(MatcherToken::Match(String::from_str("/")));
    proof {
        assert("/"@ =~= seq!['/']);
        assert(inner.deep_view() =~= seq![MatcherTokenView::Match(seq!['/'])]);
        lemma_matcher_optional_view(inner);
    }
    MatcherToken::Optional(inner)
}

/// Adds the names of the captures among the tokens to `names`.
fn collect_names(tokens: &[MatcherToken], names: &mut Vec<String>)
    ensures
        final(names).deep_view() == old(names).deep_view() + capture_names(tokens.deep_view()),
    decreases tokens@,
{
    let ghost view = tokens.deep_view();
    let ghost before = names.deep_view();
    let mut i: usize = 0;
    assert(view.skip(0) =~= view);
    while i < tokens.len()
        invariant
            i <= tokens.len(),
            view == tokens.deep_view(),
            before == old(names).deep_view(),
            names.deep_view() + capture_names(view.skip(i as int)) == before + capture_names(view),
        decreases tokens.len() - i,
    {
        proof {
            lemma_skip_view(tokens, i as int);
        }
        let ghost so_far = names.deep_view();
        let ghost others = capture_names(view.skip(i + 1));
        match &tokens[i] {
            MatcherToken::Match(_) => {
                assert(Seq::<Seq<char>>::empty() + others =~= others);
            },
            MatcherToken::Capture(capture) => {
                match &capture.capture_variant {
                    CaptureVariant::Named(name) => {
                        names.push(name.clone());
                    },
                    CaptureVariant::ManyNamed(name) => {
                        names.push(name.clone());
                    },
                    CaptureVariant::NumberedNamed { name, .. } => {
                        names.push(name.clone());
                    },
                    _ => {},
                }
                proof {
                    match capture.deep_view().capture_variant.name() {
                        Some(name) => {
                            assert(names.deep_view() =~= so_far + seq![name]);
                            assert((so_far + seq![name]) + others =~= so_far + (seq![name]
                                + others));
                        },
                        None => {
                            assert(Seq::<Seq<char>>::empty() + others =~= others);
                        },
                    }
                }
            },
            MatcherToken::Optional(inner) => {
                let group = inner.as_slice();
                proof {
                    lemma_matcher_optional_view(*inner);
                    assert(group.deep_view() =~= inner.deep_view());
                }
                collect_names(group, names);
                proof {
                    let found = capture_names(inner.deep_view());
                    assert((so_far + found) + others =~= so_far + (found + others));
                }
            },
        }
        i += 1;
    }
    assert(names.deep_view() + Seq::<Seq<char>>::empty() =~= names.deep_view());
}

/// Whether no string occurs twice among `names`.
fn all_distinct(names: &Vec<String>) -> (distinct: bool)
    ensures
        distinct == names.deep_view().no_duplicates(),
{
    let ghost view = names.deep_view();
    let mut j: usize = 0;
    while j < names.len()
        invariant
            j <= names.len(),
            view == names.deep_view(),
            forall|a: int, b: int| 0 <= a < b < j ==> view[a] != view[b],
        decreases names.len() - j,
    {
        let mut i: usize = 0;
        while i < j
            invariant
                i <= j < names.len(),
                view == names.deep_view(),
                forall|a: int| 0 <= a < i ==> view[a] != view[j as int],
            decreases j - i,
        {
            if names[i] == names[j] {
                assert(view[i as int] == view[j as int]);
                return false;
            }
            i += 1;
        }
        j += 1;
    }
    true
}

/// Turns the tokens of a pattern into the tokens the matcher works on.
///
/// Literal tokens that follow one another become one literal. A query term
/// contributes `ident=` and its value. An optional group is optimized in the
/// same way. With `append_optional_slash`, a result that ends in a literal
/// without a final `/`, or in an optional group, is followed by an optional
/// `/`, so that `/user` also matches `/user/`.
pub fn optimize_tokens(tokens: Vec<RouteParserToken>, append_optional_slash: bool) -> (result: Vec<
    MatcherToken,
>)
    ensures
        result.deep_view() == optimized(tokens.deep_view(), append_optional_slash),
        is_optimized(result.deep_view()),
{
    proof {
        lemma_optimized_is_optimized(tokens.deep_view(), append_optional_slash);
    }
    optimize(&tokens, append_optional_slash)
}

/// Compiles a pattern: splits it into tokens and optimizes them. A pattern
/// that is not well formed is rejected where it goes wrong; one in which two
/// captures have the same name is rejected at its end.
pub fn parse_str_and_optimize_tokens(i: &str, append_optional_slash: bool) -> (result: Result<
    Vec<MatcherToken>,
    ParseError,
>)
    ensures
        match compiled(i@, append_optional_slash) {
            Ok(tokens) => result matches Ok(found) && found.deep_view() == tokens,
            Err(failure) => result matches Err(error) && error.deep_view() == failure,
        },
{
    match parse(i) {
        Ok(tokens) => {
            let optimized = optimize_tokens(tokens, append_optional_slash);
            let mut names: Vec<String> = Vec::new();
            assert(names.deep_view() =~= Seq::empty());
            let tokens = optimized.as_slice();
            assert(tokens.deep_view() =~= optimized.deep_view());
            collect_names(tokens, &mut names);
            assert(names.deep_view() =~= capture_names(optimized.deep_view()));
            if all_distinct(&names) {
                Ok(optimized)
            } else {
                Err(ParseError { context: ErrorContext::DuplicateKey, offset: i.unicode_len() })
            }
        },
        Err(error) => Err(error),
    }
}

} // verus!
