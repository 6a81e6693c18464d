//! The token types shared by the tokenizer, the optimizer and the matcher,
//! together with their mathematical models.
//!
//! Every executable type has a model in which strings are `Seq<char>` and
//! vectors are `Seq`; contracts throughout the crate are stated over the
//! models, reached through `deep_view()`.
use vstd::prelude::*;

verus! {

/// What a `{…}` placeholder captures.
#[derive(Debug, Clone, PartialEq)]
pub enum CaptureVariant {
    /// `{}`: one section, stored under its position.
    Unnamed,
    /// `{*}`: all remaining sections, stored under its position.
    ManyUnnamed,
    /// `{5}`: a fixed number of sections, stored under its position.
    NumberedUnnamed {
        /// Number of sections to capture.
        sections: usize,
    },
    /// `{name}`: one section, stored under `name`.
    Named(String),
    /// `{*:name}`: all remaining sections, stored under `name`.
    ManyNamed(String),
    /// `{5:name}`: a fixed number of sections, stored under `name`.
    NumberedNamed {
        /// Number of sections to capture.
        sections: usize,
        /// The key the value is stored under.
        name: String,
    },
}

/// A capture together with the values it is allowed to take, if restricted.
#[derive(Debug, Clone, PartialEq)]
pub struct Capture {
    /// How much is captured, and under which key.
    pub capture_variant: CaptureVariant,
    /// When present, the captured value must equal one of these strings.
    pub exact_possibilities: Option<Vec<String>>,
}

/// The value side of a query term: a literal or a capture.
#[derive(Debug, Clone, PartialEq)]
pub enum CaptureOrMatch {
    /// A literal that has to be matched exactly.
    Match(String),
    /// A capture.
    Capture(Capture),
}

/// Tokens produced by the tokenizer.
#[derive(Debug, PartialEq)]
pub enum RouteParserToken {
    /// `/`
    Separator,
    /// A literal that has to be matched exactly.
    Match(String),
    /// `{…}`
    Capture(Capture),
    /// `?`
    QueryBegin,
    /// `&`
    QuerySeparator,
    /// `ident=value`
    QueryCapture {
        /// The query key.
        ident: String,
        /// The query value.
        capture_or_match: CaptureOrMatch,
    },
    /// `#`
    FragmentBegin,
    /// `(…)`: a group that may be absent from the matched string.
    Optional(Vec<RouteParserToken>),
}

/// Tokens the matcher works on.
#[derive(Debug, PartialEq)]
pub enum MatcherToken {
    /// A literal that has to be matched exactly.
    Match(String),
    /// A capture.
    Capture(Capture),
    /// A group that may be absent from the matched string.
    Optional(Vec<MatcherToken>),
}

/// Model of [`CaptureVariant`].
pub enum CaptureVariantView {
    Unnamed,
    ManyUnnamed,
    NumberedUnnamed { sections: nat },
    Named(Seq<char>),
    ManyNamed(Seq<char>),
    NumberedNamed { sections: nat, name: Seq<char> },
}

/// Model of [`Capture`].
pub struct CaptureView {
    pub capture_variant: CaptureVariantView,
    pub exact_possibilities: Option<Seq<Seq<char>>>,
}

/// Model of [`CaptureOrMatch`].
pub enum CaptureOrMatchView {
    Match(Seq<char>),
    Capture(CaptureView),
}

/// Model of [`RouteParserToken`].
pub enum RouteParserTokenView {
    Separator,
    Match(Seq<char>),
    Capture(CaptureView),
    QueryBegin,
    QuerySeparator,
    QueryCapture { ident: Seq<char>, capture_or_match: CaptureOrMatchView },
    FragmentBegin,
    Optional(Seq<RouteParserTokenView>),
}

/// Model of [`MatcherToken`].
pub enum MatcherTokenView {
    Match(Seq<char>),
    Capture(CaptureView),
    Optional(Seq<MatcherTokenView>),
}

impl CaptureVariantView {
    /// The name the captured value is stored under, if the variant has one.
    pub open spec fn name(self) -> Option<Seq<char>> {
        match self {
            CaptureVariantView::Named(name) => Some(name),
            CaptureVariantView::ManyNamed(name) => Some(name),
            CaptureVariantView::NumberedNamed { name, .. } => Some(name),
            _ => None,
        }
    }

    /// The number of sections a numbered variant captures.
    pub open spec fn sections(self) -> Option<nat> {
        match self {
            CaptureVariantView::NumberedUnnamed { sections } => Some(sections),
            CaptureVariantView::NumberedNamed { sections, .. } => Some(sections),
            _ => None,
        }
    }
}

impl DeepView for CaptureVariant {
    type V = CaptureVariantView;

    open spec fn deep_view(&self) -> CaptureVariantView {
        match self {
            CaptureVariant::Unnamed => CaptureVariantView::Unnamed,
            CaptureVariant::ManyUnnamed => CaptureVariantView::ManyUnnamed,
            CaptureVariant::NumberedUnnamed { sections } => CaptureVariantView::NumberedUnnamed {
                sections: *sections as nat,
            },
            CaptureVariant::Named(name) => CaptureVariantView::Named(name@),
            CaptureVariant::ManyNamed(name) => CaptureVariantView::ManyNamed(name@),
            CaptureVariant::NumberedNamed { sections, name } => CaptureVariantView::NumberedNamed {
                sections: *sections as nat,
                name: name@,
            },
        }
    }
}

impl DeepView for Capture {
    type V = CaptureView;

    open spec fn deep_view(&self) -> CaptureView {
        CaptureView {
            capture_variant: self.capture_variant.deep_view(),
            exact_possibilities: self.exact_possibilities.deep_view(),
        }
    }
}

impl DeepView for CaptureOrMatch {
    type V = CaptureOrMatchView;

    open spec fn deep_view(&self) -> CaptureOrMatchView {
        match self {
            CaptureOrMatch::Match(literal) => CaptureOrMatchView::Match(literal@),
            CaptureOrMatch::Capture(capture) => CaptureOrMatchView::Capture(capture.deep_view()),
        }
    }
}

/// The model of one tokenizer token.
pub open spec fn parser_token_view(token: RouteParserToken) -> RouteParserTokenView
    decreases token,
{
    match token {
        RouteParserToken::Separator => RouteParserTokenView::Separator,
        RouteParserToken::Match(literal) => RouteParserTokenView::Match(literal@),
        RouteParserToken::Capture(capture) => RouteParserTokenView::Capture(capture.deep_view()),
        RouteParserToken::QueryBegin => RouteParserTokenView::QueryBegin,
        RouteParserToken::QuerySeparator => RouteParserTokenView::QuerySeparator,
        RouteParserToken::QueryCapture { ident, capture_or_match } => {
            RouteParserTokenView::QueryCapture {
                ident: ident@,
                capture_or_match: capture_or_match.deep_view(),
            }
        },
        RouteParserToken::FragmentBegin => RouteParserTokenView::FragmentBegin,
        RouteParserToken::Optional(inner) => RouteParserTokenView::Optional(
            Seq::new(
                inner@.len(),
                |i: int|
                    if 0 <= i < inner@.len() {
                        parser_token_view(inner@[i])
                    } else {
                        RouteParserTokenView::Separator
                    },
            ),
        ),
    }
}

/// The model of one matcher token.
pub open spec fn matcher_token_view(token: MatcherToken) -> MatcherTokenView
    decreases token,
{
    match token {
        MatcherToken::Match(literal) => MatcherTokenView::Match(literal@),
        MatcherToken::Capture(capture) => MatcherTokenView::Capture(capture.deep_view()),
        MatcherToken::Optional(inner) => MatcherTokenView::Optional(
            Seq::new(
                inner@.len(),
                |i: int|
                    if 0 <= i < inner@.len() {
                        matcher_token_view(inner@[i])
                    } else {
                        MatcherTokenView::Match(Seq::empty())
                    },
            ),
        ),
    }
}

impl DeepView for RouteParserToken {
    type V = RouteParserTokenView;

    open spec fn deep_view(&self) -> RouteParserTokenView {
        parser_token_view(*self)
    }
}

impl DeepView for MatcherToken {
    type V = MatcherTokenView;

    open spec fn deep_view(&self) -> MatcherTokenView {
        matcher_token_view(*self)
    }
}

/// The model of an optional group is the optional group of the models.
pub broadcast proof fn lemma_parser_optional_view(inner: Vec<RouteParserToken>)
    ensures
        #[trigger] RouteParserToken::Optional(inner).deep_view() == RouteParserTokenView::Optional(
            inner.deep_view(),
        ),
{
    assert(RouteParserToken::Optional(inner).deep_view()->Optional_0 =~= inner.deep_view());
}

/// The model of an optional group is the optional group of the models.
pub broadcast proof fn lemma_matcher_optional_view(inner: Vec<MatcherToken>)
    ensures
        #[trigger] MatcherToken::Optional(inner).deep_view() == MatcherTokenView::Optional(
            inner.deep_view(),
        ),
{
    assert(MatcherToken::Optional(inner).deep_view()->Optional_0 =~= inner.deep_view());
}

impl CaptureVariant {
    /// A copy of the variant.
    pub fn duplicate(&self) -> (copy: CaptureVariant)
        ensures
            copy.deep_view() == self.deep_view(),
    {
        match self {
            CaptureVariant::Unnamed => CaptureVariant::Unnamed,
            CaptureVariant::ManyUnnamed => CaptureVariant::ManyUnnamed,
            CaptureVariant::NumberedUnnamed { sections } => CaptureVariant::NumberedUnnamed {
                sections: *sections,
            },
            CaptureVariant::Named(name) => CaptureVariant::Named(name.clone()),
            CaptureVariant::ManyNamed(name) => CaptureVariant::ManyNamed(name.clone()),
            CaptureVariant::NumberedNamed { sections, name } => CaptureVariant::NumberedNamed {
                sections: *sections,
                name: name.clone(),
            },
        }
    }
}

/// A copy of a list of strings.
pub fn duplicate_strings(strings: &Vec<String>) -> (copy: Vec<String>)
    ensures
        copy.deep_view() == strings.deep_view(),
{
    let mut copy: Vec<String> = Vec::new();
    let mut i: usize = 0;
    while i < strings.len()
        invariant
            i <= strings.len(),
            copy.len() == i,
            forall|k: int| 0 <= k < i ==> copy[k]@ == strings[k]@,
        decreases strings.len() - i,
    {
        copy.push(strings[i].clone());
        i += 1;
    }
    assert(copy.deep_view() =~= strings.deep_view());
    copy
}

impl Capture {
    /// A copy of the capture.
    pub fn duplicate(&self) -> (copy: Capture)
        ensures
            copy.deep_view() == self.deep_view(),
    {
        let exact_possibilities = match &self.exact_possibilities {
            Some(allowed) => Some(duplicate_strings(allowed)),
            None => None,
        };
        Capture { capture_variant: self.capture_variant.duplicate(), exact_possibilities }
    }
}

impl From<CaptureVariant> for Capture {
    fn from(capture_variant: CaptureVariant) -> (capture: Capture) {
        Capture { capture_variant, exact_possibilities: None }
    }
}

impl vstd::std_specs::convert::FromSpecImpl<CaptureVariant> for Capture {
    open spec fn obeys_from_spec() -> bool {
        true
    }

    open spec fn from_spec(capture_variant: CaptureVariant) -> Capture {
        Capture { capture_variant, exact_possibilities: None }
    }
}

impl CaptureOrMatch {
    /// A copy of the value.
    pub fn duplicate(&self) -> (copy: CaptureOrMatch)
        ensures
            copy.deep_view() == self.deep_view(),
    {
        match self {
            CaptureOrMatch::Match(literal) => CaptureOrMatch::Match(literal.clone()),
            CaptureOrMatch::Capture(capture) => CaptureOrMatch::Capture(capture.duplicate()),
        }
    }
}

impl Clone for RouteParserToken {
    fn clone(&self) -> (copy: RouteParserToken)
        ensures
            copy.deep_view() == self.deep_view(),
        decreases self,
    {
        match self {
            RouteParserToken::Separator => RouteParserToken::Separator,
            RouteParserToken::Match(literal) => RouteParserToken::Match(literal.clone()),
            RouteParserToken::Capture(capture) => RouteParserToken::Capture(capture.duplicate()),
            RouteParserToken::QueryBegin => RouteParserToken::QueryBegin,
            RouteParserToken::QuerySeparator => RouteParserToken::QuerySeparator,
            RouteParserToken::QueryCapture { ident, capture_or_match } => {
                RouteParserToken::QueryCapture {
                    ident: ident.clone(),
                    capture_or_match: capture_or_match.duplicate(),
                }
            },
            RouteParserToken::FragmentBegin => RouteParserToken::FragmentBegin,
            RouteParserToken::Optional(inner) => {
                let mut copy: Vec<RouteParserToken> = Vec::new();
                let mut i: usize = 0;
                while i < inner.len()
                    invariant
                        self is Optional,
                        self->Optional_0 == *inner,
                        i <= inner.len(),
                        copy.len() == i,
                        forall|k: int| 0 <= k < i ==> copy[k].deep_view() == inner[k].deep_view(),
                    decreases inner.len() - i,
                {
                    proof {
                        assert(decreases_to!(*self => self->Optional_0));
                    }
                    copy.push(inner[i].clone());
                    i += 1;
                }
                proof {
                    lemma_parser_optional_view(copy);
                    lemma_parser_optional_view(*inner);
                    assert(copy.deep_view() =~= inner.deep_view());
                }
                RouteParserToken::Optional(copy)
            },
        }
    }
}

impl Clone for MatcherToken {
    fn clone(&self) -> (copy: MatcherToken)
        ensures
            copy.deep_view() == self.deep_view(),
        decreases self,
    {
        match self {
            MatcherToken::Match(literal) => MatcherToken::Match(literal.clone()),
            MatcherToken::Capture(capture) => MatcherToken::Capture(capture.duplicate()),
            MatcherToken::Optional(inner) => {
                let mut copy: Vec<MatcherToken> = Vec::new();
                let mut i: usize = 0;
                while i < inner.len()
                    invariant
                        self is Optional,
                        self->Optional_0 == *inner,
                        i <= inner.len(),
                        copy.len() == i,
                        forall|k: int| 0 <= k < i ==> copy[k].deep_view() == inner[k].deep_view(),
                    decreases inner.len() - i,
                {
                    proof {
                        assert(decreases_to!(*self => self->Optional_0));
                    }
                    copy.push(inner[i].clone());
                    i += 1;
                }
                proof {
                    lemma_matcher_optional_view(copy);
                    lemma_matcher_optional_view(*inner);
                    assert(copy.deep_view() =~= inner.deep_view());
                }
                MatcherToken::Optional(copy)
            },
        }
    }
}

} // verus!
