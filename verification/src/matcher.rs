//! The matcher: decides whether a string is described by a sequence of
//! matcher tokens, and extracts the captured values.
//!
//! The tokens are taken from left to right against what remains of the
//! input. A literal must stand at the start of the rest. A capture takes the
//! rest up to the literal that comes next in the tokens; a numbered capture
//! takes a fixed number of sections separated by `/` instead. An optional
//! group is matched if it can be, and passed over if not. At the end of the
//! tokens the input must be used up.
use crate::captures::{distinct_keys, inserted, lemma_inserted, Captures, Entries};
use crate::text::{decimal, decimal_string, has_char_at, occurs_at, Text};
use crate::token::{
    lemma_matcher_optional_view, Capture, CaptureVariant, CaptureVariantView, CaptureView,
    MatcherToken, MatcherTokenView,
};
use vstd::prelude::*;

verus! {

/// The first literal in the tokens, looking into optional groups and past
/// captures.
pub open spec fn first_literal(tokens: Seq<MatcherTokenView>) -> Option<Seq<char>>
    decreases tokens,
{
    if tokens.len() == 0 {
        None
    } else {
        match tokens.first() {
            MatcherTokenView::Match(literal) => Some(literal),
            MatcherTokenView::Capture(_) => first_literal(tokens.drop_first()),
            MatcherTokenView::Optional(inner) => match first_literal(inner) {
                Some(literal) => Some(literal),
                None => first_literal(tokens.drop_first()),
            },
        }
    }
}

/// Where a capture ends: before the first occurrence of one of the literals,
/// or, if none occurs and `or_end` holds, at the end of the input.
pub struct DelimitersView {
    pub literals: Seq<Seq<char>>,
    pub or_end: bool,
}

/// The delimiters of a capture that is followed by `tokens`.
///
/// The tokens are scanned up to the first literal, which is a delimiter.
/// Each optional group on the way contributes its first literal, if it has
/// one; captures on the way contribute nothing. If the scan passes an
/// optional group or reaches the end of the tokens, the capture may also
/// extend to the end of the input.
pub open spec fn delimiters(tokens: Seq<MatcherTokenView>) -> DelimitersView
    decreases tokens.len(),
{
    if tokens.len() == 0 {
        DelimitersView { literals: Seq::empty(), or_end: true }
    } else {
        match tokens.first() {
            MatcherTokenView::Match(literal) => DelimitersView {
                literals: seq![literal],
                or_end: false,
            },
            MatcherTokenView::Capture(_) => delimiters(tokens.drop_first()),
            MatcherTokenView::Optional(inner) => {
                let others = delimiters(tokens.drop_first()).literals;
                DelimitersView {
                    literals: match first_literal(inner) {
                        Some(literal) => seq![literal] + others,
                        None => others,
                    },
                    or_end: true,
                }
            },
        }
    }
}

/// Whether one of the literals stands in `input` at `pos`.
pub open spec fn delimiter_at(input: Seq<char>, pos: int, literals: Seq<Seq<char>>) -> bool {
    exists|i: int| 0 <= i < literals.len() && occurs_at(input, pos, #[trigger] literals[i])
}

/// The first position from `pos` on at which one of the literals stands.
pub open spec fn first_delimiter(input: Seq<char>, pos: int, literals: Seq<Seq<char>>) -> Option<
    int,
>
    decreases input.len() - pos,
{
    if delimiter_at(input, pos, literals) {
        Some(pos)
    } else if pos >= input.len() {
        None
    } else {
        first_delimiter(input, pos + 1, literals)
    }
}

/// The end of the section that starts at `pos`: the position of the next
/// `/`, or the end of the input.
pub open spec fn section_end(input: Seq<char>, pos: int) -> int
    decreases input.len() - pos,
{
    if 0 <= pos < input.len() && input[pos] != '/' {
        section_end(input, pos + 1)
    } else {
        pos
    }
}

/// The end of `sections` sections that start at `pos`, if the input has as
/// many. Sections are separated by `/`; no sections end at `pos`.
pub open spec fn sections_end(input: Seq<char>, pos: int, sections: nat) -> Option<int>
    decreases sections,
{
    if sections == 0 {
        Some(pos)
    } else if sections == 1 {
        Some(section_end(input, pos))
    } else if has_char_at(input, section_end(input, pos), '/') {
        sections_end(input, section_end(input, pos) + 1, (sections - 1) as nat)
    } else {
        None
    }
}

/// The end of what a capture of `variant` takes at `pos`, when `following`
/// are the tokens after it.
pub open spec fn capture_end(
    variant: CaptureVariantView,
    following: Seq<MatcherTokenView>,
    input: Seq<char>,
    pos: int,
) -> Option<int> {
    match variant.sections() {
        Some(sections) => sections_end(input, pos, sections),
        None => {
            let delimiters = delimiters(following);
            match first_delimiter(input, pos, delimiters.literals) {
                Some(end) => Some(end),
                None => if delimiters.or_end {
                    Some(input.len() as int)
                } else {
                    None
                },
            }
        },
    }
}

/// Whether a capture may take `value`: any value if the capture is not
/// restricted, else one of the allowed values.
pub open spec fn permitted(capture: CaptureView, value: Seq<char>) -> bool {
    match capture.exact_possibilities {
        Some(allowed) => allowed.contains(value),
        None => true,
    }
}

/// The key a captured value is stored under: the name of the capture, or,
/// for a capture without a name, the numeral of the number of values stored
/// before it.
pub open spec fn capture_key(variant: CaptureVariantView, stored: nat) -> Seq<char> {
    match variant.name() {
        Some(name) => name,
        None => decimal(stored),
    }
}

/// Matches `tokens` against the input from `pos` on, with `captures` already
/// stored. Yields the position after the part that was matched and the
/// values stored then, or nothing if the tokens do not match there.
pub open spec fn match_prefix(
    tokens: Seq<MatcherTokenView>,
    input: Seq<char>,
    pos: int,
    captures: Entries,
) -> Option<(int, Entries)>
    decreases tokens,
{
    if tokens.len() == 0 {
        Some((pos, captures))
    } else {
        let following = tokens.drop_first();
        match tokens.first() {
            MatcherTokenView::Match(literal) => {
                if occurs_at(input, pos, literal) {
                    match_prefix(following, input, pos + literal.len(), captures)
                } else {
                    None
                }
            },
            MatcherTokenView::Capture(capture) => {
                match capture_end(capture.capture_variant, following, input, pos) {
                    Some(end) => {
                        let value = input.subrange(pos, end);
                        if permitted(capture, value) {
                            match_prefix(
                                following,
                                input,
                                end,
                                inserted(
                                    captures,
                                    capture_key(capture.capture_variant, captures.len()),
                                    value,
                                ),
                            )
                        } else {
                            None
                        }
                    },
                    None => None,
                }
            },
            MatcherTokenView::Optional(inner) => {
                match match_prefix(inner, input, pos, captures) {
                    Some((end, stored)) => match_prefix(following, input, end, stored),
                    None => match_prefix(following, input, pos, captures),
                }
            },
        }
    }
}

/// The values captured when `tokens` match the whole of `input`, or nothing
/// if they do not match it.
pub open spec fn matched(tokens: Seq<MatcherTokenView>, input: Seq<char>) -> Option<Entries> {
    match match_prefix(tokens, input, 0, Seq::empty()) {
        Some((end, captures)) => if end == input.len() {
            Some(captures)
        } else {
            None
        },
        None => None,
    }
}

/// Whether a position that was found is the one prescribed.
pub open spec fn same_position(found: Option<usize>, prescribed: Option<int>) -> bool {
    match (found, prescribed) {
        (Some(found), Some(prescribed)) => found == prescribed,
        (None, None) => true,
        _ => false,
    }
}

/// A match stores its values under distinct keys, if the values stored
/// before it had distinct keys.
pub proof fn lemma_match_keeps_keys_distinct(
    tokens: Seq<MatcherTokenView>,
    input: Seq<char>,
    pos: int,
    captures: Entries,
)
    requires
        distinct_keys(captures),
    ensures
        match_prefix(tokens, input, pos, captures) matches Some((_, stored)) ==> distinct_keys(
            stored,
        ),
    decreases tokens,
{
    if tokens.len() > 0 {
        let following = tokens.drop_first();
        match tokens.first() {
            MatcherTokenView::Match(literal) => {
                lemma_match_keeps_keys_distinct(following, input, pos + literal.len(), captures);
            },
            MatcherTokenView::Capture(capture) => {
                if let Some(end) = capture_end(capture.capture_variant, following, input, pos) {
                    let key = capture_key(capture.capture_variant, captures.len());
                    let value = input.subrange(pos, end);
                    lemma_inserted(captures, key, value);
                    lemma_match_keeps_keys_distinct(
                        following,
                        input,
                        end,
                        inserted(captures, key, value),
                    );
                }
            },
            MatcherTokenView::Optional(inner) => {
                lemma_match_keeps_keys_distinct(inner, input, pos, captures);
                match match_prefix(inner, input, pos, captures) {
                    Some((end, stored)) => {
                        lemma_match_keeps_keys_distinct(following, input, end, stored);
                    },
                    None => {
                        lemma_match_keeps_keys_distinct(following, input, pos, captures);
                    },
                }
            },
        }
    }
}

/// Where a capture ends.
pub struct Delimiters<'a> {
    /// The capture ends before the first occurrence of one of these.
    pub literals: Vec<&'a str>,
    /// Whether the capture extends to the end of the input if none of the
    /// literals occurs.
    pub or_end: bool,
}

impl<'a> DeepView for Delimiters<'a> {
    type V = DelimitersView;

    open spec fn deep_view(&self) -> DelimitersView {
        DelimitersView { literals: self.literals.deep_view(), or_end: self.or_end }
    }
}

/// The models of the tokens from index `from` on are the models of the
/// tokens without the first `from`.
pub proof fn lemma_skip_view(tokens: &[MatcherToken], from: int)
    requires
        0 <= from < tokens@.len(),
    ensures
        tokens.deep_view().skip(from).first() == tokens@[from].deep_view(),
        tokens.deep_view().skip(from).drop_first() == tokens.deep_view().skip(from + 1),
        tokens.deep_view().skip(from).len() > 0,
{
    assert(tokens.deep_view().skip(from).drop_first() =~= tokens.deep_view().skip(from + 1));
}

/// The first literal in the tokens, looking into optional groups and past
/// captures.
pub fn first_literal_in<'a>(tokens: &'a [MatcherToken]) -> (found: Option<&'a str>)
    ensures
        found.deep_view() == first_literal(tokens.deep_view()),
    decreases tokens@,
{
    let ghost view = tokens.deep_view();
    let mut i: usize = 0;
    assert(view.skip(0) =~= view);
    while i < tokens.len()
        invariant
            i <= tokens.len(),
            view == tokens.deep_view(),
            first_literal(view) == first_literal(view.skip(i as int)),
        decreases tokens.len() - i,
    {
        proof {
            lemma_skip_view(tokens, i as int);
        }
        match &tokens[i] {
            MatcherToken::Match(literal) => {
                return Some(literal.as_str());
            },
            MatcherToken::Capture(_) => {},
            MatcherToken::Optional(inner) => {
                let group = inner.as_slice();
                proof {
                    lemma_matcher_optional_view(*inner);
                    assert(group.deep_view() =~= inner.deep_view());
                }
                if let Some(literal) = first_literal_in(group) {
                    return Some(literal);
                }
            },
        }
        i += 1;
    }
    None
}

/// The delimiters of a capture that is followed by `tokens`: the literals
/// before which it ends, and whether it may extend to the end of the input.
pub fn next_delimiters<'a>(tokens: &'a [MatcherToken]) -> (found: Delimiters<'a>)
    ensures
        found.deep_view() == delimiters(tokens.deep_view()),
{
    let ghost view = tokens.deep_view();
    let mut literals: Vec<&'a str> = Vec::new();
    let mut or_end = false;
    let mut i: usize = 0;
    assert(view.skip(0) =~= view);
    assert(literals.deep_view() =~= Seq::empty());
    while i < tokens.len()
        invariant
            i <= tokens.len(),
            view == tokens.deep_view(),
            delimiters(view).literals == literals.deep_view() + delimiters(
                view.skip(i as int),
            ).literals,
            delimiters(view).or_end == (or_end || delimiters(view.skip(i as int)).or_end),
        decreases tokens.len() - i,
    {
        proof {
            lemma_skip_view(tokens, i as int);
        }
        let ghost before = literals.deep_view();
        match &tokens[i] {
            MatcherToken::Match(literal) => {
                literals.push(literal.as_str());
                assert(literals.deep_view() =~= before + seq![literal@]);
                return Delimiters { literals, or_end };
            },
            MatcherToken::Capture(_) => {},
            MatcherToken::Optional(inner) => {
                let group = inner.as_slice();
                proof {
                    lemma_matcher_optional_view(*inner);
                    assert(group.deep_view() =~= inner.deep_view());
                }
                or_end = true;
                if let Some(literal) = first_literal_in(group) {
                    literals.push(literal);
                    proof {
                        let others = delimiters(view.skip(i + 1)).literals;
                        assert(literals.deep_view() =~= before + seq![literal@]);
                        assert((before + seq![literal@]) + others =~= before + (seq![literal@]
                            + others));
                    }
                }
            },
        }
        i += 1;
    }
    assert(literals.deep_view() + Seq::empty() =~= literals.deep_view());
    Delimiters { literals, or_end: true }
}

impl<'a> Delimiters<'a> {
    /// Whether one of the literals stands in `input` at `pos`.
    pub fn stands_at(&self, input: &Text, pos: usize) -> (found: bool)
        ensures
            found == delimiter_at(input@, pos as int, self.deep_view().literals),
    {
        let ghost literals = self.literals.deep_view();
        let mut i: usize = 0;
        while i < self.literals.len()
            invariant
                i <= self.literals.len(),
                literals == self.literals.deep_view(),
                forall|k: int| 0 <= k < i ==> !occurs_at(input@, pos as int, #[trigger] literals[k]),
            decreases self.literals.len() - i,
        {
            if input.has_literal_at(pos, self.literals[i]) {
                assert(occurs_at(input@, pos as int, literals[i as int]));
                return true;
            }
            i += 1;
        }
        false
    }

    /// The end of a capture that starts at `pos`: the first position at
    /// which one of the literals stands, or else the end of the input if the
    /// capture may extend to it.
    pub fn capture_end(&self, input: &Text, pos: usize) -> (end: Option<usize>)
        requires
            pos <= input@.len(),
        ensures
            same_position(
                end,
                match first_delimiter(input@, pos as int, self.deep_view().literals) {
                    Some(end) => Some(end),
                    None => if self.or_end {
                        Some(input@.len() as int)
                    } else {
                        None
                    },
                },
            ),
            end matches Some(e) ==> pos <= e <= input@.len(),
    {
        let n = input.len();
        let mut at = pos;
        loop
            invariant
                pos <= at <= n == input@.len(),
                first_delimiter(input@, pos as int, self.deep_view().literals) == first_delimiter(
                    input@,
                    at as int,
                    self.deep_view().literals,
                ),
            decreases n - at,
        {
            if self.stands_at(input, at) {
                return Some(at);
            }
            if at == n {
                return if self.or_end {
                    Some(n)
                } else {
                    None
                };
            }
            at += 1;
        }
    }
}

/// The end of the section that starts at `pos`.
pub fn section_end_in(input: &Text, pos: usize) -> (end: usize)
    requires
        pos <= input@.len(),
    ensures
        end == section_end(input@, pos as int),
        pos <= end <= input@.len(),
{
    let n = input.len();
    let mut end = pos;
    while end < n && input.at(end) != '/'
        invariant
            pos <= end <= n == input@.len(),
            section_end(input@, pos as int) == section_end(input@, end as int),
        decreases n - end,
    {
        end += 1;
    }
    end
}

/// The end of `sections` sections that start at `pos`.
pub fn sections_end_in(input: &Text, pos: usize, sections: usize) -> (end: Option<usize>)
    requires
        pos <= input@.len(),
    ensures
        same_position(end, sections_end(input@, pos as int, sections as nat)),
        end matches Some(e) ==> pos <= e <= input@.len(),
{
    if sections == 0 {
        return Some(pos);
    }
    let mut at = pos;
    let mut left = sections;
    loop
        invariant
            pos <= at <= input@.len(),
            1 <= left <= sections,
            sections_end(input@, pos as int, sections as nat) == sections_end(
                input@,
                at as int,
                left as nat,
            ),
        decreases left,
    {
        let end = section_end_in(input, at);
        if left == 1 {
            return Some(end);
        }
        if !input.is_at(end, '/') {
            return None;
        }
        at = end + 1;
        left -= 1;
    }
}

/// Whether a capture may take `value`.
pub fn permitted_in(capture: &Capture, value: &String) -> (allowed: bool)
    ensures
        allowed == permitted(capture.deep_view(), value@),
{
    match &capture.exact_possibilities {
        None => true,
        Some(possibilities) => {
            let ghost view = possibilities.deep_view();
            let mut i: usize = 0;
            while i < possibilities.len()
                invariant
                    i <= possibilities.len(),
                    capture.exact_possibilities == Some(*possibilities),
                    view == possibilities.deep_view(),
                    forall|k: int| 0 <= k < i ==> view[k] != value@,
                decreases possibilities.len() - i,
            {
                if possibilities[i] == *value {
                    assert(view[i as int] == value@);
                    return true;
                }
                i += 1;
            }
            false
        },
    }
}

/// The key a captured value is stored under, when `stored` values were
/// stored before it.
pub fn capture_key_in(variant: &CaptureVariant, stored: usize) -> (key: String)
    ensures
        key@ == capture_key(variant.deep_view(), stored as nat),
{
    match variant {
        CaptureVariant::Named(name) => name.clone(),
        CaptureVariant::ManyNamed(name) => name.clone(),
        CaptureVariant::NumberedNamed { name, .. } => name.clone(),
        _ => decimal_string(stored),
    }
}

/// The end of what `capture` takes at `pos`, when `following` are the tokens
/// after it.
pub fn capture_end_in(
    capture: &Capture,
    following: &[MatcherToken],
    input: &Text,
    pos: usize,
) -> (end: Option<usize>)
    requires
        pos <= input@.len(),
    ensures
        same_position(
            end,
            capture_end(
                capture.deep_view().capture_variant,
                following.deep_view(),
                input@,
                pos as int,
            ),
        ),
        end matches Some(e) ==> pos <= e <= input@.len(),
{
    match &capture.capture_variant {
        CaptureVariant::NumberedUnnamed { sections } => sections_end_in(input, pos, *sections),
        CaptureVariant::NumberedNamed { sections, .. } => sections_end_in(input, pos, *sections),
        _ => next_delimiters(following).capture_end(input, pos),
    }
}

/// Matches `tokens` against the input from `pos` on, with `captures` already
/// stored.
pub fn match_prefix_in(tokens: &[MatcherToken], input: &Text, pos: usize, captures: Captures) -> (result:
    Option<(usize, Captures)>)
    requires
        pos <= input@.len(),
    ensures
        match match_prefix(tokens.deep_view(), input@, pos as int, captures@) {
            Some((end, stored)) => result matches Some((e, c)) && e == end && c@ == stored,
            None => result is None,
        },
        result matches Some((e, _)) ==> pos <= e <= input@.len(),
    decreases tokens@,
{
    let ghost view = tokens.deep_view();
    let n = input.len();
    let mut at = pos;
    let mut stored = captures;
    let mut i: usize = 0;
    assert(view.skip(0) =~= view);
    while i < tokens.len()
        invariant
            i <= tokens.len(),
            view == tokens.deep_view(),
            pos <= at <= n == input@.len(),
            match_prefix(view, input@, pos as int, captures@) == match_prefix(
                view.skip(i as int),
                input@,
                at as int,
                stored@,
            ),
        decreases tokens.len() - i,
    {
        proof {
            lemma_skip_view(tokens, i as int);
        }
        match &tokens[i] {
            MatcherToken::Match(literal) => {
                if !input.has_literal_at(at, literal.as_str()) {
                    return None;
                }
                at = at + literal.as_str().unicode_len();
            },
            MatcherToken::Capture(capture) => {
                let following = &tokens[i + 1..tokens.len()];
                assert(following.deep_view() =~= view.skip(i + 1));
                let end = match capture_end_in(capture, following, input, at) {
                    Some(end) => end,
                    None => {
                        return None;
                    },
                };
                let value = input.owned(at, end);
                if !permitted_in(capture, &value) {
                    return None;
                }
                let key = capture_key_in(&capture.capture_variant, stored.len());
                stored.insert(key, value);
                at = end;
            },
            MatcherToken::Optional(inner) => {
                let group = inner.as_slice();
                proof {
                    lemma_matcher_optional_view(*inner);
                    assert(group.deep_view() =~= inner.deep_view());
                }
                let attempt = match_prefix_in(group, input, at, stored.duplicate());
                if let Some((end, with_group)) = attempt {
                    at = end;
                    stored = with_group;
                }
            },
        }
        i += 1;
    }
    Some((at, stored))
}

/// Matches `tokens` against the whole of `input`. Returns the captured
/// values if the tokens match, and nothing if they do not.
pub fn match_route(tokens: &[MatcherToken], input: &str) -> (result: Option<Captures>)
    ensures
        match matched(tokens.deep_view(), input@) {
            Some(captures) => result matches Some(found) && found@ == captures,
            None => result is None,
        },
        result matches Some(found) ==> distinct_keys(found@),
{
    let text = Text::new(input);
    match match_prefix_in(tokens, &text, 0, Captures::new()) {
        Some((end, captures)) => {
            if end == text.len() {
                proof {
                    lemma_match_keeps_keys_distinct(
                        tokens.deep_view(),
                        input@,
                        0,
                        Seq::empty(),
                    );
                }
                Some(captures)
            } else {
                None
            }
        },
        None => None,
    }
}

} // verus!
