//! The leaves of the grammar: names, literals, and captures.
use crate::parser::error::{agrees, fail, failure, ErrorContext, ParseError, ParseResult, Parsed};
use crate::text::{decimal_value, digit, digit_value, has_char_at, is_digit, Text};
use crate::token::{
    Capture, CaptureOrMatch, CaptureOrMatchView, CaptureVariant, CaptureVariantView, CaptureView,
    RouteParserToken, RouteParserTokenView,
};
use vstd::prelude::*;

verus! {

/// The kinds of character runs the grammar is built from.
#[derive(Debug, Clone, Copy, PartialEq, Eq, Structural)]
pub enum CharClass {
    /// Characters of a name.
    Ident,
    /// Characters of a literal.
    Exact,
    /// Decimal digits.
    Digit,
}

/// Whether `c` cannot be part of a name.
pub open spec fn ident_forbidden(c: char) -> bool {
    ||| c == ' '
    ||| c == '-'
    ||| c == '*'
    ||| c == '/'
    ||| c == '+'
    ||| c == '#'
    ||| c == '?'
    ||| c == '&'
    ||| c == '^'
    ||| c == '@'
    ||| c == '%'
    ||| c == '$'
    ||| c == '\''
    ||| c == '"'
    ||| c == '`'
    ||| c == '~'
    ||| c == ';'
    ||| c == ','
    ||| c == '.'
    ||| c == '|'
    ||| c == '\\'
    ||| c == '{'
    ||| c == '}'
    ||| c == '['
    ||| c == ']'
    ||| c == '('
    ||| c == ')'
    ||| c == '<'
    ||| c == '>'
    ||| c == '='
    ||| c == '\t'
    ||| c == '\n'
}

/// Whether `c` cannot be part of a literal.
pub open spec fn exact_forbidden(c: char) -> bool {
    ||| c == ' '
    ||| c == '/'
    ||| c == '?'
    ||| c == '&'
    ||| c == '#'
    ||| c == '='
    ||| c == '\t'
    ||| c == '\n'
    ||| c == '('
    ||| c == ')'
    ||| c == '|'
    ||| c == '['
    ||| c == ']'
    ||| c == '{'
    ||| c == '}'
}

impl CharClass {
    /// Whether `c` belongs to the class.
    pub open spec fn admits(self, c: char) -> bool {
        match self {
            CharClass::Ident => !ident_forbidden(c),
            CharClass::Exact => !exact_forbidden(c),
            CharClass::Digit => is_digit(c),
        }
    }

    /// Whether `c` belongs to the class.
    pub fn has(self, c: char) -> (b: bool)
        ensures
            b == self.admits(c),
    {
        match self {
            CharClass::Ident => !(c == ' ' || c == '-' || c == '*' || c == '/' || c == '+' || c
                == '#' || c == '?' || c == '&' || c == '^' || c == '@' || c == '%' || c == '$'
                || c == '\'' || c == '"' || c == '`' || c == '~' || c == ';' || c == ',' || c
                == '.' || c == '|' || c == '\\' || c == '{' || c == '}' || c == '[' || c == ']'
                || c == '(' || c == ')' || c == '<' || c == '>' || c == '=' || c == '\t' || c
                == '\n'),
            CharClass::Exact => !(c == ' ' || c == '/' || c == '?' || c == '&' || c == '#' || c
                == '=' || c == '\t' || c == '\n' || c == '(' || c == ')' || c == '|' || c == '['
                || c == ']' || c == '{' || c == '}'),
            CharClass::Digit => digit(c),
        }
    }
}

/// The end of the longest run of characters of `class` that starts at `pos`.
pub open spec fn run_end(s: Seq<char>, pos: int, class: CharClass) -> int
    decreases s.len() - pos,
{
    if 0 <= pos < s.len() && class.admits(s[pos]) {
        run_end(s, pos + 1, class)
    } else {
        pos
    }
}

/// The run ends within the string, holds only characters of the class, and
/// cannot be extended.
pub proof fn lemma_run_end(s: Seq<char>, pos: int, class: CharClass)
    requires
        0 <= pos,
    ensures
        pos <= run_end(s, pos, class),
        pos <= s.len() ==> run_end(s, pos, class) <= s.len(),
        forall|i: int| pos <= i < run_end(s, pos, class) ==> class.admits(#[trigger] s[i]),
        run_end(s, pos, class) < s.len() ==> !class.admits(s[run_end(s, pos, class)]),
    decreases s.len() - pos,
{
    if pos < s.len() && class.admits(s[pos]) {
        lemma_run_end(s, pos + 1, class);
    }
}

/// A name at `pos`: a non-empty run of name characters that does not start
/// with a digit.
pub open spec fn spec_valid_ident(s: Seq<char>, pos: int) -> Parsed<Seq<char>> {
    let end = run_end(s, pos, CharClass::Ident);
    if end == pos || is_digit(s[pos]) {
        failure(ErrorContext::ValidIdent, pos)
    } else {
        Ok((s.subrange(pos, end), end))
    }
}

/// A literal at `pos`: a non-empty run of literal characters.
pub open spec fn spec_valid_exact_match(s: Seq<char>, pos: int) -> Parsed<Seq<char>> {
    let end = run_end(s, pos, CharClass::Exact);
    if end == pos {
        failure(ErrorContext::ValidExactMatch, pos)
    } else {
        Ok((s.subrange(pos, end), end))
    }
}

/// A section count at `pos`: a non-empty run of digits whose value fits the
/// machine word.
pub open spec fn spec_number(s: Seq<char>, pos: int) -> Parsed<nat> {
    let end = run_end(s, pos, CharClass::Digit);
    if end == pos {
        failure(ErrorContext::Capture, pos)
    } else if decimal_value(s.subrange(pos, end)) > usize::MAX {
        failure(ErrorContext::Number, pos)
    } else {
        Ok((decimal_value(s.subrange(pos, end)), end))
    }
}

/// What stands between `{` and the end of a capture, tried in this order:
/// nothing, `*:name`, `*`, `name`, `5:name`, `5`.
pub open spec fn spec_capture_variant(s: Seq<char>, pos: int) -> Parsed<CaptureVariantView> {
    if has_char_at(s, pos, '}') || has_char_at(s, pos, '(') {
        Ok((CaptureVariantView::Unnamed, pos))
    } else if has_char_at(s, pos, '*') {
        if has_char_at(s, pos + 1, ':') && spec_valid_ident(s, pos + 2) is Ok {
            let (name, end) = spec_valid_ident(s, pos + 2)->Ok_0;
            Ok((CaptureVariantView::ManyNamed(name), end))
        } else {
            Ok((CaptureVariantView::ManyUnnamed, pos + 1))
        }
    } else if spec_valid_ident(s, pos) is Ok {
        let (name, end) = spec_valid_ident(s, pos)->Ok_0;
        Ok((CaptureVariantView::Named(name), end))
    } else {
        match spec_number(s, pos) {
            Ok((sections, end)) => {
                if has_char_at(s, end, ':') && spec_valid_ident(s, end + 1) is Ok {
                    let (name, name_end) = spec_valid_ident(s, end + 1)->Ok_0;
                    Ok((CaptureVariantView::NumberedNamed { sections, name }, name_end))
                } else {
                    Ok((CaptureVariantView::NumberedUnnamed { sections }, end))
                }
            },
            Err(failure) => Err(failure),
        }
    }
}

/// One or more literals separated by `|`, starting at `pos`.
pub open spec fn spec_alternatives(s: Seq<char>, pos: int) -> Parsed<Seq<Seq<char>>>
    decreases s.len() - pos,
{
    match spec_valid_exact_match(s, pos) {
        Ok((first, end)) => {
            if pos < end && has_char_at(s, end, '|') && spec_alternatives(s, end + 1) is Ok {
                let (others, others_end) = spec_alternatives(s, end + 1)->Ok_0;
                Ok((seq![first] + others, others_end))
            } else {
                Ok((seq![first], end))
            }
        },
        Err(failure) => Err(failure),
    }
}

/// The list of allowed values `(a|b|c)` at `pos`.
pub open spec fn spec_allowed_values(s: Seq<char>, pos: int) -> Parsed<Seq<Seq<char>>> {
    if !has_char_at(s, pos, '(') {
        failure(ErrorContext::Capture, pos)
    } else {
        match spec_alternatives(s, pos + 1) {
            Ok((allowed, end)) => {
                if has_char_at(s, end, ')') {
                    Ok((allowed, end + 1))
                } else {
                    failure(ErrorContext::Capture, end)
                }
            },
            Err(failure) => Err(failure),
        }
    }
}

/// A capture at `pos`: `{`, a variant, optionally a list of allowed values,
/// and `}`.
pub open spec fn spec_capture(s: Seq<char>, pos: int) -> Parsed<CaptureView> {
    if !has_char_at(s, pos, '{') {
        failure(ErrorContext::Capture, pos)
    } else {
        match spec_capture_variant(s, pos + 1) {
            Ok((capture_variant, variant_end)) => {
                let (exact_possibilities, end) = match spec_allowed_values(s, variant_end) {
                    Ok((allowed, allowed_end)) => (Some(allowed), allowed_end),
                    Err(_) => (None, variant_end),
                };
                if has_char_at(s, end, '}') {
                    Ok((CaptureView { capture_variant, exact_possibilities }, end + 1))
                } else {
                    failure(ErrorContext::Capture, end)
                }
            },
            Err(failure) => Err(failure),
        }
    }
}

/// A capture if `pos` holds `{`, else a literal.
pub open spec fn spec_capture_or_match(s: Seq<char>, pos: int) -> Parsed<CaptureOrMatchView> {
    if has_char_at(s, pos, '{') {
        match spec_capture(s, pos) {
            Ok((capture, end)) => Ok((CaptureOrMatchView::Capture(capture), end)),
            Err(failure) => Err(failure),
        }
    } else {
        match spec_valid_exact_match(s, pos) {
            Ok((literal, end)) => Ok((CaptureOrMatchView::Match(literal), end)),
            Err(failure) => Err(failure),
        }
    }
}

/// The token of a capture or a literal.
pub open spec fn section_token(value: CaptureOrMatchView) -> RouteParserTokenView {
    match value {
        CaptureOrMatchView::Match(literal) => RouteParserTokenView::Match(literal),
        CaptureOrMatchView::Capture(capture) => RouteParserTokenView::Capture(capture),
    }
}

/// A capture or a literal at `pos`, as a token.
pub open spec fn spec_section(s: Seq<char>, pos: int) -> Parsed<RouteParserTokenView> {
    match spec_capture_or_match(s, pos) {
        Ok((value, end)) => Ok((section_token(value), end)),
        Err(failure) => Err(failure),
    }
}

/// A capture variant ends within the string, at or after its start.
pub proof fn lemma_capture_variant_bounds(s: Seq<char>, pos: int)
    requires
        0 <= pos,
    ensures
        spec_capture_variant(s, pos) matches Ok((_, end)) ==> pos <= end <= s.len(),
{
    lemma_run_end(s, pos, CharClass::Ident);
    lemma_run_end(s, pos + 2, CharClass::Ident);
    lemma_run_end(s, pos, CharClass::Digit);
    let end = run_end(s, pos, CharClass::Digit);
    lemma_run_end(s, end + 1, CharClass::Ident);
}

/// A list of alternatives ends within the string, after its start.
pub proof fn lemma_alternatives_bounds(s: Seq<char>, pos: int)
    requires
        0 <= pos,
    ensures
        spec_alternatives(s, pos) matches Ok((_, end)) ==> pos < end <= s.len(),
    decreases s.len() - pos,
{
    lemma_run_end(s, pos, CharClass::Exact);
    let end = run_end(s, pos, CharClass::Exact);
    if pos < end && has_char_at(s, end, '|') {
        lemma_alternatives_bounds(s, end + 1);
    }
}

/// A capture ends within the string, after its start.
pub proof fn lemma_capture_bounds(s: Seq<char>, pos: int)
    requires
        0 <= pos,
    ensures
        spec_capture(s, pos) matches Ok((_, end)) ==> pos < end <= s.len(),
{
    lemma_capture_variant_bounds(s, pos + 1);
    if spec_capture_variant(s, pos + 1) is Ok {
        let variant_end = spec_capture_variant(s, pos + 1)->Ok_0.1;
        lemma_alternatives_bounds(s, variant_end + 1);
    }
}

/// A capture or a literal ends within the string, after its start.
pub proof fn lemma_section_bounds(s: Seq<char>, pos: int)
    requires
        0 <= pos,
    ensures
        spec_capture_or_match(s, pos) matches Ok((_, end)) ==> pos < end <= s.len(),
        spec_section(s, pos) matches Ok((_, end)) ==> pos < end <= s.len(),
{
    lemma_capture_bounds(s, pos);
    lemma_run_end(s, pos, CharClass::Exact);
}

/// The end of the run of `class` characters that starts at `pos`.
pub fn scan_run(text: &Text, pos: usize, class: CharClass) -> (end: usize)
    ensures
        end == run_end(text@, pos as int, class),
{
    let n = text.len();
    let mut end = pos;
    while end < n && class.has(text.at(end))
        invariant
            n == text@.len(),
            pos <= end,
            run_end(text@, pos as int, class) == run_end(text@, end as int, class),
        decreases n - end,
    {
        end += 1;
    }
    end
}

/// A name at `pos`.
pub fn ident_in(text: &Text, pos: usize) -> (result: ParseResult<String>)
    ensures
        agrees(result, spec_valid_ident(text@, pos as int)),
        result matches Ok((_, end)) ==> pos < end <= text@.len(),
{
    let end = scan_run(text, pos, CharClass::Ident);
    proof {
        lemma_run_end(text@, pos as int, CharClass::Ident);
    }
    if end == pos || digit(text.at(pos)) {
        fail(ErrorContext::ValidIdent, pos)
    } else {
        Ok((text.owned(pos, end), end))
    }
}

/// A literal at `pos`.
pub fn exact_match_in(text: &Text, pos: usize) -> (result: ParseResult<String>)
    ensures
        agrees(result, spec_valid_exact_match(text@, pos as int)),
        result matches Ok((_, end)) ==> pos < end <= text@.len(),
{
    let end = scan_run(text, pos, CharClass::Exact);
    proof {
        lemma_run_end(text@, pos as int, CharClass::Exact);
    }
    if end == pos {
        fail(ErrorContext::ValidExactMatch, pos)
    } else {
        Ok((text.owned(pos, end), end))
    }
}

/// The value of a longer run of digits is at least that of a shorter one.
proof fn lemma_decimal_value_grows(s: Seq<char>, pos: int, mid: int, end: int)
    requires
        0 <= pos <= mid <= end <= s.len(),
    ensures
        decimal_value(s.subrange(pos, mid)) <= decimal_value(s.subrange(pos, end)),
    decreases end - mid,
{
    if mid < end {
        lemma_decimal_value_grows(s, pos, mid, end - 1);
        assert(s.subrange(pos, end).drop_last() =~= s.subrange(pos, end - 1));
        assert(decimal_value(s.subrange(pos, end)) >= decimal_value(s.subrange(pos, end - 1))
            * 10);
    }
}

/// A section count at `pos`.
pub fn number_in(text: &Text, pos: usize) -> (result: ParseResult<usize>)
    ensures
        match (result, spec_number(text@, pos as int)) {
            (Ok((value, end)), Ok((model, model_end))) => value == model && end == model_end,
            (Err(error), Err(failure)) => error.deep_view() == failure,
            _ => false,
        },
        result matches Ok((_, end)) ==> pos < end <= text@.len(),
{
    let end = scan_run(text, pos, CharClass::Digit);
    proof {
        lemma_run_end(text@, pos as int, CharClass::Digit);
    }
    if end == pos {
        return Err(ParseError { context: ErrorContext::Capture, offset: pos });
    }
    let mut value: usize = 0;
    let mut i = pos;
    assert(text@.subrange(pos as int, pos as int) =~= Seq::<char>::empty());
    while i < end
        invariant
            pos <= i <= end <= text@.len(),
            pos < end == run_end(text@, pos as int, CharClass::Digit),
            value == decimal_value(text@.subrange(pos as int, i as int)),
            forall|k: int| pos <= k < end ==> is_digit(#[trigger] text@[k]),
        decreases end - i,
    {
        let c = text.at(i);
        let d: usize = (c as u32 - '0' as u32) as usize;
        proof {
            assert(is_digit(text@[i as int]));
            assert(d == digit_value(c));
            assert(text@.subrange(pos as int, i + 1).drop_last() =~= text@.subrange(
                pos as int,
                i as int,
            ));
            lemma_decimal_value_grows(text@, pos as int, i + 1, end as int);
        }
        if value > (usize::MAX - d) / 10 {
            assert(decimal_value(text@.subrange(pos as int, i + 1)) == value * 10 + d);
            return Err(ParseError { context: ErrorContext::Number, offset: pos });
        }
        value = value * 10 + d;
        i += 1;
    }
    Ok((value, end))
}

/// What stands between `{` and the end of a capture.
pub fn capture_variant_in(text: &Text, pos: usize) -> (result: ParseResult<CaptureVariant>)
    ensures
        agrees(result, spec_capture_variant(text@, pos as int)),
        result matches Ok((_, end)) ==> pos <= end <= text@.len(),
{
    if text.is_at(pos, '}') || text.is_at(pos, '(') {
        return Ok((CaptureVariant::Unnamed, pos));
    }
    if text.is_at(pos, '*') {
        if text.is_at(pos + 1, ':') {
            if let Ok((name, end)) = ident_in(text, pos + 2) {
                return Ok((CaptureVariant::ManyNamed(name), end));
            }
        }
        return Ok((CaptureVariant::ManyUnnamed, pos + 1));
    }
    if let Ok((name, end)) = ident_in(text, pos) {
        return Ok((CaptureVariant::Named(name), end));
    }
    match number_in(text, pos) {
        Ok((sections, end)) => {
            proof {
                lemma_run_end(text@, pos as int, CharClass::Digit);
            }
            if text.is_at(end, ':') {
                if let Ok((name, name_end)) = ident_in(text, end + 1) {
                    return Ok((CaptureVariant::NumberedNamed { sections, name }, name_end));
                }
            }
            Ok((CaptureVariant::NumberedUnnamed { sections }, end))
        },
        Err(error) => Err(error),
    }
}

/// One or more literals separated by `|`, starting at `pos`.
pub fn alternatives_in(text: &Text, pos: usize) -> (result: ParseResult<Vec<String>>)
    ensures
        agrees(result, spec_alternatives(text@, pos as int)),
        result matches Ok((_, end)) ==> pos < end <= text@.len(),
    decreases text@.len() - pos,
{
    match exact_match_in(text, pos) {
        Ok((first, end)) => {
            proof {
                lemma_run_end(text@, pos as int, CharClass::Exact);
            }
            let mut allowed: Vec<String> = Vec::new();
            allowed.push(first);
            if text.is_at(end, '|') {
                if let Ok((mut others, others_end)) = alternatives_in(text, end + 1) {
                    let ghost others_view = others.deep_view();
                    allowed.append(&mut others);
                    assert(allowed.deep_view() =~= seq![first@] + others_view);
                    return Ok((allowed, others_end));
                }
            }
            assert(allowed.deep_view() =~= seq![first@]);
            Ok((allowed, end))
        },
        Err(error) => Err(error),
    }
}

/// The list of allowed values `(a|b|c)` at `pos`.
pub fn allowed_values_in(text: &Text, pos: usize) -> (result: ParseResult<Vec<String>>)
    ensures
        agrees(result, spec_allowed_values(text@, pos as int)),
        result matches Ok((_, end)) ==> pos < end <= text@.len(),
{
    if !text.is_at(pos, '(') {
        return fail(ErrorContext::Capture, pos);
    }
    match alternatives_in(text, pos + 1) {
        Ok((allowed, end)) => {
            if text.is_at(end, ')') {
                Ok((allowed, end + 1))
            } else {
                fail(ErrorContext::Capture, end)
            }
        },
        Err(error) => Err(error),
    }
}

/// A capture at `pos`.
pub fn capture_in(text: &Text, pos: usize) -> (result: ParseResult<Capture>)
    ensures
        agrees(result, spec_capture(text@, pos as int)),
        result matches Ok((_, end)) ==> pos < end <= text@.len(),
{
    if !text.is_at(pos, '{') {
        return fail(ErrorContext::Capture, pos);
    }
    match capture_variant_in(text, pos + 1) {
        Ok((capture_variant, variant_end)) => {
            let (exact_possibilities, end) = match allowed_values_in(text, variant_end) {
                Ok((allowed, allowed_end)) => (Some(allowed), allowed_end),
                Err(_) => (None, variant_end),
            };
            if text.is_at(end, '}') {
                Ok((Capture { capture_variant, exact_possibilities }, end + 1))
            } else {
                fail(ErrorContext::Capture, end)
            }
        },
        Err(error) => Err(error),
    }
}

/// A capture if `pos` holds `{`, else a literal.
pub fn capture_or_match_in(text: &Text, pos: usize) -> (result: ParseResult<CaptureOrMatch>)
    ensures
        agrees(result, spec_capture_or_match(text@, pos as int)),
        result matches Ok((_, end)) ==> pos < end <= text@.len(),
{
    if text.is_at(pos, '{') {
        match capture_in(text, pos) {
            Ok((capture, end)) => Ok((CaptureOrMatch::Capture(capture), end)),
            Err(error) => Err(error),
        }
    } else {
        match exact_match_in(text, pos) {
            Ok((literal, end)) => Ok((CaptureOrMatch::Match(literal), end)),
            Err(error) => Err(error),
        }
    }
}

/// A capture or a literal at `pos`, as a token.
pub fn section_in(text: &Text, pos: usize) -> (result: ParseResult<RouteParserToken>)
    ensures
        agrees(result, spec_section(text@, pos as int)),
        result matches Ok((_, end)) ==> pos < end <= text@.len(),
{
    match capture_or_match_in(text, pos) {
        Ok((CaptureOrMatch::Capture(capture), end)) => Ok((RouteParserToken::Capture(capture), end)),
        Ok((CaptureOrMatch::Match(literal), end)) => Ok((RouteParserToken::Match(literal), end)),
        Err(error) => Err(error),
    }
}

/// A literal at `pos`, as a token.
pub open spec fn spec_match_exact(s: Seq<char>, pos: int) -> Parsed<RouteParserTokenView> {
    match spec_valid_exact_match(s, pos) {
        Ok((literal, end)) => Ok((RouteParserTokenView::Match(literal), end)),
        Err(failure) => Err(failure),
    }
}

/// A capture at `pos`, as a token.
pub open spec fn spec_capture_token(s: Seq<char>, pos: int) -> Parsed<RouteParserTokenView> {
    match spec_capture(s, pos) {
        Ok((capture, end)) => Ok((RouteParserTokenView::Capture(capture), end)),
        Err(failure) => Err(failure),
    }
}

/// Whether the result of applying a rule to the start of `input` is the one
/// the grammar prescribes: the value, and the input that was not consumed.
pub open spec fn agrees_with_rest<T: DeepView>(
    result: Result<(&str, T), ParseError>,
    input: Seq<char>,
    prescribed: Parsed<T::V>,
) -> bool {
    match (result, prescribed) {
        (Ok((rest, value)), Ok((model, end))) => value.deep_view() == model && rest@
            == input.subrange(end, input.len() as int),
        (Err(error), Err(failure)) => error.deep_view() == failure,
        _ => false,
    }
}

/// Replaces the end position of a result by the input that follows it.
pub fn with_rest<'a, T: DeepView>(text: &Text<'a>, result: ParseResult<T>) -> (with_rest: Result<
    (&'a str, T),
    ParseError,
>)
    requires
        result matches Ok((_, end)) ==> end <= text@.len(),
    ensures
        forall|prescribed: Parsed<T::V>|
            agrees(result, prescribed) ==> agrees_with_rest(with_rest, text@, prescribed),
{
    match result {
        Ok((value, end)) => Ok((text.slice(end, text.len()), value)),
        Err(error) => Err(error),
    }
}

/// Takes a name from the start of `i`: the longest run of characters other
/// than white space and ``-*/+#?&^@%$'"`~;,.|\{}[]()<>=``, which must not be
/// empty nor start with a digit. Returns the rest of the input and the name.
pub fn valid_ident_characters(i: &str) -> (result: Result<(&str, &str), ParseError>)
    ensures
        match spec_valid_ident(i@, 0) {
            Ok((name, end)) => result matches Ok((rest, found)) && found@ == name && rest@
                == i@.subrange(end, i@.len() as int),
            Err(failure) => result matches Err(error) && error.deep_view() == failure,
        },
{
    let text = Text::new(i);
    let end = scan_run(&text, 0, CharClass::Ident);
    proof {
        lemma_run_end(text@, 0, CharClass::Ident);
    }
    if end == 0 || digit(text.at(0)) {
        Err(ParseError { context: ErrorContext::ValidIdent, offset: 0 })
    } else {
        Ok((text.slice(end, text.len()), text.slice(0, end)))
    }
}

/// Takes a literal from the start of `i`: the longest run of characters other
/// than white space and `/?&#=()|[]{}`, which must not be empty. Returns the
/// rest of the input and the literal.
pub fn valid_exact_match_characters(i: &str) -> (result: Result<(&str, &str), ParseError>)
    ensures
        match spec_valid_exact_match(i@, 0) {
            Ok((literal, end)) => result matches Ok((rest, found)) && found@ == literal && rest@
                == i@.subrange(end, i@.len() as int),
            Err(failure) => result matches Err(error) && error.deep_view() == failure,
        },
{
    let text = Text::new(i);
    let end = scan_run(&text, 0, CharClass::Exact);
    proof {
        lemma_run_end(text@, 0, CharClass::Exact);
    }
    if end == 0 {
        Err(ParseError { context: ErrorContext::ValidExactMatch, offset: 0 })
    } else {
        Ok((text.slice(end, text.len()), text.slice(0, end)))
    }
}

/// Takes a literal from the start of `i` and returns it as a token, with the
/// rest of the input.
pub fn match_exact(i: &str) -> (result: Result<(&str, RouteParserToken), ParseError>)
    ensures
        agrees_with_rest(result, i@, spec_match_exact(i@, 0)),
{
    let text = Text::new(i);
    match exact_match_in(&text, 0) {
        Ok((literal, end)) => Ok((text.slice(end, text.len()), RouteParserToken::Match(literal))),
        Err(error) => Err(error),
    }
}

/// Takes a capture from the start of `i` and returns it as a token, with the
/// rest of the input. A capture is one of `{}`, `{*}`, `{5}`, `{name}`,
/// `{*:name}` and `{5:name}`, each optionally with a list of allowed values
/// before the closing brace, as in `{name(yes|no)}`.
pub fn capture(i: &str) -> (result: Result<(&str, RouteParserToken), ParseError>)
    ensures
        agrees_with_rest(result, i@, spec_capture_token(i@, 0)),
{
    let text = Text::new(i);
    match capture_in(&text, 0) {
        Ok((capture, end)) => Ok((text.slice(end, text.len()), RouteParserToken::Capture(capture))),
        Err(error) => Err(error),
    }
}

/// Takes a capture or a literal from the start of `i`, and returns it with
/// the rest of the input.
pub fn capture_or_match(i: &str) -> (result: Result<(&str, CaptureOrMatch), ParseError>)
    ensures
        agrees_with_rest(result, i@, spec_capture_or_match(i@, 0)),
{
    let text = Text::new(i);
    let result = capture_or_match_in(&text, 0);
    with_rest(&text, result)
}

} // verus!
