//! Filling the captures of a pattern with values and matching the result
//! gives the values back.
//!
//! This holds of tokens without optional groups and without numbered
//! captures, in which every capture is the last token or is followed by a
//! literal that holds a reserved character, and of values that hold no
//! reserved character and that the captures may take. The tokens that a
//! pattern compiles to are of this kind whenever they hold no optional group
//! and no numbered capture.
use crate::captures::{distinct_keys, inserted, lemma_key_index, Entries};
use crate::matcher::{
    capture_end, capture_key, delimiter_at, delimiters, first_delimiter, match_prefix, matched,
    permitted,
};
use crate::parser::primitives::{exact_forbidden, lemma_run_end, run_end, CharClass};
use crate::parser::shape::{
    is_name, lemma_parsed_is_shaped, sets_apart, shaped, takes_value, token_well_named,
    well_named,
};
use crate::parser::spec_parse;
use crate::text::{decimal, lemma_decimal_round_trip, occurs_at};
use crate::token::{MatcherTokenView, RouteParserTokenView};
use crate::token_optimizer::{
    capture_names, compiled, lowered, lowered_token, merged, optional_slash, push_merged,
    takes_optional_slash,
};
use vstd::prelude::*;

verus! {

/// Whether `c` is one of the characters that separate the parts of a
/// pattern: white space and `/?&#=()|[]{}`. A literal of a pattern holds none
/// of them.
pub open spec fn reserved(c: char) -> bool {
    exact_forbidden(c)
}

/// Whether the text holds no reserved character.
pub open spec fn plain(text: Seq<char>) -> bool {
    forall|i: int| 0 <= i < text.len() ==> !reserved(#[trigger] text[i])
}

/// Whether the text holds a reserved character.
pub open spec fn has_reserved(text: Seq<char>) -> bool {
    exists|i: int| 0 <= i < text.len() && reserved(#[trigger] text[i])
}

/// The text in which each capture among the tokens is replaced by the value
/// for it, the first value for the first capture and so on.
pub open spec fn filled(tokens: Seq<MatcherTokenView>, values: Seq<Seq<char>>) -> Seq<char>
    decreases tokens.len(),
{
    if tokens.len() == 0 {
        Seq::empty()
    } else {
        match tokens.first() {
            MatcherTokenView::Match(literal) => literal + filled(tokens.drop_first(), values),
            MatcherTokenView::Capture(_) => if values.len() > 0 {
                values.first() + filled(tokens.drop_first(), values.drop_first())
            } else {
                filled(tokens.drop_first(), values)
            },
            MatcherTokenView::Optional(_) => filled(tokens.drop_first(), values),
        }
    }
}

/// The values under the keys of the captures they are for, when `stored`
/// values were stored before them.
pub open spec fn keyed(tokens: Seq<MatcherTokenView>, values: Seq<Seq<char>>, stored: nat) -> Entries
    decreases tokens.len(),
{
    if tokens.len() == 0 {
        Seq::empty()
    } else {
        match tokens.first() {
            MatcherTokenView::Capture(capture) => if values.len() > 0 {
                seq![(capture_key(capture.capture_variant, stored), values.first())] + keyed(
                    tokens.drop_first(),
                    values.drop_first(),
                    stored + 1,
                )
            } else {
                keyed(tokens.drop_first(), values, stored)
            },
            _ => keyed(tokens.drop_first(), values, stored),
        }
    }
}

/// Whether there is one value for each capture among the tokens, no token
/// is an optional group, no capture is numbered, and every value holds no
/// reserved character and is one that its capture may take.
pub open spec fn fillable(tokens: Seq<MatcherTokenView>, values: Seq<Seq<char>>) -> bool
    decreases tokens.len(),
{
    if tokens.len() == 0 {
        values.len() == 0
    } else {
        match tokens.first() {
            MatcherTokenView::Match(_) => fillable(tokens.drop_first(), values),
            MatcherTokenView::Optional(_) => false,
            MatcherTokenView::Capture(capture) => {
                &&& values.len() > 0
                &&& plain(values.first())
                &&& permitted(capture, values.first())
                &&& capture.capture_variant.sections() is None
                &&& fillable(tokens.drop_first(), values.drop_first())
            },
        }
    }
}

/// Whether every capture among the tokens is the last token or is followed
/// by a literal that holds a reserved character.
pub open spec fn delimited(tokens: Seq<MatcherTokenView>) -> bool {
    forall|i: int|
        0 <= i < tokens.len() ==> (#[trigger] tokens[i] is Capture ==> i + 1 == tokens.len() || (
        tokens[i + 1] matches MatcherTokenView::Match(literal) && has_reserved(literal)))
}

/// Whether the values can be filled into the tokens and found again.
pub open spec fn substitutable(tokens: Seq<MatcherTokenView>, values: Seq<Seq<char>>) -> bool {
    fillable(tokens, values) && delimited(tokens)
}

/// What holds of tokens holds of the tokens after the first.
proof fn lemma_delimited_rest(tokens: Seq<MatcherTokenView>)
    requires
        delimited(tokens),
        tokens.len() > 0,
    ensures
        delimited(tokens.drop_first()),
        tokens.first() is Capture ==> tokens.len() == 1 || (
        tokens.drop_first().first() matches MatcherTokenView::Match(literal) && has_reserved(
            literal,
        )),
{
    let rest = tokens.drop_first();
    assert forall|i: int| 0 <= i < rest.len() implies (#[trigger] rest[i] is Capture ==> i + 1
        == rest.len() || (rest[i + 1] matches MatcherTokenView::Match(literal) && has_reserved(
        literal,
    ))) by {
        assert(rest[i] == tokens[i + 1]);
        if i + 1 < rest.len() {
            assert(rest[i + 1] == tokens[i + 2]);
        }
    }
    assert(tokens.first() == tokens[0]);
    if tokens.len() > 1 {
        assert(rest.first() == tokens[1]);
    }
}

/// No delimiter is found where there are no literals to look for.
proof fn lemma_no_delimiters(input: Seq<char>, pos: int)
    requires
        0 <= pos,
    ensures
        first_delimiter(input, pos, Seq::empty()) is None,
    decreases input.len() - pos,
{
    if pos < input.len() {
        lemma_no_delimiters(input, pos + 1);
    }
}

/// The first delimiter is found at `target` if one stands there and none
/// stands before.
proof fn lemma_first_delimiter(
    input: Seq<char>,
    pos: int,
    target: int,
    literals: Seq<Seq<char>>,
)
    requires
        0 <= pos <= target <= input.len(),
        delimiter_at(input, target, literals),
        forall|p: int| pos <= p < target ==> !delimiter_at(input, p, literals),
    ensures
        first_delimiter(input, pos, literals) == Some(target),
    decreases target - pos,
{
    if pos < target {
        lemma_first_delimiter(input, pos + 1, target, literals);
    }
}

/// A literal that holds a reserved character, and that follows a value
/// without one, does not occur before the end of the value.
proof fn lemma_no_early_occurrence(input: Seq<char>, pos: int, value: Seq<char>, literal: Seq<char>, p: int)
    requires
        0 <= pos,
        plain(value),
        has_reserved(literal),
        occurs_at(input, pos, value),
        occurs_at(input, pos + value.len(), literal),
        pos <= p < pos + value.len(),
    ensures
        !occurs_at(input, p, literal),
{
    lemma_run_end(literal, 0, CharClass::Exact);
    let k = run_end(literal, 0, CharClass::Exact);
    let witness = choose|i: int| 0 <= i < literal.len() && reserved(#[trigger] literal[i]);
    if k >= literal.len() {
        assert(CharClass::Exact.admits(literal[witness]));
    }
    assert(reserved(literal[k]));
    if occurs_at(input, p, literal) {
        assert(input.subrange(p, p + literal.len())[k] == literal[k]);
        assert(input[p + k] == literal[k]);
        if p + k < pos + value.len() {
            assert(input.subrange(pos, pos + value.len())[p + k - pos] == value[p + k - pos]);
            assert(!reserved(value[p + k - pos]));
        } else {
            let j = p + k - (pos + value.len());
            assert(input.subrange(pos + value.len(), pos + value.len() + literal.len())[j]
                == literal[j]);
            assert(CharClass::Exact.admits(literal[j]));
        }
    }
}

/// Tokens match the text in which their captures are filled with values
/// from where it starts to the end of the input, and store the values.
proof fn lemma_filled_is_matched(
    tokens: Seq<MatcherTokenView>,
    values: Seq<Seq<char>>,
    input: Seq<char>,
    pos: int,
    captures: Entries,
)
    requires
        substitutable(tokens, values),
        0 <= pos <= input.len(),
        input.subrange(pos, input.len() as int) == filled(tokens, values),
        distinct_keys(captures + keyed(tokens, values, captures.len())),
    ensures
        match_prefix(tokens, input, pos, captures) == Some(
            (input.len() as int, captures + keyed(tokens, values, captures.len())),
        ),
    decreases tokens.len(),
{
    let rest = input.subrange(pos, input.len() as int);
    if tokens.len() == 0 {
        assert(captures + Seq::empty() =~= captures);
    } else {
        lemma_delimited_rest(tokens);
        let following = tokens.drop_first();
        match tokens.first() {
            MatcherTokenView::Match(literal) => {
                let tail = filled(following, values);
                assert(input.subrange(pos, pos + literal.len()) =~= rest.subrange(
                    0,
                    literal.len() as int,
                ));
                assert((literal + tail).subrange(0, literal.len() as int) =~= literal);
                assert(input.subrange(pos + literal.len(), input.len() as int) =~= rest.subrange(
                    literal.len() as int,
                    rest.len() as int,
                ));
                assert((literal + tail).subrange(
                    literal.len() as int,
                    (literal + tail).len() as int,
                ) =~= tail);
                lemma_filled_is_matched(following, values, input, pos + literal.len(), captures);
            },
            MatcherTokenView::Optional(_) => {},
            MatcherTokenView::Capture(capture) => {
                let value = values.first();
                let tail = filled(following, values.drop_first());
                let end = pos + value.len();
                assert(input.subrange(pos, end) =~= rest.subrange(0, value.len() as int));
                assert((value + tail).subrange(0, value.len() as int) =~= value);
                assert(input.subrange(end, input.len() as int) =~= rest.subrange(
                    value.len() as int,
                    rest.len() as int,
                ));
                assert((value + tail).subrange(value.len() as int, (value + tail).len() as int)
                    =~= tail);
                if following.len() == 0 {
                    lemma_no_delimiters(input, pos);
                    assert(tail.len() == 0);
                } else {
                    let literal = following.first()->Match_0;
                    let after = filled(following.drop_first(), values.drop_first());
                    let literals = seq![literal];
                    assert(delimiters(following).literals == literals);
                    assert(input.subrange(end, end + literal.len()) =~= tail.subrange(
                        0,
                        literal.len() as int,
                    ));
                    assert((literal + after).subrange(0, literal.len() as int) =~= literal);
                    assert(occurs_at(input, end, literals[0]));
                    assert forall|p: int| pos <= p < end implies !delimiter_at(
                        input,
                        p,
                        literals,
                    ) by {
                        lemma_no_early_occurrence(input, pos, value, literal, p);
                    }
                    lemma_first_delimiter(input, pos, end, literals);
                }
                assert(capture_end(capture.capture_variant, following, input, pos) == Some(end));
                let key = capture_key(capture.capture_variant, captures.len());
                let later = keyed(following, values.drop_first(), captures.len() + 1);
                let all = captures + keyed(tokens, values, captures.len());
                assert(all =~= captures.push((key, value)) + later);
                assert forall|k: int| 0 <= k < captures.len() implies captures[k].0 != key by {
                    assert(all[k] == captures[k]);
                    assert(all[captures.len() as int] == (key, value));
                }
                lemma_key_index(captures, key, captures.len() as int);
                assert(inserted(captures, key, value) == captures.push((key, value)));
                lemma_filled_is_matched(
                    following,
                    values.drop_first(),
                    input,
                    end,
                    captures.push((key, value)),
                );
            },
        }
    }
}

/// Filling values into the captures of tokens and matching the tokens
/// against the result succeeds and gives the values back, each under the key
/// of its capture, provided that the keys are distinct.
pub proof fn lemma_round_trip(tokens: Seq<MatcherTokenView>, values: Seq<Seq<char>>)
    requires
        substitutable(tokens, values),
        distinct_keys(keyed(tokens, values, 0)),
    ensures
        matched(tokens, filled(tokens, values)) == Some(keyed(tokens, values, 0)),
{
    let input = filled(tokens, values);
    let nothing = Seq::<(Seq<char>, Seq<char>)>::empty();
    assert(input.subrange(0, input.len() as int) =~= input);
    assert(nothing + keyed(tokens, values, 0) =~= keyed(tokens, values, 0));
    lemma_filled_is_matched(tokens, values, input, 0, nothing);
}

/// Whether the text is not empty and starts with a reserved character.
pub open spec fn starts_reserved(text: Seq<char>) -> bool {
    text.len() > 0 && reserved(text[0])
}

/// Whether every capture among the tokens is well named and is the last
/// token or is followed by an optional group or by a literal that starts with
/// a reserved character.
pub open spec fn set_apart(tokens: Seq<MatcherTokenView>) -> bool {
    forall|i: int|
        0 <= i < tokens.len() ==> (#[trigger] tokens[i] matches MatcherTokenView::Capture(capture)
            ==> well_named(capture) && (i + 1 == tokens.len() || match tokens[i + 1] {
            MatcherTokenView::Match(literal) => starts_reserved(literal),
            MatcherTokenView::Optional(_) => true,
            MatcherTokenView::Capture(_) => false,
        }))
}

/// What tokens in shape stand for has its captures set apart, and ends in a
/// capture just when the last token does.
proof fn lemma_lowered_set_apart(tokens: Seq<RouteParserTokenView>)
    requires
        shaped(tokens),
    ensures
        set_apart(lowered(tokens)),
        tokens.len() > 0 ==> lowered(tokens).len() > 0 && (lowered(tokens).last() is Capture
            <==> takes_value(tokens.last())),
    decreases tokens.len(),
{
    if tokens.len() > 0 {
        let front = tokens.drop_last();
        let last = tokens.last();
        assert(last == tokens[tokens.len() - 1]);
        assert forall|i: int| 0 <= i < front.len() implies token_well_named(#[trigger] front[i])
            && (takes_value(front[i]) ==> i + 1 == front.len() || sets_apart(front[i + 1])) by {
            assert(front[i] == tokens[i]);
            if i + 1 < front.len() {
                assert(front[i + 1] == tokens[i + 1]);
            }
        }
        lemma_lowered_set_apart(front);
        let before = lowered(front);
        let added = lowered_token(last);
        let all = lowered(tokens);
        assert(all == before + added);
        if front.len() > 0 {
            assert(front.last() == tokens[tokens.len() - 2]);
        }
        assert forall|i: int| 0 <= i < all.len() implies (
        #[trigger] all[i] matches MatcherTokenView::Capture(capture) ==> well_named(capture) && (i
            + 1 == all.len() || match all[i + 1] {
            MatcherTokenView::Match(literal) => starts_reserved(literal),
            MatcherTokenView::Optional(_) => true,
            MatcherTokenView::Capture(_) => false,
        })) by {
            if i < before.len() {
                assert(all[i] == before[i]);
                if i + 1 < before.len() {
                    assert(all[i + 1] == before[i + 1]);
                } else {
                    assert(all[i + 1] == added[0]);
                    if before[i] is Capture {
                        assert(takes_value(front.last()));
                        assert(sets_apart(last));
                    }
                }
            } else {
                assert(all[i] == added[i - before.len()]);
                if i + 1 < all.len() {
                    assert(all[i + 1] == added[i + 1 - before.len()]);
                }
            }
        }
        assert(all.last() == added.last());
    }
}

/// Joining literals keeps captures set apart, and keeps a capture at the
/// end.
proof fn lemma_merged_set_apart(tokens: Seq<MatcherTokenView>)
    requires
        set_apart(tokens),
    ensures
        set_apart(merged(tokens)),
        tokens.len() > 0 ==> merged(tokens).len() > 0 && (merged(tokens).last() is Capture
            ==> merged(tokens).last() == tokens.last()),
    decreases tokens.len(),
{
    if tokens.len() > 0 {
        let front = tokens.drop_last();
        let last = tokens.last();
        assert(last == tokens[tokens.len() - 1]);
        assert forall|i: int| 0 <= i < front.len() implies (
        #[trigger] front[i] matches MatcherTokenView::Capture(capture) ==> well_named(capture) && (
        i + 1 == front.len() || match front[i + 1] {
            MatcherTokenView::Match(literal) => starts_reserved(literal),
            MatcherTokenView::Optional(_) => true,
            MatcherTokenView::Capture(_) => false,
        })) by {
            assert(front[i] == tokens[i]);
            if i + 1 < front.len() {
                assert(front[i + 1] == tokens[i + 1]);
            }
        }
        lemma_merged_set_apart(front);
        let before = merged(front);
        let after = push_merged(before, last);
        assert(after == merged(tokens));
        if front.len() > 0 {
            assert(front.last() == tokens[tokens.len() - 2]);
        }
        assert forall|i: int| 0 <= i < after.len() implies (
        #[trigger] after[i] matches MatcherTokenView::Capture(capture) ==> well_named(capture) && (
        i + 1 == after.len() || match after[i + 1] {
            MatcherTokenView::Match(literal) => starts_reserved(literal),
            MatcherTokenView::Optional(_) => true,
            MatcherTokenView::Capture(_) => false,
        })) by {
            if before.len() > 0 && before.last() is Match && last is Match {
                if i < before.len() - 1 {
                    assert(after[i] == before[i]);
                    if i + 1 < before.len() - 1 {
                        assert(after[i + 1] == before[i + 1]);
                    } else {
                        assert(before[i + 1] == before.last());
                    }
                }
            } else {
                if i < before.len() {
                    assert(after[i] == before[i]);
                    if i + 1 < before.len() {
                        assert(after[i + 1] == before[i + 1]);
                    } else {
                        assert(after[i + 1] == last);
                        if before[i] is Capture {
                            assert(before.last() == front.last());
                            assert(tokens[tokens.len() - 2] is Capture);
                        }
                    }
                } else {
                    assert(after[i] == last);
                }
            }
        }
    }
}

/// Tokens that can be filled hold no optional group.
proof fn lemma_fillable_is_flat(tokens: Seq<MatcherTokenView>, values: Seq<Seq<char>>)
    requires
        fillable(tokens, values),
    ensures
        forall|i: int| 0 <= i < tokens.len() ==> !(#[trigger] tokens[i] is Optional),
    decreases tokens.len(),
{
    if tokens.len() > 0 {
        let rest = tokens.drop_first();
        let later = if tokens.first() is Capture {
            values.drop_first()
        } else {
            values
        };
        lemma_fillable_is_flat(rest, later);
        assert forall|i: int| 0 <= i < tokens.len() implies !(#[trigger] tokens[i] is Optional) by {
            if i > 0 {
                assert(tokens[i] == rest[i - 1]);
            }
        }
    }
}

/// Tokens that can be filled and whose captures are set apart are
/// delimited.
proof fn lemma_set_apart_is_delimited(tokens: Seq<MatcherTokenView>, values: Seq<Seq<char>>)
    requires
        fillable(tokens, values),
        set_apart(tokens),
    ensures
        delimited(tokens),
{
    lemma_fillable_is_flat(tokens, values);
    assert forall|i: int| 0 <= i < tokens.len() implies (#[trigger] tokens[i] is Capture ==> i
        + 1 == tokens.len() || (tokens[i + 1] matches MatcherTokenView::Match(literal)
        && has_reserved(literal))) by {
        if tokens[i] is Capture && i + 1 < tokens.len() {
            assert(!(tokens[i + 1] is Optional));
            let literal = tokens[i + 1]->Match_0;
            assert(reserved(literal[0]));
        }
    }
}

/// A numeral is not a name, and different numbers have different numerals.
proof fn lemma_numerals(a: nat, b: nat)
    ensures
        !is_name(decimal(a)),
        decimal(a) == decimal(b) ==> a == b,
{
    lemma_decimal_round_trip(a);
    lemma_decimal_round_trip(b);
}

/// Whether a key is the name of a capture among the tokens, or the numeral
/// of a number from `stored` on.
pub open spec fn is_key_of(key: Seq<char>, tokens: Seq<MatcherTokenView>, stored: nat) -> bool {
    ||| is_name(key) && capture_names(tokens).contains(key)
    ||| exists|number: nat| stored <= number && key == #[trigger] decimal(number)
}

/// The keys of values filled into tokens whose captures are well named and
/// have different names are distinct.
proof fn lemma_keys_are_distinct(
    tokens: Seq<MatcherTokenView>,
    values: Seq<Seq<char>>,
    stored: nat,
)
    requires
        fillable(tokens, values),
        set_apart(tokens),
        capture_names(tokens).no_duplicates(),
    ensures
        distinct_keys(keyed(tokens, values, stored)),
        forall|k: int|
            0 <= k < keyed(tokens, values, stored).len() ==> is_key_of(
                #[trigger] keyed(tokens, values, stored)[k].0,
                tokens,
                stored,
            ),
    decreases tokens.len(),
{
    if tokens.len() > 0 {
        let rest = tokens.drop_first();
        let names = capture_names(tokens);
        let rest_names = capture_names(rest);
        assert(tokens.first() == tokens[0]);
        assert forall|i: int| 0 <= i < rest.len() implies (
        #[trigger] rest[i] matches MatcherTokenView::Capture(capture) ==> well_named(capture) && (i
            + 1 == rest.len() || match rest[i + 1] {
            MatcherTokenView::Match(literal) => starts_reserved(literal),
            MatcherTokenView::Optional(_) => true,
            MatcherTokenView::Capture(_) => false,
        })) by {
            assert(rest[i] == tokens[i + 1]);
            if i + 1 < rest.len() {
                assert(rest[i + 1] == tokens[i + 2]);
            }
        }
        match tokens.first() {
            MatcherTokenView::Match(_) => {
                assert(names =~= rest_names);
                lemma_keys_are_distinct(rest, values, stored);
            },
            MatcherTokenView::Optional(_) => {},
            MatcherTokenView::Capture(capture) => {
                let own: Seq<Seq<char>> = match capture.capture_variant.name() {
                    Some(name) => seq![name],
                    None => Seq::empty(),
                };
                assert(names == own + rest_names);
                assert forall|i: int, j: int| 0 <= i < rest_names.len() && 0 <= j
                    < rest_names.len() && i != j implies rest_names[i] != rest_names[j] by {
                    assert(names[own.len() + i] == rest_names[i]);
                    assert(names[own.len() + j] == rest_names[j]);
                }
                lemma_keys_are_distinct(rest, values.drop_first(), stored + 1);
                let key = capture_key(capture.capture_variant, stored);
                let later = keyed(rest, values.drop_first(), stored + 1);
                let all = keyed(tokens, values, stored);
                assert(all == seq![(key, values.first())] + later);
                assert forall|k: int| 0 <= k < all.len() implies is_key_of(
                    #[trigger] all[k].0,
                    tokens,
                    stored,
                ) by {
                    if k == 0 {
                        match capture.capture_variant.name() {
                            Some(name) => {
                                assert(names[0] == name);
                            },
                            None => {
                                assert(key == decimal(stored));
                            },
                        }
                    } else {
                        assert(all[k] == later[k - 1]);
                        let other = later[k - 1].0;
                        assert(is_key_of(other, rest, stored + 1));
                        if is_name(other) && rest_names.contains(other) {
                            let at = choose|at: int|
                                0 <= at < rest_names.len() && rest_names[at] == other;
                            assert(names[own.len() + at] == other);
                        } else {
                            let number = choose|number: nat|
                                stored + 1 <= number && other == #[trigger] decimal(number);
                            assert(stored <= number && other == decimal(number));
                        }
                    }
                }
                assert forall|i: int, j: int| 0 <= i < j < all.len() implies all[i].0
                    != all[j].0 by {
                    assert(all[j] == later[j - 1]);
                    if i > 0 {
                        assert(all[i] == later[i - 1]);
                    } else {
                        let other = later[j - 1].0;
                        assert(is_key_of(other, rest, stored + 1));
                        lemma_numerals(stored, stored);
                        if is_name(other) && rest_names.contains(other) {
                            let at = choose|at: int|
                                0 <= at < rest_names.len() && rest_names[at] == other;
                            match capture.capture_variant.name() {
                                Some(name) => {
                                    assert(names[0] == name);
                                    assert(names[1 + at] == other);
                                },
                                None => {},
                            }
                        } else {
                            let number = choose|number: nat|
                                stored + 1 <= number && other == #[trigger] decimal(number);
                            lemma_numerals(number, stored);
                        }
                    }
                }
            },
        }
    }
}

/// Tokens without optional groups, in which every capture is followed by a
/// literal, match in the same way when further tokens follow them.
proof fn lemma_match_before(
    tokens: Seq<MatcherTokenView>,
    after: Seq<MatcherTokenView>,
    input: Seq<char>,
    pos: int,
    captures: Entries,
)
    requires
        forall|i: int| 0 <= i < tokens.len() ==> !(#[trigger] tokens[i] is Optional),
        forall|i: int|
            0 <= i < tokens.len() ==> (#[trigger] tokens[i] is Capture ==> i + 1 < tokens.len()
                && tokens[i + 1] is Match),
    ensures
        match_prefix(tokens + after, input, pos, captures) == match match_prefix(
            tokens,
            input,
            pos,
            captures,
        ) {
            Some((end, stored)) => match_prefix(after, input, end, stored),
            None => None,
        },
    decreases tokens.len(),
{
    if tokens.len() == 0 {
        assert(tokens + after =~= after);
    } else {
        let rest = tokens.drop_first();
        let all = tokens + after;
        assert(all.drop_first() =~= rest + after);
        assert(all.first() == tokens.first());
        assert(tokens.first() == tokens[0]);
        assert forall|i: int| 0 <= i < rest.len() implies !(#[trigger] rest[i] is Optional) by {
            assert(rest[i] == tokens[i + 1]);
        }
        assert forall|i: int| 0 <= i < rest.len() implies (#[trigger] rest[i] is Capture ==> i + 1
            < rest.len() && rest[i + 1] is Match) by {
            assert(rest[i] == tokens[i + 1]);
            if i + 1 < rest.len() {
                assert(rest[i + 1] == tokens[i + 2]);
            }
        }
        match tokens.first() {
            MatcherTokenView::Match(literal) => {
                lemma_match_before(rest, after, input, pos + literal.len(), captures);
            },
            MatcherTokenView::Optional(_) => {},
            MatcherTokenView::Capture(capture) => {
                assert(rest.first() == tokens[1]);
                assert((rest + after).first() == rest.first());
                assert(delimiters(rest + after) == delimiters(rest));
                match capture_end(capture.capture_variant, rest, input, pos) {
                    Some(end) => {
                        let value = input.subrange(pos, end);
                        let stored = inserted(
                            captures,
                            capture_key(capture.capture_variant, captures.len()),
                            value,
                        );
                        lemma_match_before(rest, after, input, end, stored);
                    },
                    None => {},
                }
            },
        }
    }
}

/// The tokens that a pattern compiles to have their captures set apart.
pub proof fn lemma_compiled_is_set_apart(pattern: Seq<char>)
    requires
        compiled(pattern, false) is Ok,
    ensures
        set_apart(compiled(pattern, false)->Ok_0),
{
    let parsed = spec_parse(pattern)->Ok_0;
    lemma_parsed_is_shaped(pattern);
    lemma_lowered_set_apart(parsed);
    lemma_merged_set_apart(lowered(parsed));
}

/// A compiled pattern without optional groups and numbered captures matches
/// the text in which its captures are filled with values, and gives the
/// values back, each under the key of its capture. The values must hold no
/// reserved character, and each must be one that its capture may take. This
/// holds with and without the optional final `/`.
pub proof fn lemma_compiled_round_trip(pattern: Seq<char>, values: Seq<Seq<char>>)
    requires
        compiled(pattern, false) is Ok,
        fillable(compiled(pattern, false)->Ok_0, values),
    ensures
        matched(
            compiled(pattern, false)->Ok_0,
            filled(compiled(pattern, false)->Ok_0, values),
        ) == Some(keyed(compiled(pattern, false)->Ok_0, values, 0)),
        compiled(pattern, true) matches Ok(tokens) ==> matched(
            tokens,
            filled(compiled(pattern, false)->Ok_0, values),
        ) == Some(keyed(compiled(pattern, false)->Ok_0, values, 0)),
{
    let tokens = compiled(pattern, false)->Ok_0;
    let input = filled(tokens, values);
    let entries = keyed(tokens, values, 0);
    let nothing = Seq::<(Seq<char>, Seq<char>)>::empty();
    lemma_compiled_is_set_apart(pattern);
    lemma_set_apart_is_delimited(tokens, values);
    lemma_keys_are_distinct(tokens, values, 0);
    lemma_round_trip(tokens, values);
    if compiled(pattern, true) is Ok && takes_optional_slash(tokens) {
        let group = seq![optional_slash()];
        let inner = seq![MatcherTokenView::Match(seq!['/'])];
        let end = input.len() as int;
        lemma_fillable_is_flat(tokens, values);
        assert(tokens.last() == tokens[tokens.len() - 1]);
        assert forall|i: int| 0 <= i < tokens.len() implies (#[trigger] tokens[i] is Capture
            ==> i + 1 < tokens.len() && tokens[i + 1] is Match) by {
            if tokens[i] is Capture {
                assert(i + 1 != tokens.len());
            }
        }
        lemma_match_before(tokens, group, input, 0, nothing);
        assert(tokens.push(optional_slash()) =~= tokens + group);
        assert(group.drop_first() =~= Seq::<MatcherTokenView>::empty());
        assert(group.first() == optional_slash());
        assert(inner.first() == MatcherTokenView::Match(seq!['/']));
        assert(!occurs_at(input, end, seq!['/']));
        assert(match_prefix(inner, input, end, entries) is None);
        assert(match_prefix(Seq::empty(), input, end, entries) == Some((end, entries)));
        assert(match_prefix(group, input, end, entries) == Some((end, entries)));
    }
}

} // verus!
