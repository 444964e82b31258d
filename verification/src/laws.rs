//! What holds of the library as a whole: of the splitting of a notation, of
//! the shapes of the grammar, of the weight table and of the two suits of a
//! drawn hand.

use vstd::prelude::*;
use vstd::set_lib::lemma_int_range;
use vstd::set_lib::set_int_range;
use crate::card::{lemma_rank_round_trip, Card, Suit};
use crate::components::{lemma_ordered_is_a_set, strictly_ordered};
use crate::error::{Failure, RangeError};
use crate::internal::{lemma_order_key_injective, RangeComponent};
use crate::notation::{
    all_empty, components_of_tokens, joined, lemma_failure_stays, lemma_one_more_token,
    notation_components, tokens_of,
};
use crate::parse::{
    higher, lemma_token_components_well_formed, lower, pairs_between, token_components,
};
use crate::utils::{suits_of_indices, value_of_char};
use crate::{
    covers, cumulative_weight, hand_of, lemma_cumulative_weight_rises, lemma_hand_falls_under,
    selects, Range, SimpleRange,
};

verus! {

/// A notation has at least one token.
pub proof fn law_tokens_exist(text: Seq<char>)
    ensures
        tokens_of(text).len() >= 1,
    decreases text.len(),
{
    if text.len() > 0 {
        law_tokens_exist(text.drop_last());
    }
}

/// No token of a notation holds a comma.
pub proof fn law_tokens_hold_no_comma(text: Seq<char>)
    ensures
        forall|i: int|
            0 <= i < tokens_of(text).len() ==> !(#[trigger] tokens_of(text)[i]).contains(','),
    decreases text.len(),
{
    if text.len() > 0 {
        let before = tokens_of(text.drop_last());
        law_tokens_exist(text.drop_last());
        law_tokens_hold_no_comma(text.drop_last());
        assert forall|i: int| 0 <= i < tokens_of(text).len() implies !(#[trigger] tokens_of(
            text,
        )[i]).contains(',') by {
            let token = tokens_of(text)[i];
            if token.contains(',') {
                // the comma would stand in a token of the shorter text
                let at = choose|at: int| 0 <= at < token.len() && token[at] == ',';
                assert(before[i].contains(','));
            }
        }
    }
}

/// The tokens of a notation, written out with commas between them, give the
/// notation back.
pub proof fn law_tokens_rejoin(text: Seq<char>)
    ensures
        joined(tokens_of(text)) == text,
    decreases text.len(),
{
    if text.len() > 0 {
        let before = tokens_of(text.drop_last());
        law_tokens_exist(text.drop_last());
        law_tokens_rejoin(text.drop_last());
        if text.last() == ',' {
            assert(before.push(Seq::<char>::empty()).drop_last() =~= before);
        } else if before.len() > 1 {
            let tokens = before.drop_last().push(before.last().push(text.last()));
            assert(tokens.drop_last() =~= before.drop_last());
            assert(joined(tokens) =~= joined(before).push(text.last()));
        }
    }
}

/// A stretch without a comma that follows a notation lengthens its last
/// token.
pub proof fn law_tokens_of_longer_tail(text: Seq<char>, tail: Seq<char>)
    requires
        !tail.contains(','),
    ensures
        tokens_of(text + tail) == tokens_of(text).drop_last().push(tokens_of(text).last() + tail),
    decreases tail.len(),
{
    law_tokens_exist(text);
    if tail.len() > 0 {
        let shorter = tail.drop_last();
        assert(!shorter.contains(',') && tail.last() != ',') by {
            assert forall|at: int| 0 <= at < tail.len() implies tail[at] != ',' by {
                assert(tail.contains(tail[at]));
            }
        }
        law_tokens_of_longer_tail(text, shorter);
        assert((text + tail).drop_last() =~= text + shorter);
        assert(tokens_of(text + shorter).last().push(tail.last()) =~= tokens_of(text).last()
            + tail);
    }
}

/// Splitting undoes joining: tokens without commas, joined by commas, are
/// the tokens of what they were joined to.
pub proof fn law_tokens_of_joined(tokens: Seq<Seq<char>>)
    requires
        tokens.len() >= 1,
        forall|i: int| 0 <= i < tokens.len() ==> !(#[trigger] tokens[i]).contains(','),
    ensures
        tokens_of(joined(tokens)) == tokens,
    decreases tokens.len(),
{
    if tokens.len() == 1 {
        law_tokens_of_longer_tail(Seq::<char>::empty(), tokens[0]);
    } else {
        let front = joined(tokens.drop_last());
        law_tokens_of_joined(tokens.drop_last());
        assert(front.push(',').drop_last() =~= front);
        law_tokens_of_longer_tail(front.push(','), tokens.last());
    }
}

/// The tokens of two notations with a comma between them are the tokens of
/// the first followed by those of the second.
pub proof fn law_tokens_of_two_notations(first: Seq<char>, second: Seq<char>)
    ensures
        tokens_of(first.push(',') + second) == tokens_of(first) + tokens_of(second),
    decreases second.len(),
{
    law_tokens_exist(first);
    assert(first.push(',').drop_last() =~= first);
    if second.len() > 0 {
        law_tokens_of_two_notations(first, second.drop_last());
        law_tokens_exist(second.drop_last());
        assert((first.push(',') + second).drop_last() =~= first.push(',') + second.drop_last());
    }
}

/// Two runs of tokens, one after the other, name what both name together;
/// where the first run is refused, so is the whole, and for the same reason.
pub proof fn law_components_of_two_runs(first: Seq<Seq<char>>, second: Seq<Seq<char>>)
    ensures
        components_of_tokens(first + second) == (match components_of_tokens(first) {
            Err(failure) => Err(failure),
            Ok(before) => match components_of_tokens(second) {
                Err(failure) => Err(failure),
                Ok(more) => Ok(before.union(more)),
            },
        }),
    decreases second.len(),
{
    if second.len() == 0 {
        if components_of_tokens(first) is Ok {
            let before = components_of_tokens(first)->Ok_0;
            assert(before.union(Set::<RangeComponent>::empty()) =~= before);
        }
    } else {
        law_components_of_two_runs(first, second.drop_last());
        assert((first + second).drop_last() =~= first + second.drop_last());
        if components_of_tokens(first) is Ok && components_of_tokens(second) is Ok {
            let before = components_of_tokens(first)->Ok_0;
            let middle = components_of_tokens(second.drop_last())->Ok_0;
            let more = token_components(second.last())->Ok_0;
            assert(before.union(middle).union(more) =~= before.union(middle.union(more)));
        }
    }
}

/// Where two notations are both accepted, the notation made of the two with
/// a comma between them names the components of both, each once: naming a
/// component again adds nothing.
pub proof fn law_notations_unite(first: Seq<char>, second: Seq<char>)
    requires
        notation_components(first) is Ok,
        notation_components(second) is Ok,
    ensures
        notation_components(first.push(',') + second) == Ok::<Set<RangeComponent>, Failure>(
            notation_components(first)->Ok_0.union(notation_components(second)->Ok_0),
        ),
        notation_components(first.push(',') + first) == notation_components(first),
{
    let one = tokens_of(first);
    let other = tokens_of(second);
    law_tokens_of_two_notations(first, second);
    law_components_of_two_runs(one, other);
    // a token of the first notation that is not empty is one of the whole
    let at = choose|i: int| 0 <= i < one.len() && (#[trigger] one[i]).len() != 0;
    assert((one + other)[at].len() != 0);
    law_tokens_of_two_notations(first, first);
    law_components_of_two_runs(one, one);
    assert((one + one)[at].len() != 0);
    let a = notation_components(first)->Ok_0;
    assert(a.union(a) =~= a);
}

/// A run of tokens is accepted where each of its tokens is, and only there.
pub proof fn law_every_token_is_accepted(tokens: Seq<Seq<char>>)
    ensures
        components_of_tokens(tokens) is Ok <==> forall|i: int|
            0 <= i < tokens.len() ==> token_components(#[trigger] tokens[i]) is Ok,
    decreases tokens.len(),
{
    if tokens.len() > 0 {
        let front = tokens.drop_last();
        law_every_token_is_accepted(front);
        if components_of_tokens(tokens) is Ok {
            assert forall|i: int| 0 <= i < tokens.len() implies token_components(
                #[trigger] tokens[i],
            ) is Ok by {
                if i < front.len() {
                    assert(front[i] == tokens[i]);
                }
            }
        } else if components_of_tokens(front) is Err {
            let at = choose|i: int|
                0 <= i < front.len() && !(token_components(#[trigger] front[i]) is Ok);
            assert(front[at] == tokens[at]);
        }
    }
}

/// The first token from the left that is refused decides the failure of the
/// run, whatever comes after it.
pub proof fn law_first_refused_token_decides(tokens: Seq<Seq<char>>, at: int)
    requires
        0 <= at < tokens.len(),
        forall|i: int| 0 <= i < at ==> token_components(#[trigger] tokens[i]) is Ok,
        token_components(tokens[at]) is Err,
    ensures
        components_of_tokens(tokens) is Err,
        components_of_tokens(tokens)->Err_0 == token_components(tokens[at])->Err_0,
{
    let front = tokens.take(at);
    law_every_token_is_accepted(front);
    lemma_one_more_token(tokens, at);
    lemma_failure_stays(tokens, at + 1);
}

/// A notation of nothing but commas, the empty notation among them, is an
/// empty range; no other notation is.
pub proof fn law_only_commas_name_nothing(text: Seq<char>)
    ensures
        all_empty(tokens_of(text)) <==> forall|i: int| 0 <= i < text.len() ==> text[i] == ',',
        notation_components(text) == Err::<Set<RangeComponent>, Failure>(Failure::EmptyRange)
            <==> forall|i: int| 0 <= i < text.len() ==> text[i] == ',',
    decreases text.len(),
{
    let tokens = tokens_of(text);
    law_tokens_exist(text);
    if text.len() > 0 {
        let shorter = text.drop_last();
        let before = tokens_of(shorter);
        law_only_commas_name_nothing(shorter);
        law_tokens_exist(shorter);
        if all_empty(tokens) {
            assert(text.last() == ',') by {
                if text.last() != ',' {
                    assert(tokens[tokens.len() - 1].len() > 0);
                }
            }
            assert(all_empty(before)) by {
                assert forall|i: int| 0 <= i < before.len() implies (#[trigger] before[i]).len()
                    == 0 by {
                    assert(tokens[i] == before[i]);
                }
            }
            assert forall|i: int| 0 <= i < text.len() implies text[i] == ',' by {
                if i < shorter.len() {
                    assert(shorter[i] == text[i]);
                }
            }
        }
        if forall|i: int| 0 <= i < text.len() ==> text[i] == ',' {
            assert forall|i: int| 0 <= i < shorter.len() implies shorter[i] == ',' by {
                assert(shorter[i] == text[i]);
            }
            assert(text.last() == ',');
            assert(all_empty(tokens));
        }
    }
    // a failure that a token decides is never that of an empty range
    lemma_tokens_fail_for_a_token(tokens);
}

/// Where a run of tokens is refused, it is for one of its tokens: as a
/// malformed token or for a rank character.
proof fn lemma_tokens_fail_for_a_token(tokens: Seq<Seq<char>>)
    ensures
        components_of_tokens(tokens) != Err::<Set<RangeComponent>, Failure>(Failure::EmptyRange),
    decreases tokens.len(),
{
    if tokens.len() > 0 {
        lemma_tokens_fail_for_a_token(tokens.drop_last());
    }
}

/// A run of tokens that is accepted and has a token names a component.
pub proof fn law_accepted_tokens_name_components(tokens: Seq<Seq<char>>)
    requires
        tokens.len() > 0,
        components_of_tokens(tokens) is Ok,
    ensures
        exists|c: RangeComponent| components_of_tokens(tokens)->Ok_0.contains(c),
{
    lemma_token_components_well_formed(tokens.last());
    let named = choose|c: RangeComponent| token_components(tokens.last())->Ok_0.contains(c);
    assert(components_of_tokens(tokens)->Ok_0.contains(named));
}

/// A notation is accepted where each of its tokens is, and only there; it
/// then names what its tokens name together, which is at least one
/// component.
pub proof fn law_notation_is_accepted(text: Seq<char>)
    ensures
        notation_components(text) is Ok <==> forall|i: int|
            0 <= i < tokens_of(text).len() ==> token_components(#[trigger] tokens_of(text)[i])
                is Ok,
        notation_components(text) is Ok ==> notation_components(text) == components_of_tokens(
            tokens_of(text),
        ) && exists|c: RangeComponent| notation_components(text)->Ok_0.contains(c),
{
    let tokens = tokens_of(text);
    law_tokens_exist(text);
    law_every_token_is_accepted(tokens);
    if all_empty(tokens) {
        // the first token is empty, and so refused
        assert(tokens[0].len() == 0);
        assert(token_components(tokens[0]) is Err);
    } else if components_of_tokens(tokens) is Ok {
        law_accepted_tokens_name_components(tokens);
    }
}

/// An empty token beside other tokens is refused as malformed: where no
/// token before it is refused, the notation fails with the empty token.
pub proof fn law_empty_token_is_refused(text: Seq<char>, at: int)
    requires
        0 <= at < tokens_of(text).len(),
        tokens_of(text)[at].len() == 0,
        !all_empty(tokens_of(text)),
        forall|i: int| 0 <= i < at ==> token_components(#[trigger] tokens_of(text)[i]) is Ok,
    ensures
        notation_components(text) == Err::<Set<RangeComponent>, Failure>(
            Failure::MalformedToken(Seq::<char>::empty()),
        ),
{
    let tokens = tokens_of(text);
    assert(tokens[at] =~= Seq::<char>::empty());
    law_first_refused_token_decides(tokens, at);
}

/// Neither a rank character, nor the dash or the plus, is a comma.
proof fn lemma_rank_chars_hold_no_comma(token: Seq<char>)
    requires
        forall|at: int|
            0 <= at < token.len() ==> value_of_char(#[trigger] token[at]) is Some || token[at]
                == '-' || token[at] == '+',
    ensures
        !token.contains(','),
{
}

/// A notation of one token, without a comma, names what the token names, and
/// is refused where the token is.
pub proof fn law_single_token(token: Seq<char>)
    requires
        token.len() > 0,
        !token.contains(','),
    ensures
        notation_components(token) == token_components(token),
{
    law_tokens_of_longer_tail(Seq::<char>::empty(), token);
    // the token is the only one, and the tokens before it name nothing
    let tokens = tokens_of(token);
    assert(tokens[0] == token);
    assert(components_of_tokens(tokens.drop_last()) == Ok::<Set<RangeComponent>, Failure>(
        Set::<RangeComponent>::empty(),
    ));
    if token_components(token) is Ok {
        let named = token_components(token)->Ok_0;
        assert(Set::<RangeComponent>::empty().union(named) =~= named);
    }
}

/// Two different rank characters `XY` name the hand of these two values,
/// suited and unsuited, and nothing else: the range covers a hand where its
/// two cards have the two values, whichever card comes first and whatever
/// their suits, and covers no other hand.
pub proof fn law_two_values(x: char, y: char)
    requires
        value_of_char(x) is Some,
        value_of_char(y) is Some,
        x != y,
    ensures
        ({
            let a = value_of_char(x)->0;
            let b = value_of_char(y)->0;
            let named = notation_components(seq![x, y]);
            &&& named == Ok::<Set<RangeComponent>, Failure>(
                set![
                    RangeComponent::CardsSuited(higher(a, b), lower(a, b)),
                    RangeComponent::CardsUnsuited(higher(a, b), lower(a, b)),
                ],
            )
            &&& forall|first: Card, second: Card|
                #![trigger covers(named->Ok_0, first, second)]
                covers(named->Ok_0, first, second) <==> (first.value == a && second.value == b) || (
                first.value == b && second.value == a)
        }),
{
    lemma_rank_round_trip();
    let token = seq![x, y];
    lemma_rank_chars_hold_no_comma(token);
    law_single_token(token);
}

/// A range of pairs `XX-YY` names the pair at every value from the lower of
/// the two to the higher, both included, whichever side is written first,
/// and nothing else.
pub proof fn law_pair_range(x: char, y: char)
    requires
        value_of_char(x) is Some,
        value_of_char(y) is Some,
    ensures
        ({
            let a = value_of_char(x)->0;
            let b = value_of_char(y)->0;
            let named = notation_components(seq![x, x, '-', y, y]);
            &&& named == Ok::<Set<RangeComponent>, Failure>(
                pairs_between(lower(a, b), higher(a, b)),
            )
            &&& named == notation_components(seq![y, y, '-', x, x])
            &&& forall|first: Card, second: Card|
                #![trigger covers(named->Ok_0, first, second)]
                covers(named->Ok_0, first, second) <==> first.value == second.value && lower(
                    a,
                    b,
                ).rank() <= first.value.rank() <= higher(a, b).rank()
        }),
{
    lemma_rank_round_trip();
    let a = value_of_char(x)->0;
    let b = value_of_char(y)->0;
    let token = seq![x, x, '-', y, y];
    lemma_rank_chars_hold_no_comma(token);
    law_single_token(token);
    let turned = seq![y, y, '-', x, x];
    lemma_rank_chars_hold_no_comma(turned);
    law_single_token(turned);
}

/// An open range of pairs `XX+` names the pair at every value from `X` up to
/// the ace, and nothing below `X`.
pub proof fn law_pairs_upward(x: char)
    requires
        value_of_char(x) is Some,
    ensures
        ({
            let a = value_of_char(x)->0;
            let named = notation_components(seq![x, x, '+']);
            &&& named is Ok
            &&& forall|first: Card, second: Card|
                #![trigger covers(named->Ok_0, first, second)]
                covers(named->Ok_0, first, second) <==> first.value == second.value && a.rank()
                    <= first.value.rank()
        }),
{
    lemma_rank_round_trip();
    let token = seq![x, x, '+'];
    lemma_rank_chars_hold_no_comma(token);
    law_single_token(token);
}

/// A widened kicker `XY+` names the higher of the two values with every
/// kicker from the lower one up to just below the higher, suited and
/// unsuited. The higher value itself is no kicker, so no pair is named.
pub proof fn law_kicker_widening(x: char, y: char)
    requires
        value_of_char(x) is Some,
        value_of_char(y) is Some,
        x != y,
    ensures
        ({
            let a = value_of_char(x)->0;
            let b = value_of_char(y)->0;
            let named = notation_components(seq![x, y, '+']);
            &&& named is Ok
            &&& forall|first: Card, second: Card|
                #![trigger covers(named->Ok_0, first, second)]
                covers(named->Ok_0, first, second) <==> higher(first.value, second.value) == higher(
                    a,
                    b,
                ) && lower(a, b).rank() <= lower(first.value, second.value).rank() < higher(
                    a,
                    b,
                ).rank()
        }),
{
    lemma_rank_round_trip();
    let token = seq![x, y, '+'];
    lemma_rank_chars_hold_no_comma(token);
    law_single_token(token);
}

/// A hand falls under one component, whichever of its two cards comes first:
/// a range that covers a hand covers it in either order.
pub proof fn law_card_order_does_not_matter(first: Card, second: Card)
    ensures
        RangeComponent::of_hand(first, second) == RangeComponent::of_hand(second, first),
        RangeComponent::of_hand(first, second).well_formed(),
        forall|components: Set<RangeComponent>| #[trigger]
            covers(components, first, second) == covers(components, second, first),
{
    lemma_rank_round_trip();
}

/// The text that a range hands out is the notation that it was built from,
/// unchanged: of any range that `new_from_string` returns for a notation,
/// whatever `get_range_text` returns is that notation.
pub proof fn law_text_comes_back(notation: &str, range: SimpleRange, text: String)
    requires
        call_ensures(
            SimpleRange::new_from_string,
            (notation,),
            Ok::<SimpleRange, RangeError>(range),
        ),
        call_ensures(SimpleRange::get_range_text, (&range,), text),
    ensures
        text@ == notation@,
{
}

/// Whatever number selects the component and whatever indices pick the
/// suits, the hand that is dealt is held by the range and has two different
/// cards.
pub proof fn law_every_outcome_is_held(
    range: SimpleRange,
    n: int,
    index: int,
    first: int,
    second: int,
)
    requires
        range.well_formed(),
        selects(range.ordered(), n, index),
        0 <= first < 4,
        0 <= second < 3,
    ensures
        ({
            let hand = hand_of(range.ordered()[index], suits_of_indices(first, second));
            &&& range.holds(hand.0, hand.1)
            &&& hand.0 != hand.1
        }),
{
    let component = range.ordered()[index];
    assert(range.ordered().contains(component));
    lemma_hand_falls_under(component, suits_of_indices(first, second));
}

/// A hand that is drawn from a range is contained in it: of any hand that
/// `draw` returns, `contains` returns `true`.
pub proof fn law_drawn_hand_is_contained(range: SimpleRange, hand: (Card, Card), found: bool)
    requires
        call_ensures(SimpleRange::draw, (&range,), hand),
        call_ensures(SimpleRange::contains, (&range, (&hand.0, &hand.1)), found),
    ensures
        found,
{
}

/// Each number selects at most one component.
pub proof fn law_selection_is_unique(items: Seq<RangeComponent>, n: int, one: int, other: int)
    requires
        selects(items, n, one),
        selects(items, n, other),
    ensures
        one == other,
{
    if one < other {
        lemma_cumulative_weight_rises(items, one + 1, other);
    } else if other < one {
        lemma_cumulative_weight_rises(items, other + 1, one);
    }
}

/// Each number below the cumulative weight of the first `count` components
/// selects one of them.
pub proof fn law_some_component_is_selected(items: Seq<RangeComponent>, n: int, count: int)
    requires
        0 <= count <= items.len(),
        0 <= n < cumulative_weight(items, count),
    ensures
        exists|index: int| 0 <= index < count && #[trigger] selects(items, n, index),
    decreases count,
{
    if n < cumulative_weight(items, count - 1) {
        law_some_component_is_selected(items, n, count - 1);
    } else {
        assert(selects(items, n, count - 1));
    }
}

/// A component is selected by as many numbers as its weight says: a pair by
/// 6, a suited hand by 4, an unsuited hand by 12. So a number drawn evenly
/// below the total weight selects each component in proportion to its
/// weight.
pub proof fn law_share_is_weight(items: Seq<RangeComponent>, index: int)
    requires
        0 <= index < items.len(),
    ensures
        Set::new(|n: int| selects(items, n, index)).finite(),
        Set::new(|n: int| selects(items, n, index)).len() == items[index].weight(),
{
    let low = cumulative_weight(items, index) as int;
    let high = cumulative_weight(items, index + 1) as int;
    lemma_int_range(low, high);
    assert(Set::new(|n: int| selects(items, n, index)) =~= set_int_range(low, high));
}

/// The cumulative weights of the weight table rise strictly from entry to
/// entry, each by the weight of its component, and end at the total weight.
pub proof fn law_table_rises(range: SimpleRange)
    requires
        range.well_formed(),
    ensures
        range.weight_table().len() == range.ordered().len(),
        range.weight_table().len() == range.components().len(),
        range.weight_table().last().0 == range.total_weight(),
        range.weight_table()[0].0 == range.ordered()[0].weight(),
        forall|i: int|
            0 < i < range.weight_table().len() ==> (#[trigger] range.weight_table()[i]).0
                == range.weight_table()[i - 1].0 + range.ordered()[i].weight(),
        forall|i: int, j: int|
            0 <= i < j < range.weight_table().len() ==> (#[trigger] range.weight_table()[i]).0 < (
            #[trigger] range.weight_table()[j]).0,
{
    let table = range.weight_table();
    let items = range.ordered();
    lemma_ordered_is_a_set(items);
    assert(cumulative_weight(items, 0) == 0);
    assert forall|i: int, j: int| 0 <= i < j < table.len() implies (#[trigger] table[i]).0 < (
    #[trigger] table[j]).0 by {
        lemma_cumulative_weight_rises(items, i + 1, j);
    }
}

/// A set of components has one order only: two strictly ordered sequences
/// of the same components are the same sequence.
pub proof fn law_order_is_fixed(one: Seq<RangeComponent>, other: Seq<RangeComponent>)
    requires
        strictly_ordered(one),
        strictly_ordered(other),
        one.to_set() == other.to_set(),
    ensures
        one == other,
    decreases one.len(),
{
    lemma_ordered_is_a_set(one);
    lemma_ordered_is_a_set(other);
    if one.len() > 0 {
        // the last component of each sequence is the one with the highest key
        let a = one.last();
        let b = other.last();
        assert(other.to_set().contains(a));
        assert(one.to_set().contains(b));
        let at_other = choose|i: int| 0 <= i < other.len() && other[i] == a;
        let at_one = choose|i: int| 0 <= i < one.len() && one[i] == b;
        assert(a.order_key() <= b.order_key() <= a.order_key());
        lemma_order_key_injective(a, b);
        let front = one.drop_last();
        let back = other.drop_last();
        assert(front.to_set() =~= back.to_set()) by {
            assert forall|c: RangeComponent|
                front.to_set().contains(c) implies back.to_set().contains(c) by {
                let i = choose|i: int| 0 <= i < front.len() && front[i] == c;
                assert(other.to_set().contains(c));
                let j = choose|j: int| 0 <= j < other.len() && other[j] == c;
                assert(back[j] == c);
            }
            assert forall|c: RangeComponent|
                back.to_set().contains(c) implies front.to_set().contains(c) by {
                let i = choose|i: int| 0 <= i < back.len() && back[i] == c;
                assert(one.to_set().contains(c));
                let j = choose|j: int| 0 <= j < one.len() && one[j] == c;
                assert(front[j] == c);
            }
        }
        law_order_is_fixed(front, back);
        assert(other =~= back.push(b));
    }
}

/// Two ranges of the same components have the same weight table: hands are
/// drawn from them alike, however their notations were written.
pub proof fn law_equal_ranges_weigh_alike(one: SimpleRange, other: SimpleRange)
    requires
        one.well_formed(),
        other.well_formed(),
        one.components() == other.components(),
    ensures
        one.ordered() == other.ordered(),
        one.weight_table() == other.weight_table(),
        one.total_weight() == other.total_weight(),
{
    law_order_is_fixed(one.ordered(), other.ordered());
}

/// The two suits that two indices pick differ.
pub proof fn law_suit_pairs_differ(first: int, second: int)
    requires
        0 <= first < 4,
        0 <= second < 3,
    ensures
        suits_of_indices(first, second).0 != suits_of_indices(first, second).1,
{
}

/// Different indices pick different pairs of suits.
pub proof fn law_suit_pairs_are_told_apart(
    first: int,
    second: int,
    other_first: int,
    other_second: int,
)
    requires
        0 <= first < 4,
        0 <= second < 3,
        0 <= other_first < 4,
        0 <= other_second < 3,
        suits_of_indices(first, second) == suits_of_indices(other_first, other_second),
    ensures
        first == other_first,
        second == other_second,
{
}

/// Every ordered pair of two different suits is picked by some indices. With
/// the two laws before, the 4 times 3 pairs of indices and the 12 ordered
/// pairs of different suits correspond one to one, so indices drawn evenly
/// give each such pair of suits as often as any other.
pub proof fn law_every_suit_pair_comes(one: Suit, other: Suit)
    requires
        one != other,
    ensures
        exists|first: int, second: int|
            0 <= first < 4 && 0 <= second < 3 && #[trigger] suits_of_indices(first, second) == (
                one,
                other,
            ),
{
    let first: int = match one {
        Suit::Spades => 0,
        Suit::Hearts => 1,
        Suit::Diamonds => 2,
        Suit::Clubs => 3,
    };
    let place: int = match other {
        Suit::Spades => 0,
        Suit::Hearts => 1,
        Suit::Diamonds => 2,
        Suit::Clubs => 3,
    };
    let second = if place > first {
        place - 1
    } else {
        place
    };
    assert(suits_of_indices(first, second) == (one, other));
}

/// The place of a suit among the four.
pub open spec fn index_of_suit(suit: Suit) -> int {
    match suit {
        Suit::Spades => 0,
        Suit::Hearts => 1,
        Suit::Diamonds => 2,
        Suit::Clubs => 3,
    }
}

/// The two indices that pick an ordered pair of different suits.
pub open spec fn indices_of_suits(one: Suit, other: Suit) -> (int, int) {
    (
        index_of_suit(one),
        if index_of_suit(other) > index_of_suit(one) {
            index_of_suit(other) - 1
        } else {
            index_of_suit(other)
        },
    )
}

/// Whether two hands are the same two cards, in whichever order.
pub open spec fn same_hand(one: (Card, Card), other: (Card, Card)) -> bool {
    one == other || (one.0 == other.1 && one.1 == other.0)
}

/// The pairs of suit indices with which a component is dealt as the given
/// hand.
pub open spec fn suit_picks(component: RangeComponent, hand: (Card, Card)) -> Set<(int, int)> {
    Set::new(
        |pick: (int, int)|
            0 <= pick.0 < 4 && 0 <= pick.1 < 3 && same_hand(
                hand_of(component, suits_of_indices(pick.0, pick.1)),
                hand,
            ),
    )
}

/// Every hand of two different cards comes alike from its component: of the
/// 12 pairs of suit indices, a given pair of one value is dealt by 2, a
/// given suited hand by 3 and a given unsuited hand by 1. A component is
/// selected by as many numbers as it weighs, 6, 4 or 12, so each hand that a
/// range covers is drawn by 12 of the outcomes of the three random numbers,
/// whatever its component: hands are drawn evenly.
pub proof fn law_every_hand_comes_alike(component: RangeComponent, first: Card, second: Card)
    requires
        first != second,
        component == RangeComponent::of_hand(first, second),
    ensures
        suit_picks(component, (first, second)).finite(),
        suit_picks(component, (first, second)).len() * component.weight() == 12,
{
    lemma_rank_round_trip();
    let picks = suit_picks(component, (first, second));
    match component {
        RangeComponent::Pair(_) => {
            let one = indices_of_suits(first.suit, second.suit);
            let other = indices_of_suits(second.suit, first.suit);
            assert(picks =~= set![one, other]) by {
                assert forall|pick: (int, int)| picks.contains(pick) implies pick == one || pick
                    == other by {
                    if suits_of_indices(pick.0, pick.1) == (first.suit, second.suit) {
                        law_suit_pairs_are_told_apart(pick.0, pick.1, one.0, one.1);
                    } else {
                        law_suit_pairs_are_told_apart(pick.0, pick.1, other.0, other.1);
                    }
                }
            }
        },
        RangeComponent::CardsSuited(_, _) => {
            let suit = index_of_suit(first.suit);
            assert(picks =~= set![(suit, 0int), (suit, 1int), (suit, 2int)]);
        },
        RangeComponent::CardsUnsuited(high, _) => {
            let only = if first.value == high {
                indices_of_suits(first.suit, second.suit)
            } else {
                indices_of_suits(second.suit, first.suit)
            };
            assert(picks =~= set![only]) by {
                assert forall|pick: (int, int)| picks.contains(pick) implies pick == only by {
                    law_suit_pairs_are_told_apart(pick.0, pick.1, only.0, only.1);
                }
            }
        },
    }
}

} // verus!
