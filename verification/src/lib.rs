//! Poker starting-hand ranges: a notation such as `"AA,AK+,J9s+"` is parsed
//! into a set of range components, which answers whether a two-card hand
//! belongs to the range and from which hands are drawn in proportion to the
//! number of card combinations behind each component.
//!
//! - [`card`]: values, suits and cards;
//! - [`internal`]: the range component, its weight and its place in the order;
//! - [`components`]: the ordered set of components;
//! - [`utils`]: rank characters, the walk over values, the two random suits;
//! - [`parse`]: the grammar of one token;
//! - [`notation`]: a whole notation, split at its commas;
//! - [`error`]: why a notation is refused;
//! - [`laws`]: what is proved of all of them together.
//!
//! [`SimpleRange`] is the range itself, and [`Range`] what any range offers.

pub mod card;
pub mod components;
pub mod error;
pub mod internal;
pub mod laws;
pub mod notation;
pub mod parse;
pub mod utils;

use vstd::prelude::*;
use crate::card::{Card, Suit};
use crate::components::{lemma_ordered_is_short, strictly_ordered, ComponentSet};
use crate::error::{Failure, RangeError};
use crate::internal::RangeComponent;
use crate::notation::{
    all_empty, components_of_tokens, lemma_failure_stays, lemma_one_more_token,
    notation_components, only_empty_tokens, split_tokens, token_views, tokens_of,
};
use crate::parse::{lemma_token_components_well_formed, parse_token, token_components};
use crate::utils::{gen_random_suits, random_in_range, suits_of_indices, thread_generator};

verus! {

/// The weights of the first `count` components of a sequence, added up.
pub open spec fn cumulative_weight(items: Seq<RangeComponent>, count: int) -> nat
    decreases count,
{
    if count <= 0 {
        0
    } else {
        cumulative_weight(items, count - 1) + items[count - 1].weight()
    }
}

/// Whether the number `n` falls to the component at `index`: each component
/// takes as many numbers as its weight, following on those of the
/// components before it.
pub open spec fn selects(items: Seq<RangeComponent>, n: int, index: int) -> bool {
    0 <= index < items.len() && cumulative_weight(items, index) <= n < cumulative_weight(
        items,
        index + 1,
    )
}

/// Whether a set of components covers the hand of two cards: whether the
/// component that the hand falls under is among them.
pub open spec fn covers(components: Set<RangeComponent>, first: Card, second: Card) -> bool {
    components.contains(RangeComponent::of_hand(first, second))
}

/// The two cards of a component in the given suits. A pair and an unsuited
/// hand take both suits; a suited hand takes the first for both cards.
pub open spec fn hand_of(component: RangeComponent, suits: (Suit, Suit)) -> (Card, Card) {
    match component {
        RangeComponent::Pair(value) => (
            Card { value, suit: suits.0 },
            Card { value, suit: suits.1 },
        ),
        RangeComponent::CardsSuited(high, low) => (
            Card { value: high, suit: suits.0 },
            Card { value: low, suit: suits.0 },
        ),
        RangeComponent::CardsUnsuited(high, low) => (
            Card { value: high, suit: suits.0 },
            Card { value: low, suit: suits.1 },
        ),
    }
}

/// Any range should be able to get checked whether a hand can be in it and
/// to draw a random card sample.
pub trait Range {
    /// Whether the range holds the hand of these two cards.
    spec fn holds(&self, first: Card, second: Card) -> bool;

    /// Checks whether a hand is in the range.
    fn contains(&self, hand: (&Card, &Card)) -> (found: bool)
        ensures
            found == self.holds(*hand.0, *hand.1),
    ;

    /// Draws a hand from the range.
    fn draw(&self) -> (hand: (Card, Card))
        ensures
            self.holds(hand.0, hand.1),
    ;
}

/// The simplest of range types: a set of components, with the table from
/// which hands are drawn by weight.
#[derive(Debug)]
pub struct SimpleRange {
    text: String,
    components: ComponentSet,
    combination_lookup: Vec<(usize, RangeComponent)>,
    combination_count: usize,
}

impl SimpleRange {
    /// The notation that the range was built from.
    pub closed spec fn text(&self) -> Seq<char> {
        self.text@
    }

    /// The components of the range in the order of the weight table.
    pub closed spec fn ordered(&self) -> Seq<RangeComponent> {
        self.components.ordered()
    }

    /// The components of the range.
    pub open spec fn components(&self) -> Set<RangeComponent> {
        self.ordered().to_set()
    }

    /// The weight table: each component with the sum of the weights up to
    /// and including its own.
    pub closed spec fn weight_table(&self) -> Seq<(usize, RangeComponent)> {
        self.combination_lookup@
    }

    /// The sum of the weights of all components.
    pub closed spec fn total_weight(&self) -> nat {
        self.combination_count as nat
    }

    /// What holds of every range: it has a component, its components stand
    /// in their fixed order and are well formed, and the weight table lists
    /// them in that order, each with its cumulative weight.
    #[verifier::type_invariant]
    pub open spec fn well_formed(&self) -> bool {
        &&& self.ordered().len() > 0
        &&& strictly_ordered(self.ordered())
        &&& forall|i: int|
            0 <= i < self.ordered().len() ==> (#[trigger] self.ordered()[i]).well_formed()
        &&& self.weight_table().len() == self.ordered().len()
        &&& forall|i: int|
            0 <= i < self.ordered().len() ==> (#[trigger] self.weight_table()[i]).0
                == cumulative_weight(self.ordered(), i + 1) && self.weight_table()[i].1
                == self.ordered()[i]
        &&& self.total_weight() == cumulative_weight(self.ordered(), self.ordered().len() as int)
    }

    /// Construct a range from a non-empty string of the kind "AA,AJs+": the
    /// tokens between its commas are parsed one after the other, and what
    /// they name is taken together. A notation of nothing but empty tokens
    /// names no component and is refused as an empty range. In every other
    /// notation the first token that is refused ends the construction with
    /// its error, an empty token too. The text is kept as it was given.
    pub fn new_from_string(ranges: &str) -> (result: Result<SimpleRange, RangeError>)
        ensures
            match result {
                Ok(range) => notation_components(ranges@) == Ok::<Set<RangeComponent>, Failure>(
                    range.components(),
                ) && range.text() == ranges@ && range.well_formed(),
                Err(error) => notation_components(ranges@) == Err::<Set<RangeComponent>, Failure>(
                    error@,
                ),
            },
    {
        let raw_components = split_tokens(ranges);
        let ghost tokens = tokens_of(ranges@);
        if only_empty_tokens(&raw_components) {
            return Err(RangeError::EmptyRange);
        }
        let mut components = ComponentSet::new();

        let mut at: usize = 0;
        while at < raw_components.len()
            invariant
                at <= raw_components@.len(),
                token_views(raw_components@) == tokens,
                tokens == tokens_of(ranges@),
                !all_empty(tokens),
                components.well_formed(),
                components_of_tokens(tokens.take(at as int)) == Ok::<Set<RangeComponent>, Failure>(
                    components@,
                ),
                forall|c: RangeComponent| #[trigger] components@.contains(c) ==> c.well_formed(),
                at > 0 ==> components.ordered().len() > 0,
            decreases raw_components@.len() - at,
        {
            let chars = raw_components[at].clone();
            proof {
                lemma_one_more_token(tokens, at as int);
            }
            match parse_token(chars) {
                Ok(new_components) => {
                    components.extend(&new_components);
                    proof {
                        lemma_token_components_well_formed(tokens[at as int]);
                        // the token names a component, so the set is no longer empty
                        let named = choose|c: RangeComponent|
                            token_components(tokens[at as int])->Ok_0.contains(c);
                        assert(new_components@.contains(named));
                        assert(components@.contains(named));
                        assert(components.ordered().contains(named));
                    }
                },
                Err(error) => {
                    proof {
                        lemma_failure_stays(tokens, at + 1);
                    }
                    return Err(error);
                },
            }
            at += 1;
        }
        assert(tokens.take(at as int) =~= tokens);
        let component_count = components.len();

        // the running sum of combinations, from which hands are drawn by
        // weight: 6 for a pair, 4 for suited cards (one hand in each suit)
        // and 12 for unsuited cards (4 suits for the first card, for each of
        // them 3 other suits for the second)
        let mut combination_count: usize = 0;
        let mut combination_lookup: Vec<(usize, RangeComponent)> = Vec::new();
        proof {
            lemma_ordered_is_short(components.ordered());
        }
        let mut index: usize = 0;
        while index < component_count
            invariant
                index <= component_count,
                component_count == components.ordered().len(),
                component_count <= 1000,
                combination_count == cumulative_weight(components.ordered(), index as int),
                combination_count <= 12 * index,
                combination_lookup@.len() == index,
                forall|i: int|
                    0 <= i < index ==> (#[trigger] combination_lookup@[i]).0 == cumulative_weight(
                        components.ordered(),
                        i + 1,
                    ) && combination_lookup@[i].1 == components.ordered()[i],
            decreases component_count - index,
        {
            let component = components.get(index);
            combination_count += component.combinations();
            combination_lookup.push((combination_count, component));
            index += 1;
        }

        proof {
            assert forall|i: int| 0 <= i < components.ordered().len() implies (
            #[trigger] components.ordered()[i]).well_formed() by {
                assert(components@.contains(components.ordered()[i]));
            }
        }
        Ok(
            SimpleRange {
                text: ranges.to_owned(),
                components,
                combination_lookup,
                combination_count,
            },
        )
    }

    /// The notation that the range was built from, as it was given.
    pub fn get_range_text(&self) -> (text: String)
        ensures
            text@ == self.text(),
    {
        self.text.clone()
    }

    /// The number of components of the range, each counted once.
    pub fn get_component_count(&self) -> (count: usize)
        ensures
            count == self.components().len(),
            count > 0,
    {
        proof {
            use_type_invariant(self);
        }
        self.components.len()
    }

    /// The sum of the weights of all components: the number of card
    /// combinations that the range stands for.
    pub fn get_combination_count(&self) -> (count: usize)
        ensures
            count == self.total_weight(),
            count > 0,
    {
        proof {
            use_type_invariant(self);
            lemma_cumulative_weight_rises(self.ordered(), 1, self.ordered().len() as int);
        }
        self.combination_count
    }

    /// The component to which a number below the total weight falls: the
    /// first of the weight table whose cumulative weight is above it.
    pub fn select_component(&self, n: usize) -> (component: RangeComponent)
        requires
            n < self.total_weight(),
        ensures
            exists|index: int| #[trigger]
                selects(self.ordered(), n as int, index) && component == self.ordered()[index],
            self.components().contains(component),
            component.well_formed(),
    {
        proof {
            use_type_invariant(self);
        }
        let count = self.combination_lookup.len();
        let mut index: usize = 0;
        while self.combination_lookup[index].0 <= n
            invariant
                self.well_formed(),
                n < self.total_weight(),
                count == self.combination_lookup@.len(),
                index < count,
                cumulative_weight(self.ordered(), index as int) <= n,
            decreases count - index,
        {
            index += 1;
        }
        let (_, component) = self.combination_lookup[index];
        assert(selects(self.ordered(), n as int, index as int));
        component
    }
}

/// The cards of a component in the given suits.
pub fn deal(component: RangeComponent, suits: (Suit, Suit)) -> (hand: (Card, Card))
    ensures
        hand == hand_of(component, suits),
{
    match component {
        RangeComponent::Pair(val) => {
            let c1 = Card::new(val, suits.0);
            let c2 = Card::new(val, suits.1);
            (c1, c2)
        },
        RangeComponent::CardsSuited(val_g, val_l) => {
            let c1 = Card::new(val_g, suits.0);
            let c2 = Card::new(val_l, suits.0);
            (c1, c2)
        },
        RangeComponent::CardsUnsuited(val_g, val_l) => {
            let c1 = Card::new(val_g, suits.0);
            let c2 = Card::new(val_l, suits.1);
            (c1, c2)
        },
    }
}

impl Range for SimpleRange {
    /// The range holds a hand where the component that the hand falls under
    /// is one of its components.
    open spec fn holds(&self, first: Card, second: Card) -> bool {
        covers(self.components(), first, second)
    }

    /// Checks whether a hand is in the range, whichever of its two cards
    /// comes first.
    fn contains(&self, hand: (&Card, &Card)) -> (found: bool) {
        let component = RangeComponent::from_hand(hand.0, hand.1);
        self.components.contains(&component)
    }

    /// Draw a hand from the range, weighted by the number of combinations of
    /// each component: a random number below the total weight selects the
    /// component, and two random indices pick its suits. Whatever the
    /// numbers, the hand has two different cards and is held by the range.
    fn draw(&self) -> (hand: (Card, Card))
        ensures
            hand.0 != hand.1,
            exists|n: int, index: int, first: int, second: int|
                0 <= first < 4 && 0 <= second < 3 && #[trigger] selects(self.ordered(), n, index)
                    && hand == hand_of(
                    self.ordered()[index],
                    #[trigger] suits_of_indices(first, second),
                ),
    {
        let mut rng = thread_generator();
        let total = self.get_combination_count();
        // a random number that falls into the range of enumerated combinations
        let n: usize = random_in_range(&mut rng, 0, total);
        let range_component = self.select_component(n);
        let suits = gen_random_suits(&mut rng);
        proof {
            lemma_hand_falls_under(range_component, suits);
        }
        deal(range_component, suits)
    }
}

/// The cumulative weight does not fall as more components are counted.
pub proof fn lemma_cumulative_weight_rises(items: Seq<RangeComponent>, fewer: int, more: int)
    requires
        fewer <= more,
    ensures
        cumulative_weight(items, fewer) <= cumulative_weight(items, more),
    decreases more - fewer,
{
    if fewer < more {
        lemma_cumulative_weight_rises(items, fewer, more - 1);
    }
}

/// A hand dealt from a well-formed component in two distinct suits falls
/// under that component, and its two cards differ.
pub proof fn lemma_hand_falls_under(component: RangeComponent, suits: (Suit, Suit))
    requires
        component.well_formed(),
        suits.0 != suits.1,
    ensures
        RangeComponent::of_hand(hand_of(component, suits).0, hand_of(component, suits).1)
            == component,
        hand_of(component, suits).0 != hand_of(component, suits).1,
{
}

} // verus!
