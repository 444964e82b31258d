//! The atomic unit of a range.

use vstd::prelude::*;
use crate::card::{lemma_rank_round_trip, Card, Value};

verus! {

/// One kind of two-card hand at given values. In the two-card forms the
/// higher value comes first.
#[derive(Debug, Eq, PartialEq, Copy, Clone, Ord, PartialOrd, Hash, Structural)]
pub enum RangeComponent {
    /// Both cards have this value.
    Pair(Value),
    /// Two values in one suit, such as AJs.
    CardsSuited(Value, Value),
    /// Two values in two suits, such as AQo.
    CardsUnsuited(Value, Value),
}

impl RangeComponent {
    /// The two values of a two-card form differ, and the higher comes first.
    pub open spec fn well_formed(self) -> bool {
        match self {
            RangeComponent::Pair(_) => true,
            RangeComponent::CardsSuited(high, low) => high.rank() > low.rank(),
            RangeComponent::CardsUnsuited(high, low) => high.rank() > low.rank(),
        }
    }

    /// The number of card combinations that make up the component: a pair
    /// takes 2 of 4 suits, a suited hand one of 4 suits, an unsuited hand
    /// one of 4 suits and then one of the 3 others.
    pub open spec fn weight(self) -> nat {
        match self {
            RangeComponent::Pair(_) => 6,
            RangeComponent::CardsSuited(_, _) => 4,
            RangeComponent::CardsUnsuited(_, _) => 12,
        }
    }

    /// The number by which components are ordered: pairs first, then suited
    /// hands, then unsuited hands, each by its values.
    pub open spec fn order_key(self) -> int {
        match self {
            RangeComponent::Pair(value) => 16 * value.rank(),
            RangeComponent::CardsSuited(high, low) => 256 + 16 * high.rank() + low.rank(),
            RangeComponent::CardsUnsuited(high, low) => 512 + 16 * high.rank() + low.rank(),
        }
    }

    /// The component that a hand of these two cards falls under, whichever
    /// card comes first: equal values make a pair, else equal suits make a
    /// suited hand, else the hand is unsuited.
    pub open spec fn of_hand(first: Card, second: Card) -> RangeComponent {
        let high = if first.value.rank() >= second.value.rank() {
            first.value
        } else {
            second.value
        };
        let low = if first.value.rank() >= second.value.rank() {
            second.value
        } else {
            first.value
        };
        if first.value == second.value {
            RangeComponent::Pair(high)
        } else if first.suit == second.suit {
            RangeComponent::CardsSuited(high, low)
        } else {
            RangeComponent::CardsUnsuited(high, low)
        }
    }

    /// Computes [`Self::weight`].
    pub fn combinations(&self) -> (count: usize)
        ensures
            count == self.weight(),
    {
        match self {
            RangeComponent::Pair(_) => 6,
            RangeComponent::CardsSuited(_, _) => 4,
            RangeComponent::CardsUnsuited(_, _) => 12,
        }
    }

    /// Computes [`Self::order_key`].
    pub fn sort_key(&self) -> (key: u16)
        ensures
            key == self.order_key(),
    {
        match self {
            RangeComponent::Pair(value) => 16 * (value.to_rank() as u16),
            RangeComponent::CardsSuited(high, low) => {
                256 + 16 * (high.to_rank() as u16) + (low.to_rank() as u16)
            },
            RangeComponent::CardsUnsuited(high, low) => {
                512 + 16 * (high.to_rank() as u16) + (low.to_rank() as u16)
            },
        }
    }

    /// Classifies a hand: computes [`Self::of_hand`].
    pub fn from_hand(first: &Card, second: &Card) -> (component: RangeComponent)
        ensures
            component == Self::of_hand(*first, *second),
            component.well_formed(),
    {
        proof {
            lemma_rank_round_trip();
        }
        let first_is_high = first.value.to_rank() >= second.value.to_rank();
        let high = if first_is_high { first.value } else { second.value };
        let low = if first_is_high { second.value } else { first.value };
        if first.value == second.value {
            RangeComponent::Pair(high)
        } else if first.suit == second.suit {
            RangeComponent::CardsSuited(high, low)
        } else {
            RangeComponent::CardsUnsuited(high, low)
        }
    }
}

/// Components with one order key are one component.
pub proof fn lemma_order_key_injective(a: RangeComponent, b: RangeComponent)
    requires
        a.order_key() == b.order_key(),
    ensures
        a == b,
{
    lemma_rank_round_trip();
}

} // verus!
