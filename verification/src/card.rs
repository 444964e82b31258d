//! Playing cards as the range logic sees them: a value, a suit, and the
//! numbering of both that the contracts are stated over.

use vstd::prelude::*;

verus! {

/// The four suits. The order is the one in which a suit index picks them.
#[derive(Debug, Eq, PartialEq, Copy, Clone, Ord, PartialOrd, Hash, Structural)]
pub enum Suit {
    Spades,
    Hearts,
    Diamonds,
    Clubs,
}

/// The thirteen card values, from the lowest to the highest.
#[derive(Debug, Eq, PartialEq, Copy, Clone, Ord, PartialOrd, Hash, Structural)]
pub enum Value {
    Two,
    Three,
    Four,
    Five,
    Six,
    Seven,
    Eight,
    Nine,
    Ten,
    Jack,
    Queen,
    King,
    Ace,
}

/// A playing card.
#[derive(Debug, Eq, PartialEq, Copy, Clone, Ord, PartialOrd, Hash, Structural)]
pub struct Card {
    pub value: Value,
    pub suit: Suit,
}

/// The value with the given rank; ranks outside `2..=14` stand for no value
/// and are mapped to the nearest end.
pub open spec fn value_of_rank(rank: int) -> Value {
    if rank <= 2 {
        Value::Two
    } else if rank == 3 {
        Value::Three
    } else if rank == 4 {
        Value::Four
    } else if rank == 5 {
        Value::Five
    } else if rank == 6 {
        Value::Six
    } else if rank == 7 {
        Value::Seven
    } else if rank == 8 {
        Value::Eight
    } else if rank == 9 {
        Value::Nine
    } else if rank == 10 {
        Value::Ten
    } else if rank == 11 {
        Value::Jack
    } else if rank == 12 {
        Value::Queen
    } else if rank == 13 {
        Value::King
    } else {
        Value::Ace
    }
}

impl Value {
    /// The rank of a value: 2 for `Two` up to 14 for `Ace`.
    pub open spec fn rank(self) -> int {
        match self {
            Value::Two => 2,
            Value::Three => 3,
            Value::Four => 4,
            Value::Five => 5,
            Value::Six => 6,
            Value::Seven => 7,
            Value::Eight => 8,
            Value::Nine => 9,
            Value::Ten => 10,
            Value::Jack => 11,
            Value::Queen => 12,
            Value::King => 13,
            Value::Ace => 14,
        }
    }

    /// The rank of a value as a number, by which values are compared.
    pub fn to_rank(self) -> (rank: u8)
        ensures
            rank == self.rank(),
            2 <= rank <= 14,
    {
        match self {
            Value::Two => 2,
            Value::Three => 3,
            Value::Four => 4,
            Value::Five => 5,
            Value::Six => 6,
            Value::Seven => 7,
            Value::Eight => 8,
            Value::Nine => 9,
            Value::Ten => 10,
            Value::Jack => 11,
            Value::Queen => 12,
            Value::King => 13,
            Value::Ace => 14,
        }
    }
}

impl Card {
    /// A card of the given value and suit.
    pub fn new(value: Value, suit: Suit) -> (card: Card)
        ensures
            card == (Card { value, suit }),
    {
        Card { value, suit }
    }
}

/// Ranks and values correspond one to one.
pub proof fn lemma_rank_round_trip()
    ensures
        forall|v: Value| 2 <= #[trigger] v.rank() <= 14 && value_of_rank(v.rank()) == v,
        forall|r: int| 2 <= r <= 14 ==> #[trigger] value_of_rank(r).rank() == r,
{
}

} // verus!
