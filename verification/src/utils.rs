//! The characters of the notation, the walk over card values, and the two
//! random suits of a drawn hand.

use rand::{Rng, ThreadRng};
use vstd::prelude::*;
use crate::card::{lemma_rank_round_trip, value_of_rank, Suit, Value};
use crate::error::{Failure, RangeError};

verus! {

/// The value that a rank character of the notation stands for; the
/// characters are `2` to `9`, `T`, `J`, `Q`, `K` and `A`, in upper case only.
pub open spec fn value_of_char(c: char) -> Option<Value> {
    if c == '2' {
        Some(Value::Two)
    } else if c == '3' {
        Some(Value::Three)
    } else if c == '4' {
        Some(Value::Four)
    } else if c == '5' {
        Some(Value::Five)
    } else if c == '6' {
        Some(Value::Six)
    } else if c == '7' {
        Some(Value::Seven)
    } else if c == '8' {
        Some(Value::Eight)
    } else if c == '9' {
        Some(Value::Nine)
    } else if c == 'T' {
        Some(Value::Ten)
    } else if c == 'J' {
        Some(Value::Jack)
    } else if c == 'Q' {
        Some(Value::Queen)
    } else if c == 'K' {
        Some(Value::King)
    } else if c == 'A' {
        Some(Value::Ace)
    } else {
        None
    }
}

/// The value one above the given one; `Ace` has none.
pub open spec fn successor(value: Value) -> Option<Value> {
    if value.rank() < 14 {
        Some(value_of_rank(value.rank() + 1))
    } else {
        None
    }
}

/// The values of the ranks from `low` to `high`, both included, in rising
/// order; none where `low` is above `high`.
pub open spec fn values_between(low: int, high: int) -> Seq<Value> {
    if low <= high {
        Seq::new((high - low + 1) as nat, |i: int| value_of_rank(low + i))
    } else {
        Seq::empty()
    }
}

/// The suit that an index from 0 to 3 picks.
pub open spec fn suit_at(index: int) -> Suit {
    if index == 0 {
        Suit::Spades
    } else if index == 1 {
        Suit::Hearts
    } else if index == 2 {
        Suit::Diamonds
    } else {
        Suit::Clubs
    }
}

/// The two suits that a first index out of four and a second index out of
/// three pick: the second index counts the suits that are left once the
/// first is taken, so it steps over the first one's place.
pub open spec fn suits_of_indices(first: int, second: int) -> (Suit, Suit) {
    (suit_at(first), suit_at(if second >= first { second + 1 } else { second }))
}

/// Walks the card values from a first value up to a last one, both included.
pub struct CardValueIterator {
    current: Value,
    maximal: Value,
    finished_flag: bool,
}

impl View for CardValueIterator {
    type V = Seq<Value>;

    /// The values that are still to come, in the order in which they come.
    closed spec fn view(&self) -> Seq<Value> {
        if self.finished_flag {
            Seq::empty()
        } else {
            values_between(self.current.rank(), self.maximal.rank())
        }
    }
}

impl CardValueIterator {
    #[verifier::type_invariant]
    spec fn within_bounds(&self) -> bool {
        self.finished_flag || self.current.rank() <= self.maximal.rank()
    }

    /// An iterator that goes from the first value to the second value
    /// inclusive.
    pub fn new(value_lesser: Value, value_greater: Value) -> (iterator: CardValueIterator)
        requires
            value_lesser.rank() <= value_greater.rank(),
        ensures
            iterator@ == values_between(value_lesser.rank(), value_greater.rank()),
    {
        CardValueIterator { current: value_lesser, maximal: value_greater, finished_flag: false }
    }

    /// Hands out the next value, or `None` once the last one has been
    /// handed out.
    pub fn next(&mut self) -> (value: Option<Value>)
        ensures
            match value {
                Some(v) => old(self)@.len() > 0 && v == old(self)@[0] && final(self)@ == old(
                    self,
                )@.drop_first(),
                None => old(self)@.len() == 0 && final(self)@.len() == 0,
            },
    {
        proof {
            use_type_invariant(&*self);
            lemma_rank_round_trip();
        }
        if self.finished_flag {
            return None;
        }
        if self.current == self.maximal {
            self.finished_flag = true;
        }
        let returning = self.current;
        match next_card_value(&self.current) {
            Some(x) => {
                self.current = x;
            },
            None => {
                self.finished_flag = true;
            },
        }
        Some(returning)
    }
}

/// The value of a rank character, or the error that names the character.
pub fn card_value_from_char(c: char) -> (value: Result<Value, RangeError>)
    ensures
        match value {
            Ok(v) => value_of_char(c) == Some(v),
            Err(e) => value_of_char(c) is None && e@ == Failure::InvalidRankChar(c),
        },
{
    match c {
        '2' => Ok(Value::Two),
        '3' => Ok(Value::Three),
        '4' => Ok(Value::Four),
        '5' => Ok(Value::Five),
        '6' => Ok(Value::Six),
        '7' => Ok(Value::Seven),
        '8' => Ok(Value::Eight),
        '9' => Ok(Value::Nine),
        'T' => Ok(Value::Ten),
        'J' => Ok(Value::Jack),
        'Q' => Ok(Value::Queen),
        'K' => Ok(Value::King),
        'A' => Ok(Value::Ace),
        _ => Err(RangeError::InvalidRankChar(c)),
    }
}

/// The value one above the given one, or `None` above `Ace`.
pub fn next_card_value(cv: &Value) -> (next: Option<Value>)
    ensures
        next == successor(*cv),
{
    match *cv {
        Value::Two => Some(Value::Three),
        Value::Three => Some(Value::Four),
        Value::Four => Some(Value::Five),
        Value::Five => Some(Value::Six),
        Value::Six => Some(Value::Seven),
        Value::Seven => Some(Value::Eight),
        Value::Eight => Some(Value::Nine),
        Value::Nine => Some(Value::Ten),
        Value::Ten => Some(Value::Jack),
        Value::Jack => Some(Value::Queen),
        Value::Queen => Some(Value::King),
        Value::King => Some(Value::Ace),
        _ => None,
    }
}

/// Whether the character asks for the open-ended extension upwards.
pub fn is_plus(c: char) -> (plus: bool)
    ensures
        plus == (c == '+'),
{
    c == '+'
}

/// Whether the character is the qualifier of suited hands.
pub fn is_suited(c: char) -> (suited: bool)
    ensures
        suited == (c == 's'),
{
    c == 's'
}

/// Whether the character is a qualifier of unsuited hands: `o` or `u`.
pub fn is_unsuited(c: char) -> (unsuited: bool)
    ensures
        unsuited == (c == 'o' || c == 'u'),
{
    c == 'o' || c == 'u'
}

/// `rand::ThreadRng`, the handle to the random number generator of a thread.
/// It is carried to the calls that draw from it; nothing is known of what it
/// holds.
#[verifier::external_type_specification]
#[verifier::external_body]
pub struct ExThreadRng(ThreadRng);

/// `rand::thread_rng`: the random number generator of the calling thread.
/// Nothing is claimed of it. It panics where the operating system gives no
/// entropy at all.
#[verifier::external_body]
pub(crate) fn thread_generator() -> (rng: ThreadRng) {
    rand::thread_rng()
}

/// `Rng::gen_range` of the thread's generator, on `usize`: a number from `low`
/// up to, and not including, `high`. Which number comes is left open; that it
/// lies in these bounds is all that is claimed. `gen_range` panics unless
/// `low` is below `high`.
#[verifier::external_body]
pub(crate) fn random_in_range(rng: &mut ThreadRng, low: usize, high: usize) -> (n: usize)
    requires
        low < high,
    ensures
        low <= n < high,
{
    rng.gen_range(low, high)
}

/// The two distinct suits that two indices pick, the first out of four
/// suits and the second out of the three that are left.
pub fn suits_from_indices(first: usize, second: usize) -> (suits: (Suit, Suit))
    requires
        first < 4,
        second < 3,
    ensures
        suits == suits_of_indices(first as int, second as int),
        suits.0 != suits.1,
{
    let suits = [Suit::Spades, Suit::Hearts, Suit::Diamonds, Suit::Clubs];
    let suit1 = suits[first];
    let suit2 = if second >= first {
        suits[second + 1]
    } else {
        suits[second]
    };
    (suit1, suit2)
}

/// Generates two distinct suits: a random index picks the first out of the
/// four, and a second random index picks out of the three that are left, so
/// that no draw has to be repeated.
pub fn gen_random_suits(rng: &mut ThreadRng) -> (suits: (Suit, Suit))
    ensures
        suits.0 != suits.1,
        exists|first: int, second: int|
            0 <= first < 4 && 0 <= second < 3 && suits == #[trigger] suits_of_indices(
                first,
                second,
            ),
{
    let n1 = random_in_range(rng, 0, 4);
    let n2 = random_in_range(rng, 0, 3);
    suits_from_indices(n1, n2)
}

} // verus!
