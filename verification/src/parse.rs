//! The grammar of one token of range notation. The length of a token alone
//! decides how it is read:
//!
//! | length | shape   | meaning                                               |
//! |--------|---------|-------------------------------------------------------|
//! | 2      | `XX`    | the pair at `X`                                       |
//! | 2      | `XY`    | `X` and `Y`, suited and unsuited                      |
//! | 3      | `XX+`   | the pairs from `X` up to the ace                      |
//! | 3      | `XYs`   | `X` and `Y` suited (`o` or `u`: unsuited)             |
//! | 3      | `XY+`   | the higher of `X` and `Y` with every kicker from the  |
//! |        |         | lower one up to just below it, suited and unsuited    |
//! | 4      | `XYs+`  | as `XY+`, suited only (`o` or `u`: unsuited only)     |
//! | 5      | `XX-YY` | the pairs from `X` to `Y`, whichever is higher        |

use vstd::prelude::*;
use crate::card::{lemma_rank_round_trip, value_of_rank, Value};
use crate::components::ComponentSet;
use crate::error::{Failure, RangeError};
use crate::internal::RangeComponent;
use crate::utils::{
    card_value_from_char, is_plus, is_suited, is_unsuited, value_of_char, values_between,
    CardValueIterator,
};

verus! {

/// The higher of two values.
pub open spec fn higher(a: Value, b: Value) -> Value {
    if a.rank() >= b.rank() {
        a
    } else {
        b
    }
}

/// The lower of two values.
pub open spec fn lower(a: Value, b: Value) -> Value {
    if a.rank() >= b.rank() {
        b
    } else {
        a
    }
}

/// The pairs at every value from `low` to `high`, both included.
pub open spec fn pairs_between(low: Value, high: Value) -> Set<RangeComponent> {
    Set::new(
        |c: RangeComponent|
            c matches RangeComponent::Pair(value) && low.rank() <= value.rank() <= high.rank(),
    )
}

/// The hands of `high` with a kicker from `low` up to, and not including,
/// `high` itself, in each suitedness that is asked for.
pub open spec fn kickers_between(low: Value, high: Value, suited: bool, unsuited: bool) -> Set<
    RangeComponent,
> {
    Set::new(
        |c: RangeComponent|
            match c {
                RangeComponent::Pair(_) => false,
                RangeComponent::CardsSuited(top, kicker) => suited && top == high && low.rank()
                    <= kicker.rank() < high.rank(),
                RangeComponent::CardsUnsuited(top, kicker) => unsuited && top == high && low.rank()
                    <= kicker.rank() < high.rank(),
            },
    )
}

/// The values of two rank characters, or the failure that names the first
/// of them that is no rank character.
pub open spec fn values_of_chars(first: char, second: char) -> Result<(Value, Value), Failure> {
    match value_of_char(first) {
        None => Err(Failure::InvalidRankChar(first)),
        Some(a) => match value_of_char(second) {
            None => Err(Failure::InvalidRankChar(second)),
            Some(b) => Ok((a, b)),
        },
    }
}

/// What a token of two characters `XY` stands for: the pair at `X` where the
/// two are equal, else both the suited and the unsuited hand of the two
/// values.
pub open spec fn components_of_2(token: Seq<char>) -> Result<Set<RangeComponent>, Failure> {
    match values_of_chars(token[0], token[1]) {
        Err(failure) => Err(failure),
        Ok((a, b)) => if a == b {
            Ok(set![RangeComponent::Pair(a)])
        } else {
            Ok(
                set![
                    RangeComponent::CardsSuited(higher(a, b), lower(a, b)),
                    RangeComponent::CardsUnsuited(higher(a, b), lower(a, b)),
                ],
            )
        },
    }
}

/// What a token of three characters `XYq` stands for. The qualifier `q` is
/// `+`, `s`, `o` or `u`. With equal values only `+` is in order, and gives
/// the pairs from there up to the ace. With two values, `+` widens the kicker
/// in both suitednesses, and `s`, `o` and `u` name the one hand.
pub open spec fn components_of_3(token: Seq<char>) -> Result<Set<RangeComponent>, Failure> {
    let qualifier = token[2];
    if qualifier != '+' && qualifier != 's' && qualifier != 'o' && qualifier != 'u' {
        Err(Failure::MalformedToken(token))
    } else {
        match values_of_chars(token[0], token[1]) {
            Err(failure) => Err(failure),
            Ok((a, b)) => if a == b {
                if qualifier == '+' {
                    Ok(pairs_between(a, Value::Ace))
                } else {
                    Err(Failure::MalformedToken(token))
                }
            } else if qualifier == '+' {
                Ok(kickers_between(lower(a, b), higher(a, b), true, true))
            } else if qualifier == 's' {
                Ok(set![RangeComponent::CardsSuited(higher(a, b), lower(a, b))])
            } else {
                Ok(set![RangeComponent::CardsUnsuited(higher(a, b), lower(a, b))])
            },
        }
    }
}

/// What a token of four characters `XYq+` stands for: the higher of two
/// different values with every kicker from the lower one up to just below
/// it, in the one suitedness that `q` names (`s`, or `o` or `u`).
pub open spec fn components_of_4(token: Seq<char>) -> Result<Set<RangeComponent>, Failure> {
    let qualifier = token[2];
    if token[3] != '+' {
        Err(Failure::MalformedToken(token))
    } else if qualifier != 's' && qualifier != 'o' && qualifier != 'u' {
        Err(Failure::MalformedToken(token))
    } else if token[0] == token[1] {
        Err(Failure::MalformedToken(token))
    } else {
        match values_of_chars(token[0], token[1]) {
            Err(failure) => Err(failure),
            Ok((a, b)) => Ok(
                kickers_between(lower(a, b), higher(a, b), qualifier == 's', qualifier != 's'),
            ),
        }
    }
}

/// What a token of five characters `XX-YY` stands for: the pairs from the
/// lower of the two values to the higher.
pub open spec fn components_of_5(token: Seq<char>) -> Result<Set<RangeComponent>, Failure> {
    if token[2] != '-' {
        Err(Failure::MalformedToken(token))
    } else if token[0] != token[1] || token[3] != token[4] {
        Err(Failure::MalformedToken(token))
    } else {
        match values_of_chars(token[0], token[3]) {
            Err(failure) => Err(failure),
            Ok((a, b)) => Ok(pairs_between(lower(a, b), higher(a, b))),
        }
    }
}

/// What a token stands for. A token of any other length than 2, 3, 4 or 5
/// is malformed.
pub open spec fn token_components(token: Seq<char>) -> Result<Set<RangeComponent>, Failure> {
    if token.len() == 2 {
        components_of_2(token)
    } else if token.len() == 3 {
        components_of_3(token)
    } else if token.len() == 4 {
        components_of_4(token)
    } else if token.len() == 5 {
        components_of_5(token)
    } else {
        Err(Failure::MalformedToken(token))
    }
}

/// What a parser returned, as a set of components or as a failure.
pub open spec fn outcome(result: Result<ComponentSet, RangeError>) -> Result<
    Set<RangeComponent>,
    Failure,
> {
    match result {
        Ok(components) => Ok(components@),
        Err(error) => Err(error@),
    }
}

/// Computes [`higher`].
pub fn max_value(a: Value, b: Value) -> (value: Value)
    ensures
        value == higher(a, b),
{
    if a.to_rank() >= b.to_rank() {
        a
    } else {
        b
    }
}

/// Computes [`lower`].
pub fn min_value(a: Value, b: Value) -> (value: Value)
    ensures
        value == lower(a, b),
{
    if a.to_rank() >= b.to_rank() {
        b
    } else {
        a
    }
}

/// The first of the values from `low` to `high` is that of `low`, and the
/// rest are the values from one above `low`.
proof fn lemma_values_between_step(low: int, high: int)
    requires
        low <= high,
    ensures
        values_between(low, high).len() == high - low + 1,
        values_between(low, high)[0] == value_of_rank(low),
        values_between(low, high).drop_first() == values_between(low + 1, high),
{
}

/// The pairs at every value from the lesser to the greater.
fn pair_components(value_lesser: Value, value_greater: Value) -> (components: ComponentSet)
    requires
        value_lesser.rank() <= value_greater.rank(),
    ensures
        components@ == pairs_between(value_lesser, value_greater),
{
    let mut components = ComponentSet::new();
    let mut values = CardValueIterator::new(value_lesser, value_greater);
    let ghost mut next: int = value_lesser.rank();
    loop
        invariant
            value_lesser.rank() <= next <= value_greater.rank() + 1,
            values@ == values_between(next, value_greater.rank()),
            forall|c: RangeComponent|
                components@.contains(c) <==> (c matches RangeComponent::Pair(value)
                    && value_lesser.rank() <= value.rank() < next),
        ensures
            components@ == pairs_between(value_lesser, value_greater),
        decreases values@.len(),
    {
        proof {
            lemma_rank_round_trip();
            if next <= value_greater.rank() {
                lemma_values_between_step(next, value_greater.rank());
            }
        }
        match values.next() {
            None => {
                break ;
            },
            Some(value) => {
                components.insert(RangeComponent::Pair(value));
                proof {
                    next = next + 1;
                }
            },
        }
    }
    components
}

/// The hands of the greater value with every kicker from the lesser value up
/// to just below the greater, in each suitedness that is asked for.
fn kicker_components(
    value_lesser: Value,
    value_greater: Value,
    suited: bool,
    unsuited: bool,
) -> (components: ComponentSet)
    requires
        value_lesser.rank() <= value_greater.rank(),
    ensures
        components@ == kickers_between(value_lesser, value_greater, suited, unsuited),
{
    let mut components = ComponentSet::new();
    let mut values = CardValueIterator::new(value_lesser, value_greater);
    let ghost mut next: int = value_lesser.rank();
    loop
        invariant_except_break
            value_lesser.rank() <= next <= value_greater.rank(),
            values@ == values_between(next, value_greater.rank()),
            forall|c: RangeComponent|
                components@.contains(c) <==> (match c {
                    RangeComponent::Pair(_) => false,
                    RangeComponent::CardsSuited(top, kicker) => suited && top == value_greater
                        && value_lesser.rank() <= kicker.rank() < next,
                    RangeComponent::CardsUnsuited(top, kicker) => unsuited && top == value_greater
                        && value_lesser.rank() <= kicker.rank() < next,
                }),
        ensures
            components@ == kickers_between(value_lesser, value_greater, suited, unsuited),
        decreases values@.len(),
    {
        proof {
            lemma_rank_round_trip();
            lemma_values_between_step(next, value_greater.rank());
        }
        match values.next() {
            None => {
                break ;
            },
            Some(val) => {
                if value_greater == val {
                    break ;
                }
                if suited {
                    components.insert(RangeComponent::CardsSuited(value_greater, val));
                }
                if unsuited {
                    components.insert(RangeComponent::CardsUnsuited(value_greater, val));
                }
                proof {
                    next = next + 1;
                }
            },
        }
    }
    components
}

/// Parses a token of five characters, `XX-YY`: a closed range of pairs.
/// Only the first five characters are read.
pub fn parse_5_chars(chars: Vec<char>) -> (result: Result<ComponentSet, RangeError>)
    requires
        chars@.len() >= 5,
    ensures
        outcome(result) == components_of_5(chars@),
{
    if chars[2] != '-' {
        return Err(RangeError::MalformedToken(chars));
    }
    if chars[0] != chars[1] || chars[3] != chars[4] {
        return Err(RangeError::MalformedToken(chars));
    }
    let value_a = match card_value_from_char(chars[0]) {
        Ok(value) => value,
        Err(error) => {
            return Err(error);
        },
    };
    let value_b = match card_value_from_char(chars[3]) {
        Ok(value) => value,
        Err(error) => {
            return Err(error);
        },
    };

    let value_greater = max_value(value_a, value_b);
    let value_lesser = min_value(value_a, value_b);

    Ok(pair_components(value_lesser, value_greater))
}

/// Parses a token of four characters, `XYs+` or `XYo+`: the kicker widened
/// in one suitedness. Only the first four characters are read.
pub fn parse_4_chars(chars: Vec<char>) -> (result: Result<ComponentSet, RangeError>)
    requires
        chars@.len() >= 4,
    ensures
        outcome(result) == components_of_4(chars@),
{
    let suited = is_suited(chars[2]);
    let unsuited = is_unsuited(chars[2]);
    let plus = is_plus(chars[3]);

    if !plus {
        return Err(RangeError::MalformedToken(chars));
    }
    if !suited && !unsuited {
        return Err(RangeError::MalformedToken(chars));
    }
    let first_char = chars[0];
    let second_char = chars[1];

    if first_char == second_char {
        return Err(RangeError::MalformedToken(chars));
    }
    let value_a = match card_value_from_char(first_char) {
        Ok(value) => value,
        Err(error) => {
            return Err(error);
        },
    };
    let value_b = match card_value_from_char(second_char) {
        Ok(value) => value,
        Err(error) => {
            return Err(error);
        },
    };

    let value_greater = max_value(value_a, value_b);
    let value_lesser = min_value(value_a, value_b);

    Ok(kicker_components(value_lesser, value_greater, suited, unsuited))
}

/// Parses a token of three characters: `XX+`, `XY+`, `XYs` or `XYo`. Only
/// the first three characters are read.
pub fn parse_3_chars(chars: Vec<char>) -> (result: Result<ComponentSet, RangeError>)
    requires
        chars@.len() >= 3,
    ensures
        outcome(result) == components_of_3(chars@),
{
    let suited = is_suited(chars[2]);
    let unsuited = is_unsuited(chars[2]);
    let plus = is_plus(chars[2]);

    if !plus && !suited && !unsuited {
        return Err(RangeError::MalformedToken(chars));
    }
    let value_a = match card_value_from_char(chars[0]) {
        Ok(value) => value,
        Err(error) => {
            return Err(error);
        },
    };
    let value_b = match card_value_from_char(chars[1]) {
        Ok(value) => value,
        Err(error) => {
            return Err(error);
        },
    };

    let value_greater = max_value(value_a, value_b);
    let value_lesser = min_value(value_a, value_b);

    if value_greater == value_lesser {
        if !plus {
            return Err(RangeError::MalformedToken(chars));
        }
        Ok(pair_components(value_greater, Value::Ace))
    } else if !plus {
        let mut components = ComponentSet::new();
        if suited {
            components.insert(RangeComponent::CardsSuited(value_greater, value_lesser));
        } else {
            components.insert(RangeComponent::CardsUnsuited(value_greater, value_lesser));
        }
        Ok(components)
    } else {
        Ok(kicker_components(value_lesser, value_greater, true, true))
    }
}

/// Parses a token of two characters: a pair `XX`, or two values `XY` in
/// both suitednesses. Only the first two characters are read.
pub fn parse_2_chars(chars: Vec<char>) -> (result: Result<ComponentSet, RangeError>)
    requires
        chars@.len() >= 2,
    ensures
        outcome(result) == components_of_2(chars@),
{
    let mut components = ComponentSet::new();

    let first_char = chars[0];
    let second_char = chars[1];

    let value_a = match card_value_from_char(first_char) {
        Ok(value) => value,
        Err(error) => {
            return Err(error);
        },
    };
    if first_char == second_char {
        components.insert(RangeComponent::Pair(value_a));
    } else {
        let value_b = match card_value_from_char(second_char) {
            Ok(value) => value,
            Err(error) => {
                return Err(error);
            },
        };

        let value_greater = max_value(value_a, value_b);
        let value_lesser = min_value(value_a, value_b);

        components.insert(RangeComponent::CardsSuited(value_greater, value_lesser));
        components.insert(RangeComponent::CardsUnsuited(value_greater, value_lesser));
    }
    Ok(components)
}

/// Parses one token of range notation, of whatever length.
pub fn parse_token(chars: Vec<char>) -> (result: Result<ComponentSet, RangeError>)
    ensures
        outcome(result) == token_components(chars@),
{
    let length = chars.len();
    if length == 5 {
        parse_5_chars(chars)
    } else if length == 4 {
        parse_4_chars(chars)
    } else if length == 3 {
        parse_3_chars(chars)
    } else if length == 2 {
        parse_2_chars(chars)
    } else {
        Err(RangeError::MalformedToken(chars))
    }
}

/// Every token that is accepted names at least one component, and in each
/// two-card component that it names the higher value comes first.
pub proof fn lemma_token_components_well_formed(token: Seq<char>)
    requires
        token_components(token) is Ok,
    ensures
        exists|c: RangeComponent| token_components(token)->Ok_0.contains(c),
        forall|c: RangeComponent| #[trigger]
            token_components(token)->Ok_0.contains(c) ==> c.well_formed(),
{
    lemma_rank_round_trip();
    let components = token_components(token)->Ok_0;
    // one component that the token names, for each shape
    if token.len() == 5 {
        let (a, b) = values_of_chars(token[0], token[3])->Ok_0;
        assert(components.contains(RangeComponent::Pair(a)));
    } else {
        let (a, b) = values_of_chars(token[0], token[1])->Ok_0;
        if a == b {
            assert(components.contains(RangeComponent::Pair(a)));
        } else if token.len() > 2 && (token[2] == 'o' || token[2] == 'u') {
            assert(components.contains(RangeComponent::CardsUnsuited(higher(a, b), lower(a, b))));
        } else {
            assert(components.contains(RangeComponent::CardsSuited(higher(a, b), lower(a, b))));
        }
    }
}

} // verus!
