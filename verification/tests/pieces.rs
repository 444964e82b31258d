use pokerhandrange::card::{Card, Suit, Value};
use pokerhandrange::components::ComponentSet;
use pokerhandrange::error::RangeError;
use pokerhandrange::internal::RangeComponent;
use pokerhandrange::utils::{
    card_value_from_char, is_plus, is_suited, is_unsuited, next_card_value, suits_from_indices,
    CardValueIterator,
};

fn values_in_order() -> Vec<Value> {
    vec![
        Value::Two,
        Value::Three,
        Value::Four,
        Value::Five,
        Value::Six,
        Value::Seven,
        Value::Eight,
        Value::Nine,
        Value::Ten,
        Value::Jack,
        Value::Queen,
        Value::King,
        Value::Ace,
    ]
}

fn every_component() -> Vec<RangeComponent> {
    let values = values_in_order();
    let mut all = Vec::new();
    for a in values.iter() {
        all.push(RangeComponent::Pair(*a));
        for b in values.iter() {
            all.push(RangeComponent::CardsSuited(*a, *b));
            all.push(RangeComponent::CardsUnsuited(*a, *b));
        }
    }
    all
}

#[test]
fn rank_characters_stand_for_their_values() {
    let values = values_in_order();
    for (at, c) in "23456789TJQKA".chars().enumerate() {
        assert_eq!(card_value_from_char(c), Ok(values[at]));
    }
}

#[test]
fn other_characters_stand_for_no_value() {
    for c in "01tjqka+-sou, X\u{e9}".chars() {
        assert_eq!(card_value_from_char(c), Err(RangeError::InvalidRankChar(c)));
    }
}

#[test]
fn ranks_run_from_two_to_fourteen() {
    let values = values_in_order();
    for (at, value) in values.iter().enumerate() {
        assert_eq!(value.to_rank() as usize, at + 2);
    }
}

#[test]
fn each_value_has_the_next_one_above_it() {
    let values = values_in_order();
    for at in 0..12 {
        assert_eq!(next_card_value(&values[at]), Some(values[at + 1]));
    }
}

#[test]
fn the_ace_has_no_value_above_it() {
    assert_eq!(next_card_value(&Value::Ace), None);
}

#[test]
fn qualifier_characters() {
    assert!(is_plus('+'));
    assert!(!is_plus('-'));
    assert!(!is_plus('s'));
    assert!(is_suited('s'));
    assert!(!is_suited('S'));
    assert!(!is_suited('o'));
    assert!(is_unsuited('o'));
    assert!(is_unsuited('u'));
    assert!(!is_unsuited('s'));
    assert!(!is_unsuited('O'));
    assert!(!is_unsuited('+'));
}

#[test]
fn iterator_walks_from_the_first_value_to_the_last() {
    let mut values = CardValueIterator::new(Value::Nine, Value::Queen);
    assert_eq!(values.next(), Some(Value::Nine));
    assert_eq!(values.next(), Some(Value::Ten));
    assert_eq!(values.next(), Some(Value::Jack));
    assert_eq!(values.next(), Some(Value::Queen));
    assert_eq!(values.next(), None);
    assert_eq!(values.next(), None);
}

#[test]
fn iterator_over_one_value() {
    let mut values = CardValueIterator::new(Value::Five, Value::Five);
    assert_eq!(values.next(), Some(Value::Five));
    assert_eq!(values.next(), None);
}

#[test]
fn iterator_stops_at_the_ace() {
    let mut values = CardValueIterator::new(Value::King, Value::Ace);
    assert_eq!(values.next(), Some(Value::King));
    assert_eq!(values.next(), Some(Value::Ace));
    assert_eq!(values.next(), None);
    assert_eq!(values.next(), None);
    let mut all = CardValueIterator::new(Value::Two, Value::Ace);
    let mut seen = Vec::new();
    while let Some(value) = all.next() {
        seen.push(value);
    }
    assert_eq!(seen, values_in_order());
}

#[test]
fn indices_pick_two_different_suits() {
    let expected = [
        ((0, 0), (Suit::Spades, Suit::Hearts)),
        ((0, 1), (Suit::Spades, Suit::Diamonds)),
        ((0, 2), (Suit::Spades, Suit::Clubs)),
        ((1, 0), (Suit::Hearts, Suit::Spades)),
        ((1, 1), (Suit::Hearts, Suit::Diamonds)),
        ((1, 2), (Suit::Hearts, Suit::Clubs)),
        ((2, 0), (Suit::Diamonds, Suit::Spades)),
        ((2, 1), (Suit::Diamonds, Suit::Hearts)),
        ((2, 2), (Suit::Diamonds, Suit::Clubs)),
        ((3, 0), (Suit::Clubs, Suit::Spades)),
        ((3, 1), (Suit::Clubs, Suit::Hearts)),
        ((3, 2), (Suit::Clubs, Suit::Diamonds)),
    ];
    for ((first, second), suits) in expected {
        assert_eq!(suits_from_indices(first, second), suits);
        assert_ne!(suits.0, suits.1);
    }
}

#[test]
fn component_weights() {
    assert_eq!(RangeComponent::Pair(Value::Ace).combinations(), 6);
    assert_eq!(RangeComponent::CardsSuited(Value::Ace, Value::King).combinations(), 4);
    assert_eq!(RangeComponent::CardsUnsuited(Value::Ace, Value::King).combinations(), 12);
}

#[test]
fn sort_keys_order_as_the_components_do() {
    let all = every_component();
    for a in all.iter() {
        for b in all.iter() {
            assert_eq!(a.sort_key() < b.sort_key(), a < b);
            assert_eq!(a.sort_key() == b.sort_key(), a == b);
        }
    }
    assert_eq!(RangeComponent::Pair(Value::Two).sort_key(), 32);
    assert_eq!(RangeComponent::CardsSuited(Value::Ace, Value::King).sort_key(), 256 + 16 * 14 + 13);
    assert_eq!(
        RangeComponent::CardsUnsuited(Value::Three, Value::Two).sort_key(),
        512 + 16 * 3 + 2
    );
}

#[test]
fn hands_are_classified_whichever_card_comes_first() {
    let ks = Card::new(Value::King, Suit::Spades);
    let kh = Card::new(Value::King, Suit::Hearts);
    let qs = Card::new(Value::Queen, Suit::Spades);
    let qh = Card::new(Value::Queen, Suit::Hearts);
    assert_eq!(RangeComponent::from_hand(&ks, &kh), RangeComponent::Pair(Value::King));
    assert_eq!(RangeComponent::from_hand(&kh, &ks), RangeComponent::Pair(Value::King));
    assert_eq!(
        RangeComponent::from_hand(&ks, &qs),
        RangeComponent::CardsSuited(Value::King, Value::Queen)
    );
    assert_eq!(
        RangeComponent::from_hand(&qs, &ks),
        RangeComponent::CardsSuited(Value::King, Value::Queen)
    );
    assert_eq!(
        RangeComponent::from_hand(&ks, &qh),
        RangeComponent::CardsUnsuited(Value::King, Value::Queen)
    );
    assert_eq!(
        RangeComponent::from_hand(&qh, &ks),
        RangeComponent::CardsUnsuited(Value::King, Value::Queen)
    );
}

#[test]
fn a_set_holds_each_component_once_in_ascending_order() {
    let mut set = ComponentSet::new();
    assert_eq!(set.len(), 0);
    assert!(set.insert(RangeComponent::CardsUnsuited(Value::Ace, Value::King)));
    assert!(set.insert(RangeComponent::Pair(Value::King)));
    assert!(set.insert(RangeComponent::CardsSuited(Value::Ace, Value::King)));
    assert!(set.insert(RangeComponent::Pair(Value::Two)));
    assert!(!set.insert(RangeComponent::Pair(Value::King)));
    assert!(!set.insert(RangeComponent::CardsUnsuited(Value::Ace, Value::King)));
    assert_eq!(set.len(), 4);
    assert_eq!(set.get(0), RangeComponent::Pair(Value::Two));
    assert_eq!(set.get(1), RangeComponent::Pair(Value::King));
    assert_eq!(set.get(2), RangeComponent::CardsSuited(Value::Ace, Value::King));
    assert_eq!(set.get(3), RangeComponent::CardsUnsuited(Value::Ace, Value::King));
    assert!(set.contains(&RangeComponent::Pair(Value::King)));
    assert!(!set.contains(&RangeComponent::Pair(Value::Ace)));
    assert!(!set.contains(&RangeComponent::CardsSuited(Value::King, Value::Ace)));
}

#[test]
fn a_set_takes_every_component_in_any_order() {
    let all = every_component();
    let mut forward = ComponentSet::new();
    for component in all.iter() {
        assert!(forward.insert(*component));
    }
    let mut backward = ComponentSet::new();
    for component in all.iter().rev() {
        assert!(backward.insert(*component));
    }
    assert_eq!(forward.len(), all.len());
    assert_eq!(backward.len(), all.len());
    let mut sorted = all.clone();
    sorted.sort();
    for at in 0..all.len() {
        assert_eq!(forward.get(at), sorted[at]);
        assert_eq!(backward.get(at), sorted[at]);
    }
}

#[test]
fn a_set_takes_in_another_set() {
    let mut one = ComponentSet::new();
    one.insert(RangeComponent::Pair(Value::King));
    one.insert(RangeComponent::Pair(Value::Ace));
    let mut other = ComponentSet::new();
    other.insert(RangeComponent::Pair(Value::Queen));
    other.insert(RangeComponent::Pair(Value::King));
    one.extend(&other);
    assert_eq!(one.len(), 3);
    assert_eq!(one.get(0), RangeComponent::Pair(Value::Queen));
    assert_eq!(one.get(1), RangeComponent::Pair(Value::King));
    assert_eq!(one.get(2), RangeComponent::Pair(Value::Ace));
    assert_eq!(other.len(), 2);
}
