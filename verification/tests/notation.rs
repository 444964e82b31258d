use pokerhandrange::card::{Card, Suit, Value};
use pokerhandrange::components::ComponentSet;
use pokerhandrange::error::RangeError;
use pokerhandrange::internal::RangeComponent;
use pokerhandrange::notation::{only_empty_tokens, split_tokens};
use pokerhandrange::parse::{
    max_value, min_value, parse_2_chars, parse_3_chars, parse_4_chars, parse_5_chars, parse_token,
};
use pokerhandrange::{Range, SimpleRange};

fn chars(text: &str) -> Vec<char> {
    text.chars().collect()
}

fn listed(set: &ComponentSet) -> Vec<RangeComponent> {
    let mut all = Vec::new();
    for at in 0..set.len() {
        all.push(set.get(at));
    }
    all
}

fn all_values() -> Vec<Value> {
    vec![
        Value::Two,
        Value::Three,
        Value::Four,
        Value::Five,
        Value::Six,
        Value::Seven,
        Value::Eight,
        Value::Nine,
        Value::Ten,
        Value::Jack,
        Value::Queen,
        Value::King,
        Value::Ace,
    ]
}

fn all_suits() -> Vec<Suit> {
    vec![Suit::Spades, Suit::Hearts, Suit::Diamonds, Suit::Clubs]
}

const RANK_CHARS: &str = "23456789TJQKA";

#[test]
fn two_values_name_both_suitednesses_and_nothing_else() {
    let ranks = chars(RANK_CHARS);
    let values = all_values();
    for (i, x) in ranks.iter().enumerate() {
        for (j, y) in ranks.iter().enumerate() {
            if i == j {
                continue;
            }
            let text: String = vec![*x, *y].into_iter().collect();
            let range = SimpleRange::new_from_string(&text).unwrap();
            assert_eq!(range.get_component_count(), 2);
            for a in values.iter() {
                for b in values.iter() {
                    for s in all_suits() {
                        for t in all_suits() {
                            let first = Card::new(*a, s);
                            let second = Card::new(*b, t);
                            let expected = (*a == values[i] && *b == values[j])
                                || (*a == values[j] && *b == values[i]);
                            assert_eq!(range.contains((&first, &second)), expected);
                        }
                    }
                }
            }
        }
    }
}

#[test]
fn two_chars_give_the_components_in_their_order() {
    let set = parse_2_chars(chars("KA")).unwrap();
    assert_eq!(
        listed(&set),
        vec![
            RangeComponent::CardsSuited(Value::Ace, Value::King),
            RangeComponent::CardsUnsuited(Value::Ace, Value::King),
        ]
    );
    let pair = parse_2_chars(chars("77")).unwrap();
    assert_eq!(listed(&pair), vec![RangeComponent::Pair(Value::Seven)]);
}

#[test]
fn pair_range_covers_the_interval_whichever_side_is_larger() {
    let ranks = chars(RANK_CHARS);
    let values = all_values();
    for i in 0..13 {
        for j in 0..13 {
            let token = vec![ranks[i], ranks[i], '-', ranks[j], ranks[j]];
            let text: String = token.into_iter().collect();
            let range = SimpleRange::new_from_string(&text).unwrap();
            let low = i.min(j);
            let high = i.max(j);
            assert_eq!(range.get_component_count(), high - low + 1);
            for k in 0..13 {
                let first = Card::new(values[k], Suit::Spades);
                let second = Card::new(values[k], Suit::Clubs);
                assert_eq!(range.contains((&first, &second)), low <= k && k <= high);
            }
            let ace = Card::new(Value::Ace, Suit::Spades);
            let king = Card::new(Value::King, Suit::Spades);
            assert_eq!(range.contains((&ace, &king)), false);
        }
    }
}

#[test]
fn pair_range_is_the_same_both_ways_round() {
    let up = parse_5_chars(chars("55-JJ")).unwrap();
    let down = parse_5_chars(chars("JJ-55")).unwrap();
    assert_eq!(listed(&up), listed(&down));
    assert_eq!(
        listed(&up),
        vec![
            RangeComponent::Pair(Value::Five),
            RangeComponent::Pair(Value::Six),
            RangeComponent::Pair(Value::Seven),
            RangeComponent::Pair(Value::Eight),
            RangeComponent::Pair(Value::Nine),
            RangeComponent::Pair(Value::Ten),
            RangeComponent::Pair(Value::Jack),
        ]
    );
    let one = parse_5_chars(chars("AA-AA")).unwrap();
    assert_eq!(listed(&one), vec![RangeComponent::Pair(Value::Ace)]);
}

#[test]
fn text_comes_back_as_it_was_given() {
    for text in ["KK", "AA,AK+,J9s+", "QQ-AA,55-JJ", "KA,AK,AKs", "22+,A2+,K2o+"] {
        let range = SimpleRange::new_from_string(text).unwrap();
        assert_eq!(range.get_range_text(), text);
    }
}

#[test]
fn a_component_named_twice_counts_once() {
    let once = SimpleRange::new_from_string("KK").unwrap();
    let twice = SimpleRange::new_from_string("KK,KK").unwrap();
    assert_eq!(once.get_component_count(), 1);
    assert_eq!(twice.get_component_count(), 1);
    assert_eq!(twice.get_combination_count(), 6);
    let overlapping = SimpleRange::new_from_string("JJ+,QQ-AA,KK,AK,AKs,AKo,AK+").unwrap();
    assert_eq!(overlapping.get_component_count(), 6);
    assert_eq!(overlapping.get_combination_count(), 4 * 6 + 4 + 12);
}

#[test]
fn pairs_upward_start_at_the_named_pair() {
    let range = SimpleRange::new_from_string("JJ+").unwrap();
    assert_eq!(range.get_component_count(), 4);
    let values = all_values();
    for (k, value) in values.iter().enumerate() {
        let first = Card::new(*value, Suit::Diamonds);
        let second = Card::new(*value, Suit::Hearts);
        assert_eq!(range.contains((&first, &second)), k >= 9);
    }
    let set = parse_3_chars(chars("JJ+")).unwrap();
    assert_eq!(
        listed(&set),
        vec![
            RangeComponent::Pair(Value::Jack),
            RangeComponent::Pair(Value::Queen),
            RangeComponent::Pair(Value::King),
            RangeComponent::Pair(Value::Ace),
        ]
    );
    let top = parse_3_chars(chars("AA+")).unwrap();
    assert_eq!(listed(&top), vec![RangeComponent::Pair(Value::Ace)]);
    let all = parse_3_chars(chars("22+")).unwrap();
    assert_eq!(all.len(), 13);
}

#[test]
fn empty_notation_is_an_empty_range() {
    assert_eq!(SimpleRange::new_from_string("").err(), Some(RangeError::EmptyRange));
    assert_eq!(SimpleRange::new_from_string(",").err(), Some(RangeError::EmptyRange));
    assert_eq!(SimpleRange::new_from_string(",,,").err(), Some(RangeError::EmptyRange));
}

#[test]
fn an_empty_token_beside_others_is_malformed() {
    for text in ["AA,", ",AA", "AA,,KK", "AA,,KK,", ",,AA", "AA,KK,"] {
        assert_eq!(
            SimpleRange::new_from_string(text).err(),
            Some(RangeError::MalformedToken(Vec::new())),
            "{:?}",
            text
        );
    }
}

#[test]
fn a_token_refused_before_the_empty_one_decides() {
    assert_eq!(SimpleRange::new_from_string("XY,").err(), Some(RangeError::InvalidRankChar('X')));
    assert_eq!(
        SimpleRange::new_from_string("AKQ,,AA").err(),
        Some(RangeError::MalformedToken(chars("AKQ")))
    );
    assert_eq!(
        SimpleRange::new_from_string("AA,,XY").err(),
        Some(RangeError::MalformedToken(Vec::new()))
    );
}

#[test]
fn a_pair_with_a_suitedness_is_malformed() {
    assert_eq!(
        SimpleRange::new_from_string("JJs+").err(),
        Some(RangeError::MalformedToken(chars("JJs+")))
    );
    assert_eq!(
        SimpleRange::new_from_string("JJs").err(),
        Some(RangeError::MalformedToken(chars("JJs")))
    );
    assert_eq!(
        SimpleRange::new_from_string("JJo").err(),
        Some(RangeError::MalformedToken(chars("JJo")))
    );
    assert_eq!(parse_4_chars(chars("JJu+")).err(), Some(RangeError::MalformedToken(chars("JJu+"))));
}

#[test]
fn unknown_rank_characters_are_named() {
    assert_eq!(SimpleRange::new_from_string("XY").err(), Some(RangeError::InvalidRankChar('X')));
    assert_eq!(SimpleRange::new_from_string("AY").err(), Some(RangeError::InvalidRankChar('Y')));
    assert_eq!(SimpleRange::new_from_string("ak").err(), Some(RangeError::InvalidRankChar('a')));
    assert_eq!(SimpleRange::new_from_string("1Ts").err(), Some(RangeError::InvalidRankChar('1')));
    assert_eq!(SimpleRange::new_from_string("T1s").err(), Some(RangeError::InvalidRankChar('1')));
    assert_eq!(SimpleRange::new_from_string("AZs+").err(), Some(RangeError::InvalidRankChar('Z')));
    assert_eq!(SimpleRange::new_from_string("xx-AA").err(), Some(RangeError::InvalidRankChar('x')));
    assert_eq!(SimpleRange::new_from_string("AA-xx").err(), Some(RangeError::InvalidRankChar('x')));
    assert_eq!(parse_2_chars(chars("XX")).err(), Some(RangeError::InvalidRankChar('X')));
}

#[test]
fn three_chars_without_a_qualifier_are_malformed() {
    assert_eq!(
        SimpleRange::new_from_string("AKQ").err(),
        Some(RangeError::MalformedToken(chars("AKQ")))
    );
    // the qualifier is looked at before the rank characters
    assert_eq!(
        SimpleRange::new_from_string("XYZ").err(),
        Some(RangeError::MalformedToken(chars("XYZ")))
    );
    assert_eq!(parse_3_chars(chars("AK-")).err(), Some(RangeError::MalformedToken(chars("AK-"))));
    assert_eq!(parse_3_chars(chars("AKS")).err(), Some(RangeError::MalformedToken(chars("AKS"))));
}

#[test]
fn other_lengths_are_malformed() {
    assert_eq!(
        SimpleRange::new_from_string("A").err(),
        Some(RangeError::MalformedToken(chars("A")))
    );
    assert_eq!(
        SimpleRange::new_from_string("AKs+ ").err(),
        Some(RangeError::MalformedToken(chars("AKs+ ")))
    );
    assert_eq!(
        SimpleRange::new_from_string("QQ-AA+").err(),
        Some(RangeError::MalformedToken(chars("QQ-AA+")))
    );
    assert_eq!(parse_token(Vec::new()).err(), Some(RangeError::MalformedToken(Vec::new())));
    assert_eq!(parse_token(chars("A")).err(), Some(RangeError::MalformedToken(chars("A"))));
}

#[test]
fn whitespace_is_not_trimmed() {
    assert_eq!(
        SimpleRange::new_from_string("AA, KK").err(),
        Some(RangeError::MalformedToken(chars(" KK")))
    );
    assert_eq!(SimpleRange::new_from_string(" A").err(), Some(RangeError::InvalidRankChar(' ')));
}

#[test]
fn four_chars_need_a_suitedness_and_a_plus() {
    assert_eq!(parse_4_chars(chars("AKss")).err(), Some(RangeError::MalformedToken(chars("AKss"))));
    assert_eq!(parse_4_chars(chars("AK++")).err(), Some(RangeError::MalformedToken(chars("AK++"))));
    assert_eq!(parse_4_chars(chars("AKx+")).err(), Some(RangeError::MalformedToken(chars("AKx+"))));
    // the shape is looked at before the rank characters
    assert_eq!(parse_4_chars(chars("XXs+")).err(), Some(RangeError::MalformedToken(chars("XXs+"))));
    assert_eq!(parse_4_chars(chars("XYs+")).err(), Some(RangeError::InvalidRankChar('X')));
}

#[test]
fn five_chars_need_a_dash_between_two_pairs() {
    assert_eq!(
        parse_5_chars(chars("QQ+AA")).err(),
        Some(RangeError::MalformedToken(chars("QQ+AA")))
    );
    assert_eq!(
        parse_5_chars(chars("QK-AA")).err(),
        Some(RangeError::MalformedToken(chars("QK-AA")))
    );
    assert_eq!(
        parse_5_chars(chars("QQ-AK")).err(),
        Some(RangeError::MalformedToken(chars("QQ-AK")))
    );
    assert_eq!(
        parse_5_chars(chars("Q-QAA")).err(),
        Some(RangeError::MalformedToken(chars("Q-QAA")))
    );
    assert_eq!(parse_5_chars(chars("XX-YY")).err(), Some(RangeError::InvalidRankChar('X')));
}

#[test]
fn the_first_refused_token_decides() {
    assert_eq!(
        SimpleRange::new_from_string("AA,XY,AKQ").err(),
        Some(RangeError::InvalidRankChar('X'))
    );
    assert_eq!(
        SimpleRange::new_from_string("AKQ,XY").err(),
        Some(RangeError::MalformedToken(chars("AKQ")))
    );
    assert_eq!(
        SimpleRange::new_from_string("AA,A,XY").err(),
        Some(RangeError::MalformedToken(chars("A")))
    );
    assert_eq!(
        SimpleRange::new_from_string(",,A,XY").err(),
        Some(RangeError::MalformedToken(Vec::new()))
    );
}

#[test]
fn widened_kicker_stops_below_the_high_card() {
    let set = parse_3_chars(chars("JT+")).unwrap();
    assert_eq!(
        listed(&set),
        vec![
            RangeComponent::CardsSuited(Value::Jack, Value::Ten),
            RangeComponent::CardsUnsuited(Value::Jack, Value::Ten),
        ]
    );
    let range = SimpleRange::new_from_string("JT+").unwrap();
    let jh = Card::new(Value::Jack, Suit::Hearts);
    let js = Card::new(Value::Jack, Suit::Spades);
    let ts = Card::new(Value::Ten, Suit::Spades);
    let qs = Card::new(Value::Queen, Suit::Spades);
    assert_eq!(range.contains((&jh, &js)), false);
    assert_eq!(range.contains((&jh, &ts)), true);
    assert_eq!(range.contains((&js, &ts)), true);
    assert_eq!(range.contains((&js, &qs)), false);
}

#[test]
fn widened_kicker_takes_the_higher_value_as_the_high_card() {
    let written_low_first = parse_3_chars(chars("9J+")).unwrap();
    let written_high_first = parse_3_chars(chars("J9+")).unwrap();
    assert_eq!(listed(&written_low_first), listed(&written_high_first));
    assert_eq!(
        listed(&written_high_first),
        vec![
            RangeComponent::CardsSuited(Value::Jack, Value::Nine),
            RangeComponent::CardsSuited(Value::Jack, Value::Ten),
            RangeComponent::CardsUnsuited(Value::Jack, Value::Nine),
            RangeComponent::CardsUnsuited(Value::Jack, Value::Ten),
        ]
    );
    let ace = parse_3_chars(chars("A2+")).unwrap();
    assert_eq!(ace.len(), 24);
}

#[test]
fn four_chars_widen_in_one_suitedness() {
    let suited = parse_4_chars(chars("Q9s+")).unwrap();
    assert_eq!(
        listed(&suited),
        vec![
            RangeComponent::CardsSuited(Value::Queen, Value::Nine),
            RangeComponent::CardsSuited(Value::Queen, Value::Ten),
            RangeComponent::CardsSuited(Value::Queen, Value::Jack),
        ]
    );
    let unsuited = parse_4_chars(chars("ATo+")).unwrap();
    assert_eq!(
        listed(&unsuited),
        vec![
            RangeComponent::CardsUnsuited(Value::Ace, Value::Ten),
            RangeComponent::CardsUnsuited(Value::Ace, Value::Jack),
            RangeComponent::CardsUnsuited(Value::Ace, Value::Queen),
            RangeComponent::CardsUnsuited(Value::Ace, Value::King),
        ]
    );
    let also_unsuited = parse_4_chars(chars("TAu+")).unwrap();
    assert_eq!(listed(&also_unsuited), listed(&unsuited));
}

#[test]
fn three_chars_name_one_hand() {
    let suited = parse_3_chars(chars("9Js")).unwrap();
    assert_eq!(listed(&suited), vec![RangeComponent::CardsSuited(Value::Jack, Value::Nine)]);
    let unsuited = parse_3_chars(chars("J9o")).unwrap();
    assert_eq!(listed(&unsuited), vec![RangeComponent::CardsUnsuited(Value::Jack, Value::Nine)]);
    let also_unsuited = parse_3_chars(chars("J9u")).unwrap();
    assert_eq!(listed(&also_unsuited), listed(&unsuited));
}

#[test]
fn tokens_are_dispatched_by_length() {
    assert_eq!(
        listed(&parse_token(chars("KK")).unwrap()),
        listed(&parse_2_chars(chars("KK")).unwrap())
    );
    assert_eq!(
        listed(&parse_token(chars("K9+")).unwrap()),
        listed(&parse_3_chars(chars("K9+")).unwrap())
    );
    assert_eq!(
        listed(&parse_token(chars("K9s+")).unwrap()),
        listed(&parse_4_chars(chars("K9s+")).unwrap())
    );
    assert_eq!(
        listed(&parse_token(chars("22-KK")).unwrap()),
        listed(&parse_5_chars(chars("22-KK")).unwrap())
    );
}

#[test]
fn notation_is_split_at_every_comma() {
    assert_eq!(split_tokens(""), vec![chars("")]);
    assert_eq!(split_tokens("AA"), vec![chars("AA")]);
    assert_eq!(split_tokens("AA,AK+,J9s+"), vec![chars("AA"), chars("AK+"), chars("J9s+")]);
    assert_eq!(split_tokens("AA,,KK,"), vec![chars("AA"), chars(""), chars("KK"), chars("")]);
    assert_eq!(split_tokens(","), vec![chars(""), chars("")]);
    assert_eq!(split_tokens("A\u{e9},\u{4e2d}"), vec![chars("A\u{e9}"), chars("\u{4e2d}")]);
}

#[test]
fn the_higher_and_the_lower_value() {
    assert_eq!(max_value(Value::Two, Value::Ace), Value::Ace);
    assert_eq!(max_value(Value::Ace, Value::Two), Value::Ace);
    assert_eq!(min_value(Value::Two, Value::Ace), Value::Two);
    assert_eq!(min_value(Value::Ace, Value::Two), Value::Two);
    assert_eq!(max_value(Value::Nine, Value::Nine), Value::Nine);
    assert_eq!(min_value(Value::Nine, Value::Nine), Value::Nine);
}

#[test]
fn every_range_of_the_whole_deck() {
    let range = SimpleRange::new_from_string("22+,A2+,K2+,Q2+,J2+,T2+,92+,82+,72+,62+,52+,42+,32+")
        .unwrap();
    assert_eq!(range.get_component_count(), 13 + 78 + 78);
    assert_eq!(range.get_combination_count(), 13 * 6 + 78 * 4 + 78 * 12);
    assert_eq!(range.get_combination_count(), 52 * 51 / 2);
}

#[test]
fn only_a_run_of_commas_has_nothing_but_empty_tokens() {
    for text in ["", ",", ",,,"] {
        assert!(only_empty_tokens(&split_tokens(text)), "{:?}", text);
    }
    for text in ["A", "AA,", ",AA", ",,A,,", " ", ", "] {
        assert!(!only_empty_tokens(&split_tokens(text)), "{:?}", text);
    }
}
