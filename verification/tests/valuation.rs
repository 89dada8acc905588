use blackjack::card::CardValue;
use blackjack::hand::HandValue;
use blackjack::hand::calculate_current_hand_value;
use blackjack::hand::card_value_to_hand_value;
use blackjack::hand::cartesian_product;
use blackjack::hand::combine_possible_values;
use blackjack::hand::is_hand_too_large;
use blackjack::hand::raw_calculate_current_hand_value;
use blackjack::card::Card;
use blackjack::card::CardSuit;

fn totals_as_sorted_set(values: &[HandValue]) -> Vec<u32> {
    let mut out: Vec<u32> = values.iter().map(|h| h.value).collect();
    out.sort();
    out.dedup();
    out
}

#[test]
fn from_u32_accepts_values_below_21() {
    let hv = HandValue::from_u32(20).unwrap();
    assert_eq!(hv.value, 20);
    let zero = HandValue::from_u32(0).unwrap();
    assert_eq!(zero.value, 0);
}

#[test]
fn from_u32_rejects_21_and_above() {
    assert!(HandValue::from_u32(21).is_none());
    assert!(HandValue::from_u32(100).is_none());
}

#[test]
fn unsafe_from_u32_builds_the_value() {
    assert_eq!(HandValue::unsafe_from_u32(5).value, 5);
}

#[test]
fn combine_keeps_sums_up_to_21() {
    let ten = HandValue::unsafe_from_u32(10);
    let eleven = HandValue::unsafe_from_u32(11);
    let combined = ten.combine_with_separate_value(&eleven).unwrap();
    assert_eq!(combined.value, 21);
}

#[test]
fn combine_drops_sums_above_21() {
    let eleven = HandValue::unsafe_from_u32(11);
    assert!(eleven.combine_with_separate_value(&eleven).is_none());
}

#[test]
fn ace_contributes_one_and_eleven() {
    let values = card_value_to_hand_value(&CardValue::Ace);
    let raw: Vec<u32> = values.iter().map(|h| h.value).collect();
    assert_eq!(raw, vec![1, 11]);
}

#[test]
fn face_cards_contribute_ten() {
    for v in [CardValue::Ten, CardValue::Jack, CardValue::Queen, CardValue::King] {
        let values = card_value_to_hand_value(&v);
        let raw: Vec<u32> = values.iter().map(|h| h.value).collect();
        assert_eq!(raw, vec![10]);
    }
}

#[test]
fn number_cards_contribute_their_number() {
    let values = card_value_to_hand_value(&CardValue::Seven);
    let raw: Vec<u32> = values.iter().map(|h| h.value).collect();
    assert_eq!(raw, vec![7]);
}

#[test]
fn single_ace_totals_one_and_eleven() {
    let totals = calculate_current_hand_value(&vec![CardValue::Ace]);
    assert_eq!(totals_as_sorted_set(&totals), vec![1, 11]);
}

#[test]
fn two_aces_total_two_and_twelve() {
    let totals = calculate_current_hand_value(&vec![CardValue::Ace, CardValue::Ace]);
    assert_eq!(totals_as_sorted_set(&totals), vec![2, 12]);
}

#[test]
fn king_and_queen_total_twenty() {
    let totals = calculate_current_hand_value(&vec![CardValue::King, CardValue::Queen]);
    assert_eq!(totals_as_sorted_set(&totals), vec![20]);
}

#[test]
fn king_queen_two_is_a_bust() {
    let totals =
        calculate_current_hand_value(&vec![CardValue::King, CardValue::Queen, CardValue::Two]);
    assert!(totals.is_empty());
}

#[test]
fn ace_and_king_total_eleven_and_twenty_one() {
    let totals = calculate_current_hand_value(&vec![CardValue::Ace, CardValue::King]);
    assert_eq!(totals_as_sorted_set(&totals), vec![11, 21]);
}

#[test]
fn empty_hand_totals_zero() {
    let totals = calculate_current_hand_value(&Vec::new());
    assert_eq!(totals_as_sorted_set(&totals), vec![0]);
}

#[test]
fn combine_possible_values_caps_at_21() {
    let left = vec![HandValue::unsafe_from_u32(10), HandValue::unsafe_from_u32(20)];
    let right = vec![HandValue::unsafe_from_u32(1), HandValue::unsafe_from_u32(11)];
    let combined = combine_possible_values(&left, &right);
    let raw: Vec<u32> = combined.iter().map(|h| h.value).collect();
    assert_eq!(raw, vec![11, 21, 21]);
}

#[test]
fn raw_totals_keep_busted_sums() {
    let raw = raw_calculate_current_hand_value(&vec![CardValue::Ace, CardValue::Ace]);
    assert_eq!(raw, vec![2, 12, 12, 22]);
}

#[test]
fn raw_totals_of_empty_hand_is_zero() {
    let raw = raw_calculate_current_hand_value(&Vec::new());
    assert_eq!(raw, vec![0]);
}

#[test]
fn cartesian_product_pairs_in_order() {
    let xs = vec![1u32, 2];
    let ys = vec!['a', 'b'];
    let pairs = cartesian_product(&xs, &ys);
    let flat: Vec<(u32, char)> = pairs.iter().map(|p| (*p.0, *p.1)).collect();
    assert_eq!(flat, vec![(1, 'a'), (1, 'b'), (2, 'a'), (2, 'b')]);
}

#[test]
fn empty_hand_is_never_too_large() {
    assert!(!is_hand_too_large(&Vec::new()));
}

#[test]
fn twenty_total_is_not_too_large() {
    let hand = vec![
        Card { suit: CardSuit::Clubs, value: CardValue::King },
        Card { suit: CardSuit::Hearts, value: CardValue::Queen },
    ];
    assert!(!is_hand_too_large(&hand));
}

#[test]
fn bust_hand_is_too_large() {
    let hand = vec![
        Card { suit: CardSuit::Clubs, value: CardValue::King },
        Card { suit: CardSuit::Hearts, value: CardValue::Queen },
        Card { suit: CardSuit::Spades, value: CardValue::Two },
    ];
    assert!(is_hand_too_large(&hand));
}

#[test]
fn bust_stays_bust_as_cards_arrive() {
    let mut hand = vec![
        Card { suit: CardSuit::Clubs, value: CardValue::King },
        Card { suit: CardSuit::Hearts, value: CardValue::Queen },
        Card { suit: CardSuit::Spades, value: CardValue::Two },
    ];
    assert!(is_hand_too_large(&hand));
    hand.push(Card { suit: CardSuit::Diamonds, value: CardValue::Ace });
    assert!(is_hand_too_large(&hand));
    hand.push(Card { suit: CardSuit::Diamonds, value: CardValue::King });
    assert!(is_hand_too_large(&hand));
}
