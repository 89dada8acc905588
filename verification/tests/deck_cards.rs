use blackjack::card::Card;
use blackjack::card::CardSuit;
use blackjack::card::CardValue;
use blackjack::deck::Deck;

fn count_card(cards: &[Card], wanted: &Card) -> usize {
    cards.iter().filter(|c| *c == wanted).count()
}

#[test]
fn new_deck_has_52_remaining_and_none_drawn() {
    let deck = Deck::new();
    assert_eq!(deck.remaining_cards.len(), 52);
    assert_eq!(deck.drawn_cards.len(), 0);
}

#[test]
fn new_deck_holds_every_card_exactly_once() {
    let deck = Deck::new();
    let suits = [CardSuit::Clubs, CardSuit::Hearts, CardSuit::Diamonds, CardSuit::Spades];
    let values = [
        CardValue::Two,
        CardValue::Three,
        CardValue::Four,
        CardValue::Five,
        CardValue::Six,
        CardValue::Seven,
        CardValue::Eight,
        CardValue::Nine,
        CardValue::Ten,
        CardValue::Jack,
        CardValue::Queen,
        CardValue::King,
        CardValue::Ace,
    ];
    for suit in suits {
        for value in values {
            let wanted = Card { suit, value };
            assert_eq!(count_card(&deck.remaining_cards, &wanted), 1);
        }
    }
}

#[test]
fn draws_shrink_remaining_by_one_each_time() {
    let mut deck = Deck::new();
    for expected_before in (1..=52u32).rev() {
        assert_eq!(deck.remaining_cards.len() as u32, expected_before);
        let drawn = deck.draw_card();
        assert!(drawn.is_some());
        assert_eq!(deck.remaining_cards.len() as u32, expected_before - 1);
    }
    assert_eq!(deck.remaining_cards.len(), 0);
    assert_eq!(deck.drawn_cards.len(), 52);
    assert!(deck.draw_card().is_none());
    assert_eq!(deck.remaining_cards.len(), 0);
    assert_eq!(deck.drawn_cards.len(), 52);
}

#[test]
fn draw_takes_the_last_remaining_card() {
    let top = Card { suit: CardSuit::Hearts, value: CardValue::Ace };
    let bottom = Card { suit: CardSuit::Clubs, value: CardValue::Two };
    let mut deck = Deck { remaining_cards: vec![bottom, top], drawn_cards: Vec::new() };
    let drawn = deck.draw_card().unwrap();
    assert_eq!(drawn, top);
    assert_eq!(deck.remaining_cards, vec![bottom]);
    assert_eq!(deck.drawn_cards, vec![top]);
}

#[test]
fn shuffle_keeps_the_same_cards() {
    let reference = Deck::new();
    let mut deck = Deck::new();
    deck.shuffle();
    assert_eq!(deck.remaining_cards.len(), 52);
    assert_eq!(deck.drawn_cards.len(), 0);
    for wanted in &reference.remaining_cards {
        assert_eq!(count_card(&deck.remaining_cards, wanted), 1);
    }
}

#[test]
fn shuffle_leaves_drawn_cards_alone() {
    let mut deck = Deck::new();
    let first = deck.draw_card().unwrap();
    let second = deck.draw_card().unwrap();
    deck.shuffle();
    assert_eq!(deck.drawn_cards, vec![first, second]);
    assert_eq!(deck.remaining_cards.len(), 50);
}
