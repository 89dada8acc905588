use blackjack::card::Card;
use blackjack::card::CardSuit;
use blackjack::card::CardValue;
use blackjack::deck::Deck;
use blackjack::round::Action;
use blackjack::round::GameState;
use blackjack::round::PlayerState;
use blackjack::round::apply_parsed_action;
use blackjack::round::continue_with_game;
use blackjack::round::deal_with_action;
use blackjack::round::game_message;
use blackjack::round::parse_action;

fn card(suit: CardSuit, value: CardValue) -> Card {
    Card { suit, value }
}

fn stacked_state(remaining: Vec<Card>) -> GameState {
    let deck = Deck { remaining_cards: remaining, drawn_cards: Vec::new() };
    GameState::Continuing(PlayerState { deck, hand: Vec::new() })
}

#[test]
fn start_is_continuing_with_empty_hand() {
    let state = GameState::start(Deck::new());
    assert!(matches!(state, GameState::Continuing(_)));
    assert!(state.player_state().hand.is_empty());
    assert_eq!(state.player_state().deck.remaining_cards.len(), 52);
}

#[test]
fn surrender_loses_without_a_draw() {
    let state = stacked_state(vec![card(CardSuit::Clubs, CardValue::King)]);
    let after = deal_with_action(&Action::Surrender, state);
    assert!(matches!(after, GameState::GameLost(_)));
    assert!(after.player_state().hand.is_empty());
    assert_eq!(after.player_state().deck.remaining_cards.len(), 1);
}

#[test]
fn stand_double_down_and_split_lose() {
    for action in [Action::Stand, Action::DoubleDown, Action::SplitCards] {
        let state = stacked_state(vec![card(CardSuit::Clubs, CardValue::King)]);
        let after = deal_with_action(&action, state);
        assert!(matches!(after, GameState::GameLost(_)));
        assert!(after.player_state().hand.is_empty());
        assert_eq!(after.player_state().deck.remaining_cards.len(), 1);
    }
}

#[test]
fn won_and_lost_absorb_every_action() {
    let all_actions =
        [Action::Hit, Action::Stand, Action::DoubleDown, Action::SplitCards, Action::Surrender];
    for action in all_actions {
        let won = GameState::GameWon(PlayerState {
            deck: Deck::new(),
            hand: vec![card(CardSuit::Hearts, CardValue::Ace)],
        });
        let after = deal_with_action(&action, won);
        assert!(matches!(after, GameState::GameWon(_)));
        assert_eq!(after.player_state().hand, vec![card(CardSuit::Hearts, CardValue::Ace)]);
        assert_eq!(after.player_state().deck.remaining_cards.len(), 52);
    }
    for action in all_actions {
        let lost = GameState::GameLost(PlayerState { deck: Deck::new(), hand: Vec::new() });
        let after = deal_with_action(&action, lost);
        assert!(matches!(after, GameState::GameLost(_)));
        assert!(after.player_state().hand.is_empty());
    }
}

#[test]
fn hit_to_ten_then_ace_wins() {
    // The deck draws from the back: the King comes first, then the Ace.
    let state = stacked_state(vec![
        card(CardSuit::Spades, CardValue::Ace),
        card(CardSuit::Clubs, CardValue::King),
    ]);
    let after_first = deal_with_action(&Action::Hit, state);
    assert!(matches!(after_first, GameState::Continuing(_)));
    assert_eq!(after_first.player_state().hand.len(), 1);
    let after_second = deal_with_action(&Action::Hit, after_first);
    assert!(matches!(after_second, GameState::GameWon(_)));
    assert_eq!(after_second.player_state().hand.len(), 2);
}

#[test]
fn hit_king_queen_two_busts_and_loses() {
    let state = stacked_state(vec![
        card(CardSuit::Clubs, CardValue::Two),
        card(CardSuit::Clubs, CardValue::Queen),
        card(CardSuit::Clubs, CardValue::King),
    ]);
    let after_king = deal_with_action(&Action::Hit, state);
    assert!(matches!(after_king, GameState::Continuing(_)));
    let after_queen = deal_with_action(&Action::Hit, after_king);
    assert!(matches!(after_queen, GameState::Continuing(_)));
    let after_two = deal_with_action(&Action::Hit, after_queen);
    assert!(matches!(after_two, GameState::GameLost(_)));
    assert_eq!(after_two.player_state().hand.len(), 3);
}

#[test]
fn hit_on_an_empty_deck_re_evaluates_the_hand() {
    let state = stacked_state(Vec::new());
    let after = deal_with_action(&Action::Hit, state);
    assert!(matches!(after, GameState::Continuing(_)));
    assert!(after.player_state().hand.is_empty());
}

#[test]
fn unknown_action_leaves_the_state_alone() {
    let parsed = parse_action(&String::from("fold"));
    assert!(parsed.is_none());
    let state = stacked_state(vec![card(CardSuit::Clubs, CardValue::King)]);
    let after = apply_parsed_action(&parsed, state);
    assert!(matches!(after, GameState::Continuing(_)));
    assert!(after.player_state().hand.is_empty());
    assert_eq!(after.player_state().deck.remaining_cards.len(), 1);
}

#[test]
fn continue_with_game_only_on_continuing() {
    let continuing = stacked_state(Vec::new());
    assert!(continue_with_game(&continuing));
    let won = GameState::GameWon(PlayerState { deck: Deck::new(), hand: Vec::new() });
    assert!(!continue_with_game(&won));
    let lost = GameState::GameLost(PlayerState { deck: Deck::new(), hand: Vec::new() });
    assert!(!continue_with_game(&lost));
}

#[test]
fn game_message_names_the_outcome() {
    let won = GameState::GameWon(PlayerState { deck: Deck::new(), hand: Vec::new() });
    assert_eq!(game_message(&won), "You won");
    let lost = GameState::GameLost(PlayerState { deck: Deck::new(), hand: Vec::new() });
    assert_eq!(game_message(&lost), "You lost");
    let continuing = stacked_state(Vec::new());
    assert_eq!(game_message(&continuing), "The game is still going");
}

#[test]
fn create_hand_values_lists_ranks_in_order() {
    let player = PlayerState {
        deck: Deck::new(),
        hand: vec![
            card(CardSuit::Clubs, CardValue::King),
            card(CardSuit::Hearts, CardValue::Ace),
        ],
    };
    assert_eq!(player.create_hand_values(), vec![CardValue::King, CardValue::Ace]);
}

#[test]
fn hitting_a_fresh_deck_reaches_a_terminal_state() {
    let mut state = GameState::start(Deck::new());
    let mut guard: u32 = 0;
    while continue_with_game(&state) && guard < 60 {
        state = deal_with_action(&Action::Hit, state);
        guard += 1;
    }
    assert!(!continue_with_game(&state));
    assert!(!state.player_state().hand.is_empty());
}

#[test]
fn hitting_a_shuffled_deck_reaches_a_terminal_state() {
    let mut deck = Deck::new();
    deck.shuffle();
    let mut state = GameState::start(deck);
    let mut guard: u32 = 0;
    while continue_with_game(&state) && guard < 60 {
        state = deal_with_action(&Action::Hit, state);
        guard += 1;
    }
    assert!(!continue_with_game(&state));
    let held = state.player_state().hand.len();
    let left = state.player_state().deck.remaining_cards.len();
    let gone = state.player_state().deck.drawn_cards.len();
    assert_eq!(held, gone);
    assert_eq!(left + gone, 52);
}
