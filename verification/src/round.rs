//! The round state machine and the action parser.
//!
//! A round owns the deck and the player's hand. It starts Continuing with
//! an empty hand, and every parsed action drives one transition: Hit draws
//! a card and re-evaluates the hand; Surrender, Stand, DoubleDown and
//! SplitCards all resolve to a loss; Won and Lost are terminal and absorb
//! every further action. Unrecognized input parses to no action, and no
//! action leaves the state untouched.

use vstd::prelude::*;
use vstd::string::StrSliceExecFns;
use crate::card::Card;
use crate::card::CardValue;
use crate::deck::Deck;
use crate::hand::hand_ranks;
use crate::hand::hand_totals;
use crate::hand::has_winning_total;
use crate::hand::hv_ints;
use crate::hand::is_bust;
use crate::hand::calculate_current_hand_value;
use crate::hand::is_hand_too_large;

verus! {

/// The five player actions.
#[derive(Clone, Copy, Debug, PartialEq, Eq, Structural)]
pub enum Action {
    Hit,
    Stand,
    DoubleDown,
    SplitCards,
    Surrender,
}

/// What the round owns while it runs: the deck and the player's hand.
#[derive(Debug)]
pub struct PlayerState {
    pub deck: Deck,
    pub hand: Vec<Card>,
}

/// The round's state: still going, won, or lost. Won and Lost are
/// terminal.
#[derive(Debug)]
pub enum GameState {
    GameWon(PlayerState),
    GameLost(PlayerState),
    Continuing(PlayerState),
}

impl PlayerState {
    /// The ranks of the held cards, in hand order.
    pub fn create_hand_values(&self) -> (r: Vec<CardValue>)
        ensures
            r@ == hand_ranks(self.hand@),
    {
        let mut values: Vec<CardValue> = Vec::new();
        let mut i: usize = 0;
        proof {
            assert(values@ =~= hand_ranks(self.hand@.take(0)));
        }
        while i < self.hand.len()
            invariant
                i <= self.hand.len(),
                values@ == hand_ranks(self.hand@.take(i as int)),
            decreases self.hand.len() - i,
        {
            values.push(self.hand[i].value);
            proof {
                assert(hand_ranks(self.hand@.take(i + 1)) =~= hand_ranks(
                    self.hand@.take(i as int),
                ).push(self.hand@[i as int].value));
            }
            i = i + 1;
        }
        proof {
            assert(self.hand@.take(self.hand@.len() as int) =~= self.hand@);
        }
        values
    }
}

impl GameState {
    /// The player state carried by any variant.
    pub open spec fn spec_player_state(self) -> PlayerState {
        match self {
            GameState::GameWon(p) => p,
            GameState::GameLost(p) => p,
            GameState::Continuing(p) => p,
        }
    }

    /// A fresh round: Continuing, the given deck, an empty hand. The deck
    /// moves into the round and stays owned by it until the round ends.
    pub fn start(deck: Deck) -> (r: GameState)
        ensures
            r is Continuing,
            r.spec_player_state().deck == deck,
            r.spec_player_state().hand@ == Seq::<Card>::empty(),
    {
        let internal_state = PlayerState { deck, hand: Vec::new() };
        GameState::Continuing(internal_state)
    }

    /// The player state, whichever variant holds it.
    pub fn player_state(&self) -> (r: &PlayerState)
        ensures
            *r == self.spec_player_state(),
    {
        match self {
            GameState::GameLost(p) => p,
            GameState::GameWon(p) => p,
            GameState::Continuing(p) => p,
        }
    }
}

/// The hand after a hit: the top remaining card is appended, or the hand
/// stays as it was when the deck is exhausted.
pub open spec fn hit_hand(p: PlayerState) -> Seq<Card> {
    if p.deck.remaining_cards@.len() > 0 {
        p.hand@.push(p.deck.remaining_cards@.last())
    } else {
        p.hand@
    }
}

/// The transition table. Won and Lost absorb every action; from
/// Continuing, Surrender, Stand, DoubleDown and SplitCards lose with the
/// player state untouched, and Hit draws one card and re-evaluates the
/// hand: bust loses, a total of exactly 21 wins, anything else continues.
pub open spec fn spec_transition(action: Action, state: GameState, r: GameState) -> bool {
    &&& (state is GameWon || state is GameLost) ==> r == state
    &&& (state is Continuing ==> {
        let p = state.spec_player_state();
        let q = r.spec_player_state();
        match action {
            Action::Surrender => r is GameLost && q == p,
            Action::Stand => r is GameLost && q == p,
            Action::DoubleDown => r is GameLost && q == p,
            Action::SplitCards => r is GameLost && q == p,
            Action::Hit => {
                let ranks = hand_ranks(hit_hand(p));
                &&& q.hand@ == hit_hand(p)
                &&& q.deck.remaining_cards@ == (if p.deck.remaining_cards@.len() > 0 {
                    p.deck.remaining_cards@.drop_last()
                } else {
                    p.deck.remaining_cards@
                })
                &&& q.deck.drawn_cards@ == (if p.deck.remaining_cards@.len() > 0 {
                    p.deck.drawn_cards@.push(p.deck.remaining_cards@.last())
                } else {
                    p.deck.drawn_cards@
                })
                &&& (r is GameLost <==> is_bust(ranks))
                &&& (r is GameWon <==> !is_bust(ranks) && has_winning_total(ranks))
                &&& (r is Continuing <==> !is_bust(ranks) && !has_winning_total(ranks))
                &&& (p.deck.wf() ==> q.deck.wf())
            },
        }
    })
}

/// One step of the round: applies the action to the state, exactly as the
/// transition table says.
pub fn deal_with_action(action: &Action, state: GameState) -> (r: GameState)
    ensures
        spec_transition(*action, state, r),
{
    match state {
        GameState::GameLost(p) => GameState::GameLost(p),
        GameState::GameWon(p) => GameState::GameWon(p),
        GameState::Continuing(mut player_state) => match action {
            Action::Surrender => GameState::GameLost(player_state),
            Action::Hit => {
                let ghost p_before = player_state;
                let card_opt = player_state.deck.draw_card();
                if let Option::Some(card) = card_opt {
                    player_state.hand.push(card);
                }
                proof {
                    assert(player_state.hand@ == hit_hand(p_before));
                }
                if is_hand_too_large(&player_state.hand) {
                    GameState::GameLost(player_state)
                } else {
                    let card_values_vec = player_state.create_hand_values();
                    let possible_hand_values = calculate_current_hand_value(&card_values_vec);
                    let ghost ranks = hand_ranks(player_state.hand@);
                    let mut found: bool = false;
                    let mut idx: usize = 0;
                    while idx < possible_hand_values.len()
                        invariant
                            idx <= possible_hand_values@.len(),
                            hv_ints(possible_hand_values@) == hand_totals(ranks),
                            !found ==> forall|k: int|
                                0 <= k < idx ==> hand_totals(ranks)[k] != 21,
                            found ==> has_winning_total(ranks),
                        decreases possible_hand_values@.len() - idx,
                    {
                        if possible_hand_values[idx].value == 21 {
                            proof {
                                assert(hand_totals(ranks)[idx as int] == 21);
                            }
                            found = true;
                        }
                        idx = idx + 1;
                    }
                    if found {
                        GameState::GameWon(player_state)
                    } else {
                        proof {
                            assert(!has_winning_total(ranks)) by {
                                if hand_totals(ranks).contains(21) {
                                    let k = choose|k: int|
                                        0 <= k < hand_totals(ranks).len() && hand_totals(ranks)[k]
                                            == 21;
                                }
                            }
                        }
                        GameState::Continuing(player_state)
                    }
                }
            },
            Action::Stand => GameState::GameLost(player_state),
            Action::DoubleDown => GameState::GameLost(player_state),
            Action::SplitCards => GameState::GameLost(player_state),
        },
    }
}

/// One step of the round from a parse result: no action leaves the state
/// exactly as it was.
pub fn apply_parsed_action(action: &Option<Action>, state: GameState) -> (r: GameState)
    ensures
        action is None ==> r == state,
        action matches Some(a) ==> spec_transition(*a, state, r),
{
    match action {
        Option::Some(a) => deal_with_action(a, state),
        Option::None => state,
    }
}

/// Whether the round accepts further actions.
pub fn continue_with_game(game_state: &GameState) -> (r: bool)
    ensures
        r == (*game_state is Continuing),
{
    match game_state {
        GameState::GameWon(_) => false,
        GameState::GameLost(_) => false,
        GameState::Continuing(_) => true,
    }
}

/// The outcome line for a state.
pub fn game_message(game_state: &GameState) -> (r: &'static str)
    ensures
        *game_state is GameWon ==> r@ == "You won"@,
        *game_state is GameLost ==> r@ == "You lost"@,
        *game_state is Continuing ==> r@ == "The game is still going"@,
{
    match game_state {
        GameState::GameWon(_) => "You won",
        GameState::GameLost(_) => "You lost",
        GameState::Continuing(_) => "The game is still going",
    }
}

/// A character with the Unicode `White_Space` property, the set `str::trim`
/// removes at either end.
pub open spec fn is_space_char(c: char) -> bool {
    ||| c == '\u{0009}'
    ||| c == '\u{000A}'
    ||| c == '\u{000B}'
    ||| c == '\u{000C}'
    ||| c == '\u{000D}'
    ||| c == ' '
    ||| c == '\u{0085}'
    ||| c == '\u{00A0}'
    ||| c == '\u{1680}'
    ||| c == '\u{2000}'
    ||| c == '\u{2001}'
    ||| c == '\u{2002}'
    ||| c == '\u{2003}'
    ||| c == '\u{2004}'
    ||| c == '\u{2005}'
    ||| c == '\u{2006}'
    ||| c == '\u{2007}'
    ||| c == '\u{2008}'
    ||| c == '\u{2009}'
    ||| c == '\u{200A}'
    ||| c == '\u{2028}'
    ||| c == '\u{2029}'
    ||| c == '\u{202F}'
    ||| c == '\u{205F}'
    ||| c == '\u{3000}'
}

/// The sequence with its leading whitespace removed.
pub open spec fn trim_start_spec(s: Seq<char>) -> Seq<char>
    decreases s.len(),
{
    if s.len() > 0 && is_space_char(s[0]) {
        trim_start_spec(s.drop_first())
    } else {
        s
    }
}

/// The sequence with its trailing whitespace removed.
pub open spec fn trim_end_spec(s: Seq<char>) -> Seq<char>
    decreases s.len(),
{
    if s.len() > 0 && is_space_char(s.last()) {
        trim_end_spec(s.drop_last())
    } else {
        s
    }
}

/// The sequence with whitespace removed at both ends.
pub open spec fn trim_spec(s: Seq<char>) -> Seq<char> {
    trim_end_spec(trim_start_spec(s))
}

/// Relies on str::trim: returns the slice with leading and trailing
/// characters of the Unicode `White_Space` property removed.
#[verifier::external_body]
fn trim_str(s: &str) -> (r: &str)
    ensures
        r@ == trim_spec(s@),
{
    s.trim()
}

/// Character-for-character equality of two string slices.
fn str_eq_chars(a: &str, b: &str) -> (r: bool)
    ensures
        r == (a@ == b@),
{
    let a_len = a.unicode_len();
    let b_len = b.unicode_len();
    if a_len != b_len {
        return false;
    }
    let mut i: usize = 0;
    while i < a_len
        invariant
            i <= a_len,
            a_len == a@.len(),
            b_len == b@.len(),
            a_len == b_len,
            forall|k: int| 0 <= k < i ==> a@[k] == b@[k],
        decreases a_len - i,
    {
        if a.get_char(i) != b.get_char(i) {
            return false;
        }
        i = i + 1;
    }
    proof {
        assert(a@ =~= b@);
    }
    true
}

/// What a trimmed command means: one of the five literal tokens, or no
/// action at all.
pub open spec fn spec_parse_action(t: Seq<char>) -> Option<Action> {
    if t == "hit"@ {
        Some(Action::Hit)
    } else if t == "stand"@ {
        Some(Action::Stand)
    } else if t == "double-down"@ {
        Some(Action::DoubleDown)
    } else if t == "split"@ {
        Some(Action::SplitCards)
    } else if t == "surrender"@ {
        Some(Action::Surrender)
    } else {
        None
    }
}

/// Parses a raw command line: whitespace is trimmed, then the result must
/// match one of the five tokens exactly; anything else is no action.
pub fn parse_action(raw: &String) -> (r: Option<Action>)
    ensures
        r == spec_parse_action(trim_spec(raw@)),
{
    let trimmed = trim_str(raw.as_str());
    if str_eq_chars(trimmed, "hit") {
        Option::Some(Action::Hit)
    } else if str_eq_chars(trimmed, "stand") {
        Option::Some(Action::Stand)
    } else if str_eq_chars(trimmed, "double-down") {
        Option::Some(Action::DoubleDown)
    } else if str_eq_chars(trimmed, "split") {
        Option::Some(Action::SplitCards)
    } else if str_eq_chars(trimmed, "surrender") {
        Option::Some(Action::Surrender)
    } else {
        Option::None
    }
}

} // verus!
