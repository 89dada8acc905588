//! The card model: suits, ranks, and the 52 suit/rank pairs.

use vstd::prelude::*;

verus! {

/// One of the four suits. Suits carry no ordering semantics; they only make
/// the 52 cards distinct.
#[derive(Clone, Copy, Debug, PartialEq, Eq, Structural)]
pub enum CardSuit {
    Clubs,
    Hearts,
    Diamonds,
    Spades,
}

/// One of the thirteen ranks. Ten, Jack, Queen and King all count 10;
/// Ace counts either 1 or 11.
#[derive(Clone, Copy, Debug, PartialEq, Eq, Structural)]
pub enum CardValue {
    Two,
    Three,
    Four,
    Five,
    Six,
    Seven,
    Eight,
    Nine,
    Ten,
    Jack,
    Queen,
    King,
    Ace,
}

/// An immutable suit/rank pair. A fresh deck holds each of the 52 distinct
/// pairs exactly once.
#[derive(Clone, Copy, Debug, PartialEq, Eq, Structural)]
pub struct Card {
    pub suit: CardSuit,
    pub value: CardValue,
}

/// The possible numeric contributions of a rank, in the order the engine
/// enumerates them: a singleton for every rank but Ace, and [1, 11] for Ace.
pub open spec fn card_values(v: CardValue) -> Seq<int> {
    match v {
        CardValue::Two => seq![2],
        CardValue::Three => seq![3],
        CardValue::Four => seq![4],
        CardValue::Five => seq![5],
        CardValue::Six => seq![6],
        CardValue::Seven => seq![7],
        CardValue::Eight => seq![8],
        CardValue::Nine => seq![9],
        CardValue::Ten => seq![10],
        CardValue::Jack => seq![10],
        CardValue::Queen => seq![10],
        CardValue::King => seq![10],
        CardValue::Ace => seq![1, 11],
    }
}

/// Every contribution of every rank lies in [1, 11].
pub proof fn lemma_card_values_bounds(v: CardValue)
    ensures
        card_values(v).len() >= 1,
        forall|i: int| 0 <= i < card_values(v).len() ==> 1 <= #[trigger] card_values(v)[i] <= 11,
{
}

/// The suit at a position in the fixed suit enumeration.
pub open spec fn suit_at(i: int) -> CardSuit {
    if i == 0 {
        CardSuit::Clubs
    } else if i == 1 {
        CardSuit::Hearts
    } else if i == 2 {
        CardSuit::Diamonds
    } else {
        CardSuit::Spades
    }
}

/// The rank at a position in the fixed rank enumeration.
pub open spec fn value_at(j: int) -> CardValue {
    if j == 0 {
        CardValue::Two
    } else if j == 1 {
        CardValue::Three
    } else if j == 2 {
        CardValue::Four
    } else if j == 3 {
        CardValue::Five
    } else if j == 4 {
        CardValue::Six
    } else if j == 5 {
        CardValue::Seven
    } else if j == 6 {
        CardValue::Eight
    } else if j == 7 {
        CardValue::Nine
    } else if j == 8 {
        CardValue::Ten
    } else if j == 9 {
        CardValue::Jack
    } else if j == 10 {
        CardValue::Queen
    } else if j == 11 {
        CardValue::King
    } else {
        CardValue::Ace
    }
}

/// The position of a suit in the fixed suit enumeration.
pub open spec fn suit_index(s: CardSuit) -> int {
    match s {
        CardSuit::Clubs => 0,
        CardSuit::Hearts => 1,
        CardSuit::Diamonds => 2,
        CardSuit::Spades => 3,
    }
}

/// The position of a rank in the fixed rank enumeration.
pub open spec fn value_index(v: CardValue) -> int {
    match v {
        CardValue::Two => 0,
        CardValue::Three => 1,
        CardValue::Four => 2,
        CardValue::Five => 3,
        CardValue::Six => 4,
        CardValue::Seven => 5,
        CardValue::Eight => 6,
        CardValue::Nine => 7,
        CardValue::Ten => 8,
        CardValue::Jack => 9,
        CardValue::Queen => 10,
        CardValue::King => 11,
        CardValue::Ace => 12,
    }
}

/// Indexing and position are inverse to each other on the valid ranges,
/// so each suit and each rank sits at exactly one position.
pub proof fn lemma_enumeration_round_trips()
    ensures
        forall|s: CardSuit| suit_at(#[trigger] suit_index(s)) == s && 0 <= suit_index(s) < 4,
        forall|v: CardValue| value_at(#[trigger] value_index(v)) == v && 0 <= value_index(v) < 13,
        forall|i: int| 0 <= i < 4 ==> suit_index(#[trigger] suit_at(i)) == i,
        forall|j: int| 0 <= j < 13 ==> value_index(#[trigger] value_at(j)) == j,
{
}

/// The suit at a position, as executable code.
pub fn nth_suit(i: usize) -> (s: CardSuit)
    requires
        i < 4,
    ensures
        s == suit_at(i as int),
{
    if i == 0 {
        CardSuit::Clubs
    } else if i == 1 {
        CardSuit::Hearts
    } else if i == 2 {
        CardSuit::Diamonds
    } else {
        CardSuit::Spades
    }
}

/// The rank at a position, as executable code.
pub fn nth_value(j: usize) -> (v: CardValue)
    requires
        j < 13,
    ensures
        v == value_at(j as int),
{
    if j == 0 {
        CardValue::Two
    } else if j == 1 {
        CardValue::Three
    } else if j == 2 {
        CardValue::Four
    } else if j == 3 {
        CardValue::Five
    } else if j == 4 {
        CardValue::Six
    } else if j == 5 {
        CardValue::Seven
    } else if j == 6 {
        CardValue::Eight
    } else if j == 7 {
        CardValue::Nine
    } else if j == 8 {
        CardValue::Ten
    } else if j == 9 {
        CardValue::Jack
    } else if j == 10 {
        CardValue::Queen
    } else if j == 11 {
        CardValue::King
    } else {
        CardValue::Ace
    }
}

} // verus!
