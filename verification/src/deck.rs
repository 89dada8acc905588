//! The deck: the 52 suit/rank pairs, split into the cards still to be
//! drawn and the cards already drawn.
//!
//! A deck starts as the full 52-card sequence in a fixed suit-major,
//! rank-minor order, may be shuffled in place, and hands cards out one at a
//! time from the back of `remaining_cards`. Well-formedness says that the
//! two sequences together still hold each of the 52 cards exactly once, and
//! every operation preserves it.

use vstd::prelude::*;
use vstd::seq_lib::group_to_multiset_ensures;
use vstd::seq_lib::lemma_multiset_commutative;
use vstd::multiset::group_multiset_axioms;
use rand::seq::SliceRandom;
use crate::card::Card;
use crate::card::CardSuit;
use crate::card::suit_at;
use crate::card::suit_index;
use crate::card::value_at;
use crate::card::value_index;
use crate::card::lemma_enumeration_round_trips;
use crate::card::nth_suit;
use crate::card::nth_value;

verus! {

/// The thirteen cards of one suit, in rank order.
pub open spec fn suit_run(s: CardSuit) -> Seq<Card> {
    Seq::new(13, |j: int| Card { suit: s, value: value_at(j) })
}

/// The 52 cards of a fresh deck in their deterministic order: suit-major,
/// rank-minor.
pub open spec fn fresh_deck() -> Seq<Card> {
    suit_run(CardSuit::Clubs) + suit_run(CardSuit::Hearts) + suit_run(CardSuit::Diamonds)
        + suit_run(CardSuit::Spades)
}

/// The position of a card in the fresh-deck order.
pub open spec fn card_pos(c: Card) -> int {
    13 * suit_index(c.suit) + value_index(c.value)
}

/// Every card sits at its position in the fresh deck.
pub proof fn lemma_fresh_deck_at_pos(c: Card)
    ensures
        0 <= card_pos(c) < 52,
        fresh_deck()[card_pos(c)] == c,
{
    lemma_enumeration_round_trips();
}

/// The card at every position of the fresh deck sits at that position.
pub proof fn lemma_fresh_pos_of_index(k: int)
    requires
        0 <= k < 52,
    ensures
        card_pos(fresh_deck()[k]) == k,
{
    lemma_enumeration_round_trips();
    if k < 13 {
        assert(fresh_deck()[k] == suit_run(CardSuit::Clubs)[k]);
    } else if k < 26 {
        assert(fresh_deck()[k] == suit_run(CardSuit::Hearts)[k - 13]);
    } else if k < 39 {
        assert(fresh_deck()[k] == suit_run(CardSuit::Diamonds)[k - 26]);
    } else {
        assert(fresh_deck()[k] == suit_run(CardSuit::Spades)[k - 39]);
    }
}

/// The fresh deck holds no card twice.
pub proof fn lemma_fresh_deck_no_duplicates()
    ensures
        fresh_deck().no_duplicates(),
{
    assert forall|i: int, j: int|
        0 <= i < fresh_deck().len() && 0 <= j < fresh_deck().len() && i
            != j implies fresh_deck()[i] != fresh_deck()[j] by {
        lemma_fresh_pos_of_index(i);
        lemma_fresh_pos_of_index(j);
    }
}

/// Each of the 52 cards occurs exactly once in the fresh deck.
pub proof fn lemma_fresh_deck_card_count(c: Card)
    ensures
        fresh_deck().to_multiset().count(c) == 1,
{
    broadcast use group_to_multiset_ensures;

    lemma_fresh_deck_no_duplicates();
    lemma_fresh_deck_at_pos(c);
    assert(fresh_deck().contains(c));
    fresh_deck().lemma_multiset_has_no_duplicates();
}

/// The deck: the cards still to be drawn, in drawing order from the back,
/// and the cards already handed out, in the order they left.
#[derive(Debug)]
pub struct Deck {
    pub remaining_cards: Vec<Card>,
    pub drawn_cards: Vec<Card>,
}

impl Deck {
    /// All cards the deck accounts for, wherever they sit.
    pub open spec fn all_cards(self) -> Seq<Card> {
        self.remaining_cards@ + self.drawn_cards@
    }

    /// Together, `remaining_cards` and `drawn_cards` hold each of the 52
    /// cards exactly once.
    pub open spec fn wf(self) -> bool {
        self.all_cards().to_multiset() == fresh_deck().to_multiset()
    }

    /// A full, unshuffled deck: all 52 cards remaining, in the fixed
    /// suit-major, rank-minor order; nothing drawn.
    pub fn new() -> (r: Deck)
        ensures
            r.remaining_cards@ == fresh_deck(),
            r.drawn_cards@ == Seq::<Card>::empty(),
            r.wf(),
    {
        let mut result: Vec<Card> = Vec::new();
        let mut i: usize = 0;
        proof {
            assert(result@ =~= fresh_deck().take(0));
        }
        while i < 4
            invariant
                i <= 4,
                result@ == fresh_deck().take(13 * i),
            decreases 4 - i,
        {
            let suit = nth_suit(i);
            let mut j: usize = 0;
            while j < 13
                invariant
                    j <= 13,
                    i < 4,
                    suit == suit_at(i as int),
                    result@ == fresh_deck().take(13 * i + j),
                decreases 13 - j,
            {
                result.push(Card { suit, value: nth_value(j) });
                proof {
                    let k = 13 * (i as int) + (j as int);
                    if i == 0 {
                        assert(fresh_deck()[k] == suit_run(CardSuit::Clubs)[k]);
                    } else if i == 1 {
                        assert(fresh_deck()[k] == suit_run(CardSuit::Hearts)[k - 13]);
                    } else if i == 2 {
                        assert(fresh_deck()[k] == suit_run(CardSuit::Diamonds)[k - 26]);
                    } else {
                        assert(fresh_deck()[k] == suit_run(CardSuit::Spades)[k - 39]);
                    }
                    assert(fresh_deck().take(k + 1) =~= fresh_deck().take(k).push(
                        fresh_deck()[k],
                    ));
                }
                j = j + 1;
            }
            i = i + 1;
        }
        proof {
            assert(fresh_deck().take(52) =~= fresh_deck());
        }
        let r = Deck { remaining_cards: result, drawn_cards: Vec::new() };
        proof {
            assert(r.all_cards() =~= fresh_deck());
        }
        r
    }

    /// Puts `remaining_cards` into a random order. The cards themselves,
    /// and everything already drawn, stay exactly as they were.
    pub fn shuffle(&mut self)
        ensures
            final(self).remaining_cards@.to_multiset() == old(self).remaining_cards@.to_multiset(),
            final(self).remaining_cards@.len() == old(self).remaining_cards@.len(),
            final(self).drawn_cards@ == old(self).drawn_cards@,
            old(self).wf() ==> final(self).wf(),
    {
        shuffle_cards(&mut self.remaining_cards);
        proof {
            broadcast use group_to_multiset_ensures;
            broadcast use group_multiset_axioms;

            lemma_multiset_commutative(old(self).remaining_cards@, old(self).drawn_cards@);
            lemma_multiset_commutative(self.remaining_cards@, self.drawn_cards@);
            assert(self.remaining_cards@.to_multiset().len() == self.remaining_cards@.len());
            assert(old(self).remaining_cards@.to_multiset().len() == old(
                self,
            ).remaining_cards@.len());
            assert(self.all_cards().to_multiset() =~= old(self).all_cards().to_multiset());
        }
    }

    /// Removes and returns the last remaining card, recording it as drawn;
    /// nothing when the deck is exhausted.
    pub fn draw_card(&mut self) -> (r: Option<Card>)
        ensures
            old(self).remaining_cards@.len() > 0 ==> r == Some(old(self).remaining_cards@.last())
                && final(self).remaining_cards@ == old(self).remaining_cards@.drop_last()
                && final(self).drawn_cards@ == old(self).drawn_cards@.push(
                old(self).remaining_cards@.last(),
            ),
            old(self).remaining_cards@.len() == 0 ==> r is None && final(self).remaining_cards@
                == old(self).remaining_cards@ && final(self).drawn_cards@ == old(
                self,
            ).drawn_cards@,
            final(self).remaining_cards@.len() == (if old(self).remaining_cards@.len() > 0 {
                old(self).remaining_cards@.len() - 1
            } else {
                0
            }),
            old(self).wf() ==> final(self).wf(),
    {
        draw_card(self)
    }
}

/// Relies on rand: `thread_rng` supplies the generator and
/// `SliceRandom::shuffle` permutes the vector in place, so the new
/// contents are a rearrangement of the old.
#[verifier::external_body]
fn shuffle_cards(cards: &mut Vec<Card>)
    ensures
        final(cards)@.to_multiset() == old(cards)@.to_multiset(),
{
    cards.shuffle(&mut rand::thread_rng());
}

/// The draw itself: pops the last remaining card and appends it to the
/// drawn cards, returning a copy of it.
pub fn draw_card(deck: &mut Deck) -> (r: Option<Card>)
    ensures
        old(deck).remaining_cards@.len() > 0 ==> r == Some(old(deck).remaining_cards@.last())
            && final(deck).remaining_cards@ == old(deck).remaining_cards@.drop_last()
            && final(deck).drawn_cards@ == old(deck).drawn_cards@.push(
            old(deck).remaining_cards@.last(),
        ),
        old(deck).remaining_cards@.len() == 0 ==> r is None && final(deck).remaining_cards@ == old(
            deck,
        ).remaining_cards@ && final(deck).drawn_cards@ == old(deck).drawn_cards@,
        final(deck).remaining_cards@.len() == (if old(deck).remaining_cards@.len() > 0 {
            old(deck).remaining_cards@.len() - 1
        } else {
            0
        }),
        old(deck).wf() ==> final(deck).wf(),
{
    let ghost old_deck = *deck;
    let card_opt = deck.remaining_cards.pop();
    match card_opt {
        Option::Some(card) => {
            let card_ref = &card;
            let value = card_ref.value;
            let suit = card_ref.suit;
            let new_card = Card { value, suit };
            deck.drawn_cards.push(card);
            proof {
                assert(final(deck).remaining_cards@ =~= old_deck.remaining_cards@.drop_last());
                if old_deck.wf() {
                    lemma_draw_keeps_all_cards(old_deck, *deck, card);
                }
            }
            Option::Some(new_card)
        },
        Option::None => Option::None,
    }
}

/// Moving the last remaining card onto the drawn pile rearranges the
/// deck's cards without adding or losing one.
proof fn lemma_draw_keeps_all_cards(before: Deck, after: Deck, c: Card)
    requires
        before.remaining_cards@.len() > 0,
        c == before.remaining_cards@.last(),
        after.remaining_cards@ == before.remaining_cards@.drop_last(),
        after.drawn_cards@ == before.drawn_cards@.push(c),
    ensures
        after.all_cards().to_multiset() == before.all_cards().to_multiset(),
{
    broadcast use group_to_multiset_ensures;
    broadcast use group_multiset_axioms;

    lemma_multiset_commutative(before.remaining_cards@, before.drawn_cards@);
    lemma_multiset_commutative(after.remaining_cards@, after.drawn_cards@);
    assert(before.remaining_cards@ =~= after.remaining_cards@.push(c));
    assert(before.remaining_cards@.to_multiset() =~= after.remaining_cards@.to_multiset().insert(
        c,
    ));
    assert(after.drawn_cards@.to_multiset() =~= before.drawn_cards@.to_multiset().insert(c));
    assert(after.all_cards().to_multiset() =~= before.all_cards().to_multiset());
}

/// Deck completeness: a well-formed deck still accounts for each of the 52
/// cards exactly once — every card is remaining or drawn, no card is both,
/// and neither side repeats a card.
pub proof fn lemma_deck_partition(d: Deck)
    requires
        d.wf(),
    ensures
        forall|c: Card| d.remaining_cards@.contains(c) || d.drawn_cards@.contains(c),
        forall|c: Card| !(d.remaining_cards@.contains(c) && d.drawn_cards@.contains(c)),
        d.remaining_cards@.no_duplicates(),
        d.drawn_cards@.no_duplicates(),
        d.remaining_cards@.len() + d.drawn_cards@.len() == 52,
{
    broadcast use group_to_multiset_ensures;
    broadcast use group_multiset_axioms;

    lemma_multiset_commutative(d.remaining_cards@, d.drawn_cards@);
    assert forall|c: Card|
        #[trigger] d.remaining_cards@.to_multiset().count(c)
            + d.drawn_cards@.to_multiset().count(c) == 1 by {
        lemma_fresh_deck_card_count(c);
        assert(d.all_cards().to_multiset().count(c) == 1);
    }
    assert forall|c: Card|
        d.remaining_cards@.contains(c) || d.drawn_cards@.contains(c) by {
        assert(d.remaining_cards@.to_multiset().count(c) + d.drawn_cards@.to_multiset().count(c)
            == 1);
    }
    assert forall|c: Card|
        !(d.remaining_cards@.contains(c) && d.drawn_cards@.contains(c)) by {
        assert(d.remaining_cards@.to_multiset().count(c) + d.drawn_cards@.to_multiset().count(c)
            == 1);
    }
    assert forall|x: Card|
        d.remaining_cards@.to_multiset().contains(x) implies d.remaining_cards@.to_multiset().count(
        x,
    ) == 1 by {
        assert(d.remaining_cards@.to_multiset().count(x) + d.drawn_cards@.to_multiset().count(x)
            == 1);
    }
    d.remaining_cards@.lemma_multiset_has_no_duplicates_conv();
    assert forall|x: Card|
        d.drawn_cards@.to_multiset().contains(x) implies d.drawn_cards@.to_multiset().count(x)
        == 1 by {
        assert(d.remaining_cards@.to_multiset().count(x) + d.drawn_cards@.to_multiset().count(x)
            == 1);
    }
    d.drawn_cards@.lemma_multiset_has_no_duplicates_conv();
    lemma_fresh_deck_no_duplicates();
    assert(fresh_deck().to_multiset().len() == 52);
    assert(d.all_cards().to_multiset().len() == d.all_cards().len());
}

} // verus!
