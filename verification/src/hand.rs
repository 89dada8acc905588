//! The hand valuation engine.
//!
//! A hand's worth is the set of totals reachable by choosing, for every
//! card, one of its possible numeric values, keeping only totals at or
//! under 21. The engine computes it as a fold: starting from the single
//! total 0, each card replaces the running collection of totals by every
//! capped sum of an old total and one of the card's values. Pruning sums
//! above 21 at every step is what keeps the intermediate collections small
//! while still reaching every capped final total, because card values are
//! positive.

use vstd::prelude::*;
use crate::card::Card;
use crate::card::CardValue;
use crate::card::card_values;
use crate::card::lemma_card_values_bounds;

verus! {

/// A single hand total. A standalone card value is strictly below 21; a
/// combined total produced by `combine_with_separate_value` may equal 21.
#[derive(Clone, Copy, Debug, PartialEq, Eq, Structural)]
pub struct HandValue {
    pub value: u32,
}

/// A `HandValue` that the engine can produce: at most 21. Single-card
/// values are even strictly below 21, but a combined total may reach it.
pub open spec fn hand_value_wf(h: HandValue) -> bool {
    h.value <= 21
}

/// Every element of the sequence is a well-formed `HandValue`.
pub open spec fn all_wf(s: Seq<HandValue>) -> bool {
    forall|i: int| 0 <= i < s.len() ==> hand_value_wf(#[trigger] s[i])
}

/// The numeric totals carried by a sequence of `HandValue`s.
pub open spec fn hv_ints(s: Seq<HandValue>) -> Seq<int> {
    s.map_values(|h: HandValue| h.value as int)
}

impl HandValue {
    /// Accepts exactly the values a single card may contribute:
    /// totals in [0, 21).
    pub fn from_u32(x: u32) -> (r: Option<HandValue>)
        ensures
            x < 21 ==> r == Some(HandValue { value: x }),
            x >= 21 ==> r is None,
    {
        if x < 21 {
            Option::Some(HandValue { value: x })
        } else {
            Option::None
        }
    }

    /// `from_u32` for values known to be in range.
    pub fn unsafe_from_u32(x: u32) -> (r: HandValue)
        requires
            x < 21,
        ensures
            r == (HandValue { value: x }),
    {
        HandValue::from_u32(x).unwrap()
    }

    /// The capped sum of two totals: the sum when it stays at or under 21,
    /// nothing otherwise.
    pub fn combine_with_separate_value(&self, other_value: &HandValue) -> (r: Option<HandValue>)
        requires
            hand_value_wf(*self),
            hand_value_wf(*other_value),
        ensures
            self.value + other_value.value <= 21 ==> r == Some(
                HandValue { value: (self.value + other_value.value) as u32 },
            ),
            self.value + other_value.value > 21 ==> r is None,
    {
        let raw_result = self.value + other_value.value;
        if raw_result <= 21 {
            Option::Some(HandValue { value: raw_result })
        } else {
            Option::None
        }
    }
}

/// The possible `HandValue`s of one card: the rank's numeric values.
pub fn card_value_to_hand_value(card_value: &CardValue) -> (r: Vec<HandValue>)
    ensures
        hv_ints(r@) == card_values(*card_value),
        all_wf(r@),
{
    let r = match card_value {
        CardValue::Two => vec![HandValue::unsafe_from_u32(2)],
        CardValue::Three => vec![HandValue::unsafe_from_u32(3)],
        CardValue::Four => vec![HandValue::unsafe_from_u32(4)],
        CardValue::Five => vec![HandValue::unsafe_from_u32(5)],
        CardValue::Six => vec![HandValue::unsafe_from_u32(6)],
        CardValue::Seven => vec![HandValue::unsafe_from_u32(7)],
        CardValue::Eight => vec![HandValue::unsafe_from_u32(8)],
        CardValue::Nine => vec![HandValue::unsafe_from_u32(9)],
        CardValue::Ten => vec![HandValue::unsafe_from_u32(10)],
        CardValue::Jack => vec![HandValue::unsafe_from_u32(10)],
        CardValue::Queen => vec![HandValue::unsafe_from_u32(10)],
        CardValue::King => vec![HandValue::unsafe_from_u32(10)],
        CardValue::Ace => vec![
            HandValue::unsafe_from_u32(1),
            HandValue::unsafe_from_u32(11),
        ],
    };
    proof {
        assert(hv_ints(r@) =~= card_values(*card_value));
    }
    r
}

/// The capped sums of one total with each value of `vs`, in order.
pub open spec fn pair_sums(x: int, vs: Seq<int>) -> Seq<int>
    decreases vs.len(),
{
    if vs.len() == 0 {
        Seq::empty()
    } else if x + vs[0] <= 21 {
        seq![x + vs[0]] + pair_sums(x, vs.drop_first())
    } else {
        pair_sums(x, vs.drop_first())
    }
}

/// The capped sums of every total of `s` with every value of `vs`,
/// grouped by the totals of `s`, in order.
pub open spec fn combine_totals(s: Seq<int>, vs: Seq<int>) -> Seq<int>
    decreases s.len(),
{
    if s.len() == 0 {
        Seq::empty()
    } else {
        pair_sums(s[0], vs) + combine_totals(s.drop_first(), vs)
    }
}

/// The totals reachable from a sequence of ranks: the fold of
/// `combine_totals` over the hand, starting from the single total 0.
pub open spec fn hand_totals(ranks: Seq<CardValue>) -> Seq<int>
    decreases ranks.len(),
{
    if ranks.len() == 0 {
        seq![0]
    } else {
        combine_totals(hand_totals(ranks.drop_last()), card_values(ranks.last()))
    }
}

/// The ranks of a sequence of cards, suit stripped.
pub open spec fn hand_ranks(hand: Seq<Card>) -> Seq<CardValue> {
    hand.map_values(|c: Card| c.value)
}

/// A hand is too large when it is non-empty and no choice of ace values
/// keeps the total at or under 21. An empty hand is never too large.
pub open spec fn is_bust(ranks: Seq<CardValue>) -> bool {
    ranks.len() > 0 && hand_totals(ranks).len() == 0
}

/// A hand wins when some choice of ace values totals exactly 21.
pub open spec fn has_winning_total(ranks: Seq<CardValue>) -> bool {
    hand_totals(ranks).contains(21)
}

/// `pair_sums` on a single value is the capped sum alone.
proof fn lemma_pair_sums_single(x: int, y: int)
    ensures
        x + y <= 21 ==> pair_sums(x, seq![y]) == seq![x + y],
        x + y > 21 ==> pair_sums(x, seq![y]) == Seq::<int>::empty(),
{
    let vs = seq![y];
    assert(vs.drop_first() =~= Seq::<int>::empty());
    assert(pair_sums(x, Seq::<int>::empty()) =~= Seq::<int>::empty());
    if x + y <= 21 {
        assert(pair_sums(x, vs) =~= seq![x + y] + Seq::<int>::empty());
        assert(seq![x + y] + Seq::<int>::empty() =~= seq![x + y]);
    }
}

/// `combine_totals` on a single total is `pair_sums` for that total.
proof fn lemma_combine_totals_single(x: int, vs: Seq<int>)
    ensures
        combine_totals(seq![x], vs) == pair_sums(x, vs),
{
    let s = seq![x];
    assert(s.drop_first() =~= Seq::<int>::empty());
    assert(combine_totals(Seq::<int>::empty(), vs) =~= Seq::<int>::empty());
    assert(combine_totals(s, vs) =~= pair_sums(x, vs) + Seq::<int>::empty());
    assert(pair_sums(x, vs) + Seq::<int>::empty() =~= pair_sums(x, vs));
}

/// `pair_sums` distributes over concatenation of the value sequence.
proof fn lemma_pair_sums_append(x: int, a: Seq<int>, b: Seq<int>)
    ensures
        pair_sums(x, a + b) == pair_sums(x, a) + pair_sums(x, b),
    decreases a.len(),
{
    if a.len() == 0 {
        assert(a + b =~= b);
        assert(pair_sums(x, a) + pair_sums(x, b) =~= pair_sums(x, b));
    } else {
        assert((a + b).drop_first() =~= a.drop_first() + b);
        lemma_pair_sums_append(x, a.drop_first(), b);
        if x + a[0] <= 21 {
            assert(seq![x + a[0]] + (pair_sums(x, a.drop_first()) + pair_sums(x, b)) =~= (
            seq![x + a[0]] + pair_sums(x, a.drop_first())) + pair_sums(x, b));
        }
    }
}

/// `combine_totals` distributes over concatenation of the totals sequence.
proof fn lemma_combine_totals_append(a: Seq<int>, b: Seq<int>, vs: Seq<int>)
    ensures
        combine_totals(a + b, vs) == combine_totals(a, vs) + combine_totals(b, vs),
    decreases a.len(),
{
    if a.len() == 0 {
        assert(a + b =~= b);
        assert(combine_totals(a, vs) + combine_totals(b, vs) =~= combine_totals(b, vs));
    } else {
        assert((a + b).drop_first() =~= a.drop_first() + b);
        lemma_combine_totals_append(a.drop_first(), b, vs);
        assert(pair_sums(a[0], vs) + (combine_totals(a.drop_first(), vs) + combine_totals(b, vs))
            =~= (pair_sums(a[0], vs) + combine_totals(a.drop_first(), vs)) + combine_totals(
            b,
            vs,
        ));
    }
}

/// The capped pairwise sums of two collections of totals, exactly
/// `combine_totals` on their numeric values.
pub fn combine_possible_values(values_0: &Vec<HandValue>, values_1: &Vec<HandValue>) -> (r: Vec<
    HandValue,
>)
    requires
        all_wf(values_0@),
        all_wf(values_1@),
    ensures
        hv_ints(r@) == combine_totals(hv_ints(values_0@), hv_ints(values_1@)),
        all_wf(r@),
{
    let ghost s = hv_ints(values_0@);
    let ghost vs = hv_ints(values_1@);
    let mut result: Vec<HandValue> = Vec::new();
    let mut i: usize = 0;
    proof {
        assert(hv_ints(result@) =~= combine_totals(s.take(0), vs));
        assert(s.take(0) =~= Seq::<int>::empty());
    }
    while i < values_0.len()
        invariant
            i <= values_0.len(),
            all_wf(values_0@),
            all_wf(values_1@),
            s == hv_ints(values_0@),
            vs == hv_ints(values_1@),
            hv_ints(result@) == combine_totals(s.take(i as int), vs),
            all_wf(result@),
        decreases values_0.len() - i,
    {
        let x = values_0[i];
        let ghost result_before = result@;
        let mut j: usize = 0;
        proof {
            assert(hv_ints(result@) =~= hv_ints(result_before) + pair_sums(
                x.value as int,
                vs.take(0),
            ));
        }
        while j < values_1.len()
            invariant
                j <= values_1.len(),
                i < values_0.len(),
                all_wf(values_0@),
                all_wf(values_1@),
                vs == hv_ints(values_1@),
                x == values_0@[i as int],
                hv_ints(result@) == hv_ints(result_before) + pair_sums(
                    x.value as int,
                    vs.take(j as int),
                ),
                all_wf(result@),
            decreases values_1.len() - j,
        {
            let y = values_1[j];
            let ghost taken = vs.take(j as int);
            let ghost result_prev = result@;
            let combined = x.combine_with_separate_value(&y);
            if let Option::Some(c) = combined {
                result.push(c);
            }
            proof {
                assert(vs.take(j + 1) =~= taken + seq![vs[j as int]]);
                lemma_pair_sums_append(x.value as int, taken, seq![vs[j as int]]);
                lemma_pair_sums_single(x.value as int, vs[j as int]);
                assert(vs[j as int] == y.value as int);
                let xi = x.value as int;
                assert(pair_sums(xi, vs.take(j + 1)) == pair_sums(xi, taken) + pair_sums(
                    xi,
                    seq![vs[j as int]],
                ));
                if x.value + y.value <= 21 {
                    let ci = (x.value + y.value) as int;
                    assert(pair_sums(xi, seq![vs[j as int]]) == seq![ci]);
                    assert(result@ == result_prev.push(HandValue { value: (x.value
                        + y.value) as u32 }));
                    assert(hv_ints(result@) =~= hv_ints(result_prev).push(ci));
                    assert(hv_ints(result_prev).push(ci) =~= hv_ints(result_before) + (pair_sums(
                        xi,
                        taken,
                    ) + seq![ci]));
                    assert(hv_ints(result@) == hv_ints(result_before) + pair_sums(
                        xi,
                        vs.take(j + 1),
                    ));
                } else {
                    assert(pair_sums(xi, seq![vs[j as int]]) == Seq::<int>::empty());
                    assert(pair_sums(xi, taken) + Seq::<int>::empty() =~= pair_sums(xi, taken));
                    assert(hv_ints(result@) == hv_ints(result_before) + pair_sums(
                        xi,
                        vs.take(j + 1),
                    ));
                }
            }
            j = j + 1;
        }
        proof {
            assert(vs.take(values_1@.len() as int) =~= vs);
            assert(s.take(i + 1) =~= s.take(i as int) + seq![s[i as int]]);
            lemma_combine_totals_append(s.take(i as int), seq![s[i as int]], vs);
            lemma_combine_totals_single(s[i as int], vs);
            assert(hv_ints(result@) =~= combine_totals(s.take(i + 1), vs));
        }
        i = i + 1;
    }
    proof {
        assert(s.take(values_0@.len() as int) =~= s);
    }
    result
}

/// The totals of a whole hand of ranks: the fold of `combine_totals`
/// starting from the single total 0.
pub fn calculate_current_hand_value(hand: &Vec<CardValue>) -> (r: Vec<HandValue>)
    ensures
        hv_ints(r@) == hand_totals(hand@),
        all_wf(r@),
{
    let mut acc: Vec<HandValue> = vec![HandValue::unsafe_from_u32(0)];
    let mut i: usize = 0;
    proof {
        assert(hand@.take(0) =~= Seq::<CardValue>::empty());
        assert(hv_ints(acc@) =~= hand_totals(hand@.take(0)));
    }
    while i < hand.len()
        invariant
            i <= hand.len(),
            hv_ints(acc@) == hand_totals(hand@.take(i as int)),
            all_wf(acc@),
        decreases hand.len() - i,
    {
        let card_options = card_value_to_hand_value(&hand[i]);
        acc = combine_possible_values(&acc, &card_options);
        proof {
            assert(hand@.take(i + 1).drop_last() =~= hand@.take(i as int));
            assert(hand@.take(i + 1).last() == hand@[i as int]);
        }
        i = i + 1;
    }
    proof {
        assert(hand@.take(hand@.len() as int) =~= hand@);
    }
    acc
}

/// Whether the hand is too large: non-empty with no reachable total at or
/// under 21.
pub fn is_hand_too_large(hand: &Vec<Card>) -> (r: bool)
    ensures
        r == is_bust(hand_ranks(hand@)),
{
    let mut card_values_vec: Vec<CardValue> = Vec::new();
    let mut i: usize = 0;
    while i < hand.len()
        invariant
            i <= hand.len(),
            card_values_vec@ == hand_ranks(hand@.take(i as int)),
        decreases hand.len() - i,
    {
        card_values_vec.push(hand[i].value);
        proof {
            assert(hand_ranks(hand@.take(i + 1)) =~= hand_ranks(hand@.take(i as int)).push(
                hand@[i as int].value,
            ));
        }
        i = i + 1;
    }
    proof {
        assert(hand@.take(hand@.len() as int) =~= hand@);
    }
    if !hand.is_empty() {
        let totals = calculate_current_hand_value(&card_values_vec);
        proof {
            assert(hand_ranks(hand@).len() == hand@.len());
            assert(hv_ints(totals@).len() == totals@.len());
        }
        totals.is_empty()
    } else {
        false
    }
}

/// The sums of one total with each value of `vs`, uncapped, in order.
pub open spec fn raw_pair_sums(x: int, vs: Seq<int>) -> Seq<int>
    decreases vs.len(),
{
    if vs.len() == 0 {
        Seq::empty()
    } else {
        seq![x + vs[0]] + raw_pair_sums(x, vs.drop_first())
    }
}

/// The sums of every total of `s` with every value of `vs`, uncapped,
/// grouped by the totals of `s`, in order.
pub open spec fn raw_combine(s: Seq<int>, vs: Seq<int>) -> Seq<int>
    decreases s.len(),
{
    if s.len() == 0 {
        Seq::empty()
    } else {
        raw_pair_sums(s[0], vs) + raw_combine(s.drop_first(), vs)
    }
}

/// Every sum reachable from a sequence of ranks, kept even above 21:
/// the uncapped counterpart of `hand_totals`.
pub open spec fn raw_sums(ranks: Seq<CardValue>) -> Seq<int>
    decreases ranks.len(),
{
    if ranks.len() == 0 {
        seq![0]
    } else {
        raw_combine(raw_sums(ranks.drop_last()), card_values(ranks.last()))
    }
}

/// Once a hand is too large it stays too large: appending any card keeps
/// the reachable totals empty, because a capped combination of an empty
/// collection is empty.
pub proof fn lemma_bust_is_permanent(ranks: Seq<CardValue>, v: CardValue)
    requires
        is_bust(ranks),
    ensures
        is_bust(ranks.push(v)),
{
    assert(ranks.push(v).drop_last() =~= ranks);
    assert(hand_totals(ranks) =~= Seq::<int>::empty());
}

/// The numeric totals carried by a sequence of `u32` values.
pub open spec fn u32_ints(s: Seq<u32>) -> Seq<int> {
    s.map_values(|u: u32| u as int)
}

/// `raw_pair_sums` on a single value is the sum alone.
proof fn lemma_raw_pair_sums_single(x: int, y: int)
    ensures
        raw_pair_sums(x, seq![y]) == seq![x + y],
{
    let vs = seq![y];
    assert(vs.drop_first() =~= Seq::<int>::empty());
    assert(raw_pair_sums(x, Seq::<int>::empty()) =~= Seq::<int>::empty());
    assert(raw_pair_sums(x, vs) =~= seq![x + y] + Seq::<int>::empty());
    assert(seq![x + y] + Seq::<int>::empty() =~= seq![x + y]);
}

/// `raw_pair_sums` distributes over concatenation of the value sequence.
proof fn lemma_raw_pair_sums_append(x: int, a: Seq<int>, b: Seq<int>)
    ensures
        raw_pair_sums(x, a + b) == raw_pair_sums(x, a) + raw_pair_sums(x, b),
    decreases a.len(),
{
    if a.len() == 0 {
        assert(a + b =~= b);
        assert(raw_pair_sums(x, a) + raw_pair_sums(x, b) =~= raw_pair_sums(x, b));
    } else {
        assert((a + b).drop_first() =~= a.drop_first() + b);
        lemma_raw_pair_sums_append(x, a.drop_first(), b);
        assert(seq![x + a[0]] + (raw_pair_sums(x, a.drop_first()) + raw_pair_sums(x, b)) =~= (
        seq![x + a[0]] + raw_pair_sums(x, a.drop_first())) + raw_pair_sums(x, b));
    }
}

/// `raw_combine` on a single total is `raw_pair_sums` for that total.
proof fn lemma_raw_combine_single(x: int, vs: Seq<int>)
    ensures
        raw_combine(seq![x], vs) == raw_pair_sums(x, vs),
{
    let s = seq![x];
    assert(s.drop_first() =~= Seq::<int>::empty());
    assert(raw_combine(Seq::<int>::empty(), vs) =~= Seq::<int>::empty());
    assert(raw_combine(s, vs) =~= raw_pair_sums(x, vs) + Seq::<int>::empty());
    assert(raw_pair_sums(x, vs) + Seq::<int>::empty() =~= raw_pair_sums(x, vs));
}

/// `raw_combine` distributes over concatenation of the totals sequence.
proof fn lemma_raw_combine_append(a: Seq<int>, b: Seq<int>, vs: Seq<int>)
    ensures
        raw_combine(a + b, vs) == raw_combine(a, vs) + raw_combine(b, vs),
    decreases a.len(),
{
    if a.len() == 0 {
        assert(a + b =~= b);
        assert(raw_combine(a, vs) + raw_combine(b, vs) =~= raw_combine(b, vs));
    } else {
        assert((a + b).drop_first() =~= a.drop_first() + b);
        lemma_raw_combine_append(a.drop_first(), b, vs);
        assert(raw_pair_sums(a[0], vs) + (raw_combine(a.drop_first(), vs) + raw_combine(b, vs))
            =~= (raw_pair_sums(a[0], vs) + raw_combine(a.drop_first(), vs)) + raw_combine(b, vs));
    }
}

/// Every sum reachable from the hand, kept even above 21. Used for
/// reporting only; the round itself works with the capped totals.
pub fn raw_calculate_current_hand_value(hand: &Vec<CardValue>) -> (r: Vec<u32>)
    requires
        11 * hand@.len() <= u32::MAX,
    ensures
        u32_ints(r@) == raw_sums(hand@),
{
    let mut acc: Vec<u32> = vec![0];
    let mut c: usize = 0;
    proof {
        assert(hand@.take(0) =~= Seq::<CardValue>::empty());
        assert(u32_ints(acc@) =~= raw_sums(hand@.take(0)));
    }
    while c < hand.len()
        invariant
            c <= hand.len(),
            11 * hand@.len() <= u32::MAX,
            u32_ints(acc@) == raw_sums(hand@.take(c as int)),
            forall|k: int| 0 <= k < acc@.len() ==> #[trigger] acc@[k] <= 11 * c,
        decreases hand.len() - c,
    {
        let options = card_value_to_hand_value(&hand[c]);
        proof {
            lemma_card_values_bounds(hand@[c as int]);
        }
        let ghost s = u32_ints(acc@);
        let ghost vs = hv_ints(options@);
        let mut next: Vec<u32> = Vec::new();
        let mut i: usize = 0;
        proof {
            assert(u32_ints(next@) =~= raw_combine(s.take(0), vs));
            assert(s.take(0) =~= Seq::<int>::empty());
        }
        while i < acc.len()
            invariant
                i <= acc.len(),
                c < hand.len(),
                11 * hand@.len() <= u32::MAX,
                s == u32_ints(acc@),
                vs == hv_ints(options@),
                vs == card_values(hand@[c as int]),
                forall|k: int| 0 <= k < acc@.len() ==> #[trigger] acc@[k] <= 11 * c,
                forall|k: int| 0 <= k < vs.len() ==> 1 <= #[trigger] vs[k] <= 11,
                u32_ints(next@) == raw_combine(s.take(i as int), vs),
                forall|k: int| 0 <= k < next@.len() ==> #[trigger] next@[k] <= 11 * (c + 1),
            decreases acc.len() - i,
        {
            let x = acc[i];
            let ghost next_before = next@;
            let mut j: usize = 0;
            proof {
                assert(u32_ints(next@) =~= u32_ints(next_before) + raw_pair_sums(
                    x as int,
                    vs.take(0),
                ));
            }
            while j < options.len()
                invariant
                    j <= options.len(),
                    i < acc.len(),
                    c < hand.len(),
                    11 * hand@.len() <= u32::MAX,
                    vs == hv_ints(options@),
                    x == acc@[i as int],
                    x <= 11 * c,
                    forall|k: int| 0 <= k < vs.len() ==> 1 <= #[trigger] vs[k] <= 11,
                    u32_ints(next@) == u32_ints(next_before) + raw_pair_sums(
                        x as int,
                        vs.take(j as int),
                    ),
                    forall|k: int| 0 <= k < next@.len() ==> #[trigger] next@[k] <= 11 * (c + 1),
                decreases options.len() - j,
            {
                let y = options[j].value;
                let ghost taken = vs.take(j as int);
                let ghost next_prev = next@;
                proof {
                    assert(vs[j as int] == y as int);
                    assert(11 * (c + 1) <= 11 * hand@.len()) by (nonlinear_arith)
                        requires
                            c + 1 <= hand@.len(),
                    ;
                }
                next.push(x + y);
                proof {
                    assert(vs.take(j + 1) =~= taken + seq![vs[j as int]]);
                    lemma_raw_pair_sums_append(x as int, taken, seq![vs[j as int]]);
                    lemma_raw_pair_sums_single(x as int, vs[j as int]);
                    assert(u32_ints(next@) =~= u32_ints(next_prev).push((x + y) as int));
                    assert(u32_ints(next_prev).push((x + y) as int) =~= u32_ints(next_before) + (
                    raw_pair_sums(x as int, taken) + seq![x as int + y as int]));
                    assert(u32_ints(next@) == u32_ints(next_before) + raw_pair_sums(
                        x as int,
                        vs.take(j + 1),
                    ));
                }
                j = j + 1;
            }
            proof {
                assert(vs.take(options@.len() as int) =~= vs);
                assert(s.take(i + 1) =~= s.take(i as int) + seq![s[i as int]]);
                lemma_raw_combine_append(s.take(i as int), seq![s[i as int]], vs);
                lemma_raw_combine_single(s[i as int], vs);
                assert(u32_ints(next@) =~= raw_combine(s.take(i + 1), vs));
            }
            i = i + 1;
        }
        proof {
            assert(s.take(acc@.len() as int) =~= s);
            assert(hand@.take(c + 1).drop_last() =~= hand@.take(c as int));
            assert(hand@.take(c + 1).last() == hand@[c as int]);
        }
        acc = next;
        c = c + 1;
    }
    proof {
        assert(hand@.take(hand@.len() as int) =~= hand@);
    }
    acc
}

/// Every pairing of an element of `xs` with an element of `ys`, ordered by
/// the position in `xs` first and in `ys` second.
pub fn cartesian_product<'a, 'b, A, B>(xs: &'a Vec<A>, ys: &'b Vec<B>) -> (r: Vec<(&'a A, &'b B)>)
    ensures
        r@.len() == xs@.len() * ys@.len(),
        forall|k: int| 0 <= k < r@.len() ==> *(#[trigger] r@[k]).0 == xs@[k / (ys@.len() as int)]
            && *r@[k].1 == ys@[k % (ys@.len() as int)],
{
    let mut r: Vec<(&'a A, &'b B)> = Vec::new();
    let m = ys.len();
    let mut i: usize = 0;
    while i < xs.len()
        invariant
            i <= xs.len(),
            m == ys@.len(),
            r@.len() == i * m,
            forall|k: int| 0 <= k < r@.len() ==> *(#[trigger] r@[k]).0 == xs@[k / (m as int)]
                && *r@[k].1 == ys@[k % (m as int)],
        decreases xs.len() - i,
    {
        let mut j: usize = 0;
        while j < m
            invariant
                j <= m,
                i < xs.len(),
                m == ys@.len(),
                r@.len() == i * m + j,
                forall|k: int| 0 <= k < r@.len() ==> *(#[trigger] r@[k]).0 == xs@[k / (m as int)]
                    && *r@[k].1 == ys@[k % (m as int)],
            decreases m - j,
        {
            proof {
                vstd::arithmetic::div_mod::lemma_fundamental_div_mod_converse(
                    (i * m + j) as int,
                    m as int,
                    i as int,
                    j as int,
                );
            }
            r.push((&xs[i], &ys[j]));
            j = j + 1;
        }
        proof {
            assert((i + 1) * m == i * m + m) by (nonlinear_arith);
        }
        i = i + 1;
    }
    r
}


/// A total found in `pair_sums` is a capped sum of `x` with some value of
/// `vs`.
proof fn lemma_pair_sums_elim(x: int, vs: Seq<int>, t: int)
    requires
        pair_sums(x, vs).contains(t),
    ensures
        exists|j: int| 0 <= j < vs.len() && t == x + #[trigger] vs[j] && t <= 21,
    decreases vs.len(),
{
    let rest = pair_sums(x, vs.drop_first());
    if x + vs[0] <= 21 && t == x + vs[0] {
        assert(0 <= 0 < vs.len() && t == x + vs[0] && t <= 21);
    } else {
        let k = choose|k: int| 0 <= k < pair_sums(x, vs).len() && pair_sums(x, vs)[k] == t;
        if x + vs[0] <= 21 {
            assert(rest[k - 1] == t);
        } else {
            assert(rest[k] == t);
        }
        assert(rest.contains(t));
        lemma_pair_sums_elim(x, vs.drop_first(), t);
        let j0 = choose|j0: int| 0 <= j0 < vs.drop_first().len() && t == x + vs.drop_first()[j0] && t <= 21;
        assert(vs[j0 + 1] == vs.drop_first()[j0]);
    }
}

/// Conversely, every capped sum of `x` with a value of `vs` is in
/// `pair_sums`.
proof fn lemma_pair_sums_intro(x: int, vs: Seq<int>, j: int)
    requires
        0 <= j < vs.len(),
        x + vs[j] <= 21,
    ensures
        pair_sums(x, vs).contains(x + vs[j]),
    decreases vs.len(),
{
    if j == 0 {
        assert(pair_sums(x, vs)[0] == x + vs[0]);
    } else {
        assert(vs.drop_first()[j - 1] == vs[j]);
        lemma_pair_sums_intro(x, vs.drop_first(), j - 1);
        let rest = pair_sums(x, vs.drop_first());
        let k = choose|k: int| 0 <= k < rest.len() && rest[k] == x + vs[j];
        if x + vs[0] <= 21 {
            assert(pair_sums(x, vs)[k + 1] == x + vs[j]);
        } else {
            assert(pair_sums(x, vs)[k] == x + vs[j]);
        }
    }
}

/// A total found in `combine_totals` is a capped sum of a total of `s`
/// with a value of `vs`.
proof fn lemma_combine_totals_elim(s: Seq<int>, vs: Seq<int>, t: int)
    requires
        combine_totals(s, vs).contains(t),
    ensures
        exists|i: int, j: int|
            0 <= i < s.len() && 0 <= j < vs.len() && t == #[trigger] s[i] + #[trigger] vs[j] && t
                <= 21,
    decreases s.len(),
{
    let head = pair_sums(s[0], vs);
    let rest = combine_totals(s.drop_first(), vs);
    let k = choose|k: int| 0 <= k < combine_totals(s, vs).len() && combine_totals(s, vs)[k] == t;
    if k < head.len() {
        assert(head[k] == t);
        assert(head.contains(t));
        lemma_pair_sums_elim(s[0], vs, t);
        let j0 = choose|j0: int| 0 <= j0 < vs.len() && t == s[0] + #[trigger] vs[j0] && t <= 21;
        assert(0 <= 0 < s.len() && 0 <= j0 < vs.len() && t == s[0] + vs[j0] && t <= 21);
    } else {
        assert(rest[k - head.len()] == t);
        assert(rest.contains(t));
        lemma_combine_totals_elim(s.drop_first(), vs, t);
        let (i0, j0) = choose|i0: int, j0: int|
            0 <= i0 < s.drop_first().len() && 0 <= j0 < vs.len() && t == #[trigger] s.drop_first()[i0]
                + #[trigger] vs[j0] && t <= 21;
        assert(s[i0 + 1] == s.drop_first()[i0]);
        assert(0 <= i0 + 1 < s.len() && t == s[i0 + 1] + vs[j0]);
    }
}

/// Conversely, every capped sum of a total of `s` with a value of `vs` is
/// in `combine_totals`.
proof fn lemma_combine_totals_intro(s: Seq<int>, vs: Seq<int>, i: int, j: int)
    requires
        0 <= i < s.len(),
        0 <= j < vs.len(),
        s[i] + vs[j] <= 21,
    ensures
        combine_totals(s, vs).contains(s[i] + vs[j]),
    decreases s.len(),
{
    let head = pair_sums(s[0], vs);
    let rest = combine_totals(s.drop_first(), vs);
    if i == 0 {
        lemma_pair_sums_intro(s[0], vs, j);
        let k = choose|k: int| 0 <= k < head.len() && head[k] == s[0] + vs[j];
        assert(combine_totals(s, vs)[k] == s[i] + vs[j]);
    } else {
        assert(s.drop_first()[i - 1] == s[i]);
        lemma_combine_totals_intro(s.drop_first(), vs, i - 1, j);
        let k = choose|k: int| 0 <= k < rest.len() && rest[k] == s[i] + vs[j];
        assert(combine_totals(s, vs)[head.len() + k] == s[i] + vs[j]);
    }
}

/// A total found in `raw_pair_sums` is a sum of `x` with some value of
/// `vs`.
proof fn lemma_raw_pair_sums_elim(x: int, vs: Seq<int>, t: int)
    requires
        raw_pair_sums(x, vs).contains(t),
    ensures
        exists|j: int| 0 <= j < vs.len() && t == x + #[trigger] vs[j],
    decreases vs.len(),
{
    if t == x + vs[0] {
        assert(0 <= 0 < vs.len() && t == x + vs[0]);
    } else {
        let rest = raw_pair_sums(x, vs.drop_first());
        let k = choose|k: int|
            0 <= k < raw_pair_sums(x, vs).len() && raw_pair_sums(x, vs)[k] == t;
        assert(rest[k - 1] == t);
        assert(rest.contains(t));
        lemma_raw_pair_sums_elim(x, vs.drop_first(), t);
        let j0 = choose|j0: int| 0 <= j0 < vs.drop_first().len() && t == x + vs.drop_first()[j0];
        assert(vs[j0 + 1] == vs.drop_first()[j0]);
    }
}

/// Conversely, every sum of `x` with a value of `vs` is in
/// `raw_pair_sums`.
proof fn lemma_raw_pair_sums_intro(x: int, vs: Seq<int>, j: int)
    requires
        0 <= j < vs.len(),
    ensures
        raw_pair_sums(x, vs).contains(x + vs[j]),
    decreases vs.len(),
{
    if j == 0 {
        assert(raw_pair_sums(x, vs)[0] == x + vs[0]);
    } else {
        assert(vs.drop_first()[j - 1] == vs[j]);
        lemma_raw_pair_sums_intro(x, vs.drop_first(), j - 1);
        let rest = raw_pair_sums(x, vs.drop_first());
        let k = choose|k: int| 0 <= k < rest.len() && rest[k] == x + vs[j];
        assert(raw_pair_sums(x, vs)[k + 1] == x + vs[j]);
    }
}

/// A total found in `raw_combine` is a sum of a total of `s` with a value
/// of `vs`.
proof fn lemma_raw_combine_elim(s: Seq<int>, vs: Seq<int>, t: int)
    requires
        raw_combine(s, vs).contains(t),
    ensures
        exists|i: int, j: int|
            0 <= i < s.len() && 0 <= j < vs.len() && t == #[trigger] s[i] + #[trigger] vs[j],
    decreases s.len(),
{
    let head = raw_pair_sums(s[0], vs);
    let rest = raw_combine(s.drop_first(), vs);
    let k = choose|k: int| 0 <= k < raw_combine(s, vs).len() && raw_combine(s, vs)[k] == t;
    if k < head.len() {
        assert(head[k] == t);
        assert(head.contains(t));
        lemma_raw_pair_sums_elim(s[0], vs, t);
        let j0 = choose|j0: int| 0 <= j0 < vs.len() && t == s[0] + #[trigger] vs[j0];
        assert(0 <= 0 < s.len() && 0 <= j0 < vs.len() && t == s[0] + vs[j0]);
    } else {
        assert(rest[k - head.len()] == t);
        assert(rest.contains(t));
        lemma_raw_combine_elim(s.drop_first(), vs, t);
        let (i0, j0) = choose|i0: int, j0: int|
            0 <= i0 < s.drop_first().len() && 0 <= j0 < vs.len() && t == #[trigger] s.drop_first()[i0]
                + #[trigger] vs[j0];
        assert(s[i0 + 1] == s.drop_first()[i0]);
        assert(0 <= i0 + 1 < s.len() && t == s[i0 + 1] + vs[j0]);
    }
}

/// Conversely, every sum of a total of `s` with a value of `vs` is in
/// `raw_combine`.
proof fn lemma_raw_combine_intro(s: Seq<int>, vs: Seq<int>, i: int, j: int)
    requires
        0 <= i < s.len(),
        0 <= j < vs.len(),
    ensures
        raw_combine(s, vs).contains(s[i] + vs[j]),
    decreases s.len(),
{
    let head = raw_pair_sums(s[0], vs);
    let rest = raw_combine(s.drop_first(), vs);
    if i == 0 {
        lemma_raw_pair_sums_intro(s[0], vs, j);
        let k = choose|k: int| 0 <= k < head.len() && head[k] == s[0] + vs[j];
        assert(raw_combine(s, vs)[k] == s[i] + vs[j]);
    } else {
        assert(s.drop_first()[i - 1] == s[i]);
        lemma_raw_combine_intro(s.drop_first(), vs, i - 1, j);
        let k = choose|k: int| 0 <= k < rest.len() && rest[k] == s[i] + vs[j];
        assert(raw_combine(s, vs)[head.len() + k] == s[i] + vs[j]);
    }
}

/// Every raw sum is non-negative, card values being positive.
proof fn lemma_raw_sums_nonneg(ranks: Seq<CardValue>, t: int)
    requires
        raw_sums(ranks).contains(t),
    ensures
        t >= 0,
    decreases ranks.len(),
{
    if ranks.len() == 0 {
        let k = choose|k: int| 0 <= k < raw_sums(ranks).len() && raw_sums(ranks)[k] == t;
        assert(t == 0);
    } else {
        let prefix = ranks.drop_last();
        let vs = card_values(ranks.last());
        lemma_raw_combine_elim(raw_sums(prefix), vs, t);
        let (i0, j0) = choose|i0: int, j0: int|
            0 <= i0 < raw_sums(prefix).len() && 0 <= j0 < vs.len() && t == #[trigger] raw_sums(
                prefix,
            )[i0] + #[trigger] vs[j0];
        assert(raw_sums(prefix).contains(raw_sums(prefix)[i0]));
        lemma_raw_sums_nonneg(prefix, raw_sums(prefix)[i0]);
        lemma_card_values_bounds(ranks.last());
    }
}

/// The valuation law: the capped fold reaches exactly the raw sums that
/// stay at or under 21. Pruning intermediate totals above 21 loses no
/// final total, because every card value is positive.
pub proof fn lemma_totals_are_capped_sums(ranks: Seq<CardValue>)
    ensures
        forall|t: int| #[trigger] hand_totals(ranks).contains(t) <==> (raw_sums(ranks).contains(t)
            && t <= 21),
    decreases ranks.len(),
{
    if ranks.len() == 0 {
        assert(hand_totals(ranks) == seq![0int]);
        assert(raw_sums(ranks) == seq![0int]);
        assert forall|t: int| #[trigger] hand_totals(ranks).contains(t) implies (raw_sums(
            ranks,
        ).contains(t) && t <= 21) by {
            let k = choose|k: int|
                0 <= k < hand_totals(ranks).len() && hand_totals(ranks)[k] == t;
            assert(raw_sums(ranks)[0] == t);
        }
        assert forall|t: int|
            raw_sums(ranks).contains(t) && t <= 21 implies #[trigger] hand_totals(
            ranks,
        ).contains(t) by {
            let k = choose|k: int| 0 <= k < raw_sums(ranks).len() && raw_sums(ranks)[k] == t;
            assert(hand_totals(ranks)[0] == t);
        }
    } else {
        let prefix = ranks.drop_last();
        let vs = card_values(ranks.last());
        let sp = hand_totals(prefix);
        let rp = raw_sums(prefix);
        lemma_totals_are_capped_sums(prefix);
        lemma_card_values_bounds(ranks.last());
        assert forall|t: int| #[trigger] hand_totals(ranks).contains(t) implies (raw_sums(
            ranks,
        ).contains(t) && t <= 21) by {
            lemma_combine_totals_elim(sp, vs, t);
            let (i0, j0) = choose|i0: int, j0: int|
                0 <= i0 < sp.len() && 0 <= j0 < vs.len() && t == #[trigger] sp[i0]
                    + #[trigger] vs[j0] && t <= 21;
            assert(sp.contains(sp[i0]));
            assert(rp.contains(sp[i0]));
            let k = choose|k: int| 0 <= k < rp.len() && rp[k] == sp[i0];
            lemma_raw_combine_intro(rp, vs, k, j0);
        }
        assert forall|t: int|
            raw_sums(ranks).contains(t) && t <= 21 implies #[trigger] hand_totals(
            ranks,
        ).contains(t) by {
            lemma_raw_combine_elim(rp, vs, t);
            let (i0, j0) = choose|i0: int, j0: int|
                0 <= i0 < rp.len() && 0 <= j0 < vs.len() && t == #[trigger] rp[i0]
                    + #[trigger] vs[j0];
            assert(rp.contains(rp[i0]));
            lemma_raw_sums_nonneg(prefix, rp[i0]);
            assert(rp[i0] <= 21);
            assert(sp.contains(rp[i0]));
            let k = choose|k: int| 0 <= k < sp.len() && sp[k] == rp[i0];
            lemma_combine_totals_intro(sp, vs, k, j0);
        }
    }
}

} // verus!
