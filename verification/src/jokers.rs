//! The joker engine.
//!
//! Jokers are partitioned into three evaluation groups, applied in a fixed
//! order: jokers that read the scored cards, then jokers that read the held
//! cards, then the independent jokers (which are evaluated against both
//! context rule sets), and finally every joker card's own edition, always as
//! a scored-context edition.  Two global capabilities are derived once from
//! the joker sequence: Pareidolia (every card counts as a face card) and
//! Smeared (suits of one color count for each other).

use crate::cards::{
    color_of, is_wild, rank_face, rank_order, Card, Joker, JokerCard, PokerHand, Rank, Suit,
    SuitColor,
};
use crate::helpers::{has_color, has_suit_matching};
use crate::modifiers::{lemma_edition_keeps_ge, spec_apply_edition};
use crate::state::{
    lemma_add_chips_keeps_mult, lemma_add_mult_keeps_ge, lemma_mul_mult2_keeps_ge,
    lemma_mul_mult3_2_pow_keeps_ge, lemma_mul_mult3_keeps_ge, mult_at_least, st_add_chips,
    st_add_mult, st_mul_mult2, st_mul_mult3, st_mul_mult3_2_pow, ScoreState,
};
use vstd::prelude::*;

verus! {

// ------------------------------------------------------------------
// Per-card trigger predicates and counts
// ------------------------------------------------------------------
/// The suit condition of the four suit jokers: the primary suit, the other
/// suit of the same color when Smeared is active, or Wild.
pub open spec fn suit_trigger(c: Card, primary: Suit, smeared_mate: Suit, smeared: bool) -> bool {
    c.suit == primary || (smeared && c.suit == smeared_mate) || is_wild(c)
}

/// How many cards meet the suit condition.
pub open spec fn count_suit_trigger(s: Seq<Card>, primary: Suit, smeared_mate: Suit, smeared: bool) -> nat
    decreases s.len(),
{
    if s.len() == 0 {
        0
    } else {
        count_suit_trigger(s.drop_last(), primary, smeared_mate, smeared) + if suit_trigger(
            s.last(),
            primary,
            smeared_mate,
            smeared,
        ) {
            1nat
        } else {
            0nat
        }
    }
}

/// The ranks the Fibonacci joker rewards.
pub open spec fn fib_rank(r: Rank) -> bool {
    r == Rank::Ace || r == Rank::Two || r == Rank::Three || r == Rank::Five || r == Rank::Eight
}

/// How many cards have a Fibonacci rank.
pub open spec fn count_fib(s: Seq<Card>) -> nat
    decreases s.len(),
{
    if s.len() == 0 {
        0
    } else {
        count_fib(s.drop_last()) + if fib_rank(s.last().rank) {
            1nat
        } else {
            0nat
        }
    }
}

/// Whether a card counts as a face card, given Pareidolia.
pub open spec fn face_trigger(c: Card, pareidolia: bool) -> bool {
    rank_face(c.rank) || pareidolia
}

/// How many cards count as face cards.
pub open spec fn count_face(s: Seq<Card>, pareidolia: bool) -> nat
    decreases s.len(),
{
    if s.len() == 0 {
        0
    } else {
        count_face(s.drop_last(), pareidolia) + if face_trigger(s.last(), pareidolia) {
            1nat
        } else {
            0nat
        }
    }
}

/// Whether some card counts as a face card.
pub open spec fn has_face(s: Seq<Card>, pareidolia: bool) -> bool {
    exists|i: int| 0 <= i < s.len() && face_trigger(s[i], pareidolia)
}

/// The ranks Even Steven rewards: order at most ten and even.
pub open spec fn even_rank(r: Rank) -> bool {
    rank_order(r) <= 10 && rank_order(r) % 2 == 0
}

/// How many cards have an even rank.
pub open spec fn count_even(s: Seq<Card>) -> nat
    decreases s.len(),
{
    if s.len() == 0 {
        0
    } else {
        count_even(s.drop_last()) + if even_rank(s.last().rank) {
            1nat
        } else {
            0nat
        }
    }
}

/// The ranks Odd Todd rewards: the Ace, or an odd order below ten.
pub open spec fn odd_rank(r: Rank) -> bool {
    rank_order(r) == 14 || (rank_order(r) < 10 && rank_order(r) % 2 != 0)
}

/// How many cards have an odd rank.
pub open spec fn count_odd(s: Seq<Card>) -> nat
    decreases s.len(),
{
    if s.len() == 0 {
        0
    } else {
        count_odd(s.drop_last()) + if odd_rank(s.last().rank) {
            1nat
        } else {
            0nat
        }
    }
}

/// How many cards are Kings.
pub open spec fn count_kings(s: Seq<Card>) -> nat
    decreases s.len(),
{
    if s.len() == 0 {
        0
    } else {
        count_kings(s.drop_last()) + if s.last().rank == Rank::King {
            1nat
        } else {
            0nat
        }
    }
}

/// The lowest rank order among the cards; 15 on an empty sequence.
pub open spec fn min_rank(s: Seq<Card>) -> int
    decreases s.len(),
{
    if s.len() == 0 {
        15
    } else {
        let m = min_rank(s.drop_last());
        if rank_order(s.last().rank) < m {
            rank_order(s.last().rank)
        } else {
            m
        }
    }
}

/// Every card is black-suited or Wild (vacuously true of no cards).
pub open spec fn all_black_or_wild(s: Seq<Card>) -> bool {
    forall|i: int|
        0 <= i < s.len() ==> color_of(s[i].suit) == SuitColor::Black || is_wild(s[i])
}

/// The Flower Pot condition: at least four scored cards, and either all
/// four suits present (Wild substituting), or — with Smeared — both colors
/// present, Wild counting for either color.
pub open spec fn flower_pot_active(scored: Seq<Card>, smeared: bool) -> bool {
    scored.len() >= 4 && ((has_suit_matching(scored, Suit::Diamonds) && has_suit_matching(
        scored,
        Suit::Hearts,
    ) && has_suit_matching(scored, Suit::Spades) && has_suit_matching(scored, Suit::Clubs)) || (
    smeared && has_color(scored, SuitColor::Red) && has_color(scored, SuitColor::Black)))
}

// ------------------------------------------------------------------
// Hand groups of the independent jokers
// ------------------------------------------------------------------
/// The combinations that contain a pair.
pub open spec fn pair_hand_group(h: PokerHand) -> bool {
    h == PokerHand::Pair || h == PokerHand::TwoPair || h == PokerHand::FullHouse || h
        == PokerHand::ThreeOfAKind || h == PokerHand::FourOfAKind || h == PokerHand::FiveOfAKind
        || h == PokerHand::FlushHouse || h == PokerHand::FlushFive
}

/// The combinations that contain a three of a kind.
pub open spec fn three_hand_group(h: PokerHand) -> bool {
    h == PokerHand::ThreeOfAKind || h == PokerHand::FullHouse || h == PokerHand::FlushHouse || h
        == PokerHand::FourOfAKind || h == PokerHand::FiveOfAKind || h == PokerHand::FlushFive
}

/// The combinations that contain a two pair.
pub open spec fn two_pair_hand_group(h: PokerHand) -> bool {
    h == PokerHand::TwoPair || h == PokerHand::FullHouse || h == PokerHand::FlushHouse
}

/// The combinations that contain a straight.
pub open spec fn straight_hand_group(h: PokerHand) -> bool {
    h == PokerHand::Straight || h == PokerHand::StraightFlush
}

/// The combinations the Droll and Crafty jokers reward.
pub open spec fn flush_hand_group(h: PokerHand) -> bool {
    h == PokerHand::Flush || h == PokerHand::FlushFive || h == PokerHand::FlushHouse || h
        == PokerHand::FourOfAKind
}

// ------------------------------------------------------------------
// The joker rules
// ------------------------------------------------------------------
/// The effect of one independent joker, reading only the combination and
/// the joker count.
pub open spec fn spec_easy_joker(j: Joker, hand: PokerHand, joker_count: int, st: ScoreState) -> Option<
    ScoreState,
> {
    match j {
        Joker::Joker => st_add_mult(st, 4),
        Joker::JollyJoker => if pair_hand_group(hand) {
            st_add_mult(st, 8)
        } else {
            Some(st)
        },
        Joker::SlyJoker => if pair_hand_group(hand) {
            st_add_chips(st, 50)
        } else {
            Some(st)
        },
        Joker::ZanyJoker => if three_hand_group(hand) {
            st_add_mult(st, 12)
        } else {
            Some(st)
        },
        Joker::WilyJoker => if three_hand_group(hand) {
            st_add_chips(st, 100)
        } else {
            Some(st)
        },
        Joker::MadJoker => if two_pair_hand_group(hand) {
            st_add_mult(st, 10)
        } else {
            Some(st)
        },
        Joker::CleverJoker => if two_pair_hand_group(hand) {
            st_add_chips(st, 80)
        } else {
            Some(st)
        },
        Joker::CrazyJoker => if straight_hand_group(hand) {
            st_add_mult(st, 12)
        } else {
            Some(st)
        },
        Joker::DeviousJoker => if straight_hand_group(hand) {
            st_add_chips(st, 100)
        } else {
            Some(st)
        },
        Joker::DrollJoker => if flush_hand_group(hand) {
            st_add_mult(st, 10)
        } else {
            Some(st)
        },
        Joker::CraftyJoker => if flush_hand_group(hand) {
            st_add_chips(st, 80)
        } else {
            Some(st)
        },
        Joker::AbstractJoker => st_add_mult(st, 3 * joker_count),
        _ => Some(st),
    }
}

/// The effect of one context joker, reading the held or scored cards.
pub open spec fn spec_medium_joker(
    j: Joker,
    held: Seq<Card>,
    scored: Seq<Card>,
    st: ScoreState,
    pareidolia: bool,
    smeared: bool,
) -> Option<ScoreState> {
    match j {
        Joker::RaisedFist => if held.len() == 0 {
            Some(st)
        } else {
            st_add_mult(st, 2 * min_rank(held))
        },
        Joker::Blackboard => if all_black_or_wild(held) {
            st_mul_mult3(st)
        } else {
            Some(st)
        },
        Joker::Baron => st_mul_mult3_2_pow(st, count_kings(held) as int),
        Joker::GreedyJoker => st_add_mult(
            st,
            3 * (count_suit_trigger(scored, Suit::Diamonds, Suit::Hearts, smeared) as int),
        ),
        Joker::LustyJoker => st_add_mult(
            st,
            3 * (count_suit_trigger(scored, Suit::Hearts, Suit::Diamonds, smeared) as int),
        ),
        Joker::WrathfulJoker => st_add_mult(
            st,
            3 * (count_suit_trigger(scored, Suit::Spades, Suit::Clubs, smeared) as int),
        ),
        Joker::GluttonousJoker => st_add_mult(
            st,
            3 * (count_suit_trigger(scored, Suit::Clubs, Suit::Spades, smeared) as int),
        ),
        Joker::Fibonacci => st_add_mult(st, 8 * (count_fib(scored) as int)),
        Joker::ScaryFace => st_add_chips(st, 30 * (count_face(scored, pareidolia) as int)),
        Joker::EvenSteven => st_add_mult(st, 4 * (count_even(scored) as int)),
        Joker::OddTodd => st_add_chips(st, 31 * (count_odd(scored) as int)),
        Joker::Photograph => if has_face(scored, pareidolia) {
            st_mul_mult2(st)
        } else {
            Some(st)
        },
        Joker::SmileyFace => st_add_mult(st, 5 * (count_face(scored, pareidolia) as int)),
        Joker::FlowerPot => if flower_pot_active(scored, smeared) {
            st_mul_mult3(st)
        } else {
            Some(st)
        },
        _ => Some(st),
    }
}

/// The jokers evaluated in the scored-context pass.
pub open spec fn is_scored_context(j: Joker) -> bool {
    j == Joker::GreedyJoker || j == Joker::LustyJoker || j == Joker::WrathfulJoker || j
        == Joker::GluttonousJoker || j == Joker::Fibonacci || j == Joker::ScaryFace || j
        == Joker::EvenSteven || j == Joker::OddTodd || j == Joker::Photograph || j
        == Joker::SmileyFace || j == Joker::SockAndBuskin
}

/// The jokers evaluated in the held-context pass.
pub open spec fn is_held_context(j: Joker) -> bool {
    j == Joker::RaisedFist || j == Joker::Baron || j == Joker::Mime
}

/// The jokers evaluated in the independent pass.
pub open spec fn is_independent(j: Joker) -> bool {
    j == Joker::Joker || j == Joker::JollyJoker || j == Joker::ZanyJoker || j == Joker::MadJoker
        || j == Joker::CrazyJoker || j == Joker::DrollJoker || j == Joker::SlyJoker || j
        == Joker::WilyJoker || j == Joker::CleverJoker || j == Joker::DeviousJoker || j
        == Joker::CraftyJoker || j == Joker::AbstractJoker || j == Joker::Blackboard || j
        == Joker::FlowerPot
}

// ------------------------------------------------------------------
// The four passes
// ------------------------------------------------------------------
/// The scored-context pass over the jokers, in order.
pub open spec fn spec_scored_pass(
    js: Seq<JokerCard>,
    held: Seq<Card>,
    scored: Seq<Card>,
    st: ScoreState,
    pareidolia: bool,
    smeared: bool,
) -> Option<ScoreState>
    decreases js.len(),
{
    if js.len() == 0 {
        Some(st)
    } else {
        let step = if is_scored_context(js[0].joker) {
            spec_medium_joker(js[0].joker, held, scored, st, pareidolia, smeared)
        } else {
            Some(st)
        };
        match step {
            Some(s1) => spec_scored_pass(js.skip(1), held, scored, s1, pareidolia, smeared),
            None => None,
        }
    }
}

/// The held-context pass over the jokers, in order.
pub open spec fn spec_held_pass(
    js: Seq<JokerCard>,
    held: Seq<Card>,
    scored: Seq<Card>,
    st: ScoreState,
    pareidolia: bool,
    smeared: bool,
) -> Option<ScoreState>
    decreases js.len(),
{
    if js.len() == 0 {
        Some(st)
    } else {
        let step = if is_held_context(js[0].joker) {
            spec_medium_joker(js[0].joker, held, scored, st, pareidolia, smeared)
        } else {
            Some(st)
        };
        match step {
            Some(s1) => spec_held_pass(js.skip(1), held, scored, s1, pareidolia, smeared),
            None => None,
        }
    }
}

/// One independent joker: its hand-shape rule, then its context rules.
pub open spec fn spec_independent_step(
    j: Joker,
    joker_count: int,
    held: Seq<Card>,
    scored: Seq<Card>,
    hand: PokerHand,
    st: ScoreState,
    pareidolia: bool,
    smeared: bool,
) -> Option<ScoreState> {
    match spec_easy_joker(j, hand, joker_count, st) {
        Some(s1) => spec_medium_joker(j, held, scored, s1, pareidolia, smeared),
        None => None,
    }
}

/// The independent pass over the jokers, in order.
pub open spec fn spec_independent_pass(
    js: Seq<JokerCard>,
    joker_count: int,
    held: Seq<Card>,
    scored: Seq<Card>,
    hand: PokerHand,
    st: ScoreState,
    pareidolia: bool,
    smeared: bool,
) -> Option<ScoreState>
    decreases js.len(),
{
    if js.len() == 0 {
        Some(st)
    } else {
        let step = if is_independent(js[0].joker) {
            spec_independent_step(
                js[0].joker,
                joker_count,
                held,
                scored,
                hand,
                st,
                pareidolia,
                smeared,
            )
        } else {
            Some(st)
        };
        match step {
            Some(s1) => spec_independent_pass(
                js.skip(1),
                joker_count,
                held,
                scored,
                hand,
                s1,
                pareidolia,
                smeared,
            ),
            None => None,
        }
    }
}

/// The final pass: each joker card's own edition, as a scored edition.
pub open spec fn spec_edition_pass(js: Seq<JokerCard>, st: ScoreState) -> Option<ScoreState>
    decreases js.len(),
{
    if js.len() == 0 {
        Some(st)
    } else {
        let step = match js[0].edition {
            Some(ed) => spec_apply_edition(ed, st, false),
            None => Some(st),
        };
        match step {
            Some(s1) => spec_edition_pass(js.skip(1), s1),
            None => None,
        }
    }
}

/// All joker effects: the scored pass, the held pass, the independent pass
/// and the edition pass, in that order.
pub open spec fn spec_joker_application(
    js: Seq<JokerCard>,
    held: Seq<Card>,
    scored: Seq<Card>,
    hand: PokerHand,
    st: ScoreState,
) -> Option<ScoreState> {
    let pareidolia = crate::cards::joker_present(js, Joker::Pareidolia);
    let smeared = crate::cards::joker_present(js, Joker::SmearedJoker);
    match spec_scored_pass(js, held, scored, st, pareidolia, smeared) {
        Some(s1) => match spec_held_pass(js, held, scored, s1, pareidolia, smeared) {
            Some(s2) => match spec_independent_pass(
                js,
                js.len() as int,
                held,
                scored,
                hand,
                s2,
                pareidolia,
                smeared,
            ) {
                Some(s3) => spec_edition_pass(js, s3),
                None => None,
            },
            None => None,
        },
        None => None,
    }
}

// ------------------------------------------------------------------
// Executable counting helpers
// ------------------------------------------------------------------
/// Counts the cards meeting the suit condition.
fn count_suit_trigger_exec(cards: &Vec<Card>, primary: Suit, smeared_mate: Suit, smeared: bool) -> (r:
    usize)
    ensures
        r == count_suit_trigger(cards@, primary, smeared_mate, smeared),
{
    let mut cnt: usize = 0;
    let mut i: usize = 0;
    proof {
        assert(cards@.take(0) =~= Seq::<Card>::empty());
    }
    while i < cards.len()
        invariant
            i <= cards.len(),
            cnt <= i,
            cnt == count_suit_trigger(cards@.take(i as int), primary, smeared_mate, smeared),
        decreases cards.len() - i,
    {
        proof {
            assert(cards@.take(i as int + 1).drop_last() =~= cards@.take(i as int));
            assert(cards@.take(i as int + 1).last() == cards@[i as int]);
        }
        let c = cards[i];
        if c.suit == primary || (smeared && c.suit == smeared_mate) || crate::cards::card_is_wild(
            &c,
        ) {
            cnt = cnt + 1;
        }
        i = i + 1;
    }
    proof {
        assert(cards@.take(cards@.len() as int) =~= cards@);
    }
    cnt
}

/// Counts the cards with a Fibonacci rank.
fn count_fib_exec(cards: &Vec<Card>) -> (r: usize)
    ensures
        r == count_fib(cards@),
{
    let mut cnt: usize = 0;
    let mut i: usize = 0;
    proof {
        assert(cards@.take(0) =~= Seq::<Card>::empty());
    }
    while i < cards.len()
        invariant
            i <= cards.len(),
            cnt <= i,
            cnt == count_fib(cards@.take(i as int)),
        decreases cards.len() - i,
    {
        proof {
            assert(cards@.take(i as int + 1).drop_last() =~= cards@.take(i as int));
            assert(cards@.take(i as int + 1).last() == cards@[i as int]);
        }
        if matches!(cards[i].rank, Rank::Ace | Rank::Two | Rank::Three | Rank::Five | Rank::Eight) {
            cnt = cnt + 1;
        }
        i = i + 1;
    }
    proof {
        assert(cards@.take(cards@.len() as int) =~= cards@);
    }
    cnt
}

/// Counts the cards that count as face cards.
fn count_face_exec(cards: &Vec<Card>, pareidolia: bool) -> (r: usize)
    ensures
        r == count_face(cards@, pareidolia),
{
    let mut cnt: usize = 0;
    let mut i: usize = 0;
    proof {
        assert(cards@.take(0) =~= Seq::<Card>::empty());
    }
    while i < cards.len()
        invariant
            i <= cards.len(),
            cnt <= i,
            cnt == count_face(cards@.take(i as int), pareidolia),
        decreases cards.len() - i,
    {
        proof {
            assert(cards@.take(i as int + 1).drop_last() =~= cards@.take(i as int));
            assert(cards@.take(i as int + 1).last() == cards@[i as int]);
        }
        if cards[i].rank.is_face() || pareidolia {
            cnt = cnt + 1;
        }
        i = i + 1;
    }
    proof {
        assert(cards@.take(cards@.len() as int) =~= cards@);
    }
    cnt
}

/// Counts the cards with an even rank of order at most ten.
fn count_even_exec(cards: &Vec<Card>) -> (r: usize)
    ensures
        r == count_even(cards@),
{
    let mut cnt: usize = 0;
    let mut i: usize = 0;
    proof {
        assert(cards@.take(0) =~= Seq::<Card>::empty());
    }
    while i < cards.len()
        invariant
            i <= cards.len(),
            cnt <= i,
            cnt == count_even(cards@.take(i as int)),
        decreases cards.len() - i,
    {
        proof {
            assert(cards@.take(i as int + 1).drop_last() =~= cards@.take(i as int));
            assert(cards@.take(i as int + 1).last() == cards@[i as int]);
        }
        let v = cards[i].rank.rank_value();
        if v <= 10 && v % 2 == 0 {
            cnt = cnt + 1;
        }
        i = i + 1;
    }
    proof {
        assert(cards@.take(cards@.len() as int) =~= cards@);
    }
    cnt
}

/// Counts the cards with the Ace or an odd rank of order below ten.
fn count_odd_exec(cards: &Vec<Card>) -> (r: usize)
    ensures
        r == count_odd(cards@),
{
    let mut cnt: usize = 0;
    let mut i: usize = 0;
    proof {
        assert(cards@.take(0) =~= Seq::<Card>::empty());
    }
    while i < cards.len()
        invariant
            i <= cards.len(),
            cnt <= i,
            cnt == count_odd(cards@.take(i as int)),
        decreases cards.len() - i,
    {
        proof {
            assert(cards@.take(i as int + 1).drop_last() =~= cards@.take(i as int));
            assert(cards@.take(i as int + 1).last() == cards@[i as int]);
        }
        let v = cards[i].rank.rank_value();
        if v == 14 || (v < 10 && v % 2 != 0) {
            cnt = cnt + 1;
        }
        i = i + 1;
    }
    proof {
        assert(cards@.take(cards@.len() as int) =~= cards@);
    }
    cnt
}

/// Counts the Kings.
fn count_kings_exec(cards: &Vec<Card>) -> (r: usize)
    ensures
        r == count_kings(cards@),
{
    let mut cnt: usize = 0;
    let mut i: usize = 0;
    proof {
        assert(cards@.take(0) =~= Seq::<Card>::empty());
    }
    while i < cards.len()
        invariant
            i <= cards.len(),
            cnt <= i,
            cnt == count_kings(cards@.take(i as int)),
        decreases cards.len() - i,
    {
        proof {
            assert(cards@.take(i as int + 1).drop_last() =~= cards@.take(i as int));
            assert(cards@.take(i as int + 1).last() == cards@[i as int]);
        }
        if matches!(cards[i].rank, Rank::King) {
            cnt = cnt + 1;
        }
        i = i + 1;
    }
    proof {
        assert(cards@.take(cards@.len() as int) =~= cards@);
    }
    cnt
}

/// The lowest rank order among the cards; 15 of no cards.
fn min_rank_exec(cards: &Vec<Card>) -> (r: u64)
    ensures
        r == min_rank(cards@),
{
    let mut cur: u64 = 15;
    let mut i: usize = 0;
    proof {
        assert(cards@.take(0) =~= Seq::<Card>::empty());
    }
    while i < cards.len()
        invariant
            i <= cards.len(),
            cur == min_rank(cards@.take(i as int)),
        decreases cards.len() - i,
    {
        proof {
            assert(cards@.take(i as int + 1).drop_last() =~= cards@.take(i as int));
            assert(cards@.take(i as int + 1).last() == cards@[i as int]);
        }
        let v = cards[i].rank.rank_value();
        if v < cur {
            cur = v;
        }
        i = i + 1;
    }
    proof {
        assert(cards@.take(cards@.len() as int) =~= cards@);
    }
    cur
}

/// Whether some card counts as a face card.
fn has_face_exec(cards: &Vec<Card>, pareidolia: bool) -> (r: bool)
    ensures
        r == has_face(cards@, pareidolia),
{
    let mut i: usize = 0;
    while i < cards.len()
        invariant
            i <= cards.len(),
            forall|j: int| 0 <= j < i ==> !face_trigger(cards@[j], pareidolia),
        decreases cards.len() - i,
    {
        if cards[i].rank.is_face() || pareidolia {
            return true;
        }
        i = i + 1;
    }
    false
}

/// Whether some card is of the given color, Wild counting for every color.
fn has_color_exec(cards: &Vec<Card>, color: SuitColor) -> (r: bool)
    ensures
        r == has_color(cards@, color),
{
    let mut i: usize = 0;
    while i < cards.len()
        invariant
            i <= cards.len(),
            forall|j: int|
                0 <= j < i ==> !(color_of(cards@[j].suit) == color || is_wild(cards@[j])),
        decreases cards.len() - i,
    {
        let c = cards[i];
        let is_color = match c.suit.color() {
            SuitColor::Red => matches!(color, SuitColor::Red),
            SuitColor::Black => matches!(color, SuitColor::Black),
        };
        if is_color || crate::cards::card_is_wild(&c) {
            return true;
        }
        i = i + 1;
    }
    false
}

/// Whether every card is black-suited or Wild.
fn all_black_or_wild_exec(cards: &Vec<Card>) -> (r: bool)
    ensures
        r == all_black_or_wild(cards@),
{
    let mut i: usize = 0;
    while i < cards.len()
        invariant
            i <= cards.len(),
            forall|j: int|
                0 <= j < i ==> color_of(cards@[j].suit) == SuitColor::Black || is_wild(cards@[j]),
        decreases cards.len() - i,
    {
        let c = cards[i];
        let black = matches!(c.suit.color(), SuitColor::Black);
        if !(black || crate::cards::card_is_wild(&c)) {
            return false;
        }
        i = i + 1;
    }
    true
}

// ------------------------------------------------------------------
// The executable engine
// ------------------------------------------------------------------
/// Applies one independent joker's hand-shape rule.
pub fn apply_easy_jokers(joker: Joker, hand: PokerHand, joker_cards_len: usize, st: ScoreState) -> (r:
    Option<ScoreState>)
    ensures
        r == spec_easy_joker(joker, hand, joker_cards_len as int, st),
{
    let in_pair_group = matches!(
        hand,
        PokerHand::Pair | PokerHand::TwoPair | PokerHand::FullHouse | PokerHand::ThreeOfAKind
            | PokerHand::FourOfAKind | PokerHand::FiveOfAKind | PokerHand::FlushHouse
            | PokerHand::FlushFive
    );
    let in_three_group = matches!(
        hand,
        PokerHand::ThreeOfAKind | PokerHand::FullHouse | PokerHand::FlushHouse
            | PokerHand::FourOfAKind | PokerHand::FiveOfAKind | PokerHand::FlushFive
    );
    let in_two_pair_group = matches!(
        hand,
        PokerHand::TwoPair | PokerHand::FullHouse | PokerHand::FlushHouse
    );
    let in_straight_group = matches!(hand, PokerHand::Straight | PokerHand::StraightFlush);
    let in_flush_group = matches!(
        hand,
        PokerHand::Flush | PokerHand::FlushFive | PokerHand::FlushHouse | PokerHand::FourOfAKind
    );
    match joker {
        Joker::Joker => st.add_mult(4),
        Joker::JollyJoker => if in_pair_group {
            st.add_mult(8)
        } else {
            Some(st)
        },
        Joker::SlyJoker => if in_pair_group {
            st.add_chips(50)
        } else {
            Some(st)
        },
        Joker::ZanyJoker => if in_three_group {
            st.add_mult(12)
        } else {
            Some(st)
        },
        Joker::WilyJoker => if in_three_group {
            st.add_chips(100)
        } else {
            Some(st)
        },
        Joker::MadJoker => if in_two_pair_group {
            st.add_mult(10)
        } else {
            Some(st)
        },
        Joker::CleverJoker => if in_two_pair_group {
            st.add_chips(80)
        } else {
            Some(st)
        },
        Joker::CrazyJoker => if in_straight_group {
            st.add_mult(12)
        } else {
            Some(st)
        },
        Joker::DeviousJoker => if in_straight_group {
            st.add_chips(100)
        } else {
            Some(st)
        },
        Joker::DrollJoker => if in_flush_group {
            st.add_mult(10)
        } else {
            Some(st)
        },
        Joker::CraftyJoker => if in_flush_group {
            st.add_chips(80)
        } else {
            Some(st)
        },
        Joker::AbstractJoker => st.add_mult_times(3, joker_cards_len),
        _ => Some(st),
    }
}

/// Applies one context joker's rule against the held and scored cards.
pub fn apply_medium_jokers(
    joker: Joker,
    on_held: &Vec<Card>,
    on_scored: &Vec<Card>,
    st: ScoreState,
    is_pareidolia_exists: bool,
    is_smeared_exists: bool,
) -> (r: Option<ScoreState>)
    ensures
        r == spec_medium_joker(
            joker,
            on_held@,
            on_scored@,
            st,
            is_pareidolia_exists,
            is_smeared_exists,
        ),
{
    match joker {
        Joker::RaisedFist => {
            if on_held.len() == 0 {
                Some(st)
            } else {
                let m = min_rank_exec(on_held);
                st.add_mult(2 * m)
            }
        },
        Joker::Blackboard => {
            if all_black_or_wild_exec(on_held) {
                st.mul_mult3()
            } else {
                Some(st)
            }
        },
        Joker::Baron => {
            let k = count_kings_exec(on_held);
            st.mul_mult3_2_pow(k)
        },
        Joker::GreedyJoker => {
            let c = count_suit_trigger_exec(on_scored, Suit::Diamonds, Suit::Hearts, is_smeared_exists);
            st.add_mult_times(3, c)
        },
        Joker::LustyJoker => {
            let c = count_suit_trigger_exec(on_scored, Suit::Hearts, Suit::Diamonds, is_smeared_exists);
            st.add_mult_times(3, c)
        },
        Joker::WrathfulJoker => {
            let c = count_suit_trigger_exec(on_scored, Suit::Spades, Suit::Clubs, is_smeared_exists);
            st.add_mult_times(3, c)
        },
        Joker::GluttonousJoker => {
            let c = count_suit_trigger_exec(on_scored, Suit::Clubs, Suit::Spades, is_smeared_exists);
            st.add_mult_times(3, c)
        },
        Joker::Fibonacci => {
            let c = count_fib_exec(on_scored);
            st.add_mult_times(8, c)
        },
        Joker::ScaryFace => {
            let c = count_face_exec(on_scored, is_pareidolia_exists);
            st.add_chips_times(30, c)
        },
        Joker::EvenSteven => {
            let c = count_even_exec(on_scored);
            st.add_mult_times(4, c)
        },
        Joker::OddTodd => {
            let c = count_odd_exec(on_scored);
            st.add_chips_times(31, c)
        },
        Joker::Photograph => {
            if has_face_exec(on_scored, is_pareidolia_exists) {
                st.mul_mult2()
            } else {
                Some(st)
            }
        },
        Joker::SmileyFace => {
            let c = count_face_exec(on_scored, is_pareidolia_exists);
            st.add_mult_times(5, c)
        },
        Joker::FlowerPot => {
            if on_scored.len() >= 4 {
                let d = crate::helpers::determine_current_suit(on_scored, Suit::Diamonds);
                let h = crate::helpers::determine_current_suit(on_scored, Suit::Hearts);
                let s = crate::helpers::determine_current_suit(on_scored, Suit::Spades);
                let c = crate::helpers::determine_current_suit(on_scored, Suit::Clubs);
                let red = has_color_exec(on_scored, SuitColor::Red);
                let black = has_color_exec(on_scored, SuitColor::Black);
                if (d && h && s && c) || (is_smeared_exists && red && black) {
                    st.mul_mult3()
                } else {
                    Some(st)
                }
            } else {
                Some(st)
            }
        },
        _ => Some(st),
    }
}

/// Applies every joker effect: the scored pass, the held pass, the
/// independent pass, then each joker card's own edition.
pub fn joker_application(
    joker_cards: &Vec<JokerCard>,
    on_held_cards: &Vec<Card>,
    on_scored_cards: &Vec<Card>,
    hand: PokerHand,
    st: ScoreState,
) -> (r: Option<ScoreState>)
    ensures
        r == spec_joker_application(joker_cards@, on_held_cards@, on_scored_cards@, hand, st),
{
    let pareidolia = crate::cards::any_joker(joker_cards, Joker::Pareidolia);
    let smeared = crate::cards::any_joker(joker_cards, Joker::SmearedJoker);
    let total = joker_cards.len();

    let mut cur = st;
    let mut i: usize = 0;
    proof {
        assert(joker_cards@.skip(0) =~= joker_cards@);
    }
    while i < joker_cards.len()
        invariant
            i <= joker_cards.len(),
            pareidolia == crate::cards::joker_present(joker_cards@, Joker::Pareidolia),
            smeared == crate::cards::joker_present(joker_cards@, Joker::SmearedJoker),
            spec_scored_pass(joker_cards@, on_held_cards@, on_scored_cards@, st, pareidolia, smeared)
                == spec_scored_pass(
                joker_cards@.skip(i as int),
                on_held_cards@,
                on_scored_cards@,
                cur,
                pareidolia,
                smeared,
            ),
        decreases joker_cards.len() - i,
    {
        proof {
            assert(joker_cards@.skip(i as int)[0] == joker_cards@[i as int]);
            assert(joker_cards@.skip(i as int).skip(1) =~= joker_cards@.skip(i as int + 1));
        }
        let j = joker_cards[i].joker;
        let scored_ctx = matches!(
            j,
            Joker::GreedyJoker | Joker::LustyJoker | Joker::WrathfulJoker | Joker::GluttonousJoker
                | Joker::Fibonacci | Joker::ScaryFace | Joker::EvenSteven | Joker::OddTodd
                | Joker::Photograph | Joker::SmileyFace | Joker::SockAndBuskin
        );
        if scored_ctx {
            match apply_medium_jokers(j, on_held_cards, on_scored_cards, cur, pareidolia, smeared) {
                Some(s1) => {
                    cur = s1;
                },
                None => {
                    return None;
                },
            }
        }
        i = i + 1;
    }
    proof {
        assert(joker_cards@.skip(joker_cards@.len() as int) =~= Seq::<JokerCard>::empty());
    }

    let mut i: usize = 0;
    let ghost s1 = cur;
    proof {
        assert(joker_cards@.skip(0) =~= joker_cards@);
    }
    while i < joker_cards.len()
        invariant
            i <= joker_cards.len(),
            pareidolia == crate::cards::joker_present(joker_cards@, Joker::Pareidolia),
            smeared == crate::cards::joker_present(joker_cards@, Joker::SmearedJoker),
            spec_scored_pass(joker_cards@, on_held_cards@, on_scored_cards@, st, pareidolia, smeared)
                == Some(s1),
            spec_held_pass(joker_cards@, on_held_cards@, on_scored_cards@, s1, pareidolia, smeared)
                == spec_held_pass(
                joker_cards@.skip(i as int),
                on_held_cards@,
                on_scored_cards@,
                cur,
                pareidolia,
                smeared,
            ),
        decreases joker_cards.len() - i,
    {
        proof {
            assert(joker_cards@.skip(i as int)[0] == joker_cards@[i as int]);
            assert(joker_cards@.skip(i as int).skip(1) =~= joker_cards@.skip(i as int + 1));
        }
        let j = joker_cards[i].joker;
        if matches!(j, Joker::RaisedFist | Joker::Baron | Joker::Mime) {
            match apply_medium_jokers(j, on_held_cards, on_scored_cards, cur, pareidolia, smeared) {
                Some(s) => {
                    cur = s;
                },
                None => {
                    return None;
                },
            }
        }
        i = i + 1;
    }
    proof {
        assert(joker_cards@.skip(joker_cards@.len() as int) =~= Seq::<JokerCard>::empty());
    }

    let mut i: usize = 0;
    let ghost s2 = cur;
    proof {
        assert(joker_cards@.skip(0) =~= joker_cards@);
    }
    while i < joker_cards.len()
        invariant
            i <= joker_cards.len(),
            total == joker_cards.len(),
            pareidolia == crate::cards::joker_present(joker_cards@, Joker::Pareidolia),
            smeared == crate::cards::joker_present(joker_cards@, Joker::SmearedJoker),
            spec_scored_pass(joker_cards@, on_held_cards@, on_scored_cards@, st, pareidolia, smeared)
                == Some(s1),
            spec_held_pass(joker_cards@, on_held_cards@, on_scored_cards@, s1, pareidolia, smeared)
                == Some(s2),
            spec_independent_pass(
                joker_cards@,
                total as int,
                on_held_cards@,
                on_scored_cards@,
                hand,
                s2,
                pareidolia,
                smeared,
            ) == spec_independent_pass(
                joker_cards@.skip(i as int),
                total as int,
                on_held_cards@,
                on_scored_cards@,
                hand,
                cur,
                pareidolia,
                smeared,
            ),
        decreases joker_cards.len() - i,
    {
        proof {
            assert(joker_cards@.skip(i as int)[0] == joker_cards@[i as int]);
            assert(joker_cards@.skip(i as int).skip(1) =~= joker_cards@.skip(i as int + 1));
        }
        let j = joker_cards[i].joker;
        let independent = matches!(
            j,
            Joker::Joker | Joker::JollyJoker | Joker::ZanyJoker | Joker::MadJoker
                | Joker::CrazyJoker | Joker::DrollJoker | Joker::SlyJoker | Joker::WilyJoker
                | Joker::CleverJoker | Joker::DeviousJoker | Joker::CraftyJoker
                | Joker::AbstractJoker | Joker::Blackboard | Joker::FlowerPot
        );
        if independent {
            let after_easy = apply_easy_jokers(j, hand, total, cur);
            let after_step = match after_easy {
                Some(s) => apply_medium_jokers(
                    j,
                    on_held_cards,
                    on_scored_cards,
                    s,
                    pareidolia,
                    smeared,
                ),
                None => None,
            };
            match after_step {
                Some(s) => {
                    cur = s;
                },
                None => {
                    return None;
                },
            }
        }
        i = i + 1;
    }
    proof {
        assert(joker_cards@.skip(joker_cards@.len() as int) =~= Seq::<JokerCard>::empty());
    }

    let mut i: usize = 0;
    let ghost s3 = cur;
    proof {
        assert(joker_cards@.skip(0) =~= joker_cards@);
    }
    while i < joker_cards.len()
        invariant
            i <= joker_cards.len(),
            pareidolia == crate::cards::joker_present(joker_cards@, Joker::Pareidolia),
            smeared == crate::cards::joker_present(joker_cards@, Joker::SmearedJoker),
            spec_scored_pass(joker_cards@, on_held_cards@, on_scored_cards@, st, pareidolia, smeared)
                == Some(s1),
            spec_held_pass(joker_cards@, on_held_cards@, on_scored_cards@, s1, pareidolia, smeared)
                == Some(s2),
            spec_independent_pass(
                joker_cards@,
                joker_cards@.len() as int,
                on_held_cards@,
                on_scored_cards@,
                hand,
                s2,
                pareidolia,
                smeared,
            ) == Some(s3),
            spec_edition_pass(joker_cards@, s3) == spec_edition_pass(
                joker_cards@.skip(i as int),
                cur,
            ),
        decreases joker_cards.len() - i,
    {
        proof {
            assert(joker_cards@.skip(i as int)[0] == joker_cards@[i as int]);
            assert(joker_cards@.skip(i as int).skip(1) =~= joker_cards@.skip(i as int + 1));
        }
        let step = match joker_cards[i].edition {
            Some(ed) => crate::modifiers::apply_edition(ed, cur, false),
            None => Some(cur),
        };
        match step {
            Some(s) => {
                cur = s;
            },
            None => {
                return None;
            },
        }
        i = i + 1;
    }
    proof {
        assert(joker_cards@.skip(joker_cards@.len() as int) =~= Seq::<JokerCard>::empty());
    }
    Some(cur)
}


// ------------------------------------------------------------------
// The joker engine never lowers the multiplier below the base
// ------------------------------------------------------------------
/// The lowest rank order lies between 0 and 15.
pub proof fn lemma_min_rank_bounds(s: Seq<Card>)
    ensures
        0 <= min_rank(s) <= 15,
    decreases s.len(),
{
    if s.len() > 0 {
        lemma_min_rank_bounds(s.drop_last());
    }
}

/// A hand-shape joker keeps the multiplier bound.
pub proof fn lemma_easy_joker_keeps_ge(
    j: Joker,
    hand: PokerHand,
    joker_count: int,
    st: ScoreState,
    b: int,
)
    requires
        mult_at_least(st, b),
        b >= 0,
        joker_count >= 0,
        spec_easy_joker(j, hand, joker_count, st) is Some,
    ensures
        mult_at_least(spec_easy_joker(j, hand, joker_count, st)->Some_0, b),
{
    match j {
        Joker::Joker => lemma_add_mult_keeps_ge(st, 4, b),
        Joker::JollyJoker => if pair_hand_group(hand) {
            lemma_add_mult_keeps_ge(st, 8, b);
        },
        Joker::SlyJoker => if pair_hand_group(hand) {
            lemma_add_chips_keeps_mult(st, 50, b);
        },
        Joker::ZanyJoker => if three_hand_group(hand) {
            lemma_add_mult_keeps_ge(st, 12, b);
        },
        Joker::WilyJoker => if three_hand_group(hand) {
            lemma_add_chips_keeps_mult(st, 100, b);
        },
        Joker::MadJoker => if two_pair_hand_group(hand) {
            lemma_add_mult_keeps_ge(st, 10, b);
        },
        Joker::CleverJoker => if two_pair_hand_group(hand) {
            lemma_add_chips_keeps_mult(st, 80, b);
        },
        Joker::CrazyJoker => if straight_hand_group(hand) {
            lemma_add_mult_keeps_ge(st, 12, b);
        },
        Joker::DeviousJoker => if straight_hand_group(hand) {
            lemma_add_chips_keeps_mult(st, 100, b);
        },
        Joker::DrollJoker => if flush_hand_group(hand) {
            lemma_add_mult_keeps_ge(st, 10, b);
        },
        Joker::CraftyJoker => if flush_hand_group(hand) {
            lemma_add_chips_keeps_mult(st, 80, b);
        },
        Joker::AbstractJoker => lemma_add_mult_keeps_ge(st, 3 * joker_count, b),
        _ => (),
    }
}

/// A context joker keeps the multiplier bound.
pub proof fn lemma_medium_joker_keeps_ge(
    j: Joker,
    held: Seq<Card>,
    scored: Seq<Card>,
    st: ScoreState,
    pareidolia: bool,
    smeared: bool,
    b: int,
)
    requires
        mult_at_least(st, b),
        b >= 0,
        spec_medium_joker(j, held, scored, st, pareidolia, smeared) is Some,
    ensures
        mult_at_least(spec_medium_joker(j, held, scored, st, pareidolia, smeared)->Some_0, b),
{
    match j {
        Joker::RaisedFist => if held.len() > 0 {
            lemma_min_rank_bounds(held);
            lemma_add_mult_keeps_ge(st, 2 * min_rank(held), b);
        },
        Joker::Blackboard => if all_black_or_wild(held) {
            lemma_mul_mult3_keeps_ge(st, b);
        },
        Joker::Baron => lemma_mul_mult3_2_pow_keeps_ge(st, count_kings(held) as int, b),
        Joker::GreedyJoker => lemma_add_mult_keeps_ge(
            st,
            3 * (count_suit_trigger(scored, Suit::Diamonds, Suit::Hearts, smeared) as int),
            b,
        ),
        Joker::LustyJoker => lemma_add_mult_keeps_ge(
            st,
            3 * (count_suit_trigger(scored, Suit::Hearts, Suit::Diamonds, smeared) as int),
            b,
        ),
        Joker::WrathfulJoker => lemma_add_mult_keeps_ge(
            st,
            3 * (count_suit_trigger(scored, Suit::Spades, Suit::Clubs, smeared) as int),
            b,
        ),
        Joker::GluttonousJoker => lemma_add_mult_keeps_ge(
            st,
            3 * (count_suit_trigger(scored, Suit::Clubs, Suit::Spades, smeared) as int),
            b,
        ),
        Joker::Fibonacci => lemma_add_mult_keeps_ge(st, 8 * (count_fib(scored) as int), b),
        Joker::ScaryFace => lemma_add_chips_keeps_mult(st, 30 * (count_face(scored, pareidolia) as int), b),
        Joker::EvenSteven => lemma_add_mult_keeps_ge(st, 4 * (count_even(scored) as int), b),
        Joker::OddTodd => lemma_add_chips_keeps_mult(st, 31 * (count_odd(scored) as int), b),
        Joker::Photograph => if has_face(scored, pareidolia) {
            lemma_mul_mult2_keeps_ge(st, b);
        },
        Joker::SmileyFace => lemma_add_mult_keeps_ge(st, 5 * (count_face(scored, pareidolia) as int), b),
        Joker::FlowerPot => if flower_pot_active(scored, smeared) {
            lemma_mul_mult3_keeps_ge(st, b);
        },
        _ => (),
    }
}

/// The scored-context pass keeps the multiplier bound.
pub proof fn lemma_scored_pass_keeps_ge(
    js: Seq<JokerCard>,
    held: Seq<Card>,
    scored: Seq<Card>,
    st: ScoreState,
    pareidolia: bool,
    smeared: bool,
    b: int,
)
    requires
        mult_at_least(st, b),
        b >= 0,
        spec_scored_pass(js, held, scored, st, pareidolia, smeared) is Some,
    ensures
        mult_at_least(spec_scored_pass(js, held, scored, st, pareidolia, smeared)->Some_0, b),
    decreases js.len(),
{
    if js.len() > 0 {
        let s1 = if is_scored_context(js[0].joker) {
            lemma_medium_joker_keeps_ge(js[0].joker, held, scored, st, pareidolia, smeared, b);
            spec_medium_joker(js[0].joker, held, scored, st, pareidolia, smeared)->Some_0
        } else {
            st
        };
        lemma_scored_pass_keeps_ge(js.skip(1), held, scored, s1, pareidolia, smeared, b);
    }
}

/// The held-context pass keeps the multiplier bound.
pub proof fn lemma_held_pass_keeps_ge(
    js: Seq<JokerCard>,
    held: Seq<Card>,
    scored: Seq<Card>,
    st: ScoreState,
    pareidolia: bool,
    smeared: bool,
    b: int,
)
    requires
        mult_at_least(st, b),
        b >= 0,
        spec_held_pass(js, held, scored, st, pareidolia, smeared) is Some,
    ensures
        mult_at_least(spec_held_pass(js, held, scored, st, pareidolia, smeared)->Some_0, b),
    decreases js.len(),
{
    if js.len() > 0 {
        let s1 = if is_held_context(js[0].joker) {
            lemma_medium_joker_keeps_ge(js[0].joker, held, scored, st, pareidolia, smeared, b);
            spec_medium_joker(js[0].joker, held, scored, st, pareidolia, smeared)->Some_0
        } else {
            st
        };
        lemma_held_pass_keeps_ge(js.skip(1), held, scored, s1, pareidolia, smeared, b);
    }
}

/// The independent pass keeps the multiplier bound.
pub proof fn lemma_independent_pass_keeps_ge(
    js: Seq<JokerCard>,
    joker_count: int,
    held: Seq<Card>,
    scored: Seq<Card>,
    hand: PokerHand,
    st: ScoreState,
    pareidolia: bool,
    smeared: bool,
    b: int,
)
    requires
        mult_at_least(st, b),
        b >= 0,
        joker_count >= 0,
        spec_independent_pass(js, joker_count, held, scored, hand, st, pareidolia, smeared)
            is Some,
    ensures
        mult_at_least(
            spec_independent_pass(js, joker_count, held, scored, hand, st, pareidolia, smeared)->Some_0,
            b,
        ),
    decreases js.len(),
{
    if js.len() > 0 {
        let s1 = if is_independent(js[0].joker) {
            lemma_easy_joker_keeps_ge(js[0].joker, hand, joker_count, st, b);
            let after_easy = spec_easy_joker(js[0].joker, hand, joker_count, st)->Some_0;
            lemma_medium_joker_keeps_ge(
                js[0].joker,
                held,
                scored,
                after_easy,
                pareidolia,
                smeared,
                b,
            );
            spec_medium_joker(js[0].joker, held, scored, after_easy, pareidolia, smeared)->Some_0
        } else {
            st
        };
        lemma_independent_pass_keeps_ge(
            js.skip(1),
            joker_count,
            held,
            scored,
            hand,
            s1,
            pareidolia,
            smeared,
            b,
        );
    }
}

/// The edition pass keeps the multiplier bound.
pub proof fn lemma_edition_pass_keeps_ge(js: Seq<JokerCard>, st: ScoreState, b: int)
    requires
        mult_at_least(st, b),
        b >= 0,
        spec_edition_pass(js, st) is Some,
    ensures
        mult_at_least(spec_edition_pass(js, st)->Some_0, b),
    decreases js.len(),
{
    if js.len() > 0 {
        let s1 = match js[0].edition {
            Some(ed) => {
                lemma_edition_keeps_ge(ed, st, false, b);
                spec_apply_edition(ed, st, false)->Some_0
            },
            None => st,
        };
        lemma_edition_pass_keeps_ge(js.skip(1), s1, b);
    }
}

/// The whole joker engine keeps the multiplier bound.
pub proof fn lemma_joker_application_keeps_ge(
    js: Seq<JokerCard>,
    held: Seq<Card>,
    scored: Seq<Card>,
    hand: PokerHand,
    st: ScoreState,
    b: int,
)
    requires
        mult_at_least(st, b),
        b >= 0,
        spec_joker_application(js, held, scored, hand, st) is Some,
    ensures
        mult_at_least(spec_joker_application(js, held, scored, hand, st)->Some_0, b),
{
    let pareidolia = crate::cards::joker_present(js, Joker::Pareidolia);
    let smeared = crate::cards::joker_present(js, Joker::SmearedJoker);
    lemma_scored_pass_keeps_ge(js, held, scored, st, pareidolia, smeared, b);
    let s1 = spec_scored_pass(js, held, scored, st, pareidolia, smeared)->Some_0;
    lemma_held_pass_keeps_ge(js, held, scored, s1, pareidolia, smeared, b);
    let s2 = spec_held_pass(js, held, scored, s1, pareidolia, smeared)->Some_0;
    lemma_independent_pass_keeps_ge(
        js,
        js.len() as int,
        held,
        scored,
        hand,
        s2,
        pareidolia,
        smeared,
        b,
    );
    let s3 = spec_independent_pass(js, js.len() as int, held, scored, hand, s2, pareidolia, smeared)->Some_0;
    lemma_edition_pass_keeps_ge(js, s3, b);
}


// ------------------------------------------------------------------
// How the passes respond to one appended joker
// ------------------------------------------------------------------
/// Appending a joker card runs the scored-context pass on the prefix and
/// then on the appended card alone.
pub proof fn lemma_scored_pass_push(
    js: Seq<JokerCard>,
    x: JokerCard,
    held: Seq<Card>,
    scored: Seq<Card>,
    st: ScoreState,
    pareidolia: bool,
    smeared: bool,
)
    ensures
        spec_scored_pass(js.push(x), held, scored, st, pareidolia, smeared) == (
        match spec_scored_pass(js, held, scored, st, pareidolia, smeared) {
            Some(s) => if is_scored_context(x.joker) {
                spec_medium_joker(x.joker, held, scored, s, pareidolia, smeared)
            } else {
                Some(s)
            },
            None => None,
        }),
    decreases js.len(),
{
    if js.len() == 0 {
        reveal_with_fuel(spec_scored_pass, 2);
        assert(js.push(x)[0] == x);
        assert(js.push(x).skip(1) =~= Seq::<JokerCard>::empty());
    } else {
        assert(js.push(x)[0] == js[0]);
        assert(js.push(x).skip(1) =~= js.skip(1).push(x));
        let step = if is_scored_context(js[0].joker) {
            spec_medium_joker(js[0].joker, held, scored, st, pareidolia, smeared)
        } else {
            Some(st)
        };
        match step {
            Some(s1) => lemma_scored_pass_push(js.skip(1), x, held, scored, s1, pareidolia, smeared),
            None => (),
        }
    }
}

/// Appending a joker card runs the held-context pass on the prefix and
/// then on the appended card alone.
pub proof fn lemma_held_pass_push(
    js: Seq<JokerCard>,
    x: JokerCard,
    held: Seq<Card>,
    scored: Seq<Card>,
    st: ScoreState,
    pareidolia: bool,
    smeared: bool,
)
    ensures
        spec_held_pass(js.push(x), held, scored, st, pareidolia, smeared) == (
        match spec_held_pass(js, held, scored, st, pareidolia, smeared) {
            Some(s) => if is_held_context(x.joker) {
                spec_medium_joker(x.joker, held, scored, s, pareidolia, smeared)
            } else {
                Some(s)
            },
            None => None,
        }),
    decreases js.len(),
{
    if js.len() == 0 {
        reveal_with_fuel(spec_held_pass, 2);
        assert(js.push(x)[0] == x);
        assert(js.push(x).skip(1) =~= Seq::<JokerCard>::empty());
    } else {
        assert(js.push(x)[0] == js[0]);
        assert(js.push(x).skip(1) =~= js.skip(1).push(x));
        let step = if is_held_context(js[0].joker) {
            spec_medium_joker(js[0].joker, held, scored, st, pareidolia, smeared)
        } else {
            Some(st)
        };
        match step {
            Some(s1) => lemma_held_pass_push(js.skip(1), x, held, scored, s1, pareidolia, smeared),
            None => (),
        }
    }
}

/// Appending a joker card runs the independent pass on the prefix and then
/// on the appended card alone.
pub proof fn lemma_independent_pass_push(
    js: Seq<JokerCard>,
    x: JokerCard,
    joker_count: int,
    held: Seq<Card>,
    scored: Seq<Card>,
    hand: PokerHand,
    st: ScoreState,
    pareidolia: bool,
    smeared: bool,
)
    ensures
        spec_independent_pass(js.push(x), joker_count, held, scored, hand, st, pareidolia, smeared)
            == (match spec_independent_pass(js, joker_count, held, scored, hand, st, pareidolia, smeared) {
            Some(s) => if is_independent(x.joker) {
                spec_independent_step(x.joker, joker_count, held, scored, hand, s, pareidolia, smeared)
            } else {
                Some(s)
            },
            None => None,
        }),
    decreases js.len(),
{
    if js.len() == 0 {
        reveal_with_fuel(spec_independent_pass, 2);
        assert(js.push(x)[0] == x);
        assert(js.push(x).skip(1) =~= Seq::<JokerCard>::empty());
    } else {
        assert(js.push(x)[0] == js[0]);
        assert(js.push(x).skip(1) =~= js.skip(1).push(x));
        let step = if is_independent(js[0].joker) {
            spec_independent_step(js[0].joker, joker_count, held, scored, hand, st, pareidolia, smeared)
        } else {
            Some(st)
        };
        match step {
            Some(s1) => lemma_independent_pass_push(
                js.skip(1),
                x,
                joker_count,
                held,
                scored,
                hand,
                s1,
                pareidolia,
                smeared,
            ),
            None => (),
        }
    }
}

/// Appending a joker card runs the edition pass on the prefix and then on
/// the appended card's edition alone.
pub proof fn lemma_edition_pass_push(js: Seq<JokerCard>, x: JokerCard, st: ScoreState)
    ensures
        spec_edition_pass(js.push(x), st) == (match spec_edition_pass(js, st) {
            Some(s) => match x.edition {
                Some(ed) => spec_apply_edition(ed, s, false),
                None => Some(s),
            },
            None => None,
        }),
    decreases js.len(),
{
    if js.len() == 0 {
        reveal_with_fuel(spec_edition_pass, 2);
        assert(js.push(x)[0] == x);
        assert(js.push(x).skip(1) =~= Seq::<JokerCard>::empty());
    } else {
        assert(js.push(x)[0] == js[0]);
        assert(js.push(x).skip(1) =~= js.skip(1).push(x));
        let step = match js[0].edition {
            Some(ed) => spec_apply_edition(ed, st, false),
            None => Some(st),
        };
        match step {
            Some(s1) => lemma_edition_pass_push(js.skip(1), x, s1),
            None => (),
        }
    }
}

/// Without an Abstract Joker in the sequence, the joker count the
/// independent pass is handed is never read.
pub proof fn lemma_independent_pass_count_unread(
    js: Seq<JokerCard>,
    c1: int,
    c2: int,
    held: Seq<Card>,
    scored: Seq<Card>,
    hand: PokerHand,
    st: ScoreState,
    pareidolia: bool,
    smeared: bool,
)
    requires
        forall|i: int| 0 <= i < js.len() ==> js[i].joker != Joker::AbstractJoker,
    ensures
        spec_independent_pass(js, c1, held, scored, hand, st, pareidolia, smeared)
            == spec_independent_pass(js, c2, held, scored, hand, st, pareidolia, smeared),
    decreases js.len(),
{
    if js.len() > 0 {
        assert(js[0].joker != Joker::AbstractJoker);
        assert(spec_easy_joker(js[0].joker, hand, c1, st) == spec_easy_joker(
            js[0].joker,
            hand,
            c2,
            st,
        ));
        assert(forall|i: int| 0 <= i < js.skip(1).len() ==> js.skip(1)[i] == js[i + 1]);
        let step = if is_independent(js[0].joker) {
            spec_independent_step(js[0].joker, c1, held, scored, hand, st, pareidolia, smeared)
        } else {
            Some(st)
        };
        match step {
            Some(s1) => lemma_independent_pass_count_unread(
                js.skip(1),
                c1,
                c2,
                held,
                scored,
                hand,
                s1,
                pareidolia,
                smeared,
            ),
            None => (),
        }
    }
}

/// Without a Polychrome joker edition, the edition pass carries a fixed
/// additive offset on the multiplier numerator through unchanged.
pub proof fn lemma_edition_pass_offset(js: Seq<JokerCard>, a: ScoreState, b: ScoreState, d: int)
    requires
        forall|i: int| 0 <= i < js.len() ==> js[i].edition != Some(crate::cards::Edition::Polychrome),
        b.chips == a.chips,
        b.mult_shift == a.mult_shift,
        b.mult_num == a.mult_num + d * vstd::arithmetic::power2::pow2(a.mult_shift as nat),
        spec_edition_pass(js, a) is Some,
        spec_edition_pass(js, b) is Some,
    ensures
        ({
            let ra = spec_edition_pass(js, a)->Some_0;
            let rb = spec_edition_pass(js, b)->Some_0;
            rb.chips == ra.chips && rb.mult_shift == ra.mult_shift && rb.mult_num == ra.mult_num
                + d * vstd::arithmetic::power2::pow2(ra.mult_shift as nat)
        }),
    decreases js.len(),
{
    if js.len() > 0 {
        assert(js[0].edition != Some(crate::cards::Edition::Polychrome));
        assert(forall|i: int| 0 <= i < js.skip(1).len() ==> js.skip(1)[i] == js[i + 1]);
        match js[0].edition {
            None => {
                lemma_edition_pass_offset(js.skip(1), a, b, d);
            },
            Some(ed) => {
                let a1 = spec_apply_edition(ed, a, false)->Some_0;
                let b1 = spec_apply_edition(ed, b, false)->Some_0;
                lemma_edition_pass_offset(js.skip(1), a1, b1, d);
            },
        }
    }
}

} // verus!
