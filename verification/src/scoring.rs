//! The scoring pipeline: classify the played cards, start from the
//! combination's base value, add the rank orders of the scoring cards, fold
//! the card modifiers over the scored and the held cards, and apply the
//! jokers.
//!
//! The pipeline is a pure function of the round.  It fails only in two
//! ways, both named exactly: a played hand of zero or of more than five
//! cards is rejected up front, and an accumulator field that would leave
//! `u64` reports an overflow.

use crate::cards::{
    base_chips, base_mult, joker_present, rank_order, Card, Joker, JokerCard, Round,
};
use crate::hands::{determine_poker_hand, spec_classify};
use crate::jokers::spec_joker_application;
use crate::modifiers::spec_mods_fold;
use crate::state::{st_add_chips, ScoreState};
use vstd::arithmetic::div_mod::lemma_div_pos_is_pos;
use vstd::arithmetic::power2::{lemma2_to64, lemma_pow2_pos, lemma_pow2_strictly_increases, pow2};
use vstd::bits::lemma_u128_shr_is_div;
use vstd::prelude::*;

verus! {

/// Why a round could not be scored.
#[derive(Clone, Copy, PartialEq, Eq, Structural, Debug)]
pub enum ScoreError {
    /// The played hand was empty or held more than five cards.
    InvalidHandSize,
    /// An accumulator field left the `u64` range.
    Overflow,
}

/// The sum of the rank orders of the cards.
pub open spec fn sum_rank_orders(s: Seq<Card>) -> int
    decreases s.len(),
{
    if s.len() == 0 {
        0
    } else {
        sum_rank_orders(s.drop_last()) + rank_order(s.last().rank)
    }
}

/// What `score` returns: the full pipeline on the round's three sequences.
pub open spec fn spec_score(played: Seq<Card>, held: Seq<Card>, jokers: Seq<JokerCard>) -> Result<
    ScoreState,
    ScoreError,
> {
    if played.len() < 1 || played.len() > 5 {
        Err(ScoreError::InvalidHandSize)
    } else {
        let (hand, subset) = spec_classify(played, jokers);
        let scored = if joker_present(jokers, Joker::Splash) {
            played
        } else {
            subset
        };
        let st0 = ScoreState {
            chips: base_chips(hand) as u64,
            mult_num: base_mult(hand) as u64,
            mult_shift: 0u64,
        };
        match st_add_chips(st0, sum_rank_orders(scored)) {
            Some(st1) => match spec_mods_fold(scored, st1, false) {
                Some(st2) => match spec_mods_fold(held, st2, true) {
                    Some(st3) => match spec_joker_application(jokers, held, scored, hand, st3) {
                        Some(st4) => Ok(st4),
                        None => Err(ScoreError::Overflow),
                    },
                    None => Err(ScoreError::Overflow),
                },
                None => Err(ScoreError::Overflow),
            },
            None => Err(ScoreError::Overflow),
        }
    }
}

/// Sums the rank orders of the cards.
fn sum_ranks(cards: &Vec<Card>) -> (r: u64)
    requires
        cards@.len() <= 5,
    ensures
        r == sum_rank_orders(cards@),
{
    let mut sum: u64 = 0;
    let mut i: usize = 0;
    proof {
        assert(cards@.take(0) =~= Seq::<Card>::empty());
    }
    while i < cards.len()
        invariant
            i <= cards.len() <= 5,
            sum == sum_rank_orders(cards@.take(i as int)),
            sum <= 14 * i,
        decreases cards.len() - i,
    {
        proof {
            assert(cards@.take(i as int + 1).drop_last() =~= cards@.take(i as int));
            assert(cards@.take(i as int + 1).last() == cards@[i as int]);
        }
        sum = sum + cards[i].rank.rank_value();
        i = i + 1;
    }
    proof {
        assert(cards@.take(cards@.len() as int) =~= cards@);
    }
    sum
}

/// Scores one round: returns the final (chips, mult) state, or the exact
/// reason none exists.
pub fn score(round: &Round) -> (r: Result<ScoreState, ScoreError>)
    ensures
        r == spec_score(round.cards_played@, round.cards_held_in_hand@, round.jokers@),
{
    if round.cards_played.len() < 1 || round.cards_played.len() > 5 {
        return Err(ScoreError::InvalidHandSize);
    }
    let (hand, subset) = determine_poker_hand(&round.cards_played, &round.jokers);
    let scored = if crate::cards::any_joker(&round.jokers, Joker::Splash) {
        crate::cards::copy_cards(&round.cards_played)
    } else {
        subset
    };
    let base = hand.hand_value();
    let st0 = ScoreState::new(base.0, base.1);
    proof {
        if !joker_present(round.jokers@, Joker::Splash) {
            lemma_scored_len_bounded(round.cards_played@, round.jokers@);
        }
    }
    let sum = sum_ranks(&scored);
    let st1 = match st0.add_chips(sum) {
        Some(s) => s,
        None => {
            return Err(ScoreError::Overflow);
        },
    };
    let st2 = match crate::modifiers::compute_enhancement(&scored, st1, false) {
        Some(s) => s,
        None => {
            return Err(ScoreError::Overflow);
        },
    };
    let st3 = match crate::modifiers::compute_enhancement(&round.cards_held_in_hand, st2, true) {
        Some(s) => s,
        None => {
            return Err(ScoreError::Overflow);
        },
    };
    match crate::jokers::joker_application(&round.jokers, &round.cards_held_in_hand, &scored, hand, st3) {
        Some(s) => Ok(s),
        None => Err(ScoreError::Overflow),
    }
}

/// The scored subset the classifier picks never exceeds the played hand's
/// size when that is at most five.
proof fn lemma_scored_len_bounded(played: Seq<Card>, jokers: Seq<JokerCard>)
    requires
        played.len() <= 5,
    ensures
        spec_classify(played, jokers).1.len() <= 5,
{
}

/// The final number of a round: the floor of chips times mult.
pub fn floored_score(st: ScoreState) -> (r: u128)
    ensures
        r == (st.chips * st.mult_num) as int / pow2(st.mult_shift as nat) as int,
{
    proof {
        assert((st.chips as int) * (st.mult_num as int) <= (u64::MAX as int) * (u64::MAX as int))
            by (nonlinear_arith)
            requires
                0 <= st.chips <= u64::MAX,
                0 <= st.mult_num <= u64::MAX,
        ;
        assert((u64::MAX as int) * (u64::MAX as int) < (u128::MAX as int)) by (nonlinear_arith);
    }
    let prod: u128 = (st.chips as u128) * (st.mult_num as u128);
    if st.mult_shift >= 128 {
        proof {
            lemma2_to64();
            vstd::arithmetic::power2::lemma_pow2_adds(64, 64);
            assert(pow2(128) == pow2(64) * pow2(64));
            if st.mult_shift > 128 {
                lemma_pow2_strictly_increases(128, st.mult_shift as nat);
            }
            lemma_pow2_pos(st.mult_shift as nat);
            assert(prod < pow2(st.mult_shift as nat));
            vstd::arithmetic::div_mod::lemma_basic_div_specific_divisor(
                pow2(st.mult_shift as nat) as int,
            );
        }
        0
    } else {
        proof {
            lemma_u128_shr_is_div(prod, st.mult_shift as u128);
        }
        prod >> (st.mult_shift as u128)
    }
}

} // verus!
