//! The laws the library states of itself, proved once and for all: scoring
//! is deterministic; the returned multiplier never falls below the detected
//! combination's base mult; a hand meeting both the flush and the straight
//! criteria classifies as a straight flush; the base-value table is
//! monotone along the strength order with pairwise distinct entries; a
//! plain Joker adds exactly four mult and nothing else wherever nothing
//! reads the joker count or scales the multiplier afterwards; and a Glass,
//! Polychrome card doubles the multiplier and then multiplies it by 3/2,
//! in that order.

use crate::cards::{
    base_chips, base_mult, hand_strength, joker_present, lemma_joker_present_push, Card, Edition,
    Enhancement, Joker, JokerCard, PokerHand,
};
use crate::hands::{
    lemma_no_group_idx, lemma_run5_small_groups, lemma_sort_by_rank_len, run5_start,
    sort_by_rank, spec_classify, spec_flush_cards, spec_flush_five_cards,
    spec_n_of_a_kind_cards, spec_straight_cards, spec_straight_flush_cards,
};
use crate::jokers::{
    is_held_context, is_independent, is_scored_context, lemma_edition_pass_offset,
    lemma_edition_pass_push, lemma_held_pass_push, lemma_independent_pass_count_unread,
    lemma_independent_pass_push, lemma_joker_application_keeps_ge, lemma_scored_pass_push,
    spec_easy_joker, spec_edition_pass, spec_held_pass, spec_independent_pass,
    spec_joker_application, spec_medium_joker, spec_scored_pass,
};
use crate::modifiers::{lemma_mods_fold_keeps_ge, spec_mods_fold};
use crate::scoring::{spec_score, sum_rank_orders};
use crate::state::{
    lemma_add_chips_keeps_mult, mult_at_least, st_add_chips, st_add_mult, st_mul_mult2,
    st_mul_mult3_2, ScoreState,
};
use vstd::arithmetic::power2::{lemma2_to64, pow2};
use vstd::prelude::*;

verus! {

/// Law: scoring is deterministic.  Two rounds with the same cards played,
/// the same cards held and the same jokers score to the same result.
pub proof fn law_score_deterministic(
    played1: Seq<Card>,
    held1: Seq<Card>,
    jokers1: Seq<JokerCard>,
    played2: Seq<Card>,
    held2: Seq<Card>,
    jokers2: Seq<JokerCard>,
)
    requires
        played1 == played2,
        held1 == held2,
        jokers1 == jokers2,
    ensures
        spec_score(played1, held1, jokers1) == spec_score(played2, held2, jokers2),
{
}

/// Law: the multiplier of a scored round is at least the base mult of the
/// detected combination.  As the multiplier is the dyadic rational
/// `mult_num / 2^mult_shift`, the statement is cross-multiplied.
pub proof fn law_mult_at_least_base(played: Seq<Card>, held: Seq<Card>, jokers: Seq<JokerCard>)
    requires
        spec_score(played, held, jokers) is Ok,
    ensures
        ({
            let st = spec_score(played, held, jokers)->Ok_0;
            st.mult_num >= base_mult(spec_classify(played, jokers).0) * pow2(
                st.mult_shift as nat,
            )
        }),
{
    let hand = spec_classify(played, jokers).0;
    let subset = spec_classify(played, jokers).1;
    let scored = if joker_present(jokers, Joker::Splash) {
        played
    } else {
        subset
    };
    let b = base_mult(hand);
    let st0 = ScoreState {
        chips: base_chips(hand) as u64,
        mult_num: base_mult(hand) as u64,
        mult_shift: 0u64,
    };
    lemma2_to64();
    assert(1 <= b <= 16);
    assert(mult_at_least(st0, b));
    lemma_add_chips_keeps_mult(st0, sum_rank_orders(scored), b);
    let st1 = st_add_chips(st0, sum_rank_orders(scored))->Some_0;
    lemma_mods_fold_keeps_ge(scored, st1, false, b);
    let st2 = spec_mods_fold(scored, st1, false)->Some_0;
    lemma_mods_fold_keeps_ge(held, st2, true, b);
    let st3 = spec_mods_fold(held, st2, true)->Some_0;
    lemma_joker_application_keeps_ge(jokers, held, scored, hand, st3, b);
}

/// Law: the combination order is respected.  A five-card hand whose sorted
/// cards meet both the flush criterion and the straight criterion in full
/// classifies as a Straight Flush, never as a plain Flush or Straight.
pub proof fn law_straight_flush_priority(played: Seq<Card>, jokers: Seq<JokerCard>)
    requires
        played.len() == 5,
        spec_flush_cards(sort_by_rank(played)).len() == 5,
        spec_straight_cards(sort_by_rank(played)).len() == 5,
    ensures
        spec_classify(played, jokers).0 == PokerHand::StraightFlush,
{
    let s = sort_by_rank(played);
    lemma_sort_by_rank_len(played);
    assert(run5_start(s) >= 1);
    lemma_run5_small_groups(s);
    lemma_no_group_idx(s, 3, 0);
    lemma_no_group_idx(s, 4, 0);
    lemma_no_group_idx(s, 5, 0);
    assert(spec_flush_five_cards(s).len() == 0);
    assert(spec_n_of_a_kind_cards(s, 5).len() == 0);
    let ff = joker_present(jokers, Joker::FourFingers);
    assert(spec_straight_flush_cards(s, ff) == s);
}

/// Law: the base-value table is monotone along the strength order, never
/// decreasing in either field, and no two combinations share their
/// (chips, mult) pair.
pub proof fn law_base_table_monotone(h1: PokerHand, h2: PokerHand)
    requires
        hand_strength(h1) < hand_strength(h2),
    ensures
        base_chips(h1) <= base_chips(h2),
        base_mult(h1) <= base_mult(h2),
        base_chips(h1) != base_chips(h2) || base_mult(h1) != base_mult(h2),
{
}


/// Law: adding one plain Joker card to a round adds exactly four to the
/// multiplier and changes nothing else.  This holds whenever nothing reads
/// the joker count (no Abstract Joker) and nothing scales the multiplier
/// after the addition (no Polychrome joker edition), and both rounds stay
/// inside the numeric range.
pub proof fn law_plain_joker_adds_four_mult(
    played: Seq<Card>,
    held: Seq<Card>,
    jokers: Seq<JokerCard>,
)
    requires
        forall|i: int| 0 <= i < jokers.len() ==> jokers[i].joker != Joker::AbstractJoker,
        forall|i: int| 0 <= i < jokers.len() ==> jokers[i].edition != Some(Edition::Polychrome),
        spec_score(played, held, jokers) is Ok,
        spec_score(
            played,
            held,
            jokers.push(JokerCard { joker: Joker::Joker, edition: None }),
        ) is Ok,
    ensures
        ({
            let st1 = spec_score(played, held, jokers)->Ok_0;
            let st2 = spec_score(
                played,
                held,
                jokers.push(JokerCard { joker: Joker::Joker, edition: None }),
            )->Ok_0;
            st2.chips == st1.chips && st2.mult_shift == st1.mult_shift && st2.mult_num
                == st1.mult_num + 4 * pow2(st1.mult_shift as nat)
        }),
{
    let x = JokerCard { joker: Joker::Joker, edition: None };
    let js2 = jokers.push(x);
    lemma_joker_present_push(jokers, x, Joker::FourFingers);
    lemma_joker_present_push(jokers, x, Joker::Splash);
    lemma_joker_present_push(jokers, x, Joker::Pareidolia);
    lemma_joker_present_push(jokers, x, Joker::SmearedJoker);
    assert(spec_classify(played, js2) == spec_classify(played, jokers));

    let hand = spec_classify(played, jokers).0;
    let subset = spec_classify(played, jokers).1;
    let scored = if joker_present(jokers, Joker::Splash) {
        played
    } else {
        subset
    };
    let pare = joker_present(jokers, Joker::Pareidolia);
    let smear = joker_present(jokers, Joker::SmearedJoker);
    let st0 = ScoreState {
        chips: base_chips(hand) as u64,
        mult_num: base_mult(hand) as u64,
        mult_shift: 0u64,
    };
    // Both rounds run the identical pipeline up to the joker engine.
    let st1 = st_add_chips(st0, sum_rank_orders(scored))->Some_0;
    let st2 = spec_mods_fold(scored, st1, false)->Some_0;
    let st3 = spec_mods_fold(held, st2, true)->Some_0;

    // The scored and held passes ignore the appended plain Joker.
    assert(!is_scored_context(x.joker));
    assert(!is_held_context(x.joker));
    lemma_scored_pass_push(jokers, x, held, scored, st3, pare, smear);
    let s1 = spec_scored_pass(jokers, held, scored, st3, pare, smear)->Some_0;
    lemma_held_pass_push(jokers, x, held, scored, s1, pare, smear);
    let s2 = spec_held_pass(jokers, held, scored, s1, pare, smear)->Some_0;

    // The independent pass runs the old jokers unchanged (none reads the
    // count), then the plain Joker adds four to the multiplier.
    lemma_independent_pass_count_unread(
        jokers,
        jokers.len() as int,
        js2.len() as int,
        held,
        scored,
        hand,
        s2,
        pare,
        smear,
    );
    lemma_independent_pass_push(jokers, x, js2.len() as int, held, scored, hand, s2, pare, smear);
    let s3 = spec_independent_pass(
        jokers,
        jokers.len() as int,
        held,
        scored,
        hand,
        s2,
        pare,
        smear,
    )->Some_0;
    assert(is_independent(x.joker));
    assert(spec_easy_joker(x.joker, hand, js2.len() as int, s3) == st_add_mult(s3, 4));
    let s3p = st_add_mult(s3, 4)->Some_0;
    assert(spec_medium_joker(x.joker, held, scored, s3p, pare, smear) == Some(s3p));

    // The appended card has no edition, and with no Polychrome edition in
    // the round the edition pass carries the difference of four through.
    lemma_edition_pass_push(jokers, x, s3p);
    lemma_edition_pass_offset(jokers, s3, s3p, 4);
}

/// Law: a scored card with the Glass enhancement and the Polychrome
/// edition first doubles the multiplier and then multiplies it by 3/2, in
/// that order, each compounding the multiplier it receives.
pub proof fn law_glass_then_polychrome(c: Card, st: ScoreState)
    requires
        c.enhancement == Some(Enhancement::Glass),
        c.edition == Some(Edition::Polychrome),
        spec_mods_fold(seq![c], st, false) is Some,
    ensures
        st_mul_mult2(st) is Some,
        spec_mods_fold(seq![c], st, false) == st_mul_mult3_2(st_mul_mult2(st)->Some_0),
        spec_mods_fold(seq![c], st, false)->Some_0.chips == st.chips,
        spec_mods_fold(seq![c], st, false)->Some_0.mult_num == 6 * st.mult_num,
        spec_mods_fold(seq![c], st, false)->Some_0.mult_shift == st.mult_shift + 1,
{
    reveal_with_fuel(spec_mods_fold, 2);
    assert(seq![c][0] == c);
    assert(seq![c].skip(1) =~= Seq::<Card>::empty());
}

} // verus!
