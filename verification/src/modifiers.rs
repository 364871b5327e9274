//! The modifier engine: per-card enhancement and edition effects, folded
//! left to right over a sequence of cards.
//!
//! When a card is part of the scored set (`in_hand == false`) its
//! enhancement applies first, then its edition.  A held card
//! (`in_hand == true`) is only affected by Steel; editions do nothing on
//! held cards.

use crate::cards::{Card, Edition, Enhancement};
use crate::state::{
    lemma_add_chips_keeps_mult, lemma_add_mult_keeps_ge, lemma_mul_mult2_keeps_ge,
    lemma_mul_mult3_2_keeps_ge, mult_at_least, st_add_chips, st_add_mult, st_mul_mult2,
    st_mul_mult3_2, ScoreState,
};
use vstd::prelude::*;

verus! {

/// One enhancement's effect on the state.
pub open spec fn spec_apply_enhancement(e: Enhancement, st: ScoreState, in_hand: bool) -> Option<
    ScoreState,
> {
    if !in_hand {
        match e {
            Enhancement::Bonus => st_add_chips(st, 30),
            Enhancement::Mult => st_add_mult(st, 4),
            Enhancement::Wild => Some(st),
            Enhancement::Glass => st_mul_mult2(st),
            Enhancement::Steel => Some(st),
        }
    } else if e == Enhancement::Steel {
        st_mul_mult3_2(st)
    } else {
        Some(st)
    }
}

/// One edition's effect on the state.
pub open spec fn spec_apply_edition(ed: Edition, st: ScoreState, in_hand: bool) -> Option<
    ScoreState,
> {
    if in_hand {
        Some(st)
    } else {
        match ed {
            Edition::Foil => st_add_chips(st, 50),
            Edition::Holographic => st_add_mult(st, 10),
            Edition::Polychrome => st_mul_mult3_2(st),
        }
    }
}

/// One card's combined effect: enhancement first, then edition.
pub open spec fn spec_card_mods(c: Card, st: ScoreState, in_hand: bool) -> Option<ScoreState> {
    let after_enh = match c.enhancement {
        Some(e) => spec_apply_enhancement(e, st, in_hand),
        None => Some(st),
    };
    match after_enh {
        Some(s1) => match c.edition {
            Some(ed) => spec_apply_edition(ed, s1, in_hand),
            None => Some(s1),
        },
        None => None,
    }
}

/// The left-to-right fold of card modifiers over a sequence.
pub open spec fn spec_mods_fold(cards: Seq<Card>, st: ScoreState, in_hand: bool) -> Option<
    ScoreState,
>
    decreases cards.len(),
{
    if cards.len() == 0 {
        Some(st)
    } else {
        match spec_card_mods(cards[0], st, in_hand) {
            Some(s1) => spec_mods_fold(cards.skip(1), s1, in_hand),
            None => None,
        }
    }
}

/// Applies a single enhancement to the state.
pub fn apply_enhancement(enhancement: Enhancement, st: ScoreState, in_hand: bool) -> (r: Option<
    ScoreState,
>)
    ensures
        r == spec_apply_enhancement(enhancement, st, in_hand),
{
    if !in_hand {
        match enhancement {
            Enhancement::Bonus => st.add_chips(30),
            Enhancement::Mult => st.add_mult(4),
            Enhancement::Wild => Some(st),
            Enhancement::Glass => st.mul_mult2(),
            Enhancement::Steel => Some(st),
        }
    } else if matches!(enhancement, Enhancement::Steel) {
        st.mul_mult3_2()
    } else {
        Some(st)
    }
}

/// Applies a single edition to the state.
pub fn apply_edition(edition: Edition, st: ScoreState, in_hand: bool) -> (r: Option<ScoreState>)
    ensures
        r == spec_apply_edition(edition, st, in_hand),
{
    if in_hand {
        Some(st)
    } else {
        match edition {
            Edition::Foil => st.add_chips(50),
            Edition::Holographic => st.add_mult(10),
            Edition::Polychrome => st.mul_mult3_2(),
        }
    }
}

/// Applies the enhancement and edition of every card in order.
pub fn compute_enhancement(cards: &Vec<Card>, st: ScoreState, in_hand: bool) -> (r: Option<
    ScoreState,
>)
    ensures
        r == spec_mods_fold(cards@, st, in_hand),
{
    let mut cur = st;
    let mut i: usize = 0;
    proof {
        assert(cards@.skip(0) =~= cards@);
    }
    while i < cards.len()
        invariant
            i <= cards.len(),
            spec_mods_fold(cards@, st, in_hand) == spec_mods_fold(cards@.skip(i as int), cur, in_hand),
        decreases cards.len() - i,
    {
        let c = cards[i];
        let after_enh = match c.enhancement {
            Some(e) => apply_enhancement(e, cur, in_hand),
            None => Some(cur),
        };
        let after_card = match after_enh {
            Some(s1) => match c.edition {
                Some(ed) => apply_edition(ed, s1, in_hand),
                None => Some(s1),
            },
            None => None,
        };
        proof {
            assert(cards@.skip(i as int)[0] == cards@[i as int]);
            assert(cards@.skip(i as int).skip(1) =~= cards@.skip(i as int + 1));
        }
        match after_card {
            Some(s1) => {
                cur = s1;
            },
            None => {
                return None;
            },
        }
        i = i + 1;
    }
    proof {
        assert(cards@.skip(cards@.len() as int) =~= Seq::<Card>::empty());
    }
    Some(cur)
}

/// A card's modifiers never lower the multiplier below a non-negative base.
pub proof fn lemma_card_mods_keeps_ge(c: Card, st: ScoreState, in_hand: bool, b: int)
    requires
        mult_at_least(st, b),
        b >= 0,
        spec_card_mods(c, st, in_hand) is Some,
    ensures
        mult_at_least(spec_card_mods(c, st, in_hand)->Some_0, b),
{
    let after_enh = match c.enhancement {
        Some(e) => spec_apply_enhancement(e, st, in_hand),
        None => Some(st),
    };
    if let Some(e) = c.enhancement {
        lemma_enhancement_keeps_ge(e, st, in_hand, b);
    }
    if let Some(ed) = c.edition {
        lemma_edition_keeps_ge(ed, after_enh->Some_0, in_hand, b);
    }
}

/// An enhancement never lowers the multiplier below a non-negative base.
pub proof fn lemma_enhancement_keeps_ge(e: Enhancement, st: ScoreState, in_hand: bool, b: int)
    requires
        mult_at_least(st, b),
        b >= 0,
        spec_apply_enhancement(e, st, in_hand) is Some,
    ensures
        mult_at_least(spec_apply_enhancement(e, st, in_hand)->Some_0, b),
{
    if !in_hand {
        match e {
            Enhancement::Bonus => lemma_add_chips_keeps_mult(st, 30, b),
            Enhancement::Mult => lemma_add_mult_keeps_ge(st, 4, b),
            Enhancement::Glass => lemma_mul_mult2_keeps_ge(st, b),
            _ => (),
        }
    } else if e == Enhancement::Steel {
        lemma_mul_mult3_2_keeps_ge(st, b);
    }
}

/// An edition never lowers the multiplier below a non-negative base.
pub proof fn lemma_edition_keeps_ge(ed: Edition, st: ScoreState, in_hand: bool, b: int)
    requires
        mult_at_least(st, b),
        b >= 0,
        spec_apply_edition(ed, st, in_hand) is Some,
    ensures
        mult_at_least(spec_apply_edition(ed, st, in_hand)->Some_0, b),
{
    if !in_hand {
        match ed {
            Edition::Foil => lemma_add_chips_keeps_mult(st, 50, b),
            Edition::Holographic => lemma_add_mult_keeps_ge(st, 10, b),
            Edition::Polychrome => lemma_mul_mult3_2_keeps_ge(st, b),
        }
    }
}

/// The whole modifier fold never lowers the multiplier below a
/// non-negative base.
pub proof fn lemma_mods_fold_keeps_ge(cards: Seq<Card>, st: ScoreState, in_hand: bool, b: int)
    requires
        mult_at_least(st, b),
        b >= 0,
        spec_mods_fold(cards, st, in_hand) is Some,
    ensures
        mult_at_least(spec_mods_fold(cards, st, in_hand)->Some_0, b),
    decreases cards.len(),
{
    if cards.len() > 0 {
        lemma_card_mods_keeps_ge(cards[0], st, in_hand, b);
        lemma_mods_fold_keeps_ge(cards.skip(1), spec_card_mods(cards[0], st, in_hand)->Some_0, in_hand, b);
    }
}

} // verus!
