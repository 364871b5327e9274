//! Suit and color helpers: the dominant (most frequent) suit of a hand,
//! suit presence with Wild substitution, and color counting.

use crate::cards::{color_of, is_wild, suit_matches, Card, Suit, SuitColor};
use vstd::prelude::*;

verus! {

/// How many cards literally carry the given suit (Wild does not count here:
/// the dominant suit is determined by the printed suits alone).
pub open spec fn count_suit(s: Seq<Card>, suit: Suit) -> int
    decreases s.len(),
{
    if s.len() == 0 {
        0
    } else {
        count_suit(s.drop_last(), suit) + if s.last().suit == suit {
            1int
        } else {
            0int
        }
    }
}

/// The suit that appears most often, ties broken in the order Spades,
/// Hearts, Clubs, Diamonds.
pub open spec fn dominant_suit(s: Seq<Card>) -> Suit {
    let cs = count_suit(s, Suit::Spades);
    let ch = count_suit(s, Suit::Hearts);
    let cc = count_suit(s, Suit::Clubs);
    let cd = count_suit(s, Suit::Diamonds);
    if cs >= ch && cs >= cc && cs >= cd {
        Suit::Spades
    } else if ch >= cc && ch >= cd {
        Suit::Hearts
    } else if cc >= cd {
        Suit::Clubs
    } else {
        Suit::Diamonds
    }
}

/// Some card matches the suit, literally or through Wild.
pub open spec fn has_suit_matching(s: Seq<Card>, suit: Suit) -> bool {
    exists|i: int| 0 <= i < s.len() && suit_matches(s[i], suit)
}

/// Some card is of the given color, Wild cards counting for every color.
pub open spec fn has_color(s: Seq<Card>, color: SuitColor) -> bool {
    exists|i: int| 0 <= i < s.len() && (color_of(s[i].suit) == color || is_wild(s[i]))
}

/// How many cards are of the given color, Wild cards counting for every
/// color.
pub open spec fn count_color(s: Seq<Card>, color: SuitColor) -> int
    decreases s.len(),
{
    if s.len() == 0 {
        0
    } else {
        count_color(s.drop_last(), color) + if color_of(s.last().suit) == color || is_wild(
            s.last(),
        ) {
            1int
        } else {
            0int
        }
    }
}

/// Counts the cards that literally carry the given suit.
pub fn count_cards_of_suit(cards: &Vec<Card>, suit: Suit) -> (r: usize)
    ensures
        r == count_suit(cards@, suit),
{
    let mut cnt: usize = 0;
    let mut i: usize = 0;
    proof {
        assert(cards@.take(0) =~= Seq::<Card>::empty());
    }
    while i < cards.len()
        invariant
            i <= cards.len(),
            cnt == count_suit(cards@.take(i as int), suit),
            cnt <= i,
        decreases cards.len() - i,
    {
        proof {
            assert(cards@.take(i as int + 1).drop_last() =~= cards@.take(i as int));
            assert(cards@.take(i as int + 1).last() == cards@[i as int]);
        }
        if cards[i].suit == suit {
            cnt = cnt + 1;
        }
        i = i + 1;
    }
    proof {
        assert(cards@.take(cards@.len() as int) =~= cards@);
    }
    cnt
}

/// The most frequently appearing suit among the cards, ties broken in the
/// order Spades, Hearts, Clubs, Diamonds.
pub fn compute_most_appear_suit(cards: &Vec<Card>) -> (r: Suit)
    ensures
        r == dominant_suit(cards@),
{
    let cs = count_cards_of_suit(cards, Suit::Spades);
    let ch = count_cards_of_suit(cards, Suit::Hearts);
    let cc = count_cards_of_suit(cards, Suit::Clubs);
    let cd = count_cards_of_suit(cards, Suit::Diamonds);
    if cs >= ch && cs >= cc && cs >= cd {
        Suit::Spades
    } else if ch >= cc && ch >= cd {
        Suit::Hearts
    } else if cc >= cd {
        Suit::Clubs
    } else {
        Suit::Diamonds
    }
}

/// Whether some card matches the given suit, literally or through Wild.
pub fn determine_current_suit(on_scored: &Vec<Card>, suit: Suit) -> (r: bool)
    ensures
        r == has_suit_matching(on_scored@, suit),
{
    let mut i: usize = 0;
    while i < on_scored.len()
        invariant
            i <= on_scored.len(),
            forall|j: int| 0 <= j < i ==> !suit_matches(on_scored@[j], suit),
        decreases on_scored.len() - i,
    {
        let c = on_scored[i];
        if crate::cards::card_suit_matches(&c, suit) {
            return true;
        }
        i = i + 1;
    }
    false
}

/// Whether at least two cards of the given color are present, Wild cards
/// counting for every color.
pub fn determine_total_colors(on_scored: &Vec<Card>, color: SuitColor) -> (r: bool)
    ensures
        r == (count_color(on_scored@, color) >= 2),
{
    let mut cnt: usize = 0;
    let mut i: usize = 0;
    proof {
        assert(on_scored@.take(0) =~= Seq::<Card>::empty());
    }
    while i < on_scored.len()
        invariant
            i <= on_scored.len(),
            cnt == count_color(on_scored@.take(i as int), color),
            cnt <= i,
        decreases on_scored.len() - i,
    {
        proof {
            assert(on_scored@.take(i as int + 1).drop_last() =~= on_scored@.take(i as int));
            assert(on_scored@.take(i as int + 1).last() == on_scored@[i as int]);
        }
        let c = on_scored[i];
        let is_color = match c.suit.color() {
            SuitColor::Red => matches!(color, SuitColor::Red),
            SuitColor::Black => matches!(color, SuitColor::Black),
        };
        if is_color || crate::cards::card_is_wild(&c) {
            cnt = cnt + 1;
        }
        i = i + 1;
    }
    proof {
        assert(on_scored@.take(on_scored@.len() as int) =~= on_scored@);
    }
    cnt >= 2
}

} // verus!
