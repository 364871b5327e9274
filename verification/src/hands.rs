//! The hand classifier: detects each of the twelve combinations on a
//! sequence of cards and picks the strongest one.
//!
//! The classifier first sorts the played cards ascending by rank order with
//! a stable insertion sort, then evaluates the combinations strongest first.
//! Combinations that consume the whole five-card shape return the played
//! cards verbatim; the others return exactly the cards that participate, in
//! sorted order.

use crate::cards::{
    any_joker, card_eq, card_suit_matches, copy_cards, joker_present, rank_order, suit_matches,
    Card, Joker, JokerCard, PokerHand, Rank, Suit,
};
use crate::helpers::{compute_most_appear_suit, dominant_suit};
use vstd::prelude::*;

verus! {

// ------------------------------------------------------------------
// Sorting
// ------------------------------------------------------------------
/// Stable insertion of a card into a rank-sorted sequence: the card goes
/// after every card of rank less than or equal to its own.
pub open spec fn insert_by_rank(sorted: Seq<Card>, c: Card) -> Seq<Card>
    decreases sorted.len(),
{
    if sorted.len() == 0 {
        seq![c]
    } else if rank_order(c.rank) < rank_order(sorted[0].rank) {
        seq![c] + sorted
    } else {
        seq![sorted[0]] + insert_by_rank(sorted.skip(1), c)
    }
}

/// Stable sort of the cards, ascending by rank order.
pub open spec fn sort_by_rank(s: Seq<Card>) -> Seq<Card>
    decreases s.len(),
{
    if s.len() == 0 {
        Seq::empty()
    } else {
        insert_by_rank(sort_by_rank(s.drop_last()), s.last())
    }
}

proof fn lemma_insert_by_rank_len(sorted: Seq<Card>, c: Card)
    ensures
        insert_by_rank(sorted, c).len() == sorted.len() + 1,
    decreases sorted.len(),
{
    if sorted.len() > 0 && !(rank_order(c.rank) < rank_order(sorted[0].rank)) {
        lemma_insert_by_rank_len(sorted.skip(1), c);
    }
}

/// The sort keeps the number of cards.
pub proof fn lemma_sort_by_rank_len(s: Seq<Card>)
    ensures
        sort_by_rank(s).len() == s.len(),
    decreases s.len(),
{
    if s.len() > 0 {
        lemma_sort_by_rank_len(s.drop_last());
        lemma_insert_by_rank_len(sort_by_rank(s.drop_last()), s.last());
    }
}

/// Inserting at the first position whose rank exceeds the card's is what
/// `insert_by_rank` does.
proof fn lemma_insert_by_rank_at(s: Seq<Card>, c: Card, k: int)
    requires
        0 <= k <= s.len(),
        forall|j: int| 0 <= j < k ==> rank_order(s[j].rank) <= rank_order(c.rank),
        k < s.len() ==> rank_order(c.rank) < rank_order(s[k].rank),
    ensures
        insert_by_rank(s, c) =~= s.take(k) + seq![c] + s.skip(k),
    decreases s.len(),
{
    if s.len() == 0 {
    } else if rank_order(c.rank) < rank_order(s[0].rank) {
        assert(k == 0);
    } else {
        assert(k >= 1);
        lemma_insert_by_rank_at(s.skip(1), c, k - 1);
        assert(s.skip(1).take(k - 1) =~= s.take(k).skip(1));
        assert(s.skip(1).skip(k - 1) =~= s.skip(k));
    }
}

/// Sorts the cards ascending by rank order; the sort is stable, so cards of
/// equal rank keep their relative order.
pub fn sort_cards_by_rank(cards: &Vec<Card>) -> (r: Vec<Card>)
    ensures
        r@ == sort_by_rank(cards@),
{
    let mut out: Vec<Card> = Vec::new();
    let mut i: usize = 0;
    proof {
        assert(cards@.take(0) =~= Seq::<Card>::empty());
    }
    while i < cards.len()
        invariant
            i <= cards.len(),
            out@ == sort_by_rank(cards@.take(i as int)),
            out@.len() == i,
        decreases cards.len() - i,
    {
        let c = cards[i];
        let v = c.rank.rank_value();
        let mut k: usize = 0;
        while k < out.len() && out[k].rank.rank_value() <= v
            invariant
                k <= out.len(),
                forall|j: int| 0 <= j < k ==> rank_order(out@[j].rank) <= rank_order(c.rank),
                v == rank_order(c.rank),
            decreases out.len() - k,
        {
            k = k + 1;
        }
        proof {
            lemma_insert_by_rank_at(out@, c, k as int);
            assert(cards@.take(i as int + 1).drop_last() =~= cards@.take(i as int));
            assert(cards@.take(i as int + 1).last() == cards@[i as int]);
            assert(out@.take(k as int) + seq![c] + out@.skip(k as int) =~= out@.insert(
                k as int,
                c,
            ));
        }
        out.insert(k, c);
        i = i + 1;
    }
    proof {
        assert(cards@.take(cards@.len() as int) =~= cards@);
    }
    out
}

// ------------------------------------------------------------------
// Rank groups
// ------------------------------------------------------------------
/// The cards of one rank, in order.
pub open spec fn cards_of_rank(s: Seq<Card>, r: Rank) -> Seq<Card>
    decreases s.len(),
{
    if s.len() == 0 {
        Seq::empty()
    } else if s.last().rank == r {
        cards_of_rank(s.drop_last(), r).push(s.last())
    } else {
        cards_of_rank(s.drop_last(), r)
    }
}

/// How many cards have the given rank.
pub open spec fn rank_count(s: Seq<Card>, r: Rank) -> int {
    cards_of_rank(s, r).len() as int
}

/// The first index whose rank appears at least `m` times in the whole
/// sequence, scanning from position `i`; `-1` when there is none.
pub open spec fn first_group_idx(s: Seq<Card>, m: int, i: int) -> int
    decreases s.len() - i,
{
    if i < 0 || i >= s.len() {
        -1
    } else if rank_count(s, s[i].rank) >= m {
        i
    } else {
        first_group_idx(s, m, i + 1)
    }
}

/// As `first_group_idx`, but skipping cards of the excluded rank.
pub open spec fn first_group_idx_excl(s: Seq<Card>, m: int, excl: Rank, i: int) -> int
    decreases s.len() - i,
{
    if i < 0 || i >= s.len() {
        -1
    } else if s[i].rank != excl && rank_count(s, s[i].rank) >= m {
        i
    } else {
        first_group_idx_excl(s, m, excl, i + 1)
    }
}

/// Collects the cards of one rank, in order.
fn collect_rank(cards: &Vec<Card>, r: Rank) -> (out: Vec<Card>)
    ensures
        out@ == cards_of_rank(cards@, r),
{
    let mut out: Vec<Card> = Vec::new();
    let mut i: usize = 0;
    proof {
        assert(cards@.take(0) =~= Seq::<Card>::empty());
    }
    while i < cards.len()
        invariant
            i <= cards.len(),
            out@ == cards_of_rank(cards@.take(i as int), r),
        decreases cards.len() - i,
    {
        proof {
            assert(cards@.take(i as int + 1).drop_last() =~= cards@.take(i as int));
            assert(cards@.take(i as int + 1).last() == cards@[i as int]);
        }
        if cards[i].rank == r {
            let c = cards[i];
            out.push(c);
        }
        i = i + 1;
    }
    proof {
        assert(cards@.take(cards@.len() as int) =~= cards@);
    }
    out
}

/// Finds the first index whose rank forms a group of at least `m` cards.
fn find_group_idx(cards: &Vec<Card>, m: usize) -> (r: Option<usize>)
    ensures
        match r {
            Some(i) => i < cards@.len() && i == first_group_idx(cards@, m as int, 0)
                && rank_count(cards@, cards@[i as int].rank) >= m,
            None => first_group_idx(cards@, m as int, 0) == -1,
        },
{
    let mut i: usize = 0;
    while i < cards.len()
        invariant
            i <= cards.len(),
            first_group_idx(cards@, m as int, 0) == first_group_idx(cards@, m as int, i as int),
        decreases cards.len() - i,
    {
        let grp = collect_rank(cards, cards[i].rank);
        if grp.len() >= m {
            return Some(i);
        }
        i = i + 1;
    }
    None
}

/// Finds the first index, outside an excluded rank, whose rank forms a
/// group of at least `m` cards.
fn find_group_idx_excl(cards: &Vec<Card>, m: usize, excl: Rank) -> (r: Option<usize>)
    ensures
        match r {
            Some(i) => i < cards@.len() && i == first_group_idx_excl(cards@, m as int, excl, 0)
                && rank_count(cards@, cards@[i as int].rank) >= m && cards@[i as int].rank
                != excl,
            None => first_group_idx_excl(cards@, m as int, excl, 0) == -1,
        },
{
    let mut i: usize = 0;
    while i < cards.len()
        invariant
            i <= cards.len(),
            first_group_idx_excl(cards@, m as int, excl, 0) == first_group_idx_excl(
                cards@,
                m as int,
                excl,
                i as int,
            ),
        decreases cards.len() - i,
    {
        if !(cards[i].rank == excl) {
            let grp = collect_rank(cards, cards[i].rank);
            if grp.len() >= m {
                return Some(i);
            }
        }
        i = i + 1;
    }
    None
}

// ------------------------------------------------------------------
// N of a kind, pairs
// ------------------------------------------------------------------
/// The first `n` cards of the first rank that appears at least `n` times,
/// or empty when no rank does.
pub open spec fn spec_n_of_a_kind_cards(s: Seq<Card>, n: int) -> Seq<Card> {
    let i = first_group_idx(s, n, 0);
    if i >= 0 {
        cards_of_rank(s, s[i].rank).take(n)
    } else {
        Seq::empty()
    }
}

/// The first `n` cards of the first rank with a group of at least `n`.
fn n_of_a_kind(cards: &Vec<Card>, n: usize) -> (out: Vec<Card>)
    ensures
        out@ == spec_n_of_a_kind_cards(cards@, n as int),
{
    match find_group_idx(cards, n) {
        Some(i) => {
            let mut grp = collect_rank(cards, cards[i].rank);
            grp.truncate(n);
            proof {
                assert(cards_of_rank(cards@, cards@[i as int].rank).take(n as int)
                    =~= cards_of_rank(cards@, cards@[i as int].rank).subrange(0, n as int));
            }
            grp
        },
        None => Vec::new(),
    }
}

/// Detects a Pair: the first two cards of a rank that appears at least
/// twice, or empty.
pub fn is_pair(cards: &Vec<Card>) -> (out: Vec<Card>)
    ensures
        out@ == spec_n_of_a_kind_cards(cards@, 2),
{
    n_of_a_kind(cards, 2)
}

/// Detects a Three of a Kind: the first three cards of a rank that appears
/// at least three times, or empty.
pub fn is_three_of_a_kind(cards: &Vec<Card>) -> (out: Vec<Card>)
    ensures
        out@ == spec_n_of_a_kind_cards(cards@, 3),
{
    n_of_a_kind(cards, 3)
}

/// Detects a Four of a Kind: the first four cards of a rank that appears at
/// least four times, or empty.
pub fn is_four_of_a_kind(cards: &Vec<Card>) -> (out: Vec<Card>)
    ensures
        out@ == spec_n_of_a_kind_cards(cards@, 4),
{
    n_of_a_kind(cards, 4)
}

/// Detects a Five of a Kind: five cards of one rank, suits free.
pub fn is_five_of_a_kind(cards: &Vec<Card>) -> (out: Vec<Card>)
    ensures
        out@ == spec_n_of_a_kind_cards(cards@, 5),
{
    n_of_a_kind(cards, 5)
}

/// The cards of a Two Pair: the first two cards of the first paired rank,
/// then the first two of the next paired rank, or empty.
pub open spec fn spec_two_pair_cards(s: Seq<Card>) -> Seq<Card> {
    let i1 = first_group_idx(s, 2, 0);
    if i1 >= 0 {
        let i2 = first_group_idx_excl(s, 2, s[i1].rank, 0);
        if i2 >= 0 {
            cards_of_rank(s, s[i1].rank).take(2) + cards_of_rank(s, s[i2].rank).take(2)
        } else {
            Seq::empty()
        }
    } else {
        Seq::empty()
    }
}

/// Detects a Two Pair: two disjoint rank-matched pairs.
pub fn is_two_pair(cards: &Vec<Card>) -> (out: Vec<Card>)
    ensures
        out@ == spec_two_pair_cards(cards@),
{
    match find_group_idx(cards, 2) {
        Some(i1) => {
            let r1 = cards[i1].rank;
            match find_group_idx_excl(cards, 2, r1) {
                Some(i2) => {
                    let mut g1 = collect_rank(cards, r1);
                    g1.truncate(2);
                    let mut g2 = collect_rank(cards, cards[i2].rank);
                    g2.truncate(2);
                    let mut out = g1;
                    let ghost first_pair = out@;
                    let mut j: usize = 0;
                    while j < g2.len()
                        invariant
                            j <= g2.len(),
                            out@ == first_pair + g2@.take(j as int),
                        decreases g2.len() - j,
                    {
                        let c = g2[j];
                        out.push(c);
                        proof {
                            assert(first_pair + g2@.take(j as int + 1) =~= (first_pair + g2@.take(j as int)).push(
                                g2@[j as int],
                            ));
                        }
                        j = j + 1;
                    }
                    proof {
                        assert(g2@.take(g2@.len() as int) =~= g2@);
                        assert(cards_of_rank(cards@, r1).take(2) =~= cards_of_rank(
                            cards@,
                            r1,
                        ).subrange(0, 2));
                        assert(cards_of_rank(cards@, cards@[i2 as int].rank).take(2)
                            =~= cards_of_rank(cards@, cards@[i2 as int].rank).subrange(0, 2));
                    }
                    out
                },
                None => Vec::new(),
            }
        },
        None => Vec::new(),
    }
}

// ------------------------------------------------------------------
// Full house, high card
// ------------------------------------------------------------------
/// Whether the cards hold a three-of-a-rank group and a pair of a different
/// rank.
pub open spec fn full_house_shape(s: Seq<Card>) -> bool {
    let i3 = first_group_idx(s, 3, 0);
    i3 >= 0 && first_group_idx_excl(s, 2, s[i3].rank, 0) >= 0
}

/// The cards a Full House detection returns: the whole set on a match,
/// empty otherwise.
pub open spec fn spec_full_house_cards(s: Seq<Card>) -> Seq<Card> {
    if full_house_shape(s) {
        s
    } else {
        Seq::empty()
    }
}

/// Detects a Full House: three cards of one rank plus a pair of another.
/// Returns the whole set on a match.
pub fn is_full_house(cards: &Vec<Card>) -> (out: Vec<Card>)
    ensures
        out@ == spec_full_house_cards(cards@),
{
    match find_group_idx(cards, 3) {
        Some(i3) => {
            let r3 = cards[i3].rank;
            match find_group_idx_excl(cards, 2, r3) {
                Some(_) => copy_cards(cards),
                None => Vec::new(),
            }
        },
        None => Vec::new(),
    }
}

/// The index of the highest-ranked card; among equals, the last one.
pub open spec fn high_card_idx(s: Seq<Card>) -> int
    decreases s.len(),
{
    if s.len() <= 1 {
        0
    } else {
        let p = high_card_idx(s.drop_last());
        if rank_order(s.last().rank) >= rank_order(s[p].rank) {
            s.len() - 1
        } else {
            p
        }
    }
}

/// The index of the highest card is in range.
pub proof fn lemma_high_card_idx_in_range(s: Seq<Card>)
    requires
        s.len() >= 1,
    ensures
        0 <= high_card_idx(s) < s.len(),
    decreases s.len(),
{
    if s.len() > 1 {
        lemma_high_card_idx_in_range(s.drop_last());
    }
}

/// Detects the High Card: the single highest-ranked card, ties broken by
/// taking the last one.
pub fn is_high_card(cards: &Vec<Card>) -> (out: Vec<Card>)
    requires
        cards@.len() >= 1,
    ensures
        out@ == seq![cards@[high_card_idx(cards@)]],
{
    let mut best: usize = 0;
    let mut i: usize = 1;
    while i < cards.len()
        invariant
            1 <= i <= cards.len(),
            cards@.len() >= 1,
            0 <= best < i,
            best == high_card_idx(cards@.take(i as int)),
        decreases cards.len() - i,
    {
        proof {
            assert(cards@.take(i as int + 1).drop_last() =~= cards@.take(i as int));
            assert(cards@.take(i as int + 1).last() == cards@[i as int]);
        }
        if cards[i].rank.rank_value() >= cards[best].rank.rank_value() {
            best = i;
        }
        i = i + 1;
    }
    proof {
        assert(cards@.take(cards@.len() as int) =~= cards@);
    }
    let mut out: Vec<Card> = Vec::new();
    let c = cards[best];
    out.push(c);
    out
}

// ------------------------------------------------------------------
// Flush family
// ------------------------------------------------------------------
/// The cards matching a suit (literally or through Wild), in order.
pub open spec fn matching_suit_cards(s: Seq<Card>, suit: Suit) -> Seq<Card>
    decreases s.len(),
{
    if s.len() == 0 {
        Seq::empty()
    } else if suit_matches(s.last(), suit) {
        matching_suit_cards(s.drop_last(), suit).push(s.last())
    } else {
        matching_suit_cards(s.drop_last(), suit)
    }
}

/// The cards a Flush detection returns: those matching the dominant suit.
pub open spec fn spec_flush_cards(s: Seq<Card>) -> Seq<Card> {
    matching_suit_cards(s, dominant_suit(s))
}

/// Collects the cards matching a suit, literally or through Wild.
fn collect_matching_suit(cards: &Vec<Card>, suit: Suit) -> (out: Vec<Card>)
    ensures
        out@ == matching_suit_cards(cards@, suit),
{
    let mut out: Vec<Card> = Vec::new();
    let mut i: usize = 0;
    proof {
        assert(cards@.take(0) =~= Seq::<Card>::empty());
    }
    while i < cards.len()
        invariant
            i <= cards.len(),
            out@ == matching_suit_cards(cards@.take(i as int), suit),
        decreases cards.len() - i,
    {
        proof {
            assert(cards@.take(i as int + 1).drop_last() =~= cards@.take(i as int));
            assert(cards@.take(i as int + 1).last() == cards@[i as int]);
        }
        let c = cards[i];
        if card_suit_matches(&c, suit) {
            out.push(c);
        }
        i = i + 1;
    }
    proof {
        assert(cards@.take(cards@.len() as int) =~= cards@);
    }
    out
}

/// Detects a Flush: the cards matching the dominant suit, Wild cards
/// substituting for it.
pub fn is_flush(cards: &Vec<Card>) -> (out: Vec<Card>)
    ensures
        out@ == spec_flush_cards(cards@),
{
    let base_suit = compute_most_appear_suit(cards);
    collect_matching_suit(cards, base_suit)
}

/// The cards a Flush Five detection returns: among the first rank group of
/// at least four cards, those matching the group's dominant suit.
pub open spec fn spec_flush_five_cards(s: Seq<Card>) -> Seq<Card> {
    let i = first_group_idx(s, 4, 0);
    if i >= 0 {
        let grp = cards_of_rank(s, s[i].rank);
        matching_suit_cards(grp, dominant_suit(grp))
    } else {
        Seq::empty()
    }
}

/// Detects a Flush Five: cards sharing both one rank and one suit, Wild
/// cards substituting for the suit.
pub fn is_flush_five(cards: &Vec<Card>) -> (out: Vec<Card>)
    ensures
        out@ == spec_flush_five_cards(cards@),
{
    match find_group_idx(cards, 4) {
        Some(i) => {
            let grp = collect_rank(cards, cards[i].rank);
            let d = compute_most_appear_suit(&grp);
            collect_matching_suit(&grp, d)
        },
        None => Vec::new(),
    }
}

/// Every card matches the suit, literally or through Wild.
pub open spec fn all_match_suit(s: Seq<Card>, suit: Suit) -> bool {
    forall|i: int| 0 <= i < s.len() ==> suit_matches(s[i], suit)
}

/// The cards a Flush House detection returns: the whole set when it is a
/// full house entirely of one suit (Wild substituting), empty otherwise.
pub open spec fn spec_flush_house_cards(s: Seq<Card>) -> Seq<Card> {
    if full_house_shape(s) && all_match_suit(s, dominant_suit(s)) {
        s
    } else {
        Seq::empty()
    }
}

/// Detects a Flush House: a full house whose cards all match the dominant
/// suit.  Returns the whole set on a match.
pub fn is_flush_house(cards: &Vec<Card>) -> (out: Vec<Card>)
    ensures
        out@ == spec_flush_house_cards(cards@),
{
    let fh = is_full_house(cards);
    if fh.len() == 0 {
        proof {
            if full_house_shape(cards@) {
                assert(spec_full_house_cards(cards@).len() == cards@.len());
                assert(cards@.len() == 0);
                assert(!(first_group_idx(cards@, 3, 0) >= 0));
            }
        }
        return Vec::new();
    }
    let d = compute_most_appear_suit(cards);
    let m = collect_matching_suit(cards, d);
    proof {
        lemma_matching_suit_all(cards@, d);
    }
    if m.len() == cards.len() {
        copy_cards(cards)
    } else {
        Vec::new()
    }
}

/// The suit-matching subsequence has full length exactly when every card
/// matches.
proof fn lemma_matching_suit_all(s: Seq<Card>, suit: Suit)
    ensures
        matching_suit_cards(s, suit).len() <= s.len(),
        (matching_suit_cards(s, suit).len() == s.len()) == all_match_suit(s, suit),
    decreases s.len(),
{
    if s.len() > 0 {
        lemma_matching_suit_all(s.drop_last(), suit);
        assert(forall|i: int|
            0 <= i < s.len() - 1 ==> s.drop_last()[i] == s[i]);
        if matching_suit_cards(s, suit).len() == s.len() {
            assert(all_match_suit(s.drop_last(), suit));
            assert(forall|i: int| 0 <= i < s.len() ==> suit_matches(s[i], suit)) by {
                assert(suit_matches(s[s.len() - 1], suit));
                assert(forall|i: int|
                    0 <= i < s.len() - 1 ==> suit_matches(s.drop_last()[i], suit));
            }
        }
        if all_match_suit(s, suit) {
            assert(suit_matches(s.last(), suit));
            assert(all_match_suit(s.drop_last(), suit));
        }
    }
}

// ------------------------------------------------------------------
// Straight family
// ------------------------------------------------------------------
/// Whether a card stands for a rank value: its own order, or 1 for an Ace
/// counted low.
pub open spec fn rank_val_matches(c: Card, v: int) -> bool {
    rank_order(c.rank) == v || (v == 1 && c.rank == Rank::Ace)
}

/// Whether some card stands for the rank value.
pub open spec fn has_rank_value(s: Seq<Card>, v: int) -> bool {
    exists|i: int| 0 <= i < s.len() && rank_val_matches(s[i], v)
}

/// Whether every value of the window `start .. start + len` is present.
pub open spec fn has_run(s: Seq<Card>, start: int, len: int) -> bool {
    forall|v: int| start <= v < start + len ==> has_rank_value(s, v)
}

/// The highest start in `1 ..= hi` of a present run of `len` consecutive
/// values, or 0 when there is none.
pub open spec fn best_run_start_from(s: Seq<Card>, len: int, hi: int) -> int
    decreases hi,
{
    if hi < 1 {
        0
    } else if has_run(s, hi, len) {
        hi
    } else {
        best_run_start_from(s, len, hi - 1)
    }
}

/// The start of the best five-card run (Ace counting low as 1), or 0.
pub open spec fn run5_start(s: Seq<Card>) -> int {
    best_run_start_from(s, 5, 10)
}

/// The start of the best four-card run, or 0.  A four-card run never uses
/// the Ace as 1: the low Ace only completes the five-card run below the
/// Five.
pub open spec fn run4_start(s: Seq<Card>) -> int {
    if best_run_start_from(s, 4, 11) >= 2 {
        best_run_start_from(s, 4, 11)
    } else {
        0
    }
}

/// The last index whose card stands for the value, or -1.
pub open spec fn last_val_idx(s: Seq<Card>, v: int) -> int
    decreases s.len(),
{
    if s.len() == 0 {
        -1
    } else if rank_val_matches(s.last(), v) {
        s.len() - 1
    } else {
        last_val_idx(s.drop_last(), v)
    }
}

/// A value is present exactly when its last index exists, and the card
/// there stands for it.
pub proof fn lemma_last_val_idx(s: Seq<Card>, v: int)
    ensures
        has_rank_value(s, v) == (last_val_idx(s, v) >= 0),
        last_val_idx(s, v) >= 0 ==> last_val_idx(s, v) < s.len() && rank_val_matches(
            s[last_val_idx(s, v)],
            v,
        ),
    decreases s.len(),
{
    if s.len() > 0 {
        lemma_last_val_idx(s.drop_last(), v);
        assert(forall|i: int| 0 <= i < s.len() - 1 ==> s.drop_last()[i] == s[i]);
        if rank_val_matches(s.last(), v) {
            assert(rank_val_matches(s[s.len() - 1], v));
        } else {
            if has_rank_value(s, v) {
                let w = choose|i: int| 0 <= i < s.len() && rank_val_matches(s[i], v);
                assert(w < s.len() - 1);
                assert(rank_val_matches(s.drop_last()[w], v));
            }
            if has_rank_value(s.drop_last(), v) {
                let w = choose|i: int|
                    0 <= i < s.drop_last().len() && rank_val_matches(s.drop_last()[i], v);
                assert(rank_val_matches(s[w], v));
            }
        }
    }
}

/// One card per value of the run, each the last card standing for it, in
/// ascending value order.
pub open spec fn straight_pick(s: Seq<Card>, start: int, n: nat) -> Seq<Card> {
    Seq::new(n, |i: int| s[last_val_idx(s, start + i)])
}

/// The cards a Straight detection returns: the best five-card run, else the
/// best four-card run, else empty.
pub open spec fn spec_straight_cards(s: Seq<Card>) -> Seq<Card> {
    if run5_start(s) >= 1 {
        straight_pick(s, run5_start(s), 5)
    } else if run4_start(s) >= 1 {
        straight_pick(s, run4_start(s), 4)
    } else {
        Seq::empty()
    }
}

/// A found run start really carries a run.
pub proof fn lemma_best_run_found(s: Seq<Card>, len: int, hi: int)
    requires
        best_run_start_from(s, len, hi) >= 1,
    ensures
        has_run(s, best_run_start_from(s, len, hi), len),
        best_run_start_from(s, len, hi) <= hi,
    decreases hi,
{
    if hi >= 1 && !has_run(s, hi, len) {
        lemma_best_run_found(s, len, hi - 1);
    }
}

/// Whether some card stands for the rank value.
fn has_value(cards: &Vec<Card>, v: u64) -> (r: bool)
    ensures
        r == has_rank_value(cards@, v as int),
{
    let mut i: usize = 0;
    while i < cards.len()
        invariant
            i <= cards.len(),
            forall|j: int| 0 <= j < i ==> !rank_val_matches(cards@[j], v as int),
        decreases cards.len() - i,
    {
        let c = cards[i];
        if c.rank.rank_value() == v || (v == 1 && matches!(c.rank, Rank::Ace)) {
            return true;
        }
        i = i + 1;
    }
    false
}

/// Whether every value of the window is present.
fn has_run_exec(cards: &Vec<Card>, start: u64, len: u64) -> (r: bool)
    requires
        start + len <= u64::MAX,
    ensures
        r == has_run(cards@, start as int, len as int),
{
    let mut v: u64 = start;
    while v < start + len
        invariant
            start + len <= u64::MAX,
            start <= v <= start + len,
            forall|w: int| start <= w < v ==> has_rank_value(cards@, w),
        decreases start + len - v,
    {
        if !has_value(cards, v) {
            return false;
        }
        v = v + 1;
    }
    true
}

/// The highest start of a present run, scanning down from `hi`.
fn find_run(cards: &Vec<Card>, len: u64, hi: u64) -> (r: u64)
    requires
        hi + len <= u64::MAX,
    ensures
        r == best_run_start_from(cards@, len as int, hi as int),
{
    let mut h: u64 = hi;
    while h >= 1
        invariant
            hi + len <= u64::MAX,
            h <= hi,
            best_run_start_from(cards@, len as int, hi as int) == best_run_start_from(
                cards@,
                len as int,
                h as int,
            ),
        decreases h,
    {
        if has_run_exec(cards, h, len) {
            return h;
        }
        h = h - 1;
    }
    0
}

/// The last index whose card stands for the value.
fn last_index_of_value(cards: &Vec<Card>, v: u64) -> (r: Option<usize>)
    ensures
        match r {
            Some(i) => i == last_val_idx(cards@, v as int),
            None => last_val_idx(cards@, v as int) == -1,
        },
{
    let mut found: Option<usize> = None;
    let mut i: usize = 0;
    proof {
        assert(cards@.take(0) =~= Seq::<Card>::empty());
    }
    while i < cards.len()
        invariant
            i <= cards.len(),
            match found {
                Some(k) => k == last_val_idx(cards@.take(i as int), v as int),
                None => last_val_idx(cards@.take(i as int), v as int) == -1,
            },
        decreases cards.len() - i,
    {
        proof {
            assert(cards@.take(i as int + 1).drop_last() =~= cards@.take(i as int));
            assert(cards@.take(i as int + 1).last() == cards@[i as int]);
        }
        let c = cards[i];
        if c.rank.rank_value() == v || (v == 1 && matches!(c.rank, Rank::Ace)) {
            found = Some(i);
        }
        i = i + 1;
    }
    proof {
        assert(cards@.take(cards@.len() as int) =~= cards@);
    }
    found
}

/// Builds the picked run cards for a found start.
fn pick_run(cards: &Vec<Card>, start: u64, n: u64) -> (out: Vec<Card>)
    requires
        start >= 1,
        start + n <= u64::MAX,
        has_run(cards@, start as int, n as int),
    ensures
        out@ == straight_pick(cards@, start as int, n as nat),
{
    let mut out: Vec<Card> = Vec::new();
    let mut j: u64 = 0;
    while j < n
        invariant
            j <= n,
            start + n <= u64::MAX,
            has_run(cards@, start as int, n as int),
            out@ =~= straight_pick(cards@, start as int, j as nat),
        decreases n - j,
    {
        let v = start + j;
        proof {
            assert(has_rank_value(cards@, v as int));
            lemma_last_val_idx(cards@, v as int);
        }
        match last_index_of_value(cards, v) {
            Some(idx) => {
                let c = cards[idx];
                out.push(c);
            },
            None => {
                proof {
                    assert(false);
                }
            },
        }
        proof {
            assert(out@ =~= straight_pick(cards@, start as int, (j + 1) as nat));
        }
        j = j + 1;
    }
    out
}

/// Detects a Straight: five strictly consecutive rank values, the Ace also
/// serving as 1 only to complete Ace-Two-Three-Four-Five; a four-card run
/// is returned when no five-card run exists, for the Four Fingers
/// capability to use.
pub fn is_straight(cards: &Vec<Card>) -> (out: Vec<Card>)
    ensures
        out@ == spec_straight_cards(cards@),
{
    let r5 = find_run(cards, 5, 10);
    if r5 >= 1 {
        proof {
            lemma_best_run_found(cards@, 5, 10);
        }
        pick_run(cards, r5, 5)
    } else {
        let r4 = find_run(cards, 4, 11);
        if r4 >= 2 {
            proof {
                lemma_best_run_found(cards@, 4, 11);
            }
            pick_run(cards, r4, 4)
        } else {
            Vec::new()
        }
    }
}

// ------------------------------------------------------------------
// Straight flush
// ------------------------------------------------------------------
/// Whether an equal card occurs in the sequence.
pub open spec fn in_cards(c: Card, s: Seq<Card>) -> bool {
    exists|i: int| 0 <= i < s.len() && s[i] == c
}

/// The cards that lie in the flush or the straight subset, each kept at its
/// first occurrence only.
pub open spec fn union_first(s: Seq<Card>, f: Seq<Card>, t: Seq<Card>) -> Seq<Card>
    decreases s.len(),
{
    if s.len() == 0 {
        Seq::empty()
    } else {
        let pre = union_first(s.drop_last(), f, t);
        let c = s.last();
        if (in_cards(c, f) || in_cards(c, t)) && !in_cards(c, s.drop_last()) {
            pre.push(c)
        } else {
            pre
        }
    }
}

/// The cards a Straight Flush detection returns: the whole set when the
/// flush and straight subsets both have five cards; with Four Fingers, the
/// union of the two subsets when one has four cards and the other four or
/// five; empty otherwise.
pub open spec fn spec_straight_flush_cards(s: Seq<Card>, four_fingers: bool) -> Seq<Card> {
    let f = spec_flush_cards(s);
    let t = spec_straight_cards(s);
    if f.len() == 5 && t.len() == 5 {
        s
    } else if four_fingers && (f.len() == 4 || f.len() == 5) && (t.len() == 4 || t.len() == 5) {
        union_first(s, f, t)
    } else {
        Seq::empty()
    }
}

/// Whether an equal card occurs in the vector.
fn vec_contains_card(v: &Vec<Card>, c: &Card) -> (r: bool)
    ensures
        r == in_cards(*c, v@),
{
    let mut i: usize = 0;
    while i < v.len()
        invariant
            i <= v.len(),
            forall|j: int| 0 <= j < i ==> v@[j] != *c,
        decreases v.len() - i,
    {
        if card_eq(&v[i], c) {
            return true;
        }
        i = i + 1;
    }
    false
}

/// Whether an equal card occurs among the first `n` entries.
fn prefix_contains_card(v: &Vec<Card>, n: usize, c: &Card) -> (r: bool)
    requires
        n <= v@.len(),
    ensures
        r == in_cards(*c, v@.take(n as int)),
{
    let mut i: usize = 0;
    while i < n
        invariant
            i <= n <= v@.len(),
            forall|j: int| 0 <= j < i ==> v@[j] != *c,
        decreases n - i,
    {
        if card_eq(&v[i], c) {
            proof {
                assert(v@.take(n as int)[i as int] == *c);
            }
            return true;
        }
        i = i + 1;
    }
    proof {
        if in_cards(*c, v@.take(n as int)) {
            let w = choose|j: int| 0 <= j < n && v@.take(n as int)[j] == *c;
            assert(v@[w] == *c);
        }
    }
    false
}

/// Detects a Straight Flush: the flush and straight subsets overlap on five
/// cards, or — with Four Fingers — their union where one side has four.
pub fn is_straight_flush(cards: &Vec<Card>, is_four_finger_exists: bool) -> (out: Vec<Card>)
    ensures
        out@ == spec_straight_flush_cards(cards@, is_four_finger_exists),
{
    let f = is_flush(cards);
    let t = is_straight(cards);
    if f.len() == 5 && t.len() == 5 {
        copy_cards(cards)
    } else if is_four_finger_exists && (f.len() == 4 || f.len() == 5) && (t.len() == 4 || t.len()
        == 5) {
        let mut out: Vec<Card> = Vec::new();
        let mut i: usize = 0;
        proof {
            assert(cards@.take(0) =~= Seq::<Card>::empty());
        }
        while i < cards.len()
            invariant
                i <= cards.len(),
                out@ == union_first(cards@.take(i as int), f@, t@),
            decreases cards.len() - i,
        {
            proof {
                assert(cards@.take(i as int + 1).drop_last() =~= cards@.take(i as int));
                assert(cards@.take(i as int + 1).last() == cards@[i as int]);
            }
            let c = cards[i];
            if (vec_contains_card(&f, &c) || vec_contains_card(&t, &c)) && !prefix_contains_card(
                cards,
                i,
                &c,
            ) {
                out.push(c);
            }
            i = i + 1;
        }
        proof {
            assert(cards@.take(cards@.len() as int) =~= cards@);
        }
        out
    } else {
        Vec::new()
    }
}

// ------------------------------------------------------------------
// Classification
// ------------------------------------------------------------------
/// The strongest combination of the played cards, with the cards that
/// score: combinations are tried strongest first, the whole played set is
/// returned verbatim for the shapes that consume it, and the matched subset
/// (in sorted order) for the others.
pub open spec fn spec_classify(played: Seq<Card>, jokers: Seq<JokerCard>) -> (PokerHand, Seq<
    Card,
>) {
    let s = sort_by_rank(played);
    let ff = joker_present(jokers, Joker::FourFingers);
    let ff5 = spec_flush_five_cards(s);
    let fhc = spec_flush_house_cards(s);
    let five = spec_n_of_a_kind_cards(s, 5);
    let sf = spec_straight_flush_cards(s, ff);
    let four = spec_n_of_a_kind_cards(s, 4);
    let full = spec_full_house_cards(s);
    let fl = spec_flush_cards(s);
    let t = spec_straight_cards(s);
    let three = spec_n_of_a_kind_cards(s, 3);
    let tp = spec_two_pair_cards(s);
    let pr = spec_n_of_a_kind_cards(s, 2);
    if ff5.len() == 5 || (ff && ff5.len() == 4) {
        (PokerHand::FlushFive, played)
    } else if fhc.len() == 5 {
        (PokerHand::FlushHouse, played)
    } else if five.len() == 5 {
        (PokerHand::FiveOfAKind, played)
    } else if sf.len() == 5 {
        (PokerHand::StraightFlush, played)
    } else if ff && sf.len() == 4 {
        (PokerHand::StraightFlush, sf)
    } else if four.len() == 4 {
        (PokerHand::FourOfAKind, four)
    } else if full.len() == 5 {
        (PokerHand::FullHouse, played)
    } else if fl.len() == 5 {
        (PokerHand::Flush, played)
    } else if ff && fl.len() == 4 {
        (PokerHand::Flush, fl)
    } else if t.len() == 5 {
        (PokerHand::Straight, played)
    } else if ff && t.len() == 4 {
        (PokerHand::Straight, t)
    } else if three.len() == 3 {
        (PokerHand::ThreeOfAKind, three)
    } else if tp.len() == 4 {
        (PokerHand::TwoPair, tp)
    } else if pr.len() == 2 {
        (PokerHand::Pair, pr)
    } else {
        (PokerHand::HighCard, seq![s[high_card_idx(s)]])
    }
}

/// Determines the strongest combination and the cards that score.
pub fn determine_poker_hand(cards: &Vec<Card>, jokers: &Vec<JokerCard>) -> (r: (PokerHand, Vec<
    Card,
>))
    requires
        cards@.len() >= 1,
    ensures
        r.0 == spec_classify(cards@, jokers@).0,
        r.1@ == spec_classify(cards@, jokers@).1,
{
    let sorted = sort_cards_by_rank(cards);
    let ff = any_joker(jokers, Joker::FourFingers);

    let ff5 = is_flush_five(&sorted);
    if ff5.len() == 5 || (ff && ff5.len() == 4) {
        return (PokerHand::FlushFive, copy_cards(cards));
    }
    let fhc = is_flush_house(&sorted);
    if fhc.len() == 5 {
        return (PokerHand::FlushHouse, copy_cards(cards));
    }
    let five = is_five_of_a_kind(&sorted);
    if five.len() == 5 {
        return (PokerHand::FiveOfAKind, copy_cards(cards));
    }
    let sf = is_straight_flush(&sorted, ff);
    if sf.len() == 5 {
        return (PokerHand::StraightFlush, copy_cards(cards));
    }
    if ff && sf.len() == 4 {
        return (PokerHand::StraightFlush, sf);
    }
    let four = is_four_of_a_kind(&sorted);
    if four.len() == 4 {
        return (PokerHand::FourOfAKind, four);
    }
    let full = is_full_house(&sorted);
    if full.len() == 5 {
        return (PokerHand::FullHouse, copy_cards(cards));
    }
    let fl = is_flush(&sorted);
    if fl.len() == 5 {
        return (PokerHand::Flush, copy_cards(cards));
    }
    if ff && fl.len() == 4 {
        return (PokerHand::Flush, fl);
    }
    let t = is_straight(&sorted);
    if t.len() == 5 {
        return (PokerHand::Straight, copy_cards(cards));
    }
    if ff && t.len() == 4 {
        return (PokerHand::Straight, t);
    }
    let three = is_three_of_a_kind(&sorted);
    if three.len() == 3 {
        return (PokerHand::ThreeOfAKind, three);
    }
    let tp = is_two_pair(&sorted);
    if tp.len() == 4 {
        return (PokerHand::TwoPair, tp);
    }
    let pr = is_pair(&sorted);
    if pr.len() == 2 {
        return (PokerHand::Pair, pr);
    }
    proof {
        lemma_sort_by_rank_len(cards@);
        lemma_high_card_idx_in_range(sorted@);
    }
    (PokerHand::HighCard, is_high_card(&sorted))
}


// ------------------------------------------------------------------
// Facts about rank groups and runs
// ------------------------------------------------------------------
/// A card's own rank has a non-empty group.
pub proof fn lemma_rank_count_pos(s: Seq<Card>, i: int)
    requires
        0 <= i < s.len(),
    ensures
        rank_count(s, s[i].rank) >= 1,
    decreases s.len(),
{
    if i < s.len() - 1 {
        lemma_rank_count_pos(s.drop_last(), i);
        assert(s.drop_last()[i] == s[i]);
    }
}

/// Groups of four pairwise distinct ranks cannot exceed the hand together.
pub proof fn lemma_count_four_ranks(s: Seq<Card>, a: Rank, b: Rank, c: Rank, d: Rank)
    requires
        a != b,
        a != c,
        a != d,
        b != c,
        b != d,
        c != d,
    ensures
        rank_count(s, a) + rank_count(s, b) + rank_count(s, c) + rank_count(s, d) <= s.len(),
    decreases s.len(),
{
    if s.len() > 0 {
        lemma_count_four_ranks(s.drop_last(), a, b, c, d);
    }
}

/// When no rank reaches a group of `m`, the group search fails.
pub proof fn lemma_no_group_idx(s: Seq<Card>, m: int, i: int)
    requires
        forall|r: Rank| rank_count(s, r) < m,
    ensures
        first_group_idx(s, m, i) == -1,
    decreases s.len() - i,
{
    if 0 <= i < s.len() {
        assert(rank_count(s, s[i].rank) < m);
        lemma_no_group_idx(s, m, i + 1);
    }
}

/// On a five-card hand holding a five-long run, every rank group has at
/// most two cards.
pub proof fn lemma_run5_small_groups(s: Seq<Card>)
    requires
        s.len() == 5,
        run5_start(s) >= 1,
    ensures
        forall|r: Rank| rank_count(s, r) <= 2,
{
    let v0 = run5_start(s);
    lemma_best_run_found(s, 5, 10);
    assert forall|r: Rank| rank_count(s, r) <= 2 by {
        if rank_count(s, r) >= 3 {
            assert(has_rank_value(s, v0 + 1));
            assert(has_rank_value(s, v0 + 2));
            assert(has_rank_value(s, v0 + 3));
            assert(has_rank_value(s, v0 + 4));
            let w1 = choose|i: int| 0 <= i < s.len() && rank_val_matches(s[i], v0 + 1);
            let w2 = choose|i: int| 0 <= i < s.len() && rank_val_matches(s[i], v0 + 2);
            let w3 = choose|i: int| 0 <= i < s.len() && rank_val_matches(s[i], v0 + 3);
            let w4 = choose|i: int| 0 <= i < s.len() && rank_val_matches(s[i], v0 + 4);
            let q1 = s[w1].rank;
            let q2 = s[w2].rank;
            let q3 = s[w3].rank;
            let q4 = s[w4].rank;
            assert(rank_order(q1) == v0 + 1);
            assert(rank_order(q2) == v0 + 2);
            assert(rank_order(q3) == v0 + 3);
            assert(rank_order(q4) == v0 + 4);
            lemma_rank_count_pos(s, w1);
            lemma_rank_count_pos(s, w2);
            lemma_rank_count_pos(s, w3);
            lemma_rank_count_pos(s, w4);
            if q1 == r {
                lemma_count_four_ranks(s, r, q2, q3, q4);
            } else if q2 == r {
                lemma_count_four_ranks(s, r, q1, q3, q4);
            } else if q3 == r {
                lemma_count_four_ranks(s, r, q1, q2, q4);
            } else if q4 == r {
                lemma_count_four_ranks(s, r, q1, q2, q3);
            } else {
                lemma_count_four_ranks(s, r, q1, q2, q3);
            }
            assert(false);
        }
    }
}

} // verus!
