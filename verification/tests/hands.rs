use ortalab::cards::{Card, Edition, Enhancement, Joker, JokerCard, PokerHand, Rank, Suit};
use ortalab::hands::{
    determine_poker_hand, is_flush, is_flush_five, is_flush_house, is_four_of_a_kind,
    is_full_house, is_high_card, is_pair, is_straight, is_straight_flush, is_three_of_a_kind,
    is_two_pair, sort_cards_by_rank,
};
use ortalab::helpers::{compute_most_appear_suit, determine_current_suit, determine_total_colors};
use ortalab::cards::SuitColor;

fn card(rank: Rank, suit: Suit) -> Card {
    Card { rank, suit, enhancement: None, edition: None }
}

fn wild(rank: Rank, suit: Suit) -> Card {
    Card { rank, suit, enhancement: Some(Enhancement::Wild), edition: None }
}

fn joker(j: Joker) -> JokerCard {
    JokerCard { joker: j, edition: None }
}

#[test]
fn sort_is_stable_and_ascending() {
    let cards = vec![
        card(Rank::King, Suit::Hearts),
        card(Rank::Three, Suit::Clubs),
        card(Rank::King, Suit::Spades),
        card(Rank::Two, Suit::Diamonds),
    ];
    let sorted = sort_cards_by_rank(&cards);
    assert_eq!(sorted[0], card(Rank::Two, Suit::Diamonds));
    assert_eq!(sorted[1], card(Rank::Three, Suit::Clubs));
    assert_eq!(sorted[2], card(Rank::King, Suit::Hearts));
    assert_eq!(sorted[3], card(Rank::King, Suit::Spades));
}

#[test]
fn high_card_takes_last_of_equal_ranks() {
    let cards = vec![
        card(Rank::Ace, Suit::Hearts),
        card(Rank::Two, Suit::Clubs),
        card(Rank::Ace, Suit::Spades),
    ];
    let r = is_high_card(&cards);
    assert_eq!(r.len(), 1);
    assert_eq!(r[0], card(Rank::Ace, Suit::Spades));
}

#[test]
fn pair_returns_first_two_of_paired_rank() {
    let cards = sort_cards_by_rank(&vec![
        card(Rank::King, Suit::Hearts),
        card(Rank::King, Suit::Spades),
        card(Rank::Three, Suit::Clubs),
    ]);
    let r = is_pair(&cards);
    assert_eq!(r.len(), 2);
    assert!(r.iter().all(|c| c.rank == Rank::King));
}

#[test]
fn no_pair_on_distinct_ranks() {
    let cards = vec![
        card(Rank::Two, Suit::Hearts),
        card(Rank::Five, Suit::Spades),
        card(Rank::Nine, Suit::Clubs),
    ];
    assert!(is_pair(&cards).is_empty());
}

#[test]
fn two_pair_returns_both_pairs() {
    let cards = sort_cards_by_rank(&vec![
        card(Rank::King, Suit::Hearts),
        card(Rank::King, Suit::Spades),
        card(Rank::Eight, Suit::Clubs),
        card(Rank::Eight, Suit::Diamonds),
        card(Rank::Two, Suit::Hearts),
    ]);
    let r = is_two_pair(&cards);
    assert_eq!(r.len(), 4);
    assert_eq!(r.iter().filter(|c| c.rank == Rank::King).count(), 2);
    assert_eq!(r.iter().filter(|c| c.rank == Rank::Eight).count(), 2);
}

#[test]
fn three_of_a_kind_returns_exactly_three() {
    let cards = sort_cards_by_rank(&vec![
        card(Rank::Queen, Suit::Hearts),
        card(Rank::Queen, Suit::Spades),
        card(Rank::Queen, Suit::Clubs),
        card(Rank::Nine, Suit::Diamonds),
        card(Rank::Two, Suit::Hearts),
    ]);
    let r = is_three_of_a_kind(&cards);
    assert_eq!(r.len(), 3);
    assert!(r.iter().all(|c| c.rank == Rank::Queen));
}

#[test]
fn four_of_a_kind_returns_exactly_four() {
    let cards = sort_cards_by_rank(&vec![
        card(Rank::Jack, Suit::Hearts),
        card(Rank::Jack, Suit::Spades),
        card(Rank::Jack, Suit::Clubs),
        card(Rank::Jack, Suit::Diamonds),
        card(Rank::Two, Suit::Hearts),
    ]);
    let r = is_four_of_a_kind(&cards);
    assert_eq!(r.len(), 4);
    assert!(r.iter().all(|c| c.rank == Rank::Jack));
}

#[test]
fn straight_of_five_consecutive_ranks() {
    let cards = sort_cards_by_rank(&vec![
        card(Rank::Five, Suit::Clubs),
        card(Rank::Six, Suit::Hearts),
        card(Rank::Seven, Suit::Spades),
        card(Rank::Eight, Suit::Diamonds),
        card(Rank::Nine, Suit::Clubs),
    ]);
    let r = is_straight(&cards);
    assert_eq!(r.len(), 5);
}

#[test]
fn ace_low_straight_is_recognised() {
    let cards = sort_cards_by_rank(&vec![
        card(Rank::Ace, Suit::Clubs),
        card(Rank::Two, Suit::Hearts),
        card(Rank::Three, Suit::Spades),
        card(Rank::Four, Suit::Diamonds),
        card(Rank::Five, Suit::Clubs),
    ]);
    let r = is_straight(&cards);
    assert_eq!(r.len(), 5);
    assert!(r.iter().any(|c| c.rank == Rank::Ace));
}

#[test]
fn gap_breaks_the_straight() {
    let cards = sort_cards_by_rank(&vec![
        card(Rank::Two, Suit::Clubs),
        card(Rank::Three, Suit::Hearts),
        card(Rank::Four, Suit::Spades),
        card(Rank::Five, Suit::Diamonds),
        card(Rank::Seven, Suit::Clubs),
    ]);
    let r = is_straight(&cards);
    assert_ne!(r.len(), 5);
}

#[test]
fn flush_collects_dominant_suit_and_wilds() {
    let cards = vec![
        card(Rank::Ace, Suit::Hearts),
        card(Rank::Ten, Suit::Hearts),
        card(Rank::Four, Suit::Hearts),
        wild(Rank::Seven, Suit::Spades),
        card(Rank::Two, Suit::Hearts),
    ];
    let r = is_flush(&cards);
    assert_eq!(r.len(), 5);
}

#[test]
fn flush_five_needs_one_rank_and_suit() {
    let cards = vec![
        card(Rank::Ace, Suit::Hearts),
        card(Rank::Ace, Suit::Hearts),
        card(Rank::Ace, Suit::Hearts),
        card(Rank::Ace, Suit::Hearts),
        card(Rank::Ace, Suit::Hearts),
    ];
    assert_eq!(is_flush_five(&cards).len(), 5);
    let mixed = vec![
        card(Rank::Ace, Suit::Hearts),
        card(Rank::Ace, Suit::Hearts),
        card(Rank::Ace, Suit::Hearts),
        card(Rank::Ace, Suit::Spades),
        card(Rank::Ace, Suit::Hearts),
    ];
    assert_eq!(is_flush_five(&mixed).len(), 4);
}

#[test]
fn full_house_returns_whole_hand() {
    let cards = sort_cards_by_rank(&vec![
        card(Rank::Ten, Suit::Hearts),
        card(Rank::Ten, Suit::Spades),
        card(Rank::Ten, Suit::Clubs),
        card(Rank::Four, Suit::Diamonds),
        card(Rank::Four, Suit::Hearts),
    ]);
    let r = is_full_house(&cards);
    assert_eq!(r.len(), 5);
}

#[test]
fn flush_house_needs_one_suit_throughout() {
    let cards = vec![
        card(Rank::Ten, Suit::Hearts),
        card(Rank::Ten, Suit::Hearts),
        card(Rank::Ten, Suit::Hearts),
        card(Rank::Four, Suit::Hearts),
        card(Rank::Four, Suit::Hearts),
    ];
    assert_eq!(is_flush_house(&cards).len(), 5);
    let broken = vec![
        card(Rank::Ten, Suit::Hearts),
        card(Rank::Ten, Suit::Hearts),
        card(Rank::Ten, Suit::Hearts),
        card(Rank::Four, Suit::Spades),
        card(Rank::Four, Suit::Hearts),
    ];
    assert_eq!(is_flush_house(&broken).len(), 0);
}

#[test]
fn straight_flush_on_five_suited_consecutive_cards() {
    let cards = sort_cards_by_rank(&vec![
        card(Rank::Five, Suit::Hearts),
        card(Rank::Six, Suit::Hearts),
        card(Rank::Seven, Suit::Hearts),
        card(Rank::Eight, Suit::Hearts),
        card(Rank::Nine, Suit::Hearts),
    ]);
    let r = is_straight_flush(&cards, false);
    assert_eq!(r.len(), 5);
    assert!(r.iter().all(|c| c.suit == Suit::Hearts));
}

#[test]
fn most_appear_suit_counts_majorities() {
    let cards = vec![
        card(Rank::Ace, Suit::Hearts),
        card(Rank::King, Suit::Hearts),
        card(Rank::Two, Suit::Clubs),
    ];
    assert_eq!(compute_most_appear_suit(&cards), Suit::Hearts);
}

#[test]
fn most_appear_suit_breaks_ties_in_fixed_order() {
    let cards = vec![card(Rank::Ace, Suit::Diamonds), card(Rank::King, Suit::Hearts)];
    assert_eq!(compute_most_appear_suit(&cards), Suit::Hearts);
}

#[test]
fn current_suit_sees_wild_as_every_suit() {
    let cards = vec![wild(Rank::Ace, Suit::Spades)];
    assert!(determine_current_suit(&cards, Suit::Hearts));
    assert!(!determine_current_suit(&vec![card(Rank::Ace, Suit::Spades)], Suit::Hearts));
}

#[test]
fn total_colors_needs_two_of_the_color() {
    let two_red = vec![card(Rank::Ace, Suit::Hearts), card(Rank::King, Suit::Diamonds)];
    assert!(determine_total_colors(&two_red, SuitColor::Red));
    assert!(!determine_total_colors(&two_red, SuitColor::Black));
}

#[test]
fn classification_picks_pair() {
    let cards = vec![
        card(Rank::King, Suit::Hearts),
        card(Rank::King, Suit::Spades),
        card(Rank::Three, Suit::Clubs),
        card(Rank::Seven, Suit::Diamonds),
        card(Rank::Nine, Suit::Hearts),
    ];
    let (hand, selected) = determine_poker_hand(&cards, &vec![]);
    assert_eq!(hand, PokerHand::Pair);
    assert_eq!(selected.len(), 2);
    assert!(selected.iter().all(|c| c.rank == Rank::King));
}

#[test]
fn classification_prefers_straight_flush_over_flush_and_straight() {
    let cards = vec![
        card(Rank::Nine, Suit::Hearts),
        card(Rank::Five, Suit::Hearts),
        card(Rank::Seven, Suit::Hearts),
        card(Rank::Six, Suit::Hearts),
        card(Rank::Eight, Suit::Hearts),
    ];
    let (hand, selected) = determine_poker_hand(&cards, &vec![]);
    assert_eq!(hand, PokerHand::StraightFlush);
    assert_eq!(selected.len(), 5);
}

#[test]
fn classification_four_fingers_flush_of_four() {
    let cards = vec![
        card(Rank::Ace, Suit::Hearts),
        card(Rank::Ten, Suit::Hearts),
        card(Rank::Four, Suit::Hearts),
        card(Rank::Seven, Suit::Hearts),
        card(Rank::Two, Suit::Spades),
    ];
    let jokers = vec![joker(Joker::FourFingers)];
    let (hand, selected) = determine_poker_hand(&cards, &jokers);
    assert_eq!(hand, PokerHand::Flush);
    assert_eq!(selected.len(), 4);
    assert!(selected.iter().all(|c| c.suit == Suit::Hearts));
}

#[test]
fn classification_four_fingers_straight_of_four() {
    let cards = vec![
        card(Rank::Five, Suit::Clubs),
        card(Rank::Six, Suit::Hearts),
        card(Rank::Seven, Suit::Spades),
        card(Rank::Eight, Suit::Diamonds),
        card(Rank::Jack, Suit::Clubs),
    ];
    let jokers = vec![joker(Joker::FourFingers)];
    let (hand, selected) = determine_poker_hand(&cards, &jokers);
    assert_eq!(hand, PokerHand::Straight);
    assert_eq!(selected.len(), 4);
}

#[test]
fn classification_five_of_a_kind() {
    let cards = vec![
        card(Rank::Ace, Suit::Hearts),
        card(Rank::Ace, Suit::Spades),
        card(Rank::Ace, Suit::Clubs),
        card(Rank::Ace, Suit::Diamonds),
        card(Rank::Ace, Suit::Hearts),
    ];
    let (hand, selected) = determine_poker_hand(&cards, &vec![]);
    assert_eq!(hand, PokerHand::FiveOfAKind);
    assert_eq!(selected.len(), 5);
}

#[test]
fn classification_flush_house_beats_full_house() {
    let cards = vec![
        card(Rank::Ten, Suit::Hearts),
        card(Rank::Ten, Suit::Hearts),
        card(Rank::Ten, Suit::Hearts),
        card(Rank::Four, Suit::Hearts),
        card(Rank::Four, Suit::Hearts),
    ];
    let (hand, _) = determine_poker_hand(&cards, &vec![]);
    assert_eq!(hand, PokerHand::FlushHouse);
}

#[test]
fn classification_high_card_fallback() {
    let cards = vec![
        card(Rank::Two, Suit::Hearts),
        card(Rank::Seven, Suit::Spades),
        card(Rank::Nine, Suit::Clubs),
        card(Rank::Jack, Suit::Diamonds),
        card(Rank::Ace, Suit::Hearts),
    ];
    let (hand, selected) = determine_poker_hand(&cards, &vec![]);
    assert_eq!(hand, PokerHand::HighCard);
    assert_eq!(selected.len(), 1);
    assert_eq!(selected[0].rank, Rank::Ace);
}

#[test]
fn joker_edition_does_not_change_classification() {
    let cards = vec![
        card(Rank::King, Suit::Hearts),
        card(Rank::King, Suit::Spades),
        card(Rank::Three, Suit::Clubs),
    ];
    let jokers = vec![JokerCard { joker: Joker::Joker, edition: Some(Edition::Foil) }];
    let (hand, _) = determine_poker_hand(&cards, &jokers);
    assert_eq!(hand, PokerHand::Pair);
}
