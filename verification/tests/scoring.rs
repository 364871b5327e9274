use ortalab::cards::{Card, Edition, Enhancement, Joker, JokerCard, PokerHand, Rank, Round, Suit};
use ortalab::scoring::{floored_score, score, ScoreError};
use ortalab::state::ScoreState;

fn card(rank: Rank, suit: Suit) -> Card {
    Card { rank, suit, enhancement: None, edition: None }
}

fn modded(
    rank: Rank,
    suit: Suit,
    enhancement: Option<Enhancement>,
    edition: Option<Edition>,
) -> Card {
    Card { rank, suit, enhancement, edition }
}

fn joker(j: Joker) -> JokerCard {
    JokerCard { joker: j, edition: None }
}

fn round(played: Vec<Card>, held: Vec<Card>, jokers: Vec<JokerCard>) -> Round {
    Round { cards_played: played, cards_held_in_hand: held, jokers }
}

fn mult_value(st: &ScoreState) -> f64 {
    st.mult_num as f64 / (1u128 << st.mult_shift) as f64
}

fn pair_of_kings() -> Vec<Card> {
    vec![
        card(Rank::King, Suit::Hearts),
        card(Rank::King, Suit::Spades),
        card(Rank::Three, Suit::Clubs),
        card(Rank::Seven, Suit::Diamonds),
        card(Rank::Nine, Suit::Hearts),
    ]
}

#[test]
fn high_card_scenario() {
    let r = round(
        vec![
            card(Rank::Two, Suit::Hearts),
            card(Rank::Seven, Suit::Spades),
            card(Rank::Nine, Suit::Clubs),
            card(Rank::Jack, Suit::Diamonds),
            card(Rank::Ace, Suit::Hearts),
        ],
        vec![],
        vec![],
    );
    let st = score(&r).unwrap();
    assert_eq!(st.chips, 5 + 14);
    assert_eq!(mult_value(&st), 1.0);
}

#[test]
fn pair_of_kings_scenario() {
    let st = score(&round(pair_of_kings(), vec![], vec![])).unwrap();
    assert_eq!(st.chips, 10 + 13 + 13);
    assert_eq!(mult_value(&st), 2.0);
    assert_eq!(floored_score(st), 36 * 2);
}

#[test]
fn straight_scenario() {
    let r = round(
        vec![
            card(Rank::Five, Suit::Clubs),
            card(Rank::Six, Suit::Hearts),
            card(Rank::Seven, Suit::Spades),
            card(Rank::Eight, Suit::Diamonds),
            card(Rank::Nine, Suit::Clubs),
        ],
        vec![],
        vec![],
    );
    let st = score(&r).unwrap();
    assert_eq!(st.chips, 30 + (5 + 6 + 7 + 8 + 9));
    assert_eq!(mult_value(&st), 4.0);
}

#[test]
fn flush_scenario() {
    let r = round(
        vec![
            card(Rank::Ace, Suit::Hearts),
            card(Rank::Ten, Suit::Hearts),
            card(Rank::Four, Suit::Hearts),
            card(Rank::Seven, Suit::Hearts),
            card(Rank::Two, Suit::Hearts),
        ],
        vec![],
        vec![],
    );
    let st = score(&r).unwrap();
    assert_eq!(st.chips, 35 + (14 + 10 + 4 + 7 + 2));
    assert_eq!(mult_value(&st), 4.0);
}

#[test]
fn plain_joker_adds_four_mult_and_nothing_else() {
    let without = score(&round(pair_of_kings(), vec![], vec![])).unwrap();
    let with = score(&round(pair_of_kings(), vec![], vec![joker(Joker::Joker)])).unwrap();
    assert_eq!(with.chips, without.chips);
    assert_eq!(mult_value(&with), mult_value(&without) + 4.0);
}

#[test]
fn glass_then_polychrome_compound_in_order() {
    let mut played = pair_of_kings();
    played[0] = modded(
        Rank::King,
        Suit::Hearts,
        Some(Enhancement::Glass),
        Some(Edition::Polychrome),
    );
    let st = score(&round(played, vec![], vec![])).unwrap();
    // Pair of Kings: base mult 2, the scored King doubles it, then 1.5x it.
    assert_eq!(st.chips, 36);
    assert_eq!(mult_value(&st), 2.0 * 2.0 * 1.5);
    assert_eq!(st.mult_num, 12);
    assert_eq!(st.mult_shift, 1);
    assert_eq!(floored_score(st), 36 * 6);
}

#[test]
fn score_is_deterministic() {
    let r = round(pair_of_kings(), vec![card(Rank::Two, Suit::Clubs)], vec![joker(Joker::Baron)]);
    assert_eq!(score(&r), score(&r));
}

#[test]
fn empty_hand_is_rejected() {
    let r = round(vec![], vec![], vec![]);
    assert_eq!(score(&r), Err(ScoreError::InvalidHandSize));
}

#[test]
fn six_cards_are_rejected() {
    let r = round(
        vec![
            card(Rank::Two, Suit::Hearts),
            card(Rank::Three, Suit::Hearts),
            card(Rank::Four, Suit::Hearts),
            card(Rank::Five, Suit::Hearts),
            card(Rank::Six, Suit::Hearts),
            card(Rank::Seven, Suit::Hearts),
        ],
        vec![],
        vec![],
    );
    assert_eq!(score(&r), Err(ScoreError::InvalidHandSize));
}

#[test]
fn many_steel_cards_overflow() {
    let held: Vec<Card> = (0..45)
        .map(|_| modded(Rank::Two, Suit::Clubs, Some(Enhancement::Steel), None))
        .collect();
    let r = round(vec![card(Rank::Two, Suit::Clubs)], held, vec![]);
    assert_eq!(score(&r), Err(ScoreError::Overflow));
}

#[test]
fn steel_held_multiplies_by_three_halves() {
    let held = vec![modded(Rank::Two, Suit::Clubs, Some(Enhancement::Steel), None)];
    let st = score(&round(pair_of_kings(), held, vec![])).unwrap();
    assert_eq!(st.chips, 36);
    assert_eq!(mult_value(&st), 3.0);
}

#[test]
fn bonus_and_mult_enhancements_on_scored_cards() {
    let mut played = pair_of_kings();
    played[0] = modded(Rank::King, Suit::Hearts, Some(Enhancement::Bonus), None);
    played[1] = modded(Rank::King, Suit::Spades, Some(Enhancement::Mult), None);
    let st = score(&round(played, vec![], vec![])).unwrap();
    assert_eq!(st.chips, 36 + 30);
    assert_eq!(mult_value(&st), 2.0 + 4.0);
}

#[test]
fn enhancements_on_unscored_cards_do_nothing() {
    let mut played = pair_of_kings();
    // The Three of Clubs is not part of the scored pair.
    played[2] = modded(Rank::Three, Suit::Clubs, Some(Enhancement::Bonus), None);
    let st = score(&round(played, vec![], vec![])).unwrap();
    assert_eq!(st.chips, 36);
    assert_eq!(mult_value(&st), 2.0);
}

#[test]
fn foil_and_holographic_editions_on_scored_cards() {
    let mut played = pair_of_kings();
    played[0] = modded(Rank::King, Suit::Hearts, None, Some(Edition::Foil));
    played[1] = modded(Rank::King, Suit::Spades, None, Some(Edition::Holographic));
    let st = score(&round(played, vec![], vec![])).unwrap();
    assert_eq!(st.chips, 36 + 50);
    assert_eq!(mult_value(&st), 2.0 + 10.0);
}

#[test]
fn splash_scores_every_played_card() {
    let st = score(&round(pair_of_kings(), vec![], vec![joker(Joker::Splash)])).unwrap();
    assert_eq!(st.chips, 10 + 13 + 13 + 3 + 7 + 9);
    assert_eq!(mult_value(&st), 2.0);
}

#[test]
fn baron_compounds_per_held_king() {
    let held = vec![card(Rank::King, Suit::Hearts), card(Rank::King, Suit::Spades)];
    let r = round(vec![card(Rank::Two, Suit::Clubs)], held, vec![joker(Joker::Baron)]);
    let st = score(&r).unwrap();
    assert_eq!(st.chips, 5 + 2);
    assert_eq!(mult_value(&st), 2.25);
    assert_eq!(floored_score(st), 15);
}

#[test]
fn raised_fist_doubles_lowest_held_rank() {
    let held = vec![
        card(Rank::Nine, Suit::Hearts),
        card(Rank::Two, Suit::Clubs),
        card(Rank::Five, Suit::Spades),
    ];
    let r = round(vec![card(Rank::Ace, Suit::Clubs)], held, vec![joker(Joker::RaisedFist)]);
    let st = score(&r).unwrap();
    assert_eq!(mult_value(&st), 1.0 + 4.0);
}

#[test]
fn raised_fist_without_held_cards_does_nothing() {
    let r = round(vec![card(Rank::Ace, Suit::Clubs)], vec![], vec![joker(Joker::RaisedFist)]);
    let st = score(&r).unwrap();
    assert_eq!(mult_value(&st), 1.0);
}

#[test]
fn blackboard_triples_on_all_black_or_empty_hand() {
    let base = round(vec![card(Rank::Ace, Suit::Clubs)], vec![], vec![joker(Joker::Blackboard)]);
    assert_eq!(mult_value(&score(&base).unwrap()), 3.0);
    let black_held = round(
        vec![card(Rank::Ace, Suit::Clubs)],
        vec![card(Rank::Two, Suit::Spades), card(Rank::Three, Suit::Clubs)],
        vec![joker(Joker::Blackboard)],
    );
    assert_eq!(mult_value(&score(&black_held).unwrap()), 3.0);
    let red_held = round(
        vec![card(Rank::Ace, Suit::Clubs)],
        vec![card(Rank::Two, Suit::Hearts)],
        vec![joker(Joker::Blackboard)],
    );
    assert_eq!(mult_value(&score(&red_held).unwrap()), 1.0);
}

#[test]
fn greedy_joker_counts_diamonds_and_wilds() {
    let played = vec![
        card(Rank::Two, Suit::Diamonds),
        card(Rank::Seven, Suit::Diamonds),
        modded(Rank::Nine, Suit::Spades, Some(Enhancement::Wild), None),
        card(Rank::Jack, Suit::Hearts),
        card(Rank::Ace, Suit::Clubs),
    ];
    // High card: only the Ace is scored, so make every card count with Splash.
    let r = round(played, vec![], vec![joker(Joker::GreedyJoker), joker(Joker::Splash)]);
    let st = score(&r).unwrap();
    assert_eq!(mult_value(&st), 1.0 + 3.0 * 3.0);
}

#[test]
fn smeared_extends_greedy_to_hearts() {
    let played = vec![
        card(Rank::Two, Suit::Hearts),
        card(Rank::Seven, Suit::Spades),
        card(Rank::Nine, Suit::Clubs),
        card(Rank::Jack, Suit::Clubs),
        card(Rank::Ace, Suit::Spades),
    ];
    let r = round(
        played,
        vec![],
        vec![joker(Joker::GreedyJoker), joker(Joker::SmearedJoker), joker(Joker::Splash)],
    );
    let st = score(&r).unwrap();
    assert_eq!(mult_value(&st), 1.0 + 3.0);
}

#[test]
fn fibonacci_rewards_its_ranks() {
    let played = vec![
        card(Rank::Two, Suit::Hearts),
        card(Rank::Three, Suit::Spades),
        card(Rank::Five, Suit::Clubs),
        card(Rank::Eight, Suit::Diamonds),
        card(Rank::Ace, Suit::Spades),
    ];
    let r = round(played, vec![], vec![joker(Joker::Fibonacci), joker(Joker::Splash)]);
    let st = score(&r).unwrap();
    assert_eq!(mult_value(&st), 1.0 + 5.0 * 8.0);
}

#[test]
fn even_steven_and_odd_todd() {
    let played = vec![
        card(Rank::Two, Suit::Hearts),
        card(Rank::Four, Suit::Spades),
        card(Rank::Nine, Suit::Clubs),
        card(Rank::Ten, Suit::Diamonds),
        card(Rank::Ace, Suit::Spades),
    ];
    let r = round(
        played,
        vec![],
        vec![joker(Joker::EvenSteven), joker(Joker::OddTodd), joker(Joker::Splash)],
    );
    let st = score(&r).unwrap();
    // Even: Two, Four, Ten.  Odd: Nine and the Ace.
    assert_eq!(st.chips, 5 + (2 + 4 + 9 + 10 + 14) + 2 * 31);
    assert_eq!(mult_value(&st), 1.0 + 3.0 * 4.0);
}

#[test]
fn photograph_doubles_only_once() {
    let played = vec![
        card(Rank::Jack, Suit::Hearts),
        card(Rank::Queen, Suit::Spades),
        card(Rank::Two, Suit::Clubs),
        card(Rank::Three, Suit::Diamonds),
        card(Rank::Five, Suit::Spades),
    ];
    let r = round(played, vec![], vec![joker(Joker::Photograph), joker(Joker::Splash)]);
    let st = score(&r).unwrap();
    assert_eq!(mult_value(&st), 2.0);
}

#[test]
fn scary_face_with_pareidolia_counts_every_card() {
    let r = round(
        pair_of_kings(),
        vec![],
        vec![joker(Joker::ScaryFace), joker(Joker::Pareidolia)],
    );
    let st = score(&r).unwrap();
    // Both scored Kings count as faces; they would anyway, but Pareidolia
    // makes that independent of rank.
    assert_eq!(st.chips, 36 + 2 * 30);
}

#[test]
fn smiley_face_rewards_faces() {
    let st = score(&round(pair_of_kings(), vec![], vec![joker(Joker::SmileyFace)])).unwrap();
    assert_eq!(mult_value(&st), 2.0 + 2.0 * 5.0);
}

#[test]
fn abstract_joker_counts_all_jokers() {
    let r = round(
        pair_of_kings(),
        vec![],
        vec![joker(Joker::AbstractJoker), joker(Joker::Mime), joker(Joker::Blueprint)],
    );
    let st = score(&r).unwrap();
    assert_eq!(mult_value(&st), 2.0 + 3.0 * 3.0);
}

#[test]
fn flower_pot_triples_with_all_four_suits() {
    let played = vec![
        card(Rank::Two, Suit::Hearts),
        card(Rank::Seven, Suit::Spades),
        card(Rank::Nine, Suit::Clubs),
        card(Rank::Jack, Suit::Diamonds),
        card(Rank::Ace, Suit::Hearts),
    ];
    let r = round(played, vec![], vec![joker(Joker::FlowerPot), joker(Joker::Splash)]);
    let st = score(&r).unwrap();
    assert_eq!(mult_value(&st), 3.0);
}

#[test]
fn jolly_joker_needs_a_pair() {
    let with_pair = score(&round(pair_of_kings(), vec![], vec![joker(Joker::JollyJoker)])).unwrap();
    assert_eq!(mult_value(&with_pair), 2.0 + 8.0);
    let no_pair = round(
        vec![
            card(Rank::Two, Suit::Hearts),
            card(Rank::Seven, Suit::Spades),
            card(Rank::Nine, Suit::Clubs),
            card(Rank::Jack, Suit::Diamonds),
            card(Rank::Ace, Suit::Hearts),
        ],
        vec![],
        vec![joker(Joker::JollyJoker)],
    );
    assert_eq!(mult_value(&score(&no_pair).unwrap()), 1.0);
}

#[test]
fn crazy_joker_rewards_straights() {
    let r = round(
        vec![
            card(Rank::Five, Suit::Clubs),
            card(Rank::Six, Suit::Hearts),
            card(Rank::Seven, Suit::Spades),
            card(Rank::Eight, Suit::Diamonds),
            card(Rank::Nine, Suit::Clubs),
        ],
        vec![],
        vec![joker(Joker::CrazyJoker)],
    );
    let st = score(&r).unwrap();
    assert_eq!(mult_value(&st), 4.0 + 12.0);
}

#[test]
fn sly_and_wily_add_chips_for_their_groups() {
    let st = score(&round(
        pair_of_kings(),
        vec![],
        vec![joker(Joker::SlyJoker), joker(Joker::WilyJoker)],
    ))
    .unwrap();
    // A pair is in Sly's group but not in Wily's.
    assert_eq!(st.chips, 36 + 50);
}

#[test]
fn joker_edition_applies_after_its_effects() {
    let jokers = vec![JokerCard { joker: Joker::Joker, edition: Some(Edition::Foil) }];
    let st = score(&round(pair_of_kings(), vec![], jokers)).unwrap();
    assert_eq!(st.chips, 36 + 50);
    assert_eq!(mult_value(&st), 2.0 + 4.0);
}

#[test]
fn polychrome_joker_edition_multiplies_last() {
    let jokers = vec![JokerCard { joker: Joker::Joker, edition: Some(Edition::Polychrome) }];
    let st = score(&round(pair_of_kings(), vec![], jokers)).unwrap();
    assert_eq!(mult_value(&st), (2.0 + 4.0) * 1.5);
}

#[test]
fn base_values_are_monotone_and_distinct() {
    let hands = [
        PokerHand::HighCard,
        PokerHand::Pair,
        PokerHand::TwoPair,
        PokerHand::ThreeOfAKind,
        PokerHand::Straight,
        PokerHand::Flush,
        PokerHand::FullHouse,
        PokerHand::FourOfAKind,
        PokerHand::StraightFlush,
        PokerHand::FiveOfAKind,
        PokerHand::FlushHouse,
        PokerHand::FlushFive,
    ];
    let values: Vec<(u64, u64)> = hands.iter().map(|h| h.hand_value()).collect();
    for w in values.windows(2) {
        assert!(w[0].0 <= w[1].0);
        assert!(w[0].1 <= w[1].1);
        assert_ne!(w[0], w[1]);
    }
    for i in 0..values.len() {
        for j in (i + 1)..values.len() {
            assert_ne!(values[i], values[j]);
        }
    }
    assert_eq!(values[0], (5, 1));
    assert_eq!(values[11], (160, 16));
}

#[test]
fn rank_values_run_two_to_fourteen() {
    assert_eq!(ortalab::cards::compute_card_order(card(Rank::Two, Suit::Hearts)), 2);
    assert_eq!(ortalab::cards::compute_card_order(card(Rank::Ten, Suit::Hearts)), 10);
    assert_eq!(ortalab::cards::compute_card_order(card(Rank::Jack, Suit::Hearts)), 11);
    assert_eq!(ortalab::cards::compute_card_order(card(Rank::Queen, Suit::Hearts)), 12);
    assert_eq!(ortalab::cards::compute_card_order(card(Rank::King, Suit::Hearts)), 13);
    assert_eq!(ortalab::cards::compute_card_order(card(Rank::Ace, Suit::Hearts)), 14);
}

#[test]
fn modifier_helpers_apply_single_effects() {
    let st = ScoreState { chips: 100, mult_num: 1, mult_shift: 0 };
    let bonus = ortalab::modifiers::apply_enhancement(Enhancement::Bonus, st, false).unwrap();
    assert_eq!(bonus.chips, 130);
    let steel_scored = ortalab::modifiers::apply_enhancement(Enhancement::Steel, st, false).unwrap();
    assert_eq!(steel_scored, st);
    let steel_held = ortalab::modifiers::apply_enhancement(Enhancement::Steel, st, true).unwrap();
    assert_eq!(mult_value(&steel_held), 1.5);
    let foil = ortalab::modifiers::apply_edition(Edition::Foil, st, false).unwrap();
    assert_eq!(foil.chips, 150);
    let held_foil = ortalab::modifiers::apply_edition(Edition::Foil, st, true).unwrap();
    assert_eq!(held_foil, st);
}

#[test]
fn plain_joker_adds_four_mult_on_a_straight_too() {
    let straight = vec![
        card(Rank::Five, Suit::Clubs),
        card(Rank::Six, Suit::Hearts),
        card(Rank::Seven, Suit::Spades),
        card(Rank::Eight, Suit::Diamonds),
        card(Rank::Nine, Suit::Clubs),
    ];
    let without = score(&round(straight.clone(), vec![], vec![])).unwrap();
    let with = score(&round(straight, vec![], vec![joker(Joker::Joker)])).unwrap();
    assert_eq!(with.chips, without.chips);
    assert_eq!(mult_value(&with), mult_value(&without) + 4.0);
}

#[test]
fn four_fingers_straight_flush_of_four() {
    let played = vec![
        card(Rank::Five, Suit::Hearts),
        card(Rank::Six, Suit::Hearts),
        card(Rank::Seven, Suit::Hearts),
        card(Rank::Eight, Suit::Hearts),
        card(Rank::King, Suit::Spades),
    ];
    let st = score(&round(played, vec![], vec![joker(Joker::FourFingers)])).unwrap();
    assert_eq!(st.chips, 100 + (5 + 6 + 7 + 8));
    assert_eq!(mult_value(&st), 8.0);
}

#[test]
fn four_fingers_ace_low_needs_the_five() {
    // The low Ace only completes Ace-Two-Three-Four-Five; without the Five
    // even Four Fingers makes no straight of Ace-Two-Three-Four.
    let played = vec![
        card(Rank::Ace, Suit::Clubs),
        card(Rank::Two, Suit::Hearts),
        card(Rank::Three, Suit::Spades),
        card(Rank::Four, Suit::Diamonds),
        card(Rank::Nine, Suit::Clubs),
    ];
    let st = score(&round(played, vec![], vec![joker(Joker::FourFingers)])).unwrap();
    assert_eq!(st.chips, 5 + 14);
    assert_eq!(mult_value(&st), 1.0);

    let with_five = vec![
        card(Rank::Ace, Suit::Clubs),
        card(Rank::Two, Suit::Hearts),
        card(Rank::Three, Suit::Spades),
        card(Rank::Four, Suit::Diamonds),
        card(Rank::Five, Suit::Clubs),
    ];
    let st2 = score(&round(with_five, vec![], vec![])).unwrap();
    assert_eq!(st2.chips, 30 + (14 + 2 + 3 + 4 + 5));
    assert_eq!(mult_value(&st2), 4.0);
}

#[test]
fn held_glass_has_no_effect() {
    let held = vec![modded(Rank::Two, Suit::Clubs, Some(Enhancement::Glass), None)];
    let st = score(&round(pair_of_kings(), held, vec![])).unwrap();
    assert_eq!(st.chips, 36);
    assert_eq!(mult_value(&st), 2.0);
}

#[test]
fn mad_and_clever_reward_two_pair() {
    let played = vec![
        card(Rank::King, Suit::Hearts),
        card(Rank::King, Suit::Spades),
        card(Rank::Eight, Suit::Clubs),
        card(Rank::Eight, Suit::Diamonds),
        card(Rank::Two, Suit::Hearts),
    ];
    let st = score(&round(
        played,
        vec![],
        vec![joker(Joker::MadJoker), joker(Joker::CleverJoker)],
    ))
    .unwrap();
    // Two pair: 20 base chips, the four paired cards, +80 from Clever.
    assert_eq!(st.chips, 20 + (8 + 8 + 13 + 13) + 80);
    assert_eq!(mult_value(&st), 2.0 + 10.0);
}

#[test]
fn devious_and_crafty_add_chips() {
    let straight = vec![
        card(Rank::Five, Suit::Clubs),
        card(Rank::Six, Suit::Hearts),
        card(Rank::Seven, Suit::Spades),
        card(Rank::Eight, Suit::Diamonds),
        card(Rank::Nine, Suit::Clubs),
    ];
    let st = score(&round(straight, vec![], vec![joker(Joker::DeviousJoker)])).unwrap();
    assert_eq!(st.chips, 65 + 100);

    let flush = vec![
        card(Rank::Ace, Suit::Hearts),
        card(Rank::Ten, Suit::Hearts),
        card(Rank::Four, Suit::Hearts),
        card(Rank::Seven, Suit::Hearts),
        card(Rank::Two, Suit::Hearts),
    ];
    let st2 = score(&round(flush, vec![], vec![joker(Joker::CraftyJoker)])).unwrap();
    assert_eq!(st2.chips, 72 + 80);
}

#[test]
fn wrathful_and_gluttonous_count_their_suits() {
    let played = vec![
        card(Rank::Two, Suit::Spades),
        card(Rank::Seven, Suit::Spades),
        card(Rank::Nine, Suit::Clubs),
        card(Rank::Jack, Suit::Hearts),
        card(Rank::Ace, Suit::Diamonds),
    ];
    let r = round(
        played,
        vec![],
        vec![joker(Joker::WrathfulJoker), joker(Joker::GluttonousJoker), joker(Joker::Splash)],
    );
    let st = score(&r).unwrap();
    // Wrathful: two Spades.  Gluttonous: one Club.
    assert_eq!(mult_value(&st), 1.0 + 2.0 * 3.0 + 1.0 * 3.0);
}

#[test]
fn lusty_counts_hearts() {
    let r = round(
        pair_of_kings(),
        vec![],
        vec![joker(Joker::LustyJoker)],
    );
    // Scored cards are the two Kings; only the King of Hearts counts.
    let st = score(&r).unwrap();
    assert_eq!(mult_value(&st), 2.0 + 3.0);
}

#[test]
fn photograph_without_faces_does_nothing() {
    let played = vec![
        card(Rank::Two, Suit::Hearts),
        card(Rank::Seven, Suit::Spades),
        card(Rank::Nine, Suit::Clubs),
        card(Rank::Four, Suit::Diamonds),
        card(Rank::Ace, Suit::Hearts),
    ];
    let st = score(&round(played, vec![], vec![joker(Joker::Photograph), joker(Joker::Splash)]))
        .unwrap();
    assert_eq!(mult_value(&st), 1.0);
}

#[test]
fn flower_pot_smeared_needs_only_presence_of_each_color() {
    // A single red card beside three black ones: only two suits are
    // present, but with Smeared both colors are, and that is enough.
    let played = vec![
        card(Rank::Two, Suit::Hearts),
        card(Rank::Seven, Suit::Clubs),
        card(Rank::Nine, Suit::Clubs),
        card(Rank::Jack, Suit::Clubs),
        card(Rank::Ace, Suit::Clubs),
    ];
    let r = round(
        played.clone(),
        vec![],
        vec![joker(Joker::FlowerPot), joker(Joker::SmearedJoker), joker(Joker::Splash)],
    );
    let st = score(&r).unwrap();
    assert_eq!(mult_value(&st), 3.0);

    // Without Smeared the same cards cover only two suits: no tripling.
    let r2 = round(played, vec![], vec![joker(Joker::FlowerPot), joker(Joker::Splash)]);
    let st2 = score(&r2).unwrap();
    assert_eq!(mult_value(&st2), 1.0);
}

#[test]
fn flower_pot_smeared_needs_both_colors() {
    // All black cards: even Smeared leaves one color missing.
    let played = vec![
        card(Rank::Two, Suit::Spades),
        card(Rank::Seven, Suit::Clubs),
        card(Rank::Nine, Suit::Clubs),
        card(Rank::Jack, Suit::Clubs),
        card(Rank::Ace, Suit::Clubs),
    ];
    let r = round(
        played,
        vec![],
        vec![joker(Joker::FlowerPot), joker(Joker::SmearedJoker), joker(Joker::Splash)],
    );
    let st = score(&r).unwrap();
    assert_eq!(mult_value(&st), 1.0);
}

#[test]
fn zany_joker_rewards_three_of_a_kind() {
    let played = vec![
        card(Rank::Queen, Suit::Hearts),
        card(Rank::Queen, Suit::Spades),
        card(Rank::Queen, Suit::Clubs),
        card(Rank::Nine, Suit::Diamonds),
        card(Rank::Two, Suit::Hearts),
    ];
    let st = score(&round(played, vec![], vec![joker(Joker::ZanyJoker)])).unwrap();
    assert_eq!(st.chips, 30 + 3 * 12);
    assert_eq!(mult_value(&st), 3.0 + 12.0);
}

#[test]
fn four_of_a_kind_scores_only_its_four_cards() {
    let played = vec![
        card(Rank::Jack, Suit::Hearts),
        card(Rank::Jack, Suit::Spades),
        card(Rank::Jack, Suit::Clubs),
        card(Rank::Jack, Suit::Diamonds),
        card(Rank::Two, Suit::Hearts),
    ];
    let st = score(&round(played, vec![], vec![])).unwrap();
    assert_eq!(st.chips, 60 + 4 * 11);
    assert_eq!(mult_value(&st), 7.0);
}

#[test]
fn full_house_scores_all_five_cards() {
    let played = vec![
        card(Rank::Ten, Suit::Hearts),
        card(Rank::Ten, Suit::Spades),
        card(Rank::Ten, Suit::Clubs),
        card(Rank::Four, Suit::Diamonds),
        card(Rank::Four, Suit::Hearts),
    ];
    let st = score(&round(played, vec![], vec![])).unwrap();
    assert_eq!(st.chips, 40 + (10 + 10 + 10 + 4 + 4));
    assert_eq!(mult_value(&st), 4.0);
}

#[test]
fn opts_carries_plain_fields() {
    let o = ortalab::cli::Opts { file: String::from("-"), explain: true };
    assert_eq!(o.file, "-");
    assert!(o.explain);
}
