//! The data model: ranks, suits, enhancements, editions, cards, jokers,
//! rounds and the twelve poker-hand combinations with their base values.

use vstd::prelude::*;

verus! {

/// The thirteen card ranks, ordered Two (lowest) to Ace (highest).
#[derive(Clone, Copy, PartialEq, Eq, Structural, Debug)]
pub enum Rank {
    Two,
    Three,
    Four,
    Five,
    Six,
    Seven,
    Eight,
    Nine,
    Ten,
    Jack,
    Queen,
    King,
    Ace,
}

/// The four suits.
#[derive(Clone, Copy, PartialEq, Eq, Structural, Debug)]
pub enum Suit {
    Spades,
    Hearts,
    Clubs,
    Diamonds,
}

/// The color of a suit: Spades and Clubs are black, Hearts and Diamonds red.
#[derive(Clone, Copy, PartialEq, Eq, Structural, Debug)]
pub enum SuitColor {
    Black,
    Red,
}

/// Optional per-card enhancement.
#[derive(Clone, Copy, PartialEq, Eq, Structural, Debug)]
pub enum Enhancement {
    Bonus,
    Mult,
    Wild,
    Glass,
    Steel,
}

/// Optional per-card (or per-joker) edition.
#[derive(Clone, Copy, PartialEq, Eq, Structural, Debug)]
pub enum Edition {
    Foil,
    Holographic,
    Polychrome,
}

/// A playing card: rank, suit, and optional enhancement and edition.
#[derive(Clone, Copy, PartialEq, Eq, Debug)]
pub struct Card {
    pub rank: Rank,
    pub suit: Suit,
    pub enhancement: Option<Enhancement>,
    pub edition: Option<Edition>,
}

/// The named joker effects.
#[derive(Clone, Copy, PartialEq, Eq, Structural, Debug)]
pub enum Joker {
    Joker,
    JollyJoker,
    ZanyJoker,
    MadJoker,
    CrazyJoker,
    DrollJoker,
    SlyJoker,
    WilyJoker,
    CleverJoker,
    DeviousJoker,
    CraftyJoker,
    AbstractJoker,
    RaisedFist,
    Blackboard,
    Baron,
    GreedyJoker,
    LustyJoker,
    WrathfulJoker,
    GluttonousJoker,
    Fibonacci,
    ScaryFace,
    EvenSteven,
    OddTodd,
    Photograph,
    SmileyFace,
    FlowerPot,
    FourFingers,
    Shortcut,
    Mime,
    Pareidolia,
    Splash,
    SockAndBuskin,
    SmearedJoker,
    Blueprint,
}

/// One joker card in play: the effect and an optional edition.
#[derive(Clone, Copy, PartialEq, Eq, Debug)]
pub struct JokerCard {
    pub joker: Joker,
    pub edition: Option<Edition>,
}

/// A full round: the played cards, the cards held in hand, and the jokers.
#[derive(Clone, Debug)]
pub struct Round {
    pub cards_played: Vec<Card>,
    pub cards_held_in_hand: Vec<Card>,
    pub jokers: Vec<JokerCard>,
}

/// The twelve combinations, from weakest to strongest.
#[derive(Clone, Copy, PartialEq, Eq, Structural, Debug)]
pub enum PokerHand {
    HighCard,
    Pair,
    TwoPair,
    ThreeOfAKind,
    Straight,
    Flush,
    FullHouse,
    FourOfAKind,
    StraightFlush,
    FiveOfAKind,
    FlushHouse,
    FlushFive,
}

/// Numeric order of a rank: Two = 2 up to Ten = 10, Jack = 11, Queen = 12,
/// King = 13, Ace = 14.
pub open spec fn rank_order(r: Rank) -> int {
    match r {
        Rank::Two => 2,
        Rank::Three => 3,
        Rank::Four => 4,
        Rank::Five => 5,
        Rank::Six => 6,
        Rank::Seven => 7,
        Rank::Eight => 8,
        Rank::Nine => 9,
        Rank::Ten => 10,
        Rank::Jack => 11,
        Rank::Queen => 12,
        Rank::King => 13,
        Rank::Ace => 14,
    }
}

/// Whether a rank is a face card (Jack, Queen or King).
pub open spec fn rank_face(r: Rank) -> bool {
    r == Rank::Jack || r == Rank::Queen || r == Rank::King
}

/// The color of a suit.
pub open spec fn color_of(s: Suit) -> SuitColor {
    match s {
        Suit::Spades => SuitColor::Black,
        Suit::Clubs => SuitColor::Black,
        Suit::Hearts => SuitColor::Red,
        Suit::Diamonds => SuitColor::Red,
    }
}

/// Whether a card carries the Wild enhancement, which lets it satisfy any
/// suit requirement.
pub open spec fn is_wild(c: Card) -> bool {
    c.enhancement == Some(Enhancement::Wild)
}

/// Whether a card matches a suit: either literally, or through Wild.
pub open spec fn suit_matches(c: Card, s: Suit) -> bool {
    c.suit == s || is_wild(c)
}

/// Base chips of a combination.
pub open spec fn base_chips(h: PokerHand) -> int {
    match h {
        PokerHand::HighCard => 5,
        PokerHand::Pair => 10,
        PokerHand::TwoPair => 20,
        PokerHand::ThreeOfAKind => 30,
        PokerHand::Straight => 30,
        PokerHand::Flush => 35,
        PokerHand::FullHouse => 40,
        PokerHand::FourOfAKind => 60,
        PokerHand::StraightFlush => 100,
        PokerHand::FiveOfAKind => 120,
        PokerHand::FlushHouse => 140,
        PokerHand::FlushFive => 160,
    }
}

/// Base mult of a combination.
pub open spec fn base_mult(h: PokerHand) -> int {
    match h {
        PokerHand::HighCard => 1,
        PokerHand::Pair => 2,
        PokerHand::TwoPair => 2,
        PokerHand::ThreeOfAKind => 3,
        PokerHand::Straight => 4,
        PokerHand::Flush => 4,
        PokerHand::FullHouse => 4,
        PokerHand::FourOfAKind => 7,
        PokerHand::StraightFlush => 8,
        PokerHand::FiveOfAKind => 12,
        PokerHand::FlushHouse => 14,
        PokerHand::FlushFive => 16,
    }
}

/// Position of a combination in the strength order, HighCard = 0 up to
/// FlushFive = 11.
pub open spec fn hand_strength(h: PokerHand) -> int {
    match h {
        PokerHand::HighCard => 0,
        PokerHand::Pair => 1,
        PokerHand::TwoPair => 2,
        PokerHand::ThreeOfAKind => 3,
        PokerHand::Straight => 4,
        PokerHand::Flush => 5,
        PokerHand::FullHouse => 6,
        PokerHand::FourOfAKind => 7,
        PokerHand::StraightFlush => 8,
        PokerHand::FiveOfAKind => 9,
        PokerHand::FlushHouse => 10,
        PokerHand::FlushFive => 11,
    }
}

impl Rank {
    /// The numeric order of this rank, 2 through 14.
    pub fn rank_value(&self) -> (r: u64)
        ensures
            r == rank_order(*self),
    {
        match *self {
            Rank::Two => 2,
            Rank::Three => 3,
            Rank::Four => 4,
            Rank::Five => 5,
            Rank::Six => 6,
            Rank::Seven => 7,
            Rank::Eight => 8,
            Rank::Nine => 9,
            Rank::Ten => 10,
            Rank::Jack => 11,
            Rank::Queen => 12,
            Rank::King => 13,
            Rank::Ace => 14,
        }
    }

    /// Whether this rank is a face card.
    pub fn is_face(&self) -> (r: bool)
        ensures
            r == rank_face(*self),
    {
        matches!(*self, Rank::Jack | Rank::Queen | Rank::King)
    }
}

impl Suit {
    /// The color of this suit.
    pub fn color(&self) -> (r: SuitColor)
        ensures
            r == color_of(*self),
    {
        match *self {
            Suit::Spades => SuitColor::Black,
            Suit::Clubs => SuitColor::Black,
            Suit::Hearts => SuitColor::Red,
            Suit::Diamonds => SuitColor::Red,
        }
    }
}

impl PokerHand {
    /// The base (chips, mult) pair of this combination.
    pub fn hand_value(&self) -> (r: (u64, u64))
        ensures
            r.0 == base_chips(*self),
            r.1 == base_mult(*self),
    {
        match *self {
            PokerHand::HighCard => (5, 1),
            PokerHand::Pair => (10, 2),
            PokerHand::TwoPair => (20, 2),
            PokerHand::ThreeOfAKind => (30, 3),
            PokerHand::Straight => (30, 4),
            PokerHand::Flush => (35, 4),
            PokerHand::FullHouse => (40, 4),
            PokerHand::FourOfAKind => (60, 7),
            PokerHand::StraightFlush => (100, 8),
            PokerHand::FiveOfAKind => (120, 12),
            PokerHand::FlushHouse => (140, 14),
            PokerHand::FlushFive => (160, 16),
        }
    }
}

/// Numeric order of a card, determined by its rank alone.
pub fn compute_card_order(card: Card) -> (r: u64)
    ensures
        r == rank_order(card.rank),
{
    card.rank.rank_value()
}

/// Whether a card carries the Wild enhancement.
pub fn card_is_wild(card: &Card) -> (r: bool)
    ensures
        r == is_wild(*card),
{
    matches!(card.enhancement, Some(Enhancement::Wild))
}

/// Whether a card matches a suit, literally or through Wild.
pub fn card_suit_matches(card: &Card, s: Suit) -> (r: bool)
    ensures
        r == suit_matches(*card, s),
{
    card.suit == s || card_is_wild(card)
}

/// Whether two cards have identical fields.  Cards have no identity beyond
/// their fields.
pub fn card_eq(a: &Card, b: &Card) -> (r: bool)
    ensures
        r == (*a == *b),
{
    let enh_eq = match (a.enhancement, b.enhancement) {
        (None, None) => true,
        (Some(x), Some(y)) => x == y,
        _ => false,
    };
    let ed_eq = match (a.edition, b.edition) {
        (None, None) => true,
        (Some(x), Some(y)) => x == y,
        _ => false,
    };
    a.rank == b.rank && a.suit == b.suit && enh_eq && ed_eq
}

/// Whether some joker card carries the given effect.
pub open spec fn joker_present(js: Seq<JokerCard>, j: Joker) -> bool {
    exists|i: int| 0 <= i < js.len() && js[i].joker == j
}

/// Appending a joker card of another effect does not change whether an
/// effect is present.
pub proof fn lemma_joker_present_push(js: Seq<JokerCard>, x: JokerCard, j: Joker)
    requires
        x.joker != j,
    ensures
        joker_present(js.push(x), j) == joker_present(js, j),
{
    if joker_present(js.push(x), j) {
        let w = choose|i: int| 0 <= i < js.push(x).len() && js.push(x)[i].joker == j;
        assert(w < js.len());
        assert(js[w].joker == j);
    }
    if joker_present(js, j) {
        let w = choose|i: int| 0 <= i < js.len() && js[i].joker == j;
        assert(js.push(x)[w].joker == j);
    }
}

/// Whether some joker card carries the given effect.
pub fn any_joker(jokers: &Vec<JokerCard>, j: Joker) -> (r: bool)
    ensures
        r == joker_present(jokers@, j),
{
    let mut i: usize = 0;
    while i < jokers.len()
        invariant
            i <= jokers.len(),
            forall|k: int| 0 <= k < i ==> jokers@[k].joker != j,
        decreases jokers.len() - i,
    {
        if jokers[i].joker == j {
            return true;
        }
        i = i + 1;
    }
    false
}

/// An exact copy of the cards.
pub fn copy_cards(cards: &Vec<Card>) -> (out: Vec<Card>)
    ensures
        out@ == cards@,
{
    let mut out: Vec<Card> = Vec::new();
    let mut i: usize = 0;
    while i < cards.len()
        invariant
            i <= cards.len(),
            out@ == cards@.take(i as int),
        decreases cards.len() - i,
    {
        let c = cards[i];
        out.push(c);
        proof {
            assert(cards@.take(i as int + 1) =~= cards@.take(i as int).push(cards@[i as int]));
        }
        i = i + 1;
    }
    proof {
        assert(cards@.take(cards@.len() as int) =~= cards@);
    }
    out
}

} // verus!
