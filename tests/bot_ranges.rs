use poker_rs::bots::{preflop_in_range, PositionBucket};
use poker_rs::cards::{Card, Rank, Suit};
use poker_rs::hand::HoleCards;

#[test]
fn preflop_range_early_is_tight() {
    let aa = HoleCards::try_new(
        Card::new(Rank::Ace, Suit::Spades),
        Card::new(Rank::Ace, Suit::Hearts),
    )
    .unwrap();
    let trash = HoleCards::try_new(
        Card::new(Rank::Seven, Suit::Clubs),
        Card::new(Rank::Two, Suit::Diamonds),
    )
    .unwrap();
    assert!(preflop_in_range(&aa, PositionBucket::Early));
    assert!(!preflop_in_range(&trash, PositionBucket::Early));
}

#[test]
fn preflop_range_late_is_wider() {
    let suited_connector = HoleCards::try_new(
        Card::new(Rank::Eight, Suit::Spades),
        Card::new(Rank::Seven, Suit::Spades),
    )
    .unwrap();
    assert!(preflop_in_range(&suited_connector, PositionBucket::Late));
}

#[test]
fn heads_up_accepts_any_ace() {
    let ace_low = HoleCards::try_new(
        Card::new(Rank::Ace, Suit::Clubs),
        Card::new(Rank::Two, Suit::Diamonds),
    )
    .unwrap();
    assert!(preflop_in_range(&ace_low, PositionBucket::HeadsUp));
}
