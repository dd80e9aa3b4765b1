use poker_rs::cards::{Card, Rank, Suit};
use poker_rs::evaluator::suit_info::SuitInfo;

#[test]
fn test_flush() {
    let cards = [
        Card::new(Rank::Ace, Suit::Spades),
        Card::new(Rank::King, Suit::Spades),
        Card::new(Rank::Queen, Suit::Spades),
        Card::new(Rank::Jack, Suit::Spades),
        Card::new(Rank::Nine, Suit::Spades),
    ];
    let info = SuitInfo::detect(&cards);
    assert!(info.is_flush);
    assert_eq!(info.flush_suit, Some(Suit::Spades));
}

#[test]
fn test_not_flush() {
    let cards = [
        Card::new(Rank::Ace, Suit::Spades),
        Card::new(Rank::King, Suit::Hearts),
        Card::new(Rank::Queen, Suit::Spades),
        Card::new(Rank::Jack, Suit::Spades),
        Card::new(Rank::Nine, Suit::Spades),
    ];
    let info = SuitInfo::detect(&cards);
    assert!(!info.is_flush);
    assert_eq!(info.flush_suit, None);
}

#[test]
fn test_all_clubs() {
    let cards = [
        Card::new(Rank::Two, Suit::Clubs),
        Card::new(Rank::Three, Suit::Clubs),
        Card::new(Rank::Four, Suit::Clubs),
        Card::new(Rank::Five, Suit::Clubs),
        Card::new(Rank::Seven, Suit::Clubs),
    ];
    let info = SuitInfo::detect(&cards);
    assert!(info.is_flush);
    assert_eq!(info.flush_suit, Some(Suit::Clubs));
}
