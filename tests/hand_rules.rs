use poker_rs::cards::{Card, Rank, Suit};
use poker_rs::hand::{validate_holdem, Board, HandError, HoleCards};

#[test]
fn board_len_and_empty_work() {
    let b = Board::new(vec![Card::new(Rank::Ace, Suit::Spades)]);
    assert_eq!(b.len(), 1);
    assert!(!b.is_empty());
}

#[test]
fn hole_cards_must_be_distinct() {
    let a = Card::new(Rank::Ace, Suit::Spades);
    assert!(matches!(HoleCards::try_new(a, a), Err(HandError::DuplicateHoleCards)));
}

#[test]
fn board_try_new_checks_limits_and_dupes() {
    // Too many
    let cards = vec![
        Card::new(Rank::Two, Suit::Clubs),
        Card::new(Rank::Three, Suit::Clubs),
        Card::new(Rank::Four, Suit::Clubs),
        Card::new(Rank::Five, Suit::Clubs),
        Card::new(Rank::Six, Suit::Clubs),
        Card::new(Rank::Seven, Suit::Clubs),
    ];
    assert!(matches!(Board::try_new(cards), Err(HandError::TooManyBoardCards(6))));

    // Duplicates
    let cards = vec![Card::new(Rank::Two, Suit::Clubs), Card::new(Rank::Two, Suit::Clubs)];
    assert!(matches!(Board::try_new(cards), Err(HandError::DuplicateBoardCards)));
}

#[test]
fn validate_holdem_catches_overlap() {
    let a = Card::new(Rank::Ace, Suit::Spades);
    let k = Card::new(Rank::King, Suit::Spades);
    let hole = HoleCards::try_new(a, k).unwrap();
    let board = Board::new(vec![
        a,
        Card::new(Rank::Two, Suit::Clubs),
        Card::new(Rank::Three, Suit::Clubs),
    ]);
    assert!(matches!(validate_holdem(&hole, &board), Err(HandError::Overlap)));
}

#[test]
fn parsing_interfaces_work() {
    let hole: HoleCards = "As Kd".parse().unwrap();
    assert_eq!(hole.first(), Card::new(Rank::Ace, Suit::Spades));
    assert_eq!(hole.second(), Card::new(Rank::King, Suit::Diamonds));

    let board: Board = "2c, 3c 4c".parse().unwrap();
    assert_eq!(board.len(), 3);
}
