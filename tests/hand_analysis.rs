use poker_rs::cards::{Card, Rank, Suit};
use poker_rs::evaluator::hand_analysis::HandAnalysis;

#[test]
fn test_royal_flush_analysis() {
    let cards = [
        Card::new(Rank::Ace, Suit::Spades),
        Card::new(Rank::King, Suit::Spades),
        Card::new(Rank::Queen, Suit::Spades),
        Card::new(Rank::Jack, Suit::Spades),
        Card::new(Rank::Ten, Suit::Spades),
    ];
    let analysis = HandAnalysis::new(&cards);

    assert!(analysis.suit_info.is_flush);
    assert!(analysis.straight_info.is_straight);
    assert_eq!(analysis.straight_info.top_rank, Some(Rank::Ace));
    assert_eq!(analysis.rank_groups.quad(), None);
    assert_eq!(analysis.rank_groups.trips(), None);
    assert_eq!(analysis.rank_groups.pairs(), vec![]);
}

#[test]
fn test_quads_analysis() {
    let cards = [
        Card::new(Rank::Ace, Suit::Spades),
        Card::new(Rank::Ace, Suit::Hearts),
        Card::new(Rank::Ace, Suit::Diamonds),
        Card::new(Rank::Ace, Suit::Clubs),
        Card::new(Rank::King, Suit::Spades),
    ];
    let analysis = HandAnalysis::new(&cards);

    assert_eq!(analysis.rank_groups.quad(), Some(Rank::Ace));
    assert_eq!(analysis.rank_groups.kickers(), vec![Rank::King]);
    assert!(!analysis.suit_info.is_flush);
    assert!(!analysis.straight_info.is_straight);
}

#[test]
fn test_full_house_analysis() {
    let cards = [
        Card::new(Rank::King, Suit::Spades),
        Card::new(Rank::King, Suit::Hearts),
        Card::new(Rank::King, Suit::Diamonds),
        Card::new(Rank::Queen, Suit::Clubs),
        Card::new(Rank::Queen, Suit::Spades),
    ];
    let analysis = HandAnalysis::new(&cards);

    assert!(analysis.rank_groups.has_full_house());
    assert_eq!(analysis.rank_groups.trips(), Some(Rank::King));
    assert_eq!(analysis.rank_groups.pairs(), vec![Rank::Queen]);
}

#[test]
fn test_flush_analysis() {
    let cards = [
        Card::new(Rank::Ace, Suit::Diamonds),
        Card::new(Rank::Jack, Suit::Diamonds),
        Card::new(Rank::Nine, Suit::Diamonds),
        Card::new(Rank::Five, Suit::Diamonds),
        Card::new(Rank::Two, Suit::Diamonds),
    ];
    let analysis = HandAnalysis::new(&cards);

    assert!(analysis.suit_info.is_flush);
    assert_eq!(analysis.suit_info.flush_suit, Some(Suit::Diamonds));
    assert!(!analysis.straight_info.is_straight);
}

#[test]
fn test_straight_analysis() {
    let cards = [
        Card::new(Rank::Nine, Suit::Spades),
        Card::new(Rank::Eight, Suit::Hearts),
        Card::new(Rank::Seven, Suit::Diamonds),
        Card::new(Rank::Six, Suit::Clubs),
        Card::new(Rank::Five, Suit::Spades),
    ];
    let analysis = HandAnalysis::new(&cards);

    assert!(analysis.straight_info.is_straight);
    assert_eq!(analysis.straight_info.top_rank, Some(Rank::Nine));
    assert!(!analysis.suit_info.is_flush);
}

#[test]
fn test_two_pair_analysis() {
    let cards = [
        Card::new(Rank::Ace, Suit::Spades),
        Card::new(Rank::Ace, Suit::Hearts),
        Card::new(Rank::King, Suit::Diamonds),
        Card::new(Rank::King, Suit::Clubs),
        Card::new(Rank::Queen, Suit::Spades),
    ];
    let analysis = HandAnalysis::new(&cards);

    let pairs = analysis.rank_groups.pairs();
    assert_eq!(pairs.len(), 2);
    assert_eq!(pairs[0], Rank::Ace);
    assert_eq!(pairs[1], Rank::King);
    assert_eq!(analysis.rank_groups.kickers(), vec![Rank::Queen]);
}

#[test]
fn test_one_pair_analysis() {
    let cards = [
        Card::new(Rank::Jack, Suit::Spades),
        Card::new(Rank::Jack, Suit::Hearts),
        Card::new(Rank::Nine, Suit::Diamonds),
        Card::new(Rank::Seven, Suit::Clubs),
        Card::new(Rank::Three, Suit::Spades),
    ];
    let analysis = HandAnalysis::new(&cards);

    assert_eq!(analysis.rank_groups.pairs(), vec![Rank::Jack]);
    let kickers = analysis.rank_groups.kickers();
    assert_eq!(kickers.len(), 3);
    assert_eq!(kickers[0], Rank::Nine);
    assert_eq!(kickers[1], Rank::Seven);
    assert_eq!(kickers[2], Rank::Three);
}

#[test]
fn test_high_card_analysis() {
    let cards = [
        Card::new(Rank::Ace, Suit::Spades),
        Card::new(Rank::King, Suit::Hearts),
        Card::new(Rank::Jack, Suit::Diamonds),
        Card::new(Rank::Nine, Suit::Clubs),
        Card::new(Rank::Seven, Suit::Spades),
    ];
    let analysis = HandAnalysis::new(&cards);

    assert_eq!(analysis.rank_groups.quad(), None);
    assert_eq!(analysis.rank_groups.trips(), None);
    assert_eq!(analysis.rank_groups.pairs(), vec![]);
    assert_eq!(analysis.rank_groups.kickers().len(), 5);
}

#[test]
fn test_wheel_straight_analysis() {
    let cards = [
        Card::new(Rank::Ace, Suit::Spades),
        Card::new(Rank::Two, Suit::Hearts),
        Card::new(Rank::Three, Suit::Diamonds),
        Card::new(Rank::Four, Suit::Clubs),
        Card::new(Rank::Five, Suit::Spades),
    ];
    let analysis = HandAnalysis::new(&cards);

    assert!(analysis.straight_info.is_straight);
    assert_eq!(analysis.straight_info.top_rank, Some(Rank::Five)); // Five is high in wheel
}

#[test]
fn test_cards_sorted_descending() {
    let cards = [
        Card::new(Rank::Three, Suit::Spades),
        Card::new(Rank::Ace, Suit::Hearts),
        Card::new(Rank::Five, Suit::Diamonds),
        Card::new(Rank::King, Suit::Clubs),
        Card::new(Rank::Nine, Suit::Spades),
    ];
    let analysis = HandAnalysis::new(&cards);

    // Should be sorted: A, K, 9, 5, 3
    assert_eq!(analysis.sorted_cards[0].rank(), Rank::Ace);
    assert_eq!(analysis.sorted_cards[1].rank(), Rank::King);
    assert_eq!(analysis.sorted_cards[2].rank(), Rank::Nine);
    assert_eq!(analysis.sorted_cards[3].rank(), Rank::Five);
    assert_eq!(analysis.sorted_cards[4].rank(), Rank::Three);
}
