use poker_rs::cards::{Card, Rank, Suit};
use poker_rs::evaluator::detector::{
    CategoryDetector, FlushDetector, FourOfAKindDetector, FullHouseDetector, HighCardDetector,
    OnePairDetector, StraightDetector, StraightFlushDetector, ThreeOfAKindDetector, TwoPairDetector,
};
use poker_rs::evaluator::hand_analysis::HandAnalysis;
use poker_rs::evaluator::Category;

#[test]
fn test_straight_flush_detector() {
    let cards = [
        Card::new(Rank::Nine, Suit::Hearts),
        Card::new(Rank::Eight, Suit::Hearts),
        Card::new(Rank::Seven, Suit::Hearts),
        Card::new(Rank::Six, Suit::Hearts),
        Card::new(Rank::Five, Suit::Hearts),
    ];
    let analysis = HandAnalysis::new(&cards);
    let detector = StraightFlushDetector;

    assert!(detector.detect(&analysis));
    let eval = detector.build_evaluation(&analysis);
    assert_eq!(eval.category, Category::StraightFlush);
}

#[test]
fn test_four_of_a_kind_detector() {
    let cards = [
        Card::new(Rank::Ace, Suit::Spades),
        Card::new(Rank::Ace, Suit::Hearts),
        Card::new(Rank::Ace, Suit::Diamonds),
        Card::new(Rank::Ace, Suit::Clubs),
        Card::new(Rank::King, Suit::Spades),
    ];
    let analysis = HandAnalysis::new(&cards);
    let detector = FourOfAKindDetector;

    assert!(detector.detect(&analysis));
    let eval = detector.build_evaluation(&analysis);
    assert_eq!(eval.category, Category::FourOfAKind);
}

#[test]
fn test_full_house_detector() {
    let cards = [
        Card::new(Rank::King, Suit::Spades),
        Card::new(Rank::King, Suit::Hearts),
        Card::new(Rank::King, Suit::Diamonds),
        Card::new(Rank::Queen, Suit::Clubs),
        Card::new(Rank::Queen, Suit::Spades),
    ];
    let analysis = HandAnalysis::new(&cards);
    let detector = FullHouseDetector;

    assert!(detector.detect(&analysis));
    let eval = detector.build_evaluation(&analysis);
    assert_eq!(eval.category, Category::FullHouse);
}

#[test]
fn test_flush_detector() {
    let cards = [
        Card::new(Rank::Ace, Suit::Diamonds),
        Card::new(Rank::Jack, Suit::Diamonds),
        Card::new(Rank::Nine, Suit::Diamonds),
        Card::new(Rank::Five, Suit::Diamonds),
        Card::new(Rank::Two, Suit::Diamonds),
    ];
    let analysis = HandAnalysis::new(&cards);
    let detector = FlushDetector;

    assert!(detector.detect(&analysis));
    let eval = detector.build_evaluation(&analysis);
    assert_eq!(eval.category, Category::Flush);
}

#[test]
fn test_straight_detector() {
    let cards = [
        Card::new(Rank::Nine, Suit::Spades),
        Card::new(Rank::Eight, Suit::Hearts),
        Card::new(Rank::Seven, Suit::Diamonds),
        Card::new(Rank::Six, Suit::Clubs),
        Card::new(Rank::Five, Suit::Spades),
    ];
    let analysis = HandAnalysis::new(&cards);
    let detector = StraightDetector;

    assert!(detector.detect(&analysis));
    let eval = detector.build_evaluation(&analysis);
    assert_eq!(eval.category, Category::Straight);
}

#[test]
fn test_three_of_a_kind_detector() {
    let cards = [
        Card::new(Rank::Jack, Suit::Spades),
        Card::new(Rank::Jack, Suit::Hearts),
        Card::new(Rank::Jack, Suit::Diamonds),
        Card::new(Rank::Nine, Suit::Clubs),
        Card::new(Rank::Seven, Suit::Spades),
    ];
    let analysis = HandAnalysis::new(&cards);
    let detector = ThreeOfAKindDetector;

    assert!(detector.detect(&analysis));
    let eval = detector.build_evaluation(&analysis);
    assert_eq!(eval.category, Category::ThreeOfAKind);
}

#[test]
fn test_two_pair_detector() {
    let cards = [
        Card::new(Rank::Ace, Suit::Spades),
        Card::new(Rank::Ace, Suit::Hearts),
        Card::new(Rank::King, Suit::Diamonds),
        Card::new(Rank::King, Suit::Clubs),
        Card::new(Rank::Queen, Suit::Spades),
    ];
    let analysis = HandAnalysis::new(&cards);
    let detector = TwoPairDetector;

    assert!(detector.detect(&analysis));
    let eval = detector.build_evaluation(&analysis);
    assert_eq!(eval.category, Category::TwoPair);
}

#[test]
fn test_one_pair_detector() {
    let cards = [
        Card::new(Rank::Jack, Suit::Spades),
        Card::new(Rank::Jack, Suit::Hearts),
        Card::new(Rank::Nine, Suit::Diamonds),
        Card::new(Rank::Seven, Suit::Clubs),
        Card::new(Rank::Three, Suit::Spades),
    ];
    let analysis = HandAnalysis::new(&cards);
    let detector = OnePairDetector;

    assert!(detector.detect(&analysis));
    let eval = detector.build_evaluation(&analysis);
    assert_eq!(eval.category, Category::Pair);
}

#[test]
fn test_high_card_detector() {
    let cards = [
        Card::new(Rank::Ace, Suit::Spades),
        Card::new(Rank::King, Suit::Hearts),
        Card::new(Rank::Jack, Suit::Diamonds),
        Card::new(Rank::Nine, Suit::Clubs),
        Card::new(Rank::Seven, Suit::Spades),
    ];
    let analysis = HandAnalysis::new(&cards);
    let detector = HighCardDetector;

    assert!(detector.detect(&analysis));
    let eval = detector.build_evaluation(&analysis);
    assert_eq!(eval.category, Category::HighCard);
}

#[test]
fn test_detector_priority_straight_flush_over_flush() {
    let cards = [
        Card::new(Rank::Nine, Suit::Hearts),
        Card::new(Rank::Eight, Suit::Hearts),
        Card::new(Rank::Seven, Suit::Hearts),
        Card::new(Rank::Six, Suit::Hearts),
        Card::new(Rank::Five, Suit::Hearts),
    ];
    let analysis = HandAnalysis::new(&cards);

    // Both straight and flush detectors would match, but straight flush should win
    assert!(StraightFlushDetector.detect(&analysis));
    assert!(FlushDetector.detect(&analysis));
    assert!(StraightDetector.detect(&analysis));
}
