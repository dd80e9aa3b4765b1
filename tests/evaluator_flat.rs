use poker_rs::cards::{Card, Rank, Suit};
use poker_rs::evaluator::{compare_holdem, evaluate_five, evaluate_holdem, Category, EvalError};
use poker_rs::hand::{Board, HoleCards};

fn hole(a: Card, b: Card) -> HoleCards {
    HoleCards::try_new(a, b).expect("valid hole cards")
}

#[test]
fn evaluator_not_enough_cards_errors() {
    let hole = hole(Card::new(Rank::Ace, Suit::Spades), Card::new(Rank::King, Suit::Spades));
    let board = Board::new(vec![Card::new(Rank::Two, Suit::Clubs)]);
    let err = evaluate_holdem(&hole, &board).unwrap_err();
    assert!(matches!(err, EvalError::NotEnoughCards));
}

#[test]
fn evaluator_compare_errors_with_short_board() {
    let a = hole(Card::new(Rank::Ace, Suit::Spades), Card::new(Rank::King, Suit::Spades));
    let b = hole(Card::new(Rank::Two, Suit::Clubs), Card::new(Rank::Three, Suit::Clubs));
    let board = Board::new(vec![Card::new(Rank::Two, Suit::Hearts)]);
    let err = compare_holdem(&a, &b, &board).unwrap_err();
    assert!(matches!(err, EvalError::NotEnoughCards));
}

#[test]
fn evaluator_evaluate_five_categories() {
    // Straight flush
    let sf = [
        Card::new(Rank::Ace, Suit::Spades),
        Card::new(Rank::King, Suit::Spades),
        Card::new(Rank::Queen, Suit::Spades),
        Card::new(Rank::Jack, Suit::Spades),
        Card::new(Rank::Ten, Suit::Spades),
    ];
    let e = evaluate_five(&sf);
    assert!(matches!(e.category, Category::StraightFlush));

    // Four of a kind
    let quads = [
        Card::new(Rank::King, Suit::Clubs),
        Card::new(Rank::King, Suit::Diamonds),
        Card::new(Rank::King, Suit::Hearts),
        Card::new(Rank::King, Suit::Spades),
        Card::new(Rank::Two, Suit::Spades),
    ];
    let e = evaluate_five(&quads);
    assert!(matches!(e.category, Category::FourOfAKind));

    // Full house
    let fh = [
        Card::new(Rank::Ten, Suit::Clubs),
        Card::new(Rank::Ten, Suit::Diamonds),
        Card::new(Rank::Ten, Suit::Hearts),
        Card::new(Rank::Two, Suit::Spades),
        Card::new(Rank::Two, Suit::Hearts),
    ];
    let e = evaluate_five(&fh);
    assert!(matches!(e.category, Category::FullHouse));

    // Flush
    let fl = [
        Card::new(Rank::Ace, Suit::Hearts),
        Card::new(Rank::Nine, Suit::Hearts),
        Card::new(Rank::Seven, Suit::Hearts),
        Card::new(Rank::Three, Suit::Hearts),
        Card::new(Rank::Two, Suit::Hearts),
    ];
    let e = evaluate_five(&fl);
    assert!(matches!(e.category, Category::Flush));

    // Straight (wheel)
    let st = [
        Card::new(Rank::Ace, Suit::Clubs),
        Card::new(Rank::Two, Suit::Diamonds),
        Card::new(Rank::Three, Suit::Hearts),
        Card::new(Rank::Four, Suit::Spades),
        Card::new(Rank::Five, Suit::Clubs),
    ];
    let e = evaluate_five(&st);
    assert!(matches!(e.category, Category::Straight));

    // Trips
    let tk = [
        Card::new(Rank::Queen, Suit::Clubs),
        Card::new(Rank::Queen, Suit::Diamonds),
        Card::new(Rank::Queen, Suit::Hearts),
        Card::new(Rank::Nine, Suit::Spades),
        Card::new(Rank::Two, Suit::Clubs),
    ];
    let e = evaluate_five(&tk);
    assert!(matches!(e.category, Category::ThreeOfAKind));

    // Two pair
    let tp = [
        Card::new(Rank::Jack, Suit::Clubs),
        Card::new(Rank::Jack, Suit::Diamonds),
        Card::new(Rank::Nine, Suit::Clubs),
        Card::new(Rank::Nine, Suit::Hearts),
        Card::new(Rank::Two, Suit::Spades),
    ];
    let e = evaluate_five(&tp);
    assert!(matches!(e.category, Category::TwoPair));

    // Pair
    let pr = [
        Card::new(Rank::Ace, Suit::Hearts),
        Card::new(Rank::Ace, Suit::Diamonds),
        Card::new(Rank::Ten, Suit::Spades),
        Card::new(Rank::Nine, Suit::Clubs),
        Card::new(Rank::Two, Suit::Diamonds),
    ];
    let e = evaluate_five(&pr);
    assert!(matches!(e.category, Category::Pair));

    // High card
    let hi = [
        Card::new(Rank::Ace, Suit::Hearts),
        Card::new(Rank::King, Suit::Diamonds),
        Card::new(Rank::Seven, Suit::Spades),
        Card::new(Rank::Five, Suit::Clubs),
        Card::new(Rank::Two, Suit::Diamonds),
    ];
    let e = evaluate_five(&hi);
    assert!(matches!(e.category, Category::HighCard));
}
