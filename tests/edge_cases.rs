use poker_rs::bots::{bot_wait_step, must_defend_blind, position_bucket, PositionBucket};
use poker_rs::cards::{Card, Rank, Suit};
use poker_rs::evaluator::{compare_holdem, evaluate_holdem, Category, EvalError, HandValue};
use poker_rs::hand::{validate_holdem, Board, HandError, HoleCards};
use std::cmp::Ordering;

fn c(s: &str) -> Card {
    s.parse().unwrap()
}

#[test]
fn position_buckets_follow_the_button() {
    assert_eq!(position_bucket(0, 1, 2), PositionBucket::HeadsUp);
    assert_eq!(position_bucket(3, 3, 9), PositionBucket::Button);
    assert_eq!(position_bucket(4, 3, 9), PositionBucket::SmallBlind);
    assert_eq!(position_bucket(5, 3, 9), PositionBucket::BigBlind);
    assert_eq!(position_bucket(6, 3, 9), PositionBucket::Early);
    assert_eq!(position_bucket(8, 3, 9), PositionBucket::Middle);
    assert_eq!(position_bucket(2, 3, 9), PositionBucket::Late);
    assert_eq!(position_bucket(3, 0, 4), PositionBucket::Late);
}

#[test]
fn packing_orders_category_first() {
    let low = HandValue::from_parts(Category::Pair, &[Rank::Ace; 5]);
    let high = HandValue::from_parts(Category::TwoPair, &[Rank::Two; 5]);
    assert!(high.raw() > low.raw());
    assert_eq!(Category::StraightFlush.ordinal(), 8);
    assert_eq!(Category::HighCard.ordinal(), 0);
    let v = HandValue::from_parts(Category::Flush, &[Rank::Ace, Rank::King, Rank::Nine, Rank::Five, Rank::Two]);
    assert_eq!(v.raw(), (5u64 << 48) | (14 << 42) | (13 << 36) | (9 << 30) | (5 << 24) | (2 << 18));
}

#[test]
fn validation_errors_in_order() {
    let hole = HoleCards::try_new(c("As"), c("Kd")).unwrap();
    let six = Board::new(vec![c("2c"), c("3c"), c("4c"), c("5c"), c("6c"), c("7c")]);
    assert_eq!(validate_holdem(&hole, &six), Err(HandError::TooManyBoardCards(6)));
    let dup = Board::new(vec![c("2c"), c("2c")]);
    assert_eq!(validate_holdem(&hole, &dup), Err(HandError::DuplicateBoardCards));
    let ok = Board::try_new(vec![c("2c"), c("3c"), c("4c")]).unwrap();
    assert_eq!(validate_holdem(&hole, &ok), Ok(()));
    assert_eq!(HoleCards::from_slice(&[c("As")]), Err(HandError::HoleCount(1)));
    assert_eq!(hole.as_array(), [c("As"), c("Kd")]);
    let overlap = Board::new(vec![c("Kd"), c("2c"), c("3c"), c("4c"), c("5c")]);
    assert!(matches!(evaluate_holdem(&hole, &overlap), Err(EvalError::InvalidHand(HandError::Overlap))));
}

#[test]
fn equal_hands_compare_equal() {
    let board = Board::new(vec![c("As"), c("Ks"), c("Qs"), c("Js"), c("Ts")]);
    let a = HoleCards::try_new(c("2d"), c("3d")).unwrap();
    let b = HoleCards::try_new(c("4h"), c("5h")).unwrap();
    assert_eq!(compare_holdem(&a, &b, &board).unwrap(), Ordering::Equal);
    let e = evaluate_holdem(&a, &board).unwrap();
    assert_eq!(e.category, Category::StraightFlush);
}

#[test]
fn bot_waits_for_its_deadline() {
    assert_eq!(bot_wait_step(0, None, 5), (true, None));
    assert_eq!(bot_wait_step(20, None, 100), (false, Some(120)));
    assert_eq!(bot_wait_step(20, Some(120), 110), (false, Some(120)));
    assert_eq!(bot_wait_step(20, Some(120), 120), (true, None));
    assert_eq!(bot_wait_step(5, None, u64::MAX - 1), (false, Some(u64::MAX)));
    assert!(must_defend_blind(true, 2, 10, 10, 5));
    assert!(!must_defend_blind(true, 3, 10, 10, 5));
    assert!(!must_defend_blind(false, 2, 10, 10, 5));
    assert!(!must_defend_blind(true, 2, 30, 20, 20));
}

#[test]
fn best_evaluation_by_card_count() {
    let five = vec![c("As"), c("Ks"), c("Qs"), c("Js"), c("Ts")];
    assert_eq!(poker_rs::evaluator::best_evaluation(&five).unwrap().category, Category::StraightFlush);
    let six = vec![c("2d"), c("As"), c("Ah"), c("Kd"), c("Kc"), c("Ad")];
    assert_eq!(poker_rs::evaluator::best_evaluation(&six).unwrap().category, Category::FullHouse);
    let seven = vec![c("2d"), c("3d"), c("4d"), c("5d"), c("9c"), c("Kh"), c("6d")];
    assert_eq!(poker_rs::evaluator::best_evaluation(&seven).unwrap().category, Category::StraightFlush);
    assert!(poker_rs::evaluator::best_evaluation(&five[..4]).is_none());
}
