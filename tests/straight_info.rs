use poker_rs::cards::Rank;
use poker_rs::evaluator::straight_info::StraightInfo;

#[test]
fn test_regular_straight() {
    let ranks = [Rank::King, Rank::Queen, Rank::Jack, Rank::Ten, Rank::Nine];
    let info = StraightInfo::detect(&ranks);
    assert!(info.is_straight);
    assert_eq!(info.top_rank, Some(Rank::King));
}

#[test]
fn test_ace_high_straight() {
    let ranks = [Rank::Ace, Rank::King, Rank::Queen, Rank::Jack, Rank::Ten];
    let info = StraightInfo::detect(&ranks);
    assert!(info.is_straight);
    assert_eq!(info.top_rank, Some(Rank::Ace));
}

#[test]
fn test_wheel() {
    let ranks = [Rank::Ace, Rank::Two, Rank::Three, Rank::Four, Rank::Five];
    let info = StraightInfo::detect(&ranks);
    assert!(info.is_straight);
    assert_eq!(info.top_rank, Some(Rank::Five)); // Five is high in wheel
}

#[test]
fn test_low_straight() {
    let ranks = [Rank::Six, Rank::Five, Rank::Four, Rank::Three, Rank::Two];
    let info = StraightInfo::detect(&ranks);
    assert!(info.is_straight);
    assert_eq!(info.top_rank, Some(Rank::Six));
}

#[test]
fn test_not_straight() {
    let ranks = [Rank::Ace, Rank::King, Rank::Queen, Rank::Jack, Rank::Nine];
    let info = StraightInfo::detect(&ranks);
    assert!(!info.is_straight);
    assert_eq!(info.top_rank, None);
}

#[test]
fn test_not_straight_pair() {
    let ranks = [Rank::Ace, Rank::Ace, Rank::King, Rank::Queen, Rank::Jack];
    let info = StraightInfo::detect(&ranks);
    assert!(!info.is_straight);
    assert_eq!(info.top_rank, None);
}

#[test]
fn test_unsorted_input() {
    // Input can be in any order
    let ranks = [Rank::Nine, Rank::King, Rank::Ten, Rank::Jack, Rank::Queen];
    let info = StraightInfo::detect(&ranks);
    assert!(info.is_straight);
    assert_eq!(info.top_rank, Some(Rank::King));
}
