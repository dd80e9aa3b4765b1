use poker_rs::deck::Deck;

#[test]
fn standard_deck_has_52_cards() {
    let d = Deck::standard();
    assert_eq!(d.len(), 52);
}

#[test]
fn seeded_shuffle_is_reproducible() {
    let mut d1 = Deck::standard();
    let mut d2 = Deck::standard();
    d1.shuffle_seeded(42);
    d2.shuffle_seeded(42);
    assert_eq!(d1.cards(), d2.cards());
}

#[test]
fn draw_reduces_length_and_returns_cards() {
    let mut d = Deck::standard();
    d.shuffle_seeded(7);
    let c1 = d.draw().unwrap();
    let c2 = d.draw().unwrap();
    assert_ne!(c1, c2);
    assert_eq!(d.len(), 50);
    let hand = d.draw_n(5);
    assert_eq!(hand.len(), 5);
    assert_eq!(d.len(), 45);
}
