use vstd::prelude::*;
use crate::cards::{Card, Suit};

verus! {

/// All cards of `s` share the suit of the first.
pub open spec fn same_suit(s: Seq<Card>) -> bool {
    forall|i: int| 0 <= i < s.len() ==> #[trigger] s[i].suit == s[0].suit
}

/// Whether all cards share the same suit (flush).
#[derive(Debug, Clone, Copy, PartialEq, Eq)]
pub struct SuitInfo {
    pub is_flush: bool,
    pub flush_suit: Option<Suit>,
}

impl SuitInfo {
    /// Detect if all 5 cards have the same suit.
    pub fn detect(cards: &[Card; 5]) -> (r: Self)
        ensures
            r.is_flush == same_suit(cards@),
            r.flush_suit == (if same_suit(cards@) {
                Some(cards@[0].suit)
            } else {
                None
            }),
    {
        let first_suit = cards[0].suit();
        let mut i: usize = 0;
        while i < 5
            invariant
                i <= 5,
                first_suit == cards@[0].suit,
                forall|j: int| 0 <= j < i ==> cards@[j].suit == first_suit,
            decreases 5 - i,
        {
            if cards[i].suit() != first_suit {
                return SuitInfo { is_flush: false, flush_suit: None };
            }
            i = i + 1;
        }
        SuitInfo { is_flush: true, flush_suit: Some(first_suit) }
    }
}

} // verus!
