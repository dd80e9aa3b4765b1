use vstd::prelude::*;
use crate::cards::Card;

verus! {

#[derive(Debug, Clone, PartialEq, Eq)]
#[non_exhaustive]
pub enum HandError {
    DuplicateHoleCards,
    TooManyBoardCards(usize),
    DuplicateBoardCards,
    Overlap,
    HoleCount(usize),
    CardParse(String),
}

/// No card occurs twice in `s`.
pub open spec fn all_distinct(s: Seq<Card>) -> bool {
    forall|i: int, j: int| 0 <= i < j < s.len() ==> s[i] != s[j]
}

/// A player's two private hole cards; the two cards always differ.
#[derive(Debug, Clone, Copy, PartialEq, Eq)]
pub struct HoleCards(Card, Card);

impl View for HoleCards {
    type V = (Card, Card);

    closed spec fn view(&self) -> (Card, Card) {
        (self.0, self.1)
    }
}

impl HoleCards {
    #[verifier::type_invariant]
    spec fn distinct_cards(self) -> bool {
        self.0 != self.1
    }

    /// Return the first (left) hole card.
    pub fn first(&self) -> (r: Card)
        ensures
            r == self@.0,
            self@.0 != self@.1,
    {
        proof {
            use_type_invariant(self);
        }
        self.0
    }

    /// Return the second (right) hole card.
    pub fn second(&self) -> (r: Card)
        ensures
            r == self@.1,
    {
        self.1
    }

    /// Return both hole cards as a fixed array.
    pub fn as_array(&self) -> (r: [Card; 2])
        ensures
            r@ == seq![self@.0, self@.1],
    {
        [self.0, self.1]
    }

    pub fn try_new(a: Card, b: Card) -> (r: Result<Self, HandError>)
        ensures
            a == b ==> r == Err::<Self, HandError>(HandError::DuplicateHoleCards),
            a != b ==> r is Ok && r->Ok_0@ == (a, b),
    {
        if a == b {
            return Err(HandError::DuplicateHoleCards);
        }
        Ok(HoleCards(a, b))
    }

    pub fn from_slice(slice: &[Card]) -> (r: Result<Self, HandError>)
        ensures
            slice@.len() != 2 ==> r == Err::<Self, HandError>(HandError::HoleCount(slice@.len() as usize)),
            slice@.len() == 2 && slice@[0] == slice@[1] ==> r == Err::<Self, HandError>(
                HandError::DuplicateHoleCards,
            ),
            slice@.len() == 2 && slice@[0] != slice@[1] ==> r is Ok && r->Ok_0@ == (
                slice@[0],
                slice@[1],
            ),
    {
        if slice.len() != 2 {
            return Err(HandError::HoleCount(slice.len()));
        }
        Self::try_new(slice[0], slice[1])
    }
}

/// Community cards on the board (flop, turn, river).
#[derive(Debug, Clone, PartialEq, Eq)]
pub struct Board {
    cards: Vec<Card>,
}

impl View for Board {
    type V = Seq<Card>;

    closed spec fn view(&self) -> Seq<Card> {
        self.cards@
    }
}

impl Board {
    /// A board holding `cards`, unchecked.
    pub fn new(cards: Vec<Card>) -> (r: Self)
        ensures
            r@ == cards@,
    {
        Board { cards }
    }

    /// A board holding `cards`, which must be at most five distinct cards.
    pub fn try_new(cards: Vec<Card>) -> (r: Result<Self, HandError>)
        ensures
            cards@.len() > 5 ==> r == Err::<Self, HandError>(HandError::TooManyBoardCards(cards@.len() as usize)),
            cards@.len() <= 5 && !all_distinct(cards@) ==> r == Err::<Self, HandError>(
                HandError::DuplicateBoardCards,
            ),
            cards@.len() <= 5 && all_distinct(cards@) ==> r is Ok && r->Ok_0@ == cards@,
    {
        if cards.len() > 5 {
            return Err(HandError::TooManyBoardCards(cards.len()));
        }
        if !has_no_duplicates(cards.as_slice()) {
            return Err(HandError::DuplicateBoardCards);
        }
        Ok(Board { cards })
    }

    pub fn len(&self) -> (r: usize)
        ensures
            r == self@.len(),
    {
        self.cards.len()
    }

    pub fn is_empty(&self) -> (r: bool)
        ensures
            r == (self@.len() == 0),
    {
        self.cards.len() == 0
    }

    pub fn as_slice(&self) -> (r: &[Card])
        ensures
            r@ == self@,
    {
        self.cards.as_slice()
    }

    /// The card at position `i`.
    pub fn card(&self, i: usize) -> (r: Card)
        requires
            i < self@.len(),
        ensures
            r == self@[i as int],
    {
        self.cards[i]
    }

    pub(crate) fn push(&mut self, card: Card)
        ensures
            final(self)@ == old(self)@.push(card),
    {
        self.cards.push(card);
    }
}

/// Whether `s` holds no card twice.
pub fn has_no_duplicates(s: &[Card]) -> (r: bool)
    ensures
        r == all_distinct(s@),
{
    let n = s.len();
    let mut i: usize = 0;
    while i < n
        invariant
            n == s@.len(),
            i <= n,
            forall|a: int, b: int| 0 <= a < b < s@.len() && a < i ==> s@[a] != s@[b],
        decreases n - i,
    {
        let mut j: usize = i + 1;
        while j < n
            invariant
                n == s@.len(),
                i < j <= n,
                forall|a: int, b: int| 0 <= a < b < s@.len() && a < i ==> s@[a] != s@[b],
                forall|b: int| i < b < j ==> s@[i as int] != s@[b],
            decreases n - j,
        {
            if s[i] == s[j] {
                return false;
            }
            j = j + 1;
        }
        i = i + 1;
    }
    true
}

/// Whether `c` occurs in `s`.
pub fn contains_card(s: &[Card], c: Card) -> (r: bool)
    ensures
        r == s@.contains(c),
{
    let mut i: usize = 0;
    while i < s.len()
        invariant
            i <= s@.len(),
            forall|k: int| 0 <= k < i ==> s@[k] != c,
        decreases s@.len() - i,
    {
        if s[i] == c {
            return true;
        }
        i = i + 1;
    }
    false
}

/// The first rule that hole cards and a board break, checked in this order:
/// more than five board cards, a duplicate on the board, a hole card on the
/// board, equal hole cards.
pub open spec fn holdem_error(hole: (Card, Card), board: Seq<Card>) -> Option<HandError> {
    if board.len() > 5 {
        Some(HandError::TooManyBoardCards(board.len() as usize))
    } else if !all_distinct(board) {
        Some(HandError::DuplicateBoardCards)
    } else if board.contains(hole.0) || board.contains(hole.1) {
        Some(HandError::Overlap)
    } else if hole.0 == hole.1 {
        Some(HandError::DuplicateHoleCards)
    } else {
        None
    }
}

/// Validate that a pair of hole cards and a board form a valid Hold'em state
/// (0..=5 board cards, all cards distinct).
pub fn validate_holdem(hole: &HoleCards, board: &Board) -> (r: Result<(), HandError>)
    ensures
        r == (match holdem_error(hole@, board@) {
            Some(e) => Err(e),
            None => Ok(()),
        }),
{
    if board.len() > 5 {
        return Err(HandError::TooManyBoardCards(board.len()));
    }
    let cards = board.as_slice();
    if !has_no_duplicates(cards) {
        return Err(HandError::DuplicateBoardCards);
    }
    if contains_card(cards, hole.first()) || contains_card(cards, hole.second()) {
        return Err(HandError::Overlap);
    }
    if hole.first() == hole.second() {
        return Err(HandError::DuplicateHoleCards);
    }
    Ok(())
}

} // verus!

verus! {

impl std::str::FromStr for HoleCards {
    type Err = HandError;

    fn from_str(s: &str) -> Result<HoleCards, HandError> {
        match crate::cards::parse_cards(s) {
            Ok(cards) => HoleCards::from_slice(cards.as_slice()),
            Err(e) => Err(HandError::CardParse(e.text())),
        }
    }
}

impl std::str::FromStr for Board {
    type Err = HandError;

    fn from_str(s: &str) -> Result<Board, HandError> {
        match crate::cards::parse_cards(s) {
            Ok(cards) => Board::try_new(cards),
            Err(e) => Err(HandError::CardParse(e.text())),
        }
    }
}

} // verus!
