use vstd::prelude::*;
use vstd::string::StrSliceExecFns;
use crate::text::{char_text, is_space, is_space_char, same_letter, same_letter_char, trim, trim_bounds};

verus! {

/// Card ranks from Two (low) to Ace (high).
#[derive(Debug, Clone, Copy, PartialEq, Eq, Structural, PartialOrd, Ord, Hash)]
pub enum Rank {
    Two,
    Three,
    Four,
    Five,
    Six,
    Seven,
    Eight,
    Nine,
    Ten,
    Jack,
    Queen,
    King,
    Ace,
}

/// The rank whose numeric value is `v` (2..=14).
pub open spec fn rank_of_value(v: int) -> Rank
    recommends
        2 <= v <= 14,
{
    if v <= 2 {
        Rank::Two
    } else if v == 3 {
        Rank::Three
    } else if v == 4 {
        Rank::Four
    } else if v == 5 {
        Rank::Five
    } else if v == 6 {
        Rank::Six
    } else if v == 7 {
        Rank::Seven
    } else if v == 8 {
        Rank::Eight
    } else if v == 9 {
        Rank::Nine
    } else if v == 10 {
        Rank::Ten
    } else if v == 11 {
        Rank::Jack
    } else if v == 12 {
        Rank::Queen
    } else if v == 13 {
        Rank::King
    } else {
        Rank::Ace
    }
}

impl Rank {
    /// Numeric value of the rank: Two is 2, Ace is 14.
    pub open spec fn spec_value(self) -> int {
        match self {
            Rank::Two => 2,
            Rank::Three => 3,
            Rank::Four => 4,
            Rank::Five => 5,
            Rank::Six => 6,
            Rank::Seven => 7,
            Rank::Eight => 8,
            Rank::Nine => 9,
            Rank::Ten => 10,
            Rank::Jack => 11,
            Rank::Queen => 12,
            Rank::King => 13,
            Rank::Ace => 14,
        }
    }

    /// Display character: digits for Two..Nine, then T, J, Q, K, A.
    pub open spec fn spec_char(self) -> char {
        match self {
            Rank::Two => '2',
            Rank::Three => '3',
            Rank::Four => '4',
            Rank::Five => '5',
            Rank::Six => '6',
            Rank::Seven => '7',
            Rank::Eight => '8',
            Rank::Nine => '9',
            Rank::Ten => 'T',
            Rank::Jack => 'J',
            Rank::Queen => 'Q',
            Rank::King => 'K',
            Rank::Ace => 'A',
        }
    }

    pub fn value(self) -> (r: u8)
        ensures
            r as int == self.spec_value(),
            2 <= r <= 14,
    {
        match self {
            Rank::Two => 2,
            Rank::Three => 3,
            Rank::Four => 4,
            Rank::Five => 5,
            Rank::Six => 6,
            Rank::Seven => 7,
            Rank::Eight => 8,
            Rank::Nine => 9,
            Rank::Ten => 10,
            Rank::Jack => 11,
            Rank::Queen => 12,
            Rank::King => 13,
            Rank::Ace => 14,
        }
    }

    pub fn to_char(self) -> (r: char)
        ensures
            r == self.spec_char(),
    {
        match self {
            Rank::Two => '2',
            Rank::Three => '3',
            Rank::Four => '4',
            Rank::Five => '5',
            Rank::Six => '6',
            Rank::Seven => '7',
            Rank::Eight => '8',
            Rank::Nine => '9',
            Rank::Ten => 'T',
            Rank::Jack => 'J',
            Rank::Queen => 'Q',
            Rank::King => 'K',
            Rank::Ace => 'A',
        }
    }

    /// The rank with numeric value `v`.
    pub fn from_value(v: u8) -> (r: Rank)
        requires
            2 <= v <= 14,
        ensures
            r == rank_of_value(v as int),
            r.spec_value() == v as int,
    {
        match v {
            2 => Rank::Two,
            3 => Rank::Three,
            4 => Rank::Four,
            5 => Rank::Five,
            6 => Rank::Six,
            7 => Rank::Seven,
            8 => Rank::Eight,
            9 => Rank::Nine,
            10 => Rank::Ten,
            11 => Rank::Jack,
            12 => Rank::Queen,
            13 => Rank::King,
            _ => Rank::Ace,
        }
    }
}

/// Four suits; order has no hand-strength meaning but is fixed: C < D < H < S.
#[derive(Debug, Clone, Copy, PartialEq, Eq, Structural, PartialOrd, Ord, Hash)]
pub enum Suit {
    Clubs,
    Diamonds,
    Hearts,
    Spades,
}

impl Suit {
    /// Position of the suit in the fixed order, 0..4.
    pub open spec fn spec_index(self) -> int {
        match self {
            Suit::Clubs => 0,
            Suit::Diamonds => 1,
            Suit::Hearts => 2,
            Suit::Spades => 3,
        }
    }

    pub open spec fn spec_char(self) -> char {
        match self {
            Suit::Clubs => 'c',
            Suit::Diamonds => 'd',
            Suit::Hearts => 'h',
            Suit::Spades => 's',
        }
    }

    pub fn index(self) -> (r: u8)
        ensures
            r as int == self.spec_index(),
            r < 4,
    {
        match self {
            Suit::Clubs => 0,
            Suit::Diamonds => 1,
            Suit::Hearts => 2,
            Suit::Spades => 3,
        }
    }

    pub fn to_char(self) -> (r: char)
        ensures
            r == self.spec_char(),
    {
        match self {
            Suit::Clubs => 'c',
            Suit::Diamonds => 'd',
            Suit::Hearts => 'h',
            Suit::Spades => 's',
        }
    }
}

/// A playing card: rank + suit.
#[derive(Debug, Clone, Copy, PartialEq, Eq, Structural, PartialOrd, Ord, Hash)]
pub struct Card {
    pub rank: Rank,
    pub suit: Suit,
}

impl Card {
    /// Sort key that orders cards by rank, then suit (8..=59).
    pub open spec fn key(self) -> int {
        self.rank.spec_value() * 4 + self.suit.spec_index()
    }

    pub fn new(rank: Rank, suit: Suit) -> (r: Card)
        ensures
            r.rank == rank,
            r.suit == suit,
    {
        Card { rank, suit }
    }

    pub fn rank(self) -> (r: Rank)
        ensures
            r == self.rank,
    {
        self.rank
    }

    pub fn suit(self) -> (r: Suit)
        ensures
            r == self.suit,
    {
        self.suit
    }

    pub fn to_tuple(self) -> (r: (Rank, Suit))
        ensures
            r == (self.rank, self.suit),
    {
        (self.rank, self.suit)
    }

    /// The card's sort key: rank first, suit second.
    pub fn sort_key(self) -> (r: u8)
        ensures
            r as int == self.key(),
    {
        self.rank.value() * 4 + self.suit.index()
    }
}

} // verus!

verus! {

#[derive(Debug, Clone, PartialEq, Eq)]
#[non_exhaustive]
pub enum RankParseError {
    Invalid(String),
}

#[derive(Debug, Clone, PartialEq, Eq)]
#[non_exhaustive]
pub enum SuitParseError {
    Invalid(String),
}

#[derive(Debug, Clone, PartialEq, Eq)]
#[non_exhaustive]
pub enum CardParseError {
    Invalid(String),
    Rank(RankParseError),
    Suit(SuitParseError),
}

impl CardParseError {
    /// The text that failed to parse.
    pub fn text(&self) -> (r: String)
        ensures
            r@ == (match self {
                CardParseError::Invalid(s) => s@,
                CardParseError::Rank(RankParseError::Invalid(s)) => s@,
                CardParseError::Suit(SuitParseError::Invalid(s)) => s@,
            }),
    {
        match self {
            CardParseError::Invalid(s) => s.clone(),
            CardParseError::Rank(RankParseError::Invalid(s)) => s.clone(),
            CardParseError::Suit(SuitParseError::Invalid(s)) => s.clone(),
        }
    }
}

/// The rank a single character names: a digit 2..9, or T, J, Q, K, A in
/// either case.
pub open spec fn rank_of_char(c: char) -> Option<Rank> {
    if c == '2' {
        Some(Rank::Two)
    } else if c == '3' {
        Some(Rank::Three)
    } else if c == '4' {
        Some(Rank::Four)
    } else if c == '5' {
        Some(Rank::Five)
    } else if c == '6' {
        Some(Rank::Six)
    } else if c == '7' {
        Some(Rank::Seven)
    } else if c == '8' {
        Some(Rank::Eight)
    } else if c == '9' {
        Some(Rank::Nine)
    } else if same_letter(c, 't') {
        Some(Rank::Ten)
    } else if same_letter(c, 'j') {
        Some(Rank::Jack)
    } else if same_letter(c, 'q') {
        Some(Rank::Queen)
    } else if same_letter(c, 'k') {
        Some(Rank::King)
    } else if same_letter(c, 'a') {
        Some(Rank::Ace)
    } else {
        None
    }
}

/// The rank a text names once surrounding white space is removed: one rank
/// character, or "10".
pub open spec fn rank_of_text(s: Seq<char>) -> Option<Rank> {
    let t = trim(s);
    if t.len() == 1 {
        rank_of_char(t[0])
    } else if t.len() == 2 && t[0] == '1' && t[1] == '0' {
        Some(Rank::Ten)
    } else {
        None
    }
}

/// The suit a single character names: c, d, h or s in either case.
pub open spec fn suit_of_char(c: char) -> Option<Suit> {
    if same_letter(c, 'c') {
        Some(Suit::Clubs)
    } else if same_letter(c, 'd') {
        Some(Suit::Diamonds)
    } else if same_letter(c, 'h') {
        Some(Suit::Hearts)
    } else if same_letter(c, 's') {
        Some(Suit::Spades)
    } else {
        None
    }
}

/// `t` spells the lower-case word `w`, letters in either case.
pub open spec fn spells(t: Seq<char>, w: Seq<char>) -> bool {
    t.len() == w.len() && forall|i: int| 0 <= i < t.len() ==> same_letter(#[trigger] t[i], w[i])
}

/// The suit a text names once trimmed: one ASCII suit character, or a
/// suit's full name.
pub open spec fn suit_of_text(s: Seq<char>) -> Option<Suit> {
    let t = trim(s);
    if t.len() == 1 && (t[0] as u32) < 128 {
        suit_of_char(t[0])
    } else if spells(t, seq!['c', 'l', 'u', 'b', 's']) {
        Some(Suit::Clubs)
    } else if spells(t, seq!['d', 'i', 'a', 'm', 'o', 'n', 'd', 's']) {
        Some(Suit::Diamonds)
    } else if spells(t, seq!['h', 'e', 'a', 'r', 't', 's']) {
        Some(Suit::Hearts)
    } else if spells(t, seq!['s', 'p', 'a', 'd', 'e', 's']) {
        Some(Suit::Spades)
    } else {
        None
    }
}

/// The card a text names once trimmed: a rank text followed by a suit
/// character, at least two characters in all.
pub open spec fn card_of_text(s: Seq<char>) -> Option<Card> {
    let t = trim(s);
    if t.len() < 2 {
        None
    } else {
        match (rank_of_text(t.take(t.len() - 1)), suit_of_char(t.last())) {
            (Some(r), Some(u)) => Some(Card { rank: r, suit: u }),
            _ => None,
        }
    }
}

fn spells_word(s: &str, from: usize, to: usize, w: &[char]) -> (r: bool)
    requires
        from <= to <= s@.len(),
        forall|i: int| 0 <= i < w@.len() ==> 'a' <= #[trigger] w@[i] <= 'z',
    ensures
        r == spells(s@.subrange(from as int, to as int), w@),
{
    if to - from != w.len() {
        return false;
    }
    let mut i: usize = 0;
    while i < w.len()
        invariant
            from <= to <= s@.len(),
            to - from == w@.len(),
            i <= w@.len(),
            forall|k: int| 0 <= k < w@.len() ==> 'a' <= #[trigger] w@[k] <= 'z',
            forall|k: int| 0 <= k < i ==> same_letter(#[trigger] s@[from + k], w@[k]),
        decreases w@.len() - i,
    {
        if !same_letter_char(s.get_char(from + i), w[i]) {
            assert(s@.subrange(from as int, to as int)[i as int] == s@[from + i]);
            return false;
        }
        i = i + 1;
    }
    proof {
        let t = s@.subrange(from as int, to as int);
        assert forall|k: int| 0 <= k < t.len() implies same_letter(#[trigger] t[k], w@[k]) by {
            assert(t[k] == s@[from + k]);
        }
    }
    true
}

impl Rank {
    /// The rank named by one character (see `rank_of_char`).
    pub fn from_char(c: char) -> (r: Result<Rank, RankParseError>)
        ensures
            rank_of_char(c) matches Some(x) ==> r == Ok::<Rank, RankParseError>(x),
            rank_of_char(c) is None ==> (r matches Err(RankParseError::Invalid(t)) && t@ == seq![c]),
    {
        if c == '2' {
            Ok(Rank::Two)
        } else if c == '3' {
            Ok(Rank::Three)
        } else if c == '4' {
            Ok(Rank::Four)
        } else if c == '5' {
            Ok(Rank::Five)
        } else if c == '6' {
            Ok(Rank::Six)
        } else if c == '7' {
            Ok(Rank::Seven)
        } else if c == '8' {
            Ok(Rank::Eight)
        } else if c == '9' {
            Ok(Rank::Nine)
        } else if same_letter_char(c, 't') {
            Ok(Rank::Ten)
        } else if same_letter_char(c, 'j') {
            Ok(Rank::Jack)
        } else if same_letter_char(c, 'q') {
            Ok(Rank::Queen)
        } else if same_letter_char(c, 'k') {
            Ok(Rank::King)
        } else if same_letter_char(c, 'a') {
            Ok(Rank::Ace)
        } else {
            Err(RankParseError::Invalid(char_text(c)))
        }
    }

    /// Parse a rank text (see `rank_of_text`); the error holds the input.
    pub fn parse(s: &str) -> (r: Result<Rank, RankParseError>)
        ensures
            rank_of_text(s@) matches Some(x) ==> r == Ok::<Rank, RankParseError>(x),
            rank_of_text(s@) is None ==> (r matches Err(RankParseError::Invalid(t)) && t@ == s@),
    {
        let (i, j) = trim_bounds(s);
        proof {
            assert(trim(s@).len() == j - i);
        }
        if j - i == 1 {
            let c = s.get_char(i);
            assert(trim(s@)[0] == c);
            match Rank::from_char(c) {
                Ok(x) => {
                    return Ok(x);
                },
                Err(_) => {},
            }
        } else if j - i == 2 && s.get_char(i) == '1' && s.get_char(i + 1) == '0' {
            assert(trim(s@)[0] == s@[i as int]);
            assert(trim(s@)[1] == s@[i + 1]);
            return Ok(Rank::Ten);
        }
        proof {
            if j - i == 2 {
                assert(trim(s@)[0] == s@[i as int]);
                assert(trim(s@)[1] == s@[i + 1]);
            }
        }
        Err(RankParseError::Invalid(s.to_owned()))
    }

    /// Display text of the rank: uppercase letter or digit (T for ten).
    pub fn to_string(&self) -> (r: String)
        ensures
            r@ == seq![self.spec_char()],
    {
        char_text(self.to_char())
    }
}

impl Suit {
    /// The suit named by one character (see `suit_of_char`).
    pub fn from_char(c: char) -> (r: Result<Suit, SuitParseError>)
        ensures
            suit_of_char(c) matches Some(x) ==> r == Ok::<Suit, SuitParseError>(x),
            suit_of_char(c) is None ==> (r matches Err(SuitParseError::Invalid(t)) && t@ == seq![c]),
    {
        if same_letter_char(c, 'c') {
            Ok(Suit::Clubs)
        } else if same_letter_char(c, 'd') {
            Ok(Suit::Diamonds)
        } else if same_letter_char(c, 'h') {
            Ok(Suit::Hearts)
        } else if same_letter_char(c, 's') {
            Ok(Suit::Spades)
        } else {
            Err(SuitParseError::Invalid(char_text(c)))
        }
    }

    /// Parse a suit text (see `suit_of_text`). A single character that is
    /// not a suit gives an error holding that character; any other failure
    /// gives an error holding the input.
    pub fn parse(s: &str) -> (r: Result<Suit, SuitParseError>)
        ensures
            suit_of_text(s@) matches Some(x) ==> r == Ok::<Suit, SuitParseError>(x),
            suit_of_text(s@) is None ==> r is Err,
    {
        let (i, j) = trim_bounds(s);
        proof {
            assert(trim(s@).len() == j - i);
        }
        if j - i == 1 {
            let c = s.get_char(i);
            assert(trim(s@)[0] == c);
            if (c as u32) < 128 {
                return Suit::from_char(c);
            }
        }
        let clubs: [char; 5] = ['c', 'l', 'u', 'b', 's'];
        let diamonds: [char; 8] = ['d', 'i', 'a', 'm', 'o', 'n', 'd', 's'];
        let hearts: [char; 6] = ['h', 'e', 'a', 'r', 't', 's'];
        let spades: [char; 6] = ['s', 'p', 'a', 'd', 'e', 's'];
        assert(clubs@ =~= seq!['c', 'l', 'u', 'b', 's']);
        assert(diamonds@ =~= seq!['d', 'i', 'a', 'm', 'o', 'n', 'd', 's']);
        assert(hearts@ =~= seq!['h', 'e', 'a', 'r', 't', 's']);
        assert(spades@ =~= seq!['s', 'p', 'a', 'd', 'e', 's']);
        if spells_word(s, i, j, &clubs) {
            Ok(Suit::Clubs)
        } else if spells_word(s, i, j, &diamonds) {
            Ok(Suit::Diamonds)
        } else if spells_word(s, i, j, &hearts) {
            Ok(Suit::Hearts)
        } else if spells_word(s, i, j, &spades) {
            Ok(Suit::Spades)
        } else {
            Err(SuitParseError::Invalid(s.to_owned()))
        }
    }

    /// Display text of the suit: lowercase letter.
    pub fn to_string(&self) -> (r: String)
        ensures
            r@ == seq![self.spec_char()],
    {
        char_text(self.to_char())
    }
}

impl Card {
    /// Parse a card text (see `card_of_text`), such as "As", "10d" or "th".
    pub fn parse(s: &str) -> (r: Result<Card, CardParseError>)
        ensures
            card_of_text(s@) matches Some(x) ==> r == Ok::<Card, CardParseError>(x),
            card_of_text(s@) is None ==> r is Err,
    {
        let (i, j) = trim_bounds(s);
        proof {
            assert(trim(s@).len() == j - i);
        }
        if j - i < 2 {
            return Err(CardParseError::Invalid(s.to_owned()));
        }
        let rank_text = s.substring_char(i, j - 1);
        proof {
            assert(rank_text@ =~= trim(s@).take(trim(s@).len() - 1));
        }
        let suit_char = s.get_char(j - 1);
        assert(suit_char == trim(s@).last());
        let rank = match Rank::parse(rank_text) {
            Ok(r) => r,
            Err(e) => {
                return Err(CardParseError::Rank(e));
            },
        };
        let suit = match Suit::from_char(suit_char) {
            Ok(u) => u,
            Err(e) => {
                return Err(CardParseError::Suit(e));
            },
        };
        Ok(Card::new(rank, suit))
    }

    /// Display text of the card: rank then suit, such as "As" or "Td".
    pub fn to_string(&self) -> (r: String)
        ensures
            r@ == seq![self.rank.spec_char(), self.suit.spec_char()],
    {
        let mut t = char_text(self.rank.to_char());
        let u = char_text(self.suit.to_char());
        t.append(u.as_str());
        t
    }
}

} // verus!

verus! {

/// Card separators in a list: white space or commas.
pub open spec fn is_separator(c: char) -> bool {
    is_space(c) || c == ','
}

/// The maximal runs of non-separator characters of `s`, in order.
pub open spec fn split_tokens(s: Seq<char>) -> Seq<Seq<char>>
    decreases s.len(),
{
    if s.len() == 0 {
        Seq::empty()
    } else {
        let rest = split_tokens(s.drop_last());
        if is_separator(s.last()) {
            rest
        } else if s.len() >= 2 && !is_separator(s[s.len() - 2]) {
            rest.drop_last().push(rest.last().push(s.last()))
        } else {
            rest.push(seq![s.last()])
        }
    }
}

/// Parse a list of cards separated by white space or commas; the first
/// token that is not a card makes the whole list fail with its error.
pub fn parse_cards(input: &str) -> (r: Result<Vec<Card>, CardParseError>)
    ensures
        r is Ok <==> forall|k: int|
            0 <= k < split_tokens(input@).len() ==> (#[trigger] card_of_text(split_tokens(input@)[k])) is Some,
        r matches Ok(v) ==> v@.len() == split_tokens(input@).len() && forall|k: int|
            0 <= k < v@.len() ==> Some(#[trigger] v@[k]) == card_of_text(split_tokens(input@)[k]),
{
    let n = input.unicode_len();
    let mut cards: Vec<Card> = Vec::new();
    let mut first_err: Option<CardParseError> = None;
    let mut start: usize = 0;
    let mut in_token = false;
    let mut i: usize = 0;
    let ghost mut done: Seq<Seq<char>> = Seq::empty();
    assert(input@.take(0) =~= Seq::<char>::empty());
    let mut finished = false;
    while !finished
        invariant
            i <= n,
            n == input@.len(),
            start <= i,
            !finished ==> (in_token ==> start < i),
            !finished ==> (in_token ==> forall|k: int| start <= k < i ==> !is_separator(#[trigger] input@[k])),
            !finished ==> (in_token ==> (start == 0 || is_separator(input@[start - 1]))),
            !finished ==> (!in_token ==> (i == 0 || is_separator(input@[i - 1]))),
            !finished ==> split_tokens(input@.take(i as int)) == if in_token {
                done.push(input@.subrange(start as int, i as int))
            } else {
                done
            },
            finished ==> split_tokens(input@) == done,
            first_err is None <==> forall|k: int| 0 <= k < done.len() ==> (#[trigger] card_of_text(done[k])) is Some,
            first_err is None ==> cards@.len() == done.len(),
            first_err is None ==> forall|k: int| 0 <= k < done.len() ==> Some(#[trigger] cards@[k]) == card_of_text(done[k]),
        decreases n - i + if finished {
            0int
        } else {
            1int
        },
    {
        let at_end = i == n;
        let sep = if at_end {
            true
        } else {
            let c = input.get_char(i);
            is_space_char(c) || c == ','
        };
        if sep {
            if in_token {
                let tok = input.substring_char(start, i);
                let ghost before = done;
                match Card::parse(tok) {
                    Ok(card) => {
                        assert(card_of_text(tok@) == Some(card));
                        if first_err.is_none() {
                            cards.push(card);
                        }
                    },
                    Err(e) => {
                        assert(card_of_text(tok@) is None);
                        if first_err.is_none() {
                            first_err = Some(e);
                        }
                    },
                }
                proof {
                    done = done.push(tok@);
                    if first_err is Some && before.len() < done.len() {
                        if card_of_text(tok@) is None {
                            assert(card_of_text(done[before.len() as int]) is None);
                        }
                    }
                    assert(done.drop_last() =~= before);
                    assert forall|k: int| 0 <= k < before.len() implies done[k] == before[k] by {}
                }
                in_token = false;
            }
            proof {
                if !at_end {
                    let pre = input@.take(i as int);
                    let now = input@.take(i as int + 1);
                    assert(now.drop_last() =~= pre);
                    assert(now.last() == input@[i as int]);
                } else {
                    assert(input@.take(n as int) =~= input@);
                }
            }
        } else {
            let c = input.get_char(i);
            proof {
                let pre = input@.take(i as int);
                let now = input@.take(i as int + 1);
                assert(now.drop_last() =~= pre);
                assert(now.last() == c);
                if i >= 1 {
                    assert(now[now.len() - 2] == input@[i - 1]);
                }
            }
            if !in_token {
                start = i;
                in_token = true;
                proof {
                    assert(input@.subrange(start as int, i as int + 1) =~= seq![c]);
                }
            } else {
                proof {
                    assert(input@.subrange(start as int, i as int + 1) =~= input@.subrange(
                        start as int,
                        i as int,
                    ).push(c));
                }
            }
        }
        if at_end {
            finished = true;
        } else {
            i = i + 1;
        }
    }
    match first_err {
        Some(e) => Err(e),
        None => Ok(cards),
    }
}

impl std::str::FromStr for Rank {
    type Err = RankParseError;

    fn from_str(s: &str) -> Result<Rank, RankParseError> {
        Rank::parse(s)
    }
}

impl std::str::FromStr for Suit {
    type Err = SuitParseError;

    fn from_str(s: &str) -> Result<Suit, SuitParseError> {
        Suit::parse(s)
    }
}

impl std::str::FromStr for Card {
    type Err = CardParseError;

    fn from_str(s: &str) -> Result<Card, CardParseError> {
        Card::parse(s)
    }
}

} // verus!
