use vstd::prelude::*;
use crate::cards::{rank_of_value, Card, Rank, Suit};
use crate::evaluator::hand_analysis::suit_of_index;
use crate::hand::all_distinct;
use rand::seq::SliceRandom;
use rand::SeedableRng;
use rand_chacha::ChaCha8Rng;

verus! {

/// The order in which a seeded shuffle leaves `cards`.
pub uninterp spec fn seeded_order(cards: Seq<Card>, seed: u64) -> Seq<Card>;

/// Relies on rand_chacha's `ChaCha8Rng::seed_from_u64` and rand's
/// `SliceRandom::shuffle`: the generator is a fixed function of the seed and
/// the shuffle permutes the slice in place by swaps, so the result depends on
/// the cards and the seed alone and holds the same cards.
#[verifier::external_body]
fn shuffle_cards_seeded(cards: &mut Vec<Card>, seed: u64)
    ensures
        final(cards)@ == seeded_order(old(cards)@, seed),
        final(cards)@.to_multiset() == old(cards)@.to_multiset(),
{
    let mut rng = ChaCha8Rng::seed_from_u64(seed);
    cards.shuffle(&mut rng);
}

/// The 52 cards in standard order: suits Clubs..Spades, each Two..Ace.
pub open spec fn standard_cards() -> Seq<Card> {
    Seq::new(52, |i: int| Card { rank: rank_of_value(i % 13 + 2), suit: suit_of_index(i / 13) })
}

/// A deck of cards; the top of the deck is the end of the sequence.
#[derive(Debug, Clone)]
pub struct Deck {
    cards: Vec<Card>,
}

impl View for Deck {
    type V = Seq<Card>;

    closed spec fn view(&self) -> Seq<Card> {
        self.cards@
    }
}

impl Deck {
    /// The standard 52-card deck, in standard order.
    pub fn standard() -> (r: Self)
        ensures
            r@ == standard_cards(),
            r@.len() == 52,
    {
        let suits: [Suit; 4] = [Suit::Clubs, Suit::Diamonds, Suit::Hearts, Suit::Spades];
        let mut cards: Vec<Card> = Vec::new();
        let mut s: usize = 0;
        while s < 4
            invariant
                s <= 4,
                suits@ == seq![Suit::Clubs, Suit::Diamonds, Suit::Hearts, Suit::Spades],
                cards@ == standard_cards().take(13 * s as int),
            decreases 4 - s,
        {
            let mut r: u8 = 2;
            while r <= 14
                invariant
                    s < 4,
                    2 <= r <= 15,
                    suits@ == seq![Suit::Clubs, Suit::Diamonds, Suit::Hearts, Suit::Spades],
                    cards@ == standard_cards().take(13 * s as int + r as int - 2),
                decreases 15 - r,
            {
                let c = Card::new(Rank::from_value(r), suits[s]);
                proof {
                    let i = 13 * s as int + r as int - 2;
                    assert(i % 13 + 2 == r as int);
                    assert(i / 13 == s as int);
                    assert(standard_cards()[i] == c);
                }
                cards.push(c);
                r = r + 1;
                assert(cards@ =~= standard_cards().take(13 * s as int + r as int - 2));
            }
            s = s + 1;
        }
        Deck { cards }
    }

    pub fn len(&self) -> (r: usize)
        ensures
            r == self@.len(),
    {
        self.cards.len()
    }

    pub fn is_empty(&self) -> (r: bool)
        ensures
            r == (self@.len() == 0),
    {
        self.cards.len() == 0
    }

    /// Shuffle with a generator seeded by `seed`: the same seed and cards
    /// always give the same order.
    pub fn shuffle_seeded(&mut self, seed: u64)
        ensures
            final(self)@ == seeded_order(old(self)@, seed),
            final(self)@.to_multiset() == old(self)@.to_multiset(),
            final(self)@.len() == old(self)@.len(),
    {
        let ghost before = self@;
        shuffle_cards_seeded(&mut self.cards, seed);
        proof {
            vstd::seq_lib::to_multiset_len(before);
            vstd::seq_lib::to_multiset_len(self@);
        }
    }

    /// Draw one card from the top of the deck.
    pub fn draw(&mut self) -> (r: Option<Card>)
        ensures
            old(self)@.len() == 0 ==> r is None && final(self)@ == old(self)@,
            old(self)@.len() > 0 ==> r == Some(old(self)@.last()) && final(self)@
                == old(self)@.drop_last(),
    {
        self.cards.pop()
    }

    /// Draw `n` cards from the top of the deck (fewer if the deck runs out),
    /// in the order drawn.
    pub fn draw_n(&mut self, n: usize) -> (r: Vec<Card>)
        ensures
            r@.len() == if n <= old(self)@.len() {
                n as int
            } else {
                old(self)@.len() as int
            },
            final(self)@ == old(self)@.take(old(self)@.len() - r@.len()),
            forall|i: int|
                0 <= i < r@.len() ==> #[trigger] r@[i] == old(self)@[old(self)@.len() - 1 - i],
    {
        let mut out: Vec<Card> = Vec::new();
        let mut i: usize = 0;
        while i < n
            invariant
                i <= n,
                out@.len() <= i,
                out@.len() < i ==> self@.len() == 0,
                out@.len() <= old(self)@.len(),
                self@ == old(self)@.take(old(self)@.len() - out@.len()),
                forall|k: int|
                    0 <= k < out@.len() ==> #[trigger] out@[k] == old(self)@[old(self)@.len() - 1
                        - k],
            decreases n - i,
        {
            match self.draw() {
                Some(c) => {
                    out.push(c);
                },
                None => {},
            }
            i = i + 1;
        }
        out
    }
}

} // verus!

verus! {

impl Deck {
    /// A deck holding `cards`, bottom first.
    pub fn from_cards(cards: Vec<Card>) -> (r: Self)
        ensures
            r@ == cards@,
    {
        Deck { cards }
    }

    /// The cards, bottom first (the top of the deck is the last one).
    pub fn cards(&self) -> (r: &[Card])
        ensures
            r@ == self@,
    {
        self.cards.as_slice()
    }
}

} // verus!

verus! {

/// The standard deck holds no card twice.
pub proof fn lemma_standard_distinct()
    ensures
        all_distinct(standard_cards()),
{
    assert forall|i: int, j: int| 0 <= i < j < 52 implies standard_cards()[i] != standard_cards()[j] by {
        vstd::arithmetic::div_mod::lemma_fundamental_div_mod(i, 13);
        vstd::arithmetic::div_mod::lemma_fundamental_div_mod(j, 13);
        vstd::arithmetic::div_mod::lemma_mod_bound(i, 13);
        vstd::arithmetic::div_mod::lemma_mod_bound(j, 13);
        let a = standard_cards()[i];
        let b = standard_cards()[j];
        assert(a.rank.spec_value() == i % 13 + 2);
        assert(b.rank.spec_value() == j % 13 + 2);
        assert(a.suit.spec_index() == i / 13) by {
            assert(0 <= i / 13 < 4) by (nonlinear_arith)
                requires
                    0 <= i < 52,
            ;
        }
        assert(b.suit.spec_index() == j / 13) by {
            assert(0 <= j / 13 < 4) by (nonlinear_arith)
                requires
                    0 <= j < 52,
            ;
        }
    }
}

/// A rearrangement of a sequence without repeats has no repeats.
pub proof fn lemma_permutation_distinct(s: Seq<Card>, t: Seq<Card>)
    requires
        all_distinct(s),
        s.to_multiset() == t.to_multiset(),
    ensures
        all_distinct(t),
{
    assert(s.no_duplicates()) by {
        assert forall|i: int, j: int| 0 <= i < s.len() && 0 <= j < s.len() && i != j implies s[i] != s[j] by {
            if i < j {
            } else {
            }
        }
    }
    s.lemma_multiset_has_no_duplicates();
    t.lemma_multiset_has_no_duplicates_conv();
}

} // verus!
