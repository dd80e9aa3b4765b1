use vstd::prelude::*;
use crate::cards::{rank_of_value, Card, Rank, Suit};
use crate::evaluator::rank_groups::{rank_groups_of, RankGroups};
use crate::evaluator::sorting::{
    lemma_sort_desc_bounds,
    lemma_sort_desc_sorted_permutation,
    sort_desc,
    sort_desc_vec,
};
use crate::evaluator::straight_info::{rank_values, straight_top, StraightInfo};
use crate::evaluator::suit_info::{same_suit, SuitInfo};
use crate::evaluator::{pack, Category, Evaluation, HandValue};

verus! {

/// The suit at position `i` of the fixed suit order.
pub open spec fn suit_of_index(i: int) -> Suit {
    if i <= 0 {
        Suit::Clubs
    } else if i == 1 {
        Suit::Diamonds
    } else if i == 2 {
        Suit::Hearts
    } else {
        Suit::Spades
    }
}

/// The card whose sort key is `k`.
pub open spec fn card_of_key(k: u8) -> Card {
    Card { rank: rank_of_value(k as int / 4), suit: suit_of_index(k as int % 4) }
}

/// Sort keys of a sequence of cards.
pub open spec fn card_keys(s: Seq<Card>) -> Seq<u8> {
    s.map_values(|c: Card| c.key() as u8)
}

/// The cards of a hand from highest to lowest (rank first, suit second).
pub open spec fn hand_sorted(cards: Seq<Card>) -> Seq<Card> {
    sort_desc(card_keys(cards)).map_values(|k: u8| card_of_key(k))
}

/// Ranks of the sorted hand.
pub open spec fn hand_ranks(cards: Seq<Card>) -> Seq<Rank> {
    hand_sorted(cards).map_values(|c: Card| c.rank)
}

/// Number of entries of `rs` whose value is `v`.
pub open spec fn rank_count_in(rs: Seq<Rank>, v: int) -> int
    decreases rs.len(),
{
    if rs.len() == 0 {
        0
    } else {
        rank_count_in(rs.drop_last(), v) + if rs.last().spec_value() == v {
            1int
        } else {
            0int
        }
    }
}

/// Count per rank value (index 0..15) of a sequence of ranks.
pub open spec fn count_table(rs: Seq<Rank>) -> Seq<u8> {
    Seq::new(15, |v: int| rank_count_in(rs, v) as u8)
}

proof fn lemma_rank_count_bound(rs: Seq<Rank>, v: int)
    ensures
        0 <= rank_count_in(rs, v) <= rs.len(),
    decreases rs.len(),
{
    if rs.len() > 0 {
        lemma_rank_count_bound(rs.drop_last(), v);
    }
}

fn card_from_key(k: u8) -> (r: Card)
    requires
        8 <= k <= 59,
    ensures
        r == card_of_key(k),
{
    let suit = match k % 4 {
        0 => Suit::Clubs,
        1 => Suit::Diamonds,
        2 => Suit::Hearts,
        _ => Suit::Spades,
    };
    Card::new(Rank::from_value(k / 4), suit)
}

/// Pre-computed analysis of a 5-card hand, shared by all category detectors.
#[derive(Debug, Clone)]
pub struct HandAnalysis {
    pub sorted_cards: [Card; 5],
    pub ranks: [Rank; 5],
    pub rank_counts: [u8; 15],
    pub rank_groups: RankGroups,
    pub suit_info: SuitInfo,
    pub straight_info: StraightInfo,
}

impl HandAnalysis {
    /// This analysis is the one of `cards`.
    pub open spec fn describes(&self, cards: Seq<Card>) -> bool {
        &&& self.sorted_cards@ == hand_sorted(cards)
        &&& self.ranks@ == hand_ranks(cards)
        &&& self.rank_counts@ == count_table(hand_ranks(cards))
        &&& self.rank_groups@ == rank_groups_of(self.rank_counts@)
        &&& self.suit_info.is_flush == same_suit(hand_sorted(cards))
        &&& self.straight_info.top_rank == straight_top(sort_desc(rank_values(hand_ranks(cards))))
        &&& self.straight_info.is_straight == self.straight_info.top_rank is Some
    }

    /// Analyze a 5-card hand: sort it, count ranks, group them, detect
    /// flush and straight.
    pub fn new(cards: &[Card; 5]) -> (r: Self)
        ensures
            r.describes(cards@),
    {
        let keys: [u8; 5] = [
            cards[0].sort_key(),
            cards[1].sort_key(),
            cards[2].sort_key(),
            cards[3].sort_key(),
            cards[4].sort_key(),
        ];
        assert(keys@ =~= card_keys(cards@));
        let sk = sort_desc_vec(&keys);
        proof {
            lemma_sort_desc_sorted_permutation(keys@);
            lemma_sort_desc_bounds(keys@, 8, 59);
        }
        let sorted_cards: [Card; 5] = [
            card_from_key(sk[0]),
            card_from_key(sk[1]),
            card_from_key(sk[2]),
            card_from_key(sk[3]),
            card_from_key(sk[4]),
        ];
        assert(sorted_cards@ =~= hand_sorted(cards@));
        let ranks: [Rank; 5] = [
            sorted_cards[0].rank(),
            sorted_cards[1].rank(),
            sorted_cards[2].rank(),
            sorted_cards[3].rank(),
            sorted_cards[4].rank(),
        ];
        assert(ranks@ =~= hand_ranks(cards@));
        let mut rank_counts: [u8; 15] = [0u8; 15];
        let mut i: usize = 0;
        assert(rank_counts@ =~= count_table(ranks@.take(0)));
        while i < 5
            invariant
                i <= 5,
                rank_counts@ == count_table(ranks@.take(i as int)),
            decreases 5 - i,
        {
            let v = ranks[i].value() as usize;
            proof {
                lemma_rank_count_bound(ranks@.take(i as int), v as int);
                assert(ranks@.take(i as int + 1).drop_last() =~= ranks@.take(i as int));
            }
            rank_counts[v] = rank_counts[v] + 1;
            i = i + 1;
            proof {
                assert forall|w: int| 0 <= w < 15 implies rank_counts@[w] == #[trigger] count_table(
                    ranks@.take(i as int),
                )[w] by {
                    lemma_rank_count_bound(ranks@.take(i as int - 1), w);
                }
                assert(rank_counts@ =~= count_table(ranks@.take(i as int)));
            }
        }
        assert(ranks@.take(5) =~= ranks@);
        let rank_groups = RankGroups::from_counts(&rank_counts);
        let suit_info = SuitInfo::detect(&sorted_cards);
        let straight_info = StraightInfo::detect(&ranks);
        HandAnalysis { sorted_cards, ranks, rank_counts, rank_groups, suit_info, straight_info }
    }

    /// Build an Evaluation from a category and tiebreak ranks.
    pub fn build_evaluation(&self, category: Category, tiebreak: [Rank; 5]) -> (r: Evaluation)
        ensures
            r.category == category,
            r.best_five == self.sorted_cards,
            r.strength() == pack(category, tiebreak@),
    {
        let value = HandValue::from_parts(category, &tiebreak);
        Evaluation { category, best_five: self.sorted_cards, value }
    }
}

} // verus!
