use vstd::prelude::*;
use crate::cards::{rank_of_value, Rank};
use crate::evaluator::sorting::{sort_desc, sort_desc_vec, lemma_sort_desc_sorted_permutation, lemma_sort_desc_bounds};

verus! {

/// Numeric values of a sequence of ranks.
pub open spec fn rank_values(r: Seq<Rank>) -> Seq<u8> {
    r.map_values(|x: Rank| x.spec_value() as u8)
}

/// Top rank of the straight formed by five values sorted high to low:
/// five consecutive values, or the wheel A-5-4-3-2 whose top is Five.
pub open spec fn straight_top(s: Seq<u8>) -> Option<Rank> {
    if s[0] == s[1] + 1 && s[1] == s[2] + 1 && s[2] == s[3] + 1 && s[3] == s[4] + 1 {
        Some(rank_of_value(s[0] as int))
    } else if s[0] == 14 && s[1] == 5 && s[2] == 4 && s[3] == 3 && s[4] == 2 {
        Some(Rank::Five)
    } else {
        None
    }
}

/// Whether a hand contains a straight and its top rank.
#[derive(Debug, Clone, Copy, PartialEq, Eq)]
pub struct StraightInfo {
    pub is_straight: bool,
    pub top_rank: Option<Rank>,
}

impl StraightInfo {
    /// Detect a straight from five ranks in any order, the wheel included.
    pub fn detect(ranks: &[Rank; 5]) -> (r: Self)
        ensures
            r.top_rank == straight_top(sort_desc(rank_values(ranks@))),
            r.is_straight == r.top_rank is Some,
    {
        let values: [u8; 5] = [
            ranks[0].value(),
            ranks[1].value(),
            ranks[2].value(),
            ranks[3].value(),
            ranks[4].value(),
        ];
        assert(values@ =~= rank_values(ranks@));
        let s = sort_desc_vec(&values);
        proof {
            lemma_sort_desc_sorted_permutation(values@);
            lemma_sort_desc_bounds(values@, 2, 14);
        }
        if s[0] == s[1] + 1 && s[1] == s[2] + 1 && s[2] == s[3] + 1 && s[3] == s[4] + 1 {
            return StraightInfo { is_straight: true, top_rank: Some(Rank::from_value(s[0])) };
        }
        if s[0] == 14 && s[1] == 5 && s[2] == 4 && s[3] == 3 && s[4] == 2 {
            return StraightInfo { is_straight: true, top_rank: Some(Rank::Five) };
        }
        StraightInfo { is_straight: false, top_rank: None }
    }
}

} // verus!
