use vstd::prelude::*;
use crate::cards::Rank;
use crate::evaluator::hand_analysis::HandAnalysis;
use crate::evaluator::rank_groups::{first_of_size, ranks_of_size};
use crate::evaluator::{pack, Category, Evaluation};

verus! {

/// `s[i]`, or Two when `s` is shorter.
pub open spec fn nth_or_two(s: Seq<Rank>, i: int) -> Rank {
    if 0 <= i < s.len() {
        s[i]
    } else {
        Rank::Two
    }
}

/// The rank held, or Two.
pub open spec fn or_two(r: Option<Rank>) -> Rank {
    match r {
        Some(x) => x,
        None => Rank::Two,
    }
}

/// Category of a hand from its rank groups, flush flag and straight top,
/// checked from the strongest category down.
pub open spec fn category_from(g: Seq<(Rank, u8)>, flush: bool, top: Option<Rank>) -> Category {
    if flush && top is Some {
        Category::StraightFlush
    } else if first_of_size(g, 4) is Some {
        Category::FourOfAKind
    } else if first_of_size(g, 3) is Some && first_of_size(g, 2) is Some {
        Category::FullHouse
    } else if flush {
        Category::Flush
    } else if top is Some {
        Category::Straight
    } else if first_of_size(g, 3) is Some {
        Category::ThreeOfAKind
    } else if ranks_of_size(g, 2).len() == 2 {
        Category::TwoPair
    } else if ranks_of_size(g, 2).len() == 1 {
        Category::Pair
    } else {
        Category::HighCard
    }
}

/// The five tiebreak ranks of a category; unused slots hold Two.
/// `ranks` are the hand's ranks from highest to lowest.
pub open spec fn tiebreak_from(
    cat: Category,
    ranks: Seq<Rank>,
    g: Seq<(Rank, u8)>,
    top: Option<Rank>,
) -> Seq<Rank> {
    let two = Rank::Two;
    let k = ranks_of_size(g, 1);
    let p = ranks_of_size(g, 2);
    match cat {
        Category::StraightFlush => seq![or_two(top), two, two, two, two],
        Category::FourOfAKind => seq![or_two(first_of_size(g, 4)), nth_or_two(k, 0), two, two, two],
        Category::FullHouse => seq![or_two(first_of_size(g, 3)), nth_or_two(p, 0), two, two, two],
        Category::Flush => ranks,
        Category::Straight => seq![or_two(top), two, two, two, two],
        Category::ThreeOfAKind => seq![
            or_two(first_of_size(g, 3)),
            nth_or_two(k, 0),
            nth_or_two(k, 1),
            two,
            two,
        ],
        Category::TwoPair => seq![nth_or_two(p, 0), nth_or_two(p, 1), nth_or_two(k, 0), two, two],
        Category::Pair => seq![
            nth_or_two(p, 0),
            nth_or_two(k, 0),
            nth_or_two(k, 1),
            nth_or_two(k, 2),
            two,
        ],
        Category::HighCard => ranks,
    }
}

/// The evaluation a detector builds for an analysis.
pub open spec fn builds(a: &HandAnalysis, cat: Category, r: Evaluation) -> bool {
    &&& r.category == cat
    &&& r.best_five == a.sorted_cards
    &&& r.strength() == pack(
        cat,
        tiebreak_from(cat, a.ranks@, a.rank_groups@, a.straight_info.top_rank),
    )
}

fn nth_or_two_exec(s: &Vec<Rank>, i: usize) -> (r: Rank)
    ensures
        r == nth_or_two(s@, i as int),
{
    if i < s.len() {
        s[i]
    } else {
        Rank::Two
    }
}

/// Each category detector knows how to detect its category and build its evaluation.
pub trait CategoryDetector {
    spec fn spec_detect(&self, a: &HandAnalysis) -> bool;

    spec fn spec_category(&self) -> Category;

    fn detect(&self, a: &HandAnalysis) -> (r: bool)
        ensures
            r == self.spec_detect(a),
    ;

    fn build_evaluation(&self, a: &HandAnalysis) -> (r: Evaluation)
        requires
            self.spec_detect(a),
        ensures
            builds(a, self.spec_category(), r),
    ;
}

/// Straight Flush: five consecutive ranks, all same suit.
pub struct StraightFlushDetector;

impl CategoryDetector for StraightFlushDetector {
    open spec fn spec_detect(&self, a: &HandAnalysis) -> bool {
        a.suit_info.is_flush && a.straight_info.is_straight
    }

    open spec fn spec_category(&self) -> Category {
        Category::StraightFlush
    }

    fn detect(&self, a: &HandAnalysis) -> (r: bool) {
        a.suit_info.is_flush && a.straight_info.is_straight
    }

    fn build_evaluation(&self, a: &HandAnalysis) -> (r: Evaluation) {
        let top = match a.straight_info.top_rank {
            Some(t) => t,
            None => Rank::Two,
        };
        let tiebreak = [top, Rank::Two, Rank::Two, Rank::Two, Rank::Two];
        proof {
            assert(tiebreak@ =~= tiebreak_from(
                Category::StraightFlush,
                a.ranks@,
                a.rank_groups@,
                a.straight_info.top_rank,
            ));
        }
        a.build_evaluation(Category::StraightFlush, tiebreak)
    }
}

/// Four of a Kind: four cards of the same rank.
pub struct FourOfAKindDetector;

impl CategoryDetector for FourOfAKindDetector {
    open spec fn spec_detect(&self, a: &HandAnalysis) -> bool {
        first_of_size(a.rank_groups@, 4) is Some
    }

    open spec fn spec_category(&self) -> Category {
        Category::FourOfAKind
    }

    fn detect(&self, a: &HandAnalysis) -> (r: bool) {
        a.rank_groups.quad().is_some()
    }

    fn build_evaluation(&self, a: &HandAnalysis) -> (r: Evaluation) {
        let quad_rank = match a.rank_groups.quad() {
            Some(q) => q,
            None => Rank::Two,
        };
        let kickers = a.rank_groups.kickers();
        let kicker = nth_or_two_exec(&kickers, 0);
        let tiebreak = [quad_rank, kicker, Rank::Two, Rank::Two, Rank::Two];
        proof {
            assert(tiebreak@ =~= tiebreak_from(
                Category::FourOfAKind,
                a.ranks@,
                a.rank_groups@,
                a.straight_info.top_rank,
            ));
        }
        a.build_evaluation(Category::FourOfAKind, tiebreak)
    }
}

/// Full House: three of a kind plus a pair.
pub struct FullHouseDetector;

impl CategoryDetector for FullHouseDetector {
    open spec fn spec_detect(&self, a: &HandAnalysis) -> bool {
        first_of_size(a.rank_groups@, 3) is Some && first_of_size(a.rank_groups@, 2) is Some
    }

    open spec fn spec_category(&self) -> Category {
        Category::FullHouse
    }

    fn detect(&self, a: &HandAnalysis) -> (r: bool) {
        a.rank_groups.has_full_house()
    }

    fn build_evaluation(&self, a: &HandAnalysis) -> (r: Evaluation) {
        let trips = match a.rank_groups.trips() {
            Some(t) => t,
            None => Rank::Two,
        };
        let pairs = a.rank_groups.pairs();
        let pair = nth_or_two_exec(&pairs, 0);
        let tiebreak = [trips, pair, Rank::Two, Rank::Two, Rank::Two];
        proof {
            assert(tiebreak@ =~= tiebreak_from(
                Category::FullHouse,
                a.ranks@,
                a.rank_groups@,
                a.straight_info.top_rank,
            ));
        }
        a.build_evaluation(Category::FullHouse, tiebreak)
    }
}

/// Flush: all five cards of the same suit.
pub struct FlushDetector;

impl CategoryDetector for FlushDetector {
    open spec fn spec_detect(&self, a: &HandAnalysis) -> bool {
        a.suit_info.is_flush
    }

    open spec fn spec_category(&self) -> Category {
        Category::Flush
    }

    fn detect(&self, a: &HandAnalysis) -> (r: bool) {
        a.suit_info.is_flush
    }

    fn build_evaluation(&self, a: &HandAnalysis) -> (r: Evaluation) {
        let tiebreak = a.ranks;
        a.build_evaluation(Category::Flush, tiebreak)
    }
}

/// Straight: five consecutive ranks (not all same suit).
pub struct StraightDetector;

impl CategoryDetector for StraightDetector {
    open spec fn spec_detect(&self, a: &HandAnalysis) -> bool {
        a.straight_info.is_straight
    }

    open spec fn spec_category(&self) -> Category {
        Category::Straight
    }

    fn detect(&self, a: &HandAnalysis) -> (r: bool) {
        a.straight_info.is_straight
    }

    fn build_evaluation(&self, a: &HandAnalysis) -> (r: Evaluation) {
        let top = match a.straight_info.top_rank {
            Some(t) => t,
            None => Rank::Two,
        };
        let tiebreak = [top, Rank::Two, Rank::Two, Rank::Two, Rank::Two];
        proof {
            assert(tiebreak@ =~= tiebreak_from(
                Category::Straight,
                a.ranks@,
                a.rank_groups@,
                a.straight_info.top_rank,
            ));
        }
        a.build_evaluation(Category::Straight, tiebreak)
    }
}

/// Three of a Kind: three cards of the same rank.
pub struct ThreeOfAKindDetector;

impl CategoryDetector for ThreeOfAKindDetector {
    open spec fn spec_detect(&self, a: &HandAnalysis) -> bool {
        first_of_size(a.rank_groups@, 3) is Some && !(first_of_size(a.rank_groups@, 3) is Some
            && first_of_size(a.rank_groups@, 2) is Some)
    }

    open spec fn spec_category(&self) -> Category {
        Category::ThreeOfAKind
    }

    fn detect(&self, a: &HandAnalysis) -> (r: bool) {
        a.rank_groups.trips().is_some() && !a.rank_groups.has_full_house()
    }

    fn build_evaluation(&self, a: &HandAnalysis) -> (r: Evaluation) {
        let trips = match a.rank_groups.trips() {
            Some(t) => t,
            None => Rank::Two,
        };
        let kickers = a.rank_groups.kickers();
        let k0 = nth_or_two_exec(&kickers, 0);
        let k1 = nth_or_two_exec(&kickers, 1);
        let tiebreak = [trips, k0, k1, Rank::Two, Rank::Two];
        proof {
            assert(tiebreak@ =~= tiebreak_from(
                Category::ThreeOfAKind,
                a.ranks@,
                a.rank_groups@,
                a.straight_info.top_rank,
            ));
        }
        a.build_evaluation(Category::ThreeOfAKind, tiebreak)
    }
}

/// Two Pair: two pairs of cards.
pub struct TwoPairDetector;

impl CategoryDetector for TwoPairDetector {
    open spec fn spec_detect(&self, a: &HandAnalysis) -> bool {
        ranks_of_size(a.rank_groups@, 2).len() == 2
    }

    open spec fn spec_category(&self) -> Category {
        Category::TwoPair
    }

    fn detect(&self, a: &HandAnalysis) -> (r: bool) {
        a.rank_groups.pairs().len() == 2
    }

    fn build_evaluation(&self, a: &HandAnalysis) -> (r: Evaluation) {
        let pairs = a.rank_groups.pairs();
        let kickers = a.rank_groups.kickers();
        let p0 = nth_or_two_exec(&pairs, 0);
        let p1 = nth_or_two_exec(&pairs, 1);
        let k0 = nth_or_two_exec(&kickers, 0);
        let tiebreak = [p0, p1, k0, Rank::Two, Rank::Two];
        proof {
            assert(tiebreak@ =~= tiebreak_from(
                Category::TwoPair,
                a.ranks@,
                a.rank_groups@,
                a.straight_info.top_rank,
            ));
        }
        a.build_evaluation(Category::TwoPair, tiebreak)
    }
}

/// One Pair: two cards of the same rank.
pub struct OnePairDetector;

impl CategoryDetector for OnePairDetector {
    open spec fn spec_detect(&self, a: &HandAnalysis) -> bool {
        ranks_of_size(a.rank_groups@, 2).len() == 1
    }

    open spec fn spec_category(&self) -> Category {
        Category::Pair
    }

    fn detect(&self, a: &HandAnalysis) -> (r: bool) {
        a.rank_groups.pairs().len() == 1
    }

    fn build_evaluation(&self, a: &HandAnalysis) -> (r: Evaluation) {
        let pairs = a.rank_groups.pairs();
        let kickers = a.rank_groups.kickers();
        let p0 = nth_or_two_exec(&pairs, 0);
        let k0 = nth_or_two_exec(&kickers, 0);
        let k1 = nth_or_two_exec(&kickers, 1);
        let k2 = nth_or_two_exec(&kickers, 2);
        let tiebreak = [p0, k0, k1, k2, Rank::Two];
        proof {
            assert(tiebreak@ =~= tiebreak_from(
                Category::Pair,
                a.ranks@,
                a.rank_groups@,
                a.straight_info.top_rank,
            ));
        }
        a.build_evaluation(Category::Pair, tiebreak)
    }
}

/// High Card: the fallback that always matches.
pub struct HighCardDetector;

impl CategoryDetector for HighCardDetector {
    open spec fn spec_detect(&self, a: &HandAnalysis) -> bool {
        true
    }

    open spec fn spec_category(&self) -> Category {
        Category::HighCard
    }

    fn detect(&self, a: &HandAnalysis) -> (r: bool) {
        true
    }

    fn build_evaluation(&self, a: &HandAnalysis) -> (r: Evaluation) {
        let tiebreak = a.ranks;
        a.build_evaluation(Category::HighCard, tiebreak)
    }
}

} // verus!
