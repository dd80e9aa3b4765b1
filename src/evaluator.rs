use vstd::prelude::*;
use crate::cards::{Card, Rank};
use crate::evaluator::detector::{
    category_from,
    tiebreak_from,
    CategoryDetector,
    FlushDetector,
    FourOfAKindDetector,
    FullHouseDetector,
    HighCardDetector,
    OnePairDetector,
    StraightDetector,
    StraightFlushDetector,
    ThreeOfAKindDetector,
    TwoPairDetector,
};
use crate::evaluator::hand_analysis::{card_keys, count_table, hand_ranks, hand_sorted, HandAnalysis};
use crate::evaluator::rank_groups::rank_groups_of;
use crate::evaluator::sorting::sort_desc;
use crate::evaluator::straight_info::{rank_values, straight_top};
use crate::evaluator::suit_info::same_suit;
use crate::hand::{holdem_error, validate_holdem, Board, HandError, HoleCards};
use std::cmp::Ordering;

pub mod combinations;
pub mod detector;
pub mod hand_analysis;
pub mod rank_groups;
pub mod sorting;
pub mod straight_info;
pub mod suit_info;

verus! {

/// Poker hand category from weakest to strongest.
#[derive(Debug, Clone, Copy, PartialEq, Eq, Structural, PartialOrd, Ord, Hash)]
#[non_exhaustive]
pub enum Category {
    HighCard,
    Pair,
    TwoPair,
    ThreeOfAKind,
    Straight,
    Flush,
    FullHouse,
    FourOfAKind,
    StraightFlush,
}

impl Category {
    pub open spec fn spec_ordinal(self) -> int {
        match self {
            Category::HighCard => 0,
            Category::Pair => 1,
            Category::TwoPair => 2,
            Category::ThreeOfAKind => 3,
            Category::Straight => 4,
            Category::Flush => 5,
            Category::FullHouse => 6,
            Category::FourOfAKind => 7,
            Category::StraightFlush => 8,
        }
    }

    pub fn ordinal(self) -> (r: u8)
        ensures
            r as int == self.spec_ordinal(),
    {
        match self {
            Category::HighCard => 0,
            Category::Pair => 1,
            Category::TwoPair => 2,
            Category::ThreeOfAKind => 3,
            Category::Straight => 4,
            Category::Flush => 5,
            Category::FullHouse => 6,
            Category::FourOfAKind => 7,
            Category::StraightFlush => 8,
        }
    }
}

/// Weight of the category in a packed value (the category fills the high byte).
pub const CATEGORY_UNIT: u64 = 0x1_0000_0000_0000;

/// Weights of the five tiebreak ranks, six bits each, most significant first.
pub const RANK_UNIT_0: u64 = 0x400_0000_0000;
pub const RANK_UNIT_1: u64 = 0x10_0000_0000;
pub const RANK_UNIT_2: u64 = 0x4000_0000;
pub const RANK_UNIT_3: u64 = 0x100_0000;
pub const RANK_UNIT_4: u64 = 0x4_0000;

/// Packed value of a category and five tiebreak ranks: the category in the
/// high byte, then each rank in six bits, `t[0]` most significant.
pub open spec fn pack(category: Category, t: Seq<Rank>) -> u64 {
    (category.spec_ordinal() * 0x1_0000_0000_0000 + t[0].spec_value() * 0x400_0000_0000
        + t[1].spec_value() * 0x10_0000_0000 + t[2].spec_value() * 0x4000_0000
        + t[3].spec_value() * 0x100_0000 + t[4].spec_value() * 0x4_0000) as u64
}

/// Compact, comparable hand strength. Higher is better.
#[derive(Debug, Clone, Copy, PartialEq, Eq, PartialOrd, Ord)]
#[non_exhaustive]
pub struct HandValue(u64);

impl View for HandValue {
    type V = u64;

    closed spec fn view(&self) -> u64 {
        self.0
    }
}

impl HandValue {
    /// Return the packed comparable value.
    pub fn raw(self) -> (r: u64)
        ensures
            r == self@,
    {
        self.0
    }

    /// Pack a category and five rank tiebreakers into a comparable value.
    pub fn from_parts(category: Category, ranks_desc: &[Rank; 5]) -> (r: Self)
        ensures
            r@ == pack(category, ranks_desc@),
    {
        let c = category.ordinal() as u64;
        let r0 = ranks_desc[0].value() as u64;
        let r1 = ranks_desc[1].value() as u64;
        let r2 = ranks_desc[2].value() as u64;
        let r3 = ranks_desc[3].value() as u64;
        let r4 = ranks_desc[4].value() as u64;
        HandValue(
            c * CATEGORY_UNIT + r0 * RANK_UNIT_0 + r1 * RANK_UNIT_1 + r2 * RANK_UNIT_2 + r3
                * RANK_UNIT_3 + r4 * RANK_UNIT_4,
        )
    }
}

/// Detailed evaluation result. The packed value drives ordering.
#[derive(Debug, Clone, Copy)]
#[non_exhaustive]
pub struct Evaluation {
    pub category: crate::evaluator::Category,
    pub best_five: [crate::cards::Card; 5],
    pub value: HandValue,
}

impl Evaluation {
    /// The packed value of this evaluation.
    pub closed spec fn strength(self) -> u64 {
        self.value@
    }

    /// Return the packed comparable value.
    pub fn value(&self) -> (r: HandValue)
        ensures
            r@ == self.strength(),
    {
        self.value
    }
}

impl PartialEq for Evaluation {
    fn eq(&self, other: &Self) -> (r: bool)
        ensures
            r == (self.strength() == other.strength()),
    {
        self.value.0 == other.value.0
    }
}

impl vstd::std_specs::cmp::PartialEqSpecImpl for Evaluation {
    open spec fn obeys_eq_spec() -> bool {
        true
    }

    open spec fn eq_spec(&self, other: &Self) -> bool {
        self.strength() == other.strength()
    }
}

impl Eq for Evaluation {

}

/// Ordering of two packed values.
pub open spec fn cmp_values(a: u64, b: u64) -> Ordering {
    if a < b {
        Ordering::Less
    } else if a > b {
        Ordering::Greater
    } else {
        Ordering::Equal
    }
}

impl PartialOrd for Evaluation {
    fn partial_cmp(&self, other: &Self) -> (r: Option<Ordering>)
        ensures
            r == Some(cmp_values(self.strength(), other.strength())),
    {
        if self.value.0 < other.value.0 {
            Some(Ordering::Less)
        } else if self.value.0 > other.value.0 {
            Some(Ordering::Greater)
        } else {
            Some(Ordering::Equal)
        }
    }
}

impl vstd::std_specs::cmp::PartialOrdSpecImpl for Evaluation {
    open spec fn obeys_partial_cmp_spec() -> bool {
        true
    }

    open spec fn partial_cmp_spec(&self, other: &Self) -> Option<Ordering> {
        Some(cmp_values(self.strength(), other.strength()))
    }
}

} // verus!

verus! {

/// Rank groups of a five-card hand.
pub open spec fn hand_groups(cards: Seq<Card>) -> Seq<(Rank, u8)> {
    rank_groups_of(count_table(hand_ranks(cards)))
}

/// All five cards share a suit.
pub open spec fn hand_flush(cards: Seq<Card>) -> bool {
    same_suit(hand_sorted(cards))
}

/// Top rank of the straight the five cards form, if they form one.
pub open spec fn hand_straight(cards: Seq<Card>) -> Option<Rank> {
    straight_top(sort_desc(rank_values(hand_ranks(cards))))
}

/// Category of five cards.
pub open spec fn five_category(cards: Seq<Card>) -> Category {
    category_from(hand_groups(cards), hand_flush(cards), hand_straight(cards))
}

/// Packed value of five cards: their category and its tiebreak ranks.
pub open spec fn five_value(cards: Seq<Card>) -> u64 {
    pack(
        five_category(cards),
        tiebreak_from(five_category(cards), hand_ranks(cards), hand_groups(cards), hand_straight(cards)),
    )
}

/// `r` is the evaluation of the five cards `cards`.
pub open spec fn evaluates_five(cards: Seq<Card>, r: Evaluation) -> bool {
    &&& r.category == five_category(cards)
    &&& r.best_five@ == hand_sorted(cards)
    &&& r.strength() == five_value(cards)
}

/// The five cards left when positions `i` and `j` (`i < j`) are removed from seven.
pub open spec fn without_two(s: Seq<Card>, i: int, j: int) -> Seq<Card> {
    Seq::new(
        5,
        |m: int|
            s[if m < i {
                m
            } else if m + 1 < j {
                m + 1
            } else {
                m + 2
            }],
    )
}

/// `r` is a best evaluation among the 21 five-card subsets of the seven `cards`.
pub open spec fn best_of_seven(cards: Seq<Card>, r: Evaluation) -> bool {
    &&& forall|a: int, b: int|
        0 <= a < b < 7 ==> r.strength() >= #[trigger] five_value(without_two(cards, a, b))
    &&& exists|a: int, b: int|
        0 <= a < b < 7 && #[trigger] evaluates_five(without_two(cards, a, b), r)
}

/// The seven cards of a Hold'em hand: two hole cards, then five board cards.
pub open spec fn holdem_seven(hole: (Card, Card), board: Seq<Card>) -> Seq<Card> {
    seq![hole.0, hole.1] + board.take(5)
}

#[derive(Debug)]
#[non_exhaustive]
pub enum EvalError {
    InvalidHand(HandError),
    NotEnoughCards,
}

/// Evaluate exactly five cards; detects the category and encodes tie-breakers.
pub fn evaluate_five(cards: &[Card; 5]) -> (r: Evaluation)
    ensures
        evaluates_five(cards@, r),
{
    let a = HandAnalysis::new(cards);
    if StraightFlushDetector.detect(&a) {
        return StraightFlushDetector.build_evaluation(&a);
    }
    if FourOfAKindDetector.detect(&a) {
        return FourOfAKindDetector.build_evaluation(&a);
    }
    if FullHouseDetector.detect(&a) {
        return FullHouseDetector.build_evaluation(&a);
    }
    if FlushDetector.detect(&a) {
        return FlushDetector.build_evaluation(&a);
    }
    if StraightDetector.detect(&a) {
        return StraightDetector.build_evaluation(&a);
    }
    if ThreeOfAKindDetector.detect(&a) {
        return ThreeOfAKindDetector.build_evaluation(&a);
    }
    if TwoPairDetector.detect(&a) {
        return TwoPairDetector.build_evaluation(&a);
    }
    if OnePairDetector.detect(&a) {
        return OnePairDetector.build_evaluation(&a);
    }
    HighCardDetector.build_evaluation(&a)
}

fn pick_five(cards: &[Card; 7], i: usize, j: usize) -> (r: [Card; 5])
    requires
        i < j < 7,
    ensures
        r@ == without_two(cards@, i as int, j as int),
{
    let mut out: [Card; 5] = [cards[0]; 5];
    let mut m: usize = 0;
    while m < 5
        invariant
            m <= 5,
            i < j < 7,
            forall|k: int| 0 <= k < m ==> out@[k] == #[trigger] without_two(cards@, i as int, j as int)[k],
        decreases 5 - m,
    {
        let src = if m < i {
            m
        } else if m + 1 < j {
            m + 1
        } else {
            m + 2
        };
        out[m] = cards[src];
        m = m + 1;
    }
    assert(out@ =~= without_two(cards@, i as int, j as int));
    out
}

/// Evaluate seven cards: a best evaluation over all 21 five-card subsets
/// (the subsets are visited in lexicographic order of the kept positions and
/// only a strictly better value replaces the one kept).
pub fn evaluate_seven(cards: &[Card; 7]) -> (r: Evaluation)
    ensures
        best_of_seven(cards@, r),
{
    let mut best: Option<Evaluation> = None;
    let mut i: usize = 6;
    while i > 0
        invariant
            i <= 6,
            i < 6 ==> best is Some,
            best is Some ==> forall|a: int, b: int|
                i <= a < b < 7 ==> best->Some_0.strength() >= #[trigger] five_value(
                    without_two(cards@, a, b),
                ),
            best is Some ==> exists|a: int, b: int|
                i <= a < b < 7 && #[trigger] evaluates_five(
                    without_two(cards@, a, b),
                    best->Some_0,
                ),
        decreases i,
    {
        i = i - 1;
        let mut j: usize = 7;
        while j > i + 1
            invariant
                i < 6,
                i + 1 <= j <= 7,
                j < 7 ==> best is Some,
                i < 5 ==> best is Some,
                best is Some ==> forall|a: int, b: int|
                    (i + 1 <= a < b < 7 || (a == i && j <= b < 7)) ==> best->Some_0.strength()
                        >= #[trigger] five_value(without_two(cards@, a, b)),
                best is Some ==> exists|a: int, b: int|
                    i <= a < b < 7 && #[trigger] evaluates_five(
                        without_two(cards@, a, b),
                        best->Some_0,
                    ),
            decreases j,
        {
            j = j - 1;
            let hand = pick_five(cards, i, j);
            let ev = evaluate_five(&hand);
            let replace = match &best {
                None => true,
                Some(b) => ev.value.raw() > b.value.raw(),
            };
            if replace {
                best = Some(ev);
                assert(evaluates_five(without_two(cards@, i as int, j as int), best->Some_0));
            }
        }
    }
    match best {
        Some(b) => b,
        None => evaluate_five(&pick_five(cards, 5, 6)),
    }
}

/// Evaluate a Hold'em hand: validate the hole cards and board, then return
/// the best five-card evaluation of the two hole cards and five board cards.
pub fn evaluate_holdem(hole: &HoleCards, board: &Board) -> (r: Result<Evaluation, EvalError>)
    ensures
        holdem_error(hole@, board@) matches Some(e) ==> r == Err::<Evaluation, EvalError>(
            EvalError::InvalidHand(e),
        ),
        holdem_error(hole@, board@) is None && board@.len() < 5 ==> r == Err::<
            Evaluation,
            EvalError,
        >(EvalError::NotEnoughCards),
        holdem_error(hole@, board@) is None && board@.len() == 5 ==> r is Ok && best_of_seven(
            holdem_seven(hole@, board@),
            r->Ok_0,
        ),
        r is Ok <==> holdem_error(hole@, board@) is None && board@.len() == 5,
{
    match validate_holdem(hole, board) {
        Err(e) => {
            return Err(EvalError::InvalidHand(e));
        },
        Ok(()) => {},
    }
    if board.len() < 5 {
        return Err(EvalError::NotEnoughCards);
    }
    let seven: [Card; 7] = [
        hole.first(),
        hole.second(),
        board.card(0),
        board.card(1),
        board.card(2),
        board.card(3),
        board.card(4),
    ];
    assert(seven@ =~= holdem_seven(hole@, board@));
    Ok(evaluate_seven(&seven))
}

/// Compare two Hold'em hands on a shared board.
pub fn compare_holdem(a: &HoleCards, b: &HoleCards, board: &Board) -> (r: Result<
    Ordering,
    EvalError,
>)
    ensures
        holdem_error(a@, board@) matches Some(e) ==> r == Err::<Ordering, EvalError>(
            EvalError::InvalidHand(e),
        ),
        holdem_error(a@, board@) is None && board@.len() < 5 ==> r == Err::<Ordering, EvalError>(
            EvalError::NotEnoughCards,
        ),
        holdem_error(a@, board@) is None && board@.len() == 5 ==> (holdem_error(b@, board@) matches Some(e)
            ==> r == Err::<Ordering, EvalError>(EvalError::InvalidHand(e))),
        r is Ok <==> holdem_error(a@, board@) is None && holdem_error(b@, board@) is None
            && board@.len() == 5,
        r is Ok ==> exists|ea: Evaluation, eb: Evaluation|
            #[trigger] best_of_seven(holdem_seven(a@, board@), ea) && #[trigger] best_of_seven(
                holdem_seven(b@, board@),
                eb,
            ) && r->Ok_0 == cmp_values(ea.strength(), eb.strength()),
{
    let va = match evaluate_holdem(a, board) {
        Ok(v) => v,
        Err(e) => {
            return Err(e);
        },
    };
    let vb = match evaluate_holdem(b, board) {
        Ok(v) => v,
        Err(e) => {
            return Err(e);
        },
    };
    let x = va.value.raw();
    let y = vb.value.raw();
    let ord = if x < y {
        Ordering::Less
    } else if x > y {
        Ordering::Greater
    } else {
        Ordering::Equal
    };
    assert(best_of_seven(holdem_seven(a@, board@), va) && best_of_seven(holdem_seven(b@, board@), vb)
        && ord == cmp_values(va.strength(), vb.strength()));
    Ok(ord)
}

} // verus!

verus! {

/// `s` is above `t` in lexicographic order of rank values (five entries).
pub open spec fn ranks_lex_greater(s: Seq<Rank>, t: Seq<Rank>) -> bool {
    ||| s[0].spec_value() > t[0].spec_value()
    ||| s[0] == t[0] && s[1].spec_value() > t[1].spec_value()
    ||| s[0] == t[0] && s[1] == t[1] && s[2].spec_value() > t[2].spec_value()
    ||| s[0] == t[0] && s[1] == t[1] && s[2] == t[2] && s[3].spec_value() > t[3].spec_value()
    ||| s[0] == t[0] && s[1] == t[1] && s[2] == t[2] && s[3] == t[3] && s[4].spec_value()
        > t[4].spec_value()
}

/// Within one category, packed values compare as the tiebreak ranks compare
/// lexicographically.
pub proof fn lemma_pack_lexicographic(c: Category, s: Seq<Rank>, t: Seq<Rank>)
    requires
        s.len() == 5,
        t.len() == 5,
    ensures
        pack(c, s) > pack(c, t) <==> ranks_lex_greater(s, t),
        pack(c, s) == pack(c, t) <==> s == t,
{
    assert(s == t <== (s[0] == t[0] && s[1] == t[1] && s[2] == t[2] && s[3] == t[3] && s[4] == t[4]))
        by {
        if s[0] == t[0] && s[1] == t[1] && s[2] == t[2] && s[3] == t[3] && s[4] == t[4] {
            assert(s =~= t);
        }
    }
}

/// A higher category always has a higher packed value.
pub proof fn lemma_pack_category(c: Category, d: Category, s: Seq<Rank>, t: Seq<Rank>)
    requires
        c.spec_ordinal() > d.spec_ordinal(),
    ensures
        pack(c, s) > pack(d, t),
{
}

/// Hand values are totally ordered, and two hands that are each at least as
/// strong as the other have the same value.
pub proof fn lemma_five_value_total_antisymmetric(a: Seq<Card>, b: Seq<Card>)
    ensures
        five_value(a) >= five_value(b) || five_value(b) >= five_value(a),
        five_value(a) >= five_value(b) && five_value(b) >= five_value(a) ==> five_value(a)
            == five_value(b),
{
}

/// Comparison of hand values is transitive.
pub proof fn lemma_five_value_transitive(a: Seq<Card>, b: Seq<Card>, c: Seq<Card>)
    ensures
        five_value(a) >= five_value(b) && five_value(b) >= five_value(c) ==> five_value(a)
            >= five_value(c),
{
}

/// The seven-card evaluation is at least as strong as the evaluation of
/// every five-card subset of the seven cards.
pub proof fn lemma_seven_card_optimality(xs: Seq<Card>, r: Evaluation, a: int, b: int)
    requires
        xs.len() == 7,
        best_of_seven(xs, r),
        0 <= a < b < 7,
    ensures
        r.strength() >= five_value(without_two(xs, a, b)),
{
}

proof fn lemma_straight_top_at_least_five(cards: Seq<Card>)
    requires
        cards.len() == 5,
        hand_straight(cards) is Some,
    ensures
        hand_straight(cards)->Some_0.spec_value() >= 5,
{
    let rv = rank_values(hand_ranks(cards));
    assert forall|i: int| 0 <= i < rv.len() implies 2 <= #[trigger] rv[i] <= 14 by {}
    crate::evaluator::sorting::lemma_sort_desc_bounds(rv, 2, 14);
    crate::evaluator::sorting::lemma_sort_desc_sorted_permutation(rv);
    crate::evaluator::sorting::lemma_sort_desc_sorted_permutation(card_keys(cards));
}

/// Between two straights, the one with the higher top card is stronger; the
/// wheel (top card Five) is the lowest straight.
pub proof fn lemma_straight_ordering(a: Seq<Card>, b: Seq<Card>)
    requires
        a.len() == 5,
        b.len() == 5,
        five_category(a) == Category::Straight,
        five_category(b) == Category::Straight,
    ensures
        hand_straight(a)->Some_0.spec_value() > hand_straight(b)->Some_0.spec_value() ==> five_value(
            a,
        ) > five_value(b),
        hand_straight(b) == Some(Rank::Five) ==> five_value(a) >= five_value(b),
{
    lemma_straight_top_at_least_five(a);
    lemma_straight_top_at_least_five(b);
}

/// Two flushes compare by the descending rank vectors of their five cards.
pub proof fn lemma_flush_kicker_ordering(a: Seq<Card>, b: Seq<Card>)
    requires
        a.len() == 5,
        b.len() == 5,
        five_category(a) == Category::Flush,
        five_category(b) == Category::Flush,
    ensures
        five_value(a) > five_value(b) <==> ranks_lex_greater(hand_ranks(a), hand_ranks(b)),
        five_value(a) == five_value(b) <==> hand_ranks(a) == hand_ranks(b),
{
    crate::evaluator::sorting::lemma_sort_desc_sorted_permutation(card_keys(a));
    crate::evaluator::sorting::lemma_sort_desc_sorted_permutation(card_keys(b));
    lemma_pack_lexicographic(Category::Flush, hand_ranks(a), hand_ranks(b));
}

} // verus!

verus! {

/// The five cards left when position `i` is removed from six.
pub open spec fn without_one(s: Seq<Card>, i: int) -> Seq<Card> {
    Seq::new(
        5,
        |m: int|
            s[if m < i {
                m
            } else {
                m + 1
            }],
    )
}

/// `r` is a best evaluation among the six five-card subsets of six `cards`.
pub open spec fn best_of_six(cards: Seq<Card>, r: Evaluation) -> bool {
    &&& forall|a: int| 0 <= a < 6 ==> r.strength() >= #[trigger] five_value(without_one(cards, a))
    &&& exists|a: int| 0 <= a < 6 && #[trigger] evaluates_five(without_one(cards, a), r)
}

fn pick_five_of_six(cards: &[Card], skip: usize) -> (r: [Card; 5])
    requires
        cards@.len() == 6,
        skip < 6,
    ensures
        r@ == without_one(cards@, skip as int),
{
    let mut out: [Card; 5] = [cards[0]; 5];
    let mut m: usize = 0;
    while m < 5
        invariant
            m <= 5,
            cards@.len() == 6,
            skip < 6,
            forall|k: int| 0 <= k < m ==> out@[k] == #[trigger] without_one(cards@, skip as int)[k],
        decreases 5 - m,
    {
        let src = if m < skip {
            m
        } else {
            m + 1
        };
        out[m] = cards[src];
        m = m + 1;
    }
    assert(out@ =~= without_one(cards@, skip as int));
    out
}

/// The best evaluation of five, six or seven cards (None for other counts):
/// the five cards themselves, the best of the six subsets of five (the
/// first one found wins ties), or the seven-card evaluation.
pub fn best_evaluation(cards: &[Card]) -> (r: Option<Evaluation>)
    ensures
        cards@.len() == 5 ==> (r matches Some(e) && evaluates_five(cards@, e)),
        cards@.len() == 6 ==> (r matches Some(e) && best_of_six(cards@, e)),
        cards@.len() == 7 ==> (r matches Some(e) && best_of_seven(cards@, e)),
        cards@.len() < 5 || cards@.len() > 7 ==> r is None,
{
    if cards.len() == 5 {
        let five: [Card; 5] = [cards[0], cards[1], cards[2], cards[3], cards[4]];
        assert(five@ =~= cards@);
        return Some(evaluate_five(&five));
    }
    if cards.len() == 7 {
        let seven: [Card; 7] = [cards[0], cards[1], cards[2], cards[3], cards[4], cards[5], cards[6]];
        assert(seven@ =~= cards@);
        return Some(evaluate_seven(&seven));
    }
    if cards.len() != 6 {
        return None;
    }
    let mut best: Option<Evaluation> = None;
    let mut skip: usize = 0;
    while skip < 6
        invariant
            cards@.len() == 6,
            skip <= 6,
            skip > 0 ==> best is Some,
            best is Some ==> forall|a: int|
                0 <= a < skip ==> best->Some_0.strength() >= #[trigger] five_value(
                    without_one(cards@, a),
                ),
            best is Some ==> exists|a: int|
                0 <= a < skip && #[trigger] evaluates_five(without_one(cards@, a), best->Some_0),
        decreases 6 - skip,
    {
        let five = pick_five_of_six(cards, skip);
        let ev = evaluate_five(&five);
        let replace = match &best {
            None => true,
            Some(b) => ev.value.raw() > b.value.raw(),
        };
        if replace {
            best = Some(ev);
            assert(evaluates_five(without_one(cards@, skip as int), best->Some_0));
        }
        skip = skip + 1;
    }
    best
}

} // verus!
