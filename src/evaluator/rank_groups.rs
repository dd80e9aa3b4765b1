use vstd::prelude::*;
use crate::cards::{rank_of_value, Rank};

verus! {

/// Largest of `c[2..=v]` (0 when `v < 2`).
pub open spec fn max_count(c: Seq<u8>, v: int) -> u8
    decreases v,
{
    if v < 2 {
        0
    } else {
        let m = max_count(c, v - 1);
        if c[v] > m {
            c[v]
        } else {
            m
        }
    }
}

/// The ranks among values `2..=v` whose count is exactly `k`, highest rank first.
pub open spec fn groups_of_size(c: Seq<u8>, k: u8, v: int) -> Seq<(Rank, u8)>
    decreases v,
{
    if v < 2 {
        Seq::empty()
    } else if c[v] == k {
        seq![(rank_of_value(v), k)] + groups_of_size(c, k, v - 1)
    } else {
        groups_of_size(c, k, v - 1)
    }
}

/// Groups of every size from `k` down to 1, larger sizes first.
pub open spec fn groups_down_from(c: Seq<u8>, k: int) -> Seq<(Rank, u8)>
    decreases k,
{
    if k < 1 {
        Seq::empty()
    } else {
        groups_of_size(c, k as u8, 14) + groups_down_from(c, k - 1)
    }
}

/// The ranks present in a count table indexed by rank value, ordered by
/// count (descending), then rank (descending), each with its count.
pub open spec fn rank_groups_of(c: Seq<u8>) -> Seq<(Rank, u8)> {
    groups_down_from(c, max_count(c, 14) as int)
}

/// The rank of the first group of size `k`, if any.
pub open spec fn first_of_size(g: Seq<(Rank, u8)>, k: u8) -> Option<Rank>
    decreases g.len(),
{
    if g.len() == 0 {
        None
    } else if g[0].1 == k {
        Some(g[0].0)
    } else {
        first_of_size(g.drop_first(), k)
    }
}

/// The ranks of all groups of size `k`, in group order.
pub open spec fn ranks_of_size(g: Seq<(Rank, u8)>, k: u8) -> Seq<Rank>
    decreases g.len(),
{
    if g.len() == 0 {
        Seq::empty()
    } else if g[0].1 == k {
        seq![g[0].0] + ranks_of_size(g.drop_first(), k)
    } else {
        ranks_of_size(g.drop_first(), k)
    }
}

/// Groups ranks by their frequency in a hand, sorted by (count desc, rank desc).
///
/// Example: AAAKQ groups as [(Ace, 3), (King, 1), (Queen, 1)].
#[derive(Debug, Clone, PartialEq, Eq)]
pub struct RankGroups {
    groups: Vec<(Rank, u8)>,
}

impl View for RankGroups {
    type V = Seq<(Rank, u8)>;

    closed spec fn view(&self) -> Seq<(Rank, u8)> {
        self.groups@
    }
}

impl RankGroups {
    /// Create RankGroups from a rank count array indexed by rank value (2-14).
    pub fn from_counts(rank_counts: &[u8; 15]) -> (r: Self)
        ensures
            r@ == rank_groups_of(rank_counts@),
    {
        let ghost c = rank_counts@;
        let mut top: u8 = 0;
        let mut v: usize = 2;
        while v <= 14
            invariant
                2 <= v <= 15,
                c == rank_counts@,
                c.len() == 15,
                top == max_count(c, v - 1),
            decreases 15 - v,
        {
            if rank_counts[v] > top {
                top = rank_counts[v];
            }
            v = v + 1;
        }
        let mut groups: Vec<(Rank, u8)> = Vec::new();
        let mut k: u8 = top;
        assert(groups@ + groups_down_from(c, k as int) =~= rank_groups_of(c));
        while k >= 1
            invariant
                c == rank_counts@,
                c.len() == 15,
                k <= top,
                groups@ + groups_down_from(c, k as int) == rank_groups_of(c),
            decreases k,
        {
            let mut w: usize = 14;
            assert(groups@ + groups_of_size(c, k, 14) + groups_down_from(c, k - 1) =~= rank_groups_of(c));
            while w >= 2
                invariant
                    c == rank_counts@,
                    c.len() == 15,
                    1 <= k,
                    1 <= w <= 14,
                    groups@ + groups_of_size(c, k, w as int) + groups_down_from(c, k - 1)
                        == rank_groups_of(c),
                decreases w,
            {
                if rank_counts[w] == k {
                    let ghost before = groups@;
                    groups.push((Rank::from_value(w as u8), k));
                    assert(groups@ + groups_of_size(c, k, w - 1) =~= before + groups_of_size(c, k, w as int));
                }
                w = w - 1;
            }
            assert(groups_of_size(c, k, w as int) =~= Seq::<(Rank, u8)>::empty());
            assert(groups@ + groups_down_from(c, k - 1) =~= groups@ + groups_of_size(c, k, w as int) + groups_down_from(c, k - 1));
            k = k - 1;
        }
        assert(groups_down_from(c, k as int) =~= Seq::<(Rank, u8)>::empty());
        assert(groups@ =~= groups@ + groups_down_from(c, k as int));
        RankGroups { groups }
    }

    fn first_with_count(&self, k: u8) -> (r: Option<Rank>)
        ensures
            r == first_of_size(self@, k),
    {
        let mut i: usize = 0;
        assert(self@.skip(0) =~= self@);
        while i < self.groups.len()
            invariant
                i <= self@.len(),
                first_of_size(self@.skip(i as int), k) == first_of_size(self@, k),
            decreases self@.len() - i,
        {
            assert(self@.skip(i as int).drop_first() =~= self@.skip(i as int + 1));
            if self.groups[i].1 == k {
                return Some(self.groups[i].0);
            }
            i = i + 1;
        }
        None
    }

    fn all_with_count(&self, k: u8) -> (r: Vec<Rank>)
        ensures
            r@ == ranks_of_size(self@, k),
    {
        let mut out: Vec<Rank> = Vec::new();
        let mut i: usize = 0;
        assert(self@.skip(0) =~= self@);
        while i < self.groups.len()
            invariant
                i <= self@.len(),
                out@ + ranks_of_size(self@.skip(i as int), k) == ranks_of_size(self@, k),
            decreases self@.len() - i,
        {
            assert(self@.skip(i as int).drop_first() =~= self@.skip(i as int + 1));
            if self.groups[i].1 == k {
                let ghost before = out@;
                out.push(self.groups[i].0);
                assert(out@ + ranks_of_size(self@.skip(i as int + 1), k) =~= before
                    + ranks_of_size(self@.skip(i as int), k));
            }
            i = i + 1;
        }
        assert(out@ + ranks_of_size(self@.skip(i as int), k) =~= out@);
        out
    }

    /// Returns the rank of a four-of-a-kind, if present.
    pub fn quad(&self) -> (r: Option<Rank>)
        ensures
            r == first_of_size(self@, 4),
    {
        self.first_with_count(4)
    }

    /// Returns the rank of a three-of-a-kind, if present.
    pub fn trips(&self) -> (r: Option<Rank>)
        ensures
            r == first_of_size(self@, 3),
    {
        self.first_with_count(3)
    }

    /// Returns all pair ranks, in descending order.
    pub fn pairs(&self) -> (r: Vec<Rank>)
        ensures
            r@ == ranks_of_size(self@, 2),
    {
        self.all_with_count(2)
    }

    /// Returns all singleton (kicker) ranks, in descending order.
    pub fn kickers(&self) -> (r: Vec<Rank>)
        ensures
            r@ == ranks_of_size(self@, 1),
    {
        self.all_with_count(1)
    }

    /// Returns true if the hand has both trips and a pair (full house).
    pub fn has_full_house(&self) -> (r: bool)
        ensures
            r == (first_of_size(self@, 3) is Some && first_of_size(self@, 2) is Some),
    {
        self.first_with_count(3).is_some() && self.first_with_count(2).is_some()
    }

    /// The groups as (rank, count) pairs.
    pub fn groups(&self) -> (r: &[(Rank, u8)])
        ensures
            r@ == self@,
    {
        self.groups.as_slice()
    }
}

} // verus!
