use vstd::prelude::*;

verus! {

/// `idx` lists `idx.len()` positions out of `0..n` in increasing order.
pub open spec fn is_combination(idx: Seq<usize>, n: int) -> bool {
    &&& forall|i: int, j: int| 0 <= i < j < idx.len() ==> #[trigger] idx[i] < #[trigger] idx[j]
    &&& forall|i: int| 0 <= i < idx.len() ==> #[trigger] idx[i] < n
}

/// `a` comes before `b` in lexicographic order (same length).
pub open spec fn lex_before(a: Seq<usize>, b: Seq<usize>) -> bool {
    exists|p: int|
        0 <= p < a.len() && #[trigger] a[p] < b[p] && forall|q: int| 0 <= q < p ==> a[q] == b[q]
}

/// The next combination after `idx` in lexicographic order, looking for
/// the position to grow at `j` and to its left: the rightmost position that
/// can still grow is incremented and the positions after it follow it
/// consecutively. None when every position is at its largest value.
pub open spec fn successor_from(idx: Seq<usize>, n: int, j: int) -> Option<Seq<usize>>
    decreases j + 1,
{
    let k = idx.len() as int;
    if j < 0 {
        None
    } else if idx[j] < n - (k - j) {
        Some(
            Seq::new(
                idx.len(),
                |q: int|
                    if q < j {
                        idx[q]
                    } else {
                        (idx[j] + 1 + (q - j)) as usize
                    },
            ),
        )
    } else {
        successor_from(idx, n, j - 1)
    }
}

/// The next combination after `idx` in lexicographic order, if any.
pub open spec fn successor(idx: Seq<usize>, n: int) -> Option<Seq<usize>> {
    successor_from(idx, n, idx.len() - 1)
}

/// Advance `idx` (a combination of `idx.len()` positions out of `n`) to the
/// next combination in lexicographic order; false when it was the last.
fn advance(idx: &mut Vec<usize>, n: usize) -> (more: bool)
    requires
        is_combination(old(idx)@, n as int),
        1 <= old(idx)@.len() <= n <= 8,
    ensures
        final(idx)@.len() == old(idx)@.len(),
        more ==> is_combination(final(idx)@, n as int) && lex_before(old(idx)@, final(idx)@),
        !more ==> final(idx)@ == old(idx)@,
        more == successor(old(idx)@, n as int) is Some,
        more ==> Some(final(idx)@) == successor(old(idx)@, n as int),
{
    let k = idx.len();
    let mut i: usize = k;
    while i > 0
        invariant
            k == idx@.len(),
            idx@ == old(idx)@,
            i <= k,
            1 <= k <= n <= 8,
            is_combination(idx@, n as int),
            forall|j: int| i <= j < k ==> #[trigger] idx@[j] >= n - k + j,
            successor(idx@, n as int) == successor_from(idx@, n as int, i - 1),
        decreases i,
    {
        let j = i - 1;
        if idx[j] < n - (k - j) {
            let v = idx[j] + 1;
            idx.set(j, v);
            let mut m: usize = j + 1;
            while m < k
                invariant
                    k == idx@.len(),
                    j < m <= k,
                    k <= n <= 8,
                    idx@[j as int] == v,
                    v < n - (k - j) + 1,
                    forall|q: int| 0 <= q < j ==> #[trigger] idx@[q] == old(idx)@[q],
                    forall|q: int| j < q < m ==> #[trigger] idx@[q] == v + (q - j),
                    is_combination(old(idx)@, n as int),
                    old(idx)@.len() == k,
                    v == old(idx)@[j as int] + 1,
                decreases k - m,
            {
                idx.set(m, v + (m - j));
                m = m + 1;
            }
            proof {
                assert(idx@[j as int] > old(idx)@[j as int]);
                assert(lex_before(old(idx)@, idx@));
                assert(idx@ =~= successor_from(old(idx)@, n as int, j as int)->Some_0);
            }
            return true;
        }
        i = j;
    }
    false
}

/// The C(4,2) = 6 ways to choose 2 of 4 positions, in lexicographic order.
pub struct Combinations4Choose2 {
    indices: Vec<usize>,
    done: bool,
}

impl Combinations4Choose2 {
    pub closed spec fn current(&self) -> Seq<usize> {
        self.indices@
    }

    pub closed spec fn finished(&self) -> bool {
        self.done
    }

    pub open spec fn valid(&self) -> bool {
        self.current().len() == 2 && is_combination(self.current(), 4)
    }

    pub fn new() -> (r: Self)
        ensures
            r.valid(),
            !r.finished(),
            r.current() == seq![0usize, 1usize],
    {
        let v = vec![0usize, 1usize];
        Combinations4Choose2 { indices: v, done: false }
    }

    /// The next combination, or None once all were returned.
    pub fn next(&mut self) -> (r: Option<[usize; 2]>)
        requires
            old(self).valid(),
        ensures
            final(self).valid(),
            old(self).finished() ==> r is None && final(self).finished(),
            !old(self).finished() ==> (r matches Some(a) && a@ == old(self).current()),
            !final(self).finished() ==> lex_before(old(self).current(), final(self).current()),
            !old(self).finished() ==> (final(self).finished() <==> successor(old(self).current(), 4) is None),
            !final(self).finished() ==> Some(final(self).current()) == successor(old(self).current(), 4),
    {
        if self.done {
            return None;
        }
        let out = [self.indices[0], self.indices[1]];
        assert(out@ =~= self.indices@);
        let ghost before = self.indices@;
        let more = advance(&mut self.indices, 4);
        if !more {
            self.done = true;
        }
        Some(out)
    }
}

impl Default for Combinations4Choose2 {
    fn default() -> (r: Self)
        ensures
            r.valid(),
            !r.finished(),
    {
        Self::new()
    }
}

/// The C(5,3) = 10 ways to choose 3 of 5 positions, in lexicographic order.
pub struct Combinations5Choose3 {
    indices: Vec<usize>,
    done: bool,
}

impl Combinations5Choose3 {
    pub closed spec fn current(&self) -> Seq<usize> {
        self.indices@
    }

    pub closed spec fn finished(&self) -> bool {
        self.done
    }

    pub open spec fn valid(&self) -> bool {
        self.current().len() == 3 && is_combination(self.current(), 5)
    }

    pub fn new() -> (r: Self)
        ensures
            r.valid(),
            !r.finished(),
            r.current() == seq![0usize, 1usize, 2usize],
    {
        let v = vec![0usize, 1usize, 2usize];
        Combinations5Choose3 { indices: v, done: false }
    }

    /// The next combination, or None once all were returned.
    pub fn next(&mut self) -> (r: Option<[usize; 3]>)
        requires
            old(self).valid(),
        ensures
            final(self).valid(),
            old(self).finished() ==> r is None && final(self).finished(),
            !old(self).finished() ==> (r matches Some(a) && a@ == old(self).current()),
            !final(self).finished() ==> lex_before(old(self).current(), final(self).current()),
            !old(self).finished() ==> (final(self).finished() <==> successor(old(self).current(), 5) is None),
            !final(self).finished() ==> Some(final(self).current()) == successor(old(self).current(), 5),
    {
        if self.done {
            return None;
        }
        let out = [self.indices[0], self.indices[1], self.indices[2]];
        assert(out@ =~= self.indices@);
        let more = advance(&mut self.indices, 5);
        if !more {
            self.done = true;
        }
        Some(out)
    }
}

impl Default for Combinations5Choose3 {
    fn default() -> (r: Self)
        ensures
            r.valid(),
            !r.finished(),
    {
        Self::new()
    }
}

/// The C(7,5) = 21 ways to choose 5 of 7 positions, in lexicographic order.
pub struct Combinations7Choose5 {
    indices: Vec<usize>,
    done: bool,
}

impl Combinations7Choose5 {
    pub closed spec fn current(&self) -> Seq<usize> {
        self.indices@
    }

    pub closed spec fn finished(&self) -> bool {
        self.done
    }

    pub open spec fn valid(&self) -> bool {
        self.current().len() == 5 && is_combination(self.current(), 7)
    }

    pub fn new() -> (r: Self)
        ensures
            r.valid(),
            !r.finished(),
            r.current() == seq![0usize, 1usize, 2usize, 3usize, 4usize],
    {
        let v = vec![0usize, 1usize, 2usize, 3usize, 4usize];
        Combinations7Choose5 { indices: v, done: false }
    }

    /// The next combination, or None once all were returned.
    pub fn next(&mut self) -> (r: Option<[usize; 5]>)
        requires
            old(self).valid(),
        ensures
            final(self).valid(),
            old(self).finished() ==> r is None && final(self).finished(),
            !old(self).finished() ==> (r matches Some(a) && a@ == old(self).current()),
            !final(self).finished() ==> lex_before(old(self).current(), final(self).current()),
            !old(self).finished() ==> (final(self).finished() <==> successor(old(self).current(), 7) is None),
            !final(self).finished() ==> Some(final(self).current()) == successor(old(self).current(), 7),
    {
        if self.done {
            return None;
        }
        let out = [self.indices[0], self.indices[1], self.indices[2], self.indices[3], self.indices[4]];
        assert(out@ =~= self.indices@);
        let more = advance(&mut self.indices, 7);
        if !more {
            self.done = true;
        }
        Some(out)
    }
}

impl Default for Combinations7Choose5 {
    fn default() -> (r: Self)
        ensures
            r.valid(),
            !r.finished(),
    {
        Self::new()
    }
}

} // verus!
