use vstd::prelude::*;

verus! {

/// Insert `x` into `s` (sorted in non-increasing order) before the first
/// element that is not greater than `x`.
pub open spec fn insert_desc(x: u8, s: Seq<u8>) -> Seq<u8>
    decreases s.len(),
{
    if s.len() == 0 || x >= s[0] {
        seq![x] + s
    } else {
        seq![s[0]] + insert_desc(x, s.drop_first())
    }
}

/// `s` in non-increasing order (insertion sort).
pub open spec fn sort_desc(s: Seq<u8>) -> Seq<u8>
    decreases s.len(),
{
    if s.len() == 0 {
        s
    } else {
        insert_desc(s.last(), sort_desc(s.drop_last()))
    }
}

pub open spec fn is_desc(s: Seq<u8>) -> bool {
    forall|i: int, j: int| 0 <= i < j < s.len() ==> #[trigger] s[i] >= #[trigger] s[j]
}

proof fn lemma_insert_desc_split(x: u8, s: Seq<u8>, p: int)
    requires
        0 <= p <= s.len(),
        forall|j: int| 0 <= j < p ==> s[j] > x,
        p == s.len() || x >= s[p],
    ensures
        insert_desc(x, s) == s.take(p) + seq![x] + s.skip(p),
    decreases p,
{
    if p == 0 {
        assert(s.take(0) + seq![x] + s.skip(0) =~= seq![x] + s);
    } else {
        let t = s.drop_first();
        lemma_insert_desc_split(x, t, p - 1);
        assert(s.take(p) + seq![x] + s.skip(p) =~= seq![s[0]] + (t.take(p - 1) + seq![x] + t.skip(
            p - 1,
        )));
    }
}

proof fn lemma_insert_desc_facts(x: u8, s: Seq<u8>)
    requires
        is_desc(s),
    ensures
        is_desc(insert_desc(x, s)),
        insert_desc(x, s).to_multiset() == s.to_multiset().insert(x),
        insert_desc(x, s).len() == s.len() + 1,
    decreases s.len(),
{
    broadcast use vstd::seq_lib::group_to_multiset_ensures;

    if s.len() == 0 || x >= s[0] {
        assert(insert_desc(x, s) =~= s.insert(0, x));
        vstd::seq_lib::to_multiset_insert(s, 0, x);
    } else {
        let t = s.drop_first();
        assert(is_desc(t));
        lemma_insert_desc_facts(x, t);
        let it = insert_desc(x, t);
        assert(insert_desc(x, s) =~= it.insert(0, s[0]));
        vstd::seq_lib::to_multiset_insert(it, 0, s[0]);
        assert(s =~= t.insert(0, s[0]));
        vstd::seq_lib::to_multiset_insert(t, 0, s[0]);
        assert(insert_desc(x, s).to_multiset() =~= s.to_multiset().insert(x));
        assert(it.len() > 0);
        assert(it[0] == x || it[0] == t[0]) by {
            if t.len() == 0 || x >= t[0] {
            } else {
            }
        }
    }
}

/// Sorting yields a non-increasing rearrangement of the input.
pub proof fn lemma_sort_desc_sorted_permutation(s: Seq<u8>)
    ensures
        is_desc(sort_desc(s)),
        sort_desc(s).to_multiset() == s.to_multiset(),
        sort_desc(s).len() == s.len(),
    decreases s.len(),
{
    broadcast use vstd::seq_lib::group_to_multiset_ensures;

    if s.len() > 0 {
        lemma_sort_desc_sorted_permutation(s.drop_last());
        lemma_insert_desc_facts(s.last(), sort_desc(s.drop_last()));
        assert(s =~= s.drop_last().push(s.last()));
    }
}

proof fn lemma_insert_desc_bounds(x: u8, s: Seq<u8>, lo: u8, hi: u8)
    requires
        lo <= x <= hi,
        forall|i: int| 0 <= i < s.len() ==> lo <= #[trigger] s[i] <= hi,
    ensures
        forall|i: int|
            0 <= i < insert_desc(x, s).len() ==> lo <= #[trigger] insert_desc(x, s)[i] <= hi,
    decreases s.len(),
{
    if s.len() == 0 || x >= s[0] {
    } else {
        lemma_insert_desc_bounds(x, s.drop_first(), lo, hi);
        let t = insert_desc(x, s.drop_first());
        assert forall|i: int| 0 <= i < insert_desc(x, s).len() implies lo <= #[trigger] insert_desc(
            x,
            s,
        )[i] <= hi by {
            if i > 0 {
                assert(insert_desc(x, s)[i] == t[i - 1]);
            }
        }
    }
}

/// Sorting keeps every element within bounds that held for the input.
pub proof fn lemma_sort_desc_bounds(s: Seq<u8>, lo: u8, hi: u8)
    requires
        forall|i: int| 0 <= i < s.len() ==> lo <= #[trigger] s[i] <= hi,
    ensures
        forall|i: int| 0 <= i < sort_desc(s).len() ==> lo <= #[trigger] sort_desc(s)[i] <= hi,
    decreases s.len(),
{
    if s.len() > 0 {
        let t = s.drop_last();
        assert forall|i: int| 0 <= i < t.len() implies lo <= #[trigger] t[i] <= hi by {
            assert(t[i] == s[i]);
        }
        lemma_sort_desc_bounds(t, lo, hi);
        lemma_insert_desc_bounds(s.last(), sort_desc(t), lo, hi);
    }
}

/// `s` with `x` inserted by `insert_desc`.
pub fn insert_desc_vec(s: &Vec<u8>, x: u8) -> (r: Vec<u8>)
    ensures
        r@ == insert_desc(x, s@),
{
    let mut r: Vec<u8> = Vec::new();
    let mut i: usize = 0;
    while i < s.len() && s[i] > x
        invariant
            i <= s@.len(),
            r@ == s@.take(i as int),
            forall|j: int| 0 <= j < i ==> s@[j] > x,
        decreases s@.len() - i,
    {
        r.push(s[i]);
        i = i + 1;
        assert(r@ =~= s@.take(i as int));
    }
    let p = i;
    r.push(x);
    while i < s.len()
        invariant
            p <= i <= s@.len(),
            r@ == s@.take(p as int) + seq![x] + s@.subrange(p as int, i as int),
        decreases s@.len() - i,
    {
        r.push(s[i]);
        i = i + 1;
        assert(r@ =~= s@.take(p as int) + seq![x] + s@.subrange(p as int, i as int));
    }
    proof {
        lemma_insert_desc_split(x, s@, p as int);
        assert(s@.subrange(p as int, i as int) =~= s@.skip(p as int));
    }
    r
}

/// The elements of `xs` in non-increasing order.
pub fn sort_desc_vec(xs: &[u8]) -> (r: Vec<u8>)
    ensures
        r@ == sort_desc(xs@),
{
    let mut r: Vec<u8> = Vec::new();
    let mut i: usize = 0;
    assert(xs@.take(0) =~= Seq::<u8>::empty());
    while i < xs.len()
        invariant
            i <= xs@.len(),
            r@ == sort_desc(xs@.take(i as int)),
        decreases xs@.len() - i,
    {
        r = insert_desc_vec(&r, xs[i]);
        proof {
            let t = xs@.take(i as int + 1);
            assert(t.drop_last() =~= xs@.take(i as int));
            assert(t.last() == xs@[i as int]);
        }
        i = i + 1;
    }
    assert(xs@.take(xs@.len() as int) =~= xs@);
    r
}

} // verus!
