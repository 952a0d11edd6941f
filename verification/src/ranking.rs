use vstd::prelude::*;

verus! {

/// Values with a strict "ranks above" order, as the descending sorts of the
/// lesson store use it (newest first, most frequent first).
pub trait Ranked: Sized {
    /// Whether `a` ranks strictly above `b`.
    spec fn ranks_above(a: Self, b: Self) -> bool;

    /// Whether `self` ranks strictly above `other`.
    fn outranks(&self, other: &Self) -> (r: bool)
        ensures
            r == Self::ranks_above(*self, *other),
    ;

    proof fn lemma_irreflexive(a: Self)
        ensures
            !Self::ranks_above(a, a),
    ;

    proof fn lemma_transitive(a: Self, b: Self, c: Self)
        requires
            Self::ranks_above(a, b),
            Self::ranks_above(b, c),
        ensures
            Self::ranks_above(a, c),
    ;

    /// Ranking is by a key: two values that neither outranks rank alike.
    proof fn lemma_not_above_transitive(a: Self, b: Self, c: Self)
        requires
            !Self::ranks_above(a, b),
            !Self::ranks_above(b, c),
        ensures
            !Self::ranks_above(a, c),
    ;
}

/// Where `x` goes in `r`: before the first value that it ranks above.
pub open spec fn insert_pos<T: Ranked>(r: Seq<T>, x: T) -> int
    decreases r.len(),
{
    if r.len() == 0 {
        0
    } else if T::ranks_above(x, r[0]) {
        0
    } else {
        1 + insert_pos(r.drop_first(), x)
    }
}

/// The stable descending sort: each value in turn goes after every value
/// that it does not rank above.
pub open spec fn ranked_sort<T: Ranked>(s: Seq<T>) -> Seq<T>
    decreases s.len(),
{
    if s.len() == 0 {
        Seq::empty()
    } else {
        let r = ranked_sort(s.drop_last());
        r.insert(insert_pos(r, s.last()), s.last())
    }
}

/// No value ranks above one that comes before it.
pub open spec fn is_ranked<T: Ranked>(r: Seq<T>) -> bool {
    forall|i: int, j: int| 0 <= i < j < r.len() ==> !T::ranks_above(#[trigger] r[j], #[trigger] r[i])
}

pub proof fn lemma_insert_pos<T: Ranked>(r: Seq<T>, x: T)
    ensures
        0 <= insert_pos(r, x) <= r.len(),
        forall|j: int| 0 <= j < insert_pos(r, x) ==> !T::ranks_above(x, #[trigger] r[j]),
        insert_pos(r, x) < r.len() ==> T::ranks_above(x, r[insert_pos(r, x)]),
    decreases r.len(),
{
    if r.len() > 0 && !T::ranks_above(x, r[0]) {
        lemma_insert_pos(r.drop_first(), x);
        assert forall|j: int| 0 <= j < insert_pos(r, x) implies !T::ranks_above(x, #[trigger] r[j]) by {
            if j > 0 {
                assert(r[j] == r.drop_first()[j - 1]);
            }
        }
    }
}

proof fn lemma_insert_keeps_ranked<T: Ranked>(r: Seq<T>, x: T)
    requires
        is_ranked(r),
    ensures
        is_ranked(r.insert(insert_pos(r, x), x)),
{
    lemma_insert_pos(r, x);
    let p = insert_pos(r, x);
    let q = r.insert(p, x);
    assert forall|i: int, j: int| 0 <= i < j < q.len() implies !T::ranks_above(#[trigger] q[j], #[trigger] q[i]) by {
        if i < p && j == p {
            // x does not rank above r[i]
        } else if i == p && j > p {
            // x ranks above r[p] and r[p] is not below r[j - 1]
            if j - 1 == p {
                T::lemma_irreflexive(x);
                if T::ranks_above(r[p], x) {
                    T::lemma_transitive(x, r[p], x);
                }
            } else {
                assert(!T::ranks_above(r[j - 1], r[p]));
                if T::ranks_above(r[j - 1], x) {
                    T::lemma_transitive(r[j - 1], x, r[p]);
                }
            }
        } else if i < p && j > p {
            assert(!T::ranks_above(r[j - 1], r[i]));
        } else if i > p {
            assert(!T::ranks_above(r[j - 1], r[i - 1]));
        } else {
            assert(!T::ranks_above(r[j], r[i]));
        }
    }
}

/// The sort orders its result: no value ranks above an earlier one.
pub proof fn law_sort_is_ranked<T: Ranked>(s: Seq<T>)
    ensures
        is_ranked(ranked_sort(s)),
    decreases s.len(),
{
    if s.len() > 0 {
        law_sort_is_ranked(s.drop_last());
        lemma_insert_keeps_ranked(ranked_sort(s.drop_last()), s.last());
    }
}

/// The sort only reorders: the result holds the same values, as often.
pub proof fn law_sort_permutes<T: Ranked>(s: Seq<T>)
    ensures
        ranked_sort(s).to_multiset() == s.to_multiset(),
        ranked_sort(s).len() == s.len(),
    decreases s.len(),
{
    broadcast use vstd::seq_lib::group_to_multiset_ensures;

    if s.len() > 0 {
        law_sort_permutes(s.drop_last());
        let r = ranked_sort(s.drop_last());
        lemma_insert_pos(r, s.last());
        let p = insert_pos(r, s.last());
        vstd::seq_lib::lemma_seq_union_to_multiset_commutative(r.take(p), seq![s.last()]);
        assert(r.insert(p, s.last()) =~= r.take(p) + seq![s.last()] + r.skip(p));
        assert(r =~= r.take(p) + r.skip(p));
        vstd::seq_lib::lemma_multiset_commutative(r.take(p) + seq![s.last()], r.skip(p));
        vstd::seq_lib::lemma_multiset_commutative(r.take(p), r.skip(p));
        vstd::seq_lib::lemma_multiset_commutative(r.take(p), seq![s.last()]);
        assert(s =~= s.drop_last().push(s.last()));
    }
}

/// Sorts `v` with the stable descending sort.
pub fn sort_ranked<T: Ranked>(v: Vec<T>) -> (r: Vec<T>)
    ensures
        r@ == ranked_sort(v@),
{
    let ghost s0 = v@;
    let mut v = v;
    let mut out: Vec<T> = Vec::new();
    let mut i: usize = 0;
    let n = v.len();
    assert(s0.take(0) =~= Seq::<T>::empty());
    assert(s0.skip(0) =~= s0);
    while v.len() > 0
        invariant
            n == s0.len(),
            i <= n,
            v@ =~= s0.skip(i as int),
            v@.len() == n - i,
            out@ == ranked_sort(s0.take(i as int)),
        decreases v@.len(),
    {
        let x = v.remove(0);
        assert(x == s0[i as int]);
        let ghost r = out@;
        proof {
            lemma_insert_pos(r, x);
        }
        let mut p: usize = 0;
        while p < out.len() && !x.outranks(&out[p])
            invariant
                out@ == r,
                p <= r.len(),
                insert_pos(r, x) >= p,
                forall|j: int| 0 <= j < p ==> !T::ranks_above(x, #[trigger] r[j]),
                0 <= insert_pos(r, x) <= r.len(),
                forall|j: int| 0 <= j < insert_pos(r, x) ==> !T::ranks_above(x, #[trigger] r[j]),
                insert_pos(r, x) < r.len() ==> T::ranks_above(x, r[insert_pos(r, x)]),
            decreases r.len() - p,
        {
            p = p + 1;
        }
        assert(p == insert_pos(r, x));
        out.insert(p, x);
        i = i + 1;
        assert(s0.take(i as int).drop_last() =~= s0.take(i - 1));
        assert(s0.take(i as int).last() == x);
        assert(v@ =~= s0.skip(i as int));
    }
    assert(s0.take(n as int) =~= s0);
    out
}

} // verus!
