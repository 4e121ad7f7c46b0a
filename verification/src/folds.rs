//! Sums and products of sequences of integers.

use vstd::prelude::*;

verus! {

/// The sum of the items.
pub open spec fn sum(s: Seq<int>) -> int
    decreases s.len(),
{
    if s.len() == 0 {
        0
    } else {
        sum(s.drop_last()) + s.last()
    }
}

/// The product of the items.
pub open spec fn prod(s: Seq<int>) -> int
    decreases s.len(),
{
    if s.len() == 0 {
        1
    } else {
        prod(s.drop_last()) * s.last()
    }
}

/// The items picked out by a list of positions.
pub open spec fn pick<A>(s: Seq<A>, at: Seq<usize>) -> Seq<A> {
    Seq::new(at.len(), |i: int| s[at[i] as int])
}

/// A list of positions that names every position once.
pub open spec fn is_permutation(p: Seq<usize>, n: nat) -> bool {
    &&& p.len() == n
    &&& forall|i: int| 0 <= i < p.len() ==> #[trigger] p[i] < n
    &&& forall|i: int, j: int| 0 <= i < j < p.len() ==> p[i] != p[j]
}

pub proof fn lemma_sum_remove(s: Seq<int>, i: int)
    requires
        0 <= i < s.len(),
    ensures
        sum(s) == sum(s.remove(i)) + s[i],
    decreases s.len(),
{
    if i == s.len() - 1 {
        assert(s.remove(i) =~= s.drop_last());
    } else {
        lemma_sum_remove(s.drop_last(), i);
        assert(s.remove(i).drop_last() =~= s.drop_last().remove(i));
        assert(s.remove(i).last() == s.last());
    }
}

pub proof fn lemma_prod_remove(s: Seq<int>, i: int)
    requires
        0 <= i < s.len(),
    ensures
        prod(s) == prod(s.remove(i)) * s[i],
    decreases s.len(),
{
    if i == s.len() - 1 {
        assert(s.remove(i) =~= s.drop_last());
    } else {
        lemma_prod_remove(s.drop_last(), i);
        assert(s.remove(i).drop_last() =~= s.drop_last().remove(i));
        assert(s.remove(i).last() == s.last());
        let a = prod(s.drop_last().remove(i));
        assert((a * s[i]) * s.last() == (a * s.last()) * s[i]) by (nonlinear_arith);
    }
}

pub proof fn lemma_sum_insert(s: Seq<int>, i: int, v: int)
    requires
        0 <= i <= s.len(),
    ensures
        sum(s.insert(i, v)) == sum(s) + v,
{
    lemma_sum_remove(s.insert(i, v), i);
    assert(s.insert(i, v).remove(i) =~= s);
}

pub proof fn lemma_prod_insert(s: Seq<int>, i: int, v: int)
    requires
        0 <= i <= s.len(),
    ensures
        prod(s.insert(i, v)) == prod(s) * v,
{
    lemma_prod_remove(s.insert(i, v), i);
    assert(s.insert(i, v).remove(i) =~= s);
}

pub proof fn lemma_sum_update(s: Seq<int>, i: int, v: int)
    requires
        0 <= i < s.len(),
    ensures
        sum(s.update(i, v)) == sum(s) - s[i] + v,
{
    lemma_sum_remove(s.update(i, v), i);
    lemma_sum_remove(s, i);
    assert(s.update(i, v).remove(i) =~= s.remove(i));
}

pub proof fn lemma_prod_update(s: Seq<int>, i: int, v: int)
    requires
        0 <= i < s.len(),
    ensures
        prod(s.update(i, v)) == prod(s.remove(i)) * v,
        prod(s) == prod(s.remove(i)) * s[i],
{
    lemma_prod_remove(s.update(i, v), i);
    lemma_prod_remove(s, i);
    assert(s.update(i, v).remove(i) =~= s.remove(i));
}

pub proof fn lemma_prod_positive(s: Seq<int>)
    requires
        forall|i: int| 0 <= i < s.len() ==> #[trigger] s[i] >= 1,
    ensures
        prod(s) >= 1,
    decreases s.len(),
{
    if s.len() > 0 {
        lemma_prod_positive(s.drop_last());
        let a = prod(s.drop_last());
        let b = s.last();
        assert(s[s.len() - 1] >= 1);
        assert(a * b >= 1) by (nonlinear_arith)
            requires
                a >= 1,
                b >= 1,
        ;
    }
}

/// Where a permutation names the last position.
proof fn lemma_permutation_last(p: Seq<usize>, n: nat) -> (k: int)
    requires
        is_permutation(p, n),
        n > 0,
    ensures
        0 <= k < n,
        p[k] == n - 1,
{
    if forall|i: int| 0 <= i < p.len() ==> #[trigger] p[i] != n - 1 {
        // All values lie below n - 1: n values in n - 1 places.
        let vals = p.map_values(|x: usize| x as int);
        let s = vals.to_set();
        assert(vals.no_duplicates());
        vals.unique_seq_to_set();
        let r = vstd::set_lib::set_int_range(0, n - 1);
        vstd::set_lib::lemma_int_range(0, n - 1);
        assert(s.subset_of(r)) by {
            assert forall|x: int| s.contains(x) implies r.contains(x) by {
                let i = choose|i: int| 0 <= i < vals.len() && vals[i] == x;
                assert(p[i] < n);
            }
        }
        vstd::set_lib::lemma_len_subset(s, r);
        assert(false);
    }
    choose|i: int| 0 <= i < p.len() && #[trigger] p[i] == n - 1
}

proof fn lemma_permutation_drop(p: Seq<usize>, n: nat, k: int)
    requires
        is_permutation(p, n),
        0 <= k < n,
        p[k] == n - 1,
    ensures
        is_permutation(p.remove(k), (n - 1) as nat),
{
    let q = p.remove(k);
    assert forall|i: int| 0 <= i < q.len() implies #[trigger] q[i] < n - 1 by {
        if i < k {
            assert(q[i] == p[i]);
            assert(p[i] != p[k]);
        } else {
            assert(q[i] == p[i + 1]);
            assert(p[k] != p[i + 1]);
        }
    }
    assert forall|i: int, j: int| 0 <= i < j < q.len() implies q[i] != q[j] by {
        let a = if i < k { i } else { i + 1 };
        let b = if j < k { j } else { j + 1 };
        assert(q[i] == p[a] && q[j] == p[b]);
        assert(p[a] != p[b]);
    }
}

/// Sums and products do not depend on the order of the items.
pub proof fn lemma_permuted(s: Seq<int>, p: Seq<usize>)
    requires
        is_permutation(p, s.len()),
    ensures
        sum(pick(s, p)) == sum(s),
        prod(pick(s, p)) == prod(s),
    decreases s.len(),
{
    if s.len() == 0 {
        assert(pick(s, p) =~= s);
    } else {
        let n = s.len();
        let k = lemma_permutation_last(p, n);
        lemma_permutation_drop(p, n, k);
        let q = p.remove(k);
        let t = s.drop_last();
        lemma_permuted(t, q);
        let w = pick(s, p);
        assert(w.remove(k) =~= pick(t, q)) by {
            assert forall|i: int| 0 <= i < w.remove(k).len() implies w.remove(k)[i] == pick(t, q)[i] by {
                assert(q[i] < n - 1);
            }
        }
        lemma_sum_remove(w, k);
        lemma_prod_remove(w, k);
        assert(w[k] == s.last());
    }
}

} // verus!
