//! Views: layouts that address the elements of another layout.

use vstd::prelude::*;

use crate::folds::{
    is_permutation, lemma_permuted, lemma_prod_insert, lemma_prod_positive, lemma_prod_remove,
    lemma_prod_update, lemma_sum_insert, lemma_sum_remove, lemma_sum_update, pick, prod, sum,
};
use crate::layout::{
    at_least_one, dot, in_shape, is_void, lemma_numel_skip_step, lemma_numel_zero, numel, packed,
    reach, row_major, unravel, volume, LayoutV,
};

verus! {

// ---- the views ----

/// The axes in the order of `perm`.
pub open spec fn permuted(l: LayoutV, perm: Seq<usize>) -> LayoutV {
    LayoutV { shape: pick(l.shape, perm), strides: pick(l.strides, perm), offset: l.offset }
}

/// A new axis of size one.
pub open spec fn expanded(l: LayoutV, axis: int) -> LayoutV {
    LayoutV {
        shape: l.shape.insert(axis, 1),
        strides: l.strides.insert(axis, 0),
        offset: l.offset,
    }
}

/// One axis left out.
pub open spec fn squeezed(l: LayoutV, axis: int) -> LayoutV {
    LayoutV { shape: l.shape.remove(axis), strides: l.strides.remove(axis), offset: l.offset }
}

/// `len` positions of one axis, from `start` on.
pub open spec fn narrowed(l: LayoutV, axis: int, start: usize, len: usize) -> LayoutV {
    LayoutV {
        shape: l.shape.update(axis, len),
        strides: l.strides,
        offset: (l.offset + start * l.strides[axis]) as usize,
    }
}

/// How many of `d` positions are left of every `step`-th, from the first on.
pub open spec fn thin_len(d: usize, step: usize) -> usize {
    if d == 0 {
        0
    } else {
        ((d - 1) / (step as int) + 1) as usize
    }
}

/// Every `step`-th position of one axis. The stride of an axis that keeps at most
/// one position is left as it is.
pub open spec fn thinned(l: LayoutV, axis: int, step: usize) -> LayoutV {
    let len = thin_len(l.shape[axis], step);
    LayoutV {
        shape: l.shape.update(axis, len),
        strides: if len <= 1 {
            l.strides
        } else {
            l.strides.update(axis, (l.strides[axis] * step) as usize)
        },
        offset: l.offset,
    }
}

/// Whether a shape can be spread over another of the same rank: each axis is
/// equal, or has size one.
pub open spec fn spreads(have: Seq<usize>, want: Seq<usize>) -> bool {
    &&& have.len() == want.len()
    &&& forall|i: int|
        0 <= i < want.len() ==> #[trigger] have[i] == want[i] || have[i] == 1
}

/// The layout spread over a shape: an axis that grows is not advanced in.
pub open spec fn spread(l: LayoutV, want: Seq<usize>) -> LayoutV {
    LayoutV {
        shape: want,
        strides: Seq::new(
            l.strides.len(),
            |i: int| if l.shape[i] == want[i] { l.strides[i] } else { 0 },
        ),
        offset: l.offset,
    }
}

/// The row-major layout of another shape, from the same first element.
pub open spec fn reshaped(l: LayoutV, shape: Seq<usize>) -> LayoutV {
    LayoutV { shape, strides: packed(shape).strides, offset: l.offset }
}

/// The axes with two of them exchanged.
pub open spec fn swap_perm(rank: nat, a: int, b: int) -> Seq<usize> {
    Seq::new(
        rank,
        |i: int|
            (if i == a {
                b
            } else if i == b {
                a
            } else {
                i
            }) as usize,
    )
}

// ---- sizes and reach as folds ----

/// The distance that an axis adds to the furthest element.
pub open spec fn term(shape: Seq<usize>, strides: Seq<usize>, i: int) -> int {
    (at_least_one(shape[i]) - 1) * strides[i]
}

pub open spec fn terms(shape: Seq<usize>, strides: Seq<usize>) -> Seq<int> {
    Seq::new(shape.len(), |i: int| term(shape, strides, i))
}

pub open spec fn factors(shape: Seq<usize>) -> Seq<int> {
    shape.map_values(|d: usize| at_least_one(d) as int)
}

pub open spec fn counts(shape: Seq<usize>) -> Seq<int> {
    shape.map_values(|d: usize| d as int)
}

pub proof fn lemma_reach_sum(shape: Seq<usize>, strides: Seq<usize>)
    requires
        shape.len() == strides.len(),
    ensures
        reach(shape, strides) == sum(terms(shape, strides)),
    decreases shape.len(),
{
    if shape.len() > 0 {
        lemma_reach_sum(shape.drop_last(), strides.drop_last());
        assert(terms(shape, strides).drop_last() =~= terms(shape.drop_last(), strides.drop_last()));
        let a = at_least_one(shape.last()) - 1;
        let b = strides.last() as int;
        assert(a * b >= 0) by (nonlinear_arith)
            requires
                a >= 0,
                b >= 0,
        ;
    }
}

pub proof fn lemma_volume_prod(shape: Seq<usize>)
    ensures
        volume(shape) == prod(factors(shape)),
    decreases shape.len(),
{
    if shape.len() > 0 {
        lemma_volume_prod(shape.drop_last());
        assert(factors(shape).drop_last() =~= factors(shape.drop_last()));
    }
}

pub proof fn lemma_numel_prod(shape: Seq<usize>)
    ensures
        numel(shape) == prod(counts(shape)),
    decreases shape.len(),
{
    if shape.len() > 0 {
        lemma_numel_prod(shape.drop_last());
        assert(counts(shape).drop_last() =~= counts(shape.drop_last()));
    }
}

// ---- each view stays inside its store ----

/// A permuted view addresses the same elements: it stays inside every store
/// that holds the original and has as many elements.
pub proof fn permuted_stays_inside(l: LayoutV, perm: Seq<usize>, cap: int)
    requires
        l.wf(),
        is_permutation(perm, l.shape.len()),
        l.inside(cap),
    ensures
        permuted(l, perm).wf(),
        permuted(l, perm).inside(cap),
        volume(permuted(l, perm).shape) == volume(l.shape),
        numel(permuted(l, perm).shape) == numel(l.shape),
        reach(permuted(l, perm).shape, permuted(l, perm).strides) == reach(l.shape, l.strides),
        is_void(permuted(l, perm).shape) == is_void(l.shape),
{
    let m = permuted(l, perm);
    lemma_reach_sum(l.shape, l.strides);
    lemma_reach_sum(m.shape, m.strides);
    assert(terms(m.shape, m.strides) =~= pick(terms(l.shape, l.strides), perm)) by {
        assert forall|i: int| 0 <= i < perm.len() implies #[trigger] terms(m.shape, m.strides)[i]
            == pick(terms(l.shape, l.strides), perm)[i] by {
            assert(perm[i] < l.shape.len());
        }
    }
    lemma_permuted(terms(l.shape, l.strides), perm);
    lemma_volume_prod(l.shape);
    lemma_volume_prod(m.shape);
    assert(factors(m.shape) =~= pick(factors(l.shape), perm)) by {
        assert forall|i: int| 0 <= i < perm.len() implies #[trigger] factors(m.shape)[i] == pick(
            factors(l.shape),
            perm,
        )[i] by {
            assert(perm[i] < l.shape.len());
        }
    }
    lemma_permuted(factors(l.shape), perm);
    lemma_numel_prod(l.shape);
    lemma_numel_prod(m.shape);
    assert(counts(m.shape) =~= pick(counts(l.shape), perm)) by {
        assert forall|i: int| 0 <= i < perm.len() implies #[trigger] counts(m.shape)[i] == pick(
            counts(l.shape),
            perm,
        )[i] by {
            assert(perm[i] < l.shape.len());
        }
    }
    lemma_permuted(counts(l.shape), perm);
    lemma_numel_zero(l.shape);
    lemma_numel_zero(m.shape);
}

/// A new axis of size one changes neither the elements nor their number.
pub proof fn expanded_stays_inside(l: LayoutV, axis: int, cap: int)
    requires
        l.wf(),
        0 <= axis <= l.shape.len(),
        l.inside(cap),
    ensures
        expanded(l, axis).wf(),
        expanded(l, axis).inside(cap),
        volume(expanded(l, axis).shape) == volume(l.shape),
        numel(expanded(l, axis).shape) == numel(l.shape),
        is_void(expanded(l, axis).shape) == is_void(l.shape),
{
    let m = expanded(l, axis);
    lemma_reach_sum(l.shape, l.strides);
    lemma_reach_sum(m.shape, m.strides);
    let (a, b) = (terms(m.shape, m.strides), terms(l.shape, l.strides).insert(axis, 0));
    assert(m.shape[axis] == 1 && m.strides[axis] == 0);
    assert(term(m.shape, m.strides, axis) == 0) by (nonlinear_arith)
        requires
            term(m.shape, m.strides, axis) == (at_least_one(m.shape[axis]) - 1) * m.strides[axis],
            m.strides[axis] == 0,
    ;
    assert forall|i: int| 0 <= i < a.len() implies a[i] == b[i] by {
        if i < axis {
            assert(m.shape[i] == l.shape[i] && m.strides[i] == l.strides[i]);
        } else if i > axis {
            assert(m.shape[i] == l.shape[i - 1] && m.strides[i] == l.strides[i - 1]);
        }
    }
    assert(a =~= b);
    lemma_sum_insert(terms(l.shape, l.strides), axis, 0);
    lemma_volume_prod(l.shape);
    lemma_volume_prod(m.shape);
    assert(factors(m.shape) =~= factors(l.shape).insert(axis, 1));
    lemma_prod_insert(factors(l.shape), axis, 1);
    lemma_numel_prod(l.shape);
    lemma_numel_prod(m.shape);
    assert(counts(m.shape) =~= counts(l.shape).insert(axis, 1));
    lemma_prod_insert(counts(l.shape), axis, 1);
    lemma_numel_zero(l.shape);
    lemma_numel_zero(m.shape);
}

/// Leaving out an axis of size one changes neither the elements nor their
/// number.
pub proof fn squeezed_stays_inside(l: LayoutV, axis: int, cap: int)
    requires
        l.wf(),
        0 <= axis < l.shape.len(),
        l.shape[axis] == 1,
        l.inside(cap),
    ensures
        squeezed(l, axis).wf(),
        squeezed(l, axis).inside(cap),
        volume(squeezed(l, axis).shape) == volume(l.shape),
        numel(squeezed(l, axis).shape) == numel(l.shape),
        is_void(squeezed(l, axis).shape) == is_void(l.shape),
{
    let m = squeezed(l, axis);
    lemma_reach_sum(l.shape, l.strides);
    lemma_reach_sum(m.shape, m.strides);
    assert(terms(m.shape, m.strides) =~= terms(l.shape, l.strides).remove(axis));
    lemma_sum_remove(terms(l.shape, l.strides), axis);
    assert(terms(l.shape, l.strides)[axis] == 0 * l.strides[axis]);
    lemma_volume_prod(l.shape);
    lemma_volume_prod(m.shape);
    assert(factors(m.shape) =~= factors(l.shape).remove(axis));
    lemma_prod_remove(factors(l.shape), axis);
    lemma_numel_prod(l.shape);
    lemma_numel_prod(m.shape);
    assert(counts(m.shape) =~= counts(l.shape).remove(axis));
    lemma_prod_remove(counts(l.shape), axis);
    lemma_numel_zero(l.shape);
    lemma_numel_zero(m.shape);
}

/// A slice of one axis stays inside the store of the whole.
pub proof fn narrowed_stays_inside(l: LayoutV, axis: int, start: usize, len: usize, cap: int)
    requires
        l.wf(),
        0 <= axis < l.shape.len(),
        start + len <= l.shape[axis],
        l.offset + start * l.strides[axis] <= usize::MAX,
        l.inside(cap),
    ensures
        narrowed(l, axis, start, len).wf(),
        narrowed(l, axis, start, len).inside(cap),
        volume(narrowed(l, axis, start, len).shape) <= volume(l.shape),
        !is_void(l.shape) && len > 0 ==> !is_void(narrowed(l, axis, start, len).shape),
        is_void(l.shape) ==> is_void(narrowed(l, axis, start, len).shape),
{
    let m = narrowed(l, axis, start, len);
    lemma_volume_prod(l.shape);
    lemma_volume_prod(m.shape);
    let f = factors(l.shape);
    let v = at_least_one(len) as int;
    assert(factors(m.shape) =~= f.update(axis, v));
    lemma_prod_update(f, axis, v);
    assert forall|i: int| 0 <= i < f.remove(axis).len() implies #[trigger] f.remove(axis)[i] >= 1 by {
    }
    lemma_prod_positive(f.remove(axis));
    let rest = prod(f.remove(axis));
    assert(rest * v <= rest * f[axis]) by (nonlinear_arith)
        requires
            rest >= 1,
            v <= f[axis],
    ;
    if is_void(l.shape) {
        let i = choose|i: int| 0 <= i < l.shape.len() && #[trigger] l.shape[i] == 0;
        if i == axis {
            assert(m.shape[axis] == 0);
        } else {
            assert(m.shape[i] == 0);
        }
    } else if len > 0 {
        assert forall|i: int| 0 <= i < m.shape.len() implies #[trigger] m.shape[i] != 0 by {
            assert(l.shape[i] != 0);
        }
        lemma_reach_sum(l.shape, l.strides);
        lemma_reach_sum(m.shape, m.strides);
        let t = terms(l.shape, l.strides);
        let w = (len - 1) * l.strides[axis];
        assert(terms(m.shape, m.strides) =~= t.update(axis, w));
        lemma_sum_update(t, axis, w);
        let d = l.shape[axis] as int;
        let st = l.strides[axis] as int;
        assert(start * st + (len - 1) * st <= (d - 1) * st) by (nonlinear_arith)
            requires
                start + len <= d,
                st >= 0,
        ;
        assert(t[axis] == (d - 1) * st);
    } else {
        assert(m.shape[axis] == 0);
    }
}

/// Thinning an axis leaves no more positions than there were.
pub proof fn lemma_thin_len(d: usize, step: usize)
    requires
        step > 0,
    ensures
        thin_len(d, step) <= d,
        thin_len(d, step) == 0 <==> d == 0,
        d > 0 ==> thin_len(d, step) == (d - 1) / (step as int) + 1,
        d > 0 ==> (thin_len(d, step) - 1) * step <= d - 1,
{
    if d > 0 {
        let q = (d - 1) / (step as int);
        assert(0 <= q <= d - 1 && q * step <= d - 1) by (nonlinear_arith)
            requires
                q == (d - 1) / (step as int),
                step > 0,
                d > 0,
        ;
    }
}

/// A thinned view reads no element that the original does not.
pub proof fn thinned_stays_inside(l: LayoutV, axis: int, step: usize, cap: int)
    requires
        l.wf(),
        0 <= axis < l.shape.len(),
        step > 0,
        thin_len(l.shape[axis], step) > 1 ==> l.strides[axis] * step <= usize::MAX,
        l.inside(cap),
    ensures
        thinned(l, axis, step).wf(),
        thinned(l, axis, step).inside(cap),
        volume(thinned(l, axis, step).shape) <= volume(l.shape),
{
    let m = thinned(l, axis, step);
    let len = thin_len(l.shape[axis], step);
    lemma_thin_len(l.shape[axis], step);
    lemma_volume_prod(l.shape);
    lemma_volume_prod(m.shape);
    let f = factors(l.shape);
    let v = at_least_one(len) as int;
    assert(factors(m.shape) =~= f.update(axis, v));
    lemma_prod_update(f, axis, v);
    assert forall|i: int| 0 <= i < f.remove(axis).len() implies #[trigger] f.remove(axis)[i] >= 1 by {
    }
    lemma_prod_positive(f.remove(axis));
    let rest = prod(f.remove(axis));
    assert(rest * v <= rest * f[axis]) by (nonlinear_arith)
        requires
            rest >= 1,
            v <= f[axis],
    ;
    if is_void(l.shape) {
        let i = choose|i: int| 0 <= i < l.shape.len() && #[trigger] l.shape[i] == 0;
        assert(m.shape[i] == 0);
    } else {
        assert(l.shape[axis] != 0);
        lemma_reach_sum(l.shape, l.strides);
        lemma_reach_sum(m.shape, m.strides);
        let t = terms(l.shape, l.strides);
        let w = (len - 1) * m.strides[axis];
        assert(terms(m.shape, m.strides) =~= t.update(axis, w));
        lemma_sum_update(t, axis, w);
        let d = l.shape[axis] as int;
        let st = l.strides[axis] as int;
        if len > 1 {
            assert((len - 1) * (st * step) <= (d - 1) * st) by (nonlinear_arith)
                requires
                    (len - 1) * step <= d - 1,
                    st >= 0,
            ;
        } else {
            assert(0 * (m.strides[axis] as int) == 0 && 0 <= (d - 1) * st) by (nonlinear_arith)
                requires
                    d >= 1,
                    st >= 0,
            ;
        }
        assert(t[axis] == (d - 1) * st);
    }
}

/// A spread view reads no element that the original does not.
pub proof fn spread_stays_inside(l: LayoutV, want: Seq<usize>, cap: int)
    requires
        l.wf(),
        spreads(l.shape, want),
        l.inside(cap),
    ensures
        spread(l, want).wf(),
        spread(l, want).inside(cap),
{
    let m = spread(l, want);
    lemma_reach_sum(l.shape, l.strides);
    lemma_reach_sum(m.shape, m.strides);
    assert(terms(m.shape, m.strides) =~= terms(l.shape, l.strides)) by {
        assert forall|i: int| 0 <= i < want.len() implies #[trigger] terms(m.shape, m.strides)[i]
            == terms(l.shape, l.strides)[i] by {
            assert(l.shape[i] == want[i] || l.shape[i] == 1);
            if l.shape[i] != want[i] {
                let a = at_least_one(want[i]) - 1;
                assert(a * 0 == 0);
                let s = l.strides[i] as int;
                assert(0 * s == 0);
            }
        }
    }
    if is_void(l.shape) {
        let i = choose|i: int| 0 <= i < l.shape.len() && #[trigger] l.shape[i] == 0;
        assert(want[i] == 0);
    }
}

/// The furthest element of a row-major layout is its last.
pub proof fn dense_reach(l: LayoutV)
    requires
        l.wf(),
        l.dense(),
        !is_void(l.shape),
    ensures
        reach(l.shape, l.strides) + 1 == numel(l.shape),
{
    lemma_reach_sum(l.shape, l.strides);
    let t = terms(l.shape, l.strides);
    lemma_dense_tail(l, 0);
    assert(t.skip(0) =~= t);
    assert(l.shape.skip(0) =~= l.shape);
}

proof fn lemma_sum_skip(s: Seq<int>, i: int)
    requires
        0 <= i < s.len(),
    ensures
        sum(s.skip(i)) == s[i] + sum(s.skip(i + 1)),
{
    lemma_sum_remove(s.skip(i), 0);
    assert(s.skip(i).remove(0) =~= s.skip(i + 1));
}

proof fn lemma_dense_tail(l: LayoutV, i: int)
    requires
        l.wf(),
        l.dense(),
        !is_void(l.shape),
        0 <= i <= l.shape.len(),
    ensures
        sum(terms(l.shape, l.strides).skip(i)) + 1 == numel(l.shape.skip(i)),
    decreases l.shape.len() - i,
{
    let t = terms(l.shape, l.strides);
    if i == l.shape.len() {
        assert(t.skip(i) =~= Seq::<int>::empty());
        assert(l.shape.skip(i) =~= Seq::<usize>::empty());
    } else {
        lemma_dense_tail(l, i + 1);
        lemma_sum_skip(t, i);
        lemma_numel_skip_step(l.shape, i);
        let d = l.shape[i] as int;
        assert(l.shape[i] != 0);
        let n = numel(l.shape.skip(i + 1)) as int;
        if d == 1 {
            assert(t[i] == 0 * l.strides[i]);
            assert(1 * n == n) by (nonlinear_arith);
        } else {
            assert(l.strides[i] == row_major(l.shape)[i]);
            assert(t[i] == (d - 1) * n);
            assert((d - 1) * n + n == d * n) by (nonlinear_arith);
        }
    }
}

/// The strides of a packed layout are the row-major ones when the sizes fit,
/// and such a layout is dense.
pub proof fn packed_is_dense(shape: Seq<usize>)
    requires
        volume(shape) <= usize::MAX,
    ensures
        packed(shape).wf(),
        packed(shape).dense(),
        forall|i: int| 0 <= i < shape.len() ==> #[trigger] packed(shape).strides[i] == row_major(shape)[i],
{
    assert forall|i: int| 0 <= i < shape.len() implies #[trigger] packed(shape).strides[i]
        == row_major(shape)[i] by {
        crate::layout::lemma_volume_skip(shape, i + 1);
        crate::layout::lemma_volume_bounds(shape.skip(i + 1));
    }
    assert forall|i: int| 0 <= i < shape.len() implies #[trigger] packed(shape).shape[i] == 1
        || packed(shape).strides[i] == row_major(shape)[i] by {
        assert(packed(shape).strides[i] == row_major(shape)[i]);
    }
}

/// A reshaped dense layout addresses the same elements.
pub proof fn reshaped_stays_inside(l: LayoutV, shape: Seq<usize>, cap: int)
    requires
        l.wf(),
        l.dense(),
        numel(shape) == numel(l.shape),
        volume(shape) <= usize::MAX,
        l.inside(cap),
    ensures
        reshaped(l, shape).wf(),
        reshaped(l, shape).dense(),
        reshaped(l, shape).inside(cap),
{
    let m = reshaped(l, shape);
    packed_is_dense(shape);
    assert(m.dense()) by {
        assert forall|i: int| 0 <= i < m.shape.len() implies #[trigger] m.shape[i] == 1
            || m.strides[i] == row_major(m.shape)[i] by {
            assert(packed(shape).strides[i] == row_major(shape)[i]);
        }
    }
    lemma_numel_zero(l.shape);
    lemma_numel_zero(shape);
    if !is_void(l.shape) {
        dense_reach(l);
        dense_reach(m);
    }
}

/// A packed layout fits exactly a store of as many elements as the shape has.
pub proof fn packed_stays_inside(shape: Seq<usize>)
    requires
        volume(shape) <= usize::MAX,
    ensures
        packed(shape).inside(numel(shape) as int),
{
    packed_is_dense(shape);
    if !is_void(shape) {
        dense_reach(packed(shape));
    }
}

// ---- laws of addressing ----

/// Positions times strides, axis by axis.
pub open spec fn steps(idx: Seq<int>, strides: Seq<usize>) -> Seq<int> {
    Seq::new(idx.len(), |i: int| idx[i] * strides[i])
}

pub proof fn lemma_dot_sum(idx: Seq<int>, strides: Seq<usize>)
    requires
        idx.len() == strides.len(),
    ensures
        dot(idx, strides) == sum(steps(idx, strides)),
    decreases idx.len(),
{
    if idx.len() > 0 {
        lemma_dot_sum(idx.drop_last(), strides.drop_last());
        assert(steps(idx, strides).drop_last() =~= steps(idx.drop_last(), strides.drop_last()));
    }
}

/// Every element of a layout that lies inside a store has its place there.
pub proof fn element_is_inside(l: LayoutV, idx: Seq<int>, cap: int)
    requires
        l.wf(),
        l.inside(cap),
        in_shape(idx, l.shape),
    ensures
        l.offset <= l.at(idx) < cap,
{
    lemma_dot_bounds(idx, l.shape, l.strides);
    if is_void(l.shape) {
        let i = choose|i: int| 0 <= i < l.shape.len() && #[trigger] l.shape[i] == 0;
        assert(0 <= idx[i] < l.shape[i]);
    }
}

pub proof fn lemma_dot_bounds(idx: Seq<int>, shape: Seq<usize>, strides: Seq<usize>)
    requires
        shape.len() == strides.len(),
        in_shape(idx, shape),
    ensures
        0 <= dot(idx, strides) <= reach(shape, strides),
    decreases idx.len(),
{
    if idx.len() > 0 {
        let n = idx.len() - 1;
        assert(in_shape(idx.drop_last(), shape.drop_last())) by {
            assert forall|i: int| 0 <= i < n implies 0 <= #[trigger] idx.drop_last()[i]
                < shape.drop_last()[i] by {
                assert(0 <= idx[i] < shape[i]);
            }
        }
        lemma_dot_bounds(idx.drop_last(), shape.drop_last(), strides.drop_last());
        assert(0 <= idx[n] < shape[n]);
        let i = idx.last();
        let d = shape.last() as int;
        let s = strides.last() as int;
        assert(0 <= i * s <= (d - 1) * s) by (nonlinear_arith)
            requires
                0 <= i < d,
                s >= 0,
        ;
    }
}

/// The element of a permuted view at a position is the element of the original
/// whose position on the axis `perm[i]` is the view's position on the axis `i`.
pub proof fn permuted_element(l: LayoutV, perm: Seq<usize>, idx: Seq<int>)
    requires
        l.wf(),
        is_permutation(perm, l.shape.len()),
        idx.len() == l.shape.len(),
    ensures
        permuted(l, perm).at(pick(idx, perm)) == l.at(idx),
{
    let m = permuted(l, perm);
    lemma_dot_sum(idx, l.strides);
    lemma_dot_sum(pick(idx, perm), m.strides);
    assert(steps(pick(idx, perm), m.strides) =~= pick(steps(idx, l.strides), perm)) by {
        assert forall|i: int| 0 <= i < perm.len() implies #[trigger] steps(
            pick(idx, perm),
            m.strides,
        )[i] == pick(steps(idx, l.strides), perm)[i] by {
            assert(perm[i] < l.shape.len());
        }
    }
    lemma_permuted(steps(idx, l.strides), perm);
}

/// The element of a slice at a position is the element of the whole that lies
/// `start` further along the sliced axis.
pub proof fn narrowed_element(l: LayoutV, axis: int, start: usize, len: usize, idx: Seq<int>)
    requires
        l.wf(),
        0 <= axis < l.shape.len(),
        idx.len() == l.shape.len(),
        l.offset + start * l.strides[axis] <= usize::MAX,
    ensures
        narrowed(l, axis, start, len).at(idx) == l.at(idx.update(axis, idx[axis] + start)),
{
    let m = narrowed(l, axis, start, len);
    let j = idx.update(axis, idx[axis] + start);
    lemma_dot_sum(idx, l.strides);
    lemma_dot_sum(j, l.strides);
    let s = steps(idx, l.strides);
    let v = (idx[axis] + start) * l.strides[axis];
    assert(steps(j, l.strides) =~= s.update(axis, v));
    lemma_sum_update(s, axis, v);
    let a = idx[axis];
    let st = l.strides[axis] as int;
    assert((a + start) * st == a * st + start * st) by (nonlinear_arith);
}

/// The element of a thinned view at a position is the element of the original at
/// the same position, as many steps along the axis.
pub proof fn thinned_element(l: LayoutV, axis: int, step: usize, idx: Seq<int>)
    requires
        l.wf(),
        0 <= axis < l.shape.len(),
        step > 0,
        thin_len(l.shape[axis], step) > 1 ==> l.strides[axis] * step <= usize::MAX,
        in_shape(idx, thinned(l, axis, step).shape),
    ensures
        thinned(l, axis, step).at(idx) == l.at(idx.update(axis, idx[axis] * step)),
{
    let m = thinned(l, axis, step);
    let j = idx.update(axis, idx[axis] * step);
    lemma_dot_sum(idx, m.strides);
    lemma_dot_sum(j, l.strides);
    let a = idx[axis];
    let st = l.strides[axis] as int;
    assert(m.shape[axis] == thin_len(l.shape[axis], step));
    assert(0 <= a < thin_len(l.shape[axis], step));
    assert(a * (st * step) == (a * step) * st) by (nonlinear_arith);
    assert(a == 0 ==> a * (m.strides[axis] as int) == (a * step) * st) by (nonlinear_arith);
    assert(steps(idx, m.strides) =~= steps(j, l.strides));
}

/// The element of a spread view at a position is the element of the original
/// at the same position, with zero on every axis that grew.
pub proof fn spread_element(l: LayoutV, want: Seq<usize>, idx: Seq<int>)
    requires
        l.wf(),
        spreads(l.shape, want),
        in_shape(idx, want),
    ensures
        spread(l, want).at(idx) == l.at(
            Seq::new(idx.len(), |i: int| if l.shape[i] == want[i] { idx[i] } else { 0 }),
        ),
        in_shape(
            Seq::new(idx.len(), |i: int| if l.shape[i] == want[i] { idx[i] } else { 0 }),
            l.shape,
        ),
{
    let m = spread(l, want);
    let j = Seq::new(idx.len(), |i: int| if l.shape[i] == want[i] { idx[i] } else { 0 });
    lemma_dot_sum(idx, m.strides);
    lemma_dot_sum(j, l.strides);
    assert(steps(idx, m.strides) =~= steps(j, l.strides)) by {
        assert forall|i: int| 0 <= i < idx.len() implies #[trigger] steps(idx, m.strides)[i]
            == steps(j, l.strides)[i] by {
            if l.shape[i] != want[i] {
                let a = idx[i];
                let s = l.strides[i] as int;
                assert(a * 0 == 0);
                assert(0 * s == 0);
            }
        }
    }
    assert forall|i: int| 0 <= i < j.len() implies 0 <= #[trigger] j[i] < l.shape[i] by {
        assert(l.shape[i] == want[i] || l.shape[i] == 1);
        assert(0 <= idx[i] < want[i]);
    }
}

/// Adding an axis of size one and leaving it out again gives back the layout.
pub proof fn squeeze_undoes_expand(l: LayoutV, axis: int)
    requires
        l.wf(),
        0 <= axis <= l.shape.len(),
    ensures
        squeezed(expanded(l, axis), axis) == l,
{
    let m = squeezed(expanded(l, axis), axis);
    assert(m.shape =~= l.shape);
    assert(m.strides =~= l.strides);
}

/// Exchanging two axes twice gives back the layout.
pub proof fn swapping_twice_is_identity(l: LayoutV, a: int, b: int)
    requires
        l.wf(),
        l.shape.len() <= usize::MAX,
        0 <= a < l.shape.len(),
        0 <= b < l.shape.len(),
    ensures
        permuted(permuted(l, swap_perm(l.shape.len(), a, b)), swap_perm(l.shape.len(), a, b)) == l,
        is_permutation(swap_perm(l.shape.len(), a, b), l.shape.len()),
{
    let p = swap_perm(l.shape.len(), a, b);
    let m = permuted(permuted(l, p), p);
    assert(m.shape =~= l.shape);
    assert(m.strides =~= l.strides);
}

/// A row-major layout lists the elements in row-major order: the `k`-th
/// element lies `k` places after the first.
pub proof fn dense_order(l: LayoutV, k: int)
    requires
        l.wf(),
        l.dense(),
        0 <= k < numel(l.shape),
    ensures
        in_shape(unravel(l.shape, k), l.shape),
        l.at(unravel(l.shape, k)) == l.offset + k,
{
    lemma_unravel(l.shape, k);
    let idx = unravel(l.shape, k);
    let want = row_strides(l.shape);
    lemma_dot_sum(idx, l.strides);
    assert(steps(idx, l.strides) =~= nat_steps(idx, want)) by {
        assert forall|i: int| 0 <= i < idx.len() implies #[trigger] steps(idx, l.strides)[i]
            == nat_steps(idx, want)[i] by {
            assert(0 <= idx[i] < l.shape[i]);
            if l.shape[i] == 1 {
                let a = l.strides[i] as int;
                let b = want[i];
                assert(0 * a == 0 && 0 * b == 0);
            }
        }
    }
}

pub open spec fn row_strides(s: Seq<usize>) -> Seq<int> {
    Seq::new(s.len(), |i: int| numel(s.skip(i + 1)) as int)
}

pub open spec fn nat_steps(idx: Seq<int>, strides: Seq<int>) -> Seq<int> {
    Seq::new(idx.len(), |i: int| idx[i] * strides[i])
}

proof fn lemma_scale_sum(s: Seq<int>, c: int)
    ensures
        sum(s.map_values(|x: int| x * c)) == sum(s) * c,
    decreases s.len(),
{
    let m = s.map_values(|x: int| x * c);
    if s.len() > 0 {
        lemma_scale_sum(s.drop_last(), c);
        assert(m.drop_last() =~= s.drop_last().map_values(|x: int| x * c));
        let a = sum(s.drop_last());
        let b = s.last();
        assert((a + b) * c == a * c + b * c) by (nonlinear_arith);
    } else {
        assert(0 * c == 0) by (nonlinear_arith);
    }
}

pub proof fn lemma_unravel(shape: Seq<usize>, k: int)
    requires
        0 <= k < numel(shape),
    ensures
        in_shape(unravel(shape, k), shape),
        sum(nat_steps(unravel(shape, k), row_strides(shape))) == k,
    decreases shape.len(),
{
    if shape.len() > 0 {
        let head = shape.drop_last();
        let d = shape.last() as int;
        let n = numel(head) as int;
        if d <= 0 {
            assert(n * 0 == 0);
            assert(false);
        }
        let q = k / d;
        let r = k % d;
        assert(0 <= q < n && 0 <= r < d && q * d + r == k) by (nonlinear_arith)
            requires
                0 <= k < n * d,
                d > 0,
                q == k / d,
                r == k % d,
        ;
        lemma_unravel(head, q);
        let idx = unravel(shape, k);
        let front = unravel(head, q);
        assert(idx =~= front.push(r));
        assert forall|i: int| 0 <= i < idx.len() implies 0 <= #[trigger] idx[i] < shape[i] by {
            if i < front.len() {
                assert(0 <= front[i] < head[i]);
            }
        }
        let st = nat_steps(idx, row_strides(shape));
        let fs = nat_steps(front, row_strides(head));
        assert(st.drop_last() =~= fs.map_values(|x: int| x * d)) by {
            assert forall|i: int| 0 <= i < fs.len() implies #[trigger] st.drop_last()[i] == fs[i]
                * d by {
                assert(shape.skip(i + 1).drop_last() =~= head.skip(i + 1));
                let a = idx[i];
                let b = numel(head.skip(i + 1)) as int;
                assert(numel(shape.skip(i + 1)) == b * d);
                assert(a * (b * d) == (a * b) * d) by (nonlinear_arith);
            }
        }
        lemma_scale_sum(fs, d);
        assert(shape.skip(shape.len() as int) =~= Seq::<usize>::empty());
        assert(st.last() == r * 1);
    }
}

/// Two elements at one position are the same element.
pub proof fn positions_are_distinct(shape: Seq<usize>, j: int, k: int)
    requires
        0 <= j < numel(shape),
        0 <= k < numel(shape),
        unravel(shape, j) == unravel(shape, k),
    ensures
        j == k,
{
    lemma_unravel(shape, j);
    lemma_unravel(shape, k);
}

} // verus!
