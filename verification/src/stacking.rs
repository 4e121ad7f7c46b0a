//! Packed arrays of one shape can be stacked.

use vstd::prelude::*;

use crate::array::{roomy, ArrayV};
use crate::dtype::{width, Dtype};
use crate::join::{axis_total, cat_shape, joinable, lifted_at, part_fits};
use crate::layout::{
    lemma_numel_skip_step, lemma_volume_bounds, lemma_volume_skip, packed, row_major, volume,
};
use crate::words::{i32_words, i64_words};

verus! {

/// Packed arrays of one shape.
pub open spec fn alike(v: Seq<ArrayV>, s: Seq<usize>) -> bool {
    forall|i: int| 0 <= i < v.len() ==> (#[trigger] v[i]).wf() && v[i].layout == packed(s)
}

/// The shape of a stack of `n` arrays of a shape.
pub open spec fn stacked_shape(s: Seq<usize>, axis: int, n: usize) -> Seq<usize> {
    s.insert(axis, n)
}

proof fn lemma_unit_axes(w: Seq<ArrayV>, axis: int)
    requires
        forall|i: int| 0 <= i < w.len() ==> (#[trigger] w[i]).shape()[axis] == 1,
    ensures
        axis_total(w, axis) == w.len(),
    decreases w.len(),
{
    if w.len() > 0 {
        assert forall|i: int| 0 <= i < w.drop_last().len() implies (
        #[trigger] w.drop_last()[i]).shape()[axis] == 1 by {
            assert(w.drop_last()[i] == w[i]);
        }
        lemma_unit_axes(w.drop_last(), axis);
        assert(w.last() == w[w.len() - 1]);
    }
}

/// A step along an axis of a packed array, over the whole axis, stays in the array.
proof fn lemma_axis_span(s: Seq<usize>, q: int)
    requires
        roomy(s),
        0 <= q < s.len(),
    ensures
        packed(s).strides[q] == row_major(s)[q],
        packed(s).strides[q] * s[q] <= volume(s),
        packed(s).strides[q] <= volume(s),
{
    crate::views::packed_is_dense(s);
    lemma_numel_skip_step(s, q);
    lemma_volume_skip(s, q);
    lemma_volume_skip(s, q + 1);
    lemma_volume_bounds(s.skip(q));
    lemma_volume_bounds(s.skip(q + 1));
    crate::array::lemma_roomy(s, Dtype::Float32);
    let a = packed(s).strides[q] as int;
    let b = s[q] as int;
    assert(a * b == b * a) by (nonlinear_arith);
}

/// Packed arrays of one shape can be stacked along any axis.
pub proof fn alike_arrays_stack(v: Seq<ArrayV>, s: Seq<usize>, axis: int)
    requires
        alike(v, s),
        0 <= axis <= s.len(),
        v.len() <= i32::MAX,
        v.len() > 0,
        roomy(s),
        roomy(stacked_shape(s, axis, v.len() as usize)),
        forall|i: int| 0 <= i < s.len() ==> #[trigger] s[i] <= i32::MAX,
    ensures
        joinable(lifted_at(v, axis), axis),
        cat_shape(lifted_at(v, axis), axis) == stacked_shape(s, axis, v.len() as usize),
{
    let w = lifted_at(v, axis);
    let n = v.len() as usize;
    let whole = stacked_shape(s, axis, n);
    assert forall|i: int| 0 <= i < w.len() implies (#[trigger] w[i]).wf() && w[i].shape()
        == s.insert(axis, 1) && w[i].strides() == packed(s).strides.insert(axis, 0) by {
        assert(v[i].wf());
        crate::views::expanded_stays_inside(
            v[i].layout,
            axis,
            v[i].bytes as int / width(v[i].dtype) as int,
        );
    }
    lemma_unit_axes(w, axis);
    assert(w[0].shape() == s.insert(axis, 1));
    assert(cat_shape(w, axis) =~= whole);
    assert forall|i: int| 0 <= i < w.len() implies #[trigger] part_fits(w[i], whole) by {
        let a = w[i];
        assert(a.wf());
        let sh = i32_words(a.shape());
        let st = seq![i64_words(a.strides()), i64_words(packed(whole).strides)];
        assert(a.shape() == s.insert(axis, 1));
        assert forall|q: int| 0 <= q < sh.len() implies #[trigger] sh[q] == a.shape()[q] && sh[q]
            >= 0 by {
            if q < axis {
                assert(a.shape()[q] == s[q]);
            } else if q > axis {
                assert(a.shape()[q] == s[q - 1]);
            }
        }
        assert forall|j: int, q: int|
            0 <= j < st.len() && 0 <= q < sh.len() implies i64::MIN <= #[trigger] st[j][q] * sh[q]
            <= i64::MAX by {
            assert(sh[q] == a.shape()[q]);
            lemma_axis_span(whole, q);
            if j == 1 {
                assert(st[1][q] == packed(whole).strides[q]);
                if q == axis {
                    assert(sh[q] == 1);
                } else {
                    assert(whole[q] == a.shape()[q]);
                }
                lemma_nonneg(st[1][q] as int, sh[q] as int);
            } else {
                if q == axis {
                    assert(a.strides()[q] == 0);
                    assert(st[0][q] == 0);
                    assert(st[0][q] * sh[q] == 0) by (nonlinear_arith)
                        requires
                            st[0][q] == 0,
                    ;
                } else {
                    let p = if q < axis {
                        q
                    } else {
                        q - 1
                    };
                    lemma_axis_span(s, p);
                    assert(a.strides()[q] == packed(s).strides[p]);
                    assert(a.shape()[q] == s[p]);
                    assert(st[0][q] == a.strides()[q]);
                    lemma_nonneg(st[0][q] as int, sh[q] as int);
                }
            }
        }
        assert forall|j: int| 0 <= j < st.len() implies (#[trigger] st[j]).len() >= sh.len() by {}
    }
}

proof fn lemma_nonneg(a: int, b: int)
    requires
        a >= 0,
        b >= 0,
    ensures
        a * b >= 0,
{
    assert(a * b >= 0) by (nonlinear_arith)
        requires
            a >= 0,
            b >= 0,
    ;
}

} // verus!
