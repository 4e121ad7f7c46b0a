//! Picking, joining and repeating arrays.

use vstd::prelude::*;

use crate::array::{
    broadcast_s, contiguous_s, copied_s, err, flatten_s, fresh, lemma_roomy, reshape_s, roomy,
    seen, with_room, zeros_tape, Array, ArrayV, Outcome,
};
use crate::collapse::{
    collapse_contiguous_dims, collapsed_shape, collapsed_strides, collapsible, stride_views,
};
use crate::dtype::{metal_text, width, Dtype};
use crate::elementwise::{kernel_tag, kernel_tag_text};
use crate::error::Error;
use crate::launch::{block_dims, get_block_dims};
use crate::layout::{
    copy_sizes, is_void, lemma_small_volume, lemma_volume_bounds, lemma_volume_skip,
    lemma_volume_take, numel, packed, product, reach, volume,
};
use crate::search::{sizes_before, sizes_from};
use crate::tape::{
    dim3, fresh_program, max_int, max_usize, program, Arg, ArgV, CmdV, Dim3, Dispatch, DispatchV,
    Grid, Math, MetalFile, Tape, TapeV,
};
use crate::text::{cat2, cat3, cat4, cat5, dec, decimal_usize};
use crate::views::{narrowed, squeezed};
use crate::words::{i32_words, i64_words, to_i32s, to_i64s, to_u64s, u64_words};

verus! {

// ---- picking one position ----

/// A slice with elements keeps its byte offset in range.
pub proof fn lemma_narrow_fits(a: ArrayV, axis: int, start: usize, len: usize)
    requires
        a.wf(),
        !is_void(a.shape()),
        0 <= axis < a.rank(),
        len > 0,
        start + len <= a.shape()[axis],
    ensures
        (a.layout.offset + start * a.strides()[axis]) * width(a.dtype) <= usize::MAX,
{
    let l = a.layout;
    crate::views::lemma_reach_sum(l.shape, l.strides);
    let t = crate::views::terms(l.shape, l.strides);
    crate::folds::lemma_sum_remove(t, axis);
    lemma_sum_nonneg(t.remove(axis));
    let d = l.shape[axis] as int;
    let s = l.strides[axis] as int;
    assert(t[axis] == (d - 1) * s);
    assert(start * s <= (d - 1) * s) by (nonlinear_arith)
        requires
            start <= d - 1,
            s >= 0,
    ;
    let w = width(a.dtype) as int;
    let o = l.offset + start * s;
    let cap = a.bytes as int / w;
    assert(o <= l.offset + reach(l.shape, l.strides));
    assert(o * w <= a.bytes) by (nonlinear_arith)
        requires
            o < cap,
            cap == a.bytes as int / w,
            w >= 1,
            a.bytes >= 0,
    ;
}

proof fn lemma_sum_nonneg(s: Seq<int>)
    requires
        forall|i: int| 0 <= i < s.len() ==> #[trigger] s[i] >= 0,
    ensures
        crate::folds::sum(s) >= 0,
    decreases s.len(),
{
    if s.len() > 0 {
        assert(s[s.len() - 1] >= 0);
        assert forall|i: int| 0 <= i < s.drop_last().len() implies #[trigger] s.drop_last()[i]
            >= 0 by {
            assert(s[i] >= 0);
        }
        lemma_sum_nonneg(s.drop_last());
    }
}

/// One position of the first axis, as an array of one axis less.
pub open spec fn first_at(a: ArrayV, i: usize) -> ArrayV {
    a.under(squeezed(narrowed(a.layout, 0, i, 1), 0))
}

/// One position of the first axis, or the message that there is none such.
pub open spec fn position_s(a: ArrayV, i: usize) -> Outcome {
    if a.rank() > 0 && i < a.shape()[0] {
        Ok(first_at(a, i))
    } else {
        Err("narrow: out of range"@)
    }
}

/// One position of each of the first axes.
pub open spec fn positions_s(a: ArrayV, at: Seq<usize>) -> Outcome
    decreases at.len(),
{
    if at.len() == 0 {
        Ok(a)
    } else {
        match position_s(a, at[0]) {
            Ok(x) => positions_s(x, at.skip(1)),
            Err(e) => Err(e),
        }
    }
}

/// The place at which a position of the first axis starts is a number of the
/// machine; in an array with elements it always is.
pub open spec fn startable(a: ArrayV, i: usize) -> bool {
    a.rank() > 0 && i < a.shape()[0] && is_void(a.shape()) ==> (a.layout.offset + i
        * a.strides()[0]) * width(a.dtype) <= usize::MAX
}

impl Array {
    /// One position of the first axis.
    pub fn row(&self, i: usize) -> (a: Array)
        requires
            self@.wf(),
            self@.rank() > 0,
            !is_void(self@.shape()),
            i < self@.shape()[0],
        ensures
            a@ == first_at(self@, i),
            a@.wf(),
            a@.shape() == self@.shape().skip(1),
            !is_void(a@.shape()),
    {
        proof {
            lemma_narrow_fits(self@, 0, i, 1);
        }
        let n = match self.narrow(0, i, 1) {
            Ok(n) => n,
            Err(e) => {
                assert(false);
                self.duplicate()
            },
        };
        let s = match n.squeeze(0) {
            Ok(s) => s,
            Err(e) => {
                assert(false);
                self.duplicate()
            },
        };
        proof {
            assert(s@.shape() =~= self@.shape().skip(1));
            assert forall|k: int| 0 <= k < s@.shape().len() implies #[trigger] s@.shape()[k] != 0 by {
                assert(self@.shape()[k + 1] != 0);
            }
        }
        s
    }

    /// One position of the first axis, if there is such a position.
    fn position(&self, i: usize) -> (r: Result<Array, Error>)
        requires
            self@.wf(),
            i < usize::MAX,
            startable(self@, i),
        ensures
            seen(r) == position_s(self@, i),
            r matches Ok(a) ==> a@.wf(),
    {
        proof {
            if self@.rank() > 0 && i < self@.shape()[0] && !is_void(self@.shape()) {
                lemma_narrow_fits(self@, 0, i, 1);
            }
        }
        match self.narrow(0, i, 1) {
            Ok(n) => n.squeeze(0),
            Err(e) => Err(e),
        }
    }

    /// One position of each of the first two axes.
    pub fn i(&self, idx: (usize, usize)) -> (r: Result<Array, Error>)
        requires
            self@.wf(),
            idx.0 < usize::MAX,
            idx.1 < usize::MAX,
            startable(self@, idx.0),
            position_s(self@, idx.0) matches Ok(x) ==> startable(x, idx.1),
        ensures
            seen(r) == positions_s(self@, seq![idx.0, idx.1]),
            r matches Ok(a) ==> a@.wf(),
    {
        proof {
            reveal_with_fuel(positions_s, 3);
            assert(seq![idx.0, idx.1].skip(1) =~= seq![idx.1]);
            assert(seq![idx.1].skip(1) =~= Seq::<usize>::empty());
        }
        match self.position(idx.0) {
            Ok(x) => x.position(idx.1),
            Err(e) => Err(e),
        }
    }

    /// One position of each of the first three axes.
    pub fn i3(&self, a0: usize, a1: usize, a2: usize) -> (r: Result<Array, Error>)
        requires
            self@.wf(),
            a0 < usize::MAX,
            a1 < usize::MAX,
            a2 < usize::MAX,
            startable(self@, a0),
            position_s(self@, a0) matches Ok(x) ==> startable(x, a1) && (position_s(
                x,
                a1,
            ) matches Ok(y) ==> startable(y, a2)),
        ensures
            seen(r) == positions_s(self@, seq![a0, a1, a2]),
            r matches Ok(a) ==> a@.wf(),
    {
        proof {
            reveal_with_fuel(positions_s, 4);
            assert(seq![a0, a1, a2].skip(1) =~= seq![a1, a2]);
            assert(seq![a1, a2].skip(1) =~= seq![a2]);
            assert(seq![a2].skip(1) =~= Seq::<usize>::empty());
        }
        match self.position(a0) {
            Ok(x) => match x.position(a1) {
                Ok(y) => y.position(a2),
                Err(e) => Err(e),
            },
            Err(e) => Err(e),
        }
    }

    /// The positions of the first two axes, which are known to be there.
    pub(crate) fn pair_at(&self, idx: (usize, usize)) -> (a: Array)
        requires
            self@.wf(),
            self@.rank() > 1,
            !is_void(self@.shape()),
            idx.0 < self@.shape()[0],
            idx.1 < self@.shape()[1],
        ensures
            a@ == first_at(first_at(self@, idx.0), idx.1),
            a@.wf(),
            a@.shape() == self@.shape().skip(2),
            !is_void(a@.shape()),
    {
        let x = self.row(idx.0);
        let y = x.row(idx.1);
        assert(self@.shape().skip(1).skip(1) =~= self@.shape().skip(2));
        y
    }

    /// The positions of the first three axes, which are known to be there.
    pub(crate) fn triple_at(&self, a0: usize, a1: usize, a2: usize) -> (a: Array)
        requires
            self@.wf(),
            self@.rank() > 2,
            !is_void(self@.shape()),
            a0 < self@.shape()[0],
            a1 < self@.shape()[1],
            a2 < self@.shape()[2],
        ensures
            a@ == first_at(first_at(first_at(self@, a0), a1), a2),
            a@.wf(),
            a@.shape() == self@.shape().skip(3),
            !is_void(a@.shape()),
    {
        let x = self.pair_at((a0, a1));
        let y = x.row(a2);
        assert(self@.shape().skip(2).skip(1) =~= self@.shape().skip(3));
        y
    }
}

// ---- concatenation ----

/// The shapes agree on every axis but one.
pub open spec fn agree_but(a: Seq<usize>, b: Seq<usize>, axis: int) -> bool {
    &&& a.len() == b.len()
    &&& forall|i: int| 0 <= i < a.len() && i != axis ==> #[trigger] a[i] == b[i]
}

/// The size of an axis over a list of arrays.
pub open spec fn axis_total(v: Seq<ArrayV>, axis: int) -> int
    decreases v.len(),
{
    if v.len() == 0 {
        0
    } else {
        axis_total(v.drop_last(), axis) + v.last().shape()[axis]
    }
}

/// What an operation with several results gives.
pub type Outcomes = Result<Seq<ArrayV>, Seq<char>>;

/// The views of a list of arrays.
pub open spec fn array_views(v: Seq<Array>) -> Seq<ArrayV> {
    v.map_values(|a: Array| a@)
}

/// The layouts of a part and of the whole it goes into.
pub open spec fn part_layouts(a: ArrayV, out: ArrayV) -> Seq<Seq<i64>> {
    seq![i64_words(a.strides()), i64_words(out.strides())]
}

/// The collapsed shape of a part.
pub open spec fn part_shape(a: ArrayV, out: ArrayV) -> Seq<i32> {
    collapsed_shape(i32_words(a.shape()), part_layouts(a, out), 0x7fff_ffff)
}

/// A part can be collapsed together with a packed whole.
pub open spec fn part_fits(a: ArrayV, whole: Seq<usize>) -> bool {
    collapsible(
        i32_words(a.shape()),
        seq![i64_words(a.strides()), i64_words(packed(whole).strides)],
        0x7fff_ffff,
    )
}

/// The run that copies a part into the whole, `at` positions along the axis.
pub open spec fn part_run(a: ArrayV, out: ArrayV, axis: int, at: int) -> DispatchV {
    let shape = part_shape(a, out);
    let n = shape.len() as int;
    let st = |j: int|
        collapsed_strides(i32_words(a.shape()), part_layouts(a, out), 0x7fff_ffff, j);
    let d0 = shape[n - 1] as nat;
    let d1 = if n > 1 {
        shape[n - 2] as nat
    } else {
        1
    };
    let rest = (crate::collapse::count(shape) / max_int((d0 * d1) as int, 1)) as nat;
    let (gx, gy, gz) = block_dims(d0, d1, rest, 10);
    DispatchV {
        program: fresh_program(
            "copy_gg_nd"@ + dec(n as nat) + "_"@ + metal_text(out.dtype),
            seq![MetalFile::Utils, MetalFile::CopyGg],
            Seq::empty(),
            Math::Safe,
            Seq::empty(),
        ),
        args: seq![
            (0usize, a.as_input()),
            (
                1usize,
                ArgV::Output(
                    out.buf,
                    ((out.layout.offset + at * out.strides()[axis]) * width(out.dtype)) as usize,
                ),
            ),
            (
                3usize,
                if n == 1 {
                    ArgV::I64(st(0)[0])
                } else {
                    ArgV::I64s(st(0))
                },
            ),
            (
                4usize,
                if n == 1 {
                    ArgV::I64(st(1)[0])
                } else {
                    ArgV::I64s(st(1))
                },
            ),
        ],
        grid: Grid::Threads(
            Dim3 {
                x: max_int(d0 as int, 1) as usize,
                y: max_int(d1 as int, 1) as usize,
                z: max_int(rest as int, 1) as usize,
            },
            Dim3 { x: gx as usize, y: gy as usize, z: gz as usize },
        ),
    }
}

/// The copies of the first `k` parts, one after the other along the axis.
pub open spec fn parts_s(t: TapeV, v: Seq<ArrayV>, out: ArrayV, axis: int, k: int) -> (
    TapeV,
    Result<(), Seq<char>>,
)
    decreases k,
{
    if k <= 0 {
        (t, Ok(()))
    } else {
        match parts_s(t, v, out, axis, k - 1) {
            (t1, Err(e)) => (t1, Err(e)),
            (t1, Ok(())) => {
                let n = part_shape(v[k - 1], out).len();
                if n == 0 || n > 3 {
                    (t1, Err("cat: collapsed rank "@ + dec(n) + " unsupported"@))
                } else {
                    (
                        t1.then_do(
                            CmdV::Launch(
                                part_run(v[k - 1], out, axis, axis_total(v.take(k - 1), axis)),
                            ),
                        ),
                        Ok(()),
                    )
                }
            },
        }
    }
}

/// The shape of the whole.
pub open spec fn cat_shape(v: Seq<ArrayV>, axis: int) -> Seq<usize> {
    v[0].shape().update(axis, axis_total(v, axis) as usize)
}

/// The arrays joined along an axis.
pub open spec fn cat_s(t: TapeV, v: Seq<ArrayV>, axis: usize) -> (TapeV, Outcome) {
    if v.len() == 0 {
        (t, Err("cat: no arrays"@))
    } else if axis >= v[0].rank() {
        (t, Err("cat: axis out of range"@))
    } else {
        match cat_fault(v, axis as int, v.len() as int) {
            Some(m) => (t, Err(m)),
            None => {
                let shape = cat_shape(v, axis as int);
                let out = fresh(t, shape, v[0].dtype);
                match parts_s(
                    zeros_tape(t, shape, v[0].dtype),
                    v,
                    out,
                    axis as int,
                    v.len() as int,
                ) {
                    (t1, Ok(())) => (t1, Ok(out)),
                    (t1, Err(e)) => (t1, Err(e)),
                }
            },
        }
    }
}

/// The first array, of the first `k`, that does not go with the first one.
pub open spec fn cat_fault(v: Seq<ArrayV>, axis: int, k: int) -> Option<Seq<char>>
    decreases k,
{
    if k <= 0 {
        None
    } else {
        match cat_fault(v, axis, k - 1) {
            Some(m) => Some(m),
            None => {
                let a = v[k - 1];
                if a.rank() != v[0].rank() || a.dtype != v[0].dtype {
                    Some("cat: rank/dtype mismatch"@)
                } else if !agree_but(v[0].shape(), a.shape(), axis) {
                    Some("cat: dim mismatch"@)
                } else {
                    None
                }
            },
        }
    }
}

/// What joining asks: every array stands, and the whole can be stored and
/// addressed.
pub open spec fn joinable(v: Seq<ArrayV>, axis: int) -> bool {
    &&& forall|i: int| 0 <= i < v.len() ==> (#[trigger] v[i]).wf()
    &&& v.len() > 0 && axis < v[0].rank() && cat_fault(v, axis, v.len() as int) is None ==> {
        &&& axis_total(v, axis) <= usize::MAX
        &&& roomy(cat_shape(v, axis))
        &&& forall|i: int|
            0 <= i < v.len() ==> #[trigger] part_fits(v[i], cat_shape(v, axis))
    }
}

fn agree_except(a: &[usize], b: &[usize], axis: usize) -> (r: bool)
    requires
        a@.len() == b@.len(),
    ensures
        r == agree_but(a@, b@, axis as int),
{
    let mut i: usize = 0;
    while i < a.len()
        invariant
            i <= a.len(),
            a@.len() == b@.len(),
            forall|k: int| 0 <= k < i && k != axis ==> #[trigger] a@[k] == b@[k],
        decreases a.len() - i,
    {
        if i != axis && a[i] != b[i] {
            assert(a@[i as int] != b@[i as int]);
            return false;
        }
        i += 1;
    }
    true
}

proof fn lemma_axis_total_monotone(v: Seq<ArrayV>, axis: int, k: int)
    requires
        0 <= k <= v.len(),
    ensures
        0 <= axis_total(v.take(k), axis) <= axis_total(v, axis),
    decreases v.len() - k,
{
    if k < v.len() {
        lemma_axis_total_monotone(v, axis, k + 1);
        assert(v.take(k + 1).drop_last() =~= v.take(k));
        lemma_axis_total_nonneg(v.take(k), axis);
    } else {
        assert(v.take(k) =~= v);
        lemma_axis_total_nonneg(v, axis);
    }
}

proof fn lemma_axis_total_nonneg(v: Seq<ArrayV>, axis: int)
    ensures
        axis_total(v, axis) >= 0,
    decreases v.len(),
{
    if v.len() > 0 {
        lemma_axis_total_nonneg(v.drop_last(), axis);
    }
}

/// A position along an axis of a packed array is in byte range.
pub proof fn lemma_packed_step(shape: Seq<usize>, axis: int, at: int, dtype: Dtype)
    requires
        roomy(shape),
        0 <= axis < shape.len(),
        0 <= at <= shape[axis],
    ensures
        (0 + at * packed(shape).strides[axis]) * width(dtype) <= usize::MAX,
        0 <= at * packed(shape).strides[axis] <= volume(shape),
{
    lemma_roomy(shape, dtype);
    crate::views::packed_is_dense(shape);
    let st = packed(shape).strides[axis] as int;
    assert(st == crate::layout::row_major(shape)[axis]);
    crate::layout::lemma_numel_skip_step(shape, axis);
    lemma_volume_skip(shape, axis);
    lemma_volume_bounds(shape.skip(axis));
    let d = shape[axis] as int;
    let w = width(dtype) as int;
    let v = volume(shape) as int;
    assert(0 <= at * st <= d * st) by (nonlinear_arith)
        requires
            0 <= at <= d,
            st >= 0,
    ;
    assert((0 + at * st) * w <= v * 8) by (nonlinear_arith)
        requires
            at * st <= v,
            0 <= w <= 8,
            at * st >= 0,
    ;
}

/// The number of elements of a shape of at most three axes.
proof fn lemma_small_count(s: Seq<i32>)
    requires
        1 <= s.len() <= 3,
    ensures
        ({
            let n = s.len() as int;
            let d0 = s[n - 1] as int;
            let d1 = if n > 1 {
                s[n - 2] as int
            } else {
                1
            };
            let c = if n > 2 {
                s[n - 3] as int
            } else {
                1
            };
            crate::collapse::count(s) == c * (d0 * d1)
        }),
{
    reveal_with_fuel(crate::collapse::count, 4);
    let n = s.len() as int;
    let d0 = s[n - 1] as int;
    if n == 1 {
        assert(s.drop_last().len() == 0);
        assert(1 * d0 == 1 * (d0 * 1)) by (nonlinear_arith);
    } else if n == 2 {
        let d1 = s[0] as int;
        assert(s.drop_last().last() == s[0]);
        assert(s.drop_last().drop_last().len() == 0);
        assert((1 * d1) * d0 == 1 * (d0 * d1)) by (nonlinear_arith);
    } else {
        let d1 = s[1] as int;
        let c = s[0] as int;
        assert(s.drop_last().last() == s[1]);
        assert(s.drop_last().drop_last().last() == s[0]);
        assert(s.drop_last().drop_last().drop_last().len() == 0);
        assert(((1 * c) * d1) * d0 == c * (d0 * d1)) by (nonlinear_arith);
    }
}

/// Records the copy of one part.
fn record_part(tape: &mut Tape, a: &Array, out: &Array, axis: usize, at: usize) -> (r: Result<
    (),
    Error,
>)
    requires
        a@.wf(),
        out@.wf(),
        axis < out@.rank(),
        a@.rank() == out@.rank(),
        part_fits(a@, out@.shape()),
        out@.layout == packed(out@.shape()),
        (out@.layout.offset + at * out@.strides()[axis as int]) * width(out@.dtype) <= usize::MAX,
    ensures
        ({
            let n = part_shape(a@, out@).len();
            if n == 0 || n > 3 {
                &&& final(tape)@ == old(tape)@
                &&& r matches Err(e) && e.text() == "cat: collapsed rank "@ + dec(n)
                    + " unsupported"@
            } else {
                &&& final(tape)@ == old(tape)@.then_do(
                    CmdV::Launch(part_run(a@, out@, axis as int, at as int)),
                )
                &&& r is Ok
            }
        }),
{
    let shape = to_i32s(&a.layout.shape);
    let mut both: Vec<Vec<i64>> = Vec::new();
    both.push(to_i64s(&a.layout.strides));
    both.push(to_i64s(&out.layout.strides));
    assert(stride_views(both@) =~= part_layouts(a@, out@));
    let (cs, mut cst) = collapse_contiguous_dims(&shape, &both, 0x7fff_ffff);
    let n = cs.len();
    if n == 0 || n > 3 {
        let d = decimal_usize(n);
        return Err(Error::Msg(cat3("cat: collapsed rank ", &d, " unsupported")));
    }
    proof {
        crate::collapse::lemma_collapsed_sizes(
            i32_words(a@.shape()),
            part_layouts(a@, out@),
            0x7fff_ffff,
        );
    }
    assert(0 <= cs@[n - 1]);
    let d0 = cs[n - 1] as usize;
    let d1 = if n > 1 {
        assert(0 <= cs@[n - 2]);
        cs[n - 2] as usize
    } else {
        1
    };
    assert(0 <= d0 * d1 <= 0x7fff_ffff * 0x7fff_ffff) by (nonlinear_arith)
        requires
            0 <= d0 <= 0x7fff_ffff,
            0 <= d1 <= 0x7fff_ffff,
    ;
    let c0 = if n > 2 {
        assert(0 <= cs@[n - 3]);
        cs[n - 3] as usize
    } else {
        1
    };
    let rest: usize = if d0 == 0 || d1 == 0 {
        0
    } else {
        c0
    };
    proof {
        lemma_small_count(cs@);
        let p = (d0 * d1) as int;
        let c = c0 as int;
        assert(p == 0 <==> d0 == 0 || d1 == 0) by (nonlinear_arith)
            requires
                p == d0 * d1,
        ;
        if p > 0 {
            assert((c * p) / p == c) by (nonlinear_arith)
                requires
                    p > 0,
            ;
        } else {
            assert(c * 0 == 0) by (nonlinear_arith);
        }
    }
    let nd = decimal_usize(n);
    let name = cat4("copy_gg_nd", &nd, "_", out.dtype.metal_name());
    let files = vec![MetalFile::Utils, MetalFile::CopyGg];
    let mut d = Dispatch::new(program(name, files, String::new(), Math::Safe));
    d.bind(0, a.input());
    proof {
        let o = out@.layout.offset + at * out@.strides()[axis as int];
        let w = width(out@.dtype) as int;
        assert(o <= o * w) by (nonlinear_arith)
            requires
                w >= 1,
                o >= 0,
        ;
    }
    let off: usize = out.layout.offset + at * out.layout.strides[axis];
    d.bind(1, Arg::Output(out.buf, off * out.dtype.size_of()));
    let ss = cst.remove(0);
    let ds = cst.remove(0);
    if n == 1 {
        d.bind(3, Arg::I64(ss[0]));
        d.bind(4, Arg::I64(ds[0]));
    } else {
        d.bind(3, Arg::I64s(ss));
        d.bind(4, Arg::I64s(ds));
    }
    let (gx, gy, gz) = get_block_dims(d0, d1, rest, 10);
    tape.launch(
        d,
        Grid::Threads(
            dim3(max_usize(d0, 1), max_usize(d1, 1), max_usize(rest, 1)),
            dim3(gx, gy, gz),
        ),
    );
    proof {
        let run = part_run(a@, out@, axis as int, at as int);
        assert(files@ =~= run.program.source->0.files);
        assert(d@.args =~= run.args);
    }
    Ok(())
}

/// Joins arrays along an axis.
pub fn cat(tape: &mut Tape, arrays: &Vec<Array>, axis: usize) -> (r: Result<Array, Error>)
    requires
        joinable(array_views(arrays@), axis as int),
    ensures
        (final(tape)@, seen(r)) == cat_s(old(tape)@, array_views(arrays@), axis),
        r matches Ok(a) ==> a@.wf() && a@.layout.dense() && arrays@.len() > 0 && a@.shape()
            == cat_shape(array_views(arrays@), axis as int) && a@.dtype == arrays@[0]@.dtype,
{
    let ghost v = array_views(arrays@);
    if arrays.len() == 0 {
        return err("cat: no arrays");
    }
    let first = &arrays[0];
    assert(v[0] == first@);
    if axis >= first.rank() {
        return err("cat: axis out of range");
    }
    let mut i: usize = 0;
    while i < arrays.len()
        invariant
            i <= arrays.len(),
            arrays@.len() > 0,
            v == array_views(arrays@),
            first@ == v[0],
            axis < first@.rank(),
            cat_fault(v, axis as int, i as int) is None,
            tape@ == old(tape)@,
        decreases arrays.len() - i,
    {
        let a = &arrays[i];
        assert(v[i as int] == a@);
        if a.rank() != first.rank() || a.dtype != first.dtype {
            proof {
                lemma_fault_stays(v, axis as int, i + 1, v.len() as int);
            }
            return err("cat: rank/dtype mismatch");
        }
        if !agree_except(&first.layout.shape, &a.layout.shape, axis) {
            proof {
                lemma_fault_stays(v, axis as int, i + 1, v.len() as int);
            }
            return err("cat: dim mismatch");
        }
        i += 1;
    }
    let mut total: usize = 0;
    let mut j: usize = 0;
    assert(v.take(0) =~= Seq::<ArrayV>::empty());
    while j < arrays.len()
        invariant
            j <= arrays.len(),
            v == array_views(arrays@),
            cat_fault(v, axis as int, v.len() as int) is None,
            arrays@.len() > 0,
            axis < v[0].rank(),
            axis_total(v, axis as int) <= usize::MAX,
            total == axis_total(v.take(j as int), axis as int),
        decreases arrays.len() - j,
    {
        let a = &arrays[j];
        proof {
            assert(v[j as int] == a@);
            lemma_no_fault(v, axis as int, v.len() as int, j as int);
            lemma_axis_total_monotone(v, axis as int, j + 1);
            assert(v.take(j + 1).drop_last() =~= v.take(j as int));
        }
        total = total + a.layout.shape[axis];
        j += 1;
    }
    assert(v.take(v.len() as int) =~= v);
    let mut shape = copy_sizes(&first.layout.shape);
    shape.set(axis, total);
    assert(shape@ =~= cat_shape(v, axis as int));
    let out = Array::zeros(tape, &shape, first.dtype);
    let ghost t0 = tape@;
    let mut off: usize = 0;
    let mut k: usize = 0;
    proof {
        lemma_roomy(shape@, first@.dtype);
        crate::views::packed_is_dense(shape@);
        assert(v.take(0) =~= Seq::<ArrayV>::empty());
    }
    while k < arrays.len()
        invariant
            k <= arrays.len(),
            v == array_views(arrays@),
            joinable(v, axis as int),
            cat_fault(v, axis as int, v.len() as int) is None,
            arrays@.len() > 0,
            axis < v[0].rank(),
            shape@ == cat_shape(v, axis as int),
            roomy(shape@),
            axis_total(v, axis as int) <= usize::MAX,
            out@ == fresh(old(tape)@, shape@, v[0].dtype),
            out@.wf(),
            t0 == zeros_tape(old(tape)@, shape@, v[0].dtype),
            off == axis_total(v.take(k as int), axis as int),
            (tape@, Ok::<(), Seq<char>>(())) == parts_s(t0, v, out@, axis as int, k as int),
        decreases arrays.len() - k,
    {
        let a = &arrays[k];
        proof {
            assert(v[k as int] == a@);
            assert(v[k as int].wf());
            assert(part_fits(v[k as int], cat_shape(v, axis as int)));
            lemma_no_fault(v, axis as int, v.len() as int, k as int);
            lemma_axis_total_monotone(v, axis as int, k as int);
            lemma_axis_total_monotone(v, axis as int, k + 1);
            assert(v.take(k + 1).drop_last() =~= v.take(k as int));
            lemma_packed_step(shape@, axis as int, off as int, out@.dtype);
            lemma_parts_stop(t0, v, out@, axis as int, k + 1, v.len() as int);
        }
        match record_part(tape, a, &out, axis, off) {
            Ok(()) => {},
            Err(e) => {
                return Err(e);
            },
        }
        off = off + a.layout.shape[axis];
        k += 1;
    }
    Ok(out)
}

/// A fault among the first arrays is the fault of all.
proof fn lemma_fault_stays(v: Seq<ArrayV>, axis: int, k: int, n: int)
    requires
        0 <= k <= n,
        cat_fault(v, axis, k) is Some,
    ensures
        cat_fault(v, axis, n) == cat_fault(v, axis, k),
    decreases n - k,
{
    if k < n {
        lemma_fault_stays(v, axis, k, n - 1);
    }
}

/// Without a fault every array goes with the first.
proof fn lemma_no_fault(v: Seq<ArrayV>, axis: int, n: int, i: int)
    requires
        0 <= i < n,
        cat_fault(v, axis, n) is None,
    ensures
        v[i].rank() == v[0].rank(),
        v[i].dtype == v[0].dtype,
        agree_but(v[0].shape(), v[i].shape(), axis),
    decreases n,
{
    if i < n - 1 {
        lemma_no_fault(v, axis, n - 1, i);
    }
}

/// A copy that fails is the last.
proof fn lemma_parts_stop(t: TapeV, v: Seq<ArrayV>, out: ArrayV, axis: int, k: int, n: int)
    requires
        0 <= k <= n,
    ensures
        parts_s(t, v, out, axis, k).1 is Err ==> parts_s(t, v, out, axis, n) == parts_s(
            t,
            v,
            out,
            axis,
            k,
        ),
    decreases n - k,
{
    if k < n {
        lemma_parts_stop(t, v, out, axis, k, n - 1);
    }
}

/// The arrays with a new axis of size one.
pub open spec fn lifted_at(v: Seq<ArrayV>, axis: int) -> Seq<ArrayV> {
    v.map_values(|a: ArrayV| a.under(crate::views::expanded(a.layout, axis)))
}

/// Arrays laid beside each other along a new axis.
pub open spec fn stack_s(t: TapeV, v: Seq<ArrayV>, axis: usize) -> (TapeV, Outcome) {
    if exists|i: int| 0 <= i < v.len() && axis > (#[trigger] v[i]).rank() {
        (t, Err("expand_dims: axis out of range"@))
    } else {
        cat_s(t, lifted_at(v, axis as int), axis)
    }
}

/// Lays arrays beside each other along a new axis.
pub fn stack(tape: &mut Tape, arrays: &Vec<Array>, axis: usize) -> (r: Result<Array, Error>)
    requires
        forall|i: int| 0 <= i < arrays@.len() ==> (#[trigger] arrays@[i])@.wf(),
        (forall|i: int| 0 <= i < arrays@.len() ==> axis <= (#[trigger] arrays@[i])@.rank())
            ==> joinable(lifted_at(array_views(arrays@), axis as int), axis as int),
    ensures
        (final(tape)@, seen(r)) == stack_s(old(tape)@, array_views(arrays@), axis),
        r matches Ok(a) ==> a@.wf() && a@.layout.dense() && arrays@.len() > 0 && a@.shape()
            == cat_shape(lifted_at(array_views(arrays@), axis as int), axis as int) && a@.dtype
            == arrays@[0]@.dtype,
{
    let ghost v = array_views(arrays@);
    let mut lifted: Vec<Array> = Vec::new();
    let mut i: usize = 0;
    while i < arrays.len()
        invariant
            i <= arrays.len(),
            v == array_views(arrays@),
            forall|k: int| 0 <= k < arrays@.len() ==> (#[trigger] arrays@[k])@.wf(),
            forall|k: int| 0 <= k < i ==> axis <= (#[trigger] arrays@[k])@.rank(),
            array_views(lifted@) == lifted_at(v, axis as int).take(i as int),
        decreases arrays.len() - i,
    {
        assert(arrays@[i as int]@.wf());
        assert(v[i as int] == arrays@[i as int]@);
        let ghost before = array_views(lifted@);
        match arrays[i].expand_dims(axis) {
            Ok(a) => {
                lifted.push(a);
                assert(array_views(lifted@) =~= before.push(a@));
                assert(lifted_at(v, axis as int)[i as int] == a@);
                assert(array_views(lifted@) =~= lifted_at(v, axis as int).take(i + 1));
            },
            Err(e) => {
                assert(axis > v[i as int].rank());
                return Err(e);
            },
        }
        i += 1;
    }
    assert(array_views(lifted@) =~= lifted_at(v, axis as int));
    proof {
        assert forall|k: int| 0 <= k < v.len() implies axis <= (#[trigger] v[k]).rank() by {
            assert(axis <= arrays@[k]@.rank());
        }
        if arrays@.len() > 0 {
            assert(array_views(lifted@)[0] == lifted_at(v, axis as int)[0]);
            assert(lifted@[0]@.dtype == arrays@[0]@.dtype);
        }
    }
    cat(tape, &lifted, axis)
}

// ---- repetition ----

/// The shape of an array spread over `n` copies of each position of an axis.
pub open spec fn repeat_spread(shape: Seq<usize>, axis: int, n: usize) -> Seq<usize> {
    shape.insert(axis + 1, n)
}

/// The shape of an array with each position of an axis `n` times.
pub open spec fn repeat_shape(shape: Seq<usize>, axis: int, n: usize) -> Seq<usize> {
    shape.update(axis, (shape[axis] * n) as usize)
}

/// Each position of an axis, `n` times in a row.
pub open spec fn repeat_s(t: TapeV, a: ArrayV, n: usize, axis: usize) -> (TapeV, Outcome) {
    let e = a.under(crate::views::expanded(a.layout, axis + 1));
    match broadcast_s(e, repeat_spread(a.shape(), axis as int, n)) {
        Err(m) => (t, Err(m)),
        Ok(b) => match copied_s(t, b) {
            (t1, Err(m)) => (t1, Err(m)),
            (t1, Ok(c)) => reshape_s(t1, c, repeat_shape(a.shape(), axis as int, n)),
        },
    }
}

impl Array {
    /// Each position of an axis, `n` times in a row.
    pub fn repeat_axis(&self, tape: &mut Tape, n: usize, axis: usize) -> (r: Result<Array, Error>)
        requires
            self@.wf(),
            axis < self@.rank(),
            self@.shape()[axis as int] * n <= usize::MAX,
            roomy(repeat_spread(self@.shape(), axis as int, n)),
            roomy(repeat_shape(self@.shape(), axis as int, n)),
        ensures
            (final(tape)@, seen(r)) == repeat_s(old(tape)@, self@, n, axis),
            r matches Ok(a) ==> a@.wf() && a@.shape() == repeat_shape(
                self@.shape(),
                axis as int,
                n,
            ),
    {
        let rank = self.rank();
        let mut dims = copy_sizes(&self.layout.shape);
        let d = dims[axis];
        dims.insert(axis + 1, n);
        assert(dims@ =~= repeat_spread(self@.shape(), axis as int, n));
        let e = match self.expand_dims(axis + 1) {
            Ok(e) => e,
            Err(m) => {
                assert(false);
                return Err(m);
            },
        };
        let b = match e.broadcast(&dims) {
            Ok(b) => b,
            Err(m) => {
                return Err(m);
            },
        };
        let mut out = copy_sizes(&self.layout.shape);
        out.set(axis, d * n);
        assert(out@ =~= repeat_shape(self@.shape(), axis as int, n));
        match b.copied(tape) {
            Ok(c) => c.reshape(tape, &out),
            Err(m) => Err(m),
        }
    }

    /// The array, repeated `reps` times along each axis.
    pub fn tile(&self, tape: &mut Tape, reps: &[usize]) -> (r: Result<Array, Error>)
        requires
            self@.wf(),
            self@.rank() <= usize::MAX / 2,
            reps@.len() == self@.rank() ==> roomy(tile_spread(self@.shape(), reps@))
                && roomy(tile_shape(self@.shape(), reps@)) && (forall|i: int|
                0 <= i < reps@.len() ==> #[trigger] self@.shape()[i] * reps@[i] <= usize::MAX),
        ensures
            (final(tape)@, seen(r)) == tile_s(old(tape)@, self@, reps@),
            r matches Ok(a) ==> a@.wf() && a@.shape() == tile_shape(self@.shape(), reps@),
    {
        let n = self.rank();
        if reps.len() != n {
            return err("tile: reps rank must match input rank");
        }
        let mut want: Vec<usize> = Vec::new();
        let mut out: Vec<usize> = Vec::new();
        let mut t = self.duplicate();
        let mut i: usize = 0;
        while i < n
            invariant
                i <= n,
                n == self@.rank(),
                n <= usize::MAX / 2,
                self@.wf(),
                reps@.len() == n,
                forall|k: int|
                    0 <= k < reps@.len() ==> #[trigger] self@.shape()[k] * reps@[k] <= usize::MAX,
                want@ == tile_spread(self@.shape().take(i as int), reps@.take(i as int)),
                out@ == tile_shape(self@.shape(), reps@).take(i as int),
                t@ == tile_lift(self@, i as nat),
                t@.wf(),
                t@.rank() == n + i,
            decreases n - i,
        {
            let d = self.layout.shape[i];
            assert(self@.shape()[i as int] * reps@[i as int] <= usize::MAX);
            proof {
                assert(self@.shape().take(i + 1).drop_last() =~= self@.shape().take(i as int));
                assert(reps@.take(i + 1).drop_last() =~= reps@.take(i as int));
            }
            want.push(reps[i]);
            want.push(d);
            out.push(d * reps[i]);
            match t.expand_dims(2 * i) {
                Ok(e) => {
                    t = e;
                },
                Err(m) => {
                    assert(false);
                    return Err(m);
                },
            }
            i += 1;
            assert(want@ =~= tile_spread(self@.shape().take(i as int), reps@.take(i as int)));
            assert(out@ =~= tile_shape(self@.shape(), reps@).take(i as int));
        }
        proof {
            assert(self@.shape().take(n as int) =~= self@.shape());
            assert(reps@.take(n as int) =~= reps@);
            assert(out@ =~= tile_shape(self@.shape(), reps@));
        }
        let b = match t.broadcast(&want) {
            Ok(b) => b,
            Err(m) => {
                return Err(m);
            },
        };
        match b.copied(tape) {
            Ok(c) => c.reshape(tape, &out),
            Err(m) => Err(m),
        }
    }
}

/// The repetitions and the sizes in turn.
pub open spec fn tile_spread(shape: Seq<usize>, reps: Seq<usize>) -> Seq<usize>
    decreases shape.len(),
{
    if shape.len() == 0 || reps.len() == 0 {
        Seq::empty()
    } else {
        tile_spread(shape.drop_last(), reps.drop_last()).push(reps.last()).push(shape.last())
    }
}

/// The sizes times the repetitions.
pub open spec fn tile_shape(shape: Seq<usize>, reps: Seq<usize>) -> Seq<usize> {
    Seq::new(shape.len(), |i: int| (shape[i] * reps[i]) as usize)
}

/// The array with an axis of size one before each of its first `k` axes.
pub open spec fn tile_lift(a: ArrayV, k: nat) -> ArrayV
    decreases k,
{
    if k == 0 {
        a
    } else {
        let b = tile_lift(a, (k - 1) as nat);
        b.under(crate::views::expanded(b.layout, 2 * (k - 1)))
    }
}

/// An array repeated along each axis.
pub open spec fn tile_s(t: TapeV, a: ArrayV, reps: Seq<usize>) -> (TapeV, Outcome) {
    if reps.len() != a.rank() {
        (t, Err("tile: reps rank must match input rank"@))
    } else {
        match broadcast_s(tile_lift(a, a.rank()), tile_spread(a.shape(), reps)) {
            Err(m) => (t, Err(m)),
            Ok(b) => match copied_s(t, b) {
                (t1, Err(m)) => (t1, Err(m)),
                (t1, Ok(c)) => reshape_s(t1, c, tile_shape(a.shape(), reps)),
            },
        }
    }
}

// ---- selection by indices ----

/// The run of the kernel that picks positions of an axis.
pub open spec fn select_run(x: ArrayV, ids: ArrayV, axis: int, out: ArrayV) -> DispatchV {
    DispatchV {
        program: fresh_program(
            "is_"@ + kernel_tag_text(ids.dtype)->0 + "_"@ + kernel_tag_text(x.dtype)->0,
            seq![MetalFile::Indexing],
            Seq::empty(),
            Math::Fast,
            Seq::empty(),
        ),
        args: seq![
            (0usize, ArgV::Size(out.count() as usize)),
            (1usize, ArgV::Size(numel(x.shape().take(axis)) as usize)),
            (2usize, ArgV::Size(x.shape()[axis])),
            (3usize, ArgV::Size(numel(x.shape().skip(axis + 1)) as usize)),
            (4usize, ArgV::Size(ids.count() as usize)),
            (5usize, ArgV::Flag(true)),
            (6usize, ArgV::U64s(u64_words(x.shape()))),
            (7usize, ArgV::U64s(u64_words(x.strides()))),
            (8usize, x.as_input()),
            (9usize, ids.as_input()),
            (10usize, ArgV::Output(out.buf, 0)),
        ],
        grid: Grid::Split(out.count() as usize),
    }
}

/// The positions of an axis that a list names, in its order.
pub open spec fn select_s(t: TapeV, a: ArrayV, ids: ArrayV, axis: usize) -> (TapeV, Outcome) {
    match contiguous_s(t, a) {
        (t1, Err(m)) => (t1, Err(m)),
        (t1, Ok(x)) => match contiguous_s(t1, ids) {
            (t2, Err(m)) => (t2, Err(m)),
            (t2, Ok(i)) => if i.rank() != 1 {
                (t2, Err("index_select: ids must be 1-D"@))
            } else if kernel_tag_text(i.dtype) is None || kernel_tag_text(x.dtype) is None {
                (t2, Err("index_select: unsupported dtype"@))
            } else {
                let shape = x.shape().update(axis as int, i.count() as usize);
                let out = fresh(t2, shape, x.dtype);
                (
                    with_room(t2, shape, x.dtype, "index_select_out"@).then_do(
                        CmdV::Launch(select_run(x, i, axis as int, out)),
                    ),
                    Ok(out),
                )
            },
        },
    }
}

/// The run of the kernel that gathers along an axis.
pub open spec fn gather_run(x: ArrayV, ids: ArrayV, axis: int, out: ArrayV) -> DispatchV {
    DispatchV {
        program: fresh_program(
            "gather_"@ + kernel_tag_text(ids.dtype)->0 + "_"@ + kernel_tag_text(x.dtype)->0,
            seq![MetalFile::Indexing],
            Seq::empty(),
            Math::Fast,
            Seq::empty(),
        ),
        args: seq![
            (0usize, ArgV::Size(out.count() as usize)),
            (1usize, ArgV::Size(numel(x.shape().take(axis)) as usize)),
            (2usize, ArgV::Size(x.shape()[axis])),
            (3usize, ArgV::Size(numel(x.shape().skip(axis + 1)) as usize)),
            (4usize, ArgV::Size(ids.shape()[axis])),
            (5usize, x.as_input()),
            (6usize, ids.as_input()),
            (7usize, ArgV::Output(out.buf, 0)),
        ],
        grid: Grid::Split(out.count() as usize),
    }
}

/// The first axis, but the named one, on which two shapes differ.
pub open spec fn first_mismatch(a: Seq<usize>, b: Seq<usize>, axis: int, k: int) -> Option<int>
    decreases a.len() - k,
{
    if k >= a.len() {
        None
    } else if k != axis && a[k] != b[k] {
        Some(k)
    } else {
        first_mismatch(a, b, axis, k + 1)
    }
}

/// Whether nothing but the axis can stop a gather.
pub open spec fn gatherable(a: ArrayV, shape: Seq<usize>, dtype: Dtype, axis: usize) -> bool {
    &&& shape.len() == a.rank()
    &&& first_mismatch(a.shape(), shape, axis as int, 0) is None
    &&& kernel_tag_text(dtype) is Some
    &&& kernel_tag_text(a.dtype) is Some
}

/// Whether elements of one type can be picked by indices of another.
pub open spec fn pickable(a: Dtype, ids: Dtype) -> bool {
    kernel_tag_text(a) is Some && kernel_tag_text(ids) is Some
}

/// The elements that indices name along an axis.
pub open spec fn gather_s(t: TapeV, a: ArrayV, ids: ArrayV, axis: usize) -> (TapeV, Outcome) {
    match contiguous_s(t, a) {
        (t1, Err(m)) => (t1, Err(m)),
        (t1, Ok(x)) => if ids.rank() != x.rank() {
            (t1, Err("gather: ids rank must match input rank"@))
        } else {
            match first_mismatch(x.shape(), ids.shape(), axis as int, 0) {
                Some(d) => (
                    t1,
                    Err(
                        "gather: dim "@ + dec(d as nat) + " mismatch "@ + dec(x.shape()[d] as nat)
                            + (" vs "@ + dec(ids.shape()[d] as nat)),
                    ),
                ),
                None => if kernel_tag_text(ids.dtype) is None || kernel_tag_text(x.dtype) is None {
                    (t1, Err("gather: unsupported dtype"@))
                } else {
                    let out = fresh(t1, ids.shape(), x.dtype);
                    match contiguous_s(with_room(t1, ids.shape(), x.dtype, "gather_out"@), ids) {
                        (t2, Err(m)) => (t2, Err(m)),
                        (t2, Ok(i)) => (
                            t2.then_do(CmdV::Launch(gather_run(x, i, axis as int, out))),
                            Ok(out),
                        ),
                    }
                },
            }
        },
    }
}

/// The shape after picking positions of an axis by indices of any shape.
pub open spec fn take_shape(a: Seq<usize>, ids: Seq<usize>, axis: int) -> Seq<usize> {
    a.take(axis) + ids + a.skip(axis + 1)
}

/// The positions of an axis that indices of any shape name.
pub open spec fn take_s(t: TapeV, a: ArrayV, ids: ArrayV, axis: usize) -> (TapeV, Outcome) {
    match flatten_s(t, ids) {
        (t1, Err(m)) => (t1, Err(m)),
        (t1, Ok(f)) => match select_s(t1, a, f, axis) {
            (t2, Err(m)) => (t2, Err(m)),
            (t2, Ok(s)) => reshape_s(t2, s, take_shape(a.shape(), ids.shape(), axis as int)),
        },
    }
}

impl Array {
    /// The positions of an axis that a list names.
    pub fn index_select(&self, tape: &mut Tape, ids: &Array, axis: usize) -> (r: Result<
        Array,
        Error,
    >)
        requires
            self@.wf(),
            ids@.wf(),
            ids@.rank() == 1 && pickable(self@.dtype, ids@.dtype) ==> axis < self@.rank() && roomy(
                self@.shape().update(axis as int, ids@.count() as usize),
            ),
        ensures
            (final(tape)@, seen(r)) == select_s(old(tape)@, self@, ids@, axis),
            r matches Ok(a) ==> a@.wf(),
    {
        let x = match self.contiguous(tape) {
            Ok(x) => x,
            Err(m) => {
                return Err(m);
            },
        };
        let i = match ids.contiguous(tape) {
            Ok(i) => i,
            Err(m) => {
                return Err(m);
            },
        };
        if i.rank() != 1 {
            return err("index_select: ids must be 1-D");
        }
        let (it, tt) = match (kernel_tag(i.dtype), kernel_tag(x.dtype)) {
            (Some(a), Some(b)) => (a, b),
            _ => {
                return err("index_select: unsupported dtype");
            },
        };
        let name = cat4("is_", it, "_", tt);
        let rank = x.rank();
        let before = sizes_before(&x.layout.shape, axis);
        let after = sizes_from(&x.layout.shape, axis + 1);
        proof {
            lemma_roomy(x@.shape(), x@.dtype);
            lemma_volume_take(x@.shape(), axis as int);
            lemma_volume_skip(x@.shape(), axis + 1);
            lemma_small_volume(before@);
            lemma_small_volume(after@);
        }
        let left = product(&before);
        let right = product(&after);
        let n = i.size();
        let mut shape = copy_sizes(&x.layout.shape);
        shape.set(axis, n);
        let out = Array::make(tape, &shape, x.dtype, "index_select_out");
        let total = out.size();
        let files = vec![MetalFile::Indexing];
        let mut d = Dispatch::new(program(name, files, String::new(), Math::Fast));
        d.bind(0, Arg::Size(total));
        d.bind(1, Arg::Size(left));
        d.bind(2, Arg::Size(x.layout.shape[axis]));
        d.bind(3, Arg::Size(right));
        d.bind(4, Arg::Size(n));
        d.bind(5, Arg::Flag(true));
        d.bind(6, Arg::U64s(to_u64s(&x.layout.shape)));
        d.bind(7, Arg::U64s(to_u64s(&x.layout.strides)));
        d.bind(8, x.input());
        d.bind(9, i.input());
        d.bind(10, Arg::Output(out.buf, 0));
        tape.launch(d, Grid::Split(total));
        proof {
            let run = select_run(x@, i@, axis as int, out@);
            assert(files@ =~= run.program.source->0.files);
            assert(d@.args =~= run.args);
        }
        Ok(out)
    }

    /// The positions of an axis that indices of any shape name.
    pub fn take_axis(&self, tape: &mut Tape, ids: &Array, axis: usize) -> (r: Result<Array, Error>)
        requires
            self@.wf(),
            ids@.wf(),
            pickable(self@.dtype, ids@.dtype) ==> {
                &&& axis < self@.rank()
                &&& roomy(self@.shape().update(axis as int, ids@.count() as usize))
                &&& roomy(take_shape(self@.shape(), ids@.shape(), axis as int))
            },
        ensures
            (final(tape)@, seen(r)) == take_s(old(tape)@, self@, ids@, axis),
            r matches Ok(a) ==> a@.wf(),
    {
        let f = match ids.flatten_all(tape) {
            Ok(f) => f,
            Err(m) => {
                return Err(m);
            },
        };
        proof {
            crate::layout::lemma_numel_one(ids@.count() as usize);
            lemma_roomy(ids@.shape(), ids@.dtype);
        }
        let s = match self.index_select(tape, &f, axis) {
            Ok(s) => s,
            Err(m) => {
                return Err(m);
            },
        };
        let rank = self.rank();
        let mut shape = sizes_before(&self.layout.shape, axis);
        let mut mid = copy_sizes(&ids.layout.shape);
        let mut tail = sizes_from(&self.layout.shape, axis + 1);
        shape.append(&mut mid);
        shape.append(&mut tail);
        assert(shape@ =~= take_shape(self@.shape(), ids@.shape(), axis as int));
        s.reshape(tape, &shape)
    }

    /// The elements that indices name along an axis.
    pub fn gather(&self, tape: &mut Tape, ids: &Array, axis: usize) -> (r: Result<Array, Error>)
        requires
            self@.wf(),
            ids@.wf(),
            gatherable(self@, ids@.shape(), ids@.dtype, axis) ==> axis < self@.rank(),
        ensures
            (final(tape)@, seen(r)) == gather_s(old(tape)@, self@, ids@, axis),
            r matches Ok(a) ==> a@.wf(),
    {
        let x = match self.contiguous(tape) {
            Ok(x) => x,
            Err(m) => {
                return Err(m);
            },
        };
        if ids.rank() != x.rank() {
            return err("gather: ids rank must match input rank");
        }
        let mut k: usize = 0;
        while k < x.rank()
            invariant
                k <= x@.rank(),
                ids@.rank() == x@.rank(),
                (tape@, Outcome::Ok(x@)) == contiguous_s(old(tape)@, self@),
                first_mismatch(x@.shape(), ids@.shape(), axis as int, k as int)
                    == first_mismatch(x@.shape(), ids@.shape(), axis as int, 0),
            decreases x@.rank() - k,
        {
            let a = x.layout.shape[k];
            let b = ids.layout.shape[k];
            if k != axis && a != b {
                let kd = decimal_usize(k);
                let ad = decimal_usize(a);
                let bd = decimal_usize(b);
                let tail = cat2(" vs ", &bd);
                return Err(Error::Msg(cat5("gather: dim ", &kd, " mismatch ", &ad, &tail)));
            }
            k += 1;
        }
        let (it, tt) = match (kernel_tag(ids.dtype), kernel_tag(x.dtype)) {
            (Some(a), Some(b)) => (a, b),
            _ => {
                return err("gather: unsupported dtype");
            },
        };
        let name = cat4("gather_", it, "_", tt);
        let rank = x.rank();
        let before = sizes_before(&x.layout.shape, axis);
        let after = sizes_from(&x.layout.shape, axis + 1);
        proof {
            lemma_roomy(x@.shape(), x@.dtype);
            lemma_volume_take(x@.shape(), axis as int);
            lemma_volume_skip(x@.shape(), axis + 1);
            lemma_small_volume(before@);
            lemma_small_volume(after@);
        }
        let left = product(&before);
        let right = product(&after);
        let out = Array::make(tape, &ids.layout.shape, x.dtype, "gather_out");
        let total = out.size();
        let i = match ids.contiguous(tape) {
            Ok(i) => i,
            Err(m) => {
                return Err(m);
            },
        };
        let files = vec![MetalFile::Indexing];
        let mut d = Dispatch::new(program(name, files, String::new(), Math::Fast));
        d.bind(0, Arg::Size(total));
        d.bind(1, Arg::Size(left));
        d.bind(2, Arg::Size(x.layout.shape[axis]));
        d.bind(3, Arg::Size(right));
        d.bind(4, Arg::Size(ids.layout.shape[axis]));
        d.bind(5, x.input());
        d.bind(6, i.input());
        d.bind(7, Arg::Output(out.buf, 0));
        tape.launch(d, Grid::Split(total));
        proof {
            let run = gather_run(x@, i@, axis as int, out@);
            assert(files@ =~= run.program.source->0.files);
            assert(d@.args =~= run.args);
        }
        Ok(out)
    }
}

} // verus!
