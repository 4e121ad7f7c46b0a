//! Sorting, quantized products, attention and convolution, as the engine calls
//! them.

use vstd::prelude::*;

use crate::array::{
    contiguous_s, flatten_s, from_slice_s, reshape_s, roomy, Array as Tensor, ArrayV, Outcome,
};
use crate::dense_attention::{sdpa_fits, sdpa_s};
use crate::dtype::{promoted, variant_text, Dtype};
use crate::elementwise::cast_s;
use crate::elements::{all_bytes, from_slice};
use crate::error::Error;
use crate::facade::{
    indices_s, promote_dtype, shown, sizes, to_sizes, wrap, wrapped_axis, Array,
};
use crate::join::{pickable, take_s, take_shape};
use crate::layout::{row_major, tails_fit, volume};
use crate::matmul::device_class;
use crate::named::chain;
use crate::quant::{
    batch_limit, byte_dims, dequantize_s, expanded_dims, gather_s, qmm_s, qmv_batch_limit, qmv_s,
    split_parts, splitk_s, wide_s,
};
use crate::reduce::{axis_of, grid_fits, row_threads, rows_of};
use crate::rope::rope_s;
use crate::search::{arg_any_s, rms_s, sort_s, Extreme};
use crate::tape::{ceil_div, max_int, Tape, TapeV};
use crate::text::{cat2, dec_int, decimal_i32};

verus! {

// ---- sorting ----

/// The order that sorts each last row.
pub fn argsort(tape: &mut Tape, a: &Array) -> (r: Result<Array, Error>)
    requires
        a.wf(),
    ensures
        (final(tape)@, shown(r)) == sort_s(old(tape)@, a.t@, true),
        r matches Ok(x) ==> x.wf(),
{
    wrap(crate::search::argsort_last(tape, &a.t))
}

/// An order of each last row with the `kth` position in place.
pub fn argpartition_axis(tape: &mut Tape, a: &Array, kth: i32, axis: i32) -> (r: Result<
    Array,
    Error,
>)
    requires
        a.wf(),
        a.t@.rank() <= i32::MAX,
    ensures
        (final(tape)@, shown(r)) == (if axis == -1 || axis == (if a.t@.rank() == 0 {
            0
        } else {
            a.t@.rank() - 1
        }) {
            sort_s(old(tape)@, a.t@, true)
        } else {
            (old(tape)@, Err("argpartition_axis: only last axis supported"@))
        }),
        r matches Ok(x) ==> x.wf(),
{
    let rank = a.rank();
    let last: i32 = if rank == 0 {
        0
    } else {
        (rank - 1) as i32
    };
    if axis != -1 && axis != last {
        return Err(Error::msg("argpartition_axis: only last axis supported"));
    }
    wrap(crate::search::argpartition_axis(tape, &a.t, kth))
}

/// The message about an axis that is too far from the end.
pub open spec fn axis_fault(axis: i32, rank: nat) -> Seq<char> {
    "indexing: axis "@ + dec_int(axis as int) + (" out of range for rank "@ + dec_int(rank as int))
}

/// The axis that a number names, counted from the end when negative.
fn picked_axis(a: &Array, axis: i32) -> (r: Result<usize, Error>)
    requires
        a.t@.rank() <= i32::MAX,
        a.wf(),
    ensures
        r is Ok <==> 0 <= axis_of(a.t@.rank(), axis),
        r matches Ok(d) ==> d == axis_of(a.t@.rank(), axis),
        r matches Err(e) ==> e.text() == axis_fault(axis, a.t@.rank()),
{
    if axis < 0 {
        let rank = a.rank() as i32;
        let ax = axis + rank;
        if ax < 0 {
            let n = decimal_i32(axis);
            let m = decimal_i32(rank);
            let tail = cat2(" out of range for rank ", &m);
            return Err(Error::Msg(crate::text::cat3("indexing: axis ", &n, &tail)));
        }
        Ok(ax as usize)
    } else {
        Ok(axis as usize)
    }
}

/// Where the extreme of all elements or of each row along an axis sits.
pub open spec fn arg_s(t: TapeV, a: ArrayV, axis: Option<i32>, e: Extreme) -> (TapeV, Outcome) {
    match axis {
        None => chain(flatten_s(t, a), |t1: TapeV, f: ArrayV| arg_any_s(t1, f, 0, e)),
        Some(x) => if axis_of(a.rank(), x) < 0 {
            (t, Err(axis_fault(x, a.rank())))
        } else {
            arg_any_s(t, a, axis_of(a.rank(), x) as i32, e)
        },
    }
}

/// Where the largest of all elements, or of those along an axis, sits.
pub fn argmax(tape: &mut Tape, a: &Array, axis: Option<i32>) -> (r: Result<Array, Error>)
    requires
        a.wf(),
        a.t@.rank() <= i32::MAX,
    ensures
        (final(tape)@, shown(r)) == arg_s(old(tape)@, a.t@, axis, Extreme::Max),
        r matches Ok(x) ==> x.wf(),
{
    match axis {
        None => match a.t.flatten_all(tape) {
            Ok(f) => wrap(f.argmax(tape, 0)),
            Err(e) => Err(e),
        },
        Some(x) => match picked_axis(a, x) {
            Ok(ax) => wrap(a.t.argmax(tape, ax)),
            Err(e) => Err(e),
        },
    }
}

/// Where the smallest of all elements, or of those along an axis, sits.
pub fn argmin(tape: &mut Tape, a: &Array, axis: Option<i32>) -> (r: Result<Array, Error>)
    requires
        a.wf(),
        a.t@.rank() <= i32::MAX,
    ensures
        (final(tape)@, shown(r)) == arg_s(old(tape)@, a.t@, axis, Extreme::Min),
        r matches Ok(x) ==> x.wf(),
{
    match axis {
        None => match a.t.flatten_all(tape) {
            Ok(f) => wrap(f.argmin(tape, 0)),
            Err(e) => Err(e),
        },
        Some(x) => match picked_axis(a, x) {
            Ok(ax) => wrap(a.t.argmin(tape, ax)),
            Err(e) => Err(e),
        },
    }
}

/// Where the largest element along an axis sits, the axis kept if so wanted.
pub fn argmax_axis(tape: &mut Tape, a: &Array, axis: i32, keepdims: bool) -> (r: Result<
    Array,
    Error,
>)
    requires
        a.wf(),
        a.t@.rank() <= i32::MAX,
    ensures
        (final(tape)@, shown(r)) == crate::facade::kept_s(
            arg_s(old(tape)@, a.t@, Some(axis), Extreme::Max),
            keepdims,
            axis_of(a.t@.rank(), axis) as usize,
        ),
        r matches Ok(x) ==> x.wf(),
{
    let ax = match picked_axis(a, axis) {
        Ok(ax) => ax,
        Err(e) => {
            return Err(e);
        },
    };
    match a.t.argmax(tape, ax) {
        Ok(x) => {
            if keepdims {
                wrap(x.unsqueeze(ax))
            } else {
                Ok(Array::new(x))
            }
        },
        Err(e) => Err(e),
    }
}

/// The positions of an axis that indices of any shape name.
pub fn take_axis(tape: &mut Tape, a: &Array, indices: &Array, axis: i32) -> (r: Result<
    Array,
    Error,
>)
    requires
        a.wf(),
        indices.wf(),
        a.t@.rank() <= i32::MAX,
        0 <= axis_of(a.t@.rank(), axis) && pickable(a.t@.dtype, Dtype::Uint32) ==> {
            let ax = axis_of(a.t@.rank(), axis);
            &&& ax < a.t@.rank()
            &&& roomy(a.t@.shape().update(ax, indices.t@.count() as usize))
            &&& roomy(take_shape(a.t@.shape(), indices.t@.shape(), ax))
        },
    ensures
        (final(tape)@, shown(r)) == (if axis_of(a.t@.rank(), axis) < 0 {
            (old(tape)@, Err(axis_fault(axis, a.t@.rank())))
        } else {
            chain(
                indices_s(old(tape)@, indices.t@),
                |t: TapeV, ids: ArrayV|
                    take_s(t, a.t@, ids, wrapped_axis(a.t@.rank() as usize, axis)),
            )
        }),
        r matches Ok(x) ==> x.wf(),
{
    match picked_axis(a, axis) {
        Ok(_) => a.take_axis(tape, indices, axis),
        Err(e) => Err(e),
    }
}

// ---- attention ----

/// What a query may look at.
pub enum ScaledDotProductAttentionMask<'a> {
    Array(&'a Array),
    Causal,
}

pub open spec fn mask_view(mask: Option<ScaledDotProductAttentionMask<'_>>) -> Option<ArrayV> {
    match mask {
        Some(ScaledDotProductAttentionMask::Array(m)) => Some(m.t@),
        _ => None,
    }
}

/// Scaled dot product attention.
pub fn scaled_dot_product_attention(
    tape: &mut Tape,
    queries: &Array,
    keys: &Array,
    values: &Array,
    scale: u32,
    mask: Option<ScaledDotProductAttentionMask<'_>>,
) -> (r: Result<Array, Error>)
    requires
        sdpa_fits(
            device_class(old(tape)@, 's'),
            queries.t@,
            keys.t@,
            values.t@,
            mask matches Some(ScaledDotProductAttentionMask::Causal),
            mask_view(mask) is Some,
        ),
        mask_view(mask) matches Some(m) ==> m.wf(),
    ensures
        (final(tape)@, shown(r)) == sdpa_s(
            old(tape)@,
            queries.t@,
            keys.t@,
            values.t@,
            scale,
            mask matches Some(ScaledDotProductAttentionMask::Causal),
            mask_view(mask),
        ),
        r matches Ok(x) ==> x.wf(),
{
    match mask {
        Some(ScaledDotProductAttentionMask::Causal) => wrap(
            crate::dense_attention::sdpa(
                tape,
                &queries.t,
                &keys.t,
                &values.t,
                scale,
                true,
                None,
            ),
        ),
        Some(ScaledDotProductAttentionMask::Array(m)) => wrap(
            crate::dense_attention::sdpa(
                tape,
                &queries.t,
                &keys.t,
                &values.t,
                scale,
                false,
                Some(&m.t),
            ),
        ),
        None => wrap(
            crate::dense_attention::sdpa(
                tape,
                &queries.t,
                &keys.t,
                &values.t,
                scale,
                false,
                None,
            ),
        ),
    }
}

/// Each last row over its root mean square, times the weights.
pub fn rms_norm(tape: &mut Tape, x: &Array, weight: Option<&Array>, eps: u32) -> (r: Result<
    Array,
    Error,
>)
    requires
        x.wf(),
        weight matches Some(w) ==> w.wf(),
        x.t@.rank() > 0 && x.t@.shape().last() <= 4096 ==> rows_of(x.t@.shape()) * row_threads(
            x.t@.shape().last(),
        ) <= usize::MAX,
    ensures
        (final(tape)@, shown(r)) == rms_s(
            old(tape)@,
            x.t@,
            match weight {
                Some(w) => Some(w.t@),
                None => None,
            },
            eps,
        ),
        r matches Ok(a) ==> a.wf(),
{
    match weight {
        Some(w) => wrap(crate::search::rms_norm(tape, &x.t, Some(&w.t), eps)),
        None => wrap(crate::search::rms_norm(tape, &x.t, None, eps)),
    }
}

/// Rotary positions from an offset that is the same for all.
pub fn rope(
    tape: &mut Tape,
    x: &Array,
    dimensions: i32,
    traditional: bool,
    log2_base: u32,
    scale: u32,
    offset: i32,
) -> (r: Result<Array, Error>)
    requires
        x.wf(),
        x.t@.rank() == 2 ==> !x.t@.layout.dense(),
        dimensions >= 0,
    ensures
        (final(tape)@, shown(r)) == chain(
            from_slice_s(
                old(tape)@,
                all_bytes(seq![offset], 1),
                seq![1usize],
                Dtype::Int32,
            ),
            |t: TapeV, o: ArrayV|
                rope_s(t, x.t@, dimensions, traditional, log2_base, scale, o, true),
        ),
        r matches Ok(a) ==> a.wf(),
{
    let data = vec![offset];
    let shape: Vec<usize> = vec![1];
    proof {
        assert(data@ =~= seq![offset]);
        assert(shape@ =~= seq![1usize]);
        crate::layout::lemma_numel_one(1usize);
        reveal_with_fuel(volume, 2);
        assert(shape@.drop_last() =~= Seq::<usize>::empty());
    }
    match from_slice::<i32>(tape, &data, &shape) {
        Ok(o) => wrap(
            crate::rope::rope(
                tape,
                &x.t,
                dimensions,
                traditional,
                log2_base,
                scale,
                &o,
                true,
            ),
        ),
        Err(e) => Err(e),
    }
}

// ---- quantized products ----

/// The numbers that packed weights stand for.
pub fn dequantize(
    tape: &mut Tape,
    w: &Array,
    scales: &Array,
    biases: &Array,
    group_size: i32,
    bits: i32,
) -> (r: Result<Array, Error>)
    requires
        w.wf(),
        scales.wf(),
        biases.wf(),
        w.t@.rank() > 0,
        w.t@.shape().last() > 0,
        1 <= bits <= 32,
        w.t@.shape().last() * 32 <= usize::MAX,
        w.t@.layout.offset * 4 <= usize::MAX,
        roomy(expanded_dims(w.t@.shape(), bits)),
        tails_fit(byte_dims(w.t@.shape())),
        grid_fits(byte_dims(w.t@.shape()), row_major(byte_dims(w.t@.shape()))),
    ensures
        (final(tape)@, shown(r)) == dequantize_s(
            old(tape)@,
            w.t@,
            scales.t@,
            biases.t@,
            group_size,
            bits,
        ),
        r matches Ok(a) ==> a.wf(),
{
    wrap(
        crate::quant::affine_dequantize(tape, &w.t, &scales.t, &biases.t, group_size, bits),
    )
}

/// The product by the kernel that suits the number of rows: one row, a few rows,
/// or many; of many, in parts along the inner axis where that can be done.
#[verifier::opaque]
pub open spec fn routed_product(
    t: TapeV,
    x: ArrayV,
    w: ArrayV,
    scales: ArrayV,
    biases: ArrayV,
    gs: i32,
    bits: i32,
    m: nat,
    k: usize,
    n: usize,
) -> (TapeV, Outcome) {
    if m == 1 {
        qmv_s(t, x, w, scales, biases, gs, bits)
    } else if m < batch_limit(k, n) {
        wide_s(t, x, w, scales, biases, gs, bits)
    } else {
        match splitk_s(t, x, w, scales, biases, gs, bits) {
            (t1, Ok(o)) => (t1, Ok(o)),
            (t1, Err(e)) => if k % 64 == 0 {
                qmm_s(t1, x, w, scales, biases, gs, bits)
            } else {
                (t1, Err(e))
            },
        }
    }
}

/// The types that quantized products are computed in.
pub open spec fn computes(d: Dtype) -> bool {
    d == Dtype::Bfloat16 || d == Dtype::Float16 || d == Dtype::Float32
}

/// An array in a type, row-major.
pub open spec fn packed_as(t: TapeV, a: ArrayV, dt: Dtype) -> (TapeV, Outcome) {
    chain(cast_s(t, a, dt), |t1: TapeV, c: ArrayV| contiguous_s(t1, c))
}

/// The inner size of a product with packed weights.
pub open spec fn inner_size(x: Array) -> usize {
    sizes(x.shape@).last()
}

/// The rows of a product with packed weights.
pub open spec fn row_count(x: Array) -> nat {
    x.t@.count() / (inner_size(x) as nat)
}

/// The rows of packed weights.
pub open spec fn weight_rows(w: Array) -> usize {
    sizes(w.shape@)[0]
}

/// A product with packed weights, in the common type of the rows and the scales.
pub open spec fn quantized_s(
    t: TapeV,
    x: Array,
    w: Array,
    scales: Array,
    biases: Option<ArrayV>,
    transpose: bool,
    gs: i32,
    bits: i32,
) -> (TapeV, Outcome) {
    if !transpose {
        (t, Err("quantized_matmul: only transpose=true supported"@))
    } else {
        match biases {
            None => (t, Err("quantized_matmul: affine biases required"@)),
            Some(b) => {
                let k = inner_size(x);
                let m = row_count(x);
                let n = weight_rows(w);
                let dt = promoted(x.t@.dtype, scales.t@.dtype);
                let shape = sizes(x.shape@).drop_last().push(n);
                chain(
                    cast_s(t, x.t@, dt),
                    |t1: TapeV, c: ArrayV|
                        chain(
                            reshape_s(t1, c, seq![m as usize, k]),
                            |t2: TapeV, x2: ArrayV|
                                chain(
                                    packed_as(t2, scales.t@, dt),
                                    |t3: TapeV, sc: ArrayV|
                                        chain(
                                            packed_as(t3, b, dt),
                                            |t4: TapeV, bi: ArrayV|
                                                if !computes(dt) {
                                                    (
                                                        t4,
                                                        Outcome::Err(
                                                            "quantized_matmul: unsupported compute dtype "@
                                                                + variant_text(dt),
                                                        ),
                                                    )
                                                } else {
                                                    chain(
                                                        routed_product(
                                                            t4,
                                                            x2,
                                                            w.t@,
                                                            sc,
                                                            bi,
                                                            gs,
                                                            bits,
                                                            m,
                                                            k,
                                                            n,
                                                        ),
                                                        |t5: TapeV, o: ArrayV|
                                                            reshape_s(t5, o, shape),
                                                    )
                                                },
                                        ),
                                ),
                        ),
                )
            },
        }
    }
}

/// Sizes that the kernel of a product with packed weights can take, which the
/// number of rows chooses.
pub open spec fn kernel_fits(
    m: usize,
    k: usize,
    n: usize,
    rows: usize,
    gs: i32,
    bits: i32,
) -> bool {
    if m == 1 {
        bits <= 32 && roomy(seq![m, rows])
    } else if m < batch_limit(k, n) {
        m > 0 && roomy(seq![m, rows])
    } else {
        &&& m > 0
        &&& rows > 0
        &&& ceil_div(rows as int, 32) * ceil_div(m as int, 32) <= usize::MAX
        &&& roomy(seq![split_parts(m, rows, k, max_int(gs as int, 32) as usize) as usize, m, rows])
        &&& k % 64 == 0 ==> roomy(seq![m, rows])
    }
}

/// Operands that a product with packed weights can take: rows with elements, and
/// where the type can be computed in, sizes that suit the kernel.
pub open spec fn product_fits(x: Array, w: Array, scales: Array, gs: i32, bits: i32) -> bool {
    let k = inner_size(x);
    let m = row_count(x) as usize;
    &&& 0 < x.t@.rank() <= i32::MAX
    &&& 0 < w.t@.rank() <= i32::MAX
    &&& k > 0
    &&& roomy(seq![m, k])
    &&& computes(promoted(x.t@.dtype, scales.t@.dtype)) ==> {
        &&& 2 <= w.t@.rank()
        &&& kernel_fits(m, k, weight_rows(w), w.t@.shape()[0], gs, bits)
        &&& roomy(sizes(x.shape@).drop_last().push(weight_rows(w)))
    }
}

fn packed(tape: &mut Tape, a: &Tensor, dt: Dtype) -> (r: Result<Tensor, Error>)
    requires
        a@.wf(),
    ensures
        (final(tape)@, crate::array::seen(r)) == packed_as(old(tape)@, a@, dt),
        r matches Ok(x) ==> x@.wf(),
{
    match a.to_dtype(tape, dt) {
        Ok(c) => c.contiguous(tape),
        Err(e) => Err(e),
    }
}

fn suited_product(
    tape: &mut Tape,
    x: &Tensor,
    w: &Tensor,
    scales: &Tensor,
    biases: &Tensor,
    group_size: i32,
    bits: i32,
    m: usize,
    k: usize,
    n: usize,
) -> (r: Result<Tensor, Error>)
    requires
        x@.wf(),
        w@.wf(),
        scales@.wf(),
        biases@.wf(),
        x@.shape() == seq![m, k],
        w@.rank() >= 2,
        kernel_fits(m, k, n, w@.shape()[0], group_size, bits),
    ensures
        (final(tape)@, crate::array::seen(r)) == routed_product(
            old(tape)@,
            x@,
            w@,
            scales@,
            biases@,
            group_size,
            bits,
            m as nat,
            k,
            n,
        ),
        r matches Ok(a) ==> a@.wf(),
{
    proof {
        reveal(routed_product);
    }
    if m == 1 {
        crate::quant::affine_qmv_fast(tape, x, w, scales, biases, group_size, bits)
    } else if m < qmv_batch_limit(k, n) {
        crate::quant::qmv_wide(tape, x, w, scales, biases, group_size, bits)
    } else {
        match crate::quant::affine_qmm_splitk(tape, x, w, scales, biases, group_size, bits) {
            Ok(o) => Ok(o),
            Err(e) => if k % 64 == 0 {
                crate::quant::qmm_nax(tape, x, w, scales, biases, group_size, bits)
            } else {
                Err(e)
            },
        }
    }
}

/// A product with packed weights. The rows are cast to the common type of rows and
/// scales, laid out as a matrix, and the kernel is chosen by their number.
#[verifier::rlimit(40)]
pub fn quantized_matmul(
    tape: &mut Tape,
    x: &Array,
    w: &Array,
    scales: &Array,
    biases: Option<&Array>,
    transpose: bool,
    group_size: i32,
    bits: i32,
) -> (r: Result<Array, Error>)
    requires
        x.wf(),
        w.wf(),
        scales.wf(),
        biases matches Some(b) ==> b.wf(),
        transpose && biases is Some ==> product_fits(*x, *w, *scales, group_size, bits),
    ensures
        (final(tape)@, shown(r)) == quantized_s(
            old(tape)@,
            *x,
            *w,
            *scales,
            match biases {
                Some(b) => Some(b.t@),
                None => None,
            },
            transpose,
            group_size,
            bits,
        ),
        r matches Ok(a) ==> a.wf(),
{
    if !transpose {
        return Err(Error::msg("quantized_matmul: only transpose=true supported"));
    }
    let bi = match biases {
        Some(b) => b,
        None => {
            return Err(Error::msg("quantized_matmul: affine biases required"));
        },
    };
    let rank = x.rank();
    let k = x.dim(rank as i32 - 1) as usize;
    let m = x.size() / k;
    let n = w.dim(0) as usize;
    let dt = promote_dtype(x.t.dtype(), scales.t.dtype());
    let c = match x.t.to_dtype(tape, dt) {
        Ok(c) => c,
        Err(e) => {
            return Err(e);
        },
    };
    let mk = vec![m, k];
    proof {
        assert(mk@ =~= seq![m, k]);
    }
    let x2 = match c.reshape(tape, &mk) {
        Ok(c) => c,
        Err(e) => {
            return Err(e);
        },
    };
    let sc = match packed(tape, &scales.t, dt) {
        Ok(c) => c,
        Err(e) => {
            return Err(e);
        },
    };
    let b2 = match packed(tape, &bi.t, dt) {
        Ok(c) => c,
        Err(e) => {
            return Err(e);
        },
    };
    if dt != Dtype::Bfloat16 && dt != Dtype::Float16 && dt != Dtype::Float32 {
        return Err(
            Error::Msg(
                cat2("quantized_matmul: unsupported compute dtype ", dt.variant_name()),
            ),
        );
    }
    let made = suited_product(tape, &x2, &w.t, &sc, &b2, group_size, bits, m, k, n);
    let out = match made {
        Ok(o) => o,
        Err(e) => {
            return Err(e);
        },
    };
    let mut shape = to_sizes(x.shape());
    let _ = shape.pop();
    shape.push(n);
    proof {
        assert(shape@ =~= sizes(x.shape@).drop_last().push(weight_rows(*w)));
    }
    wrap(out.reshape_dims(tape, &shape))
}

/// The sizes of a gathered product.
pub open spec fn gathered_sizes(x: Array, w: Array) -> Seq<usize> {
    sizes(x.shape@).drop_last().push(sizes(w.shape@)[w.shape@.len() - 2])
}

/// Operands that a gathered product can take: rows and weights with elements, and
/// a result of a size in bytes.
pub open spec fn gather_fits(x: Array, w: Array) -> bool {
    let r = w.t@.rank();
    &&& 2 <= x.t@.rank() <= i32::MAX
    &&& 2 <= r <= i32::MAX
    &&& x.t@.shape().last() > 0
    &&& w.t@.count() > 0
    &&& w.t@.shape()[r - 1] > 0
    &&& w.t@.shape()[r - 2] > 0
    &&& w.t@.count() / (w.t@.shape()[r - 1] as nat) / (w.t@.shape()[r - 2] as nat) > 0
    &&& roomy(gathered_sizes(x, w))
}

/// A product of rows with the packed weights that indices name, for indices in
/// order.
pub fn gather_qmm(
    tape: &mut Tape,
    x: &Array,
    w: &Array,
    scales: &Array,
    biases: Option<&Array>,
    lhs_indices: Option<&Array>,
    rhs_indices: Option<&Array>,
    transpose: bool,
    group_size: i32,
    bits: i32,
    sorted_indices: bool,
) -> (r: Result<Array, Error>)
    requires
        x.wf(),
        w.wf(),
        scales.wf(),
        biases matches Some(b) ==> b.wf(),
        rhs_indices matches Some(i) ==> i.wf(),
        transpose && lhs_indices is None && sorted_indices && rhs_indices is Some && biases is Some
            ==> gather_fits(*x, *w),
    ensures
        (final(tape)@, shown(r)) == (if !transpose {
            (old(tape)@, Err("gather_qmm: only transpose=true supported"@))
        } else if lhs_indices is Some {
            (old(tape)@, Err("gather_qmm: lhs_indices path not supported"@))
        } else if !sorted_indices {
            (old(tape)@, Err("gather_qmm: only sorted_indices=true supported"@))
        } else if rhs_indices is None {
            (old(tape)@, Err("gather_qmm: rhs_indices required"@))
        } else if biases is None {
            (old(tape)@, Err("gather_qmm: affine biases required"@))
        } else {
            gather_s(
                old(tape)@,
                x.t@,
                w.t@,
                scales.t@,
                biases->0.t@,
                rhs_indices->0.t@,
                gathered_sizes(*x, *w),
                group_size,
                bits,
            )
        }),
        r matches Ok(a) ==> a.wf(),
{
    if !transpose {
        return Err(Error::msg("gather_qmm: only transpose=true supported"));
    }
    if lhs_indices.is_some() {
        return Err(Error::msg("gather_qmm: lhs_indices path not supported"));
    }
    if !sorted_indices {
        return Err(Error::msg("gather_qmm: only sorted_indices=true supported"));
    }
    let rhs = match rhs_indices {
        Some(i) => i,
        None => {
            return Err(Error::msg("gather_qmm: rhs_indices required"));
        },
    };
    let bi = match biases {
        Some(b) => b,
        None => {
            return Err(Error::msg("gather_qmm: affine biases required"));
        },
    };
    let n = w.dim(w.rank() as i32 - 2) as usize;
    let mut shape = to_sizes(x.shape());
    let _ = shape.pop();
    shape.push(n);
    proof {
        assert(shape@ =~= gathered_sizes(*x, *w));
    }
    wrap(
        crate::quant::gather_qmm_rhs_nax(
            tape,
            &x.t,
            &w.t,
            &scales.t,
            &bi.t,
            &rhs.t,
            &shape,
            group_size,
            bits,
        ),
    )
}

} // verus!
