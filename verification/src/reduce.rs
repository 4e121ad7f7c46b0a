//! Softmax, reductions and searches along an axis.

use vstd::prelude::*;

use crate::array::{
    contiguous_s, err, fresh, lemma_roomy, roomy, seen, with_room, Array, ArrayV, Outcome,
};
use crate::codegen::{inst2, inst4, template_def};
use crate::dtype::{compilable, metal_text, tag_text, type_string, variant_text, width, Dtype};
use crate::elementwise::{binary_s, broadcasted, compatible, scalar_s};
use crate::error::Error;
use crate::folds::{is_permutation, pick};
use crate::layout::{
    at_least_one, copy_sizes, lemma_numel_zero, lemma_small_volume, lemma_volume_take, numel,
    packed, product, row_major, tails_fit, volume, Layout,
};
use crate::tape::{
    ceil_div, dim3, div_up, fresh_program, max_int, max_usize, min_int, min_usize, program, Arg,
    ArgV, CmdV, Dim3, Dispatch, DispatchV, Grid, Math, MetalFile, Scalar, Tape, TapeV,
};
use crate::text::{cat2, cat3, cat4};
use crate::views::{permuted, permuted_element};

verus! {

// ---- sizes ----

/// The threads of a row kernel that reads four elements a thread, in whole
/// SIMD groups.
pub open spec fn row_threads(axis: usize) -> int {
    32 * ceil_div(ceil_div(axis as int, 4), 32)
}

/// The number of rows of an array: its elements by the size of the last axis.
pub open spec fn rows_of(shape: Seq<usize>) -> int {
    numel(shape) as int / max_int(shape.last() as int, 1)
}

/// The threads of a row kernel.
pub fn row_group(axis: usize) -> (n: usize)
    requires
        row_threads(axis) <= usize::MAX,
    ensures
        n == row_threads(axis),
{
    32 * div_up(div_up(axis, 4), 32)
}

pub proof fn lemma_roomy_front(shape: Seq<usize>)
    requires
        roomy(shape),
        shape.len() > 0,
    ensures
        roomy(shape.drop_last()),
{
    lemma_volume_take(shape, shape.len() - 1);
    assert(shape.take(shape.len() - 1) =~= shape.drop_last());
}

/// Leaving out an axis keeps a shape storable.
pub proof fn lemma_roomy_remove(shape: Seq<usize>, i: int)
    requires
        roomy(shape),
        0 <= i < shape.len(),
    ensures
        roomy(shape.remove(i)),
{
    crate::views::lemma_volume_prod(shape);
    crate::views::lemma_volume_prod(shape.remove(i));
    let f = crate::views::factors(shape);
    assert(crate::views::factors(shape.remove(i)) =~= f.remove(i));
    crate::folds::lemma_prod_remove(f, i);
    assert forall|k: int| 0 <= k < f.remove(i).len() implies #[trigger] f.remove(i)[k] >= 1 by {
    }
    crate::folds::lemma_prod_positive(f.remove(i));
    let a = crate::folds::prod(f.remove(i));
    let b = f[i];
    assert(a * b >= a) by (nonlinear_arith)
        requires
            a >= 1,
            b >= 1,
    ;
}

/// The sizes but the last.
pub fn all_but_last(v: &[usize]) -> (r: Vec<usize>)
    requires
        v@.len() > 0,
    ensures
        r@ == v@.drop_last(),
{
    let mut r = copy_sizes(v);
    r.pop();
    assert(r@ =~= v@.drop_last());
    r
}

// ---- softmax ----

/// The run of the softmax kernel over the rows of `x`.
pub open spec fn softmax_run(x: ArrayV, out: ArrayV, precise: bool, math: Math) -> DispatchV {
    let ty = metal_text(x.dtype);
    let acc = if precise {
        "float"@
    } else {
        ty
    };
    let lib = (if x.dtype != Dtype::Float32 && precise {
        "softmax_precise_"@
    } else {
        "softmax_"@
    }) + tag_text(x.dtype);
    let axis = x.shape().last();
    let tgs = row_threads(axis) as usize;
    DispatchV {
        program: fresh_program(
            "block_"@ + lib,
            seq![MetalFile::Utils, MetalFile::Softmax],
            template_def("block_"@ + lib, "softmax_single_row"@, seq![ty, acc]) + template_def(
                "looped_"@ + lib,
                "softmax_looped"@,
                seq![ty, acc],
            ),
            math,
            Seq::empty(),
        ),
        args: seq![
            (0usize, x.as_input()),
            (1usize, ArgV::Output(out.buf, 0)),
            (2usize, ArgV::I32(axis as i32)),
        ],
        grid: Grid::Threads(
            Dim3 { x: (rows_of(x.shape()) * tgs) as usize, y: 1, z: 1 },
            Dim3 { x: tgs, y: 1, z: 1 },
        ),
    }
}

/// The threads of the row kernel over an array can be counted.
pub open spec fn countable_rows(shape: Seq<usize>) -> bool {
    rows_of(shape) * row_threads(shape.last()) <= usize::MAX
}

/// Records the softmax kernel over the rows of `x`.
fn record_softmax(tape: &mut Tape, x: &Array, precise: bool, math: Math) -> (a: Array)
    requires
        x@.wf(),
        x@.rank() > 0,
        x@.shape().last() <= 4096,
        countable_rows(x@.shape()),
    ensures
        a@ == fresh(old(tape)@, x@.shape(), x@.dtype),
        final(tape)@ == with_room(old(tape)@, x@.shape(), x@.dtype, "softmax_out"@).then_do(
            CmdV::Launch(softmax_run(x@, a@, precise, math)),
        ),
        a@.wf(),
        a@.layout.dense(),
{
    let axis = x.layout.shape[x.rank() - 1];
    let n_rows: usize = x.size() / max_usize(axis, 1);
    let ty = x.dtype.metal_name();
    let acc = if precise {
        "float"
    } else {
        ty
    };
    let lib = cat2(
        if x.dtype != Dtype::Float32 && precise {
            "softmax_precise_"
        } else {
            "softmax_"
        },
        x.dtype.mlx_name(),
    );
    let name = cat2("block_", &lib);
    let mut text = inst2(&name, "softmax_single_row", ty, acc);
    let more = inst2(&cat2("looped_", &lib), "softmax_looped", ty, acc);
    text.append(&more);
    let files = vec![MetalFile::Utils, MetalFile::Softmax];
    let out = Array::make(tape, &x.layout.shape, x.dtype, "softmax_out");
    let mut d = Dispatch::new(program(name, files, text, math));
    d.bind(0, x.input());
    d.bind(1, Arg::Output(out.buf, 0));
    d.bind(2, Arg::I32(axis as i32));
    let tgs = row_group(axis);
    tape.launch(d, Grid::Threads(dim3(n_rows * tgs, 1, 1), dim3(tgs, 1, 1)));
    proof {
        let run = softmax_run(x@, out@, precise, math);
        assert(files@ =~= seq![MetalFile::Utils, MetalFile::Softmax]);
        assert(d@.args =~= run.args);
        lemma_roomy(x@.shape(), x@.dtype);
        crate::views::packed_is_dense(x@.shape());
    }
    out
}

/// Softmax over the last axis of a row-major array.
pub open spec fn softmax_of(t: TapeV, x: ArrayV, precise: bool, math: Math) -> (TapeV, Outcome) {
    let out = fresh(t, x.shape(), x.dtype);
    (
        with_room(t, x.shape(), x.dtype, "softmax_out"@).then_do(
            CmdV::Launch(softmax_run(x, out, precise, math)),
        ),
        Ok(out),
    )
}

/// Softmax over the last axis of any array.
pub open spec fn softmax_any_s(t: TapeV, a: ArrayV, precise: bool) -> (TapeV, Outcome) {
    match contiguous_s(t, a) {
        (t1, Err(e)) => (t1, Err(e)),
        (t1, Ok(x)) => if x.rank() == 0 {
            (t1, Err("softmax: scalar input"@))
        } else if x.shape().last() > 4096 {
            (t1, Err("softmax: axis_size > 4096 (looped path) not implemented"@))
        } else {
            softmax_of(t1, x, precise, Math::Safe)
        },
    }
}

/// Softmax over the last axis of an array that must be row-major.
pub open spec fn softmax_last_s(t: TapeV, x: ArrayV, precise: bool) -> (TapeV, Outcome) {
    if x.rank() == 0 || !x.layout.dense() {
        (t, Err("softmax: non-contiguous or scalar input"@))
    } else if x.shape().last() > 4096 {
        (t, Err("softmax: axis_size > 4096 (looped path) not implemented"@))
    } else if !compilable(x.dtype) {
        (t, Err("unsupported compilation type "@ + variant_text(x.dtype)))
    } else {
        softmax_of(t, x, precise, Math::SafeNoLang)
    }
}

impl Array {
    /// Softmax over the last axis; `precise` accumulates in 32-bit floats.
    pub fn softmax_last_axis(&self, tape: &mut Tape, precise: bool) -> (r: Result<Array, Error>)
        requires
            self@.wf(),
            self@.rank() > 0 && self@.shape().last() <= 4096 ==> countable_rows(self@.shape()),
        ensures
            (final(tape)@, seen(r)) == softmax_any_s(old(tape)@, self@, precise),
            r matches Ok(a) ==> a@.wf(),
    {
        let x = match self.contiguous(tape) {
            Ok(x) => x,
            Err(e) => {
                return Err(e);
            },
        };
        if x.rank() == 0 {
            return err("softmax: scalar input");
        }
        if x.layout.shape[x.rank() - 1] > 4096 {
            return err("softmax: axis_size > 4096 (looped path) not implemented");
        }
        Ok(record_softmax(tape, &x, precise, Math::Safe))
    }
}

/// Softmax over the last axis of a row-major array.
pub fn softmax_last_axis(tape: &mut Tape, x: &Array, precise: bool) -> (r: Result<Array, Error>)
    requires
        x@.wf(),
        x@.rank() > 0 && x@.shape().last() <= 4096 ==> countable_rows(x@.shape()),
    ensures
        (final(tape)@, seen(r)) == softmax_last_s(old(tape)@, x@, precise),
        r matches Ok(a) ==> a@.wf() && a@.shape() == x@.shape() && a@.layout.dense(),
{
    if x.rank() == 0 || !x.is_contiguous() {
        return err("softmax: non-contiguous or scalar input");
    }
    if x.layout.shape[x.rank() - 1] > 4096 {
        return err("softmax: axis_size > 4096 (looped path) not implemented");
    }
    match type_string(x.dtype) {
        Err(e) => Err(e),
        Ok(_) => Ok(record_softmax(tape, x, precise, Math::SafeNoLang)),
    }
}

// ---- sums, maxima, minima, means ----

/// What a reduction works out of each row.
#[derive(Clone, Copy, PartialEq, Eq, Structural, Debug)]
pub enum Reduction {
    Sum,
    Max,
    Min,
    Mean,
}

/// The name of a reduction in a kernel's name; a mean rides on the sum.
pub open spec fn reduction_text(op: Reduction) -> Seq<char> {
    match op {
        Reduction::Sum | Reduction::Mean => "sum"@,
        Reduction::Max => "max"@,
        Reduction::Min => "min"@,
    }
}

/// The name of a reduction as a type in Metal source.
pub open spec fn reduction_type(op: Reduction) -> Seq<char> {
    match op {
        Reduction::Sum | Reduction::Mean => "Sum"@,
        Reduction::Max => "Max"@,
        Reduction::Min => "Min"@,
    }
}

impl Reduction {
    fn name(self) -> (s: &'static str)
        ensures
            s@ == reduction_text(self),
    {
        match self {
            Reduction::Sum | Reduction::Mean => "sum",
            Reduction::Max => "max",
            Reduction::Min => "min",
        }
    }

    fn struct_name(self) -> (s: &'static str)
        ensures
            s@ == reduction_type(self),
    {
        match self {
            Reduction::Sum | Reduction::Mean => "Sum",
            Reduction::Max => "Max",
            Reduction::Min => "Min",
        }
    }
}

/// The group width of the row reduction.
pub open spec fn row_reduce_width(row: usize) -> int {
    if row <= 512 {
        32
    } else if row <= 1024 {
        128
    } else {
        min_int((ceil_div(row as int, 4) + 31) / 32 * 32, 1024)
    }
}

/// The group width of the row reduction.
pub fn tg_from_row_size(row_size: usize) -> (n: usize)
    ensures
        n == row_reduce_width(row_size),
        32 <= n <= 1024,
{
    if row_size <= 512 {
        32
    } else if row_size <= 1024 {
        128
    } else {
        let q = div_up(row_size, 4);
        assert(q <= row_size / 4 + 1);
        min_usize((q + 31) / 32 * 32, 1024)
    }
}

/// The grid over the first `k` axes: axes are gathered in the first extent
/// while it stays below 2^32 - 1, the others in the second. An axis left of an
/// empty one is skipped.
pub open spec fn grid_steps(shape: Seq<usize>, strides: Seq<nat>, k: nat) -> (nat, nat)
    decreases k,
{
    if k == 0 {
        (1, 1)
    } else {
        let (gx, gy) = grid_steps(shape, strides, (k - 1) as nat);
        let d = shape[k - 1] as nat;
        if strides[k - 1] == 0 {
            (gx, gy)
        } else if gx * d < u32::MAX {
            (gx * d, gy)
        } else {
            (gx, gy * d)
        }
    }
}

/// The two extents of the grid over a packed shape, the larger first.
pub open spec fn grid_extents(shape: Seq<usize>) -> (nat, nat) {
    let (gx, gy) = grid_steps(shape, row_major(shape), shape.len());
    if gy > gx {
        (gy, gx)
    } else {
        (gx, gy)
    }
}

pub proof fn lemma_grid_steps(shape: Seq<usize>, strides: Seq<nat>, k: nat)
    requires
        k <= shape.len(),
    ensures
        grid_steps(shape, strides, k).0 * grid_steps(shape, strides, k).1 <= volume(
            shape.take(k as int),
        ),
        grid_steps(shape, strides, k).0 <= volume(shape.take(k as int)),
        grid_steps(shape, strides, k).1 <= volume(shape.take(k as int)),
        (forall|i: int| 0 <= i < k ==> #[trigger] strides[i] != 0) ==> grid_steps(
            shape,
            strides,
            k,
        ).0 * grid_steps(shape, strides, k).1 == numel(shape.take(k as int)),
    decreases k,
{
    if k == 0 {
        assert(shape.take(0) =~= Seq::<usize>::empty());
        assert(volume(Seq::<usize>::empty()) == 1);
        assert(numel(Seq::<usize>::empty()) == 1);
        let x = grid_steps(shape, strides, 0).0;
        let y = grid_steps(shape, strides, 0).1;
        assert(x * y == 1) by (nonlinear_arith)
            requires
                x == 1,
                y == 1,
        ;
    } else {
        let j = (k - 1) as nat;
        lemma_grid_steps(shape, strides, j);
        let (gx, gy) = grid_steps(shape, strides, j);
        let d = shape[j as int] as nat;
        let w = at_least_one(shape[j as int]);
        let v = volume(shape.take(j as int));
        assert(shape.take(k as int).drop_last() =~= shape.take(j as int));
        assert(volume(shape.take(k as int)) == v * w);
        assert(numel(shape.take(k as int)) == numel(shape.take(j as int)) * d);
        assert(gx * gy <= v * w && gx <= v * w && gy <= v * w && (gx * d) * gy <= v * w && gx * (gy
            * d) <= v * w && gx * d <= v * w && gy * d <= v * w) by (nonlinear_arith)
            requires
                gx * gy <= v,
                gx <= v,
                gy <= v,
                d <= w,
                w >= 1,
        ;
        let r = grid_steps(shape, strides, k);
        if strides[j as int] == 0 {
            assert(r == (gx, gy));
        } else if gx * d < u32::MAX {
            assert(r == (gx * d, gy));
            assert(r.0 * r.1 == (gx * d) * gy);
        } else {
            assert(r == (gx, gy * d));
            assert(r.0 * r.1 == gx * (gy * d));
        }
        if forall|i: int| 0 <= i < k ==> #[trigger] strides[i] != 0 {
            assert(strides[j as int] != 0);
            assert((gx * d) * gy == (gx * gy) * d && gx * (gy * d) == (gx * gy) * d)
                by (nonlinear_arith);
        }
    }
}

/// The grid over a packed shape without an empty axis has one cell for each
/// element.
pub proof fn grid_covers(shape: Seq<usize>)
    requires
        !crate::layout::is_void(shape),
    ensures
        grid_extents(shape).0 * grid_extents(shape).1 == numel(shape),
{
    let st = row_major(shape);
    assert forall|i: int| 0 <= i < shape.len() implies #[trigger] st[i] != 0 by {
        lemma_numel_zero(shape.skip(i + 1));
        assert forall|j: int| 0 <= j < shape.skip(i + 1).len() implies #[trigger] shape.skip(
            i + 1,
        )[j] != 0 by {
            assert(shape[i + 1 + j] != 0);
        }
    }
    lemma_grid_steps(shape, st, shape.len());
    assert(shape.take(shape.len() as int) =~= shape);
    let (gx, gy) = grid_steps(shape, st, shape.len());
    assert(gx * gy == gy * gx) by (nonlinear_arith);
}

/// The products by which the grid over a shape is counted are numbers of the
/// machine.
pub open spec fn grid_fits(shape: Seq<usize>, strides: Seq<nat>) -> bool {
    forall|k: nat|
        k < shape.len() && strides[k as int] != 0 ==> {
            let (gx, gy) = #[trigger] grid_steps(shape, strides, k);
            let d = shape[k as int];
            gx * d <= u64::MAX && (gx * d >= u32::MAX ==> gy * d <= usize::MAX)
        }
}

/// Where the volume is a number of the machine, the grid is counted.
pub proof fn lemma_small_grid(shape: Seq<usize>, strides: Seq<nat>)
    requires
        volume(shape) <= usize::MAX,
    ensures
        grid_fits(shape, strides),
{
    assert forall|k: nat| k < shape.len() && strides[k as int] != 0 implies {
        let (gx, gy) = #[trigger] grid_steps(shape, strides, k);
        let d = shape[k as int];
        gx * d <= u64::MAX && (gx * d >= u32::MAX ==> gy * d <= usize::MAX)
    } by {
        lemma_grid_steps(shape, strides, k);
        lemma_volume_take(shape, k as int + 1);
        let (gx, gy) = grid_steps(shape, strides, k);
        let v = volume(shape.take(k as int));
        let w = at_least_one(shape[k as int]);
        let d = shape[k as int] as nat;
        assert(shape.take(k as int + 1).drop_last() =~= shape.take(k as int));
        assert(gx * d <= v * w && gy * d <= v * w) by (nonlinear_arith)
            requires
                gx <= v,
                gy <= v,
                d <= w,
        ;
    }
}

/// The two extents of the grid over a shape with the given strides, as
/// counted so far.
pub fn get_2d_grid_dims(shape: &[usize], strides: &[usize]) -> (r: (usize, usize))
    requires
        shape@.len() == strides@.len(),
        grid_fits(shape@, strides@.map_values(|s: usize| s as nat)),
    ensures
        ({
            let (gx, gy) = grid_steps(
                shape@,
                strides@.map_values(|s: usize| s as nat),
                shape@.len(),
            );
            (r.0 as nat, r.1 as nat) == if gy > gx {
                (gy, gx)
            } else {
                (gx, gy)
            }
        }),
{
    let ghost st = strides@.map_values(|s: usize| s as nat);
    let mut gx: usize = 1;
    let mut gy: usize = 1;
    let mut i: usize = 0;
    while i < shape.len()
        invariant
            i <= shape.len(),
            shape@.len() == strides@.len(),
            grid_fits(shape@, st),
            st == strides@.map_values(|s: usize| s as nat),
            (gx as nat, gy as nat) == grid_steps(shape@, st, i as nat),
        decreases shape.len() - i,
    {
        assert(st[i as int] == strides@[i as int]);
        assert(grid_steps(shape@, st, i as nat) == (gx as nat, gy as nat));
        if strides[i] != 0 {
            if (gx as u64) * (shape[i] as u64) < u32::MAX as u64 {
                gx = gx * shape[i];
            } else {
                gy = gy * shape[i];
            }
        }
        i += 1;
    }
    if gy > gx {
        (gy, gx)
    } else {
        (gx, gy)
    }
}

/// The two extents of the grid over a packed shape.
pub fn grid_2d(shape: &[usize]) -> (r: (usize, usize))
    requires
        tails_fit(shape@),
        grid_fits(shape@, row_major(shape@)),
    ensures
        (r.0 as nat, r.1 as nat) == grid_extents(shape@),
{
    let l = Layout::contiguous(shape);
    assert(l.strides@.map_values(|s: usize| s as nat) =~= row_major(shape@));
    get_2d_grid_dims(shape, &l.strides)
}

/// The packed array in the next buffer, with room for at least one element.
pub open spec fn fresh_nonempty(t: TapeV, shape: Seq<usize>, dtype: Dtype) -> ArrayV {
    ArrayV {
        buf: t.next,
        bytes: (max_int(numel(shape) as int, 1) * width(dtype)) as usize,
        layout: packed(shape),
        dtype,
    }
}

/// Makes the buffer of a packed array with room for at least one element.
pub fn make_nonempty(tape: &mut Tape, shape: &[usize], dtype: Dtype, label: &'static str) -> (a: Array)
    requires
        roomy(shape@),
    ensures
        a@ == fresh_nonempty(old(tape)@, shape@, dtype),
        final(tape)@ == old(tape)@.then_alloc(a@.bytes, label@),
        a@.wf(),
{
    proof {
        lemma_roomy(shape@, dtype);
        let n = numel(shape@) as int;
        let w = width(dtype) as int;
        assert(max_int(n, 1) * w <= volume(shape@) * 8) by (nonlinear_arith)
            requires
                n <= volume(shape@),
                volume(shape@) >= 1,
                1 <= w <= 8,
                n >= 0,
        ;
        assert(n * w <= max_int(n, 1) * w) by (nonlinear_arith)
            requires
                w >= 1,
        ;
    }
    let n = max_usize(product(shape), 1);
    let bytes: usize = n * dtype.size_of();
    let buf = tape.reserve(bytes, label);
    Array::from_parts(buf, bytes, shape, dtype)
}

/// The run of the row reduction over `x`.
pub open spec fn reduce_run(x: ArrayV, out: ArrayV, op: Reduction, math: Math) -> DispatchV {
    let ty = metal_text(x.dtype);
    let name = "row_reduce_simple_"@ + reduction_text(op) + tag_text(x.dtype);
    let row = x.shape().last();
    let (gx, gy) = grid_extents(out.shape());
    DispatchV {
        program: fresh_program(
            name,
            seq![MetalFile::Utils, MetalFile::ReduceUtils, MetalFile::Reduce],
            template_def(
                name,
                "row_reduce_simple"@,
                seq![ty, ty, reduction_type(op) + "<"@ + ty + ">"@, "size_t"@],
            ),
            math,
            Seq::empty(),
        ),
        args: seq![
            (0usize, x.as_input()),
            (1usize, ArgV::Output(out.buf, 0)),
            (2usize, ArgV::Size(row)),
            (3usize, ArgV::I64(max_int(numel(out.shape()) as int, 1) as usize as i64)),
        ],
        grid: Grid::Rows(
            row_reduce_width(row) as usize,
            ceil_div(gx as int, 4) as usize,
            gy as usize,
        ),
    }
}

/// The row reduction of a row-major array.
pub open spec fn reduce_of(t: TapeV, x: ArrayV, op: Reduction, math: Math) -> (TapeV, Outcome) {
    let out = fresh_nonempty(t, x.shape().drop_last(), x.dtype);
    (
        t.then_alloc(out.bytes, "reduce_out"@).then_do(CmdV::Launch(reduce_run(x, out, op, math))),
        Ok(out),
    )
}

fn record_reduce(tape: &mut Tape, x: &Array, op: Reduction, math: Math) -> (r: Result<Array, Error>)
    requires
        x@.wf(),
        x@.rank() > 0,
    ensures
        (final(tape)@, seen(r)) == reduce_of(old(tape)@, x@, op, math),
        r matches Ok(a) && a@.wf() && a@.shape() == x@.shape().drop_last() && a@.dtype == x@.dtype,
{
    let row = x.layout.shape[x.rank() - 1];
    let dims = all_but_last(&x.layout.shape);
    proof {
        lemma_roomy_front(x@.shape());
        lemma_roomy(dims@, x@.dtype);
        let st = row_major(dims@);
        lemma_grid_steps(dims@, st, dims@.len());
        assert(dims@.take(dims@.len() as int) =~= dims@);
    }
    let ty = x.dtype.metal_name();
    let name = cat3("row_reduce_simple_", op.name(), x.dtype.mlx_name());
    let op_t = cat4(op.struct_name(), "<", ty, ">");
    let text = inst4(&name, "row_reduce_simple", ty, ty, &op_t, "size_t");
    let files = vec![MetalFile::Utils, MetalFile::ReduceUtils, MetalFile::Reduce];
    let out = make_nonempty(tape, &dims, x.dtype, "reduce_out");
    let count = max_usize(product(&dims), 1);
    proof {
        lemma_small_volume(dims@);
        lemma_small_grid(dims@, row_major(dims@));
    }
    let (gx, gy) = grid_2d(&dims);
    let mut d = Dispatch::new(program(name, files, text, math));
    d.bind(0, x.input());
    d.bind(1, Arg::Output(out.buf, 0));
    d.bind(2, Arg::Size(row));
    d.bind(3, Arg::I64(count as i64));
    let w = tg_from_row_size(row);
    let gw = div_up(gx, 4);
    tape.launch(d, Grid::Rows(w, gw, gy));
    proof {
        let run = reduce_run(x@, out@, op, math);
        assert(files@ =~= run.program.source->0.files);
        assert(d@.args =~= run.args);
    }
    Ok(out)
}

/// The mean from the sum: the sum times the reciprocal of the row's size.
pub open spec fn mean_from(
    r: (TapeV, Outcome),
    row: usize,
    dtype: Dtype,
) -> (TapeV, Outcome) {
    match r {
        (t1, Err(e)) => (t1, Err(e)),
        (t1, Ok(s)) => match scalar_s(t1, Scalar::Reciprocal(row), dtype) {
            (t2, Err(e)) => (t2, Err(e)),
            (t2, Ok(n)) => binary_s(t2, s, n, "bmul"@),
        },
    }
}

proof fn lemma_scalar_pair(s: ArrayV, n: ArrayV)
    requires
        n.shape().len() == 0,
        s.wf(),
    ensures
        crate::elementwise::roomy_pair(s, n),
        broadcasted(s.shape(), n.shape()) == s.shape(),
        compatible(s.shape(), n.shape()),
{
    assert(broadcasted(s.shape(), n.shape()) =~= s.shape());
}

fn finish_mean(tape: &mut Tape, s: &Array, row: usize, dtype: Dtype) -> (r: Result<Array, Error>)
    requires
        s@.wf(),
    ensures
        (final(tape)@, seen(r)) == mean_from((old(tape)@, Ok(s@)), row, dtype),
        r matches Ok(a) ==> a@.wf() && a@.shape() == s@.shape() && a@.dtype == s@.dtype,
{
    let n = match Array::scalar_of(tape, Scalar::Reciprocal(row), dtype) {
        Ok(n) => n,
        Err(e) => {
            return Err(e);
        },
    };
    proof {
        lemma_scalar_pair(s@, n@);
    }
    s.binary(tape, &n, "bmul")
}

/// The reduction of the last axis of any array.
pub open spec fn reduce_any_s(t: TapeV, a: ArrayV, op: Reduction) -> (TapeV, Outcome) {
    if a.rank() == 0 && op == Reduction::Mean {
        (t, Err("reduce: scalar input"@))
    } else {
        let base = match contiguous_s(t, a) {
            (t1, Err(e)) => (t1, Outcome::Err(e)),
            (t1, Ok(x)) => if x.rank() == 0 {
                (t1, Outcome::Err("reduce: scalar input"@))
            } else if x.shape().last() == 0 {
                (t1, Outcome::Err("reduce: empty axis"@))
            } else {
                reduce_of(t1, x, op, Math::Safe)
            },
        };
        if op == Reduction::Mean {
            mean_from(base, a.shape().last(), a.dtype)
        } else {
            base
        }
    }
}

/// The reduction of the last axis of an array that must be row-major.
pub open spec fn reduce_last_s(t: TapeV, x: ArrayV, op: Reduction) -> (TapeV, Outcome) {
    let base = if x.rank() == 0 || !x.layout.dense() {
        (t, Outcome::Err("reduce: non-contiguous or scalar input"@))
    } else if !compilable(x.dtype) {
        (t, Outcome::Err("unsupported compilation type "@ + variant_text(x.dtype)))
    } else {
        reduce_of(t, x, op, Math::SafeNoLang)
    };
    if op == Reduction::Mean {
        mean_from(base, x.shape().last(), x.dtype)
    } else {
        base
    }
}

impl Array {
    /// Reduces the last axis.
    pub fn reduce_last_axis(&self, tape: &mut Tape, op: Reduction) -> (r: Result<Array, Error>)
        requires
            self@.wf(),
        ensures
            (final(tape)@, seen(r)) == reduce_any_s(old(tape)@, self@, op),
            r matches Ok(a) ==> a@.wf() && self@.rank() > 0 && a@.shape()
                == self@.shape().drop_last() && a@.dtype == self@.dtype,
    {
        if self.rank() == 0 && op == Reduction::Mean {
            return err("reduce: scalar input");
        }
        let x = match self.contiguous(tape) {
            Ok(x) => x,
            Err(e) => {
                return Err(e);
            },
        };
        if x.rank() == 0 {
            return err("reduce: scalar input");
        }
        let row = x.layout.shape[x.rank() - 1];
        if row == 0 {
            return err("reduce: empty axis");
        }
        let s = match record_reduce(tape, &x, op, Math::Safe) {
            Ok(s) => s,
            Err(e) => {
                return Err(e);
            },
        };
        if op == Reduction::Mean {
            return finish_mean(tape, &s, row, self.dtype);
        }
        Ok(s)
    }

    /// Reduces an axis, counted from the end when negative: the axis is moved
    /// last and reduced there, which leaves the other axes in their order.
    pub fn reduce_axis(&self, tape: &mut Tape, axis: i32, op: Reduction) -> (r: Result<
        Array,
        Error,
    >)
        requires
            self@.wf(),
            self@.rank() <= i32::MAX,
        ensures
            (final(tape)@, seen(r)) == reduce_axis_any_s(old(tape)@, self@, axis, op),
            r matches Ok(a) ==> a@.wf() && 0 <= axis_of(self@.rank(), axis) < self@.rank()
                && a@.shape() == self@.shape().remove(axis_of(self@.rank(), axis)) && a@.dtype
                == self@.dtype,
    {
        let rank = self.rank();
        if rank == 0 {
            return err("reduce_axis: scalar input");
        }
        let ax = match axis_index(rank, axis) {
            Some(i) => i,
            None => {
                return err("reduce_axis: axis out of range");
            },
        };
        if ax == rank - 1 {
            return self.reduce_last_axis(tape, op);
        }
        let p = moved_last(self, ax);
        let t = match p.contiguous(tape) {
            Ok(t) => t,
            Err(e) => {
                return Err(e);
            },
        };
        t.reduce_last_axis(tape, op)
    }
}

/// Reduces the last axis of a row-major array.
pub fn reduce_last_axis(tape: &mut Tape, x: &Array, op: Reduction) -> (r: Result<Array, Error>)
    requires
        x@.wf(),
        op == Reduction::Mean ==> x@.rank() > 0,
    ensures
        (final(tape)@, seen(r)) == reduce_last_s(old(tape)@, x@, op),
        r matches Ok(a) ==> a@.wf() && x@.rank() > 0 && a@.shape() == x@.shape().drop_last()
            && a@.dtype == x@.dtype,
{
    if x.rank() == 0 || !x.is_contiguous() {
        return err("reduce: non-contiguous or scalar input");
    }
    match type_string(x.dtype) {
        Err(e) => {
            return Err(e);
        },
        Ok(_) => {},
    }
    let row = x.layout.shape[x.rank() - 1];
    let s = match record_reduce(tape, x, op, Math::SafeNoLang) {
        Ok(s) => s,
        Err(e) => {
            return Err(e);
        },
    };
    if op == Reduction::Mean {
        return finish_mean(tape, &s, row, x.dtype);
    }
    Ok(s)
}

/// The mean over the last axis of a row-major array.
pub fn mean_last_axis(tape: &mut Tape, x: &Array) -> (r: Result<Array, Error>)
    requires
        x@.wf(),
        x@.rank() > 0,
    ensures
        (final(tape)@, seen(r)) == reduce_last_s(old(tape)@, x@, Reduction::Mean),
        r matches Ok(a) ==> a@.wf(),
{
    reduce_last_axis(tape, x, Reduction::Mean)
}

/// The axis that a possibly negative number names.
pub open spec fn axis_of(rank: nat, axis: i32) -> int {
    if axis < 0 {
        rank + axis
    } else {
        axis as int
    }
}

/// The axis that a possibly negative number names, when there is such an axis.
pub fn axis_index(rank: usize, axis: i32) -> (r: Option<usize>)
    requires
        rank <= i32::MAX,
    ensures
        r == (if 0 <= axis_of(rank as nat, axis) < rank {
            Some(axis_of(rank as nat, axis) as usize)
        } else {
            None
        }),
{
    let a: i64 = if axis < 0 {
        rank as i64 + axis as i64
    } else {
        axis as i64
    };
    if a >= 0 && a < rank as i64 {
        Some(a as usize)
    } else {
        None
    }
}

/// The order of the axes with one moved to the end.
pub open spec fn last_perm(rank: nat, ax: int) -> Seq<usize> {
    Seq::new(
        rank,
        |i: int|
            if i < ax {
                i as usize
            } else if i < rank - 1 {
                (i + 1) as usize
            } else {
                ax as usize
            },
    )
}

proof fn lemma_moved_last(a: ArrayV, ax: int)
    requires
        a.wf(),
        0 <= ax < a.rank(),
        a.rank() <= usize::MAX,
    ensures
        is_permutation(last_perm(a.rank(), ax), a.rank()),
        a.under(permuted(a.layout, last_perm(a.rank(), ax))).shape() == a.shape().remove(ax).push(
            a.shape()[ax],
        ),
{
    let p = last_perm(a.rank(), ax);
    assert(pick(a.shape(), p) =~= a.shape().remove(ax).push(a.shape()[ax]));
}

/// An axis that is moved to the end takes its index there; the other axes keep
/// their order, so an element is found by its indices along them.
pub proof fn moved_axis_keeps_elements(a: ArrayV, ax: int, idx: Seq<int>)
    requires
        a.wf(),
        0 <= ax < a.rank() <= usize::MAX,
        idx.len() == a.rank(),
    ensures
        permuted(a.layout, last_perm(a.rank(), ax)).at(idx.remove(ax).push(idx[ax]))
            == a.layout.at(idx),
{
    let p = last_perm(a.rank(), ax);
    lemma_moved_last(a, ax);
    permuted_element(a.layout, p, idx);
    assert(pick(idx, p) =~= idx.remove(ax).push(idx[ax]));
}

/// The array with an axis moved to the end.
fn moved_last(a: &Array, ax: usize) -> (r: Array)
    requires
        a@.wf(),
        ax < a@.rank(),
    ensures
        r@ == a@.under(permuted(a@.layout, last_perm(a@.rank(), ax as int))),
        r@.wf(),
        r@.shape() == a@.shape().remove(ax as int).push(a@.shape()[ax as int]),
{
    let rank = a.rank();
    let mut perm: Vec<usize> = Vec::new();
    let mut i: usize = 0;
    while i < rank
        invariant
            i <= rank,
            ax < rank,
            rank == a@.rank(),
            perm@ == last_perm(rank as nat, ax as int).take(i as int),
        decreases rank - i,
    {
        perm.push(
            if i < ax {
                i
            } else if i < rank - 1 {
                i + 1
            } else {
                ax
            },
        );
        i += 1;
        assert(perm@ =~= last_perm(rank as nat, ax as int).take(i as int));
    }
    assert(perm@ =~= last_perm(rank as nat, ax as int));
    proof {
        lemma_moved_last(a@, ax as int);
    }
    a.permute(&perm).unwrap()
}

/// The reduction of an axis that is moved last, by the reduction of the last
/// axis of any array.
pub open spec fn reduce_axis_any_s(t: TapeV, a: ArrayV, axis: i32, op: Reduction) -> (
    TapeV,
    Outcome,
) {
    let rank = a.rank();
    let ax = axis_of(rank, axis);
    if rank == 0 {
        (t, Err("reduce_axis: scalar input"@))
    } else if !(0 <= ax < rank) {
        (t, Err("reduce_axis: axis out of range"@))
    } else if ax == rank - 1 {
        reduce_any_s(t, a, op)
    } else {
        match contiguous_s(t, a.under(permuted(a.layout, last_perm(rank, ax)))) {
            (t1, Err(e)) => (t1, Err(e)),
            (t1, Ok(x)) => reduce_any_s(t1, x, op),
        }
    }
}

/// The reduction of an axis of an array through its last axis, which must be
/// row-major when it is the one reduced.
pub open spec fn reduce_axis_s(t: TapeV, a: ArrayV, axis: i32, op: Reduction) -> (TapeV, Outcome) {
    let rank = a.rank();
    let ax = axis_of(rank, axis);
    if ax == rank - 1 {
        reduce_last_s(t, a, op)
    } else if !(0 <= ax < rank) {
        (t, Err("transpose: axis out of range"@))
    } else {
        match contiguous_s(t, a.under(permuted(a.layout, last_perm(rank, ax)))) {
            (t1, Err(e)) => (t1, Err(e)),
            (t1, Ok(x)) => reduce_last_s(t1, x, op),
        }
    }
}

/// Reduces an axis, counted from the end when negative.
pub fn reduce_axis(tape: &mut Tape, x: &Array, axis: i32, op: Reduction) -> (r: Result<
    Array,
    Error,
>)
    requires
        x@.wf(),
        0 < x@.rank() <= i32::MAX,
    ensures
        (final(tape)@, seen(r)) == reduce_axis_s(old(tape)@, x@, axis, op),
        r matches Ok(a) ==> a@.wf() && 0 <= axis_of(x@.rank(), axis) < x@.rank() && a@.shape()
            == x@.shape().remove(axis_of(x@.rank(), axis)) && a@.dtype == x@.dtype,
{
    let rank = x.rank();
    let ax = match axis_index(rank, axis) {
        Some(i) => i,
        None => {
            return err("transpose: axis out of range");
        },
    };
    if ax == rank - 1 {
        return reduce_last_axis(tape, x, op);
    }
    let p = moved_last(x, ax);
    let t = match p.contiguous(tape) {
        Ok(t) => t,
        Err(e) => {
            return Err(e);
        },
    };
    reduce_last_axis(tape, &t, op)
}

} // verus!
