//! Positions of extremes, sorting orders, scattering and root-mean-square norms.

use vstd::prelude::*;

use crate::array::{
    contiguous_s, copied_s, err, fresh, lemma_roomy, seen, with_room, Array, ArrayV, Outcome,
};
use crate::codegen::{inst1, inst5, inst6, template_def};
use crate::dtype::{
    compilable, metal_text, tag_text, type_string, type_to_name, variant_text, width, Dtype,
};
use crate::elementwise::scalar_s;
use crate::error::Error;
use crate::launch::{block_dims, get_block_dims};
use crate::layout::{
    copy_sizes, lemma_small_volume, lemma_volume_bounds, lemma_volume_skip, lemma_volume_take,
    numel, product,
};
use crate::reduce::{
    all_but_last, axis_index, axis_of, fresh_nonempty, lemma_roomy_front, lemma_roomy_remove,
    make_nonempty, row_group, row_threads, rows_of,
};
use crate::tape::{
    ceil_div, dim3, div_up, fresh_program, max_int, max_usize, program, Arg, ArgV, CmdV, ConstVal,
    Dim3, Dispatch, DispatchV, Grid, Math, MetalFile, Scalar, Tape, TapeV,
};
use crate::text::{bool_text, cat2, cat3, cat4, cat5, dec, decimal_usize};
use crate::words::{i32_words, i64_words, to_i32s, to_i64s};

verus! {

// ---- positions of extremes ----

/// Which extreme is looked for.
#[derive(Clone, Copy, PartialEq, Eq, Structural, Debug)]
pub enum Extreme {
    Max,
    Min,
}

pub open spec fn extreme_prefix(e: Extreme) -> Seq<char> {
    match e {
        Extreme::Max => "argmax_"@,
        Extreme::Min => "argmin_"@,
    }
}

pub open spec fn extreme_type(e: Extreme) -> Seq<char> {
    match e {
        Extreme::Max => "ArgMax"@,
        Extreme::Min => "ArgMin"@,
    }
}

impl Extreme {
    fn prefix(self) -> (s: &'static str)
        ensures
            s@ == extreme_prefix(self),
    {
        match self {
            Extreme::Max => "argmax_",
            Extreme::Min => "argmin_",
        }
    }

    fn struct_name(self) -> (s: &'static str)
        ensures
            s@ == extreme_type(self),
    {
        match self {
            Extreme::Max => "ArgMax",
            Extreme::Min => "ArgMin",
        }
    }
}

/// The items without the one at an axis, when there is one.
pub open spec fn without<A>(s: Seq<A>, ax: int) -> Seq<A> {
    if 0 <= ax < s.len() {
        s.remove(ax)
    } else {
        s
    }
}

/// The item at an axis, or the default when there is none.
pub open spec fn at_axis(s: Seq<usize>, ax: int, default: usize) -> usize {
    if 0 <= ax < s.len() {
        s[ax]
    } else {
        default
    }
}

/// The sizes without the one at an axis.
pub fn drop_axis(v: &[usize], ax: usize) -> (r: Vec<usize>)
    ensures
        r@ == without(v@, ax as int),
{
    let mut r = copy_sizes(v);
    if ax < v.len() {
        r.remove(ax);
    }
    r
}

/// The run of the search for an extreme along an axis of `x`.
pub open spec fn arg_run(x: ArrayV, ax: int, out: ArrayV, e: Extreme, math: Math) -> DispatchV {
    let ty = metal_text(x.dtype);
    let name = extreme_prefix(e) + tag_text(x.dtype);
    let inst = "arg_reduce_general<"@ + ty + ", "@ + extreme_type(e) + "<"@ + ty + ">>"@;
    let size = at_axis(x.shape(), ax, 1);
    let n = out.rank();
    DispatchV {
        program: fresh_program(
            name,
            seq![MetalFile::Utils, MetalFile::ArgReduce],
            "\ntemplate [[host_name(\""@ + name + "\")]] [[kernel]] decltype("@ + inst + ") "@
                + inst + ";\n"@,
            math,
            Seq::empty(),
        ),
        args: seq![
            (0usize, x.as_input()),
            (1usize, ArgV::Output(out.buf, 0)),
            (
                2usize,
                if n == 0 {
                    ArgV::I32(0)
                } else {
                    ArgV::I32s(i32_words(out.shape()))
                },
            ),
            (
                3usize,
                if n == 0 {
                    ArgV::I64(0)
                } else {
                    ArgV::I64s(i64_words(without(x.strides(), ax)))
                },
            ),
            (
                4usize,
                if n == 0 {
                    ArgV::I64(0)
                } else {
                    ArgV::I64s(i64_words(out.strides()))
                },
            ),
            (5usize, ArgV::Size(n as usize)),
            (6usize, ArgV::I64(at_axis(x.strides(), ax, 1) as i64)),
            (7usize, ArgV::Size(size)),
        ],
        grid: Grid::SimdRows(
            ceil_div(size as int, 4) as usize,
            if n == 0 {
                1
            } else if n == 1 {
                out.shape()[0]
            } else {
                out.shape()[1]
            },
            if n < 2 {
                1
            } else {
                out.shape()[0]
            },
        ),
    }
}

/// The search for an extreme along an axis of the row-major `x`.
pub open spec fn arg_of(t: TapeV, x: ArrayV, ax: int, e: Extreme, math: Math) -> (TapeV, Outcome) {
    let dims = without(x.shape(), ax);
    let out = fresh_nonempty(t, dims, Dtype::Uint32);
    (
        t.then_alloc(out.bytes, "arg_out"@).then_do(CmdV::Launch(arg_run(x, ax, out, e, math))),
        Ok(out),
    )
}

/// The text that names the search kernel for a type.
fn arg_text(name: &str, ty: &str, e: Extreme) -> (s: String)
    ensures
        ({
            let inst = "arg_reduce_general<"@ + ty@ + ", "@ + extreme_type(e) + "<"@ + ty@ + ">>"@;
            s@ == "\ntemplate [[host_name(\""@ + name@ + "\")]] [[kernel]] decltype("@ + inst
                + ") "@ + inst + ";\n"@
        }),
{
    let mut inst = cat5("arg_reduce_general<", ty, ", ", e.struct_name(), "<");
    inst.append(ty);
    inst.append(">>");
    let mut s = cat4("\ntemplate [[host_name(\"", name, "\")]] [[kernel]] decltype(", &inst);
    s.append(") ");
    s.append(&inst);
    s.append(";\n");
    s
}

/// Records the search for an extreme along an axis of `x`.
fn record_arg(tape: &mut Tape, x: &Array, ax: usize, e: Extreme, math: Math) -> (r: Result<
    Array,
    Error,
>)
    requires
        x@.wf(),
        without(x@.shape(), ax as int).len() <= 2,
    ensures
        (final(tape)@, seen(r)) == arg_of(old(tape)@, x@, ax as int, e, math),
        r matches Ok(a) && a@.wf(),
{
    let dims = drop_axis(&x.layout.shape, ax);
    let strides = drop_axis(&x.layout.strides, ax);
    proof {
        if ax < x@.rank() {
            lemma_roomy_remove(x@.shape(), ax as int);
        }
        lemma_roomy(dims@, Dtype::Uint32);
    }
    let size = if ax < x.rank() {
        x.layout.shape[ax]
    } else {
        1
    };
    let step = if ax < x.rank() {
        x.layout.strides[ax]
    } else {
        1
    };
    let ty = x.dtype.metal_name();
    let name = cat2(e.prefix(), x.dtype.mlx_name());
    let text = arg_text(&name, ty, e);
    let files = vec![MetalFile::Utils, MetalFile::ArgReduce];
    let out = make_nonempty(tape, &dims, Dtype::Uint32, "arg_out");
    let n = dims.len();
    let mut d = Dispatch::new(program(name, files, text, math));
    d.bind(0, x.input());
    d.bind(1, Arg::Output(out.buf, 0));
    if n == 0 {
        d.bind(2, Arg::I32(0));
        d.bind(3, Arg::I64(0));
        d.bind(4, Arg::I64(0));
    } else {
        d.bind(2, Arg::I32s(to_i32s(&dims)));
        d.bind(3, Arg::I64s(to_i64s(&strides)));
        d.bind(4, Arg::I64s(to_i64s(&out.layout.strides)));
    }
    d.bind(5, Arg::Size(n));
    d.bind(6, Arg::I64(step as i64));
    d.bind(7, Arg::Size(size));
    let w = if n == 0 {
        1
    } else if n == 1 {
        dims[0]
    } else {
        dims[1]
    };
    let h = if n < 2 {
        1
    } else {
        dims[0]
    };
    tape.launch(d, Grid::SimdRows(div_up(size, 4), w, h));
    proof {
        let run = arg_run(x@, ax as int, out@, e, math);
        assert(files@ =~= run.program.source->0.files);
        assert(d@.args =~= run.args);
    }
    Ok(out)
}

/// The position of an extreme along an axis of any array.
pub open spec fn arg_any_s(t: TapeV, a: ArrayV, axis: i32, e: Extreme) -> (TapeV, Outcome) {
    match contiguous_s(t, a) {
        (t1, Err(m)) => (t1, Err(m)),
        (t1, Ok(x)) => {
            let ax = axis_of(x.rank(), axis);
            if x.rank() == 0 {
                (t1, Err("arg_reduce: scalar input"@))
            } else if !(0 <= ax < x.rank()) {
                (t1, Err("arg_reduce: axis out of range"@))
            } else if x.rank() > 3 {
                (t1, Err("arg_reduce: out rank > 2 not implemented"@))
            } else {
                arg_of(t1, x, ax, e, Math::Safe)
            }
        },
    }
}

/// The position of an extreme along an axis of an array that must be
/// row-major. An axis that is not there counts as one position.
pub open spec fn arg_axis_s(t: TapeV, x: ArrayV, axis: i32, e: Extreme) -> (TapeV, Outcome) {
    let ax = axis_of(x.rank(), axis);
    let dims = without(x.shape(), ax);
    if !x.layout.dense() {
        (t, Err("arg_reduce: non-contiguous input"@))
    } else if x.rank() == 0 {
        (t, Err("arg_reduce: scalar input"@))
    } else if !compilable(x.dtype) {
        (t, Err("type_to_name: unsupported "@ + variant_text(x.dtype)))
    } else if dims.len() > 2 {
        (
            t.then_alloc(fresh_nonempty(t, dims, Dtype::Uint32).bytes, "arg_out"@),
            Err("arg_reduce: out rank > 2 not implemented"@),
        )
    } else {
        arg_of(t, x, ax, e, Math::SafeNoLang)
    }
}

impl Array {
    /// The position of an extreme along an axis.
    fn arg_reduce(&self, tape: &mut Tape, axis: i32, e: Extreme) -> (r: Result<Array, Error>)
        requires
            self@.wf(),
            self@.rank() <= i32::MAX,
        ensures
            (final(tape)@, seen(r)) == arg_any_s(old(tape)@, self@, axis, e),
            r matches Ok(a) ==> a@.wf(),
    {
        let x = match self.contiguous(tape) {
            Ok(x) => x,
            Err(m) => {
                return Err(m);
            },
        };
        let rank = x.rank();
        if rank == 0 {
            return err("arg_reduce: scalar input");
        }
        let ax = match axis_index(rank, axis) {
            Some(i) => i,
            None => {
                return err("arg_reduce: axis out of range");
            },
        };
        if rank > 3 {
            return err("arg_reduce: out rank > 2 not implemented");
        }
        record_arg(tape, &x, ax, e, Math::Safe)
    }

    /// The position of the largest element along an axis.
    pub fn argmax_axis(&self, tape: &mut Tape, axis: i32) -> (r: Result<Array, Error>)
        requires
            self@.wf(),
            self@.rank() <= i32::MAX,
        ensures
            (final(tape)@, seen(r)) == arg_any_s(old(tape)@, self@, axis, Extreme::Max),
            r matches Ok(a) ==> a@.wf(),
    {
        self.arg_reduce(tape, axis, Extreme::Max)
    }

    /// The position of the smallest element along an axis.
    pub fn argmin_axis(&self, tape: &mut Tape, axis: i32) -> (r: Result<Array, Error>)
        requires
            self@.wf(),
            self@.rank() <= i32::MAX,
        ensures
            (final(tape)@, seen(r)) == arg_any_s(old(tape)@, self@, axis, Extreme::Min),
            r matches Ok(a) ==> a@.wf(),
    {
        self.arg_reduce(tape, axis, Extreme::Min)
    }
}

/// The position of an extreme along an axis of a row-major array.
pub fn arg_reduce_axis(tape: &mut Tape, x: &Array, axis: i32, e: Extreme) -> (r: Result<
    Array,
    Error,
>)
    requires
        x@.wf(),
        x@.rank() <= i32::MAX,
    ensures
        (final(tape)@, seen(r)) == arg_axis_s(old(tape)@, x@, axis, e),
        r matches Ok(a) ==> a@.wf(),
{
    if !x.is_contiguous() {
        return err("arg_reduce: non-contiguous input");
    }
    let rank = x.rank();
    if rank == 0 {
        return err("arg_reduce: scalar input");
    }
    match type_to_name(x.dtype) {
        Err(m) => {
            return Err(m);
        },
        Ok(_) => {},
    }
    // An axis that is not there is past the last one.
    let ax = match axis_index(rank, axis) {
        Some(i) => i,
        None => rank,
    };
    proof {
        let a = axis_of(x@.rank(), axis);
        assert(without(x@.shape(), ax as int) == without(x@.shape(), a));
        assert(without(x@.strides(), ax as int) == without(x@.strides(), a));
    }
    let dims = drop_axis(&x.layout.shape, ax);
    if dims.len() > 2 {
        proof {
            if ax < rank {
                lemma_roomy_remove(x@.shape(), ax as int);
            }
        }
        let out = make_nonempty(tape, &dims, Dtype::Uint32, "arg_out");
        return err("arg_reduce: out rank > 2 not implemented");
    }
    record_arg(tape, x, ax, e, Math::SafeNoLang)
}

/// The position of the largest element along an axis.
pub fn argmax_axis(tape: &mut Tape, x: &Array, axis: i32) -> (r: Result<Array, Error>)
    requires
        x@.wf(),
        x@.rank() <= i32::MAX,
    ensures
        (final(tape)@, seen(r)) == arg_axis_s(old(tape)@, x@, axis, Extreme::Max),
        r matches Ok(a) ==> a@.wf(),
{
    arg_reduce_axis(tape, x, axis, Extreme::Max)
}

/// The position of the smallest element along an axis.
pub fn argmin_axis(tape: &mut Tape, x: &Array, axis: i32) -> (r: Result<Array, Error>)
    requires
        x@.wf(),
        x@.rank() <= i32::MAX,
    ensures
        (final(tape)@, seen(r)) == arg_axis_s(old(tape)@, x@, axis, Extreme::Min),
        r matches Ok(a) ==> a@.wf(),
{
    arg_reduce_axis(tape, x, axis, Extreme::Min)
}

// ---- sorting ----

/// The threads of the block sort of a row: enough for four elements a thread,
/// fewer for elements wider than four bytes.
pub open spec fn sort_block(axis: usize, dtype: Dtype) -> int {
    let p = ceil_div(axis as int, 4);
    if p > 256 {
        if width(dtype) > 4 {
            256
        } else {
            512
        }
    } else if p > 128 {
        256
    } else if p > 64 {
        128
    } else if p > 32 {
        64
    } else {
        32
    }
}

/// The stride between rows: that of the last axis but one that is not of size
/// one, when there is such an axis.
pub open spec fn row_step(shape: Seq<usize>, strides: Seq<usize>, k: int) -> i32
    decreases k,
{
    if k <= 0 {
        i32::MAX
    } else if shape[k - 1] != 1 {
        strides[k - 1] as i32
    } else {
        row_step(shape, strides, k - 1)
    }
}

/// The instantiations of the block sort.
pub open spec fn sort_defs(lib: Seq<char>, ty: Seq<char>, bn: nat) -> Seq<char> {
    let u = metal_text(Dtype::Uint32);
    template_def("carg_"@ + lib, "block_sort"@, seq![ty, u, "true"@, dec(bn), "4"@])
        + template_def("ncarg_"@ + lib, "block_sort_nc"@, seq![ty, u, "true"@, dec(bn), "4"@])
        + template_def("c_"@ + lib, "block_sort"@, seq![ty, u, "false"@, dec(bn), "4"@])
        + template_def("nc_"@ + lib, "block_sort_nc"@, seq![ty, u, "false"@, dec(bn), "4"@])
}

/// The run of the block sort over the rows of `x`.
pub open spec fn sort_run(x: ArrayV, out: ArrayV, argsort: bool) -> DispatchV {
    let axis = x.shape().last();
    let bn = sort_block(axis, x.dtype);
    let lib = "block_sort_"@ + tag_text(x.dtype) + "_uint32_bn"@ + dec(bn as nat) + "_tn4"@;
    let n = x.rank() - 1;
    let seg = if x.rank() >= 2 {
        row_step(x.shape(), x.strides(), n)
    } else {
        i32::MAX
    };
    DispatchV {
        program: fresh_program(
            (if argsort {
                "carg_"@
            } else {
                "c_"@
            }) + lib,
            seq![MetalFile::Utils, MetalFile::Sort],
            sort_defs(lib, metal_text(x.dtype), bn as nat),
            Math::SafeNoLang,
            Seq::empty(),
        ),
        args: seq![
            (0usize, x.as_input()),
            (1usize, ArgV::Output(out.buf, 0)),
            (2usize, ArgV::I32(axis as i32)),
            (3usize, ArgV::I32(1)),
            (4usize, ArgV::I32(1)),
            (5usize, ArgV::I32(seg)),
            (6usize, ArgV::I32(seg)),
        ],
        grid: Grid::Groups(
            Dim3 {
                x: 1,
                y: max_int(numel(x.shape().drop_last()) as int, 1) as usize,
                z: 1,
            },
            Dim3 { x: bn as usize, y: 1, z: 1 },
        ),
    }
}

/// The sorting order of each row of an array that must be row-major.
pub open spec fn sort_s(t: TapeV, x: ArrayV, argsort: bool) -> (TapeV, Outcome) {
    if x.rank() == 0 || !x.layout.dense() {
        (t, Err("argsort: non-contiguous or scalar input"@))
    } else if x.shape().last() > 4 * sort_block(x.shape().last(), x.dtype) {
        (t, Err("argsort: multi-block sort not implemented"@))
    } else if !compilable(x.dtype) {
        (t, Err("unsupported compilation type "@ + variant_text(x.dtype)))
    } else {
        let out = fresh(t, x.shape(), Dtype::Uint32);
        (
            with_room(t, x.shape(), Dtype::Uint32, "sort_out"@).then_do(
                CmdV::Launch(sort_run(x, out, argsort)),
            ),
            Ok(out),
        )
    }
}

fn sort_width(axis: usize, dtype: Dtype) -> (bn: usize)
    ensures
        bn == sort_block(axis, dtype),
        32 <= bn <= 512,
{
    let p = div_up(axis, 4);
    let mut bn: usize = if p > 256 {
        512
    } else if p > 128 {
        256
    } else if p > 64 {
        128
    } else if p > 32 {
        64
    } else {
        32
    };
    if bn == 512 && dtype.size_of() > 4 {
        bn = 256;
    }
    bn
}

fn row_step_of(x: &Array) -> (s: i32)
    requires
        x@.wf(),
        x@.rank() > 0,
    ensures
        s == (if x@.rank() >= 2 {
            row_step(x@.shape(), x@.strides(), x@.rank() - 1)
        } else {
            i32::MAX
        }),
{
    if x.rank() < 2 {
        return i32::MAX;
    }
    let mut k: usize = x.rank() - 1;
    while k > 0
        invariant
            k <= x@.rank() - 1,
            x@.wf(),
            row_step(x@.shape(), x@.strides(), k as int) == row_step(
                x@.shape(),
                x@.strides(),
                x@.rank() - 1,
            ),
        decreases k,
    {
        if x.layout.shape[k - 1] != 1 {
            return x.layout.strides[k - 1] as i32;
        }
        k -= 1;
    }
    i32::MAX
}

fn sort_text(lib: &str, ty: &str, bn: usize) -> (s: String)
    ensures
        s@ == sort_defs(lib@, ty@, bn as nat),
{
    let u = Dtype::Uint32.metal_name();
    let b = decimal_usize(bn);
    let mut s = inst5(&cat2("carg_", lib), "block_sort", ty, u, "true", &b, "4");
    let d = inst5(&cat2("ncarg_", lib), "block_sort_nc", ty, u, "true", &b, "4");
    s.append(&d);
    let d = inst5(&cat2("c_", lib), "block_sort", ty, u, "false", &b, "4");
    s.append(&d);
    let d = inst5(&cat2("nc_", lib), "block_sort_nc", ty, u, "false", &b, "4");
    s.append(&d);
    s
}

/// The sorting order of each row of a row-major array, or the sorted rows.
pub fn argsort_axis(tape: &mut Tape, x: &Array, argsort: bool) -> (r: Result<Array, Error>)
    requires
        x@.wf(),
    ensures
        (final(tape)@, seen(r)) == sort_s(old(tape)@, x@, argsort),
        r matches Ok(a) ==> a@.wf(),
{
    if x.rank() == 0 || !x.is_contiguous() {
        return err("argsort: non-contiguous or scalar input");
    }
    let axis = x.layout.shape[x.rank() - 1];
    let head = all_but_last(&x.layout.shape);
    proof {
        lemma_roomy_front(x@.shape());
        lemma_roomy(head@, x@.dtype);
    }
    let n_rows = max_usize(product(&head), 1);
    let bn = sort_width(axis, x.dtype);
    if div_up(axis, bn * 4) > 1 {
        proof {
            let m = (bn * 4) as int;
            assert(ceil_div(axis as int, m) > 1 ==> axis > m) by (nonlinear_arith)
                requires
                    m > 0,
                    axis >= 0,
            ;
        }
        return err("argsort: multi-block sort not implemented");
    }
    proof {
        let m = (bn * 4) as int;
        assert(ceil_div(axis as int, m) <= 1 ==> axis <= m) by (nonlinear_arith)
            requires
                m > 0,
                axis >= 0,
        ;
    }
    match type_string(x.dtype) {
        Err(m) => {
            return Err(m);
        },
        Ok(_) => {},
    }
    let b = decimal_usize(bn);
    let lib = cat5("block_sort_", x.dtype.mlx_name(), "_uint32_bn", &b, "_tn4");
    let name = cat2(
        if argsort {
            "carg_"
        } else {
            "c_"
        },
        &lib,
    );
    let text = sort_text(&lib, x.dtype.metal_name(), bn);
    let files = vec![MetalFile::Utils, MetalFile::Sort];
    let out = Array::make(tape, &x.layout.shape, Dtype::Uint32, "sort_out");
    let seg = row_step_of(x);
    let mut d = Dispatch::new(program(name, files, text, Math::SafeNoLang));
    d.bind(0, x.input());
    d.bind(1, Arg::Output(out.buf, 0));
    d.bind(2, Arg::I32(axis as i32));
    d.bind(3, Arg::I32(1));
    d.bind(4, Arg::I32(1));
    d.bind(5, Arg::I32(seg));
    d.bind(6, Arg::I32(seg));
    tape.launch(d, Grid::Groups(dim3(1, n_rows, 1), dim3(bn, 1, 1)));
    proof {
        let run = sort_run(x@, out@, argsort);
        assert(files@ =~= run.program.source->0.files);
        assert(d@.args =~= run.args);
    }
    Ok(out)
}

/// The sorting order of each row.
pub fn argsort_last(tape: &mut Tape, x: &Array) -> (r: Result<Array, Error>)
    requires
        x@.wf(),
    ensures
        (final(tape)@, seen(r)) == sort_s(old(tape)@, x@, true),
        r matches Ok(a) ==> a@.wf(),
{
    argsort_axis(tape, x, true)
}

/// An order of each row that puts the `kth` element in its sorted place: the
/// whole sorting order does, whatever `kth` is.
pub fn argpartition_axis(tape: &mut Tape, x: &Array, kth: i32) -> (r: Result<Array, Error>)
    requires
        x@.wf(),
    ensures
        (final(tape)@, seen(r)) == sort_s(old(tape)@, x@, true),
        r matches Ok(a) ==> a@.wf(),
{
    argsort_axis(tape, x, true)
}

// ---- norms ----
//
// The root-mean-square norm divides each value of a row by the root of the mean of
// the row's squares, `eps` added under the root, and multiplies it by the weight at
// its place in the row. The weight is the array itself: a view of one is read from
// its own first element, one stride further for each place.

/// The run of the root-mean-square norm over the rows of `x`, with the weight `w`
/// from its first element on.
pub open spec fn rms_run(x: ArrayV, w: ArrayV, out: ArrayV, eps: u32) -> DispatchV {
    let ty = metal_text(x.dtype);
    let tag = tag_text(x.dtype);
    let axis = x.shape().last();
    let looped = axis > 4096;
    let tgs = row_threads(axis) as usize;
    DispatchV {
        program: fresh_program(
            (if looped {
                "rms_looped_"@
            } else {
                "rms_"@
            }) + tag,
            seq![MetalFile::Utils, MetalFile::RmsNorm],
            template_def("rms_"@ + tag, "rms_single_row"@, seq![ty]) + template_def(
                "rms_looped_"@ + tag,
                "rms_looped"@,
                seq![ty],
            ),
            Math::SafeNoLang,
            seq![(20usize, ConstVal::Bool(true))],
        ),
        args: seq![
            (0usize, x.as_input()),
            (1usize, w.as_input()),
            (2usize, ArgV::Output(out.buf, 0)),
            (3usize, ArgV::Word(eps)),
            (4usize, ArgV::U32(axis as u32)),
            (
                5usize,
                ArgV::U32(
                    if w.rank() == 1 {
                        w.strides()[0] as u32
                    } else {
                        0
                    },
                ),
            ),
        ],
        grid: if looped {
            Grid::FullRows(rows_of(x.shape()) as usize)
        } else {
            Grid::Threads(
                Dim3 { x: (rows_of(x.shape()) * tgs) as usize, y: 1, z: 1 },
                Dim3 { x: tgs, y: 1, z: 1 },
            )
        },
    }
}

/// The root-mean-square norm of each row of an array that must be row-major,
/// with a weight or the number one in its place.
pub open spec fn rms_s(t: TapeV, x: ArrayV, weight: Option<ArrayV>, eps: u32) -> (TapeV, Outcome) {
    if x.rank() == 0 || !x.layout.dense() {
        (t, Err("rms_norm: non-contiguous or scalar input"@))
    } else if !compilable(x.dtype) {
        (t, Err("unsupported compilation type "@ + variant_text(x.dtype)))
    } else {
        let w = match weight {
            Some(w) => (t, Outcome::Ok(w)),
            // The bits of the 32-bit float one.
            None => scalar_s(t, Scalar::Bits(0x3f80_0000), x.dtype),
        };
        match w {
            (t1, Err(m)) => (t1, Err(m)),
            (t1, Ok(w)) => {
                let out = fresh(t1, x.shape(), x.dtype);
                (
                    with_room(t1, x.shape(), x.dtype, "rms_out"@).then_do(
                        CmdV::Launch(rms_run(x, w, out, eps)),
                    ),
                    Ok(out),
                )
            },
        }
    }
}

/// The root-mean-square norm of each row; `eps` is the bit pattern of a 32-bit
/// float.
pub fn rms_norm(tape: &mut Tape, x: &Array, weight: Option<&Array>, eps: u32) -> (r: Result<
    Array,
    Error,
>)
    requires
        x@.wf(),
        weight matches Some(w) ==> w@.wf(),
        x@.rank() > 0 && x@.shape().last() <= 4096 ==> rows_of(x@.shape()) * row_threads(
            x@.shape().last(),
        ) <= usize::MAX,
    ensures
        (final(tape)@, seen(r)) == rms_s(
            old(tape)@,
            x@,
            match weight {
                Some(w) => Some(w@),
                None => None,
            },
            eps,
        ),
        r matches Ok(a) ==> a@.wf(),
{
    if x.rank() == 0 || !x.is_contiguous() {
        return err("rms_norm: non-contiguous or scalar input");
    }
    match type_string(x.dtype) {
        Err(m) => {
            return Err(m);
        },
        Ok(_) => {},
    }
    let axis = x.layout.shape[x.rank() - 1];
    let n_rows: usize = x.size() / max_usize(axis, 1);
    let ty = x.dtype.metal_name();
    let tag = x.dtype.mlx_name();
    let looped = axis > 4096;
    let name = cat2(
        if looped {
            "rms_looped_"
        } else {
            "rms_"
        },
        tag,
    );
    let mut text = inst1(&cat2("rms_", tag), "rms_single_row", ty);
    let more = inst1(&cat2("rms_looped_", tag), "rms_looped", ty);
    text.append(&more);
    let w = match weight {
        Some(w) => w.duplicate(),
        None => match Array::scalar_of(tape, Scalar::Bits(0x3f80_0000), x.dtype) {
            Ok(w) => w,
            Err(m) => {
                return Err(m);
            },
        },
    };
    let out = Array::make(tape, &x.layout.shape, x.dtype, "rms_out");
    let files = vec![MetalFile::Utils, MetalFile::RmsNorm];
    let mut p = program(name, files, text, Math::SafeNoLang);
    p.consts = vec![(20, ConstVal::Bool(true))];
    let mut d = Dispatch::new(p);
    d.bind(0, x.input());
    d.bind(1, w.input());
    d.bind(2, Arg::Output(out.buf, 0));
    d.bind(3, Arg::Word(eps));
    d.bind(4, Arg::U32(axis as u32));
    let step: u32 = if w.rank() == 1 {
        w.layout.strides[0] as u32
    } else {
        0
    };
    d.bind(5, Arg::U32(step));
    let grid = if !looped {
        let tgs = row_group(axis);
        Grid::Threads(dim3(n_rows * tgs, 1, 1), dim3(tgs, 1, 1))
    } else {
        Grid::FullRows(n_rows)
    };
    tape.launch(d, grid);
    proof {
        let run = rms_run(x@, w@, out@, eps);
        assert(files@ =~= run.program.source->0.files);
        assert(p@.consts =~= run.program.consts);
        assert(d@.args =~= run.args);
    }
    Ok(out)
}

// ---- sums over the first axis ----

/// The run of the column sum over the first axis of `x`.
pub open spec fn column_run(x: ArrayV, out: ArrayV) -> DispatchV {
    let ty = metal_text(x.dtype);
    let name = "col_reduce_small_1_reduce_sum"@ + tag_text(x.dtype);
    let r = x.shape()[0];
    let rest = numel(x.shape().skip(1)) as usize;
    DispatchV {
        program: fresh_program(
            name,
            seq![MetalFile::Utils, MetalFile::ReduceUtils, MetalFile::Reduce],
            template_def(
                name,
                "col_reduce_small"@,
                seq![ty, ty, "Sum<"@ + ty + ">"@, "int"@, "1"@],
            ),
            Math::SafeNoLang,
            Seq::empty(),
        ),
        args: seq![
            (0usize, x.as_input()),
            (1usize, ArgV::Output(out.buf, 0)),
            (2usize, ArgV::Size(r)),
            (3usize, ArgV::I64(rest as i64)),
            (4usize, ArgV::I32s(seq![0i32])),
            (5usize, ArgV::I64s(seq![0i64])),
            (6usize, ArgV::I32(0)),
            (7usize, ArgV::I32s(seq![r as i32])),
            (8usize, ArgV::I64s(seq![rest as i64])),
            (9usize, ArgV::I32(1)),
            (10usize, ArgV::Size(1)),
        ],
        grid: Grid::Columns(ceil_div(rest as int, 4) as usize, r),
    }
}

/// The sum over the first axis.
pub open spec fn column_s(t: TapeV, x: ArrayV) -> (TapeV, Outcome) {
    if !compilable(x.dtype) {
        (t, Err("unsupported compilation type "@ + variant_text(x.dtype)))
    } else {
        let dims = x.shape().skip(1);
        let out = fresh(t, dims, x.dtype);
        (
            with_room(t, dims, x.dtype, "colred_out"@).then_do(CmdV::Launch(column_run(x, out))),
            Ok(out),
        )
    }
}

/// The sizes from an axis on.
pub fn sizes_from(v: &[usize], i: usize) -> (r: Vec<usize>)
    requires
        i <= v@.len(),
    ensures
        r@ == v@.skip(i as int),
{
    let mut r: Vec<usize> = Vec::new();
    let mut k: usize = i;
    while k < v.len()
        invariant
            i <= k <= v.len(),
            r@ == v@.subrange(i as int, k as int),
        decreases v.len() - k,
    {
        r.push(v[k]);
        k += 1;
        assert(r@ =~= v@.subrange(i as int, k as int));
    }
    assert(r@ =~= v@.skip(i as int));
    r
}

/// The sizes before an axis.
pub fn sizes_before(v: &[usize], i: usize) -> (r: Vec<usize>)
    requires
        i <= v@.len(),
    ensures
        r@ == v@.take(i as int),
{
    let mut r: Vec<usize> = Vec::new();
    let mut k: usize = 0;
    while k < i
        invariant
            k <= i <= v.len(),
            r@ == v@.take(k as int),
        decreases i - k,
    {
        r.push(v[k]);
        k += 1;
        assert(r@ =~= v@.take(k as int));
    }
    r
}

/// The sum over the first axis.
pub fn reduce_axis0_sum(tape: &mut Tape, inter: &Array) -> (r: Result<Array, Error>)
    requires
        inter@.wf(),
        inter@.rank() > 0,
        numel(inter@.shape().skip(1)) > 0,
    ensures
        (final(tape)@, seen(r)) == column_s(old(tape)@, inter@),
        r matches Ok(a) ==> a@.wf(),
{
    let r0 = inter.layout.shape[0];
    let dims = sizes_from(&inter.layout.shape, 1);
    proof {
        lemma_volume_skip(inter@.shape(), 1);
        lemma_roomy(dims@, inter@.dtype);
    }
    let rest = product(&dims);
    match type_string(inter.dtype) {
        Err(m) => {
            return Err(m);
        },
        Ok(_) => {},
    }
    let ty = inter.dtype.metal_name();
    let name = cat2("col_reduce_small_1_reduce_sum", inter.dtype.mlx_name());
    let op = cat3("Sum<", ty, ">");
    let text = inst5(&name, "col_reduce_small", ty, ty, &op, "int", "1");
    let files = vec![MetalFile::Utils, MetalFile::ReduceUtils, MetalFile::Reduce];
    let out = Array::make(tape, &dims, inter.dtype, "colred_out");
    let mut d = Dispatch::new(program(name, files, text, Math::SafeNoLang));
    let zi: Vec<i32> = vec![0];
    let zl: Vec<i64> = vec![0];
    let ri: Vec<i32> = vec![r0 as i32];
    let rl: Vec<i64> = vec![rest as i64];
    d.bind(0, inter.input());
    d.bind(1, Arg::Output(out.buf, 0));
    d.bind(2, Arg::Size(r0));
    d.bind(3, Arg::I64(rest as i64));
    d.bind(4, Arg::I32s(zi));
    d.bind(5, Arg::I64s(zl));
    d.bind(6, Arg::I32(0));
    d.bind(7, Arg::I32s(ri));
    d.bind(8, Arg::I64s(rl));
    d.bind(9, Arg::I32(1));
    d.bind(10, Arg::Size(1));
    tape.launch(d, Grid::Columns(div_up(rest, 4), r0));
    proof {
        let run = column_run(inter@, out@);
        assert(files@ =~= run.program.source->0.files);
        assert(zi@ =~= seq![0i32]);
        assert(zl@ =~= seq![0i64]);
        assert(ri@ =~= seq![r0 as i32]);
        assert(rl@ =~= seq![rest as i64]);
        assert(d@.args =~= run.args);
    }
    Ok(out)
}

// ---- scattering along an axis ----

/// The mark in a kernel's name for an operand that lies packed, or does not.
pub open spec fn packing(dense: bool) -> Seq<char> {
    if dense {
        "c"@
    } else {
        "nc"@
    }
}

/// The instantiation of the scatter for row-major or strided operands.
pub open spec fn scatter_def(
    lib: Seq<char>,
    out_ty: Seq<char>,
    idx_ty: Seq<char>,
    uc: bool,
    ic: bool,
) -> Seq<char> {
    template_def(
        lib + packing(uc) + packing(ic),
        "scatter_axis"@,
        seq![out_ty, idx_ty, "int"@, "None"@, bool_text(uc), bool_text(ic)],
    )
}

/// The run of the scatter of `updates` into `out` at `indices`: the variant of the
/// kernel that reads each of the two as it lies in memory.
pub open spec fn scatter_run(
    out: ArrayV,
    indices: ArrayV,
    updates: ArrayV,
    ax: int,
) -> DispatchV {
    let dims = indices.shape();
    let lib = "scatter_axis"@ + tag_text(out.dtype) + tag_text(indices.dtype) + "_none_int"@;
    let ot = metal_text(out.dtype);
    let it = metal_text(indices.dtype);
    let n = (dims.len() - 1) as usize;
    let pre = numel(dims.take(ax)) as usize;
    let post = numel(dims.skip(ax + 1)) as usize;
    let (gx, gy, gz) = block_dims(post as nat, dims[ax] as nat, pre as nat, 10);
    DispatchV {
        program: fresh_program(
            lib + packing(updates.layout.dense()) + packing(indices.layout.dense()),
            seq![MetalFile::Utils, MetalFile::ReduceUtils, MetalFile::ScatterAxis],
            scatter_def(lib, ot, it, true, true) + scatter_def(lib, ot, it, true, false)
                + scatter_def(lib, ot, it, false, true) + scatter_def(lib, ot, it, false, false),
            Math::SafeNoLang,
            Seq::empty(),
        ),
        args: seq![
            (0usize, updates.as_input()),
            (1usize, indices.as_input()),
            (2usize, ArgV::Output(out.buf, out.start())),
            (
                3usize,
                if n == 0 {
                    ArgV::I32(0)
                } else {
                    ArgV::I32s(i32_words(dims.remove(ax)))
                },
            ),
            (
                4usize,
                if n == 0 {
                    ArgV::I64(0)
                } else {
                    ArgV::I64s(i64_words(updates.strides().remove(ax)))
                },
            ),
            (
                5usize,
                if n == 0 {
                    ArgV::I64(0)
                } else {
                    ArgV::I64s(i64_words(indices.strides().remove(ax)))
                },
            ),
            (6usize, ArgV::Size(n)),
            (7usize, ArgV::I32(ax as usize as i32)),
            (8usize, ArgV::I32(out.shape()[ax] as i32)),
            (9usize, ArgV::Size(updates.strides()[ax])),
            (10usize, ArgV::Size(indices.strides()[ax])),
        ],
        grid: Grid::Threads(
            Dim3 { x: post, y: dims[ax], z: pre },
            Dim3 { x: gx as usize, y: gy as usize, z: gz as usize },
        ),
    }
}

/// A copy of `src` with `updates` written at `indices` along an axis.
pub open spec fn scatter_s(
    t: TapeV,
    src: ArrayV,
    indices: ArrayV,
    updates: ArrayV,
    ax: int,
) -> (TapeV, Outcome) {
    match copied_s(t, src) {
        (t1, Err(m)) => (t1, Err(m)),
        (t1, Ok(out)) => if !compilable(src.dtype) {
            (t1, Err("unsupported compilation type "@ + variant_text(src.dtype)))
        } else if !compilable(indices.dtype) {
            (t1, Err("unsupported compilation type "@ + variant_text(indices.dtype)))
        } else {
            (t1.then_do(CmdV::Launch(scatter_run(out, indices, updates, ax))), Ok(out))
        },
    }
}

fn packing_name(dense: bool) -> (s: &'static str)
    ensures
        s@ == packing(dense),
{
    if dense {
        "c"
    } else {
        "nc"
    }
}

fn scatter_text(lib: &str, ot: &str, it: &str) -> (s: String)
    ensures
        s@ == scatter_def(lib@, ot@, it@, true, true) + scatter_def(lib@, ot@, it@, true, false)
            + scatter_def(lib@, ot@, it@, false, true) + scatter_def(lib@, ot@, it@, false, false),
{
    let mut s = inst6(&cat3(lib, "c", "c"), "scatter_axis", ot, it, "int", "None", "true", "true");
    let d = inst6(&cat3(lib, "c", "nc"), "scatter_axis", ot, it, "int", "None", "true", "false");
    s.append(&d);
    let d = inst6(&cat3(lib, "nc", "c"), "scatter_axis", ot, it, "int", "None", "false", "true");
    s.append(&d);
    let d = inst6(&cat3(lib, "nc", "nc"), "scatter_axis", ot, it, "int", "None", "false", "false");
    s.append(&d);
    s
}

/// A copy of `src` with `updates` written at `indices` along an axis, counted
/// from the end when negative.
pub fn put_along_axis(
    tape: &mut Tape,
    src: &Array,
    indices: &Array,
    updates: &Array,
    axis: i32,
) -> (r: Result<Array, Error>)
    requires
        src@.wf(),
        indices@.wf(),
        updates@.wf(),
        indices@.rank() <= i32::MAX,
        compilable(src@.dtype) && compilable(indices@.dtype) ==> {
            &&& src@.rank() == indices@.rank()
            &&& updates@.rank() == indices@.rank()
            &&& 0 <= axis_of(indices@.rank(), axis) < indices@.rank()
        },
    ensures
        (final(tape)@, seen(r)) == scatter_s(
            old(tape)@,
            src@,
            indices@,
            updates@,
            axis_of(indices@.rank(), axis),
        ),
        r matches Ok(a) ==> a@.wf(),
{
    let out = match src.copied(tape) {
        Ok(o) => o,
        Err(m) => {
            return Err(m);
        },
    };
    match type_string(src.dtype) {
        Err(m) => {
            return Err(m);
        },
        Ok(_) => {},
    }
    match type_string(indices.dtype) {
        Err(m) => {
            return Err(m);
        },
        Ok(_) => {},
    }
    let rank = indices.rank();
    let ax = match axis_index(rank, axis) {
        Some(i) => i,
        None => {
            assert(false);
            0
        },
    };
    let ot = src.dtype.metal_name();
    let it = indices.dtype.metal_name();
    let lib = cat4("scatter_axis", src.dtype.mlx_name(), indices.dtype.mlx_name(), "_none_int");
    let name = cat3(&lib, packing_name(updates.is_contiguous()), packing_name(indices.is_contiguous()));
    let text = scatter_text(&lib, ot, it);
    let files = vec![MetalFile::Utils, MetalFile::ReduceUtils, MetalFile::ScatterAxis];
    let dims = drop_axis(&indices.layout.shape, ax);
    let us = drop_axis(&updates.layout.strides, ax);
    let is = drop_axis(&indices.layout.strides, ax);
    let n: usize = rank - 1;
    let mut d = Dispatch::new(program(name, files, text, Math::SafeNoLang));
    d.bind(0, updates.input());
    d.bind(1, indices.input());
    d.bind(2, Arg::Output(out.buf, out.layout.offset * out.dtype.size_of()));
    if n == 0 {
        d.bind(3, Arg::I32(0));
        d.bind(4, Arg::I64(0));
        d.bind(5, Arg::I64(0));
    } else {
        d.bind(3, Arg::I32s(to_i32s(&dims)));
        d.bind(4, Arg::I64s(to_i64s(&us)));
        d.bind(5, Arg::I64s(to_i64s(&is)));
    }
    d.bind(6, Arg::Size(n));
    d.bind(7, Arg::I32(ax as i32));
    d.bind(8, Arg::I32(src.layout.shape[ax] as i32));
    d.bind(9, Arg::Size(updates.layout.strides[ax]));
    d.bind(10, Arg::Size(indices.layout.strides[ax]));
    let before = sizes_before(&indices.layout.shape, ax);
    let after = sizes_from(&indices.layout.shape, ax + 1);
    proof {
        lemma_volume_take(indices@.shape(), ax as int);
        lemma_volume_skip(indices@.shape(), ax + 1);
        lemma_roomy(indices@.shape(), indices@.dtype);
        lemma_volume_bounds(before@);
        lemma_volume_bounds(after@);
        lemma_small_volume(before@);
        lemma_small_volume(after@);
        crate::layout::lemma_axis_bound(indices@.shape(), ax as int);
    }
    let pre = product(&before);
    let post = product(&after);
    let mid = indices.layout.shape[ax];
    let (gx, gy, gz) = get_block_dims(post, mid, pre, 10);
    tape.launch(d, Grid::Threads(dim3(post, mid, pre), dim3(gx, gy, gz)));
    proof {
        let run = scatter_run(out@, indices@, updates@, ax as int);
        assert(files@ =~= run.program.source->0.files);
        assert(d@.args =~= run.args);
    }
    Ok(out)
}

} // verus!
