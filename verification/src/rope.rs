//! Rotary position embedding.
//!
//! A row is the last axis, and the axis before it counts the positions. Of each row
//! the first `dims` values are taken in pairs: neighbours in the traditional order,
//! else one value from each half. The pair `i` of the row at position `p` is rotated
//! by the angle `scale * (offset + p) * base^(-2 i / dims)`, the other way when the
//! rotation is not forward. The rows are those of the array itself: a view is read
//! from its own first element, and so is the array that holds the offset.

use vstd::prelude::*;

use crate::array::{err, fresh, lemma_roomy, seen, with_room, Array, ArrayV, Outcome};
use crate::codegen::{inst1, inst2, template_def};
use crate::dtype::{compilable, metal_text, tag_text, type_string, variant_text};
use crate::error::Error;
use crate::launch::{block_dims, get_block_dims};
use crate::layout::{
    at_least_one, lemma_small_volume, lemma_volume_bounds, lemma_volume_skip, lemma_volume_take,
    numel, product, volume,
};
use crate::search::{sizes_before, sizes_from};
use crate::tape::{
    ceil_div, dim3, div_up, fresh_program, program, Arg, ArgV, CmdV, ConstVal, Dim3, Dispatch,
    DispatchV, Grid, Math, MetalFile, Tape, TapeV,
};
use crate::text::cat2;

verus! {

/// The number of matrices of an array: its axes but the first and the last two.
pub open spec fn matrices(shape: Seq<usize>) -> nat {
    numel(shape.subrange(1, shape.len() - 2))
}

/// Whether one position is rotated by one offset.
pub open spec fn one_step(x: ArrayV, offset: ArrayV) -> bool {
    x.shape()[x.rank() - 2] == 1 && offset.count() == 1
}

/// The run of the rotation of `x`.
pub open spec fn rope_run(
    x: ArrayV,
    out: ArrayV,
    offset: ArrayV,
    dims: i32,
    traditional: bool,
    forward: bool,
    scale: u32,
    log2_base: u32,
) -> DispatchV {
    let r = x.rank() as int;
    let s = x.shape();
    let tag = tag_text(x.dtype);
    let ty = metal_text(x.dtype);
    let single = one_step(x, offset);
    let n = matrices(s) as usize;
    let mat = (s[r - 2] * s[r - 1]) as usize as i64;
    let out_st = seq![mat, out.strides()[r - 2] as i64, out.strides()[r - 1] as i64];
    let d0 = (dims as int / 2) as usize;
    let d1 = if single {
        (s[0] * n) as usize
    } else {
        s[r - 2]
    };
    let d2 = if single {
        1usize
    } else {
        (s[0] * ceil_div(n as int, 4)) as usize
    };
    let (gx, gy, gz) = block_dims(d0 as nat, d1 as nat, d2 as nat, 10);
    DispatchV {
        program: fresh_program(
            (if single {
                "rope_single_"@
            } else {
                "rope_"@
            }) + tag,
            seq![MetalFile::Utils, MetalFile::Rope],
            template_def("rope_"@ + tag, "rope"@, seq![ty, "int32_t"@]) + template_def(
                "rope_single_"@ + tag,
                "rope_single"@,
                seq![ty],
            ),
            Math::SafeNoLang,
            seq![
                (1usize, ConstVal::Bool(forward)),
                (2usize, ConstVal::Bool(traditional)),
                (3usize, ConstVal::Bool(false)),
            ],
        ),
        args: seq![
            (0usize, x.as_input()),
            (1usize, ArgV::Output(out.buf, 0)),
            (2usize, offset.as_input()),
            (3usize, ArgV::Word(scale)),
        ] + (if single {
            seq![(4usize, ArgV::I64s(out_st))]
        } else {
            seq![
                (
                    4usize,
                    ArgV::I64s(seq![mat, x.strides()[r - 2] as i64, x.strides()[r - 1] as i64]),
                ),
                (5usize, ArgV::I64s(out_st)),
                (
                    6usize,
                    ArgV::I64(
                        if offset.rank() > 0 {
                            offset.strides()[0] as i64
                        } else {
                            0
                        },
                    ),
                ),
                (7usize, ArgV::I32(n as i32)),
            ]
        }) + seq![(10usize, ArgV::Word(log2_base))],
        grid: Grid::Threads(
            Dim3 { x: d0, y: d1, z: d2 },
            Dim3 { x: gx as usize, y: gy as usize, z: gz as usize },
        ),
    }
}

/// The rotation of an array that must be row-major, from its first element on.
pub open spec fn rope_s(
    t: TapeV,
    x: ArrayV,
    dims: i32,
    traditional: bool,
    log2_base: u32,
    scale: u32,
    offset: ArrayV,
    forward: bool,
) -> (TapeV, Outcome) {
    if x.rank() < 2 || !x.layout.dense() {
        (t, Err("rope: non-contiguous or rank < 2 input"@))
    } else if !compilable(x.dtype) {
        (t, Err("unsupported compilation type "@ + variant_text(x.dtype)))
    } else {
        let out = fresh(t, x.shape(), x.dtype);
        (
            with_room(t, x.shape(), x.dtype, "rope_out"@).then_do(
                CmdV::Launch(
                    rope_run(x, out, offset, dims, traditional, forward, scale, log2_base),
                ),
            ),
            Ok(out),
        )
    }
}

/// The first axis times the axes between it and the last two.
proof fn lemma_matrices(shape: Seq<usize>)
    requires
        shape.len() >= 3,
    ensures
        shape[0] * matrices(shape) <= volume(shape),
        matrices(shape) <= volume(shape),
        shape[0] * ceil_div(matrices(shape) as int, 4) <= volume(shape),
        shape[shape.len() - 2] * shape[shape.len() - 1] <= volume(shape),
{
    let n = shape.len() as int;
    let head = shape.take(n - 2);
    let mid = shape.subrange(1, n - 2);
    lemma_volume_take(shape, n - 2);
    crate::layout::lemma_volume_front(head);
    assert(head.skip(1) =~= mid);
    lemma_volume_bounds(mid);
    let a = shape[0] as int;
    let w = at_least_one(shape[0]) as int;
    let m = numel(mid) as int;
    let v = volume(mid) as int;
    assert(a * m <= w * v && m <= w * v) by (nonlinear_arith)
        requires
            0 <= a <= w,
            0 <= m <= v,
            w >= 1,
    ;
    let c = ceil_div(m, 4);
    assert(0 <= c <= m);
    assert(a * c <= a * m) by (nonlinear_arith)
        requires
            0 <= c <= m,
            a >= 0,
    ;
    lemma_volume_skip(shape, n - 2);
    let tail = shape.skip(n - 2);
    lemma_volume_bounds(tail);
    assert(tail =~= seq![shape[n - 2], shape[n - 1]]);
    assert(tail.drop_last() =~= seq![shape[n - 2]]);
    crate::layout::lemma_numel_one(shape[n - 2]);
    assert(numel(tail) == shape[n - 2] * shape[n - 1]);
}

fn rope_text(tag: &str, ty: &str) -> (s: String)
    ensures
        s@ == template_def("rope_"@ + tag@, "rope"@, seq![ty@, "int32_t"@]) + template_def(
            "rope_single_"@ + tag@,
            "rope_single"@,
            seq![ty@],
        ),
{
    let mut s = inst2(&cat2("rope_", tag), "rope", ty, "int32_t");
    let d = inst1(&cat2("rope_single_", tag), "rope_single", ty);
    s.append(&d);
    s
}

/// Records the rotation of an array of at least three axes: `scale` and
/// `log2_base`, the logarithm of the base, are bit patterns of 32-bit floats.
pub fn rope(
    tape: &mut Tape,
    x: &Array,
    dims: i32,
    traditional: bool,
    log2_base: u32,
    scale: u32,
    offset: &Array,
    forward: bool,
) -> (r: Result<Array, Error>)
    requires
        x@.wf(),
        offset@.wf(),
        x@.rank() == 2 ==> !x@.layout.dense(),
        dims >= 0,
    ensures
        (final(tape)@, seen(r)) == rope_s(
            old(tape)@,
            x@,
            dims,
            traditional,
            log2_base,
            scale,
            offset@,
            forward,
        ),
        r matches Ok(a) ==> a@.wf(),
{
    let rank = x.rank();
    if rank < 2 || !x.is_contiguous() {
        return err("rope: non-contiguous or rank < 2 input");
    }
    let b = x.layout.shape[0];
    let t = x.layout.shape[rank - 2];
    let d = x.layout.shape[rank - 1];
    let front = sizes_before(&x.layout.shape, rank - 2);
    let mid = sizes_from(&front, 1);
    proof {
        assert(mid@ =~= x@.shape().subrange(1, rank - 2));
        lemma_matrices(x@.shape());
        lemma_roomy(x@.shape(), x@.dtype);
        lemma_volume_take(x@.shape(), rank - 2);
        lemma_volume_skip(front@, 1);
        lemma_small_volume(mid@);
    }
    let n = product(&mid);
    let mat = (t * d) as i64;
    let single = t == 1 && offset.size() == 1;
    match type_string(x.dtype) {
        Err(e) => {
            return Err(e);
        },
        Ok(_) => {},
    }
    let tag = x.dtype.mlx_name();
    let ty = x.dtype.metal_name();
    let name = cat2(
        if single {
            "rope_single_"
        } else {
            "rope_"
        },
        tag,
    );
    let text = rope_text(tag, ty);
    let files = vec![MetalFile::Utils, MetalFile::Rope];
    let mut p = program(name, files, text, Math::SafeNoLang);
    p.consts = vec![
        (1, ConstVal::Bool(forward)),
        (2, ConstVal::Bool(traditional)),
        (3, ConstVal::Bool(false)),
    ];
    let out = Array::make(tape, &x.layout.shape, x.dtype, "rope_out");
    let in_st: Vec<i64> = vec![
        mat,
        x.layout.strides[rank - 2] as i64,
        x.layout.strides[rank - 1] as i64,
    ];
    let out_st: Vec<i64> = vec![
        mat,
        out.layout.strides[rank - 2] as i64,
        out.layout.strides[rank - 1] as i64,
    ];
    let ghost isv = in_st@;
    let ghost osv = out_st@;
    let mut k = Dispatch::new(p);
    k.bind(0, x.input());
    k.bind(1, Arg::Output(out.buf, 0));
    k.bind(2, offset.input());
    k.bind(3, Arg::Word(scale));
    if single {
        k.bind(4, Arg::I64s(out_st));
    } else {
        k.bind(4, Arg::I64s(in_st));
        k.bind(5, Arg::I64s(out_st));
        let step: i64 = if offset.rank() > 0 {
            offset.layout.strides[0] as i64
        } else {
            0
        };
        k.bind(6, Arg::I64(step));
        k.bind(7, Arg::I32(n as i32));
    }
    k.bind(10, Arg::Word(log2_base));
    let d0: usize = dims as usize / 2;
    let d1: usize = if single {
        b * n
    } else {
        t
    };
    let d2: usize = if single {
        1
    } else {
        b * div_up(n, 4)
    };
    let (gx, gy, gz) = get_block_dims(d0, d1, d2, 10);
    tape.launch(k, Grid::Threads(dim3(d0, d1, d2), dim3(gx, gy, gz)));
    proof {
        let run = rope_run(x@, out@, offset@, dims, traditional, forward, scale, log2_base);
        assert(files@ =~= run.program.source->0.files);
        assert(p@.consts =~= run.program.consts);
        let r = x@.rank() as int;
        assert(isv =~= seq![mat, x@.strides()[r - 2] as i64, x@.strides()[r - 1] as i64]);
        assert(osv =~= seq![mat, out@.strides()[r - 2] as i64, out@.strides()[r - 1] as i64]);
        assert(k@.args =~= run.args);
    }
    Ok(out)
}

} // verus!
