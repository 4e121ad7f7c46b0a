//! Products with affinely quantized weights.

use vstd::prelude::*;

use crate::array::{
    err, fresh, lemma_roomy, roomy, seen, with_room, Array, ArrayV, Outcome,
};
use crate::codegen::{inst4, inst6, template_def};
use crate::dtype::{
    compilable, metal_text, tag_text, type_string, type_to_name, variant_text, Dtype,
};
use crate::error::Error;
use crate::layout::{at_least_one, copy_sizes, numel, row_major, tails_fit, volume};
use crate::nax::{listed, nax_source_text, nax_text, number_list};
use crate::reduce::{grid_2d, grid_extents, grid_fits};
use crate::search::{column_s, reduce_axis0_sum};
use crate::tape::{
    ceil_div, dim3, div_up, fresh_program, max_int, max_usize, min_int, min_usize, program, program_with, Arg,
    ArgV, CmdV, ConstVal, Dim3, Dispatch, DispatchV, Grid, Math, MetalFile, Program, ProgramV,
    Source, SourceV, Tape, TapeV,
};
use crate::text::{bool_str, bool_text, cat3, cat4, cat5, dec, dec_int, decimal_i32, decimal_usize};

verus! {

/// The files that the quantized kernels are assembled from.
pub open spec fn quant_files() -> Seq<MetalFile> {
    seq![MetalFile::Utils, MetalFile::Gemm, MetalFile::QuantizedUtils, MetalFile::Quantized]
}

fn quant_file_list() -> (v: Vec<MetalFile>)
    ensures
        v@ == quant_files(),
{
    let v = vec![
        MetalFile::Utils,
        MetalFile::Gemm,
        MetalFile::QuantizedUtils,
        MetalFile::Quantized,
    ];
    assert(v@ =~= quant_files());
    v
}

/// The group size and the bits of a quantized weight, in a kernel's name.
pub open spec fn quant_suffix(group_size: i32, bits: i32) -> Seq<char> {
    "_gs_"@ + dec_int(group_size as int) + "_b_"@ + dec_int(bits as int)
}

fn quant_tail(group_size: i32, bits: i32) -> (s: String)
    ensures
        s@ == quant_suffix(group_size, bits),
{
    let g = decimal_i32(group_size);
    let b = decimal_i32(bits);
    cat4("_gs_", &g, "_b_", &b)
}

/// The steps of K that the fast vector kernel takes at once.
pub open spec fn fast_step(bits: i32) -> int {
    (32int / max_int(bits as int, 1)) * (if bits == 2 {
        1int
    } else {
        2
    }) * 32
}

/// The steps of K that the fast vector kernel takes at once.
pub fn qmv_fast_k_alignment(bits: i32) -> (a: i32)
    ensures
        a == fast_step(bits),
        0 <= a <= 2048,
        bits <= 32 ==> a > 0,
{
    let b: i32 = if bits > 1 {
        bits
    } else {
        1
    };
    let pack: i32 = 32 / b;
    assert(0 <= pack <= 32 && (b <= 32 ==> pack >= 1)) by (nonlinear_arith)
        requires
            pack == 32int / (b as int),
            b >= 1,
    ;
    if bits == 2 {
        pack * 32
    } else {
        pack * 2 * 32
    }
}

/// Whether the fast vector kernel takes these sizes.
pub open spec fn takes_fast(n: usize, k: usize, bits: i32) -> bool {
    n % 8 == 0 && (k as i32) as int % fast_step(bits) == 0
}

proof fn lemma_divides_negated(x: int, m: int)
    requires
        m > 0,
    ensures
        x % m == 0 ==> (-x) % m == 0,
{
    if x % m == 0 {
        vstd::arithmetic::div_mod::lemma_fundamental_div_mod(x, m);
        let q = x / m;
        assert(-x == (-q) * m) by (nonlinear_arith)
            requires
                x == m * q,
        ;
        vstd::arithmetic::div_mod::lemma_mod_multiples_basic(-q, m);
    }
}

fn is_fast(n: usize, k: usize, bits: i32) -> (b: bool)
    requires
        bits <= 32,
    ensures
        b == takes_fast(n, k, bits),
{
    if n % 8 != 0 {
        return false;
    }
    let a = qmv_fast_k_alignment(bits) as i64;
    let kk = (k as i32) as i64;
    if kk >= 0 {
        kk as u64 % a as u64 == 0
    } else {
        let neg = (-kk) as u64;
        proof {
            let x = kk as int;
            let m = a as int;
            lemma_divides_negated(x, m);
            lemma_divides_negated(-x, m);
        }
        neg % a as u64 == 0
    }
}

/// The name of the vector kernel.
pub open spec fn qmv_name(fast: bool, dtype: Dtype, gs: i32, bits: i32) -> Seq<char> {
    "affine_"@ + (if fast {
        "qmv_fast_"@
    } else {
        "qmv_"@
    }) + metal_text(dtype) + quant_suffix(gs, bits) + "_batch_0"@
}

/// The program of the vector kernel.
pub open spec fn qmv_source(fast: bool, dtype: Dtype, gs: i32, bits: i32) -> SourceV {
    SourceV {
        files: quant_files(),
        text: template_def(
            qmv_name(fast, dtype, gs, bits),
            if fast {
                "affine_qmv_fast"@
            } else {
                "affine_qmv"@
            },
            seq![
                metal_text(dtype),
                dec_int(gs as int),
                dec_int(bits as int),
                "0"@,
                "0"@,
                "4"@,
            ],
        ),
    }
}

/// The name and the program of the vector kernel for an input and a weight.
pub fn affine_qmv_source(x: &Array, w: &Array, group_size: i32, bits: i32) -> (r: Result<
    (String, Source),
    Error,
>)
    requires
        x@.rank() >= 2,
        w@.rank() >= 2,
        bits <= 32,
    ensures
        r is Ok <==> compilable(x@.dtype),
        r matches Err(e) ==> e.text() == "unsupported compilation type "@ + variant_text(x@.dtype),
        r matches Ok(p) ==> {
            let fast = takes_fast(w@.shape()[0], x@.shape()[1], bits);
            p.0@ == qmv_name(fast, x@.dtype, group_size, bits) && p.1@ == qmv_source(
                fast,
                x@.dtype,
                group_size,
                bits,
            )
        },
{
    let (_, k) = x.dims2();
    let (n, _) = w.dims2();
    let ty = match type_string(x.dtype) {
        Ok(t) => t,
        Err(e) => {
            return Err(e);
        },
    };
    let fast = is_fast(n, k, bits);
    let tail = quant_tail(group_size, bits);
    let name = cat5(
        "affine_",
        if fast {
            "qmv_fast_"
        } else {
            "qmv_"
        },
        ty,
        &tail,
        "_batch_0",
    );
    let g = decimal_i32(group_size);
    let b = decimal_i32(bits);
    let text = inst6(
        &name,
        if fast {
            "affine_qmv_fast"
        } else {
            "affine_qmv"
        },
        ty,
        &g,
        &b,
        "0",
        "0",
        "4",
    );
    Ok((name, Source { files: quant_file_list(), text }))
}

/// The run of the vector kernel.
pub open spec fn qmv_run(
    program: ProgramV,
    x: ArrayV,
    w: ArrayV,
    scales: ArrayV,
    biases: ArrayV,
    out: ArrayV,
) -> DispatchV {
    let n = w.shape()[0];
    DispatchV {
        program,
        args: seq![
            (0usize, w.as_input()),
            (1usize, scales.as_input()),
            (2usize, biases.as_input()),
            (3usize, x.as_input()),
            (4usize, ArgV::Output(out.buf, 0)),
            (5usize, ArgV::I32(x.shape()[1] as i32)),
            (6usize, ArgV::I32(n as i32)),
        ],
        grid: Grid::Groups(
            Dim3 { x: x.shape()[0], y: ceil_div(n as int, 8) as usize, z: 1 },
            Dim3 { x: 32, y: 2, z: 1 },
        ),
    }
}

/// A run of a prepared vector kernel; all operands must be row-major.
pub open spec fn qmv_dispatch_s(
    t: TapeV,
    program: ProgramV,
    x: ArrayV,
    w: ArrayV,
    scales: ArrayV,
    biases: ArrayV,
) -> (TapeV, Outcome) {
    let dims = seq![x.shape()[0], w.shape()[0]];
    let out = fresh(t, dims, x.dtype);
    let t1 = with_room(t, dims, x.dtype, "qmv_out"@);
    if !(w.layout.dense() && scales.layout.dense() && biases.layout.dense() && x.layout.dense()) {
        (t1, Err("affine_qmv: non-contiguous input"@))
    } else {
        (t1.then_do(CmdV::Launch(qmv_run(program, x, w, scales, biases, out))), Ok(out))
    }
}

/// Records a run of a prepared vector kernel.
pub fn affine_qmv_dispatch(
    tape: &mut Tape,
    p: Program,
    x: &Array,
    w: &Array,
    scales: &Array,
    biases: &Array,
) -> (r: Result<Array, Error>)
    requires
        x@.wf(),
        w@.wf(),
        scales@.wf(),
        biases@.wf(),
        x@.rank() >= 2,
        w@.rank() >= 2,
        roomy(seq![x@.shape()[0], w@.shape()[0]]),
    ensures
        (final(tape)@, seen(r)) == qmv_dispatch_s(old(tape)@, p@, x@, w@, scales@, biases@),
        r matches Ok(a) ==> a@.wf(),
{
    let (m, k) = x.dims2();
    let (n, _) = w.dims2();
    let shape: Vec<usize> = vec![m, n];
    assert(shape@ =~= seq![m, n]);
    let out = Array::make(tape, &shape, x.dtype, "qmv_out");
    if !w.is_contiguous() || !scales.is_contiguous() || !biases.is_contiguous()
        || !x.is_contiguous() {
        return err("affine_qmv: non-contiguous input");
    }
    let ghost pv = p@;
    let mut d = Dispatch::new(p);
    d.bind(0, w.input());
    d.bind(1, scales.input());
    d.bind(2, biases.input());
    d.bind(3, x.input());
    d.bind(4, Arg::Output(out.buf, 0));
    d.bind(5, Arg::I32(k as i32));
    d.bind(6, Arg::I32(n as i32));
    tape.launch(d, Grid::Groups(dim3(m, div_up(n, 8), 1), dim3(32, 2, 1)));
    proof {
        let run = qmv_run(pv, x@, w@, scales@, biases@, out@);
        assert(d@.args =~= run.args);
    }
    Ok(out)
}

/// The product of one row or more with a quantized weight, row by row.
pub open spec fn qmv_s(
    t: TapeV,
    x: ArrayV,
    w: ArrayV,
    scales: ArrayV,
    biases: ArrayV,
    gs: i32,
    bits: i32,
) -> (TapeV, Outcome) {
    if !compilable(x.dtype) {
        (t, Err("unsupported compilation type "@ + variant_text(x.dtype)))
    } else {
        let fast = takes_fast(w.shape()[0], x.shape()[1], bits);
        let src = qmv_source(fast, x.dtype, gs, bits);
        qmv_dispatch_s(
            t,
            fresh_program(
                qmv_name(fast, x.dtype, gs, bits),
                src.files,
                src.text,
                Math::SafeNoLang,
                Seq::empty(),
            ),
            x,
            w,
            scales,
            biases,
        )
    }
}

/// Records the product of rows with a quantized weight, row by row.
pub fn affine_qmv_fast(
    tape: &mut Tape,
    x: &Array,
    w: &Array,
    scales: &Array,
    biases: &Array,
    group_size: i32,
    bits: i32,
) -> (r: Result<Array, Error>)
    requires
        x@.wf(),
        w@.wf(),
        scales@.wf(),
        biases@.wf(),
        x@.rank() >= 2,
        w@.rank() >= 2,
        bits <= 32,
        roomy(seq![x@.shape()[0], w@.shape()[0]]),
    ensures
        (final(tape)@, seen(r)) == qmv_s(
            old(tape)@,
            x@,
            w@,
            scales@,
            biases@,
            group_size,
            bits,
        ),
        r matches Ok(a) ==> a@.wf(),
{
    let (name, source) = match affine_qmv_source(x, w, group_size, bits) {
        Ok(p) => p,
        Err(e) => {
            return Err(e);
        },
    };
    let p = program(name, source.files, source.text, Math::SafeNoLang);
    affine_qmv_dispatch(tape, p, x, w, scales, biases)
}

// ---- a few rows at once ----

/// The rows that share a read of the weight: the rows split evenly into tiles
/// of at most five.
pub open spec fn shared_rows(m: usize) -> int {
    ceil_div(m as int, ceil_div(m as int, 5))
}

/// The run of the vector kernel that shares the weight among rows.
pub open spec fn wide_run(
    x: ArrayV,
    w: ArrayV,
    scales: ArrayV,
    biases: ArrayV,
    out: ArrayV,
    gs: i32,
    bits: i32,
) -> DispatchV {
    let m = x.shape()[0];
    let n = w.shape()[0];
    let v = shared_rows(m);
    let ty = metal_text(x.dtype);
    let name = "affine_qmv_wide_"@ + ty + quant_suffix(gs, bits) + "_nv_"@ + dec(v as nat)
        + "_kl_8_batch_0"@;
    DispatchV {
        program: fresh_program(
            name,
            quant_files(),
            template_def(
                name,
                "affine_qmv_wide"@,
                seq![
                    ty,
                    dec_int(gs as int),
                    dec_int(bits as int),
                    dec(v as nat),
                    "8"@,
                    "0"@,
                ],
            ),
            Math::SafeNoLang,
            Seq::empty(),
        ),
        args: seq![
            (0usize, w.as_input()),
            (1usize, scales.as_input()),
            (2usize, biases.as_input()),
            (3usize, x.as_input()),
            (4usize, ArgV::Output(out.buf, 0)),
            (5usize, ArgV::I32(x.shape()[1] as i32)),
            (6usize, ArgV::I32(n as i32)),
            (7usize, ArgV::I32(m as i32)),
        ],
        grid: Grid::Groups(
            Dim3 {
                x: ceil_div(m as int, v) as usize,
                y: ceil_div(n as int, 8) as usize,
                z: 1,
            },
            Dim3 { x: 32, y: 2, z: 1 },
        ),
    }
}

/// The product of a few rows with a quantized weight.
pub open spec fn wide_s(
    t: TapeV,
    x: ArrayV,
    w: ArrayV,
    scales: ArrayV,
    biases: ArrayV,
    gs: i32,
    bits: i32,
) -> (TapeV, Outcome) {
    if !compilable(x.dtype) {
        (t, Err("unsupported compilation type "@ + variant_text(x.dtype)))
    } else {
        let dims = seq![x.shape()[0], w.shape()[0]];
        let out = fresh(t, dims, x.dtype);
        (
            with_room(t, dims, x.dtype, "qmv_wide_out"@).then_do(
                CmdV::Launch(wide_run(x, w, scales, biases, out, gs, bits)),
            ),
            Ok(out),
        )
    }
}

/// Records the product of a few rows with a quantized weight.
pub fn qmv_wide(
    tape: &mut Tape,
    x: &Array,
    w: &Array,
    scales: &Array,
    biases: &Array,
    group_size: i32,
    bits: i32,
) -> (r: Result<Array, Error>)
    requires
        x@.wf(),
        w@.wf(),
        scales@.wf(),
        biases@.wf(),
        x@.rank() >= 2,
        w@.rank() >= 2,
        x@.shape()[0] > 0,
        roomy(seq![x@.shape()[0], w@.shape()[0]]),
    ensures
        (final(tape)@, seen(r)) == wide_s(
            old(tape)@,
            x@,
            w@,
            scales@,
            biases@,
            group_size,
            bits,
        ),
        r matches Ok(a) ==> a@.wf(),
{
    let (m, k) = x.dims2();
    let (n, _) = w.dims2();
    let tiles = div_up(m, 5);
    let v = div_up(m, tiles);
    let ty = match type_string(x.dtype) {
        Ok(t) => t,
        Err(e) => {
            return Err(e);
        },
    };
    let tail = quant_tail(group_size, bits);
    let vd = decimal_usize(v);
    let mut name = cat5("affine_qmv_wide_", ty, &tail, "_nv_", &vd);
    name.append("_kl_8_batch_0");
    let g = decimal_i32(group_size);
    let b = decimal_i32(bits);
    let text = inst6(&name, "affine_qmv_wide", ty, &g, &b, &vd, "8", "0");
    let shape: Vec<usize> = vec![m, n];
    assert(shape@ =~= seq![m, n]);
    let out = Array::make(tape, &shape, x.dtype, "qmv_wide_out");
    let mut d = Dispatch::new(program(name, quant_file_list(), text, Math::SafeNoLang));
    d.bind(0, w.input());
    d.bind(1, scales.input());
    d.bind(2, biases.input());
    d.bind(3, x.input());
    d.bind(4, Arg::Output(out.buf, 0));
    d.bind(5, Arg::I32(k as i32));
    d.bind(6, Arg::I32(n as i32));
    d.bind(7, Arg::I32(m as i32));
    tape.launch(d, Grid::Groups(dim3(div_up(m, v), div_up(n, 8), 1), dim3(32, 2, 1)));
    proof {
        let run = wide_run(x@, w@, scales@, biases@, out@, group_size, bits);
        assert(d@.args =~= run.args);
    }
    Ok(out)
}

/// The number of rows from which a quantized product takes a matrix kernel.
pub open spec fn batch_limit(k: usize, n: usize) -> nat {
    if k <= 2048 && n <= 2048 {
        33
    } else if k <= 4096 && n <= 4096 {
        25
    } else {
        13
    }
}

/// The number of rows from which a quantized product takes a matrix kernel.
pub fn qmv_batch_limit(k: usize, n: usize) -> (r: usize)
    ensures
        r == batch_limit(k, n),
{
    if k <= 2048 && n <= 2048 {
        33
    } else if k <= 4096 && n <= 4096 {
        25
    } else {
        13
    }
}

/// A larger weight never raises the limit.
pub proof fn batch_limit_falls_with_size(k: usize, n: usize, k2: usize, n2: usize)
    requires
        k <= k2,
        n <= n2,
    ensures
        batch_limit(k2, n2) <= batch_limit(k, n),
{
}

// ---- many rows ----

/// The largest number of parts, from `s` down, that divides K into multiples
/// of the alignment; one when there is none.
pub open spec fn split_from(k: usize, align: usize, s: nat) -> nat
    decreases s,
{
    if s <= 1 || k as int % (s * align) == 0 {
        s
    } else {
        split_from(k, align, (s - 1) as nat)
    }
}

/// The number of parts into which K is split.
pub open spec fn split_parts(m: usize, n: usize, k: usize, align: usize) -> nat {
    let tgs = ceil_div(n as int, 32) * ceil_div(m as int, 32);
    split_from(k, align, min_int(max_int(512int / tgs, 1), (k / align) as int) as nat)
}

/// A split into more than one part is even and aligned.
pub proof fn split_is_even(k: usize, align: usize, s: nat)
    requires
        split_from(k, align, s) > 1,
    ensures
        k as int % (split_from(k, align, s) * align) == 0,
        split_from(k, align, s) <= s,
    decreases s,
{
    if !(s <= 1 || k as int % (s * align) == 0) {
        split_is_even(k, align, (s - 1) as nat);
    }
}

/// The run of the split product into the partial sums `inter`.
pub open spec fn splitk_run(
    x: ArrayV,
    w: ArrayV,
    scales: ArrayV,
    biases: ArrayV,
    inter: ArrayV,
    parts: nat,
    gs: i32,
    bits: i32,
) -> DispatchV {
    let m = x.shape()[0];
    let k = x.shape()[1];
    let n = w.shape()[0];
    let ty = metal_text(x.dtype);
    let even = n % 32 == 0;
    let name = "affine_qmm_t_splitk_"@ + ty + quant_suffix(gs, bits) + (if even {
        "__alN_true"@
    } else {
        "__alN_false"@
    });
    DispatchV {
        program: fresh_program(
            name,
            quant_files(),
            template_def(
                name,
                "affine_qmm_t_splitk"@,
                seq![ty, dec_int(gs as int), dec_int(bits as int), bool_text(even)],
            ),
            Math::SafeNoLang,
            Seq::empty(),
        ),
        args: seq![
            (0usize, w.as_input()),
            (1usize, scales.as_input()),
            (2usize, biases.as_input()),
            (3usize, x.as_input()),
            (4usize, ArgV::Output(inter.buf, 0)),
            (5usize, ArgV::I32(k as i32)),
            (6usize, ArgV::I32(n as i32)),
            (7usize, ArgV::I32(m as i32)),
            (8usize, ArgV::I32((k as nat / parts) as usize as i32)),
            (9usize, ArgV::I32((m * n) as usize as i32)),
        ],
        grid: Grid::Groups(
            Dim3 {
                x: ceil_div(n as int, 32) as usize,
                y: ceil_div(m as int, 32) as usize,
                z: parts as usize,
            },
            Dim3 { x: 32, y: 2, z: 2 },
        ),
    }
}

/// The product of many rows with a quantized weight, split over K and summed.
pub open spec fn splitk_s(
    t: TapeV,
    x: ArrayV,
    w: ArrayV,
    scales: ArrayV,
    biases: ArrayV,
    gs: i32,
    bits: i32,
) -> (TapeV, Outcome) {
    let m = x.shape()[0];
    let n = w.shape()[0];
    let parts = split_parts(m, n, x.shape()[1], max_int(gs as int, 32) as usize);
    if parts <= 1 {
        (t, Err("affine_qmm_splitk: split_k <= 1 (use qmm path)"@))
    } else if !compilable(x.dtype) {
        (t, Err("unsupported compilation type "@ + variant_text(x.dtype)))
    } else {
        let dims = seq![parts as usize, m, n];
        let inter = fresh(t, dims, x.dtype);
        column_s(
            with_room(t, dims, x.dtype, "qmm_splitk_inter"@).then_do(
                CmdV::Launch(splitk_run(x, w, scales, biases, inter, parts, gs, bits)),
            ),
            inter,
        )
    }
}

fn split_count(m: usize, n: usize, k: usize, align: usize) -> (s: usize)
    requires
        m > 0,
        n > 0,
        align > 0,
        ceil_div(n as int, 32) * ceil_div(m as int, 32) <= usize::MAX,
    ensures
        s == split_parts(m, n, k, align),
        s <= 512,
{
    let a = div_up(n, 32);
    let b = div_up(m, 32);
    assert(a * b >= 1) by (nonlinear_arith)
        requires
            a >= 1,
            b >= 1,
    ;
    let tgs: usize = a * b;
    let q: usize = 512 / tgs;
    assert(q <= 512) by (nonlinear_arith)
        requires
            tgs >= 1,
            q == 512int / (tgs as int),
    ;
    let mut s = min_usize(max_usize(q, 1), k / align);
    let ghost start = s;
    while s > 1
        invariant_except_break
            split_from(k, align, s as nat) == split_from(k, align, start as nat),
        invariant
            s <= k / align,
            s <= 512,
            align > 0,
        ensures
            s == split_from(k, align, start as nat),
        decreases s,
    {
        assert(s * align <= k && s * align >= 1) by (nonlinear_arith)
            requires
                s <= k / align,
                align > 0,
                s > 1,
        ;
        if k % (s * align) == 0 {
            break;
        }
        s -= 1;
    }
    s
}

/// Records the product of many rows with a quantized weight, split over K.
pub fn affine_qmm_splitk(
    tape: &mut Tape,
    x: &Array,
    w: &Array,
    scales: &Array,
    biases: &Array,
    group_size: i32,
    bits: i32,
) -> (r: Result<Array, Error>)
    requires
        x@.wf(),
        w@.wf(),
        scales@.wf(),
        biases@.wf(),
        x@.rank() >= 2,
        w@.rank() >= 2,
        x@.shape()[0] > 0,
        w@.shape()[0] > 0,
        ceil_div(w@.shape()[0] as int, 32) * ceil_div(x@.shape()[0] as int, 32) <= usize::MAX,
        roomy(
            seq![
                split_parts(
                    x@.shape()[0],
                    w@.shape()[0],
                    x@.shape()[1],
                    max_int(group_size as int, 32) as usize,
                ) as usize,
                x@.shape()[0],
                w@.shape()[0],
            ],
        ),
    ensures
        (final(tape)@, seen(r)) == splitk_s(
            old(tape)@,
            x@,
            w@,
            scales@,
            biases@,
            group_size,
            bits,
        ),
        r matches Ok(a) ==> a@.wf(),
{
    let (m, k) = x.dims2();
    let (n, _) = w.dims2();
    let align: usize = if group_size > 32 {
        group_size as usize
    } else {
        32
    };
    let parts = split_count(m, n, k, align);
    if parts <= 1 {
        return err("affine_qmm_splitk: split_k <= 1 (use qmm path)");
    }
    let ty = match type_string(x.dtype) {
        Ok(t) => t,
        Err(e) => {
            return Err(e);
        },
    };
    let even = n % 32 == 0;
    let tail = quant_tail(group_size, bits);
    let name = cat4(
        "affine_qmm_t_splitk_",
        ty,
        &tail,
        if even {
            "__alN_true"
        } else {
            "__alN_false"
        },
    );
    let g = decimal_i32(group_size);
    let b = decimal_i32(bits);
    let text = inst4(&name, "affine_qmm_t_splitk", ty, &g, &b, bool_str(even));
    let shape: Vec<usize> = vec![parts, m, n];
    assert(shape@ =~= seq![parts, m, n]);
    proof {
        lemma_roomy(shape@, x@.dtype);
        lemma_three(parts, m, n);
    }
    let inter = Array::make(tape, &shape, x.dtype, "qmm_splitk_inter");
    let mut d = Dispatch::new(program(name, quant_file_list(), text, Math::SafeNoLang));
    d.bind(0, w.input());
    d.bind(1, scales.input());
    d.bind(2, biases.input());
    d.bind(3, x.input());
    d.bind(4, Arg::Output(inter.buf, 0));
    d.bind(5, Arg::I32(k as i32));
    d.bind(6, Arg::I32(n as i32));
    d.bind(7, Arg::I32(m as i32));
    d.bind(8, Arg::I32((k / parts) as i32));
    d.bind(9, Arg::I32((m * n) as i32));
    tape.launch(d, Grid::Groups(dim3(div_up(n, 32), div_up(m, 32), parts), dim3(32, 2, 2)));
    proof {
        let run = splitk_run(x@, w@, scales@, biases@, inter@, parts as nat, group_size, bits);
        assert(d@.args =~= run.args);
    }
    reduce_axis0_sum(tape, &inter)
}

/// The sizes of a three-dimensional shape.
proof fn lemma_three(a: usize, b: usize, c: usize)
    ensures
        numel(seq![a, b, c].skip(1)) == b * c,
        a > 0 && b > 0 && c > 0 ==> volume(seq![a, b, c]) >= b * c && b * c > 0,
{
    let s = seq![a, b, c];
    assert(s.skip(1) =~= seq![b, c]);
    assert(seq![b, c].drop_last() =~= seq![b]);
    crate::layout::lemma_numel_one(b);
    assert(s.drop_last() =~= seq![a, b]);
    assert(seq![a, b].drop_last() =~= seq![a]);
    crate::layout::lemma_numel_one(a);
    if a > 0 && b > 0 && c > 0 {
        assert(volume(seq![a, b]) == volume(seq![a]) * at_least_one(b));
        assert(volume(s) == volume(seq![a, b]) * at_least_one(c));
        assert(volume(s) == (a * b) * c);
        assert((a * b) * c >= b * c && b * c > 0) by (nonlinear_arith)
            requires
                a >= 1,
                b >= 1,
                c >= 1,
        ;
    }
}

// ---- the matrix unit ----

/// The program of one instantiation of the gathered product.
pub fn gather_qmm_rhs_nax_source(kname: &str, bm: usize, group_size: i32, bits: i32) -> (s: Source)
    ensures
        s@ == (SourceV {
            files: seq![MetalFile::NaxQuant],
            text: nax_text(kname@, gather_nax_args(bm, group_size, bits)),
        }),
{
    let g = decimal_i32(group_size);
    let b = decimal_i32(bits);
    let m = decimal_usize(bm);
    let mut rest = cat5("affine_gather_qmm_rhs_nax, bfloat, ", &g, ", ", &b, ", ");
    rest.append(&m);
    rest.append(", 64, 64, 2, 2, true");
    let files = vec![MetalFile::NaxQuant];
    assert(files@ =~= seq![MetalFile::NaxQuant]);
    Source { files, text: nax_source_text(kname, &rest) }
}

/// The template arguments of the gathered product.
pub open spec fn gather_nax_args(bm: usize, gs: i32, bits: i32) -> Seq<char> {
    "affine_gather_qmm_rhs_nax, bfloat, "@ + dec_int(gs as int) + ", "@ + dec_int(bits as int)
        + ", "@ + dec(bm as nat) + ", 64, 64, 2, 2, true"@
}

/// The run of the gathered product.
pub open spec fn gather_run(
    x: ArrayV,
    w: ArrayV,
    scales: ArrayV,
    biases: ArrayV,
    indices: ArrayV,
    out: ArrayV,
    gs: i32,
    bits: i32,
) -> DispatchV {
    let k = x.shape().last();
    let n = out.shape().last();
    let m = (x.count() / (k as nat)) as usize;
    let e = w.count() / (w.shape()[w.rank() - 1] as nat) / (w.shape()[w.rank() - 2] as nat);
    let bm: usize = if (m as nat) / e < 64 {
        32
    } else {
        64
    };
    let name = "affine_gather_qmm_rhs_nax_nt_"@ + tag_text(x.dtype) + quant_suffix(gs, bits)
        + "_bm_"@ + dec(bm as nat) + "_bn_64_bk_64_wm_2_wn_2"@;
    DispatchV {
        program: fresh_program(
            name,
            seq![MetalFile::NaxQuant],
            nax_text(name, gather_nax_args(bm, gs, bits)),
            Math::Safe,
            seq![
                (200usize, ConstVal::Bool(m % bm == 0)),
                (201usize, ConstVal::Bool(n % 64 == 0)),
                (202usize, ConstVal::Bool(k % 64 == 0)),
            ],
        ),
        args: seq![
            (0usize, x.as_input()),
            (1usize, w.as_input()),
            (2usize, scales.as_input()),
            (3usize, biases.as_input()),
            (4usize, indices.as_input()),
            (5usize, ArgV::Output(out.buf, 0)),
            (6usize, ArgV::I32(m as i32)),
            (7usize, ArgV::I32(n as i32)),
            (8usize, ArgV::I32(k as i32)),
        ],
        grid: Grid::Groups(
            Dim3 {
                x: ceil_div(n as int, 64) as usize,
                y: ceil_div(m as int, bm as int) as usize,
                z: 1,
            },
            Dim3 { x: 32, y: 2, z: 2 },
        ),
    }
}

/// The product of rows with the weights that sorted indices pick for them.
pub open spec fn gather_s(
    t: TapeV,
    x: ArrayV,
    w: ArrayV,
    scales: ArrayV,
    biases: ArrayV,
    indices: ArrayV,
    dims: Seq<usize>,
    gs: i32,
    bits: i32,
) -> (TapeV, Outcome) {
    if indices.dtype != Dtype::Uint32 && indices.dtype != Dtype::Int32 {
        (t, Err("gather_qmm_rhs_nax: indices must be U32/I32"@))
    } else if !compilable(x.dtype) {
        (t, Err("type_to_name: unsupported "@ + variant_text(x.dtype)))
    } else {
        let out = fresh(t, dims, x.dtype);
        (
            with_room(t, dims, x.dtype, "gather_qmm_rhs_nax_out"@).then_do(
                CmdV::Launch(gather_run(x, w, scales, biases, indices, out, gs, bits)),
            ),
            Ok(out),
        )
    }
}

/// Records the product of rows with the weights that sorted indices pick.
pub fn gather_qmm_rhs_nax(
    tape: &mut Tape,
    x: &Array,
    w: &Array,
    scales: &Array,
    biases: &Array,
    indices: &Array,
    out_dims: &[usize],
    group_size: i32,
    bits: i32,
) -> (r: Result<Array, Error>)
    requires
        x@.wf(),
        w@.wf(),
        scales@.wf(),
        biases@.wf(),
        indices@.wf(),
        x@.rank() > 0,
        x@.shape().last() > 0,
        out_dims@.len() > 0,
        roomy(out_dims@),
        w@.rank() >= 2,
        w@.count() > 0,
        w@.shape()[w@.rank() - 1] > 0,
        w@.shape()[w@.rank() - 2] > 0,
        w@.count() / (w@.shape()[w@.rank() - 1] as nat) / (w@.shape()[w@.rank() - 2] as nat) > 0,
    ensures
        (final(tape)@, seen(r)) == gather_s(
            old(tape)@,
            x@,
            w@,
            scales@,
            biases@,
            indices@,
            out_dims@,
            group_size,
            bits,
        ),
        r matches Ok(a) ==> a@.wf(),
{
    let k = x.layout.shape[x.rank() - 1];
    let n = out_dims[out_dims.len() - 1];
    let m: usize = x.size() / k;
    if indices.dtype != Dtype::Uint32 && indices.dtype != Dtype::Int32 {
        return err("gather_qmm_rhs_nax: indices must be U32/I32");
    }
    let wr = w.rank();
    let e: usize = w.size() / w.layout.shape[wr - 1] / w.layout.shape[wr - 2];
    let bm: usize = if m / e < 64 {
        32
    } else {
        64
    };
    let ty = match type_to_name(x.dtype) {
        Ok(t) => t,
        Err(er) => {
            return Err(er);
        },
    };
    let tail = quant_tail(group_size, bits);
    let b = decimal_usize(bm);
    let mut name = cat5("affine_gather_qmm_rhs_nax_nt_", ty, &tail, "_bm_", &b);
    name.append("_bn_64_bk_64_wm_2_wn_2");
    let source = gather_qmm_rhs_nax_source(&name, bm, group_size, bits);
    let consts: Vec<(usize, ConstVal)> = vec![
        (200, ConstVal::Bool(m % bm == 0)),
        (201, ConstVal::Bool(n % 64 == 0)),
        (202, ConstVal::Bool(k % 64 == 0)),
    ];
    let p = program_with(name, source, Math::Safe, consts);
    let out = Array::make(tape, out_dims, x.dtype, "gather_qmm_rhs_nax_out");
    let mut d = Dispatch::new(p);
    d.bind(0, x.input());
    d.bind(1, w.input());
    d.bind(2, scales.input());
    d.bind(3, biases.input());
    d.bind(4, indices.input());
    d.bind(5, Arg::Output(out.buf, 0));
    d.bind(6, Arg::I32(m as i32));
    d.bind(7, Arg::I32(n as i32));
    d.bind(8, Arg::I32(k as i32));
    tape.launch(d, Grid::Groups(dim3(div_up(n, 64), div_up(m, bm), 1), dim3(32, 2, 2)));
    proof {
        let run = gather_run(x@, w@, scales@, biases@, indices@, out@, group_size, bits);
        assert(p@.consts =~= run.program.consts);
        assert(d@.args =~= run.args);
    }
    Ok(out)
}

/// The template arguments of the quantized matrix product.
pub open spec fn qmm_nax_args(
    gs: i32,
    bits: i32,
    aligned_n: bool,
    batched: bool,
    nums: Seq<usize>,
) -> Seq<char> {
    "affine_qmm_t_nax, bfloat16_t, "@ + dec_int(gs as int) + ", "@ + dec_int(bits as int) + ", "@
        + bool_text(aligned_n) + ", "@ + bool_text(batched) + listed(nums)
}

/// The program of one instantiation of the quantized matrix product.
pub fn qmm_nax_source(
    kname: &str,
    group_size: i32,
    bits: i32,
    aligned_n: bool,
    batched: bool,
    bm: usize,
    bk: usize,
    bn: usize,
    wm: usize,
    wn: usize,
) -> (s: Source)
    ensures
        s@ == (SourceV {
            files: seq![MetalFile::NaxQuant],
            text: nax_text(
                kname@,
                qmm_nax_args(group_size, bits, aligned_n, batched, seq![bm, bk, bn, wm, wn]),
            ),
        }),
{
    let g = decimal_i32(group_size);
    let b = decimal_i32(bits);
    let nums = [bm, bk, bn, wm, wn];
    let l = number_list(&nums);
    assert(nums@ =~= seq![bm, bk, bn, wm, wn]);
    let mut rest = cat5("affine_qmm_t_nax, bfloat16_t, ", &g, ", ", &b, ", ");
    rest.append(bool_str(aligned_n));
    rest.append(", ");
    rest.append(bool_str(batched));
    rest.append(&l);
    let files = vec![MetalFile::NaxQuant];
    assert(files@ =~= seq![MetalFile::NaxQuant]);
    Source { files, text: nax_source_text(kname, &rest) }
}

/// The run of the quantized matrix product.
pub open spec fn qmm_run(
    x: ArrayV,
    w: ArrayV,
    scales: ArrayV,
    biases: ArrayV,
    out: ArrayV,
    gs: i32,
    bits: i32,
) -> DispatchV {
    let m = x.shape()[0];
    let n = w.shape()[0];
    let bm: usize = if m <= 32 {
        32
    } else {
        64
    };
    let even = n % 64 == 0;
    let name = "affine_qmm_t_nax_"@ + tag_text(x.dtype) + quant_suffix(gs, bits) + "_bm"@ + dec(
        bm as nat,
    ) + "_bn64_bk64_wm2_wn2"@ + (if even {
        "_alN_true"@
    } else {
        "_alN_false"@
    }) + "_batch_0"@;
    DispatchV {
        program: fresh_program(
            name,
            seq![MetalFile::NaxQuant],
            nax_text(
                name,
                qmm_nax_args(
                    gs,
                    bits,
                    even,
                    false,
                    seq![bm, 64usize, 64usize, 2usize, 2usize],
                ),
            ),
            Math::Safe,
            Seq::empty(),
        ),
        args: seq![
            (0usize, w.as_input()),
            (1usize, scales.as_input()),
            (2usize, biases.as_input()),
            (3usize, x.as_input()),
            (4usize, ArgV::Output(out.buf, 0)),
            (5usize, ArgV::I32(x.shape()[1] as i32)),
            (6usize, ArgV::I32(n as i32)),
            (7usize, ArgV::I32(m as i32)),
        ],
        grid: Grid::Groups(
            Dim3 {
                x: ceil_div(n as int, 64) as usize,
                y: ceil_div(m as int, bm as int) as usize,
                z: 1,
            },
            Dim3 { x: 32, y: 2, z: 2 },
        ),
    }
}

/// The product of rows with a quantized weight on the matrix unit.
pub open spec fn qmm_s(
    t: TapeV,
    x: ArrayV,
    w: ArrayV,
    scales: ArrayV,
    biases: ArrayV,
    gs: i32,
    bits: i32,
) -> (TapeV, Outcome) {
    if !compilable(x.dtype) {
        (t, Err("type_to_name: unsupported "@ + variant_text(x.dtype)))
    } else {
        let dims = seq![x.shape()[0], w.shape()[0]];
        let out = fresh(t, dims, x.dtype);
        (
            with_room(t, dims, x.dtype, "qmm_nax_out"@).then_do(
                CmdV::Launch(qmm_run(x, w, scales, biases, out, gs, bits)),
            ),
            Ok(out),
        )
    }
}

/// Records the product of rows with a quantized weight on the matrix unit.
pub fn qmm_nax(
    tape: &mut Tape,
    x: &Array,
    w: &Array,
    scales: &Array,
    biases: &Array,
    group_size: i32,
    bits: i32,
) -> (r: Result<Array, Error>)
    requires
        x@.wf(),
        w@.wf(),
        scales@.wf(),
        biases@.wf(),
        x@.rank() >= 2,
        w@.rank() >= 2,
        roomy(seq![x@.shape()[0], w@.shape()[0]]),
    ensures
        (final(tape)@, seen(r)) == qmm_s(
            old(tape)@,
            x@,
            w@,
            scales@,
            biases@,
            group_size,
            bits,
        ),
        r matches Ok(a) ==> a@.wf(),
{
    let (m, k) = x.dims2();
    let (n, _) = w.dims2();
    let bm: usize = if m <= 32 {
        32
    } else {
        64
    };
    let even = n % 64 == 0;
    let ty = match type_to_name(x.dtype) {
        Ok(t) => t,
        Err(e) => {
            return Err(e);
        },
    };
    let tail = quant_tail(group_size, bits);
    let b = decimal_usize(bm);
    let mut name = cat5("affine_qmm_t_nax_", ty, &tail, "_bm", &b);
    name.append("_bn64_bk64_wm2_wn2");
    name.append(
        if even {
            "_alN_true"
        } else {
            "_alN_false"
        },
    );
    name.append("_batch_0");
    let source = qmm_nax_source(&name, group_size, bits, even, false, bm, 64, 64, 2, 2);
    let p = program(name, source.files, source.text, Math::Safe);
    let shape: Vec<usize> = vec![m, n];
    assert(shape@ =~= seq![m, n]);
    let out = Array::make(tape, &shape, x.dtype, "qmm_nax_out");
    let mut d = Dispatch::new(p);
    d.bind(0, w.input());
    d.bind(1, scales.input());
    d.bind(2, biases.input());
    d.bind(3, x.input());
    d.bind(4, Arg::Output(out.buf, 0));
    d.bind(5, Arg::I32(k as i32));
    d.bind(6, Arg::I32(n as i32));
    d.bind(7, Arg::I32(m as i32));
    tape.launch(d, Grid::Groups(dim3(div_up(n, 64), div_up(m, bm), 1), dim3(32, 2, 2)));
    proof {
        let run = qmm_run(x@, w@, scales@, biases@, out@, group_size, bits);
        assert(d@.args =~= run.args);
    }
    Ok(out)
}

// ---- expansion ----

/// The shape of an expanded weight: the last axis counts values, not words.
pub open spec fn expanded_dims(w: Seq<usize>, bits: i32) -> Seq<usize> {
    w.update(w.len() - 1, (w.last() * (32int / (bits as int))) as usize)
}

/// The grid over the bytes of a packed weight.
pub open spec fn byte_dims(w: Seq<usize>) -> Seq<usize> {
    w.update(w.len() - 1, (w.last() * 4) as usize)
}

/// The values that a thread of the expanding kernel writes.
pub open spec fn pack_size(bits: i32) -> int {
    if bits == 3 || bits == 5 {
        8
    } else {
        max_int(8int / (bits as int), 1)
    }
}

/// The run of the expanding kernel.
pub open spec fn dequantize_run(
    w: ArrayV,
    scales: ArrayV,
    biases: ArrayV,
    out: ArrayV,
    gs: i32,
    bits: i32,
) -> DispatchV {
    let ty = metal_text(scales.dtype);
    let name = "affine_dequantize_"@ + ty + quant_suffix(gs, bits);
    let (gw, gh) = grid_extents(byte_dims(w.shape()));
    DispatchV {
        program: fresh_program(
            name,
            quant_files(),
            template_def(
                name,
                "affine_dequantize"@,
                seq![ty, dec_int(gs as int), dec_int(bits as int), "0"@],
            ),
            Math::SafeNoLang,
            Seq::empty(),
        ),
        args: seq![
            (0usize, ArgV::Input(w.buf, (w.layout.offset * 4) as usize)),
            (1usize, scales.as_input()),
            (2usize, biases.as_input()),
            (3usize, ArgV::Output(out.buf, 0)),
        ],
        grid: Grid::Capped(
            Dim3 {
                x: max_int(gw as int, 1) as usize,
                y: max_int(gh as int, 1) as usize,
                z: 1,
            },
            (out.count() as int / pack_size(bits)) as usize,
        ),
    }
}

/// The values of a quantized weight.
pub open spec fn dequantize_s(
    t: TapeV,
    w: ArrayV,
    scales: ArrayV,
    biases: ArrayV,
    gs: i32,
    bits: i32,
) -> (TapeV, Outcome) {
    let dims = expanded_dims(w.shape(), bits);
    let out = fresh(t, dims, scales.dtype);
    let t1 = with_room(t, dims, scales.dtype, "deq_out"@);
    if !compilable(scales.dtype) {
        (t1, Err("unsupported compilation type "@ + variant_text(scales.dtype)))
    } else {
        (t1.then_do(CmdV::Launch(dequantize_run(w, scales, biases, out, gs, bits))), Ok(out))
    }
}

/// Records the expansion of a quantized weight.
pub fn affine_dequantize(
    tape: &mut Tape,
    w: &Array,
    scales: &Array,
    biases: &Array,
    group_size: i32,
    bits: i32,
) -> (r: Result<Array, Error>)
    requires
        w@.wf(),
        scales@.wf(),
        biases@.wf(),
        w@.rank() > 0,
        w@.shape().last() > 0,
        1 <= bits <= 32,
        w@.shape().last() * 32 <= usize::MAX,
        w@.layout.offset * 4 <= usize::MAX,
        roomy(expanded_dims(w@.shape(), bits)),
        tails_fit(byte_dims(w@.shape())),
        grid_fits(byte_dims(w@.shape()), row_major(byte_dims(w@.shape()))),
    ensures
        (final(tape)@, seen(r)) == dequantize_s(
            old(tape)@,
            w@,
            scales@,
            biases@,
            group_size,
            bits,
        ),
        r matches Ok(a) ==> a@.wf(),
{
    let last = w.rank() - 1;
    let kq = w.layout.shape[last];
    let per_word: usize = 32 / bits as usize;
    proof {
        assert(1 <= per_word <= 32 && per_word == 32int / (bits as int)) by (nonlinear_arith)
            requires
                1 <= bits <= 32,
                per_word == 32int / (bits as int),
        ;
        assert(kq * per_word <= kq * 32) by (nonlinear_arith)
            requires
                per_word <= 32,
                kq >= 0,
        ;
    }
    let k: usize = kq * per_word;
    let mut dims = copy_sizes(&w.layout.shape);
    dims.set(last, k);
    assert(dims@ =~= expanded_dims(w@.shape(), bits));
    let out = Array::make(tape, &dims, scales.dtype, "deq_out");
    let ty = match type_string(scales.dtype) {
        Ok(t) => t,
        Err(e) => {
            return Err(e);
        },
    };
    let tail = quant_tail(group_size, bits);
    let name = cat3("affine_dequantize_", ty, &tail);
    let g = decimal_i32(group_size);
    let b = decimal_i32(bits);
    let text = inst4(&name, "affine_dequantize", ty, &g, &b, "0");
    let pack: usize = if bits == 3 || bits == 5 {
        8
    } else {
        max_usize(8 / bits as usize, 1)
    };
    let threads: usize = out.size() / pack;
    let mut grid_shape = copy_sizes(&w.layout.shape);
    grid_shape.set(last, kq * 4);
    assert(grid_shape@ =~= byte_dims(w@.shape()));
    let (gw, gh) = grid_2d(&grid_shape);
    let mut d = Dispatch::new(program(name, quant_file_list(), text, Math::SafeNoLang));
    d.bind(0, Arg::Input(w.buf, w.layout.offset * 4));
    d.bind(1, scales.input());
    d.bind(2, biases.input());
    d.bind(3, Arg::Output(out.buf, 0));
    tape.launch(d, Grid::Capped(dim3(max_usize(gw, 1), max_usize(gh, 1), 1), threads));
    proof {
        let run = dequantize_run(w@, scales@, biases@, out@, group_size, bits);
        assert(d@.args =~= run.args);
    }
    Ok(out)
}

} // verus!
