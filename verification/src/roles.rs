//! Which argument of a quantized product plays which part.

use vstd::prelude::*;

use crate::array::{ArrayV, Outcome};
use crate::attention::{full_s, two_pass_s, vector_s};
use crate::device::in_order;
use crate::dtype::Dtype;
use crate::quant::{
    dequantize_s, gather_s, qmm_s, qmv_dispatch_s, qmv_s, split_is_even, split_parts, splitk_s,
    wide_s,
};
use crate::rope::rope_s;
use crate::search::{rms_s, scatter_s};
use crate::tape::{max_int, ArgV, CmdV, ConstVal, DispatchV, Grid, ProgramV, TapeV};

verus! {

/// The slot of the packed weight.
pub const WEIGHT: usize = 0;

/// The slot of the scales.
pub const SCALES: usize = 1;

/// The slot of the biases.
pub const BIASES: usize = 2;

/// The slot of the rows that are multiplied.
pub const ROWS: usize = 3;

/// The slot of the result.
pub const RESULT: usize = 4;

/// The slot of the length of a row.
pub const INNER: usize = 5;

/// The slot of the number of columns of the result.
pub const OUTER: usize = 6;

/// The slot of the number of rows.
pub const HEIGHT: usize = 7;

/// What stands in a slot.
pub open spec fn stands(d: DispatchV, slot: usize, a: ArgV) -> bool {
    slot < d.args.len() && d.args[slot as int] == (slot, a)
}

/// An array stands in a slot: its buffer, from the byte of its first element.
pub open spec fn array_in(d: DispatchV, slot: usize, a: ArrayV) -> bool {
    stands(d, slot, ArgV::Input(a.buf, a.start()))
}

/// A run of a product of rows with a quantized weight: every operand in the slot of
/// its part, and the result in a buffer.
pub open spec fn multiplies(
    d: DispatchV,
    x: ArrayV,
    w: ArrayV,
    scales: ArrayV,
    biases: ArrayV,
    buf: u64,
) -> bool {
    &&& in_order(d)
    &&& array_in(d, WEIGHT, w)
    &&& array_in(d, SCALES, scales)
    &&& array_in(d, BIASES, biases)
    &&& array_in(d, ROWS, x)
    &&& stands(d, RESULT, ArgV::Output(buf, 0))
    &&& stands(d, INNER, ArgV::I32(x.shape()[1] as i32))
    &&& stands(d, OUTER, ArgV::I32(w.shape()[0] as i32))
}

/// Blocks of a size cover a length, and none of them is left over.
pub open spec fn tiles(blocks: usize, size: int, len: int) -> bool {
    blocks * size >= len && (blocks - 1) * size < len
}

proof fn lemma_tiles(a: usize, b: int)
    requires
        b > 0,
        a > 0,
    ensures
        tiles(crate::tape::ceil_div(a as int, b) as usize, b, a as int),
        0 < crate::tape::ceil_div(a as int, b) <= a,
{
    let q = a as int / b;
    let r = a as int % b;
    assert(a == b * q + r && 0 <= r < b && 0 <= q <= a) by (nonlinear_arith)
        requires
            b > 0,
            a > 0,
            q == a as int / b,
            r == a as int % b,
    ;
    let c = crate::tape::ceil_div(a as int, b);
    assert(r > 0 ==> q < a) by (nonlinear_arith)
        requires
            a == b * q + r,
            b >= 1,
            q >= 0,
            r >= 0,
    ;
    if r == 0 {
        assert(q > 0) by (nonlinear_arith)
            requires
                a == b * q,
                a > 0,
                b > 0,
        ;
        assert(q * b >= a && (q - 1) * b < a) by (nonlinear_arith)
            requires
                a == b * q,
                b > 0,
        ;
    } else {
        assert((q + 1) * b >= a && q * b < a) by (nonlinear_arith)
            requires
                a == b * q + r,
                0 < r < b,
        ;
    }
}

/// The vector product binds every operand to its part, and covers every output of
/// every row with groups of eight outputs.
pub proof fn vector_products_know_their_parts(
    t: TapeV,
    program: ProgramV,
    x: ArrayV,
    w: ArrayV,
    scales: ArrayV,
    biases: ArrayV,
    r: ArrayV,
)
    requires
        qmv_dispatch_s(t, program, x, w, scales, biases).1 == Outcome::Ok(r),
        w.shape()[0] > 0,
    ensures
        r.buf == t.next,
        r.dtype == x.dtype,
        r.shape() == seq![x.shape()[0], w.shape()[0]],
        qmv_dispatch_s(t, program, x, w, scales, biases).0.cmds.last() matches CmdV::Launch(d)
            && multiplies(d, x, w, scales, biases, r.buf) && d.program == program && (
        d.grid matches Grid::Groups(g, _) && g.x == x.shape()[0] && tiles(
            g.y,
            8,
            w.shape()[0] as int,
        ) && g.z == 1),
{
    lemma_tiles(w.shape()[0], 8);
    let u = qmv_dispatch_s(t, program, x, w, scales, biases).0;
    let d = u.cmds.last()->Launch_0;
    assert(in_order(d));
}

/// The vector product that is compiled for its operands binds them in the same way.
pub proof fn compiled_vector_products_know_their_parts(
    t: TapeV,
    x: ArrayV,
    w: ArrayV,
    scales: ArrayV,
    biases: ArrayV,
    gs: i32,
    bits: i32,
    r: ArrayV,
)
    requires
        qmv_s(t, x, w, scales, biases, gs, bits).1 == Outcome::Ok(r),
        w.shape()[0] > 0,
    ensures
        r.buf == t.next,
        qmv_s(t, x, w, scales, biases, gs, bits).0.cmds.last() matches CmdV::Launch(d)
            && multiplies(d, x, w, scales, biases, r.buf),
{
    let u = qmv_s(t, x, w, scales, biases, gs, bits).0;
    let d = u.cmds.last()->Launch_0;
    vector_products_know_their_parts(t, d.program, x, w, scales, biases, r);
}

/// The product that shares the weight among rows binds every operand to the same
/// part, and also the number of rows.
pub proof fn shared_products_know_their_parts(
    t: TapeV,
    x: ArrayV,
    w: ArrayV,
    scales: ArrayV,
    biases: ArrayV,
    gs: i32,
    bits: i32,
    r: ArrayV,
)
    requires
        wide_s(t, x, w, scales, biases, gs, bits).1 == Outcome::Ok(r),
        w.shape()[0] > 0,
        x.shape()[0] > 0,
    ensures
        r.buf == t.next,
        r.dtype == x.dtype,
        r.shape() == seq![x.shape()[0], w.shape()[0]],
        wide_s(t, x, w, scales, biases, gs, bits).0.cmds.last() matches CmdV::Launch(d)
            && multiplies(d, x, w, scales, biases, r.buf) && stands(
            d,
            HEIGHT,
            ArgV::I32(x.shape()[0] as i32),
        ) && (d.grid matches Grid::Groups(g, _) && tiles(g.y, 8, w.shape()[0] as int) && exists|v: int|
            1 <= v <= 5 && #[trigger] tiles(g.x, v, x.shape()[0] as int)),
{
    let m = x.shape()[0];
    lemma_tiles(w.shape()[0], 8);
    lemma_tiles(m, 5);
    let p = crate::tape::ceil_div(m as int, 5);
    lemma_tiles(m, p);
    let v = crate::tape::ceil_div(m as int, p);
    lemma_tiles(m, v);
    assert(v <= 5) by (nonlinear_arith)
        requires
            p * 5 >= m,
            (v - 1) * p < m,
            p > 0,
    ;
    let u = wide_s(t, x, w, scales, biases, gs, bits).0;
    let d = u.cmds.last()->Launch_0;
    assert(in_order(d));
    assert(v == crate::quant::shared_rows(m));
    assert(tiles(d.grid->Groups_0.x, v, m as int));
}

/// The product on the matrix unit binds every operand to the same part, and also
/// the number of rows.
pub proof fn matrix_products_know_their_parts(
    t: TapeV,
    x: ArrayV,
    w: ArrayV,
    scales: ArrayV,
    biases: ArrayV,
    gs: i32,
    bits: i32,
    r: ArrayV,
)
    requires
        qmm_s(t, x, w, scales, biases, gs, bits).1 == Outcome::Ok(r),
        w.shape()[0] > 0,
        x.shape()[0] > 0,
    ensures
        r.buf == t.next,
        r.dtype == x.dtype,
        r.shape() == seq![x.shape()[0], w.shape()[0]],
        qmm_s(t, x, w, scales, biases, gs, bits).0.cmds.last() matches CmdV::Launch(d)
            && multiplies(d, x, w, scales, biases, r.buf) && stands(
            d,
            HEIGHT,
            ArgV::I32(x.shape()[0] as i32),
        ) && (d.grid matches Grid::Groups(g, _) && tiles(g.x, 64, w.shape()[0] as int) && (tiles(
            g.y,
            32,
            x.shape()[0] as int,
        ) || tiles(g.y, 64, x.shape()[0] as int))),
{
    lemma_tiles(w.shape()[0], 64);
    lemma_tiles(x.shape()[0], 64);
    lemma_tiles(x.shape()[0], 32);
    let u = qmm_s(t, x, w, scales, biases, gs, bits).0;
    let d = u.cmds.last()->Launch_0;
    assert(in_order(d));
}

/// The product that is split over the length of a row binds every operand to the
/// same part; the parts of a row are as long as it says and make up the whole row,
/// each fills its own block of partial results, and the blocks are added up.
pub proof fn split_products_know_their_parts(
    t: TapeV,
    x: ArrayV,
    w: ArrayV,
    scales: ArrayV,
    biases: ArrayV,
    gs: i32,
    bits: i32,
    r: ArrayV,
)
    requires
        splitk_s(t, x, w, scales, biases, gs, bits).1 == Outcome::Ok(r),
        x.shape()[0] > 0,
        w.shape()[0] > 0,
        x.shape()[0] * w.shape()[0] <= i32::MAX,
        x.shape()[1] <= i32::MAX,
    ensures
        r.dtype == x.dtype,
        r.shape() == seq![x.shape()[0], w.shape()[0]],
        ({
            let u = splitk_s(t, x, w, scales, biases, gs, bits).0;
            let n = t.cmds.len() as int;
            &&& u.cmds.len() == n + 4
            &&& u.cmds[n + 1] matches CmdV::Launch(d) && multiplies(
                d,
                x,
                w,
                scales,
                biases,
                t.next,
            ) && stands(d, HEIGHT, ArgV::I32(x.shape()[0] as i32)) && (
            d.grid matches Grid::Groups(g, _) && tiles(g.x, 32, w.shape()[0] as int) && tiles(
                g.y,
                32,
                x.shape()[0] as int,
            ) && g.z > 1 && exists|part: i32|
                part * g.z == x.shape()[1] && #[trigger] stands(d, 8, ArgV::I32(part))) && (
            exists|block: i32|
                block == x.shape()[0] * w.shape()[0] && #[trigger] stands(d, 9, ArgV::I32(block)))
            &&& u.cmds[n + 3] matches CmdV::Launch(e) && in_order(e) && stands(
                e,
                0,
                ArgV::Input(t.next, 0),
            ) && stands(e, 1, ArgV::Output(r.buf, 0)) && (u.cmds[n + 1] matches CmdV::Launch(d) && (
            d.grid matches Grid::Groups(g, _) && stands(e, 2, ArgV::Size(g.z))))
        }),
{
    let u = splitk_s(t, x, w, scales, biases, gs, bits).0;
    let n = t.cmds.len() as int;
    let d = u.cmds[n + 1]->Launch_0;
    let e = u.cmds[n + 3]->Launch_0;
    let (m, k, cols) = (x.shape()[0], x.shape()[1], w.shape()[0]);
    let align = max_int(gs as int, 32) as usize;
    let parts = split_parts(m, cols, k, align);
    lemma_tiles(m, 32);
    lemma_tiles(cols, 32);
    assert(in_order(d));
    assert(in_order(e));
    assert(r.shape() =~= seq![m, cols]);
    let tgs = crate::tape::ceil_div(cols as int, 32) * crate::tape::ceil_div(m as int, 32);
    let most = crate::tape::min_int(
        max_int(512int / tgs, 1),
        (k / align) as int,
    ) as nat;
    split_is_even(k, align, most);
    let al = align as int;
    let unit = parts * al;
    assert(al >= 32);
    assert(unit >= parts && unit > 0) by (nonlinear_arith)
        requires
            unit == parts * al,
            al >= 1,
            parts > 1,
    ;
    vstd::arithmetic::div_mod::lemma_fundamental_div_mod(k as int, unit);
    let c = k as int / unit;
    let each = al * c;
    assert(k == parts * each) by (nonlinear_arith)
        requires
            k == (parts * al) * c,
            each == al * c,
    ;
    assert(k as int / parts as int == each) by (nonlinear_arith)
        requires
            k == parts * each,
            parts > 0,
    ;
    assert(each * parts == k) by (nonlinear_arith)
        requires
            k == parts * each,
    ;
    assert(0 <= each <= k) by (nonlinear_arith)
        requires
            k == parts * each,
            parts > 1,
            k >= 0,
    ;
    assert(parts <= k || k == 0) by (nonlinear_arith)
        requires
            k == parts * each,
            parts > 1,
            k >= 0,
    ;
    assert(most <= k / align);
    assert(k / align <= k) by (nonlinear_arith)
        requires
            align >= 1,
    ;
    assert(parts <= k);
    assert(d.grid->Groups_0.z == parts);
    assert(stands(d, 8, ArgV::I32(each as i32)));
    assert(stands(d, 9, ArgV::I32((m * cols) as i32)));
    assert(0int * crate::dtype::width(x.dtype) == 0) by (nonlinear_arith);
}

/// The gathered product takes the rows first: every operand stands one slot later,
/// the indices before the result.
pub proof fn gathered_products_know_their_parts(
    t: TapeV,
    x: ArrayV,
    w: ArrayV,
    scales: ArrayV,
    biases: ArrayV,
    indices: ArrayV,
    dims: Seq<usize>,
    gs: i32,
    bits: i32,
    r: ArrayV,
)
    requires
        gather_s(t, x, w, scales, biases, indices, dims, gs, bits).1 == Outcome::Ok(r),
        dims.len() > 0,
    ensures
        indices.dtype == Dtype::Uint32 || indices.dtype == Dtype::Int32,
        r.buf == t.next,
        r.dtype == x.dtype,
        r.shape() == dims,
        gather_s(t, x, w, scales, biases, indices, dims, gs, bits).0.cmds.last() matches CmdV::Launch(
            d,
        ) && in_order(d) && array_in(d, 0, x) && array_in(d, (WEIGHT + 1) as usize, w) && array_in(
            d,
            (SCALES + 1) as usize,
            scales,
        ) && array_in(d, (BIASES + 1) as usize, biases) && array_in(d, 4, indices) && stands(
            d,
            (RESULT + 1) as usize,
            ArgV::Output(r.buf, 0),
        ) && stands(d, 8, ArgV::I32(x.shape().last() as i32)) && stands(
            d,
            7,
            ArgV::I32(dims.last() as i32),
        ),
{
    let u = gather_s(t, x, w, scales, biases, indices, dims, gs, bits).0;
    let d = u.cmds.last()->Launch_0;
    assert(in_order(d));
}

/// The expansion of a weight takes the weight, the scales and the biases in the slots
/// of a product, and then the result: as many values of each word as it has room for.
pub proof fn expansions_know_their_parts(
    t: TapeV,
    w: ArrayV,
    scales: ArrayV,
    biases: ArrayV,
    gs: i32,
    bits: i32,
    r: ArrayV,
)
    requires
        dequantize_s(t, w, scales, biases, gs, bits).1 == Outcome::Ok(r),
        w.rank() > 0,
        1 <= bits <= 8,
        w.shape().last() * 32 <= usize::MAX,
    ensures
        r.buf == t.next,
        r.dtype == scales.dtype,
        r.rank() == w.rank(),
        r.shape().drop_last() == w.shape().drop_last(),
        bits == 4 ==> r.shape().last() == w.shape().last() * 8,
        bits == 8 ==> r.shape().last() == w.shape().last() * 4,
        bits == 2 ==> r.shape().last() == w.shape().last() * 16,
        dequantize_s(t, w, scales, biases, gs, bits).0.cmds.last() matches CmdV::Launch(d)
            && in_order(d) && stands(
            d,
            WEIGHT,
            ArgV::Input(w.buf, (w.layout.offset * 4) as usize),
        ) && array_in(d, SCALES, scales) && array_in(d, BIASES, biases) && stands(
            d,
            3,
            ArgV::Output(r.buf, 0),
        ),
{
    let u = dequantize_s(t, w, scales, biases, gs, bits).0;
    let d = u.cmds.last()->Launch_0;
    assert(in_order(d));
    assert(r.shape().drop_last() =~= w.shape().drop_last());
    assert(32int / 4 == 8 && 32int / 8 == 4 && 32int / 2 == 16);
}

// ---- attention ----

/// The slot of the queries.
pub const QUERIES: usize = 0;

/// The slot of the keys.
pub const KEYS: usize = 1;

/// The slot of the values.
pub const VALUES: usize = 2;

/// The slot of what an attention gives.
pub const ATTENDED: usize = 3;

/// Something is bound to a slot, wherever it stands in the list.
pub open spec fn bound_to(d: DispatchV, slot: usize, a: ArgV) -> bool {
    exists|i: int| 0 <= i < d.args.len() && #[trigger] d.args[i] == (slot, a)
}

/// A switch of a kernel is set to a value.
pub open spec fn switched(d: DispatchV, slot: usize, v: ConstVal) -> bool {
    exists|i: int| 0 <= i < d.program.consts.len() && #[trigger] d.program.consts[i] == (slot, v)
}

/// A run of an attention: queries, keys and values in the slots of their parts.
pub open spec fn looks(d: DispatchV, q: ArrayV, k: ArrayV, v: ArrayV) -> bool {
    array_in(d, QUERIES, q) && array_in(d, KEYS, k) && array_in(d, VALUES, v)
}

/// The vector attention knows its operands, the distances between their rows, the
/// scale, and whether it is causal.
pub proof fn vector_attention_knows_its_parts(
    t: TapeV,
    q: ArrayV,
    k: ArrayV,
    v: ArrayV,
    scale: u32,
    causal: bool,
    r: ArrayV,
)
    requires
        vector_s(t, q, k, v, scale, causal).1 == Outcome::Ok(r),
    ensures
        r.buf == t.next,
        r.dtype == q.dtype,
        vector_s(t, q, k, v, scale, causal).0.cmds.last() matches CmdV::Launch(d) && looks(
            d,
            q,
            k,
            v,
        ) && stands(d, ATTENDED, ArgV::Output(r.buf, 0)) && switched(
            d,
            22,
            ConstVal::Bool(causal),
        ) && bound_to(d, 5, ArgV::I32(k.shape()[2] as i32)) && bound_to(
            d,
            7,
            ArgV::Size(k.strides()[2]),
        ) && bound_to(d, 9, ArgV::Size(v.strides()[2])) && bound_to(d, 10, ArgV::Word(scale)),
{
    let u = vector_s(t, q, k, v, scale, causal).0;
    let d = u.cmds.last()->Launch_0;
    assert(d.program.consts[2] == (22usize, ConstVal::Bool(causal)));
    assert(d.args[5] == (5usize, ArgV::I32(k.shape()[2] as i32)));
    assert(d.args[7] == (7usize, ArgV::Size(k.strides()[2])));
    assert(d.args[9] == (9usize, ArgV::Size(v.strides()[2])));
    assert(d.args[10] == (10usize, ArgV::Word(scale)));
}

/// The attention in two passes knows its operands, and its second pass reads what
/// the first has written: the results, the sums and the maxima, each as itself.
pub proof fn both_passes_know_their_parts(
    t: TapeV,
    q: ArrayV,
    k: ArrayV,
    v: ArrayV,
    scale: u32,
    causal: bool,
    r: ArrayV,
)
    requires
        two_pass_s(t, q, k, v, scale, causal).1 == Outcome::Ok(r),
        t.next + 4 <= u64::MAX,
    ensures
        r.buf == t.next,
        ({
            let u = two_pass_s(t, q, k, v, scale, causal).0;
            let n = u.cmds.len() as int;
            &&& n == t.cmds.len() + 6
            &&& u.cmds[n - 2] matches CmdV::Launch(d) && looks(d, q, k, v) && switched(
                d,
                22,
                ConstVal::Bool(causal),
            ) && bound_to(d, 12, ArgV::Word(scale)) && (u.cmds[n - 1] matches CmdV::Launch(e)
                && stands(e, ATTENDED, ArgV::Output(r.buf, 0)) && exists|a: u64, b: u64, c: u64|
                #![trigger stands(d, 3, ArgV::Output(a, 0)), stands(d, 4, ArgV::Output(b, 0)), stands(d, 5, ArgV::Output(c, 0))]
                a != b && b != c && a != c && a != r.buf && stands(d, 3, ArgV::Output(a, 0))
                    && stands(d, 4, ArgV::Output(b, 0)) && stands(d, 5, ArgV::Output(c, 0))
                    && stands(e, 0, ArgV::Input(a, 0)) && stands(e, 1, ArgV::Input(b, 0)) && stands(
                    e,
                    2,
                    ArgV::Input(c, 0),
                ))
        }),
{
    let u = two_pass_s(t, q, k, v, scale, causal).0;
    let n = u.cmds.len() as int;
    let d = u.cmds[n - 2]->Launch_0;
    let e = u.cmds[n - 1]->Launch_0;
    assert(d.program.consts[2] == (22usize, ConstVal::Bool(causal)));
    assert(d.args[11] == (12usize, ArgV::Word(scale)));
    let (a, b, c) = ((t.next + 1) as u64, (t.next + 2) as u64, (t.next + 3) as u64);
    assert(stands(d, 3, ArgV::Output(a, 0)));
    assert(stands(d, 4, ArgV::Output(b, 0)));
    assert(stands(d, 5, ArgV::Output(c, 0)));
}

/// The attention on the matrix unit knows its operands and whether it is causal.
pub proof fn full_attention_knows_its_parts(
    t: TapeV,
    q: ArrayV,
    k: ArrayV,
    v: ArrayV,
    scale: u32,
    causal: bool,
    r: ArrayV,
)
    requires
        full_s(t, q, k, v, scale, causal).1 == Outcome::Ok(r),
    ensures
        r.buf == t.next,
        r.dtype == q.dtype,
        r.shape() == q.shape(),
        full_s(t, q, k, v, scale, causal).0.cmds.last() matches CmdV::Launch(d) && looks(
            d,
            q,
            k,
            v,
        ) && stands(d, ATTENDED, ArgV::Output(r.buf, 0)) && switched(
            d,
            301,
            ConstVal::Bool(causal),
        ),
{
    let u = full_s(t, q, k, v, scale, causal).0;
    let d = u.cmds.last()->Launch_0;
    assert(d.program.consts[3] == (301usize, ConstVal::Bool(causal)));
}

// ---- rows ----

/// The rotation turns the operand by the offset: the scale and the base each in the
/// slot of its own, and one thread for every pair of the rotated columns.
pub proof fn rotations_know_their_parts(
    t: TapeV,
    x: ArrayV,
    dims: i32,
    traditional: bool,
    log2_base: u32,
    scale: u32,
    offset: ArrayV,
    forward: bool,
    r: ArrayV,
)
    requires
        rope_s(t, x, dims, traditional, log2_base, scale, offset, forward).1 == Outcome::Ok(r),
        dims >= 0,
    ensures
        r.buf == t.next,
        r.dtype == x.dtype,
        r.shape() == x.shape(),
        rope_s(
            t,
            x,
            dims,
            traditional,
            log2_base,
            scale,
            offset,
            forward,
        ).0.cmds.last() matches CmdV::Launch(d) && bound_to(
            d,
            0,
            ArgV::Input(x.buf, x.start()),
        ) && bound_to(d, 1, ArgV::Output(r.buf, 0)) && bound_to(
            d,
            2,
            ArgV::Input(offset.buf, offset.start()),
        ) && bound_to(d, 3, ArgV::Word(scale)) && bound_to(d, 10, ArgV::Word(log2_base))
            && switched(d, 1, ConstVal::Bool(forward)) && switched(
            d,
            2,
            ConstVal::Bool(traditional),
        ) && (d.grid matches Grid::Threads(g, _) && g.x == dims as int / 2),
{
    let u = rope_s(t, x, dims, traditional, log2_base, scale, offset, forward).0;
    let d = u.cmds.last()->Launch_0;
    assert(d.args[0] == (0usize, ArgV::Input(x.buf, x.start())));
    assert(d.args[1] == (1usize, ArgV::Output(r.buf, 0)));
    assert(d.args[2] == (2usize, ArgV::Input(offset.buf, offset.start())));
    assert(d.args[3] == (3usize, ArgV::Word(scale)));
    assert(d.args[d.args.len() - 1] == (10usize, ArgV::Word(log2_base)));
    assert(d.program.consts[0] == (1usize, ConstVal::Bool(forward)));
    assert(d.program.consts[1] == (2usize, ConstVal::Bool(traditional)));
}

/// The norm of rows reads the rows and the weight each as itself.
pub proof fn norms_know_their_parts(t: TapeV, x: ArrayV, w: ArrayV, eps: u32, r: ArrayV)
    requires
        rms_s(t, x, Some(w), eps).1 == Outcome::Ok(r),
    ensures
        r.buf == t.next,
        r.shape() == x.shape(),
        r.dtype == x.dtype,
        rms_s(t, x, Some(w), eps).0.cmds.last() matches CmdV::Launch(d) && in_order(d) && array_in(
            d,
            0,
            x,
        ) && array_in(d, 1, w) && stands(d, 2, ArgV::Output(r.buf, 0)) && stands(
            d,
            3,
            ArgV::Word(eps),
        ) && stands(d, 4, ArgV::U32(x.shape().last() as u32)),
{
    let u = rms_s(t, x, Some(w), eps).0;
    let d = u.cmds.last()->Launch_0;
    assert(in_order(d));
}

/// A scatter writes the updates, and not the indices, into a copy of the source: the
/// source itself stays as it is.
pub proof fn scatters_know_their_parts(
    t: TapeV,
    src: ArrayV,
    indices: ArrayV,
    updates: ArrayV,
    ax: int,
    r: ArrayV,
)
    requires
        scatter_s(t, src, indices, updates, ax).1 == Outcome::Ok(r),
    ensures
        r.buf == t.next,
        r.shape() == src.shape(),
        r.dtype == src.dtype,
        scatter_s(t, src, indices, updates, ax).0.cmds.last() matches CmdV::Launch(d) && in_order(d)
            && array_in(d, 0, updates) && array_in(d, 1, indices) && stands(
            d,
            2,
            ArgV::Output(r.buf, r.start()),
        ),
        scatter_s(t, src, indices, updates, ax).0.cmds[t.cmds.len() as int
            + 1] matches CmdV::Launch(c) && array_in(c, 0, src) && stands(
            c,
            1,
            ArgV::Output(r.buf, 0),
        ),
{
    let u = scatter_s(t, src, indices, updates, ax).0;
    let d = u.cmds.last()->Launch_0;
    assert(in_order(d));
}

} // verus!
