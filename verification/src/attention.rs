//! Scaled dot-product attention.

use vstd::prelude::*;

use crate::array::{fresh, lemma_roomy, roomy, seen, with_room, Array, ArrayV, Outcome};
use crate::codegen::{inst2, inst3, template_def};
use crate::dtype::{
    compilable, metal_text, tag_text, type_string, type_to_name, variant_text, Dtype,
};
use crate::error::Error;
use crate::layout::{lemma_numel_take_step, numel};
use crate::matmul::{device_class, device_type};
use crate::nax::{nax_source_text, nax_text};
use crate::tape::{
    ceil_div, dim3, div_up, fresh_program, program, program_with, Arg, ArgV, CmdV, ConstVal, Dim3,
    Dispatch, DispatchV, Grid, Math, MetalFile, Source, SourceV, Tape, TapeV,
};
use crate::text::{cat2, cat4, cat5, dec, decimal_usize};
use crate::words::{le32, le32s, le64s, push_le32, push_le32s, push_le64s};

verus! {

// ---- few queries ----

/// Queries, keys and values of four axes, with at least one head of keys.
pub open spec fn attends(q: ArrayV, k: ArrayV, v: ArrayV) -> bool {
    &&& q.wf()
    &&& k.wf()
    &&& v.wf()
    &&& q.rank() == 4
    &&& k.rank() == 4
    &&& v.rank() == 4
    &&& k.shape()[1] > 0
}

/// Batches and heads together are a number of the machine.
proof fn lemma_batch_heads(q: ArrayV)
    requires
        q.wf(),
        q.rank() == 4,
    ensures
        q.shape()[0] * q.shape()[1] <= usize::MAX,
{
    let s = q.shape();
    lemma_roomy(s, q.dtype);
    lemma_numel_take_step(s, 0);
    lemma_numel_take_step(s, 1);
    assert(s.take(0) =~= Seq::<usize>::empty());
    assert(numel(s.take(0)) == 1);
    let a = s[0] as nat;
    assert(1 * a == a) by (nonlinear_arith);
    assert(numel(s.take(2)) <= usize::MAX);
}

/// The shape of the result: as many values for each query.
pub open spec fn attended(q: ArrayV, v: ArrayV) -> Seq<usize> {
    seq![q.shape()[0], q.shape()[1], q.shape()[2], v.shape()[3]]
}

/// The stride between heads; that of the batch when there is one head.
pub open spec fn head_stride(a: ArrayV) -> usize {
    if a.shape()[1] == 1 {
        a.strides()[0]
    } else {
        a.strides()[1]
    }
}

fn head_step(a: &Array) -> (s: usize)
    requires
        a@.wf(),
        a@.rank() == 4,
    ensures
        s == head_stride(a@),
{
    if a.layout.shape[1] == 1 {
        a.layout.strides[0]
    } else {
        a.layout.strides[1]
    }
}

/// The switches of the vector kernels: of the masks and sinks only the causal
/// one is ever set.
pub open spec fn vector_consts(causal: bool) -> Seq<(usize, ConstVal)> {
    seq![
        (20usize, ConstVal::Bool(false)),
        (21usize, ConstVal::Bool(false)),
        (22usize, ConstVal::Bool(causal)),
        (23usize, ConstVal::Bool(false)),
        (24usize, ConstVal::Bool(false)),
        (25usize, ConstVal::Bool(false)),
    ]
}

fn vector_switches(causal: bool) -> (v: Vec<(usize, ConstVal)>)
    ensures
        v@ == vector_consts(causal),
{
    let v = vec![
        (20, ConstVal::Bool(false)),
        (21, ConstVal::Bool(false)),
        (22, ConstVal::Bool(causal)),
        (23, ConstVal::Bool(false)),
        (24, ConstVal::Bool(false)),
        (25, ConstVal::Bool(false)),
    ];
    assert(v@ =~= vector_consts(causal));
    v
}

/// The run of the one-pass vector kernel.
pub open spec fn vector_run(
    q: ArrayV,
    k: ArrayV,
    v: ArrayV,
    out: ArrayV,
    scale: u32,
    causal: bool,
) -> DispatchV {
    let ty = metal_text(q.dtype);
    let d = dec(q.shape()[3] as nat);
    let vd = dec(v.shape()[3] as nat);
    let name = "sdpa_vector_"@ + ty + "_"@ + d + ("_"@ + vd);
    DispatchV {
        program: fresh_program(
            name,
            seq![MetalFile::Utils, MetalFile::SdpaVector],
            template_def(name, "sdpa_vector"@, seq![ty, d, vd]),
            Math::SafeNoLang,
            vector_consts(causal),
        ),
        args: seq![
            (0usize, q.as_input()),
            (1usize, k.as_input()),
            (2usize, v.as_input()),
            (3usize, ArgV::Output(out.buf, 0)),
            (4usize, ArgV::I32((q.shape()[1] / k.shape()[1]) as usize as i32)),
            (5usize, ArgV::I32(k.shape()[2] as i32)),
            (6usize, ArgV::Size(head_stride(k))),
            (7usize, ArgV::Size(k.strides()[2])),
            (8usize, ArgV::Size(head_stride(v))),
            (9usize, ArgV::Size(v.strides()[2])),
            (10usize, ArgV::Word(scale)),
        ],
        grid: Grid::Groups(
            Dim3 { x: (q.shape()[0] * q.shape()[1]) as usize, y: q.shape()[2], z: 1 },
            Dim3 { x: 1024, y: 1, z: 1 },
        ),
    }
}

/// Attention of few queries in one pass.
pub open spec fn vector_s(
    t: TapeV,
    q: ArrayV,
    k: ArrayV,
    v: ArrayV,
    scale: u32,
    causal: bool,
) -> (TapeV, Outcome) {
    if !compilable(q.dtype) {
        (t, Err("unsupported compilation type "@ + variant_text(q.dtype)))
    } else {
        let dims = attended(q, v);
        let out = fresh(t, dims, q.dtype);
        (
            with_room(t, dims, q.dtype, "sdpa_out"@).then_do(
                CmdV::Launch(vector_run(q, k, v, out, scale, causal)),
            ),
            Ok(out),
        )
    }
}

/// Records attention of few queries in one pass.
pub fn sdpa_vector(
    tape: &mut Tape,
    q: &Array,
    k: &Array,
    v: &Array,
    scale: u32,
    do_causal: bool,
) -> (r: Result<Array, Error>)
    requires
        attends(q@, k@, v@),
        roomy(attended(q@, v@)),
    ensures
        (final(tape)@, seen(r)) == vector_s(old(tape)@, q@, k@, v@, scale, do_causal),
        r matches Ok(a) ==> a@.wf(),
{
    let ty = match type_string(q.dtype) {
        Ok(t) => t,
        Err(e) => {
            return Err(e);
        },
    };
    let d = decimal_usize(q.layout.shape[3]);
    let vd = decimal_usize(v.layout.shape[3]);
    let tail = cat2("_", &vd);
    let name = cat5("sdpa_vector_", ty, "_", &d, &tail);
    let text = inst3(&name, "sdpa_vector", ty, &d, &vd);
    let files = vec![MetalFile::Utils, MetalFile::SdpaVector];
    let mut p = program(name, files, text, Math::SafeNoLang);
    p.consts = vector_switches(do_causal);
    let (b, h, ql) = (q.layout.shape[0], q.layout.shape[1], q.layout.shape[2]);
    let shape: Vec<usize> = vec![b, h, ql, v.layout.shape[3]];
    assert(shape@ =~= attended(q@, v@));
    let out = Array::make(tape, &shape, q.dtype, "sdpa_out");
    let mut c = Dispatch::new(p);
    c.bind(0, q.input());
    c.bind(1, k.input());
    c.bind(2, v.input());
    c.bind(3, Arg::Output(out.buf, 0));
    c.bind(4, Arg::I32((h / k.layout.shape[1]) as i32));
    c.bind(5, Arg::I32(k.layout.shape[2] as i32));
    c.bind(6, Arg::Size(head_step(k)));
    c.bind(7, Arg::Size(k.layout.strides[2]));
    c.bind(8, Arg::Size(head_step(v)));
    c.bind(9, Arg::Size(v.layout.strides[2]));
    c.bind(10, Arg::Word(scale));
    proof {
        lemma_batch_heads(q@);
    }
    tape.launch(c, Grid::Groups(dim3(b * h, ql, 1), dim3(1024, 1, 1)));
    proof {
        let run = vector_run(q@, k@, v@, out@, scale, do_causal);
        assert(files@ =~= run.program.source->0.files);
        assert(c@.args =~= run.args);
    }
    Ok(out)
}

// ---- few queries over many keys, in two passes ----

/// The number of blocks into which the keys are cut.
pub open spec fn key_blocks(device: char, n: usize, simds: nat) -> usize {
    if device == 's' {
        if n > 1024 && simds > 4 {
            if n <= 8192 {
                128
            } else if n <= 32768 {
                256
            } else if n <= 65536 {
                512
            } else {
                1024
            }
        } else {
            64
        }
    } else if device == 'd' {
        if simds <= 2 && n > 8192 {
            256
        } else if simds >= 6 && 16384 <= n && n < 65536 {
            512
        } else if simds >= 6 && n >= 65536 {
            1024
        } else {
            128
        }
    } else if simds >= 4 {
        64
    } else {
        32
    }
}

fn block_count(device: char, n: usize, simds: usize) -> (b: usize)
    ensures
        b == key_blocks(device, n, simds as nat),
        32 <= b <= 1024,
{
    if device == 's' {
        if n > 1024 && simds > 4 {
            if n <= 8192 {
                128
            } else if n <= 32768 {
                256
            } else if n <= 65536 {
                512
            } else {
                1024
            }
        } else {
            64
        }
    } else if device == 'd' {
        if simds <= 2 && n > 8192 {
            256
        } else if simds >= 6 {
            if n >= 16384 && n < 65536 {
                512
            } else if n >= 65536 {
                1024
            } else {
                128
            }
        } else {
            128
        }
    } else if simds >= 4 {
        64
    } else {
        32
    }
}

/// The queries that share a head of keys, over all query rows.
pub open spec fn query_simds(q: ArrayV, k: ArrayV) -> nat {
    (q.shape()[1] as nat / (k.shape()[1] as nat)) * (q.shape()[2] as nat)
}

/// The shape of the partial results.
pub open spec fn partials(q: ArrayV, v: ArrayV, blocks: usize) -> Seq<usize> {
    seq![q.shape()[0], q.shape()[1], q.shape()[2], blocks, v.shape()[3]]
}

/// The shape of the partial sums and maxima.
pub open spec fn partial_rows(q: ArrayV, blocks: usize) -> Seq<usize> {
    seq![q.shape()[0], q.shape()[1], q.shape()[2], blocks]
}

/// The text of the two passes.
pub open spec fn two_pass_text(ty: Seq<char>, d: Seq<char>, vd: Seq<char>) -> Seq<char> {
    template_def(
        "sdpa_vector_2pass_1_"@ + ty + "_"@ + d + ("_"@ + vd),
        "sdpa_vector_2pass_1"@,
        seq![ty, d, vd],
    ) + template_def("sdpa_vector_2pass_2_"@ + ty + "_"@ + vd, "sdpa_vector_2pass_2"@, seq![ty, vd])
}

/// The run of the first pass: each block of keys on its own.
pub open spec fn pass1_run(
    q: ArrayV,
    k: ArrayV,
    v: ArrayV,
    bufs: (u64, u64, u64),
    scale: u32,
    causal: bool,
    blocks: usize,
) -> DispatchV {
    let ty = metal_text(q.dtype);
    let d = dec(q.shape()[3] as nat);
    let vd = dec(v.shape()[3] as nat);
    DispatchV {
        program: fresh_program(
            "sdpa_vector_2pass_1_"@ + ty + "_"@ + d + ("_"@ + vd),
            seq![MetalFile::Utils, MetalFile::SdpaVector],
            two_pass_text(ty, d, vd),
            Math::SafeNoLang,
            vector_consts(causal).push((26usize, ConstVal::Int(blocks as i32))),
        ),
        args: seq![
            (0usize, q.as_input()),
            (1usize, k.as_input()),
            (2usize, v.as_input()),
            (3usize, ArgV::Output(bufs.0, 0)),
            (4usize, ArgV::Output(bufs.1, 0)),
            (5usize, ArgV::Output(bufs.2, 0)),
            (7usize, ArgV::I32(k.shape()[2] as i32)),
            (8usize, ArgV::Size(head_stride(k))),
            (9usize, ArgV::Size(k.strides()[2])),
            (10usize, ArgV::Size(head_stride(v))),
            (11usize, ArgV::Size(v.strides()[2])),
            (12usize, ArgV::Word(scale)),
        ],
        grid: Grid::Groups(
            Dim3 { x: k.shape()[1], y: q.shape()[0], z: blocks },
            Dim3 { x: 32, y: (q.shape()[1] / k.shape()[1]) as usize, z: q.shape()[2] },
        ),
    }
}

/// The run of the second pass: the blocks joined.
pub open spec fn pass2_run(
    q: ArrayV,
    v: ArrayV,
    out: ArrayV,
    bufs: (u64, u64, u64),
    blocks: usize,
) -> DispatchV {
    let ty = metal_text(q.dtype);
    let d = dec(q.shape()[3] as nat);
    let vd = dec(v.shape()[3] as nat);
    DispatchV {
        program: fresh_program(
            "sdpa_vector_2pass_2_"@ + ty + "_"@ + vd,
            seq![MetalFile::Utils, MetalFile::SdpaVector],
            two_pass_text(ty, d, vd),
            Math::SafeNoLang,
            Seq::empty(),
        ),
        args: seq![
            (0usize, ArgV::Input(bufs.0, 0)),
            (1usize, ArgV::Input(bufs.1, 0)),
            (2usize, ArgV::Input(bufs.2, 0)),
            (3usize, ArgV::Output(out.buf, 0)),
            (4usize, ArgV::I32(blocks as i32)),
        ],
        grid: Grid::Groups(
            Dim3 { x: (q.shape()[0] * q.shape()[1]) as usize, y: q.shape()[2], z: 1 },
            Dim3 { x: 1024, y: 1, z: 1 },
        ),
    }
}

/// Attention of few queries over many keys.
pub open spec fn two_pass_s(
    t: TapeV,
    q: ArrayV,
    k: ArrayV,
    v: ArrayV,
    scale: u32,
    causal: bool,
) -> (TapeV, Outcome) {
    if !compilable(q.dtype) {
        (t, Err("unsupported compilation type "@ + variant_text(q.dtype)))
    } else {
        let blocks = key_blocks(device_class(t, 's'), k.shape()[2], query_simds(q, k));
        let dims = attended(q, v);
        let rows = partial_rows(q, blocks);
        let out = fresh(t, dims, q.dtype);
        let t1 = with_room(t, dims, q.dtype, "sdpa_out"@);
        let t2 = with_room(t1, partials(q, v, blocks), q.dtype, "sdpa_interm"@);
        let t3 = with_room(t2, rows, Dtype::Float32, "sdpa_sums"@);
        let t4 = with_room(t3, rows, Dtype::Float32, "sdpa_maxs"@);
        let bufs = (t1.next, t2.next, t3.next);
        (
            t4.then_do(CmdV::Launch(pass1_run(q, k, v, bufs, scale, causal, blocks))).then_do(
                CmdV::Launch(pass2_run(q, v, out, bufs, blocks)),
            ),
            Ok(out),
        )
    }
}

fn two_pass_source(ty: &str, d: &str, vd: &str, n1: &str, n2: &str) -> (s: String)
    requires
        n1@ == "sdpa_vector_2pass_1_"@ + ty@ + "_"@ + d@ + ("_"@ + vd@),
        n2@ == "sdpa_vector_2pass_2_"@ + ty@ + "_"@ + vd@,
    ensures
        s@ == two_pass_text(ty@, d@, vd@),
{
    let mut s = inst3(n1, "sdpa_vector_2pass_1", ty, d, vd);
    let m = inst2(n2, "sdpa_vector_2pass_2", ty, vd);
    s.append(&m);
    s
}

/// Makes the two passes' runs.
fn record_passes(
    tape: &mut Tape,
    q: &Array,
    k: &Array,
    v: &Array,
    out: &Array,
    bufs: (u64, u64, u64),
    scale: u32,
    causal: bool,
    blocks: usize,
)
    requires
        attends(q@, k@, v@),
        32 <= blocks <= 1024,
    ensures
        final(tape)@ == old(tape)@.then_do(
            CmdV::Launch(pass1_run(q@, k@, v@, bufs, scale, causal, blocks)),
        ).then_do(CmdV::Launch(pass2_run(q@, v@, out@, bufs, blocks))),
{
    let ty = q.dtype.metal_name();
    let d = decimal_usize(q.layout.shape[3]);
    let vd = decimal_usize(v.layout.shape[3]);
    let tail = cat2("_", &vd);
    let name1 = cat5("sdpa_vector_2pass_1_", ty, "_", &d, &tail);
    let name2 = cat4("sdpa_vector_2pass_2_", ty, "_", &vd);
    let text1 = two_pass_source(ty, &d, &vd, &name1, &name2);
    let text2 = two_pass_source(ty, &d, &vd, &name1, &name2);
    let (b, h, ql) = (q.layout.shape[0], q.layout.shape[1], q.layout.shape[2]);
    let files1 = vec![MetalFile::Utils, MetalFile::SdpaVector];
    let mut p1 = program(name1, files1, text1, Math::SafeNoLang);
    p1.consts = vector_switches(causal);
    p1.consts.push((26, ConstVal::Int(blocks as i32)));
    let mut c = Dispatch::new(p1);
    c.bind(0, q.input());
    c.bind(1, k.input());
    c.bind(2, v.input());
    c.bind(3, Arg::Output(bufs.0, 0));
    c.bind(4, Arg::Output(bufs.1, 0));
    c.bind(5, Arg::Output(bufs.2, 0));
    c.bind(7, Arg::I32(k.layout.shape[2] as i32));
    c.bind(8, Arg::Size(head_step(k)));
    c.bind(9, Arg::Size(k.layout.strides[2]));
    c.bind(10, Arg::Size(head_step(v)));
    c.bind(11, Arg::Size(v.layout.strides[2]));
    c.bind(12, Arg::Word(scale));
    tape.launch(
        c,
        Grid::Groups(
            dim3(k.layout.shape[1], b, blocks),
            dim3(32, h / k.layout.shape[1], ql),
        ),
    );
    proof {
        let run = pass1_run(q@, k@, v@, bufs, scale, causal, blocks);
        assert(files1@ =~= run.program.source->0.files);
        assert(c@.args =~= run.args);
    }
    let files2 = vec![MetalFile::Utils, MetalFile::SdpaVector];
    let mut e = Dispatch::new(program(name2, files2, text2, Math::SafeNoLang));
    e.bind(0, Arg::Input(bufs.0, 0));
    e.bind(1, Arg::Input(bufs.1, 0));
    e.bind(2, Arg::Input(bufs.2, 0));
    e.bind(3, Arg::Output(out.buf, 0));
    e.bind(4, Arg::I32(blocks as i32));
    proof {
        lemma_batch_heads(q@);
    }
    tape.launch(e, Grid::Groups(dim3(b * h, ql, 1), dim3(1024, 1, 1)));
    proof {
        let run = pass2_run(q@, v@, out@, bufs, blocks);
        assert(files2@ =~= run.program.source->0.files);
        assert(e@.args =~= run.args);
    }
}

/// Records attention of few queries over many keys.
pub fn sdpa_vector_2pass(
    tape: &mut Tape,
    q: &Array,
    k: &Array,
    v: &Array,
    scale: u32,
    do_causal: bool,
) -> (r: Result<Array, Error>)
    requires
        attends(q@, k@, v@),
        roomy(attended(q@, v@)),
        query_simds(q@, k@) <= usize::MAX,
        roomy(
            partials(
                q@,
                v@,
                key_blocks(device_class(old(tape)@, 's'), k@.shape()[2], query_simds(q@, k@)),
            ),
        ),
        roomy(
            partial_rows(
                q@,
                key_blocks(device_class(old(tape)@, 's'), k@.shape()[2], query_simds(q@, k@)),
            ),
        ),
    ensures
        (final(tape)@, seen(r)) == two_pass_s(old(tape)@, q@, k@, v@, scale, do_causal),
        r matches Ok(a) ==> a@.wf(),
{
    match type_string(q.dtype) {
        Ok(_) => {},
        Err(e) => {
            return Err(e);
        },
    }
    let (b, h, ql) = (q.layout.shape[0], q.layout.shape[1], q.layout.shape[2]);
    let gqa: usize = h / k.layout.shape[1];
    let simds: usize = gqa * ql;
    let n = k.layout.shape[2];
    let device = device_type(tape, 's');
    let blocks = block_count(device, n, simds);
    let shape: Vec<usize> = vec![b, h, ql, v.layout.shape[3]];
    let inter: Vec<usize> = vec![b, h, ql, blocks, v.layout.shape[3]];
    let rows: Vec<usize> = vec![b, h, ql, blocks];
    assert(shape@ =~= attended(q@, v@));
    assert(inter@ =~= partials(q@, v@, blocks));
    assert(rows@ =~= partial_rows(q@, blocks));
    let out = Array::make(tape, &shape, q.dtype, "sdpa_out");
    let ib = Array::make(tape, &inter, q.dtype, "sdpa_interm");
    let sb = Array::make(tape, &rows, Dtype::Float32, "sdpa_sums");
    let mb = Array::make(tape, &rows, Dtype::Float32, "sdpa_maxs");
    record_passes(tape, q, k, v, &out, (ib.buf, sb.buf, mb.buf), scale, do_causal, blocks);
    Ok(out)
}

// ---- many queries on the matrix unit ----

/// The program of one instantiation of the attention kernel.
pub fn sdpa_full_nax_source(
    base_name: &str,
    split_d: bool,
    bq: usize,
    bk: usize,
    bd: usize,
    wm: usize,
    wn: usize,
    q_ty: &str,
    mask_ty: &str,
) -> (s: Source)
    ensures
        s@ == (SourceV {
            files: seq![MetalFile::NaxAttn],
            text: nax_text(
                base_name@,
                full_args(split_d, seq![bq, bk, bd, wm, wn], q_ty@, mask_ty@),
            ),
        }),
{
    let nums = [bq, bk, bd, wm, wn];
    let l = crate::nax::number_list(&nums);
    assert(nums@ =~= seq![bq, bk, bd, wm, wn]);
    let mut rest = cat4(
        if split_d {
            "attention_nax_dsplit"
        } else {
            "attention_nax"
        },
        ", ",
        q_ty,
        &l,
    );
    rest.append(", ");
    rest.append(mask_ty);
    let files = vec![MetalFile::NaxAttn];
    assert(files@ =~= seq![MetalFile::NaxAttn]);
    Source { files, text: nax_source_text(base_name, &rest) }
}

/// The template arguments of the attention kernel.
pub open spec fn full_args(
    split_d: bool,
    nums: Seq<usize>,
    q_ty: Seq<char>,
    mask_ty: Seq<char>,
) -> Seq<char> {
    (if split_d {
        "attention_nax_dsplit"@
    } else {
        "attention_nax"@
    }) + ", "@ + q_ty + crate::nax::listed(nums) + ", "@ + mask_ty
}

/// The name of the attention kernel.
pub open spec fn full_name(tag: Seq<char>, bd: usize) -> Seq<char> {
    (if bd == 256 {
        "steel_attention_dsplit_"@
    } else {
        "steel_attention_"@
    }) + tag + "_bq64_bk32_bd"@ + dec(bd as nat) + "_wm4_wn"@ + (if bd == 256 {
        "2"@
    } else {
        "1"@
    }) + "_mask"@ + tag
}

/// The strides of the first three axes.
pub open spec fn three_strides(a: ArrayV) -> Seq<i64> {
    seq![a.strides()[0] as i64, a.strides()[1] as i64, a.strides()[2] as i64]
}

/// The parameter block of the attention kernel.
pub open spec fn full_params(q: ArrayV, k: ArrayV, v: ArrayV, scale: u32) -> Seq<u8> {
    let (b, h, ql, bd) = (q.shape()[0], q.shape()[1], q.shape()[2], q.shape()[3]);
    let kl = k.shape()[2];
    le32s(
        seq![
            b as i32,
            h as i32,
            bd as i32,
            ql as i32,
            kl as i32,
            (h / k.shape()[1]) as usize as i32,
        ],
    ) + le32(scale as i32) + le32s(
        seq![
            ceil_div(ql as int, 64) as usize as i32,
            ceil_div(kl as int, 32) as usize as i32,
            (ql / 64) as usize as i32,
            (kl / 32) as usize as i32,
            (ql % 64) as usize as i32,
            (kl % 32) as usize as i32,
            (kl - ql) as i64 as i32,
        ],
    ) + le64s(three_strides(q)) + le64s(three_strides(k)) + le64s(three_strides(v)) + le64s(
        seq![(h * ql * bd) as usize as i64, (ql * bd) as usize as i64, bd as i64],
    )
}

/// The run of the attention kernel.
pub open spec fn full_run(
    q: ArrayV,
    k: ArrayV,
    v: ArrayV,
    out: ArrayV,
    scale: u32,
    causal: bool,
) -> DispatchV {
    let bd = q.shape()[3];
    let ql = q.shape()[2];
    let kl = k.shape()[2];
    let split = bd == 256;
    let wn: usize = if split {
        2
    } else {
        1
    };
    let name = full_name(tag_text(q.dtype), bd);
    DispatchV {
        program: fresh_program(
            name,
            seq![MetalFile::NaxAttn],
            nax_text(
                name,
                full_args(split, seq![64usize, 32usize, bd, 4usize, wn], "bfloat"@, "bfloat"@),
            ),
            Math::Safe,
            seq![
                (200usize, ConstVal::Bool(ql % 64 == 0)),
                (201usize, ConstVal::Bool(kl % 32 == 0)),
                (300usize, ConstVal::Bool(false)),
                (301usize, ConstVal::Bool(causal)),
                (302usize, ConstVal::Bool(false)),
            ],
        ),
        args: seq![
            (0usize, q.as_input()),
            (1usize, k.as_input()),
            (2usize, v.as_input()),
            (3usize, ArgV::Output(out.buf, 0)),
            (4usize, ArgV::Bytes(full_params(q, k, v, scale))),
        ],
        grid: Grid::Groups(
            Dim3 { x: ceil_div(ql as int, 64) as usize, y: q.shape()[1], z: q.shape()[0] },
            Dim3 { x: 32, y: 4, z: wn },
        ),
    }
}

/// Attention of many queries on the matrix unit.
pub open spec fn full_s(
    t: TapeV,
    q: ArrayV,
    k: ArrayV,
    v: ArrayV,
    scale: u32,
    causal: bool,
) -> (TapeV, Outcome) {
    if !compilable(q.dtype) {
        (t, Err("type_to_name: unsupported "@ + variant_text(q.dtype)))
    } else {
        let out = fresh(t, q.shape(), q.dtype);
        (
            with_room(t, q.shape(), q.dtype, "sdpa_full_out"@).then_do(
                CmdV::Launch(full_run(q, k, v, out, scale, causal)),
            ),
            Ok(out),
        )
    }
}

fn push_three(b: &mut Vec<u8>, a: &Array)
    requires
        a@.wf(),
        a@.rank() == 4,
    ensures
        final(b)@ == old(b)@ + le64s(three_strides(a@)),
{
    let s: Vec<i64> = vec![
        a.layout.strides[0] as i64,
        a.layout.strides[1] as i64,
        a.layout.strides[2] as i64,
    ];
    assert(s@ =~= three_strides(a@));
    push_le64s(b, &s);
}

/// The tail products of a shape of four axes fit.
proof fn lemma_four(s: Seq<usize>)
    requires
        s.len() == 4,
        roomy(s),
    ensures
        s[1] * s[2] * s[3] <= usize::MAX,
        s[2] * s[3] <= usize::MAX,
        s[1] * s[2] <= usize::MAX,
        s[2] * 8 <= usize::MAX,
{
    crate::layout::lemma_volume_skip(s, 1);
    crate::layout::lemma_volume_skip(s, 2);
    crate::layout::lemma_volume_bounds(s);
    let t = s.skip(1);
    let u = s.skip(2);
    crate::layout::lemma_volume_bounds(t);
    crate::layout::lemma_volume_bounds(u);
    assert(u =~= seq![s[2], s[3]]);
    assert(u.drop_last() =~= seq![s[2]]);
    crate::layout::lemma_numel_one(s[2]);
    assert(t =~= seq![s[1], s[2], s[3]]);
    assert(t.drop_last() =~= seq![s[1], s[2]]);
    assert(seq![s[1], s[2]].drop_last() =~= seq![s[1]]);
    crate::layout::lemma_numel_one(s[1]);
    crate::layout::lemma_volume_take(t, 2);
    assert(t.take(2) =~= seq![s[1], s[2]]);
    crate::layout::lemma_volume_bounds(t.take(2));
    crate::layout::lemma_axis_bound(s, 2);
    assert(numel(t) == numel(seq![s[1], s[2]]) * s[3]);
    assert(numel(seq![s[1], s[2]]) == s[1] * s[2]);
}

fn full_param_bytes(q: &Array, k: &Array, v: &Array, scale: u32) -> (p: Vec<u8>)
    requires
        attends(q@, k@, v@),
    ensures
        p@ == full_params(q@, k@, v@, scale),
{
    let (b, h, ql, bd) = (
        q.layout.shape[0],
        q.layout.shape[1],
        q.layout.shape[2],
        q.layout.shape[3],
    );
    let kl = k.layout.shape[2];
    proof {
        lemma_four(q@.shape());
        lemma_four(k@.shape());
    }
    let head: Vec<i32> = vec![
        b as i32,
        h as i32,
        bd as i32,
        ql as i32,
        kl as i32,
        (h / k.layout.shape[1]) as i32,
    ];
    assert(0 <= kl as i64 == kl) by {
        assert(kl * 8 <= usize::MAX);
    }
    let off: i64 = kl as i64 - ql as i64;
    let mid: Vec<i32> = vec![
        div_up(ql, 64) as i32,
        div_up(kl, 32) as i32,
        (ql / 64) as i32,
        (kl / 32) as i32,
        (ql % 64) as i32,
        (kl % 32) as i32,
        off as i32,
    ];
    let outs: Vec<i64> = vec![(h * ql * bd) as i64, (ql * bd) as i64, bd as i64];
    let mut p: Vec<u8> = Vec::new();
    push_le32s(&mut p, &head);
    push_le32(&mut p, scale as i32);
    push_le32s(&mut p, &mid);
    push_three(&mut p, q);
    push_three(&mut p, k);
    push_three(&mut p, v);
    push_le64s(&mut p, &outs);
    proof {
        assert(head@ =~= seq![
            b as i32,
            h as i32,
            bd as i32,
            ql as i32,
            kl as i32,
            (h / k@.shape()[1]) as usize as i32,
        ]);
        assert(mid@ =~= seq![
            ceil_div(ql as int, 64) as usize as i32,
            ceil_div(kl as int, 32) as usize as i32,
            (ql / 64) as usize as i32,
            (kl / 32) as usize as i32,
            (ql % 64) as usize as i32,
            (kl % 32) as usize as i32,
            (kl - ql) as i64 as i32,
        ]);
        assert(outs@ =~= seq![(h * ql * bd) as usize as i64, (ql * bd) as usize as i64, bd as i64]);
        assert(p@ =~= full_params(q@, k@, v@, scale));
    }
    p
}

fn full_kernel(tag: &str, bd: usize) -> (s: String)
    ensures
        s@ == full_name(tag@, bd),
{
    let d = decimal_usize(bd);
    let split = bd == 256;
    let mut s = cat5(
        if split {
            "steel_attention_dsplit_"
        } else {
            "steel_attention_"
        },
        tag,
        "_bq64_bk32_bd",
        &d,
        "_wm4_wn",
    );
    s.append(
        if split {
            "2"
        } else {
            "1"
        },
    );
    s.append("_mask");
    s.append(tag);
    s
}

/// Records attention of many queries on the matrix unit.
pub fn sdpa_full_nax(
    tape: &mut Tape,
    q: &Array,
    k: &Array,
    v: &Array,
    scale: u32,
    do_causal: bool,
) -> (r: Result<Array, Error>)
    requires
        attends(q@, k@, v@),
    ensures
        (final(tape)@, seen(r)) == full_s(old(tape)@, q@, k@, v@, scale, do_causal),
        r matches Ok(a) ==> a@.wf(),
{
    let (b, h, ql, bd) = (
        q.layout.shape[0],
        q.layout.shape[1],
        q.layout.shape[2],
        q.layout.shape[3],
    );
    let kl = k.layout.shape[2];
    let split = bd == 256;
    let wn: usize = if split {
        2
    } else {
        1
    };
    let tag = match type_to_name(q.dtype) {
        Ok(t) => t,
        Err(e) => {
            return Err(e);
        },
    };
    let name = full_kernel(tag, bd);
    let source = sdpa_full_nax_source(&name, split, 64, 32, bd, 4, wn, "bfloat", "bfloat");
    let consts: Vec<(usize, ConstVal)> = vec![
        (200, ConstVal::Bool(ql % 64 == 0)),
        (201, ConstVal::Bool(kl % 32 == 0)),
        (300, ConstVal::Bool(false)),
        (301, ConstVal::Bool(do_causal)),
        (302, ConstVal::Bool(false)),
    ];
    let p = program_with(name, source, Math::Safe, consts);
    let out = Array::make(tape, &q.layout.shape, q.dtype, "sdpa_full_out");
    let params = full_param_bytes(q, k, v, scale);
    let mut c = Dispatch::new(p);
    c.bind(0, q.input());
    c.bind(1, k.input());
    c.bind(2, v.input());
    c.bind(3, Arg::Output(out.buf, 0));
    c.bind(4, Arg::Bytes(params));
    tape.launch(c, Grid::Groups(dim3(div_up(ql, 64), h, b), dim3(32, 4, wn)));
    proof {
        let run = full_run(q@, k@, v@, out@, scale, do_causal);
        assert(p@.consts =~= run.program.consts);
        assert(c@.args =~= run.args);
    }
    Ok(out)
}

} // verus!
