//! Steps of the model that lay arrays out before or after a kernel.

use vstd::prelude::*;

use crate::arrange::{filled, lemma_filled_len, reshapes};
use crate::array::{contiguous_s, reshape_s, Array as Tensor, ArrayV, Outcome};
use crate::calls::{
    call_into_s, call_s, first1, first2, fits, got1, got2, got3, launch, launch_into, number,
    out_of, ready, CallV,
};
use crate::dtype::Dtype;
use crate::elementwise::scalar_raw_s;
use crate::facade::Array;
use crate::index::{index_seq, indexable, indexed, IndexElem};
use crate::join::array_views;
use crate::kernel::{
    all_wf, arg_list, new_kernel, out_list, ref_views, sizes_of, sound_outputs, KernelV,
    MetalKernel, OutputArg, TemplateArg, TemplateArgV,
};
use crate::kernels::gdn_decode_step_call;
use crate::tape::{Tape, TapeV};
use crate::text::str_views;

verus! {

/// The inputs of the kernel, by name.
pub open spec fn copy_rows_inputs() -> Seq<Seq<char>> {
    seq!["src"@, "dst"@, "off"@]
}

/// A kernel, the tape and what there is of a result.
pub type StepV = (KernelV, TapeV, Option<Seq<ArrayV>>);

/// An array under signed sizes.
pub open spec fn relaid(t: TapeV, a: ArrayV, shape: Seq<i32>) -> (TapeV, Outcome) {
    reshape_s(t, a, filled(a.shape(), shape))
}

// ---- gating ----

/// The run that gates and normalizes rows.
pub open spec fn gated_rms_call(
    y: ArrayV,
    z: ArrayV,
    w: ArrayV,
    hv: i32,
    dv: i32,
    rows: i32,
    eps: u32,
) -> CallV {
    CallV {
        inputs: seq![y, z, w],
        template: seq![
            TemplateArgV::Dtype("InT"@, Dtype::Bfloat16),
            TemplateArgV::Int("Hv"@, hv),
            TemplateArgV::Int("Dv"@, dv),
            TemplateArgV::Int("EPS_BITS"@, eps as i32),
        ],
        grid: (32, hv, rows),
        group: (32, 1, 1),
        outs: seq![out_of(seq![(rows * hv * dv) as i32], Dtype::Bfloat16)],
    }
}

/// Rows gated and normalized: laid out flat, run, and laid out by heads.
pub open spec fn gated_rms_s(
    k: KernelV,
    t: TapeV,
    y: Array,
    z: Array,
    w: Array,
    hv: i32,
    dv: i32,
    eps: u32,
) -> StepV {
    let b = y.shape@[0];
    let s = y.shape@[1];
    let rows = (b * s) as i32;
    let n = (rows * hv * dv) as i32;
    match relaid(t, y.t@, seq![n]) {
        (t1, Err(_)) => (k, t1, None),
        (t1, Ok(yf)) => match relaid(t1, z.t@, seq![rows, (hv * dv) as i32]) {
            (t2, Err(_)) => (k, t2, None),
            (t2, Ok(zf)) => {
                let (k1, t3, o) = call_s(k, t2, gated_rms_call(yf, zf, w.t@, hv, dv, rows, eps));
                match o {
                    None => (k1, t3, None),
                    Some(v) => match relaid(t3, v[0], seq![b, s, hv, dv]) {
                        (t4, Ok(a)) => (k1, t4, Some(seq![a])),
                        (t4, Err(_)) => (k1, t4, None),
                    },
                }
            },
        },
    }
}

fn gated_rms_run(
    kernel: &mut MetalKernel,
    tape: &mut Tape,
    y: &Array,
    zproj: &Array,
    w: &Array,
    hv: i32,
    dv: i32,
    rows: i32,
    eps: u32,
) -> (r: Option<Array>)
    requires
        y.wf(),
        zproj.wf(),
        w.wf(),
        ready(old(kernel)@, 1),
        sound_outputs(gated_rms_call(y.t@, zproj.t@, w.t@, hv, dv, rows, eps).outs),
        fits(rows * hv),
        fits(rows * hv * dv),
    ensures
        ({
            let (k1, t1, o) = call_s(old(kernel)@, old(tape)@, gated_rms_call(y.t@, zproj.t@, w.t@, hv, dv, rows, eps));
            &&& final(kernel)@ == k1
            &&& final(tape)@ == t1
            &&& got1(r, o)
            &&& r matches Some(a) ==> a.t@.shape() == sizes_of(seq![(rows * hv * dv) as i32])
        }),
        ready(final(kernel)@, 1),
{
    let n: i32 = rows * hv * dv;
    let ghost call = gated_rms_call(y.t@, zproj.t@, w.t@, hv, dv, rows, eps);
    let inputs: Vec<&Tensor> = vec![&y.t, &zproj.t, &w.t];
    let template: Vec<TemplateArg> = vec![
        TemplateArg::Dtype("InT", Dtype::Bfloat16),
        TemplateArg::Int("Hv", hv),
        TemplateArg::Int("Dv", dv),
        TemplateArg::Int("EPS_BITS", eps as i32),
    ];
    let outs: Vec<OutputArg> = vec![OutputArg { shape: vec![n], dtype: Dtype::Bfloat16 }];
    proof {
        assert(ref_views(inputs@) =~= call.inputs);
        assert(arg_list(template@) =~= call.template);
        assert(out_list(outs@) =~~= call.outs);
        assert(all_wf(call.inputs));
    }
    let made = launch(kernel, tape, &inputs, &template, (32, hv, rows), (32, 1, 1), &outs);
    first1(made)
}

/// Rows gated and normalized, head by head.
pub fn gated_rms(
    kernel: &mut MetalKernel,
    tape: &mut Tape,
    y: &Array,
    zproj: &Array,
    w: &Array,
    hv: i32,
    dv: i32,
    eps: u32,
) -> (r: Option<Array>)
    requires
        y.wf(),
        zproj.wf(),
        w.wf(),
        2 <= y.shape@.len() <= i32::MAX,
        ready(old(kernel)@, 1),
        ({
            let b = y.shape@[0];
            let s = y.shape@[1];
            let rows = b * s;
            let n = rows * hv * dv;
            &&& fits(rows)
            &&& fits(rows * hv)
            &&& 0 <= n <= i32::MAX
            &&& fits(hv * dv)
            &&& reshapes(y.t@.shape(), seq![n as i32])
            &&& reshapes(zproj.t@.shape(), seq![rows as i32, (hv * dv) as i32])
            &&& sound_outputs(seq![out_of(seq![n as i32], Dtype::Bfloat16)])
            &&& reshapes(seq![n as usize], seq![b, s, hv, dv])
        }),
    ensures
        ({
            let (k1, t1, o) = gated_rms_s(
                old(kernel)@,
                old(tape)@,
                *y,
                *zproj,
                *w,
                hv,
                dv,
                eps,
            );
            &&& final(kernel)@ == k1
            &&& final(tape)@ == t1
            &&& got1(r, o)
        }),
        ready(final(kernel)@, 1),
{
    let b = y.dim(0);
    let s = y.dim(1);
    let rows: i32 = b * s;
    let n: i32 = rows * hv * dv;
    let hw: i32 = hv * dv;
    let flat_shape = vec![n];
    let row_shape = vec![rows, hw];
    let out_shape = vec![b, s, hv, dv];
    proof {
        assert(flat_shape@ =~= seq![n]);
        assert(row_shape@ =~= seq![rows, hw]);
        assert(out_shape@ =~= seq![b, s, hv, dv]);
    }
    let yf = match y.reshape(tape, &flat_shape) {
        Ok(a) => a,
        Err(_) => {
            return None;
        },
    };
    let zf = match zproj.reshape(tape, &row_shape) {
        Ok(a) => a,
        Err(_) => {
            return None;
        },
    };
    match gated_rms_run(kernel, tape, &yf, &zf, w, hv, dv, rows, eps) {
        Some(flat) => {
            proof {
                assert(sizes_of(seq![n]) =~= seq![n as usize]);
            }
            match flat.reshape(tape, &out_shape) {
                Ok(a) => Some(a),
                Err(_) => None,
            }
        },
        None => None,
    }
}

/// The run that gates attention.
pub open spec fn attn_gate_call(att: ArrayV, gate: ArrayV, heads: i32, head_dim: i32, rows: i32) -> CallV {
    let hw = (heads * head_dim) as i32;
    CallV {
        inputs: seq![att, gate],
        template: seq![
            TemplateArgV::Dtype("InT"@, Dtype::Bfloat16),
            TemplateArgV::Int("HQ"@, heads),
            TemplateArgV::Int("D"@, head_dim),
        ],
        grid: (hw, rows, 1),
        group: (256, 1, 1),
        outs: seq![out_of(seq![rows, hw], Dtype::Bfloat16)],
    }
}

/// The rows of an attention result.
pub open spec fn attn_rows(att: Array, hw: int) -> i32 {
    (att.t@.count() / ((hw as i32 as usize) as nat)) as i32
}

/// Attention gated row by row.
pub open spec fn attn_gate_s(
    k: KernelV,
    t: TapeV,
    att: Array,
    gate: Array,
    heads: i32,
    head_dim: i32,
) -> StepV {
    let hw = (heads * head_dim) as i32;
    let rows = attn_rows(att, hw as int);
    match relaid(t, att.t@, seq![rows, hw]) {
        (t1, Err(_)) => (k, t1, None),
        (t1, Ok(a)) => match relaid(t1, gate.t@, seq![rows, hw]) {
            (t2, Err(_)) => (k, t2, None),
            (t2, Ok(g)) => call_s(k, t2, attn_gate_call(a, g, heads, head_dim, rows)),
        },
    }
}

fn attn_gate_run(
    kernel: &mut MetalKernel,
    tape: &mut Tape,
    att: &Array,
    gate: &Array,
    heads: i32,
    head_dim: i32,
    rows: i32,
) -> (r: Option<Array>)
    requires
        att.wf(),
        gate.wf(),
        ready(old(kernel)@, 1),
        sound_outputs(attn_gate_call(att.t@, gate.t@, heads, head_dim, rows).outs),
        fits(heads * head_dim),
    ensures
        ({
            let (k1, t1, o) = call_s(old(kernel)@, old(tape)@, attn_gate_call(att.t@, gate.t@, heads, head_dim, rows));
            &&& final(kernel)@ == k1
            &&& final(tape)@ == t1
            &&& got1(r, o)
        }),
        ready(final(kernel)@, 1),
{
    let hw: i32 = heads * head_dim;
    let ghost call = attn_gate_call(att.t@, gate.t@, heads, head_dim, rows);
    let inputs: Vec<&Tensor> = vec![&att.t, &gate.t];
    let template: Vec<TemplateArg> = vec![
        TemplateArg::Dtype("InT", Dtype::Bfloat16),
        TemplateArg::Int("HQ", heads),
        TemplateArg::Int("D", head_dim),
    ];
    let outs: Vec<OutputArg> = vec![OutputArg { shape: vec![rows, hw], dtype: Dtype::Bfloat16 }];
    proof {
        assert(ref_views(inputs@) =~= call.inputs);
        assert(arg_list(template@) =~= call.template);
        assert(out_list(outs@) =~~= call.outs);
        assert(all_wf(call.inputs));
    }
    let made = launch(kernel, tape, &inputs, &template, (hw, rows, 1), (256, 1, 1), &outs);
    first1(made)
}

/// Attention gated row by row.
pub fn attn_gate(
    kernel: &mut MetalKernel,
    tape: &mut Tape,
    att: &Array,
    gate: &Array,
    heads: i32,
    head_dim: i32,
) -> (r: Option<Array>)
    requires
        att.wf(),
        gate.wf(),
        ready(old(kernel)@, 1),
        0 < heads * head_dim <= i32::MAX,
        ({
            let hw = (heads * head_dim) as i32;
            let rows = attn_rows(*att, hw as int);
            &&& reshapes(att.t@.shape(), seq![rows, hw])
            &&& reshapes(gate.t@.shape(), seq![rows, hw])
            &&& sound_outputs(seq![out_of(seq![rows, hw], Dtype::Bfloat16)])
        }),
    ensures
        ({
            let (k1, t1, o) = attn_gate_s(
                old(kernel)@,
                old(tape)@,
                *att,
                *gate,
                heads,
                head_dim,
            );
            &&& final(kernel)@ == k1
            &&& final(tape)@ == t1
            &&& got1(r, o)
        }),
        ready(final(kernel)@, 1),
{
    let hw: i32 = heads * head_dim;
    let rows: i32 = (att.size() / hw as usize) as i32;
    let shape = vec![rows, hw];
    proof {
        assert(shape@ =~= seq![rows, hw]);
    }
    let a = match att.reshape(tape, &shape) {
        Ok(a) => a,
        Err(_) => {
            return None;
        },
    };
    let g = match gate.reshape(tape, &shape) {
        Ok(a) => a,
        Err(_) => {
            return None;
        },
    };
    attn_gate_run(kernel, tape, &a, &g, heads, head_dim, rows)
}

// ---- mixing ----

/// The run that mixes the residual streams.
pub open spec fn hc_mix_call(
    w: ArrayV,
    normed: ArrayV,
    inj: ArrayV,
    hc: i32,
    hidden: i32,
    rows: i32,
    has_inject: bool,
) -> CallV {
    CallV {
        inputs: seq![w, normed, inj],
        template: seq![
            TemplateArgV::Dtype("InT"@, Dtype::Bfloat16),
            TemplateArgV::Int("H"@, hidden),
            TemplateArgV::Int("W"@, (hc * hidden) as i32),
            TemplateArgV::Int("HC"@, hc),
            TemplateArgV::Int("LW"@, hc),
            TemplateArgV::Bool("HAS_INJECT"@, has_inject),
        ],
        grid: (hidden, rows, 1),
        group: (256, 1, 1),
        outs: seq![
            out_of(seq![rows, hidden], Dtype::Bfloat16),
            out_of(seq![rows, hc], Dtype::Bfloat16),
        ],
    }
}

/// The first columns of each row, packed.
pub open spec fn first_columns(t: TapeV, a: ArrayV, n: i32) -> (TapeV, Outcome) {
    match indexed(a, seq![IndexElem::All, IndexElem::Span(0, n)]) {
        Ok(c) => contiguous_s(t, c),
        Err(e) => (t, Err(e)),
    }
}

/// The residual streams mixed into one: the weights and the streams are laid out
/// by rows; without an injection the first columns stand in for it.
pub open spec fn hc_mix_s(
    k: KernelV,
    t: TapeV,
    w: Array,
    normed: Array,
    inj: Array,
    hc: i32,
    hidden: i32,
    rows: i32,
    has_inject: bool,
) -> StepV {
    let wide = (hc * hidden) as i32;
    match relaid(t, w.t@, seq![rows, wide]) {
        (t1, Err(_)) => (k, t1, None),
        (t1, Ok(wf)) => match relaid(t1, normed.t@, seq![rows, wide]) {
            (t2, Err(_)) => (k, t2, None),
            (t2, Ok(nf)) => match if has_inject {
                relaid(t2, inj.t@, seq![rows, hc])
            } else {
                first_columns(t2, nf, hc)
            } {
                (t3, Err(_)) => (k, t3, None),
                (t3, Ok(jf)) => call_s(
                    k,
                    t3,
                    hc_mix_call(wf, nf, jf, hc, hidden, rows, has_inject),
                ),
            },
        },
    }
}

fn hc_mix_run(
    kernel: &mut MetalKernel,
    tape: &mut Tape,
    w: &Array,
    normed: &Array,
    inj: &Array,
    hc: i32,
    hidden: i32,
    rows: i32,
    has_inject: bool,
) -> (r: Option<(Array, Array)>)
    requires
        w.wf(),
        normed.wf(),
        inj.wf(),
        ready(old(kernel)@, 2),
        sound_outputs(hc_mix_call(w.t@, normed.t@, inj.t@, hc, hidden, rows, has_inject).outs),
        fits(hc * hidden),
    ensures
        ({
            let (k1, t1, o) = call_s(old(kernel)@, old(tape)@, hc_mix_call(w.t@, normed.t@, inj.t@, hc, hidden, rows, has_inject));
            &&& final(kernel)@ == k1
            &&& final(tape)@ == t1
            &&& got2(r, o)
        }),
        ready(final(kernel)@, 2),
{
    let wide: i32 = hc * hidden;
    let ghost call = hc_mix_call(w.t@, normed.t@, inj.t@, hc, hidden, rows, has_inject);
    let inputs: Vec<&Tensor> = vec![&w.t, &normed.t, &inj.t];
    let template: Vec<TemplateArg> = vec![
        TemplateArg::Dtype("InT", Dtype::Bfloat16),
        TemplateArg::Int("H", hidden),
        TemplateArg::Int("W", wide),
        TemplateArg::Int("HC", hc),
        TemplateArg::Int("LW", hc),
        TemplateArg::Bool("HAS_INJECT", has_inject),
    ];
    let outs: Vec<OutputArg> = vec![
        OutputArg { shape: vec![rows, hidden], dtype: Dtype::Bfloat16 },
        OutputArg { shape: vec![rows, hc], dtype: Dtype::Bfloat16 },
    ];
    proof {
        assert(ref_views(inputs@) =~= call.inputs);
        assert(arg_list(template@) =~= call.template);
        assert(out_list(outs@) =~~= call.outs);
        assert(all_wf(call.inputs));
    }
    let made = launch(kernel, tape, &inputs, &template, (hidden, rows, 1), (256, 1, 1), &outs);
    first2(made)
}

/// The residual streams mixed into one, and what is to be injected into each.
pub fn hc_mix(
    kernel: &mut MetalKernel,
    tape: &mut Tape,
    w: &Array,
    normed: &Array,
    inj: &Array,
    hc: i32,
    hidden: i32,
    rows: i32,
    has_inject: bool,
) -> (r: Option<(Array, Array)>)
    requires
        w.wf(),
        normed.wf(),
        inj.wf(),
        ready(old(kernel)@, 2),
        hc >= 0,
        hidden >= 0,
        rows >= 0,
        fits(hc * hidden),
        ({
            let wide = (hc * hidden) as i32;
            &&& reshapes(w.t@.shape(), seq![rows, wide])
            &&& reshapes(normed.t@.shape(), seq![rows, wide])
            &&& has_inject ==> reshapes(inj.t@.shape(), seq![rows, hc])
            &&& filled(normed.t@.shape(), seq![rows, wide])[0] <= i32::MAX
            &&& filled(normed.t@.shape(), seq![rows, wide])[1] <= i32::MAX
        }),
        sound_outputs(
            seq![
                out_of(seq![rows, hidden], Dtype::Bfloat16),
                out_of(seq![rows, hc], Dtype::Bfloat16),
            ],
        ),
    ensures
        ({
            let (k1, t1, o) = hc_mix_s(
                old(kernel)@,
                old(tape)@,
                *w,
                *normed,
                *inj,
                hc,
                hidden,
                rows,
                has_inject,
            );
            &&& final(kernel)@ == k1
            &&& final(tape)@ == t1
            &&& got2(r, o)
        }),
        ready(final(kernel)@, 2),
{
    let wide: i32 = hc * hidden;
    let shape = vec![rows, wide];
    let small = vec![rows, hc];
    proof {
        assert(shape@ =~= seq![rows, wide]);
        assert(small@ =~= seq![rows, hc]);
    }
    let wf = match w.reshape(tape, &shape) {
        Ok(a) => a,
        Err(_) => {
            return None;
        },
    };
    let nf = match normed.reshape(tape, &shape) {
        Ok(a) => a,
        Err(_) => {
            return None;
        },
    };
    let jf = if has_inject {
        match inj.reshape(tape, &small) {
            Ok(a) => a,
            Err(_) => {
                return None;
            },
        }
    } else {
        let span = vec![IndexElem::All, IndexElem::Span(0, hc)];
        proof {
            assert(span@ =~= seq![IndexElem::All, IndexElem::Span(0, hc)]);
            lemma_filled_len(normed.t@.shape(), seq![rows, wide]);
            lemma_columns(nf.t@, hc);
        }
        match index_seq(&nf.t, &span) {
            Ok(c) => match c.contiguous(tape) {
                Ok(p) => Array::new(p),
                Err(_) => {
                    return None;
                },
            },
            Err(_) => {
                return None;
            },
        }
    };
    hc_mix_run(kernel, tape, &wf, &nf, &jf, hc, hidden, rows, has_inject)
}

/// The first columns of a matrix can be picked.
proof fn lemma_columns(a: ArrayV, n: i32)
    requires
        a.wf(),
        a.rank() == 2,
        a.shape()[0] <= i32::MAX,
        a.shape()[1] <= i32::MAX,
        n >= 0,
    ensures
        indexable(a, seq![IndexElem::All, IndexElem::Span(0, n)]),
{
    let e = seq![IndexElem::All, IndexElem::Span(0, n)];
    reveal_with_fuel(crate::index::used, 3);
    reveal_with_fuel(crate::index::axis_at, 3);
    assert(crate::index::picked_to(a, e, 0) == Outcome::Ok(a));
    assert(crate::index::picked_to(a, e, 1) == Outcome::Ok(a)) by {
        assert(e[0] == IndexElem::All);
        assert(crate::index::axis_at(e, 2, 0) == 0);
    }
    assert forall|k: int| 0 <= k < e.len() implies 0 <= #[trigger] crate::index::axis_at(
        e,
        a.rank(),
        k,
    ) <= a.rank() by {
        assert(k == 0 || k == 1);
    }
    assert(crate::index::slice_of(e[0], a.shape()[0]).0 == 0);
    assert(crate::index::slice_of(e[1], a.shape()[1]).0 == 0);
    let (s0, s1) = (a.strides()[0] as int, a.strides()[1] as int);
    assert(0 * s0 == 0 && 0 * s1 == 0) by (nonlinear_arith);
    assert(crate::index::axis_at(e, a.rank(), 1) == 1);
    assert forall|k: int| 0 <= k < e.len() && !e[k].rest() implies match #[trigger] crate::index::picked_to(
        a,
        e,
        k,
    ) {
        Ok(b) => {
            let d = crate::index::axis_at(e, a.rank(), k);
            let s = crate::index::slice_of(e[k], b.shape()[d]);
            &&& d < b.rank()
            &&& b.shape()[d] <= i32::MAX
            &&& s.0 + s.1 <= usize::MAX
            &&& s.0 + s.1 <= b.shape()[d] ==> (b.layout.offset + s.0 * b.strides()[d])
                * crate::dtype::width(b.dtype) <= usize::MAX
        },
        Err(_) => true,
    } by {
        assert(k == 0 || k == 1);
    }
}

/// The run that injects an output into the streams and normalizes them.
pub open spec fn inject_norm_call(
    residual: ArrayV,
    out: Option<ArrayV>,
    inject: Option<ArrayV>,
    scale: ArrayV,
    hc: i32,
    hidden: i32,
    rows: i32,
    tile: bool,
    eps: u32,
) -> CallV {
    let w = (hc * hidden) as i32;
    let quarter = (hidden / 4) as i32;
    CallV {
        inputs: seq![
            residual,
            match out {
                Some(a) => a,
                None => residual,
            },
            match inject {
                Some(a) => a,
                None => residual,
            },
            scale,
        ],
        template: seq![
            TemplateArgV::Dtype("InT"@, Dtype::Bfloat16),
            TemplateArgV::Int("H"@, hidden),
            TemplateArgV::Int("W"@, w),
            TemplateArgV::Int("HC"@, hc),
            TemplateArgV::Bool("HAS_INJECT"@, out is Some && inject is Some),
            TemplateArgV::Bool("TILE"@, tile),
            TemplateArgV::Int("EPS_BITS"@, eps as i32),
        ],
        grid: (quarter, hc, rows),
        group: (quarter, 1, 1),
        outs: seq![
            out_of(seq![rows, w], Dtype::Bfloat16),
            out_of(seq![rows, w], Dtype::Bfloat16),
        ],
    }
}

/// What is inside an array that may be left out.
pub open spec fn maybe(a: Option<&Array>) -> Option<ArrayV> {
    match a {
        Some(x) => Some(x.t@),
        None => None,
    }
}

/// An output injected into the streams, and the streams normalized.
pub fn inject_norm(
    kernel: &mut MetalKernel,
    tape: &mut Tape,
    residual: &Array,
    out: Option<&Array>,
    inject: Option<&Array>,
    scale: &Array,
    hc: i32,
    hidden: i32,
    rows: i32,
    tile: bool,
    eps: u32,
) -> (r: Option<(Array, Array)>)
    requires
        residual.wf(),
        scale.wf(),
        out matches Some(a) ==> a.wf(),
        inject matches Some(a) ==> a.wf(),
        ready(old(kernel)@, 2),
        hidden >= 0,
        rows >= 0,
        fits(hc * hidden),
        sound_outputs(
            seq![
                out_of(seq![rows, (hc * hidden) as i32], Dtype::Bfloat16),
                out_of(seq![rows, (hc * hidden) as i32], Dtype::Bfloat16),
            ],
        ),
    ensures
        ({
            let (k1, t1, o) = call_s(
                old(kernel)@,
                old(tape)@,
                inject_norm_call(
                    residual.t@,
                    maybe(out),
                    maybe(inject),
                    scale.t@,
                    hc,
                    hidden,
                    rows,
                    tile,
                    eps,
                ),
            );
            &&& final(kernel)@ == k1
            &&& final(tape)@ == t1
            &&& got2(r, o)
        }),
        ready(final(kernel)@, 2),
{
    let has_inject = out.is_some() && inject.is_some();
    let w: i32 = hc * hidden;
    let out_a = match out {
        Some(a) => a,
        None => residual,
    };
    let inject_a = match inject {
        Some(a) => a,
        None => residual,
    };
    let ghost call = inject_norm_call(
        residual.t@,
        maybe(out),
        maybe(inject),
        scale.t@,
        hc,
        hidden,
        rows,
        tile,
        eps,
    );
    let inputs: Vec<&Tensor> = vec![&residual.t, &out_a.t, &inject_a.t, &scale.t];
    let template: Vec<TemplateArg> = vec![
        TemplateArg::Dtype("InT", Dtype::Bfloat16),
        TemplateArg::Int("H", hidden),
        TemplateArg::Int("W", w),
        TemplateArg::Int("HC", hc),
        TemplateArg::Bool("HAS_INJECT", has_inject),
        TemplateArg::Bool("TILE", tile),
        TemplateArg::Int("EPS_BITS", eps as i32),
    ];
    let outs: Vec<OutputArg> = vec![
        OutputArg { shape: vec![rows, w], dtype: Dtype::Bfloat16 },
        OutputArg { shape: vec![rows, w], dtype: Dtype::Bfloat16 },
    ];
    proof {
        assert(ref_views(inputs@) =~= call.inputs);
        assert(arg_list(template@) =~= call.template);
        assert(out_list(outs@) =~~= call.outs);
        assert(all_wf(call.inputs));
    }
    let made = launch(
        kernel,
        tape,
        &inputs,
        &template,
        (hidden / 4, hc, rows),
        (hidden / 4, 1, 1),
        &outs,
    );
    first2(made)
}

// ---- rows of a cache ----

/// The kernel that writes rows into a cache.
pub fn copy_rows_kernel(source: &str) -> (r: Option<MetalKernel>)
    ensures
        r matches Some(k) && k@ == new_kernel(
            "track_copy_rows_into"@,
            copy_rows_inputs(),
            seq!["out"@],
            source@,
            ""@,
            false,
        ) && ready(k@, 1),
{
    let ins: Vec<&str> = vec!["src", "dst", "off"];
    let outs: Vec<&str> = vec!["out"];
    proof {
        assert(str_views(ins@) =~= seq!["src"@, "dst"@, "off"@]);
        assert(str_views(outs@) =~= seq!["out"@]);
    }
    match MetalKernel::new("track_copy_rows_into", &ins, &outs, source, "", true, false) {
        Ok(k) => Some(k),
        Err(_) => None,
    }
}

/// The run that writes rows into a cache.
pub open spec fn copy_rows_call(src: Array, dst: Array, off: ArrayV) -> CallV {
    CallV {
        inputs: seq![src.t@, dst.t@, off],
        template: Seq::empty(),
        grid: (src.t@.count() as i32, 1, 1),
        group: (256, 1, 1),
        outs: seq![out_of(dst.shape@, Dtype::Bfloat16)],
    }
}

/// Rows written into a cache from an offset on. The cache is an input, for the
/// order of runs, and the output.
pub open spec fn copy_rows_s(k: KernelV, t: TapeV, src: Array, dst: Array, off: i32) -> StepV {
    let (t1, n) = scalar_raw_s(t, off as i64, Dtype::Int32);
    call_into_s(k, t1, copy_rows_call(src, dst, n->Ok_0), seq![dst.t@])
}

/// Signed sizes as a vector of their own.
pub(crate) fn owned_shape(s: &[i32]) -> (v: Vec<i32>)
    ensures
        v@ == s@,
{
    let mut v: Vec<i32> = Vec::new();
    let mut i: usize = 0;
    while i < s.len()
        invariant
            i <= s@.len(),
            v@ == s@.take(i as int),
        decreases s.len() - i,
    {
        v.push(s[i]);
        i += 1;
        assert(v@ =~= s@.take(i as int));
    }
    assert(v@ =~= s@);
    v
}

/// Rows written into a cache from an offset on.
pub fn copy_rows_into(
    kernel: &mut MetalKernel,
    tape: &mut Tape,
    src: &Array,
    dst: &Array,
    off: i32,
) -> (r: Option<Array>)
    requires
        src.wf(),
        dst.wf(),
        ready(old(kernel)@, 1),
        sound_outputs(seq![out_of(dst.shape@, Dtype::Bfloat16)]),
    ensures
        ({
            let (k1, t1, o) = copy_rows_s(old(kernel)@, old(tape)@, *src, *dst, off);
            &&& final(kernel)@ == k1
            &&& final(tape)@ == t1
            &&& got1(r, o)
        }),
        ready(final(kernel)@, 1),
{
    let off_a = number(tape, off);
    let ghost call = copy_rows_call(*src, *dst, off_a.t@);
    let inputs: Vec<&Tensor> = vec![&src.t, &dst.t, &off_a.t];
    let template: Vec<TemplateArg> = Vec::new();
    let outs: Vec<OutputArg> = vec![
        OutputArg { shape: owned_shape(dst.shape()), dtype: Dtype::Bfloat16 },
    ];
    let into: Vec<Tensor> = vec![dst.t.duplicate()];
    proof {
        assert(ref_views(inputs@) =~= call.inputs);
        assert(arg_list(template@) =~= call.template);
        assert(out_list(outs@) =~~= call.outs);
        assert(array_views(into@) =~= seq![dst.t@]);
        assert(all_wf(call.inputs));
        assert(all_wf(array_views(into@)));
    }
    let made = launch_into(
        kernel,
        tape,
        &inputs,
        &template,
        (src.size() as i32, 1, 1),
        (256, 1, 1),
        &outs,
        &into,
    );
    first1(made)
}

// ---- one whole step ----

/// One whole step of the recurrence: the gated rows, its state and the
/// convolution's state.
pub fn gdn_decode_complete(
    kernel: &mut MetalKernel,
    tape: &mut Tape,
    proj: &Array,
    conv_state: &Array,
    conv_w: &Array,
    neg_exp_alog: &Array,
    dt_bias: &Array,
    state_in: &Array,
    norm_w: &Array,
    hk: i32,
    hv: i32,
    dk: i32,
    dv: i32,
    kc: i32,
    conv_dim: i32,
    pw: i32,
    b_off: i32,
    a_off: i32,
    z_off: i32,
    eps: u32,
) -> (r: Option<(Array, Array, Array)>)
    requires
        proj.wf(),
        conv_state.wf(),
        conv_w.wf(),
        neg_exp_alog.wf(),
        dt_bias.wf(),
        state_in.wf(),
        norm_w.wf(),
        0 < proj.shape@.len() <= i32::MAX,
        dv >= 0,
        fits(hv * dv),
        fits(kc - 1),
        fits(proj.shape@[0] * hv),
        ready(old(kernel)@, 3),
        sound_outputs(
            gdn_decode_step_call(
                *proj,
                *conv_state,
                *conv_w,
                *neg_exp_alog,
                *dt_bias,
                *state_in,
                *norm_w,
                hk,
                hv,
                dk,
                dv,
                kc,
                conv_dim,
                pw,
                b_off,
                a_off,
                z_off,
                eps,
            ).outs,
        ),
    ensures
        ({
            let (k1, t1, o) = call_s(
                old(kernel)@,
                old(tape)@,
                gdn_decode_step_call(
                    *proj,
                    *conv_state,
                    *conv_w,
                    *neg_exp_alog,
                    *dt_bias,
                    *state_in,
                    *norm_w,
                    hk,
                    hv,
                    dk,
                    dv,
                    kc,
                    conv_dim,
                    pw,
                    b_off,
                    a_off,
                    z_off,
                    eps,
                ),
            );
            &&& final(kernel)@ == k1
            &&& final(tape)@ == t1
            &&& match r {
                Some((gated, state, conv)) => got3(Some((state, gated, conv)), o),
                None => o is None,
            }
        }),
        ready(final(kernel)@, 3),
{
    match crate::kernels::gdn_decode_step(
        kernel,
        tape,
        proj,
        conv_state,
        conv_w,
        neg_exp_alog,
        dt_bias,
        state_in,
        norm_w,
        hk,
        hv,
        dk,
        dv,
        kc,
        conv_dim,
        pw,
        b_off,
        a_off,
        z_off,
        eps,
    ) {
        Some((state, gated, conv)) => Some((gated, state, conv)),
        None => None,
    }
}

} // verus!
