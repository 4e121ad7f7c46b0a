//! Fused steps of the model: preparation, gating, mixing and the recurrence.

use vstd::prelude::*;

use crate::array::{Array as Tensor};
use crate::calls::{
    call_s, first1, first2, first3, first6, fits, got1, got2, got3, got6, launch, out_of, ready, CallV,
};
use crate::dtype::Dtype;
use crate::facade::Array;
use crate::kernel::{
    all_wf, arg_list, new_kernel, out_list, ref_views, sound_outputs, MetalKernel, OutputArg,
    TemplateArg, TemplateArgV,
};
use crate::tape::Tape;
use crate::text::str_views;

verus! {

/// The inputs of the kernel, by name.
pub open spec fn gdn_decode_inputs() -> Seq<Seq<char>> {
    seq!["proj"@, "conv_state"@, "conv_w"@, "neg_exp_alog"@, "dt_bias"@, "state_in"@, "w"@]
}

/// The inputs of the kernel, by name.
pub open spec fn attn_gate_inputs() -> Seq<Seq<char>> {
    seq!["att"@, "gateb"@]
}

/// The inputs of the kernel, by name.
pub open spec fn attn_prep_inputs() -> Seq<Seq<char>> {
    seq!["qkv"@, "kproj"@, "vproj"@, "qnorm"@, "knorm"@, "cosb"@, "sinb"@]
}

/// The inputs of the kernel, by name.
pub open spec fn router_gemv_inputs() -> Seq<Seq<char>> {
    seq!["x"@, "w"@]
}

/// The inputs of the kernel, by name.
pub open spec fn ple_conv_inputs() -> Seq<Seq<char>> {
    seq!["full"@, "convw"@, "gated"@]
}

/// The inputs of the kernel, by name.
pub open spec fn ple_gated_inputs() -> Seq<Seq<char>> {
    seq!["g0"@, "value"@, "cscale"@, "divisor"@, "floorv"@, "eps"@]
}

/// The inputs of the kernel, by name.
pub open spec fn ple_prod_inputs() -> Seq<Seq<char>> {
    seq!["keyFlat"@, "stream"@, "kscale"@, "qscale"@, "eps"@]
}

/// The inputs of the kernel, by name.
pub open spec fn swiglu2_inputs() -> Seq<Seq<char>> {
    seq!["gate"@, "up"@]
}

/// The inputs of the kernel, by name.
pub open spec fn hc_mix_inputs() -> Seq<Seq<char>> {
    seq!["w"@, "normed"@, "inj"@]
}

/// The inputs of the kernel, by name.
pub open spec fn gated_rms_inputs() -> Seq<Seq<char>> {
    seq!["y"@, "zproj"@, "w"@]
}

/// The inputs of the kernel, by name.
pub open spec fn gdn_prep_fused_inputs() -> Seq<Seq<char>> {
    seq!["proj"@, "conv_state"@, "conv_w"@, "neg_exp_alog"@, "dt_bias"@]
}

/// The inputs of the kernel, by name.
pub open spec fn gdn_prep_inputs() -> Seq<Seq<char>> {
    seq!["proj"@, "conv_state"@, "conv_w"@, "neg_exp_alog"@, "dt_bias"@, "b_gate"@, "a_gate"@]
}

/// The inputs of the kernel, by name.
pub open spec fn moe_combine_inputs() -> Seq<Seq<char>> {
    seq!["routed"@, "w"@, "shared"@, "gate"@, "inverse_order"@]
}

/// The kernel that adds up the experts of each token.
pub fn moe_combine_kernel(source: &str, header: &str) -> (r: Option<MetalKernel>)
    ensures
        r matches Some(k) && k@ == new_kernel(
            "track_p12_moe_sorted_combine"@,
            moe_combine_inputs(),
            seq!["out"@],
            source@,
            header@,
            false,
        ) && ready(k@, 1),
{
    let ins: Vec<&str> = vec!["routed", "w", "shared", "gate", "inverse_order"];
    let outs: Vec<&str> = vec!["out"];
    proof {
        assert(str_views(ins@) =~= seq!["routed"@, "w"@, "shared"@, "gate"@, "inverse_order"@]);
        assert(str_views(outs@) =~= seq!["out"@]);
    }
    match MetalKernel::new("track_p12_moe_sorted_combine", &ins, &outs, source, header, true, false) {
        Ok(k) => Some(k),
        Err(_) => None,
    }
}

/// The experts of each token, read in sorted order through the inverse order, weighted and added to the shared expert.
pub open spec fn moe_combine_call(
    routed: Array,
    w: Array,
    inverse_order: Array,
    shared: Array,
    gate: Array,
    top_k: i32,
    h: i32,
    rows: i32,
) -> CallV {
    CallV {
        inputs: seq![routed.t@, w.t@, shared.t@, gate.t@, inverse_order.t@],
        template: seq![TemplateArgV::Dtype("InT"@, Dtype::Bfloat16), TemplateArgV::Int("K"@, top_k), TemplateArgV::Int("H"@, h)],
        grid: (h, rows, 1),
        group: (256, 1, 1),
        outs: seq![out_of(seq![rows, h], Dtype::Bfloat16)],
    }
}

/// The experts of each token, read in sorted order through the inverse order, weighted and added to the shared expert.
pub fn moe_combine(
    kernel: &mut MetalKernel,
    tape: &mut Tape,
    routed: &Array,
    w: &Array,
    inverse_order: &Array,
    shared: &Array,
    gate: &Array,
    top_k: i32,
    h: i32,
    rows: i32,
) -> (r: Option<Array>)
    requires
        routed.wf(),
        w.wf(),
        inverse_order.wf(),
        shared.wf(),
        gate.wf(),
        ready(old(kernel)@, 1),
        sound_outputs(moe_combine_call(*routed, *w, *inverse_order, *shared, *gate, top_k, h, rows).outs),
    ensures
        ({
            let (k1, t1, o) = call_s(
                old(kernel)@,
                old(tape)@,
                moe_combine_call(*routed, *w, *inverse_order, *shared, *gate, top_k, h, rows),
            );
            &&& final(kernel)@ == k1
            &&& final(tape)@ == t1
            &&& got1(r, o)
        }),
        ready(final(kernel)@, 1),
{
    let ghost call = moe_combine_call(*routed, *w, *inverse_order, *shared, *gate, top_k, h, rows);
    let inputs: Vec<&Tensor> = vec![&routed.t, &w.t, &shared.t, &gate.t, &inverse_order.t];
    let template: Vec<TemplateArg> = vec![
        TemplateArg::Dtype("InT", Dtype::Bfloat16),
        TemplateArg::Int("K", top_k),
        TemplateArg::Int("H", h),
    ];
    let outs: Vec<OutputArg> = vec![
        OutputArg { shape: vec![rows, h], dtype: Dtype::Bfloat16 },
    ];
    proof {
        assert(ref_views(inputs@) =~= call.inputs);
        assert(arg_list(template@) =~= call.template);
        assert(out_list(outs@) =~~= call.outs);
        assert(all_wf(call.inputs));
    }
    let made = launch(
        kernel,
        tape,
        &inputs,
        &template,
        (h, rows, 1),
        (256, 1, 1),
        &outs,
    );
    first1(made)
}

/// The kernel that prepares the recurrence from split projections.
pub fn gdn_prep_kernel(source: &str, header: &str) -> (r: Option<MetalKernel>)
    ensures
        r matches Some(k) && k@ == new_kernel(
            "track_p12_gdn_prep_split_inputs"@,
            gdn_prep_inputs(),
            seq!["qn"@, "kn"@, "vv"@, "g"@, "beta"@, "conv_out"@],
            source@,
            header@,
            false,
        ) && ready(k@, 6),
{
    let ins: Vec<&str> = vec!["proj", "conv_state", "conv_w", "neg_exp_alog", "dt_bias", "b_gate", "a_gate"];
    let outs: Vec<&str> = vec!["qn", "kn", "vv", "g", "beta", "conv_out"];
    proof {
        assert(str_views(ins@) =~= seq!["proj"@, "conv_state"@, "conv_w"@, "neg_exp_alog"@, "dt_bias"@, "b_gate"@, "a_gate"@]);
        assert(str_views(outs@) =~= seq!["qn"@, "kn"@, "vv"@, "g"@, "beta"@, "conv_out"@]);
    }
    match MetalKernel::new("track_p12_gdn_prep_split_inputs", &ins, &outs, source, header, true, false) {
        Ok(k) => Some(k),
        Err(_) => None,
    }
}

/// The convolution, the norms and the gates of the recurrence, from split projections.
pub open spec fn gdn_prep_call(
    qkv: Array,
    conv_state: Array,
    conv_w: Array,
    neg_exp_alog: Array,
    dt_bias: Array,
    b_gate: Array,
    a_gate: Array,
    t_len: i32,
    hk: i32,
    hv: i32,
    dk: i32,
    dv: i32,
    kc: i32,
    conv_dim: i32,
) -> CallV {
    let b = qkv.shape@[0];
    let bt = (b * t_len) as i32;
    let tail = (kc - 1) as i32;
    let lanes = (conv_dim / 128) as i32;
    CallV {
        inputs: seq![qkv.t@, conv_state.t@, conv_w.t@, neg_exp_alog.t@, dt_bias.t@, b_gate.t@, a_gate.t@],
        template: seq![TemplateArgV::Dtype("InT"@, Dtype::Bfloat16), TemplateArgV::Int("T"@, t_len), TemplateArgV::Int("Dk"@, dk), TemplateArgV::Int("Dv"@, dv), TemplateArgV::Int("Hk"@, hk), TemplateArgV::Int("Hv"@, hv), TemplateArgV::Int("KC"@, kc), TemplateArgV::Int("PROJ_W"@, conv_dim), TemplateArgV::Int("CONV_DIM"@, conv_dim), TemplateArgV::Int("B_OFF"@, 0), TemplateArgV::Int("A_OFF"@, 0)],
        grid: (32, lanes, bt),
        group: (32, 4, 1),
        outs: seq![out_of(seq![b, t_len, hk, dk], Dtype::Bfloat16), out_of(seq![b, t_len, hk, dk], Dtype::Bfloat16), out_of(seq![b, t_len, hv, dv], Dtype::Bfloat16), out_of(seq![b, t_len, hv], Dtype::Float32), out_of(seq![b, t_len, hv], Dtype::Float32), out_of(seq![b, tail, conv_dim], Dtype::Bfloat16)],
    }
}

/// The convolution, the norms and the gates of the recurrence, from split projections.
pub fn gdn_prep(
    kernel: &mut MetalKernel,
    tape: &mut Tape,
    qkv: &Array,
    conv_state: &Array,
    conv_w: &Array,
    neg_exp_alog: &Array,
    dt_bias: &Array,
    b_gate: &Array,
    a_gate: &Array,
    t_len: i32,
    hk: i32,
    hv: i32,
    dk: i32,
    dv: i32,
    kc: i32,
    conv_dim: i32,
) -> (r: Option<(Array, Array, Array, Array, Array, Array)>)
    requires
        qkv.wf(),
        conv_state.wf(),
        conv_w.wf(),
        neg_exp_alog.wf(),
        dt_bias.wf(),
        b_gate.wf(),
        a_gate.wf(),
        0 < qkv.shape@.len() <= i32::MAX,
        conv_dim >= 0,
        ({ let b = qkv.shape@[0]; (fits(b * t_len) && { let bt = (b * t_len) as i32; (fits(kc - 1) && { let tail = (kc - 1) as i32; fits(conv_dim / 128) }) }) }),
        ready(old(kernel)@, 6),
        sound_outputs(gdn_prep_call(*qkv, *conv_state, *conv_w, *neg_exp_alog, *dt_bias, *b_gate, *a_gate, t_len, hk, hv, dk, dv, kc, conv_dim).outs),
    ensures
        ({
            let (k1, t1, o) = call_s(
                old(kernel)@,
                old(tape)@,
                gdn_prep_call(*qkv, *conv_state, *conv_w, *neg_exp_alog, *dt_bias, *b_gate, *a_gate, t_len, hk, hv, dk, dv, kc, conv_dim),
            );
            &&& final(kernel)@ == k1
            &&& final(tape)@ == t1
            &&& got6(r, o)
        }),
        ready(final(kernel)@, 6),
{
    let ghost call = gdn_prep_call(*qkv, *conv_state, *conv_w, *neg_exp_alog, *dt_bias, *b_gate, *a_gate, t_len, hk, hv, dk, dv, kc, conv_dim);
    let b = qkv.dim(0);
    let bt: i32 = b * t_len;
    let tail: i32 = kc - 1;
    let lanes: i32 = conv_dim / 128;
    let inputs: Vec<&Tensor> = vec![&qkv.t, &conv_state.t, &conv_w.t, &neg_exp_alog.t, &dt_bias.t, &b_gate.t, &a_gate.t];
    let template: Vec<TemplateArg> = vec![
        TemplateArg::Dtype("InT", Dtype::Bfloat16),
        TemplateArg::Int("T", t_len),
        TemplateArg::Int("Dk", dk),
        TemplateArg::Int("Dv", dv),
        TemplateArg::Int("Hk", hk),
        TemplateArg::Int("Hv", hv),
        TemplateArg::Int("KC", kc),
        TemplateArg::Int("PROJ_W", conv_dim),
        TemplateArg::Int("CONV_DIM", conv_dim),
        TemplateArg::Int("B_OFF", 0),
        TemplateArg::Int("A_OFF", 0),
    ];
    let outs: Vec<OutputArg> = vec![
        OutputArg { shape: vec![b, t_len, hk, dk], dtype: Dtype::Bfloat16 },
        OutputArg { shape: vec![b, t_len, hk, dk], dtype: Dtype::Bfloat16 },
        OutputArg { shape: vec![b, t_len, hv, dv], dtype: Dtype::Bfloat16 },
        OutputArg { shape: vec![b, t_len, hv], dtype: Dtype::Float32 },
        OutputArg { shape: vec![b, t_len, hv], dtype: Dtype::Float32 },
        OutputArg { shape: vec![b, tail, conv_dim], dtype: Dtype::Bfloat16 },
    ];
    proof {
        assert(ref_views(inputs@) =~= call.inputs);
        assert(arg_list(template@) =~= call.template);
        assert(out_list(outs@) =~~= call.outs);
        assert(all_wf(call.inputs));
    }
    let made = launch(
        kernel,
        tape,
        &inputs,
        &template,
        (32, lanes, bt),
        (32, 4, 1),
        &outs,
    );
    first6(made)
}

/// The kernel that prepares the recurrence from one projection.
pub fn gdn_prep_fused_kernel(source: &str, header: &str) -> (r: Option<MetalKernel>)
    ensures
        r matches Some(k) && k@ == new_kernel(
            "track_gdn_prep"@,
            gdn_prep_fused_inputs(),
            seq!["qn"@, "kn"@, "vv"@, "g"@, "beta"@, "conv_out"@],
            source@,
            header@,
            false,
        ) && ready(k@, 6),
{
    let ins: Vec<&str> = vec!["proj", "conv_state", "conv_w", "neg_exp_alog", "dt_bias"];
    let outs: Vec<&str> = vec!["qn", "kn", "vv", "g", "beta", "conv_out"];
    proof {
        assert(str_views(ins@) =~= seq!["proj"@, "conv_state"@, "conv_w"@, "neg_exp_alog"@, "dt_bias"@]);
        assert(str_views(outs@) =~= seq!["qn"@, "kn"@, "vv"@, "g"@, "beta"@, "conv_out"@]);
    }
    match MetalKernel::new("track_gdn_prep", &ins, &outs, source, header, true, false) {
        Ok(k) => Some(k),
        Err(_) => None,
    }
}

/// The convolution, the norms and the gates of the recurrence, from one projection.
pub open spec fn gdn_prep_fused_call(
    proj: Array,
    conv_state: Array,
    conv_w: Array,
    neg_exp_alog: Array,
    dt_bias: Array,
    b_off: i32,
    a_off: i32,
    t_len: i32,
    hk: i32,
    hv: i32,
    dk: i32,
    dv: i32,
    kc: i32,
    proj_w: i32,
    conv_dim: i32,
) -> CallV {
    let b = proj.shape@[0];
    let bt = (b * t_len) as i32;
    let tail = (kc - 1) as i32;
    let lanes = (conv_dim / 128) as i32;
    CallV {
        inputs: seq![proj.t@, conv_state.t@, conv_w.t@, neg_exp_alog.t@, dt_bias.t@],
        template: seq![TemplateArgV::Dtype("InT"@, Dtype::Bfloat16), TemplateArgV::Int("T"@, t_len), TemplateArgV::Int("Dk"@, dk), TemplateArgV::Int("Dv"@, dv), TemplateArgV::Int("Hk"@, hk), TemplateArgV::Int("Hv"@, hv), TemplateArgV::Int("KC"@, kc), TemplateArgV::Int("PROJ_W"@, proj_w), TemplateArgV::Int("CONV_DIM"@, conv_dim), TemplateArgV::Int("B_OFF"@, b_off), TemplateArgV::Int("A_OFF"@, a_off)],
        grid: (32, lanes, bt),
        group: (32, 4, 1),
        outs: seq![out_of(seq![b, t_len, hk, dk], Dtype::Bfloat16), out_of(seq![b, t_len, hk, dk], Dtype::Bfloat16), out_of(seq![b, t_len, hv, dv], Dtype::Bfloat16), out_of(seq![b, t_len, hv], Dtype::Float32), out_of(seq![b, t_len, hv], Dtype::Float32), out_of(seq![b, tail, conv_dim], Dtype::Bfloat16)],
    }
}

/// The convolution, the norms and the gates of the recurrence, from one projection.
pub fn gdn_prep_fused(
    kernel: &mut MetalKernel,
    tape: &mut Tape,
    proj: &Array,
    conv_state: &Array,
    conv_w: &Array,
    neg_exp_alog: &Array,
    dt_bias: &Array,
    b_off: i32,
    a_off: i32,
    t_len: i32,
    hk: i32,
    hv: i32,
    dk: i32,
    dv: i32,
    kc: i32,
    proj_w: i32,
    conv_dim: i32,
) -> (r: Option<(Array, Array, Array, Array, Array, Array)>)
    requires
        proj.wf(),
        conv_state.wf(),
        conv_w.wf(),
        neg_exp_alog.wf(),
        dt_bias.wf(),
        0 < proj.shape@.len() <= i32::MAX,
        conv_dim >= 0,
        ({ let b = proj.shape@[0]; (fits(b * t_len) && { let bt = (b * t_len) as i32; (fits(kc - 1) && { let tail = (kc - 1) as i32; fits(conv_dim / 128) }) }) }),
        ready(old(kernel)@, 6),
        sound_outputs(gdn_prep_fused_call(*proj, *conv_state, *conv_w, *neg_exp_alog, *dt_bias, b_off, a_off, t_len, hk, hv, dk, dv, kc, proj_w, conv_dim).outs),
    ensures
        ({
            let (k1, t1, o) = call_s(
                old(kernel)@,
                old(tape)@,
                gdn_prep_fused_call(*proj, *conv_state, *conv_w, *neg_exp_alog, *dt_bias, b_off, a_off, t_len, hk, hv, dk, dv, kc, proj_w, conv_dim),
            );
            &&& final(kernel)@ == k1
            &&& final(tape)@ == t1
            &&& got6(r, o)
        }),
        ready(final(kernel)@, 6),
{
    let ghost call = gdn_prep_fused_call(*proj, *conv_state, *conv_w, *neg_exp_alog, *dt_bias, b_off, a_off, t_len, hk, hv, dk, dv, kc, proj_w, conv_dim);
    let b = proj.dim(0);
    let bt: i32 = b * t_len;
    let tail: i32 = kc - 1;
    let lanes: i32 = conv_dim / 128;
    let inputs: Vec<&Tensor> = vec![&proj.t, &conv_state.t, &conv_w.t, &neg_exp_alog.t, &dt_bias.t];
    let template: Vec<TemplateArg> = vec![
        TemplateArg::Dtype("InT", Dtype::Bfloat16),
        TemplateArg::Int("T", t_len),
        TemplateArg::Int("Dk", dk),
        TemplateArg::Int("Dv", dv),
        TemplateArg::Int("Hk", hk),
        TemplateArg::Int("Hv", hv),
        TemplateArg::Int("KC", kc),
        TemplateArg::Int("PROJ_W", proj_w),
        TemplateArg::Int("CONV_DIM", conv_dim),
        TemplateArg::Int("B_OFF", b_off),
        TemplateArg::Int("A_OFF", a_off),
    ];
    let outs: Vec<OutputArg> = vec![
        OutputArg { shape: vec![b, t_len, hk, dk], dtype: Dtype::Bfloat16 },
        OutputArg { shape: vec![b, t_len, hk, dk], dtype: Dtype::Bfloat16 },
        OutputArg { shape: vec![b, t_len, hv, dv], dtype: Dtype::Bfloat16 },
        OutputArg { shape: vec![b, t_len, hv], dtype: Dtype::Float32 },
        OutputArg { shape: vec![b, t_len, hv], dtype: Dtype::Float32 },
        OutputArg { shape: vec![b, tail, conv_dim], dtype: Dtype::Bfloat16 },
    ];
    proof {
        assert(ref_views(inputs@) =~= call.inputs);
        assert(arg_list(template@) =~= call.template);
        assert(out_list(outs@) =~~= call.outs);
        assert(all_wf(call.inputs));
    }
    let made = launch(
        kernel,
        tape,
        &inputs,
        &template,
        (32, lanes, bt),
        (32, 4, 1),
        &outs,
    );
    first6(made)
}

/// The kernel that gates and normalizes the recurrence's rows.
pub fn gated_rms_kernel(source: &str, header: &str) -> (r: Option<MetalKernel>)
    ensures
        r matches Some(k) && k@ == new_kernel(
            "track_gated_rms"@,
            gated_rms_inputs(),
            seq!["out"@],
            source@,
            header@,
            false,
        ) && ready(k@, 1),
{
    let ins: Vec<&str> = vec!["y", "zproj", "w"];
    let outs: Vec<&str> = vec!["out"];
    proof {
        assert(str_views(ins@) =~= seq!["y"@, "zproj"@, "w"@]);
        assert(str_views(outs@) =~= seq!["out"@]);
    }
    match MetalKernel::new("track_gated_rms", &ins, &outs, source, header, true, false) {
        Ok(k) => Some(k),
        Err(_) => None,
    }
}

/// The kernel that mixes the residual streams.
pub fn hc_mix_kernel(source: &str, header: &str) -> (r: Option<MetalKernel>)
    ensures
        r matches Some(k) && k@ == new_kernel(
            "track_hc_mix"@,
            hc_mix_inputs(),
            seq!["input"@, "inject"@],
            source@,
            header@,
            false,
        ) && ready(k@, 2),
{
    let ins: Vec<&str> = vec!["w", "normed", "inj"];
    let outs: Vec<&str> = vec!["input", "inject"];
    proof {
        assert(str_views(ins@) =~= seq!["w"@, "normed"@, "inj"@]);
        assert(str_views(outs@) =~= seq!["input"@, "inject"@]);
    }
    match MetalKernel::new("track_hc_mix", &ins, &outs, source, header, true, false) {
        Ok(k) => Some(k),
        Err(_) => None,
    }
}

/// The kernel of the gated activation.
pub fn swiglu2_kernel(source: &str, header: &str) -> (r: Option<MetalKernel>)
    ensures
        r matches Some(k) && k@ == new_kernel(
            "track_swiglu2"@,
            swiglu2_inputs(),
            seq!["out"@],
            source@,
            header@,
            false,
        ) && ready(k@, 1),
{
    let ins: Vec<&str> = vec!["gate", "up"];
    let outs: Vec<&str> = vec!["out"];
    proof {
        assert(str_views(ins@) =~= seq!["gate"@, "up"@]);
        assert(str_views(outs@) =~= seq!["out"@]);
    }
    match MetalKernel::new("track_swiglu2", &ins, &outs, source, header, true, false) {
        Ok(k) => Some(k),
        Err(_) => None,
    }
}

/// The gated activation of two arrays.
pub open spec fn swiglu2_call(
    gate: Array,
    up: Array,
) -> CallV {
    let f = gate.shape@[gate.shape@.len() - 1];
    let b = (gate.t@.count() / ((f as usize) as nat)) as i32;
    let n = (b * f) as i32;
    CallV {
        inputs: seq![gate.t@, up.t@],
        template: seq![TemplateArgV::Dtype("InT"@, Dtype::Bfloat16), TemplateArgV::Int("B"@, b), TemplateArgV::Int("F"@, f)],
        grid: (n, 1, 1),
        group: (256, 1, 1),
        outs: seq![out_of(seq![b, f], Dtype::Bfloat16)],
    }
}

/// The gated activation of two arrays.
pub fn swiglu2(
    kernel: &mut MetalKernel,
    tape: &mut Tape,
    gate: &Array,
    up: &Array,
) -> (r: Option<Array>)
    requires
        gate.wf(),
        up.wf(),
        1 <= gate.shape@.len() <= i32::MAX,
        gate.shape@[gate.shape@.len() - 1] as usize > 0,
        ({ let f = gate.shape@[gate.shape@.len() - 1]; { let b = (gate.t@.count() / ((f as usize) as nat)) as i32; fits(b * f) } }),
        ready(old(kernel)@, 1),
        sound_outputs(swiglu2_call(*gate, *up).outs),
    ensures
        ({
            let (k1, t1, o) = call_s(
                old(kernel)@,
                old(tape)@,
                swiglu2_call(*gate, *up),
            );
            &&& final(kernel)@ == k1
            &&& final(tape)@ == t1
            &&& got1(r, o)
        }),
        ready(final(kernel)@, 1),
{
    let ghost call = swiglu2_call(*gate, *up);
    let f = gate.dim(-1);
    let b: i32 = (gate.size() / f as usize) as i32;
    let n: i32 = b * f;
    let inputs: Vec<&Tensor> = vec![&gate.t, &up.t];
    let template: Vec<TemplateArg> = vec![
        TemplateArg::Dtype("InT", Dtype::Bfloat16),
        TemplateArg::Int("B", b),
        TemplateArg::Int("F", f),
    ];
    let outs: Vec<OutputArg> = vec![
        OutputArg { shape: vec![b, f], dtype: Dtype::Bfloat16 },
    ];
    proof {
        assert(ref_views(inputs@) =~= call.inputs);
        assert(arg_list(template@) =~= call.template);
        assert(out_list(outs@) =~~= call.outs);
        assert(all_wf(call.inputs));
    }
    let made = launch(
        kernel,
        tape,
        &inputs,
        &template,
        (n, 1, 1),
        (256, 1, 1),
        &outs,
    );
    first1(made)
}

/// The kernel of the activation of leading columns.
pub fn silu_head_kernel(source: &str, header: &str) -> (r: Option<MetalKernel>)
    ensures
        r matches Some(k) && k@ == new_kernel(
            "track_silu_head"@,
            seq!["lo"@],
            seq!["out"@],
            source@,
            header@,
            false,
        ) && ready(k@, 1),
{
    let ins: Vec<&str> = vec!["lo"];
    let outs: Vec<&str> = vec!["out"];
    proof {
        assert(str_views(ins@) =~= seq!["lo"@]);
        assert(str_views(outs@) =~= seq!["out"@]);
    }
    match MetalKernel::new("track_silu_head", &ins, &outs, source, header, true, false) {
        Ok(k) => Some(k),
        Err(_) => None,
    }
}

/// The activation of the leading columns.
pub open spec fn silu_head_call(
    lo: Array,
    width: i32,
) -> CallV {
    let lw = lo.shape@[lo.shape@.len() - 1];
    let rows = (lo.t@.count() / ((lw as usize) as nat)) as i32;
    CallV {
        inputs: seq![lo.t@],
        template: seq![TemplateArgV::Dtype("InT"@, Dtype::Bfloat16), TemplateArgV::Int("LW"@, lw), TemplateArgV::Int("LMIX"@, width)],
        grid: (width, rows, 1),
        group: (256, 1, 1),
        outs: seq![out_of(seq![rows, width], Dtype::Bfloat16)],
    }
}

/// The activation of the leading columns.
pub fn silu_head(
    kernel: &mut MetalKernel,
    tape: &mut Tape,
    lo: &Array,
    width: i32,
) -> (r: Option<Array>)
    requires
        lo.wf(),
        1 <= lo.shape@.len() <= i32::MAX,
        lo.shape@[lo.shape@.len() - 1] as usize > 0,
        ready(old(kernel)@, 1),
        sound_outputs(silu_head_call(*lo, width).outs),
    ensures
        ({
            let (k1, t1, o) = call_s(
                old(kernel)@,
                old(tape)@,
                silu_head_call(*lo, width),
            );
            &&& final(kernel)@ == k1
            &&& final(tape)@ == t1
            &&& got1(r, o)
        }),
        ready(final(kernel)@, 1),
{
    let ghost call = silu_head_call(*lo, width);
    let lw = lo.dim(-1);
    let rows: i32 = (lo.size() / lw as usize) as i32;
    let inputs: Vec<&Tensor> = vec![&lo.t];
    let template: Vec<TemplateArg> = vec![
        TemplateArg::Dtype("InT", Dtype::Bfloat16),
        TemplateArg::Int("LW", lw),
        TemplateArg::Int("LMIX", width),
    ];
    let outs: Vec<OutputArg> = vec![
        OutputArg { shape: vec![rows, width], dtype: Dtype::Bfloat16 },
    ];
    proof {
        assert(ref_views(inputs@) =~= call.inputs);
        assert(arg_list(template@) =~= call.template);
        assert(out_list(outs@) =~~= call.outs);
        assert(all_wf(call.inputs));
    }
    let made = launch(
        kernel,
        tape,
        &inputs,
        &template,
        (width, rows, 1),
        (256, 1, 1),
        &outs,
    );
    first1(made)
}

/// The kernel that injects an output into the streams and normalizes them.
pub fn inject_norm_kernel(source: &str, header: &str) -> (r: Option<MetalKernel>)
    ensures
        r matches Some(k) && k@ == new_kernel(
            "track_inject_norm"@,
            seq!["residual"@, "out"@, "inject"@, "scale"@],
            seq!["stream"@, "normed"@],
            source@,
            header@,
            false,
        ) && ready(k@, 2),
{
    let ins: Vec<&str> = vec!["residual", "out", "inject", "scale"];
    let outs: Vec<&str> = vec!["stream", "normed"];
    proof {
        assert(str_views(ins@) =~= seq!["residual"@, "out"@, "inject"@, "scale"@]);
        assert(str_views(outs@) =~= seq!["stream"@, "normed"@]);
    }
    match MetalKernel::new("track_inject_norm", &ins, &outs, source, header, true, false) {
        Ok(k) => Some(k),
        Err(_) => None,
    }
}

/// The kernel of the product of normalized keys and queries.
pub fn ple_prod_kernel(source: &str, header: &str) -> (r: Option<MetalKernel>)
    ensures
        r matches Some(k) && k@ == new_kernel(
            "track_ple_prod"@,
            ple_prod_inputs(),
            seq!["prod"@],
            source@,
            header@,
            false,
        ) && ready(k@, 1),
{
    let ins: Vec<&str> = vec!["keyFlat", "stream", "kscale", "qscale", "eps"];
    let outs: Vec<&str> = vec!["prod"];
    proof {
        assert(str_views(ins@) =~= seq!["keyFlat"@, "stream"@, "kscale"@, "qscale"@, "eps"@]);
        assert(str_views(outs@) =~= seq!["prod"@]);
    }
    match MetalKernel::new("track_ple_prod", &ins, &outs, source, header, true, false) {
        Ok(k) => Some(k),
        Err(_) => None,
    }
}

/// The product of normalized keys and queries.
pub open spec fn ple_prod_call(
    key_flat: Array,
    stream: Array,
    k_scale: Array,
    q_scale: Array,
    eps: Array,
    hc: i32,
    hidden: i32,
) -> CallV {
    let b = key_flat.shape@[0];
    let s = key_flat.shape@[1];
    let w = (hc * hidden) as i32;
    let bs = (b * s) as i32;
    let quarter = (hidden / 4) as i32;
    CallV {
        inputs: seq![key_flat.t@, stream.t@, k_scale.t@, q_scale.t@, eps.t@],
        template: seq![TemplateArgV::Dtype("InT"@, Dtype::Bfloat16), TemplateArgV::Int("H"@, hidden), TemplateArgV::Int("W"@, w), TemplateArgV::Int("HC"@, hc)],
        grid: (quarter, hc, bs),
        group: (quarter, 1, 1),
        outs: seq![out_of(seq![b, s, w], Dtype::Bfloat16)],
    }
}

/// The product of normalized keys and queries.
pub fn ple_prod(
    kernel: &mut MetalKernel,
    tape: &mut Tape,
    key_flat: &Array,
    stream: &Array,
    k_scale: &Array,
    q_scale: &Array,
    eps: &Array,
    hc: i32,
    hidden: i32,
) -> (r: Option<Array>)
    requires
        key_flat.wf(),
        stream.wf(),
        k_scale.wf(),
        q_scale.wf(),
        eps.wf(),
        0 < key_flat.shape@.len() <= i32::MAX,
        1 < key_flat.shape@.len() <= i32::MAX,
        hidden >= 0,
        ({ let b = key_flat.shape@[0]; { let s = key_flat.shape@[1]; (fits(hc * hidden) && { let w = (hc * hidden) as i32; (fits(b * s) && { let bs = (b * s) as i32; fits(hidden / 4) }) }) } }),
        ready(old(kernel)@, 1),
        sound_outputs(ple_prod_call(*key_flat, *stream, *k_scale, *q_scale, *eps, hc, hidden).outs),
    ensures
        ({
            let (k1, t1, o) = call_s(
                old(kernel)@,
                old(tape)@,
                ple_prod_call(*key_flat, *stream, *k_scale, *q_scale, *eps, hc, hidden),
            );
            &&& final(kernel)@ == k1
            &&& final(tape)@ == t1
            &&& got1(r, o)
        }),
        ready(final(kernel)@, 1),
{
    let ghost call = ple_prod_call(*key_flat, *stream, *k_scale, *q_scale, *eps, hc, hidden);
    let b = key_flat.dim(0);
    let s = key_flat.dim(1);
    let w: i32 = hc * hidden;
    let bs: i32 = b * s;
    let quarter: i32 = hidden / 4;
    let inputs: Vec<&Tensor> = vec![&key_flat.t, &stream.t, &k_scale.t, &q_scale.t, &eps.t];
    let template: Vec<TemplateArg> = vec![
        TemplateArg::Dtype("InT", Dtype::Bfloat16),
        TemplateArg::Int("H", hidden),
        TemplateArg::Int("W", w),
        TemplateArg::Int("HC", hc),
    ];
    let outs: Vec<OutputArg> = vec![
        OutputArg { shape: vec![b, s, w], dtype: Dtype::Bfloat16 },
    ];
    proof {
        assert(ref_views(inputs@) =~= call.inputs);
        assert(arg_list(template@) =~= call.template);
        assert(out_list(outs@) =~~= call.outs);
        assert(all_wf(call.inputs));
    }
    let made = launch(
        kernel,
        tape,
        &inputs,
        &template,
        (quarter, hc, bs),
        (quarter, 1, 1),
        &outs,
    );
    first1(made)
}

/// The kernel of the gated value.
pub fn ple_gated_kernel(source: &str, header: &str) -> (r: Option<MetalKernel>)
    ensures
        r matches Some(k) && k@ == new_kernel(
            "track_ple_gated"@,
            ple_gated_inputs(),
            seq!["gated"@, "normed"@],
            source@,
            header@,
            false,
        ) && ready(k@, 2),
{
    let ins: Vec<&str> = vec!["g0", "value", "cscale", "divisor", "floorv", "eps"];
    let outs: Vec<&str> = vec!["gated", "normed"];
    proof {
        assert(str_views(ins@) =~= seq!["g0"@, "value"@, "cscale"@, "divisor"@, "floorv"@, "eps"@]);
        assert(str_views(outs@) =~= seq!["gated"@, "normed"@]);
    }
    match MetalKernel::new("track_ple_gated", &ins, &outs, source, header, true, false) {
        Ok(k) => Some(k),
        Err(_) => None,
    }
}

/// The gated value, and its norm.
pub open spec fn ple_gated_call(
    g0: Array,
    value: Array,
    c_scale: Array,
    divisor: Array,
    floor: Array,
    eps: Array,
    hc: i32,
    hidden: i32,
) -> CallV {
    let b = value.shape@[0];
    let s = value.shape@[1];
    let w = (hc * hidden) as i32;
    let bs = (b * s) as i32;
    let quarter = (hidden / 4) as i32;
    CallV {
        inputs: seq![g0.t@, value.t@, c_scale.t@, divisor.t@, floor.t@, eps.t@],
        template: seq![TemplateArgV::Dtype("InT"@, Dtype::Bfloat16), TemplateArgV::Int("H"@, hidden), TemplateArgV::Int("W"@, w), TemplateArgV::Int("HC"@, hc)],
        grid: (quarter, hc, bs),
        group: (quarter, 1, 1),
        outs: seq![out_of(seq![b, s, w], Dtype::Bfloat16), out_of(seq![b, s, w], Dtype::Bfloat16)],
    }
}

/// The gated value, and its norm.
pub fn ple_gated(
    kernel: &mut MetalKernel,
    tape: &mut Tape,
    g0: &Array,
    value: &Array,
    c_scale: &Array,
    divisor: &Array,
    floor: &Array,
    eps: &Array,
    hc: i32,
    hidden: i32,
) -> (r: Option<(Array, Array)>)
    requires
        g0.wf(),
        value.wf(),
        c_scale.wf(),
        divisor.wf(),
        floor.wf(),
        eps.wf(),
        0 < value.shape@.len() <= i32::MAX,
        1 < value.shape@.len() <= i32::MAX,
        hidden >= 0,
        ({ let b = value.shape@[0]; { let s = value.shape@[1]; (fits(hc * hidden) && { let w = (hc * hidden) as i32; (fits(b * s) && { let bs = (b * s) as i32; fits(hidden / 4) }) }) } }),
        ready(old(kernel)@, 2),
        sound_outputs(ple_gated_call(*g0, *value, *c_scale, *divisor, *floor, *eps, hc, hidden).outs),
    ensures
        ({
            let (k1, t1, o) = call_s(
                old(kernel)@,
                old(tape)@,
                ple_gated_call(*g0, *value, *c_scale, *divisor, *floor, *eps, hc, hidden),
            );
            &&& final(kernel)@ == k1
            &&& final(tape)@ == t1
            &&& got2(r, o)
        }),
        ready(final(kernel)@, 2),
{
    let ghost call = ple_gated_call(*g0, *value, *c_scale, *divisor, *floor, *eps, hc, hidden);
    let b = value.dim(0);
    let s = value.dim(1);
    let w: i32 = hc * hidden;
    let bs: i32 = b * s;
    let quarter: i32 = hidden / 4;
    let inputs: Vec<&Tensor> = vec![&g0.t, &value.t, &c_scale.t, &divisor.t, &floor.t, &eps.t];
    let template: Vec<TemplateArg> = vec![
        TemplateArg::Dtype("InT", Dtype::Bfloat16),
        TemplateArg::Int("H", hidden),
        TemplateArg::Int("W", w),
        TemplateArg::Int("HC", hc),
    ];
    let outs: Vec<OutputArg> = vec![
        OutputArg { shape: vec![b, s, w], dtype: Dtype::Bfloat16 },
        OutputArg { shape: vec![b, s, w], dtype: Dtype::Bfloat16 },
    ];
    proof {
        assert(ref_views(inputs@) =~= call.inputs);
        assert(arg_list(template@) =~= call.template);
        assert(out_list(outs@) =~~= call.outs);
        assert(all_wf(call.inputs));
    }
    let made = launch(
        kernel,
        tape,
        &inputs,
        &template,
        (quarter, hc, bs),
        (quarter, 1, 1),
        &outs,
    );
    first2(made)
}

/// The kernel of the dilated convolution.
pub fn ple_conv_kernel(source: &str, header: &str) -> (r: Option<MetalKernel>)
    ensures
        r matches Some(k) && k@ == new_kernel(
            "track_ple_conv"@,
            ple_conv_inputs(),
            seq!["out"@],
            source@,
            header@,
            false,
        ) && ready(k@, 1),
{
    let ins: Vec<&str> = vec!["full", "convw", "gated"];
    let outs: Vec<&str> = vec!["out"];
    proof {
        assert(str_views(ins@) =~= seq!["full"@, "convw"@, "gated"@]);
        assert(str_views(outs@) =~= seq!["out"@]);
    }
    match MetalKernel::new("track_ple_conv", &ins, &outs, source, header, true, false) {
        Ok(k) => Some(k),
        Err(_) => None,
    }
}

/// The dilated convolution, activated and added to the gated value.
pub open spec fn ple_conv_call(
    full: Array,
    conv_w: Array,
    gated: Array,
    dilation: i32,
) -> CallV {
    let b = gated.shape@[0];
    let s = gated.shape@[1];
    let w = gated.shape@[2];
    let kc = conv_w.shape@[1];
    let nin = full.shape@[1];
    CallV {
        inputs: seq![full.t@, conv_w.t@, gated.t@],
        template: seq![TemplateArgV::Dtype("InT"@, Dtype::Bfloat16), TemplateArgV::Int("W"@, w), TemplateArgV::Int("S"@, s), TemplateArgV::Int("KC"@, kc), TemplateArgV::Int("DIL"@, dilation), TemplateArgV::Int("NIN"@, nin)],
        grid: (w, s, b),
        group: (256, 1, 1),
        outs: seq![out_of(seq![b, s, w], Dtype::Bfloat16)],
    }
}

/// The dilated convolution, activated and added to the gated value.
pub fn ple_conv(
    kernel: &mut MetalKernel,
    tape: &mut Tape,
    full: &Array,
    conv_w: &Array,
    gated: &Array,
    dilation: i32,
) -> (r: Option<Array>)
    requires
        full.wf(),
        conv_w.wf(),
        gated.wf(),
        0 < gated.shape@.len() <= i32::MAX,
        1 < gated.shape@.len() <= i32::MAX,
        2 < gated.shape@.len() <= i32::MAX,
        1 < conv_w.shape@.len() <= i32::MAX,
        1 < full.shape@.len() <= i32::MAX,
        ready(old(kernel)@, 1),
        sound_outputs(ple_conv_call(*full, *conv_w, *gated, dilation).outs),
    ensures
        ({
            let (k1, t1, o) = call_s(
                old(kernel)@,
                old(tape)@,
                ple_conv_call(*full, *conv_w, *gated, dilation),
            );
            &&& final(kernel)@ == k1
            &&& final(tape)@ == t1
            &&& got1(r, o)
        }),
        ready(final(kernel)@, 1),
{
    let ghost call = ple_conv_call(*full, *conv_w, *gated, dilation);
    let b = gated.dim(0);
    let s = gated.dim(1);
    let w = gated.dim(2);
    let kc = conv_w.dim(1);
    let nin = full.dim(1);
    let inputs: Vec<&Tensor> = vec![&full.t, &conv_w.t, &gated.t];
    let template: Vec<TemplateArg> = vec![
        TemplateArg::Dtype("InT", Dtype::Bfloat16),
        TemplateArg::Int("W", w),
        TemplateArg::Int("S", s),
        TemplateArg::Int("KC", kc),
        TemplateArg::Int("DIL", dilation),
        TemplateArg::Int("NIN", nin),
    ];
    let outs: Vec<OutputArg> = vec![
        OutputArg { shape: vec![b, s, w], dtype: Dtype::Bfloat16 },
    ];
    proof {
        assert(ref_views(inputs@) =~= call.inputs);
        assert(arg_list(template@) =~= call.template);
        assert(out_list(outs@) =~~= call.outs);
        assert(all_wf(call.inputs));
    }
    let made = launch(
        kernel,
        tape,
        &inputs,
        &template,
        (w, s, b),
        (256, 1, 1),
        &outs,
    );
    first1(made)
}

/// The kernel that scores the experts for one token.
pub fn router_gemv_kernel(source: &str, header: &str) -> (r: Option<MetalKernel>)
    ensures
        r matches Some(k) && k@ == new_kernel(
            "track_router_gemv"@,
            router_gemv_inputs(),
            seq!["out"@],
            source@,
            header@,
            false,
        ) && ready(k@, 1),
{
    let ins: Vec<&str> = vec!["x", "w"];
    let outs: Vec<&str> = vec!["out"];
    proof {
        assert(str_views(ins@) =~= seq!["x"@, "w"@]);
        assert(str_views(outs@) =~= seq!["out"@]);
    }
    match MetalKernel::new("track_router_gemv", &ins, &outs, source, header, true, false) {
        Ok(k) => Some(k),
        Err(_) => None,
    }
}

/// The scores of the experts for one token.
pub open spec fn router_gemv_call(
    x: Array,
    w: Array,
) -> CallV {
    let n = w.shape@[0];
    let k = w.shape@[1];
    let rps: i32 = if k == 2560 && n == 512 {
        1
    } else {
        4
    };
    let per = (4 * rps) as i32;
    let lanes = (n / per) as i32;
    let threads = (32 * lanes) as i32;
    CallV {
        inputs: seq![x.t@, w.t@],
        template: seq![TemplateArgV::Dtype("T"@, Dtype::Bfloat16), TemplateArgV::Int("K"@, k), TemplateArgV::Int("N"@, n), TemplateArgV::Int("RPS"@, rps)],
        grid: (threads, 1, 4),
        group: (32, 1, 4),
        outs: seq![out_of(seq![n], Dtype::Float32)],
    }
}

/// The scores of the experts for one token.
pub fn router_gemv(
    kernel: &mut MetalKernel,
    tape: &mut Tape,
    x: &Array,
    w: &Array,
) -> (r: Option<Array>)
    requires
        x.wf(),
        w.wf(),
        0 < w.shape@.len() <= i32::MAX,
        1 < w.shape@.len() <= i32::MAX,
        w.shape@[0] >= 0,
        ({ let n = w.shape@[0]; { let k = w.shape@[1]; { let rps: i32 = if k == 2560 && n == 512 {
        1
    } else {
        4
    }; (fits(4 * rps) && { let per = (4 * rps) as i32; (fits(n / per) && { let lanes = (n / per) as i32; fits(32 * lanes) }) }) } } }),
        ready(old(kernel)@, 1),
        sound_outputs(router_gemv_call(*x, *w).outs),
    ensures
        ({
            let (k1, t1, o) = call_s(
                old(kernel)@,
                old(tape)@,
                router_gemv_call(*x, *w),
            );
            &&& final(kernel)@ == k1
            &&& final(tape)@ == t1
            &&& got1(r, o)
        }),
        ready(final(kernel)@, 1),
{
    let ghost call = router_gemv_call(*x, *w);
    let n = w.dim(0);
    let k = w.dim(1);
    let rps: i32 = if k == 2560 && n == 512 {
        1
    } else {
        4
    };
    let per: i32 = 4 * rps;
    let lanes: i32 = n / per;
    let threads: i32 = 32 * lanes;
    let inputs: Vec<&Tensor> = vec![&x.t, &w.t];
    let template: Vec<TemplateArg> = vec![
        TemplateArg::Dtype("T", Dtype::Bfloat16),
        TemplateArg::Int("K", k),
        TemplateArg::Int("N", n),
        TemplateArg::Int("RPS", rps),
    ];
    let outs: Vec<OutputArg> = vec![
        OutputArg { shape: vec![n], dtype: Dtype::Float32 },
    ];
    proof {
        assert(ref_views(inputs@) =~= call.inputs);
        assert(arg_list(template@) =~= call.template);
        assert(out_list(outs@) =~~= call.outs);
        assert(all_wf(call.inputs));
    }
    let made = launch(
        kernel,
        tape,
        &inputs,
        &template,
        (threads, 1, 4),
        (32, 1, 4),
        &outs,
    );
    first1(made)
}

/// The kernel that prepares attention from split projections.
pub fn attn_prep_split_kernel(source: &str, header: &str) -> (r: Option<MetalKernel>)
    ensures
        r matches Some(k) && k@ == new_kernel(
            "track_p12_attn_prep_split_inputs"@,
            attn_prep_inputs(),
            seq!["qout"@, "kout"@, "vout"@],
            source@,
            header@,
            false,
        ) && ready(k@, 3),
{
    let ins: Vec<&str> = vec!["qkv", "kproj", "vproj", "qnorm", "knorm", "cosb", "sinb"];
    let outs: Vec<&str> = vec!["qout", "kout", "vout"];
    proof {
        assert(str_views(ins@) =~= seq!["qkv"@, "kproj"@, "vproj"@, "qnorm"@, "knorm"@, "cosb"@, "sinb"@]);
        assert(str_views(outs@) =~= seq!["qout"@, "kout"@, "vout"@]);
    }
    match MetalKernel::new("track_p12_attn_prep_split_inputs", &ins, &outs, source, header, true, false) {
        Ok(k) => Some(k),
        Err(_) => None,
    }
}

/// Queries, keys and values for attention: normalized, rotated, split into heads.
pub open spec fn attn_prep_split_call(
    qkv: Array,
    kproj: Array,
    vproj: Array,
    q_norm: Array,
    k_norm: Array,
    cos: Array,
    sin: Array,
    heads: i32,
    kv_heads: i32,
    head_dim: i32,
    rotary_dims: i32,
    eps: u32,
) -> CallV {
    let b = qkv.shape@[0];
    let s = qkv.shape@[1];
    let qw = qkv.shape@[2];
    let bs = (b * s) as i32;
    let quarter = (head_dim / 4) as i32;
    let kv2 = (2 * kv_heads) as i32;
    let total = (heads + kv2) as i32;
    CallV {
        inputs: seq![qkv.t@, kproj.t@, vproj.t@, q_norm.t@, k_norm.t@, cos.t@, sin.t@],
        template: seq![TemplateArgV::Dtype("InT"@, Dtype::Bfloat16), TemplateArgV::Int("D"@, head_dim), TemplateArgV::Int("HQ"@, heads), TemplateArgV::Int("HK"@, kv_heads), TemplateArgV::Int("S"@, s), TemplateArgV::Int("QW"@, qw), TemplateArgV::Int("ROT"@, rotary_dims), TemplateArgV::Int("EPS_BITS"@, eps as i32)],
        grid: (quarter, total, bs),
        group: (quarter, 1, 1),
        outs: seq![out_of(seq![b, heads, s, head_dim], Dtype::Bfloat16), out_of(seq![b, kv_heads, s, head_dim], Dtype::Bfloat16), out_of(seq![b, kv_heads, s, head_dim], Dtype::Bfloat16)],
    }
}

/// Queries, keys and values for attention: normalized, rotated, split into heads.
pub fn attn_prep_split(
    kernel: &mut MetalKernel,
    tape: &mut Tape,
    qkv: &Array,
    kproj: &Array,
    vproj: &Array,
    q_norm: &Array,
    k_norm: &Array,
    cos: &Array,
    sin: &Array,
    heads: i32,
    kv_heads: i32,
    head_dim: i32,
    rotary_dims: i32,
    eps: u32,
) -> (r: Option<(Array, Array, Array)>)
    requires
        qkv.wf(),
        kproj.wf(),
        vproj.wf(),
        q_norm.wf(),
        k_norm.wf(),
        cos.wf(),
        sin.wf(),
        0 < qkv.shape@.len() <= i32::MAX,
        1 < qkv.shape@.len() <= i32::MAX,
        2 < qkv.shape@.len() <= i32::MAX,
        head_dim >= 0,
        ({ let b = qkv.shape@[0]; { let s = qkv.shape@[1]; { let qw = qkv.shape@[2]; (fits(b * s) && { let bs = (b * s) as i32; (fits(head_dim / 4) && { let quarter = (head_dim / 4) as i32; (fits(2 * kv_heads) && { let kv2 = (2 * kv_heads) as i32; fits(heads + kv2) }) }) }) } } }),
        ready(old(kernel)@, 3),
        sound_outputs(attn_prep_split_call(*qkv, *kproj, *vproj, *q_norm, *k_norm, *cos, *sin, heads, kv_heads, head_dim, rotary_dims, eps).outs),
    ensures
        ({
            let (k1, t1, o) = call_s(
                old(kernel)@,
                old(tape)@,
                attn_prep_split_call(*qkv, *kproj, *vproj, *q_norm, *k_norm, *cos, *sin, heads, kv_heads, head_dim, rotary_dims, eps),
            );
            &&& final(kernel)@ == k1
            &&& final(tape)@ == t1
            &&& got3(r, o)
        }),
        ready(final(kernel)@, 3),
{
    let ghost call = attn_prep_split_call(*qkv, *kproj, *vproj, *q_norm, *k_norm, *cos, *sin, heads, kv_heads, head_dim, rotary_dims, eps);
    let b = qkv.dim(0);
    let s = qkv.dim(1);
    let qw = qkv.dim(2);
    let bs: i32 = b * s;
    let quarter: i32 = head_dim / 4;
    let kv2: i32 = 2 * kv_heads;
    let total: i32 = heads + kv2;
    let inputs: Vec<&Tensor> = vec![&qkv.t, &kproj.t, &vproj.t, &q_norm.t, &k_norm.t, &cos.t, &sin.t];
    let template: Vec<TemplateArg> = vec![
        TemplateArg::Dtype("InT", Dtype::Bfloat16),
        TemplateArg::Int("D", head_dim),
        TemplateArg::Int("HQ", heads),
        TemplateArg::Int("HK", kv_heads),
        TemplateArg::Int("S", s),
        TemplateArg::Int("QW", qw),
        TemplateArg::Int("ROT", rotary_dims),
        TemplateArg::Int("EPS_BITS", eps as i32),
    ];
    let outs: Vec<OutputArg> = vec![
        OutputArg { shape: vec![b, heads, s, head_dim], dtype: Dtype::Bfloat16 },
        OutputArg { shape: vec![b, kv_heads, s, head_dim], dtype: Dtype::Bfloat16 },
        OutputArg { shape: vec![b, kv_heads, s, head_dim], dtype: Dtype::Bfloat16 },
    ];
    proof {
        assert(ref_views(inputs@) =~= call.inputs);
        assert(arg_list(template@) =~= call.template);
        assert(out_list(outs@) =~~= call.outs);
        assert(all_wf(call.inputs));
    }
    let made = launch(
        kernel,
        tape,
        &inputs,
        &template,
        (quarter, total, bs),
        (quarter, 1, 1),
        &outs,
    );
    first3(made)
}

/// The kernel that gates attention.
pub fn attn_gate_kernel(source: &str, header: &str) -> (r: Option<MetalKernel>)
    ensures
        r matches Some(k) && k@ == new_kernel(
            "track_attn_gate"@,
            attn_gate_inputs(),
            seq!["out"@],
            source@,
            header@,
            false,
        ) && ready(k@, 1),
{
    let ins: Vec<&str> = vec!["att", "gateb"];
    let outs: Vec<&str> = vec!["out"];
    proof {
        assert(str_views(ins@) =~= seq!["att"@, "gateb"@]);
        assert(str_views(outs@) =~= seq!["out"@]);
    }
    match MetalKernel::new("track_attn_gate", &ins, &outs, source, header, true, false) {
        Ok(k) => Some(k),
        Err(_) => None,
    }
}

/// The kernel of one whole step of the recurrence.
pub fn gdn_decode_complete_kernel(source: &str, header: &str) -> (r: Option<MetalKernel>)
    ensures
        r matches Some(k) && k@ == new_kernel(
            "track_gdn_decode_complete"@,
            gdn_decode_inputs(),
            seq!["state_out"@, "gated"@, "conv_out"@],
            source@,
            header@,
            false,
        ) && ready(k@, 3),
{
    let ins: Vec<&str> = vec!["proj", "conv_state", "conv_w", "neg_exp_alog", "dt_bias", "state_in", "w"];
    let outs: Vec<&str> = vec!["state_out", "gated", "conv_out"];
    proof {
        assert(str_views(ins@) =~= seq!["proj"@, "conv_state"@, "conv_w"@, "neg_exp_alog"@, "dt_bias"@, "state_in"@, "w"@]);
        assert(str_views(outs@) =~= seq!["state_out"@, "gated"@, "conv_out"@]);
    }
    match MetalKernel::new("track_gdn_decode_complete", &ins, &outs, source, header, true, false) {
        Ok(k) => Some(k),
        Err(_) => None,
    }
}

/// One whole step of the recurrence: its state, the gated rows and the convolution's state.
pub open spec fn gdn_decode_step_call(
    proj: Array,
    conv_state: Array,
    conv_w: Array,
    neg_exp_alog: Array,
    dt_bias: Array,
    state_in: Array,
    norm_w: Array,
    hk: i32,
    hv: i32,
    dk: i32,
    dv: i32,
    kc: i32,
    conv_dim: i32,
    pw: i32,
    b_off: i32,
    a_off: i32,
    z_off: i32,
    eps: u32,
) -> CallV {
    let b = proj.shape@[0];
    let hw = (hv * dv) as i32;
    let tail = (kc - 1) as i32;
    let quarter = (dv / 4) as i32;
    let bh = (b * hv) as i32;
    CallV {
        inputs: seq![proj.t@, conv_state.t@, conv_w.t@, neg_exp_alog.t@, dt_bias.t@, state_in.t@, norm_w.t@],
        template: seq![TemplateArgV::Dtype("InT"@, Dtype::Bfloat16), TemplateArgV::Dtype("StT"@, Dtype::Float32), TemplateArgV::Int("Dk"@, dk), TemplateArgV::Int("Dv"@, dv), TemplateArgV::Int("Hk"@, hk), TemplateArgV::Int("Hv"@, hv), TemplateArgV::Int("KC"@, kc), TemplateArgV::Int("CONV_DIM"@, conv_dim), TemplateArgV::Int("PW"@, pw), TemplateArgV::Int("B_OFF"@, b_off), TemplateArgV::Int("A_OFF"@, a_off), TemplateArgV::Int("Z_OFF"@, z_off), TemplateArgV::Int("EPS_BITS"@, eps as i32), TemplateArgV::Int("RPS"@, 4)],
        grid: (32, quarter, bh),
        group: (32, quarter, 1),
        outs: seq![out_of(seq![b, hv, dv, dk], Dtype::Float32), out_of(seq![b, 1, hw], Dtype::Bfloat16), out_of(seq![b, tail, conv_dim], Dtype::Bfloat16)],
    }
}

/// One whole step of the recurrence: its state, the gated rows and the convolution's state.
pub(crate) fn gdn_decode_step(
    kernel: &mut MetalKernel,
    tape: &mut Tape,
    proj: &Array,
    conv_state: &Array,
    conv_w: &Array,
    neg_exp_alog: &Array,
    dt_bias: &Array,
    state_in: &Array,
    norm_w: &Array,
    hk: i32,
    hv: i32,
    dk: i32,
    dv: i32,
    kc: i32,
    conv_dim: i32,
    pw: i32,
    b_off: i32,
    a_off: i32,
    z_off: i32,
    eps: u32,
) -> (r: Option<(Array, Array, Array)>)
    requires
        proj.wf(),
        conv_state.wf(),
        conv_w.wf(),
        neg_exp_alog.wf(),
        dt_bias.wf(),
        state_in.wf(),
        norm_w.wf(),
        0 < proj.shape@.len() <= i32::MAX,
        dv >= 0,
        ({ let b = proj.shape@[0]; (fits(hv * dv) && { let hw = (hv * dv) as i32; (fits(kc - 1) && { let tail = (kc - 1) as i32; (fits(dv / 4) && { let quarter = (dv / 4) as i32; fits(b * hv) }) }) }) }),
        ready(old(kernel)@, 3),
        sound_outputs(gdn_decode_step_call(*proj, *conv_state, *conv_w, *neg_exp_alog, *dt_bias, *state_in, *norm_w, hk, hv, dk, dv, kc, conv_dim, pw, b_off, a_off, z_off, eps).outs),
    ensures
        ({
            let (k1, t1, o) = call_s(
                old(kernel)@,
                old(tape)@,
                gdn_decode_step_call(*proj, *conv_state, *conv_w, *neg_exp_alog, *dt_bias, *state_in, *norm_w, hk, hv, dk, dv, kc, conv_dim, pw, b_off, a_off, z_off, eps),
            );
            &&& final(kernel)@ == k1
            &&& final(tape)@ == t1
            &&& got3(r, o)
        }),
        ready(final(kernel)@, 3),
{
    let ghost call = gdn_decode_step_call(*proj, *conv_state, *conv_w, *neg_exp_alog, *dt_bias, *state_in, *norm_w, hk, hv, dk, dv, kc, conv_dim, pw, b_off, a_off, z_off, eps);
    let b = proj.dim(0);
    let hw: i32 = hv * dv;
    let tail: i32 = kc - 1;
    let quarter: i32 = dv / 4;
    let bh: i32 = b * hv;
    let inputs: Vec<&Tensor> = vec![&proj.t, &conv_state.t, &conv_w.t, &neg_exp_alog.t, &dt_bias.t, &state_in.t, &norm_w.t];
    let template: Vec<TemplateArg> = vec![
        TemplateArg::Dtype("InT", Dtype::Bfloat16),
        TemplateArg::Dtype("StT", Dtype::Float32),
        TemplateArg::Int("Dk", dk),
        TemplateArg::Int("Dv", dv),
        TemplateArg::Int("Hk", hk),
        TemplateArg::Int("Hv", hv),
        TemplateArg::Int("KC", kc),
        TemplateArg::Int("CONV_DIM", conv_dim),
        TemplateArg::Int("PW", pw),
        TemplateArg::Int("B_OFF", b_off),
        TemplateArg::Int("A_OFF", a_off),
        TemplateArg::Int("Z_OFF", z_off),
        TemplateArg::Int("EPS_BITS", eps as i32),
        TemplateArg::Int("RPS", 4),
    ];
    let outs: Vec<OutputArg> = vec![
        OutputArg { shape: vec![b, hv, dv, dk], dtype: Dtype::Float32 },
        OutputArg { shape: vec![b, 1, hw], dtype: Dtype::Bfloat16 },
        OutputArg { shape: vec![b, tail, conv_dim], dtype: Dtype::Bfloat16 },
    ];
    proof {
        assert(ref_views(inputs@) =~= call.inputs);
        assert(arg_list(template@) =~= call.template);
        assert(out_list(outs@) =~~= call.outs);
        assert(all_wf(call.inputs));
    }
    let made = launch(
        kernel,
        tape,
        &inputs,
        &template,
        (32, quarter, bh),
        (32, quarter, 1),
        &outs,
    );
    first3(made)
}

} // verus!
