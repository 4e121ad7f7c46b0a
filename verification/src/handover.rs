//! That every custom kernel gets each of its inputs under the name that it knows it by.

use vstd::prelude::*;

use crate::array::ArrayV;
use crate::calls::CallV;
use crate::dtype::Dtype;
use crate::facade::Array;
use crate::kernels::{
    attn_gate_inputs, attn_prep_inputs, attn_prep_split_call, gated_rms_inputs, gdn_decode_inputs,
    gdn_decode_step_call, gdn_prep_call, gdn_prep_fused_call, gdn_prep_fused_inputs,
    gdn_prep_inputs, hc_mix_inputs, moe_combine_call, moe_combine_inputs, ple_conv_call,
    ple_conv_inputs, ple_gated_call, ple_gated_inputs, ple_prod_call, ple_prod_inputs,
    router_gemv_call, router_gemv_inputs, swiglu2_call, swiglu2_inputs,
};
use crate::moe_decode::{
    down_combine_call, down_combine_inputs, down_combine_wide_call, down_combine_wide_inputs,
    down_inject_call, down_inject_inputs, gate_up_act_call, gate_up_act_wide_call, gate_up_inputs,
    gate_up_wide_inputs, route_call, route_inputs, split_k_mixer_call, split_k_mixer_inputs,
    up_mix_call, up_mix_inputs,
};
use crate::ple::{ple_convolve_call, ple_convolve_inputs, ple_prepare_call, ple_prepare_inputs};
use crate::prefill_indirect::{
    down_call, gate_up_call, indirect_down_inputs, indirect_gate_up_inputs, router_partial_call,
    router_partial_inputs,
};
use crate::qsa::{flash_call, flash_inputs, select_inputs};
use crate::recurrence::{recurrence_call, recurrence_inputs};
use crate::routing::{route_scatter_inputs, scatter_call};
use crate::select::select_call;
use crate::steps::{attn_gate_call, copy_rows_call, copy_rows_inputs, gated_rms_call, hc_mix_call};

verus! {

/// A call hands as many inputs over as the kernel has names for.
pub open spec fn matched(names: Seq<Seq<char>>, c: CallV) -> bool {
    names.len() == c.inputs.len()
}

/// An array is handed over under a name.
pub open spec fn gets(names: Seq<Seq<char>>, c: CallV, name: Seq<char>, a: ArrayV) -> bool {
    exists|i: int|
        0 <= i < names.len() && #[trigger] names[i] == name && c.inputs[i] == a
}

/// The experts, their weights, the shared expert and its gate reach the sum under their own names.
pub proof fn moe_combine_gets_its_inputs(
    routed: Array,
    w: Array,
    inverse_order: Array,
    shared: Array,
    gate: Array,
    top_k: i32,
    h: i32,
    rows: i32,
)
    ensures
        ({
            let c = moe_combine_call(routed, w, inverse_order, shared, gate, top_k, h, rows);
            let n = moe_combine_inputs();
            &&& matched(n, c)
            &&& gets(n, c, "routed"@, routed.t@)
            &&& gets(n, c, "w"@, w.t@)
            &&& gets(n, c, "shared"@, shared.t@)
            &&& gets(n, c, "gate"@, gate.t@)
            &&& gets(n, c, "inverse_order"@, inverse_order.t@)
        }),
{
    let c = moe_combine_call(routed, w, inverse_order, shared, gate, top_k, h, rows);
    let n = moe_combine_inputs();
    assert(n[0] == "routed"@ && c.inputs[0] == routed.t@);
    assert(n[1] == "w"@ && c.inputs[1] == w.t@);
    assert(n[2] == "shared"@ && c.inputs[2] == shared.t@);
    assert(n[3] == "gate"@ && c.inputs[3] == gate.t@);
    assert(n[4] == "inverse_order"@ && c.inputs[4] == inverse_order.t@);
}

/// The projections and the gates reach the preparation of the recurrence under their own names.
pub proof fn gdn_prep_gets_its_inputs(
    qkv: Array,
    conv_state: Array,
    conv_w: Array,
    neg_exp_alog: Array,
    dt_bias: Array,
    b_gate: Array,
    a_gate: Array,
    t_len: i32,
    hk: i32,
    hv: i32,
    dk: i32,
    dv: i32,
    kc: i32,
    conv_dim: i32,
)
    ensures
        ({
            let c = gdn_prep_call(qkv, conv_state, conv_w, neg_exp_alog, dt_bias, b_gate, a_gate, t_len, hk, hv, dk, dv, kc, conv_dim);
            let n = gdn_prep_inputs();
            &&& matched(n, c)
            &&& gets(n, c, "proj"@, qkv.t@)
            &&& gets(n, c, "conv_state"@, conv_state.t@)
            &&& gets(n, c, "conv_w"@, conv_w.t@)
            &&& gets(n, c, "neg_exp_alog"@, neg_exp_alog.t@)
            &&& gets(n, c, "dt_bias"@, dt_bias.t@)
            &&& gets(n, c, "b_gate"@, b_gate.t@)
            &&& gets(n, c, "a_gate"@, a_gate.t@)
        }),
{
    let c = gdn_prep_call(qkv, conv_state, conv_w, neg_exp_alog, dt_bias, b_gate, a_gate, t_len, hk, hv, dk, dv, kc, conv_dim);
    let n = gdn_prep_inputs();
    assert(n[0] == "proj"@ && c.inputs[0] == qkv.t@);
    assert(n[1] == "conv_state"@ && c.inputs[1] == conv_state.t@);
    assert(n[2] == "conv_w"@ && c.inputs[2] == conv_w.t@);
    assert(n[3] == "neg_exp_alog"@ && c.inputs[3] == neg_exp_alog.t@);
    assert(n[4] == "dt_bias"@ && c.inputs[4] == dt_bias.t@);
    assert(n[5] == "b_gate"@ && c.inputs[5] == b_gate.t@);
    assert(n[6] == "a_gate"@ && c.inputs[6] == a_gate.t@);
}

/// The joint projection reaches the preparation of the recurrence under its own name.
pub proof fn gdn_prep_fused_gets_its_inputs(
    proj: Array,
    conv_state: Array,
    conv_w: Array,
    neg_exp_alog: Array,
    dt_bias: Array,
    b_off: i32,
    a_off: i32,
    t_len: i32,
    hk: i32,
    hv: i32,
    dk: i32,
    dv: i32,
    kc: i32,
    proj_w: i32,
    conv_dim: i32,
)
    ensures
        ({
            let c = gdn_prep_fused_call(proj, conv_state, conv_w, neg_exp_alog, dt_bias, b_off, a_off, t_len, hk, hv, dk, dv, kc, proj_w, conv_dim);
            let n = gdn_prep_fused_inputs();
            &&& matched(n, c)
            &&& gets(n, c, "proj"@, proj.t@)
            &&& gets(n, c, "conv_state"@, conv_state.t@)
            &&& gets(n, c, "conv_w"@, conv_w.t@)
            &&& gets(n, c, "neg_exp_alog"@, neg_exp_alog.t@)
            &&& gets(n, c, "dt_bias"@, dt_bias.t@)
        }),
{
    let c = gdn_prep_fused_call(proj, conv_state, conv_w, neg_exp_alog, dt_bias, b_off, a_off, t_len, hk, hv, dk, dv, kc, proj_w, conv_dim);
    let n = gdn_prep_fused_inputs();
    assert(n[0] == "proj"@ && c.inputs[0] == proj.t@);
    assert(n[1] == "conv_state"@ && c.inputs[1] == conv_state.t@);
    assert(n[2] == "conv_w"@ && c.inputs[2] == conv_w.t@);
    assert(n[3] == "neg_exp_alog"@ && c.inputs[3] == neg_exp_alog.t@);
    assert(n[4] == "dt_bias"@ && c.inputs[4] == dt_bias.t@);
}

/// The values, the gates and the weight reach the gated norm under their own names.
pub proof fn gated_norm_gets_its_inputs(
    y: ArrayV,
    z: ArrayV,
    w: ArrayV,
    hv: i32,
    dv: i32,
    rows: i32,
    eps: u32,
)
    ensures
        ({
            let c = gated_rms_call(y, z, w, hv, dv, rows, eps);
            let n = gated_rms_inputs();
            &&& matched(n, c)
            &&& gets(n, c, "y"@, y)
            &&& gets(n, c, "zproj"@, z)
            &&& gets(n, c, "w"@, w)
        }),
{
    let c = gated_rms_call(y, z, w, hv, dv, rows, eps);
    let n = gated_rms_inputs();
    assert(n[0] == "y"@ && c.inputs[0] == y);
    assert(n[1] == "zproj"@ && c.inputs[1] == z);
    assert(n[2] == "w"@ && c.inputs[2] == w);
}

/// The weight, the normed streams and what is injected reach the mixing under their own names.
pub proof fn mixing_gets_its_inputs(
    w: ArrayV,
    normed: ArrayV,
    inj: ArrayV,
    hc: i32,
    hidden: i32,
    rows: i32,
    has_inject: bool,
)
    ensures
        ({
            let c = hc_mix_call(w, normed, inj, hc, hidden, rows, has_inject);
            let n = hc_mix_inputs();
            &&& matched(n, c)
            &&& gets(n, c, "w"@, w)
            &&& gets(n, c, "normed"@, normed)
            &&& gets(n, c, "inj"@, inj)
        }),
{
    let c = hc_mix_call(w, normed, inj, hc, hidden, rows, has_inject);
    let n = hc_mix_inputs();
    assert(n[0] == "w"@ && c.inputs[0] == w);
    assert(n[1] == "normed"@ && c.inputs[1] == normed);
    assert(n[2] == "inj"@ && c.inputs[2] == inj);
}

/// Both halves reach the activation under their own names.
pub proof fn swiglu_gets_its_inputs(
    gate: Array,
    up: Array,
)
    ensures
        ({
            let c = swiglu2_call(gate, up);
            let n = swiglu2_inputs();
            &&& matched(n, c)
            &&& gets(n, c, "gate"@, gate.t@)
            &&& gets(n, c, "up"@, up.t@)
        }),
{
    let c = swiglu2_call(gate, up);
    let n = swiglu2_inputs();
    assert(n[0] == "gate"@ && c.inputs[0] == gate.t@);
    assert(n[1] == "up"@ && c.inputs[1] == up.t@);
}

/// The keys and the stream reach the product with their own scales.
pub proof fn embedding_product_gets_its_inputs(
    key_flat: Array,
    stream: Array,
    k_scale: Array,
    q_scale: Array,
    eps: Array,
    hc: i32,
    hidden: i32,
)
    ensures
        ({
            let c = ple_prod_call(key_flat, stream, k_scale, q_scale, eps, hc, hidden);
            let n = ple_prod_inputs();
            &&& matched(n, c)
            &&& gets(n, c, "keyFlat"@, key_flat.t@)
            &&& gets(n, c, "stream"@, stream.t@)
            &&& gets(n, c, "kscale"@, k_scale.t@)
            &&& gets(n, c, "qscale"@, q_scale.t@)
            &&& gets(n, c, "eps"@, eps.t@)
        }),
{
    let c = ple_prod_call(key_flat, stream, k_scale, q_scale, eps, hc, hidden);
    let n = ple_prod_inputs();
    assert(n[0] == "keyFlat"@ && c.inputs[0] == key_flat.t@);
    assert(n[1] == "stream"@ && c.inputs[1] == stream.t@);
    assert(n[2] == "kscale"@ && c.inputs[2] == k_scale.t@);
    assert(n[3] == "qscale"@ && c.inputs[3] == q_scale.t@);
    assert(n[4] == "eps"@ && c.inputs[4] == eps.t@);
}

/// A product, its values and their bounds reach the gating under their own names.
pub proof fn embedding_gate_gets_its_inputs(
    g0: Array,
    value: Array,
    c_scale: Array,
    divisor: Array,
    floor: Array,
    eps: Array,
    hc: i32,
    hidden: i32,
)
    ensures
        ({
            let c = ple_gated_call(g0, value, c_scale, divisor, floor, eps, hc, hidden);
            let n = ple_gated_inputs();
            &&& matched(n, c)
            &&& gets(n, c, "g0"@, g0.t@)
            &&& gets(n, c, "value"@, value.t@)
            &&& gets(n, c, "cscale"@, c_scale.t@)
            &&& gets(n, c, "divisor"@, divisor.t@)
            &&& gets(n, c, "floorv"@, floor.t@)
            &&& gets(n, c, "eps"@, eps.t@)
        }),
{
    let c = ple_gated_call(g0, value, c_scale, divisor, floor, eps, hc, hidden);
    let n = ple_gated_inputs();
    assert(n[0] == "g0"@ && c.inputs[0] == g0.t@);
    assert(n[1] == "value"@ && c.inputs[1] == value.t@);
    assert(n[2] == "cscale"@ && c.inputs[2] == c_scale.t@);
    assert(n[3] == "divisor"@ && c.inputs[3] == divisor.t@);
    assert(n[4] == "floorv"@ && c.inputs[4] == floor.t@);
    assert(n[5] == "eps"@ && c.inputs[5] == eps.t@);
}

/// The history, the weight and the gated values reach the convolution under their own names.
pub proof fn embedding_convolution_gets_its_inputs(
    full: Array,
    conv_w: Array,
    gated: Array,
    dilation: i32,
)
    ensures
        ({
            let c = ple_conv_call(full, conv_w, gated, dilation);
            let n = ple_conv_inputs();
            &&& matched(n, c)
            &&& gets(n, c, "full"@, full.t@)
            &&& gets(n, c, "convw"@, conv_w.t@)
            &&& gets(n, c, "gated"@, gated.t@)
        }),
{
    let c = ple_conv_call(full, conv_w, gated, dilation);
    let n = ple_conv_inputs();
    assert(n[0] == "full"@ && c.inputs[0] == full.t@);
    assert(n[1] == "convw"@ && c.inputs[1] == conv_w.t@);
    assert(n[2] == "gated"@ && c.inputs[2] == gated.t@);
}

/// The rows and the weight reach the router under their own names.
pub proof fn router_gets_its_inputs(
    x: Array,
    w: Array,
)
    ensures
        ({
            let c = router_gemv_call(x, w);
            let n = router_gemv_inputs();
            &&& matched(n, c)
            &&& gets(n, c, "x"@, x.t@)
            &&& gets(n, c, "w"@, w.t@)
        }),
{
    let c = router_gemv_call(x, w);
    let n = router_gemv_inputs();
    assert(n[0] == "x"@ && c.inputs[0] == x.t@);
    assert(n[1] == "w"@ && c.inputs[1] == w.t@);
}

/// Every projection reaches the preparation of attention with its own norm, and the angles with their own function.
pub proof fn attention_preparation_gets_its_inputs(
    qkv: Array,
    kproj: Array,
    vproj: Array,
    q_norm: Array,
    k_norm: Array,
    cos: Array,
    sin: Array,
    heads: i32,
    kv_heads: i32,
    head_dim: i32,
    rotary_dims: i32,
    eps: u32,
)
    ensures
        ({
            let c = attn_prep_split_call(qkv, kproj, vproj, q_norm, k_norm, cos, sin, heads, kv_heads, head_dim, rotary_dims, eps);
            let n = attn_prep_inputs();
            &&& matched(n, c)
            &&& gets(n, c, "qkv"@, qkv.t@)
            &&& gets(n, c, "kproj"@, kproj.t@)
            &&& gets(n, c, "vproj"@, vproj.t@)
            &&& gets(n, c, "qnorm"@, q_norm.t@)
            &&& gets(n, c, "knorm"@, k_norm.t@)
            &&& gets(n, c, "cosb"@, cos.t@)
            &&& gets(n, c, "sinb"@, sin.t@)
        }),
{
    let c = attn_prep_split_call(qkv, kproj, vproj, q_norm, k_norm, cos, sin, heads, kv_heads, head_dim, rotary_dims, eps);
    let n = attn_prep_inputs();
    assert(n[0] == "qkv"@ && c.inputs[0] == qkv.t@);
    assert(n[1] == "kproj"@ && c.inputs[1] == kproj.t@);
    assert(n[2] == "vproj"@ && c.inputs[2] == vproj.t@);
    assert(n[3] == "qnorm"@ && c.inputs[3] == q_norm.t@);
    assert(n[4] == "knorm"@ && c.inputs[4] == k_norm.t@);
    assert(n[5] == "cosb"@ && c.inputs[5] == cos.t@);
    assert(n[6] == "sinb"@ && c.inputs[6] == sin.t@);
}

/// The attention and its gate reach the gating under their own names.
pub proof fn attention_gate_gets_its_inputs(
    att: ArrayV,
    gate: ArrayV,
    heads: i32,
    head_dim: i32,
    rows: i32,
)
    ensures
        ({
            let c = attn_gate_call(att, gate, heads, head_dim, rows);
            let n = attn_gate_inputs();
            &&& matched(n, c)
            &&& gets(n, c, "att"@, att)
            &&& gets(n, c, "gateb"@, gate)
        }),
{
    let c = attn_gate_call(att, gate, heads, head_dim, rows);
    let n = attn_gate_inputs();
    assert(n[0] == "att"@ && c.inputs[0] == att);
    assert(n[1] == "gateb"@ && c.inputs[1] == gate);
}

/// The projection, both states and the weights reach a step of decoding under their own names.
pub proof fn decode_step_gets_its_inputs(
    proj: Array,
    conv_state: Array,
    conv_w: Array,
    neg_exp_alog: Array,
    dt_bias: Array,
    state_in: Array,
    norm_w: Array,
    hk: i32,
    hv: i32,
    dk: i32,
    dv: i32,
    kc: i32,
    conv_dim: i32,
    pw: i32,
    b_off: i32,
    a_off: i32,
    z_off: i32,
    eps: u32,
)
    ensures
        ({
            let c = gdn_decode_step_call(proj, conv_state, conv_w, neg_exp_alog, dt_bias, state_in, norm_w, hk, hv, dk, dv, kc, conv_dim, pw, b_off, a_off, z_off, eps);
            let n = gdn_decode_inputs();
            &&& matched(n, c)
            &&& gets(n, c, "proj"@, proj.t@)
            &&& gets(n, c, "conv_state"@, conv_state.t@)
            &&& gets(n, c, "conv_w"@, conv_w.t@)
            &&& gets(n, c, "neg_exp_alog"@, neg_exp_alog.t@)
            &&& gets(n, c, "dt_bias"@, dt_bias.t@)
            &&& gets(n, c, "state_in"@, state_in.t@)
            &&& gets(n, c, "w"@, norm_w.t@)
        }),
{
    let c = gdn_decode_step_call(proj, conv_state, conv_w, neg_exp_alog, dt_bias, state_in, norm_w, hk, hv, dk, dv, kc, conv_dim, pw, b_off, a_off, z_off, eps);
    let n = gdn_decode_inputs();
    assert(n[0] == "proj"@ && c.inputs[0] == proj.t@);
    assert(n[1] == "conv_state"@ && c.inputs[1] == conv_state.t@);
    assert(n[2] == "conv_w"@ && c.inputs[2] == conv_w.t@);
    assert(n[3] == "neg_exp_alog"@ && c.inputs[3] == neg_exp_alog.t@);
    assert(n[4] == "dt_bias"@ && c.inputs[4] == dt_bias.t@);
    assert(n[5] == "state_in"@ && c.inputs[5] == state_in.t@);
    assert(n[6] == "w"@ && c.inputs[6] == norm_w.t@);
}

/// The logits, the rows and the packed gate with its scales and biases reach the routing under their own names.
pub proof fn routing_gets_its_inputs(
    logits: Array,
    x: Array,
    sg_w: Array,
    sg_s: Array,
    sg_b: Array,
    top_k: i32,
    e: i32,
    kd: i32,
    rows: i32,
)
    ensures
        ({
            let c = route_call(logits, x, sg_w, sg_s, sg_b, top_k, e, kd, rows);
            let n = route_inputs();
            &&& matched(n, c)
            &&& gets(n, c, "logits"@, logits.t@)
            &&& gets(n, c, "x"@, x.t@)
            &&& gets(n, c, "wg"@, sg_w.t@)
            &&& gets(n, c, "sgw"@, sg_s.t@)
            &&& gets(n, c, "bgw"@, sg_b.t@)
        }),
{
    let c = route_call(logits, x, sg_w, sg_s, sg_b, top_k, e, kd, rows);
    let n = route_inputs();
    assert(n[0] == "logits"@ && c.inputs[0] == logits.t@);
    assert(n[1] == "x"@ && c.inputs[1] == x.t@);
    assert(n[2] == "wg"@ && c.inputs[2] == sg_w.t@);
    assert(n[3] == "sgw"@ && c.inputs[3] == sg_s.t@);
    assert(n[4] == "bgw"@ && c.inputs[4] == sg_b.t@);
}

/// Every packed weight reaches the first half of the experts with its own scales and biases.
pub proof fn expert_gates_get_their_inputs(
    wg: Array,
    sg: Array,
    bg: Array,
    wu: Array,
    su: Array,
    bu: Array,
    wsh: Array,
    ssh: Array,
    bsh: Array,
    x: Array,
    idx: Array,
    xrow: Array,
    br: i32,
    n: i32,
    kd: i32,
    s: i32,
)
    ensures
        ({
            let c = gate_up_act_call(wg, sg, bg, wu, su, bu, wsh, ssh, bsh, x, idx, xrow, br, n, kd, s);
            let n = gate_up_inputs();
            &&& matched(n, c)
            &&& gets(n, c, "wg"@, wg.t@)
            &&& gets(n, c, "sg"@, sg.t@)
            &&& gets(n, c, "bg"@, bg.t@)
            &&& gets(n, c, "wu"@, wu.t@)
            &&& gets(n, c, "su"@, su.t@)
            &&& gets(n, c, "bu"@, bu.t@)
            &&& gets(n, c, "wsh"@, wsh.t@)
            &&& gets(n, c, "ssh"@, ssh.t@)
            &&& gets(n, c, "bsh"@, bsh.t@)
            &&& gets(n, c, "x"@, x.t@)
            &&& gets(n, c, "idx"@, idx.t@)
            &&& gets(n, c, "xrow"@, xrow.t@)
        }),
{
    let c = gate_up_act_call(wg, sg, bg, wu, su, bu, wsh, ssh, bsh, x, idx, xrow, br, n, kd, s);
    let n = gate_up_inputs();
    assert(n[0] == "wg"@ && c.inputs[0] == wg.t@);
    assert(n[1] == "sg"@ && c.inputs[1] == sg.t@);
    assert(n[2] == "bg"@ && c.inputs[2] == bg.t@);
    assert(n[3] == "wu"@ && c.inputs[3] == wu.t@);
    assert(n[4] == "su"@ && c.inputs[4] == su.t@);
    assert(n[5] == "bu"@ && c.inputs[5] == bu.t@);
    assert(n[6] == "wsh"@ && c.inputs[6] == wsh.t@);
    assert(n[7] == "ssh"@ && c.inputs[7] == ssh.t@);
    assert(n[8] == "bsh"@ && c.inputs[8] == bsh.t@);
    assert(n[9] == "x"@ && c.inputs[9] == x.t@);
    assert(n[10] == "idx"@ && c.inputs[10] == idx.t@);
    assert(n[11] == "xrow"@ && c.inputs[11] == xrow.t@);
}

/// Every packed weight reaches the second half of the experts with its own scales and biases.
pub proof fn expert_sums_get_their_inputs(
    wd: Array,
    sd: Array,
    bd: Array,
    wsd: Array,
    ssd: Array,
    bsd: Array,
    act: Array,
    idx: Array,
    w: Array,
    gate: Array,
    top_k: i32,
    f: i32,
    h: i32,
    br: i32,
    s: i32,
)
    ensures
        ({
            let c = down_combine_call(wd, sd, bd, wsd, ssd, bsd, act, idx, w, gate, top_k, f, h, br, s);
            let n = down_combine_inputs();
            &&& matched(n, c)
            &&& gets(n, c, "wd"@, wd.t@)
            &&& gets(n, c, "sd"@, sd.t@)
            &&& gets(n, c, "bd"@, bd.t@)
            &&& gets(n, c, "wsd"@, wsd.t@)
            &&& gets(n, c, "ssd"@, ssd.t@)
            &&& gets(n, c, "bsd"@, bsd.t@)
            &&& gets(n, c, "act"@, act.t@)
            &&& gets(n, c, "idx"@, idx.t@)
            &&& gets(n, c, "w"@, w.t@)
            &&& gets(n, c, "gate"@, gate.t@)
        }),
{
    let c = down_combine_call(wd, sd, bd, wsd, ssd, bsd, act, idx, w, gate, top_k, f, h, br, s);
    let n = down_combine_inputs();
    assert(n[0] == "wd"@ && c.inputs[0] == wd.t@);
    assert(n[1] == "sd"@ && c.inputs[1] == sd.t@);
    assert(n[2] == "bd"@ && c.inputs[2] == bd.t@);
    assert(n[3] == "wsd"@ && c.inputs[3] == wsd.t@);
    assert(n[4] == "ssd"@ && c.inputs[4] == ssd.t@);
    assert(n[5] == "bsd"@ && c.inputs[5] == bsd.t@);
    assert(n[6] == "act"@ && c.inputs[6] == act.t@);
    assert(n[7] == "idx"@ && c.inputs[7] == idx.t@);
    assert(n[8] == "w"@ && c.inputs[8] == w.t@);
    assert(n[9] == "gate"@ && c.inputs[9] == gate.t@);
}

/// Over several rows every packed weight reaches the first half of the experts with its own scales and biases.
pub proof fn wide_expert_gates_get_their_inputs(
    wg: Array,
    sg: Array,
    bg: Array,
    wu: Array,
    su: Array,
    bu: Array,
    wsh: Array,
    ssh: Array,
    bsh: Array,
    x: Array,
    idx: Array,
    xrow: Array,
    br: i32,
    n: i32,
    kd: i32,
    s: i32,
)
    ensures
        ({
            let c = gate_up_act_wide_call(wg, sg, bg, wu, su, bu, wsh, ssh, bsh, x, idx, xrow, br, n, kd, s);
            let n = gate_up_wide_inputs();
            &&& matched(n, c)
            &&& gets(n, c, "wg"@, wg.t@)
            &&& gets(n, c, "sg"@, sg.t@)
            &&& gets(n, c, "bg"@, bg.t@)
            &&& gets(n, c, "wu"@, wu.t@)
            &&& gets(n, c, "su"@, su.t@)
            &&& gets(n, c, "bu"@, bu.t@)
            &&& gets(n, c, "wsh"@, wsh.t@)
            &&& gets(n, c, "ssh"@, ssh.t@)
            &&& gets(n, c, "bsh"@, bsh.t@)
            &&& gets(n, c, "x"@, x.t@)
            &&& gets(n, c, "idx"@, idx.t@)
            &&& gets(n, c, "xrow"@, xrow.t@)
        }),
{
    let c = gate_up_act_wide_call(wg, sg, bg, wu, su, bu, wsh, ssh, bsh, x, idx, xrow, br, n, kd, s);
    let n = gate_up_wide_inputs();
    assert(n[0] == "wg"@ && c.inputs[0] == wg.t@);
    assert(n[1] == "sg"@ && c.inputs[1] == sg.t@);
    assert(n[2] == "bg"@ && c.inputs[2] == bg.t@);
    assert(n[3] == "wu"@ && c.inputs[3] == wu.t@);
    assert(n[4] == "su"@ && c.inputs[4] == su.t@);
    assert(n[5] == "bu"@ && c.inputs[5] == bu.t@);
    assert(n[6] == "wsh"@ && c.inputs[6] == wsh.t@);
    assert(n[7] == "ssh"@ && c.inputs[7] == ssh.t@);
    assert(n[8] == "bsh"@ && c.inputs[8] == bsh.t@);
    assert(n[9] == "x"@ && c.inputs[9] == x.t@);
    assert(n[10] == "idx"@ && c.inputs[10] == idx.t@);
    assert(n[11] == "xrow"@ && c.inputs[11] == xrow.t@);
}

/// Over several rows every packed weight reaches the second half of the experts with its own scales and biases.
pub proof fn wide_expert_sums_get_their_inputs(
    wd: Array,
    sd: Array,
    bd: Array,
    wsd: Array,
    ssd: Array,
    bsd: Array,
    act: Array,
    idx: Array,
    w: Array,
    gate: Array,
    top_k: i32,
    f: i32,
    h: i32,
    br: i32,
    s: i32,
)
    ensures
        ({
            let c = down_combine_wide_call(wd, sd, bd, wsd, ssd, bsd, act, idx, w, gate, top_k, f, h, br, s);
            let n = down_combine_wide_inputs();
            &&& matched(n, c)
            &&& gets(n, c, "wd"@, wd.t@)
            &&& gets(n, c, "sd"@, sd.t@)
            &&& gets(n, c, "bd"@, bd.t@)
            &&& gets(n, c, "wsd"@, wsd.t@)
            &&& gets(n, c, "ssd"@, ssd.t@)
            &&& gets(n, c, "bsd"@, bsd.t@)
            &&& gets(n, c, "act"@, act.t@)
            &&& gets(n, c, "idx"@, idx.t@)
            &&& gets(n, c, "w"@, w.t@)
            &&& gets(n, c, "gate"@, gate.t@)
        }),
{
    let c = down_combine_wide_call(wd, sd, bd, wsd, ssd, bsd, act, idx, w, gate, top_k, f, h, br, s);
    let n = down_combine_wide_inputs();
    assert(n[0] == "wd"@ && c.inputs[0] == wd.t@);
    assert(n[1] == "sd"@ && c.inputs[1] == sd.t@);
    assert(n[2] == "bd"@ && c.inputs[2] == bd.t@);
    assert(n[3] == "wsd"@ && c.inputs[3] == wsd.t@);
    assert(n[4] == "ssd"@ && c.inputs[4] == ssd.t@);
    assert(n[5] == "bsd"@ && c.inputs[5] == bsd.t@);
    assert(n[6] == "act"@ && c.inputs[6] == act.t@);
    assert(n[7] == "idx"@ && c.inputs[7] == idx.t@);
    assert(n[8] == "w"@ && c.inputs[8] == w.t@);
    assert(n[9] == "gate"@ && c.inputs[9] == gate.t@);
}

/// Both packed weights of the mixer reach it with their own scales and biases.
pub proof fn mixer_halves_get_their_inputs(
    normed: Array,
    wd: Array,
    sd: Array,
    bd: Array,
    wi: Array,
    si: Array,
    bi: Array,
    kd: i32,
    nd: i32,
    hc: i32,
    s: i32,
    has_inject: bool,
)
    ensures
        ({
            let c = down_inject_call(normed, wd, sd, bd, wi, si, bi, kd, nd, hc, s, has_inject);
            let n = down_inject_inputs();
            &&& matched(n, c)
            &&& gets(n, c, "normed"@, normed.t@)
            &&& gets(n, c, "wd"@, wd.t@)
            &&& gets(n, c, "sd"@, sd.t@)
            &&& gets(n, c, "bd"@, bd.t@)
            &&& gets(n, c, "wi"@, wi.t@)
            &&& gets(n, c, "si"@, si.t@)
            &&& gets(n, c, "bi"@, bi.t@)
        }),
{
    let c = down_inject_call(normed, wd, sd, bd, wi, si, bi, kd, nd, hc, s, has_inject);
    let n = down_inject_inputs();
    assert(n[0] == "normed"@ && c.inputs[0] == normed.t@);
    assert(n[1] == "wd"@ && c.inputs[1] == wd.t@);
    assert(n[2] == "sd"@ && c.inputs[2] == sd.t@);
    assert(n[3] == "bd"@ && c.inputs[3] == bd.t@);
    assert(n[4] == "wi"@ && c.inputs[4] == wi.t@);
    assert(n[5] == "si"@ && c.inputs[5] == si.t@);
    assert(n[6] == "bi"@ && c.inputs[6] == bi.t@);
}

/// The activations, the streams and the packed weight reach the end of the mixer under their own names.
pub proof fn mixer_sums_get_their_inputs(
    act: Array,
    normed: Array,
    wu: Array,
    su: Array,
    bu: Array,
    inj: Array,
    lut: Array,
    hidden: i32,
    hc: i32,
    s: i32,
    has_inject: bool,
    packed_rows: bool,
)
    ensures
        ({
            let c = up_mix_call(act, normed, wu, su, bu, inj, lut, hidden, hc, s, has_inject, packed_rows);
            let n = up_mix_inputs();
            &&& matched(n, c)
            &&& gets(n, c, "act"@, act.t@)
            &&& gets(n, c, "normed"@, normed.t@)
            &&& gets(n, c, "wu"@, wu.t@)
            &&& gets(n, c, "su"@, su.t@)
            &&& gets(n, c, "bu"@, bu.t@)
            &&& gets(n, c, "inj"@, inj.t@)
            &&& gets(n, c, "sigmoid_lut"@, lut.t@)
        }),
{
    let c = up_mix_call(act, normed, wu, su, bu, inj, lut, hidden, hc, s, has_inject, packed_rows);
    let n = up_mix_inputs();
    assert(n[0] == "act"@ && c.inputs[0] == act.t@);
    assert(n[1] == "normed"@ && c.inputs[1] == normed.t@);
    assert(n[2] == "wu"@ && c.inputs[2] == wu.t@);
    assert(n[3] == "su"@ && c.inputs[3] == su.t@);
    assert(n[4] == "bu"@ && c.inputs[4] == bu.t@);
    assert(n[5] == "inj"@ && c.inputs[5] == inj.t@);
    assert(n[6] == "sigmoid_lut"@ && c.inputs[6] == lut.t@);
}

/// Split over its length, the mixer gets both packed weights with their own scales and biases.
pub proof fn split_mixer_gets_its_inputs(
    x: Array,
    wd: Array,
    sd: Array,
    bd: Array,
    wi: Array,
    si: Array,
    bi: Array,
    n: i32,
    hc: i32,
    has_inject: bool,
    partitions: i32,
)
    ensures
        ({
            let c = split_k_mixer_call(x, wd, sd, bd, wi, si, bi, n, hc, has_inject, partitions);
            let n = split_k_mixer_inputs();
            &&& matched(n, c)
            &&& gets(n, c, "x"@, x.t@)
            &&& gets(n, c, "wd"@, wd.t@)
            &&& gets(n, c, "sd"@, sd.t@)
            &&& gets(n, c, "bd"@, bd.t@)
            &&& gets(n, c, "wi"@, wi.t@)
            &&& gets(n, c, "si"@, si.t@)
            &&& gets(n, c, "bi"@, bi.t@)
        }),
{
    let c = split_k_mixer_call(x, wd, sd, bd, wi, si, bi, n, hc, has_inject, partitions);
    let n = split_k_mixer_inputs();
    assert(n[0] == "x"@ && c.inputs[0] == x.t@);
    assert(n[1] == "wd"@ && c.inputs[1] == wd.t@);
    assert(n[2] == "sd"@ && c.inputs[2] == sd.t@);
    assert(n[3] == "bd"@ && c.inputs[3] == bd.t@);
    assert(n[4] == "wi"@ && c.inputs[4] == wi.t@);
    assert(n[5] == "si"@ && c.inputs[5] == si.t@);
    assert(n[6] == "bi"@ && c.inputs[6] == bi.t@);
}

/// Rows are copied from the source into the target, and not the other way round.
pub proof fn row_copies_get_their_inputs(
    src: Array,
    dst: Array,
    off: ArrayV,
)
    ensures
        ({
            let c = copy_rows_call(src, dst, off);
            let n = copy_rows_inputs();
            &&& matched(n, c)
            &&& gets(n, c, "src"@, src.t@)
            &&& gets(n, c, "dst"@, dst.t@)
            &&& gets(n, c, "off"@, off)
        }),
{
    let c = copy_rows_call(src, dst, off);
    let n = copy_rows_inputs();
    assert(n[0] == "src"@ && c.inputs[0] == src.t@);
    assert(n[1] == "dst"@ && c.inputs[1] == dst.t@);
    assert(n[2] == "off"@ && c.inputs[2] == off);
}

/// The queries, keys, values, decays, rates and the state reach the recurrence under their own names.
pub proof fn recurrence_gets_its_inputs(
    q: Array,
    k: Array,
    v: Array,
    g: Array,
    beta: Array,
    state: Array,
    steps: ArrayV,
    capture: bool,
    rows: i32,
    in_type: Dtype,
    state_type: Dtype,
)
    ensures
        ({
            let c = recurrence_call(q, k, v, g, beta, state, steps, capture, rows, in_type, state_type);
            let n = recurrence_inputs();
            &&& matched(n, c)
            &&& gets(n, c, "q"@, q.t@)
            &&& gets(n, c, "k"@, k.t@)
            &&& gets(n, c, "v"@, v.t@)
            &&& gets(n, c, "g"@, g.t@)
            &&& gets(n, c, "beta"@, beta.t@)
            &&& gets(n, c, "state_in"@, state.t@)
            &&& gets(n, c, "T"@, steps)
        }),
{
    let c = recurrence_call(q, k, v, g, beta, state, steps, capture, rows, in_type, state_type);
    let n = recurrence_inputs();
    assert(n[0] == "q"@ && c.inputs[0] == q.t@);
    assert(n[1] == "k"@ && c.inputs[1] == k.t@);
    assert(n[2] == "v"@ && c.inputs[2] == v.t@);
    assert(n[3] == "g"@ && c.inputs[3] == g.t@);
    assert(n[4] == "beta"@ && c.inputs[4] == beta.t@);
    assert(n[5] == "state_in"@ && c.inputs[5] == state.t@);
    assert(n[6] == "T"@ && c.inputs[6] == steps);
}

/// The keys, queries and values reach the preparation with their own scales.
pub proof fn embedding_preparation_gets_its_inputs(
    key: Array,
    query: Array,
    value: Array,
    key_scale: Array,
    query_scale: Array,
    conv_scale: Array,
    conv_state: Array,
    eps: u32,
)
    ensures
        ({
            let c = ple_prepare_call(key, query, value, key_scale, query_scale, conv_scale, conv_state, eps);
            let n = ple_prepare_inputs();
            &&& matched(n, c)
            &&& gets(n, c, "key"@, key.t@)
            &&& gets(n, c, "query"@, query.t@)
            &&& gets(n, c, "value"@, value.t@)
            &&& gets(n, c, "keyScale"@, key_scale.t@)
            &&& gets(n, c, "queryScale"@, query_scale.t@)
            &&& gets(n, c, "convScale"@, conv_scale.t@)
            &&& gets(n, c, "convState"@, conv_state.t@)
        }),
{
    let c = ple_prepare_call(key, query, value, key_scale, query_scale, conv_scale, conv_state, eps);
    let n = ple_prepare_inputs();
    assert(n[0] == "key"@ && c.inputs[0] == key.t@);
    assert(n[1] == "query"@ && c.inputs[1] == query.t@);
    assert(n[2] == "value"@ && c.inputs[2] == value.t@);
    assert(n[3] == "keyScale"@ && c.inputs[3] == key_scale.t@);
    assert(n[4] == "queryScale"@ && c.inputs[4] == query_scale.t@);
    assert(n[5] == "convScale"@ && c.inputs[5] == conv_scale.t@);
    assert(n[6] == "convState"@ && c.inputs[6] == conv_state.t@);
}

/// The history, the weight and the gated values reach the joint convolution under their own names.
pub proof fn joint_convolution_gets_its_inputs(
    full: ArrayV,
    conv_w: ArrayV,
    gated: ArrayV,
)
    ensures
        ({
            let c = ple_convolve_call(full, conv_w, gated);
            let n = ple_convolve_inputs();
            &&& matched(n, c)
            &&& gets(n, c, "full"@, full)
            &&& gets(n, c, "weight"@, conv_w)
            &&& gets(n, c, "gated"@, gated)
        }),
{
    let c = ple_convolve_call(full, conv_w, gated);
    let n = ple_convolve_inputs();
    assert(n[0] == "full"@ && c.inputs[0] == full);
    assert(n[1] == "weight"@ && c.inputs[1] == conv_w);
    assert(n[2] == "gated"@ && c.inputs[2] == gated);
}

/// The queries, keys and values reach the sparse attention with the blocks that were selected.
pub proof fn sparse_attention_gets_its_inputs(
    q: Array,
    k: Array,
    v: Array,
    block_ids: Array,
    block_valid: Array,
    params: ArrayV,
    scale: ArrayV,
)
    ensures
        ({
            let c = flash_call(q, k, v, block_ids, block_valid, params, scale);
            let n = flash_inputs();
            &&& matched(n, c)
            &&& gets(n, c, "q"@, q.t@)
            &&& gets(n, c, "k"@, k.t@)
            &&& gets(n, c, "v"@, v.t@)
            &&& gets(n, c, "block_ids"@, block_ids.t@)
            &&& gets(n, c, "block_valid"@, block_valid.t@)
            &&& gets(n, c, "params"@, params)
            &&& gets(n, c, "scale"@, scale)
        }),
{
    let c = flash_call(q, k, v, block_ids, block_valid, params, scale);
    let n = flash_inputs();
    assert(n[0] == "q"@ && c.inputs[0] == q.t@);
    assert(n[1] == "k"@ && c.inputs[1] == k.t@);
    assert(n[2] == "v"@ && c.inputs[2] == v.t@);
    assert(n[3] == "block_ids"@ && c.inputs[3] == block_ids.t@);
    assert(n[4] == "block_valid"@ && c.inputs[4] == block_valid.t@);
    assert(n[5] == "params"@ && c.inputs[5] == params);
    assert(n[6] == "scale"@ && c.inputs[6] == scale);
}

/// The queries and the pooled keys reach the selection of blocks with their positions.
pub proof fn block_selection_gets_its_inputs(
    q: ArrayV,
    pooled: ArrayV,
    start: ArrayV,
    total: ArrayV,
    blocks: ArrayV,
    qt: i32,
)
    ensures
        ({
            let c = select_call(q, pooled, start, total, blocks, qt);
            let n = select_inputs();
            &&& matched(n, c)
            &&& gets(n, c, "q"@, q)
            &&& gets(n, c, "pooled"@, pooled)
            &&& gets(n, c, "pos_start"@, start)
            &&& gets(n, c, "total_tokens"@, total)
            &&& gets(n, c, "logical_blocks"@, blocks)
        }),
{
    let c = select_call(q, pooled, start, total, blocks, qt);
    let n = select_inputs();
    assert(n[0] == "q"@ && c.inputs[0] == q);
    assert(n[1] == "pooled"@ && c.inputs[1] == pooled);
    assert(n[2] == "pos_start"@ && c.inputs[2] == start);
    assert(n[3] == "total_tokens"@ && c.inputs[3] == total);
    assert(n[4] == "logical_blocks"@ && c.inputs[4] == blocks);
}

/// Both packed weights reach the sorted experts with their own scales and biases.
pub proof fn sorted_gates_get_their_inputs(
    x: Array,
    w0: Array,
    s0: Array,
    b0: Array,
    w1: Array,
    s1: Array,
    b1: Array,
    sorted_ids: Array,
    token_rows: Array,
    tiles: Array,
    max_t: i32,
    n: i32,
    k: i32,
    rows: i32,
)
    ensures
        ({
            let c = gate_up_call(x, w0, s0, b0, w1, s1, b1, sorted_ids, token_rows, tiles, max_t, n, k, rows);
            let n = indirect_gate_up_inputs();
            &&& matched(n, c)
            &&& gets(n, c, "x"@, x.t@)
            &&& gets(n, c, "w0"@, w0.t@)
            &&& gets(n, c, "scales0"@, s0.t@)
            &&& gets(n, c, "biases0"@, b0.t@)
            &&& gets(n, c, "w1"@, w1.t@)
            &&& gets(n, c, "scales1"@, s1.t@)
            &&& gets(n, c, "biases1"@, b1.t@)
            &&& gets(n, c, "indices"@, sorted_ids.t@)
            &&& gets(n, c, "token_rows"@, token_rows.t@)
            &&& gets(n, c, "tiles"@, tiles.t@)
        }),
{
    let c = gate_up_call(x, w0, s0, b0, w1, s1, b1, sorted_ids, token_rows, tiles, max_t, n, k, rows);
    let n = indirect_gate_up_inputs();
    assert(n[0] == "x"@ && c.inputs[0] == x.t@);
    assert(n[1] == "w0"@ && c.inputs[1] == w0.t@);
    assert(n[2] == "scales0"@ && c.inputs[2] == s0.t@);
    assert(n[3] == "biases0"@ && c.inputs[3] == b0.t@);
    assert(n[4] == "w1"@ && c.inputs[4] == w1.t@);
    assert(n[5] == "scales1"@ && c.inputs[5] == s1.t@);
    assert(n[6] == "biases1"@ && c.inputs[6] == b1.t@);
    assert(n[7] == "indices"@ && c.inputs[7] == sorted_ids.t@);
    assert(n[8] == "token_rows"@ && c.inputs[8] == token_rows.t@);
    assert(n[9] == "tiles"@ && c.inputs[9] == tiles.t@);
}

/// The packed weight reaches the second half of the sorted experts with its scales and biases.
pub proof fn sorted_sums_get_their_inputs(
    activated: Array,
    w: Array,
    s: Array,
    b: Array,
    sorted_ids: Array,
    tiles: Array,
    max_t: i32,
    n: i32,
    k: i32,
    rows: i32,
)
    ensures
        ({
            let c = down_call(activated, w, s, b, sorted_ids, tiles, max_t, n, k, rows);
            let n = indirect_down_inputs();
            &&& matched(n, c)
            &&& gets(n, c, "x"@, activated.t@)
            &&& gets(n, c, "w"@, w.t@)
            &&& gets(n, c, "scales"@, s.t@)
            &&& gets(n, c, "biases"@, b.t@)
            &&& gets(n, c, "indices"@, sorted_ids.t@)
            &&& gets(n, c, "token_rows"@, sorted_ids.t@)
            &&& gets(n, c, "tiles"@, tiles.t@)
        }),
{
    let c = down_call(activated, w, s, b, sorted_ids, tiles, max_t, n, k, rows);
    let n = indirect_down_inputs();
    assert(n[0] == "x"@ && c.inputs[0] == activated.t@);
    assert(n[1] == "w"@ && c.inputs[1] == w.t@);
    assert(n[2] == "scales"@ && c.inputs[2] == s.t@);
    assert(n[3] == "biases"@ && c.inputs[3] == b.t@);
    assert(n[4] == "indices"@ && c.inputs[4] == sorted_ids.t@);
    assert(n[5] == "token_rows"@ && c.inputs[5] == sorted_ids.t@);
    assert(n[6] == "tiles"@ && c.inputs[6] == tiles.t@);
}

/// The rows and the weight reach the split router under their own names.
pub proof fn partial_router_gets_its_inputs(
    x: Array,
    w: Array,
    rows: i32,
)
    ensures
        ({
            let c = router_partial_call(x, w, rows);
            let n = router_partial_inputs();
            &&& matched(n, c)
            &&& gets(n, c, "x"@, x.t@)
            &&& gets(n, c, "w"@, w.t@)
        }),
{
    let c = router_partial_call(x, w, rows);
    let n = router_partial_inputs();
    assert(n[0] == "x"@ && c.inputs[0] == x.t@);
    assert(n[1] == "w"@ && c.inputs[1] == w.t@);
}

/// The experts of the tokens and their counts reach the sorting under their own names.
pub proof fn scattering_gets_its_inputs(
    ids: ArrayV,
    counts: ArrayV,
    e: usize,
    top_k: usize,
    r: usize,
)
    ensures
        ({
            let c = scatter_call(ids, counts, e, top_k, r);
            let n = route_scatter_inputs();
            &&& matched(n, c)
            &&& gets(n, c, "ids"@, ids)
            &&& gets(n, c, "counts"@, counts)
        }),
{
    let c = scatter_call(ids, counts, e, top_k, r);
    let n = route_scatter_inputs();
    assert(n[0] == "ids"@ && c.inputs[0] == ids);
    assert(n[1] == "counts"@ && c.inputs[1] == counts);
}

} // verus!
