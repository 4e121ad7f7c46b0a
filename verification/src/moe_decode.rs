//! Mixture of experts for a few tokens, and the mixer of the residual streams.

use vstd::prelude::*;

use crate::array::{Array as Tensor, ArrayV};
use crate::calls::{
    call_s, first1, first2, first3, fits, got1, got2, got3, launch, out_of, ready, CallV,
};
use crate::dtype::Dtype;
use crate::facade::Array;
use crate::kernel::{
    all_wf, arg_list, new_kernel, out_list, ref_views, sound_outputs, KernelV, MetalKernel,
    OutputArg, TemplateArg, TemplateArgV,
};
use crate::tape::{Cmd, CmdV, Tape, TapeV};
use crate::text::str_views;

verus! {

/// The inputs of the kernel, by name.
pub open spec fn split_k_mixer_inputs() -> Seq<Seq<char>> {
    seq!["x"@, "wd"@, "sd"@, "bd"@, "wi"@, "si"@, "bi"@]
}

/// The inputs of the kernel, by name.
pub open spec fn up_mix_inputs() -> Seq<Seq<char>> {
    seq!["act"@, "normed"@, "wu"@, "su"@, "bu"@, "inj"@, "sigmoid_lut"@]
}

/// The inputs of the kernel, by name.
pub open spec fn down_inject_inputs() -> Seq<Seq<char>> {
    seq!["normed"@, "wd"@, "sd"@, "bd"@, "wi"@, "si"@, "bi"@]
}

/// The inputs of the kernel, by name.
pub open spec fn down_combine_wide_inputs() -> Seq<Seq<char>> {
    seq!["wd"@, "sd"@, "bd"@, "wsd"@, "ssd"@, "bsd"@, "act"@, "idx"@, "w"@, "gate"@]
}

/// The inputs of the kernel, by name.
pub open spec fn gate_up_wide_inputs() -> Seq<Seq<char>> {
    seq!["wg"@, "sg"@, "bg"@, "wu"@, "su"@, "bu"@, "wsh"@, "ssh"@, "bsh"@, "x"@, "idx"@, "xrow"@]
}

/// The inputs of the kernel, by name.
pub open spec fn down_combine_inputs() -> Seq<Seq<char>> {
    seq!["wd"@, "sd"@, "bd"@, "wsd"@, "ssd"@, "bsd"@, "act"@, "idx"@, "w"@, "gate"@]
}

/// The inputs of the kernel, by name.
pub open spec fn gate_up_inputs() -> Seq<Seq<char>> {
    seq!["wg"@, "sg"@, "bg"@, "wu"@, "su"@, "bu"@, "wsh"@, "ssh"@, "bsh"@, "x"@, "idx"@, "xrow"@]
}

/// The inputs of the kernel, by name.
pub open spec fn route_inputs() -> Seq<Seq<char>> {
    seq!["logits"@, "x"@, "wg"@, "sgw"@, "bgw"@]
}

// ---- headers ----

/// The pieces of Metal source that the headers are put together from.
pub struct Helpers {
    pub core: String,
    pub exact: String,
    pub registers: String,
    pub reuse: String,
    pub wide: String,
    pub wide_decls: String,
    pub mixer_tail: String,
    pub split_k: String,
}

/// Pieces in a row.
pub open spec fn in_a_row(parts: Seq<Seq<char>>) -> Seq<char>
    decreases parts.len(),
{
    if parts.len() == 0 {
        Seq::empty()
    } else {
        in_a_row(parts.drop_last()) + parts.last()
    }
}

/// Pieces in a row.
pub fn compose(parts: &[&str]) -> (s: String)
    ensures
        s@ == in_a_row(str_views(parts@)),
{
    let mut s = String::new();
    let mut i: usize = 0;
    assert(str_views(parts@).take(0) =~= Seq::<Seq<char>>::empty());
    assert(s@ =~= Seq::<char>::empty());
    while i < parts.len()
        invariant
            i <= parts@.len(),
            s@ == in_a_row(str_views(parts@).take(i as int)),
        decreases parts.len() - i,
    {
        s.append(parts[i]);
        i += 1;
        proof {
            let all = str_views(parts@);
            assert(all.take(i as int).drop_last() =~= all.take(i - 1));
            assert(all.take(i as int).last() == parts@[i - 1]@);
        }
    }
    assert(str_views(parts@).take(i as int) =~= str_views(parts@));
    s
}

/// The header of the mixer's kernels.
pub open spec fn mixer_pieces(h: Helpers, wide: bool) -> Seq<Seq<char>> {
    seq![
        h.core@,
        h.exact@,
        h.registers@,
        h.mixer_tail@,
        if wide {
            h.wide@
        } else {
            h.wide_decls@
        },
    ]
}

/// The header of the mixer's kernels.
pub fn mixer_header(h: &Helpers, wide: bool) -> (s: String)
    ensures
        s@ == in_a_row(mixer_pieces(*h, wide)),
{
    let parts: Vec<&str> = vec![
        h.core.as_str(),
        h.exact.as_str(),
        h.registers.as_str(),
        h.mixer_tail.as_str(),
        if wide {
            h.wide.as_str()
        } else {
            h.wide_decls.as_str()
        },
    ];
    assert(str_views(parts@) =~= mixer_pieces(*h, wide));
    compose(&parts)
}

// ---- kernels ----

/// The kernel that routes tokens to experts.
pub fn route_kernel(wide: bool, source: &str, h: &Helpers) -> (r: Option<MetalKernel>)
    ensures
        r matches Some(k) && k@ == new_kernel(
            (if wide {
                "track_moe_route"@
            } else {
                "track_moe_route_1"@
            }),
            route_inputs(),
            seq!["idx"@, "w"@, "gate"@],
            source@,
            in_a_row(seq![h.core@, h.exact@, h.mixer_tail@, if wide { h.wide@ } else { h.wide_decls@ }]),
            false,
        ) && ready(k@, 3),
{
    let ins: Vec<&str> = vec!["logits", "x", "wg", "sgw", "bgw"];
    let outs: Vec<&str> = vec!["idx", "w", "gate"];
    let parts: Vec<&str> = vec![h.core.as_str(), h.exact.as_str(), h.mixer_tail.as_str(), if wide { h.wide.as_str() } else { h.wide_decls.as_str() }];
    let header = compose(&parts);
    let name = if wide {
        "track_moe_route"
    } else {
        "track_moe_route_1"
    };
    proof {
        assert(str_views(ins@) =~= seq!["logits"@, "x"@, "wg"@, "sgw"@, "bgw"@]);
        assert(str_views(outs@) =~= seq!["idx"@, "w"@, "gate"@]);
        assert(str_views(parts@) =~= seq![h.core@, h.exact@, h.mixer_tail@, if wide { h.wide@ } else { h.wide_decls@ }]);
    }
    match MetalKernel::new(name, &ins, &outs, source, &header, true, false) {
        Ok(k) => Some(k),
        Err(_) => None,
    }
}

/// The kernel of the gated activation of one token's experts.
pub fn gate_up_reuse_kernel(source: &str, h: &Helpers) -> (r: Option<MetalKernel>)
    ensures
        r matches Some(k) && k@ == new_kernel(
            "track_moe_gate_up_reuse_2row"@,
            gate_up_inputs(),
            seq!["act"@],
            source@,
            in_a_row(seq![h.core@, h.exact@, h.reuse@]),
            false,
        ) && ready(k@, 1),
{
    let ins: Vec<&str> = vec!["wg", "sg", "bg", "wu", "su", "bu", "wsh", "ssh", "bsh", "x", "idx", "xrow"];
    let outs: Vec<&str> = vec!["act"];
    let parts: Vec<&str> = vec![h.core.as_str(), h.exact.as_str(), h.reuse.as_str()];
    let header = compose(&parts);
    let name = "track_moe_gate_up_reuse_2row";
    proof {
        assert(str_views(ins@) =~= seq!["wg"@, "sg"@, "bg"@, "wu"@, "su"@, "bu"@, "wsh"@, "ssh"@, "bsh"@, "x"@, "idx"@, "xrow"@]);
        assert(str_views(outs@) =~= seq!["act"@]);
        assert(str_views(parts@) =~= seq![h.core@, h.exact@, h.reuse@]);
    }
    match MetalKernel::new(name, &ins, &outs, source, &header, true, false) {
        Ok(k) => Some(k),
        Err(_) => None,
    }
}

/// The kernel that adds up one token's experts.
pub fn down_combine_kernel(source: &str, h: &Helpers) -> (r: Option<MetalKernel>)
    ensures
        r matches Some(k) && k@ == new_kernel(
            "track_moe_down_combine_1"@,
            down_combine_inputs(),
            seq!["out"@],
            source@,
            in_a_row(seq![h.core@, h.exact@, h.registers@, h.wide_decls@]),
            false,
        ) && ready(k@, 1),
{
    let ins: Vec<&str> = vec!["wd", "sd", "bd", "wsd", "ssd", "bsd", "act", "idx", "w", "gate"];
    let outs: Vec<&str> = vec!["out"];
    let parts: Vec<&str> = vec![h.core.as_str(), h.exact.as_str(), h.registers.as_str(), h.wide_decls.as_str()];
    let header = compose(&parts);
    let name = "track_moe_down_combine_1";
    proof {
        assert(str_views(ins@) =~= seq!["wd"@, "sd"@, "bd"@, "wsd"@, "ssd"@, "bsd"@, "act"@, "idx"@, "w"@, "gate"@]);
        assert(str_views(outs@) =~= seq!["out"@]);
        assert(str_views(parts@) =~= seq![h.core@, h.exact@, h.registers@, h.wide_decls@]);
    }
    match MetalKernel::new(name, &ins, &outs, source, &header, true, false) {
        Ok(k) => Some(k),
        Err(_) => None,
    }
}

/// The kernel of the gated activation of a few tokens' experts.
pub fn gate_up_act_kernel(source: &str, h: &Helpers) -> (r: Option<MetalKernel>)
    ensures
        r matches Some(k) && k@ == new_kernel(
            "track_moe_gate_up_act"@,
            gate_up_wide_inputs(),
            seq!["act"@],
            source@,
            in_a_row(seq![h.core@, h.exact@, h.registers@, h.wide@]),
            false,
        ) && ready(k@, 1),
{
    let ins: Vec<&str> = vec!["wg", "sg", "bg", "wu", "su", "bu", "wsh", "ssh", "bsh", "x", "idx", "xrow"];
    let outs: Vec<&str> = vec!["act"];
    let parts: Vec<&str> = vec![h.core.as_str(), h.exact.as_str(), h.registers.as_str(), h.wide.as_str()];
    let header = compose(&parts);
    let name = "track_moe_gate_up_act";
    proof {
        assert(str_views(ins@) =~= seq!["wg"@, "sg"@, "bg"@, "wu"@, "su"@, "bu"@, "wsh"@, "ssh"@, "bsh"@, "x"@, "idx"@, "xrow"@]);
        assert(str_views(outs@) =~= seq!["act"@]);
        assert(str_views(parts@) =~= seq![h.core@, h.exact@, h.registers@, h.wide@]);
    }
    match MetalKernel::new(name, &ins, &outs, source, &header, true, false) {
        Ok(k) => Some(k),
        Err(_) => None,
    }
}

/// The kernel that adds up a few tokens' experts.
pub fn down_combine_wide_kernel(source: &str, h: &Helpers) -> (r: Option<MetalKernel>)
    ensures
        r matches Some(k) && k@ == new_kernel(
            "track_moe_down_combine"@,
            down_combine_wide_inputs(),
            seq!["out"@],
            source@,
            in_a_row(seq![h.core@, h.exact@, h.registers@, h.wide@]),
            false,
        ) && ready(k@, 1),
{
    let ins: Vec<&str> = vec!["wd", "sd", "bd", "wsd", "ssd", "bsd", "act", "idx", "w", "gate"];
    let outs: Vec<&str> = vec!["out"];
    let parts: Vec<&str> = vec![h.core.as_str(), h.exact.as_str(), h.registers.as_str(), h.wide.as_str()];
    let header = compose(&parts);
    let name = "track_moe_down_combine";
    proof {
        assert(str_views(ins@) =~= seq!["wd"@, "sd"@, "bd"@, "wsd"@, "ssd"@, "bsd"@, "act"@, "idx"@, "w"@, "gate"@]);
        assert(str_views(outs@) =~= seq!["out"@]);
        assert(str_views(parts@) =~= seq![h.core@, h.exact@, h.registers@, h.wide@]);
    }
    match MetalKernel::new(name, &ins, &outs, source, &header, true, false) {
        Ok(k) => Some(k),
        Err(_) => None,
    }
}

/// The kernel of the mixer's way down.
pub fn down_inject_kernel(single: bool, source: &str, h: &Helpers) -> (r: Option<MetalKernel>)
    ensures
        r matches Some(k) && k@ == new_kernel(
            (if single {
                "track_mixer_down_inject_1"@
            } else {
                "track_mixer_down_inject"@
            }),
            down_inject_inputs(),
            seq!["lo"@, "act"@, "inj"@],
            source@,
            in_a_row(mixer_pieces(*h, !single)),
            false,
        ) && ready(k@, 3),
{
    let ins: Vec<&str> = vec!["normed", "wd", "sd", "bd", "wi", "si", "bi"];
    let outs: Vec<&str> = vec!["lo", "act", "inj"];
    let header = mixer_header(h, !single);
    let name = if single {
        "track_mixer_down_inject_1"
    } else {
        "track_mixer_down_inject"
    };
    proof {
        assert(str_views(ins@) =~= seq!["normed"@, "wd"@, "sd"@, "bd"@, "wi"@, "si"@, "bi"@]);
        assert(str_views(outs@) =~= seq!["lo"@, "act"@, "inj"@]);
    }
    match MetalKernel::new(name, &ins, &outs, source, &header, true, false) {
        Ok(k) => Some(k),
        Err(_) => None,
    }
}

/// The kernel of the mixer's way up.
pub fn up_mix_kernel(single: bool, source: &str, h: &Helpers) -> (r: Option<MetalKernel>)
    ensures
        r matches Some(k) && k@ == new_kernel(
            (if single {
                "track_mixer_up_mix_1"@
            } else {
                "track_mixer_up_mix"@
            }),
            up_mix_inputs(),
            seq!["input"@, "inject"@, "inputF"@],
            source@,
            in_a_row(mixer_pieces(*h, !single)),
            false,
        ) && ready(k@, 3),
{
    let ins: Vec<&str> = vec!["act", "normed", "wu", "su", "bu", "inj", "sigmoid_lut"];
    let outs: Vec<&str> = vec!["input", "inject", "inputF"];
    let header = mixer_header(h, !single);
    let name = if single {
        "track_mixer_up_mix_1"
    } else {
        "track_mixer_up_mix"
    };
    proof {
        assert(str_views(ins@) =~= seq!["act"@, "normed"@, "wu"@, "su"@, "bu"@, "inj"@, "sigmoid_lut"@]);
        assert(str_views(outs@) =~= seq!["input"@, "inject"@, "inputF"@]);
    }
    match MetalKernel::new(name, &ins, &outs, source, &header, true, false) {
        Ok(k) => Some(k),
        Err(_) => None,
    }
}

/// The kernel of the mixer's way down in parts.
pub fn split_k_kernel(source: &str, h: &Helpers) -> (r: Option<MetalKernel>)
    ensures
        r matches Some(k) && k@ == new_kernel(
            "track_split_k_mixer"@,
            split_k_mixer_inputs(),
            seq!["lo"@, "act"@, "inj"@],
            source@,
            in_a_row(seq![h.core@, h.exact@, h.split_k@]),
            false,
        ) && ready(k@, 3),
{
    let ins: Vec<&str> = vec!["x", "wd", "sd", "bd", "wi", "si", "bi"];
    let outs: Vec<&str> = vec!["lo", "act", "inj"];
    let parts: Vec<&str> = vec![h.core.as_str(), h.exact.as_str(), h.split_k.as_str()];
    let header = compose(&parts);
    let name = "track_split_k_mixer";
    proof {
        assert(str_views(ins@) =~= seq!["x"@, "wd"@, "sd"@, "bd"@, "wi"@, "si"@, "bi"@]);
        assert(str_views(outs@) =~= seq!["lo"@, "act"@, "inj"@]);
        assert(str_views(parts@) =~= seq![h.core@, h.exact@, h.split_k@]);
    }
    match MetalKernel::new(name, &ins, &outs, source, &header, true, false) {
        Ok(k) => Some(k),
        Err(_) => None,
    }
}

/// The kernel of the table of the logistic function.
pub fn bf16_sigmoid_kernel(source: &str, h: &Helpers) -> (r: Option<MetalKernel>)
    ensures
        r matches Some(k) && k@ == new_kernel(
            "track_bf16_sigmoid_table"@,
            Seq::<Seq<char>>::empty(),
            seq!["table"@],
            source@,
            in_a_row(seq![h.exact@]),
            false,
        ) && ready(k@, 1),
{
    let ins: Vec<&str> = Vec::new();
    let outs: Vec<&str> = vec!["table"];
    let parts: Vec<&str> = vec![h.exact.as_str()];
    let header = compose(&parts);
    let name = "track_bf16_sigmoid_table";
    proof {
        assert(str_views(ins@) =~= Seq::<Seq<char>>::empty());
        assert(str_views(outs@) =~= seq!["table"@]);
        assert(str_views(parts@) =~= seq![h.exact@]);
    }
    match MetalKernel::new(name, &ins, &outs, source, &header, true, false) {
        Ok(k) => Some(k),
        Err(_) => None,
    }
}

// ---- experts ----

/// Each token's experts, their weights and how far the shared expert counts.
pub open spec fn route_call(
    logits: Array,
    x: Array,
    sg_w: Array,
    sg_s: Array,
    sg_b: Array,
    top_k: i32,
    e: i32,
    kd: i32,
    rows: i32,
) -> CallV {
    let lanes = (rows * 2) as i32;
    CallV {
        inputs: seq![logits.t@, x.t@, sg_w.t@, sg_s.t@, sg_b.t@],
        template: seq![TemplateArgV::Int("E"@, e), TemplateArgV::Int("K"@, top_k), TemplateArgV::Dtype("T"@, Dtype::Bfloat16), TemplateArgV::Int("GS"@, 32), TemplateArgV::Int("BITS"@, 4), TemplateArgV::Int("KD"@, kd), TemplateArgV::Int("VPT"@, rows), TemplateArgV::Bool("HAS_GATE"@, true)],
        grid: (32, lanes, 1),
        group: (32, 2, 1),
        outs: seq![out_of(seq![rows, top_k], Dtype::Uint32), out_of(seq![rows, top_k], Dtype::Float32), out_of(seq![rows], Dtype::Bfloat16)],
    }
}

/// Each token's experts, their weights and how far the shared expert counts.
fn route_run(
    kernel: &mut MetalKernel,
    tape: &mut Tape,
    logits: &Array,
    x: &Array,
    sg_w: &Array,
    sg_s: &Array,
    sg_b: &Array,
    top_k: i32,
    e: i32,
    kd: i32,
    rows: i32,
) -> (r: Option<(Array, Array, Array)>)
    requires
        logits.wf(),
        x.wf(),
        sg_w.wf(),
        sg_s.wf(),
        sg_b.wf(),
        (fits(rows * 2)),
        ready(old(kernel)@, 3),
        sound_outputs(route_call(*logits, *x, *sg_w, *sg_s, *sg_b, top_k, e, kd, rows).outs),
    ensures
        ({
            let (k1, t1, o) = call_s(
                old(kernel)@,
                old(tape)@,
                route_call(*logits, *x, *sg_w, *sg_s, *sg_b, top_k, e, kd, rows),
            );
            &&& final(kernel)@ == k1
            &&& final(tape)@ == t1
            &&& got3(r, o)
        }),
        ready(final(kernel)@, 3),
{
    let ghost call = route_call(*logits, *x, *sg_w, *sg_s, *sg_b, top_k, e, kd, rows);
    let lanes: i32 = rows * 2;
    let inputs: Vec<&Tensor> = vec![&logits.t, &x.t, &sg_w.t, &sg_s.t, &sg_b.t];
    let template: Vec<TemplateArg> = vec![
        TemplateArg::Int("E", e),
        TemplateArg::Int("K", top_k),
        TemplateArg::Dtype("T", Dtype::Bfloat16),
        TemplateArg::Int("GS", 32),
        TemplateArg::Int("BITS", 4),
        TemplateArg::Int("KD", kd),
        TemplateArg::Int("VPT", rows),
        TemplateArg::Bool("HAS_GATE", true),
    ];
    let outs: Vec<OutputArg> = vec![
        OutputArg { shape: vec![rows, top_k], dtype: Dtype::Uint32 },
        OutputArg { shape: vec![rows, top_k], dtype: Dtype::Float32 },
        OutputArg { shape: vec![rows], dtype: Dtype::Bfloat16 },
    ];
    proof {
        assert(ref_views(inputs@) =~= call.inputs);
        assert(arg_list(template@) =~= call.template);
        assert(out_list(outs@) =~~= call.outs);
        assert(all_wf(call.inputs));
    }
    let made = launch(
        kernel,
        tape,
        &inputs,
        &template,
        (32, lanes, 1),
        (32, 2, 1),
        &outs,
    );
    first3(made)
}

/// Each token's experts, their weights and how far the shared expert counts: one token
/// by the kernel for one, more by the wide one.
pub fn route(
    one: &mut MetalKernel,
    wide: &mut MetalKernel,
    tape: &mut Tape,
    logits: &Array,
    x: &Array,
    sg_w: &Array,
    sg_s: &Array,
    sg_b: &Array,
    top_k: i32,
    e: i32,
    kd: i32,
    rows: i32,
) -> (r: Option<(Array, Array, Array)>)
    requires
        logits.wf(),
        x.wf(),
        sg_w.wf(),
        sg_s.wf(),
        sg_b.wf(),
        fits(rows * 2),
        ready(old(one)@, 3),
        ready(old(wide)@, 3),
        sound_outputs(
            route_call(*logits, *x, *sg_w, *sg_s, *sg_b, top_k, e, kd, rows).outs,
        ),
    ensures
        ({
            let call = route_call(*logits, *x, *sg_w, *sg_s, *sg_b, top_k, e, kd, rows);
            let used = if rows != 1 {
                old(wide)@
            } else {
                old(one)@
            };
            let (k1, t1, o) = call_s(used, old(tape)@, call);
            &&& final(tape)@ == t1
            &&& got3(r, o)
            &&& if rows != 1 {
                final(wide)@ == k1 && final(one)@ == old(one)@
            } else {
                final(one)@ == k1 && final(wide)@ == old(wide)@
            }
        }),
        ready(final(one)@, 3),
        ready(final(wide)@, 3),
{
    if rows != 1 {
        route_run(wide, tape, logits, x, sg_w, sg_s, sg_b, top_k, e, kd, rows)
    } else {
        route_run(one, tape, logits, x, sg_w, sg_s, sg_b, top_k, e, kd, rows)
    }
}

/// The gated activation of one token's experts and of the shared one.
pub open spec fn gate_up_act_call(
    wg: Array,
    sg: Array,
    bg: Array,
    wu: Array,
    su: Array,
    bu: Array,
    wsh: Array,
    ssh: Array,
    bsh: Array,
    x: Array,
    idx: Array,
    xrow: Array,
    br: i32,
    n: i32,
    kd: i32,
    s: i32,
) -> CallV {
    let total = (br + s) as i32;
    let halves = (n / 2) as i32;
    let layers = (br + 1) as i32;
    CallV {
        inputs: seq![wg.t@, sg.t@, bg.t@, wu.t@, su.t@, bu.t@, wsh.t@, ssh.t@, bsh.t@, x.t@, idx.t@, xrow.t@],
        template: seq![TemplateArgV::Dtype("T"@, Dtype::Bfloat16), TemplateArgV::Int("GS"@, 32), TemplateArgV::Int("BITS"@, 4), TemplateArgV::Int("N"@, n), TemplateArgV::Int("KD"@, kd), TemplateArgV::Int("BR"@, br), TemplateArgV::Int("RPS"@, 2)],
        grid: (32, halves, layers),
        group: (32, 2, 1),
        outs: seq![out_of(seq![total, n], Dtype::Bfloat16)],
    }
}

/// The gated activation of one token's experts and of the shared one.
pub fn gate_up_act(
    kernel: &mut MetalKernel,
    tape: &mut Tape,
    wg: &Array,
    sg: &Array,
    bg: &Array,
    wu: &Array,
    su: &Array,
    bu: &Array,
    wsh: &Array,
    ssh: &Array,
    bsh: &Array,
    x: &Array,
    idx: &Array,
    xrow: &Array,
    br: i32,
    n: i32,
    kd: i32,
    s: i32,
) -> (r: Option<Array>)
    requires
        wg.wf(),
        sg.wf(),
        bg.wf(),
        wu.wf(),
        su.wf(),
        bu.wf(),
        wsh.wf(),
        ssh.wf(),
        bsh.wf(),
        x.wf(),
        idx.wf(),
        xrow.wf(),
        n >= 0,
        ((fits(br + s) && { let total = (br + s) as i32; (fits(n / 2) && { let halves = (n / 2) as i32; fits(br + 1) }) })),
        ready(old(kernel)@, 1),
        sound_outputs(gate_up_act_call(*wg, *sg, *bg, *wu, *su, *bu, *wsh, *ssh, *bsh, *x, *idx, *xrow, br, n, kd, s).outs),
    ensures
        ({
            let (k1, t1, o) = call_s(
                old(kernel)@,
                old(tape)@,
                gate_up_act_call(*wg, *sg, *bg, *wu, *su, *bu, *wsh, *ssh, *bsh, *x, *idx, *xrow, br, n, kd, s),
            );
            &&& final(kernel)@ == k1
            &&& final(tape)@ == t1
            &&& got1(r, o)
        }),
        ready(final(kernel)@, 1),
{
    let ghost call = gate_up_act_call(*wg, *sg, *bg, *wu, *su, *bu, *wsh, *ssh, *bsh, *x, *idx, *xrow, br, n, kd, s);
    let total: i32 = br + s;
    let halves: i32 = n / 2;
    let layers: i32 = br + 1;
    let inputs: Vec<&Tensor> = vec![&wg.t, &sg.t, &bg.t, &wu.t, &su.t, &bu.t, &wsh.t, &ssh.t, &bsh.t, &x.t, &idx.t, &xrow.t];
    let template: Vec<TemplateArg> = vec![
        TemplateArg::Dtype("T", Dtype::Bfloat16),
        TemplateArg::Int("GS", 32),
        TemplateArg::Int("BITS", 4),
        TemplateArg::Int("N", n),
        TemplateArg::Int("KD", kd),
        TemplateArg::Int("BR", br),
        TemplateArg::Int("RPS", 2),
    ];
    let outs: Vec<OutputArg> = vec![
        OutputArg { shape: vec![total, n], dtype: Dtype::Bfloat16 },
    ];
    proof {
        assert(ref_views(inputs@) =~= call.inputs);
        assert(arg_list(template@) =~= call.template);
        assert(out_list(outs@) =~~= call.outs);
        assert(all_wf(call.inputs));
    }
    let made = launch(
        kernel,
        tape,
        &inputs,
        &template,
        (32, halves, layers),
        (32, 2, 1),
        &outs,
    );
    first1(made)
}

/// One token's experts and the shared one, projected down, weighted and added up. With ten
/// experts each row of the shared one has a group of its own.
pub open spec fn down_combine_call(
    wd: Array,
    sd: Array,
    bd: Array,
    wsd: Array,
    ssd: Array,
    bsd: Array,
    act: Array,
    idx: Array,
    w: Array,
    gate: Array,
    top_k: i32,
    f: i32,
    h: i32,
    br: i32,
    s: i32,
) -> CallV {
    let ksg: i32 = if top_k % 5 == 0 {
        5
    } else {
        1
    };
    let fast = f % 512 == 0 && h % 8 == 0;
    let tiles = (h / 2) as i32;
    let tg_y: i32 = if top_k == 10 && ksg >= 5 {
        (ksg + 2) as i32
    } else {
        ksg
    };
    let lanes = (tiles * tg_y) as i32;
    CallV {
        inputs: seq![wd.t@, sd.t@, bd.t@, wsd.t@, ssd.t@, bsd.t@, act.t@, idx.t@, w.t@, gate.t@],
        template: seq![TemplateArgV::Dtype("T"@, Dtype::Bfloat16), TemplateArgV::Int("GS"@, 32), TemplateArgV::Int("BITS"@, 4), TemplateArgV::Int("H"@, h), TemplateArgV::Int("F"@, f), TemplateArgV::Int("K"@, top_k), TemplateArgV::Bool("FAST"@, fast), TemplateArgV::Int("BR"@, br), TemplateArgV::Int("VPT"@, 1), TemplateArgV::Int("KSG"@, ksg), TemplateArgV::Int("RPS"@, 2)],
        grid: (32, lanes, s),
        group: (32, tg_y, 1),
        outs: seq![out_of(seq![s, h], Dtype::Bfloat16)],
    }
}

/// One token's experts and the shared one, projected down, weighted and added up. With ten
/// experts each row of the shared one has a group of its own.
pub fn down_combine(
    kernel: &mut MetalKernel,
    tape: &mut Tape,
    wd: &Array,
    sd: &Array,
    bd: &Array,
    wsd: &Array,
    ssd: &Array,
    bsd: &Array,
    act: &Array,
    idx: &Array,
    w: &Array,
    gate: &Array,
    top_k: i32,
    f: i32,
    h: i32,
    br: i32,
    s: i32,
) -> (r: Option<Array>)
    requires
        wd.wf(),
        sd.wf(),
        bd.wf(),
        wsd.wf(),
        ssd.wf(),
        bsd.wf(),
        act.wf(),
        idx.wf(),
        w.wf(),
        gate.wf(),
        h >= 0,
        f >= 0,
        top_k >= 0,
        ({ let ksg: i32 = if top_k % 5 == 0 {
        5
    } else {
        1
    }; { let fast = f % 512 == 0 && h % 8 == 0; (fits(h / 2) && { let tiles = (h / 2) as i32; { let tg_y: i32 = if top_k == 10 && ksg >= 5 {
        (ksg + 2) as i32
    } else {
        ksg
    }; fits(tiles * tg_y) } }) } }),
        ready(old(kernel)@, 1),
        sound_outputs(down_combine_call(*wd, *sd, *bd, *wsd, *ssd, *bsd, *act, *idx, *w, *gate, top_k, f, h, br, s).outs),
    ensures
        ({
            let (k1, t1, o) = call_s(
                old(kernel)@,
                old(tape)@,
                down_combine_call(*wd, *sd, *bd, *wsd, *ssd, *bsd, *act, *idx, *w, *gate, top_k, f, h, br, s),
            );
            &&& final(kernel)@ == k1
            &&& final(tape)@ == t1
            &&& got1(r, o)
        }),
        ready(final(kernel)@, 1),
{
    let ghost call = down_combine_call(*wd, *sd, *bd, *wsd, *ssd, *bsd, *act, *idx, *w, *gate, top_k, f, h, br, s);
    let ksg: i32 = if top_k % 5 == 0 {
        5
    } else {
        1
    };
    let fast: bool = f % 512 == 0 && h % 8 == 0;
    let tiles: i32 = h / 2;
    let tg_y: i32 = if top_k == 10 && ksg >= 5 {
        (ksg + 2) as i32
    } else {
        ksg
    };
    let lanes: i32 = tiles * tg_y;
    let inputs: Vec<&Tensor> = vec![&wd.t, &sd.t, &bd.t, &wsd.t, &ssd.t, &bsd.t, &act.t, &idx.t, &w.t, &gate.t];
    let template: Vec<TemplateArg> = vec![
        TemplateArg::Dtype("T", Dtype::Bfloat16),
        TemplateArg::Int("GS", 32),
        TemplateArg::Int("BITS", 4),
        TemplateArg::Int("H", h),
        TemplateArg::Int("F", f),
        TemplateArg::Int("K", top_k),
        TemplateArg::Bool("FAST", fast),
        TemplateArg::Int("BR", br),
        TemplateArg::Int("VPT", 1),
        TemplateArg::Int("KSG", ksg),
        TemplateArg::Int("RPS", 2),
    ];
    let outs: Vec<OutputArg> = vec![
        OutputArg { shape: vec![s, h], dtype: Dtype::Bfloat16 },
    ];
    proof {
        assert(ref_views(inputs@) =~= call.inputs);
        assert(arg_list(template@) =~= call.template);
        assert(out_list(outs@) =~~= call.outs);
        assert(all_wf(call.inputs));
    }
    let made = launch(
        kernel,
        tape,
        &inputs,
        &template,
        (32, lanes, s),
        (32, tg_y, 1),
        &outs,
    );
    first1(made)
}

/// The gated activation of a few tokens' experts and of the shared one.
pub open spec fn gate_up_act_wide_call(
    wg: Array,
    sg: Array,
    bg: Array,
    wu: Array,
    su: Array,
    bu: Array,
    wsh: Array,
    ssh: Array,
    bsh: Array,
    x: Array,
    idx: Array,
    xrow: Array,
    br: i32,
    n: i32,
    kd: i32,
    s: i32,
) -> CallV {
    let fast = kd % 512 == 0 && n % 8 == 0;
    let total = (br + s) as i32;
    let eighths = (n / 8) as i32;
    let lanes = (eighths * 2) as i32;
    let layers = (br + 1) as i32;
    CallV {
        inputs: seq![wg.t@, sg.t@, bg.t@, wu.t@, su.t@, bu.t@, wsh.t@, ssh.t@, bsh.t@, x.t@, idx.t@, xrow.t@],
        template: seq![TemplateArgV::Dtype("T"@, Dtype::Bfloat16), TemplateArgV::Int("GS"@, 32), TemplateArgV::Int("BITS"@, 4), TemplateArgV::Int("N"@, n), TemplateArgV::Int("KD"@, kd), TemplateArgV::Bool("FAST"@, fast), TemplateArgV::Int("BR"@, br), TemplateArgV::Int("VPT"@, s)],
        grid: (32, lanes, layers),
        group: (32, 2, 1),
        outs: seq![out_of(seq![total, n], Dtype::Bfloat16)],
    }
}

/// The gated activation of a few tokens' experts and of the shared one.
pub fn gate_up_act_wide(
    kernel: &mut MetalKernel,
    tape: &mut Tape,
    wg: &Array,
    sg: &Array,
    bg: &Array,
    wu: &Array,
    su: &Array,
    bu: &Array,
    wsh: &Array,
    ssh: &Array,
    bsh: &Array,
    x: &Array,
    idx: &Array,
    xrow: &Array,
    br: i32,
    n: i32,
    kd: i32,
    s: i32,
) -> (r: Option<Array>)
    requires
        wg.wf(),
        sg.wf(),
        bg.wf(),
        wu.wf(),
        su.wf(),
        bu.wf(),
        wsh.wf(),
        ssh.wf(),
        bsh.wf(),
        x.wf(),
        idx.wf(),
        xrow.wf(),
        n >= 0,
        kd >= 0,
        ({ let fast = kd % 512 == 0 && n % 8 == 0; (fits(br + s) && { let total = (br + s) as i32; (fits(n / 8) && { let eighths = (n / 8) as i32; (fits(eighths * 2) && { let lanes = (eighths * 2) as i32; fits(br + 1) }) }) }) }),
        ready(old(kernel)@, 1),
        sound_outputs(gate_up_act_wide_call(*wg, *sg, *bg, *wu, *su, *bu, *wsh, *ssh, *bsh, *x, *idx, *xrow, br, n, kd, s).outs),
    ensures
        ({
            let (k1, t1, o) = call_s(
                old(kernel)@,
                old(tape)@,
                gate_up_act_wide_call(*wg, *sg, *bg, *wu, *su, *bu, *wsh, *ssh, *bsh, *x, *idx, *xrow, br, n, kd, s),
            );
            &&& final(kernel)@ == k1
            &&& final(tape)@ == t1
            &&& got1(r, o)
        }),
        ready(final(kernel)@, 1),
{
    let ghost call = gate_up_act_wide_call(*wg, *sg, *bg, *wu, *su, *bu, *wsh, *ssh, *bsh, *x, *idx, *xrow, br, n, kd, s);
    let fast: bool = kd % 512 == 0 && n % 8 == 0;
    let total: i32 = br + s;
    let eighths: i32 = n / 8;
    let lanes: i32 = eighths * 2;
    let layers: i32 = br + 1;
    let inputs: Vec<&Tensor> = vec![&wg.t, &sg.t, &bg.t, &wu.t, &su.t, &bu.t, &wsh.t, &ssh.t, &bsh.t, &x.t, &idx.t, &xrow.t];
    let template: Vec<TemplateArg> = vec![
        TemplateArg::Dtype("T", Dtype::Bfloat16),
        TemplateArg::Int("GS", 32),
        TemplateArg::Int("BITS", 4),
        TemplateArg::Int("N", n),
        TemplateArg::Int("KD", kd),
        TemplateArg::Bool("FAST", fast),
        TemplateArg::Int("BR", br),
        TemplateArg::Int("VPT", s),
    ];
    let outs: Vec<OutputArg> = vec![
        OutputArg { shape: vec![total, n], dtype: Dtype::Bfloat16 },
    ];
    proof {
        assert(ref_views(inputs@) =~= call.inputs);
        assert(arg_list(template@) =~= call.template);
        assert(out_list(outs@) =~~= call.outs);
        assert(all_wf(call.inputs));
    }
    let made = launch(
        kernel,
        tape,
        &inputs,
        &template,
        (32, lanes, layers),
        (32, 2, 1),
        &outs,
    );
    first1(made)
}

/// A few tokens' experts and the shared one, projected down, weighted and added up.
pub open spec fn down_combine_wide_call(
    wd: Array,
    sd: Array,
    bd: Array,
    wsd: Array,
    ssd: Array,
    bsd: Array,
    act: Array,
    idx: Array,
    w: Array,
    gate: Array,
    top_k: i32,
    f: i32,
    h: i32,
    br: i32,
    s: i32,
) -> CallV {
    let ksg: i32 = if top_k % 5 == 0 {
        5
    } else {
        1
    };
    let fast = f % 512 == 0 && h % 8 == 0;
    let tiles = (h / 4) as i32;
    let lanes = (tiles * ksg) as i32;
    CallV {
        inputs: seq![wd.t@, sd.t@, bd.t@, wsd.t@, ssd.t@, bsd.t@, act.t@, idx.t@, w.t@, gate.t@],
        template: seq![TemplateArgV::Dtype("T"@, Dtype::Bfloat16), TemplateArgV::Int("GS"@, 32), TemplateArgV::Int("BITS"@, 4), TemplateArgV::Int("H"@, h), TemplateArgV::Int("F"@, f), TemplateArgV::Int("K"@, top_k), TemplateArgV::Bool("FAST"@, fast), TemplateArgV::Int("BR"@, br), TemplateArgV::Int("VPT"@, s), TemplateArgV::Int("KSG"@, ksg), TemplateArgV::Int("RPS"@, 4)],
        grid: (32, lanes, s),
        group: (32, ksg, 1),
        outs: seq![out_of(seq![s, h], Dtype::Bfloat16)],
    }
}

/// A few tokens' experts and the shared one, projected down, weighted and added up.
pub fn down_combine_wide(
    kernel: &mut MetalKernel,
    tape: &mut Tape,
    wd: &Array,
    sd: &Array,
    bd: &Array,
    wsd: &Array,
    ssd: &Array,
    bsd: &Array,
    act: &Array,
    idx: &Array,
    w: &Array,
    gate: &Array,
    top_k: i32,
    f: i32,
    h: i32,
    br: i32,
    s: i32,
) -> (r: Option<Array>)
    requires
        wd.wf(),
        sd.wf(),
        bd.wf(),
        wsd.wf(),
        ssd.wf(),
        bsd.wf(),
        act.wf(),
        idx.wf(),
        w.wf(),
        gate.wf(),
        h >= 0,
        f >= 0,
        top_k >= 0,
        ({ let ksg: i32 = if top_k % 5 == 0 {
        5
    } else {
        1
    }; { let fast = f % 512 == 0 && h % 8 == 0; (fits(h / 4) && { let tiles = (h / 4) as i32; fits(tiles * ksg) }) } }),
        ready(old(kernel)@, 1),
        sound_outputs(down_combine_wide_call(*wd, *sd, *bd, *wsd, *ssd, *bsd, *act, *idx, *w, *gate, top_k, f, h, br, s).outs),
    ensures
        ({
            let (k1, t1, o) = call_s(
                old(kernel)@,
                old(tape)@,
                down_combine_wide_call(*wd, *sd, *bd, *wsd, *ssd, *bsd, *act, *idx, *w, *gate, top_k, f, h, br, s),
            );
            &&& final(kernel)@ == k1
            &&& final(tape)@ == t1
            &&& got1(r, o)
        }),
        ready(final(kernel)@, 1),
{
    let ghost call = down_combine_wide_call(*wd, *sd, *bd, *wsd, *ssd, *bsd, *act, *idx, *w, *gate, top_k, f, h, br, s);
    let ksg: i32 = if top_k % 5 == 0 {
        5
    } else {
        1
    };
    let fast: bool = f % 512 == 0 && h % 8 == 0;
    let tiles: i32 = h / 4;
    let lanes: i32 = tiles * ksg;
    let inputs: Vec<&Tensor> = vec![&wd.t, &sd.t, &bd.t, &wsd.t, &ssd.t, &bsd.t, &act.t, &idx.t, &w.t, &gate.t];
    let template: Vec<TemplateArg> = vec![
        TemplateArg::Dtype("T", Dtype::Bfloat16),
        TemplateArg::Int("GS", 32),
        TemplateArg::Int("BITS", 4),
        TemplateArg::Int("H", h),
        TemplateArg::Int("F", f),
        TemplateArg::Int("K", top_k),
        TemplateArg::Bool("FAST", fast),
        TemplateArg::Int("BR", br),
        TemplateArg::Int("VPT", s),
        TemplateArg::Int("KSG", ksg),
        TemplateArg::Int("RPS", 4),
    ];
    let outs: Vec<OutputArg> = vec![
        OutputArg { shape: vec![s, h], dtype: Dtype::Bfloat16 },
    ];
    proof {
        assert(ref_views(inputs@) =~= call.inputs);
        assert(arg_list(template@) =~= call.template);
        assert(out_list(outs@) =~~= call.outs);
        assert(all_wf(call.inputs));
    }
    let made = launch(
        kernel,
        tape,
        &inputs,
        &template,
        (32, lanes, s),
        (32, ksg, 1),
        &outs,
    );
    first1(made)
}

// ---- the mixer ----

/// The parts that the mixer's way down is worked out in for one row.
pub const MIXER_SPLIT_K: i32 = 5;

/// The mixer's way down for one row, in parts along the inner axis.
pub open spec fn split_k_mixer_call(
    x: Array,
    wd: Array,
    sd: Array,
    bd: Array,
    wi: Array,
    si: Array,
    bi: Array,
    n: i32,
    hc: i32,
    has_inject: bool,
    partitions: i32,
) -> CallV {
    let k = x.shape@[x.shape@.len() - 1];
    let extra: i32 = if has_inject {
        hc
    } else {
        0
    };
    let halves = (n / 2) as i32;
    let tiles = (halves + extra) as i32;
    let lanes = (tiles * partitions) as i32;
    CallV {
        inputs: seq![x.t@, wd.t@, sd.t@, bd.t@, wi.t@, si.t@, bi.t@],
        template: seq![TemplateArgV::Dtype("T"@, Dtype::Bfloat16), TemplateArgV::Int("K"@, k), TemplateArgV::Int("ND"@, n), TemplateArgV::Int("RPS"@, 2), TemplateArgV::Int("SPLIT"@, partitions), TemplateArgV::Bool("HAS_INJECT"@, has_inject)],
        grid: (32, lanes, 1),
        group: (32, partitions, 1),
        outs: seq![out_of(seq![1, n], Dtype::Bfloat16), out_of(seq![1, n], Dtype::Bfloat16), out_of(seq![1, hc], Dtype::Bfloat16)],
    }
}

/// The mixer's way down for one row, in parts along the inner axis.
pub fn split_k_mixer(
    kernel: &mut MetalKernel,
    tape: &mut Tape,
    x: &Array,
    wd: &Array,
    sd: &Array,
    bd: &Array,
    wi: &Array,
    si: &Array,
    bi: &Array,
    n: i32,
    hc: i32,
    has_inject: bool,
    partitions: i32,
) -> (r: Option<(Array, Array, Array)>)
    requires
        x.wf(),
        wd.wf(),
        sd.wf(),
        bd.wf(),
        wi.wf(),
        si.wf(),
        bi.wf(),
        1 <= x.shape@.len() <= i32::MAX,
        n >= 0,
        ({ let k = x.shape@[x.shape@.len() - 1]; { let extra: i32 = if has_inject {
        hc
    } else {
        0
    }; (fits(n / 2) && { let halves = (n / 2) as i32; (fits(halves + extra) && { let tiles = (halves + extra) as i32; fits(tiles * partitions) }) }) } }),
        ready(old(kernel)@, 3),
        sound_outputs(split_k_mixer_call(*x, *wd, *sd, *bd, *wi, *si, *bi, n, hc, has_inject, partitions).outs),
    ensures
        ({
            let (k1, t1, o) = call_s(
                old(kernel)@,
                old(tape)@,
                split_k_mixer_call(*x, *wd, *sd, *bd, *wi, *si, *bi, n, hc, has_inject, partitions),
            );
            &&& final(kernel)@ == k1
            &&& final(tape)@ == t1
            &&& got3(r, o)
        }),
        ready(final(kernel)@, 3),
{
    let ghost call = split_k_mixer_call(*x, *wd, *sd, *bd, *wi, *si, *bi, n, hc, has_inject, partitions);
    let k = x.dim(-1);
    let extra: i32 = if has_inject {
        hc
    } else {
        0
    };
    let halves: i32 = n / 2;
    let tiles: i32 = halves + extra;
    let lanes: i32 = tiles * partitions;
    let inputs: Vec<&Tensor> = vec![&x.t, &wd.t, &sd.t, &bd.t, &wi.t, &si.t, &bi.t];
    let template: Vec<TemplateArg> = vec![
        TemplateArg::Dtype("T", Dtype::Bfloat16),
        TemplateArg::Int("K", k),
        TemplateArg::Int("ND", n),
        TemplateArg::Int("RPS", 2),
        TemplateArg::Int("SPLIT", partitions),
        TemplateArg::Bool("HAS_INJECT", has_inject),
    ];
    let outs: Vec<OutputArg> = vec![
        OutputArg { shape: vec![1, n], dtype: Dtype::Bfloat16 },
        OutputArg { shape: vec![1, n], dtype: Dtype::Bfloat16 },
        OutputArg { shape: vec![1, hc], dtype: Dtype::Bfloat16 },
    ];
    proof {
        assert(ref_views(inputs@) =~= call.inputs);
        assert(arg_list(template@) =~= call.template);
        assert(out_list(outs@) =~~= call.outs);
        assert(all_wf(call.inputs));
    }
    let made = launch(
        kernel,
        tape,
        &inputs,
        &template,
        (32, lanes, 1),
        (32, partitions, 1),
        &outs,
    );
    first3(made)
}

/// The mixer's way down.
pub open spec fn down_inject_call(
    normed: Array,
    wd: Array,
    sd: Array,
    bd: Array,
    wi: Array,
    si: Array,
    bi: Array,
    kd: i32,
    nd: i32,
    hc: i32,
    s: i32,
    has_inject: bool,
) -> CallV {
    let rps: i32 = if s == 1 {
        1
    } else {
        4
    };
    let per = (2 * rps) as i32;
    let rows = (nd / per) as i32;
    let extra: i32 = if !has_inject {
        0
    } else {
        if s == 1 {
            2
        } else {
            1
        }
    };
    let tiles = (rows + extra) as i32;
    let lanes = (tiles * 2) as i32;
    CallV {
        inputs: seq![normed.t@, wd.t@, sd.t@, bd.t@, wi.t@, si.t@, bi.t@],
        template: seq![TemplateArgV::Dtype("T"@, Dtype::Bfloat16), TemplateArgV::Int("GS"@, 32), TemplateArgV::Int("BITS"@, 4), TemplateArgV::Int("KD"@, kd), TemplateArgV::Int("ND"@, nd), TemplateArgV::Int("HC"@, hc), TemplateArgV::Int("VPT"@, s), TemplateArgV::Bool("HAS_INJECT"@, has_inject)],
        grid: (32, lanes, 1),
        group: (32, 2, 1),
        outs: seq![out_of(seq![s, nd], Dtype::Bfloat16), out_of(seq![s, nd], Dtype::Bfloat16), out_of(seq![s, hc], Dtype::Bfloat16)],
    }
}

/// The mixer's way down.
fn down_inject_run(
    kernel: &mut MetalKernel,
    tape: &mut Tape,
    normed: &Array,
    wd: &Array,
    sd: &Array,
    bd: &Array,
    wi: &Array,
    si: &Array,
    bi: &Array,
    kd: i32,
    nd: i32,
    hc: i32,
    s: i32,
    has_inject: bool,
) -> (r: Option<(Array, Array, Array)>)
    requires
        normed.wf(),
        wd.wf(),
        sd.wf(),
        bd.wf(),
        wi.wf(),
        si.wf(),
        bi.wf(),
        nd >= 0,
        ({ let rps: i32 = if s == 1 {
        1
    } else {
        4
    }; (fits(2 * rps) && { let per = (2 * rps) as i32; (fits(nd / per) && { let rows = (nd / per) as i32; { let extra: i32 = if !has_inject {
        0
    } else {
        if s == 1 {
            2
        } else {
            1
        }
    }; (fits(rows + extra) && { let tiles = (rows + extra) as i32; fits(tiles * 2) }) } }) }) }),
        ready(old(kernel)@, 3),
        sound_outputs(down_inject_call(*normed, *wd, *sd, *bd, *wi, *si, *bi, kd, nd, hc, s, has_inject).outs),
    ensures
        ({
            let (k1, t1, o) = call_s(
                old(kernel)@,
                old(tape)@,
                down_inject_call(*normed, *wd, *sd, *bd, *wi, *si, *bi, kd, nd, hc, s, has_inject),
            );
            &&& final(kernel)@ == k1
            &&& final(tape)@ == t1
            &&& got3(r, o)
        }),
        ready(final(kernel)@, 3),
{
    let ghost call = down_inject_call(*normed, *wd, *sd, *bd, *wi, *si, *bi, kd, nd, hc, s, has_inject);
    let rps: i32 = if s == 1 {
        1
    } else {
        4
    };
    let per: i32 = 2 * rps;
    let rows: i32 = nd / per;
    let extra: i32 = if !has_inject {
        0
    } else {
        if s == 1 {
            2
        } else {
            1
        }
    };
    let tiles: i32 = rows + extra;
    let lanes: i32 = tiles * 2;
    let inputs: Vec<&Tensor> = vec![&normed.t, &wd.t, &sd.t, &bd.t, &wi.t, &si.t, &bi.t];
    let template: Vec<TemplateArg> = vec![
        TemplateArg::Dtype("T", Dtype::Bfloat16),
        TemplateArg::Int("GS", 32),
        TemplateArg::Int("BITS", 4),
        TemplateArg::Int("KD", kd),
        TemplateArg::Int("ND", nd),
        TemplateArg::Int("HC", hc),
        TemplateArg::Int("VPT", s),
        TemplateArg::Bool("HAS_INJECT", has_inject),
    ];
    let outs: Vec<OutputArg> = vec![
        OutputArg { shape: vec![s, nd], dtype: Dtype::Bfloat16 },
        OutputArg { shape: vec![s, nd], dtype: Dtype::Bfloat16 },
        OutputArg { shape: vec![s, hc], dtype: Dtype::Bfloat16 },
    ];
    proof {
        assert(ref_views(inputs@) =~= call.inputs);
        assert(arg_list(template@) =~= call.template);
        assert(out_list(outs@) =~~= call.outs);
        assert(all_wf(call.inputs));
    }
    let made = launch(
        kernel,
        tape,
        &inputs,
        &template,
        (32, lanes, 1),
        (32, 2, 1),
        &outs,
    );
    first3(made)
}

/// The mixer's way down: one row in parts, and as a whole where that does not work;
/// more rows as a whole.
pub open spec fn down_inject_s(
    split: KernelV,
    whole: KernelV,
    t: TapeV,
    normed: Array,
    wd: Array,
    sd: Array,
    bd: Array,
    wi: Array,
    si: Array,
    bi: Array,
    kd: i32,
    nd: i32,
    hc: i32,
    s: i32,
    has_inject: bool,
) -> (KernelV, KernelV, TapeV, Option<Seq<ArrayV>>) {
    let call = down_inject_call(normed, wd, sd, bd, wi, si, bi, kd, nd, hc, s, has_inject);
    if s == 1 {
        let (k1, t1, o) = call_s(
            split,
            t,
            split_k_mixer_call(normed, wd, sd, bd, wi, si, bi, nd, hc, has_inject, MIXER_SPLIT_K),
        );
        match o {
            Some(v) => (k1, whole, t1, Some(v)),
            None => {
                let (k2, t2, p) = call_s(whole, t1, call);
                (k1, k2, t2, p)
            },
        }
    } else {
        let (k2, t2, p) = call_s(whole, t, call);
        (split, k2, t2, p)
    }
}

/// The mixer's way down: what goes up again, its activation, and the injection.
pub fn down_inject(
    split: &mut MetalKernel,
    whole: &mut MetalKernel,
    tape: &mut Tape,
    normed: &Array,
    wd: &Array,
    sd: &Array,
    bd: &Array,
    wi: &Array,
    si: &Array,
    bi: &Array,
    kd: i32,
    nd: i32,
    hc: i32,
    s: i32,
    has_inject: bool,
) -> (r: Option<(Array, Array, Array)>)
    requires
        normed.wf(),
        wd.wf(),
        sd.wf(),
        bd.wf(),
        wi.wf(),
        si.wf(),
        bi.wf(),
        0 < normed.shape@.len() <= i32::MAX,
        nd >= 0,
        fits(nd + 4),
        fits((nd / 2 + (if has_inject {
            hc
        } else {
            0
        })) * MIXER_SPLIT_K),
        ready(old(split)@, 3),
        ready(old(whole)@, 3),
        sound_outputs(
            down_inject_call(
                *normed,
                *wd,
                *sd,
                *bd,
                *wi,
                *si,
                *bi,
                kd,
                nd,
                hc,
                s,
                has_inject,
            ).outs,
        ),
    ensures
        ({
            let (k1, k2, t1, o) = down_inject_s(
                old(split)@,
                old(whole)@,
                old(tape)@,
                *normed,
                *wd,
                *sd,
                *bd,
                *wi,
                *si,
                *bi,
                kd,
                nd,
                hc,
                s,
                has_inject,
            );
            &&& final(split)@ == k1
            &&& final(whole)@ == k2
            &&& final(tape)@ == t1
            &&& got3(r, o)
        }),
        ready(final(split)@, 3),
        ready(final(whole)@, 3),
{
    if s == 1 {
        if let Some(o) = split_k_mixer(
            split,
            tape,
            normed,
            wd,
            sd,
            bd,
            wi,
            si,
            bi,
            nd,
            hc,
            has_inject,
            MIXER_SPLIT_K,
        ) {
            return Some(o);
        }
    }
    down_inject_run(whole, tape, normed, wd, sd, bd, wi, si, bi, kd, nd, hc, s, has_inject)
}

/// The mixer's way up.
pub open spec fn up_mix_call(
    act: Array,
    normed: Array,
    wu: Array,
    su: Array,
    bu: Array,
    inj: Array,
    lut: Array,
    hidden: i32,
    hc: i32,
    s: i32,
    has_inject: bool,
    packed_rows: bool,
) -> CallV {
    let lw = act.shape@[act.shape@.len() - 1];
    let halves = (hidden / 2) as i32;
    let lanes = (halves * 2) as i32;
    CallV {
        inputs: seq![act.t@, normed.t@, wu.t@, su.t@, bu.t@, inj.t@, lut.t@],
        template: seq![TemplateArgV::Dtype("T"@, Dtype::Bfloat16), TemplateArgV::Int("GS"@, 32), TemplateArgV::Int("BITS"@, 4), TemplateArgV::Int("H"@, hidden), TemplateArgV::Int("HC"@, hc), TemplateArgV::Int("LW"@, lw), TemplateArgV::Int("VPT"@, s), TemplateArgV::Bool("HAS_INJECT"@, has_inject), TemplateArgV::Bool("EMIT_F32"@, false), TemplateArgV::Bool("PACKED_ROWS"@, packed_rows)],
        grid: (32, lanes, 1),
        group: (32, 2, 1),
        outs: seq![out_of(seq![s, hidden], Dtype::Bfloat16), out_of(seq![s, hc], Dtype::Bfloat16), out_of(seq![1, 1], Dtype::Float32)],
    }
}

/// The mixer's way up.
fn up_mix_run(
    kernel: &mut MetalKernel,
    tape: &mut Tape,
    act: &Array,
    normed: &Array,
    wu: &Array,
    su: &Array,
    bu: &Array,
    inj: &Array,
    lut: &Array,
    hidden: i32,
    hc: i32,
    s: i32,
    has_inject: bool,
    packed_rows: bool,
) -> (r: Option<(Array, Array)>)
    requires
        act.wf(),
        normed.wf(),
        wu.wf(),
        su.wf(),
        bu.wf(),
        inj.wf(),
        lut.wf(),
        1 <= act.shape@.len() <= i32::MAX,
        hidden >= 0,
        ({ let lw = act.shape@[act.shape@.len() - 1]; (fits(hidden / 2) && { let halves = (hidden / 2) as i32; fits(halves * 2) }) }),
        ready(old(kernel)@, 3),
        sound_outputs(up_mix_call(*act, *normed, *wu, *su, *bu, *inj, *lut, hidden, hc, s, has_inject, packed_rows).outs),
    ensures
        ({
            let (k1, t1, o) = call_s(
                old(kernel)@,
                old(tape)@,
                up_mix_call(*act, *normed, *wu, *su, *bu, *inj, *lut, hidden, hc, s, has_inject, packed_rows),
            );
            &&& final(kernel)@ == k1
            &&& final(tape)@ == t1
            &&& got2(r, o)
        }),
        ready(final(kernel)@, 3),
{
    let ghost call = up_mix_call(*act, *normed, *wu, *su, *bu, *inj, *lut, hidden, hc, s, has_inject, packed_rows);
    let lw = act.dim(-1);
    let halves: i32 = hidden / 2;
    let lanes: i32 = halves * 2;
    let inputs: Vec<&Tensor> = vec![&act.t, &normed.t, &wu.t, &su.t, &bu.t, &inj.t, &lut.t];
    let template: Vec<TemplateArg> = vec![
        TemplateArg::Dtype("T", Dtype::Bfloat16),
        TemplateArg::Int("GS", 32),
        TemplateArg::Int("BITS", 4),
        TemplateArg::Int("H", hidden),
        TemplateArg::Int("HC", hc),
        TemplateArg::Int("LW", lw),
        TemplateArg::Int("VPT", s),
        TemplateArg::Bool("HAS_INJECT", has_inject),
        TemplateArg::Bool("EMIT_F32", false),
        TemplateArg::Bool("PACKED_ROWS", packed_rows),
    ];
    let outs: Vec<OutputArg> = vec![
        OutputArg { shape: vec![s, hidden], dtype: Dtype::Bfloat16 },
        OutputArg { shape: vec![s, hc], dtype: Dtype::Bfloat16 },
        OutputArg { shape: vec![1, 1], dtype: Dtype::Float32 },
    ];
    proof {
        assert(ref_views(inputs@) =~= call.inputs);
        assert(arg_list(template@) =~= call.template);
        assert(out_list(outs@) =~~= call.outs);
        assert(all_wf(call.inputs));
    }
    let made = launch(
        kernel,
        tape,
        &inputs,
        &template,
        (32, lanes, 1),
        (32, 2, 1),
        &outs,
    );
    first2(made)
}

/// The mixer's way up: the mixed row, and what is to be injected. In half precision
/// the logistic function is looked up in a table, without which there is no result.
pub fn up_mix(
    kernel: &mut MetalKernel,
    tape: &mut Tape,
    act: &Array,
    normed: &Array,
    wu: &Array,
    su: &Array,
    bu: &Array,
    inj: &Array,
    table: Option<&Array>,
    hidden: i32,
    hc: i32,
    s: i32,
    has_inject: bool,
    packed_rows: bool,
) -> (r: Option<(Array, Array)>)
    requires
        act.wf(),
        normed.wf(),
        wu.wf(),
        su.wf(),
        bu.wf(),
        inj.wf(),
        table matches Some(t) ==> t.wf(),
        0 < act.shape@.len() <= i32::MAX,
        hidden >= 0,
        ready(old(kernel)@, 3),
        sound_outputs(
            up_mix_call(
                *act,
                *normed,
                *wu,
                *su,
                *bu,
                *inj,
                *normed,
                hidden,
                hc,
                s,
                has_inject,
                packed_rows,
            ).outs,
        ),
    ensures
        ({
            let half = act.t@.dtype == Dtype::Bfloat16;
            if half && table is None {
                &&& r is None
                &&& final(kernel)@ == old(kernel)@
                &&& final(tape)@ == old(tape)@
            } else {
                let (k1, t1, o) = call_s(
                    old(kernel)@,
                    old(tape)@,
                    up_mix_call(
                        *act,
                        *normed,
                        *wu,
                        *su,
                        *bu,
                        *inj,
                        if half {
                            *table->0
                        } else {
                            *normed
                        },
                        hidden,
                        hc,
                        s,
                        has_inject,
                        packed_rows,
                    ),
                );
                &&& final(kernel)@ == k1
                &&& final(tape)@ == t1
                &&& got2(r, o)
            }
        }),
        ready(final(kernel)@, 3),
{
    let lut = if act.dtype() == Dtype::Bfloat16 {
        match table {
            Some(t) => t,
            None => {
                return None;
            },
        }
    } else {
        normed
    };
    up_mix_run(
        kernel,
        tape,
        act,
        normed,
        wu,
        su,
        bu,
        inj,
        lut,
        hidden,
        hc,
        s,
        has_inject,
        packed_rows,
    )
}

/// The run that fills the table of the logistic function.
pub open spec fn sigmoid_table_call() -> CallV {
    CallV {
        inputs: Seq::empty(),
        template: Seq::empty(),
        grid: (65536, 1, 1),
        group: (256, 1, 1),
        outs: seq![out_of(seq![65536i32], Dtype::Bfloat16)],
    }
}

/// The logistic function of every number in half precision; the table is waited
/// for.
pub fn bf16_sigmoid_table(kernel: &mut MetalKernel, tape: &mut Tape) -> (r: Option<Array>)
    requires
        ready(old(kernel)@, 1),
    ensures
        ({
            let (k1, t1, o) = call_s(old(kernel)@, old(tape)@, sigmoid_table_call());
            &&& final(kernel)@ == k1
            &&& final(tape)@ == if o is Some {
                t1.then_do(CmdV::Sync)
            } else {
                t1
            }
            &&& got1(r, o)
        }),
        ready(final(kernel)@, 1),
{
    let inputs: Vec<&Tensor> = Vec::new();
    let template: Vec<TemplateArg> = Vec::new();
    let outs: Vec<OutputArg> = vec![OutputArg { shape: vec![65536], dtype: Dtype::Bfloat16 }];
    proof {
        let call = sigmoid_table_call();
        assert(ref_views(inputs@) =~= call.inputs);
        assert(arg_list(template@) =~= call.template);
        assert(out_list(outs@) =~~= call.outs);
        assert(all_wf(call.inputs));
        lemma_table();
    }
    let made = launch(kernel, tape, &inputs, &template, (65536, 1, 1), (256, 1, 1), &outs);
    let r = first1(made);
    if r.is_some() {
        tape.record(Cmd::Sync);
    }
    r
}

proof fn lemma_table()
    ensures
        sound_outputs(sigmoid_table_call().outs),
{
    let s = seq![65536i32];
    let z = crate::kernel::sizes_of(s);
    assert(z =~= seq![65536usize]);
    assert(z.drop_last() =~= Seq::<usize>::empty());
    reveal_with_fuel(crate::layout::volume, 2);
    assert(crate::layout::volume(z) == 65536);
}

} // verus!
