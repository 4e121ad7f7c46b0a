//! The per-layer embedding of one token, in two runs.

use vstd::prelude::*;

use crate::array::{Array as Tensor, ArrayV};
use crate::calls::{
    call_s, first1, first2, got1, got2, launch, out_of, ready, CallV,
};
use crate::dtype::Dtype;
use crate::facade::Array;
use crate::kernel::{
    all_wf, arg_list, new_kernel, out_list, ref_views, sound_outputs, KernelV, MetalKernel,
    OutputArg, OutputArgV, TemplateArg, TemplateArgV,
};
use crate::layout::{at_least_one, volume};
use crate::tape::{Tape, TapeV};
use crate::text::{cat2, str_views};

verus! {

/// The inputs of the kernel, by name.
pub open spec fn ple_convolve_inputs() -> Seq<Seq<char>> {
    seq!["full"@, "weight"@, "gated"@]
}

/// The inputs of the kernel, by name.
pub open spec fn ple_prepare_inputs() -> Seq<Seq<char>> {
    seq!["key"@, "query"@, "value"@, "keyScale"@, "queryScale"@, "convScale"@, "convState"@]
}

/// The kernel that gates the value of one token.
pub fn ple_prepare_kernel(source: &str, exact: &str, fuse: &str) -> (r: Option<MetalKernel>)
    ensures
        r matches Some(k) && k@ == new_kernel(
            "track_ple_prepare_fuse2"@,
            ple_prepare_inputs(),
            seq!["gated"@, "full"@],
            source@,
            exact@ + fuse@,
            false,
        ) && ready(k@, 2),
{
    let ins: Vec<&str> = vec!["key", "query", "value", "keyScale", "queryScale", "convScale", "convState"];
    let outs: Vec<&str> = vec!["gated", "full"];
    let header = cat2(exact, fuse);
    proof {
        assert(str_views(ins@) =~= seq!["key"@, "query"@, "value"@, "keyScale"@, "queryScale"@, "convScale"@, "convState"@]);
        assert(str_views(outs@) =~= seq!["gated"@, "full"@]);
    }
    match MetalKernel::new("track_ple_prepare_fuse2", &ins, &outs, source, &header, true, false) {
        Ok(k) => Some(k),
        Err(_) => None,
    }
}

/// The kernel that convolves the gated value of one token.
pub fn ple_conv_fuse_kernel(source: &str, header: &str) -> (r: Option<MetalKernel>)
    ensures
        r matches Some(k) && k@ == new_kernel(
            "track_ple_convolution_fuse2"@,
            ple_convolve_inputs(),
            seq!["out"@],
            source@,
            header@,
            false,
        ) && ready(k@, 1),
{
    let ins: Vec<&str> = vec!["full", "weight", "gated"];
    let outs: Vec<&str> = vec!["out"];
    proof {
        assert(str_views(ins@) =~= seq!["full"@, "weight"@, "gated"@]);
        assert(str_views(outs@) =~= seq!["out"@]);
    }
    match MetalKernel::new("track_ple_convolution_fuse2", &ins, &outs, source, header, true, false) {
        Ok(k) => Some(k),
        Err(_) => None,
    }
}

/// The square root of 2560, as a 32-bit float.
pub const DIVISOR_BITS: i32 = 0x424a_62c2;

/// The gated value of one token, and the convolution's window with it.
pub open spec fn ple_prepare_call(
    key: Array,
    query: Array,
    value: Array,
    key_scale: Array,
    query_scale: Array,
    conv_scale: Array,
    conv_state: Array,
    eps: u32,
) -> CallV {
    CallV {
        inputs: seq![key.t@, query.t@, value.t@, key_scale.t@, query_scale.t@, conv_scale.t@, conv_state.t@],
        template: seq![TemplateArgV::Dtype("InT"@, Dtype::Bfloat16), TemplateArgV::Int("EPS_BITS"@, eps as i32), TemplateArgV::Int("DIVISOR_BITS"@, DIVISOR_BITS)],
        grid: (640, 4, 1),
        group: (640, 1, 1),
        outs: seq![out_of(seq![1, 1, 10240], Dtype::Bfloat16), out_of(seq![1, 10, 10240], Dtype::Bfloat16)],
    }
}

/// The gated value of one token, and the convolution's window with it.
fn prepare(
    kernel: &mut MetalKernel,
    tape: &mut Tape,
    key: &Array,
    query: &Array,
    value: &Array,
    key_scale: &Array,
    query_scale: &Array,
    conv_scale: &Array,
    conv_state: &Array,
    eps: u32,
) -> (r: Option<(Array, Array)>)
    requires
        key.wf(),
        query.wf(),
        value.wf(),
        key_scale.wf(),
        query_scale.wf(),
        conv_scale.wf(),
        conv_state.wf(),
        ready(old(kernel)@, 2),
        sound_outputs(ple_prepare_call(*key, *query, *value, *key_scale, *query_scale, *conv_scale, *conv_state, eps).outs),
    ensures
        ({
            let (k1, t1, o) = call_s(
                old(kernel)@,
                old(tape)@,
                ple_prepare_call(*key, *query, *value, *key_scale, *query_scale, *conv_scale, *conv_state, eps),
            );
            &&& final(kernel)@ == k1
            &&& final(tape)@ == t1
            &&& got2(r, o)
        }),
        ready(final(kernel)@, 2),
{
    let ghost call = ple_prepare_call(*key, *query, *value, *key_scale, *query_scale, *conv_scale, *conv_state, eps);
    let inputs: Vec<&Tensor> = vec![&key.t, &query.t, &value.t, &key_scale.t, &query_scale.t, &conv_scale.t, &conv_state.t];
    let template: Vec<TemplateArg> = vec![
        TemplateArg::Dtype("InT", Dtype::Bfloat16),
        TemplateArg::Int("EPS_BITS", eps as i32),
        TemplateArg::Int("DIVISOR_BITS", DIVISOR_BITS),
    ];
    let outs: Vec<OutputArg> = vec![
        OutputArg { shape: vec![1, 1, 10240], dtype: Dtype::Bfloat16 },
        OutputArg { shape: vec![1, 10, 10240], dtype: Dtype::Bfloat16 },
    ];
    proof {
        assert(ref_views(inputs@) =~= call.inputs);
        assert(arg_list(template@) =~= call.template);
        assert(out_list(outs@) =~~= call.outs);
        assert(all_wf(call.inputs));
    }
    let made = launch(
        kernel,
        tape,
        &inputs,
        &template,
        (640, 4, 1),
        (640, 1, 1),
        &outs,
    );
    first2(made)
}

/// The convolution of one token's window, added to the gated value.
pub open spec fn ple_convolve_call(
    full: ArrayV,
    conv_w: ArrayV,
    gated: ArrayV,
) -> CallV {
    CallV {
        inputs: seq![full, conv_w, gated],
        template: seq![TemplateArgV::Dtype("InT"@, Dtype::Bfloat16)],
        grid: (32, 1, 40960),
        group: (32, 1, 4),
        outs: seq![out_of(seq![1, 1, 10240], Dtype::Bfloat16)],
    }
}

/// The convolution of one token's window, added to the gated value.
fn convolve(
    kernel: &mut MetalKernel,
    tape: &mut Tape,
    full: &Array,
    conv_w: &Array,
    gated: &Array,
) -> (r: Option<Array>)
    requires
        full.wf(),
        conv_w.wf(),
        gated.wf(),
        ready(old(kernel)@, 1),
        sound_outputs(ple_convolve_call(full.t@, conv_w.t@, gated.t@).outs),
    ensures
        ({
            let (k1, t1, o) = call_s(
                old(kernel)@,
                old(tape)@,
                ple_convolve_call(full.t@, conv_w.t@, gated.t@),
            );
            &&& final(kernel)@ == k1
            &&& final(tape)@ == t1
            &&& got1(r, o)
        }),
        ready(final(kernel)@, 1),
{
    let ghost call = ple_convolve_call(full.t@, conv_w.t@, gated.t@);
    let inputs: Vec<&Tensor> = vec![&full.t, &conv_w.t, &gated.t];
    let template: Vec<TemplateArg> = vec![
        TemplateArg::Dtype("InT", Dtype::Bfloat16),
    ];
    let outs: Vec<OutputArg> = vec![
        OutputArg { shape: vec![1, 1, 10240], dtype: Dtype::Bfloat16 },
    ];
    proof {
        assert(ref_views(inputs@) =~= call.inputs);
        assert(arg_list(template@) =~= call.template);
        assert(out_list(outs@) =~~= call.outs);
        assert(all_wf(call.inputs));
    }
    let made = launch(
        kernel,
        tape,
        &inputs,
        &template,
        (32, 1, 40960),
        (32, 1, 4),
        &outs,
    );
    first1(made)
}

/// One token's embedding: the gated value, then its convolution.
pub open spec fn ple_fuse2_s(
    prep: KernelV,
    conv: KernelV,
    t: TapeV,
    key: Array,
    query: Array,
    value: Array,
    key_scale: Array,
    query_scale: Array,
    conv_scale: Array,
    conv_state: Array,
    conv_w: Array,
    eps: u32,
) -> (KernelV, KernelV, TapeV, Option<Seq<ArrayV>>) {
    let (k1, t1, o) = call_s(
        prep,
        t,
        ple_prepare_call(key, query, value, key_scale, query_scale, conv_scale, conv_state, eps),
    );
    match o {
        None => (k1, conv, t1, None),
        Some(v) => {
            let (k2, t2, p) = call_s(conv, t1, ple_convolve_call(v[1], conv_w.t@, v[0]));
            (
                k1,
                k2,
                t2,
                match p {
                    Some(w) => Some(seq![v[1], w[0]]),
                    None => None,
                },
            )
        },
    }
}

proof fn lemma_sizes(outs: Seq<OutputArgV>)
    requires
        forall|i: int|
            0 <= i < outs.len() ==> (#[trigger] outs[i]).shape == seq![1i32, 1, 10240] || outs[i].shape
                == seq![1i32, 10, 10240],
    ensures
        sound_outputs(outs),
{
    assert forall|i: int| 0 <= i < outs.len() implies crate::kernel::sound_output(
        #[trigger] outs[i],
    ) by {
        let s = outs[i].shape;
        let z = crate::kernel::sizes_of(s);
        let m = s[1] as usize;
        assert(z =~= seq![1usize, m, 10240usize]);
        let y = z.drop_last();
        let x = y.drop_last();
        assert(x.drop_last().len() == 0);
        assert(volume(x.drop_last()) == 1);
        assert(volume(x) == 1 * at_least_one(1usize)) by (nonlinear_arith)
            requires
                volume(x) == volume(x.drop_last()) * at_least_one(x.last()),
                volume(x.drop_last()) == 1,
                x.last() == 1usize,
        ;
        let (a, b) = (volume(x), at_least_one(m));
        assert(volume(y) == a * b);
        assert(a * b == b) by (nonlinear_arith)
            requires
                a == 1,
        ;
        let c = volume(y);
        assert(volume(z) == c * at_least_one(10240usize));
        assert(c * 10240 <= 10 * 10240) by (nonlinear_arith)
            requires
                c <= 10,
        ;
    }
}

/// One token's embedding: the window of the convolution, and the result.
pub fn ple_fuse2(
    prep: &mut MetalKernel,
    conv: &mut MetalKernel,
    tape: &mut Tape,
    key: &Array,
    query: &Array,
    value: &Array,
    key_scale: &Array,
    query_scale: &Array,
    conv_scale: &Array,
    conv_state: &Array,
    conv_w: &Array,
    eps: u32,
) -> (r: Option<(Array, Array)>)
    requires
        key.wf(),
        query.wf(),
        value.wf(),
        key_scale.wf(),
        query_scale.wf(),
        conv_scale.wf(),
        conv_state.wf(),
        conv_w.wf(),
        ready(old(prep)@, 2),
        ready(old(conv)@, 1),
    ensures
        ({
            let (k1, k2, t1, o) = ple_fuse2_s(
                old(prep)@,
                old(conv)@,
                old(tape)@,
                *key,
                *query,
                *value,
                *key_scale,
                *query_scale,
                *conv_scale,
                *conv_state,
                *conv_w,
                eps,
            );
            &&& final(prep)@ == k1
            &&& final(conv)@ == k2
            &&& final(tape)@ == t1
            &&& got2(r, o)
        }),
        ready(final(prep)@, 2),
        ready(final(conv)@, 1),
{
    proof {
        lemma_sizes(
            ple_prepare_call(
                *key,
                *query,
                *value,
                *key_scale,
                *query_scale,
                *conv_scale,
                *conv_state,
                eps,
            ).outs,
        );
    }
    let (gated, full) = match prepare(
        prep,
        tape,
        key,
        query,
        value,
        key_scale,
        query_scale,
        conv_scale,
        conv_state,
        eps,
    ) {
        Some(p) => p,
        None => {
            return None;
        },
    };
    proof {
        lemma_sizes(ple_convolve_call(full.t@, conv_w.t@, gated.t@).outs);
    }
    match convolve(conv, tape, &full, conv_w, &gated) {
        Some(out) => Some((full, out)),
        None => None,
    }
}

} // verus!
