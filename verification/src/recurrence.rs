//! The gated delta recurrence by its kernels, and the routing of tokens to experts.

use vstd::prelude::*;

use crate::array::{Array as Tensor, ArrayV};
use crate::calls::{
    call_into_s, call_s, first2, fits, got2, launch, launch_into, number, out_of, ready, CallV,
};
use crate::dtype::Dtype;
use crate::elementwise::scalar_raw_s;
use crate::facade::Array;
use crate::join::array_views;
use crate::kernel::{
    all_wf, arg_list, new_kernel, out_list, ref_views, sound_outputs, KernelV, MetalKernel,
    OutputArg, TemplateArg, TemplateArgV,
};
use crate::steps::{owned_shape, StepV};
use crate::tape::{Tape, TapeV};
use crate::text::str_views;

verus! {

// ---- the recurrence ----

/// The inputs of the recurrence.
pub open spec fn recurrence_inputs() -> Seq<Seq<char>> {
    seq!["q"@, "k"@, "v"@, "g"@, "beta"@, "state_in"@, "T"@]
}

fn recurrence_kernel(name: &str, source: &str) -> (r: Option<MetalKernel>)
    ensures
        r matches Some(k) && k@ == new_kernel(
            name@,
            recurrence_inputs(),
            seq!["y"@, "state_out"@],
            source@,
            ""@,
            false,
        ) && ready(k@, 2),
{
    let ins: Vec<&str> = vec!["q", "k", "v", "g", "beta", "state_in", "T"];
    let outs: Vec<&str> = vec!["y", "state_out"];
    proof {
        assert(str_views(ins@) =~= recurrence_inputs());
        assert(str_views(outs@) =~= seq!["y"@, "state_out"@]);
    }
    match MetalKernel::new(name, &ins, &outs, source, "", true, false) {
        Ok(k) => Some(k),
        Err(_) => None,
    }
}

/// The kernel of the recurrence with two rows per group.
pub fn gdn_two_row_kernel(source: &str) -> (r: Option<MetalKernel>)
    ensures
        r matches Some(k) && k@ == new_kernel(
            "track_gdn_lean_two_row"@,
            recurrence_inputs(),
            seq!["y"@, "state_out"@],
            source@,
            ""@,
            false,
        ) && ready(k@, 2),
{
    recurrence_kernel("track_gdn_lean_two_row", source)
}

/// The kernel of the recurrence with four rows per group.
pub fn gdn_rows_kernel(source: &str) -> (r: Option<MetalKernel>)
    ensures
        r matches Some(k) && k@ == new_kernel(
            "track_gdn_rows"@,
            recurrence_inputs(),
            seq!["y"@, "state_out"@],
            source@,
            ""@,
            false,
        ) && ready(k@, 2),
{
    recurrence_kernel("track_gdn_rows", source)
}

/// The kernel of the recurrence, if it could be made.
pub struct GatedDeltaKernels {
    pub kernel: Option<MetalKernel>,
}

impl GatedDeltaKernels {
    pub fn new(source: &str) -> (s: GatedDeltaKernels)
        ensures
            s.kernel matches Some(k) && k@ == new_kernel(
                "gated_delta_step"@,
                recurrence_inputs(),
                seq!["y"@, "state_out"@],
                source@,
                ""@,
                false,
            ) && ready(k@, 2),
    {
        GatedDeltaKernels { kernel: recurrence_kernel("gated_delta_step", source) }
    }
}

/// Whether the kernel of the recurrence is there.
pub fn gdn_kernel_available(kernels: &GatedDeltaKernels) -> (b: bool)
    ensures
        b == kernels.kernel is Some,
{
    kernels.kernel.is_some()
}

/// The run of the recurrence. When states are captured, there is one for each
/// position.
pub open spec fn recurrence_call(
    q: Array,
    k: Array,
    v: Array,
    g: Array,
    beta: Array,
    state: Array,
    steps: ArrayV,
    capture: bool,
    rows: i32,
    in_type: Dtype,
    state_type: Dtype,
) -> CallV {
    let b = k.shape@[0];
    let t = k.shape@[1];
    let hk = k.shape@[2];
    let dk = k.shape@[3];
    let hv = v.shape@[2];
    let dv = v.shape@[3];
    CallV {
        inputs: seq![q.t@, k.t@, v.t@, g.t@, beta.t@, state.t@, steps],
        template: seq![
            TemplateArgV::Dtype("InT"@, in_type),
            TemplateArgV::Dtype("StT"@, state_type),
            TemplateArgV::Int("Dk"@, dk),
            TemplateArgV::Int("Dv"@, dv),
            TemplateArgV::Int("Hk"@, hk),
            TemplateArgV::Int("Hv"@, hv),
            TemplateArgV::Bool("CAPTURE"@, capture),
        ],
        grid: (32, (dv / rows) as i32, (b * hv) as i32),
        group: (32, 4, 1),
        outs: seq![
            out_of(seq![b, t, hv, dv], in_type),
            out_of(
                if capture {
                    seq![(b * t) as i32, hv, dv, dk]
                } else {
                    state.shape@
                },
                state_type,
            ),
        ],
    }
}

/// The recurrence: the number of steps is written first, then the kernel runs, into
/// given arrays if there are any.
pub open spec fn recurrence_s(
    kernel: KernelV,
    tape: TapeV,
    q: Array,
    k: Array,
    v: Array,
    g: Array,
    beta: Array,
    state: Array,
    capture: bool,
    rows: i32,
    in_type: Dtype,
    state_type: Dtype,
    into: Option<Seq<ArrayV>>,
) -> StepV {
    let (t1, steps) = scalar_raw_s(tape, k.shape@[1] as i64, Dtype::Int32);
    let call = recurrence_call(
        q,
        k,
        v,
        g,
        beta,
        state,
        steps->Ok_0,
        capture,
        rows,
        in_type,
        state_type,
    );
    match into {
        Some(p) => call_into_s(kernel, t1, call, p),
        None => call_s(kernel, t1, call),
    }
}

/// Operands of the recurrence: four axes for keys and values, sizes in range.
pub open spec fn recurrence_fits(
    q: Array,
    k: Array,
    v: Array,
    g: Array,
    beta: Array,
    state: Array,
    capture: bool,
    in_type: Dtype,
    state_type: Dtype,
) -> bool {
    &&& q.wf()
    &&& k.wf()
    &&& v.wf()
    &&& g.wf()
    &&& beta.wf()
    &&& state.wf()
    &&& 4 <= k.shape@.len() <= i32::MAX
    &&& 4 <= v.shape@.len() <= i32::MAX
    &&& fits(k.shape@[0] * v.shape@[2])
    &&& capture ==> fits(k.shape@[0] * k.shape@[1])
    &&& v.shape@[3] >= 0
    &&& sound_outputs(
        seq![
            out_of(
                seq![k.shape@[0], k.shape@[1], v.shape@[2], v.shape@[3]],
                in_type,
            ),
            out_of(
                if capture {
                    seq![
                        (k.shape@[0] * k.shape@[1]) as i32,
                        v.shape@[2],
                        v.shape@[3],
                        k.shape@[3],
                    ]
                } else {
                    state.shape@
                },
                state_type,
            ),
        ],
    )
}

fn recurrence_template(
    hk: i32,
    dk: i32,
    hv: i32,
    dv: i32,
    capture: bool,
    in_type: Dtype,
    state_type: Dtype,
) -> (template: Vec<TemplateArg>)
    ensures
        arg_list(template@) == seq![
            TemplateArgV::Dtype("InT"@, in_type),
            TemplateArgV::Dtype("StT"@, state_type),
            TemplateArgV::Int("Dk"@, dk),
            TemplateArgV::Int("Dv"@, dv),
            TemplateArgV::Int("Hk"@, hk),
            TemplateArgV::Int("Hv"@, hv),
            TemplateArgV::Bool("CAPTURE"@, capture),
        ],
{
    let template: Vec<TemplateArg> = vec![
        TemplateArg::Dtype("InT", in_type),
        TemplateArg::Dtype("StT", state_type),
        TemplateArg::Int("Dk", dk),
        TemplateArg::Int("Dv", dv),
        TemplateArg::Int("Hk", hk),
        TemplateArg::Int("Hv", hv),
        TemplateArg::Bool("CAPTURE", capture),
    ];
    assert(arg_list(template@) =~= seq![
        TemplateArgV::Dtype("InT"@, in_type),
        TemplateArgV::Dtype("StT"@, state_type),
        TemplateArgV::Int("Dk"@, dk),
        TemplateArgV::Int("Dv"@, dv),
        TemplateArgV::Int("Hk"@, hk),
        TemplateArgV::Int("Hv"@, hv),
        TemplateArgV::Bool("CAPTURE"@, capture),
    ]);
    template
}

fn recurrence_outs(
    b: i32,
    t: i32,
    hv: i32,
    dv: i32,
    dk: i32,
    capture: bool,
    state: &Array,
    in_type: Dtype,
    state_type: Dtype,
) -> (outs: Vec<OutputArg>)
    requires
        capture ==> fits(b * t),
    ensures
        out_list(outs@) == seq![
            out_of(seq![b, t, hv, dv], in_type),
            out_of(
                if capture {
                    seq![(b * t) as i32, hv, dv, dk]
                } else {
                    state.shape@
                },
                state_type,
            ),
        ],
{
    let state_shape = if capture {
        vec![b * t, hv, dv, dk]
    } else {
        owned_shape(state.shape())
    };
    let outs: Vec<OutputArg> = vec![
        OutputArg { shape: vec![b, t, hv, dv], dtype: in_type },
        OutputArg { shape: state_shape, dtype: state_type },
    ];
    assert(out_list(outs@) =~~= seq![
        out_of(seq![b, t, hv, dv], in_type),
        out_of(
            if capture {
                seq![(b * t) as i32, hv, dv, dk]
            } else {
                state.shape@
            },
            state_type,
        ),
    ]);
    outs
}

fn recurrence(
    kernel: &mut MetalKernel,
    tape: &mut Tape,
    q: &Array,
    k: &Array,
    v: &Array,
    g: &Array,
    beta: &Array,
    state: &Array,
    capture: bool,
    rows: i32,
    in_type: Dtype,
    state_type: Dtype,
    into: Option<&Vec<Tensor>>,
) -> (r: Option<(Array, Array)>)
    requires
        recurrence_fits(*q, *k, *v, *g, *beta, *state, capture, in_type, state_type),
        rows > 0,
        ready(old(kernel)@, 2),
        into matches Some(p) ==> p@.len() == 2 && all_wf(array_views(p@)),
    ensures
        ({
            let (k1, t1, o) = recurrence_s(
                old(kernel)@,
                old(tape)@,
                *q,
                *k,
                *v,
                *g,
                *beta,
                *state,
                capture,
                rows,
                in_type,
                state_type,
                match into {
                    Some(p) => Some(array_views(p@)),
                    None => None,
                },
            );
            &&& final(kernel)@ == k1
            &&& final(tape)@ == t1
            &&& got2(r, o)
        }),
        ready(final(kernel)@, 2),
{
    let b = k.dim(0);
    let t = k.dim(1);
    let hk = k.dim(2);
    let dk = k.dim(3);
    let hv = v.dim(2);
    let dv = v.dim(3);
    let steps = number(tape, t);
    let ghost call = recurrence_call(
        *q,
        *k,
        *v,
        *g,
        *beta,
        *state,
        steps.t@,
        capture,
        rows,
        in_type,
        state_type,
    );
    let inputs: Vec<&Tensor> = vec![&q.t, &k.t, &v.t, &g.t, &beta.t, &state.t, &steps.t];
    let template = recurrence_template(hk, dk, hv, dv, capture, in_type, state_type);
    let outs = recurrence_outs(b, t, hv, dv, dk, capture, state, in_type, state_type);
    let lanes: i32 = dv / rows;
    let heads: i32 = b * hv;
    proof {
        assert(ref_views(inputs@) =~= call.inputs);
        assert(arg_list(template@) == call.template);
        assert(out_list(outs@) == call.outs);
        assert(all_wf(call.inputs));
    }
    let made = match into {
        Some(p) => launch_into(
            kernel,
            tape,
            &inputs,
            &template,
            (32, lanes, heads),
            (32, 4, 1),
            &outs,
            p,
        ),
        None => launch(
            kernel,
            tape,
            &inputs,
            &template,
            (32, lanes, heads),
            (32, 4, 1),
            &outs,
        ),
    };
    first2(made)
}

/// The recurrence, two rows per group.
pub fn gdn_two_row(
    kernel: &mut MetalKernel,
    tape: &mut Tape,
    q: &Array,
    k: &Array,
    v: &Array,
    g: &Array,
    beta: &Array,
    state: &Array,
    capture: bool,
) -> (r: Option<(Array, Array)>)
    requires
        recurrence_fits(*q, *k, *v, *g, *beta, *state, capture, Dtype::Bfloat16, Dtype::Float32),
        ready(old(kernel)@, 2),
    ensures
        ({
            let (k1, t1, o) = recurrence_s(
                old(kernel)@,
                old(tape)@,
                *q,
                *k,
                *v,
                *g,
                *beta,
                *state,
                capture,
                2,
                Dtype::Bfloat16,
                Dtype::Float32,
                None,
            );
            &&& final(kernel)@ == k1
            &&& final(tape)@ == t1
            &&& got2(r, o)
        }),
        ready(final(kernel)@, 2),
{
    recurrence(
        kernel,
        tape,
        q,
        k,
        v,
        g,
        beta,
        state,
        capture,
        2,
        Dtype::Bfloat16,
        Dtype::Float32,
        None,
    )
}

/// The recurrence, two rows per group, into arrays that are there already.
pub fn gdn_two_row_into(
    kernel: &mut MetalKernel,
    tape: &mut Tape,
    q: &Array,
    k: &Array,
    v: &Array,
    g: &Array,
    beta: &Array,
    state: &Array,
    capture: bool,
    out_y: &Array,
    out_state: &Array,
) -> (r: Option<(Array, Array)>)
    requires
        recurrence_fits(*q, *k, *v, *g, *beta, *state, capture, Dtype::Bfloat16, Dtype::Float32),
        ready(old(kernel)@, 2),
        out_y.wf(),
        out_state.wf(),
    ensures
        ({
            let (k1, t1, o) = recurrence_s(
                old(kernel)@,
                old(tape)@,
                *q,
                *k,
                *v,
                *g,
                *beta,
                *state,
                capture,
                2,
                Dtype::Bfloat16,
                Dtype::Float32,
                Some(seq![out_y.t@, out_state.t@]),
            );
            &&& final(kernel)@ == k1
            &&& final(tape)@ == t1
            &&& got2(r, o)
        }),
        ready(final(kernel)@, 2),
{
    let into: Vec<Tensor> = vec![out_y.t.duplicate(), out_state.t.duplicate()];
    proof {
        assert(array_views(into@) =~= seq![out_y.t@, out_state.t@]);
    }
    recurrence(
        kernel,
        tape,
        q,
        k,
        v,
        g,
        beta,
        state,
        capture,
        2,
        Dtype::Bfloat16,
        Dtype::Float32,
        Some(&into),
    )
}

/// The recurrence, four rows per group.
pub fn gdn_rows(
    kernel: &mut MetalKernel,
    tape: &mut Tape,
    q: &Array,
    k: &Array,
    v: &Array,
    g: &Array,
    beta: &Array,
    state: &Array,
    capture: bool,
) -> (r: Option<(Array, Array)>)
    requires
        recurrence_fits(*q, *k, *v, *g, *beta, *state, capture, Dtype::Bfloat16, Dtype::Float32),
        ready(old(kernel)@, 2),
    ensures
        ({
            let (k1, t1, o) = recurrence_s(
                old(kernel)@,
                old(tape)@,
                *q,
                *k,
                *v,
                *g,
                *beta,
                *state,
                capture,
                4,
                Dtype::Bfloat16,
                Dtype::Float32,
                None,
            );
            &&& final(kernel)@ == k1
            &&& final(tape)@ == t1
            &&& got2(r, o)
        }),
        ready(final(kernel)@, 2),
{
    recurrence(
        kernel,
        tape,
        q,
        k,
        v,
        g,
        beta,
        state,
        capture,
        4,
        Dtype::Bfloat16,
        Dtype::Float32,
        None,
    )
}

/// The recurrence in the types of its operands. When states are captured, there is one
/// for each position.
pub fn gated_delta_kernel(
    kernel: &mut MetalKernel,
    tape: &mut Tape,
    q: &Array,
    k: &Array,
    v: &Array,
    g: &Array,
    beta: &Array,
    state: &Array,
    capture: bool,
) -> (r: Option<(Array, Array)>)
    requires
        recurrence_fits(*q, *k, *v, *g, *beta, *state, capture, q.t@.dtype, state.t@.dtype),
        ready(old(kernel)@, 2),
    ensures
        ({
            let (k1, t1, o) = recurrence_s(
                old(kernel)@,
                old(tape)@,
                *q,
                *k,
                *v,
                *g,
                *beta,
                *state,
                capture,
                1,
                q.t@.dtype,
                state.t@.dtype,
                None,
            );
            &&& final(kernel)@ == k1
            &&& final(tape)@ == t1
            &&& got2(r, o)
        }),
        ready(final(kernel)@, 2),
{
    recurrence(
        kernel,
        tape,
        q,
        k,
        v,
        g,
        beta,
        state,
        capture,
        1,
        q.dtype(),
        state.dtype(),
        None,
    )
}

} // verus!
