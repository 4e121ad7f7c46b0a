//! Runs of custom kernels on engine arrays.

use vstd::prelude::*;

use crate::array::{Array as Tensor, ArrayV};
use crate::dtype::Dtype;
use crate::error::Error;
use crate::facade::Array;
use crate::join::array_views;
use crate::kernel::{
    all_wf, apply_s, arg_list, lemma_outputs_made_len, out_list, outputs_have_their_shapes,
    outputs_made, ref_views, seen_all, sizes_of, sound_outputs, KernelV, MetalKernel, OutputArg, OutputArgV, TemplateArg, TemplateArgV,
};
use crate::layout::packed;
use crate::tape::{Tape, TapeV};

verus! {

// ---- numbers ----

/// A number that fits 32 bits, signed.
pub open spec fn fits(n: int) -> bool {
    i32::MIN <= n <= i32::MAX
}

// ---- calls ----

/// What a kernel is applied to, and how.
#[verifier::ext_equal]
pub ghost struct CallV {
    pub inputs: Seq<ArrayV>,
    pub template: Seq<TemplateArgV>,
    pub grid: (i32, i32, i32),
    pub group: (i32, i32, i32),
    pub outs: Seq<OutputArgV>,
}

/// An application: what is left of a fault is that there is no result.
#[verifier::opaque]
pub open spec fn call_s(k: KernelV, t: TapeV, c: CallV) -> (KernelV, TapeV, Option<Seq<ArrayV>>) {
    let (k1, t1, r) = apply_s(k, t, c.inputs, c.template, c.grid, c.group, c.outs, None);
    (
        k1,
        t1,
        match r {
            Ok(v) => Some(v),
            Err(_) => None,
        },
    )
}

/// An application that writes into arrays that are there already.
#[verifier::opaque]
pub open spec fn call_into_s(k: KernelV, t: TapeV, c: CallV, into: Seq<ArrayV>) -> (
    KernelV,
    TapeV,
    Option<Seq<ArrayV>>,
) {
    let (k1, t1, r) = apply_s(k, t, c.inputs, c.template, c.grid, c.group, c.outs, Some(into));
    (
        k1,
        t1,
        match r {
            Ok(v) => Some(v),
            Err(_) => None,
        },
    )
}

/// A kernel that can make so many outputs.
pub open spec fn ready(k: KernelV, outs: int) -> bool {
    k.wf() && k.output_names.len() <= outs
}

/// What an application gives, as one array.
pub open spec fn got1(r: Option<Array>, o: Option<Seq<ArrayV>>) -> bool {
    match r {
        Some(a) => o matches Some(v) && a.t@ == v[0] && a.wf(),
        None => o is None,
    }
}

/// What an application gives, as two arrays.
pub open spec fn got2(r: Option<(Array, Array)>, o: Option<Seq<ArrayV>>) -> bool {
    match r {
        Some((a, b)) => o matches Some(v) && a.t@ == v[0] && b.t@ == v[1] && a.wf() && b.wf(),
        None => o is None,
    }
}

/// What an application gives, as three arrays.
pub open spec fn got3(r: Option<(Array, Array, Array)>, o: Option<Seq<ArrayV>>) -> bool {
    match r {
        Some((a, b, c)) => o matches Some(v) && a.t@ == v[0] && b.t@ == v[1] && c.t@ == v[2]
            && a.wf() && b.wf() && c.wf(),
        None => o is None,
    }
}

/// What an application gives, as six arrays.
pub open spec fn got6(
    r: Option<(Array, Array, Array, Array, Array, Array)>,
    o: Option<Seq<ArrayV>>,
) -> bool {
    match r {
        Some((a, b, c, d, e, f)) => o matches Some(v) && a.t@ == v[0] && b.t@ == v[1] && c.t@
            == v[2] && d.t@ == v[3] && e.t@ == v[4] && f.t@ == v[5] && a.wf() && b.wf() && c.wf()
            && d.wf() && e.wf() && f.wf(),
        None => o is None,
    }
}

/// Packed arrays of the shapes and types of outputs.
pub open spec fn shaped(v: Seq<ArrayV>, outs: Seq<OutputArgV>) -> bool {
    forall|i: int|
        0 <= i < outs.len() ==> (#[trigger] v[i]).layout == packed(sizes_of(outs[i].shape))
            && v[i].dtype == outs[i].dtype
}

/// Applies a kernel; on a fault there is no result.
pub(crate) fn launch(
    kernel: &mut MetalKernel,
    tape: &mut Tape,
    inputs: &[&Tensor],
    template: &[TemplateArg],
    grid: (i32, i32, i32),
    group: (i32, i32, i32),
    outputs: &[OutputArg],
) -> (r: Option<Vec<Tensor>>)
    requires
        ready(old(kernel)@, outputs@.len() as int),
        all_wf(ref_views(inputs@)),
        inputs@.len() <= 16,
        outputs@.len() <= 16,
        sound_outputs(out_list(outputs@)),
    ensures
        ({
            let (k1, t1, o) = call_s(
                old(kernel)@,
                old(tape)@,
                CallV {
                    inputs: ref_views(inputs@),
                    template: arg_list(template@),
                    grid,
                    group,
                    outs: out_list(outputs@),
                },
            );
            &&& final(kernel)@ == k1
            &&& final(tape)@ == t1
            &&& match r {
                Some(v) => o == Some(array_views(v@)) && v@.len() == outputs@.len() && all_wf(
                    array_views(v@),
                ) && shaped(array_views(v@), out_list(outputs@)),
                None => o is None,
            }
        }),
        ready(final(kernel)@, outputs@.len() as int),
{
    proof {
        reveal(call_s);
        let n = outputs@.len() as int;
        let want = out_list(outputs@);
        lemma_outputs_made_len(old(tape)@, want, "lisa_kernel_out"@, n);
        lemma_outputs_made_len(old(tape)@, want, "noop"@, n);
        assert forall|i: int| 0 <= i < n implies (#[trigger] outputs_made(
            old(tape)@,
            want,
            "noop"@,
            n,
        ).1[i]).layout == packed(sizes_of(want[i].shape)) && outputs_made(
            old(tape)@,
            want,
            "noop"@,
            n,
        ).1[i].dtype == want[i].dtype by {
            outputs_have_their_shapes(old(tape)@, want, "noop"@, n, i);
        }
        assert forall|i: int| 0 <= i < n implies (#[trigger] outputs_made(
            old(tape)@,
            want,
            "lisa_kernel_out"@,
            n,
        ).1[i]).layout == packed(sizes_of(want[i].shape)) && outputs_made(
            old(tape)@,
            want,
            "lisa_kernel_out"@,
            n,
        ).1[i].dtype == want[i].dtype by {
            outputs_have_their_shapes(old(tape)@, want, "lisa_kernel_out"@, n, i);
        }
    }
    match kernel.apply(tape, inputs, template, grid, group, outputs, None) {
        Ok(v) => {
            assert(array_views(v@).len() == v@.len());
            Some(v)
        },
        Err(_) => None,
    }
}

/// Applies a kernel to arrays that are there already; on a fault there is no
/// result.
pub(crate) fn launch_into(
    kernel: &mut MetalKernel,
    tape: &mut Tape,
    inputs: &[&Tensor],
    template: &[TemplateArg],
    grid: (i32, i32, i32),
    group: (i32, i32, i32),
    outputs: &[OutputArg],
    into: &[Tensor],
) -> (r: Option<Vec<Tensor>>)
    requires
        ready(old(kernel)@, outputs@.len() as int),
        all_wf(ref_views(inputs@)),
        inputs@.len() <= 16,
        outputs@.len() <= 16,
        sound_outputs(out_list(outputs@)),
        into@.len() == outputs@.len(),
        all_wf(array_views(into@)),
    ensures
        ({
            let (k1, t1, o) = call_into_s(
                old(kernel)@,
                old(tape)@,
                CallV {
                    inputs: ref_views(inputs@),
                    template: arg_list(template@),
                    grid,
                    group,
                    outs: out_list(outputs@),
                },
                array_views(into@),
            );
            &&& final(kernel)@ == k1
            &&& final(tape)@ == t1
            &&& match r {
                Some(v) => o == Some(array_views(v@)) && v@.len() == outputs@.len() && all_wf(
                    array_views(v@),
                ),
                None => o is None,
            }
        }),
        ready(final(kernel)@, outputs@.len() as int),
{
    proof {
        reveal(call_into_s);
        lemma_outputs_made_len(old(tape)@, out_list(outputs@), "noop"@, outputs@.len() as int);
    }
    match kernel.apply_into(tape, inputs, template, grid, group, outputs, into) {
        Ok(v) => {
            assert(array_views(v@).len() == v@.len());
            Some(v)
        },
        Err(_) => None,
    }
}

impl MetalKernel {
    /// Applies the kernel and writes into the given arrays.
    pub fn apply_into(
        &mut self,
        tape: &mut Tape,
        inputs: &[&Tensor],
        template: &[TemplateArg],
        grid: (i32, i32, i32),
        thread_group: (i32, i32, i32),
        outputs: &[OutputArg],
        prealloc: &[Tensor],
    ) -> (r: Result<Vec<Tensor>, Error>)
        requires
            old(self)@.wf(),
            all_wf(ref_views(inputs@)),
            outputs@.len() >= old(self)@.output_names.len(),
            inputs@.len() * 4 + outputs@.len() <= usize::MAX,
            sound_outputs(out_list(outputs@)),
            prealloc@.len() >= outputs@.len(),
        ensures
            (final(self)@, final(tape)@, seen_all(r)) == apply_s(
                old(self)@,
                old(tape)@,
                ref_views(inputs@),
                arg_list(template@),
                grid,
                thread_group,
                out_list(outputs@),
                Some(array_views(prealloc@)),
            ),
            final(self)@.wf(),
            all_wf(array_views(prealloc@)) ==> (r matches Ok(v) ==> all_wf(array_views(v@))),
    {
        self.apply(tape, inputs, template, grid, thread_group, outputs, Some(prealloc))
    }
}

/// The first array of a list.
pub(crate) fn first1(r: Option<Vec<Tensor>>) -> (o: Option<Array>)
    requires
        r matches Some(v) ==> v@.len() >= 1 && all_wf(array_views(v@)),
    ensures
        got1(
            o,
            match r {
                Some(v) => Some(array_views(v@)),
                None => None,
            },
        ),
{
    match r {
        Some(v) => {
            proof {
                assert(array_views(v@)[0] == v@[0]@);
                assert(array_views(v@)[0].wf());
            }
            Some(Array::new(v[0].duplicate()))
        },
        None => None,
    }
}

/// The first two arrays of a list.
pub(crate) fn first2(r: Option<Vec<Tensor>>) -> (o: Option<(Array, Array)>)
    requires
        r matches Some(v) ==> v@.len() >= 2 && all_wf(array_views(v@)),
    ensures
        got2(
            o,
            match r {
                Some(v) => Some(array_views(v@)),
                None => None,
            },
        ),
{
    match r {
        Some(v) => {
            proof {
                assert(array_views(v@)[0].wf() && array_views(v@)[1].wf());
            }
            Some((Array::new(v[0].duplicate()), Array::new(v[1].duplicate())))
        },
        None => None,
    }
}

/// The first three arrays of a list.
pub(crate) fn first3(r: Option<Vec<Tensor>>) -> (o: Option<(Array, Array, Array)>)
    requires
        r matches Some(v) ==> v@.len() >= 3 && all_wf(array_views(v@)),
    ensures
        got3(
            o,
            match r {
                Some(v) => Some(array_views(v@)),
                None => None,
            },
        ),
{
    match r {
        Some(v) => {
            proof {
                let w = array_views(v@);
                assert(w[0].wf() && w[1].wf() && w[2].wf());
            }
            Some(
                (
                    Array::new(v[0].duplicate()),
                    Array::new(v[1].duplicate()),
                    Array::new(v[2].duplicate()),
                ),
            )
        },
        None => None,
    }
}

/// The first six arrays of a list.
pub(crate) fn first6(r: Option<Vec<Tensor>>) -> (o: Option<
    (Array, Array, Array, Array, Array, Array),
>)
    requires
        r matches Some(v) ==> v@.len() >= 6 && all_wf(array_views(v@)),
    ensures
        got6(
            o,
            match r {
                Some(v) => Some(array_views(v@)),
                None => None,
            },
        ),
{
    match r {
        Some(v) => {
            proof {
                let w = array_views(v@);
                assert(w[0].wf() && w[1].wf() && w[2].wf() && w[3].wf() && w[4].wf() && w[5].wf());
            }
            Some(
                (
                    Array::new(v[0].duplicate()),
                    Array::new(v[1].duplicate()),
                    Array::new(v[2].duplicate()),
                    Array::new(v[3].duplicate()),
                    Array::new(v[4].duplicate()),
                    Array::new(v[5].duplicate()),
                ),
            )
        },
        None => None,
    }
}

/// An output of a shape and a type.
pub open spec fn out_of(shape: Seq<i32>, dtype: Dtype) -> OutputArgV {
    OutputArgV { shape, dtype }
}

/// A whole number without axes, for a kernel.
pub(crate) fn number(tape: &mut Tape, n: i32) -> (a: Array)
    ensures
        (final(tape)@, Ok::<ArrayV, Seq<char>>(a.t@)) == crate::elementwise::scalar_raw_s(
            old(tape)@,
            n as i64,
            Dtype::Int32,
        ),
        a.wf(),
{
    Array::from_int(tape, n).unwrap()
}

} // verus!
