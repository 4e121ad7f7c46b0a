//! Block-sparse attention: the blocks that each query looks at, and the attention
//! over them.

use vstd::prelude::*;

use crate::array::{from_slice_s, roomy, Array as Tensor, ArrayV, Outcome};
use crate::calls::{call_s, fits, got1, launch, first1, out_of, ready, CallV};
use crate::dtype::{width, Dtype};
use crate::elements::{all_bytes, from_slice, lemma_signed_words_len};
use crate::facade::Array;
use crate::kernel::{
    all_wf, arg_list, new_kernel, out_list, ref_views, sound_outputs, KernelV, MetalKernel,
    OutputArg, TemplateArg, TemplateArgV,
};
use crate::layout::{numel, volume};
use crate::tape::{Tape, TapeV};
use crate::text::str_views;

verus! {

/// The inputs of the kernel, by name.
pub open spec fn select_inputs() -> Seq<Seq<char>> {
    seq!["q"@, "pooled"@, "pos_start"@, "total_tokens"@, "logical_blocks"@]
}

/// The inputs of the kernel, by name.
pub open spec fn flash_inputs() -> Seq<Seq<char>> {
    seq!["q"@, "k"@, "v"@, "block_ids"@, "block_valid"@, "params"@, "scale"@]
}

// ---- kernels ----

/// The blocks that a cache can have.
pub const SELECT_BACKING: i32 = 65536;

/// The threads that choose the blocks of one query.
pub const SELECT_WIDTH: i32 = 512;

/// The queries that are worked on at a time.
pub const SELECT_TILE: i32 = 512;

/// The kernel that chooses blocks.
pub fn select_kernel(source: &str, header: &str) -> (r: Option<MetalKernel>)
    ensures
        r matches Some(k) && k@ == new_kernel(
            "qsa_select_blocks_h4_d128_n65536_k512_r4_w512_t0_tf1_bf16_bf16"@,
            select_inputs(),
            seq!["block_ids"@, "block_valid"@, "adjusted_scores"@, "score_scratch"@],
            source@,
            header@,
            false,
        ) && ready(k@, 4),
{
    let ins: Vec<&str> = vec!["q", "pooled", "pos_start", "total_tokens", "logical_blocks"];
    let outs: Vec<&str> = vec!["block_ids", "block_valid", "adjusted_scores", "score_scratch"];
    proof {
        assert(str_views(ins@) =~= seq![
            "q"@,
            "pooled"@,
            "pos_start"@,
            "total_tokens"@,
            "logical_blocks"@,
        ]);
        assert(str_views(outs@) =~= seq![
            "block_ids"@,
            "block_valid"@,
            "adjusted_scores"@,
            "score_scratch"@,
        ]);
    }
    match MetalKernel::new(
        "qsa_select_blocks_h4_d128_n65536_k512_r4_w512_t0_tf1_bf16_bf16",
        &ins,
        &outs,
        source,
        header,
        false,
        false,
    ) {
        Ok(k) => Some(k),
        Err(_) => None,
    }
}

/// The kernel of the attention over blocks.
pub fn prefill_kernel(source: &str, header: &str) -> (r: Option<MetalKernel>)
    ensures
        r matches Some(k) && k@ == new_kernel(
            "qsa_prefill_flash_nax_m16_n32_h24_kv2_d256_b4_k512"@,
            flash_inputs(),
            seq!["out"@],
            source@,
            header@,
            false,
        ) && ready(k@, 1),
{
    let ins: Vec<&str> = vec!["q", "k", "v", "block_ids", "block_valid", "params", "scale"];
    let outs: Vec<&str> = vec!["out"];
    proof {
        assert(str_views(ins@) =~= seq![
            "q"@,
            "k"@,
            "v"@,
            "block_ids"@,
            "block_valid"@,
            "params"@,
            "scale"@,
        ]);
        assert(str_views(outs@) =~= seq!["out"@]);
    }
    match MetalKernel::new(
        "qsa_prefill_flash_nax_m16_n32_h24_kv2_d256_b4_k512",
        &ins,
        &outs,
        source,
        header,
        false,
        false,
    ) {
        Ok(k) => Some(k),
        Err(_) => None,
    }
}

// ---- numbers for a kernel ----

/// Signed words in one row.
pub open spec fn row_s(t: TapeV, v: Seq<i32>, dtype: Dtype) -> (TapeV, Outcome) {
    from_slice_s(t, all_bytes(v, v.len() as int), seq![v.len() as usize], dtype)
}

pub(crate) fn row_of(tape: &mut Tape, v: &[i32]) -> (a: Array)
    requires
        v@.len() <= 16,
    ensures
        (final(tape)@, Outcome::Ok(a.t@)) == row_s(old(tape)@, v@, Dtype::Int32),
        a.wf(),
{
    let n = v.len();
    let shape = vec![n];
    proof {
        lemma_row(v@, Dtype::Int32);
        assert(shape@ =~= seq![n]);
        assert(numel(shape@) == n);
        assert(width(Dtype::Int32) == 4);
        assert(v@.len() == n);
    }
    let r = from_slice::<i32>(tape, v, &shape);
    Array::new(r.unwrap())
}

proof fn lemma_row(v: Seq<i32>, d: Dtype)
    requires
        v.len() <= 16,
    ensures
        roomy(seq![v.len() as usize]),
        numel(seq![v.len() as usize]) == v.len(),
        all_bytes(v, v.len() as int).len() == 4 * v.len(),
{
    let n = v.len() as usize;
    lemma_signed_words_len(v, v.len() as int);
    crate::layout::lemma_numel_one(n);
    assert(seq![n].drop_last() =~= Seq::<usize>::empty());
    reveal_with_fuel(volume, 2);
}

/// One number, given by its bits.
fn bits_of(tape: &mut Tape, bits: u32) -> (a: Array)
    ensures
        (final(tape)@, Outcome::Ok(a.t@)) == row_s(
            old(tape)@,
            seq![bits as i32],
            Dtype::Float32,
        ),
        a.wf(),
{
    let mut bytes: Vec<u8> = Vec::new();
    crate::words::push_le32(&mut bytes, bits as i32);
    let shape: Vec<usize> = vec![1];
    proof {
        let v = seq![bits as i32];
        lemma_row(v, Dtype::Float32);
        assert(shape@ =~= seq![1usize]);
        reveal_with_fuel(all_bytes, 2);
        assert(bytes@ =~= all_bytes(v, 1));
    }
    let r = Tensor::from_slice_dt(tape, bytes, &shape, Dtype::Float32);
    Array::new(r.unwrap())
}

// ---- attention over blocks ----

/// Operands that the attention over blocks takes: twenty-four heads of queries, two
/// of keys, blocks for every query, and queries at the end of the tokens.
pub open spec fn flash_takes(
    q: Array,
    k: Array,
    block_ids: Array,
    pos_start: i32,
    total_tokens: i32,
) -> bool {
    &&& q.shape@[0] == 1 && q.shape@[1] == 24 && q.shape@[3] == 256 && q.shape@[2] >= 1
    &&& k.shape@[0] == 1 && k.shape@[1] == 2 && k.shape@[3] == 256
    &&& block_ids.shape@[0] == q.shape@[2] && block_ids.shape@[1] == 512
    &&& total_tokens > 0 && pos_start + q.shape@[2] == total_tokens && total_tokens <= k.shape@[2]
}

/// The run of the attention over blocks.
pub open spec fn flash_call(
    q: Array,
    k: Array,
    v: Array,
    block_ids: Array,
    block_valid: Array,
    params: ArrayV,
    scale: ArrayV,
) -> CallV {
    let rows = q.shape@[2];
    CallV {
        inputs: seq![q.t@, k.t@, v.t@, block_ids.t@, block_valid.t@, params, scale],
        template: seq![TemplateArgV::Dtype("T"@, q.t@.dtype)],
        grid: ((rows * 2 * 32) as i32, 1, 1),
        group: (32, 1, 1),
        outs: seq![out_of(seq![1i32, 24, rows, 256], q.t@.dtype)],
    }
}

/// The attention over blocks: the positions and the scale are written first. There
/// is no result for operands that it does not take.
pub open spec fn flash_s(
    kernel: KernelV,
    t: TapeV,
    q: Array,
    k: Array,
    v: Array,
    block_ids: Array,
    block_valid: Array,
    pos_start: i32,
    total_tokens: i32,
    scale: u32,
) -> (KernelV, TapeV, Option<Seq<ArrayV>>) {
    if !flash_takes(q, k, block_ids, pos_start, total_tokens) {
        (kernel, t, None)
    } else {
        let (t1, params) = row_s(t, seq![pos_start, total_tokens, q.shape@[2]], Dtype::Int32);
        let (t2, s) = row_s(t1, seq![scale as i32], Dtype::Float32);
        call_s(
            kernel,
            t2,
            flash_call(q, k, v, block_ids, block_valid, params->Ok_0, s->Ok_0),
        )
    }
}

fn flash_run(
    kernel: &mut MetalKernel,
    tape: &mut Tape,
    q: &Array,
    k: &Array,
    v: &Array,
    block_ids: &Array,
    block_valid: &Array,
    params: &Array,
    scale: &Array,
) -> (r: Option<Array>)
    requires
        q.wf(),
        k.wf(),
        v.wf(),
        block_ids.wf(),
        block_valid.wf(),
        params.wf(),
        scale.wf(),
        4 <= q.shape@.len() <= i32::MAX,
        fits(q.shape@[2] * 2),
        fits(q.shape@[2] * 2 * 32),
        ready(old(kernel)@, 1),
        sound_outputs(seq![out_of(seq![1i32, 24, q.shape@[2], 256], q.t@.dtype)]),
    ensures
        ({
            let (k1, t1, o) = call_s(
                old(kernel)@,
                old(tape)@,
                flash_call(*q, *k, *v, *block_ids, *block_valid, params.t@, scale.t@),
            );
            &&& final(kernel)@ == k1
            &&& final(tape)@ == t1
            &&& got1(r, o)
        }),
        ready(final(kernel)@, 1),
{
    let ghost call = flash_call(*q, *k, *v, *block_ids, *block_valid, params.t@, scale.t@);
    let rows = q.dim(2);
    let inputs: Vec<&Tensor> = vec![
        &q.t,
        &k.t,
        &v.t,
        &block_ids.t,
        &block_valid.t,
        &params.t,
        &scale.t,
    ];
    let template: Vec<TemplateArg> = vec![TemplateArg::Dtype("T", q.dtype())];
    let outs: Vec<OutputArg> = vec![
        OutputArg { shape: vec![1, 24, rows, 256], dtype: q.dtype() },
    ];
    proof {
        assert(ref_views(inputs@) =~= call.inputs);
        assert(arg_list(template@) =~= call.template);
        assert(out_list(outs@) =~~= call.outs);
        assert(all_wf(call.inputs));
    }
    let made = launch(
        kernel,
        tape,
        &inputs,
        &template,
        (rows * 2 * 32, 1, 1),
        (32, 1, 1),
        &outs,
    );
    first1(made)
}

/// The attention over the blocks that were chosen.
pub fn prefill_flash(
    kernel: &mut MetalKernel,
    tape: &mut Tape,
    q: &Array,
    k: &Array,
    v: &Array,
    block_ids: &Array,
    block_valid: &Array,
    pos_start: i32,
    total_tokens: i32,
    scale: u32,
) -> (r: Option<Array>)
    requires
        q.wf(),
        k.wf(),
        v.wf(),
        block_ids.wf(),
        block_valid.wf(),
        4 <= q.shape@.len() <= i32::MAX,
        4 <= k.shape@.len() <= i32::MAX,
        2 <= block_ids.shape@.len() <= i32::MAX,
        fits(pos_start + q.shape@[2]),
        fits(q.shape@[2] * 2 * 32),
        ready(old(kernel)@, 1),
        q.shape@[2] >= 0 ==> sound_outputs(
            seq![out_of(seq![1i32, 24, q.shape@[2], 256], q.t@.dtype)],
        ),
    ensures
        ({
            let (k1, t1, o) = flash_s(
                old(kernel)@,
                old(tape)@,
                *q,
                *k,
                *v,
                *block_ids,
                *block_valid,
                pos_start,
                total_tokens,
                scale,
            );
            &&& final(kernel)@ == k1
            &&& final(tape)@ == t1
            &&& got1(r, o)
        }),
        ready(final(kernel)@, 1),
{
    if q.dim(0) != 1 || q.dim(1) != 24 || q.dim(3) != 256 || q.dim(2) < 1 {
        return None;
    }
    if k.dim(0) != 1 || k.dim(1) != 2 || k.dim(3) != 256 {
        return None;
    }
    if block_ids.dim(0) != q.dim(2) || block_ids.dim(1) != 512 {
        return None;
    }
    if total_tokens <= 0 || pos_start + q.dim(2) != total_tokens || total_tokens > k.dim(2) {
        return None;
    }
    let nums = vec![pos_start, total_tokens, q.dim(2)];
    proof {
        assert(nums@ =~= seq![pos_start, total_tokens, q.shape@[2]]);
    }
    let params = row_of(tape, &nums);
    let s = bits_of(tape, scale);
    flash_run(kernel, tape, q, k, v, block_ids, block_valid, &params, &s)
}

} // verus!
