//! Tokens sorted by their experts.

use vstd::prelude::*;

use crate::arrange::inner;
use crate::array::{from_slice_s, roomy, Array as Tensor, ArrayV, Outcome};
use crate::calls::{call_s, first1, first3, fits, got1, got3, launch, out_of, ready, CallV};
use crate::dtype::{width, Dtype};
use crate::elementwise::cast_s;
use crate::elements::{all_bytes, from_slice, lemma_words_len};
use crate::facade::Array;
use crate::join::{axis_total, cat_fault, cat_s, cat_shape, joinable, part_fits};
use crate::kernel::{
    all_wf, arg_list, new_kernel, out_list, ref_views, sizes_of, sound_outputs, KernelV,
    MetalKernel, OutputArg, TemplateArg, TemplateArgV,
};
use crate::layout::{packed, volume};
use crate::tape::{Tape, TapeV};
use crate::text::str_views;


verus! {

/// The inputs of the kernel, by name.
pub open spec fn route_scatter_inputs() -> Seq<Seq<char>> {
    seq!["ids"@, "counts"@]
}

// ---- kernels ----

/// The kernel that counts the experts of each block.
pub fn route_block_counts_kernel(source: &str) -> (r: Option<MetalKernel>)
    ensures
        r matches Some(k) && k@ == new_kernel(
            "track_route_block_counts"@,
            seq!["ids"@],
            seq!["counts"@],
            source@,
            ""@,
            false,
        ) && ready(k@, 1),
{
    let ins: Vec<&str> = vec!["ids"];
    let outs: Vec<&str> = vec!["counts"];
    proof {
        assert(str_views(ins@) =~= seq!["ids"@]);
        assert(str_views(outs@) =~= seq!["counts"@]);
    }
    match MetalKernel::new("track_route_block_counts", &ins, &outs, source, "", true, false) {
        Ok(k) => Some(k),
        Err(_) => None,
    }
}

/// The kernel that puts each token in its place.
pub fn route_counting_scatter_kernel(source: &str) -> (r: Option<MetalKernel>)
    ensures
        r matches Some(k) && k@ == new_kernel(
            "track_route_counting_scatter"@,
            route_scatter_inputs(),
            seq!["sorted_ids"@, "token_rows"@, "inverse"@],
            source@,
            ""@,
            false,
        ) && ready(k@, 3),
{
    let ins: Vec<&str> = vec!["ids", "counts"];
    let outs: Vec<&str> = vec!["sorted_ids", "token_rows", "inverse"];
    proof {
        assert(str_views(ins@) =~= seq!["ids"@, "counts"@]);
        assert(str_views(outs@) =~= seq!["sorted_ids"@, "token_rows"@, "inverse"@]);
    }
    match MetalKernel::new("track_route_counting_scatter", &ins, &outs, source, "", true, false) {
        Ok(k) => Some(k),
        Err(_) => None,
    }
}

// ---- blocks ----

/// The blocks of so many tokens.
pub open spec fn blocks_of(r: int) -> int {
    (r + 255) / 256
}

/// The tokens of full blocks.
pub open spec fn padded_len(r: int) -> int {
    blocks_of(r) * 256
}

/// Every block is full, no token is left out, and less than a block is added.
pub proof fn blocks_are_full(r: int)
    requires
        r >= 0,
    ensures
        padded_len(r) % 256 == 0,
        r <= padded_len(r) < r + 256,
{
}

/// What fills the last block: the number of experts, which is no expert's.
pub open spec fn filler(e: usize, n: nat) -> Seq<u32> {
    Seq::new(n, |i: int| e as u32)
}

/// The experts of all tokens, in full blocks.
pub open spec fn block_ids_s(t: TapeV, ids: ArrayV, e: usize, r: usize) -> (TapeV, Outcome) {
    let n = padded_len(r as int);
    match cast_s(t, ids, Dtype::Uint32) {
        (t1, Err(m)) => (t1, Err(m)),
        (t1, Ok(u)) => if n == r {
            (t1, Ok(u))
        } else {
            let pad = filler(e, (n - r) as nat);
            match from_slice_s(
                t1,
                all_bytes(pad, n - r),
                seq![(n - r) as usize],
                Dtype::Uint32,
            ) {
                (t2, Err(m)) => (t2, Err(m)),
                (t2, Ok(p)) => cat_s(t2, seq![u, p], 0),
            }
        },
    }
}

/// The run that counts the experts of each block.
pub open spec fn counts_call(ids: ArrayV, e: usize, r: usize) -> CallV {
    let n = padded_len(r as int) as i32;
    CallV {
        inputs: seq![ids],
        template: seq![
            TemplateArgV::Int("E"@, e as i32),
            TemplateArgV::Int("BLK"@, 256),
            TemplateArgV::Int("R"@, n),
        ],
        grid: (n, 1, 1),
        group: (256, 1, 1),
        outs: seq![out_of(seq![(blocks_of(r as int) * e) as i32], Dtype::Uint32)],
    }
}

/// The run that puts each token in its place.
pub open spec fn scatter_call(ids: ArrayV, counts: ArrayV, e: usize, top_k: usize, r: usize) -> CallV {
    let n = padded_len(r as int) as i32;
    CallV {
        inputs: seq![ids, counts],
        template: seq![
            TemplateArgV::Int("E"@, e as i32),
            TemplateArgV::Int("BLK"@, 256),
            TemplateArgV::Int("R"@, n),
            TemplateArgV::Int("NB"@, blocks_of(r as int) as i32),
            TemplateArgV::Int("TOPK"@, top_k as i32),
        ],
        grid: (n, 1, 1),
        group: (256, 1, 1),
        outs: seq![
            out_of(seq![r as i32], Dtype::Uint32),
            out_of(seq![r as i32], Dtype::Uint32),
            out_of(seq![r as i32], Dtype::Uint32),
        ],
    }
}

/// Whether the kernels can sort so many tokens by so many experts.
pub open spec fn sortable(e: usize, top_k: usize, r: usize) -> bool {
    &&& e != 0 && e % 256 == 0 && e <= 4096 && top_k != 0
    &&& r != 0 && r % top_k == 0
}

/// Tokens sorted by their experts: the experts in order, the token of each, and the
/// place of each assignment.
pub open spec fn counting_sort_s(
    count: KernelV,
    scatter: KernelV,
    t: TapeV,
    ids: Array,
    e: usize,
    top_k: usize,
) -> (KernelV, KernelV, TapeV, Option<Seq<ArrayV>>) {
    let r = ids.shape@[0] as usize;
    if !sortable(e, top_k, r) {
        (count, scatter, t, None)
    } else {
        match block_ids_s(t, ids.t@, e, r) {
            (t1, Err(_)) => (count, scatter, t1, None),
            (t1, Ok(blocks)) => {
                let (c1, t2, o) = call_s(count, t1, counts_call(blocks, e, r));
                match o {
                    None => (c1, scatter, t2, None),
                    Some(v) => {
                        let (s1, t3, w) = call_s(
                            scatter,
                            t2,
                            scatter_call(blocks, v[0], e, top_k, r),
                        );
                        (c1, s1, t3, w)
                    },
                }
            },
        }
    }
}

// ---- sorting ----

fn filler_array(tape: &mut Tape, e: usize, n: usize) -> (a: Array)
    requires
        roomy(seq![n]),
    ensures
        (final(tape)@, Outcome::Ok(a.t@)) == from_slice_s(
            old(tape)@,
            all_bytes(filler(e, n as nat), n as int),
            seq![n],
            Dtype::Uint32,
        ),
        a.wf(),
        a.t@.shape() == seq![n],
        a.t@.strides() == packed(seq![n]).strides,
        a.t@.dtype == Dtype::Uint32,
{
    let mut data: Vec<u32> = Vec::new();
    let mut i: usize = 0;
    while i < n
        invariant
            i <= n,
            data@ == filler(e, i as nat),
        decreases n - i,
    {
        data.push(e as u32);
        i += 1;
        assert(data@ =~= filler(e, i as nat));
    }
    let shape = vec![n];
    proof {
        assert(shape@ =~= seq![n]);
        lemma_words_len(data@, n as int);
        crate::layout::lemma_numel_one(n);
        assert(data@ =~= filler(e, n as nat));
        assert(crate::layout::numel(shape@) == n);
        assert(width(Dtype::Uint32) == 4);
        assert(all_bytes(data@, data@.len() as int).len() == 4 * n);
    }
    let r = from_slice::<u32>(tape, &data, &shape);
    Array::new(r.unwrap())
}

/// Tokens can be sorted: their number and the sizes of what is made are signed
/// numbers, and places among them can be numbered.
pub open spec fn sort_fits(ids: Array, e: usize) -> bool {
    let r = ids.shape@[0] as int;
    &&& ids.wf()
    &&& 0 < ids.shape@.len() <= i32::MAX
    &&& ids.t@.shape()[0] <= i32::MAX - 255
    &&& e <= 4096 ==> fits(blocks_of(r) * e) && roomy(seq![(blocks_of(r) * e) as usize])
    &&& roomy(seq![padded_len(r) as usize])
    &&& ids.t@.strides()[0] <= i64::MAX
    &&& ids.t@.strides()[0] * ids.t@.shape()[0] <= i64::MAX
}

proof fn lemma_parts_join(u: ArrayV, p: ArrayV, n: usize)
    requires
        u.wf(),
        p.wf(),
        u.rank() > 0,
        p.rank() == 1,
        u.shape()[0] + p.shape()[0] == n,
        n <= i32::MAX,
        roomy(seq![n]),
        u.strides()[0] <= i64::MAX,
        u.strides()[0] * u.shape()[0] <= i64::MAX,
        p.strides()[0] == 1,
    ensures
        joinable(seq![u, p], 0),
{
    let v = seq![u, p];
    assert forall|i: int| 0 <= i < v.len() implies (#[trigger] v[i]).wf() by {}
    if cat_fault(v, 0, 2) is None {
        reveal_with_fuel(cat_fault, 3);
        assert(v[1].rank() == v[0].rank());
        assert(v.drop_last() =~= seq![u]);
        assert(seq![u].drop_last() =~= Seq::<ArrayV>::empty());
        reveal_with_fuel(axis_total, 3);
        assert(axis_total(v, 0) == n);
        assert(cat_shape(v, 0) =~= seq![n]);
        crate::views::packed_is_dense(seq![n]);
        let st = packed(seq![n]).strides;
        assert(st[0] == 1) by {
            assert(seq![n].skip(1) =~= Seq::<usize>::empty());
            assert(crate::layout::row_major(seq![n])[0] == 1);
        }
        assert forall|i: int| 0 <= i < v.len() implies #[trigger] part_fits(v[i], seq![n]) by {
            let a = v[i];
            let shape = crate::words::i32_words(a.shape());
            let strides = seq![
                crate::words::i64_words(a.strides()),
                crate::words::i64_words(st),
            ];
            assert(a.shape()[0] <= i32::MAX);
            assert(shape.len() == 1);
            assert(shape[0] == a.shape()[0]);
            assert forall|j: int, k: int|
                0 <= j < strides.len() && 0 <= k < shape.len() implies i64::MIN <= #[trigger] strides[j][k]
                * shape[k] <= i64::MAX by {
                assert(k == 0);
                if j == 0 {
                    assert(strides[0][0] == a.strides()[0]);
                    assert(a.strides()[0] * a.shape()[0] >= 0) by (nonlinear_arith)
                        requires
                            a.strides()[0] >= 0,
                            a.shape()[0] >= 0,
                    ;
                } else {
                    assert(strides[1][0] == 1);
                }
            }
        }
    }
}

proof fn lemma_cast_strides(t: TapeV, a: ArrayV, d: Dtype)
    requires
        a.wf(),
        a.rank() > 0,
        a.shape()[0] <= i32::MAX,
        a.strides()[0] <= i64::MAX,
        a.strides()[0] * a.shape()[0] <= i64::MAX,
    ensures
        cast_s(t, a, d).1 matches Ok(u) ==> u.rank() > 0 && u.shape() == a.shape()
            && u.strides()[0] <= i64::MAX && u.strides()[0] * u.shape()[0] <= i64::MAX,
{
    if a.dtype != d {
        crate::join::lemma_packed_step(a.shape(), 0, a.shape()[0] as int, d);
        crate::views::packed_is_dense(a.shape());
        crate::array::lemma_roomy(a.shape(), d);
        let st = packed(a.shape()).strides[0];
        assert(st == crate::layout::row_major(a.shape())[0]);
        crate::layout::lemma_volume_skip(a.shape(), 1);
        crate::layout::lemma_volume_bounds(a.shape().skip(1));
        assert(st * a.shape()[0] == a.shape()[0] * st) by (nonlinear_arith);
    }
}

/// The experts of all tokens, in full blocks.
fn block_ids(tape: &mut Tape, ids: &Array, e: usize, r: usize) -> (o: Option<Array>)
    requires
        sort_fits(*ids, e),
        r == ids.t@.shape()[0],
        r > 0,
    ensures
        ({
            let (t1, b) = block_ids_s(old(tape)@, ids.t@, e, r);
            &&& final(tape)@ == t1
            &&& match o {
                Some(a) => b == Outcome::Ok(a.t@) && a.wf(),
                None => b is Err,
            }
        }),
{
    let padded = (r + 255) / 256 * 256;
    proof {
        blocks_are_full(r as int);
        lemma_cast_strides(tape@, ids.t@, Dtype::Uint32);
    }
    let u = match ids.as_dtype(tape, Dtype::Uint32) {
        Ok(u) => u,
        Err(_) => {
            return None;
        },
    };
    if padded == r {
        return Some(u);
    }
    proof {
        lemma_fewer(padded, (padded - r) as usize);
    }
    let pad = filler_array(tape, e, padded - r);
    let both: Vec<&Array> = vec![&u, &pad];
    proof {
        assert(inner(both@) =~= seq![u.t@, pad.t@]);
        crate::views::packed_is_dense(seq![(padded - r) as usize]);
        assert(seq![(padded - r) as usize].skip(1) =~= Seq::<usize>::empty());
        assert(crate::layout::row_major(seq![(padded - r) as usize])[0] == 1);
        lemma_parts_join(u.t@, pad.t@, padded);
    }
    match Array::concatenate(tape, &both, 0) {
        Ok(a) => Some(a),
        Err(_) => None,
    }
}

proof fn lemma_fewer(n: usize, m: usize)
    requires
        roomy(seq![n]),
        m <= n,
    ensures
        roomy(seq![m]),
{
    assert(seq![n].drop_last() =~= Seq::<usize>::empty());
    assert(seq![m].drop_last() =~= Seq::<usize>::empty());
    reveal_with_fuel(volume, 2);
}

fn counts_run(
    kernel: &mut MetalKernel,
    tape: &mut Tape,
    ids: &Array,
    e: usize,
    r: usize,
) -> (o: Option<Array>)
    requires
        ids.wf(),
        e <= 4096,
        0 < r <= i32::MAX - 255,
        fits(blocks_of(r as int) * e),
        roomy(seq![(blocks_of(r as int) * e) as usize]),
        ready(old(kernel)@, 1),
    ensures
        ({
            let (k1, t1, v) = call_s(old(kernel)@, old(tape)@, counts_call(ids.t@, e, r));
            &&& final(kernel)@ == k1
            &&& final(tape)@ == t1
            &&& got1(o, v)
        }),
        ready(final(kernel)@, 1),
{
    let nb = ((r + 255) / 256) as i32;
    let n: i32 = nb * 256;
    let size: i32 = nb * e as i32;
    let ghost call = counts_call(ids.t@, e, r);
    let inputs: Vec<&Tensor> = vec![&ids.t];
    let template: Vec<TemplateArg> = vec![
        TemplateArg::Int("E", e as i32),
        TemplateArg::Int("BLK", 256),
        TemplateArg::Int("R", n),
    ];
    let outs: Vec<OutputArg> = vec![OutputArg { shape: vec![size], dtype: Dtype::Uint32 }];
    proof {
        assert(ref_views(inputs@) =~= call.inputs);
        assert(arg_list(template@) =~= call.template);
        assert(out_list(outs@) =~~= call.outs);
        assert(all_wf(call.inputs));
        assert(sizes_of(seq![size]) =~= seq![size as usize]);
        assert(size >= 0) by (nonlinear_arith)
            requires
                size == nb * e,
                nb >= 0,
                e >= 0,
        ;
    }
    let made = launch(kernel, tape, &inputs, &template, (n, 1, 1), (256, 1, 1), &outs);
    first1(made)
}

fn scatter_run(
    kernel: &mut MetalKernel,
    tape: &mut Tape,
    ids: &Array,
    counts: &Array,
    e: usize,
    top_k: usize,
    r: usize,
) -> (o: Option<(Array, Array, Array)>)
    requires
        ids.wf(),
        counts.wf(),
        e <= 4096,
        0 < r <= i32::MAX - 255,
        sound_outputs(scatter_call(ids.t@, counts.t@, e, top_k, r).outs),
        ready(old(kernel)@, 3),
    ensures
        ({
            let (k1, t1, v) = call_s(
                old(kernel)@,
                old(tape)@,
                scatter_call(ids.t@, counts.t@, e, top_k, r),
            );
            &&& final(kernel)@ == k1
            &&& final(tape)@ == t1
            &&& got3(o, v)
        }),
        ready(final(kernel)@, 3),
{
    let nb = ((r + 255) / 256) as i32;
    let n: i32 = nb * 256;
    let ghost call = scatter_call(ids.t@, counts.t@, e, top_k, r);
    let inputs: Vec<&Tensor> = vec![&ids.t, &counts.t];
    let template: Vec<TemplateArg> = vec![
        TemplateArg::Int("E", e as i32),
        TemplateArg::Int("BLK", 256),
        TemplateArg::Int("R", n),
        TemplateArg::Int("NB", nb),
        TemplateArg::Int("TOPK", top_k as i32),
    ];
    let outs: Vec<OutputArg> = vec![
        OutputArg { shape: vec![r as i32], dtype: Dtype::Uint32 },
        OutputArg { shape: vec![r as i32], dtype: Dtype::Uint32 },
        OutputArg { shape: vec![r as i32], dtype: Dtype::Uint32 },
    ];
    proof {
        assert(ref_views(inputs@) =~= call.inputs);
        assert(arg_list(template@) =~= call.template);
        assert(out_list(outs@) =~~= call.outs);
        assert(all_wf(call.inputs));
    }
    let made = launch(kernel, tape, &inputs, &template, (n, 1, 1), (256, 1, 1), &outs);
    first3(made)
}

/// Tokens sorted by their experts, in the order of the tokens among equal experts:
/// the experts in order, the token of each, and the place of each assignment. There
/// is no result where the kernels cannot sort them.
pub fn route_counting_sort(
    count_kernel: &mut MetalKernel,
    scatter_kernel: &mut MetalKernel,
    tape: &mut Tape,
    ids: &Array,
    e: usize,
    top_k: usize,
) -> (r: Option<(Array, Array, Array)>)
    requires
        sort_fits(*ids, e),
        ready(old(count_kernel)@, 1),
        ready(old(scatter_kernel)@, 3),
    ensures
        ({
            let (c1, s1, t1, o) = counting_sort_s(
                old(count_kernel)@,
                old(scatter_kernel)@,
                old(tape)@,
                *ids,
                e,
                top_k,
            );
            &&& final(count_kernel)@ == c1
            &&& final(scatter_kernel)@ == s1
            &&& final(tape)@ == t1
            &&& got3(r, o)
        }),
        ready(final(count_kernel)@, 1),
        ready(final(scatter_kernel)@, 3),
{
    if e == 0 || e % 256 != 0 || e > 4096 || top_k == 0 {
        return None;
    }
    let n = ids.dim(0) as usize;
    if n == 0 || n % top_k != 0 {
        return None;
    }
    let blocks = match block_ids(tape, ids, e, n) {
        Some(b) => b,
        None => {
            return None;
        },
    };
    let counts = match counts_run(count_kernel, tape, &blocks, e, n) {
        Some(c) => c,
        None => {
            return None;
        },
    };
    proof {
        blocks_are_full(n as int);
        lemma_fewer(padded_len(n as int) as usize, n);
        assert(sizes_of(seq![n as i32]) =~= seq![n]);
        let outs = scatter_call(blocks.t@, counts.t@, e, top_k, n).outs;
        assert forall|i: int| 0 <= i < outs.len() implies crate::kernel::sound_output(
            #[trigger] outs[i],
        ) by {
            assert(outs[i] == out_of(seq![n as i32], Dtype::Uint32));
        }
    }
    scatter_run(scatter_kernel, tape, &blocks, &counts, e, top_k, n)
}

} // verus!
