//! The calls of the models' kernels: what they give and over which threads.

use lisa::array::Array as Tensor;
use lisa::delta::{gated_delta_ops, gated_delta_ops_capture};
use lisa::dtype::Dtype;
use lisa::facade::Array;
use lisa::kernel::MetalKernel;
use lisa::kernels::{
    attn_gate_kernel, attn_prep_split, attn_prep_split_kernel, gated_rms_kernel,
    gdn_decode_complete_kernel, gdn_prep, gdn_prep_fused, gdn_prep_fused_kernel, gdn_prep_kernel,
    inject_norm_kernel, moe_combine, moe_combine_kernel, ple_conv, ple_conv_kernel, ple_gated,
    ple_gated_kernel, ple_prod, ple_prod_kernel, router_gemv, router_gemv_kernel, swiglu2,
    swiglu2_kernel,
};
use lisa::moe_decode::{
    bf16_sigmoid_kernel, bf16_sigmoid_table, down_combine, down_combine_kernel, down_combine_wide,
    down_combine_wide_kernel, down_inject, down_inject_kernel, gate_up_act, gate_up_act_kernel,
    gate_up_act_wide, gate_up_reuse_kernel, mixer_header, route, route_kernel, split_k_kernel,
    up_mix, up_mix_kernel, Helpers,
};
use lisa::ple::{ple_conv_fuse_kernel, ple_fuse2, ple_prepare_kernel};
use lisa::prefill_indirect::{
    down, down_kernel, gate_up, gate_up_kernel, router, router_partial_kernel, router_sum_kernel,
    tile_table, tile_table_kernel,
};
use lisa::qsa::{prefill_flash, prefill_kernel, select_kernel};
use lisa::recurrence::{
    gated_delta_kernel, gdn_rows, gdn_rows_kernel, gdn_two_row, gdn_two_row_into,
    gdn_two_row_kernel,
};
use lisa::select::select_blocks;
use lisa::steps::{
    attn_gate, copy_rows_into, copy_rows_kernel, gated_rms, gdn_decode_complete, inject_norm,
};
use lisa::tape::{Cmd, Grid, Tape};

fn tape() -> Tape {
    Tape::new(Some('s'), false)
}

fn of(t: &mut Tape, shape: &[usize], dtype: Dtype) -> Array {
    Array::new(Tensor::zeros(t, shape, dtype))
}

fn bf16(t: &mut Tape, shape: &[usize]) -> Array {
    of(t, shape, Dtype::Bfloat16)
}

fn f32(t: &mut Tape, shape: &[usize]) -> Array {
    of(t, shape, Dtype::Float32)
}

/// The names and grids of the kernels recorded since the last call.
fn runs(t: &mut Tape) -> Vec<(String, [usize; 3])> {
    let mut v = vec![];
    for c in t.drain() {
        if let Cmd::Launch(d) = c {
            if let Grid::Checked(g, _, _) = d.grid {
                v.push((d.program.name, [g.x, g.y, g.z]));
            }
        }
    }
    v
}

/// The one kernel recorded since the last call, whose name starts as given.
fn grid(t: &mut Tape, name: &str) -> [usize; 3] {
    let r = runs(t);
    assert_eq!(r.len(), 1);
    assert!(r[0].0.contains(name), "{}", r[0].0);
    r[0].1
}

fn helpers() -> Helpers {
    Helpers {
        core: "C".to_string(),
        exact: "E".to_string(),
        registers: "R".to_string(),
        reuse: "U".to_string(),
        wide: "W".to_string(),
        wide_decls: "D".to_string(),
        mixer_tail: "T".to_string(),
        split_k: "K".to_string(),
    }
}

const BODY: &str = "uint i = 0;";

#[test]
fn experts_are_combined() {
    let mut t = tape();
    let a = bf16(&mut t, &[4, 8]);
    let mut k = moe_combine_kernel(BODY, "").unwrap();
    t.drain();
    let r = moe_combine(&mut k, &mut t, &a, &a, &a, &a, &a, 2, 8, 4).unwrap();
    assert_eq!(r.shape(), &[4, 8]);
    assert_eq!(r.dtype(), Dtype::Bfloat16);
    assert_eq!(grid(&mut t, "track"), [8, 4, 1]);
}

#[test]
fn recurrences_are_prepared() {
    let mut t = tape();
    let a = bf16(&mut t, &[2, 3, 384]);
    let mut k = gdn_prep_kernel(BODY, "").unwrap();
    t.drain();
    let r = gdn_prep(&mut k, &mut t, &a, &a, &a, &a, &a, &a, &a, 3, 2, 4, 16, 32, 4, 384).unwrap();
    assert_eq!(r.0.shape(), &[2, 3, 2, 16]);
    assert_eq!(r.1.shape(), &[2, 3, 2, 16]);
    assert_eq!(r.2.shape(), &[2, 3, 4, 32]);
    assert_eq!(r.3.shape(), &[2, 3, 4]);
    assert_eq!(r.4.shape(), &[2, 3, 4]);
    assert_eq!(r.4.dtype(), Dtype::Float32);
    assert_eq!(r.5.shape(), &[2, 3, 384]);
    assert_eq!(grid(&mut t, "gdn_prep"), [32, 3, 6]);
    let mut k = gdn_prep_fused_kernel(BODY, "").unwrap();
    let r = gdn_prep_fused(&mut k, &mut t, &a, &a, &a, &a, &a, 0, 4, 3, 2, 4, 16, 32, 4, 500, 384)
        .unwrap();
    assert_eq!(r.2.shape(), &[2, 3, 4, 32]);
    assert_eq!(r.5.shape(), &[2, 3, 384]);
    assert_eq!(grid(&mut t, "gdn_prep"), [32, 3, 6]);
}

#[test]
fn steps_are_normalised() {
    let mut t = tape();
    let y = bf16(&mut t, &[2, 3, 4, 8]);
    let z = bf16(&mut t, &[6, 32]);
    let w = bf16(&mut t, &[8]);
    let mut k = gated_rms_kernel(BODY, "").unwrap();
    t.drain();
    let r = gated_rms(&mut k, &mut t, &y, &z, &w, 4, 8, 0x358637bd).unwrap();
    assert_eq!(r.shape(), &[2, 3, 4, 8]);
    assert_eq!(grid(&mut t, "track"), [32, 4, 6]);
    let res = bf16(&mut t, &[2, 32]);
    let mut k = inject_norm_kernel(BODY, "").unwrap();
    t.drain();
    let r = inject_norm(&mut k, &mut t, &res, None, None, &w, 4, 8, 2, false, 0).unwrap();
    assert_eq!(r.0.shape(), &[2, 32]);
    assert_eq!(r.1.shape(), &[2, 32]);
    assert_eq!(grid(&mut t, "track"), [2, 4, 2]);
}

#[test]
fn activations_are_gated() {
    let mut t = tape();
    let g = bf16(&mut t, &[3, 16]);
    let mut k = swiglu2_kernel(BODY, "").unwrap();
    t.drain();
    let r = swiglu2(&mut k, &mut t, &g, &g).unwrap();
    assert_eq!(r.shape(), &[3, 16]);
    assert_eq!(grid(&mut t, "swiglu"), [48, 1, 1]);
    let att = bf16(&mut t, &[1, 3, 4, 8]);
    let gate = bf16(&mut t, &[3, 32]);
    let mut k = attn_gate_kernel(BODY, "").unwrap();
    t.drain();
    let r = attn_gate(&mut k, &mut t, &att, &gate, 4, 8).unwrap();
    assert_eq!(r.shape(), &[3, 32]);
    assert_eq!(grid(&mut t, "track_attn_gate"), [32, 3, 1]);
}

#[test]
fn per_layer_embeddings_are_mixed() {
    let mut t = tape();
    let a = bf16(&mut t, &[1, 2, 32]);
    let mut k = ple_prod_kernel(BODY, "").unwrap();
    t.drain();
    let r = ple_prod(&mut k, &mut t, &a, &a, &a, &a, &a, 2, 16).unwrap();
    assert_eq!(r.shape(), &[1, 2, 32]);
    assert_eq!(grid(&mut t, "ple"), [4, 2, 2]);
    let mut k = ple_gated_kernel(BODY, "").unwrap();
    let r = ple_gated(&mut k, &mut t, &a, &a, &a, &a, &a, &a, 2, 16).unwrap();
    assert_eq!(r.0.shape(), &[1, 2, 32]);
    assert_eq!(r.1.shape(), &[1, 2, 32]);
    assert_eq!(grid(&mut t, "ple"), [4, 2, 2]);
    let w = bf16(&mut t, &[32, 4]);
    let mut k = ple_conv_kernel(BODY, "").unwrap();
    t.drain();
    let r = ple_conv(&mut k, &mut t, &a, &w, &a, 3).unwrap();
    assert_eq!(r.shape(), &[1, 2, 32]);
    assert_eq!(grid(&mut t, "ple"), [32, 2, 1]);
    let mut p = ple_prepare_kernel(BODY, "", "").unwrap();
    let mut c = ple_conv_fuse_kernel(BODY, "").unwrap();
    let (full, out) =
        ple_fuse2(&mut p, &mut c, &mut t, &a, &a, &a, &a, &a, &a, &a, &w, 0x358637bd).unwrap();
    assert_eq!(full.shape(), &[1, 10, 10240]);
    assert_eq!(out.shape(), &[1, 1, 10240]);
    let r = runs(&mut t);
    assert_eq!(r.len(), 2);
    assert_eq!(r[0].1, [640, 4, 1]);
    assert_eq!(r[1].1, [32, 1, 40960]);
}

#[test]
fn routers_share_rows_out() {
    let mut t = tape();
    let x = f32(&mut t, &[64]);
    let w = bf16(&mut t, &[128, 64]);
    let mut k = router_gemv_kernel(BODY, "").unwrap();
    t.drain();
    let r = router_gemv(&mut k, &mut t, &x, &w).unwrap();
    assert_eq!(r.shape(), &[128]);
    assert_eq!(r.dtype(), Dtype::Float32);
    assert_eq!(grid(&mut t, "router"), [256, 1, 4]);
    let mut p = router_partial_kernel(BODY, "", "").unwrap();
    let mut s = router_sum_kernel(BODY).unwrap();
    // Four tiles of rows go in pairs.
    let r = router(&mut p, &mut s, &mut t, &x, &w, 200).unwrap();
    assert_eq!(r.shape(), &[1, 200, 512]);
    let v = runs(&mut t);
    assert_eq!(v[0].1, [2048, 2, 2]);
    assert_eq!(v[1].1, [512, 200, 1]);
    // Three stand alone.
    router(&mut p, &mut s, &mut t, &x, &w, 192).unwrap();
    assert_eq!(runs(&mut t)[0].1, [1536, 2, 2]);
}

#[test]
fn attention_inputs_are_split() {
    let mut t = tape();
    let a = bf16(&mut t, &[1, 3, 96]);
    let mut k = attn_prep_split_kernel(BODY, "").unwrap();
    t.drain();
    let r = attn_prep_split(&mut k, &mut t, &a, &a, &a, &a, &a, &a, &a, 4, 2, 16, 8, 0).unwrap();
    assert_eq!(r.0.shape(), &[1, 4, 3, 16]);
    assert_eq!(r.1.shape(), &[1, 2, 3, 16]);
    assert_eq!(r.2.shape(), &[1, 2, 3, 16]);
    assert_eq!(grid(&mut t, "attn_prep"), [4, 8, 3]);
}

#[test]
fn rows_are_copied_in_place() {
    let mut t = tape();
    let src = bf16(&mut t, &[2, 8]);
    let dst = bf16(&mut t, &[16, 8]);
    let mut k = copy_rows_kernel(BODY).unwrap();
    t.drain();
    let r = copy_rows_into(&mut k, &mut t, &src, &dst, 3).unwrap();
    assert_eq!(r.shape(), &[16, 8]);
    assert_eq!(grid(&mut t, "track_copy_rows_into"), [16, 1, 1]);
}

#[test]
fn recurrences_run() {
    let mut t = tape();
    let q = bf16(&mut t, &[1, 3, 2, 16]);
    let v = bf16(&mut t, &[1, 3, 4, 8]);
    let g = f32(&mut t, &[1, 3, 4]);
    let s = f32(&mut t, &[1, 4, 8, 16]);
    let mut two = gdn_two_row_kernel(BODY).unwrap();
    t.drain();
    let (y, n) = gdn_two_row(&mut two, &mut t, &q, &q, &v, &g, &g, &s, false).unwrap();
    assert_eq!(y.shape(), &[1, 3, 4, 8]);
    assert_eq!(n.shape(), &[1, 4, 8, 16]);
    assert_eq!(grid(&mut t, "gdn"), [32, 4, 4]);
    let (y, n) = gdn_two_row(&mut two, &mut t, &q, &q, &v, &g, &g, &s, true).unwrap();
    assert_eq!(y.dtype(), Dtype::Bfloat16);
    assert_eq!(n.shape(), &[3, 4, 8, 16]);
    t.drain();
    let made = bf16(&mut t, &[1, 3, 4, 8]);
    let kept = f32(&mut t, &[1, 4, 8, 16]);
    t.drain();
    let (y, n) =
        gdn_two_row_into(&mut two, &mut t, &q, &q, &v, &g, &g, &s, false, &made, &kept).unwrap();
    assert_eq!(y.shape(), &[1, 3, 4, 8]);
    assert_eq!(n.shape(), &[1, 4, 8, 16]);
    assert_eq!(grid(&mut t, "gdn"), [32, 4, 4]);
    let mut four = gdn_rows_kernel(BODY).unwrap();
    gdn_rows(&mut four, &mut t, &q, &q, &v, &g, &g, &s, false).unwrap();
    assert_eq!(grid(&mut t, "track_gdn_rows"), [32, 2, 4]);
    let mut k = MetalKernel::new(
        "gated_delta_step",
        &["q", "k", "v", "g", "beta", "state_in", "T"],
        &["y", "state_out"],
        BODY,
        "",
        true,
        false,
    )
    .unwrap();
    let (y, n) = gated_delta_kernel(&mut k, &mut t, &q, &q, &v, &g, &g, &s, true).unwrap();
    assert_eq!(y.shape(), &[1, 3, 4, 8]);
    assert_eq!(n.shape(), &[3, 4, 8, 16]);
    assert_eq!(grid(&mut t, "gated_delta_step"), [32, 8, 4]);
}

#[test]
fn whole_decode_steps_run() {
    let mut t = tape();
    let a = bf16(&mut t, &[2, 1, 64]);
    let mut k = gdn_decode_complete_kernel(BODY, "").unwrap();
    t.drain();
    let (gated, state, conv) = gdn_decode_complete(
        &mut k, &mut t, &a, &a, &a, &a, &a, &a, &a, 2, 4, 16, 8, 4, 96, 200, 0, 4, 8, 0,
    )
    .unwrap();
    assert_eq!(gated.shape(), &[2, 1, 32]);
    assert_eq!(state.shape(), &[2, 4, 8, 16]);
    assert_eq!(conv.shape(), &[2, 3, 96]);
    assert_eq!(grid(&mut t, "track_gdn_decode_complete"), [32, 2, 8]);
}

#[test]
fn recurrences_unfold_into_operations() {
    let mut t = tape();
    let q = bf16(&mut t, &[1, 2, 2, 4]);
    let v = bf16(&mut t, &[1, 2, 4, 8]);
    let g = f32(&mut t, &[1, 2, 4]);
    let s = f32(&mut t, &[1, 4, 8, 4]);
    let (y, n) = gated_delta_ops(&mut t, &q, &q, &v, &g, &g, None).unwrap();
    assert_eq!(y.shape(), &[1, 2, 4, 8]);
    assert_eq!(y.dtype(), Dtype::Bfloat16);
    assert_eq!(n.shape(), &[1, 4, 8, 4]);
    assert_eq!(n.dtype(), Dtype::Float32);
    let (y, n) = gated_delta_ops_capture(&mut t, &q, &q, &v, &g, &g, &s).unwrap();
    assert_eq!(y.shape(), &[1, 2, 4, 8]);
    assert_eq!(n.shape(), &[2, 4, 8, 4]);
}

fn refusal<T>(r: Result<T, lisa::error::Error>) -> String {
    match r {
        Ok(_) => panic!("no error"),
        Err(e) => e.message(),
    }
}

#[test]
fn recurrences_of_nothing_have_their_shapes() {
    let mut t = tape();
    // No rows.
    let q = bf16(&mut t, &[1, 2, 2, 4]);
    let v = bf16(&mut t, &[1, 2, 2, 0]);
    let g = f32(&mut t, &[1, 2, 2]);
    let s = f32(&mut t, &[1, 2, 0, 4]);
    let (y, n) = gated_delta_ops(&mut t, &q, &q, &v, &g, &g, Some(&s)).unwrap();
    assert_eq!(y.shape(), &[1, 2, 2, 0]);
    assert_eq!(n.shape(), &[1, 2, 0, 4]);
    let r = gated_delta_ops_capture(&mut t, &q, &q, &v, &g, &g, &s);
    assert_eq!(refusal(r), "reshape: [1] needs 1 elements, have 0");
    // No columns.
    let q = bf16(&mut t, &[1, 2, 1, 0]);
    let v = bf16(&mut t, &[1, 2, 1, 3]);
    let g = f32(&mut t, &[1, 2, 1]);
    let r = gated_delta_ops(&mut t, &q, &q, &v, &g, &g, None);
    assert_eq!(refusal(r), "reshape: [1, 1, 1, 1] needs 1 elements, have 0");
    // No heads of the values, and no batches.
    let q = bf16(&mut t, &[0, 2, 1, 4]);
    let v = bf16(&mut t, &[0, 2, 0, 3]);
    let g = f32(&mut t, &[0, 2, 0]);
    let s = f32(&mut t, &[0, 0, 3, 4]);
    let (y, n) = gated_delta_ops_capture(&mut t, &q, &q, &v, &g, &g, &s).unwrap();
    assert_eq!(y.shape(), &[0, 2, 0, 3]);
    assert_eq!(n.shape(), &[2, 0, 3, 4]);
    // No batches of some heads.
    let v = bf16(&mut t, &[0, 2, 1, 3]);
    let g = f32(&mut t, &[0, 2, 1]);
    let s = f32(&mut t, &[0, 1, 3, 4]);
    let r = gated_delta_ops_capture(&mut t, &q, &q, &v, &g, &g, &s);
    assert_eq!(refusal(r), "reshape: [2, 1, 3, 4] needs 24 elements, have 0");
}

#[test]
fn one_token_goes_through_its_experts() {
    let mut t = tape();
    let h = helpers();
    let a = bf16(&mut t, &[1, 64]);
    let mut one = route_kernel(false, BODY, &h).unwrap();
    let mut wide = route_kernel(true, BODY, &h).unwrap();
    t.drain();
    let r = route(&mut one, &mut wide, &mut t, &a, &a, &a, &a, &a, 10, 512, 64, 1).unwrap();
    assert_eq!(r.0.shape(), &[1, 10]);
    assert_eq!(r.0.dtype(), Dtype::Uint32);
    assert_eq!(r.1.shape(), &[1, 10]);
    assert_eq!(r.2.shape(), &[1]);
    assert_eq!(grid(&mut t, "track_moe_route_1"), [32, 2, 1]);
    let mut k = gate_up_reuse_kernel(BODY, &h).unwrap();
    let act = gate_up_act(
        &mut k, &mut t, &a, &a, &a, &a, &a, &a, &a, &a, &a, &a, &a, &a, 10, 32, 64, 1,
    )
    .unwrap();
    assert_eq!(act.shape(), &[11, 32]);
    assert_eq!(grid(&mut t, "track_moe_gate_up_reuse_2row"), [32, 16, 11]);
    let mut k = down_combine_kernel(BODY, &h).unwrap();
    // Ten experts leave two more SIMD groups to the shared rows.
    let out =
        down_combine(&mut k, &mut t, &a, &a, &a, &a, &a, &a, &act, &a, &a, &a, 10, 32, 64, 10, 1)
            .unwrap();
    assert_eq!(out.shape(), &[1, 64]);
    assert_eq!(grid(&mut t, "track_moe_down_combine_1"), [32, 224, 1]);
    down_combine(&mut k, &mut t, &a, &a, &a, &a, &a, &a, &act, &a, &a, &a, 5, 32, 64, 5, 1).unwrap();
    assert_eq!(runs(&mut t)[0].1, [32, 160, 1]);
    down_combine(&mut k, &mut t, &a, &a, &a, &a, &a, &a, &act, &a, &a, &a, 8, 32, 64, 8, 1).unwrap();
    assert_eq!(runs(&mut t)[0].1, [32, 32, 1]);
}

#[test]
fn several_tokens_go_through_their_experts() {
    let mut t = tape();
    let h = helpers();
    let a = bf16(&mut t, &[3, 64]);
    let mut one = route_kernel(false, BODY, &h).unwrap();
    let mut wide = route_kernel(true, BODY, &h).unwrap();
    t.drain();
    let r = route(&mut one, &mut wide, &mut t, &a, &a, &a, &a, &a, 10, 512, 64, 3).unwrap();
    assert_eq!(r.0.shape(), &[3, 10]);
    assert_eq!(grid(&mut t, "track_moe_route"), [32, 6, 1]);
    let mut k = gate_up_act_kernel(BODY, &h).unwrap();
    let act = gate_up_act_wide(
        &mut k, &mut t, &a, &a, &a, &a, &a, &a, &a, &a, &a, &a, &a, &a, 30, 32, 64, 3,
    )
    .unwrap();
    assert_eq!(act.shape(), &[33, 32]);
    assert_eq!(grid(&mut t, "track_moe_gate_up_act"), [32, 8, 31]);
    let mut k = down_combine_wide_kernel(BODY, &h).unwrap();
    let out = down_combine_wide(
        &mut k, &mut t, &a, &a, &a, &a, &a, &a, &act, &a, &a, &a, 10, 32, 64, 30, 3,
    )
    .unwrap();
    assert_eq!(out.shape(), &[3, 64]);
    assert_eq!(grid(&mut t, "track_moe_down_combine"), [32, 80, 3]);
}

#[test]
fn mixers_split_one_row() {
    let mut t = tape();
    let h = helpers();
    assert_eq!(mixer_header(&h, true), "CERTW");
    assert_eq!(mixer_header(&h, false), "CERTD");
    let one = bf16(&mut t, &[1, 64]);
    let two = bf16(&mut t, &[2, 64]);
    let mut split = split_k_kernel(BODY, &h).unwrap();
    let mut whole = down_inject_kernel(false, BODY, &h).unwrap();
    t.drain();
    let a = &one;
    let r = down_inject(&mut split, &mut whole, &mut t, a, a, a, a, a, a, a, 64, 32, 4, 1, true)
        .unwrap();
    assert_eq!(r.0.shape(), &[1, 32]);
    assert_eq!(r.1.shape(), &[1, 32]);
    assert_eq!(r.2.shape(), &[1, 4]);
    // Sixteen pairs of rows and four more, each over five partitions.
    assert_eq!(grid(&mut t, "track_split_k_mixer"), [32, 100, 1]);
    let a = &two;
    let r = down_inject(&mut split, &mut whole, &mut t, a, a, a, a, a, a, a, 64, 32, 4, 2, true)
        .unwrap();
    assert_eq!(r.0.shape(), &[2, 32]);
    assert_eq!(grid(&mut t, "track_mixer_down_inject"), [32, 10, 1]);
    let mut table = bf16_sigmoid_kernel(BODY, &h).unwrap();
    let lut = bf16_sigmoid_table(&mut table, &mut t).unwrap();
    assert_eq!(lut.shape(), &[65536]);
    assert_eq!(grid(&mut t, "track_bf16_sigmoid_table"), [65536, 1, 1]);
    let mut mix = up_mix_kernel(false, BODY, &h).unwrap();
    let (x, inject) =
        up_mix(&mut mix, &mut t, a, a, a, a, a, a, Some(&lut), 48, 4, 2, true, false).unwrap();
    assert_eq!(x.shape(), &[2, 48]);
    assert_eq!(inject.shape(), &[2, 4]);
    assert_eq!(grid(&mut t, "track_mixer_up_mix"), [32, 48, 1]);
    // A half-width activation needs the table.
    assert!(up_mix(&mut mix, &mut t, a, a, a, a, a, a, None, 48, 4, 2, true, false).is_none());
}

#[test]
fn prefill_tiles_follow_the_experts() {
    let mut t = tape();
    let ids = of(&mut t, &[100], Dtype::Uint32);
    let a = bf16(&mut t, &[100, 64]);
    let mut k = tile_table_kernel(BODY).unwrap();
    t.drain();
    let tiles = tile_table(&mut k, &mut t, &ids, 100, 8).unwrap();
    assert_eq!(tiles.shape(), &[24]);
    assert_eq!(grid(&mut t, "track_prefill_tile_table"), [1024, 1, 1]);
    let mut k = gate_up_kernel(BODY, "").unwrap();
    let act =
        gate_up(&mut k, &mut t, &a, &a, &a, &a, &a, &a, &a, &ids, &ids, &tiles, 12, 128, 64, 100)
            .unwrap();
    assert_eq!(act.shape(), &[100, 1, 128]);
    assert_eq!(grid(&mut t, "track_prefill_indirect_gate_up"), [64, 24, 2]);
    let mut k = down_kernel(BODY, "").unwrap();
    let out = down(&mut k, &mut t, &act, &a, &a, &a, &ids, &tiles, 12, 256, 128, 100).unwrap();
    assert_eq!(out.shape(), &[100, 1, 256]);
    assert_eq!(grid(&mut t, "track_prefill_indirect_down"), [64, 24, 2]);
}

#[test]
fn sparse_attention_checks_its_geometry() {
    let mut t = tape();
    let q = bf16(&mut t, &[1, 24, 3, 256]);
    let kv = bf16(&mut t, &[1, 2, 16, 256]);
    let ids = of(&mut t, &[3, 512], Dtype::Int32);
    let ok = of(&mut t, &[3, 512], Dtype::Bool);
    let mut k = prefill_kernel(BODY, "").unwrap();
    t.drain();
    let r = prefill_flash(&mut k, &mut t, &q, &kv, &kv, &ids, &ok, 5, 8, 0x3d80_0000).unwrap();
    assert_eq!(r.shape(), &[1, 24, 3, 256]);
    assert_eq!(grid(&mut t, "qsa_prefill"), [192, 1, 1]);
    // The rows must end where the tokens end, and within the cache.
    assert!(prefill_flash(&mut k, &mut t, &q, &kv, &kv, &ids, &ok, 5, 9, 0).is_none());
    assert!(prefill_flash(&mut k, &mut t, &q, &kv, &kv, &ids, &ok, 14, 17, 0).is_none());
    assert!(prefill_flash(&mut k, &mut t, &kv, &kv, &kv, &ids, &ok, 5, 8, 0).is_none());
    assert!(prefill_flash(&mut k, &mut t, &q, &q, &kv, &ids, &ok, 5, 8, 0).is_none());
}

#[test]
fn blocks_are_selected_in_tiles() {
    let mut t = tape();
    let q = bf16(&mut t, &[1, 600, 4, 128]);
    let pooled = bf16(&mut t, &[1, 150, 128]);
    let mut k = select_kernel(BODY, "").unwrap();
    t.drain();
    let (ids, valid) = select_blocks(&mut k, &mut t, &q, &pooled, 0, 600, 150).unwrap();
    assert_eq!(ids.shape(), &[600, 512]);
    assert_eq!(ids.dtype(), Dtype::Int32);
    assert_eq!(valid.shape(), &[600, 512]);
    assert_eq!(valid.dtype(), Dtype::Bool);
    let v = runs(&mut t);
    assert_eq!(v[0].1, [512 * 512, 1, 1]);
    assert_eq!(v[1].1, [88 * 512, 1, 1]);
    // The blocks must be those of the tokens.
    assert!(select_blocks(&mut k, &mut t, &q, &pooled, 0, 600, 151).is_none());
    assert!(select_blocks(&mut k, &mut t, &pooled_like(), &pooled, 0, 600, 150).is_none());
}

fn pooled_like() -> Array {
    let mut t = tape();
    bf16(&mut t, &[1, 600, 8, 128])
}
