//! Kernels and the calls that are made of them.

use lisa::array::Array as Tensor;
use lisa::dtype::Dtype;
use lisa::facade::Array;
use lisa::fused::{quantized_matmul, rms_norm, scaled_dot_product_attention};
use lisa::kernel::{make_template_hash, write_template, MetalKernel, OutputArg, TemplateArg};
use lisa::kernels::{gdn_prep_kernel, hc_mix_kernel, silu_head, silu_head_kernel};
use lisa::moe_decode::{compose, MIXER_SPLIT_K};
use lisa::pack::{pack_codes, quantize_plan};
use lisa::prefill_indirect::{max_tiles, TILE_ROWS};
use lisa::recurrence::{gdn_kernel_available, GatedDeltaKernels};
use lisa::routing::{
    route_block_counts_kernel, route_counting_scatter_kernel, route_counting_sort,
};
use lisa::steps::hc_mix;
use lisa::tape::{Cmd, Tape};

fn bf16(t: &mut Tape, shape: &[usize]) -> Array {
    Array::new(Tensor::zeros(t, shape, Dtype::Bfloat16))
}

fn launches(t: &mut Tape) -> usize {
    t.drain().iter().filter(|c| matches!(c, Cmd::Launch(_))).count()
}

#[test]
fn which_gdn_kernels_available() {
    let prep = gdn_prep_kernel("out[0] = 0;", "");
    println!("gdn_prep available: {}", prep.is_some());
    let delta = GatedDeltaKernels::new("y[0] = 0;");
    println!("gdn_kernel available: {}", gdn_kernel_available(&delta));
    assert!(prep.is_some());
    assert!(gdn_kernel_available(&delta));
}

#[test]
fn mixer_kernels_available() {
    let mut t = Tape::new(Some('s'), false);
    let w = bf16(&mut t, &[2, 2, 2]);
    let normed = bf16(&mut t, &[1, 2, 4]);
    let inj = bf16(&mut t, &[1, 2, 2]);
    let mut mix = hc_mix_kernel("out[0] = 0;", "").unwrap();
    let mixed = hc_mix(&mut mix, &mut t, &w, &normed, &inj, 2, 2, 2, true);
    println!("hc_mix: {}", mixed.is_some());
    assert!(mixed.is_some());
    let lo = bf16(&mut t, &[1, 2, 2]);
    let mut silu = silu_head_kernel("out[0] = 0;", "").unwrap();
    let head = silu_head(&mut silu, &mut t, &lo, 2);
    println!("silu_head: {}", head.is_some());
    assert!(head.is_some());
}

#[test]
fn templates_are_written() {
    let args = [
        TemplateArg::Dtype("T", Dtype::Float32),
        TemplateArg::Int("N", -4),
        TemplateArg::Bool("B", true),
    ];
    let s = write_template(&args).unwrap();
    assert_eq!(s, "<float, -4, 1>");
    assert_eq!(make_template_hash(&s), "_float_-4_1");
    assert!(write_template(&[TemplateArg::Dtype("T", Dtype::Bool)]).is_err());
}

#[test]
fn kernels_are_applied() {
    let mut t = Tape::new(Some('s'), false);
    let x = Tensor::zeros(&mut t, &[4], Dtype::Float32);
    let mut k = MetalKernel::new("twice", &["a"], &["out"], "out[0] = 2 * a[0];", "", true, false)
        .unwrap();
    t.drain();
    let outs = [OutputArg { shape: vec![4], dtype: Dtype::Float32 }];
    let r = k
        .apply(&mut t, &[&x], &[TemplateArg::Int("N", 4)], (4, 1, 1), (4, 1, 1), &outs, None)
        .unwrap();
    assert_eq!(r.len(), 1);
    assert_eq!(r[0].shape(), &[4]);
    let first = t.drain();
    k.apply(&mut t, &[&x], &[TemplateArg::Int("N", 4)], (4, 1, 1), (4, 1, 1), &outs, None)
        .unwrap();
    let second = t.drain();
    let source = |v: &Vec<Cmd>| {
        v.iter().any(|c| matches!(c, Cmd::Launch(d) if d.program.source.is_some()))
    };
    // The text goes along with the first application only.
    assert!(source(&first));
    assert!(!source(&second));
}

#[test]
fn idle_tapes_only_make_outputs() {
    let mut t = Tape::new(None, true);
    let x = Tensor::zeros(&mut t, &[4], Dtype::Float32);
    let mut k = MetalKernel::new("k", &["a"], &["out"], "out[0] = a[0];", "", true, false).unwrap();
    t.drain();
    let outs = [OutputArg { shape: vec![2, 2], dtype: Dtype::Uint32 }];
    let r = k.apply(&mut t, &[&x], &[], (4, 1, 1), (4, 1, 1), &outs, None).unwrap();
    assert_eq!(r[0].shape(), &[2, 2]);
    assert_eq!(launches(&mut t), 0);
    let e = match k.apply(&mut t, &[], &[], (4, 1, 1), (4, 1, 1), &outs, None) {
        Ok(_) => panic!("an input is missing"),
        Err(e) => e,
    };
    assert_eq!(e.message(), "kernel k: expected 1 inputs, got 0");
    let b = Tensor::zeros(&mut t, &[4], Dtype::Bool);
    assert!(k.apply(&mut t, &[&b], &[], (4, 1, 1), (4, 1, 1), &outs, None).is_ok());
    let b = Tensor::zeros(&mut t, &[4], Dtype::Int8);
    let e = match k.apply(&mut t, &[&b], &[], (4, 1, 1), (4, 1, 1), &outs, None) {
        Ok(_) => panic!("the type has no spelling"),
        Err(e) => e,
    };
    assert_eq!(e.message(), "unsupported compilation type Int8");
}

#[test]
fn headers_are_put_together() {
    assert_eq!(compose(&["a", "", "bc"]), "abc");
    assert_eq!(MIXER_SPLIT_K, 5);
}

#[test]
fn tiles_are_counted() {
    assert_eq!(TILE_ROWS, 32);
    assert_eq!(max_tiles(0, 8), 8);
    assert_eq!(max_tiles(1, 8), 9);
    assert_eq!(max_tiles(64, 8), 10);
}

#[test]
fn codes_are_packed() {
    assert_eq!(pack_codes(&[1, 2, 3, 4, 5, 6, 7, 8], 4), [0x8765_4321]);
    assert_eq!(pack_codes(&[255, 0, 1, 2], 8), [0x0201_00ff]);
    let p = quantize_plan(&[3, 128], None, None).unwrap();
    assert_eq!((p.group_size, p.bits), (64, 4));
    assert_eq!(p.words, [3, 16]);
    assert_eq!(p.groups, [3, 2]);
    let e = match quantize_plan(&[3, 100], Some(64), Some(4)) {
        Ok(_) => panic!("an uneven group was planned"),
        Err(e) => e,
    };
    assert_eq!(e.message(), "quantize: group size 64 incompatible with K=100, bits=4");
}

#[test]
fn counting_sorts_launch_twice() {
    let mut t = Tape::new(Some('s'), false);
    let ids = Array::new(Tensor::zeros(&mut t, &[40], Dtype::Uint32));
    let mut count = route_block_counts_kernel("c[0] = 0;").unwrap();
    let mut scatter = route_counting_scatter_kernel("s[0] = 0;").unwrap();
    t.drain();
    let r = route_counting_sort(&mut count, &mut scatter, &mut t, &ids, 512, 10);
    match r {
        Some((sorted, rows, inverse)) => {
            assert_eq!(sorted.size(), 40);
            assert_eq!(rows.size(), 40);
            assert_eq!(inverse.size(), 40);
        }
        None => panic!("the sort was not recorded"),
    }
    assert!(launches(&mut t) >= 2);
}

#[test]
fn fused_operations_are_recorded() {
    let mut t = Tape::new(Some('s'), false);
    let x = Array::new(Tensor::zeros(&mut t, &[2, 64], Dtype::Float32));
    let w = Array::new(Tensor::zeros(&mut t, &[64], Dtype::Float32));
    t.drain();
    let n = rms_norm(&mut t, &x, Some(&w), 0x358637bd).unwrap();
    assert_eq!(n.shape(), &[2, 64]);
    assert_eq!(launches(&mut t), 1);
    let q = bf16(&mut t, &[1, 4, 1, 64]);
    let k = bf16(&mut t, &[1, 2, 9, 64]);
    let v = bf16(&mut t, &[1, 2, 9, 64]);
    t.drain();
    let o = scaled_dot_product_attention(&mut t, &q, &k, &v, 0x3e00_0000, None).unwrap();
    assert_eq!(o.shape(), &[1, 4, 1, 64]);
    assert!(launches(&mut t) >= 1);
    let x = bf16(&mut t, &[1, 512]);
    let packed = Array::new(Tensor::zeros(&mut t, &[64, 64], Dtype::Uint32));
    let scales = bf16(&mut t, &[64, 8]);
    let biases = bf16(&mut t, &[64, 8]);
    t.drain();
    let y = quantized_matmul(&mut t, &x, &packed, &scales, Some(&biases), true, 64, 4).unwrap();
    assert_eq!(y.shape(), &[1, 64]);
    assert_eq!(launches(&mut t), 1);
}
