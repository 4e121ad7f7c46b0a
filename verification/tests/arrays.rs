//! Arrays: types, views, and the commands that operations record.

use lisa::array::{swap_axes, Array};
use lisa::arrange::full;
use lisa::blob::add_gather_strides_and_shapes;
use lisa::collapse::{collapse_contiguous_dims, collapse_default_cap};
use lisa::conv::conv1d;
use lisa::dtype::{promote, type_string, type_to_name, Dtype};
use lisa::elements::{from_slice, zeros};
use lisa::elementwise::{broadcast_shape, kernel_tag};
use lisa::error::Error;
use lisa::facade;
use lisa::index::{index_ranges, index_seq, norm_bound, Ellipsis, IndexElem, TryIndexOp};
use lisa::join::{cat, stack};
use lisa::launch::get_block_dims;
use lisa::layout::Layout;
use lisa::matmul::{dense_gemm, Side, Sizes};
use lisa::ops::work_per_thread;
use lisa::quant::{qmv_batch_limit, qmv_fast_k_alignment};
use lisa::reduce::{get_2d_grid_dims, grid_2d, tg_from_row_size, Reduction};
use lisa::rope::rope;
use lisa::search::{put_along_axis, rms_norm};
use lisa::tape::{dim3, div_up, program, Arg, Cmd, Dispatch, Grid, Math, Scalar, Tape};

fn tape() -> Tape {
    Tape::new(Some('s'), false)
}

fn numbers(t: &mut Tape, data: &[i32], shape: &[usize]) -> Array {
    from_slice::<i32>(t, data, shape).unwrap()
}

fn floats(t: &mut Tape, shape: &[usize]) -> Array {
    Array::zeros(t, shape, Dtype::Float32)
}

fn message<T>(r: Result<T, Error>) -> String {
    match r {
        Ok(_) => panic!("no error"),
        Err(e) => e.message(),
    }
}

/// The names of the programs that run.
fn launched(t: &mut Tape) -> Vec<String> {
    t.drain()
        .iter()
        .filter_map(|c| match c {
            Cmd::Launch(d) => Some(d.program.name.clone()),
            _ => None,
        })
        .collect()
}

/// The numbers that the elements of an array have in a buffer that counts up.
fn places(a: &Array, n: i32) -> Vec<i32> {
    let bytes: Vec<u8> = (0..n).flat_map(|i| i.to_le_bytes()).collect();
    let v = a.to_vec(&bytes, 4).unwrap();
    v.chunks(4).map(|c| i32::from_le_bytes([c[0], c[1], c[2], c[3]])).collect()
}

// ---- types ----

#[test]
fn types_have_names_and_sizes() {
    assert_eq!(Dtype::Bfloat16.size_of(), 2);
    assert_eq!(Dtype::Int64.size_in_bytes(), 8);
    assert_eq!(Dtype::Bool.size_of(), 1);
    assert!(Dtype::Float16.is_float() && !Dtype::Uint32.is_float());
    assert_eq!(Dtype::Bfloat16.mlx_name(), "bfloat16");
    assert_eq!(Dtype::Bfloat16.metal_name(), "bfloat16_t");
    assert_eq!(type_to_name(Dtype::Float32).unwrap(), "float32");
    assert_eq!(type_string(Dtype::Float32).unwrap(), "float");
    assert!(type_string(Dtype::Bool).is_err());
}

#[test]
fn promotion_prefers_floats() {
    assert_eq!(promote(Dtype::Int32, Dtype::Float16), Dtype::Float16);
    assert_eq!(promote(Dtype::Float16, Dtype::Float32), Dtype::Float32);
    assert_eq!(promote(Dtype::Float32, Dtype::Float16), Dtype::Float32);
    assert_eq!(promote(Dtype::Uint8, Dtype::Uint8), Dtype::Uint8);
    assert_eq!(kernel_tag(Dtype::Bool), Some("u8"));
    assert_eq!(kernel_tag(Dtype::Int32), None);
}

// ---- layouts and views ----

#[test]
fn packed_layouts_count_down() {
    let l = Layout::contiguous(&[2, 3, 4]);
    assert_eq!(l.stride(), &[12, 4, 1]);
    assert_eq!(l.size(), 24);
    assert_eq!(l.rank(), 3);
    assert!(l.is_contiguous());
    assert_eq!(l.duplicate().shape(), &[2, 3, 4]);
    assert_eq!(Layout::contiguous(&[]).size(), 1);
    // Only the products that are formed must be numbers.
    let l = Layout::contiguous(&[usize::MAX, 2, 0]);
    assert_eq!(l.stride(), &[0, 0, 1]);
    assert!(l.is_contiguous());
    let l = Layout { shape: vec![0, usize::MAX, 2], strides: vec![0, 0, 0], offset: 0 };
    assert_eq!(l.size(), 0);
}

#[test]
fn views_move_no_elements() {
    let mut t = tape();
    let a = numbers(&mut t, &[0, 1, 2, 3, 4, 5], &[2, 3]);
    assert_eq!(places(&a, 6), [0, 1, 2, 3, 4, 5]);
    let p = a.permute(&[1, 0]).unwrap();
    assert_eq!(p.shape(), &[3, 2]);
    assert_eq!(places(&p, 6), [0, 3, 1, 4, 2, 5]);
    assert_eq!(places(&p.permute(&[1, 0]).unwrap(), 6), [0, 1, 2, 3, 4, 5]);
    let n = a.narrow(1, 1, 2).unwrap();
    assert_eq!(places(&n, 6), [1, 2, 4, 5]);
    assert!(!n.is_contiguous());
    let b = a.narrow(0, 1, 1).unwrap().broadcast(&[2, 3]).unwrap();
    assert_eq!(places(&b, 6), [3, 4, 5, 3, 4, 5]);
    let e = a.expand_dims(1).unwrap();
    assert_eq!(e.shape(), &[2, 1, 3]);
    assert_eq!(e.squeeze(1).unwrap().shape(), &[2, 3]);
    assert_eq!(a.transpose(0, 1).unwrap().shape(), &[3, 2]);
    assert_eq!(swap_axes(3, 0, 2), [2, 1, 0]);
    assert_eq!(a.row(1).shape(), &[3]);
    assert_eq!(places(&a.row(1), 6), [3, 4, 5]);
    assert_eq!(places(&a.i((1, 2)).unwrap(), 6), [5]);
    assert_eq!(message(a.i((1, 3))), "narrow: out of range");
    assert_eq!(message(a.i3(0, 0, 0)), "narrow: out of range");
    let some = a.every(1, 2);
    assert_eq!(places(&some, 6), [0, 2, 3, 5]);
    let hollow = numbers(&mut t, &[], &[2, 0, 3]);
    assert_eq!(hollow.i((1, 0)).is_err(), true);
    t.cmds.truncate(2);
    let parts = a.split_equal(3, 1).unwrap();
    assert_eq!(parts.len(), 3);
    assert_eq!(places(&parts[2], 6), [2, 5]);
    assert!(t.cmds.len() == 2);
}

#[test]
fn wrong_views_are_refused() {
    let mut t = tape();
    let a = numbers(&mut t, &[0; 6], &[2, 3]);
    assert_eq!(message(a.permute(&[0])), "transpose: rank mismatch");
    assert_eq!(message(a.expand_dims(3)), "expand_dims: axis out of range");
    let huge = usize::MAX;
    assert_eq!(message(a.broadcast(&[huge, huge, 3])), "broadcast: rank mismatch");
    assert_eq!(message(a.broadcast_to(&[huge, huge, 4])), "broadcast: incompatible shape");
    assert_eq!(
        message(a.reshape(&mut t, &[0, huge, 2])),
        format!("reshape: [0, {huge}, 2] needs 0 elements, have 6")
    );
    assert_eq!(message(a.narrow(1, 2, 2)), "narrow: out of range");
    assert_eq!(message(a.broadcast(&[3])), "broadcast: rank mismatch");
    assert_eq!(message(a.broadcast(&[4, 3])), "broadcast: incompatible shape");
    assert_eq!(message(a.broadcast_to(&[3])), "broadcast_to: fewer dims than the source");
    assert_eq!(
        message(a.reshape(&mut t, &[4, 2])),
        "reshape: [4, 2] needs 8 elements, have 6"
    );
    assert_eq!(message(a.to_vec(&[0; 24], 2)), "to_vec: element size mismatch");
}

#[test]
fn reshaping_copies_what_is_not_packed() {
    let mut t = tape();
    let a = numbers(&mut t, &[0, 1, 2, 3, 4, 5], &[2, 3]);
    t.drain();
    let r = a.reshape(&mut t, &[3, 2]).unwrap();
    assert_eq!(r.buffer(), a.buffer());
    assert!(t.cmds.is_empty());
    let r = a.permute(&[1, 0]).unwrap().reshape(&mut t, &[6]).unwrap();
    assert_ne!(r.buffer(), a.buffer());
    assert_eq!(launched(&mut t), ["copy_strided_int32_t"]);
}

#[test]
fn shapes_broadcast_from_the_right() {
    assert_eq!(broadcast_shape(&[4, 1, 3], &[2, 1]).unwrap(), [4, 2, 3]);
    assert_eq!(broadcast_shape(&[2, 1], &[4, 1, 3]).unwrap(), [4, 2, 3]);
    assert_eq!(broadcast_shape(&[], &[5]).unwrap(), [5]);
    assert_eq!(message(broadcast_shape(&[2], &[3])), "broadcast: [2] vs [3]");
}

#[test]
fn adjacent_axes_collapse() {
    let (shape, strides) =
        collapse_contiguous_dims(&[2, 3, 4], &vec![vec![12, 4, 1]], collapse_default_cap());
    assert_eq!(shape, [24]);
    assert_eq!(strides, [[1]]);
    let (shape, strides) = collapse_contiguous_dims(
        &[2, 3, 4],
        &vec![vec![24, 8, 1], vec![12, 4, 1]],
        collapse_default_cap(),
    );
    assert_eq!(shape, [6, 4]);
    assert_eq!(strides, [[8, 1], [4, 1]]);
}

// ---- operations ----

#[test]
fn elementwise_operations_are_recorded() {
    let mut t = tape();
    let a = floats(&mut t, &[2, 3]);
    let b = floats(&mut t, &[3]);
    t.drain();
    let c = a.add(&mut t, &b).unwrap();
    assert_eq!(c.shape(), &[2, 3]);
    match &t.cmds[0] {
        Cmd::Alloc(id, bytes, label) => assert_eq!((*id, *bytes, *label), (c.buffer(), 24, "binary_out")),
        _ => panic!("no buffer was made"),
    }
    match &t.cmds[1] {
        Cmd::Launch(d) => {
            assert_eq!(d.program.name, "badd_f32_strided");
            assert!(matches!(d.program.math, Math::Fast));
            assert!(matches!(&d.args[0], (0, Arg::Size(6))));
            assert!(matches!(&d.args[4], (4, Arg::U64s(v)) if v.as_slice() == [0, 1]));
        }
        _ => panic!("nothing runs"),
    }
    t.drain();
    a.exp(&mut t).unwrap();
    a.square(&mut t).unwrap();
    assert_eq!(launched(&mut t), ["v_Expfloat32float32", "v_Squarefloat32float32"]);
    let i = numbers(&mut t, &[1, 2], &[2]);
    assert_eq!(message(a.add(&mut t, &i)), "binary: dtype mismatch");
    assert_eq!(message(i.add(&mut t, &i)), "binary: no kernel for Int32");
    let none = floats(&mut t, &[0]);
    assert_eq!(message(none.exp(&mut t)), "unary: empty input");
}

#[test]
fn casts_run_on_the_device_or_the_host() {
    let mut t = tape();
    let a = floats(&mut t, &[2]);
    t.drain();
    let same = a.cast(&mut t, Dtype::Float32).unwrap();
    assert_eq!(same.buffer(), a.buffer());
    assert!(t.cmds.is_empty());
    let b = a.cast(&mut t, Dtype::Bfloat16).unwrap();
    assert_eq!(b.dtype(), Dtype::Bfloat16);
    assert_eq!(launched(&mut t), ["cast_f32_bf16_strided"]);
    a.cast(&mut t, Dtype::Int32).unwrap();
    assert!(t.drain().iter().any(|c| matches!(c, Cmd::HostCast(..))));
}

#[test]
fn reductions_are_recorded() {
    let mut t = tape();
    let a = floats(&mut t, &[2, 3]);
    t.drain();
    let s = a.sum(&mut t, 1).unwrap();
    assert_eq!(s.shape(), &[2]);
    assert_eq!(launched(&mut t), ["row_reduce_simple_sumfloat32"]);
    let m = a.reduce_last_axis(&mut t, Reduction::Mean).unwrap();
    assert_eq!(m.shape(), &[2]);
    assert_eq!(launched(&mut t), ["row_reduce_simple_sumfloat32", "bmul_f32_strided"]);
    let m = a.reduce_axis(&mut t, 0, Reduction::Max).unwrap();
    assert_eq!(m.shape(), &[3]);
    assert_eq!(
        launched(&mut t),
        ["copy_strided_float", "row_reduce_simple_maxfloat32"]
    );
    let big = floats(&mut t, &[2, 3, 4, 5]);
    for (axis, left) in [(0, [3, 4, 5]), (1, [2, 4, 5]), (2, [2, 3, 5]), (-1, [2, 3, 4])] {
        assert_eq!(big.reduce_axis(&mut t, axis, Reduction::Sum).unwrap().shape(), &left);
    }
    t.drain();
    assert_eq!(
        message(a.reduce_axis(&mut t, 2, Reduction::Sum)),
        "reduce_axis: axis out of range"
    );
    let p = a.softmax_last_axis(&mut t, true).unwrap();
    assert_eq!(p.shape(), &[2, 3]);
    assert_eq!(launched(&mut t), ["block_softmax_float32"]);
    assert_eq!(a.argmax(&mut t, 1).unwrap().dtype(), Dtype::Uint32);
}

#[test]
fn picks_are_refused_before_the_axis_is_read() {
    let mut t = tape();
    let a = floats(&mut t, &[2, 3]);
    let ids = from_slice::<u32>(&mut t, &[1, 0, 1, 0], &[2, 2]).unwrap();
    let row = from_slice::<u32>(&mut t, &[1], &[1]).unwrap();
    assert_eq!(message(a.gather(&mut t, &row, 9)), "gather: ids rank must match input rank");
    assert_eq!(message(a.gather(&mut t, &ids, 9)), "gather: dim 1 mismatch 3 vs 2");
    assert_eq!(message(a.index_select(&mut t, &ids, 9)), "index_select: ids must be 1-D");
    assert_eq!(message(a.split_equal(0, 9)), "split_equal: axis not divisible");
    let f = facade::Array::new(a);
    let i = facade::Array::new(ids);
    assert_eq!(f.take_along_axis(&mut t, &i, -1).unwrap().shape(), &[2, 2]);
    assert_eq!(message(f.take_along_axis(&mut t, &i, -7)), "gather: dim 1 mismatch 3 vs 2");
    assert_eq!(f.split_equal(3, -1).unwrap().len(), 3);
    assert_eq!(message(f.split_equal(0, -7)), "split_equal: axis not divisible");
}

#[test]
fn scatters_read_operands_as_they_lie() {
    let mut t = tape();
    let a = floats(&mut t, &[2, 3]);
    let ids = from_slice::<u32>(&mut t, &[1, 0, 1, 0], &[2, 2]).unwrap();
    let values = floats(&mut t, &[2, 2]);
    t.drain();
    let r = put_along_axis(&mut t, &a, &ids, &values, -1).unwrap();
    assert_eq!(r.shape(), &[2, 3]);
    let names = launched(&mut t);
    assert_eq!(names.last().unwrap(), "scatter_axisfloat32uint32_none_intcc");
    let turned = values.transpose(0, 1).unwrap();
    put_along_axis(&mut t, &a, &ids, &turned, 1).unwrap();
    let names = launched(&mut t);
    assert_eq!(names.last().unwrap(), "scatter_axisfloat32uint32_none_intncc");
    let back = ids.transpose(0, 1).unwrap();
    put_along_axis(&mut t, &a, &back, &values, 1).unwrap();
    let names = launched(&mut t);
    assert_eq!(names.last().unwrap(), "scatter_axisfloat32uint32_none_intcnc");
    let flags = Array::zeros(&mut t, &[2, 2], Dtype::Bool);
    assert_eq!(
        message(put_along_axis(&mut t, &a, &flags, &values, 9)),
        "unsupported compilation type Bool"
    );
}

/// The steps that a run is given at a place.
fn steps_at(t: &mut Tape, slot: usize) -> Vec<i64> {
    match t.drain().last() {
        Some(Cmd::Launch(d)) => match d.args.iter().find(|a| a.0 == slot) {
            Some((_, Arg::I64s(v))) => v.clone(),
            _ => panic!("no steps"),
        },
        _ => panic!("nothing runs"),
    }
}

#[test]
fn sides_without_batches_step_by_their_size() {
    let mut t = tape();
    let a = floats(&mut t, &[5, 2, 3]);
    let out = floats(&mut t, &[5, 2, 4]);
    let s = Sizes { b: 5, m: 2, n: 4, k: 3 };
    // The left side has room between its batches, so they cannot be stacked.
    let lhs = Side { buf: a.buf, offset: 0, strides: &[7, 3, 1] };
    let rhs = Side { buf: a.buf, offset: 0, strides: &[4, 1] };
    dense_gemm(&mut t, s, &lhs, &rhs, &out, Dtype::Float32).unwrap();
    assert_eq!(steps_at(&mut t, 7), [7, 12]);
    let fixed = Side { buf: a.buf, offset: 0, strides: &[0, 4, 1] };
    dense_gemm(&mut t, s, &lhs, &fixed, &out, Dtype::Float32).unwrap();
    assert_eq!(steps_at(&mut t, 7), [7, 0]);
    let s = Sizes { b: 5, m: 2, n: 1, k: 3 };
    let column = Side { buf: a.buf, offset: 0, strides: &[1, 1] };
    dense_gemm(&mut t, s, &lhs, &column, &out, Dtype::Float32).unwrap();
    assert_eq!(steps_at(&mut t, 11), [3]);
}

#[test]
fn arrays_are_joined() {
    let mut t = tape();
    let a = floats(&mut t, &[2, 3]);
    let b = floats(&mut t, &[2, 5]);
    let parts = vec![a.duplicate(), b];
    let c = cat(&mut t, &parts, 1).unwrap();
    assert_eq!(c.shape(), &[2, 8]);
    let twins = vec![a.duplicate(), a.duplicate()];
    assert_eq!(stack(&mut t, &twins, 1).unwrap().shape(), &[2, 2, 3]);
    assert_eq!(a.repeat_axis(&mut t, 2, 0).unwrap().shape(), &[4, 3]);
    assert_eq!(a.tile(&mut t, &[2, 1]).unwrap().shape(), &[4, 3]);
    let ids = from_slice::<u32>(&mut t, &[1, 0, 1], &[3]).unwrap();
    assert_eq!(a.index_select(&mut t, &ids, 0).unwrap().shape(), &[3, 3]);
    assert_eq!(a.take_axis(&mut t, &ids, 1).unwrap().shape(), &[2, 3]);
    let w = floats(&mut t, &[3, 4]);
    assert_eq!(a.matmul(&mut t, &w).unwrap().shape(), &[2, 4]);
    // A column that all batches share has no step between them.
    let batch = floats(&mut t, &[5, 2, 3]);
    let column = floats(&mut t, &[3, 1]);
    t.drain();
    assert_eq!(batch.matmul(&mut t, &column).unwrap().shape(), &[5, 2, 1]);
    assert_eq!(steps_at(&mut t, 11), [0]);
    batch.matmul(&mut t, &column).unwrap();
    assert_eq!(steps_at(&mut t, 12), [6]);
    let row = floats(&mut t, &[3]);
    assert_eq!(message(a.matmul(&mut t, &row)), "matmul: shapes [2, 3] x [3]");
}

#[test]
fn data_is_written_as_bytes() {
    let mut t = tape();
    let a = from_slice::<i64>(&mut t, &[1, -1], &[2]).unwrap();
    assert_eq!(a.dtype(), Dtype::Int64);
    match &t.cmds[1] {
        Cmd::Write(id, bytes) => {
            assert_eq!(*id, a.buffer());
            assert_eq!(bytes[..8], [1, 0, 0, 0, 0, 0, 0, 0]);
            assert_eq!(bytes[8..], [255; 8]);
        }
        _ => panic!("nothing was written"),
    }
    let z = zeros::<u16>(&mut t, &[3]);
    assert_eq!((z.dtype(), z.bytes), (Dtype::Uint32, 12));
    assert!(from_slice::<u8>(&mut t, &[1, 2, 3], &[2]).is_err());
    let f = Array::full(&mut t, Scalar::Bits(0x3F80_0000), &[2, 2], Dtype::Float16).unwrap();
    assert_eq!(f.elem_count(), 4);
}

#[test]
fn places_can_be_indexed() {
    let mut t = tape();
    let a = numbers(&mut t, &[0, 1, 2, 3, 4, 5], &[2, 3]);
    let all = a.try_index(&[]).unwrap();
    assert_eq!(places(&all, 6), [0, 1, 2, 3, 4, 5]);
    let last = index_seq(&a, &[IndexElem::Rest(Ellipsis), IndexElem::At(2)]).unwrap();
    assert_eq!(last.shape(), &[2]);
    assert_eq!(places(&last, 6), [2, 5]);
    let span = index_seq(&a, &[IndexElem::All, IndexElem::Span(1, 3)]).unwrap();
    assert_eq!(places(&span, 6), [1, 2, 4, 5]);
    assert_eq!(norm_bound(-1, 5), 4);
    assert_eq!(norm_bound(9, 5), 5);
    assert_eq!(norm_bound(-9, 5), 0);
    assert_eq!(index_ranges(&[4, 6], &[IndexElem::From(1)]), [(1, 4)]);
    let rest = [IndexElem::Rest(Ellipsis), IndexElem::At(3)];
    assert_eq!(index_ranges(&[4, 6], &rest), [(0, 4), (3, 4)]);
}

// ---- launches ----

#[test]
fn blocks_and_grids() {
    assert_eq!(get_block_dims(100, 100, 1, 10), (32, 32, 1));
    assert_eq!(get_block_dims(3, 1, 1, 10), (2, 1, 1));
    assert_eq!(get_block_dims(4096, 1, 1, 10), (1024, 1, 1));
    assert_eq!(grid_2d(&[2, 3]), (6, 1));
    assert_eq!(get_2d_grid_dims(&[2, 3], &[0, 1]), (3, 1));
    assert_eq!(tg_from_row_size(512), 32);
    assert_eq!(tg_from_row_size(1024), 128);
    assert_eq!(tg_from_row_size(1025), 288);
    assert_eq!(tg_from_row_size(1 << 20), 1024);
    assert_eq!(work_per_thread(Dtype::Float16, 65536), 4);
    assert_eq!(work_per_thread(Dtype::Float16, 65535), 1);
    assert_eq!(div_up(7, 4), 2);
    assert_eq!(qmv_batch_limit(2048, 2048), 33);
    assert_eq!(qmv_batch_limit(2049, 2048), 25);
    assert_eq!(qmv_batch_limit(4097, 1), 13);
    assert_eq!(qmv_fast_k_alignment(4), 512);
    assert_eq!(qmv_fast_k_alignment(2), 512);
    let run = Grid::Line(100).resolve(64, "f").unwrap();
    assert_eq!((run.grid.x, run.group.x), (100, 64));
    let run = Grid::Split(100).resolve(64, "f").unwrap();
    assert!(!run.in_threads);
    assert_eq!((run.grid.x, run.group.x), (2, 64));
    assert!(Grid::Checked(dim3(1, 1, 1), dim3(128, 1, 1), 128).resolve(64, "f").is_err());
}

// ---- the numeric front ----

#[test]
fn front_arrays_promote_their_types() {
    let mut t = tape();
    let a = facade::Array::new(floats(&mut t, &[2, 3]));
    let h = facade::Array::new(Array::zeros(&mut t, &[3], Dtype::Float16));
    assert_eq!(a.shape(), &[2, 3]);
    assert_eq!((a.dim(-1), a.ndim(), a.size()), (3, 2, 6));
    t.drain();
    let s = a.add(&mut t, &h).unwrap();
    assert_eq!(s.dtype(), Dtype::Float32);
    assert_eq!(launched(&mut t), ["cast_f16_f32_strided", "badd_f32_strided"]);
    let far = -2i32 as usize;
    assert_eq!(
        message(a.reshape(&mut t, &[-2])),
        format!("reshape: [{far}] needs {far} elements, have 6")
    );
    let r = a.reshape(&mut t, &[3, -1]).unwrap();
    assert_eq!(r.shape(), &[3, 2]);
    assert_eq!(a.expand_dims(-1).unwrap().shape(), &[2, 3, 1]);
    assert_eq!(a.sum(&mut t, None).unwrap().shape().len(), 0);
    assert_eq!(a.sum_axis(&mut t, -1, true).unwrap().shape(), &[2, 1]);
    let big = facade::Array::new(floats(&mut t, &[2, 3, 4, 5]));
    assert_eq!(big.sum_axis(&mut t, 1, true).unwrap().shape(), &[2, 1, 4, 5]);
    assert_eq!(big.mean_axis(&mut t, 0, false).unwrap().shape(), &[3, 4, 5]);
    assert_eq!(message(big.sum_axis(&mut t, -5, true)), "transpose: axis out of range");
    assert!(facade::native_unary("exp,log", "log"));
    assert!(!facade::native_unary("exp", "log"));
    let one = facade::Array::from_int(&mut t, 5).unwrap();
    assert_eq!((one.dtype(), one.ndim()), (Dtype::Int32, 0));
    let f = full(&mut t, &[2, 2], &one).unwrap();
    assert_eq!(f.shape(), &[2, 2]);
}

/// The starts of the inputs that the kernels of a kind read, in bytes.
fn starts(t: &mut Tape, name: &str, slot: usize) -> Vec<usize> {
    let mut v = vec![];
    for c in t.drain() {
        if let Cmd::Launch(d) = c {
            if d.program.name.starts_with(name) {
                for (s, a) in &d.args {
                    if let (true, Arg::Input(_, at)) = (*s == slot, a) {
                        v.push(*at);
                    }
                }
            }
        }
    }
    v
}

#[test]
fn convolutions_step_and_pad() {
    let mut t = tape();
    let x = facade::Array::new(floats(&mut t, &[1, 7, 2]));
    let w = facade::Array::new(floats(&mut t, &[2, 3, 1]));
    t.drain();
    // Three places, two apart: taps start at positions 0, 1 and 2, each with its
    // weights.
    let y = conv1d(&mut t, &x, &w, Some(2), None, None, Some(2)).unwrap();
    assert_eq!(y.shape(), &[1, 3, 2]);
    assert_eq!(starts(&mut t, "copy_strided", 0), [0, 0, 8, 4, 16, 8]);
    // With one zero in front and behind there are as many places as positions.
    let y = conv1d(&mut t, &x, &w, None, Some((1, 1)), None, Some(2)).unwrap();
    assert_eq!(y.shape(), &[1, 7, 2]);
    let mut padded = 0;
    for c in t.drain() {
        if let Cmd::Launch(d) = c {
            if d.program.name.starts_with("copy2_strided") {
                padded += 1;
                assert!(d.args.iter().any(|(s, a)| *s == 1 && matches!(a, Arg::Output(_, 8))));
            }
        }
    }
    assert_eq!(padded, 1);
    // Nothing is left of too short an input.
    let y = conv1d(&mut t, &x, &w, None, None, Some(4), Some(2)).unwrap();
    assert_eq!(y.shape(), &[1, 0, 2]);
    assert!(conv1d(&mut t, &x, &w, None, None, None, None).is_err());
}

#[test]
fn views_are_rotated_from_their_start() {
    let mut t = tape();
    let x = Array::zeros(&mut t, &[2, 1, 3, 8], Dtype::Bfloat16);
    let one = x.narrow(0, 1, 1).unwrap();
    let at = from_slice::<i32>(&mut t, &[0, 7], &[2]).unwrap().narrow(0, 1, 1).unwrap();
    t.drain();
    rope(&mut t, &one, 8, false, 0, 0, &at, true).unwrap();
    let cmds = t.drain();
    let run = match cmds.last() {
        Some(Cmd::Launch(d)) => d,
        _ => panic!("nothing runs"),
    };
    let start = |slot: usize| match run.args.iter().find(|a| a.0 == slot) {
        Some((_, Arg::Input(_, n))) => *n,
        _ => panic!("no input"),
    };
    assert_eq!(start(0), 48);
    assert_eq!(start(2), 4);
    let w = Array::zeros(&mut t, &[2, 8], Dtype::Bfloat16).row(1);
    t.drain();
    rms_norm(&mut t, &one, Some(&w), 0).unwrap();
    assert_eq!(starts(&mut t, "rms_", 1), [16]);
}

#[test]
fn gather_fields_are_collapsed() {
    let b = add_gather_strides_and_shapes((&[2, 3], &[3, 1]), (&[9, 9], &[3, 1]));
    assert_eq!(b.len_fields(), 4);
    let mut d = Dispatch::new(program("k".to_string(), vec![], String::new(), Math::Safe));
    b.bind(&mut d, 4);
    let bytes = |i: usize| match &d.args[i] {
        (slot, Arg::Bytes(v)) => (*slot, v.clone()),
        _ => panic!("no bytes"),
    };
    assert_eq!(bytes(0), (4, 1i32.to_le_bytes().to_vec()));
    assert_eq!(bytes(1), (5, 6i32.to_le_bytes().to_vec()));
    assert_eq!(bytes(2), (6, 1i64.to_le_bytes().to_vec()));
    assert_eq!(bytes(3), (7, 1i64.to_le_bytes().to_vec()));
}
