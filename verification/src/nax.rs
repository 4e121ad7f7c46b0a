//! The matrix product on the matrix unit, and the product of arrays.

use vstd::prelude::*;

use crate::array::{
    contiguous_s, err, fresh, lemma_roomy, roomy, seen, with_room, zeros_tape, Array, ArrayV,
    Outcome,
};
use crate::dtype::{compilable, promote, promoted, tag_text, type_to_name, variant_text, Dtype};
use crate::elementwise::cast_s;
use crate::error::Error;
use crate::layout::{copy_sizes, lemma_axis_bound};
use crate::matmul::{
    dense_gemm, device_class, device_type, gemm_param_bytes, gemm_params, gemm_s, orient,
    orientation, product_outcome, Side, SideV, Sizes,
};
use crate::tape::{
    ceil_div, dim3, div_up, fresh_program, program, program_with, Arg, ArgV, CmdV, ConstVal, Dim3,
    Dispatch, DispatchV, Grid, Math, MetalFile, Source, SourceV, Tape, TapeV,
};
use crate::text::{
    bool_str, bool_text, cat3, cat4, cat5, dec, dec_list, decimal_usize, same_text, size_list,
};

verus! {

/// A program of one instantiation over a header.
pub open spec fn nax_text(name: Seq<char>, rest: Seq<char>) -> Seq<char> {
    "\nusing namespace metal;\ninstantiate_kernel(\""@ + name + "\", "@ + rest + ")\n"@
}

pub fn nax_source_text(name: &str, rest: &str) -> (s: String)
    ensures
        s@ == nax_text(name@, rest@),
{
    cat5("\nusing namespace metal;\ninstantiate_kernel(\"", name, "\", ", rest, ")\n")
}

/// Numbers, each preceded by a comma and a space.
pub open spec fn listed(v: Seq<usize>) -> Seq<char>
    decreases v.len(),
{
    if v.len() == 0 {
        Seq::empty()
    } else {
        listed(v.drop_last()) + ", "@ + dec(v.last() as nat)
    }
}

/// Numbers, each preceded by a comma and a space.
pub fn number_list(v: &[usize]) -> (s: String)
    ensures
        s@ == listed(v@),
{
    let mut s = String::new();
    let mut i: usize = 0;
    assert(s@ =~= listed(v@.take(0)));
    while i < v.len()
        invariant
            i <= v.len(),
            s@ == listed(v@.take(i as int)),
        decreases v.len() - i,
    {
        s.append(", ");
        let d = decimal_usize(v[i]);
        s.append(&d);
        assert(v@.take(i + 1).drop_last() =~= v@.take(i as int));
        i += 1;
    }
    assert(v@.take(v@.len() as int) =~= v@);
    s
}

/// The Metal type behind a type's tag in the matrix product.
pub open spec fn nax_type(tag: Seq<char>) -> Seq<char> {
    if tag == "float32"@ {
        "float"@
    } else if tag == "bfloat16"@ {
        "bfloat16_t"@
    } else if tag == "float16"@ {
        "half"@
    } else {
        tag
    }
}

/// The program of one instantiation of the matrix product.
pub fn matmul_nax_source(
    base_name: &str,
    a_ty: &str,
    out_ty: &str,
    bm: usize,
    bn: usize,
    bk: usize,
    wm: usize,
    wn: usize,
    transpose_a: bool,
    transpose_b: bool,
) -> (s: Source)
    ensures
        s@ == (SourceV {
            files: seq![MetalFile::NaxGemm],
            text: nax_text(
                base_name@,
                "gemm, "@ + nax_type(out_ty@) + listed(seq![bm, bn, bk, wm, wn]) + ", "@
                    + bool_text(transpose_a) + ", "@ + bool_text(transpose_b),
            ),
        }),
{
    let ty = if same_text(out_ty, "float32") {
        "float"
    } else if same_text(out_ty, "bfloat16") {
        "bfloat16_t"
    } else if same_text(out_ty, "float16") {
        "half"
    } else {
        out_ty
    };
    proof {
        reveal_strlit("float32");
        reveal_strlit("bfloat16");
        reveal_strlit("float16");
    }
    let nums = [bm, bn, bk, wm, wn];
    let l = number_list(&nums);
    assert(nums@ =~= seq![bm, bn, bk, wm, wn]);
    let mut rest = cat3("gemm, ", ty, &l);
    rest.append(", ");
    rest.append(bool_str(transpose_a));
    rest.append(", ");
    rest.append(bool_str(transpose_b));
    let files = vec![MetalFile::NaxGemm];
    assert(files@ =~= seq![MetalFile::NaxGemm]);
    Source { files, text: nax_source_text(base_name, &rest) }
}

/// The block rows, block depth and SIMD rows of the matrix product.
pub open spec fn nax_tile(m: usize, n: usize, k: usize, device: char) -> (usize, usize, usize) {
    if small_class(device) {
        (
            64,
            if k >= 8192 && k > m + n {
                64
            } else {
                256
            },
            2,
        )
    } else {
        (128, 512, 4)
    }
}

/// The device classes with the smaller tile.
pub open spec fn small_class(device: char) -> bool {
    device == 's' || device == 'c' || device == 'd'
}

/// The name of the instantiation of the matrix product.
pub open spec fn nax_name(
    ta: bool,
    tb: bool,
    tag: Seq<char>,
    bm: usize,
    bk: usize,
    wm: usize,
) -> Seq<char> {
    "steel_gemm_fused_nax_"@ + (if ta {
        "t"@
    } else {
        "n"@
    }) + (if tb {
        "t"@
    } else {
        "n"@
    }) + "_"@ + tag + "_"@ + tag + "_bm"@ + dec(bm as nat) + "_bn128_bk"@ + dec(bk as nat) + "_wm"@
        + dec(wm as nat) + "_wn4"@
}

fn nax_kernel(ta: bool, tb: bool, tag: &str, bm: usize, bk: usize, wm: usize) -> (s: String)
    ensures
        s@ == nax_name(ta, tb, tag@, bm, bk, wm),
{
    let mut s = cat4(
        "steel_gemm_fused_nax_",
        if ta {
            "t"
        } else {
            "n"
        },
        if tb {
            "t"
        } else {
            "n"
        },
        "_",
    );
    s.append(tag);
    s.append("_");
    s.append(tag);
    s.append("_bm");
    let d = decimal_usize(bm);
    s.append(&d);
    s.append("_bn128_bk");
    let d = decimal_usize(bk);
    s.append(&d);
    s.append("_wm");
    let d = decimal_usize(wm);
    s.append(&d);
    s.append("_wn4");
    s
}

/// The power of two by which the tiles are swizzled.
pub open spec fn swizzle(device: char, tm: int) -> int {
    if small_class(device) {
        2
    } else if tm <= 3 {
        0
    } else {
        1
    }
}

/// The run of the matrix product of `a` and `b`.
pub open spec fn nax_run(
    a: ArrayV,
    b: ArrayV,
    ta: bool,
    tb: bool,
    out: ArrayV,
    device: char,
) -> DispatchV {
    let m = a.shape()[0];
    let k = a.shape()[1];
    let n = if tb {
        b.shape()[0]
    } else {
        b.shape()[1]
    };
    let (bm, bk, wm) = nax_tile(m, n, k, device);
    let tag = tag_text(a.dtype);
    let name = nax_name(ta, tb, tag, bm, bk, wm);
    let tn = ceil_div(n as int, 128);
    let tm = ceil_div(m as int, bm as int);
    let sw = swizzle(device, tm);
    let tile = if sw == 0 {
        1int
    } else if sw == 1 {
        2
    } else {
        4
    };
    DispatchV {
        program: fresh_program(
            name,
            seq![MetalFile::NaxGemm],
            nax_text(
                name,
                "gemm, "@ + nax_type(tag) + listed(seq![bm, 128usize, bk, wm, 4usize]) + ", "@
                    + bool_text(ta) + ", "@ + bool_text(tb),
            ),
            Math::Safe,
            seq![
                (10usize, ConstVal::Bool(false)),
                (100usize, ConstVal::Bool(false)),
                (110usize, ConstVal::Bool(false)),
                (200usize, ConstVal::Bool(m % bm == 0)),
                (201usize, ConstVal::Bool(n % 128 == 0)),
                (202usize, ConstVal::Bool(k % bk == 0)),
            ],
        ),
        args: seq![
            (0usize, a.as_input()),
            (1usize, b.as_input()),
            (3usize, ArgV::Output(out.buf, 0)),
            (
                4usize,
                ArgV::Bytes(
                    gemm_params(
                        seq![
                            m as i32,
                            n as i32,
                            k as i32,
                            (if ta {
                                m
                            } else {
                                k
                            }) as i32,
                            (if tb {
                                k
                            } else {
                                n
                            }) as i32,
                            n as i32,
                            tn as usize as i32,
                            tm as usize as i32,
                        ],
                        seq![0i64, 0i64, 0i64],
                        seq![sw as i32, (k / bk) as usize as i32, 0i32],
                    ),
                ),
            ),
        ],
        grid: Grid::Groups(
            Dim3 { x: (tn * tile) as usize, y: ceil_div(tm, tile) as usize, z: 1 },
            Dim3 { x: 32, y: 4, z: wm },
        ),
    }
}

/// The product of two matrices on the matrix unit.
pub open spec fn nax_s(t: TapeV, a: ArrayV, b: ArrayV, ta: bool, tb: bool) -> (TapeV, Outcome) {
    if a.rank() != 2 || b.rank() != 2 {
        (t, Err("matmul_nax: 2-D only"@))
    } else if !compilable(a.dtype) {
        (t, Err("type_to_name: unsupported "@ + variant_text(a.dtype)))
    } else {
        let n = if tb {
            b.shape()[0]
        } else {
            b.shape()[1]
        };
        let dims = seq![a.shape()[0], n];
        let out = fresh(t, dims, a.dtype);
        (
            with_room(t, dims, a.dtype, "gemm_out"@).then_do(
                CmdV::Launch(nax_run(a, b, ta, tb, out, device_class(t, 's'))),
            ),
            Ok(out),
        )
    }
}

/// Records the product of two matrices on the matrix unit.
pub fn matmul_nax(
    tape: &mut Tape,
    a: &Array,
    b: &Array,
    transpose_a: bool,
    transpose_b: bool,
) -> (r: Result<Array, Error>)
    requires
        a@.wf(),
        b@.wf(),
        a@.rank() == 2 && b@.rank() == 2 ==> roomy(
            seq![
                a@.shape()[0],
                if transpose_b {
                    b@.shape()[0]
                } else {
                    b@.shape()[1]
                },
            ],
        ),
    ensures
        (final(tape)@, seen(r)) == nax_s(old(tape)@, a@, b@, transpose_a, transpose_b),
        r matches Ok(x) ==> x@.wf() && x@.layout.dense() && x@.dtype == a@.dtype && x@.shape()
            == seq![
            a@.shape()[0],
            if transpose_b {
                b@.shape()[0]
            } else {
                b@.shape()[1]
            },
        ],
{
    if a.rank() != 2 || b.rank() != 2 {
        return err("matmul_nax: 2-D only");
    }
    let m = a.layout.shape[0];
    let k = a.layout.shape[1];
    let n = if transpose_b {
        b.layout.shape[0]
    } else {
        b.layout.shape[1]
    };
    let tag = match type_to_name(a.dtype) {
        Ok(t) => t,
        Err(e) => {
            return Err(e);
        },
    };
    proof {
        lemma_axis_bound(a@.shape(), 0);
        lemma_axis_bound(a@.shape(), 1);
        lemma_axis_bound(b@.shape(), 0);
        lemma_axis_bound(b@.shape(), 1);
        lemma_roomy(a@.shape(), a@.dtype);
        lemma_roomy(b@.shape(), b@.dtype);
    }
    let device = device_type(tape, 's');
    let small = device == 's' || device == 'c' || device == 'd';
    let bm: usize = if small {
        64
    } else {
        128
    };
    let bk: usize = if small {
        if k >= 8192 && k > m + n {
            64
        } else {
            256
        }
    } else {
        512
    };
    let wm: usize = if small {
        2
    } else {
        4
    };
    let name = nax_kernel(transpose_a, transpose_b, tag, bm, bk, wm);
    let src = matmul_nax_source(
        &name,
        tag,
        tag,
        bm,
        128,
        bk,
        wm,
        4,
        transpose_a,
        transpose_b,
    );
    let consts: Vec<(usize, ConstVal)> = vec![
        (10, ConstVal::Bool(false)),
        (100, ConstVal::Bool(false)),
        (110, ConstVal::Bool(false)),
        (200, ConstVal::Bool(m % bm == 0)),
        (201, ConstVal::Bool(n % 128 == 0)),
        (202, ConstVal::Bool(k % bk == 0)),
    ];
    let p = program_with(name, src, Math::Safe, consts);
    let shape: Vec<usize> = vec![m, n];
    assert(shape@ =~= seq![m, n]);
    let out = Array::make(tape, &shape, a.dtype, "gemm_out");
    let tn = div_up(n, 128);
    let tm = div_up(m, bm);
    let sw: i32 = if small {
        2
    } else if tm <= 3 {
        0
    } else {
        1
    };
    let tile: usize = if small {
        4
    } else if tm <= 3 {
        1
    } else {
        2
    };
    let head: Vec<i32> = vec![
        m as i32,
        n as i32,
        k as i32,
        (if transpose_a {
            m
        } else {
            k
        }) as i32,
        (if transpose_b {
            k
        } else {
            n
        }) as i32,
        n as i32,
        tn as i32,
        tm as i32,
    ];
    let strides: Vec<i64> = vec![0, 0, 0];
    let tail: Vec<i32> = vec![sw, (k / bk) as i32, 0];
    let params = gemm_param_bytes(&head, &strides, &tail);
    let mut d = Dispatch::new(p);
    d.bind(0, a.input());
    d.bind(1, b.input());
    d.bind(3, Arg::Output(out.buf, 0));
    d.bind(4, Arg::Bytes(params));
    assert(tn <= n);
    tape.launch(d, Grid::Groups(dim3(tn * tile, div_up(tm, tile), 1), dim3(32, 4, wm)));
    proof {
        let run = nax_run(a@, b@, transpose_a, transpose_b, out@, device);
        assert(p@.consts =~= run.program.consts);
        assert(strides@ =~= seq![0i64, 0i64, 0i64]);
        assert(tail@ =~= seq![sw as i32, (k / bk) as usize as i32, 0i32]);
        assert(head@ =~= seq![
            m as i32,
            n as i32,
            k as i32,
            (if transpose_a {
                m
            } else {
                k
            }) as i32,
            (if transpose_b {
                k
            } else {
                n
            }) as i32,
            n as i32,
            tn as usize as i32,
            tm as usize as i32,
        ]);
        assert(d@.args =~= run.args);
        crate::views::packed_is_dense(shape@);
        lemma_roomy(shape@, a@.dtype);
    }
    Ok(out)
}

// ---- the product of arrays ----

/// The shape and the sizes of a product of arrays, when their ranks allow one:
/// two matrices, a batch of matrices and a matrix, or two batches as long.
pub open spec fn matmul_shape(a: Seq<usize>, b: Seq<usize>) -> Option<(Seq<usize>, Sizes)> {
    if a.len() == 2 && b.len() == 2 {
        Some((seq![a[0], b[1]], Sizes { b: 1, m: a[0], n: b[1], k: a[1] }))
    } else if a.len() == 3 && b.len() == 2 {
        Some((seq![a[0], a[1], b[1]], Sizes { b: a[0], m: a[1], n: b[1], k: a[2] }))
    } else if a.len() == 3 && b.len() == 3 && a[0] == b[0] {
        Some((seq![a[0], a[1], b[2]], Sizes { b: a[0], m: a[1], n: b[2], k: a[2] }))
    } else {
        None
    }
}

/// One side of the product of arrays.
pub open spec fn side_of(a: ArrayV) -> SideV {
    SideV { buf: a.buf, offset: a.start(), strides: a.strides() }
}

/// The right side of the product of arrays: a matrix that more batches than one
/// share has no step between them.
pub open spec fn right_side(y: ArrayV, s: Sizes) -> SideV {
    let side = side_of(y);
    if s.b > 1 && y.rank() == 2 && orient(side.outer(), side.inner(), s.k, s.n) is Some {
        SideV { strides: seq![0usize] + y.strides(), ..side }
    } else {
        side
    }
}

/// The product of two packed arrays of one type, into a cleared buffer.
pub open spec fn multiply_s(t: TapeV, x: ArrayV, y: ArrayV, shape: Seq<usize>, s: Sizes) -> (
    TapeV,
    Outcome,
) {
    let out = fresh(t, shape, x.dtype);
    let t1 = zeros_tape(t, shape, x.dtype);
    match product_outcome(t1, gemm_s(t1, s, side_of(x), right_side(y, s), out, x.dtype)) {
        (t2, Ok(())) => (t2, Ok(out)),
        (t2, Err(e)) => (t2, Err(e)),
    }
}

fn multiply(tape: &mut Tape, x: &Array, y: &Array, shape: &[usize], s: Sizes) -> (r: Result<
    Array,
    Error,
>)
    requires
        x@.wf(),
        y@.wf(),
        x@.dtype == y@.dtype,
        x@.rank() >= 2,
        y@.rank() >= 2,
        roomy(shape@),
        s.fits(),
    ensures
        (final(tape)@, seen(r)) == multiply_s(old(tape)@, x@, y@, shape@, s),
        r matches Ok(a) ==> a@.wf(),
{
    let dt = x.dtype;
    let out = Array::zeros(tape, shape, dt);
    let lhs = Side {
        buf: x.buf,
        offset: x.layout.offset * dt.size_of(),
        strides: &x.layout.strides,
    };
    let n = y.layout.strides.len();
    let (outer, inner) = (y.layout.strides[n - 2], y.layout.strides[n - 1]);
    let mut steps = copy_sizes(&y.layout.strides);
    if s.b > 1 && n == 2 && orientation(outer, inner, s.k, s.n).is_some() {
        steps.insert(0, 0);
        assert(steps@ =~= seq![0usize] + y@.strides());
    }
    let rhs = Side { buf: y.buf, offset: y.layout.offset * dt.size_of(), strides: &steps };
    assert(lhs@ == side_of(x@));
    assert(rhs@ == right_side(y@, s));
    match dense_gemm(tape, s, &lhs, &rhs, &out, dt) {
        Ok(()) => Ok(out),
        Err(e) => Err(e),
    }
}

/// The product of two arrays: both are brought to a common type and packed.
pub open spec fn matmul_s(t: TapeV, a: ArrayV, b: ArrayV) -> (TapeV, Outcome) {
    match matmul_shape(a.shape(), b.shape()) {
        None => (
            t,
            Err("matmul: shapes "@ + dec_list(a.shape()) + " x "@ + dec_list(b.shape())),
        ),
        Some((shape, s)) => {
            let dt = promoted(a.dtype, b.dtype);
            match packed_as(t, a, dt) {
                (t1, Err(e)) => (t1, Err(e)),
                (t1, Ok(x)) => match packed_as(t1, b, dt) {
                    (t2, Err(e)) => (t2, Err(e)),
                    (t2, Ok(y)) => multiply_s(t2, x, y, shape, s),
                },
            }
        },
    }
}

/// An array converted to a type and packed.
pub open spec fn packed_as(t: TapeV, a: ArrayV, dt: Dtype) -> (TapeV, Outcome) {
    match cast_s(t, a, dt) {
        (t1, Err(e)) => (t1, Err(e)),
        (t1, Ok(x)) => contiguous_s(t1, x),
    }
}

impl Array {
    /// The array converted to a type and packed.
    fn pack_as(&self, tape: &mut Tape, dt: Dtype) -> (r: Result<Array, Error>)
        requires
            self@.wf(),
        ensures
            (final(tape)@, seen(r)) == packed_as(old(tape)@, self@, dt),
            r matches Ok(a) ==> a@.wf() && a@.shape() == self@.shape() && a@.dtype == dt,
    {
        match self.to_dtype(tape, dt) {
            Ok(x) => x.contiguous(tape),
            Err(e) => Err(e),
        }
    }

    /// The shape and the sizes of the product with another array.
    fn matmul_plan(&self, other: &Array) -> (r: Option<(Vec<usize>, Sizes)>)
        requires
            self@.wf(),
            other@.wf(),
        ensures
            r is Some == matmul_shape(self@.shape(), other@.shape()) is Some,
            r matches Some((shape, s)) ==> matmul_shape(self@.shape(), other@.shape()) == Some(
                (shape@, s),
            ),
    {
        let a = &self.layout.shape;
        let b = &other.layout.shape;
        if a.len() == 2 && b.len() == 2 {
            let shape = vec![a[0], b[1]];
            assert(shape@ =~= seq![a@[0], b@[1]]);
            Some((shape, Sizes { b: 1, m: a[0], n: b[1], k: a[1] }))
        } else if a.len() == 3 && b.len() == 2 {
            let shape = vec![a[0], a[1], b[1]];
            assert(shape@ =~= seq![a@[0], a@[1], b@[1]]);
            Some((shape, Sizes { b: a[0], m: a[1], n: b[1], k: a[2] }))
        } else if a.len() == 3 && b.len() == 3 && a[0] == b[0] {
            let shape = vec![a[0], a[1], b[2]];
            assert(shape@ =~= seq![a@[0], a@[1], b@[2]]);
            Some((shape, Sizes { b: a[0], m: a[1], n: b[2], k: a[2] }))
        } else {
            None
        }
    }

    /// The product of two matrices, or of batches of matrices.
    pub fn matmul(&self, tape: &mut Tape, other: &Array) -> (r: Result<Array, Error>)
        requires
            self@.wf(),
            other@.wf(),
            matmul_shape(self@.shape(), other@.shape()) matches Some((shape, s)) ==> roomy(shape)
                && s.fits(),
        ensures
            (final(tape)@, seen(r)) == matmul_s(old(tape)@, self@, other@),
            r matches Ok(a) ==> a@.wf(),
    {
        let (shape, s) = match self.matmul_plan(other) {
            Some(p) => p,
            None => {
                let x = size_list(self.shape());
                let y = size_list(other.shape());
                return Err(Error::Msg(cat4("matmul: shapes ", &x, " x ", &y)));
            },
        };
        let dt = promote(self.dtype, other.dtype);
        let x = match self.pack_as(tape, dt) {
            Ok(x) => x,
            Err(e) => {
                return Err(e);
            },
        };
        let y = match other.pack_as(tape, dt) {
            Ok(y) => y,
            Err(e) => {
                return Err(e);
            },
        };
        multiply(tape, &x, &y, &shape, s)
    }

    /// The product, by another name.
    pub fn broadcast_matmul(&self, tape: &mut Tape, other: &Array) -> (r: Result<Array, Error>)
        requires
            self@.wf(),
            other@.wf(),
            matmul_shape(self@.shape(), other@.shape()) matches Some((shape, s)) ==> roomy(shape)
                && s.fits(),
        ensures
            (final(tape)@, seen(r)) == matmul_s(old(tape)@, self@, other@),
            r matches Ok(a) ==> a@.wf(),
    {
        self.matmul(tape, other)
    }
}

} // verus!
