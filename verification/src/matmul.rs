//! Matrix products.

use vstd::prelude::*;

use crate::array::{Array, ArrayV};
use crate::dtype::{tag_text, variant_text, Dtype};
use crate::error::Error;
use crate::tape::{
    ceil_div, dim3, div_up, fresh_program, max_int, max_usize, program, Arg, ArgV, CmdV, ConstVal,
    Dim3, Dispatch, DispatchV, Grid, Math, MetalFile, Tape, TapeV,
};
use crate::text::{cat2, cat3, cat4, dec, dec_list, decimal_usize, size_list};
use crate::words::{le32s, le64s, push_le32s, push_le64s};

verus! {

// ---- orientation of an operand ----

/// How a matrix of `rows` by `cols` with the given last two strides is stored:
/// its leading dimension, and whether it is transposed. Neither when it is not
/// packed one way or the other.
pub open spec fn orient(outer: usize, inner: usize, rows: usize, cols: usize) -> Option<
    (usize, bool),
> {
    if (inner == 1 || cols == 1) && (outer == cols || rows == 1) {
        Some((cols, false))
    } else if (inner == rows || cols == 1) && (outer == 1 || rows == 1) {
        Some((rows, true))
    } else {
        None
    }
}

pub(crate) fn orientation(outer: usize, inner: usize, rows: usize, cols: usize) -> (r: Option<(usize, bool)>)
    ensures
        r == orient(outer, inner, rows, cols),
{
    if (inner == 1 || cols == 1) && (outer == cols || rows == 1) {
        Some((cols, false))
    } else if (inner == rows || cols == 1) && (outer == 1 || rows == 1) {
        Some((rows, true))
    } else {
        None
    }
}

/// A stride counted from the last.
pub open spec fn from_end(s: Seq<usize>, k: int) -> usize {
    s[s.len() - k]
}

/// One side of a product: a buffer, the byte at which it starts and its
/// strides.
pub struct Side<'a> {
    pub buf: u64,
    pub offset: usize,
    pub strides: &'a [usize],
}

/// The view of one side of a product.
pub ghost struct SideV {
    pub buf: u64,
    pub offset: usize,
    pub strides: Seq<usize>,
}

impl<'a> View for Side<'a> {
    type V = SideV;

    open spec fn view(&self) -> SideV {
        SideV { buf: self.buf, offset: self.offset, strides: self.strides@ }
    }
}

impl SideV {
    pub open spec fn outer(self) -> usize {
        from_end(self.strides, 2)
    }

    pub open spec fn inner(self) -> usize {
        from_end(self.strides, 1)
    }

    /// The stride between batches, or the default when there is no batch axis.
    pub open spec fn batch(self, default: int) -> int {
        if self.strides.len() > 2 {
            from_end(self.strides, 3) as int
        } else {
            default
        }
    }

    pub open spec fn arg(self) -> ArgV {
        ArgV::Input(self.buf, self.offset)
    }
}

/// The sizes of a batched product.
#[derive(Clone, Copy, PartialEq, Eq, Structural, Debug)]
pub struct Sizes {
    pub b: usize,
    pub m: usize,
    pub n: usize,
    pub k: usize,
}

impl Sizes {
    /// The sizes that the product works out fit in a word.
    pub open spec fn fits(self) -> bool {
        &&& self.b * self.m <= usize::MAX
        &&& self.b * self.m * self.n <= usize::MAX
        &&& self.m * self.n <= usize::MAX
        &&& self.m * self.k <= usize::MAX
        &&& self.n * self.k <= usize::MAX
        &&& self.b * self.m * 16 <= usize::MAX
        &&& self.m * 16 <= usize::MAX
        &&& self.n * 16 <= usize::MAX
    }
}

/// The message about an operand that is packed neither way.
pub open spec fn stride_message(
    what: Seq<char>,
    strides: Seq<usize>,
    s: Sizes,
) -> Seq<char> {
    what + dec_list(strides) + " mnk "@ + dec(s.m as nat) + ","@ + dec(s.n as nat) + ","@ + dec(
        s.k as nat,
    )
}

fn stride_error(what: &str, strides: &[usize], s: Sizes) -> (e: Error)
    ensures
        e.text() == stride_message(what@, strides@, s),
{
    let l = size_list(strides);
    let m = decimal_usize(s.m);
    let n = decimal_usize(s.n);
    let k = decimal_usize(s.k);
    let mut t = cat4(what, &l, " mnk ", &m);
    t.append(",");
    t.append(&n);
    t.append(",");
    t.append(&k);
    Error::Msg(t)
}

// ---- matrix by vector ----

/// The tile of the matrix-by-vector kernel: block rows and columns, SIMD rows
/// and columns, thread rows and columns.
#[derive(Clone, Copy, PartialEq, Eq, Structural, Debug)]
pub struct GemvTile {
    pub bm: usize,
    pub bn: usize,
    pub sm: usize,
    pub sn: usize,
    pub tm: usize,
    pub tn: usize,
}

/// The tile for a matrix of the given extents, stored transposed or not.
pub open spec fn gemv_tile_for(transposed: bool, inputs: usize, outputs: usize) -> GemvTile {
    if transposed {
        let wide = inputs >= 8192 && outputs >= 2048;
        GemvTile {
            bm: 1,
            bn: if outputs >= 2048 {
                16
            } else if outputs >= 512 {
                4
            } else {
                2
            },
            sm: if wide {
                4
            } else {
                8
            },
            sn: if wide {
                8
            } else {
                4
            },
            tm: 4,
            tn: if outputs < 4 {
                1
            } else {
                4
            },
        }
    } else {
        let tm = if outputs < 4 {
            1
        } else {
            4
        };
        if inputs <= 64 {
            GemvTile { bm: 1, bn: 1, sm: 8, sn: 4, tm, tn: 4 }
        } else if inputs >= 16 * outputs {
            GemvTile { bm: 1, bn: 8, sm: 1, sn: 32, tm, tn: 4 }
        } else if outputs >= 4096 {
            GemvTile { bm: 8, bn: 1, sm: 1, sn: 32, tm, tn: 4 }
        } else {
            GemvTile { bm: 4, bn: 1, sm: 1, sn: 32, tm, tn: 4 }
        }
    }
}

fn gemv_tile(transposed: bool, inputs: usize, outputs: usize) -> (t: GemvTile)
    requires
        outputs * 16 <= usize::MAX,
    ensures
        t == gemv_tile_for(transposed, inputs, outputs),
        1 <= t.bm <= 8,
        1 <= t.bn <= 16,
        1 <= t.sm <= 8,
        1 <= t.sn <= 32,
        1 <= t.tm <= 4,
        1 <= t.tn <= 4,
{
    if transposed {
        let wide = inputs >= 8192 && outputs >= 2048;
        GemvTile {
            bm: 1,
            bn: if outputs >= 2048 {
                16
            } else if outputs >= 512 {
                4
            } else {
                2
            },
            sm: if wide {
                4
            } else {
                8
            },
            sn: if wide {
                8
            } else {
                4
            },
            tm: 4,
            tn: if outputs < 4 {
                1
            } else {
                4
            },
        }
    } else {
        let tm: usize = if outputs < 4 {
            1
        } else {
            4
        };
        if inputs <= 64 {
            GemvTile { bm: 1, bn: 1, sm: 8, sn: 4, tm, tn: 4 }
        } else if inputs >= 16 * outputs {
            GemvTile { bm: 1, bn: 8, sm: 1, sn: 32, tm, tn: 4 }
        } else if outputs >= 4096 {
            GemvTile { bm: 8, bn: 1, sm: 1, sn: 32, tm, tn: 4 }
        } else {
            GemvTile { bm: 4, bn: 1, sm: 1, sn: 32, tm, tn: 4 }
        }
    }
}

/// The name of the matrix-by-vector kernel of a tile.
pub open spec fn gemv_name(transposed: bool, tag: Seq<char>, t: GemvTile) -> Seq<char> {
    (if transposed {
        "gemv_t_"@
    } else {
        "gemv_"@
    }) + tag + "_bm"@ + dec(t.bm as nat) + "_bn"@ + dec(t.bn as nat) + "_sm"@ + dec(t.sm as nat)
        + "_sn"@ + dec(t.sn as nat) + "_tm"@ + dec(t.tm as nat) + "_tn"@ + dec(t.tn as nat)
        + "_nc0_axpby0"@
}

fn gemv_kernel(transposed: bool, tag: &str, t: GemvTile) -> (s: String)
    ensures
        s@ == gemv_name(transposed, tag@, t),
{
    let mut s = cat3(
        if transposed {
            "gemv_t_"
        } else {
            "gemv_"
        },
        tag,
        "_bm",
    );
    let d = decimal_usize(t.bm);
    s.append(&d);
    s.append("_bn");
    let d = decimal_usize(t.bn);
    s.append(&d);
    s.append("_sm");
    let d = decimal_usize(t.sm);
    s.append(&d);
    s.append("_sn");
    let d = decimal_usize(t.sn);
    s.append(&d);
    s.append("_tm");
    let d = decimal_usize(t.tm);
    s.append(&d);
    s.append("_tn");
    let d = decimal_usize(t.tn);
    s.append(&d);
    s.append("_nc0_axpby0");
    s
}

/// The types that the dense products are instantiated on.
pub open spec fn gemm_type(d: Dtype) -> bool {
    d == Dtype::Float32 || d == Dtype::Float16 || d == Dtype::Bfloat16
}

/// The run of the matrix-by-vector kernel: the right side is the matrix unless
/// it has one column.
pub open spec fn gemv_run(
    s: Sizes,
    lhs: SideV,
    rhs: SideV,
    lda: usize,
    a_trans: bool,
    ldb: usize,
    b_trans: bool,
    out: ArrayV,
    dt: Dtype,
) -> DispatchV {
    let right = s.n != 1;
    let transposed = if right {
        !b_trans
    } else {
        a_trans
    };
    let ld = if right {
        ldb
    } else {
        lda
    };
    let outputs = if right {
        s.n
    } else {
        s.m
    };
    let (mat, vec) = if right {
        (rhs, lhs)
    } else {
        (lhs, rhs)
    };
    let t = gemv_tile_for(transposed, s.k, outputs);
    let per_group = if transposed {
        t.bn * t.sn * t.tn
    } else {
        t.bm * t.sm * t.tm
    };
    DispatchV {
        program: fresh_program(
            gemv_name(transposed, tag_text(dt), t),
            seq![MetalFile::DenseGemv],
            Seq::empty(),
            Math::SafeNoLang,
            Seq::empty(),
        ),
        args: seq![
            (0usize, mat.arg()),
            (1usize, vec.arg()),
            (3usize, ArgV::Output(out.buf, 0)),
            (4usize, ArgV::I32(s.k as i32)),
            (5usize, ArgV::I32(outputs as i32)),
            (6usize, ArgV::I32(ld as i32)),
            // The 32-bit floats one and zero.
            (7usize, ArgV::Word(0x3f80_0000)),
            (8usize, ArgV::Word(0)),
            (9usize, ArgV::I32(1)),
            (10usize, ArgV::I32s(seq![s.b as i32])),
            (11usize, ArgV::I64s(seq![vec.batch(s.k as int) as usize as i64])),
            (12usize, ArgV::I64s(seq![mat.batch(0) as usize as i64])),
            (13usize, ArgV::I64s(seq![0i64])),
            (14usize, ArgV::I32(1)),
        ],
        grid: Grid::Groups(
            Dim3 { x: ceil_div(outputs as int, per_group) as usize, y: 1, z: s.b },
            Dim3 { x: 32, y: t.bn, z: t.bm },
        ),
    }
}

/// The stride between batches of a side.
fn batch_stride(s: &Side, default: usize) -> (r: usize)
    ensures
        r == s@.batch(default as int),
{
    if s.strides.len() > 2 {
        s.strides[s.strides.len() - 3]
    } else {
        default
    }
}

/// What a product does: it records a run, or gives a message.
pub open spec fn product_outcome(
    t: TapeV,
    r: Result<DispatchV, Seq<char>>,
) -> (TapeV, Result<(), Seq<char>>) {
    match r {
        Ok(d) => (t.then_do(CmdV::Launch(d)), Ok(())),
        Err(e) => (t, Err(e)),
    }
}

/// What the result of a product shows.
pub open spec fn done(r: Result<(), Error>) -> Result<(), Seq<char>> {
    match r {
        Ok(()) => Ok(()),
        Err(e) => Err(e.text()),
    }
}

/// The matrix-by-vector product.
pub open spec fn gemv_s(s: Sizes, lhs: SideV, rhs: SideV, out: ArrayV, dt: Dtype) -> Result<
    DispatchV,
    Seq<char>,
> {
    match orient(lhs.outer(), lhs.inner(), s.m, s.k) {
        None => Err(stride_message("mlx gemv: non-contiguous lhs "@, lhs.strides, s)),
        Some((lda, at)) => match orient(rhs.outer(), rhs.inner(), s.k, s.n) {
            None => Err(stride_message("mlx gemv: non-contiguous rhs "@, rhs.strides, s)),
            Some((ldb, bt)) => if !gemm_type(dt) {
                Err("mlx gemv dtype "@ + variant_text(dt))
            } else {
                Ok(gemv_run(s, lhs, rhs, lda, at, ldb, bt, out, dt))
            },
        },
    }
}

/// Records the matrix-by-vector product, for a product of one row or column.
pub fn dense_gemv(
    tape: &mut Tape,
    s: Sizes,
    lhs: &Side,
    rhs: &Side,
    out: &Array,
    dt: Dtype,
) -> (r: Result<(), Error>)
    requires
        lhs@.strides.len() >= 2,
        rhs@.strides.len() >= 2,
        s.fits(),
    ensures
        (final(tape)@, done(r)) == product_outcome(old(tape)@, gemv_s(s, lhs@, rhs@, out@, dt)),
{
    let ln = lhs.strides.len();
    let rn = rhs.strides.len();
    let (lda, a_trans) = match orientation(lhs.strides[ln - 2], lhs.strides[ln - 1], s.m, s.k) {
        Some(p) => p,
        None => {
            return Err(stride_error("mlx gemv: non-contiguous lhs ", lhs.strides, s));
        },
    };
    let (ldb, b_trans) = match orientation(rhs.strides[rn - 2], rhs.strides[rn - 1], s.k, s.n) {
        Some(p) => p,
        None => {
            return Err(stride_error("mlx gemv: non-contiguous rhs ", rhs.strides, s));
        },
    };
    let tag = match dt {
        Dtype::Float32 | Dtype::Float16 | Dtype::Bfloat16 => dt.mlx_name(),
        _ => {
            return Err(Error::Msg(cat2("mlx gemv dtype ", dt.variant_name())));
        },
    };
    let right = s.n != 1;
    let transposed = if right {
        !b_trans
    } else {
        a_trans
    };
    let ld = if right {
        ldb
    } else {
        lda
    };
    let outputs = if right {
        s.n
    } else {
        s.m
    };
    let vec_step = if right {
        batch_stride(lhs, s.k)
    } else {
        batch_stride(rhs, s.k)
    };
    let mat_step = if right {
        batch_stride(rhs, 0)
    } else {
        batch_stride(lhs, 0)
    };
    let t = gemv_tile(transposed, s.k, outputs);
    let name = gemv_kernel(transposed, tag, t);
    let files = vec![MetalFile::DenseGemv];
    let mut d = Dispatch::new(program(name, files, String::new(), Math::SafeNoLang));
    if right {
        d.bind(0, Arg::Input(rhs.buf, rhs.offset));
        d.bind(1, Arg::Input(lhs.buf, lhs.offset));
    } else {
        d.bind(0, Arg::Input(lhs.buf, lhs.offset));
        d.bind(1, Arg::Input(rhs.buf, rhs.offset));
    }
    let shape: Vec<i32> = vec![s.b as i32];
    let vs: Vec<i64> = vec![vec_step as i64];
    let ms: Vec<i64> = vec![mat_step as i64];
    let zs: Vec<i64> = vec![0];
    d.bind(3, Arg::Output(out.buf, 0));
    d.bind(4, Arg::I32(s.k as i32));
    d.bind(5, Arg::I32(outputs as i32));
    d.bind(6, Arg::I32(ld as i32));
    d.bind(7, Arg::Word(0x3f80_0000));
    d.bind(8, Arg::Word(0));
    d.bind(9, Arg::I32(1));
    d.bind(10, Arg::I32s(shape));
    d.bind(11, Arg::I64s(vs));
    d.bind(12, Arg::I64s(ms));
    d.bind(13, Arg::I64s(zs));
    d.bind(14, Arg::I32(1));
    proof {
        assert(t.bn * t.sn <= 16 * 32) by (nonlinear_arith)
            requires
                t.bn <= 16,
                t.sn <= 32,
        ;
        assert(t.bm * t.sm <= 8 * 8) by (nonlinear_arith)
            requires
                t.bm <= 8,
                t.sm <= 8,
        ;
        assert(1 <= t.bn * t.sn) by (nonlinear_arith)
            requires
                t.bn >= 1,
                t.sn >= 1,
        ;
        assert(1 <= t.bm * t.sm) by (nonlinear_arith)
            requires
                t.bm >= 1,
                t.sm >= 1,
        ;
        assert(1 <= t.bn * t.sn * t.tn <= 512 * 4) by (nonlinear_arith)
            requires
                1 <= t.bn * t.sn <= 512,
                1 <= t.tn <= 4,
        ;
        assert(1 <= t.bm * t.sm * t.tm <= 64 * 4) by (nonlinear_arith)
            requires
                1 <= t.bm * t.sm <= 64,
                1 <= t.tm <= 4,
        ;
    }
    let per_group: usize = if transposed {
        t.bn * t.sn * t.tn
    } else {
        t.bm * t.sm * t.tm
    };
    let groups = div_up(outputs, per_group);
    tape.launch(d, Grid::Groups(dim3(groups, 1, s.b), dim3(32, t.bn, t.bm)));
    proof {
        let run = gemv_run(s, lhs@, rhs@, lda, a_trans, ldb, b_trans, out@, dt);
        assert(files@ =~= run.program.source->0.files);
        assert(shape@ =~= seq![s.b as i32]);
        assert(vs@ =~= seq![vec_step as i64]);
        assert(ms@ =~= seq![mat_step as i64]);
        assert(zs@ =~= seq![0i64]);
        assert(d@.args =~= run.args);
    }
    Ok(())
}

// ---- matrix by matrix ----

/// The tile of the matrix product: block rows, columns and depth, and the
/// SIMD groups along rows and columns.
#[derive(Clone, Copy, PartialEq, Eq, Structural, Debug)]
pub struct GemmTile {
    pub bm: usize,
    pub bn: usize,
    pub bk: usize,
    pub wm: usize,
    pub wn: usize,
}

pub open spec fn gemm_tile_of(bm: usize, bn: usize, bk: usize, wm: usize, wn: usize) -> GemmTile {
    GemmTile { bm, bn, bk, wm, wn }
}

/// The tile for a product on a device class.
pub open spec fn gemm_tile_for(
    m: usize,
    n: usize,
    k: usize,
    large: bool,
    dt: Dtype,
    nt: bool,
    device: char,
) -> GemmTile {
    let single = dt == Dtype::Float32;
    let deep = 2 * max_int(m as int, n as int) <= k;
    if m < 16 {
        gemm_tile_of(32, 32, 16, 2, 2)
    } else if device == 's' || device == 'm' || device == 'd' {
        if single {
            if large {
                gemm_tile_of(64, 64, 16, 2, 2)
            } else if nt {
                gemm_tile_of(32, 64, 16, 1, 2)
            } else {
                gemm_tile_of(64, 32, 32, 2, 2)
            }
        } else if large {
            if !deep {
                gemm_tile_of(64, 64, 16, 1, 2)
            } else if nt {
                gemm_tile_of(64, 32, 32, 2, 2)
            } else {
                gemm_tile_of(32, 64, 16, 1, 2)
            }
        } else if nt {
            gemm_tile_of(64, 32, 32, 2, 2)
        } else {
            gemm_tile_of(64, 64, 16, 1, 2)
        }
    } else if nt {
        gemm_tile_of(64, 32, 32, 2, 2)
    } else if single {
        gemm_tile_of(64, 64, 16, 2, 2)
    } else {
        gemm_tile_of(64, 64, 16, 1, 2)
    }
}

fn gemm_tile(
    m: usize,
    n: usize,
    k: usize,
    large: bool,
    dt: Dtype,
    nt: bool,
    device: char,
) -> (t: GemmTile)
    requires
        m * 16 <= usize::MAX,
        n * 16 <= usize::MAX,
    ensures
        t == gemm_tile_for(m, n, k, large, dt, nt, device),
        t.bm >= 32,
        t.bn >= 32,
        t.bk >= 16,
{
    let single = dt == Dtype::Float32;
    if m < 16 {
        return GemmTile { bm: 32, bn: 32, bk: 16, wm: 2, wn: 2 };
    }
    if device == 's' || device == 'm' || device == 'd' {
        if single {
            if large {
                GemmTile { bm: 64, bn: 64, bk: 16, wm: 2, wn: 2 }
            } else if nt {
                GemmTile { bm: 32, bn: 64, bk: 16, wm: 1, wn: 2 }
            } else {
                GemmTile { bm: 64, bn: 32, bk: 32, wm: 2, wn: 2 }
            }
        } else if large {
            if 2 * max_usize(m, n) > k {
                GemmTile { bm: 64, bn: 64, bk: 16, wm: 1, wn: 2 }
            } else if nt {
                GemmTile { bm: 64, bn: 32, bk: 32, wm: 2, wn: 2 }
            } else {
                GemmTile { bm: 32, bn: 64, bk: 16, wm: 1, wn: 2 }
            }
        } else if nt {
            GemmTile { bm: 64, bn: 32, bk: 32, wm: 2, wn: 2 }
        } else {
            GemmTile { bm: 64, bn: 64, bk: 16, wm: 1, wn: 2 }
        }
    } else if nt {
        GemmTile { bm: 64, bn: 32, bk: 32, wm: 2, wn: 2 }
    } else if single {
        GemmTile { bm: 64, bn: 64, bk: 16, wm: 2, wn: 2 }
    } else {
        GemmTile { bm: 64, bn: 64, bk: 16, wm: 1, wn: 2 }
    }
}

/// The parameter block of the matrix products: eight words, the three batch
/// strides, three more words, and filling to a multiple of eight bytes.
pub open spec fn gemm_params(head: Seq<i32>, strides: Seq<i64>, tail: Seq<i32>) -> Seq<u8> {
    le32s(head) + le64s(strides) + le32s(tail) + seq![0u8, 0u8, 0u8, 0u8]
}

pub fn gemm_param_bytes(head: &[i32], strides: &[i64], tail: &[i32]) -> (b: Vec<u8>)
    ensures
        b@ == gemm_params(head@, strides@, tail@),
{
    let mut b: Vec<u8> = Vec::new();
    push_le32s(&mut b, head);
    push_le64s(&mut b, strides);
    push_le32s(&mut b, tail);
    b.push(0);
    b.push(0);
    b.push(0);
    b.push(0);
    assert(b@ =~= gemm_params(head@, strides@, tail@));
    b
}

/// A parameter block has 72 bytes.
pub proof fn gemm_params_len(head: Seq<i32>, strides: Seq<i64>, tail: Seq<i32>)
    requires
        head.len() == 8,
        strides.len() == 3,
        tail.len() == 3,
    ensures
        gemm_params(head, strides, tail).len() == 72,
{
    crate::words::le32s_len(head);
    crate::words::le64s_len(strides);
    crate::words::le32s_len(tail);
}

/// The letters that tell how the sides are stored.
pub open spec fn trans_text(a: bool, b: bool) -> Seq<char> {
    if a {
        if b {
            "tt"@
        } else {
            "tn"@
        }
    } else if b {
        "nt"@
    } else {
        "nn"@
    }
}

/// The tag of a type in the name of the matrix product.
pub open spec fn gemm_tag(d: Dtype) -> Seq<char> {
    match d {
        Dtype::Float32 => "f32"@,
        Dtype::Float16 => "f16"@,
        _ => "bf16"@,
    }
}

/// The name of the matrix product of a tile.
pub open spec fn gemm_name(a: bool, b: bool, dt: Dtype, t: GemmTile) -> Seq<char> {
    "gemm_"@ + trans_text(a, b) + "_"@ + gemm_tag(dt) + "_"@ + gemm_tag(dt) + "_"@ + dec(
        t.bm as nat,
    ) + "_"@ + dec(t.bn as nat) + "_"@ + dec(t.bk as nat) + "_"@ + dec(t.wm as nat) + "_"@ + dec(
        t.wn as nat,
    )
}

fn gemm_kernel(a: bool, b: bool, tag: &str, dt: Dtype, t: GemmTile) -> (s: String)
    requires
        tag@ == gemm_tag(dt),
    ensures
        s@ == gemm_name(a, b, dt, t),
{
    let mut s = cat4(
        "gemm_",
        if a {
            if b {
                "tt"
            } else {
                "tn"
            }
        } else if b {
            "nt"
        } else {
            "nn"
        },
        "_",
        tag,
    );
    s.append("_");
    s.append(tag);
    s.append("_");
    let d = decimal_usize(t.bm);
    s.append(&d);
    s.append("_");
    let d = decimal_usize(t.bn);
    s.append(&d);
    s.append("_");
    let d = decimal_usize(t.bk);
    s.append(&d);
    s.append("_");
    let d = decimal_usize(t.wm);
    s.append(&d);
    s.append("_");
    let d = decimal_usize(t.wn);
    s.append(&d);
    s
}

/// Whether the batches of a product can be stacked into the rows of one: the
/// left side's batches follow each other and the right side is shared.
pub open spec fn stackable(s: Sizes, lhs: SideV, rhs: SideV, a_trans: bool) -> bool {
    s.b > 1 && !a_trans && lhs.batch(s.m * s.k) == s.m * s.k && rhs.batch(0) == 0
}

/// The run of the matrix product.
pub open spec fn gemm_run(
    s: Sizes,
    lhs: SideV,
    rhs: SideV,
    lda: usize,
    a_trans: bool,
    ldb: usize,
    b_trans: bool,
    out: ArrayV,
    dt: Dtype,
    device: char,
) -> DispatchV {
    let stacked = stackable(s, lhs, rhs, a_trans);
    let b = if stacked {
        1
    } else {
        s.b
    };
    let m = if stacked {
        (s.b * s.m) as usize
    } else {
        s.m
    };
    let large = s.b * s.m * s.n >= 1048576;
    let t = gemm_tile_for(m, s.n, s.k, large, dt, !a_trans && b_trans, device);
    let tn = ceil_div(s.n as int, t.bn as int) as usize;
    let tm = ceil_div(m as int, t.bm as int) as usize;
    let sa = if stacked {
        0i64
    } else {
        lhs.batch(s.m * s.k) as usize as i64
    };
    let sb = if stacked {
        0i64
    } else {
        rhs.batch(s.n * s.k) as usize as i64
    };
    DispatchV {
        program: fresh_program(
            gemm_name(a_trans, b_trans, dt, t),
            seq![MetalFile::DenseGemm],
            Seq::empty(),
            Math::SafeNoLang,
            seq![
                (10usize, ConstVal::Bool(b > 1)),
                (100usize, ConstVal::Bool(false)),
                (110usize, ConstVal::Bool(false)),
                (200usize, ConstVal::Bool(m % t.bm == 0)),
                (201usize, ConstVal::Bool(s.n % t.bn == 0)),
                (202usize, ConstVal::Bool(s.k % t.bk == 0)),
                (300usize, ConstVal::Bool(false)),
            ],
        ),
        args: seq![
            (0usize, lhs.arg()),
            (1usize, rhs.arg()),
            (3usize, ArgV::Output(out.buf, 0)),
            (
                4usize,
                ArgV::Bytes(
                    gemm_params(
                        seq![
                            m as i32,
                            s.n as i32,
                            s.k as i32,
                            if stacked {
                                s.k as i32
                            } else {
                                lda as i32
                            },
                            ldb as i32,
                            s.n as i32,
                            tn as i32,
                            tm as i32,
                        ],
                        seq![sa, sb, (m * s.n) as usize as i64],
                        seq![0i32, (s.k / t.bk) as usize as i32, 1i32],
                    ),
                ),
            ),
            (6usize, ArgV::I32(b as i32)),
            (7usize, ArgV::I64s(seq![sa, sb])),
        ],
        grid: Grid::Groups(Dim3 { x: tn, y: tm, z: b }, Dim3 { x: 32, y: t.wn, z: t.wm }),
    }
}

proof fn lemma_blocks_cover(n: int, w: int)
    requires
        n >= 0,
        w >= 1,
    ensures
        0 <= ceil_div(n, w) <= n,
        n <= ceil_div(n, w) * w < n + w,
{
    let q = ceil_div(n, w);
    assert(0 <= q <= n && n <= q * w < n + w) by (nonlinear_arith)
        requires
            n >= 0,
            w >= 1,
            q == (if n % w == 0 {
                n / w
            } else {
                n / w + 1
            }),
    ;
}

/// The groups of a matrix product cover every row and every column of the
/// result, and no group lies wholly outside of it; together with the batches
/// they cover all rows of all products.
pub proof fn tiles_cover_the_product(
    s: Sizes,
    lhs: SideV,
    rhs: SideV,
    lda: usize,
    a_trans: bool,
    ldb: usize,
    b_trans: bool,
    out: ArrayV,
    dt: Dtype,
    device: char,
)
    requires
        s.fits(),
    ensures
        ({
            let m = if stackable(s, lhs, rhs, a_trans) {
                s.b * s.m
            } else {
                s.m as int
            };
            let large = s.b * s.m * s.n >= 1048576;
            let t = gemm_tile_for(
                m as usize,
                s.n,
                s.k,
                large,
                dt,
                !a_trans && b_trans,
                device,
            );
            gemm_run(s, lhs, rhs, lda, a_trans, ldb, b_trans, out, dt, device).grid matches Grid::Groups(
                g,
                _,
            ) && s.n <= g.x * t.bn < s.n + t.bn && m <= g.y * t.bm < m + t.bm && g.z * m == s.b
                * s.m
        }),
{
    let m = if stackable(s, lhs, rhs, a_trans) {
        s.b * s.m
    } else {
        s.m as int
    };
    let large = s.b * s.m * s.n >= 1048576;
    let t = gemm_tile_for(m as usize, s.n, s.k, large, dt, !a_trans && b_trans, device);
    assert(s.b * s.m >= 0) by (nonlinear_arith);
    lemma_blocks_cover(s.n as int, t.bn as int);
    lemma_blocks_cover(m, t.bm as int);
    let z: usize = if stackable(s, lhs, rhs, a_trans) {
        1
    } else {
        s.b
    };
    assert(1 * m == m) by (nonlinear_arith);
    assert(z * m == s.b * s.m);
    assert(gemm_run(s, lhs, rhs, lda, a_trans, ldb, b_trans, out, dt, device).grid == Grid::Groups(
        Dim3 {
            x: ceil_div(s.n as int, t.bn as int) as usize,
            y: ceil_div(m, t.bm as int) as usize,
            z,
        },
        Dim3 { x: 32, y: t.wn, z: t.wm },
    ));
}

/// The device class by which the tiles are chosen.
pub open spec fn device_class(t: TapeV, default: char) -> char {
    match t.device {
        Some(c) => c,
        None => default,
    }
}

/// The device class of a tape.
pub fn device_type(tape: &Tape, default: char) -> (c: char)
    ensures
        c == device_class(tape@, default),
{
    match tape.device {
        Some(c) => c,
        None => default,
    }
}

/// The matrix product; one row or column goes to the matrix-by-vector kernel.
pub open spec fn gemm_s(
    t: TapeV,
    s: Sizes,
    lhs: SideV,
    rhs: SideV,
    out: ArrayV,
    dt: Dtype,
) -> Result<DispatchV, Seq<char>> {
    match orient(lhs.outer(), lhs.inner(), s.m, s.k) {
        None => Err(stride_message("mlx gemm: non-contiguous lhs "@, lhs.strides, s)),
        Some((lda, at)) => match orient(rhs.outer(), rhs.inner(), s.k, s.n) {
            None => Err(stride_message("mlx gemm: non-contiguous rhs "@, rhs.strides, s)),
            Some((ldb, bt)) => if s.m == 1 || s.n == 1 {
                gemv_s(s, lhs, rhs, out, dt)
            } else if !gemm_type(dt) {
                Err("mlx gemm dtype "@ + variant_text(dt))
            } else {
                Ok(gemm_run(s, lhs, rhs, lda, at, ldb, bt, out, dt, device_class(t, 'm')))
            },
        },
    }
}

/// Records the product of two batches of matrices.
pub fn dense_gemm(
    tape: &mut Tape,
    s: Sizes,
    lhs: &Side,
    rhs: &Side,
    out: &Array,
    dt: Dtype,
) -> (r: Result<(), Error>)
    requires
        lhs@.strides.len() >= 2,
        rhs@.strides.len() >= 2,
        s.fits(),
    ensures
        (final(tape)@, done(r)) == product_outcome(
            old(tape)@,
            gemm_s(old(tape)@, s, lhs@, rhs@, out@, dt),
        ),
{
    let ln = lhs.strides.len();
    let rn = rhs.strides.len();
    let (lda, a_trans) = match orientation(lhs.strides[ln - 2], lhs.strides[ln - 1], s.m, s.k) {
        Some(p) => p,
        None => {
            return Err(stride_error("mlx gemm: non-contiguous lhs ", lhs.strides, s));
        },
    };
    let (ldb, b_trans) = match orientation(rhs.strides[rn - 2], rhs.strides[rn - 1], s.k, s.n) {
        Some(p) => p,
        None => {
            return Err(stride_error("mlx gemm: non-contiguous rhs ", rhs.strides, s));
        },
    };
    if s.m == 1 || s.n == 1 {
        return dense_gemv(tape, s, lhs, rhs, out, dt);
    }
    let stacked = s.b > 1 && !a_trans && batch_stride(lhs, s.m * s.k) == s.m * s.k && batch_stride(
        rhs,
        0,
    ) == 0;
    let b = if stacked {
        1
    } else {
        s.b
    };
    let m = if stacked {
        s.b * s.m
    } else {
        s.m
    };
    proof {
        assert(s.b * s.m * s.n == (s.b * s.m) * s.n) by (nonlinear_arith);
    }
    let total: usize = s.b * s.m * s.n;
    let large = total >= 1048576;
    let device = device_type(tape, 'm');
    let t = gemm_tile(m, s.n, s.k, large, dt, !a_trans && b_trans, device);
    let tag = match dt {
        Dtype::Float32 => "f32",
        Dtype::Float16 => "f16",
        Dtype::Bfloat16 => "bf16",
        _ => {
            return Err(Error::Msg(cat2("mlx gemm dtype ", dt.variant_name())));
        },
    };
    let tn = div_up(s.n, t.bn);
    let tm = div_up(m, t.bm);
    let sa: i64 = if stacked {
        0
    } else {
        batch_stride(lhs, s.m * s.k) as i64
    };
    let sb: i64 = if stacked {
        0
    } else {
        batch_stride(rhs, s.n * s.k) as i64
    };
    let name = gemm_kernel(a_trans, b_trans, tag, dt, t);
    let head: Vec<i32> = vec![
        m as i32,
        s.n as i32,
        s.k as i32,
        if stacked {
            s.k as i32
        } else {
            lda as i32
        },
        ldb as i32,
        s.n as i32,
        tn as i32,
        tm as i32,
    ];
    let strides: Vec<i64> = vec![sa, sb, (m * s.n) as i64];
    let tail: Vec<i32> = vec![0, (s.k / t.bk) as i32, 1];
    let params = gemm_param_bytes(&head, &strides, &tail);
    let pair: Vec<i64> = vec![sa, sb];
    let files = vec![MetalFile::DenseGemm];
    let mut p = program(name, files, String::new(), Math::SafeNoLang);
    p.consts = vec![
        (10, ConstVal::Bool(b > 1)),
        (100, ConstVal::Bool(false)),
        (110, ConstVal::Bool(false)),
        (200, ConstVal::Bool(m % t.bm == 0)),
        (201, ConstVal::Bool(s.n % t.bn == 0)),
        (202, ConstVal::Bool(s.k % t.bk == 0)),
        (300, ConstVal::Bool(false)),
    ];
    let mut d = Dispatch::new(p);
    d.bind(0, Arg::Input(lhs.buf, lhs.offset));
    d.bind(1, Arg::Input(rhs.buf, rhs.offset));
    d.bind(3, Arg::Output(out.buf, 0));
    d.bind(4, Arg::Bytes(params));
    d.bind(6, Arg::I32(b as i32));
    d.bind(7, Arg::I64s(pair));
    tape.launch(d, Grid::Groups(dim3(tn, tm, b), dim3(32, t.wn, t.wm)));
    proof {
        let run = gemm_run(s, lhs@, rhs@, lda, a_trans, ldb, b_trans, out@, dt, device);
        assert(files@ =~= run.program.source->0.files);
        assert(p@.consts =~= run.program.consts);
        assert(pair@ =~= seq![sa, sb]);
        assert(strides@ =~= seq![sa, sb, (m * s.n) as usize as i64]);
        assert(tail@ =~= seq![0i32, (s.k / t.bk) as usize as i32, 1i32]);
        assert(head@ =~= seq![
            m as i32,
            s.n as i32,
            s.k as i32,
            if stacked {
                s.k as i32
            } else {
                lda as i32
            },
            ldb as i32,
            s.n as i32,
            tn as i32,
            tm as i32,
        ]);
        assert(d@.args =~= run.args);
    }
    Ok(())
}

} // verus!
