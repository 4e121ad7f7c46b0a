//! The command tape: what an operation asks of the device, in order.
//!
//! Operations do not touch a device. They append commands to a [`Tape`]; the
//! device side takes the commands off the tape and carries them out. What the
//! device alone can know, the thread limit of a compiled pipeline, enters in
//! [`Grid::resolve`].

use vstd::prelude::*;

use crate::dtype::Dtype;
use crate::error::Error;
use crate::text::{cat5, dec, decimal_usize};

verus! {

// ---- programs ----

/// How a program is compiled.
#[derive(Clone, Copy, PartialEq, Eq, Structural, Debug)]
pub enum Math {
    Jit,
    Safe,
    SafeNoLang,
    Fast,
}

/// The value of a function constant.
#[derive(Clone, Copy, PartialEq, Eq, Structural, Debug)]
pub enum ConstVal {
    Bool(bool),
    Int(i32),
}

/// The Metal files that generated programs are assembled from.
#[derive(Clone, Copy, PartialEq, Eq, Structural, Debug)]
pub enum MetalFile {
    Utils,
    Gemm,
    QuantizedUtils,
    Quantized,
    UnaryOps,
    Unary,
    BinaryOps,
    Binary,
    Softmax,
    ReduceUtils,
    Reduce,
    Sort,
    RmsNorm,
    Rope,
    SdpaVector,
    ScatterAxis,
    ArgReduce,
    NaxGemm,
    NaxQuant,
    NaxAttn,
    DenseGemm,
    DenseGemv,
    ElementwiseBinary,
    Cast,
    Select,
    Indexing,
    CopyGg,
    Copy2Strided,
    CopyStrided,
}

impl MetalFile {
    /// The file's path below the kernel directory.
    pub fn path(self) -> (s: &'static str)
        ensures
            s@ == file_path(self),
    {
        match self {
            MetalFile::Utils => "common/utils.metal",
            MetalFile::Gemm => "common/gemm.metal",
            MetalFile::QuantizedUtils => "common/quantized_utils.metal",
            MetalFile::Quantized => "common/quantized.metal",
            MetalFile::UnaryOps => "common/unary_ops.metal",
            MetalFile::Unary => "common/unary.metal",
            MetalFile::BinaryOps => "common/binary_ops.metal",
            MetalFile::Binary => "common/binary.metal",
            MetalFile::Softmax => "common/softmax.metal",
            MetalFile::ReduceUtils => "common/reduce_utils.metal",
            MetalFile::Reduce => "common/reduce.metal",
            MetalFile::Sort => "common/sort.metal",
            MetalFile::RmsNorm => "common/rms_norm.metal",
            MetalFile::Rope => "common/rope.metal",
            MetalFile::SdpaVector => "common/sdpa_vector.metal",
            MetalFile::ScatterAxis => "common/scatter_axis.metal",
            MetalFile::ArgReduce => "common/arg_reduce.metal",
            MetalFile::NaxGemm => "nax/gemm_header.metal",
            MetalFile::NaxQuant => "nax/quant_header.metal",
            MetalFile::NaxAttn => "nax/attn_header.metal",
            MetalFile::DenseGemm => "common/dense_gemm.metal",
            MetalFile::DenseGemv => "common/dense_gemv.metal",
            MetalFile::ElementwiseBinary => "common/elementwise_binary.metal",
            MetalFile::Cast => "common/cast.metal",
            MetalFile::Select => "common/select.metal",
            MetalFile::Indexing => "common/indexing.metal",
            MetalFile::CopyGg => "common/copy_gg.metal",
            MetalFile::Copy2Strided => "common/copy2_strided.metal",
            MetalFile::CopyStrided => "common/copy_strided.metal",
        }
    }
}

/// The path of a Metal file below the kernel directory.
pub open spec fn file_path(f: MetalFile) -> Seq<char> {
    match f {
        MetalFile::Utils => "common/utils.metal"@,
        MetalFile::Gemm => "common/gemm.metal"@,
        MetalFile::QuantizedUtils => "common/quantized_utils.metal"@,
        MetalFile::Quantized => "common/quantized.metal"@,
        MetalFile::UnaryOps => "common/unary_ops.metal"@,
        MetalFile::Unary => "common/unary.metal"@,
        MetalFile::BinaryOps => "common/binary_ops.metal"@,
        MetalFile::Binary => "common/binary.metal"@,
        MetalFile::Softmax => "common/softmax.metal"@,
        MetalFile::ReduceUtils => "common/reduce_utils.metal"@,
        MetalFile::Reduce => "common/reduce.metal"@,
        MetalFile::Sort => "common/sort.metal"@,
        MetalFile::RmsNorm => "common/rms_norm.metal"@,
        MetalFile::Rope => "common/rope.metal"@,
        MetalFile::SdpaVector => "common/sdpa_vector.metal"@,
        MetalFile::ScatterAxis => "common/scatter_axis.metal"@,
        MetalFile::ArgReduce => "common/arg_reduce.metal"@,
        MetalFile::NaxGemm => "nax/gemm_header.metal"@,
        MetalFile::NaxQuant => "nax/quant_header.metal"@,
        MetalFile::NaxAttn => "nax/attn_header.metal"@,
        MetalFile::DenseGemm => "common/dense_gemm.metal"@,
        MetalFile::DenseGemv => "common/dense_gemv.metal"@,
        MetalFile::ElementwiseBinary => "common/elementwise_binary.metal"@,
        MetalFile::Cast => "common/cast.metal"@,
        MetalFile::Select => "common/select.metal"@,
        MetalFile::Indexing => "common/indexing.metal"@,
        MetalFile::CopyGg => "common/copy_gg.metal"@,
        MetalFile::Copy2Strided => "common/copy2_strided.metal"@,
        MetalFile::CopyStrided => "common/copy_strided.metal"@,
    }
}

/// A program text: the named files in order, then the generated text.
pub struct Source {
    pub files: Vec<MetalFile>,
    pub text: String,
}

/// The view of a program text.
#[verifier::ext_equal]
pub ghost struct SourceV {
    pub files: Seq<MetalFile>,
    pub text: Seq<char>,
}

impl View for Source {
    type V = SourceV;

    open spec fn view(&self) -> SourceV {
        SourceV { files: self.files@, text: self.text@ }
    }
}

/// A kernel to run: its name, the text it is compiled from (none when the
/// device has compiled it before), and how.
pub struct Program {
    /// Who the program belongs to, in messages.
    pub owner: String,
    pub name: String,
    pub source: Option<Source>,
    pub math: Math,
    pub consts: Vec<(usize, ConstVal)>,
}

/// The view of a program.
#[verifier::ext_equal]
pub ghost struct ProgramV {
    pub owner: Seq<char>,
    pub name: Seq<char>,
    pub source: Option<SourceV>,
    pub math: Math,
    pub consts: Seq<(usize, ConstVal)>,
}

impl View for Program {
    type V = ProgramV;

    open spec fn view(&self) -> ProgramV {
        ProgramV {
            owner: self.owner@,
            name: self.name@,
            source: match self.source {
                Some(s) => Some(s@),
                None => None,
            },
            math: self.math,
            consts: self.consts@,
        }
    }
}

// ---- arguments ----

/// What is bound to one argument slot of a kernel. Buffers are bound at a byte
/// offset; a `Word` is the bit pattern of a 32-bit float.
pub enum Arg {
    Input(u64, usize),
    Output(u64, usize),
    I32(i32),
    I64(i64),
    U32(u32),
    Size(usize),
    Flag(bool),
    Word(u32),
    I32s(Vec<i32>),
    I64s(Vec<i64>),
    U32s(Vec<u32>),
    U64s(Vec<u64>),
    Bytes(Vec<u8>),
}

/// The view of an argument.
#[verifier::ext_equal]
pub ghost enum ArgV {
    Input(u64, usize),
    Output(u64, usize),
    I32(i32),
    I64(i64),
    U32(u32),
    Size(usize),
    Flag(bool),
    Word(u32),
    I32s(Seq<i32>),
    I64s(Seq<i64>),
    U32s(Seq<u32>),
    U64s(Seq<u64>),
    Bytes(Seq<u8>),
}

impl View for Arg {
    type V = ArgV;

    open spec fn view(&self) -> ArgV {
        match self {
            Arg::Input(b, o) => ArgV::Input(*b, *o),
            Arg::Output(b, o) => ArgV::Output(*b, *o),
            Arg::I32(v) => ArgV::I32(*v),
            Arg::I64(v) => ArgV::I64(*v),
            Arg::U32(v) => ArgV::U32(*v),
            Arg::Size(v) => ArgV::Size(*v),
            Arg::Flag(v) => ArgV::Flag(*v),
            Arg::Word(v) => ArgV::Word(*v),
            Arg::I32s(v) => ArgV::I32s(v@),
            Arg::I64s(v) => ArgV::I64s(v@),
            Arg::U32s(v) => ArgV::U32s(v@),
            Arg::U64s(v) => ArgV::U64s(v@),
            Arg::Bytes(v) => ArgV::Bytes(v@),
        }
    }
}

// ---- launch geometry ----

/// Three extents.
#[derive(Clone, Copy, PartialEq, Eq, Structural, Debug)]
pub struct Dim3 {
    pub x: usize,
    pub y: usize,
    pub z: usize,
}

/// Three extents.
pub fn dim3(x: usize, y: usize, z: usize) -> (d: Dim3)
    ensures
        d == (Dim3 { x, y, z }),
{
    Dim3 { x, y, z }
}

/// A launch: the grid, in threads or in thread groups, and the group size.
#[derive(Clone, Copy, PartialEq, Eq, Structural, Debug)]
pub struct Run {
    pub in_threads: bool,
    pub grid: Dim3,
    pub group: Dim3,
}

/// A launch geometry, up to the thread limit of the compiled pipeline.
#[derive(Clone, Copy, PartialEq, Eq, Structural, Debug)]
pub enum Grid {
    /// So many threads, in groups of a fixed size.
    Threads(Dim3, Dim3),
    /// So many groups of a fixed size.
    Groups(Dim3, Dim3),
    /// A line of threads in groups as large as the limit allows.
    Line(usize),
    /// The given threads, in groups of the wanted width as far as the limit
    /// allows.
    Capped(Dim3, usize),
    /// A line of work items cut into groups as large as the limit allows.
    Split(usize),
    /// Rows of the given width, cut to the limit, stacked to the height and depth.
    Rows(usize, usize, usize),
    /// So many rows, each one group of as many threads as the limit allows.
    FullRows(usize),
    /// Rows of the given width, cut to the limit and then filled up to whole
    /// SIMD groups, stacked to the height and depth.
    SimdRows(usize, usize, usize),
    /// Groups of up to 32 columns over so many blocks, and of up to eight rows.
    Columns(usize, usize),
    /// Threads in groups that may not exceed the limit: the grid, the group
    /// (each extent cut to the grid's) and the threads a whole group has.
    Checked(Dim3, Dim3, usize),
}

/// The quotient, rounded up.
pub open spec fn ceil_div(a: int, b: int) -> int {
    if a % b == 0 {
        a / b
    } else {
        a / b + 1
    }
}

pub open spec fn min_int(a: int, b: int) -> int {
    if a <= b {
        a
    } else {
        b
    }
}

pub open spec fn max_int(a: int, b: int) -> int {
    if a >= b {
        a
    } else {
        b
    }
}

/// The quotient, rounded up.
pub fn div_up(a: usize, b: usize) -> (q: usize)
    requires
        b > 0,
    ensures
        q == ceil_div(a as int, b as int),
        q <= a,
        a > 0 ==> q > 0,
        q * b >= a,
{
    let q: usize = a / b;
    let r: usize = a % b;
    proof {
        assert(a == b * (a / b) + a % b) by (nonlinear_arith)
            requires
                b > 0,
        ;
        assert(q <= b * q) by (nonlinear_arith)
            requires
                b >= 1,
        ;
        assert(r < b) by (nonlinear_arith)
            requires
                r == a % b,
                b > 0,
        ;
        assert((q + 1) * b == q * b + b) by (nonlinear_arith);
        assert(q * b == b * q) by (nonlinear_arith);
    }
    if r == 0 {
        q
    } else {
        q + 1
    }
}

pub fn min_usize(a: usize, b: usize) -> (r: usize)
    ensures
        r == min_int(a as int, b as int),
{
    if a <= b {
        a
    } else {
        b
    }
}

pub fn max_usize(a: usize, b: usize) -> (r: usize)
    ensures
        r == max_int(a as int, b as int),
{
    if a >= b {
        a
    } else {
        b
    }
}

impl Grid {
    /// The geometry can be worked out for a pipeline with this thread limit.
    pub open spec fn fits(self, limit: usize) -> bool {
        match self {
            Grid::FullRows(rows) => rows * limit <= usize::MAX,
            Grid::SimdRows(w, _, _) => w <= usize::MAX - 31,
            Grid::Columns(blocks, _) => blocks > 0,
            _ => true,
        }
    }

    /// The launch on a pipeline with this thread limit; none when the geometry
    /// asks for a group beyond it.
    pub open spec fn on(self, limit: usize) -> Option<Run> {
        match self {
            Grid::Threads(grid, group) => Some(Run { in_threads: true, grid, group }),
            Grid::Groups(grid, group) => Some(Run { in_threads: false, grid, group }),
            Grid::Line(n) => Some(
                Run {
                    in_threads: true,
                    grid: Dim3 { x: n, y: 1, z: 1 },
                    group: Dim3 {
                        x: max_int(min_int(limit as int, n as int), 1) as usize,
                        y: 1,
                        z: 1,
                    },
                },
            ),
            Grid::Capped(grid, want) => Some(
                Run {
                    in_threads: true,
                    grid,
                    group: Dim3 {
                        x: max_int(min_int(limit as int, want as int), 1) as usize,
                        y: 1,
                        z: 1,
                    },
                },
            ),
            Grid::Split(n) => {
                let w = max_int(min_int(limit as int, n as int), 1);
                Some(
                    Run {
                        in_threads: false,
                        grid: Dim3 { x: ceil_div(n as int, w) as usize, y: 1, z: 1 },
                        group: Dim3 { x: w as usize, y: 1, z: 1 },
                    },
                )
            },
            Grid::Rows(w, y, z) => {
                let t = max_int(min_int(w as int, limit as int), 1) as usize;
                Some(
                    Run {
                        in_threads: true,
                        grid: Dim3 { x: t, y, z },
                        group: Dim3 { x: t, y: 1, z: 1 },
                    },
                )
            },
            Grid::FullRows(rows) => Some(
                Run {
                    in_threads: true,
                    grid: Dim3 { x: (rows * limit) as usize, y: 1, z: 1 },
                    group: Dim3 { x: limit, y: 1, z: 1 },
                },
            ),
            Grid::SimdRows(w, y, z) => {
                let t = (ceil_div(min_int(w as int, limit as int), 32) * 32) as usize;
                Some(
                    Run {
                        in_threads: true,
                        grid: Dim3 { x: t, y, z },
                        group: Dim3 { x: t, y: 1, z: 1 },
                    },
                )
            },
            Grid::Columns(blocks, rows) => {
                let tx = min_int(blocks as int, 32);
                let ty = min_int(min_int(8, limit as int / tx), rows as int);
                Some(
                    Run {
                        in_threads: false,
                        grid: Dim3 { x: ceil_div(blocks as int, tx) as usize, y: 1, z: 1 },
                        group: Dim3 { x: tx as usize, y: ty as usize, z: 1 },
                    },
                )
            },
            Grid::Checked(grid, group, size) => if size > limit {
                None
            } else {
                Some(Run { in_threads: true, grid, group })
            },
        }
    }

    /// The launch on a pipeline with the given thread limit. `name` is the
    /// kernel's, for the message when a group is too large.
    pub fn resolve(self, limit: usize, name: &str) -> (r: Result<Run, Error>)
        requires
            self.fits(limit),
        ensures
            r is Ok <==> self.on(limit) is Some,
            r matches Ok(run) ==> self.on(limit) == Some(run),
            r matches Err(e) ==> (self matches Grid::Checked(_, _, size) && e.text() == "kernel "@
                + name@ + ": thread group size "@ + dec(size as nat) + (" exceeds max "@ + dec(
                limit as nat,
            ))),
    {
        match self {
            Grid::Threads(grid, group) => Ok(Run { in_threads: true, grid, group }),
            Grid::Groups(grid, group) => Ok(Run { in_threads: false, grid, group }),
            Grid::Line(n) => {
                let t = max_usize(min_usize(limit, n), 1);
                Ok(Run { in_threads: true, grid: dim3(n, 1, 1), group: dim3(t, 1, 1) })
            },
            Grid::Capped(grid, want) => {
                let t = max_usize(min_usize(limit, want), 1);
                Ok(Run { in_threads: true, grid, group: dim3(t, 1, 1) })
            },
            Grid::Split(n) => {
                let w = max_usize(min_usize(limit, n), 1);
                Ok(Run { in_threads: false, grid: dim3(div_up(n, w), 1, 1), group: dim3(w, 1, 1) })
            },
            Grid::Rows(w, y, z) => {
                let t = max_usize(min_usize(w, limit), 1);
                Ok(Run { in_threads: true, grid: dim3(t, y, z), group: dim3(t, 1, 1) })
            },
            Grid::FullRows(rows) => Ok(
                Run {
                    in_threads: true,
                    grid: dim3(rows * limit, 1, 1),
                    group: dim3(limit, 1, 1),
                },
            ),
            Grid::SimdRows(w, y, z) => {
                let m = min_usize(w, limit);
                let t: usize = div_up(m, 32) * 32;
                Ok(Run { in_threads: true, grid: dim3(t, y, z), group: dim3(t, 1, 1) })
            },
            Grid::Columns(blocks, rows) => {
                let tx = min_usize(blocks, 32);
                let ty = min_usize(min_usize(8, limit / tx), rows);
                Ok(
                    Run {
                        in_threads: false,
                        grid: dim3(div_up(blocks, tx), 1, 1),
                        group: dim3(tx, ty, 1),
                    },
                )
            },
            Grid::Checked(grid, group, size) => {
                if size > limit {
                    let n = decimal_usize(size);
                    let m = decimal_usize(limit);
                    let tail = crate::text::cat2(" exceeds max ", &m);
                    Err(Error::Msg(cat5("kernel ", name, ": thread group size ", &n, &tail)))
                } else {
                    Ok(Run { in_threads: true, grid, group })
                }
            },
        }
    }
}

/// A split covers every work item, and no group is larger than the limit
/// unless the limit is zero.
pub proof fn split_covers(n: usize, limit: usize)
    requires
        limit > 0,
    ensures
        Grid::Split(n).on(limit) matches Some(run) && run.grid.x * run.group.x >= n && run.group.x
            <= limit,
{
    let w = max_int(min_int(limit as int, n as int), 1);
    let q = ceil_div(n as int, w);
    assert(q * w >= n && 0 <= q <= n) by (nonlinear_arith)
        requires
            w >= 1,
            q == (if n as int % w == 0 {
                n as int / w
            } else {
                n as int / w + 1
            }),
    ;
}

// ---- commands ----

/// One run of a kernel.
pub struct Dispatch {
    pub program: Program,
    pub args: Vec<(usize, Arg)>,
    pub grid: Grid,
}

/// The views of a list of bound arguments.
pub open spec fn arg_views(v: Seq<(usize, Arg)>) -> Seq<(usize, ArgV)> {
    v.map_values(|p: (usize, Arg)| (p.0, p.1@))
}

/// The view of a run of a kernel.
#[verifier::ext_equal]
pub ghost struct DispatchV {
    pub program: ProgramV,
    pub args: Seq<(usize, ArgV)>,
    pub grid: Grid,
}

impl View for Dispatch {
    type V = DispatchV;

    open spec fn view(&self) -> DispatchV {
        DispatchV { program: self.program@, args: arg_views(self.args@), grid: self.grid }
    }
}

/// A number that the device side works out in floating point.
#[derive(Clone, Copy, PartialEq, Eq, Structural, Debug)]
pub enum Scalar {
    /// The 32-bit float with these bits.
    Bits(u32),
    /// One divided by the count, in 32-bit floating point.
    Reciprocal(usize),
}

/// One step on the device.
pub enum Cmd {
    /// Make a buffer of so many bytes.
    Alloc(u64, usize, &'static str),
    /// Clear a buffer.
    Zero(u64),
    /// Put bytes at the start of a buffer.
    Write(u64, Vec<u8>),
    /// Put a number, rounded to the type, into the first so many elements.
    Fill(u64, Dtype, Scalar, usize),
    /// Wait for everything before.
    Sync,
    /// Copy rows: from a buffer at a byte offset to the start of another, so
    /// many rows of so many bytes, the target's rows further apart.
    CopyRows(u64, usize, u64, usize, usize, usize),
    /// Convert so many elements, on the host: from a buffer at a byte offset
    /// and a type to the start of another and its type.
    HostCast(u64, usize, Dtype, u64, Dtype, usize),
    /// Run a kernel.
    Launch(Dispatch),
}

/// The view of a step on the device.
#[verifier::ext_equal]
pub ghost enum CmdV {
    Alloc(u64, usize, Seq<char>),
    Zero(u64),
    Write(u64, Seq<u8>),
    Fill(u64, Dtype, Scalar, usize),
    Sync,
    CopyRows(u64, usize, u64, usize, usize, usize),
    HostCast(u64, usize, Dtype, u64, Dtype, usize),
    Launch(DispatchV),
}

impl View for Cmd {
    type V = CmdV;

    open spec fn view(&self) -> CmdV {
        match self {
            Cmd::Alloc(b, n, l) => CmdV::Alloc(*b, *n, l@),
            Cmd::Zero(b) => CmdV::Zero(*b),
            Cmd::Write(b, v) => CmdV::Write(*b, v@),
            Cmd::Fill(b, d, s, n) => CmdV::Fill(*b, *d, *s, *n),
            Cmd::Sync => CmdV::Sync,
            Cmd::CopyRows(a, b, c, d, e, f) => CmdV::CopyRows(*a, *b, *c, *d, *e, *f),
            Cmd::HostCast(a, b, c, d, e, f) => CmdV::HostCast(*a, *b, *c, *d, *e, *f),
            Cmd::Launch(d) => CmdV::Launch(d@),
        }
    }
}

/// The views of a list of commands.
pub open spec fn cmd_views(v: Seq<Cmd>) -> Seq<CmdV> {
    v.map_values(|c: Cmd| c@)
}

/// The commands recorded so far, the number of the next buffer, and the class
/// of the device: the last letter of its architecture's name, if it has one.
pub struct Tape {
    pub next: u64,
    pub device: Option<char>,
    /// Custom kernels only make their outputs, to time everything else.
    pub idle: bool,
    pub cmds: Vec<Cmd>,
}

/// The view of a tape.
#[verifier::ext_equal]
pub ghost struct TapeV {
    pub next: u64,
    pub device: Option<char>,
    pub idle: bool,
    pub cmds: Seq<CmdV>,
}

impl View for Tape {
    type V = TapeV;

    open spec fn view(&self) -> TapeV {
        TapeV {
            next: self.next,
            device: self.device,
            idle: self.idle,
            cmds: cmd_views(self.cmds@),
        }
    }
}

impl TapeV {
    /// The tape with one more command.
    pub open spec fn then_do(self, c: CmdV) -> TapeV {
        TapeV { cmds: self.cmds.push(c), ..self }
    }

    /// The tape after making a buffer; the buffer's number is `self.next`.
    pub open spec fn then_alloc(self, bytes: usize, label: Seq<char>) -> TapeV {
        TapeV {
            next: self.next.wrapping_add(1),
            cmds: self.cmds.push(CmdV::Alloc(self.next, bytes, label)),
            ..self
        }
    }
}

/// A program that is compiled from generated text.
pub open spec fn fresh_program(
    name: Seq<char>,
    files: Seq<MetalFile>,
    text: Seq<char>,
    math: Math,
    consts: Seq<(usize, ConstVal)>,
) -> ProgramV {
    ProgramV {
        owner: Seq::empty(),
        name,
        source: Some(SourceV { files, text }),
        math,
        consts,
    }
}

/// A program that is compiled from generated text.
pub fn program(name: String, files: Vec<MetalFile>, text: String, math: Math) -> (p: Program)
    ensures
        p@ == fresh_program(name@, files@, text@, math, Seq::empty()),
{
    let p = Program {
        owner: String::new(),
        name,
        source: Some(Source { files, text }),
        math,
        consts: Vec::new(),
    };
    assert(p@.consts =~= Seq::empty());
    p
}

/// A program that is compiled from generated text with function constants.
pub fn program_with(
    name: String,
    source: Source,
    math: Math,
    consts: Vec<(usize, ConstVal)>,
) -> (p: Program)
    ensures
        p@ == fresh_program(name@, source@.files, source@.text, math, consts@),
{
    Program { owner: String::new(), name, source: Some(source), math, consts }
}

impl Dispatch {
    /// A run of the program with nothing bound yet.
    pub fn new(program: Program) -> (d: Dispatch)
        ensures
            d@ == (DispatchV {
                program: program@,
                args: Seq::empty(),
                grid: Grid::Line(0),
            }),
    {
        let d = Dispatch { program, args: Vec::new(), grid: Grid::Line(0) };
        assert(d@.args =~= Seq::empty());
        d
    }

    /// Binds an argument.
    pub fn bind(&mut self, slot: usize, arg: Arg)
        ensures
            final(self)@ == (DispatchV { args: old(self)@.args.push((slot, arg@)), ..old(self)@ }),
    {
        self.args.push((slot, arg));
        assert(arg_views(self.args@) =~= arg_views(old(self).args@).push((slot, arg@)));
    }
}

impl Tape {
    /// An empty tape for a device of the class.
    pub fn new(device: Option<char>, idle: bool) -> (t: Tape)
        ensures
            t@ == (TapeV { next: 0, device, idle, cmds: Seq::empty() }),
    {
        let t = Tape { next: 0, device, idle, cmds: Vec::new() };
        assert(t@.cmds =~= Seq::empty());
        t
    }

    /// Appends a command.
    pub fn record(&mut self, c: Cmd)
        ensures
            final(self)@ == old(self)@.then_do(c@),
    {
        self.cmds.push(c);
        assert(cmd_views(self.cmds@) =~= cmd_views(old(self).cmds@).push(c@));
    }

    /// Appends the making of a buffer and returns its number.
    pub fn reserve(&mut self, bytes: usize, label: &'static str) -> (b: u64)
        ensures
            b == old(self)@.next,
            final(self)@ == old(self)@.then_alloc(bytes, label@),
    {
        let b = self.next;
        self.next = self.next.wrapping_add(1);
        self.cmds.push(Cmd::Alloc(b, bytes, label));
        assert(cmd_views(self.cmds@) =~= cmd_views(old(self).cmds@).push(
            CmdV::Alloc(b, bytes, label@),
        ));
        b
    }

    /// Appends a run of a kernel with the given geometry.
    pub fn launch(&mut self, d: Dispatch, grid: Grid)
        ensures
            final(self)@ == old(self)@.then_do(CmdV::Launch(DispatchV { grid, ..d@ })),
    {
        let full = Dispatch { program: d.program, args: d.args, grid };
        self.record(Cmd::Launch(full));
    }

    /// Takes the recorded commands off the tape.
    pub fn drain(&mut self) -> (v: Vec<Cmd>)
        ensures
            cmd_views(v@) == old(self)@.cmds,
            final(self)@ == (TapeV { cmds: Seq::empty(), ..old(self)@ }),
    {
        let mut taken: Vec<Cmd> = Vec::new();
        std::mem::swap(&mut taken, &mut self.cmds);
        assert(self@.cmds =~= Seq::empty());
        taken
    }
}

} // verus!
