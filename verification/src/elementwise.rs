//! Operations of two and three operands, conversions and constants.

use vstd::prelude::*;

use crate::array::{
    broadcast_to_s, contiguous_s, err, fresh, lemma_roomy, lifted, roomy, same_sizes, seen,
    with_room, zeros_tape, Array, ArrayV, Outcome,
};
use crate::dtype::{variant_text, width, Dtype};
use crate::error::Error;
use crate::layout::{lemma_numel_one, numel, product, volume};
use crate::tape::{
    ceil_div, div_up, fresh_program, max_int, max_usize, program, Arg, ArgV, Cmd, CmdV, ConstVal,
    Dispatch, DispatchV, Grid, Math, MetalFile, Scalar, Tape, TapeV,
};
use crate::text::{cat2, cat4, cat5, dec_list, size_list};
use crate::words::{to_u64s, u64_words};

verus! {

// ---- the common shape of two operands ----

/// The size of an axis counted from the right, in a shape of `n` axes; an axis
/// that is not there has size one.
pub open spec fn aligned(s: Seq<usize>, n: int, i: int) -> usize {
    if i + s.len() >= n {
        s[i + s.len() - n]
    } else {
        1
    }
}

/// The size of one axis of the common shape.
pub open spec fn common(a: usize, b: usize) -> usize {
    if a == 1 {
        b
    } else {
        a
    }
}

/// The axes of two shapes are equal or one of them has size one.
pub open spec fn compatible(a: Seq<usize>, b: Seq<usize>) -> bool {
    let n = max_int(a.len() as int, b.len() as int);
    forall|i: int|
        0 <= i < n ==> #[trigger] aligned(a, n, i) == aligned(b, n, i) || aligned(a, n, i) == 1
            || aligned(b, n, i) == 1
}

/// The common shape of two compatible shapes, aligned at the right.
pub open spec fn broadcasted(a: Seq<usize>, b: Seq<usize>) -> Seq<usize> {
    let n = max_int(a.len() as int, b.len() as int);
    Seq::new(n as nat, |i: int| common(aligned(a, n, i), aligned(b, n, i)))
}

/// The common shape of two shapes.
pub fn broadcast_shape(a: &[usize], b: &[usize]) -> (r: Result<Vec<usize>, Error>)
    ensures
        r is Ok <==> compatible(a@, b@),
        r matches Ok(s) ==> s@ == broadcasted(a@, b@),
        r matches Err(e) ==> e.text() == "broadcast: "@ + dec_list(a@) + " vs "@ + dec_list(b@),
{
    let n = max_usize(a.len(), b.len());
    let mut out: Vec<usize> = Vec::new();
    let mut i: usize = 0;
    while i < n
        invariant
            i <= n,
            n == max_int(a@.len() as int, b@.len() as int),
            out@ == broadcasted(a@, b@).take(i as int),
            forall|k: int|
                0 <= k < i ==> #[trigger] aligned(a@, n as int, k) == aligned(b@, n as int, k)
                    || aligned(a@, n as int, k) == 1 || aligned(b@, n as int, k) == 1,
        decreases n - i,
    {
        let da = if i >= n - a.len() {
            a[i - (n - a.len())]
        } else {
            1
        };
        let db = if i >= n - b.len() {
            b[i - (n - b.len())]
        } else {
            1
        };
        assert(da == aligned(a@, n as int, i as int));
        assert(db == aligned(b@, n as int, i as int));
        if da == db {
            out.push(da);
        } else if da == 1 {
            out.push(db);
        } else if db == 1 {
            out.push(da);
        } else {
            assert(!compatible(a@, b@));
            let x = size_list(a);
            let y = size_list(b);
            return Err(Error::Msg(cat4("broadcast: ", &x, " vs ", &y)));
        }
        i += 1;
        assert(out@ =~= broadcasted(a@, b@).take(i as int));
    }
    assert(out@ =~= broadcasted(a@, b@));
    Ok(out)
}

/// The common shape does not depend on the order of the operands.
pub proof fn broadcasting_commutes(a: Seq<usize>, b: Seq<usize>)
    ensures
        compatible(a, b) == compatible(b, a),
        compatible(a, b) ==> broadcasted(a, b) == broadcasted(b, a),
{
    let n = max_int(a.len() as int, b.len() as int);
    assert(max_int(b.len() as int, a.len() as int) == n);
    if compatible(a, b) {
        assert forall|i: int| 0 <= i < n implies #[trigger] aligned(b, n, i) == aligned(a, n, i)
            || aligned(b, n, i) == 1 || aligned(a, n, i) == 1 by {
            assert(aligned(a, n, i) == aligned(b, n, i) || aligned(a, n, i) == 1 || aligned(b, n, i)
                == 1);
        }
        assert forall|i: int| 0 <= i < n implies broadcasted(a, b)[i] == broadcasted(b, a)[i] by {
            assert(aligned(a, n, i) == aligned(b, n, i) || aligned(a, n, i) == 1 || aligned(b, n, i)
                == 1);
        }
        assert(broadcasted(a, b) =~= broadcasted(b, a));
    }
    if compatible(b, a) {
        assert forall|i: int| 0 <= i < n implies #[trigger] aligned(a, n, i) == aligned(b, n, i)
            || aligned(a, n, i) == 1 || aligned(b, n, i) == 1 by {
            assert(aligned(b, n, i) == aligned(a, n, i) || aligned(b, n, i) == 1 || aligned(a, n, i)
                == 1);
        }
    }
}

/// A shape is compatible with itself and is its own common shape.
pub proof fn broadcasting_is_idempotent(a: Seq<usize>)
    ensures
        compatible(a, a),
        broadcasted(a, a) == a,
{
    assert(broadcasted(a, a) =~= a);
}

proof fn lemma_lifted(a: ArrayV, k: nat)
    requires
        a.layout.wf(),
    ensures
        lifted(a, k).rank() == a.rank() + k,
        lifted(a, k).layout.wf(),
        lifted(a, k).dtype == a.dtype,
        forall|i: int|
            0 <= i < a.rank() + k ==> #[trigger] lifted(a, k).shape()[i] == (if i < k {
                1
            } else {
                a.shape()[i - k]
            }),
    decreases k,
{
    if k > 0 {
        let b = lifted(a, (k - 1) as nat);
        lemma_lifted(a, (k - 1) as nat);
        assert forall|i: int| 0 <= i < a.rank() + k implies #[trigger] lifted(a, k).shape()[i] == (
        if i < k {
            1
        } else {
            a.shape()[i - k]
        }) by {
            if i > 0 {
                assert(lifted(a, k).shape()[i] == b.shape()[i - 1]);
            }
        }
    }
}

/// Both operands can be spread over their common shape.
pub proof fn operands_spread_to_common_shape(a: ArrayV, b: ArrayV)
    requires
        a.layout.wf(),
        b.layout.wf(),
        compatible(a.shape(), b.shape()),
    ensures
        broadcast_to_s(a, broadcasted(a.shape(), b.shape())) is Ok,
        broadcast_to_s(b, broadcasted(a.shape(), b.shape())) is Ok,
{
    let s = broadcasted(a.shape(), b.shape());
    let n = s.len() as int;
    let ka = (s.len() - a.rank()) as nat;
    let kb = (s.len() - b.rank()) as nat;
    lemma_lifted(a, ka);
    lemma_lifted(b, kb);
    assert forall|i: int| 0 <= i < n implies #[trigger] lifted(a, ka).shape()[i] == s[i] || lifted(
        a,
        ka,
    ).shape()[i] == 1 by {
        assert(lifted(a, ka).shape()[i] == aligned(a.shape(), n, i));
        assert(aligned(a.shape(), n, i) == aligned(b.shape(), n, i) || aligned(a.shape(), n, i) == 1
            || aligned(b.shape(), n, i) == 1);
    }
    assert forall|i: int| 0 <= i < n implies #[trigger] lifted(b, kb).shape()[i] == s[i] || lifted(
        b,
        kb,
    ).shape()[i] == 1 by {
        assert(lifted(b, kb).shape()[i] == aligned(b.shape(), n, i));
        assert(aligned(a.shape(), n, i) == aligned(b.shape(), n, i) || aligned(a.shape(), n, i) == 1
            || aligned(b.shape(), n, i) == 1);
    }
}

// ---- binary kernels ----

/// The tag of a type in the names of the hand-written kernels.
pub open spec fn kernel_tag_text(d: Dtype) -> Option<Seq<char>> {
    match d {
        Dtype::Float32 => Some("f32"@),
        Dtype::Float16 => Some("f16"@),
        Dtype::Bfloat16 => Some("bf16"@),
        Dtype::Int64 => Some("i64"@),
        Dtype::Uint32 => Some("u32"@),
        Dtype::Uint8 | Dtype::Bool => Some("u8"@),
        _ => None,
    }
}

/// The tag of a type in the names of the hand-written kernels.
pub fn kernel_tag(d: Dtype) -> (r: Option<&'static str>)
    ensures
        r is Some == kernel_tag_text(d) is Some,
        r matches Some(s) ==> kernel_tag_text(d) == Some(s@),
{
    match d {
        Dtype::Float32 => Some("f32"),
        Dtype::Float16 => Some("f16"),
        Dtype::Bfloat16 => Some("bf16"),
        Dtype::Int64 => Some("i64"),
        Dtype::Uint32 => Some("u32"),
        Dtype::Uint8 | Dtype::Bool => Some("u8"),
        _ => None,
    }
}

/// The elements that a thread of an elementwise kernel handles.
pub open spec fn tile_of(d: Dtype) -> int {
    max_int(1, 8int / (width(d) as int))
}

/// The run of a strided kernel of two operands that are spread over the shape
/// of `out`.
pub open spec fn binary_run(a: ArrayV, b: ArrayV, out: ArrayV, name: Seq<char>) -> DispatchV {
    DispatchV {
        program: fresh_program(
            name,
            seq![MetalFile::ElementwiseBinary],
            Seq::empty(),
            Math::Fast,
            Seq::empty(),
        ),
        args: seq![
            (0usize, ArgV::Size(out.count() as usize)),
            (1usize, ArgV::Size(out.rank() as usize)),
            (2usize, ArgV::U64s(u64_words(out.shape()))),
            (3usize, ArgV::U64s(u64_words(a.strides()))),
            (4usize, ArgV::U64s(u64_words(b.strides()))),
            (5usize, a.as_input()),
            (6usize, b.as_input()),
            (7usize, ArgV::Output(out.buf, 0)),
        ],
        grid: Grid::Split(ceil_div(out.count() as int, tile_of(a.dtype)) as usize),
    }
}

/// Two operands spread over a shape and combined into an array of type `odt`.
pub open spec fn combine_s(
    t: TapeV,
    a: ArrayV,
    b: ArrayV,
    shape: Seq<usize>,
    odt: Dtype,
    name: Seq<char>,
    label: Seq<char>,
) -> (TapeV, Outcome) {
    match (broadcast_to_s(a, shape), broadcast_to_s(b, shape)) {
        (Ok(x), Ok(y)) => {
            let out = fresh(t, shape, odt);
            (
                with_room(t, shape, odt, label).then_do(CmdV::Launch(binary_run(x, y, out, name))),
                Ok(out),
            )
        },
        (Err(e), _) => (t, Err(e)),
        (_, Err(e)) => (t, Err(e)),
    }
}

/// An elementwise operation of two operands of one type.
pub open spec fn binary_s(t: TapeV, a: ArrayV, b: ArrayV, op: Seq<char>) -> (TapeV, Outcome) {
    let shape = broadcasted(a.shape(), b.shape());
    if a.dtype != b.dtype {
        (t, Err("binary: dtype mismatch"@))
    } else if !compatible(a.shape(), b.shape()) {
        (t, Err("broadcast: "@ + dec_list(a.shape()) + " vs "@ + dec_list(b.shape())))
    } else if kernel_tag_text(a.dtype) is None || a.dtype == Dtype::Bool {
        (t, Err("binary: no kernel for "@ + variant_text(a.dtype)))
    } else {
        combine_s(
            t,
            a,
            b,
            shape,
            a.dtype,
            op + "_"@ + kernel_tag_text(a.dtype)->0 + "_strided"@,
            "binary_out"@,
        )
    }
}

/// An elementwise comparison of two operands of one type, as bytes.
pub open spec fn compare_s(t: TapeV, a: ArrayV, b: ArrayV, op: Seq<char>) -> (TapeV, Outcome) {
    let shape = broadcasted(a.shape(), b.shape());
    if a.dtype != b.dtype {
        (t, Err("cmp: dtype mismatch"@))
    } else if !compatible(a.shape(), b.shape()) {
        (t, Err("broadcast: "@ + dec_list(a.shape()) + " vs "@ + dec_list(b.shape())))
    } else if kernel_tag_text(a.dtype) is None {
        (t, Err("cmp: unsupported dtype"@))
    } else {
        combine_s(
            t,
            a,
            b,
            shape,
            Dtype::Uint8,
            op + "_"@ + kernel_tag_text(a.dtype)->0 + "_strided"@,
            "cmp_out"@,
        )
    }
}

/// The common shape of two arrays, when there is one, can be stored.
pub open spec fn roomy_pair(a: ArrayV, b: ArrayV) -> bool {
    compatible(a.shape(), b.shape()) ==> roomy(broadcasted(a.shape(), b.shape()))
}

/// Records a strided kernel of two operands.
fn combine(
    tape: &mut Tape,
    a: &Array,
    b: &Array,
    shape: &[usize],
    odt: Dtype,
    name: String,
    label: &'static str,
) -> (r: Result<Array, Error>)
    requires
        a@.wf(),
        b@.wf(),
        a@.dtype == b@.dtype,
        roomy(shape@),
    ensures
        (final(tape)@, seen(r)) == combine_s(old(tape)@, a@, b@, shape@, odt, name@, label@),
        r matches Ok(x) ==> x@.wf() && x@.shape() == shape@ && x@.dtype == odt,
{
    let x = match a.broadcast_to(shape) {
        Ok(x) => x,
        Err(e) => {
            return Err(e);
        },
    };
    let y = match b.broadcast_to(shape) {
        Ok(y) => y,
        Err(e) => {
            return Err(e);
        },
    };
    proof {
        lemma_roomy(shape@, odt);
        lemma_lifted(a@, (shape@.len() - a@.rank()) as nat);
    }
    let n = product(shape);
    let files = vec![MetalFile::ElementwiseBinary];
    let out = Array::make(tape, shape, odt, label);
    let mut d = Dispatch::new(program(name, files, String::new(), Math::Fast));
    d.bind(0, Arg::Size(n));
    d.bind(1, Arg::Size(shape.len()));
    d.bind(2, Arg::U64s(to_u64s(shape)));
    d.bind(3, Arg::U64s(to_u64s(&x.layout.strides)));
    d.bind(4, Arg::U64s(to_u64s(&y.layout.strides)));
    d.bind(5, x.input());
    d.bind(6, y.input());
    d.bind(7, Arg::Output(out.buf, 0));
    let tile = max_usize(1, 8 / a.dtype.size_of());
    let tiles = div_up(n, tile);
    tape.launch(d, Grid::Split(tiles));
    proof {
        let run = binary_run(x@, y@, out@, name@);
        assert(files@ =~= seq![MetalFile::ElementwiseBinary]);
        assert(d@.args =~= run.args);
    }
    Ok(out)
}

impl Array {
    /// An elementwise operation, by its kernel identifier without the type.
    pub fn binary(&self, tape: &mut Tape, other: &Array, op: &str) -> (r: Result<Array, Error>)
        requires
            self@.wf(),
            other@.wf(),
            roomy_pair(self@, other@),
        ensures
            (final(tape)@, seen(r)) == binary_s(old(tape)@, self@, other@, op@),
            r matches Ok(x) ==> x@.wf() && x@.shape() == broadcasted(self@.shape(), other@.shape())
                && x@.dtype == self@.dtype,
    {
        if self.dtype != other.dtype {
            return err("binary: dtype mismatch");
        }
        let shape = match broadcast_shape(self.shape(), other.shape()) {
            Ok(s) => s,
            Err(e) => {
                return Err(e);
            },
        };
        let ty = match kernel_tag(self.dtype) {
            Some(t) => t,
            None => {
                return Err(Error::Msg(cat2("binary: no kernel for ", self.dtype.variant_name())));
            },
        };
        if self.dtype == Dtype::Bool {
            return Err(Error::Msg(cat2("binary: no kernel for ", self.dtype.variant_name())));
        }
        let name = cat4(op, "_", ty, "_strided");
        combine(tape, self, other, &shape, self.dtype, name, "binary_out")
    }

    /// An elementwise comparison, by its kernel identifier without the type.
    pub fn cmp(&self, tape: &mut Tape, other: &Array, op: &str) -> (r: Result<Array, Error>)
        requires
            self@.wf(),
            other@.wf(),
            roomy_pair(self@, other@),
        ensures
            (final(tape)@, seen(r)) == compare_s(old(tape)@, self@, other@, op@),
            r matches Ok(x) ==> x@.wf() && x@.shape() == broadcasted(self@.shape(), other@.shape())
                && x@.dtype == Dtype::Uint8,
    {
        if self.dtype != other.dtype {
            return err("cmp: dtype mismatch");
        }
        let shape = match broadcast_shape(self.shape(), other.shape()) {
            Ok(s) => s,
            Err(e) => {
                return Err(e);
            },
        };
        let ty = match kernel_tag(self.dtype) {
            Some(t) => t,
            None => {
                return err("cmp: unsupported dtype");
            },
        };
        let name = cat4(op, "_", ty, "_strided");
        combine(tape, self, other, &shape, Dtype::Uint8, name, "cmp_out")
    }
}

// ---- constants ----

/// The types that a rounded number can be stored in.
pub open spec fn holds_scalar(d: Dtype) -> bool {
    d == Dtype::Float32 || d == Dtype::Float16 || d == Dtype::Bfloat16
}

/// A number without axes, rounded to the type.
pub open spec fn scalar_s(t: TapeV, v: Scalar, dtype: Dtype) -> (TapeV, Outcome) {
    if holds_scalar(dtype) {
        (
            with_room(t, Seq::empty(), dtype, "scalar"@).then_do(CmdV::Fill(t.next, dtype, v, 1)),
            Ok(fresh(t, Seq::empty(), dtype)),
        )
    } else {
        (t, Err("scalar_of: unsupported "@ + variant_text(dtype)))
    }
}

/// The types that an integer can be stored in, with the bytes that are stored:
/// the low ones of its 64-bit form.
pub open spec fn scalar_raw_s(t: TapeV, v: i64, dtype: Dtype) -> (TapeV, Outcome) {
    if dtype == Dtype::Float16 || dtype == Dtype::Float32 || dtype == Dtype::Float64 || dtype
        == Dtype::Bfloat16 {
        (t, Err("scalar_raw: unsupported "@ + variant_text(dtype)))
    } else {
        (
            with_room(t, Seq::empty(), dtype, "scalar"@).then_do(
                CmdV::Write(t.next, crate::words::le64(v).take(width(dtype) as int)),
            ),
            Ok(fresh(t, Seq::empty(), dtype)),
        )
    }
}

/// The types that an array can be filled in.
pub open spec fn fillable(d: Dtype) -> bool {
    d == Dtype::Float32 || d == Dtype::Bfloat16 || d == Dtype::Float16 || d == Dtype::Uint8 || d
        == Dtype::Bool || d == Dtype::Uint32 || d == Dtype::Int64
}

/// A packed array with every element set to one number.
pub open spec fn full_s(t: TapeV, v: Scalar, shape: Seq<usize>, dtype: Dtype) -> (TapeV, Outcome) {
    let t1 = zeros_tape(t, shape, dtype);
    if fillable(dtype) {
        (
            t1.then_do(CmdV::Fill(t.next, dtype, v, numel(shape) as usize)),
            Ok(fresh(t, shape, dtype)),
        )
    } else {
        (t1, Err("full: unsupported "@ + variant_text(dtype)))
    }
}

proof fn lemma_roomy_scalar()
    ensures
        roomy(Seq::empty()),
        volume(Seq::<usize>::empty()) == 1,
        numel(Seq::<usize>::empty()) == 1,
{
}

impl Array {
    /// A number without axes, rounded to the type.
    pub fn scalar_of(tape: &mut Tape, v: Scalar, dtype: Dtype) -> (r: Result<Array, Error>)
        ensures
            (final(tape)@, seen(r)) == scalar_s(old(tape)@, v, dtype),
            r matches Ok(a) ==> a@.wf(),
    {
        match dtype {
            Dtype::Float32 | Dtype::Float16 | Dtype::Bfloat16 => {
                let shape: Vec<usize> = Vec::new();
                proof {
                    lemma_roomy_scalar();
                    assert(shape@ =~= Seq::empty());
                }
                let a = Array::make(tape, &shape, dtype, "scalar");
                tape.record(Cmd::Fill(a.buf, dtype, v, 1));
                Ok(a)
            },
            _ => Err(Error::Msg(cat2("scalar_of: unsupported ", dtype.variant_name()))),
        }
    }

    /// An integer without axes.
    pub fn scalar_raw(tape: &mut Tape, v: i64, dtype: Dtype) -> (r: Result<Array, Error>)
        ensures
            (final(tape)@, seen(r)) == scalar_raw_s(old(tape)@, v, dtype),
            r matches Ok(a) ==> a@.wf(),
    {
        match dtype {
            Dtype::Float32 | Dtype::Float16 | Dtype::Bfloat16 | Dtype::Float64 => Err(
                Error::Msg(cat2("scalar_raw: unsupported ", dtype.variant_name())),
            ),
            _ => {
                let shape: Vec<usize> = Vec::new();
                proof {
                    lemma_roomy_scalar();
                    assert(shape@ =~= Seq::empty());
                    vstd::bytes::lemma_auto_spec_u64_to_from_le_bytes();
                }
                let mut bytes: Vec<u8> = Vec::new();
                crate::words::push_le64(&mut bytes, v);
                assert(bytes@ =~= crate::words::le64(v));
                bytes.truncate(dtype.size_of());
                let a = Array::make(tape, &shape, dtype, "scalar");
                tape.record(Cmd::Write(a.buf, bytes));
                Ok(a)
            },
        }
    }

    /// A packed array with every element set to one number.
    pub fn full(tape: &mut Tape, v: Scalar, shape: &[usize], dtype: Dtype) -> (r: Result<
        Array,
        Error,
    >)
        requires
            roomy(shape@),
        ensures
            (final(tape)@, seen(r)) == full_s(old(tape)@, v, shape@, dtype),
            r matches Ok(a) ==> a@.wf(),
    {
        let out = Array::zeros(tape, shape, dtype);
        match dtype {
            Dtype::Float32
            | Dtype::Bfloat16
            | Dtype::Float16
            | Dtype::Uint8
            | Dtype::Bool
            | Dtype::Uint32
            | Dtype::Int64 => {
                let n = out.size();
                tape.record(Cmd::Fill(out.buf, dtype, v, n));
                Ok(out)
            },
            _ => Err(Error::Msg(cat2("full: unsupported ", dtype.variant_name()))),
        }
    }
}

// ---- selection ----

/// The kernel that selects between values of a type by a condition of a type.
pub open spec fn where_kernel(cond: Dtype, val: Dtype) -> Option<Seq<char>> {
    let byte = cond == Dtype::Uint8 || cond == Dtype::Bool;
    if byte && val == Dtype::Float32 {
        Some("where_u8_f32"@)
    } else if cond == Dtype::Uint32 && val == Dtype::Float32 {
        Some("where_u32_f32"@)
    } else if byte && val == Dtype::Bfloat16 {
        Some("where_u8_bf16"@)
    } else if byte && val == Dtype::Float16 {
        Some("where_u8_f16"@)
    } else if byte && val == Dtype::Int64 {
        Some("where_u8_i64"@)
    } else if byte && val == Dtype::Uint32 {
        Some("where_u8_u32"@)
    } else if byte && (val == Dtype::Uint8 || val == Dtype::Bool) {
        Some("where_u8_u8"@)
    } else {
        None
    }
}

fn where_name(cond: Dtype, val: Dtype) -> (r: Option<&'static str>)
    ensures
        r is Some == where_kernel(cond, val) is Some,
        r matches Some(s) ==> where_kernel(cond, val) == Some(s@),
{
    match (cond, val) {
        (Dtype::Uint8 | Dtype::Bool, Dtype::Float32) => Some("where_u8_f32"),
        (Dtype::Uint32, Dtype::Float32) => Some("where_u32_f32"),
        (Dtype::Uint8 | Dtype::Bool, Dtype::Bfloat16) => Some("where_u8_bf16"),
        (Dtype::Uint8 | Dtype::Bool, Dtype::Float16) => Some("where_u8_f16"),
        (Dtype::Uint8 | Dtype::Bool, Dtype::Int64) => Some("where_u8_i64"),
        (Dtype::Uint8 | Dtype::Bool, Dtype::Uint32) => Some("where_u8_u32"),
        (Dtype::Uint8 | Dtype::Bool, Dtype::Uint8 | Dtype::Bool) => Some("where_u8_u8"),
        _ => None,
    }
}

/// The run of the selecting kernel over row-major operands.
pub open spec fn where_run(
    cond: ArrayV,
    yes: ArrayV,
    no: ArrayV,
    out: ArrayV,
    name: Seq<char>,
) -> DispatchV {
    let zeros = Seq::new(cond.rank(), |i: int| 0u64);
    DispatchV {
        program: fresh_program(
            name,
            seq![MetalFile::Select],
            Seq::empty(),
            Math::Fast,
            seq![
                (0usize, ConstVal::Bool(true)),
                (1usize, ConstVal::Bool(true)),
                (2usize, ConstVal::Bool(true)),
            ],
        ),
        args: seq![
            (0usize, ArgV::Size(cond.count() as usize)),
            (1usize, ArgV::Size(cond.rank() as usize)),
            (2usize, ArgV::U64s(u64_words(cond.shape()))),
            (3usize, ArgV::U64s(zeros)),
            (4usize, ArgV::U64s(zeros)),
            (5usize, ArgV::U64s(zeros)),
            (6usize, cond.as_input()),
            (7usize, yes.as_input()),
            (8usize, no.as_input()),
            (9usize, ArgV::Output(out.buf, 0)),
        ],
        grid: Grid::Split(ceil_div(cond.count() as int, tile_of(yes.dtype)) as usize),
    }
}

/// An elementwise choice between two arrays of the condition's shape.
pub open spec fn where_s(t: TapeV, c: ArrayV, a: ArrayV, b: ArrayV) -> (TapeV, Outcome) {
    if c.shape() != a.shape() || c.shape() != b.shape() {
        (t, Err("where_cond: shapes must match"@))
    } else if a.dtype != b.dtype {
        (t, Err("where_cond: value dtypes must match"@))
    } else {
        match where_kernel(c.dtype, a.dtype) {
            None => (
                t,
                Err(
                    "where_cond "@ + variant_text(c.dtype) + " "@ + variant_text(a.dtype)
                        + " not implemented"@,
                ),
            ),
            Some(name) => match contiguous_s(t, c) {
                (t1, Err(e)) => (t1, Err(e)),
                (t1, Ok(x)) => match contiguous_s(t1, a) {
                    (t2, Err(e)) => (t2, Err(e)),
                    (t2, Ok(y)) => match contiguous_s(t2, b) {
                        (t3, Err(e)) => (t3, Err(e)),
                        (t3, Ok(z)) => {
                            let out = fresh(t3, c.shape(), a.dtype);
                            (
                                with_room(t3, c.shape(), a.dtype, "where_out"@).then_do(
                                    CmdV::Launch(where_run(x, y, z, out, name)),
                                ),
                                Ok(out),
                            )
                        },
                    },
                },
            },
        }
    }
}

/// So many zero words.
fn zero_words(n: usize) -> (v: Vec<u64>)
    ensures
        v@ == Seq::new(n as nat, |i: int| 0u64),
{
    let mut v: Vec<u64> = Vec::new();
    let mut i: usize = 0;
    while i < n
        invariant
            i <= n,
            v@ == Seq::new(i as nat, |k: int| 0u64),
        decreases n - i,
    {
        v.push(0);
        i += 1;
        assert(v@ =~= Seq::new(i as nat, |k: int| 0u64));
    }
    v
}

impl Array {
    /// Chooses elementwise between two arrays of the condition's shape.
    pub fn where_cond(&self, tape: &mut Tape, on_true: &Array, on_false: &Array) -> (r: Result<
        Array,
        Error,
    >)
        requires
            self@.wf(),
            on_true@.wf(),
            on_false@.wf(),
        ensures
            (final(tape)@, seen(r)) == where_s(old(tape)@, self@, on_true@, on_false@),
            r matches Ok(a) ==> a@.wf() && a@.shape() == self@.shape() && a@.dtype
                == on_true@.dtype && a@.layout.dense(),
    {
        if !same_sizes(self.shape(), on_true.shape()) || !same_sizes(self.shape(), on_false.shape()) {
            return err("where_cond: shapes must match");
        }
        if on_true.dtype != on_false.dtype {
            return err("where_cond: value dtypes must match");
        }
        let name = match where_name(self.dtype, on_true.dtype) {
            Some(n) => n,
            None => {
                return Err(
                    Error::Msg(
                        cat5(
                            "where_cond ",
                            self.dtype.variant_name(),
                            " ",
                            on_true.dtype.variant_name(),
                            " not implemented",
                        ),
                    ),
                );
            },
        };
        let x = match self.contiguous(tape) {
            Ok(x) => x,
            Err(e) => {
                return Err(e);
            },
        };
        let y = match on_true.contiguous(tape) {
            Ok(y) => y,
            Err(e) => {
                return Err(e);
            },
        };
        let z = match on_false.contiguous(tape) {
            Ok(z) => z,
            Err(e) => {
                return Err(e);
            },
        };
        let size = x.size();
        let rank = x.rank();
        let out = Array::make(tape, &x.layout.shape, y.dtype, "where_out");
        let files = vec![MetalFile::Select];
        let mut p = program(name.to_owned(), files, String::new(), Math::Fast);
        p.consts = vec![
            (0, ConstVal::Bool(true)),
            (1, ConstVal::Bool(true)),
            (2, ConstVal::Bool(true)),
        ];
        let mut d = Dispatch::new(p);
        d.bind(0, Arg::Size(size));
        d.bind(1, Arg::Size(rank));
        d.bind(2, Arg::U64s(to_u64s(&x.layout.shape)));
        d.bind(3, Arg::U64s(zero_words(rank)));
        d.bind(4, Arg::U64s(zero_words(rank)));
        d.bind(5, Arg::U64s(zero_words(rank)));
        d.bind(6, x.input());
        d.bind(7, y.input());
        d.bind(8, z.input());
        d.bind(9, Arg::Output(out.buf, 0));
        let tile = max_usize(1, 8 / y.dtype.size_of());
        let tiles = div_up(size, tile);
        tape.launch(d, Grid::Split(tiles));
        proof {
            let run = where_run(x@, y@, z@, out@, name@);
            assert(files@ =~= seq![MetalFile::Select]);
            assert(p@.consts =~= run.program.consts);
            assert(d@.args =~= run.args);
            lemma_roomy(x@.shape(), y@.dtype);
            crate::views::packed_is_dense(x@.shape());
        }
        Ok(out)
    }
}

// ---- conversion ----

/// The run of the converting kernel over the row-major `x`.
pub open spec fn cast_run(x: ArrayV, out: ArrayV) -> DispatchV {
    DispatchV {
        program: fresh_program(
            "cast_"@ + kernel_tag_text(x.dtype)->0 + "_"@ + kernel_tag_text(out.dtype)->0
                + "_strided"@,
            seq![MetalFile::Cast],
            Seq::empty(),
            Math::Fast,
            Seq::empty(),
        ),
        args: seq![
            (0usize, ArgV::Size(x.count() as usize)),
            (1usize, ArgV::Size(x.rank() as usize)),
            (2usize, ArgV::U64s(u64_words(x.shape()))),
            (3usize, ArgV::U64s(u64_words(x.strides()))),
            (4usize, x.as_input()),
            (5usize, ArgV::Output(out.buf, 0)),
        ],
        grid: Grid::Split(x.count() as usize),
    }
}

/// The array with the elements converted to a type: itself when it has that
/// type, by a kernel for the types that have one, else on the host.
pub open spec fn cast_s(t: TapeV, a: ArrayV, dtype: Dtype) -> (TapeV, Outcome) {
    if a.dtype == dtype {
        (t, Ok(a))
    } else {
        match contiguous_s(t, a) {
            (t1, Err(e)) => (t1, Err(e)),
            (t1, Ok(x)) => if kernel_tag_text(a.dtype) is None || kernel_tag_text(dtype) is None {
                (
                    with_room(t1, a.shape(), dtype, "cast_host"@).then_do(
                        CmdV::HostCast(
                            x.buf,
                            x.start(),
                            x.dtype,
                            t1.next,
                            dtype,
                            x.count() as usize,
                        ),
                    ),
                    Ok(fresh(t1, a.shape(), dtype)),
                )
            } else {
                let y = if x.rank() == 0 {
                    x.under(crate::views::reshaped(x.layout, seq![1usize]))
                } else {
                    x
                };
                let out = fresh(t1, y.shape(), dtype);
                (
                    with_room(t1, y.shape(), dtype, "cast_out"@).then_do(
                        CmdV::Launch(cast_run(y, out)),
                    ),
                    Ok(
                        if x.rank() == 0 {
                            out.under(crate::views::reshaped(out.layout, Seq::empty()))
                        } else {
                            out
                        },
                    ),
                )
            },
        }
    }
}

impl Array {
    /// The array with its elements converted to a type.
    pub fn cast(&self, tape: &mut Tape, dtype: Dtype) -> (r: Result<Array, Error>)
        requires
            self@.wf(),
        ensures
            (final(tape)@, seen(r)) == cast_s(old(tape)@, self@, dtype),
            r matches Ok(a) ==> a@.wf() && a@.shape() == self@.shape() && a@.dtype == dtype,
    {
        if self.dtype == dtype {
            return Ok(self.duplicate());
        }
        let x = match self.contiguous(tape) {
            Ok(x) => x,
            Err(e) => {
                return Err(e);
            },
        };
        let tags = (kernel_tag(self.dtype), kernel_tag(dtype));
        match tags {
            (Some(src), Some(dst)) => {
                let scalar = x.rank() == 0;
                let y = if scalar {
                    let one: Vec<usize> = vec![1];
                    proof {
                        assert(one@ =~= seq![1usize]);
                        lemma_numel_one(1);
                        lemma_roomy_scalar();
                        assert(x@.shape() =~= Seq::<usize>::empty());
                    }
                    match x.reshape(tape, &one) {
                        Ok(y) => y,
                        Err(e) => {
                            assert(false);
                            return Err(e);
                        },
                    }
                } else {
                    x
                };
                let name = cat5("cast_", src, "_", dst, "_strided");
                let n = y.size();
                let out = Array::make(tape, &y.layout.shape, dtype, "cast_out");
                let files = vec![MetalFile::Cast];
                let mut d = Dispatch::new(program(name, files, String::new(), Math::Fast));
                d.bind(0, Arg::Size(n));
                d.bind(1, Arg::Size(y.rank()));
                d.bind(2, Arg::U64s(to_u64s(&y.layout.shape)));
                d.bind(3, Arg::U64s(to_u64s(&y.layout.strides)));
                d.bind(4, y.input());
                d.bind(5, Arg::Output(out.buf, 0));
                tape.launch(d, Grid::Split(n));
                proof {
                    let run = cast_run(y@, out@);
                    assert(files@ =~= seq![MetalFile::Cast]);
                    assert(d@.args =~= run.args);
                    lemma_roomy(y@.shape(), dtype);
                    crate::views::packed_is_dense(y@.shape());
                }
                if scalar {
                    let none: Vec<usize> = Vec::new();
                    proof {
                        assert(none@ =~= Seq::<usize>::empty());
                        assert(self@.shape() =~= Seq::<usize>::empty());
                        lemma_numel_one(1);
                        lemma_roomy_scalar();
                    }
                    return out.reshape(tape, &none);
                }
                Ok(out)
            },
            _ => {
                let n = x.size();
                let out = Array::make(tape, &x.layout.shape, dtype, "cast_host");
                tape.record(
                    Cmd::HostCast(
                        x.buf,
                        x.layout.offset * x.dtype.size_of(),
                        x.dtype,
                        out.buf,
                        dtype,
                        n,
                    ),
                );
                Ok(out)
            },
        }
    }

    /// The array with its elements converted to a type, by another name.
    pub fn to_dtype(&self, tape: &mut Tape, dtype: Dtype) -> (r: Result<Array, Error>)
        requires
            self@.wf(),
        ensures
            (final(tape)@, seen(r)) == cast_s(old(tape)@, self@, dtype),
            r matches Ok(a) ==> a@.wf() && a@.shape() == self@.shape() && a@.dtype == dtype,
    {
        self.cast(tape, dtype)
    }
}

} // verus!
