//! Arrays as the engine sees them: sizes and axes are signed, operands are
//! brought to a common type, and kernels are chosen.

use vstd::prelude::*;

use crate::array::{contiguous_s, expand_s, flatten_s, seen, Array as Tensor, ArrayV, Outcome};
use crate::builtin::{silu_op_s, unary_op_s};
use crate::chars::{split_at_first, split_once, trim, trimmed};
use crate::dtype::{promote, promoted, Dtype};
use crate::elementwise::{
    binary_s, broadcasted, cast_s, compare_s, roomy_pair, scalar_raw_s, scalar_s, where_s,
};
use crate::elements::ScalarVal;
use crate::error::Error;
use crate::named::{affine_s, chain, lemma_with_scalar, recip_s, silu_s, MINUS_ONE, ONE};
use crate::ops::unary_s;
use crate::reduce::{axis_of, reduce_any_s, reduce_axis_any_s, reduce_axis_s, Reduction};
use crate::tape::{Cmd, CmdV, Scalar, Tape, TapeV};
use crate::text::{chars_of, same_text};
use crate::words::{i32_words, to_i32s};

verus! {

// ---- the type ----

/// An array with its sizes as signed numbers.
pub struct Array {
    pub t: Tensor,
    pub shape: Vec<i32>,
}

impl Array {
    /// The signed sizes are those of the array.
    pub open spec fn wf(self) -> bool {
        self.t@.wf() && self.shape@ == i32_words(self.t@.shape())
    }

    pub fn new(t: Tensor) -> (a: Array)
        ensures
            a.t@ == t@,
            a.shape@ == i32_words(t@.shape()),
            t@.wf() ==> a.wf(),
    {
        let shape = to_i32s(t.shape());
        Array { t, shape }
    }

    pub fn shape(&self) -> (s: &[i32])
        ensures
            s@ == self.shape@,
    {
        &self.shape
    }

    pub fn dtype(&self) -> (d: Dtype)
        ensures
            d == self.t@.dtype,
    {
        self.t.dtype()
    }

    /// The axis that a number names, counted from the end when negative.
    pub(crate) fn axis(&self, dim: i32) -> (d: usize)
        requires
            self.shape@.len() <= i32::MAX,
            0 <= axis_of(self.shape@.len(), dim),
        ensures
            d == axis_of(self.shape@.len(), dim),
    {
        let n = self.shape.len();
        if dim < 0 {
            (n as i32 + dim) as usize
        } else {
            dim as usize
        }
    }

    /// A size, its axis counted from the end when negative.
    pub fn dim(&self, dim: i32) -> (n: i32)
        requires
            self.shape@.len() <= i32::MAX,
            0 <= axis_of(self.shape@.len(), dim) < self.shape@.len(),
        ensures
            n == self.shape@[axis_of(self.shape@.len(), dim)],
    {
        let d = self.axis(dim);
        self.shape[d]
    }

    pub fn ndim(&self) -> (n: usize)
        ensures
            n == self.shape@.len(),
    {
        self.shape.len()
    }

    pub fn rank(&self) -> (n: usize)
        ensures
            n == self.shape@.len(),
    {
        self.ndim()
    }

    pub fn size(&self) -> (n: usize)
        requires
            self.wf(),
        ensures
            n == self.t@.count(),
    {
        self.t.elem_count()
    }

    pub fn len(&self) -> (n: usize)
        requires
            self.wf(),
        ensures
            n == self.t@.count(),
    {
        self.size()
    }

    pub fn is_empty(&self) -> (b: bool)
        requires
            self.wf(),
        ensures
            b == (self.t@.count() == 0),
    {
        self.size() == 0
    }

    /// Waits for everything that was recorded.
    pub fn eval(&self, tape: &mut Tape)
        ensures
            final(tape)@ == old(tape)@.then_do(CmdV::Sync),
    {
        tape.record(Cmd::Sync);
    }

    /// The array whose first element is the item, in the type that is asked for.
    pub fn item(&self, tape: &mut Tape, wanted: Option<Dtype>) -> (r: Result<Array, Error>)
        requires
            self.wf(),
        ensures
            (final(tape)@, shown(r)) == (match wanted {
                Some(d) => cast_s(old(tape)@, self.t@, d),
                None => (old(tape)@, Ok(self.t@)),
            }),
            r matches Ok(a) ==> a.wf(),
    {
        match wanted {
            Some(d) => wrap(self.t.to_dtype(tape, d)),
            None => Ok(self.detach()),
        }
    }

    /// The same array: it holds on to nothing else.
    pub fn detach(&self) -> (a: Array)
        ensures
            a.t@ == self.t@,
            self.wf() ==> a.wf(),
    {
        Array::new(self.t.duplicate())
    }
}

/// What the result of an operation shows.
pub open spec fn shown(r: Result<Array, Error>) -> Outcome {
    match r {
        Ok(a) => Ok(a.t@),
        Err(e) => Err(e.text()),
    }
}

pub(crate) fn wrap(r: Result<Tensor, Error>) -> (w: Result<Array, Error>)
    ensures
        shown(w) == seen(r),
        r matches Ok(t) ==> (t@.wf() ==> (w matches Ok(a) && a.wf())),
        r is Err ==> w is Err,
{
    match r {
        Ok(t) => Ok(Array::new(t)),
        Err(e) => Err(e),
    }
}

/// Signed sizes as sizes.
pub open spec fn sizes(v: Seq<i32>) -> Seq<usize> {
    v.map_values(|d: i32| d as usize)
}

pub(crate) fn to_sizes(v: &[i32]) -> (r: Vec<usize>)
    ensures
        r@ == sizes(v@),
{
    let mut r: Vec<usize> = Vec::new();
    let mut i: usize = 0;
    while i < v.len()
        invariant
            i <= v@.len(),
            r@ == sizes(v@).take(i as int),
        decreases v.len() - i,
    {
        r.push(v[i] as usize);
        i += 1;
        assert(r@ =~= sizes(v@).take(i as int));
    }
    assert(r@ =~= sizes(v@));
    r
}

// ---- constants ----

impl Array {
    /// A whole number without axes.
    pub fn from_int(tape: &mut Tape, val: i32) -> (r: Result<Array, Error>)
        ensures
            (final(tape)@, shown(r)) == scalar_raw_s(old(tape)@, val as i64, Dtype::Int32),
            r matches Ok(a) ==> a.wf(),
    {
        wrap(Tensor::scalar_raw(tape, val as i64, Dtype::Int32))
    }

    /// A truth value without axes, as a byte.
    pub fn from_bool(tape: &mut Tape, val: bool) -> (r: Result<Array, Error>)
        ensures
            (final(tape)@, shown(r)) == scalar_raw_s(
                old(tape)@,
                if val {
                    1
                } else {
                    0
                },
                Dtype::Uint8,
            ),
            r matches Ok(a) ==> a.wf(),
    {
        let v: i64 = if val {
            1
        } else {
            0
        };
        wrap(Tensor::scalar_raw(tape, v, Dtype::Uint8))
    }

    /// A number without axes, rounded to a type.
    pub fn from_number(tape: &mut Tape, val: Scalar, dtype: Dtype) -> (r: Result<Array, Error>)
        ensures
            (final(tape)@, shown(r)) == scalar_s(old(tape)@, val, dtype),
            r matches Ok(a) ==> a.wf(),
    {
        wrap(Tensor::scalar_of(tape, val, dtype))
    }
}

// ---- axes and types ----

/// The common type of two operands.
pub fn promote_dtype(a: Dtype, b: Dtype) -> (r: Dtype)
    ensures
        r == promoted(a, b),
{
    promote(a, b)
}

/// The axis that a number names among so many; one that is too far from the end
/// names none that there is.
pub open spec fn wrapped_axis(rank: usize, axis: i32) -> usize {
    if axis < 0 {
        (rank as i32 + axis) as i32 as usize
    } else {
        axis as usize
    }
}

/// The axis that a number names among so many.
pub fn norm_axis(rank: usize, axis: i32) -> (d: usize)
    requires
        rank <= i32::MAX,
    ensures
        d == wrapped_axis(rank, axis),
        0 <= axis_of(rank as nat, axis) ==> d == axis_of(rank as nat, axis),
{
    if axis < 0 {
        let s: i32 = rank as i32 + axis;
        s as usize
    } else {
        axis as usize
    }
}

/// An operation of two operands in their common type.
pub open spec fn promoted_s(t: TapeV, a: ArrayV, b: ArrayV, op: Seq<char>) -> (TapeV, Outcome) {
    let dt = promoted(a.dtype, b.dtype);
    chain(
        cast_s(t, a, dt),
        |t1: TapeV, x: ArrayV|
            chain(cast_s(t1, b, dt), |t2: TapeV, y: ArrayV| binary_s(t2, x, y, op)),
    )
}

/// An operation of two operands in their common type.
pub fn promoted_binary(tape: &mut Tape, a: &Tensor, b: &Tensor, op: &str) -> (r: Result<
    Tensor,
    Error,
>)
    requires
        a@.wf(),
        b@.wf(),
        roomy_pair(a@, b@),
    ensures
        (final(tape)@, seen(r)) == promoted_s(old(tape)@, a@, b@, op@),
        r matches Ok(x) ==> x@.wf() && x@.shape() == broadcasted(a@.shape(), b@.shape()),
{
    let dt = promote_dtype(a.dtype(), b.dtype());
    let x = match a.to_dtype(tape, dt) {
        Ok(x) => x,
        Err(e) => {
            return Err(e);
        },
    };
    let y = match b.to_dtype(tape, dt) {
        Ok(y) => y,
        Err(e) => {
            return Err(e);
        },
    };
    x.binary(tape, &y, op)
}

/// Indices as 32-bit whole numbers, row-major.
pub open spec fn indices_s(t: TapeV, a: ArrayV) -> (TapeV, Outcome) {
    if a.dtype == Dtype::Uint32 {
        contiguous_s(t, a)
    } else {
        chain(contiguous_s(t, a), |t1: TapeV, x: ArrayV| cast_s(t1, x, Dtype::Uint32))
    }
}

/// Indices as 32-bit whole numbers, row-major.
pub fn index_to_u32(tape: &mut Tape, t: &Tensor) -> (r: Result<Tensor, Error>)
    requires
        t@.wf(),
    ensures
        (final(tape)@, seen(r)) == indices_s(old(tape)@, t@),
        r matches Ok(a) ==> a@.wf() && a@.shape() == t@.shape() && a@.dtype == Dtype::Uint32,
{
    if t.dtype() == Dtype::Uint32 {
        return t.contiguous(tape);
    }
    match t.contiguous(tape) {
        Ok(x) => x.cast(tape, Dtype::Uint32),
        Err(e) => Err(e),
    }
}

/// Whether an operation stands in a list of names with commas between them.
pub open spec fn listed_in(list: Seq<char>, op: Seq<char>) -> bool
    decreases list.len(),
{
    match split_at_first(list, ","@) {
        Some((head, tail)) => if tail.len() < list.len() {
            trimmed(head) == op || listed_in(tail, op)
        } else {
            false
        },
        None => trimmed(list) == op,
    }
}

/// Whether an operation stands in the list of those that are composed.
pub fn native_unary(list: &str, op: &str) -> (b: bool)
    ensures
        b == listed_in(list@, op@),
{
    let comma = chars_of(",");
    let want = chars_of(op);
    let mut rest = chars_of(list);
    while rest.len() > 0
        invariant
            comma@ == ","@,
            want@ == op@,
            listed_in(list@, op@) == listed_in(rest@, op@),
        decreases rest@.len(),
    {
        proof {
            crate::tools::lemma_split_lengths(rest@, ","@);
            reveal_strlit(",");
        }
        match split_once(&rest, &comma) {
            Some((head, tail)) => {
                let h = trim(&head);
                if same_chars(&h, &want) {
                    return true;
                }
                rest = tail;
            },
            None => {
                let h = trim(&rest);
                return same_chars(&h, &want);
            },
        }
    }
    proof {
        crate::tools::lemma_split_lengths(rest@, ","@);
        reveal_strlit(",");
    }
    let h = trim(&rest);
    same_chars(&h, &want)
}

pub(crate) fn same_chars(a: &[char], b: &[char]) -> (r: bool)
    ensures
        r == (a@ == b@),
{
    let x = crate::text::string_of(a);
    let y = crate::text::string_of(b);
    same_text(&x, &y)
}

// ---- elementwise ----

impl Array {
    /// The sums, in the common type.
    pub fn add(&self, tape: &mut Tape, rhs: &Array) -> (r: Result<Array, Error>)
        requires
            self.wf(),
            rhs.wf(),
            roomy_pair(self.t@, rhs.t@),
        ensures
            (final(tape)@, shown(r)) == promoted_s(old(tape)@, self.t@, rhs.t@, "badd"@),
            r matches Ok(a) ==> a.wf(),
    {
        wrap(promoted_binary(tape, &self.t, &rhs.t, "badd"))
    }

    /// The differences, in the common type.
    pub fn subtract(&self, tape: &mut Tape, rhs: &Array) -> (r: Result<Array, Error>)
        requires
            self.wf(),
            rhs.wf(),
            roomy_pair(self.t@, rhs.t@),
        ensures
            (final(tape)@, shown(r)) == promoted_s(old(tape)@, self.t@, rhs.t@, "bsub"@),
            r matches Ok(a) ==> a.wf(),
    {
        wrap(promoted_binary(tape, &self.t, &rhs.t, "bsub"))
    }

    /// The products, in the common type.
    pub fn multiply(&self, tape: &mut Tape, rhs: &Array) -> (r: Result<Array, Error>)
        requires
            self.wf(),
            rhs.wf(),
            roomy_pair(self.t@, rhs.t@),
        ensures
            (final(tape)@, shown(r)) == promoted_s(old(tape)@, self.t@, rhs.t@, "bmul"@),
            r matches Ok(a) ==> a.wf(),
    {
        wrap(promoted_binary(tape, &self.t, &rhs.t, "bmul"))
    }

    /// The quotients, in the common type.
    pub fn divide(&self, tape: &mut Tape, rhs: &Array) -> (r: Result<Array, Error>)
        requires
            self.wf(),
            rhs.wf(),
            roomy_pair(self.t@, rhs.t@),
        ensures
            (final(tape)@, shown(r)) == promoted_s(old(tape)@, self.t@, rhs.t@, "bdiv"@),
            r matches Ok(a) ==> a.wf(),
    {
        wrap(promoted_binary(tape, &self.t, &rhs.t, "bdiv"))
    }

    /// The larger of each two elements, in the common type.
    pub fn maximum(&self, tape: &mut Tape, rhs: &Array) -> (r: Result<Array, Error>)
        requires
            self.wf(),
            rhs.wf(),
            roomy_pair(self.t@, rhs.t@),
        ensures
            (final(tape)@, shown(r)) == promoted_s(old(tape)@, self.t@, rhs.t@, "bmaximum"@),
            r matches Ok(a) ==> a.wf(),
    {
        wrap(promoted_binary(tape, &self.t, &rhs.t, "bmaximum"))
    }

    /// The smaller of each two elements, in the common type.
    pub fn minimum(&self, tape: &mut Tape, rhs: &Array) -> (r: Result<Array, Error>)
        requires
            self.wf(),
            rhs.wf(),
            roomy_pair(self.t@, rhs.t@),
        ensures
            (final(tape)@, shown(r)) == promoted_s(old(tape)@, self.t@, rhs.t@, "bminimum"@),
            r matches Ok(a) ==> a.wf(),
    {
        wrap(promoted_binary(tape, &self.t, &rhs.t, "bminimum"))
    }

    /// Whether either element is set, of elements that are zero or one.
    pub fn logical_or(&self, tape: &mut Tape, rhs: &Array) -> (r: Result<Array, Error>)
        requires
            self.wf(),
            rhs.wf(),
            roomy_pair(self.t@, rhs.t@),
        ensures
            (final(tape)@, shown(r)) == binary_s(old(tape)@, self.t@, rhs.t@, "bmaximum"@),
            r matches Ok(a) ==> a.wf(),
    {
        wrap(self.t.binary(tape, &rhs.t, "bmaximum"))
    }

    /// Whether both elements are set, of elements that are zero or one.
    pub fn logical_and(&self, tape: &mut Tape, rhs: &Array) -> (r: Result<Array, Error>)
        requires
            self.wf(),
            rhs.wf(),
            roomy_pair(self.t@, rhs.t@),
        ensures
            (final(tape)@, shown(r)) == binary_s(old(tape)@, self.t@, rhs.t@, "bmul"@),
            r matches Ok(a) ==> a.wf(),
    {
        wrap(self.t.binary(tape, &rhs.t, "bmul"))
    }

    /// Where the left element is at least the right one.
    pub fn ge(&self, tape: &mut Tape, rhs: &Array) -> (r: Result<Array, Error>)
        requires
            self.wf(),
            rhs.wf(),
            roomy_pair(self.t@, rhs.t@),
        ensures
            (final(tape)@, shown(r)) == compare_s(old(tape)@, self.t@, rhs.t@, "ge"@),
            r matches Ok(a) ==> a.wf(),
    {
        wrap(self.t.ge(tape, &rhs.t))
    }

    /// Where the left element is at most the right one.
    pub fn le(&self, tape: &mut Tape, rhs: &Array) -> (r: Result<Array, Error>)
        requires
            self.wf(),
            rhs.wf(),
            roomy_pair(self.t@, rhs.t@),
        ensures
            (final(tape)@, shown(r)) == compare_s(old(tape)@, self.t@, rhs.t@, "le"@),
            r matches Ok(a) ==> a.wf(),
    {
        wrap(self.t.le(tape, &rhs.t))
    }

    /// Where the left element is below the right one.
    pub fn lt(&self, tape: &mut Tape, rhs: &Array) -> (r: Result<Array, Error>)
        requires
            self.wf(),
            rhs.wf(),
            roomy_pair(self.t@, rhs.t@),
        ensures
            (final(tape)@, shown(r)) == compare_s(old(tape)@, self.t@, rhs.t@, "lt"@),
            r matches Ok(a) ==> a.wf(),
    {
        wrap(self.t.lt(tape, &rhs.t))
    }

    /// Where the left element is above the right one.
    pub fn gt(&self, tape: &mut Tape, rhs: &Array) -> (r: Result<Array, Error>)
        requires
            self.wf(),
            rhs.wf(),
            roomy_pair(self.t@, rhs.t@),
        ensures
            (final(tape)@, shown(r)) == compare_s(old(tape)@, self.t@, rhs.t@, "gt"@),
            r matches Ok(a) ==> a.wf(),
    {
        wrap(self.t.gt(tape, &rhs.t))
    }

    /// The sine of each element.
    pub fn sin(&self, tape: &mut Tape) -> (r: Result<Array, Error>)
        requires
            self.wf(),
        ensures
            (final(tape)@, shown(r)) == unary_s(old(tape)@, self.t@, "Sin"@),
            r matches Ok(a) ==> a.wf(),
    {
        wrap(self.t.sin(tape))
    }

    /// The cosine of each element.
    pub fn cos(&self, tape: &mut Tape) -> (r: Result<Array, Error>)
        requires
            self.wf(),
        ensures
            (final(tape)@, shown(r)) == unary_s(old(tape)@, self.t@, "Cos"@),
            r matches Ok(a) ==> a.wf(),
    {
        wrap(self.t.cos(tape))
    }

    /// Each element with the other sign.
    pub fn neg(&self, tape: &mut Tape) -> (r: Result<Array, Error>)
        requires
            self.wf(),
        ensures
            (final(tape)@, shown(r)) == unary_s(old(tape)@, self.t@, "Negative"@),
            r matches Ok(a) ==> a.wf(),
    {
        wrap(self.t.neg(tape))
    }

    /// The natural logarithm of each element. By the built-in kernel, unless it is to be composed.
    pub fn log(&self, tape: &mut Tape, native: bool) -> (r: Result<Array, Error>)
        requires
            self.wf(),
        ensures
            (final(tape)@, shown(r)) == (if native {
                unary_s(old(tape)@, self.t@, "Log"@)
            } else {
                unary_op_s(old(tape)@, self.t@, "Log"@)
            }),
            r matches Ok(a) ==> a.wf(),
    {
        if native {
            return wrap(self.t.log(tape));
        }
        wrap(crate::builtin::log(tape, &self.t))
    }

    /// The square root of each element. By the built-in kernel, unless it is to be composed.
    pub fn sqrt(&self, tape: &mut Tape, native: bool) -> (r: Result<Array, Error>)
        requires
            self.wf(),
        ensures
            (final(tape)@, shown(r)) == (if native {
                unary_s(old(tape)@, self.t@, "Sqrt"@)
            } else {
                unary_op_s(old(tape)@, self.t@, "Sqrt"@)
            }),
            r matches Ok(a) ==> a.wf(),
    {
        if native {
            return wrap(self.t.sqrt(tape));
        }
        wrap(crate::builtin::sqrt(tape, &self.t))
    }

    /// Each element without its sign. By the built-in kernel, unless it is to be composed.
    pub fn abs(&self, tape: &mut Tape, native: bool) -> (r: Result<Array, Error>)
        requires
            self.wf(),
        ensures
            (final(tape)@, shown(r)) == (if native {
                unary_s(old(tape)@, self.t@, "Abs"@)
            } else {
                unary_op_s(old(tape)@, self.t@, "Abs"@)
            }),
            r matches Ok(a) ==> a.wf(),
    {
        if native {
            return wrap(self.t.abs(tape));
        }
        wrap(crate::builtin::abs(tape, &self.t))
    }

    /// The sign of each element. By the built-in kernel, unless it is to be composed.
    pub fn sign(&self, tape: &mut Tape, native: bool) -> (r: Result<Array, Error>)
        requires
            self.wf(),
        ensures
            (final(tape)@, shown(r)) == (if native {
                unary_s(old(tape)@, self.t@, "Sign"@)
            } else {
                unary_op_s(old(tape)@, self.t@, "Sign"@)
            }),
            r matches Ok(a) ==> a.wf(),
    {
        if native {
            return wrap(self.t.sign(tape));
        }
        wrap(crate::builtin::sign(tape, &self.t))
    }

    /// The exponential of each element. By the built-in kernel, unless it is to be
    /// composed and the route does not ask for the kernel on this type.
    pub fn exp(&self, tape: &mut Tape, native: bool, route: &str) -> (r: Result<Array, Error>)
        requires
            self.wf(),
        ensures
            (final(tape)@, shown(r)) == (if !native || routed(route@, self.t@.dtype) {
                unary_op_s(old(tape)@, self.t@, "Exp"@)
            } else {
                unary_s(old(tape)@, self.t@, "Exp"@)
            }),
            r matches Ok(a) ==> a.wf(),
    {
        let single = self.t.dtype() == Dtype::Float32;
        let kernel = !native || same_text(route, "all") || (same_text(route, "f32") && single) || (
        same_text(route, "bf16") && !single);
        if kernel {
            return wrap(crate::builtin::exp(tape, &self.t));
        }
        wrap(self.t.exp(tape))
    }

    /// One over the square root of each element.
    pub fn rsqrt(&self, tape: &mut Tape, native: bool) -> (r: Result<Array, Error>)
        requires
            self.wf(),
        ensures
            (final(tape)@, shown(r)) == (if native {
                chain(
                    unary_s(old(tape)@, self.t@, "Sqrt"@),
                    |t: TapeV, x: ArrayV| recip_s(t, x),
                )
            } else {
                unary_op_s(old(tape)@, self.t@, "Rsqrt"@)
            }),
            r matches Ok(a) ==> a.wf(),
    {
        if native {
            return match self.t.sqrt(tape) {
                Ok(x) => wrap(x.recip(tape)),
                Err(e) => Err(e),
            };
        }
        wrap(crate::builtin::rsqrt(tape, &self.t))
    }

    /// The logistic function of each element.
    pub fn sigmoid(&self, tape: &mut Tape, native: bool) -> (r: Result<Array, Error>)
        requires
            self.wf(),
        ensures
            (final(tape)@, shown(r)) == (if native {
                logistic_s(old(tape)@, self.t@)
            } else {
                unary_op_s(old(tape)@, self.t@, "Sigmoid"@)
            }),
            r matches Ok(a) ==> a.wf(),
    {
        if !native {
            return wrap(crate::builtin::sigmoid(tape, &self.t));
        }
        let n = match self.t.neg(tape) {
            Ok(x) => x,
            Err(e) => {
                return Err(e);
            },
        };
        let e = match n.exp(tape) {
            Ok(x) => x,
            Err(e) => {
                return Err(e);
            },
        };
        let a = match e.affine(tape, Scalar::Bits(ONE), Scalar::Bits(ONE)) {
            Ok(x) => x,
            Err(e) => {
                return Err(e);
            },
        };
        wrap(a.recip(tape))
    }

    /// Each element times its logistic function.
    pub fn silu(&self, tape: &mut Tape, native: bool) -> (r: Result<Array, Error>)
        requires
            self.wf(),
        ensures
            (final(tape)@, shown(r)) == (if native {
                silu_s(old(tape)@, self.t@)
            } else {
                silu_op_s(old(tape)@, self.t@)
            }),
            r matches Ok(a) ==> a.wf(),
    {
        if native {
            return wrap(self.t.silu(tape));
        }
        wrap(crate::builtin::silu(tape, &self.t))
    }

    /// The natural logarithm of one more than each element.
    pub fn log1p(&self, tape: &mut Tape, native: bool) -> (r: Result<Array, Error>)
        requires
            self.wf(),
        ensures
            (final(tape)@, shown(r)) == (if native {
                chain(
                    affine_s(old(tape)@, self.t@, Scalar::Bits(ONE), Scalar::Bits(ONE)),
                    |t: TapeV, x: ArrayV| unary_s(t, x, "Log"@),
                )
            } else {
                unary_op_s(old(tape)@, self.t@, "Log1p"@)
            }),
            r matches Ok(a) ==> a.wf(),
    {
        if native {
            return match self.t.affine(tape, Scalar::Bits(ONE), Scalar::Bits(ONE)) {
                Ok(x) => wrap(x.log(tape)),
                Err(e) => Err(e),
            };
        }
        wrap(crate::builtin::log1p(tape, &self.t))
    }

    /// The logarithm of the sum of two exponentials, worked out from the larger
    /// one.
    pub fn logaddexp(&self, tape: &mut Tape, rhs: &Array) -> (r: Result<Array, Error>)
        requires
            self.wf(),
            rhs.wf(),
            roomy_pair(self.t@, rhs.t@),
        ensures
            (final(tape)@, shown(r)) == log_sum_s(old(tape)@, self.t@, rhs.t@),
            r matches Ok(a) ==> a.wf(),
    {
        let a = match self.t.maximum(tape, &rhs.t) {
            Ok(x) => x,
            Err(e) => {
                return Err(e);
            },
        };
        let b = match self.t.minimum(tape, &rhs.t) {
            Ok(x) => x,
            Err(e) => {
                return Err(e);
            },
        };
        proof {
            crate::elementwise::broadcasting_is_idempotent(
                broadcasted(self.t@.shape(), rhs.t@.shape()),
            );
        }
        let d = match b.sub(tape, &a) {
            Ok(x) => x,
            Err(e) => {
                return Err(e);
            },
        };
        let e = match d.exp(tape) {
            Ok(x) => x,
            Err(e) => {
                return Err(e);
            },
        };
        let m = match e.affine(tape, Scalar::Bits(ONE), Scalar::Bits(ONE)) {
            Ok(x) => x,
            Err(e) => {
                return Err(e);
            },
        };
        let l = match m.log(tape) {
            Ok(x) => x,
            Err(e) => {
                return Err(e);
            },
        };
        wrap(a.add(tape, &l))
    }

    /// Where an element is no number.
    pub fn is_nan(&self, tape: &mut Tape) -> (r: Result<Array, Error>)
        requires
            self.wf(),
        ensures
            (final(tape)@, shown(r)) == compare_s(old(tape)@, self.t@, self.t@, "ne"@),
            r matches Ok(a) ==> a.wf(),
    {
        wrap(self.t.is_nan(tape))
    }

    /// The quotients rounded down, worked out in 32-bit floats and given in the
    /// common type.
    pub fn floor_divide(&self, tape: &mut Tape, rhs: &Array) -> (r: Result<Array, Error>)
        requires
            self.wf(),
            rhs.wf(),
            roomy_pair(self.t@, rhs.t@),
        ensures
            (final(tape)@, shown(r)) == floor_s(old(tape)@, self.t@, rhs.t@),
            r matches Ok(a) ==> a.wf(),
    {
        let dt = promote_dtype(self.t.dtype(), rhs.t.dtype());
        let a = match self.t.to_dtype(tape, Dtype::Float32) {
            Ok(x) => x,
            Err(e) => {
                return Err(e);
            },
        };
        let b = match rhs.t.to_dtype(tape, Dtype::Float32) {
            Ok(x) => x,
            Err(e) => {
                return Err(e);
            },
        };
        let q = match a.broadcast_div(tape, &b) {
            Ok(x) => x,
            Err(e) => {
                return Err(e);
            },
        };
        match q.floor(tape) {
            Ok(f) => wrap(f.to_dtype(tape, dt)),
            Err(e) => Err(e),
        }
    }

    /// One array where a condition holds, and another where it does not.
    pub fn where_(tape: &mut Tape, cond: &Array, a: &Array, b: &Array) -> (r: Result<Array, Error>)
        requires
            cond.wf(),
            a.wf(),
            b.wf(),
        ensures
            (final(tape)@, shown(r)) == where_s(old(tape)@, cond.t@, a.t@, b.t@),
            r matches Ok(x) ==> x.wf(),
    {
        wrap(cond.t.where_cond(tape, &a.t, &b.t))
    }

    /// One where an element is zero and zero where it is one.
    pub fn logical_not(&self, tape: &mut Tape) -> (r: Result<Array, Error>)
        requires
            self.wf(),
        ensures
            (final(tape)@, shown(r)) == affine_s(
                old(tape)@,
                self.t@,
                Scalar::Bits(MINUS_ONE),
                Scalar::Bits(ONE),
            ),
            r matches Ok(a) ==> a.wf(),
    {
        wrap(self.t.affine(tape, Scalar::Bits(MINUS_ONE), Scalar::Bits(ONE)))
    }

    /// The elements in another type.
    pub fn as_dtype(&self, tape: &mut Tape, dtype: Dtype) -> (r: Result<Array, Error>)
        requires
            self.wf(),
        ensures
            (final(tape)@, shown(r)) == cast_s(old(tape)@, self.t@, dtype),
            r matches Ok(a) ==> a.wf(),
    {
        wrap(self.t.to_dtype(tape, dtype))
    }
}

/// Whether a route asks for the kernel on a type.
pub open spec fn routed(route: Seq<char>, dtype: Dtype) -> bool {
    route == "all"@ || (route == "f32"@ && dtype == Dtype::Float32) || (route == "bf16"@ && dtype
        != Dtype::Float32)
}

/// The logistic function, composed.
pub open spec fn logistic_s(t: TapeV, x: ArrayV) -> (TapeV, Outcome) {
    chain(
        unary_s(t, x, "Negative"@),
        |t1: TapeV, n: ArrayV|
            chain(
                unary_s(t1, n, "Exp"@),
                |t2: TapeV, e: ArrayV|
                    chain(
                        affine_s(t2, e, Scalar::Bits(ONE), Scalar::Bits(ONE)),
                        |t3: TapeV, a: ArrayV| recip_s(t3, a),
                    ),
            ),
    )
}

/// The logarithm of the sum of two exponentials, composed.
pub open spec fn log_sum_s(t: TapeV, x: ArrayV, y: ArrayV) -> (TapeV, Outcome) {
    chain(
        binary_s(t, x, y, "bmaximum"@),
        |t1: TapeV, a: ArrayV|
            chain(
                binary_s(t1, x, y, "bminimum"@),
                |t2: TapeV, b: ArrayV|
                    chain(
                        binary_s(t2, b, a, "bsub"@),
                        |t3: TapeV, d: ArrayV|
                            chain(
                                unary_s(t3, d, "Exp"@),
                                |t4: TapeV, e: ArrayV|
                                    chain(
                                        affine_s(t4, e, Scalar::Bits(ONE), Scalar::Bits(ONE)),
                                        |t5: TapeV, m: ArrayV|
                                            chain(
                                                unary_s(t5, m, "Log"@),
                                                |t6: TapeV, l: ArrayV|
                                                    binary_s(t6, a, l, "badd"@),
                                            ),
                                    ),
                            ),
                    ),
            ),
    )
}

/// The quotients rounded down, in the common type.
pub open spec fn floor_s(t: TapeV, x: ArrayV, y: ArrayV) -> (TapeV, Outcome) {
    chain(
        cast_s(t, x, Dtype::Float32),
        |t1: TapeV, a: ArrayV|
            chain(
                cast_s(t1, y, Dtype::Float32),
                |t2: TapeV, b: ArrayV|
                    chain(
                        binary_s(t2, a, b, "bdiv"@),
                        |t3: TapeV, q: ArrayV|
                            chain(
                                unary_s(t3, q, "Floor"@),
                                |t4: TapeV, f: ArrayV|
                                    cast_s(t4, f, promoted(x.dtype, y.dtype)),
                            ),
                    ),
            ),
    )
}

/// Which operation an array and a number stand in.
#[derive(Clone, Copy, PartialEq, Eq, Structural, Debug)]
pub enum ScalarOp {
    Add,
    Sub,
    Mul,
    Div,
}

pub open spec fn scalar_kernel(op: ScalarOp) -> Seq<char> {
    match op {
        ScalarOp::Add => "badd"@,
        ScalarOp::Sub => "bsub"@,
        ScalarOp::Mul => "bmul"@,
        ScalarOp::Div => "bdiv"@,
    }
}

fn kernel_of(op: ScalarOp) -> (s: &'static str)
    ensures
        s@ == scalar_kernel(op),
{
    match op {
        ScalarOp::Add => "badd",
        ScalarOp::Sub => "bsub",
        ScalarOp::Mul => "bmul",
        ScalarOp::Div => "bdiv",
    }
}

/// An array and a number, in their common type.
pub fn scalar_op<T: ScalarVal>(tape: &mut Tape, a: &Array, s: T, op: ScalarOp) -> (r: Result<
    Array,
    Error,
>)
    requires
        a.wf(),
    ensures
        (final(tape)@, shown(r)) == chain(
            scalar_s(old(tape)@, s.number(), Dtype::Float32),
            |t: TapeV, n: ArrayV| promoted_s(t, a.t@, n, scalar_kernel(op)),
        ),
        r matches Ok(x) ==> x.wf(),
{
    proof {
        lemma_with_scalar(a.t@.shape());
    }
    match s.tensor(tape) {
        Ok(n) => wrap(promoted_binary(tape, &a.t, &n, kernel_of(op))),
        Err(e) => Err(e),
    }
}

/// A number and an array, in their common type.
pub open spec fn reversed_s(t: TapeV, n: ArrayV, a: ArrayV, op: Seq<char>) -> (TapeV, Outcome) {
    let dt = promoted(a.dtype, n.dtype);
    chain(
        cast_s(t, n, dt),
        |t1: TapeV, x: ArrayV|
            chain(cast_s(t1, a, dt), |t2: TapeV, y: ArrayV| binary_s(t2, x, y, op)),
    )
}

/// A number less an array, or divided by it, in their common type.
pub fn scalar_op_rev<T: ScalarVal>(tape: &mut Tape, a: &Array, s: T, sub: bool) -> (r: Result<
    Array,
    Error,
>)
    requires
        a.wf(),
    ensures
        (final(tape)@, shown(r)) == chain(
            scalar_s(old(tape)@, s.number(), Dtype::Float32),
            |t: TapeV, n: ArrayV|
                reversed_s(
                    t,
                    n,
                    a.t@,
                    if sub {
                        "bsub"@
                    } else {
                        "bdiv"@
                    },
                ),
        ),
        r matches Ok(x) ==> x.wf(),
{
    proof {
        lemma_with_scalar(a.t@.shape());
    }
    let n = match s.tensor(tape) {
        Ok(n) => n,
        Err(e) => {
            return Err(e);
        },
    };
    let dt = promote_dtype(a.t.dtype(), n.dtype());
    let x = match n.to_dtype(tape, dt) {
        Ok(x) => x,
        Err(e) => {
            return Err(e);
        },
    };
    let y = match a.t.to_dtype(tape, dt) {
        Ok(y) => y,
        Err(e) => {
            return Err(e);
        },
    };
    wrap(
        x.binary(
            tape,
            &y,
            if sub {
                "bsub"
            } else {
                "bdiv"
            },
        ),
    )
}

// ---- reductions ----

/// A reduction over all elements or over one axis; over several it is not done.
pub open spec fn reduce_s(
    t: TapeV,
    a: ArrayV,
    axis: Option<Seq<i32>>,
    op: Reduction,
    back: bool,
    many: Seq<char>,
) -> (TapeV, Outcome) {
    match axis {
        None => {
            let whole = chain(
                flatten_s(t, a),
                |t1: TapeV, x: ArrayV| reduce_any_s(t1, x, op),
            );
            if back {
                chain(whole, |t2: TapeV, s: ArrayV| cast_s(t2, s, a.dtype))
            } else {
                whole
            }
        },
        Some(v) => if v.len() == 1 {
            reduce_axis_any_s(t, a, v[0] as usize as i32, op)
        } else {
            (t, Err(many))
        },
    }
}

pub open spec fn axis_list(axis: Option<&[i32]>) -> Option<Seq<i32>> {
    match axis {
        Some(v) => Some(v@),
        None => None,
    }
}

impl Array {
    /// The sum over all elements, or along one axis.
    pub fn sum(&self, tape: &mut Tape, axis: Option<&[i32]>) -> (r: Result<Array, Error>)
        requires
            self.wf(),
            self.t@.rank() <= i32::MAX,
        ensures
            (final(tape)@, shown(r)) == reduce_s(
                old(tape)@,
                self.t@,
                axis_list(axis),
                Reduction::Sum,
                true,
                "multi-axis sum not implemented"@,
            ),
            r matches Ok(a) ==> a.wf(),
    {
        match axis {
            None => match self.t.sum_all(tape) {
                Ok(s) => wrap(s.to_dtype(tape, self.t.dtype())),
                Err(e) => Err(e),
            },
            Some(v) => {
                if v.len() == 1 {
                    wrap(self.t.sum(tape, v[0] as usize))
                } else {
                    Err(Error::msg("multi-axis sum not implemented"))
                }
            },
        }
    }

    /// The mean over all elements, or along one axis.
    pub fn mean(&self, tape: &mut Tape, axis: Option<&[i32]>) -> (r: Result<Array, Error>)
        requires
            self.wf(),
            self.t@.rank() <= i32::MAX,
        ensures
            (final(tape)@, shown(r)) == reduce_s(
                old(tape)@,
                self.t@,
                axis_list(axis),
                Reduction::Mean,
                true,
                "multi-axis mean not implemented"@,
            ),
            r matches Ok(a) ==> a.wf(),
    {
        match axis {
            None => match self.t.mean_all(tape) {
                Ok(s) => wrap(s.to_dtype(tape, self.t.dtype())),
                Err(e) => Err(e),
            },
            Some(v) => {
                if v.len() == 1 {
                    wrap(self.t.mean(tape, v[0] as usize))
                } else {
                    Err(Error::msg("multi-axis mean not implemented"))
                }
            },
        }
    }

    /// The largest element over all elements, or along one axis.
    pub fn max(&self, tape: &mut Tape, axis: Option<&[i32]>) -> (r: Result<Array, Error>)
        requires
            self.wf(),
            self.t@.rank() <= i32::MAX,
        ensures
            (final(tape)@, shown(r)) == reduce_s(
                old(tape)@,
                self.t@,
                axis_list(axis),
                Reduction::Max,
                false,
                "multi-axis max not implemented"@,
            ),
            r matches Ok(a) ==> a.wf(),
    {
        match axis {
            None => wrap(self.t.max_all(tape)),
            Some(v) => {
                if v.len() == 1 {
                    wrap(self.t.max(tape, v[0] as usize))
                } else {
                    Err(Error::msg("multi-axis max not implemented"))
                }
            },
        }
    }

    /// The smallest element over all elements, or along one axis.
    pub fn min(&self, tape: &mut Tape, axis: Option<&[i32]>) -> (r: Result<Array, Error>)
        requires
            self.wf(),
            self.t@.rank() <= i32::MAX,
        ensures
            (final(tape)@, shown(r)) == reduce_s(
                old(tape)@,
                self.t@,
                axis_list(axis),
                Reduction::Min,
                false,
                "multi-axis min not implemented"@,
            ),
            r matches Ok(a) ==> a.wf(),
    {
        match axis {
            None => wrap(self.t.min_all(tape)),
            Some(v) => {
                if v.len() == 1 {
                    wrap(self.t.min(tape, v[0] as usize))
                } else {
                    Err(Error::msg("multi-axis min not implemented"))
                }
            },
        }
    }

    /// The sum along an axis, which may be kept with size one.
    pub fn sum_axis(&self, tape: &mut Tape, axis: i32, keep: bool) -> (r: Result<Array, Error>)
        requires
            self.wf(),
            0 < self.t@.rank() <= i32::MAX,
        ensures
            (final(tape)@, shown(r)) == kept_s(
                reduce_axis_s(old(tape)@, self.t@, axis, Reduction::Sum),
                keep,
                axis_of(self.t@.rank(), axis) as usize,
            ),
            r matches Ok(a) ==> a.wf(),
    {
        match crate::reduce::reduce_axis(tape, &self.t, axis, Reduction::Sum) {
            Ok(s) => {
                if keep {
                    let ax = self.axis(axis);
                    wrap(s.unsqueeze(ax))
                } else {
                    Ok(Array::new(s))
                }
            },
            Err(e) => Err(e),
        }
    }

    /// The mean along an axis, which may be kept with size one.
    pub fn mean_axis(&self, tape: &mut Tape, axis: i32, keep: bool) -> (r: Result<Array, Error>)
        requires
            self.wf(),
            0 < self.t@.rank() <= i32::MAX,
        ensures
            (final(tape)@, shown(r)) == kept_s(
                reduce_axis_s(old(tape)@, self.t@, axis, Reduction::Mean),
                keep,
                axis_of(self.t@.rank(), axis) as usize,
            ),
            r matches Ok(a) ==> a.wf(),
    {
        match crate::reduce::reduce_axis(tape, &self.t, axis, Reduction::Mean) {
            Ok(s) => {
                if keep {
                    let ax = self.axis(axis);
                    wrap(s.unsqueeze(ax))
                } else {
                    Ok(Array::new(s))
                }
            },
            Err(e) => Err(e),
        }
    }

}

/// A reduced array, its axis kept with size one if so wanted.
pub open spec fn kept_s(o: (TapeV, Outcome), keep: bool, axis: usize) -> (TapeV, Outcome) {
    chain(
        o,
        |t: TapeV, s: ArrayV|
            if keep {
                (t, expand_s(s, axis))
            } else {
                (t, Outcome::Ok(s))
            },
    )
}

} // verus!
