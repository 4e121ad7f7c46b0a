//! The named operations of arrays.

use vstd::prelude::*;

use crate::array::{err, flatten_s, seen, Array, ArrayV, Outcome};
use crate::dtype::Dtype;
use crate::elementwise::{
    binary_s, broadcasted, broadcasting_is_idempotent, cast_s, compare_s, compatible, roomy_pair,
    scalar_s,
};
use crate::error::Error;
use crate::ops::unary_s;
use crate::reduce::{reduce_any_s, reduce_axis_any_s, Reduction};
use crate::search::{arg_any_s, Extreme};
use crate::tape::{Scalar, Tape, TapeV};

verus! {

/// One operation after another: the second works on what the first gives.
pub open spec fn chain(
    first: (TapeV, Outcome),
    next: spec_fn(TapeV, ArrayV) -> (TapeV, Outcome),
) -> (TapeV, Outcome) {
    match first {
        (t, Ok(a)) => next(t, a),
        (t, Err(e)) => (t, Err(e)),
    }
}

/// A shape spread with a number is that shape.
pub proof fn lemma_with_scalar(s: Seq<usize>)
    ensures
        compatible(s, Seq::empty()),
        broadcasted(s, Seq::empty()) == s,
        compatible(Seq::empty(), s),
        broadcasted(Seq::empty(), s) == s,
{
    assert(broadcasted(s, Seq::empty()) =~= s);
    assert(broadcasted(Seq::empty(), s) =~= s);
}

/// The bits of a 32-bit one, and of its negative.
pub const ONE: u32 = 0x3F80_0000;

pub const MINUS_ONE: u32 = 0xBF80_0000;

impl Array {
    /// The exponential of each element.
    pub fn exp(&self, tape: &mut Tape) -> (r: Result<Array, Error>)
        requires
            self@.wf(),
        ensures
            (final(tape)@, seen(r)) == unary_s(old(tape)@, self@, "Exp"@),
            r matches Ok(a) ==> a@.wf() && a@.shape() == self@.shape() && a@.dtype == self@.dtype,
    {
        self.unary(tape, "Exp")
    }

    /// The natural logarithm of each element.
    pub fn log(&self, tape: &mut Tape) -> (r: Result<Array, Error>)
        requires
            self@.wf(),
        ensures
            (final(tape)@, seen(r)) == unary_s(old(tape)@, self@, "Log"@),
            r matches Ok(a) ==> a@.wf() && a@.shape() == self@.shape() && a@.dtype == self@.dtype,
    {
        self.unary(tape, "Log")
    }

    /// The natural logarithm of one more than each element.
    pub fn log1p(&self, tape: &mut Tape) -> (r: Result<Array, Error>)
        requires
            self@.wf(),
        ensures
            (final(tape)@, seen(r)) == unary_s(old(tape)@, self@, "Log1p"@),
            r matches Ok(a) ==> a@.wf() && a@.shape() == self@.shape() && a@.dtype == self@.dtype,
    {
        self.unary(tape, "Log1p")
    }

    /// The sine of each element.
    pub fn sin(&self, tape: &mut Tape) -> (r: Result<Array, Error>)
        requires
            self@.wf(),
        ensures
            (final(tape)@, seen(r)) == unary_s(old(tape)@, self@, "Sin"@),
            r matches Ok(a) ==> a@.wf() && a@.shape() == self@.shape() && a@.dtype == self@.dtype,
    {
        self.unary(tape, "Sin")
    }

    /// The cosine of each element.
    pub fn cos(&self, tape: &mut Tape) -> (r: Result<Array, Error>)
        requires
            self@.wf(),
        ensures
            (final(tape)@, seen(r)) == unary_s(old(tape)@, self@, "Cos"@),
            r matches Ok(a) ==> a@.wf() && a@.shape() == self@.shape() && a@.dtype == self@.dtype,
    {
        self.unary(tape, "Cos")
    }

    /// The square root of each element.
    pub fn sqrt(&self, tape: &mut Tape) -> (r: Result<Array, Error>)
        requires
            self@.wf(),
        ensures
            (final(tape)@, seen(r)) == unary_s(old(tape)@, self@, "Sqrt"@),
            r matches Ok(a) ==> a@.wf() && a@.shape() == self@.shape() && a@.dtype == self@.dtype,
    {
        self.unary(tape, "Sqrt")
    }

    /// One over the square root of each element.
    pub fn rsqrt(&self, tape: &mut Tape) -> (r: Result<Array, Error>)
        requires
            self@.wf(),
        ensures
            (final(tape)@, seen(r)) == unary_s(old(tape)@, self@, "Rsqrt"@),
            r matches Ok(a) ==> a@.wf() && a@.shape() == self@.shape() && a@.dtype == self@.dtype,
    {
        self.unary(tape, "Rsqrt")
    }

    /// Each element without its sign.
    pub fn abs(&self, tape: &mut Tape) -> (r: Result<Array, Error>)
        requires
            self@.wf(),
        ensures
            (final(tape)@, seen(r)) == unary_s(old(tape)@, self@, "Abs"@),
            r matches Ok(a) ==> a@.wf() && a@.shape() == self@.shape() && a@.dtype == self@.dtype,
    {
        self.unary(tape, "Abs")
    }

    /// The sign of each element.
    pub fn sign(&self, tape: &mut Tape) -> (r: Result<Array, Error>)
        requires
            self@.wf(),
        ensures
            (final(tape)@, seen(r)) == unary_s(old(tape)@, self@, "Sign"@),
            r matches Ok(a) ==> a@.wf() && a@.shape() == self@.shape() && a@.dtype == self@.dtype,
    {
        self.unary(tape, "Sign")
    }

    /// Each element with the other sign.
    pub fn neg(&self, tape: &mut Tape) -> (r: Result<Array, Error>)
        requires
            self@.wf(),
        ensures
            (final(tape)@, seen(r)) == unary_s(old(tape)@, self@, "Negative"@),
            r matches Ok(a) ==> a@.wf() && a@.shape() == self@.shape() && a@.dtype == self@.dtype,
    {
        self.unary(tape, "Negative")
    }

    /// The logistic function of each element.
    pub fn sigmoid(&self, tape: &mut Tape) -> (r: Result<Array, Error>)
        requires
            self@.wf(),
        ensures
            (final(tape)@, seen(r)) == unary_s(old(tape)@, self@, "Sigmoid"@),
            r matches Ok(a) ==> a@.wf() && a@.shape() == self@.shape() && a@.dtype == self@.dtype,
    {
        self.unary(tape, "Sigmoid")
    }

    /// Each element times itself.
    pub fn square(&self, tape: &mut Tape) -> (r: Result<Array, Error>)
        requires
            self@.wf(),
        ensures
            (final(tape)@, seen(r)) == unary_s(old(tape)@, self@, "Square"@),
            r matches Ok(a) ==> a@.wf() && a@.shape() == self@.shape() && a@.dtype == self@.dtype,
    {
        self.unary(tape, "Square")
    }

    /// Each element rounded down.
    pub fn floor(&self, tape: &mut Tape) -> (r: Result<Array, Error>)
        requires
            self@.wf(),
        ensures
            (final(tape)@, seen(r)) == unary_s(old(tape)@, self@, "Floor"@),
            r matches Ok(a) ==> a@.wf() && a@.shape() == self@.shape() && a@.dtype == self@.dtype,
    {
        self.unary(tape, "Floor")
    }

    /// The sums.
    pub fn add(&self, tape: &mut Tape, other: &Array) -> (r: Result<Array, Error>)
        requires
            self@.wf(),
            other@.wf(),
            roomy_pair(self@, other@),
        ensures
            (final(tape)@, seen(r)) == binary_s(old(tape)@, self@, other@, "badd"@),
            r matches Ok(x) ==> x@.wf() && x@.shape() == broadcasted(self@.shape(), other@.shape())
                && x@.dtype == self@.dtype,
    {
        self.binary(tape, other, "badd")
    }

    /// The differences.
    pub fn subtract(&self, tape: &mut Tape, other: &Array) -> (r: Result<Array, Error>)
        requires
            self@.wf(),
            other@.wf(),
            roomy_pair(self@, other@),
        ensures
            (final(tape)@, seen(r)) == binary_s(old(tape)@, self@, other@, "bsub"@),
            r matches Ok(x) ==> x@.wf() && x@.shape() == broadcasted(self@.shape(), other@.shape())
                && x@.dtype == self@.dtype,
    {
        self.binary(tape, other, "bsub")
    }

    /// The products.
    pub fn multiply(&self, tape: &mut Tape, other: &Array) -> (r: Result<Array, Error>)
        requires
            self@.wf(),
            other@.wf(),
            roomy_pair(self@, other@),
        ensures
            (final(tape)@, seen(r)) == binary_s(old(tape)@, self@, other@, "bmul"@),
            r matches Ok(x) ==> x@.wf() && x@.shape() == broadcasted(self@.shape(), other@.shape())
                && x@.dtype == self@.dtype,
    {
        self.binary(tape, other, "bmul")
    }

    /// The quotients.
    pub fn divide(&self, tape: &mut Tape, other: &Array) -> (r: Result<Array, Error>)
        requires
            self@.wf(),
            other@.wf(),
            roomy_pair(self@, other@),
        ensures
            (final(tape)@, seen(r)) == binary_s(old(tape)@, self@, other@, "bdiv"@),
            r matches Ok(x) ==> x@.wf() && x@.shape() == broadcasted(self@.shape(), other@.shape())
                && x@.dtype == self@.dtype,
    {
        self.binary(tape, other, "bdiv")
    }

    /// The larger of each two elements.
    pub fn maximum(&self, tape: &mut Tape, other: &Array) -> (r: Result<Array, Error>)
        requires
            self@.wf(),
            other@.wf(),
            roomy_pair(self@, other@),
        ensures
            (final(tape)@, seen(r)) == binary_s(old(tape)@, self@, other@, "bmaximum"@),
            r matches Ok(x) ==> x@.wf() && x@.shape() == broadcasted(self@.shape(), other@.shape())
                && x@.dtype == self@.dtype,
    {
        self.binary(tape, other, "bmaximum")
    }

    /// The smaller of each two elements.
    pub fn minimum(&self, tape: &mut Tape, other: &Array) -> (r: Result<Array, Error>)
        requires
            self@.wf(),
            other@.wf(),
            roomy_pair(self@, other@),
        ensures
            (final(tape)@, seen(r)) == binary_s(old(tape)@, self@, other@, "bminimum"@),
            r matches Ok(x) ==> x@.wf() && x@.shape() == broadcasted(self@.shape(), other@.shape())
                && x@.dtype == self@.dtype,
    {
        self.binary(tape, other, "bminimum")
    }

    /// The products, by another name.
    pub fn mul(&self, tape: &mut Tape, other: &Array) -> (r: Result<Array, Error>)
        requires
            self@.wf(),
            other@.wf(),
            roomy_pair(self@, other@),
        ensures
            (final(tape)@, seen(r)) == binary_s(old(tape)@, self@, other@, "bmul"@),
            r matches Ok(x) ==> x@.wf() && x@.shape() == broadcasted(self@.shape(), other@.shape())
                && x@.dtype == self@.dtype,
    {
        self.binary(tape, other, "bmul")
    }

    /// The differences, by another name.
    pub fn sub(&self, tape: &mut Tape, other: &Array) -> (r: Result<Array, Error>)
        requires
            self@.wf(),
            other@.wf(),
            roomy_pair(self@, other@),
        ensures
            (final(tape)@, seen(r)) == binary_s(old(tape)@, self@, other@, "bsub"@),
            r matches Ok(x) ==> x@.wf() && x@.shape() == broadcasted(self@.shape(), other@.shape())
                && x@.dtype == self@.dtype,
    {
        self.binary(tape, other, "bsub")
    }

    /// The products, by another name.
    pub fn broadcast_mul(&self, tape: &mut Tape, other: &Array) -> (r: Result<Array, Error>)
        requires
            self@.wf(),
            other@.wf(),
            roomy_pair(self@, other@),
        ensures
            (final(tape)@, seen(r)) == binary_s(old(tape)@, self@, other@, "bmul"@),
            r matches Ok(x) ==> x@.wf() && x@.shape() == broadcasted(self@.shape(), other@.shape())
                && x@.dtype == self@.dtype,
    {
        self.binary(tape, other, "bmul")
    }

    /// The sums, by another name.
    pub fn broadcast_add(&self, tape: &mut Tape, other: &Array) -> (r: Result<Array, Error>)
        requires
            self@.wf(),
            other@.wf(),
            roomy_pair(self@, other@),
        ensures
            (final(tape)@, seen(r)) == binary_s(old(tape)@, self@, other@, "badd"@),
            r matches Ok(x) ==> x@.wf() && x@.shape() == broadcasted(self@.shape(), other@.shape())
                && x@.dtype == self@.dtype,
    {
        self.binary(tape, other, "badd")
    }

    /// The differences, by another name.
    pub fn broadcast_sub(&self, tape: &mut Tape, other: &Array) -> (r: Result<Array, Error>)
        requires
            self@.wf(),
            other@.wf(),
            roomy_pair(self@, other@),
        ensures
            (final(tape)@, seen(r)) == binary_s(old(tape)@, self@, other@, "bsub"@),
            r matches Ok(x) ==> x@.wf() && x@.shape() == broadcasted(self@.shape(), other@.shape())
                && x@.dtype == self@.dtype,
    {
        self.binary(tape, other, "bsub")
    }

    /// The quotients, by another name.
    pub fn broadcast_div(&self, tape: &mut Tape, other: &Array) -> (r: Result<Array, Error>)
        requires
            self@.wf(),
            other@.wf(),
            roomy_pair(self@, other@),
        ensures
            (final(tape)@, seen(r)) == binary_s(old(tape)@, self@, other@, "bdiv"@),
            r matches Ok(x) ==> x@.wf() && x@.shape() == broadcasted(self@.shape(), other@.shape())
                && x@.dtype == self@.dtype,
    {
        self.binary(tape, other, "bdiv")
    }

    /// Whether either element is set, of elements that are zero or one.
    pub fn logical_or(&self, tape: &mut Tape, other: &Array) -> (r: Result<Array, Error>)
        requires
            self@.wf(),
            other@.wf(),
            roomy_pair(self@, other@),
        ensures
            (final(tape)@, seen(r)) == binary_s(old(tape)@, self@, other@, "bmaximum"@),
            r matches Ok(x) ==> x@.wf() && x@.shape() == broadcasted(self@.shape(), other@.shape())
                && x@.dtype == self@.dtype,
    {
        self.binary(tape, other, "bmaximum")
    }

    /// Whether both elements are set, of elements that are zero or one.
    pub fn logical_and(&self, tape: &mut Tape, other: &Array) -> (r: Result<Array, Error>)
        requires
            self@.wf(),
            other@.wf(),
            roomy_pair(self@, other@),
        ensures
            (final(tape)@, seen(r)) == binary_s(old(tape)@, self@, other@, "bmul"@),
            r matches Ok(x) ==> x@.wf() && x@.shape() == broadcasted(self@.shape(), other@.shape())
                && x@.dtype == self@.dtype,
    {
        self.binary(tape, other, "bmul")
    }

    /// Where the left element is at least the right one.
    pub fn ge(&self, tape: &mut Tape, other: &Array) -> (r: Result<Array, Error>)
        requires
            self@.wf(),
            other@.wf(),
            roomy_pair(self@, other@),
        ensures
            (final(tape)@, seen(r)) == compare_s(old(tape)@, self@, other@, "ge"@),
            r matches Ok(x) ==> x@.wf() && x@.shape() == broadcasted(self@.shape(), other@.shape())
                && x@.dtype == Dtype::Uint8,
    {
        self.cmp(tape, other, "ge")
    }

    /// Where the left element is at most the right one.
    pub fn le(&self, tape: &mut Tape, other: &Array) -> (r: Result<Array, Error>)
        requires
            self@.wf(),
            other@.wf(),
            roomy_pair(self@, other@),
        ensures
            (final(tape)@, seen(r)) == compare_s(old(tape)@, self@, other@, "le"@),
            r matches Ok(x) ==> x@.wf() && x@.shape() == broadcasted(self@.shape(), other@.shape())
                && x@.dtype == Dtype::Uint8,
    {
        self.cmp(tape, other, "le")
    }

    /// Where the left element is below the right one.
    pub fn lt(&self, tape: &mut Tape, other: &Array) -> (r: Result<Array, Error>)
        requires
            self@.wf(),
            other@.wf(),
            roomy_pair(self@, other@),
        ensures
            (final(tape)@, seen(r)) == compare_s(old(tape)@, self@, other@, "lt"@),
            r matches Ok(x) ==> x@.wf() && x@.shape() == broadcasted(self@.shape(), other@.shape())
                && x@.dtype == Dtype::Uint8,
    {
        self.cmp(tape, other, "lt")
    }

    /// Where the left element is above the right one.
    pub fn gt(&self, tape: &mut Tape, other: &Array) -> (r: Result<Array, Error>)
        requires
            self@.wf(),
            other@.wf(),
            roomy_pair(self@, other@),
        ensures
            (final(tape)@, seen(r)) == compare_s(old(tape)@, self@, other@, "gt"@),
            r matches Ok(x) ==> x@.wf() && x@.shape() == broadcasted(self@.shape(), other@.shape())
                && x@.dtype == Dtype::Uint8,
    {
        self.cmp(tape, other, "gt")
    }

    /// Where the elements are equal.
    pub fn eq(&self, tape: &mut Tape, other: &Array) -> (r: Result<Array, Error>)
        requires
            self@.wf(),
            other@.wf(),
            roomy_pair(self@, other@),
        ensures
            (final(tape)@, seen(r)) == compare_s(old(tape)@, self@, other@, "eq"@),
            r matches Ok(x) ==> x@.wf() && x@.shape() == broadcasted(self@.shape(), other@.shape())
                && x@.dtype == Dtype::Uint8,
    {
        self.cmp(tape, other, "eq")
    }

    /// Where the elements differ.
    pub fn ne(&self, tape: &mut Tape, other: &Array) -> (r: Result<Array, Error>)
        requires
            self@.wf(),
            other@.wf(),
            roomy_pair(self@, other@),
        ensures
            (final(tape)@, seen(r)) == compare_s(old(tape)@, self@, other@, "ne"@),
            r matches Ok(x) ==> x@.wf() && x@.shape() == broadcasted(self@.shape(), other@.shape())
                && x@.dtype == Dtype::Uint8,
    {
        self.cmp(tape, other, "ne")
    }

    /// The sum along an axis.
    pub fn sum(&self, tape: &mut Tape, axis: usize) -> (r: Result<Array, Error>)
        requires
            self@.wf(),
            self@.rank() <= i32::MAX,
        ensures
            (final(tape)@, seen(r)) == reduce_axis_any_s(
                old(tape)@,
                self@,
                axis as i32,
                Reduction::Sum,
            ),
            r matches Ok(a) ==> a@.wf(),
    {
        self.reduce_axis(tape, axis as i32, Reduction::Sum)
    }

    /// The sum of all elements.
    pub fn sum_all(&self, tape: &mut Tape) -> (r: Result<Array, Error>)
        requires
            self@.wf(),
        ensures
            (final(tape)@, seen(r)) == chain(
                flatten_s(old(tape)@, self@),
                |t: TapeV, a: ArrayV| reduce_any_s(t, a, Reduction::Sum),
            ),
            r matches Ok(a) ==> a@.wf(),
    {
        match self.flatten_all(tape) {
            Ok(a) => a.reduce_last_axis(tape, Reduction::Sum),
            Err(e) => Err(e),
        }
    }

    /// The mean along an axis.
    pub fn mean(&self, tape: &mut Tape, axis: usize) -> (r: Result<Array, Error>)
        requires
            self@.wf(),
            self@.rank() <= i32::MAX,
        ensures
            (final(tape)@, seen(r)) == reduce_axis_any_s(
                old(tape)@,
                self@,
                axis as i32,
                Reduction::Mean,
            ),
            r matches Ok(a) ==> a@.wf(),
    {
        self.reduce_axis(tape, axis as i32, Reduction::Mean)
    }

    /// The mean of all elements.
    pub fn mean_all(&self, tape: &mut Tape) -> (r: Result<Array, Error>)
        requires
            self@.wf(),
        ensures
            (final(tape)@, seen(r)) == chain(
                flatten_s(old(tape)@, self@),
                |t: TapeV, a: ArrayV| reduce_any_s(t, a, Reduction::Mean),
            ),
            r matches Ok(a) ==> a@.wf(),
    {
        match self.flatten_all(tape) {
            Ok(a) => a.reduce_last_axis(tape, Reduction::Mean),
            Err(e) => Err(e),
        }
    }

    /// The largest element along an axis.
    pub fn max(&self, tape: &mut Tape, axis: usize) -> (r: Result<Array, Error>)
        requires
            self@.wf(),
            self@.rank() <= i32::MAX,
        ensures
            (final(tape)@, seen(r)) == reduce_axis_any_s(
                old(tape)@,
                self@,
                axis as i32,
                Reduction::Max,
            ),
            r matches Ok(a) ==> a@.wf(),
    {
        self.reduce_axis(tape, axis as i32, Reduction::Max)
    }

    /// The largest element of all elements.
    pub fn max_all(&self, tape: &mut Tape) -> (r: Result<Array, Error>)
        requires
            self@.wf(),
        ensures
            (final(tape)@, seen(r)) == chain(
                flatten_s(old(tape)@, self@),
                |t: TapeV, a: ArrayV| reduce_any_s(t, a, Reduction::Max),
            ),
            r matches Ok(a) ==> a@.wf(),
    {
        match self.flatten_all(tape) {
            Ok(a) => a.reduce_last_axis(tape, Reduction::Max),
            Err(e) => Err(e),
        }
    }

    /// The smallest element along an axis.
    pub fn min(&self, tape: &mut Tape, axis: usize) -> (r: Result<Array, Error>)
        requires
            self@.wf(),
            self@.rank() <= i32::MAX,
        ensures
            (final(tape)@, seen(r)) == reduce_axis_any_s(
                old(tape)@,
                self@,
                axis as i32,
                Reduction::Min,
            ),
            r matches Ok(a) ==> a@.wf(),
    {
        self.reduce_axis(tape, axis as i32, Reduction::Min)
    }

    /// The smallest element of all elements.
    pub fn min_all(&self, tape: &mut Tape) -> (r: Result<Array, Error>)
        requires
            self@.wf(),
        ensures
            (final(tape)@, seen(r)) == chain(
                flatten_s(old(tape)@, self@),
                |t: TapeV, a: ArrayV| reduce_any_s(t, a, Reduction::Min),
            ),
            r matches Ok(a) ==> a@.wf(),
    {
        match self.flatten_all(tape) {
            Ok(a) => a.reduce_last_axis(tape, Reduction::Min),
            Err(e) => Err(e),
        }
    }

    /// The largest element of each row.
    pub fn max_last_axis(&self, tape: &mut Tape) -> (r: Result<Array, Error>)
        requires
            self@.wf(),
        ensures
            (final(tape)@, seen(r)) == reduce_any_s(old(tape)@, self@, Reduction::Max),
            r matches Ok(a) ==> a@.wf(),
    {
        self.reduce_last_axis(tape, Reduction::Max)
    }

    /// The position of the largest element along an axis.
    pub fn argmax(&self, tape: &mut Tape, axis: usize) -> (r: Result<Array, Error>)
        requires
            self@.wf(),
            self@.rank() <= i32::MAX,
        ensures
            (final(tape)@, seen(r)) == arg_any_s(old(tape)@, self@, axis as i32, Extreme::Max),
            r matches Ok(a) ==> a@.wf(),
    {
        self.argmax_axis(tape, axis as i32)
    }

    /// The position of the smallest element along an axis.
    pub fn argmin(&self, tape: &mut Tape, axis: usize) -> (r: Result<Array, Error>)
        requires
            self@.wf(),
            self@.rank() <= i32::MAX,
        ensures
            (final(tape)@, seen(r)) == arg_any_s(old(tape)@, self@, axis as i32, Extreme::Min),
            r matches Ok(a) ==> a@.wf(),
    {
        self.argmin_axis(tape, axis as i32)
    }

    /// Where an element is no number: where it differs from itself.
    pub fn is_nan(&self, tape: &mut Tape) -> (r: Result<Array, Error>)
        requires
            self@.wf(),
        ensures
            (final(tape)@, seen(r)) == compare_s(old(tape)@, self@, self@, "ne"@),
            r matches Ok(x) ==> x@.wf() && x@.shape() == self@.shape() && x@.dtype == Dtype::Uint8,
    {
        proof {
            broadcasting_is_idempotent(self@.shape());
        }
        self.cmp(tape, self, "ne")
    }

    /// The array itself: nothing remembers how it came about.
    pub fn detach(&self) -> (r: Result<Array, Error>)
        ensures
            seen(r) == Outcome::Ok(self@),
    {
        Ok(self.duplicate())
    }
}

// ---- compositions ----

/// Each element times its logistic function.
pub open spec fn silu_s(t: TapeV, a: ArrayV) -> (TapeV, Outcome) {
    chain(unary_s(t, a, "Sigmoid"@), |t1: TapeV, s: ArrayV| binary_s(t1, a, s, "bmul"@))
}

/// Each element times one number, plus another.
pub open spec fn affine_s(t: TapeV, x: ArrayV, a: Scalar, b: Scalar) -> (TapeV, Outcome) {
    chain(
        scalar_s(t, a, x.dtype),
        |t1: TapeV, sa: ArrayV|
            chain(
                scalar_s(t1, b, x.dtype),
                |t2: TapeV, sb: ArrayV|
                    chain(
                        binary_s(t2, x, sa, "bmul"@),
                        |t3: TapeV, m: ArrayV| binary_s(t3, m, sb, "badd"@),
                    ),
            ),
    )
}

/// The logarithm of the sum of two exponentials, worked out from the larger one.
pub open spec fn logaddexp_s(t: TapeV, x: ArrayV, y: ArrayV) -> (TapeV, Outcome) {
    chain(
        binary_s(t, x, y, "bmaximum"@),
        |t1: TapeV, a: ArrayV|
            chain(
                binary_s(t1, x, y, "bminimum"@),
                |t2: TapeV, b: ArrayV|
                    chain(
                        scalar_s(t2, Scalar::Bits(ONE), x.dtype),
                        |t3: TapeV, one: ArrayV|
                            chain(
                                binary_s(t3, b, a, "bsub"@),
                                |t4: TapeV, d: ArrayV|
                                    chain(
                                        unary_s(t4, d, "Exp"@),
                                        |t5: TapeV, e: ArrayV|
                                            chain(
                                                binary_s(t5, e, one, "badd"@),
                                                |t6: TapeV, s: ArrayV|
                                                    chain(
                                                        unary_s(t6, s, "Log"@),
                                                        |t7: TapeV, l: ArrayV|
                                                            binary_s(t7, a, l, "badd"@),
                                                    ),
                                            ),
                                    ),
                            ),
                    ),
            ),
    )
}

/// The quotients rounded down, worked out in 32-bit floats.
pub open spec fn floor_divide_s(t: TapeV, x: ArrayV, y: ArrayV) -> (TapeV, Outcome) {
    if x.dtype != y.dtype {
        (t, Err("floor_divide: dtype mismatch"@))
    } else {
        chain(
            cast_s(t, x, Dtype::Float32),
            |t1: TapeV, a: ArrayV|
                chain(
                    cast_s(t1, y, Dtype::Float32),
                    |t2: TapeV, b: ArrayV|
                        chain(
                            binary_s(t2, a, b, "bdiv"@),
                            |t3: TapeV, q: ArrayV|
                                chain(
                                    unary_s(t3, q, "Floor"@),
                                    |t4: TapeV, f: ArrayV| cast_s(t4, f, x.dtype),
                                ),
                        ),
                ),
        )
    }
}

/// One over each element.
pub open spec fn recip_s(t: TapeV, x: ArrayV) -> (TapeV, Outcome) {
    chain(
        scalar_s(t, Scalar::Bits(ONE), x.dtype),
        |t1: TapeV, one: ArrayV| binary_s(t1, one, x, "bdiv"@),
    )
}

impl Array {
    /// Each element times its logistic function.
    pub fn silu(&self, tape: &mut Tape) -> (r: Result<Array, Error>)
        requires
            self@.wf(),
        ensures
            (final(tape)@, seen(r)) == silu_s(old(tape)@, self@),
            r matches Ok(a) ==> a@.wf() && a@.shape() == self@.shape(),
    {
        match self.sigmoid(tape) {
            Ok(s) => {
                proof {
                    broadcasting_is_idempotent(self@.shape());
                }
                self.binary(tape, &s, "bmul")
            },
            Err(e) => Err(e),
        }
    }

    /// Each element times one number, plus another.
    pub fn affine(&self, tape: &mut Tape, a: Scalar, b: Scalar) -> (r: Result<Array, Error>)
        requires
            self@.wf(),
        ensures
            (final(tape)@, seen(r)) == affine_s(old(tape)@, self@, a, b),
            r matches Ok(x) ==> x@.wf() && x@.shape() == self@.shape(),
    {
        proof {
            lemma_with_scalar(self@.shape());
        }
        let sa = match Array::scalar_of(tape, a, self.dtype) {
            Ok(s) => s,
            Err(e) => {
                return Err(e);
            },
        };
        let sb = match Array::scalar_of(tape, b, self.dtype) {
            Ok(s) => s,
            Err(e) => {
                return Err(e);
            },
        };
        match self.multiply(tape, &sa) {
            Ok(m) => m.add(tape, &sb),
            Err(e) => Err(e),
        }
    }

    /// One where an element is zero and zero where it is one.
    pub fn logical_not(&self, tape: &mut Tape) -> (r: Result<Array, Error>)
        requires
            self@.wf(),
        ensures
            (final(tape)@, seen(r)) == affine_s(
                old(tape)@,
                self@,
                Scalar::Bits(MINUS_ONE),
                Scalar::Bits(ONE),
            ),
            r matches Ok(x) ==> x@.wf() && x@.shape() == self@.shape(),
    {
        self.affine(tape, Scalar::Bits(MINUS_ONE), Scalar::Bits(ONE))
    }

    /// The logarithm of the sum of two exponentials.
    pub fn logaddexp(&self, tape: &mut Tape, other: &Array) -> (r: Result<Array, Error>)
        requires
            self@.wf(),
            other@.wf(),
            roomy_pair(self@, other@),
        ensures
            (final(tape)@, seen(r)) == logaddexp_s(old(tape)@, self@, other@),
            r matches Ok(x) ==> x@.wf(),
    {
        let ghost s = broadcasted(self@.shape(), other@.shape());
        let a = match self.maximum(tape, other) {
            Ok(a) => a,
            Err(e) => {
                return Err(e);
            },
        };
        let b = match self.minimum(tape, other) {
            Ok(b) => b,
            Err(e) => {
                return Err(e);
            },
        };
        proof {
            lemma_with_scalar(s);
            broadcasting_is_idempotent(s);
        }
        let one = match Array::scalar_of(tape, Scalar::Bits(ONE), self.dtype) {
            Ok(x) => x,
            Err(e) => {
                return Err(e);
            },
        };
        let d = match b.subtract(tape, &a) {
            Ok(d) => d,
            Err(e) => {
                return Err(e);
            },
        };
        let e = match d.exp(tape) {
            Ok(x) => x,
            Err(e) => {
                return Err(e);
            },
        };
        let m = match e.add(tape, &one) {
            Ok(x) => x,
            Err(e) => {
                return Err(e);
            },
        };
        let l = match m.log(tape) {
            Ok(x) => x,
            Err(e) => {
                return Err(e);
            },
        };
        a.add(tape, &l)
    }

    /// The quotients rounded down.
    pub fn floor_divide(&self, tape: &mut Tape, other: &Array) -> (r: Result<Array, Error>)
        requires
            self@.wf(),
            other@.wf(),
            roomy_pair(self@, other@),
        ensures
            (final(tape)@, seen(r)) == floor_divide_s(old(tape)@, self@, other@),
            r matches Ok(x) ==> x@.wf(),
    {
        if self.dtype != other.dtype {
            return err("floor_divide: dtype mismatch");
        }
        let a = match self.cast(tape, Dtype::Float32) {
            Ok(x) => x,
            Err(e) => {
                return Err(e);
            },
        };
        let b = match other.cast(tape, Dtype::Float32) {
            Ok(x) => x,
            Err(e) => {
                return Err(e);
            },
        };
        let q = match a.divide(tape, &b) {
            Ok(x) => x,
            Err(e) => {
                return Err(e);
            },
        };
        match q.unary(tape, "Floor") {
            Ok(f) => f.cast(tape, self.dtype),
            Err(e) => Err(e),
        }
    }

    /// One over each element.
    pub fn recip(&self, tape: &mut Tape) -> (r: Result<Array, Error>)
        requires
            self@.wf(),
        ensures
            (final(tape)@, seen(r)) == recip_s(old(tape)@, self@),
            r matches Ok(x) ==> x@.wf(),
    {
        proof {
            lemma_with_scalar(self@.shape());
        }
        match Array::scalar_of(tape, Scalar::Bits(ONE), self.dtype) {
            Ok(one) => one.divide(tape, self),
            Err(e) => Err(e),
        }
    }
}

} // verus!
