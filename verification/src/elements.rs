//! Element types of the host, and their bytes.

use vstd::prelude::*;

use crate::array::{from_slice_s, fresh, roomy, seen, zeros_tape, Array};
use crate::dtype::Dtype;
use crate::elementwise::scalar_s;
use crate::error::Error;
use crate::tape::{Scalar, Tape};
use crate::words::{le32, le64, push_le32, push_le64};

verus! {

/// Types of which cleared arrays can be made.
pub trait ZeroElem {
    spec fn of() -> Dtype;

    /// The element type that stands for the type.
    fn dtype() -> (d: Dtype)
        ensures
            d == Self::of(),
    ;
}

impl ZeroElem for u8 {
    open spec fn of() -> Dtype {
        Dtype::Uint8
    }

    fn dtype() -> (d: Dtype) {
        Dtype::Uint8
    }
}

impl ZeroElem for u16 {
    open spec fn of() -> Dtype {
        Dtype::Uint32
    }

    fn dtype() -> (d: Dtype) {
        Dtype::Uint32
    }
}

impl ZeroElem for u32 {
    open spec fn of() -> Dtype {
        Dtype::Uint32
    }

    fn dtype() -> (d: Dtype) {
        Dtype::Uint32
    }
}

impl ZeroElem for i16 {
    open spec fn of() -> Dtype {
        Dtype::Int16
    }

    fn dtype() -> (d: Dtype) {
        Dtype::Int16
    }
}

impl ZeroElem for i32 {
    open spec fn of() -> Dtype {
        Dtype::Int32
    }

    fn dtype() -> (d: Dtype) {
        Dtype::Int32
    }
}

impl ZeroElem for i64 {
    open spec fn of() -> Dtype {
        Dtype::Int64
    }

    fn dtype() -> (d: Dtype) {
        Dtype::Int64
    }
}

impl ZeroElem for bool {
    open spec fn of() -> Dtype {
        Dtype::Uint8
    }

    fn dtype() -> (d: Dtype) {
        Dtype::Uint8
    }
}

/// A cleared array of a type.
pub fn zeros<T: ZeroElem>(tape: &mut Tape, shape: &[usize]) -> (a: Array)
    requires
        roomy(shape@),
    ensures
        a@ == fresh(old(tape)@, shape@, T::of()),
        final(tape)@ == zeros_tape(old(tape)@, shape@, T::of()),
        a@.wf(),
{
    let d = T::dtype();
    Array::zeros(tape, shape, d)
}

/// Types whose values can be put into an array.
pub trait SliceElem: Copy {
    spec fn of() -> Dtype;

    /// The bytes of a value.
    spec fn bytes(self) -> Seq<u8>;

    /// The element type that stands for the type.
    fn dtype() -> (d: Dtype)
        ensures
            d == Self::of(),
    ;

    /// Appends the bytes of a value.
    fn push_bytes(self, out: &mut Vec<u8>)
        ensures
            final(out)@ == old(out)@ + self.bytes(),
    ;
}

impl SliceElem for u8 {
    open spec fn of() -> Dtype {
        Dtype::Uint8
    }

    open spec fn bytes(self) -> Seq<u8> {
        seq![self]
    }

    fn dtype() -> (d: Dtype) {
        Dtype::Uint8
    }

    fn push_bytes(self, out: &mut Vec<u8>) {
        let ghost before = out@;
        out.push(self);
        assert(out@ =~= before + seq![self]);
    }
}

impl SliceElem for bool {
    open spec fn of() -> Dtype {
        Dtype::Uint8
    }

    open spec fn bytes(self) -> Seq<u8> {
        seq![
            if self {
                1u8
            } else {
                0u8
            },
        ]
    }

    fn dtype() -> (d: Dtype) {
        Dtype::Uint8
    }

    fn push_bytes(self, out: &mut Vec<u8>) {
        let ghost before = out@;
        let b: u8 = if self {
            1
        } else {
            0
        };
        out.push(b);
        assert(out@ =~= before + seq![b]);
    }
}

impl SliceElem for i32 {
    open spec fn of() -> Dtype {
        Dtype::Int32
    }

    open spec fn bytes(self) -> Seq<u8> {
        le32(self)
    }

    fn dtype() -> (d: Dtype) {
        Dtype::Int32
    }

    fn push_bytes(self, out: &mut Vec<u8>) {
        push_le32(out, self);
    }
}

impl SliceElem for u32 {
    open spec fn of() -> Dtype {
        Dtype::Uint32
    }

    open spec fn bytes(self) -> Seq<u8> {
        le32(self as i32)
    }

    fn dtype() -> (d: Dtype) {
        Dtype::Uint32
    }

    fn push_bytes(self, out: &mut Vec<u8>) {
        push_le32(out, self as i32);
    }
}

impl SliceElem for i64 {
    open spec fn of() -> Dtype {
        Dtype::Int64
    }

    open spec fn bytes(self) -> Seq<u8> {
        le64(self)
    }

    fn dtype() -> (d: Dtype) {
        Dtype::Int64
    }

    fn push_bytes(self, out: &mut Vec<u8>) {
        push_le64(out, self);
    }
}

impl SliceElem for i16 {
    open spec fn of() -> Dtype {
        Dtype::Int16
    }

    open spec fn bytes(self) -> Seq<u8> {
        le32(self as i32).take(2)
    }

    fn dtype() -> (d: Dtype) {
        Dtype::Int16
    }

    fn push_bytes(self, out: &mut Vec<u8>) {
        let ghost before = out@;
        push_le32(out, self as i32);
        let n = out.len();
        proof {
            vstd::bytes::lemma_auto_spec_u32_to_from_le_bytes();
            assert(le32(self as i32).len() == 4);
        }
        out.truncate(n - 2);
        assert(out@ =~= before + le32(self as i32).take(2));
    }
}

/// The bytes of the first `k` values.
pub open spec fn all_bytes<T: SliceElem>(v: Seq<T>, k: int) -> Seq<u8>
    decreases k,
{
    if k <= 0 {
        Seq::empty()
    } else {
        all_bytes(v, k - 1) + v[k - 1].bytes()
    }
}

/// Unsigned words take four bytes each.
pub proof fn lemma_words_len(v: Seq<u32>, k: int)
    requires
        0 <= k,
    ensures
        all_bytes(v, k).len() == 4 * k,
    decreases k,
{
    vstd::bytes::lemma_auto_spec_u32_to_from_le_bytes();
    if k > 0 {
        lemma_words_len(v, k - 1);
        assert(v[k - 1].bytes().len() == 4);
    }
}

/// Signed words take four bytes each.
pub proof fn lemma_signed_words_len(v: Seq<i32>, k: int)
    requires
        0 <= k,
    ensures
        all_bytes(v, k).len() == 4 * k,
    decreases k,
{
    vstd::bytes::lemma_auto_spec_u32_to_from_le_bytes();
    if k > 0 {
        lemma_signed_words_len(v, k - 1);
        assert(v[k - 1].bytes().len() == 4);
    }
}

/// Values of the host in a fresh array.
pub fn from_slice<T: SliceElem>(tape: &mut Tape, data: &[T], shape: &[usize]) -> (r: Result<
    Array,
    Error,
>)
    requires
        roomy(shape@),
    ensures
        (final(tape)@, seen(r)) == from_slice_s(
            old(tape)@,
            all_bytes(data@, data@.len() as int),
            shape@,
            T::of(),
        ),
        r matches Ok(a) ==> a@.wf(),
{
    let mut bytes: Vec<u8> = Vec::new();
    let mut i: usize = 0;
    while i < data.len()
        invariant
            i <= data@.len(),
            bytes@ == all_bytes(data@, i as int),
        decreases data.len() - i,
    {
        data[i].push_bytes(&mut bytes);
        i += 1;
    }
    let d = T::dtype();
    Array::from_slice_dt(tape, bytes, shape, d)
}

/// Numbers that can stand beside an array in an operation.
pub trait ScalarVal: Copy {
    spec fn number(self) -> Scalar;

    /// The number as an array without axes.
    fn tensor(self, tape: &mut Tape) -> (r: Result<Array, Error>)
        ensures
            (final(tape)@, seen(r)) == scalar_s(old(tape)@, self.number(), Dtype::Float32),
            r matches Ok(a) ==> a@.wf(),
    ;
}

impl ScalarVal for Scalar {
    open spec fn number(self) -> Scalar {
        self
    }

    fn tensor(self, tape: &mut Tape) -> (r: Result<Array, Error>) {
        Array::scalar_of(tape, self, Dtype::Float32)
    }
}

} // verus!
