//! Arrays: a buffer, a layout into it and an element type.

use vstd::prelude::*;

use crate::dtype::{metal_text, width, Dtype};
use crate::error::Error;
use crate::folds::{is_permutation, pick};
use crate::layout::{
    copy_sizes, heads_fit, lemma_numel_one, lemma_small_volume, lemma_volume_bounds, numel, packed,
    product, tails_fit, volume, Layout, LayoutV,
};
use crate::tape::{
    dim3, fresh_program, max_int, max_usize, min_int, min_usize, program, Arg, ArgV, Cmd, CmdV,
    Dim3, Dispatch, DispatchV, Grid, Math, MetalFile, Tape, TapeV,
};
use crate::text::{cat2, cat5, dec, dec_list, decimal_usize, size_list};
use crate::views::{
    expanded, expanded_stays_inside, lemma_thin_len, narrowed, narrowed_stays_inside,
    packed_stays_inside, permuted, permuted_stays_inside, reshaped, reshaped_stays_inside, spread,
    spread_stays_inside, spreads, squeezed, squeezed_stays_inside, swap_perm,
    swapping_twice_is_identity, thin_len, thinned, thinned_stays_inside,
};

verus! {

/// The most axes that the strided copy kernels take.
pub const MAX_COPY_RANK: usize = 8;

/// A shape whose contents, of whatever type, have a size in bytes.
pub open spec fn roomy(shape: Seq<usize>) -> bool {
    volume(shape) * 8 <= usize::MAX
}

/// What an array is.
#[verifier::ext_equal]
pub ghost struct ArrayV {
    pub buf: u64,
    pub bytes: usize,
    pub layout: LayoutV,
    pub dtype: Dtype,
}

impl ArrayV {
    pub open spec fn shape(self) -> Seq<usize> {
        self.layout.shape
    }

    pub open spec fn strides(self) -> Seq<usize> {
        self.layout.strides
    }

    pub open spec fn rank(self) -> nat {
        self.layout.shape.len()
    }

    /// The number of elements.
    pub open spec fn count(self) -> nat {
        numel(self.layout.shape)
    }

    /// The byte at which the first element starts.
    pub open spec fn start(self) -> usize {
        (self.layout.offset * width(self.dtype)) as usize
    }

    /// One stride per axis, sizes that have a size in bytes, and every element
    /// inside the buffer.
    pub open spec fn wf(self) -> bool {
        &&& self.layout.wf()
        &&& roomy(self.layout.shape)
        &&& self.layout.offset * width(self.dtype) <= usize::MAX
        &&& self.layout.inside(self.bytes as int / width(self.dtype) as int)
    }

    /// The array under another layout.
    pub open spec fn under(self, layout: LayoutV) -> ArrayV {
        ArrayV { layout, ..self }
    }

    /// The argument that binds the array as an input.
    pub open spec fn as_input(self) -> ArgV {
        ArgV::Input(self.buf, self.start())
    }
}

/// What an operation gives: an array or a message.
pub type Outcome = Result<ArrayV, Seq<char>>;

/// The bytes of a packed array.
pub open spec fn byte_size(shape: Seq<usize>, dtype: Dtype) -> usize {
    (numel(shape) * width(dtype)) as usize
}

/// The packed array in the next buffer of the tape.
pub open spec fn fresh(t: TapeV, shape: Seq<usize>, dtype: Dtype) -> ArrayV {
    ArrayV { buf: t.next, bytes: byte_size(shape, dtype), layout: packed(shape), dtype }
}

/// The tape after making the buffer of a packed array.
pub open spec fn with_room(t: TapeV, shape: Seq<usize>, dtype: Dtype, label: Seq<char>) -> TapeV {
    t.then_alloc(byte_size(shape, dtype), label)
}

/// An eager array.
pub struct Array {
    pub buf: u64,
    pub bytes: usize,
    pub layout: Layout,
    pub dtype: Dtype,
}

impl View for Array {
    type V = ArrayV;

    open spec fn view(&self) -> ArrayV {
        ArrayV { buf: self.buf, bytes: self.bytes, layout: self.layout@, dtype: self.dtype }
    }
}

/// What the result of an operation shows.
pub open spec fn seen(r: Result<Array, Error>) -> Outcome {
    match r {
        Ok(a) => Ok(a@),
        Err(e) => Err(e.text()),
    }
}

pub fn err(m: &str) -> (r: Result<Array, Error>)
    ensures
        seen(r) == Outcome::Err(m@),
        r is Err,
{
    Err(Error::msg(m))
}

/// The sizes of a shape and its contents fit.
pub proof fn lemma_roomy(shape: Seq<usize>, dtype: Dtype)
    requires
        roomy(shape),
    ensures
        volume(shape) <= usize::MAX,
        numel(shape) <= volume(shape),
        numel(shape) * width(dtype) <= usize::MAX,
        volume(shape) >= 1,
        heads_fit(shape),
        tails_fit(shape),
{
    lemma_volume_bounds(shape);
    lemma_small_volume(shape);
    let n = numel(shape);
    let v = volume(shape);
    let w = width(dtype);
    assert(n * w <= v * 8) by (nonlinear_arith)
        requires
            n <= v,
            w <= 8,
    ;
}

/// A packed array lies inside a buffer of its size.
pub proof fn lemma_fresh_wf(t: TapeV, shape: Seq<usize>, dtype: Dtype)
    requires
        roomy(shape),
    ensures
        fresh(t, shape, dtype).wf(),
{
    lemma_roomy(shape, dtype);
    packed_stays_inside(shape);
    let n = numel(shape);
    let w = width(dtype);
    assert((n * w) / w == n) by (nonlinear_arith)
        requires
            w > 0,
    ;
    assert(0 * w == 0) by (nonlinear_arith);
}

// ---- constructors and getters ----

impl Array {
    /// A copy of the descriptor: the same elements of the same buffer.
    pub fn duplicate(&self) -> (a: Array)
        ensures
            a@ == self@,
    {
        Array { buf: self.buf, bytes: self.bytes, layout: self.layout.duplicate(), dtype: self.dtype }
    }

    /// The array under another layout.
    fn under(&self, layout: Layout) -> (a: Array)
        ensures
            a@ == self@.under(layout@),
    {
        Array { buf: self.buf, bytes: self.bytes, layout, dtype: self.dtype }
    }

    /// Makes the buffer of a packed array.
    pub fn make(tape: &mut Tape, shape: &[usize], dtype: Dtype, label: &'static str) -> (a: Array)
        requires
            roomy(shape@),
        ensures
            a@ == fresh(old(tape)@, shape@, dtype),
            final(tape)@ == with_room(old(tape)@, shape@, dtype, label@),
            a@.wf(),
    {
        proof {
            lemma_roomy(shape@, dtype);
            lemma_fresh_wf(old(tape)@, shape@, dtype);
        }
        let bytes: usize = product(shape) * dtype.size_of();
        let buf = tape.reserve(bytes, label);
        Array { buf, bytes, layout: Layout::contiguous(shape), dtype }
    }

    /// A packed array over a given buffer.
    pub fn from_parts(buf: u64, bytes: usize, shape: &[usize], dtype: Dtype) -> (a: Array)
        requires
            roomy(shape@),
        ensures
            a@ == (ArrayV { buf, bytes, layout: packed(shape@), dtype }),
            bytes >= byte_size(shape@, dtype) ==> a@.wf(),
    {
        proof {
            lemma_roomy(shape@, dtype);
            packed_stays_inside(shape@);
            let n = numel(shape@);
            let w = width(dtype);
            if bytes >= n * w {
                assert(bytes as int / w as int >= n) by (nonlinear_arith)
                    requires
                        bytes >= n * w,
                        w > 0,
                ;
            }
            assert(0 * w == 0) by (nonlinear_arith);
        }
        Array { buf, bytes, layout: Layout::contiguous(shape), dtype }
    }

    /// Host data, given as the bytes of its elements, in a fresh packed buffer.
    pub fn from_slice_dt(tape: &mut Tape, data: Vec<u8>, shape: &[usize], dtype: Dtype) -> (r: Result<
        Array,
        Error,
    >)
        requires
            roomy(shape@),
        ensures
            (final(tape)@, seen(r)) == from_slice_s(old(tape)@, data@, shape@, dtype),
            r matches Ok(a) ==> a@.wf(),
    {
        proof {
            lemma_roomy(shape@, dtype);
        }
        let expect = product(shape);
        let w = dtype.size_of();
        if expect * w != data.len() {
            let s = size_list(shape);
            let n = decimal_usize(expect);
            let g = decimal_usize(data.len() / w);
            let tail = cat2(" elements, got ", &g);
            return Err(Error::Msg(cat5("from_slice: ", &s, " needs ", &n, &tail)));
        }
        let a = Array::make(tape, shape, dtype, "array");
        tape.record(Cmd::Write(a.buf, data));
        Ok(a)
    }

    /// Zeroed packed storage.
    pub fn zeros(tape: &mut Tape, shape: &[usize], dtype: Dtype) -> (a: Array)
        requires
            roomy(shape@),
        ensures
            a@ == fresh(old(tape)@, shape@, dtype),
            final(tape)@ == zeros_tape(old(tape)@, shape@, dtype),
            a@.wf(),
    {
        let a = Array::make(tape, shape, dtype, "zeros");
        tape.record(Cmd::Zero(a.buf));
        a
    }

    pub fn shape(&self) -> (s: &[usize])
        ensures
            s@ == self@.shape(),
    {
        &self.layout.shape
    }

    pub fn dims(&self) -> (s: &[usize])
        ensures
            s@ == self@.shape(),
    {
        &self.layout.shape
    }

    pub fn elem_count(&self) -> (n: usize)
        requires
            self@.wf(),
        ensures
            n == self@.count(),
    {
        self.size()
    }

    pub fn stride(&self) -> (s: &[usize])
        ensures
            s@ == self@.strides(),
    {
        &self.layout.strides
    }

    /// The first two sizes.
    pub fn dims2(&self) -> (p: (usize, usize))
        requires
            self@.rank() >= 2,
        ensures
            p == (self@.shape()[0], self@.shape()[1]),
    {
        (self.layout.shape[0], self.layout.shape[1])
    }

    pub fn layout_ref(&self) -> (l: &Layout)
        ensures
            l@ == self@.layout,
    {
        &self.layout
    }

    pub fn layout(&self) -> (l: &Layout)
        ensures
            l@ == self@.layout,
    {
        &self.layout
    }

    pub fn buffer_and_layout(&self) -> (p: (u64, &Layout))
        ensures
            p.0 == self@.buf,
            p.1@ == self@.layout,
    {
        (self.buf, &self.layout)
    }

    pub fn buffer(&self) -> (b: u64)
        ensures
            b == self@.buf,
    {
        self.buf
    }

    pub fn dim(&self, axis: usize) -> (n: usize)
        requires
            axis < self@.rank(),
        ensures
            n == self@.shape()[axis as int],
    {
        self.layout.shape[axis]
    }

    pub fn rank(&self) -> (n: usize)
        ensures
            n == self@.rank(),
    {
        self.layout.rank()
    }

    pub fn size(&self) -> (n: usize)
        requires
            self@.wf(),
        ensures
            n == self@.count(),
            n * width(self@.dtype) <= usize::MAX,
            n * 8 <= usize::MAX,
    {
        proof {
            lemma_roomy(self@.shape(), self@.dtype);
        }
        self.layout.size()
    }

    pub fn dtype(&self) -> (d: Dtype)
        ensures
            d == self@.dtype,
    {
        self.dtype
    }

    /// Whether the elements are row-major.
    pub fn is_contiguous(&self) -> (b: bool)
        requires
            self@.wf(),
        ensures
            b == self@.layout.dense(),
    {
        proof {
            lemma_roomy(self@.shape(), self@.dtype);
        }
        self.layout.is_contiguous()
    }

    /// The argument that binds the array as an input.
    pub fn input(&self) -> (a: Arg)
        requires
            self@.wf(),
        ensures
            a@ == self@.as_input(),
    {
        Arg::Input(self.buf, self.layout.offset * self.dtype.size_of())
    }
}

/// Host data in a fresh packed buffer.
pub open spec fn from_slice_s(t: TapeV, data: Seq<u8>, shape: Seq<usize>, dtype: Dtype) -> (
    TapeV,
    Outcome,
) {
    if numel(shape) * width(dtype) != data.len() {
        (
            t,
            Err(
                "from_slice: "@ + dec_list(shape) + " needs "@ + dec(numel(shape)) + (
                " elements, got "@ + dec(data.len() / width(dtype))),
            ),
        )
    } else {
        (
            with_room(t, shape, dtype, "array"@).then_do(CmdV::Write(t.next, data)),
            Ok(fresh(t, shape, dtype)),
        )
    }
}

/// The tape after making and clearing the buffer of a packed array.
pub open spec fn zeros_tape(t: TapeV, shape: Seq<usize>, dtype: Dtype) -> TapeV {
    with_room(t, shape, dtype, "zeros"@).then_do(CmdV::Zero(t.next))
}

// ---- views ----

impl Array {
    /// The axes in the order of `perm`.
    pub fn permute(&self, perm: &[usize]) -> (r: Result<Array, Error>)
        requires
            self@.wf(),
            perm@.len() == self@.rank() ==> forall|i: int|
                0 <= i < perm@.len() ==> #[trigger] perm@[i] < self@.rank(),
        ensures
            seen(r) == permute_s(self@, perm@),
            is_permutation(perm@, self@.rank()) ==> (r matches Ok(a) ==> a@.wf()),
    {
        if perm.len() != self.rank() {
            return err("transpose: rank mismatch");
        }
        let mut shape: Vec<usize> = Vec::new();
        let mut strides: Vec<usize> = Vec::new();
        let mut i: usize = 0;
        while i < perm.len()
            invariant
                i <= perm.len(),
                self@.wf(),
                forall|k: int| 0 <= k < perm@.len() ==> #[trigger] perm@[k] < self@.rank(),
                shape@ == pick(self@.shape(), perm@).take(i as int),
                strides@ == pick(self@.strides(), perm@).take(i as int),
            decreases perm.len() - i,
        {
            let a = perm[i];
            assert(perm@[i as int] < self@.rank());
            shape.push(self.layout.shape[a]);
            strides.push(self.layout.strides[a]);
            i += 1;
            assert(shape@ =~= pick(self@.shape(), perm@).take(i as int));
            assert(strides@ =~= pick(self@.strides(), perm@).take(i as int));
        }
        assert(shape@ =~= pick(self@.shape(), perm@));
        assert(strides@ =~= pick(self@.strides(), perm@));
        proof {
            if is_permutation(perm@, self@.rank()) {
                permuted_stays_inside(
                    self@.layout,
                    perm@,
                    self@.bytes as int / width(self@.dtype) as int,
                );
            }
        }
        Ok(self.under(Layout { shape, strides, offset: self.layout.offset }))
    }

    /// A new axis of size one.
    pub fn expand_dims(&self, axis: usize) -> (r: Result<Array, Error>)
        requires
            self@.wf(),
        ensures
            seen(r) == expand_s(self@, axis),
            r matches Ok(a) ==> a@.wf(),
    {
        if axis > self.rank() {
            return err("expand_dims: axis out of range");
        }
        let mut shape = copy_sizes(&self.layout.shape);
        let mut strides = copy_sizes(&self.layout.strides);
        shape.insert(axis, 1);
        strides.insert(axis, 0);
        proof {
            expanded_stays_inside(
                self@.layout,
                axis as int,
                self@.bytes as int / width(self@.dtype) as int,
            );
        }
        Ok(self.under(Layout { shape, strides, offset: self.layout.offset }))
    }

    /// A slice of `len` positions of an axis, from `start` on.
    pub fn narrow(&self, axis: usize, start: usize, len: usize) -> (r: Result<Array, Error>)
        requires
            self@.wf(),
            start + len <= usize::MAX,
            axis < self@.rank() && start + len <= self@.shape()[axis as int] ==> (
            self@.layout.offset + start * self@.strides()[axis as int]) * width(self@.dtype)
                <= usize::MAX,
        ensures
            seen(r) == narrow_s(self@, axis, start, len),
            r matches Ok(a) ==> a@.wf(),
    {
        if axis >= self.rank() || start + len > self.layout.shape[axis] {
            return err("narrow: out of range");
        }
        let ghost off = self@.layout.offset + start * self@.strides()[axis as int];
        proof {
            let w = width(self@.dtype) as int;
            assert(off <= off * w) by (nonlinear_arith)
                requires
                    w >= 1,
                    off >= 0,
            ;
            narrowed_stays_inside(
                self@.layout,
                axis as int,
                start,
                len,
                self@.bytes as int / width(self@.dtype) as int,
            );
        }
        let mut shape = copy_sizes(&self.layout.shape);
        shape.set(axis, len);
        let offset: usize = self.layout.offset + start * self.layout.strides[axis];
        let l = Layout { shape, strides: copy_sizes(&self.layout.strides), offset };
        assert(l@ =~= narrowed(self@.layout, axis as int, start, len));
        Ok(self.under(l))
    }

    /// Every `step`-th position of an axis, from the first on.
    pub fn every(&self, axis: usize, step: usize) -> (a: Array)
        requires
            self@.wf(),
            axis < self@.rank(),
            step > 0,
            thin_len(self@.shape()[axis as int], step) > 1 ==> self@.strides()[axis as int] * step
                <= usize::MAX,
        ensures
            a@ == self@.under(thinned(self@.layout, axis as int, step)),
            a@.wf(),
    {
        proof {
            lemma_thin_len(self@.shape()[axis as int], step);
            thinned_stays_inside(
                self@.layout,
                axis as int,
                step,
                self@.bytes as int / width(self@.dtype) as int,
            );
        }
        let d = self.layout.shape[axis];
        let len: usize = if d == 0 {
            0
        } else {
            (d - 1) / step + 1
        };
        let mut shape = copy_sizes(&self.layout.shape);
        shape.set(axis, len);
        let mut strides = copy_sizes(&self.layout.strides);
        if len > 1 {
            strides.set(axis, self.layout.strides[axis] * step);
        }
        let l = Layout { shape, strides, offset: self.layout.offset };
        assert(l@ =~= thinned(self@.layout, axis as int, step));
        self.under(l)
    }

    /// The array spread over a shape of the same rank: an axis of size one may
    /// grow.
    pub fn broadcast(&self, shape: &[usize]) -> (r: Result<Array, Error>)
        requires
            self@.wf(),
            broadcast_s(self@, shape@) is Ok ==> roomy(shape@),
        ensures
            seen(r) == broadcast_s(self@, shape@),
            r matches Ok(a) ==> a@.wf(),
    {
        if shape.len() != self.rank() {
            return err("broadcast: rank mismatch");
        }
        let mut strides: Vec<usize> = Vec::new();
        let mut i: usize = 0;
        while i < shape.len()
            invariant
                i <= shape.len(),
                shape@.len() == self@.rank(),
                self@.wf(),
                strides@ == spread(self@.layout, shape@).strides.take(i as int),
                forall|k: int|
                    0 <= k < i ==> #[trigger] self@.shape()[k] == shape@[k] || self@.shape()[k]
                        == 1,
            decreases shape.len() - i,
        {
            let have = self.layout.shape[i];
            if have == shape[i] {
                strides.push(self.layout.strides[i]);
            } else {
                if have != 1 {
                    assert(!(self@.shape()[i as int] == shape@[i as int]));
                    assert(!spreads(self@.shape(), shape@));
                    return err("broadcast: incompatible shape");
                }
                strides.push(0);
            }
            i += 1;
            assert(strides@ =~= spread(self@.layout, shape@).strides.take(i as int));
        }
        assert(strides@ =~= spread(self@.layout, shape@).strides);
        proof {
            spread_stays_inside(
                self@.layout,
                shape@,
                self@.bytes as int / width(self@.dtype) as int,
            );
        }
        Ok(self.under(Layout { shape: copy_sizes(shape), strides, offset: self.layout.offset }))
    }

    /// Leaves out an axis of size one.
    pub fn squeeze(&self, axis: usize) -> (r: Result<Array, Error>)
        requires
            self@.wf(),
        ensures
            seen(r) == squeeze_s(self@, axis),
            r matches Ok(a) ==> a@.wf(),
    {
        if axis >= self.rank() || self.layout.shape[axis] != 1 {
            return err("squeeze: axis is not size 1");
        }
        let mut shape = copy_sizes(&self.layout.shape);
        let mut strides = copy_sizes(&self.layout.strides);
        shape.remove(axis);
        strides.remove(axis);
        proof {
            squeezed_stays_inside(
                self@.layout,
                axis as int,
                self@.bytes as int / width(self@.dtype) as int,
            );
        }
        Ok(self.under(Layout { shape, strides, offset: self.layout.offset }))
    }

    /// The axes in an explicit order.
    pub fn transpose_axes(&self, perm: &[usize]) -> (r: Result<Array, Error>)
        requires
            self@.wf(),
            perm@.len() == self@.rank() ==> forall|i: int|
                0 <= i < perm@.len() ==> #[trigger] perm@[i] < self@.rank(),
        ensures
            seen(r) == permute_s(self@, perm@),
            is_permutation(perm@, self@.rank()) ==> (r matches Ok(a) ==> a@.wf()),
    {
        self.permute(perm)
    }

    /// Exchanges two axes.
    pub fn transpose(&self, a: usize, b: usize) -> (r: Result<Array, Error>)
        requires
            self@.wf(),
        ensures
            seen(r) == transpose_s(self@, a, b),
            r matches Ok(x) ==> x@.wf(),
    {
        let rank = self.rank();
        if a >= rank || b >= rank {
            return err("transpose: axis out of range");
        }
        let perm = swap_axes(rank, a, b);
        proof {
            swapping_twice_is_identity(self@.layout, a as int, b as int);
        }
        self.permute(&perm)
    }

    /// A size-one axis, by another name.
    pub fn unsqueeze(&self, axis: usize) -> (r: Result<Array, Error>)
        requires
            self@.wf(),
        ensures
            seen(r) == expand_s(self@, axis),
            r matches Ok(a) ==> a@.wf(),
    {
        self.expand_dims(axis)
    }

    /// Spread over a shape, the axes aligned at the right.
    pub fn broadcast_to(&self, shape: &[usize]) -> (r: Result<Array, Error>)
        requires
            self@.wf(),
            broadcast_to_s(self@, shape@) is Ok ==> roomy(shape@),
        ensures
            seen(r) == broadcast_to_s(self@, shape@),
            r matches Ok(a) ==> a@.wf(),
    {
        if shape.len() < self.rank() {
            return err("broadcast_to: fewer dims than the source");
        }
        let extra: usize = shape.len() - self.rank();
        let mut v = self.duplicate();
        let mut i: usize = 0;
        while i < extra
            invariant
                i <= extra,
                v@ == lifted(self@, i as nat),
                v@.wf(),
            decreases extra - i,
        {
            match v.expand_dims(0) {
                Ok(w) => {
                    v = w;
                },
                Err(e) => {
                    assert(false);
                    return Err(e);
                },
            }
            i += 1;
        }
        v.broadcast(shape)
    }

    /// Spread over a shape, by another name.
    pub fn broadcast_as(&self, shape: &[usize]) -> (r: Result<Array, Error>)
        requires
            self@.wf(),
            broadcast_to_s(self@, shape@) is Ok ==> roomy(shape@),
        ensures
            seen(r) == broadcast_to_s(self@, shape@),
            r matches Ok(a) ==> a@.wf(),
    {
        self.broadcast_to(shape)
    }

    /// Equal parts along an axis.
    pub fn split_equal(&self, num_splits: usize, axis: usize) -> (r: Result<Vec<Array>, Error>)
        requires
            self@.wf(),
            num_splits > 0 ==> axis < self@.rank() && (self@.layout.offset
                + self@.shape()[axis as int] * self@.strides()[axis as int]) * width(self@.dtype)
                <= usize::MAX,
        ensures
            r is Ok <==> num_splits != 0 && self@.shape()[axis as int] % num_splits == 0,
            r matches Err(e) ==> e.text() == "split_equal: axis not divisible"@,
            r matches Ok(v) ==> {
                let step = (self@.shape()[axis as int] / num_splits) as int;
                &&& v@.len() == num_splits
                &&& forall|i: int|
                    0 <= i < num_splits ==> (#[trigger] v@[i])@ == self@.under(
                        narrowed(self@.layout, axis as int, (i * step) as usize, step as usize),
                    ) && v@[i]@.wf()
            },
    {
        if num_splits == 0 || self.dim(axis) % num_splits != 0 {
            return Err(Error::msg("split_equal: axis not divisible"));
        }
        let d = self.dim(axis);
        let step: usize = d / num_splits;
        let mut out: Vec<Array> = Vec::new();
        let mut i: usize = 0;
        proof {
            assert(d == num_splits * step) by (nonlinear_arith)
                requires
                    num_splits > 0,
                    d % num_splits == 0,
                    step == d / num_splits,
            ;
        }
        while i < num_splits
            invariant
                i <= num_splits,
                self@.wf(),
                axis < self@.rank(),
                d == self@.shape()[axis as int],
                d == num_splits * step,
                (self@.layout.offset + d * self@.strides()[axis as int]) * width(self@.dtype)
                    <= usize::MAX,
                out@.len() == i,
                forall|k: int|
                    0 <= k < i ==> (#[trigger] out@[k])@ == self@.under(
                        narrowed(self@.layout, axis as int, (k * step) as usize, step),
                    ) && out@[k]@.wf(),
            decreases num_splits - i,
        {
            let st = self.layout.strides[axis];
            proof {
                let w = width(self@.dtype) as int;
                let o = self@.layout.offset as int;
                assert(i * step + step <= num_splits * step) by (nonlinear_arith)
                    requires
                        i + 1 <= num_splits,
                        step >= 0,
                ;
                assert((o + (i * step) * st) * w <= (o + d * st) * w) by (nonlinear_arith)
                    requires
                        i * step <= d,
                        st >= 0,
                        w >= 1,
                        o >= 0,
                ;
            }
            match self.narrow(axis, i * step, step) {
                Ok(a) => {
                    out.push(a);
                },
                Err(e) => {
                    assert(false);
                    return Err(e);
                },
            }
            i += 1;
        }
        Ok(out)
    }

    /// Equal parts along an axis, by another name.
    pub fn chunk(&self, num_splits: usize, axis: usize) -> (r: Result<Vec<Array>, Error>)
        requires
            self@.wf(),
            num_splits > 0 ==> axis < self@.rank() && (self@.layout.offset
                + self@.shape()[axis as int] * self@.strides()[axis as int]) * width(self@.dtype)
                <= usize::MAX,
        ensures
            r is Ok <==> num_splits != 0 && self@.shape()[axis as int] % num_splits == 0,
            r matches Err(e) ==> e.text() == "split_equal: axis not divisible"@,
            r matches Ok(v) ==> {
                let step = (self@.shape()[axis as int] / num_splits) as int;
                &&& v@.len() == num_splits
                &&& forall|i: int|
                    0 <= i < num_splits ==> (#[trigger] v@[i])@ == self@.under(
                        narrowed(self@.layout, axis as int, (i * step) as usize, step as usize),
                    ) && v@[i]@.wf()
            },
    {
        self.split_equal(num_splits, axis)
    }
}

/// The axes with two of them exchanged.
pub fn swap_axes(rank: usize, a: usize, b: usize) -> (perm: Vec<usize>)
    requires
        a < rank,
        b < rank,
    ensures
        perm@ == swap_perm(rank as nat, a as int, b as int),
{
    let mut perm: Vec<usize> = Vec::new();
    let mut i: usize = 0;
    while i < rank
        invariant
            i <= rank,
            perm@ == swap_perm(rank as nat, a as int, b as int).take(i as int),
        decreases rank - i,
    {
        perm.push(
            if i == a {
                b
            } else if i == b {
                a
            } else {
                i
            },
        );
        i += 1;
        assert(perm@ =~= swap_perm(rank as nat, a as int, b as int).take(i as int));
    }
    assert(perm@ =~= swap_perm(rank as nat, a as int, b as int));
    perm
}

pub open spec fn permute_s(a: ArrayV, perm: Seq<usize>) -> Outcome {
    if perm.len() != a.rank() {
        Err("transpose: rank mismatch"@)
    } else {
        Ok(a.under(permuted(a.layout, perm)))
    }
}

pub open spec fn expand_s(a: ArrayV, axis: usize) -> Outcome {
    if axis > a.rank() {
        Err("expand_dims: axis out of range"@)
    } else {
        Ok(a.under(expanded(a.layout, axis as int)))
    }
}

pub open spec fn narrow_s(a: ArrayV, axis: usize, start: usize, len: usize) -> Outcome {
    if axis >= a.rank() || start + len > a.shape()[axis as int] {
        Err("narrow: out of range"@)
    } else {
        Ok(a.under(narrowed(a.layout, axis as int, start, len)))
    }
}

pub open spec fn broadcast_s(a: ArrayV, shape: Seq<usize>) -> Outcome {
    if shape.len() != a.rank() {
        Err("broadcast: rank mismatch"@)
    } else if !spreads(a.shape(), shape) {
        Err("broadcast: incompatible shape"@)
    } else {
        Ok(a.under(spread(a.layout, shape)))
    }
}

pub open spec fn squeeze_s(a: ArrayV, axis: usize) -> Outcome {
    if axis >= a.rank() || a.shape()[axis as int] != 1 {
        Err("squeeze: axis is not size 1"@)
    } else {
        Ok(a.under(squeezed(a.layout, axis as int)))
    }
}

pub open spec fn transpose_s(x: ArrayV, a: usize, b: usize) -> Outcome {
    if a >= x.rank() || b >= x.rank() {
        Err("transpose: axis out of range"@)
    } else {
        Ok(x.under(permuted(x.layout, swap_perm(x.rank(), a as int, b as int))))
    }
}

/// The array with `k` axes of size one in front.
pub open spec fn lifted(a: ArrayV, k: nat) -> ArrayV
    decreases k,
{
    if k == 0 {
        a
    } else {
        let b = lifted(a, (k - 1) as nat);
        b.under(expanded(b.layout, 0))
    }
}

pub open spec fn broadcast_to_s(a: ArrayV, shape: Seq<usize>) -> Outcome {
    if shape.len() < a.rank() {
        Err("broadcast_to: fewer dims than the source"@)
    } else {
        broadcast_s(lifted(a, (shape.len() - a.rank()) as nat), shape)
    }
}

// ---- copies ----

/// A list of sizes as 32-bit words, filled up to the rank limit.
pub open spec fn padded(v: Seq<usize>, fill: u32) -> Seq<u32> {
    Seq::new(MAX_COPY_RANK as nat, |i: int| if i < v.len() { v[i] as u32 } else { fill })
}

/// A list of sizes as 32-bit words, filled up to the rank limit.
pub fn pad_rank(v: &[usize], fill: u32) -> (o: Vec<u32>)
    requires
        v@.len() <= MAX_COPY_RANK,
    ensures
        o@ == padded(v@, fill),
{
    let mut o: Vec<u32> = Vec::new();
    let mut i: usize = 0;
    while i < MAX_COPY_RANK
        invariant
            i <= MAX_COPY_RANK,
            v@.len() <= MAX_COPY_RANK,
            o@ == padded(v@, fill).take(i as int),
        decreases MAX_COPY_RANK - i,
    {
        if i < v.len() {
            o.push(v[i] as u32);
        } else {
            o.push(fill);
        }
        i += 1;
        assert(o@ =~= padded(v@, fill).take(i as int));
    }
    assert(o@ =~= padded(v@, fill));
    o
}

/// The parameters of the strided copy: the rank, the sizes, the strides.
pub open spec fn copy_words(l: LayoutV) -> Seq<u32> {
    seq![l.shape.len() as u32] + padded(l.shape, 1) + padded(l.strides, 0)
}

/// The parameters of the copy between two strided layouts.
pub open spec fn copy2_words(src: LayoutV, dst: LayoutV) -> Seq<u32> {
    seq![src.shape.len() as u32] + padded(src.shape, 0) + padded(src.strides, 0) + padded(
        dst.strides,
        0,
    )
}

/// A line of threads in groups of up to 256.
pub open spec fn line_256(n: nat) -> Grid {
    Grid::Threads(
        Dim3 { x: n as usize, y: 1, z: 1 },
        Dim3 { x: max_int(min_int(256, n as int), 1) as usize, y: 1, z: 1 },
    )
}

fn grid_256(n: usize) -> (g: Grid)
    ensures
        g == line_256(n as nat),
{
    Grid::Threads(dim3(n, 1, 1), dim3(max_usize(min_usize(256, n), 1), 1, 1))
}

/// The run of the kernel that packs the elements of `a` into `out`.
pub open spec fn copied_run(a: ArrayV, out: ArrayV) -> DispatchV {
    DispatchV {
        program: fresh_program(
            "copy_strided_"@ + metal_text(a.dtype),
            seq![MetalFile::CopyStrided],
            Seq::empty(),
            Math::Safe,
            Seq::empty(),
        ),
        args: seq![
            (0usize, a.as_input()),
            (1usize, ArgV::Output(out.buf, 0)),
            (2usize, ArgV::U32s(copy_words(a.layout))),
        ],
        grid: line_256(a.count()),
    }
}

/// The packed copy of an array, with the tape after it.
pub open spec fn copied_s(t: TapeV, a: ArrayV) -> (TapeV, Outcome) {
    let out = fresh(t, a.shape(), a.dtype);
    let t1 = with_room(t, a.shape(), a.dtype, "contiguous"@);
    if a.rank() > MAX_COPY_RANK {
        (t1, Err("contiguous: rank too high"@))
    } else {
        (t1.then_do(CmdV::Launch(copied_run(a, out))), Ok(out))
    }
}

/// The array itself when row-major, else its packed copy.
pub open spec fn contiguous_s(t: TapeV, a: ArrayV) -> (TapeV, Outcome) {
    if a.layout.dense() {
        (t, Ok(a))
    } else {
        copied_s(t, a)
    }
}

/// Whether a shape can be asked of an array: its elements can be counted, and when
/// they are as many, it is a shape that arrays have.
pub open spec fn relabels(a: ArrayV, shape: Seq<usize>) -> bool {
    roomy(shape) || heads_fit(shape) && numel(shape) != a.count()
}

/// The array under another shape, row-major from the same first element.
pub open spec fn relabel_s(a: ArrayV, shape: Seq<usize>) -> Outcome {
    if numel(shape) != a.count() {
        Err(
            "reshape: "@ + dec_list(shape) + " needs "@ + dec(numel(shape)) + (" elements, have "@
                + dec(a.count())),
        )
    } else {
        Ok(a.under(reshaped(a.layout, shape)))
    }
}

/// The array under another shape: a view when row-major, else of its copy.
pub open spec fn reshape_s(t: TapeV, a: ArrayV, shape: Seq<usize>) -> (TapeV, Outcome) {
    if a.layout.dense() {
        (t, relabel_s(a, shape))
    } else {
        match copied_s(t, a) {
            (t1, Ok(b)) => (t1, relabel_s(b, shape)),
            (t1, Err(e)) => (t1, Err(e)),
        }
    }
}

impl Array {
    /// A packed copy in a fresh buffer.
    pub fn copied(&self, tape: &mut Tape) -> (r: Result<Array, Error>)
        requires
            self@.wf(),
        ensures
            (final(tape)@, seen(r)) == copied_s(old(tape)@, self@),
            r matches Ok(a) ==> a@.wf() && a@.layout.dense(),
    {
        let out = Array::make(tape, &self.layout.shape, self.dtype, "contiguous");
        if self.rank() > MAX_COPY_RANK {
            return err("contiguous: rank too high");
        }
        let words = self.copy_params();
        let mut files: Vec<MetalFile> = Vec::new();
        files.push(MetalFile::CopyStrided);
        let name = cat2("copy_strided_", self.dtype.metal_name());
        let mut d = Dispatch::new(program(name, files, String::new(), Math::Safe));
        d.bind(0, self.input());
        d.bind(1, Arg::Output(out.buf, 0));
        d.bind(2, Arg::U32s(words));
        let n = self.size();
        tape.launch(d, grid_256(n));
        proof {
            lemma_roomy(self@.shape(), self@.dtype);
            crate::views::packed_is_dense(self@.shape());
            assert(files@ =~= seq![MetalFile::CopyStrided]);
            assert(d@.args =~= copied_run(self@, out@).args);
        }
        Ok(out)
    }

    /// The parameters of the strided copy.
    fn copy_params(&self) -> (w: Vec<u32>)
        requires
            self@.wf(),
            self@.rank() <= MAX_COPY_RANK,
        ensures
            w@ == copy_words(self@.layout),
    {
        let mut w: Vec<u32> = Vec::new();
        w.push(self.rank() as u32);
        let mut shape = pad_rank(&self.layout.shape, 1);
        let mut strides = pad_rank(&self.layout.strides, 0);
        w.append(&mut shape);
        w.append(&mut strides);
        assert(w@ =~= copy_words(self@.layout));
        w
    }

    /// The array itself when row-major, else a packed copy.
    pub fn contiguous(&self, tape: &mut Tape) -> (r: Result<Array, Error>)
        requires
            self@.wf(),
        ensures
            (final(tape)@, seen(r)) == contiguous_s(old(tape)@, self@),
            r matches Ok(a) ==> a@.wf() && a@.layout.dense() && a@.shape() == self@.shape()
                && a@.dtype == self@.dtype,
    {
        if self.is_contiguous() {
            return Ok(self.duplicate());
        }
        self.copied(tape)
    }

    /// Another shape over the same elements, which are copied first when they
    /// are not row-major.
    pub fn reshape(&self, tape: &mut Tape, shape: &[usize]) -> (r: Result<Array, Error>)
        requires
            self@.wf(),
            relabels(self@, shape@),
        ensures
            (final(tape)@, seen(r)) == reshape_s(old(tape)@, self@, shape@),
            r matches Ok(a) ==> a@.wf() && a@.layout.dense() && a@.shape() == shape@ && a@.dtype
                == self@.dtype,
    {
        if !self.is_contiguous() {
            let b = match self.copied(tape) {
                Ok(b) => b,
                Err(e) => {
                    return Err(e);
                },
            };
            return b.relabel(shape);
        }
        self.relabel(shape)
    }

    /// Another shape over row-major elements.
    fn relabel(&self, shape: &[usize]) -> (r: Result<Array, Error>)
        requires
            self@.wf(),
            self@.layout.dense(),
            relabels(self@, shape@),
        ensures
            seen(r) == relabel_s(self@, shape@),
            r matches Ok(a) ==> a@.wf() && a@.layout.dense() && a@.shape() == shape@ && a@.dtype
                == self@.dtype,
    {
        proof {
            if roomy(shape@) {
                lemma_roomy(shape@, self@.dtype);
            }
        }
        let expect = product(shape);
        let have = self.size();
        if expect != have {
            let s = size_list(shape);
            let n = decimal_usize(expect);
            let g = decimal_usize(have);
            let tail = cat2(" elements, have ", &g);
            return Err(Error::Msg(cat5("reshape: ", &s, " needs ", &n, &tail)));
        }
        proof {
            reshaped_stays_inside(
                self@.layout,
                shape@,
                self@.bytes as int / width(self@.dtype) as int,
            );
        }
        let p = Layout::contiguous(shape);
        Ok(self.under(Layout { shape: p.shape, strides: p.strides, offset: self.layout.offset }))
    }

    /// Another shape, by another name.
    pub fn reshape_dims(&self, tape: &mut Tape, shape: &[usize]) -> (r: Result<Array, Error>)
        requires
            self@.wf(),
            relabels(self@, shape@),
        ensures
            (final(tape)@, seen(r)) == reshape_s(old(tape)@, self@, shape@),
            r matches Ok(a) ==> a@.wf() && a@.layout.dense() && a@.shape() == shape@ && a@.dtype
                == self@.dtype,
    {
        self.reshape(tape, shape)
    }

    /// One axis with all elements.
    pub fn flatten_all(&self, tape: &mut Tape) -> (r: Result<Array, Error>)
        requires
            self@.wf(),
        ensures
            (final(tape)@, seen(r)) == flatten_s(old(tape)@, self@),
            r matches Ok(a) ==> a@.wf() && a@.layout.dense() && a@.shape() == seq![
                self@.count() as usize,
            ] && a@.dtype == self@.dtype,
    {
        let n = self.size();
        let mut shape: Vec<usize> = Vec::new();
        shape.push(n);
        proof {
            lemma_numel_one(n);
            lemma_roomy(self@.shape(), self@.dtype);
            assert(shape@ =~= seq![n]);
        }
        self.reshape(tape, &shape)
    }

    /// Copies the elements into `dst`, of the same shape and type, whatever the
    /// two layouts.
    pub fn copy_strided_into(&self, tape: &mut Tape, dst: &Array) -> (r: Result<(), Error>)
        requires
            self@.wf(),
            dst@.wf(),
            self@.rank() <= MAX_COPY_RANK,
        ensures
            r is Ok <==> self@.shape() == dst@.shape() && self@.dtype == dst@.dtype,
            r matches Err(e) ==> e.text() == "copy_strided_into: shape/dtype mismatch"@ && final(tape)@ == old(tape)@,
            r is Ok ==> final(tape)@ == old(tape)@.then_do(CmdV::Launch(copy2_run(self@, dst@))),
    {
        if !same_sizes(self.shape(), dst.shape()) || self.dtype != dst.dtype {
            return Err(Error::msg("copy_strided_into: shape/dtype mismatch"));
        }
        let mut words: Vec<u32> = Vec::new();
        words.push(self.rank() as u32);
        let mut shape = pad_rank(&self.layout.shape, 0);
        let mut from = pad_rank(&self.layout.strides, 0);
        let mut to = pad_rank(&dst.layout.strides, 0);
        words.append(&mut shape);
        words.append(&mut from);
        words.append(&mut to);
        let mut files: Vec<MetalFile> = Vec::new();
        files.push(MetalFile::Copy2Strided);
        let name = cat2("copy2_strided_", self.dtype.metal_name());
        let mut d = Dispatch::new(program(name, files, String::new(), Math::Safe));
        d.bind(0, self.input());
        d.bind(1, Arg::Output(dst.buf, dst.layout.offset * dst.dtype.size_of()));
        d.bind(2, Arg::U32s(words));
        let n = self.size();
        tape.launch(d, grid_256(n));
        proof {
            assert(files@ =~= seq![MetalFile::Copy2Strided]);
            assert(words@ =~= copy2_words(self@.layout, dst@.layout));
            assert(d@.args =~= copy2_run(self@, dst@).args);
        }
        Ok(())
    }
}

/// Whether two lists of sizes are equal.
pub fn same_sizes(a: &[usize], b: &[usize]) -> (r: bool)
    ensures
        r == (a@ == b@),
{
    if a.len() != b.len() {
        return false;
    }
    let mut i: usize = 0;
    while i < a.len()
        invariant
            i <= a.len(),
            a@.len() == b@.len(),
            forall|k: int| 0 <= k < i ==> a@[k] == b@[k],
        decreases a.len() - i,
    {
        if a[i] != b[i] {
            assert(a@[i as int] != b@[i as int]);
            return false;
        }
        i += 1;
    }
    assert(a@ =~= b@);
    true
}

/// The run of the kernel that copies between two layouts.
pub open spec fn copy2_run(a: ArrayV, dst: ArrayV) -> DispatchV {
    DispatchV {
        program: fresh_program(
            "copy2_strided_"@ + metal_text(a.dtype),
            seq![MetalFile::Copy2Strided],
            Seq::empty(),
            Math::Safe,
            Seq::empty(),
        ),
        args: seq![
            (0usize, a.as_input()),
            (1usize, ArgV::Output(dst.buf, dst.start())),
            (2usize, ArgV::U32s(copy2_words(a.layout, dst.layout))),
        ],
        grid: line_256(a.count()),
    }
}

/// One axis with all elements.
pub open spec fn flatten_s(t: TapeV, a: ArrayV) -> (TapeV, Outcome) {
    reshape_s(t, a, seq![a.count() as usize])
}

} // verus!
