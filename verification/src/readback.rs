//! Elements on the host: where each one lies, and copies of parts of arrays.

use vstd::prelude::*;

use crate::array::{
    contiguous_s, copied_s, copy2_run, err, fresh, lemma_roomy, narrow_s, roomy, same_sizes, seen,
    zeros_tape, Array, ArrayV, Outcome,
};
use crate::dtype::width;
use crate::error::Error;
use crate::layout::{dot, is_void, numel, unravel, Layout};
use crate::named::chain;
use crate::tape::{Cmd, CmdV, Tape, TapeV};
use crate::views::{element_is_inside, lemma_dot_bounds, lemma_unravel};

verus! {

// ---- reading back ----

/// The place of the `k`-th element in row-major order.
fn element_place(l: &Layout, k: usize, Ghost(cap): Ghost<int>) -> (p: usize)
    requires
        l@.wf(),
        k < numel(l@.shape),
        l@.inside(cap),
        cap <= usize::MAX,
    ensures
        p == l@.at(unravel(l@.shape, k as int)),
        p < cap,
{
    let ghost shape = l@.shape;
    let ghost strides = l@.strides;
    let ghost want = l@.at(unravel(shape, k as int));
    let mut d = l.rank();
    let mut rem: usize = k;
    let mut off: usize = l.offset;
    proof {
        lemma_unravel(shape, k as int);
        element_is_inside(l@, unravel(shape, k as int), cap);
        assert(shape.take(d as int) =~= shape);
        assert(strides.take(d as int) =~= strides);
    }
    while d > 0
        invariant
            l@.wf(),
            shape == l@.shape,
            strides == l@.strides,
            d <= shape.len(),
            rem < numel(shape.take(d as int)),
            want == off + dot(unravel(shape.take(d as int), rem as int), strides.take(d as int)),
            want < cap,
            cap <= usize::MAX,
        decreases d,
    {
        let s = l.shape[d - 1];
        let st = l.strides[d - 1];
        let ghost head = shape.take(d - 1);
        let ghost hs = strides.take(d - 1);
        let ghost front = unravel(head, rem as int / s as int);
        proof {
            let whole = shape.take(d as int);
            assert(whole.drop_last() =~= head);
            assert(strides.take(d as int).drop_last() =~= hs);
            let n = numel(head) as int;
            if s == 0 {
                assert(n * 0 == 0);
            }
            assert(0 <= rem as int / s as int) by (nonlinear_arith)
                requires
                    s > 0,
            ;
            assert((rem as int / s as int) < n) by (nonlinear_arith)
                requires
                    rem < n * s,
                    s > 0,
            ;
            lemma_unravel(head, rem as int / s as int);
            lemma_dot_bounds(front, head, hs);
            let idx = unravel(whole, rem as int);
            assert(idx.drop_last() =~= front);
            assert(idx.last() == rem as int % s as int);
            assert(strides.take(d as int).last() == st);
        }
        let i: usize = rem % s;
        assert(dot(front, hs) >= 0);
        assert(i * st >= 0) by (nonlinear_arith)
            requires
                i >= 0,
                st >= 0,
        ;
        off = off + i * st;
        rem = rem / s;
        d = d - 1;
    }
    assert(shape.take(0) =~= Seq::<usize>::empty());
    off
}

/// The bytes of the first `k` elements of an array, in row-major order, from the
/// bytes of its buffer.
pub open spec fn gathered(data: Seq<u8>, a: ArrayV, k: int) -> Seq<u8>
    decreases k,
{
    if k <= 0 {
        Seq::empty()
    } else {
        let p = a.layout.at(unravel(a.shape(), k - 1)) * width(a.dtype);
        gathered(data, a, k - 1) + data.subrange(p, p + width(a.dtype))
    }
}

impl Array {
    /// The elements in row-major order, as bytes, from the contents of the buffer;
    /// the reader's elements must have the array's width.
    pub fn to_vec(&self, contents: &[u8], element: usize) -> (r: Result<Vec<u8>, Error>)
        requires
            self@.wf(),
            contents@.len() >= self@.bytes,
        ensures
            match r {
                Ok(v) => element == width(self@.dtype) && v@ == gathered(
                    contents@,
                    self@,
                    self@.count() as int,
                ),
                Err(e) => element != width(self@.dtype) && e.text()
                    == "to_vec: element size mismatch"@,
            },
    {
        let w = self.dtype.size_of();
        if w != element {
            return Err(Error::msg("to_vec: element size mismatch"));
        }
        let ghost cap = self@.bytes as int / w as int;
        let n = self.size();
        let len = contents.len();
        let mut out: Vec<u8> = Vec::new();
        let mut k: usize = 0;
        proof {
            assert(cap * w <= self@.bytes) by (nonlinear_arith)
                requires
                    cap == self@.bytes as int / w as int,
                    w > 0,
            ;
            assert(cap <= self@.bytes) by (nonlinear_arith)
                requires
                    cap * w <= self@.bytes,
                    w >= 1,
                    cap >= 0,
            ;
        }
        while k < n
            invariant
                k <= n,
                n == self@.count(),
                self@.wf(),
                w == width(self@.dtype),
                w >= 1,
                cap == self@.bytes as int / w as int,
                cap * w <= self@.bytes,
                0 <= cap <= self@.bytes,
                len == contents@.len(),
                contents@.len() >= self@.bytes,
                out@ == gathered(contents@, self@, k as int),
            decreases n - k,
        {
            let p = element_place(&self.layout, k, Ghost(cap));
            assert(p * w + w <= cap * w) by (nonlinear_arith)
                requires
                    p + 1 <= cap,
                    w >= 1,
            ;
            let from: usize = p * w;
            let ghost before = out@;
            let mut i: usize = 0;
            while i < w
                invariant
                    i <= w,
                    len == contents@.len(),
                    from + w <= len,
                    out@ == before + contents@.subrange(from as int, from + i),
                decreases w - i,
            {
                out.push(contents[from + i]);
                i += 1;
                assert(out@ =~= before + contents@.subrange(from as int, from + i));
            }
            k += 1;
        }
        Ok(out)
    }

    /// The elements in row-major order, by another name.
    pub fn to_vec1(&self, contents: &[u8], element: usize) -> (r: Result<Vec<u8>, Error>)
        requires
            self@.wf(),
            contents@.len() >= self@.bytes,
        ensures
            match r {
                Ok(v) => element == width(self@.dtype) && v@ == gathered(
                    contents@,
                    self@,
                    self@.count() as int,
                ),
                Err(e) => element != width(self@.dtype) && e.text()
                    == "to_vec: element size mismatch"@,
            },
    {
        self.to_vec(contents, element)
    }

    /// An array of one element gives its element.
    pub fn item_cast(&self) -> (r: Result<(), Error>)
        requires
            self@.wf(),
        ensures
            match r {
                Ok(_) => self@.count() == 1,
                Err(e) => self@.count() != 1 && e.text() == "item_cast: not a single element"@,
            },
    {
        if self.size() != 1 {
            return Err(Error::msg("item_cast: not a single element"));
        }
        Ok(())
    }
}

/// A row-major array at the start of its buffer reads back as the buffer's first
/// bytes.
pub proof fn packed_arrays_read_back(data: Seq<u8>, a: ArrayV, k: int)
    requires
        a.wf(),
        a.layout.dense(),
        a.layout.offset == 0,
        0 <= k <= a.count(),
        data.len() >= a.bytes,
    ensures
        k * width(a.dtype) <= data.len(),
        gathered(data, a, k) == data.take(k * width(a.dtype)),
    decreases k,
{
    let w = width(a.dtype) as int;
    if k > 0 {
        packed_arrays_read_back(data, a, k - 1);
        crate::views::dense_order(a.layout, k - 1);
        let cap = a.bytes as int / w;
        element_is_inside(a.layout, unravel(a.shape(), k - 1), cap);
        assert(k * w <= a.bytes) by (nonlinear_arith)
            requires
                k <= cap,
                cap == a.bytes as int / w,
                w > 0,
        ;
        assert((k - 1) * w + w == k * w) by (nonlinear_arith);
        assert(data.take((k - 1) * w) + data.subrange((k - 1) * w, (k - 1) * w + w)
            =~= data.take(k * w));
    } else {
        assert(0 * w == 0) by (nonlinear_arith);
        assert(data.take(0) =~= Seq::<u8>::empty());
    }
}

// ---- writing into parts ----

/// The length of a range; zero when it ends before it starts.
pub open spec fn range_len(r: (usize, usize)) -> usize {
    if r.1 >= r.0 {
        (r.1 - r.0) as usize
    } else {
        0
    }
}

pub open spec fn range_lens(v: Seq<(usize, usize)>) -> Seq<usize> {
    v.map_values(|r: (usize, usize)| range_len(r))
}

/// An array cut to ranges of its first `k` axes.
pub open spec fn cut_s(a: ArrayV, ranges: Seq<(usize, usize)>, k: int) -> Outcome
    decreases k,
{
    if k <= 0 {
        Ok(a)
    } else {
        match cut_s(a, ranges, k - 1) {
            Ok(b) => narrow_s(b, (k - 1) as usize, ranges[k - 1].0, range_len(ranges[k - 1])),
            Err(e) => Err(e),
        }
    }
}

/// A copy of an array with other elements in a part of it.
pub open spec fn assign_s(t: TapeV, a: ArrayV, ranges: Seq<(usize, usize)>, src: ArrayV) -> (
    TapeV,
    Outcome,
) {
    if ranges.len() != a.rank() {
        (t, Err("slice_assign: rank mismatch"@))
    } else if src.shape() != range_lens(ranges) {
        (t, Err("slice_assign: src shape mismatch"@))
    } else {
        chain(
            copied_s(t, a),
            |t1: TapeV, out: ArrayV|
                match cut_s(out, ranges, ranges.len() as int) {
                    Err(e) => (t1, Outcome::Err(e)),
                    Ok(dst) => if src.shape() == dst.shape() && src.dtype == dst.dtype {
                        (t1.then_do(CmdV::Launch(copy2_run(src, dst))), Outcome::Ok(out))
                    } else {
                        (t1, Outcome::Err("copy_strided_into: shape/dtype mismatch"@))
                    },
                },
        )
    }
}

/// The start of the part can be worked out: every range has an end, and the place
/// at which the part of the first axes starts has a number.
pub open spec fn placeable(a: ArrayV, ranges: Seq<(usize, usize)>) -> bool {
    forall|k: int|
        0 <= k < ranges.len() ==> (#[trigger] ranges[k]).0 + range_len(ranges[k]) <= usize::MAX
            && match cut_s(a, ranges, k) {
            Ok(b) => k < b.rank() && ranges[k].0 + range_len(ranges[k]) <= b.shape()[k] ==> (
            b.layout.offset + ranges[k].0 * b.strides()[k]) * width(b.dtype) <= usize::MAX,
            Err(_) => true,
        }
}

proof fn lemma_cut_is_sound(a: ArrayV, ranges: Seq<(usize, usize)>, k: int)
    requires
        a.wf(),
        !is_void(a.shape()),
        0 <= k <= ranges.len(),
        ranges.len() == a.rank(),
        a.rank() <= usize::MAX,
        forall|i: int|
            0 <= i < ranges.len() ==> (#[trigger] ranges[i]).0 < ranges[i].1,
    ensures
        cut_s(a, ranges, k) matches Ok(b) ==> b.wf() && !is_void(b.shape()) && b.rank()
            == a.rank(),
    decreases k,
{
    if k > 0 {
        lemma_cut_is_sound(a, ranges, k - 1);
        match cut_s(a, ranges, k - 1) {
            Ok(b) => {
                let r = ranges[k - 1];
                let len = range_len(r);
                if r.0 + len <= b.shape()[k - 1] {
                    crate::join::lemma_narrow_fits(b, k - 1, r.0, len);
                    let w = width(b.dtype) as int;
                    let off = b.layout.offset + r.0 * b.strides()[k - 1];
                    assert(off <= off * w) by (nonlinear_arith)
                        requires
                            w >= 1,
                            off >= 0,
                    ;
                    crate::views::narrowed_stays_inside(
                        b.layout,
                        k - 1,
                        r.0,
                        len,
                        b.bytes as int / w,
                    );
                    let m = crate::views::narrowed(b.layout, k - 1, r.0, len);
                    let v = crate::layout::volume(m.shape);
                    let u = crate::layout::volume(b.shape());
                    assert(v * 8 <= u * 8) by (nonlinear_arith)
                        requires
                            v <= u,
                    ;
                }
            },
            Err(_) => {},
        }
    }
}

/// Where neither the array nor any range is empty, the start of the part can be
/// worked out.
pub proof fn nonempty_parts_are_placeable(a: ArrayV, ranges: Seq<(usize, usize)>)
    requires
        a.wf(),
        !is_void(a.shape()),
        ranges.len() == a.rank(),
        a.rank() <= usize::MAX,
        forall|i: int|
            0 <= i < ranges.len() ==> (#[trigger] ranges[i]).0 < ranges[i].1,
    ensures
        placeable(a, ranges),
{
    assert forall|k: int| 0 <= k < ranges.len() implies (#[trigger] ranges[k]).0 + range_len(
        ranges[k],
    ) <= usize::MAX && match cut_s(a, ranges, k) {
        Ok(b) => k < b.rank() && ranges[k].0 + range_len(ranges[k]) <= b.shape()[k] ==> (
        b.layout.offset + ranges[k].0 * b.strides()[k]) * width(b.dtype) <= usize::MAX,
        Err(_) => true,
    } by {
        lemma_cut_is_sound(a, ranges, k);
        match cut_s(a, ranges, k) {
            Ok(b) => {
                if ranges[k].0 + range_len(ranges[k]) <= b.shape()[k] {
                    crate::join::lemma_narrow_fits(b, k, ranges[k].0, range_len(ranges[k]));
                }
            },
            Err(_) => {},
        }
    }
}

fn lens_of(ranges: &[(usize, usize)]) -> (v: Vec<usize>)
    ensures
        v@ == range_lens(ranges@),
{
    let mut v: Vec<usize> = Vec::new();
    let mut i: usize = 0;
    while i < ranges.len()
        invariant
            i <= ranges@.len(),
            v@ == range_lens(ranges@).take(i as int),
        decreases ranges.len() - i,
    {
        v.push(length(ranges[i]));
        i += 1;
        assert(v@ =~= range_lens(ranges@).take(i as int));
    }
    assert(v@ =~= range_lens(ranges@));
    v
}

fn length(r: (usize, usize)) -> (n: usize)
    ensures
        n == range_len(r),
{
    if r.1 >= r.0 {
        r.1 - r.0
    } else {
        0
    }
}

impl Array {
    /// A copy with the elements of `src` in the given range of each axis.
    pub fn slice_assign(
        &self,
        tape: &mut Tape,
        ranges: &[(usize, usize)],
        src: &Array,
    ) -> (r: Result<Array, Error>)
        requires
            self@.wf(),
            src@.wf(),
            placeable(fresh(old(tape)@, self@.shape(), self@.dtype), ranges@),
        ensures
            (final(tape)@, seen(r)) == assign_s(old(tape)@, self@, ranges@, src@),
            r matches Ok(a) ==> a@.wf(),
    {
        if ranges.len() != self.rank() {
            return err("slice_assign: rank mismatch");
        }
        let lens = lens_of(ranges);
        if !same_sizes(src.shape(), &lens) {
            return err("slice_assign: src shape mismatch");
        }
        let out = match self.copied(tape) {
            Ok(x) => x,
            Err(e) => {
                return Err(e);
            },
        };
        let ghost copy = out@;
        let ghost t1 = tape@;
        let mut dst = out.duplicate();
        let mut k: usize = 0;
        while k < ranges.len()
            invariant
                k <= ranges@.len(),
                ranges@.len() == self@.rank(),
                out@ == copy,
                copy.wf(),
                copy.rank() == self@.rank(),
                placeable(copy, ranges@),
                dst@.wf(),
                dst@.rank() == self@.rank(),
                dst@.dtype == copy.dtype,
                cut_s(copy, ranges@, k as int) == Outcome::Ok(dst@),
                tape@ == t1,
                chain(
                    copied_s(old(tape)@, self@),
                    |t1: TapeV, out: ArrayV|
                        match cut_s(out, ranges@, ranges@.len() as int) {
                            Err(e) => (t1, Outcome::Err(e)),
                            Ok(dst) => if src@.shape() == dst.shape() && src@.dtype == dst.dtype {
                                (t1.then_do(CmdV::Launch(copy2_run(src@, dst))), Outcome::Ok(out))
                            } else {
                                (t1, Outcome::Err("copy_strided_into: shape/dtype mismatch"@))
                            },
                        },
                ) == assign_s(old(tape)@, self@, ranges@, src@),
                copied_s(old(tape)@, self@) == (t1, Outcome::Ok(copy)),
            decreases ranges.len() - k,
        {
            let (start, _) = ranges[k];
            let len = length(ranges[k]);
            assert(ranges@[k as int].0 == start);
            match dst.narrow(k, start, len) {
                Ok(d) => {
                    dst = d;
                },
                Err(e) => {
                    proof {
                        lemma_cut_stays(copy, ranges@, k + 1, ranges@.len() as int);
                    }
                    return Err(e);
                },
            }
            k += 1;
        }
        match src.copy_strided_into(tape, &dst) {
            Ok(_) => Ok(out),
            Err(e) => Err(e),
        }
    }

    /// A row-major matrix with zeros added below and to the right.
    pub fn pad2(&self, tape: &mut Tape, rows: usize, cols: usize) -> (r: Result<Array, Error>)
        requires
            self@.wf(),
            self@.rank() >= 2,
            roomy(seq![rows, cols]),
        ensures
            (final(tape)@, seen(r)) == pad2_s(old(tape)@, self@, rows, cols),
            r matches Ok(a) ==> a@.wf(),
    {
        let x = match self.contiguous(tape) {
            Ok(x) => x,
            Err(e) => {
                return Err(e);
            },
        };
        let m = x.dim(0);
        let k = x.dim(1);
        if m > rows || k > cols {
            return err("pad2: target smaller than source");
        }
        let shape = vec![rows, cols];
        assert(shape@ =~= seq![rows, cols]);
        let out = Array::zeros(tape, &shape, self.dtype);
        tape.record(Cmd::Sync);
        let w = self.dtype.size_of();
        proof {
            crate::layout::lemma_axis_bound(shape@, 1);
            crate::array::lemma_roomy(shape@, self@.dtype);
            assert(cols * 8 <= usize::MAX) by {
                let v = crate::layout::volume(shape@);
                assert(cols <= v);
            }
            assert(cols * w <= cols * 8 && k * w <= cols * 8) by (nonlinear_arith)
                requires
                    w <= 8,
                    k <= cols,
            ;
        }
        tape.record(
            Cmd::CopyRows(x.buf, x.layout.offset * w, out.buf, m, k * w, cols * w),
        );
        Ok(out)
    }
}

proof fn lemma_cut_stays(a: ArrayV, ranges: Seq<(usize, usize)>, k: int, n: int)
    requires
        0 <= k <= n,
        cut_s(a, ranges, k) is Err,
    ensures
        cut_s(a, ranges, n) == cut_s(a, ranges, k),
    decreases n - k,
{
    if k < n {
        lemma_cut_stays(a, ranges, k, n - 1);
    }
}

/// A row-major matrix with zeros added below and to the right: cleared storage,
/// into which the rows are copied once everything before is done.
pub open spec fn pad2_s(t: TapeV, a: ArrayV, rows: usize, cols: usize) -> (TapeV, Outcome) {
    chain(
        contiguous_s(t, a),
        |t1: TapeV, x: ArrayV|
            {
                let m = x.shape()[0];
                let k = x.shape()[1];
                let w = width(a.dtype);
                let out = fresh(t1, seq![rows, cols], a.dtype);
                if m > rows || k > cols {
                    (t1, Outcome::Err("pad2: target smaller than source"@))
                } else {
                    (
                        zeros_tape(t1, seq![rows, cols], a.dtype).then_do(CmdV::Sync).then_do(
                            CmdV::CopyRows(
                                x.buf,
                                x.start(),
                                out.buf,
                                m,
                                (k * w) as usize,
                                (cols * w) as usize,
                            ),
                        ),
                        Outcome::Ok(out),
                    )
                }
            },
    )
}

} // verus!
