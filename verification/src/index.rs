//! Indexing: picking parts of arrays and writing into them.

use vstd::prelude::*;

use crate::array::{fresh, narrow_s, seen, squeeze_s, Array, ArrayV, Outcome};
use crate::dtype::width;
use crate::error::Error;
use crate::readback::{assign_s, placeable};
use crate::tape::Tape;

verus! {

/// Stands for all axes that an index does not name.
#[derive(Clone, Copy, PartialEq, Eq, Structural, Debug)]
pub struct Ellipsis;

/// One element of an index.
#[derive(Clone, Copy, PartialEq, Eq, Structural, Debug)]
pub enum IndexElem {
    /// The whole axis.
    All,
    /// One position; the axis is left out.
    At(i32),
    /// From one bound to another, counted from the end when negative.
    Span(i32, i32),
    /// From a bound on, counted from the end when negative.
    From(i32),
    /// All axes that the index does not name.
    Rest(Ellipsis),
}

impl IndexElem {
    pub open spec fn rest(self) -> bool {
        self is Rest
    }

    /// Whether the element stands for the axes that are not named.
    pub fn is_ellipsis(&self) -> (b: bool)
        ensures
            b == self.rest(),
    {
        match self {
            IndexElem::Rest(_) => true,
            _ => false,
        }
    }

    /// The axes that the element names.
    pub fn ndims(&self) -> (n: usize)
        ensures
            n == named(*self),
    {
        match self {
            IndexElem::Rest(_) => 0,
            _ => 1,
        }
    }
}

/// The axes that an element names.
pub open spec fn named(e: IndexElem) -> nat {
    if e.rest() {
        0
    } else {
        1
    }
}

/// A bound of an axis: counted from the end when negative, and cut to the axis.
pub open spec fn bound_of(v: i32, len: usize) -> usize {
    if v < 0 {
        if len + v >= 0 {
            (len + v) as usize
        } else {
            0
        }
    } else if v <= len {
        v as usize
    } else {
        len
    }
}

/// A bound of an axis.
pub fn norm_bound(v: i32, dim_len: usize) -> (b: usize)
    requires
        dim_len <= i32::MAX,
    ensures
        b == bound_of(v, dim_len),
        b <= dim_len,
{
    if v < 0 {
        let s: i32 = dim_len as i32 + v;
        if s >= 0 {
            s as usize
        } else {
            0
        }
    } else if v <= dim_len as i32 {
        v as usize
    } else {
        dim_len
    }
}

/// The range of an axis that an element names, for assignment: one position is a
/// range of one.
pub open spec fn range_of(e: IndexElem, len: usize) -> (usize, usize) {
    match e {
        IndexElem::All => (0, len),
        IndexElem::At(i) => (i as usize, (i as usize + 1) as usize),
        IndexElem::Span(a, b) => (bound_of(a, len), bound_of(b, len)),
        IndexElem::From(a) => (bound_of(a, len), len),
        IndexElem::Rest(_) => (0, len),
    }
}

/// The slice of an axis that an element names: its start and its length.
pub open spec fn slice_of(e: IndexElem, len: usize) -> (usize, usize) {
    match e {
        IndexElem::At(i) => (i as usize, 1),
        IndexElem::Span(a, b) => (
            bound_of(a, len),
            if bound_of(b, len) >= bound_of(a, len) {
                (bound_of(b, len) - bound_of(a, len)) as usize
            } else {
                0
            },
        ),
        IndexElem::From(a) => (bound_of(a, len), (len - bound_of(a, len)) as usize),
        _ => (0, len),
    }
}

/// The axes that the first `k` elements name.
pub open spec fn used(elems: Seq<IndexElem>, k: int) -> nat
    decreases k,
{
    if k <= 0 {
        0
    } else {
        used(elems, k - 1) + named(elems[k - 1])
    }
}

/// The axis at which the `k`-th element stands.
pub open spec fn axis_at(elems: Seq<IndexElem>, rank: nat, k: int) -> int
    decreases k,
{
    if k <= 0 {
        0
    } else {
        axis_at(elems, rank, k - 1) + (if elems[k - 1].rest() {
            rank - used(elems, elems.len() as int)
        } else {
            1
        })
    }
}

/// One element applied to an axis.
pub open spec fn picked(a: ArrayV, e: IndexElem, axis: usize) -> Outcome {
    match e {
        IndexElem::All | IndexElem::Rest(_) => Ok(a),
        _ => narrow_s(a, axis, slice_of(e, a.shape()[axis as int]).0, slice_of(
            e,
            a.shape()[axis as int],
        ).1),
    }
}

/// The array after its first `k` elements have been applied.
pub open spec fn picked_to(a: ArrayV, elems: Seq<IndexElem>, k: int) -> Outcome
    decreases k,
{
    if k <= 0 {
        Ok(a)
    } else {
        match picked_to(a, elems, k - 1) {
            Ok(b) => picked(b, elems[k - 1], axis_at(elems, a.rank(), k - 1) as usize),
            Err(e) => Err(e),
        }
    }
}

/// The axes that single positions of the first `k` elements leave out.
pub open spec fn left_out(elems: Seq<IndexElem>, rank: nat, k: int) -> Seq<usize>
    decreases k,
{
    if k <= 0 {
        Seq::empty()
    } else if elems[k - 1] is At {
        left_out(elems, rank, k - 1).push(axis_at(elems, rank, k - 1) as usize)
    } else {
        left_out(elems, rank, k - 1)
    }
}

/// The array without the axes from the last down to the `k`-th of a list.
pub open spec fn squeezed_down(a: ArrayV, axes: Seq<usize>, k: int) -> Outcome
    decreases axes.len() - k,
{
    if k < 0 || k >= axes.len() {
        Ok(a)
    } else {
        match squeezed_down(a, axes, k + 1) {
            Ok(b) => squeeze_s(b, axes[k]),
            Err(e) => Err(e),
        }
    }
}

/// The part of an array that an index names.
pub open spec fn indexed(a: ArrayV, elems: Seq<IndexElem>) -> Outcome {
    match picked_to(a, elems, elems.len() as int) {
        Ok(b) => squeezed_down(b, left_out(elems, a.rank(), elems.len() as int), 0),
        Err(e) => Err(e),
    }
}

/// The index can be worked out: it names no more axes than there are, every bound
/// belongs to an axis, and the place where each slice starts has a number.
pub open spec fn indexable(a: ArrayV, elems: Seq<IndexElem>) -> bool {
    &&& a.rank() <= i32::MAX
    &&& used(elems, elems.len() as int) <= a.rank()
    &&& forall|k: int|
        0 <= k < elems.len() ==> 0 <= #[trigger] axis_at(elems, a.rank(), k) <= a.rank()
    &&& forall|k: int|
        #![trigger picked_to(a, elems, k)]
        0 <= k < elems.len() && !elems[k].rest() ==> match picked_to(a, elems, k) {
            Ok(b) => {
                let d = axis_at(elems, a.rank(), k);
                let s = slice_of(elems[k], b.shape()[d]);
                &&& d < b.rank()
                &&& b.shape()[d] <= i32::MAX
                &&& s.0 + s.1 <= usize::MAX
                &&& s.0 + s.1 <= b.shape()[d] ==> (b.layout.offset + s.0 * b.strides()[d]) * width(
                    b.dtype,
                ) <= usize::MAX
            },
            Err(_) => true,
        }
}

fn count_axes(elems: &[IndexElem]) -> (n: usize)
    requires
        used(elems@, elems@.len() as int) <= usize::MAX,
    ensures
        n == used(elems@, elems@.len() as int),
{
    let mut n: usize = 0;
    let mut i: usize = 0;
    while i < elems.len()
        invariant
            i <= elems@.len(),
            n == used(elems@, i as int),
            used(elems@, elems@.len() as int) <= usize::MAX,
        decreases elems.len() - i,
    {
        proof {
            lemma_used(elems@, i + 1, elems@.len() as int);
        }
        n = n + elems[i].ndims();
        i += 1;
    }
    n
}

proof fn lemma_used(elems: Seq<IndexElem>, k: int, n: int)
    requires
        0 <= k <= n,
    ensures
        used(elems, k) <= used(elems, n),
    decreases n - k,
{
    if k < n {
        lemma_used(elems, k, n - 1);
    }
}

proof fn lemma_picked_stays(a: ArrayV, elems: Seq<IndexElem>, k: int, n: int)
    requires
        0 <= k <= n,
        picked_to(a, elems, k) is Err,
    ensures
        picked_to(a, elems, n) == picked_to(a, elems, k),
    decreases n - k,
{
    if k < n {
        lemma_picked_stays(a, elems, k, n - 1);
    }
}

fn pick(a: &Array, e: IndexElem, axis: usize) -> (r: Result<Array, Error>)
    requires
        a@.wf(),
        !e.rest(),
        axis < a@.rank(),
        a@.shape()[axis as int] <= i32::MAX,
        ({
            let s = slice_of(e, a@.shape()[axis as int]);
            &&& s.0 + s.1 <= usize::MAX
            &&& s.0 + s.1 <= a@.shape()[axis as int] ==> (a@.layout.offset + s.0
                * a@.strides()[axis as int]) * width(a@.dtype) <= usize::MAX
        }),
    ensures
        seen(r) == picked(a@, e, axis),
        r matches Ok(b) ==> b@.wf() && b@.rank() == a@.rank(),
{
    let len = a.dim(axis);
    match e {
        IndexElem::At(i) => a.narrow(axis, i as usize, 1),
        IndexElem::Span(x, y) => {
            let p = norm_bound(x, len);
            let q = norm_bound(y, len);
            let n: usize = if q >= p {
                q - p
            } else {
                0
            };
            a.narrow(axis, p, n)
        },
        IndexElem::From(x) => {
            let p = norm_bound(x, len);
            a.narrow(axis, p, len - p)
        },
        _ => Ok(a.duplicate()),
    }
}

/// The part of an array that an index names.
pub fn index_seq(t: &Array, elems: &[IndexElem]) -> (r: Result<Array, Error>)
    requires
        t@.wf(),
        indexable(t@, elems@),
    ensures
        seen(r) == indexed(t@, elems@),
        r matches Ok(a) ==> a@.wf(),
{
    let rank = t.rank();
    let n = count_axes(elems);
    let mut cur = t.duplicate();
    let mut squeezes: Vec<usize> = Vec::new();
    let mut dim: usize = 0;
    let mut k: usize = 0;
    while k < elems.len()
        invariant
            k <= elems@.len(),
            t@.wf(),
            rank == t@.rank(),
            n == used(elems@, elems@.len() as int),
            indexable(t@, elems@),
            cur@.wf(),
            cur@.rank() == rank,
            picked_to(t@, elems@, k as int) == Outcome::Ok(cur@),
            squeezes@ == left_out(elems@, rank as nat, k as int),
            dim == axis_at(elems@, rank as nat, k as int),
            dim <= 2 * rank,
        decreases elems.len() - k,
    {
        let e = elems[k];
        assert(0 <= axis_at(elems@, t@.rank(), k as int) <= t@.rank());
        if e.is_ellipsis() {
            dim = dim + (rank - n);
        } else {
            assert(picked_to(t@, elems@, k as int) == Outcome::Ok(cur@));
            match pick(&cur, e, dim) {
                Ok(v) => {
                    cur = v;
                },
                Err(e) => {
                    proof {
                        lemma_picked_stays(t@, elems@, k + 1, elems@.len() as int);
                    }
                    return Err(e);
                },
            }
            match e {
                IndexElem::At(_) => {
                    squeezes.push(dim);
                },
                _ => {},
            }
            dim = dim + 1;
        }
        k += 1;
    }
    let ghost whole = cur@;
    let mut i = squeezes.len();
    while i > 0
        invariant
            i <= squeezes@.len(),
            cur@.wf(),
            squeezed_down(whole, squeezes@, i as int) == Outcome::Ok(cur@),
            squeezes@ == left_out(elems@, rank as nat, elems@.len() as int),
            rank == t@.rank(),
            picked_to(t@, elems@, elems@.len() as int) == Outcome::Ok(whole),
        decreases i,
    {
        i = i - 1;
        match cur.squeeze(squeezes[i]) {
            Ok(v) => {
                cur = v;
            },
            Err(e) => {
                proof {
                    lemma_squeezed_stays(whole, squeezes@, i as int);
                }
                return Err(e);
            },
        }
    }
    Ok(cur)
}

proof fn lemma_squeezed_stays(a: ArrayV, axes: Seq<usize>, k: int)
    requires
        0 <= k <= axes.len(),
        squeezed_down(a, axes, k) is Err,
    ensures
        squeezed_down(a, axes, 0) == squeezed_down(a, axes, k),
    decreases k,
{
    if k > 0 {
        lemma_squeezed_stays(a, axes, k - 1);
    }
}

// ---- ranges ----

/// The ranges of the axes that stand for the ones not named.
pub open spec fn rest_ranges(shape: Seq<usize>, from: int, n: int) -> Seq<(usize, usize)> {
    Seq::new(n as nat, |i: int| (0usize, shape[from + i]))
}

/// The ranges that the first `k` elements name, axis by axis.
pub open spec fn ranges_to(shape: Seq<usize>, elems: Seq<IndexElem>, k: int) -> Seq<(usize, usize)>
    decreases k,
{
    if k <= 0 {
        Seq::empty()
    } else {
        let d = axis_at(elems, shape.len(), k - 1);
        ranges_to(shape, elems, k - 1) + (if elems[k - 1].rest() {
            rest_ranges(shape, d, shape.len() - used(elems, elems.len() as int))
        } else {
            seq![range_of(elems[k - 1], shape[d])]
        })
    }
}

/// Every element of the index belongs to an axis, and every range has an end.
pub open spec fn assignable(shape: Seq<usize>, elems: Seq<IndexElem>) -> bool {
    &&& used(elems, elems.len() as int) <= shape.len() <= i32::MAX
    &&& forall|k: int|
        #![trigger axis_at(elems, shape.len(), k)]
        0 <= k < elems.len() ==> {
            let d = axis_at(elems, shape.len(), k);
            &&& 0 <= d
            &&& elems[k].rest() ==> d + (shape.len() - used(elems, elems.len() as int))
                <= shape.len()
            &&& !elems[k].rest() ==> d < shape.len() && shape[d] <= i32::MAX
            &&& elems[k] matches IndexElem::At(i) ==> i as usize + 1 <= usize::MAX
        }
}

fn range(e: IndexElem, len: usize) -> (r: (usize, usize))
    requires
        len <= i32::MAX,
        e matches IndexElem::At(i) ==> i as usize + 1 <= usize::MAX,
    ensures
        r == range_of(e, len),
{
    match e {
        IndexElem::At(i) => (i as usize, i as usize + 1),
        IndexElem::Span(a, b) => (norm_bound(a, len), norm_bound(b, len)),
        IndexElem::From(a) => (norm_bound(a, len), len),
        _ => (0, len),
    }
}

/// The ranges that an index names, axis by axis.
pub fn index_ranges(shape: &[usize], elems: &[IndexElem]) -> (r: Vec<(usize, usize)>)
    requires
        assignable(shape@, elems@),
    ensures
        r@ == ranges_to(shape@, elems@, elems@.len() as int),
{
    let rank = shape.len();
    let n = count_axes(elems);
    let mut out: Vec<(usize, usize)> = Vec::new();
    let mut dim: usize = 0;
    let mut k: usize = 0;
    while k < elems.len()
        invariant
            k <= elems@.len(),
            rank == shape@.len(),
            n == used(elems@, elems@.len() as int),
            assignable(shape@, elems@),
            out@ == ranges_to(shape@, elems@, k as int),
            dim == axis_at(elems@, shape@.len(), k as int),
            dim <= rank,
        decreases elems.len() - k,
    {
        let e = elems[k];
        assert(0 <= axis_at(elems@, shape@.len(), k as int));
        if e.is_ellipsis() {
            let ghost before = out@;
            let from = dim;
            let more: usize = rank - n;
            let mut i: usize = 0;
            assert(out@ =~= before + rest_ranges(shape@, from as int, 0));
            while i < more
                invariant
                    i <= more,
                    dim == from + i,
                    from + more <= rank,
                    rank == shape@.len(),
                    out@ == before + rest_ranges(shape@, from as int, i as int),
                decreases more - i,
            {
                out.push((0, shape[dim]));
                dim = dim + 1;
                i += 1;
                assert(out@ =~= before + rest_ranges(shape@, from as int, i as int));
            }
        } else {
            let ghost before = out@;
            let r = range(e, shape[dim]);
            out.push(r);
            assert(out@ =~= before + seq![r]);
            dim = dim + 1;
        }
        k += 1;
    }
    out
}

// ---- operations ----

/// Picking a part by an index.
pub trait TryIndexOp {
    spec fn whole(&self) -> ArrayV;

    /// The part that an index names.
    fn try_index(&self, i: &[IndexElem]) -> (r: Result<Array, Error>)
        requires
            self.whole().wf(),
            indexable(self.whole(), i@),
        ensures
            seen(r) == indexed(self.whole(), i@),
            r matches Ok(a) ==> a@.wf(),
    ;
}

impl TryIndexOp for Array {
    open spec fn whole(&self) -> ArrayV {
        self@
    }

    fn try_index(&self, i: &[IndexElem]) -> (r: Result<Array, Error>) {
        index_seq(self, i)
    }
}

/// Picking a part that is known to be there.
pub trait IndexOp: TryIndexOp {
    fn index(&self, i: &[IndexElem]) -> (a: Array)
        requires
            self.whole().wf(),
            indexable(self.whole(), i@),
            indexed(self.whole(), i@) is Ok,
        ensures
            indexed(self.whole(), i@) == Outcome::Ok(a@),
            a@.wf(),
    ;
}

impl IndexOp for Array {
    fn index(&self, i: &[IndexElem]) -> (a: Array) {
        match index_seq(self, i) {
            Ok(a) => a,
            Err(_) => {
                assert(false);
                self.duplicate()
            },
        }
    }
}

/// Writing into a part by an index.
pub trait TryIndexMutOp {
    spec fn target(&self) -> ArrayV;

    /// Puts a value into the part that an index names.
    fn try_index_mut(&mut self, tape: &mut Tape, i: &[IndexElem], val: &Array) -> (r: Result<
        (),
        Error,
    >)
        requires
            old(self).target().wf(),
            val@.wf(),
            assignable(old(self).target().shape(), i@),
            placeable(
                fresh(old(tape)@, old(self).target().shape(), old(self).target().dtype),
                ranges_to(old(self).target().shape(), i@, i@.len() as int),
            ),
        ensures
            ({
                let (t, o) = assign_s(
                    old(tape)@,
                    old(self).target(),
                    ranges_to(old(self).target().shape(), i@, i@.len() as int),
                    val@,
                );
                &&& final(tape)@ == t
                &&& match r {
                    Ok(_) => o == Outcome::Ok(final(self).target()) && final(self).target().wf(),
                    Err(e) => o == Outcome::Err(e.text()) && final(self).target() == old(
                        self,
                    ).target(),
                }
            }),
    ;
}

impl TryIndexMutOp for Array {
    open spec fn target(&self) -> ArrayV {
        self@
    }

    fn try_index_mut(&mut self, tape: &mut Tape, i: &[IndexElem], val: &Array) -> (r: Result<
        (),
        Error,
    >) {
        let ranges = index_ranges(self.shape(), i);
        match self.slice_assign(tape, &ranges, val) {
            Ok(a) => {
                *self = a;
                Ok(())
            },
            Err(e) => Err(e),
        }
    }
}

/// Writing into a part where that is known to succeed.
pub trait IndexMutOp: TryIndexMutOp {
    fn index_mut(&mut self, tape: &mut Tape, i: &[IndexElem], val: &Array)
        requires
            old(self).target().wf(),
            val@.wf(),
            assignable(old(self).target().shape(), i@),
            placeable(
                fresh(old(tape)@, old(self).target().shape(), old(self).target().dtype),
                ranges_to(old(self).target().shape(), i@, i@.len() as int),
            ),
            assign_s(
                old(tape)@,
                old(self).target(),
                ranges_to(old(self).target().shape(), i@, i@.len() as int),
                val@,
            ).1 is Ok,
        ensures
            (final(tape)@, Outcome::Ok(final(self).target())) == assign_s(
                old(tape)@,
                old(self).target(),
                ranges_to(old(self).target().shape(), i@, i@.len() as int),
                val@,
            ),
            final(self).target().wf(),
    ;
}

impl IndexMutOp for Array {
    fn index_mut(&mut self, tape: &mut Tape, i: &[IndexElem], val: &Array) {
        match self.try_index_mut(tape, i, val) {
            Ok(_) => {},
            Err(_) => {
                assert(false);
            },
        }
    }
}

/// The empty index names the whole array.
pub proof fn empty_index_is_everything(a: ArrayV)
    ensures
        indexed(a, Seq::empty()) == Outcome::Ok(a),
        ranges_to(a.shape(), Seq::empty(), 0) == Seq::<(usize, usize)>::empty(),
{
}

/// An ellipsis alone names the whole array.
pub proof fn ellipsis_is_everything(a: ArrayV)
    ensures
        indexed(a, seq![IndexElem::Rest(Ellipsis)]) == Outcome::Ok(a),
        ranges_to(a.shape(), seq![IndexElem::Rest(Ellipsis)], 1) == rest_ranges(
            a.shape(),
            0,
            a.rank() as int,
        ),
{
    let e = seq![IndexElem::Rest(Ellipsis)];
    reveal_with_fuel(used, 2);
    reveal_with_fuel(picked_to, 2);
    reveal_with_fuel(left_out, 2);
    reveal_with_fuel(ranges_to, 2);
    assert(ranges_to(a.shape(), e, 1) =~= rest_ranges(a.shape(), 0, a.rank() as int));
}

} // verus!
