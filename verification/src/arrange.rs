//! Reshaping, joining and picking from arrays, as the engine sees them.

use vstd::prelude::*;

use crate::array::{
    broadcast_to_s, contiguous_s, expand_s, flatten_s, permute_s, reshape_s, roomy,
    Array as Tensor, ArrayV, Outcome,
};
use crate::dtype::{compilable, promoted, width, Dtype};
use crate::elementwise::cast_s;
use crate::error::Error;
use crate::facade::{
    index_to_u32, indices_s, norm_axis, promote_dtype, shown, sizes, to_sizes, wrap, wrapped_axis,
    Array,
};
use crate::folds::is_permutation;
use crate::join::{
    array_views, cat_s, gather_s, gatherable, joinable, lifted_at, pickable, repeat_shape,
    repeat_spread, stack_s, take_s, take_shape, tile_lift, tile_shape, tile_spread,
};
use crate::layout::{heads_fit, lemma_numel_take_step, numel};
use crate::named::chain;
use crate::nax::{matmul_s, matmul_shape};
use crate::reduce::{axis_of, countable_rows, softmax_last_s};
use crate::search::scatter_s;
use crate::tape::{Tape, TapeV};
use crate::views::{narrowed, permuted, swap_perm};

verus! {

// ---- reshaping ----

/// The sizes that are asked for: a zero keeps the size at its place, and a size
/// that is left open counts as one; any other negative number wraps.
pub open spec fn asked(from: Seq<usize>, shape: Seq<i32>) -> Seq<usize> {
    Seq::new(
        shape.len(),
        |i: int|
            if shape[i] == -1 {
                1
            } else if shape[i] == 0 {
                if i < from.len() {
                    from[i]
                } else {
                    1
                }
            } else {
                shape[i] as usize
            },
    )
}

/// The last size among the first `k` that is left open.
pub open spec fn open_axis(shape: Seq<i32>, k: int) -> Option<int>
    decreases k,
{
    if k <= 0 {
        None
    } else if shape[k - 1] == -1 {
        Some(k - 1)
    } else {
        open_axis(shape, k - 1)
    }
}

/// The sizes of so many elements under the sizes that are asked for.
pub open spec fn filled(from: Seq<usize>, shape: Seq<i32>) -> Seq<usize> {
    let base = asked(from, shape);
    match open_axis(shape, shape.len() as int) {
        Some(h) => base.update(
            h,
            (numel(from) / (if numel(base) == 0 {
                1
            } else {
                numel(base)
            })) as usize,
        ),
        None => base,
    }
}

/// There is one size for each that is asked for.
pub proof fn lemma_filled_len(from: Seq<usize>, shape: Seq<i32>)
    ensures
        filled(from, shape).len() == shape.len(),
{
    lemma_open_axis(shape, shape.len() as int);
}

/// Sizes that can be asked for: their products are numbers of the machine, and what
/// they come to has a size in bytes or is refused for its number of elements.
pub open spec fn reshapes(from: Seq<usize>, shape: Seq<i32>) -> bool {
    let to = filled(from, shape);
    &&& heads_fit(asked(from, shape))
    &&& roomy(to) || heads_fit(to) && numel(to) != numel(from)
}

proof fn lemma_open_axis(shape: Seq<i32>, k: int)
    requires
        0 <= k <= shape.len(),
    ensures
        open_axis(shape, k) matches Some(h) ==> 0 <= h < k && shape[h] == -1,
    decreases k,
{
    if k > 0 {
        lemma_open_axis(shape, k - 1);
    }
}

proof fn lemma_numel_update(s: Seq<usize>, h: int, d: usize)
    requires
        0 <= h < s.len(),
        s[h] == 1,
    ensures
        numel(s.update(h, d)) == numel(s) * d,
    decreases s.len(),
{
    let u = s.update(h, d);
    if h == s.len() - 1 {
        assert(u.drop_last() =~= s.drop_last());
        assert(numel(s) == numel(s.drop_last()) * 1);
    } else {
        assert(u.drop_last() =~= s.drop_last().update(h, d));
        lemma_numel_update(s.drop_last(), h, d);
        let a = numel(s.drop_last());
        let l = s.last() as nat;
        assert(a * d * l == a * l * d) by (nonlinear_arith);
    }
}

/// A size that is left open is the one that keeps the number of elements, where
/// there is one.
pub proof fn open_size_keeps_the_count(from: Seq<usize>, shape: Seq<i32>)
    requires
        numel(from) <= usize::MAX,
        exists|i: int| 0 <= i < shape.len() && shape[i] == -1,
        numel(asked(from, shape)) > 0,
        numel(from) % numel(asked(from, shape)) == 0,
    ensures
        numel(filled(from, shape)) == numel(from),
{
    let base = asked(from, shape);
    let n = shape.len() as int;
    let w = choose|i: int| 0 <= i < shape.len() && shape[i] == -1;
    lemma_open_found(shape, n, w);
    lemma_open_axis(shape, n);
    let h = open_axis(shape, n)->0;
    let q = numel(from) / numel(base);
    assert(q <= numel(from)) by (nonlinear_arith)
        requires
            q == numel(from) / numel(base),
            numel(base) > 0,
    ;
    lemma_numel_update(base, h, q as usize);
    assert(numel(base) * q == numel(from)) by (nonlinear_arith)
        requires
            q == numel(from) / numel(base),
            numel(base) > 0,
            numel(from) % numel(base) == 0,
    ;
}

proof fn lemma_open_found(shape: Seq<i32>, k: int, w: int)
    requires
        0 <= w < k <= shape.len(),
        shape[w] == -1,
    ensures
        open_axis(shape, k) is Some,
    decreases k,
{
    if w < k - 1 {
        lemma_open_found(shape, k - 1, w);
    }
}

impl Array {
    /// The elements under other sizes: one may be left open by a minus one, and a
    /// zero keeps the size at its place.
    pub fn reshape(&self, tape: &mut Tape, shape: &[i32]) -> (r: Result<Array, Error>)
        requires
            self.wf(),
            reshapes(self.t@.shape(), shape@),
        ensures
            (final(tape)@, shown(r)) == reshape_s(
                old(tape)@,
                self.t@,
                filled(self.t@.shape(), shape@),
            ),
            r matches Ok(a) ==> a.wf() && a.t@.shape() == filled(self.t@.shape(), shape@),
    {
        let total = self.t.elem_count();
        let from = self.t.dims();
        let ghost want = asked(self.t@.shape(), shape@);
        let mut dims: Vec<usize> = Vec::new();
        let mut hole: Option<usize> = None;
        let mut prod: usize = 1;
        let mut i: usize = 0;
        while i < shape.len()
            invariant
                i <= shape@.len(),
                from@ == self.t@.shape(),
                want == asked(self.t@.shape(), shape@),
                heads_fit(want),
                dims@ == want.take(i as int),
                prod == numel(want.take(i as int)),
                open_axis(shape@, i as int) == match hole {
                    Some(h) => Some(h as int),
                    None => None,
                },
            decreases shape.len() - i,
        {
            let d = shape[i];
            proof {
                lemma_numel_take_step(want, i as int);
                assert(numel(want.take(i + 1)) <= usize::MAX);
            }
            if d == -1 {
                hole = Some(i);
                dims.push(1);
            } else if d == 0 {
                let u: usize = if i < from.len() {
                    from[i]
                } else {
                    1
                };
                prod = prod * u;
                dims.push(u);
            } else {
                let u = d as usize;
                prod = prod * u;
                dims.push(u);
            }
            i += 1;
            assert(dims@ =~= want.take(i as int));
        }
        assert(want.take(i as int) =~= want);
        proof {
            lemma_open_axis(shape@, shape@.len() as int);
        }
        if let Some(h) = hole {
            let by: usize = if prod == 0 {
                1
            } else {
                prod
            };
            dims.set(h, total / by);
        }
        assert(dims@ =~= filled(self.t@.shape(), shape@));
        wrap(self.t.reshape_dims(tape, &dims))
    }

    /// The array with an axis of size one put in; a negative place is counted from
    /// behind the last axis.
    pub fn expand_dims(&self, axis: i32) -> (r: Result<Array, Error>)
        requires
            self.wf(),
            self.t@.rank() < i32::MAX,
        ensures
            shown(r) == expand_s(self.t@, wrapped_axis((self.t@.rank() + 1) as usize, axis)),
            r matches Ok(a) ==> a.wf(),
    {
        let rank = self.t.rank();
        let ax = norm_axis(rank + 1, axis);
        wrap(self.t.unsqueeze(ax))
    }

    /// The array with its axes in another order.
    pub fn transpose_axes(&self, axes: &[i32]) -> (r: Result<Array, Error>)
        requires
            self.wf(),
            axes@.len() == self.t@.rank() ==> forall|i: int|
                0 <= i < axes@.len() ==> (#[trigger] sizes(axes@)[i]) < self.t@.rank(),
        ensures
            shown(r) == permute_s(self.t@, sizes(axes@)),
            is_permutation(sizes(axes@), self.t@.rank()) ==> (r matches Ok(a) ==> a.wf()),
    {
        let perm = to_sizes(axes);
        wrap(self.t.permute(&perm))
    }

    /// The array in row-major order.
    pub fn contiguous(&self, tape: &mut Tape) -> (r: Result<Array, Error>)
        requires
            self.wf(),
        ensures
            (final(tape)@, shown(r)) == contiguous_s(old(tape)@, self.t@),
            r matches Ok(a) ==> a.wf(),
    {
        wrap(self.t.contiguous(tape))
    }

    /// The elements in one row, packed, to be read back.
    pub fn flat(&self, tape: &mut Tape) -> (r: Result<Array, Error>)
        requires
            self.wf(),
        ensures
            (final(tape)@, shown(r)) == flatten_s(old(tape)@, self.t@),
            r matches Ok(a) ==> a.wf() && a.t@.layout.dense(),
    {
        match self.t.flatten_all(tape) {
            Ok(f) => wrap(f.contiguous(tape)),
            Err(e) => Err(e),
        }
    }

    /// The array spread over a shape.
    pub fn broadcast_to(&self, shape: &[i32]) -> (r: Result<Array, Error>)
        requires
            self.wf(),
            broadcast_to_s(self.t@, sizes(shape@)) is Ok ==> roomy(sizes(shape@)),
        ensures
            shown(r) == broadcast_to_s(self.t@, sizes(shape@)),
            r matches Ok(a) ==> a.wf(),
    {
        let dims = to_sizes(shape);
        wrap(self.t.broadcast_as(&dims))
    }

    /// The array cut into equal parts along an axis.
    pub fn split_equal(&self, num_splits: usize, axis: i32) -> (r: Result<Vec<Array>, Error>)
        requires
            self.wf(),
            self.t@.rank() <= i32::MAX,
            num_splits > 0 ==> {
                let ax = wrapped_axis(self.t@.rank() as usize, axis) as int;
                &&& ax < self.t@.rank()
                &&& (self.t@.layout.offset + self.t@.shape()[ax] * self.t@.strides()[ax]) * width(
                    self.t@.dtype,
                ) <= usize::MAX
            },
        ensures
            ({
                let ax = wrapped_axis(self.t@.rank() as usize, axis) as int;
                let size = self.t@.shape()[ax];
                &&& r is Ok <==> num_splits != 0 && size % num_splits == 0
                &&& r matches Err(e) ==> e.text() == "split_equal: axis not divisible"@
                &&& r matches Ok(v) ==> {
                    let step = (size / num_splits) as int;
                    &&& v@.len() == num_splits
                    &&& forall|i: int|
                        0 <= i < num_splits ==> (#[trigger] v@[i]).t@ == self.t@.under(
                            narrowed(self.t@.layout, ax, (i * step) as usize, step as usize),
                        ) && v@[i].wf()
                }
            }),
    {
        let ax = norm_axis(self.t.rank(), axis);
        let parts = match self.t.chunk(num_splits, ax) {
            Ok(p) => p,
            Err(e) => {
                return Err(e);
            },
        };
        let mut out: Vec<Array> = Vec::new();
        let mut i: usize = 0;
        while i < parts.len()
            invariant
                i <= parts@.len(),
                out@.len() == i,
                forall|j: int| 0 <= j < parts@.len() ==> (#[trigger] parts@[j])@.wf(),
                forall|j: int|
                    0 <= j < i ==> (#[trigger] out@[j]).t@ == parts@[j]@ && out@[j].wf(),
            decreases parts.len() - i,
        {
            out.push(Array::new(parts[i].duplicate()));
            i += 1;
        }
        Ok(out)
    }
}

// ---- joining ----

/// The arrays inside.
pub open spec fn inner(v: Seq<&Array>) -> Seq<ArrayV> {
    v.map_values(|a: &Array| a.t@)
}

fn inner_of(arrays: &[&Array]) -> (v: Vec<Tensor>)
    ensures
        array_views(v@) == inner(arrays@),
{
    let mut v: Vec<Tensor> = Vec::new();
    let mut i: usize = 0;
    while i < arrays.len()
        invariant
            i <= arrays@.len(),
            array_views(v@) == inner(arrays@).take(i as int),
        decreases arrays.len() - i,
    {
        let ghost before = v@;
        let a = arrays[i].t.duplicate();
        v.push(a);
        proof {
            assert(inner(arrays@)[i as int] == a@);
            assert(array_views(v@) =~= array_views(before).push(a@));
            assert(inner(arrays@).take(i + 1) =~= inner(arrays@).take(i as int).push(
                inner(arrays@)[i as int],
            ));
        }
        i += 1;
    }
    assert(array_views(v@) =~= inner(arrays@));
    v
}

/// The rank that axes are counted by when arrays are joined.
pub open spec fn joint_rank(v: Seq<ArrayV>) -> nat {
    if v.len() == 0 {
        1
    } else {
        v[0].rank()
    }
}

/// The rank that axes are counted by when arrays are stacked.
pub open spec fn stack_rank(v: Seq<ArrayV>) -> nat {
    if v.len() == 0 {
        1
    } else {
        v[0].rank() + 1
    }
}

impl Array {
    /// Arrays one behind another along an axis.
    pub fn concatenate(tape: &mut Tape, arrays: &[&Array], axis: i32) -> (r: Result<Array, Error>)
        requires
            joint_rank(inner(arrays@)) <= i32::MAX,
            joinable(
                inner(arrays@),
                wrapped_axis(joint_rank(inner(arrays@)) as usize, axis) as int,
            ),
        ensures
            (final(tape)@, shown(r)) == cat_s(
                old(tape)@,
                inner(arrays@),
                wrapped_axis(joint_rank(inner(arrays@)) as usize, axis),
            ),
            r matches Ok(a) ==> a.wf(),
    {
        let rank: usize = if arrays.len() == 0 {
            1
        } else {
            arrays[0].t.rank()
        };
        let v = inner_of(arrays);
        wrap(crate::join::cat(tape, &v, norm_axis(rank, axis)))
    }

    /// Arrays next to each other along a new axis.
    pub fn stack(tape: &mut Tape, arrays: &[&Array], axis: i32) -> (r: Result<Array, Error>)
        requires
            forall|i: int| 0 <= i < arrays@.len() ==> (#[trigger] arrays@[i]).wf(),
            stack_rank(inner(arrays@)) <= i32::MAX,
            ({
                let ax = wrapped_axis(stack_rank(inner(arrays@)) as usize, axis);
                (forall|i: int| 0 <= i < arrays@.len() ==> ax <= (#[trigger] arrays@[i]).t@.rank())
                    ==> joinable(lifted_at(inner(arrays@), ax as int), ax as int)
            }),
        ensures
            (final(tape)@, shown(r)) == stack_s(
                old(tape)@,
                inner(arrays@),
                wrapped_axis(stack_rank(inner(arrays@)) as usize, axis),
            ),
            r matches Ok(a) ==> a.wf(),
    {
        let rank: usize = if arrays.len() == 0 {
            1
        } else {
            proof {
                assert(inner(arrays@)[0] == arrays@[0].t@);
            }
            arrays[0].t.rank() + 1
        };
        let v = inner_of(arrays);
        let ax = norm_axis(rank, axis);
        proof {
            assert forall|i: int| 0 <= i < v@.len() implies (#[trigger] v@[i])@
                == arrays@[i].t@ by {
                assert(array_views(v@)[i] == inner(arrays@)[i]);
            }
            assert(v@.len() == array_views(v@).len());
            assert(arrays@.len() == inner(arrays@).len());
            if forall|i: int| 0 <= i < v@.len() ==> ax <= (#[trigger] v@[i])@.rank() {
                assert forall|i: int| 0 <= i < arrays@.len() implies ax <= (
                #[trigger] arrays@[i]).t@.rank() by {
                    assert(v@[i]@ == arrays@[i].t@);
                }
            }
        }
        wrap(crate::join::stack(tape, &v, ax))
    }
}

// ---- repeating ----

/// Each position of an axis, `n` times in a row.
pub open spec fn repeated_s(t: TapeV, a: ArrayV, n: usize, axis: usize) -> (TapeV, Outcome) {
    let e = a.under(crate::views::expanded(a.layout, axis + 1));
    match broadcast_to_s(e, repeat_spread(a.shape(), axis as int, n)) {
        Err(m) => (t, Err(m)),
        Ok(b) => reshape_s(t, b, repeat_shape(a.shape(), axis as int, n)),
    }
}

/// The array, repeated along each axis.
pub open spec fn tiled_s(t: TapeV, a: ArrayV, reps: Seq<usize>) -> (TapeV, Outcome) {
    if reps.len() != a.rank() {
        (t, Err("tile: reps rank must match input rank"@))
    } else {
        match broadcast_to_s(tile_lift(a, a.rank()), tile_spread(a.shape(), reps)) {
            Err(m) => (t, Err(m)),
            Ok(b) => reshape_s(t, b, tile_shape(a.shape(), reps)),
        }
    }
}

/// Sizes as a vector of their own.
fn owned(s: &[usize]) -> (v: Vec<usize>)
    ensures
        v@ == s@,
{
    let mut v: Vec<usize> = Vec::new();
    let mut i: usize = 0;
    while i < s.len()
        invariant
            i <= s@.len(),
            v@ == s@.take(i as int),
        decreases s.len() - i,
    {
        v.push(s[i]);
        i += 1;
        assert(v@ =~= s@.take(i as int));
    }
    assert(v@ =~= s@);
    v
}

impl Array {
    /// Each position of an axis, `n` times in a row.
    pub fn repeat_axis(&self, tape: &mut Tape, n: usize, axis: i32) -> (r: Result<Array, Error>)
        requires
            self.wf(),
            self.t@.rank() <= i32::MAX,
            0 <= axis_of(self.t@.rank(), axis) < self.t@.rank(),
            ({
                let ax = axis_of(self.t@.rank(), axis);
                &&& self.t@.shape()[ax] * n <= usize::MAX
                &&& roomy(repeat_spread(self.t@.shape(), ax, n))
                &&& roomy(repeat_shape(self.t@.shape(), ax, n))
            }),
        ensures
            (final(tape)@, shown(r)) == repeated_s(
                old(tape)@,
                self.t@,
                n,
                axis_of(self.t@.rank(), axis) as usize,
            ),
            r matches Ok(a) ==> a.wf() && a.t@.shape() == repeat_shape(
                self.t@.shape(),
                axis_of(self.t@.rank(), axis),
                n,
            ) && a.t@.dtype == self.t@.dtype,
    {
        let rank = self.t.rank();
        let ax = norm_axis(rank, axis);
        let mut dims = owned(self.t.dims());
        let d = dims[ax];
        dims.insert(ax + 1, n);
        assert(dims@ =~= repeat_spread(self.t@.shape(), ax as int, n));
        let e = match self.t.unsqueeze(ax + 1) {
            Ok(e) => e,
            Err(m) => {
                assert(false);
                return Err(m);
            },
        };
        let b = match e.broadcast_as(&dims) {
            Ok(b) => b,
            Err(m) => {
                return Err(m);
            },
        };
        let mut out = owned(self.t.dims());
        out.set(ax, d * n);
        assert(out@ =~= repeat_shape(self.t@.shape(), ax as int, n));
        wrap(b.reshape_dims(tape, &out))
    }

    /// The array, repeated along each axis.
    pub fn tile(&self, tape: &mut Tape, reps: &[usize]) -> (r: Result<Array, Error>)
        requires
            self.wf(),
            self.t@.rank() <= usize::MAX / 2,
            reps@.len() == self.t@.rank() ==> roomy(tile_spread(self.t@.shape(), reps@))
                && roomy(tile_shape(self.t@.shape(), reps@)) && (forall|i: int|
                0 <= i < reps@.len() ==> #[trigger] self.t@.shape()[i] * reps@[i] <= usize::MAX),
        ensures
            (final(tape)@, shown(r)) == tiled_s(old(tape)@, self.t@, reps@),
            r matches Ok(a) ==> a.wf(),
    {
        let n = self.t.rank();
        if reps.len() != n {
            return Err(Error::msg("tile: reps rank must match input rank"));
        }
        let mut want: Vec<usize> = Vec::new();
        let mut out: Vec<usize> = Vec::new();
        let mut t = self.t.duplicate();
        let mut i: usize = 0;
        while i < n
            invariant
                i <= n,
                n == self.t@.rank(),
                n <= usize::MAX / 2,
                self.t@.wf(),
                reps@.len() == n,
                forall|k: int|
                    0 <= k < reps@.len() ==> #[trigger] self.t@.shape()[k] * reps@[k]
                        <= usize::MAX,
                want@ == tile_spread(self.t@.shape().take(i as int), reps@.take(i as int)),
                out@ == tile_shape(self.t@.shape(), reps@).take(i as int),
                t@ == tile_lift(self.t@, i as nat),
                t@.wf(),
                t@.rank() == n + i,
            decreases n - i,
        {
            let d = self.t.dims()[i];
            assert(self.t@.shape()[i as int] * reps@[i as int] <= usize::MAX);
            proof {
                assert(self.t@.shape().take(i + 1).drop_last() =~= self.t@.shape().take(i as int));
                assert(reps@.take(i + 1).drop_last() =~= reps@.take(i as int));
            }
            want.push(reps[i]);
            want.push(d);
            out.push(d * reps[i]);
            match t.unsqueeze(2 * i) {
                Ok(e) => {
                    t = e;
                },
                Err(m) => {
                    assert(false);
                    return Err(m);
                },
            }
            i += 1;
            assert(want@ =~= tile_spread(self.t@.shape().take(i as int), reps@.take(i as int)));
            assert(out@ =~= tile_shape(self.t@.shape(), reps@).take(i as int));
        }
        proof {
            assert(self.t@.shape().take(n as int) =~= self.t@.shape());
            assert(reps@.take(n as int) =~= reps@);
            assert(out@ =~= tile_shape(self.t@.shape(), reps@));
        }
        match t.broadcast_as(&want) {
            Ok(b) => wrap(b.reshape_dims(tape, &out)),
            Err(m) => Err(m),
        }
    }
}

// ---- picking ----

impl Array {
    /// The elements that indices name along an axis, one for each index.
    pub fn take_along_axis(&self, tape: &mut Tape, indices: &Array, axis: i32) -> (r: Result<
        Array,
        Error,
    >)
        requires
            self.wf(),
            indices.wf(),
            self.t@.rank() <= i32::MAX,
            ({
                let ax = wrapped_axis(self.t@.rank() as usize, axis);
                gatherable(self.t@, indices.t@.shape(), Dtype::Uint32, ax) ==> ax < self.t@.rank()
            }),
        ensures
            (final(tape)@, shown(r)) == chain(
                indices_s(old(tape)@, indices.t@),
                |t: TapeV, ids: ArrayV|
                    gather_s(t, self.t@, ids, wrapped_axis(self.t@.rank() as usize, axis)),
            ),
            r matches Ok(a) ==> a.wf(),
    {
        let ax = norm_axis(self.t.rank(), axis);
        match index_to_u32(tape, &indices.t) {
            Ok(ids) => wrap(self.t.gather(tape, &ids, ax)),
            Err(e) => Err(e),
        }
    }

    /// The array with values put where indices name along an axis.
    pub fn put_along_axis(
        &self,
        tape: &mut Tape,
        indices: &Array,
        values: &Array,
        axis: i32,
    ) -> (r: Result<Array, Error>)
        requires
            self.wf(),
            indices.wf(),
            values.wf(),
            indices.t@.rank() <= i32::MAX,
            compilable(self.t@.dtype) && compilable(indices.t@.dtype) ==> {
                &&& self.t@.rank() == indices.t@.rank()
                &&& values.t@.rank() == indices.t@.rank()
                &&& 0 <= axis_of(indices.t@.rank(), axis) < indices.t@.rank()
            },
        ensures
            (final(tape)@, shown(r)) == scatter_s(
                old(tape)@,
                self.t@,
                indices.t@,
                values.t@,
                axis_of(indices.t@.rank(), axis),
            ),
            r matches Ok(a) ==> a.wf(),
    {
        wrap(crate::search::put_along_axis(tape, &self.t, &indices.t, &values.t, axis))
    }

    /// The positions of an axis that indices of any shape name.
    pub fn take_axis(&self, tape: &mut Tape, indices: &Array, axis: i32) -> (r: Result<
        Array,
        Error,
    >)
        requires
            self.wf(),
            indices.wf(),
            self.t@.rank() <= i32::MAX,
            pickable(self.t@.dtype, Dtype::Uint32) ==> {
                let ax = wrapped_axis(self.t@.rank() as usize, axis) as int;
                &&& ax < self.t@.rank()
                &&& roomy(self.t@.shape().update(ax, indices.t@.count() as usize))
                &&& roomy(take_shape(self.t@.shape(), indices.t@.shape(), ax))
            },
        ensures
            (final(tape)@, shown(r)) == chain(
                indices_s(old(tape)@, indices.t@),
                |t: TapeV, ids: ArrayV|
                    take_s(t, self.t@, ids, wrapped_axis(self.t@.rank() as usize, axis)),
            ),
            r matches Ok(a) ==> a.wf(),
    {
        let ax = norm_axis(self.t.rank(), axis);
        match index_to_u32(tape, &indices.t) {
            Ok(ids) => wrap(self.t.take_axis(tape, &ids, ax)),
            Err(e) => Err(e),
        }
    }

    /// The matrix product, in the common type.
    pub fn matmul(&self, tape: &mut Tape, rhs: &Array) -> (r: Result<Array, Error>)
        requires
            self.wf(),
            rhs.wf(),
            matmul_shape(self.t@.shape(), rhs.t@.shape()) matches Some((shape, s)) ==> roomy(shape)
                && s.fits(),
        ensures
            (final(tape)@, shown(r)) == product_s(old(tape)@, self.t@, rhs.t@),
            r matches Ok(a) ==> a.wf(),
    {
        let dt = promote_dtype(self.t.dtype(), rhs.t.dtype());
        let a = match self.t.to_dtype(tape, dt) {
            Ok(a) => a,
            Err(e) => {
                return Err(e);
            },
        };
        let b = match rhs.t.to_dtype(tape, dt) {
            Ok(b) => b,
            Err(e) => {
                return Err(e);
            },
        };
        wrap(a.matmul(tape, &b))
    }

    /// The softmax along an axis.
    pub fn softmax_axis(&self, tape: &mut Tape, axis: i32) -> (r: Result<Array, Error>)
        requires
            self.wf(),
            0 < self.t@.rank() <= i32::MAX,
            softmax_counts(self.t@, wrapped_axis(self.t@.rank() as usize, axis)),
        ensures
            (final(tape)@, shown(r)) == softmax_along_s(
                old(tape)@,
                self.t@,
                wrapped_axis(self.t@.rank() as usize, axis),
            ),
            r matches Ok(a) ==> a.wf(),
    {
        let rank = self.t.rank();
        let ax = norm_axis(rank, axis);
        if ax == rank - 1 {
            return wrap(crate::reduce::softmax_last_axis(tape, &self.t, true));
        }
        let moved = match self.t.transpose(ax, rank - 1) {
            Ok(m) => m,
            Err(e) => {
                return Err(e);
            },
        };
        let packed = match moved.contiguous(tape) {
            Ok(p) => p,
            Err(e) => {
                return Err(e);
            },
        };
        let s = match crate::reduce::softmax_last_axis(tape, &packed, true) {
            Ok(s) => s,
            Err(e) => {
                return Err(e);
            },
        };
        match s.transpose(ax, rank - 1) {
            Ok(m) => wrap(m.contiguous(tape)),
            Err(e) => Err(e),
        }
    }
}

/// The matrix product in the common type.
pub open spec fn product_s(t: TapeV, a: ArrayV, b: ArrayV) -> (TapeV, Outcome) {
    let dt = promoted(a.dtype, b.dtype);
    chain(
        cast_s(t, a, dt),
        |t1: TapeV, x: ArrayV|
            chain(cast_s(t1, b, dt), |t2: TapeV, y: ArrayV| matmul_s(t2, x, y)),
    )
}

/// The array with an axis swapped with the last one.
pub open spec fn moved(a: ArrayV, axis: usize) -> ArrayV {
    a.under(permuted(a.layout, swap_perm(a.rank(), axis as int, a.rank() - 1)))
}

/// The rows along an axis can be counted, where there is such an axis.
pub open spec fn softmax_counts(a: ArrayV, axis: usize) -> bool {
    let s = if axis == a.rank() - 1 {
        a.shape()
    } else {
        moved(a, axis).shape()
    };
    axis < a.rank() && s.last() <= 4096 ==> countable_rows(s)
}

/// The softmax along an axis: along the last one as it is, along another with the
/// two swapped before and after.
pub open spec fn softmax_along_s(t: TapeV, a: ArrayV, axis: usize) -> (TapeV, Outcome) {
    if axis == a.rank() - 1 {
        softmax_last_s(t, a, true)
    } else if axis >= a.rank() {
        (t, Err("transpose: axis out of range"@))
    } else {
        chain(
            contiguous_s(t, moved(a, axis)),
            |t1: TapeV, p: ArrayV|
                chain(
                    softmax_last_s(t1, p, true),
                    |t2: TapeV, s: ArrayV| contiguous_s(t2, moved(s, axis)),
                ),
        )
    }
}

// ---- filling ----

/// An array of a shape, filled with a value.
pub fn full(tape: &mut Tape, shape: &[i32], values: &Array) -> (r: Result<Array, Error>)
    requires
        values.wf(),
        broadcast_to_s(values.t@, sizes(shape@)) is Ok ==> roomy(sizes(shape@)),
    ensures
        (final(tape)@, shown(r)) == (match broadcast_to_s(values.t@, sizes(shape@)) {
            Ok(b) => contiguous_s(old(tape)@, b),
            Err(m) => (old(tape)@, Err(m)),
        }),
        r matches Ok(a) ==> a.wf(),
{
    let dims = to_sizes(shape);
    match values.t.broadcast_as(&dims) {
        Ok(b) => wrap(b.contiguous(tape)),
        Err(e) => Err(e),
    }
}

} // verus!
