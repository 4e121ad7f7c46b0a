//! The gated delta recurrence, composed of array operations.

use vstd::prelude::*;

use crate::arrange::repeated_s;
use crate::array::{
    broadcast_to_s, contiguous_s, lemma_roomy, reshape_s, roomy, seen, Array as Tensor, ArrayV,
    Outcome,
};
use crate::dtype::{promoted, width, Dtype};
use crate::elementwise::{broadcasted, cast_s, scalar_s};
use crate::error::Error;
use crate::facade::{promoted_binary, promoted_s, shown, Array};
use crate::index::{
    axis_at, index_seq, indexable, indexed, left_out, picked_to, slice_of, squeezed_down, used,
    IndexElem,
};
use crate::join::{
    array_views, lemma_narrow_fits, lifted_at, repeat_shape, repeat_spread, stack_s,
};
use crate::layout::{at_least_one, is_void, numel, packed, volume};
use crate::named::chain;
use crate::reduce::{reduce_last_axis, reduce_last_s, Reduction};
use crate::stacking::{alike, alike_arrays_stack, stacked_shape};
use crate::tape::{max_usize, Scalar, Tape, TapeV};

verus! {

// ---- sizes ----

/// The sizes of a recurrence: batches, heads, and the state's rows and columns.
#[derive(Clone, Copy, PartialEq, Eq, Structural, Debug)]
pub struct DeltaDims {
    pub b: usize,
    pub hv: usize,
    pub dv: usize,
    pub dk: usize,
}

impl DeltaDims {
    /// The shape of the state.
    pub open spec fn state(self) -> Seq<usize> {
        seq![self.b, self.hv, self.dv, self.dk]
    }

    /// The shape of one output.
    pub open spec fn row(self) -> Seq<usize> {
        seq![self.b, self.hv, self.dv]
    }

    /// A value for every column of a head. Of no heads it takes those that are
    /// given, and of no columns it takes one.
    pub open spec fn columns(self, heads: usize) -> Seq<usize> {
        let h = if self.hv == 0 {
            heads
        } else {
            self.hv
        };
        seq![self.b, h, 1, at_least_one(self.dk) as usize]
    }

    /// The product of rows and columns.
    pub open spec fn outer(self) -> Seq<usize> {
        seq![self.b, self.hv, self.dv, at_least_one(self.dk) as usize]
    }

    /// The shape in which the state after a step is kept: its own, or, of a state
    /// without elements, the first axis.
    pub open spec fn kept(self) -> Seq<usize> {
        if is_void(self.state()) {
            seq![self.b]
        } else {
            self.state()
        }
    }

    /// A value for every row of a head.
    pub open spec fn rows(self) -> Seq<usize> {
        seq![self.b, self.hv, self.dv, 1]
    }

    /// A value for every head, under the state.
    pub open spec fn heads(self) -> Seq<usize> {
        seq![self.b, self.hv, 1, 1]
    }

    /// A value for every head, under an output.
    pub open spec fn gates(self) -> Seq<usize> {
        seq![self.b, self.hv, 1]
    }

    /// Sizes of a state that has a size in bytes.
    pub open spec fn sound(self) -> bool {
        &&& self.b <= i32::MAX
        &&& self.hv <= i32::MAX
        &&& self.dv <= i32::MAX
        &&& self.dk <= i32::MAX
        &&& roomy(self.state())
    }
}

// ---- one step ----

/// The position of a step in an array.
pub open spec fn at(x: ArrayV, idx: i32) -> ArrayV {
    indexed(x, seq![IndexElem::All, IndexElem::At(idx)])->Ok_0
}

/// The decay, the key and the rate of a step, laid out to go with the state.
#[verifier::opaque]
pub open spec fn laid_s(t: TapeV, g: ArrayV, k: ArrayV, beta: ArrayV, z: DeltaDims) -> (
    TapeV,
    Result<(ArrayV, ArrayV, ArrayV), Seq<char>>,
) {
    match reshape_s(t, g, z.heads()) {
        (t1, Err(e)) => (t1, Err(e)),
        (t1, Ok(decay)) => match reshape_s(t1, k, z.columns(k.shape()[1])) {
            (t2, Err(e)) => (t2, Err(e)),
            (t2, Ok(key)) => match reshape_s(t2, beta, z.gates()) {
                (t3, Err(e)) => (t3, Err(e)),
                (t3, Ok(gate)) => (t3, Ok((decay, key, gate))),
            },
        },
    }
}

/// What the state is to be corrected by: the value less what the state holds for
/// the key, gated.
#[verifier::opaque]
pub open spec fn correction_s(t: TapeV, state: ArrayV, key: ArrayV, value: ArrayV, gate: ArrayV) -> (
    TapeV,
    Outcome,
) {
    chain(
        promoted_s(t, state, key, "bmul"@),
        |t1: TapeV, p: ArrayV|
            chain(
                reduce_last_s(t1, p, Reduction::Sum),
                |t2: TapeV, held: ArrayV|
                    chain(
                        promoted_s(t2, value, held, "bsub"@),
                        |t3: TapeV, d: ArrayV| promoted_s(t3, d, gate, "bmul"@),
                    ),
            ),
    )
}

/// The state corrected along the key.
#[verifier::opaque]
pub open spec fn corrected_s(t: TapeV, state: ArrayV, key: ArrayV, delta: ArrayV, z: DeltaDims) -> (
    TapeV,
    Outcome,
) {
    chain(
        reshape_s(t, delta, z.rows()),
        |t1: TapeV, d: ArrayV|
            chain(
                promoted_s(t1, key, d, "bmul"@),
                |t2: TapeV, u: ArrayV| promoted_s(t2, state, u, "badd"@),
            ),
    )
}

/// What the state holds for the query, in a type.
#[verifier::opaque]
pub open spec fn answer_s(t: TapeV, state: ArrayV, q: ArrayV, z: DeltaDims, d: Dtype) -> (
    TapeV,
    Outcome,
) {
    chain(
        reshape_s(t, q, z.columns(q.shape()[1])),
        |t1: TapeV, query: ArrayV|
            chain(
                promoted_s(t1, state, query, "bmul"@),
                |t2: TapeV, p: ArrayV|
                    chain(
                        reduce_last_s(t2, p, Reduction::Sum),
                        |t3: TapeV, y: ArrayV| cast_s(t3, y, d),
                    ),
            ),
    )
}

/// One step: the state decays, is corrected along the key, and answers the query.
#[verifier::opaque]
pub open spec fn step_s(
    t: TapeV,
    state: ArrayV,
    q: ArrayV,
    k: ArrayV,
    v: ArrayV,
    g: ArrayV,
    beta: ArrayV,
    idx: i32,
    z: DeltaDims,
    d: Dtype,
) -> (TapeV, Result<(ArrayV, ArrayV), Seq<char>>) {
    match laid_s(t, at(g, idx), at(k, idx), at(beta, idx), z) {
        (t1, Err(e)) => (t1, Err(e)),
        (t1, Ok((decay, key, gate))) => match promoted_s(t1, state, decay, "bmul"@) {
            (t2, Err(e)) => (t2, Err(e)),
            (t2, Ok(faded)) => match correction_s(t2, faded, key, at(v, idx), gate) {
                (t3, Err(e)) => (t3, Err(e)),
                (t3, Ok(delta)) => match corrected_s(t3, faded, key, delta, z) {
                    (t4, Err(e)) => (t4, Err(e)),
                    (t4, Ok(new)) => match answer_s(t4, new, at(q, idx), z, d) {
                        (t5, Err(e)) => (t5, Err(e)),
                        (t5, Ok(y)) => (t5, Ok((y, new))),
                    },
                },
            },
        },
    }
}

// ---- shapes ----

pub proof fn lemma_common(z: DeltaDims, h: usize)
    requires
        z.hv == 0 ==> h == 1,
    ensures
        broadcasted(z.state(), z.heads()) == z.state(),
        broadcasted(z.state(), z.columns(h)) == z.state(),
        broadcasted(z.columns(h), z.rows()) == z.outer(),
        broadcasted(z.state(), z.outer()) == z.state(),
        broadcasted(z.row(), z.row()) == z.row(),
        broadcasted(z.row(), z.gates()) == z.row(),
        z.state().drop_last() == z.row(),
{
    assert(broadcasted(z.state(), z.heads()) =~= z.state());
    assert(broadcasted(z.state(), z.columns(h)) =~= z.state());
    assert(broadcasted(z.columns(h), z.rows()) =~= z.outer());
    assert(broadcasted(z.state(), z.outer()) =~= z.state());
    assert(broadcasted(z.row(), z.row()) =~= z.row());
    assert(broadcasted(z.row(), z.gates()) =~= z.row());
    assert(z.state().drop_last() =~= z.row());
}

pub proof fn lemma_volume_le(a: Seq<usize>, b: Seq<usize>)
    requires
        a.len() == b.len(),
        forall|i: int|
            0 <= i < a.len() ==> at_least_one(#[trigger] a[i])
                <= at_least_one(b[i]),
    ensures
        volume(a) <= volume(b),
    decreases a.len(),
{
    if a.len() > 0 {
        lemma_volume_le(a.drop_last(), b.drop_last());
        let (x, y) = (volume(a.drop_last()), volume(b.drop_last()));
        let n = a.len() - 1;
        assert(at_least_one(a[n]) <= at_least_one(b[n]));
        let (p, q) = (
            at_least_one(a.last()),
            at_least_one(b.last()),
        );
        assert(x * p <= y * q) by (nonlinear_arith)
            requires
                x <= y,
                p <= q,
        ;
    }
}

pub proof fn lemma_all_roomy(z: DeltaDims)
    requires
        z.sound(),
    ensures
        roomy(z.row()),
        roomy(z.outer()),
        roomy(z.rows()),
        roomy(z.heads()),
        roomy(z.gates()),
{
    lemma_volume_le(z.outer(), z.state());
    lemma_volume_le(z.rows(), z.state());
    lemma_volume_le(z.heads(), z.state());
    crate::reduce::lemma_roomy_front(z.state());
    assert(z.state().drop_last() =~= z.row());
    lemma_volume_le(z.gates(), z.row());
}

proof fn lemma_promoted_packed(t: TapeV, a: ArrayV, b: ArrayV, op: Seq<char>)
    ensures
        promoted_s(t, a, b, op).1 matches Ok(x) ==> x.layout == packed(
            broadcasted(a.shape(), b.shape()),
        ),
{
    let dt = promoted(a.dtype, b.dtype);
    lemma_cast_shape(t, a, dt);
    match cast_s(t, a, dt) {
        (t1, Ok(_)) => {
            lemma_cast_shape(t1, b, dt);
        },
        _ => {},
    }
}

proof fn lemma_cast_shape(t: TapeV, a: ArrayV, d: Dtype)
    ensures
        cast_s(t, a, d).1 matches Ok(x) ==> x.shape() == a.shape() && (a.layout == packed(a.shape())
            && a.rank() > 0 ==> x.layout == packed(a.shape())),
{
    if a.dtype != d && a.rank() == 0 {
        assert(a.shape() =~= Seq::<usize>::empty());
    }
}

proof fn lemma_columns_roomy(z: DeltaDims, x: ArrayV)
    requires
        z.sound(),
        x.wf(),
        x.rank() == 3,
        x.shape()[0] == z.b,
        x.shape()[2] == z.dk,
    ensures
        roomy(z.columns(x.shape()[1])),
{
    let h = x.shape()[1];
    if z.hv == 0 {
        let like = seq![z.b, h, z.dk];
        let lifted = seq![z.b, h, 1usize, z.dk];
        assert(x.shape() =~= like);
        assert(lifted.drop_last().drop_last() =~= like.drop_last());
        let (x, one) = (volume(like.drop_last()), at_least_one(1usize));
        assert(volume(lifted.drop_last()) == x * one);
        assert(x * one == x) by (nonlinear_arith)
            requires
                one == 1,
        ;
        assert(lifted.last() == like.last());
        assert(volume(lifted) == volume(like));
        lemma_volume_le(z.columns(h), lifted);
    } else {
        lemma_volume_le(z.columns(h), z.state());
    }
}

/// A step of an array without elements can be found.
pub open spec fn steppable(x: ArrayV, steps: usize) -> bool {
    is_void(x.shape()) ==> (x.layout.offset + steps * x.strides()[1]) * width(x.dtype)
        <= usize::MAX
}

/// The position of a step can be picked.
pub proof fn lemma_at(x: ArrayV, idx: i32)
    requires
        x.wf(),
        x.rank() >= 2,
        x.rank() <= i32::MAX,
        (x.layout.offset + idx * x.strides()[1]) * width(x.dtype) <= usize::MAX,
        x.shape()[0] <= i32::MAX,
        x.shape()[1] <= i32::MAX,
        0 <= idx < x.shape()[1],
    ensures
        indexable(x, seq![IndexElem::All, IndexElem::At(idx)]),
        indexed(x, seq![IndexElem::All, IndexElem::At(idx)]) is Ok,
        at(x, idx).shape() == x.shape().remove(1),
        at(x, idx).dtype == x.dtype,
        at(x, idx) == x.under(
            crate::views::squeezed(crate::views::narrowed(x.layout, 1, idx as usize, 1), 1),
        ),
{
    let e = seq![IndexElem::All, IndexElem::At(idx)];
    reveal_with_fuel(used, 3);
    reveal_with_fuel(axis_at, 3);
    assert(used(e, 2) == 2);
    let b = x.under(crate::views::narrowed(x.layout, 1, idx as usize, 1));
    assert(picked_to(x, e, 0) == Outcome::Ok(x));
    assert(picked_to(x, e, 1) == Outcome::Ok(x));
    assert(picked_to(x, e, 2) == Outcome::Ok(b));
    let st = x.strides()[0] as int;
    assert(0 * st == 0) by (nonlinear_arith);
    assert forall|k: int| 0 <= k < e.len() implies 0 <= #[trigger] axis_at(e, x.rank(), k)
        <= x.rank() by {
        assert(k == 0 || k == 1);
    }
    assert forall|k: int|
        #![trigger picked_to(x, e, k)]
        0 <= k < e.len() && !e[k].rest() implies match picked_to(x, e, k) {
        Ok(c) => {
            let d = axis_at(e, x.rank(), k);
            let s = slice_of(e[k], c.shape()[d]);
            &&& d < c.rank()
            &&& c.shape()[d] <= i32::MAX
            &&& s.0 + s.1 <= usize::MAX
            &&& s.0 + s.1 <= c.shape()[d] ==> (c.layout.offset + s.0 * c.strides()[d]) * width(
                c.dtype,
            ) <= usize::MAX
        },
        Err(_) => true,
    } by {
        assert(k == 0 || k == 1);
        if k == 0 {
            assert(slice_of(e[0], x.shape()[0]).0 == 0);
        }
    }
    assert(left_out(e, x.rank(), 2) =~= seq![1usize]) by {
        reveal_with_fuel(left_out, 3);
    }
    reveal_with_fuel(squeezed_down, 3);
    assert(squeezed_down(b, seq![1usize], 1) == Outcome::Ok(b));
    assert(b.shape()[1] == 1);
    assert(at(x, idx).shape() =~= x.shape().remove(1));
}

fn pick(x: &Tensor, idx: i32, Ghost(steps): Ghost<usize>) -> (r: Tensor)
    requires
        x@.wf(),
        x@.rank() >= 2,
        x@.rank() <= i32::MAX,
        steppable(x@, steps),
        x@.shape()[1] == steps,
        x@.shape()[0] <= i32::MAX,
        x@.shape()[1] <= i32::MAX,
        0 <= idx < x@.shape()[1],
    ensures
        r@ == at(x@, idx),
        r@.wf(),
        r@.shape() == x@.shape().remove(1),
        r@.dtype == x@.dtype,
{
    let e = vec![IndexElem::All, IndexElem::At(idx)];
    proof {
        assert(e@ =~= seq![IndexElem::All, IndexElem::At(idx)]);
        if !is_void(x@.shape()) {
            lemma_narrow_fits(x@, 1, idx as usize, 1);
        } else {
            let (o, s, w) = (
                x@.layout.offset as int,
                x@.strides()[1] as int,
                width(x@.dtype) as int,
            );
            assert((o + idx * s) * w <= (o + steps * s) * w) by (nonlinear_arith)
                requires
                    idx <= steps,
                    s >= 0,
                    w >= 0,
            ;
        }
        lemma_at(x@, idx);
    }
    index_seq(x, &e).unwrap()
}

// ---- the pieces ----

/// Keys without columns are fewer than their heads.
proof fn lemma_columns_short(z: DeltaDims, x: ArrayV)
    requires
        z.hv == 0,
        z.dk == 0,
        z.b > 0,
        x.rank() == 3,
        x.shape()[1] > 0,
        x.shape()[2] == 0,
    ensures
        numel(z.columns(x.shape()[1])) != x.count(),
{
    let c = z.columns(x.shape()[1]);
    let h = x.shape()[1];
    assert(x.count() == numel(x.shape().drop_last()) * 0);
    assert(c.drop_last().drop_last() =~= seq![z.b, h]);
    assert(seq![z.b, h].drop_last() =~= seq![z.b]);
    crate::layout::lemma_numel_one(z.b);
    assert(numel(seq![z.b, h]) == z.b * h);
    assert(numel(c.drop_last()) == numel(seq![z.b, h]) * 1);
    assert(numel(c) == numel(c.drop_last()) * 1);
    assert(z.b * h > 0) by (nonlinear_arith)
        requires
            z.b > 0,
            h > 0,
    ;
}

/// The shape of a value for every column of a head.
fn columns(x: &Tensor, z: DeltaDims) -> (s: Vec<usize>)
    requires
        x@.rank() == 3,
    ensures
        s@ == z.columns(x@.shape()[1]),
{
    let heads = if z.hv == 0 {
        x.dims()[1]
    } else {
        z.hv
    };
    let s = vec![z.b, heads, 1, max_usize(z.dk, 1)];
    assert(s@ =~= z.columns(x@.shape()[1]));
    s
}

fn lay_out(tape: &mut Tape, g: &Tensor, k: &Tensor, beta: &Tensor, z: DeltaDims) -> (r: Result<
    (Tensor, Tensor, Tensor),
    Error,
>)
    requires
        g@.wf(),
        k@.wf(),
        beta@.wf(),
        z.sound(),
        k@.rank() == 3,
        k@.shape()[0] == z.b,
        k@.shape()[1] > 0,
        k@.shape()[2] == z.dk,
    ensures
        ({
            let (t1, o) = laid_s(old(tape)@, g@, k@, beta@, z);
            &&& final(tape)@ == t1
            &&& match r {
                Ok((a, b, c)) => o == Ok::<(ArrayV, ArrayV, ArrayV), Seq<char>>((a@, b@, c@))
                    && a@.wf() && b@.wf() && c@.wf() && a@.shape() == z.heads() && b@.shape()
                    == z.columns(k@.shape()[1]) && c@.shape() == z.gates() && (z.hv == 0 ==> z.dk > 0
                    || z.b == 0),
                Err(e) => o == Err::<(ArrayV, ArrayV, ArrayV), Seq<char>>(e.text()),
            }
        }),
{
    let s1 = vec![z.b, z.hv, 1, 1];
    let s2 = columns(k, z);
    let s3 = vec![z.b, z.hv, 1];
    proof {
        reveal(laid_s);
        lemma_all_roomy(z);
        lemma_columns_roomy(z, k@);
        assert(s1@ =~= z.heads());
        assert(s3@ =~= z.gates());
    }
    let a = match g.reshape_dims(tape, &s1) {
        Ok(a) => a,
        Err(e) => {
            return Err(e);
        },
    };
    let b = match k.reshape_dims(tape, &s2) {
        Ok(b) => b,
        Err(e) => {
            return Err(e);
        },
    };
    proof {
        if z.hv == 0 && z.dk == 0 && z.b > 0 {
            lemma_columns_short(z, k@);
        }
    }
    let c = match beta.reshape_dims(tape, &s3) {
        Ok(c) => c,
        Err(e) => {
            return Err(e);
        },
    };
    Ok((a, b, c))
}

fn correction(
    tape: &mut Tape,
    state: &Tensor,
    key: &Tensor,
    value: &Tensor,
    gate: &Tensor,
    z: DeltaDims,
    Ghost(h): Ghost<usize>,
) -> (r: Result<Tensor, Error>)
    requires
        z.hv == 0 ==> h == 1,
        state@.wf(),
        key@.wf(),
        value@.wf(),
        gate@.wf(),
        z.sound(),
        state@.shape() == z.state(),
        key@.shape() == z.columns(h),
        value@.shape() == z.row(),
        gate@.shape() == z.gates(),
    ensures
        (final(tape)@, seen(r)) == correction_s(old(tape)@, state@, key@, value@, gate@),
        r matches Ok(d) ==> d@.wf() && d@.shape() == z.row(),
{
    proof {
        reveal(correction_s);
        lemma_common(z, h);
        lemma_all_roomy(z);
    }
    let p = match promoted_binary(tape, state, key, "bmul") {
        Ok(p) => p,
        Err(e) => {
            return Err(e);
        },
    };
    let held = match reduce_last_axis(tape, &p, Reduction::Sum) {
        Ok(h) => h,
        Err(e) => {
            return Err(e);
        },
    };
    let d = match promoted_binary(tape, value, &held, "bsub") {
        Ok(d) => d,
        Err(e) => {
            return Err(e);
        },
    };
    promoted_binary(tape, &d, gate, "bmul")
}

fn corrected(
    tape: &mut Tape,
    state: &Tensor,
    key: &Tensor,
    delta: &Tensor,
    z: DeltaDims,
    Ghost(h): Ghost<usize>,
) -> (r: Result<Tensor, Error>)
    requires
        z.hv == 0 ==> h == 1,
        state@.wf(),
        key@.wf(),
        delta@.wf(),
        z.sound(),
        state@.shape() == z.state(),
        key@.shape() == z.columns(h),
    ensures
        (final(tape)@, seen(r)) == corrected_s(old(tape)@, state@, key@, delta@, z),
        r matches Ok(s) ==> s@.wf() && s@.shape() == z.state() && s@.layout == packed(z.state()),
{
    let shape = vec![z.b, z.hv, z.dv, 1];
    proof {
        reveal(corrected_s);
        lemma_common(z, h);
        lemma_all_roomy(z);
        assert(shape@ =~= z.rows());
    }
    let d = match delta.reshape_dims(tape, &shape) {
        Ok(d) => d,
        Err(e) => {
            return Err(e);
        },
    };
    let u = match promoted_binary(tape, key, &d, "bmul") {
        Ok(u) => u,
        Err(e) => {
            return Err(e);
        },
    };
    proof {
        lemma_promoted_packed(tape@, state@, u@, "badd"@);
    }
    promoted_binary(tape, state, &u, "badd")
}

fn answer(tape: &mut Tape, state: &Tensor, q: &Tensor, z: DeltaDims, d: Dtype) -> (r: Result<
    Tensor,
    Error,
>)
    requires
        state@.wf(),
        q@.wf(),
        z.sound(),
        q@.rank() == 3,
        q@.shape()[0] == z.b,
        q@.shape()[2] == z.dk,
        z.hv == 0 ==> q@.shape()[1] == 1,
        state@.shape() == z.state(),
    ensures
        (final(tape)@, seen(r)) == answer_s(old(tape)@, state@, q@, z, d),
        r matches Ok(y) ==> y@.wf() && y@.layout == packed(z.row()) && y@.dtype == d,
{
    let shape = columns(q, z);
    proof {
        reveal(answer_s);
        lemma_common(z, q@.shape()[1]);
        lemma_all_roomy(z);
        lemma_columns_roomy(z, q@);
    }
    let query = match q.reshape_dims(tape, &shape) {
        Ok(x) => x,
        Err(e) => {
            return Err(e);
        },
    };
    let p = match promoted_binary(tape, state, &query, "bmul") {
        Ok(p) => p,
        Err(e) => {
            return Err(e);
        },
    };
    let y = match reduce_last_axis(tape, &p, Reduction::Sum) {
        Ok(y) => y,
        Err(e) => {
            return Err(e);
        },
    };
    proof {
        assert(y@.layout == packed(z.row()));
        lemma_cast_shape(tape@, y@, d);
    }
    y.to_dtype(tape, d)
}

/// Operands that have the sizes of the recurrence.
pub open spec fn operands(q: ArrayV, k: ArrayV, v: ArrayV, g: ArrayV, beta: ArrayV, steps: usize, h: usize, z: DeltaDims) -> bool {
    &&& q.wf() && k.wf() && v.wf() && g.wf() && beta.wf()
    &&& q.shape() == seq![z.b, steps, h, z.dk]
    &&& k.shape() == seq![z.b, steps, h, z.dk]
    &&& v.shape() == seq![z.b, steps, z.hv, z.dv]
    &&& g.shape() == seq![z.b, steps, z.hv]
    &&& beta.shape() == seq![z.b, steps, z.hv]
    &&& 0 < h <= i32::MAX
    &&& steps <= i32::MAX
    &&& steppable(q, steps) && steppable(k, steps) && steppable(v, steps) && steppable(g, steps)
        && steppable(beta, steps)
    &&& steps > 0 && z.hv == 0 && (z.dk > 0 || z.b == 0) ==> h == 1
}

fn one_step(
    tape: &mut Tape,
    state: &Tensor,
    q: &Tensor,
    k: &Tensor,
    v: &Tensor,
    g: &Tensor,
    beta: &Tensor,
    idx: i32,
    z: DeltaDims,
    d: Dtype,
    Ghost(steps): Ghost<usize>,
    Ghost(h): Ghost<usize>,
) -> (r: Result<(Tensor, Tensor), Error>)
    requires
        z.sound(),
        operands(q@, k@, v@, g@, beta@, steps, h, z),
        0 <= idx < steps,
        state@.wf(),
        state@.shape() == z.state(),
    ensures
        ({
            let (t1, o) = step_s(old(tape)@, state@, q@, k@, v@, g@, beta@, idx, z, d);
            &&& final(tape)@ == t1
            &&& match r {
                Ok((y, s)) => o == Ok::<(ArrayV, ArrayV), Seq<char>>((y@, s@)) && y@.wf() && s@.wf()
                    && y@.layout == packed(z.row()) && y@.dtype == d && s@.layout == packed(
                    z.state(),
                ),
                Err(e) => o == Err::<(ArrayV, ArrayV), Seq<char>>(e.text()),
            }
        }),
{
    proof {
        reveal(step_s);
        assert(v@.shape().remove(1) =~= z.row());
        assert(q@.shape().remove(1) =~= seq![z.b, h, z.dk]);
        assert(k@.shape().remove(1) =~= seq![z.b, h, z.dk]);
        lemma_all_roomy(z);
    }
    let q_t = pick(q, idx, Ghost(steps));
    let k_t = pick(k, idx, Ghost(steps));
    let v_t = pick(v, idx, Ghost(steps));
    let g_t = pick(g, idx, Ghost(steps));
    let b_t = pick(beta, idx, Ghost(steps));
    let (decay, key, gate) = match lay_out(tape, &g_t, &k_t, &b_t, z) {
        Ok(x) => x,
        Err(e) => {
            return Err(e);
        },
    };
    proof {
        lemma_common(z, h);
    }
    let faded = match promoted_binary(tape, state, &decay, "bmul") {
        Ok(x) => x,
        Err(e) => {
            return Err(e);
        },
    };
    let delta = match correction(tape, &faded, &key, &v_t, &gate, z, Ghost(h)) {
        Ok(x) => x,
        Err(e) => {
            return Err(e);
        },
    };
    let new = match corrected(tape, &faded, &key, &delta, z, Ghost(h)) {
        Ok(x) => x,
        Err(e) => {
            return Err(e);
        },
    };
    match answer(tape, &new, &q_t, z, d) {
        Ok(y) => Ok((y, new)),
        Err(e) => Err(e),
    }
}

// ---- all steps ----

/// The state after a step, as it is kept.
pub open spec fn kept_s(t: TapeV, state: ArrayV, z: DeltaDims) -> (TapeV, Outcome) {
    if is_void(z.state()) {
        reshape_s(t, state, z.kept())
    } else {
        (t, Ok(state))
    }
}

fn keep(tape: &mut Tape, state: &Tensor, z: DeltaDims) -> (r: Result<Tensor, Error>)
    requires
        z.sound(),
        state@.wf(),
        state@.layout == packed(z.state()),
    ensures
        (final(tape)@, seen(r)) == kept_s(old(tape)@, state@, z),
        r matches Ok(s) ==> s@.wf() && s@.layout == packed(z.kept()),
{
    if z.b != 0 && z.hv != 0 && z.dv != 0 && z.dk != 0 {
        return Ok(state.duplicate());
    }
    let shape = vec![z.b];
    proof {
        let s = z.state();
        assert(s[0] == 0 || s[1] == 0 || s[2] == 0 || s[3] == 0);
        assert(shape@ =~= z.kept());
        lemma_kept_roomy(z);
        lemma_roomy(s, state@.dtype);
        crate::views::packed_is_dense(s);
    }
    state.reshape_dims(tape, &shape)
}

proof fn lemma_kept_roomy(z: DeltaDims)
    requires
        z.sound(),
    ensures
        roomy(z.kept()),
{
    let s = z.state();
    if is_void(s) {
        crate::layout::lemma_volume_take(s, 1);
        assert(s.take(1) =~= seq![z.b]);
    }
}

/// The first `n` steps: the outputs, the states if they are captured, and the
/// last state.
pub open spec fn steps_s(
    t: TapeV,
    state: ArrayV,
    q: ArrayV,
    k: ArrayV,
    v: ArrayV,
    g: ArrayV,
    beta: ArrayV,
    z: DeltaDims,
    d: Dtype,
    capture: bool,
    n: int,
) -> (TapeV, Result<(Seq<ArrayV>, Seq<ArrayV>, ArrayV), Seq<char>>)
    decreases n,
{
    if n <= 0 {
        (t, Ok((Seq::empty(), Seq::empty(), state)))
    } else {
        match steps_s(t, state, q, k, v, g, beta, z, d, capture, n - 1) {
            (t1, Err(e)) => (t1, Err(e)),
            (t1, Ok((ys, ss, s))) => match step_s(t1, s, q, k, v, g, beta, (n - 1) as i32, z, d) {
                (t2, Err(e)) => (t2, Err(e)),
                (t2, Ok((y, new))) => if capture {
                    match kept_s(t2, new, z) {
                        (t3, Err(e)) => (t3, Err(e)),
                        (t3, Ok(s)) => (t3, Ok((ys.push(y), ss.push(s), new))),
                    }
                } else {
                    (t2, Ok((ys.push(y), ss, new)))
                },
            },
        }
    }
}

proof fn lemma_steps_stop(
    t: TapeV,
    state: ArrayV,
    q: ArrayV,
    k: ArrayV,
    v: ArrayV,
    g: ArrayV,
    beta: ArrayV,
    z: DeltaDims,
    d: Dtype,
    capture: bool,
    i: int,
    n: int,
)
    requires
        0 <= i <= n,
        steps_s(t, state, q, k, v, g, beta, z, d, capture, i).1 is Err,
    ensures
        steps_s(t, state, q, k, v, g, beta, z, d, capture, n) == steps_s(
            t,
            state,
            q,
            k,
            v,
            g,
            beta,
            z,
            d,
            capture,
            i,
        ),
    decreases n - i,
{
    if i < n {
        lemma_steps_stop(t, state, q, k, v, g, beta, z, d, capture, i, n - 1);
    }
}

proof fn lemma_alike_push(v: Seq<ArrayV>, a: ArrayV, s: Seq<usize>)
    requires
        alike(v, s),
        a.wf(),
        a.layout == packed(s),
    ensures
        alike(v.push(a), s),
{
}

fn all_steps(
    tape: &mut Tape,
    first: &Tensor,
    q: &Tensor,
    k: &Tensor,
    v: &Tensor,
    g: &Tensor,
    beta: &Tensor,
    z: DeltaDims,
    d: Dtype,
    capture: bool,
    steps: usize,
    Ghost(h): Ghost<usize>,
) -> (r: Result<(Vec<Tensor>, Vec<Tensor>, Tensor), Error>)
    requires
        z.sound(),
        operands(q@, k@, v@, g@, beta@, steps, h, z),
        first@.wf(),
        first@.shape() == z.state(),
    ensures
        ({
            let (t1, o) = steps_s(
                old(tape)@,
                first@,
                q@,
                k@,
                v@,
                g@,
                beta@,
                z,
                d,
                capture,
                steps as int,
            );
            &&& final(tape)@ == t1
            &&& match r {
                Ok((ys, ss, s)) => o == Ok::<(Seq<ArrayV>, Seq<ArrayV>, ArrayV), Seq<char>>(
                    (array_views(ys@), array_views(ss@), s@),
                ) && alike(array_views(ys@), z.row()) && alike(array_views(ss@), z.kept())
                    && ys@.len() == steps && (capture ==> ss@.len() == steps) && s@.wf(),
                Err(e) => o == Err::<(Seq<ArrayV>, Seq<ArrayV>, ArrayV), Seq<char>>(e.text()),
            }
        }),
{
    let ghost t0 = tape@;
    let mut state = first.duplicate();
    let mut ys: Vec<Tensor> = Vec::new();
    let mut ss: Vec<Tensor> = Vec::new();
    proof {
        assert(array_views(ys@) =~= Seq::<ArrayV>::empty());
        assert(array_views(ss@) =~= Seq::<ArrayV>::empty());
    }
    let mut i: usize = 0;
    while i < steps
        invariant
            i <= steps,
            z.sound(),
            operands(q@, k@, v@, g@, beta@, steps, h, z),
            state@.wf(),
            state@.shape() == z.state(),
            (
                tape@,
                Ok::<(Seq<ArrayV>, Seq<ArrayV>, ArrayV), Seq<char>>(
                    (array_views(ys@), array_views(ss@), state@),
                ),
            ) == steps_s(t0, first@, q@, k@, v@, g@, beta@, z, d, capture, i as int),
            alike(array_views(ys@), z.row()),
            alike(array_views(ss@), z.kept()),
            ys@.len() == i,
            capture ==> ss@.len() == i,
            t0 == old(tape)@,
        decreases steps - i,
    {
        match one_step(
            tape,
            &state,
            q,
            k,
            v,
            g,
            beta,
            i as i32,
            z,
            d,
            Ghost(steps),
            Ghost(h),
        ) {
            Ok((y, new)) => {
                let ghost ys0 = ys@;
                let ghost ss0 = ss@;
                if capture {
                    let f = match keep(tape, &new, z) {
                        Ok(f) => f,
                        Err(e) => {
                            proof {
                                lemma_steps_stop(
                                    t0,
                                    first@,
                                    q@,
                                    k@,
                                    v@,
                                    g@,
                                    beta@,
                                    z,
                                    d,
                                    capture,
                                    i + 1,
                                    steps as int,
                                );
                            }
                            return Err(e);
                        },
                    };
                    proof {
                        lemma_alike_push(array_views(ss0), f@, z.kept());
                    }
                    ss.push(f);
                    assert(array_views(ss@) =~= array_views(ss0).push(f@));
                }
                proof {
                    lemma_alike_push(array_views(ys0), y@, z.row());
                }
                ys.push(y);
                assert(array_views(ys@) =~= array_views(ys0).push(y@));
                state = new;
            },
            Err(e) => {
                proof {
                    lemma_steps_stop(
                        t0,
                        first@,
                        q@,
                        k@,
                        v@,
                        g@,
                        beta@,
                        z,
                        d,
                        capture,
                        i + 1,
                        steps as int,
                    );
                }
                return Err(e);
            },
        }
        i += 1;
    }
    Ok((ys, ss, state))
}

// ---- the recurrence ----

/// Queries or keys with each head as often as it is shared.
#[verifier::opaque]
pub open spec fn heads_s(t: TapeV, a: ArrayV, repeat: int) -> (TapeV, Outcome) {
    if repeat > 1 {
        repeated_s(t, a, repeat as usize, 2)
    } else {
        (t, Ok(a))
    }
}

/// The state before the first step: the given one in 32-bit floats, or zeros.
#[verifier::opaque]
pub open spec fn initial_s(t: TapeV, state: Option<ArrayV>, z: DeltaDims) -> (TapeV, Outcome) {
    match state {
        Some(s) => cast_s(t, s, Dtype::Float32),
        None => chain(
            scalar_s(t, Scalar::Bits(0), Dtype::Float32),
            |t1: TapeV, zero: ArrayV|
                match broadcast_to_s(zero, z.state()) {
                    Ok(b) => contiguous_s(t1, b),
                    Err(e) => (t1, Outcome::Err(e)),
                },
        ),
    }
}

/// The sizes of a recurrence, from its operands.
pub open spec fn dims_of(q: ArrayV, v: ArrayV) -> DeltaDims {
    DeltaDims { b: q.shape()[0], hv: v.shape()[2], dv: v.shape()[3], dk: q.shape()[3] }
}

/// How often each head of the keys is shared.
pub open spec fn shares(q: ArrayV, v: ArrayV) -> int {
    v.shape()[2] as int / q.shape()[2] as int
}

/// The recurrence up to its last step.
#[verifier::opaque]
pub open spec fn scanned_s(
    t: TapeV,
    q: ArrayV,
    k: ArrayV,
    v: ArrayV,
    g: ArrayV,
    beta: ArrayV,
    state: Option<ArrayV>,
    capture: bool,
) -> (TapeV, Result<(Seq<ArrayV>, Seq<ArrayV>, ArrayV), Seq<char>>) {
    let z = dims_of(q, v);
    match heads_s(t, q, shares(q, v)) {
        (t1, Err(e)) => (t1, Err(e)),
        (t1, Ok(q2)) => match heads_s(t1, k, shares(q, v)) {
            (t2, Err(e)) => (t2, Err(e)),
            (t2, Ok(k2)) => match initial_s(t2, state, z) {
                (t3, Err(e)) => (t3, Err(e)),
                (t3, Ok(s)) => steps_s(
                    t3,
                    s,
                    q2,
                    k2,
                    v,
                    g,
                    beta,
                    z,
                    q2.dtype,
                    capture,
                    q.shape()[1] as int,
                ),
            },
        },
    }
}

/// The outputs of all steps and the last state.
pub open spec fn delta_ops_s(
    t: TapeV,
    q: ArrayV,
    k: ArrayV,
    v: ArrayV,
    g: ArrayV,
    beta: ArrayV,
    state: Option<ArrayV>,
) -> (TapeV, Result<(ArrayV, ArrayV), Seq<char>>) {
    match scanned_s(t, q, k, v, g, beta, state, false) {
        (t1, Err(e)) => (t1, Err(e)),
        (t1, Ok((ys, _, s))) => match stack_s(t1, ys, 1) {
            (t2, Err(e)) => (t2, Err(e)),
            (t2, Ok(y)) => (t2, Ok((y, s))),
        },
    }
}

/// The shape of the states of all steps, batch by batch.
pub open spec fn stacked_states(q: ArrayV, v: ArrayV) -> Seq<usize> {
    let z = dims_of(q, v);
    seq![z.b, q.shape()[1], z.hv, z.dv, z.dk]
}

/// The shape of the states of all steps; that of batch `b` after step `t` stands
/// at `b * steps + t`.
pub open spec fn captured_shape(q: ArrayV, v: ArrayV) -> Seq<usize> {
    let z = dims_of(q, v);
    seq![(z.b * q.shape()[1]) as usize, z.hv, z.dv, z.dk]
}

/// The states of all steps as one array. Where they have no elements, they are
/// stacked by step, and a size that is zero is taken from the stack.
pub open spec fn gathered_s(t: TapeV, ss: Seq<ArrayV>, q: ArrayV, v: ArrayV) -> (TapeV, Outcome) {
    let z = dims_of(q, v);
    if is_void(z.state()) {
        chain(stack_s(t, ss, 0), |t1: TapeV, all: ArrayV| reshape_s(t1, all, hollow(q, v)))
    } else {
        chain(stack_s(t, ss, 1), |t1: TapeV, all: ArrayV| reshape_s(t1, all, captured_shape(q, v)))
    }
}

/// The shape that is asked for the states of all steps when there are no batches.
pub open spec fn hollow(q: ArrayV, v: ArrayV) -> Seq<usize> {
    let z = dims_of(q, v);
    seq![
        q.shape()[1],
        z.hv,
        at_least_one(z.dv) as usize,
        at_least_one(z.dk) as usize,
    ]
}

/// The outputs and the states of all steps.
pub open spec fn delta_capture_s(
    t: TapeV,
    q: ArrayV,
    k: ArrayV,
    v: ArrayV,
    g: ArrayV,
    beta: ArrayV,
    state: ArrayV,
) -> (TapeV, Result<(ArrayV, ArrayV), Seq<char>>) {
    match scanned_s(t, q, k, v, g, beta, Some(state), true) {
        (t1, Err(e)) => (t1, Err(e)),
        (t1, Ok((ys, ss, _))) => match stack_s(t1, ys, 1) {
            (t2, Err(e)) => (t2, Err(e)),
            (t2, Ok(y)) => match gathered_s(t2, ss, q, v) {
                (t3, Err(e)) => (t3, Err(e)),
                (t3, Ok(s)) => (t3, Ok((y, s))),
            },
        },
    }
}

/// Operands of the recurrence: queries and keys of one shape, values of as many
/// steps, a decay and a gate for every head and step, and results that have a size
/// in bytes. The keys have heads, and one where the values have none.
pub open spec fn delta_fits(q: ArrayV, k: ArrayV, v: ArrayV, g: ArrayV, beta: ArrayV) -> bool {
    let z = dims_of(q, v);
    let steps = q.shape()[1];
    let hk = q.shape()[2];
    let n = shares(q, v);
    &&& q.rank() == 4
    &&& v.rank() == 4
    &&& z.sound()
    &&& operands(q, k, v, g, beta, steps, hk, z)
    &&& hk * n <= i32::MAX
    &&& n > 1 ==> roomy(repeat_spread(q.shape(), 2, n as usize)) && roomy(
        repeat_shape(q.shape(), 2, n as usize),
    )
    &&& n > 1 ==> shared_steppable(q, steps, n as usize) && shared_steppable(k, steps, n as usize)
    &&& steps > 0 ==> roomy(seq![z.b, steps, z.hv, z.dv])
}

/// A step of an array without elements can be found when its heads are shared.
pub open spec fn shared_steppable(x: ArrayV, steps: usize, n: usize) -> bool {
    is_void(x.shape()) ==> (x.layout.offset + steps * packed(
        repeat_shape(x.shape(), 2, n),
    ).strides[1]) * width(x.dtype) <= usize::MAX
}

proof fn lemma_shared_steppable(t: TapeV, a: ArrayV, repeat: usize, steps: usize)
    requires
        a.wf(),
        a.rank() == 4,
        a.shape()[1] == steps,
        steppable(a, steps),
        repeat > 1 ==> shared_steppable(a, steps, repeat),
        a.shape()[2] * repeat <= usize::MAX,
    ensures
        heads_s(t, a, repeat as int).1 matches Ok(x) ==> steppable(x, steps),
{
    reveal(heads_s);
    if repeat > 1 {
        let shape = repeat_shape(a.shape(), 2, repeat);
        match heads_s(t, a, repeat as int).1 {
            Ok(x) => {
                assert(x.layout.strides == packed(shape).strides);
                assert(x.layout.offset == a.layout.offset || x.layout.offset == 0);
                if is_void(x.shape()) {
                    lemma_void_repeat(a.shape(), repeat);
                    let (o, s, w) = (
                        a.layout.offset as int,
                        steps * packed(shape).strides[1],
                        width(a.dtype) as int,
                    );
                    assert((0 + s) * w <= (o + s) * w) by (nonlinear_arith)
                        requires
                            o >= 0,
                            w >= 0,
                    ;
                }
            },
            Err(_) => {},
        }
    }
}

proof fn lemma_void_repeat(s: Seq<usize>, n: usize)
    requires
        s.len() == 4,
        n > 1,
        s[2] * n <= usize::MAX,
        is_void(repeat_shape(s, 2, n)),
    ensures
        is_void(s),
{
    let r = repeat_shape(s, 2, n);
    let i = choose|i: int| 0 <= i < r.len() && #[trigger] r[i] == 0;
    if i == 2 {
        assert(s[2] * n == 0);
        assert(s[2] == 0) by (nonlinear_arith)
            requires
                s[2] * n == 0,
                n > 1,
        ;
    }
    assert(s[i] == 0);
}

fn share_heads(tape: &mut Tape, a: &Array, repeat: usize) -> (r: Result<Array, Error>)
    requires
        a.wf(),
        a.t@.rank() == 4,
        a.t@.shape()[2] * repeat <= i32::MAX,
        repeat > 1 ==> roomy(repeat_spread(a.t@.shape(), 2, repeat)) && roomy(
            repeat_shape(a.t@.shape(), 2, repeat),
        ),
    ensures
        (final(tape)@, shown(r)) == heads_s(old(tape)@, a.t@, repeat as int),
        r matches Ok(x) ==> x.wf() && x.t@.dtype == a.t@.dtype && x.t@.shape() == (if repeat > 1 {
            repeat_shape(a.t@.shape(), 2, repeat)
        } else {
            a.t@.shape()
        }),
{
    proof {
        reveal(heads_s);
    }
    if repeat > 1 {
        a.repeat_axis(tape, repeat, -2)
    } else {
        Ok(a.detach())
    }
}

fn first_state(tape: &mut Tape, state: Option<&Array>, z: DeltaDims) -> (r: Result<Tensor, Error>)
    requires
        z.sound(),
        state matches Some(s) ==> s.wf() && s.t@.shape() == z.state(),
    ensures
        (final(tape)@, seen(r)) == initial_s(
            old(tape)@,
            match state {
                Some(s) => Some(s.t@),
                None => None,
            },
            z,
        ),
        r matches Ok(x) ==> x@.wf() && x@.shape() == z.state(),
{
    proof {
        reveal(initial_s);
    }
    match state {
        Some(s) => s.t.to_dtype(tape, Dtype::Float32),
        None => {
            let zero = match Tensor::scalar_of(tape, Scalar::Bits(0), Dtype::Float32) {
                Ok(x) => x,
                Err(e) => {
                    return Err(e);
                },
            };
            let shape = vec![z.b, z.hv, z.dv, z.dk];
            assert(shape@ =~= z.state());
            match zero.broadcast_as(&shape) {
                Ok(b) => b.contiguous(tape),
                Err(e) => Err(e),
            }
        },
    }
}

fn scan(
    tape: &mut Tape,
    q: &Array,
    k: &Array,
    v: &Array,
    g: &Array,
    beta: &Array,
    state: Option<&Array>,
    capture: bool,
) -> (r: Result<(Vec<Tensor>, Vec<Tensor>, Tensor), Error>)
    requires
        q.wf(),
        k.wf(),
        v.wf(),
        g.wf(),
        beta.wf(),
        delta_fits(q.t@, k.t@, v.t@, g.t@, beta.t@),
        state matches Some(s) ==> s.wf() && s.t@.shape() == dims_of(q.t@, v.t@).state(),
    ensures
        ({
            let z = dims_of(q.t@, v.t@);
            let (t1, o) = scanned_s(
                old(tape)@,
                q.t@,
                k.t@,
                v.t@,
                g.t@,
                beta.t@,
                match state {
                    Some(s) => Some(s.t@),
                    None => None,
                },
                capture,
            );
            &&& final(tape)@ == t1
            &&& match r {
                Ok((ys, ss, s)) => o == Ok::<(Seq<ArrayV>, Seq<ArrayV>, ArrayV), Seq<char>>(
                    (array_views(ys@), array_views(ss@), s@),
                ) && alike(array_views(ys@), z.row()) && alike(array_views(ss@), z.kept())
                    && ys@.len() == q.t@.shape()[1] && (capture ==> ss@.len() == q.t@.shape()[1])
                    && s@.wf(),
                Err(e) => o == Err::<(Seq<ArrayV>, Seq<ArrayV>, ArrayV), Seq<char>>(e.text()),
            }
        }),
{
    proof {
        reveal(scanned_s);
    }
    let hk = q.t.dims()[2];
    let z = DeltaDims {
        b: q.t.dims()[0],
        hv: v.t.dims()[2],
        dv: v.t.dims()[3],
        dk: q.t.dims()[3],
    };
    let steps = q.t.dims()[1];
    let repeat = z.hv / hk;
    let ghost t0 = tape@;
    let q2 = match share_heads(tape, q, repeat) {
        Ok(a) => a,
        Err(e) => {
            return Err(e);
        },
    };
    let ghost t1 = tape@;
    let k2 = match share_heads(tape, k, repeat) {
        Ok(a) => a,
        Err(e) => {
            return Err(e);
        },
    };
    let first = match first_state(tape, state, z) {
        Ok(a) => a,
        Err(e) => {
            return Err(e);
        },
    };
    let ghost h = if repeat > 1 {
        (hk * repeat) as usize
    } else {
        hk
    };
    proof {
        assert(hk * repeat >= hk || repeat == 0) by (nonlinear_arith)
            requires
                hk > 0,
                repeat >= 0,
        ;
        assert(q2.t@.shape() =~= seq![z.b, steps, h, z.dk]);
        assert(k2.t@.shape() =~= seq![z.b, steps, h, z.dk]);
        lemma_shared_steppable(t0, q.t@, repeat, steps);
        lemma_shared_steppable(t1, k.t@, repeat, steps);
    }
    all_steps(
        tape,
        &first,
        &q2.t,
        &k2.t,
        &v.t,
        &g.t,
        &beta.t,
        z,
        q2.t.dtype(),
        capture,
        steps,
        Ghost(h),
    )
}

fn pile(tape: &mut Tape, v: &Vec<Tensor>, axis: usize, Ghost(s): Ghost<Seq<usize>>) -> (r: Result<
    Tensor,
    Error,
>)
    requires
        alike(array_views(v@), s),
        axis <= s.len(),
        v@.len() <= i32::MAX,
        roomy(s),
        v@.len() > 0 ==> roomy(stacked_shape(s, axis as int, v@.len() as usize)),
        forall|i: int| 0 <= i < s.len() ==> #[trigger] s[i] <= i32::MAX,
    ensures
        (final(tape)@, seen(r)) == stack_s(old(tape)@, array_views(v@), axis),
        r matches Ok(a) ==> a@.wf(),
{
    proof {
        let w = array_views(v@);
        assert(w.len() == v@.len());
        assert forall|i: int| 0 <= i < v@.len() implies (#[trigger] v@[i])@.wf() by {
            assert(w[i] == v@[i]@);
        }
        if w.len() > 0 {
            alike_arrays_stack(w, s, axis as int);
        } else {
            assert(lifted_at(w, axis as int) =~= Seq::<ArrayV>::empty());
        }
    }
    crate::join::stack(tape, v, axis)
}

fn gather_states(tape: &mut Tape, ss: &Vec<Tensor>, q: &Array, v: &Array) -> (r: Result<
    Tensor,
    Error,
>)
    requires
        q.wf(),
        v.wf(),
        q.t@.rank() == 4,
        v.t@.rank() == 4,
        dims_of(q.t@, v.t@).sound(),
        ss@.len() == q.t@.shape()[1],
        ss@.len() <= i32::MAX,
        alike(array_views(ss@), dims_of(q.t@, v.t@).kept()),
        q.t@.shape()[1] > 0 ==> roomy(stacked_states(q.t@, v.t@)),
        q.t@.shape()[0] * q.t@.shape()[1] <= usize::MAX,
        roomy(captured_shape(q.t@, v.t@)),
    ensures
        (final(tape)@, seen(r)) == gathered_s(old(tape)@, array_views(ss@), q.t@, v.t@),
        r matches Ok(a) ==> a@.wf(),
{
    let steps = q.t.dims()[1];
    let z = DeltaDims {
        b: q.t.dims()[0],
        hv: v.t.dims()[2],
        dv: v.t.dims()[3],
        dk: q.t.dims()[3],
    };
    proof {
        lemma_kept_roomy(z);
    }
    if z.b != 0 && z.hv != 0 && z.dv != 0 && z.dk != 0 {
        assert(stacked_shape(z.state(), 1, steps) =~= stacked_states(q.t@, v.t@));
        let all = match pile(tape, ss, 1, Ghost(z.state())) {
            Ok(a) => a,
            Err(e) => {
                return Err(e);
            },
        };
        let shape = vec![z.b * steps, z.hv, z.dv, z.dk];
        assert(shape@ =~= captured_shape(q.t@, v.t@));
        return all.reshape_dims(tape, &shape);
    }
    proof {
        let s = z.state();
        assert(s[0] == 0 || s[1] == 0 || s[2] == 0 || s[3] == 0);
        if steps > 0 {
            lemma_hollow_roomy(q.t@, v.t@);
            assert(stacked_shape(seq![z.b], 0, steps) =~= seq![steps, z.b]);
        }
    }
    let all = match pile(tape, ss, 0, Ghost(z.kept())) {
        Ok(a) => a,
        Err(e) => {
            return Err(e);
        },
    };
    let shape = vec![steps, z.hv, max_usize(z.dv, 1), max_usize(z.dk, 1)];
    assert(shape@ =~= hollow(q.t@, v.t@));
    all.reshape_dims(tape, &shape)
}

proof fn lemma_hollow_roomy(q: ArrayV, v: ArrayV)
    requires
        q.shape()[1] > 0,
        roomy(stacked_states(q, v)),
    ensures
        roomy(hollow(q, v)),
        roomy(seq![q.shape()[1], dims_of(q, v).b]),
{
    let z = dims_of(q, v);
    let s = stacked_states(q, v);
    let tail = seq![q.shape()[1], z.hv, z.dv, z.dk];
    assert(s.skip(1) =~= tail);
    crate::layout::lemma_volume_skip(s, 1);
    lemma_volume_le(hollow(q, v), tail);
    crate::layout::lemma_volume_take(s, 2);
    let front = s.take(2);
    assert(front =~= seq![z.b, q.shape()[1]]);
    let back = seq![q.shape()[1], z.b];
    assert(front.drop_last() =~= seq![z.b]);
    assert(back.drop_last() =~= seq![q.shape()[1]]);
    lemma_volume_one(z.b);
    lemma_volume_one(q.shape()[1]);
    let (a, b) = (at_least_one(z.b) as int, at_least_one(q.shape()[1]) as int);
    assert(a * b == b * a) by (nonlinear_arith);
}

proof fn lemma_volume_one(n: usize)
    ensures
        volume(seq![n]) == at_least_one(n),
{
    assert(seq![n].drop_last() =~= Seq::<usize>::empty());
    let (x, y) = (volume(Seq::<usize>::empty()), at_least_one(n));
    assert(x * y == y) by (nonlinear_arith)
        requires
            x == 1,
    ;
}

/// The recurrence: the outputs of all steps and the last state.
pub fn gated_delta_ops(
    tape: &mut Tape,
    q: &Array,
    k: &Array,
    v: &Array,
    g: &Array,
    beta: &Array,
    state: Option<&Array>,
) -> (r: Result<(Array, Array), Error>)
    requires
        q.wf(),
        k.wf(),
        v.wf(),
        g.wf(),
        beta.wf(),
        delta_fits(q.t@, k.t@, v.t@, g.t@, beta.t@),
        state matches Some(s) ==> s.wf() && s.t@.shape() == dims_of(q.t@, v.t@).state(),
    ensures
        ({
            let (t1, o) = delta_ops_s(
                old(tape)@,
                q.t@,
                k.t@,
                v.t@,
                g.t@,
                beta.t@,
                match state {
                    Some(s) => Some(s.t@),
                    None => None,
                },
            );
            &&& final(tape)@ == t1
            &&& match r {
                Ok((y, s)) => o == Ok::<(ArrayV, ArrayV), Seq<char>>((y.t@, s.t@)) && y.wf()
                    && s.wf(),
                Err(e) => o == Err::<(ArrayV, ArrayV), Seq<char>>(e.text()),
            }
        }),
{
    let (ys, _ss, last) = match scan(tape, q, k, v, g, beta, state, false) {
        Ok(x) => x,
        Err(e) => {
            return Err(e);
        },
    };
    proof {
        let z = dims_of(q.t@, v.t@);
        lemma_all_roomy(z);
        assert(stacked_shape(z.row(), 1, q.t@.shape()[1]) =~= seq![
            z.b,
            q.t@.shape()[1],
            z.hv,
            z.dv,
        ]);
    }
    match pile(tape, &ys, 1, Ghost(dims_of(q.t@, v.t@).row())) {
        Ok(y) => Ok((Array::new(y), Array::new(last))),
        Err(e) => Err(e),
    }
}

/// The recurrence: the outputs and the states of all steps.
pub fn gated_delta_ops_capture(
    tape: &mut Tape,
    q: &Array,
    k: &Array,
    v: &Array,
    g: &Array,
    beta: &Array,
    state: &Array,
) -> (r: Result<(Array, Array), Error>)
    requires
        q.wf(),
        k.wf(),
        v.wf(),
        g.wf(),
        beta.wf(),
        state.wf(),
        delta_fits(q.t@, k.t@, v.t@, g.t@, beta.t@),
        state.t@.shape() == dims_of(q.t@, v.t@).state(),
        q.t@.shape()[1] > 0 ==> roomy(stacked_states(q.t@, v.t@)),
        q.t@.shape()[0] * q.t@.shape()[1] <= usize::MAX,
        roomy(captured_shape(q.t@, v.t@)),
    ensures
        ({
            let (t1, o) = delta_capture_s(
                old(tape)@,
                q.t@,
                k.t@,
                v.t@,
                g.t@,
                beta.t@,
                state.t@,
            );
            &&& final(tape)@ == t1
            &&& match r {
                Ok((y, s)) => o == Ok::<(ArrayV, ArrayV), Seq<char>>((y.t@, s.t@)) && y.wf()
                    && s.wf(),
                Err(e) => o == Err::<(ArrayV, ArrayV), Seq<char>>(e.text()),
            }
        }),
{
    let ghost z = dims_of(q.t@, v.t@);
    let (ys, ss, _last) = match scan(tape, q, k, v, g, beta, Some(state), true) {
        Ok(x) => x,
        Err(e) => {
            return Err(e);
        },
    };
    proof {
        lemma_all_roomy(z);
        assert(stacked_shape(z.row(), 1, q.t@.shape()[1]) =~= seq![
            z.b,
            q.t@.shape()[1],
            z.hv,
            z.dv,
        ]);
    }
    let y = match pile(tape, &ys, 1, Ghost(z.row())) {
        Ok(y) => y,
        Err(e) => {
            return Err(e);
        },
    };
    match gather_states(tape, &ss, q, v) {
        Ok(s) => Ok((Array::new(y), Array::new(s))),
        Err(e) => Err(e),
    }
}

} // verus!
