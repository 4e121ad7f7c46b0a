//! What one step of the gated delta recurrence computes on exact numbers.

use vstd::prelude::*;

use crate::array::{reshape_s, roomy, ArrayV, Outcome};
use crate::delta::{
    answer_s, at, corrected_s, correction_s, laid_s, lemma_all_roomy, lemma_at, lemma_common,
    lemma_volume_le, operands, step_s, steppable, steps_s, DeltaDims,
};
use crate::device::{
    conversion_keeps_elements, elementwise, grows, known, lemma_cast_grows, lemma_dot_front,
    lemma_grows, lemma_lives, lemma_promoted_grows, lemma_reduce_grows, lemma_reshape_grows,
    lemma_same_sum, lives, mixed_arithmetic_is_elementwise, now, plain, ravel, relaid,
    reshaping_keeps_elements, row_sums, same, short, stays, sum_to, sums_add_the_last_axis, under,
    val, Arith, History, Memory, Numbers,
};
use crate::dtype::{width, Dtype};
use crate::elementwise::cast_s;
use crate::facade::promoted_s;
use crate::join::lemma_narrow_fits;
use crate::layout::{in_shape, is_void, numel};
use crate::reduce::{lemma_roomy_remove, reduce_last_s, Reduction};
use crate::tape::TapeV;
use crate::views::{narrowed, narrowed_stays_inside, squeezed_stays_inside};

verus! {

// ---- positions ----

/// A head.
pub open spec fn head_in(z: DeltaDims, b: int, h: int) -> bool {
    0 <= b < z.b && 0 <= h < z.hv
}

/// A column of a head.
pub open spec fn key_in(z: DeltaDims, b: int, h: int, k: int) -> bool {
    head_in(z, b, h) && 0 <= k < z.dk
}

/// A row of a state.
pub open spec fn row_in(z: DeltaDims, b: int, h: int, v: int) -> bool {
    0 <= b < z.b && 0 <= h < z.hv && 0 <= v < z.dv
}

/// An element of a state.
pub open spec fn cell_in(z: DeltaDims, b: int, h: int, v: int, k: int) -> bool {
    row_in(z, b, h, v) && 0 <= k < z.dk
}

/// Sizes of a state with elements.
pub open spec fn filled(z: DeltaDims) -> bool {
    z.sound() && z.b > 0 && z.hv > 0 && z.dv > 0 && z.dk > 0
}

pub proof fn lemma_ravel2(a: usize, b: usize, i: int, j: int)
    ensures
        ravel(seq![a, b], seq![i, j]) == i * b + j,
{
    reveal_with_fuel(ravel, 3);
    assert(seq![a, b].drop_last() =~= seq![a]);
    assert(seq![i, j].drop_last() =~= seq![i]);
    assert(seq![a].drop_last() =~= Seq::<usize>::empty());
    assert(0 * a == 0) by (nonlinear_arith);
}

pub proof fn lemma_ravel3(a: usize, b: usize, c: usize, i: int, j: int, k: int)
    ensures
        ravel(seq![a, b, c], seq![i, j, k]) == (i * b + j) * c + k,
{
    lemma_ravel2(a, b, i, j);
    assert(seq![a, b, c].drop_last() =~= seq![a, b]);
    assert(seq![i, j, k].drop_last() =~= seq![i, j]);
}

pub proof fn lemma_ravel4(a: usize, b: usize, c: usize, d: usize, i: int, j: int, k: int, l: int)
    ensures
        ravel(seq![a, b, c, d], seq![i, j, k, l]) == ((i * b + j) * c + k) * d + l,
{
    lemma_ravel3(a, b, c, i, j, k);
    assert(seq![a, b, c, d].drop_last() =~= seq![a, b, c]);
    assert(seq![i, j, k, l].drop_last() =~= seq![i, j, k]);
}

pub proof fn lemma_numel2(a: usize, b: usize)
    ensures
        numel(seq![a, b]) == a * b,
{
    reveal_with_fuel(numel, 3);
    assert(seq![a, b].drop_last() =~= seq![a]);
    assert(seq![a].drop_last() =~= Seq::<usize>::empty());
    assert(1 * a == a) by (nonlinear_arith);
}

pub proof fn lemma_numel3(a: usize, b: usize, c: usize)
    ensures
        numel(seq![a, b, c]) == a * b * c,
{
    lemma_numel2(a, b);
    assert(seq![a, b, c].drop_last() =~= seq![a, b]);
}

pub proof fn lemma_numel4(a: usize, b: usize, c: usize, d: usize)
    ensures
        numel(seq![a, b, c, d]) == a * b * c * d,
{
    lemma_numel3(a, b, c);
    assert(seq![a, b, c, d].drop_last() =~= seq![a, b, c]);
}

/// Nothing changes over two stretches of commands.
pub proof fn lemma_stays(h: History, t: TapeV, u: TapeV, w: TapeV)
    requires
        stays(h, t, u),
        stays(h, u, w),
        t.next <= u.next,
    ensures
        stays(h, t, w),
{
    assert forall|b: u64, dt: Dtype, i: int| b < t.next implies #[trigger] now(h, w)(b, dt, i)
        == now(h, t)(b, dt, i) by {
        assert(now(h, w)(b, dt, i) == now(h, u)(b, dt, i));
        assert(now(h, u)(b, dt, i) == now(h, t)(b, dt, i));
    }
}

/// An array keeps its elements while nothing changes.
pub proof fn lemma_keeps(h: History, t: TapeV, u: TapeV, a: ArrayV)
    requires
        stays(h, t, u),
        a.buf < t.next,
    ensures
        forall|idx: Seq<int>| #[trigger] val(now(h, u), a, idx) == val(now(h, t), a, idx),
{
    assert forall|idx: Seq<int>| #[trigger] val(now(h, u), a, idx) == val(now(h, t), a, idx) by {
        let p = a.layout.at(idx);
        assert(now(h, u)(a.buf, a.dtype, p) == now(h, t)(a.buf, a.dtype, p));
    }
}

/// The position of a step is the part of an array that lies at it.
pub proof fn a_step_is_picked(x: ArrayV, steps: usize, i: i32, j: Seq<int>)
    requires
        x.wf(),
        2 <= x.rank() <= i32::MAX,
        x.shape()[0] <= i32::MAX,
        x.shape()[1] == steps,
        steps <= i32::MAX,
        steppable(x, steps),
        0 <= i < steps,
        j.len() == x.rank() - 1,
    ensures
        at(x, i).wf(),
        at(x, i).buf == x.buf,
        at(x, i).dtype == x.dtype,
        at(x, i).shape() == x.shape().remove(1),
        short(x.layout) ==> short(at(x, i).layout),
        at(x, i).layout.at(j) == x.layout.at(j.insert(1, i as int)),
{
    if !is_void(x.shape()) {
        lemma_narrow_fits(x, 1, i as usize, 1);
    } else {
        let (o, s, w) = (x.layout.offset as int, x.strides()[1] as int, width(x.dtype) as int);
        assert((o + i * s) * w <= (o + steps * s) * w) by (nonlinear_arith)
            requires
                i <= steps,
                s >= 0,
                w >= 0,
        ;
    }
    lemma_at(x, i);
    let l = narrowed(x.layout, 1, i as usize, 1);
    let cap = x.bytes as int / width(x.dtype) as int;
    let st = x.strides()[1] as int;
    let (o, w) = (x.layout.offset as int, width(x.dtype) as int);
    assert(o + i * st <= (o + i * st) * w) by (nonlinear_arith)
        requires
            w >= 1,
            o >= 0,
            i >= 0,
            st >= 0,
    ;
    narrowed_stays_inside(x.layout, 1, i as usize, 1, cap);
    squeezed_stays_inside(l, 1, cap);
    lemma_roomy_remove(x.shape(), 1);
    let a = at(x, i);
    let js = j.insert(1, i as int);
    lemma_dot_front(js, x.strides());
    lemma_dot_front(js.skip(1), x.strides().skip(1));
    lemma_dot_front(j, a.strides());
    assert(js.skip(1).skip(1) =~= j.skip(1));
    assert(a.strides().skip(1) =~= x.strides().skip(1).skip(1));
    if short(x.layout) {
        assert forall|k: int| 0 <= k < a.shape().len() implies #[trigger] a.shape()[k] <= u32::MAX
            && a.strides()[k] <= u32::MAX by {
            let p = if k < 1 {
                k
            } else {
                k + 1
            };
            assert(x.shape()[p] <= u32::MAX);
            assert(a.shape()[k] == x.shape()[p]);
            assert(a.strides()[k] == x.strides()[p]);
        }
        assert(short(a.layout));
    }
}

// ---- the parts of a step ----

proof fn lemma_columns(z: DeltaDims, h: usize)
    requires
        filled(z),
    ensures
        z.columns(h) == seq![z.b, z.hv, 1, z.dk],
        roomy(z.columns(h)),
        z.outer() == z.state(),
{
    assert(z.columns(h) =~= seq![z.b, z.hv, 1, z.dk]);
    assert(z.outer() =~= z.state());
    lemma_volume_le(z.columns(h), z.state());
}

proof fn lemma_laid_grows(t: TapeV, g: ArrayV, k: ArrayV, beta: ArrayV, z: DeltaDims)
    ensures
        grows(t, laid_s(t, g, k, beta, z).0, 3),
{
    reveal(laid_s);
    let (t1, o1) = reshape_s(t, g, z.heads());
    lemma_reshape_grows(t, g, z.heads());
    if o1 is Ok {
        let (t2, o2) = reshape_s(t1, k, z.columns(k.shape()[1]));
        lemma_reshape_grows(t1, k, z.columns(k.shape()[1]));
        lemma_grows(t, t1, t2, 1, 1);
        if o2 is Ok {
            let (t3, _) = reshape_s(t2, beta, z.gates());
            lemma_reshape_grows(t2, beta, z.gates());
            lemma_grows(t, t2, t3, 2, 1);
        }
    }
}

#[verifier::rlimit(40)]
proof fn lemma_laid(
    h: History,
    n: Numbers,
    t: TapeV,
    g: ArrayV,
    k: ArrayV,
    beta: ArrayV,
    z: DeltaDims,
    heads: usize,
    decay: ArrayV,
    key: ArrayV,
    gate: ArrayV,
)
    requires
        filled(z),
        known(t, g) && known(t, k) && known(t, beta),
        short(g.layout) && short(k.layout) && short(beta.layout),
        g.shape() == seq![z.b, z.hv],
        k.shape() == seq![z.b, heads, z.dk],
        beta.shape() == seq![z.b, z.hv],
        t.next + 3 <= u64::MAX,
        laid_s(t, g, k, beta, z).1 == Ok::<(ArrayV, ArrayV, ArrayV), Seq<char>>((decay, key, gate)),
        lives(h, laid_s(t, g, k, beta, z).0, n),
    ensures
        stays(h, t, laid_s(t, g, k, beta, z).0),
        known(laid_s(t, g, k, beta, z).0, decay),
        known(laid_s(t, g, k, beta, z).0, key),
        known(laid_s(t, g, k, beta, z).0, gate),
        plain(decay) && plain(key) && plain(gate),
        decay.shape() == z.heads(),
        key.shape() == seq![z.b, z.hv, 1, z.dk],
        gate.shape() == z.gates(),
        heads == z.hv,
        forall|b: int, a: int|
            #[trigger] head_in(z, b, a) ==> val(
                now(h, laid_s(t, g, k, beta, z).0),
                decay,
                seq![b, a, 0, 0],
            ) == val(now(h, t), g, seq![b, a]),
        forall|b: int, a: int|
            #[trigger] head_in(z, b, a) ==> val(
                now(h, laid_s(t, g, k, beta, z).0),
                gate,
                seq![b, a, 0],
            ) == val(now(h, t), beta, seq![b, a]),
        forall|b: int, a: int, j: int|
            #[trigger] key_in(z, b, a, j) ==> val(
                now(h, laid_s(t, g, k, beta, z).0),
                key,
                seq![b, a, 0, j],
            ) == val(now(h, t), k, seq![b, a, j]),
{
    reveal(laid_s);
    lemma_all_roomy(z);
    lemma_columns(z, heads);
    let (t1, _) = reshape_s(t, g, z.heads());
    let (t2, _) = reshape_s(t1, k, z.columns(heads));
    let (t3, _) = reshape_s(t2, beta, z.gates());
    lemma_reshape_grows(t, g, z.heads());
    lemma_reshape_grows(t1, k, z.columns(heads));
    lemma_reshape_grows(t2, beta, z.gates());
    lemma_grows(t1, t2, t3, 1, 1);
    lemma_lives(h, n, t1, t3, 2);
    lemma_lives(h, n, t2, t3, 1);
    reshaping_keeps_elements(h, n, t, g, z.heads(), decay);
    reshaping_keeps_elements(h, n, t1, k, z.columns(heads), key);
    reshaping_keeps_elements(h, n, t2, beta, z.gates(), gate);
    lemma_stays(h, t, t1, t2);
    lemma_stays(h, t, t2, t3);
    lemma_stays(h, t1, t2, t3);
    lemma_keeps(h, t1, t3, decay);
    lemma_keeps(h, t2, t3, key);
    lemma_keeps(h, t, t1, k);
    lemma_keeps(h, t, t2, beta);
    lemma_numel4(z.b, z.hv, 1, z.dk);
    lemma_numel3(z.b, heads, z.dk);
    assert(heads == z.hv) by (nonlinear_arith)
        requires
            z.b * z.hv * 1 * z.dk == z.b * heads * z.dk,
            z.b > 0,
            z.dk > 0,
    ;
    assert forall|b: int, a: int|
        #[trigger] head_in(z, b, a) implies val(now(h, t3), decay, seq![b, a, 0, 0]) == val(
        now(h, t),
        g,
        seq![b, a],
    ) by {
        lemma_ravel2(z.b, z.hv, b, a);
        lemma_ravel4(z.b, z.hv, 1, 1, b, a, 0, 0);
        assert(in_shape(seq![b, a], g.shape()));
        assert(in_shape(seq![b, a, 0, 0], z.heads()));
        assert(val(now(h, t1), decay, seq![b, a, 0, 0]) == val(now(h, t), g, seq![b, a]));
    }
    assert forall|b: int, a: int|
        #[trigger] head_in(z, b, a) implies val(now(h, t3), gate, seq![b, a, 0]) == val(
        now(h, t),
        beta,
        seq![b, a],
    ) by {
        lemma_ravel2(z.b, z.hv, b, a);
        lemma_ravel3(z.b, z.hv, 1, b, a, 0);
        assert(in_shape(seq![b, a], beta.shape()));
        assert(in_shape(seq![b, a, 0], z.gates()));
        assert(val(now(h, t2), beta, seq![b, a]) == val(now(h, t), beta, seq![b, a]));
    }
    assert forall|b: int, a: int, j: int|
        #[trigger] key_in(z, b, a, j) implies val(
        now(h, t3),
        key,
        seq![b, a, 0, j],
    ) == val(now(h, t), k, seq![b, a, j]) by {
        lemma_ravel3(z.b, heads, z.dk, b, a, j);
        lemma_ravel4(z.b, z.hv, 1, z.dk, b, a, 0, j);
        assert(in_shape(seq![b, a, j], k.shape()));
        assert(in_shape(seq![b, a, 0, j], z.columns(heads)));
        assert(val(now(h, t1), k, seq![b, a, j]) == val(now(h, t), k, seq![b, a, j]));
        assert(val(now(h, t2), key, seq![b, a, 0, j]) == val(now(h, t1), k, seq![b, a, j]));
    }
}

/// The positions under an element of a state.
proof fn lemma_under(z: DeltaDims, b: int, a: int, v: int, k: int)
    requires
        cell_in(z, b, a, v, k),
    ensures
        in_shape(seq![b, a, v, k], z.state()),
        in_shape(seq![b, a, v], z.row()),
        under(z.state(), seq![b, a, v, k]) == seq![b, a, v, k],
        under(z.heads(), seq![b, a, v, k]) == seq![b, a, 0, 0],
        under(seq![z.b, z.hv, 1, z.dk], seq![b, a, v, k]) == seq![b, a, 0, k],
        under(z.rows(), seq![b, a, v, k]) == seq![b, a, v, 0],
        under(z.row(), seq![b, a, v]) == seq![b, a, v],
        under(z.gates(), seq![b, a, v]) == seq![b, a, 0],
{
    assert(under(z.state(), seq![b, a, v, k]) =~= seq![b, a, v, k]);
    assert(under(z.heads(), seq![b, a, v, k]) =~= seq![b, a, 0, 0]);
    assert(under(seq![z.b, z.hv, 1, z.dk], seq![b, a, v, k]) =~= seq![b, a, 0, k]);
    assert(under(z.rows(), seq![b, a, v, k]) =~= seq![b, a, v, 0]);
    assert(under(z.row(), seq![b, a, v]) =~= seq![b, a, v]);
    assert(under(z.gates(), seq![b, a, v]) =~= seq![b, a, 0]);
}

proof fn lemma_correction_grows(
    t: TapeV,
    state: ArrayV,
    key: ArrayV,
    value: ArrayV,
    gate: ArrayV,
)
    ensures
        grows(t, correction_s(t, state, key, value, gate).0, 16),
{
    reveal(correction_s);
    let u = correction_s(t, state, key, value, gate).0;
    let (t1, o1) = promoted_s(t, state, key, "bmul"@);
    lemma_promoted_grows(t, state, key, "bmul"@);
    if o1 is Ok {
        let (t2, o2) = reduce_last_s(t1, o1->Ok_0, Reduction::Sum);
        lemma_reduce_grows(t1, o1->Ok_0);
        lemma_grows(t, t1, t2, 5, 1);
        if o2 is Ok {
            let (t3, o3) = promoted_s(t2, value, o2->Ok_0, "bsub"@);
            lemma_promoted_grows(t2, value, o2->Ok_0, "bsub"@);
            lemma_grows(t, t2, t3, 6, 5);
            if o3 is Ok {
                lemma_promoted_grows(t3, o3->Ok_0, gate, "bmul"@);
                lemma_grows(t, t3, u, 11, 5);
            }
        }
    }
}

proof fn lemma_correction_numbers(
    h: History,
    t: TapeV,
    t1: TapeV,
    t2: TapeV,
    t3: TapeV,
    u: TapeV,
    state: ArrayV,
    key: ArrayV,
    value: ArrayV,
    gate: ArrayV,
    z: DeltaDims,
    p: ArrayV,
    held: ArrayV,
    d: ArrayV,
    delta: ArrayV,
)
    requires
        state.shape() == z.state() && p.shape() == z.state(),
        key.shape() == seq![z.b, z.hv, 1, z.dk],
        value.shape() == z.row() && held.shape() == z.row() && d.shape() == z.row(),
        delta.shape() == z.row(),
        gate.shape() == z.gates(),
        z.dk > 0,
        elementwise(now(h, t), state, key, Arith::Mul, now(h, t1), p),
        row_sums(now(h, t1), p, now(h, t2), held),
        elementwise(now(h, t2), value, held, Arith::Sub, now(h, t3), d),
        elementwise(now(h, t3), d, gate, Arith::Mul, now(h, u), delta),
        stays(h, t, t2) && stays(h, t, t3),
        value.buf < t.next && gate.buf < t.next,
    ensures
        forall|b: int, a: int, v: int| #[trigger]
            row_in(z, b, a, v) ==> val(now(h, u), delta, seq![b, a, v]) == (val(
                now(h, t),
                value,
                seq![b, a, v],
            ) - sum_to(
                z.dk as int,
                |j: int|
                    val(now(h, t), state, seq![b, a, v, j]) * val(
                        now(h, t),
                        key,
                        seq![b, a, 0, j],
                    ),
            )) * val(now(h, t), gate, seq![b, a, 0]),
{
    lemma_keeps(h, t, t2, value);
    lemma_keeps(h, t, t3, gate);
    assert(z.state().last() == z.dk);
    assert forall|b: int, a: int, v: int| #[trigger] row_in(z, b, a, v) implies val(
        now(h, u),
        delta,
        seq![b, a, v],
    ) == (val(now(h, t), value, seq![b, a, v]) - sum_to(
        z.dk as int,
        |j: int|
            val(now(h, t), state, seq![b, a, v, j]) * val(now(h, t), key, seq![b, a, 0, j]),
    )) * val(now(h, t), gate, seq![b, a, 0]) by {
        lemma_under(z, b, a, v, 0);
        let i = seq![b, a, v];
        let f = |j: int|
            val(now(h, t), state, seq![b, a, v, j]) * val(now(h, t), key, seq![b, a, 0, j]);
        let g = |j: int| val(now(h, t1), p, i.push(j));
        assert forall|j: int| 0 <= j < z.dk implies #[trigger] g(j) == f(j) by {
            lemma_under(z, b, a, v, j);
            assert(i.push(j) =~= seq![b, a, v, j]);
        }
        lemma_same_sum(z.dk as int, g, f);
        assert(val(now(h, t2), held, i) == sum_to(z.dk as int, g));
        assert(val(now(h, t3), d, i) == val(now(h, t2), value, i) - val(now(h, t2), held, i));
        assert(val(now(h, u), delta, i) == val(now(h, t3), d, i) * val(
            now(h, t3),
            gate,
            seq![b, a, 0],
        ));
    }
}

#[verifier::rlimit(40)]
proof fn lemma_correction(
    h: History,
    n: Numbers,
    t: TapeV,
    state: ArrayV,
    key: ArrayV,
    value: ArrayV,
    gate: ArrayV,
    z: DeltaDims,
    delta: ArrayV,
)
    requires
        filled(z),
        known(t, state) && known(t, key) && known(t, value) && known(t, gate),
        plain(state) && plain(key) && plain(value) && plain(gate),
        state.shape() == z.state(),
        key.shape() == seq![z.b, z.hv, 1, z.dk],
        value.shape() == z.row(),
        gate.shape() == z.gates(),
        t.next + 16 <= u64::MAX,
        correction_s(t, state, key, value, gate).1 == Outcome::Ok(delta),
        lives(h, correction_s(t, state, key, value, gate).0, n),
    ensures
        stays(h, t, correction_s(t, state, key, value, gate).0),
        known(correction_s(t, state, key, value, gate).0, delta),
        plain(delta),
        delta.shape() == z.row(),
        forall|b: int, a: int, v: int| #[trigger]
            row_in(z, b, a, v) ==> val(
                now(h, correction_s(t, state, key, value, gate).0),
                delta,
                seq![b, a, v],
            ) == (val(now(h, t), value, seq![b, a, v]) - sum_to(
                z.dk as int,
                |j: int|
                    val(now(h, t), state, seq![b, a, v, j]) * val(
                        now(h, t),
                        key,
                        seq![b, a, 0, j],
                    ),
            )) * val(now(h, t), gate, seq![b, a, 0]),
{
    reveal(correction_s);
    lemma_all_roomy(z);
    lemma_columns(z, z.hv);
    lemma_common(z, z.hv);
    let u = correction_s(t, state, key, value, gate).0;
    let (t1, o1) = promoted_s(t, state, key, "bmul"@);
    let p = o1->Ok_0;
    let (t2, o2) = reduce_last_s(t1, p, Reduction::Sum);
    let held = o2->Ok_0;
    let (t3, o3) = promoted_s(t2, value, held, "bsub"@);
    let d = o3->Ok_0;
    assert(u == promoted_s(t3, d, gate, "bmul"@).0);
    lemma_promoted_grows(t, state, key, "bmul"@);
    lemma_reduce_grows(t1, p);
    lemma_promoted_grows(t2, value, held, "bsub"@);
    lemma_promoted_grows(t3, d, gate, "bmul"@);
    lemma_grows(t2, t3, u, 5, 5);
    lemma_grows(t1, t2, u, 1, 10);
    lemma_lives(h, n, t1, u, 11);
    lemma_lives(h, n, t2, u, 10);
    lemma_lives(h, n, t3, u, 5);
    mixed_arithmetic_is_elementwise(h, n, t, state, key, Arith::Mul, p);
    sums_add_the_last_axis(h, n, t1, p, held);
    lemma_stays(h, t, t1, t2);
    mixed_arithmetic_is_elementwise(h, n, t2, value, held, Arith::Sub, d);
    lemma_stays(h, t, t2, t3);
    mixed_arithmetic_is_elementwise(h, n, t3, d, gate, Arith::Mul, delta);
    lemma_stays(h, t, t3, u);
    lemma_correction_numbers(
        h,
        t,
        t1,
        t2,
        t3,
        u,
        state,
        key,
        value,
        gate,
        z,
        p,
        held,
        d,
        delta,
    );
}

proof fn lemma_corrected_grows(t: TapeV, state: ArrayV, key: ArrayV, delta: ArrayV, z: DeltaDims)
    ensures
        grows(t, corrected_s(t, state, key, delta, z).0, 11),
{
    reveal(corrected_s);
    let u = corrected_s(t, state, key, delta, z).0;
    let (t1, o1) = reshape_s(t, delta, z.rows());
    lemma_reshape_grows(t, delta, z.rows());
    if o1 is Ok {
        let (t2, o2) = promoted_s(t1, key, o1->Ok_0, "bmul"@);
        lemma_promoted_grows(t1, key, o1->Ok_0, "bmul"@);
        lemma_grows(t, t1, t2, 1, 5);
        if o2 is Ok {
            lemma_promoted_grows(t2, state, o2->Ok_0, "badd"@);
            lemma_grows(t, t2, u, 6, 5);
        }
    }
}

proof fn lemma_corrected_numbers(
    h: History,
    t: TapeV,
    t1: TapeV,
    t2: TapeV,
    u: TapeV,
    state: ArrayV,
    key: ArrayV,
    delta: ArrayV,
    z: DeltaDims,
    d: ArrayV,
    w: ArrayV,
    new: ArrayV,
)
    requires
        state.shape() == z.state() && w.shape() == z.state() && new.shape() == z.state(),
        key.shape() == seq![z.b, z.hv, 1, z.dk],
        delta.shape() == z.row(),
        d.shape() == z.rows(),
        relaid(now(h, t), delta, now(h, t1), d),
        elementwise(now(h, t1), key, d, Arith::Mul, now(h, t2), w),
        elementwise(now(h, t2), state, w, Arith::Add, now(h, u), new),
        stays(h, t, t1) && stays(h, t, t2),
        state.buf < t.next && key.buf < t.next,
    ensures
        forall|b: int, a: int, v: int, k: int| #[trigger]
            cell_in(z, b, a, v, k) ==> val(now(h, u), new, seq![b, a, v, k]) == val(
                now(h, t),
                state,
                seq![b, a, v, k],
            ) + val(now(h, t), key, seq![b, a, 0, k]) * val(now(h, t), delta, seq![b, a, v]),
{
    lemma_keeps(h, t, t1, key);
    lemma_keeps(h, t, t2, state);
    assert forall|b: int, a: int, v: int, k: int| #[trigger] cell_in(z, b, a, v, k) implies val(
        now(h, u),
        new,
        seq![b, a, v, k],
    ) == val(now(h, t), state, seq![b, a, v, k]) + val(now(h, t), key, seq![b, a, 0, k]) * val(
        now(h, t),
        delta,
        seq![b, a, v],
    ) by {
        lemma_under(z, b, a, v, k);
        lemma_ravel3(z.b, z.hv, z.dv, b, a, v);
        lemma_ravel4(z.b, z.hv, z.dv, 1, b, a, v, 0);
        assert(in_shape(seq![b, a, v, 0], z.rows()));
        assert(val(now(h, t1), d, seq![b, a, v, 0]) == val(now(h, t), delta, seq![b, a, v]));
        assert(val(now(h, t2), w, seq![b, a, v, k]) == val(now(h, t1), key, seq![b, a, 0, k])
            * val(now(h, t1), d, seq![b, a, v, 0]));
    }
}

#[verifier::rlimit(40)]
proof fn lemma_corrected(
    h: History,
    n: Numbers,
    t: TapeV,
    state: ArrayV,
    key: ArrayV,
    delta: ArrayV,
    z: DeltaDims,
    new: ArrayV,
)
    requires
        filled(z),
        known(t, state) && known(t, key) && known(t, delta),
        plain(state) && plain(key) && plain(delta),
        state.shape() == z.state(),
        key.shape() == seq![z.b, z.hv, 1, z.dk],
        delta.shape() == z.row(),
        t.next + 11 <= u64::MAX,
        corrected_s(t, state, key, delta, z).1 == Outcome::Ok(new),
        lives(h, corrected_s(t, state, key, delta, z).0, n),
    ensures
        stays(h, t, corrected_s(t, state, key, delta, z).0),
        known(corrected_s(t, state, key, delta, z).0, new),
        plain(new),
        new.shape() == z.state(),
        forall|b: int, a: int, v: int, k: int| #[trigger]
            cell_in(z, b, a, v, k) ==> val(
                now(h, corrected_s(t, state, key, delta, z).0),
                new,
                seq![b, a, v, k],
            ) == val(now(h, t), state, seq![b, a, v, k]) + val(now(h, t), key, seq![b, a, 0, k])
                * val(now(h, t), delta, seq![b, a, v]),
{
    reveal(corrected_s);
    lemma_all_roomy(z);
    lemma_columns(z, z.hv);
    lemma_common(z, z.hv);
    let u = corrected_s(t, state, key, delta, z).0;
    let (t1, o1) = reshape_s(t, delta, z.rows());
    let d = o1->Ok_0;
    let (t2, o2) = promoted_s(t1, key, d, "bmul"@);
    let w = o2->Ok_0;
    assert(u == promoted_s(t2, state, w, "badd"@).0);
    lemma_reshape_grows(t, delta, z.rows());
    lemma_promoted_grows(t1, key, d, "bmul"@);
    lemma_promoted_grows(t2, state, w, "badd"@);
    lemma_grows(t1, t2, u, 5, 5);
    lemma_lives(h, n, t1, u, 10);
    lemma_lives(h, n, t2, u, 5);
    reshaping_keeps_elements(h, n, t, delta, z.rows(), d);
    mixed_arithmetic_is_elementwise(h, n, t1, key, d, Arith::Mul, w);
    lemma_stays(h, t, t1, t2);
    mixed_arithmetic_is_elementwise(h, n, t2, state, w, Arith::Add, new);
    lemma_stays(h, t, t2, u);
    lemma_corrected_numbers(h, t, t1, t2, u, state, key, delta, z, d, w, new);
}

proof fn lemma_answer_grows(t: TapeV, state: ArrayV, q: ArrayV, z: DeltaDims, dt: Dtype)
    ensures
        grows(t, answer_s(t, state, q, z, dt).0, 9),
{
    reveal(answer_s);
    let u = answer_s(t, state, q, z, dt).0;
    let c = z.columns(q.shape()[1]);
    let (t1, o1) = reshape_s(t, q, c);
    lemma_reshape_grows(t, q, c);
    if o1 is Ok {
        let (t2, o2) = promoted_s(t1, state, o1->Ok_0, "bmul"@);
        lemma_promoted_grows(t1, state, o1->Ok_0, "bmul"@);
        lemma_grows(t, t1, t2, 1, 5);
        if o2 is Ok {
            let (t3, o3) = reduce_last_s(t2, o2->Ok_0, Reduction::Sum);
            lemma_reduce_grows(t2, o2->Ok_0);
            lemma_grows(t, t2, t3, 6, 1);
            if o3 is Ok {
                lemma_cast_grows(t3, o3->Ok_0, dt);
                lemma_grows(t, t3, u, 7, 2);
            }
        }
    }
}

proof fn lemma_answer_numbers(
    h: History,
    t: TapeV,
    t1: TapeV,
    t2: TapeV,
    t3: TapeV,
    u: TapeV,
    state: ArrayV,
    q: ArrayV,
    z: DeltaDims,
    query: ArrayV,
    p: ArrayV,
    s: ArrayV,
    y: ArrayV,
)
    requires
        state.shape() == z.state() && p.shape() == z.state(),
        q.shape() == seq![z.b, z.hv, z.dk],
        query.shape() == seq![z.b, z.hv, 1, z.dk],
        s.shape() == z.row(),
        z.dk > 0,
        relaid(now(h, t), q, now(h, t1), query),
        elementwise(now(h, t1), state, query, Arith::Mul, now(h, t2), p),
        row_sums(now(h, t2), p, now(h, t3), s),
        same(now(h, t3), s, now(h, u), y),
        stays(h, t, t1),
        state.buf < t.next,
    ensures
        forall|b: int, a: int, v: int| #[trigger]
            row_in(z, b, a, v) ==> val(now(h, u), y, seq![b, a, v]) == sum_to(
                z.dk as int,
                |j: int|
                    val(now(h, t), state, seq![b, a, v, j]) * val(now(h, t), q, seq![b, a, j]),
            ),
{
    lemma_keeps(h, t, t1, state);
    assert(z.state().last() == z.dk);
    let c = query.shape();
    assert forall|b: int, a: int, v: int| #[trigger] row_in(z, b, a, v) implies val(
        now(h, u),
        y,
        seq![b, a, v],
    ) == sum_to(
        z.dk as int,
        |j: int| val(now(h, t), state, seq![b, a, v, j]) * val(now(h, t), q, seq![b, a, j]),
    ) by {
        lemma_under(z, b, a, v, 0);
        let i = seq![b, a, v];
        let f = |j: int|
            val(now(h, t), state, seq![b, a, v, j]) * val(now(h, t), q, seq![b, a, j]);
        let g = |j: int| val(now(h, t2), p, i.push(j));
        assert forall|j: int| 0 <= j < z.dk implies #[trigger] g(j) == f(j) by {
            lemma_under(z, b, a, v, j);
            assert(i.push(j) =~= seq![b, a, v, j]);
            lemma_ravel3(z.b, z.hv, z.dk, b, a, j);
            lemma_ravel4(z.b, z.hv, 1, z.dk, b, a, 0, j);
            assert(in_shape(seq![b, a, j], q.shape()));
            assert(in_shape(seq![b, a, 0, j], c));
            assert(val(now(h, t1), query, seq![b, a, 0, j]) == val(now(h, t), q, seq![b, a, j]));
        }
        lemma_same_sum(z.dk as int, g, f);
        assert(val(now(h, t3), s, i) == sum_to(z.dk as int, g));
        assert(val(now(h, u), y, i) == val(now(h, t3), s, i));
    }
}

#[verifier::rlimit(40)]
proof fn lemma_answer(
    h: History,
    n: Numbers,
    t: TapeV,
    state: ArrayV,
    q: ArrayV,
    z: DeltaDims,
    dt: Dtype,
    y: ArrayV,
)
    requires
        filled(z),
        known(t, state) && known(t, q),
        plain(state),
        short(q.layout),
        state.shape() == z.state(),
        q.shape() == seq![z.b, z.hv, z.dk],
        t.next + 9 <= u64::MAX,
        answer_s(t, state, q, z, dt).1 == Outcome::Ok(y),
        lives(h, answer_s(t, state, q, z, dt).0, n),
    ensures
        stays(h, t, answer_s(t, state, q, z, dt).0),
        known(answer_s(t, state, q, z, dt).0, y),
        y.shape() == z.row(),
        y.dtype == dt,
        forall|b: int, a: int, v: int| #[trigger]
            row_in(z, b, a, v) ==> val(
                now(h, answer_s(t, state, q, z, dt).0),
                y,
                seq![b, a, v],
            ) == sum_to(
                z.dk as int,
                |j: int|
                    val(now(h, t), state, seq![b, a, v, j]) * val(now(h, t), q, seq![b, a, j]),
            ),
{
    reveal(answer_s);
    lemma_all_roomy(z);
    lemma_columns(z, z.hv);
    lemma_common(z, z.hv);
    let u = answer_s(t, state, q, z, dt).0;
    let c = z.columns(q.shape()[1]);
    lemma_columns(z, q.shape()[1]);
    let (t1, o1) = reshape_s(t, q, c);
    let query = o1->Ok_0;
    let (t2, o2) = promoted_s(t1, state, query, "bmul"@);
    let p = o2->Ok_0;
    let (t3, o3) = reduce_last_s(t2, p, Reduction::Sum);
    let s = o3->Ok_0;
    assert(u == cast_s(t3, s, dt).0);
    lemma_reshape_grows(t, q, c);
    lemma_promoted_grows(t1, state, query, "bmul"@);
    lemma_reduce_grows(t2, p);
    lemma_cast_grows(t3, s, dt);
    lemma_grows(t2, t3, u, 1, 2);
    lemma_grows(t1, t2, u, 5, 3);
    lemma_lives(h, n, t1, u, 8);
    lemma_lives(h, n, t2, u, 3);
    lemma_lives(h, n, t3, u, 2);
    reshaping_keeps_elements(h, n, t, q, c, query);
    mixed_arithmetic_is_elementwise(h, n, t1, state, query, Arith::Mul, p);
    lemma_stays(h, t, t1, t2);
    sums_add_the_last_axis(h, n, t2, p, s);
    lemma_stays(h, t, t2, t3);
    conversion_keeps_elements(h, n, t3, s, dt, y);
    lemma_stays(h, t, t3, u);
    lemma_answer_numbers(h, t, t1, t2, t3, u, state, q, z, query, p, s, y);
}

// ---- a step ----

/// The operands of a recurrence whose elements the device reads.
pub open spec fn readable(
    t: TapeV,
    q: ArrayV,
    k: ArrayV,
    v: ArrayV,
    g: ArrayV,
    beta: ArrayV,
    steps: usize,
    heads: usize,
    z: DeltaDims,
) -> bool {
    &&& operands(q, k, v, g, beta, steps, heads, z)
    &&& known(t, q) && known(t, k) && known(t, v) && known(t, g) && known(t, beta)
    &&& short(q.layout) && short(k.layout) && short(v.layout) && short(g.layout) && short(
        beta.layout,
    )
}

/// What a state holds for a key after it has decayed.
pub open spec fn recalled(dk: int, decayed: spec_fn(int) -> int, key: spec_fn(int) -> int) -> int {
    sum_to(dk, |j: int| decayed(j) * key(j))
}

/// The delta rule for one row of a state: decay, then move what the row holds for
/// the key towards the value, at a rate.
pub open spec fn delta_rule(
    dk: int,
    row: spec_fn(int) -> int,
    key: spec_fn(int) -> int,
    value: int,
    decay: int,
    rate: int,
) -> spec_fn(int) -> int {
    let decayed = |j: int| row(j) * decay;
    |j: int| decayed(j) + key(j) * ((value - recalled(dk, decayed, key)) * rate)
}

/// A row of a state, its columns by number.
pub open spec fn row_of(m: Memory, state: ArrayV, b: int, a: int, v: int) -> spec_fn(int) -> int {
    |j: int| val(m, state, seq![b, a, v, j])
}

/// A key or a query of a step, its columns by number.
pub open spec fn key_of(m: Memory, k: ArrayV, b: int, i: int, a: int) -> spec_fn(int) -> int {
    |j: int| val(m, k, seq![b, i, a, j])
}

/// The row of a state after one step.
pub open spec fn stepped(
    m: Memory,
    row: spec_fn(int) -> int,
    k: ArrayV,
    v: ArrayV,
    g: ArrayV,
    beta: ArrayV,
    z: DeltaDims,
    i: int,
    b: int,
    a: int,
    c: int,
) -> spec_fn(int) -> int {
    delta_rule(
        z.dk as int,
        row,
        key_of(m, k, b, i, a),
        val(m, v, seq![b, i, a, c]),
        val(m, g, seq![b, i, a]),
        val(m, beta, seq![b, i, a]),
    )
}

pub proof fn lemma_step_grows(
    t: TapeV,
    state: ArrayV,
    q: ArrayV,
    k: ArrayV,
    v: ArrayV,
    g: ArrayV,
    beta: ArrayV,
    i: i32,
    z: DeltaDims,
    d: Dtype,
)
    ensures
        grows(t, step_s(t, state, q, k, v, g, beta, i, z, d).0, 44),
{
    reveal(step_s);
    let u = step_s(t, state, q, k, v, g, beta, i, z, d).0;
    let (t1, o1) = laid_s(t, at(g, i), at(k, i), at(beta, i), z);
    lemma_laid_grows(t, at(g, i), at(k, i), at(beta, i), z);
    if o1 is Ok {
        let (decay, key, gate) = o1->Ok_0;
        let (t2, o2) = promoted_s(t1, state, decay, "bmul"@);
        lemma_promoted_grows(t1, state, decay, "bmul"@);
        lemma_grows(t, t1, t2, 3, 5);
        if o2 is Ok {
            let (t3, o3) = correction_s(t2, o2->Ok_0, key, at(v, i), gate);
            lemma_correction_grows(t2, o2->Ok_0, key, at(v, i), gate);
            lemma_grows(t, t2, t3, 8, 16);
            if o3 is Ok {
                let (t4, o4) = corrected_s(t3, o2->Ok_0, key, o3->Ok_0, z);
                lemma_corrected_grows(t3, o2->Ok_0, key, o3->Ok_0, z);
                lemma_grows(t, t3, t4, 24, 11);
                if o4 is Ok {
                    lemma_answer_grows(t4, o4->Ok_0, at(q, i), z, d);
                    lemma_grows(t, t4, u, 35, 9);
                }
            }
        }
    }
}

/// One step applies the delta rule to every row of the state, and answers with what
/// the new state holds for the query.
#[verifier::rlimit(60)]
pub proof fn a_step_applies_the_delta_rule(
    h: History,
    n: Numbers,
    t: TapeV,
    state: ArrayV,
    q: ArrayV,
    k: ArrayV,
    v: ArrayV,
    g: ArrayV,
    beta: ArrayV,
    i: i32,
    steps: usize,
    heads: usize,
    z: DeltaDims,
    d: Dtype,
    y: ArrayV,
    new: ArrayV,
)
    requires
        filled(z),
        readable(t, q, k, v, g, beta, steps, heads, z),
        known(t, state),
        plain(state),
        state.shape() == z.state(),
        0 <= i < steps,
        t.next + 44 <= u64::MAX,
        step_s(t, state, q, k, v, g, beta, i, z, d).1 == Ok::<(ArrayV, ArrayV), Seq<char>>(
            (y, new),
        ),
        lives(h, step_s(t, state, q, k, v, g, beta, i, z, d).0, n),
    ensures
        stays(h, t, step_s(t, state, q, k, v, g, beta, i, z, d).0),
        known(step_s(t, state, q, k, v, g, beta, i, z, d).0, y),
        known(step_s(t, state, q, k, v, g, beta, i, z, d).0, new),
        plain(new),
        new.shape() == z.state(),
        y.shape() == z.row(),
        y.dtype == d,
        forall|b: int, a: int, c: int, j: int| #[trigger]
            cell_in(z, b, a, c, j) ==> val(
                now(h, step_s(t, state, q, k, v, g, beta, i, z, d).0),
                new,
                seq![b, a, c, j],
            ) == stepped(
                now(h, t),
                row_of(now(h, t), state, b, a, c),
                k,
                v,
                g,
                beta,
                z,
                i as int,
                b,
                a,
                c,
            )(j),
        forall|b: int, a: int, c: int| #[trigger]
            row_in(z, b, a, c) ==> val(
                now(h, step_s(t, state, q, k, v, g, beta, i, z, d).0),
                y,
                seq![b, a, c],
            ) == recalled(
                z.dk as int,
                stepped(
                    now(h, t),
                    row_of(now(h, t), state, b, a, c),
                    k,
                    v,
                    g,
                    beta,
                    z,
                    i as int,
                    b,
                    a,
                    c,
                ),
                key_of(now(h, t), q, b, i as int, a),
            ),
{
    reveal(step_s);
    let u = step_s(t, state, q, k, v, g, beta, i, z, d).0;
    let (gi, ki, bi, vi, qi) = (at(g, i), at(k, i), at(beta, i), at(v, i), at(q, i));
    lemma_all_roomy(z);
    lemma_common(z, z.hv);
    a_step_is_picked(g, steps, i, seq![0, 0]);
    a_step_is_picked(beta, steps, i, seq![0, 0]);
    a_step_is_picked(k, steps, i, seq![0, 0, 0]);
    a_step_is_picked(q, steps, i, seq![0, 0, 0]);
    a_step_is_picked(v, steps, i, seq![0, 0, 0]);
    assert(gi.shape() =~= seq![z.b, z.hv]);
    assert(bi.shape() =~= seq![z.b, z.hv]);
    assert(ki.shape() =~= seq![z.b, heads, z.dk]);
    assert(qi.shape() =~= seq![z.b, heads, z.dk]);
    assert(vi.shape() =~= z.row());
    let (t1, o1) = laid_s(t, gi, ki, bi, z);
    let (decay, key, gate) = o1->Ok_0;
    let (t2, o2) = promoted_s(t1, state, decay, "bmul"@);
    let faded = o2->Ok_0;
    let (t3, o3) = correction_s(t2, faded, key, vi, gate);
    let delta = o3->Ok_0;
    let (t4, _) = corrected_s(t3, faded, key, delta, z);
    assert(u == answer_s(t4, new, qi, z, d).0);
    lemma_laid_grows(t, gi, ki, bi, z);
    lemma_promoted_grows(t1, state, decay, "bmul"@);
    lemma_correction_grows(t2, faded, key, vi, gate);
    lemma_corrected_grows(t3, faded, key, delta, z);
    lemma_answer_grows(t4, new, qi, z, d);
    lemma_grows(t3, t4, u, 11, 9);
    lemma_grows(t2, t3, u, 16, 20);
    lemma_grows(t1, t2, u, 5, 36);
    lemma_lives(h, n, t1, u, 41);
    lemma_lives(h, n, t2, u, 36);
    lemma_lives(h, n, t3, u, 20);
    lemma_lives(h, n, t4, u, 9);
    lemma_laid(h, n, t, gi, ki, bi, z, heads, decay, key, gate);
    mixed_arithmetic_is_elementwise(h, n, t1, state, decay, Arith::Mul, faded);
    lemma_stays(h, t, t1, t2);
    lemma_stays(h, t1, t2, t2);
    lemma_correction(h, n, t2, faded, key, vi, gate, z, delta);
    lemma_stays(h, t, t2, t3);
    lemma_corrected(h, n, t3, faded, key, delta, z, new);
    lemma_stays(h, t, t3, t4);
    lemma_answer(h, n, t4, new, qi, z, d, y);
    lemma_stays(h, t, t4, u);
    lemma_step_numbers(
        h,
        t,
        t1,
        t2,
        t3,
        t4,
        u,
        state,
        q,
        k,
        v,
        g,
        beta,
        i,
        steps,
        heads,
        z,
        decay,
        key,
        gate,
        faded,
        delta,
        new,
        y,
    );
}

#[verifier::rlimit(60)]
proof fn lemma_step_numbers(
    h: History,
    t: TapeV,
    t1: TapeV,
    t2: TapeV,
    t3: TapeV,
    t4: TapeV,
    u: TapeV,
    state: ArrayV,
    q: ArrayV,
    k: ArrayV,
    v: ArrayV,
    g: ArrayV,
    beta: ArrayV,
    i: i32,
    steps: usize,
    heads: usize,
    z: DeltaDims,
    decay: ArrayV,
    key: ArrayV,
    gate: ArrayV,
    faded: ArrayV,
    delta: ArrayV,
    new: ArrayV,
    y: ArrayV,
)
    requires
        filled(z),
        readable(t, q, k, v, g, beta, steps, heads, z),
        0 <= i < steps,
        state.buf < t.next,
        state.shape() == z.state() && faded.shape() == z.state(),
        decay.shape() == z.heads(),
        t.next <= t1.next <= t2.next <= t3.next <= t4.next <= u.next,
        stays(h, t, t1) && stays(h, t1, t2) && stays(h, t2, t3) && stays(h, t3, t4) && stays(
            h,
            t4,
            u,
        ),
        decay.buf < t1.next && key.buf < t1.next && gate.buf < t1.next,
        faded.buf < t2.next && delta.buf < t3.next && new.buf < t4.next,
        forall|b: int, a: int| #[trigger]
            head_in(z, b, a) ==> val(now(h, t1), decay, seq![b, a, 0, 0]) == val(
                now(h, t),
                at(g, i),
                seq![b, a],
            ),
        forall|b: int, a: int| #[trigger]
            head_in(z, b, a) ==> val(now(h, t1), gate, seq![b, a, 0]) == val(
                now(h, t),
                at(beta, i),
                seq![b, a],
            ),
        forall|b: int, a: int, j: int| #[trigger]
            key_in(z, b, a, j) ==> val(now(h, t1), key, seq![b, a, 0, j]) == val(
                now(h, t),
                at(k, i),
                seq![b, a, j],
            ),
        elementwise(now(h, t1), state, decay, Arith::Mul, now(h, t2), faded),
        forall|b: int, a: int, c: int| #[trigger]
            row_in(z, b, a, c) ==> val(now(h, t3), delta, seq![b, a, c]) == (val(
                now(h, t2),
                at(v, i),
                seq![b, a, c],
            ) - sum_to(
                z.dk as int,
                |j: int|
                    val(now(h, t2), faded, seq![b, a, c, j]) * val(
                        now(h, t2),
                        key,
                        seq![b, a, 0, j],
                    ),
            )) * val(now(h, t2), gate, seq![b, a, 0]),
        forall|b: int, a: int, c: int, j: int| #[trigger]
            cell_in(z, b, a, c, j) ==> val(now(h, t4), new, seq![b, a, c, j]) == val(
                now(h, t3),
                faded,
                seq![b, a, c, j],
            ) + val(now(h, t3), key, seq![b, a, 0, j]) * val(now(h, t3), delta, seq![b, a, c]),
        forall|b: int, a: int, c: int| #[trigger]
            row_in(z, b, a, c) ==> val(now(h, u), y, seq![b, a, c]) == sum_to(
                z.dk as int,
                |j: int|
                    val(now(h, t4), new, seq![b, a, c, j]) * val(
                        now(h, t4),
                        at(q, i),
                        seq![b, a, j],
                    ),
            ),
        heads == z.hv,
    ensures
        forall|b: int, a: int, c: int, j: int| #[trigger]
            cell_in(z, b, a, c, j) ==> val(now(h, u), new, seq![b, a, c, j]) == stepped(
                now(h, t),
                row_of(now(h, t), state, b, a, c),
                k,
                v,
                g,
                beta,
                z,
                i as int,
                b,
                a,
                c,
            )(j),
        forall|b: int, a: int, c: int| #[trigger]
            row_in(z, b, a, c) ==> val(now(h, u), y, seq![b, a, c]) == recalled(
                z.dk as int,
                stepped(
                    now(h, t),
                    row_of(now(h, t), state, b, a, c),
                    k,
                    v,
                    g,
                    beta,
                    z,
                    i as int,
                    b,
                    a,
                    c,
                ),
                key_of(now(h, t), q, b, i as int, a),
            ),
{
    lemma_stays(h, t, t1, t2);
    lemma_stays(h, t, t2, t3);
    lemma_stays(h, t, t3, t4);
    lemma_stays(h, t1, t2, t3);
    lemma_keeps(h, t, t1, state);
    lemma_keeps(h, t1, t2, key);
    lemma_keeps(h, t1, t3, key);
    lemma_keeps(h, t1, t2, gate);
    lemma_keeps(h, t2, t3, faded);
    lemma_keeps(h, t4, u, new);
    a_step_is_picked(v, steps, i, seq![0, 0, 0]);
    a_step_is_picked(q, steps, i, seq![0, 0, 0]);
    lemma_keeps(h, t, t2, at(v, i));
    lemma_keeps(h, t, t4, at(q, i));
    let m = now(h, t);
    assert forall|b: int, a: int, c: int| #[trigger] row_in(z, b, a, c) implies (forall|j: int|
        0 <= j < z.dk ==> #[trigger] row_of(now(h, t4), new, b, a, c)(j) == stepped(
            m,
            row_of(m, state, b, a, c),
            k,
            v,
            g,
            beta,
            z,
            i as int,
            b,
            a,
            c,
        )(j)) by {
        let row = row_of(m, state, b, a, c);
        let kk = key_of(m, k, b, i as int, a);
        let decay_v = val(m, g, seq![b, i as int, a]);
        let rate = val(m, beta, seq![b, i as int, a]);
        let decayed = |j: int| row(j) * decay_v;
        assert(head_in(z, b, a));
        a_step_is_picked(g, steps, i, seq![b, a]);
        a_step_is_picked(beta, steps, i, seq![b, a]);
        a_step_is_picked(v, steps, i, seq![b, a, c]);
        assert(seq![b, a].insert(1, i as int) =~= seq![b, i as int, a]);
        assert(seq![b, a, c].insert(1, i as int) =~= seq![b, i as int, a, c]);
        let f = |j: int|
            val(now(h, t2), faded, seq![b, a, c, j]) * val(now(h, t2), key, seq![b, a, 0, j]);
        let f2 = |j: int| decayed(j) * kk(j);
        assert forall|j: int| 0 <= j < z.dk implies #[trigger] f(j) == f2(j) && val(
            now(h, t2),
            faded,
            seq![b, a, c, j],
        ) == decayed(j) && val(now(h, t2), key, seq![b, a, 0, j]) == kk(j) by {
            lemma_under(z, b, a, c, j);
            assert(key_in(z, b, a, j));
            a_step_is_picked(k, steps, i, seq![b, a, j]);
            assert(seq![b, a, j].insert(1, i as int) =~= seq![b, i as int, a, j]);
        }
        lemma_same_sum(z.dk as int, f, f2);
        assert(recalled(z.dk as int, decayed, kk) == sum_to(z.dk as int, f2));
        let value = val(m, v, seq![b, i as int, a, c]);
        assert(val(now(h, t3), delta, seq![b, a, c]) == (value - sum_to(z.dk as int, f2)) * rate);
        assert forall|j: int| 0 <= j < z.dk implies #[trigger] row_of(
            now(h, t4),
            new,
            b,
            a,
            c,
        )(j) == stepped(m, row, k, v, g, beta, z, i as int, b, a, c)(j) by {
            assert(cell_in(z, b, a, c, j));
            assert(f(j) == f2(j));
            assert(stepped(m, row, k, v, g, beta, z, i as int, b, a, c)(j) == decayed(j) + kk(j) * ((
            value - recalled(z.dk as int, decayed, kk)) * rate));
        }
    }
    assert forall|b: int, a: int, c: int, j: int| #[trigger] cell_in(z, b, a, c, j) implies val(
        now(h, u),
        new,
        seq![b, a, c, j],
    ) == stepped(m, row_of(m, state, b, a, c), k, v, g, beta, z, i as int, b, a, c)(j) by {
        assert(row_in(z, b, a, c));
        assert(row_of(now(h, t4), new, b, a, c)(j) == val(now(h, t4), new, seq![b, a, c, j]));
    }
    assert forall|b: int, a: int, c: int| #[trigger] row_in(z, b, a, c) implies val(
        now(h, u),
        y,
        seq![b, a, c],
    ) == recalled(
        z.dk as int,
        stepped(m, row_of(m, state, b, a, c), k, v, g, beta, z, i as int, b, a, c),
        key_of(m, q, b, i as int, a),
    ) by {
        let s = stepped(m, row_of(m, state, b, a, c), k, v, g, beta, z, i as int, b, a, c);
        let kq = key_of(m, q, b, i as int, a);
        let f = |j: int|
            val(now(h, t4), new, seq![b, a, c, j]) * val(now(h, t4), at(q, i), seq![b, a, j]);
        let f2 = |j: int| s(j) * kq(j);
        assert forall|j: int| 0 <= j < z.dk implies #[trigger] f(j) == f2(j) by {
            a_step_is_picked(q, steps, i, seq![b, a, j]);
            assert(seq![b, a, j].insert(1, i as int) =~= seq![b, i as int, a, j]);
            assert(row_of(now(h, t4), new, b, a, c)(j) == s(j));
        }
        lemma_same_sum(z.dk as int, f, f2);
    }
}

// ---- all steps ----

/// A row of the state after the first `n` steps.
pub open spec fn row_after(
    m: Memory,
    state: ArrayV,
    k: ArrayV,
    v: ArrayV,
    g: ArrayV,
    beta: ArrayV,
    z: DeltaDims,
    n: int,
    b: int,
    a: int,
    c: int,
) -> spec_fn(int) -> int
    decreases n,
{
    if n <= 0 {
        row_of(m, state, b, a, c)
    } else {
        stepped(
            m,
            row_after(m, state, k, v, g, beta, z, n - 1, b, a, c),
            k,
            v,
            g,
            beta,
            z,
            n - 1,
            b,
            a,
            c,
        )
    }
}

proof fn lemma_same_rule(
    dk: int,
    row: spec_fn(int) -> int,
    key: spec_fn(int) -> int,
    row2: spec_fn(int) -> int,
    key2: spec_fn(int) -> int,
    value: int,
    decay: int,
    rate: int,
)
    requires
        forall|j: int| 0 <= j < dk ==> #[trigger] row(j) == row2(j),
        forall|j: int| 0 <= j < dk ==> #[trigger] key(j) == key2(j),
    ensures
        forall|j: int|
            0 <= j < dk ==> #[trigger] delta_rule(dk, row, key, value, decay, rate)(j)
                == delta_rule(dk, row2, key2, value, decay, rate)(j),
{
    let d1 = |j: int| row(j) * decay;
    let d2 = |j: int| row2(j) * decay;
    let f = |j: int| d1(j) * key(j);
    let g = |j: int| d2(j) * key2(j);
    assert forall|j: int| 0 <= j < dk implies #[trigger] f(j) == g(j) by {
        assert(row(j) == row2(j) && key(j) == key2(j));
    }
    lemma_same_sum(dk, f, g);
    assert(recalled(dk, d1, key) == recalled(dk, d2, key2));
    assert forall|j: int| 0 <= j < dk implies #[trigger] delta_rule(
        dk,
        row,
        key,
        value,
        decay,
        rate,
    )(j) == delta_rule(dk, row2, key2, value, decay, rate)(j) by {
        assert(row(j) == row2(j) && key(j) == key2(j));
    }
}

proof fn lemma_steps_grow(
    t: TapeV,
    state: ArrayV,
    q: ArrayV,
    k: ArrayV,
    v: ArrayV,
    g: ArrayV,
    beta: ArrayV,
    z: DeltaDims,
    d: Dtype,
    capture: bool,
    n: int,
)
    requires
        n >= 0,
        !is_void(z.state()),
    ensures
        grows(t, steps_s(t, state, q, k, v, g, beta, z, d, capture, n).0, 44 * n),
    decreases n,
{
    if n > 0 {
        lemma_steps_grow(t, state, q, k, v, g, beta, z, d, capture, n - 1);
        let (t1, o1) = steps_s(t, state, q, k, v, g, beta, z, d, capture, n - 1);
        if o1 is Ok {
            let s = o1->Ok_0.2;
            lemma_step_grows(t1, s, q, k, v, g, beta, (n - 1) as i32, z, d);
            let t2 = step_s(t1, s, q, k, v, g, beta, (n - 1) as i32, z, d).0;
            lemma_grows(t, t1, t2, 44 * (n - 1), 44);
        }
    }
}

/// The recurrence applies the delta rule step by step, and every step answers with
/// what the state that it leaves holds for its query.
#[verifier::rlimit(60)]
pub proof fn the_recurrence_applies_the_delta_rule(
    h: History,
    w: Numbers,
    t: TapeV,
    state: ArrayV,
    q: ArrayV,
    k: ArrayV,
    v: ArrayV,
    g: ArrayV,
    beta: ArrayV,
    steps: usize,
    heads: usize,
    z: DeltaDims,
    d: Dtype,
    capture: bool,
    n: int,
    ys: Seq<ArrayV>,
    ss: Seq<ArrayV>,
    last: ArrayV,
)
    requires
        filled(z),
        readable(t, q, k, v, g, beta, steps, heads, z),
        known(t, state),
        plain(state),
        state.shape() == z.state(),
        0 <= n <= steps,
        t.next + 44 * n <= u64::MAX,
        steps_s(t, state, q, k, v, g, beta, z, d, capture, n).1 == Ok::<
            (Seq<ArrayV>, Seq<ArrayV>, ArrayV),
            Seq<char>,
        >((ys, ss, last)),
        lives(h, steps_s(t, state, q, k, v, g, beta, z, d, capture, n).0, w),
    ensures
        stays(h, t, steps_s(t, state, q, k, v, g, beta, z, d, capture, n).0),
        known(steps_s(t, state, q, k, v, g, beta, z, d, capture, n).0, last),
        plain(last),
        last.shape() == z.state(),
        ys.len() == n,
        capture ==> ss.len() == n && (n > 0 ==> ss.last() == last),
        forall|i: int|
            0 <= i < n ==> (#[trigger] ys[i]).buf < steps_s(
                t,
                state,
                q,
                k,
                v,
                g,
                beta,
                z,
                d,
                capture,
                n,
            ).0.next,
        forall|b: int, a: int, c: int, j: int| #[trigger]
            cell_in(z, b, a, c, j) ==> val(
                now(h, steps_s(t, state, q, k, v, g, beta, z, d, capture, n).0),
                last,
                seq![b, a, c, j],
            ) == row_after(now(h, t), state, k, v, g, beta, z, n, b, a, c)(j),
        forall|i: int, b: int, a: int, c: int|
            #![trigger ys[i], row_in(z, b, a, c)]
            0 <= i < n && row_in(z, b, a, c) ==> val(
                now(h, steps_s(t, state, q, k, v, g, beta, z, d, capture, n).0),
                ys[i],
                seq![b, a, c],
            ) == recalled(
                z.dk as int,
                row_after(now(h, t), state, k, v, g, beta, z, i + 1, b, a, c),
                key_of(now(h, t), q, b, i, a),
            ),
    decreases n,
{
    let u = steps_s(t, state, q, k, v, g, beta, z, d, capture, n).0;
    assert(!is_void(z.state())) by {
        let s = z.state();
        assert forall|i: int| 0 <= i < s.len() implies #[trigger] s[i] != 0 by {}
    }
    if n > 0 {
        let (t1, o1) = steps_s(t, state, q, k, v, g, beta, z, d, capture, n - 1);
        let (ys1, ss1, s) = o1->Ok_0;
        let i = (n - 1) as i32;
        let (t2, o2) = step_s(t1, s, q, k, v, g, beta, i, z, d);
        let (y, new) = o2->Ok_0;
        assert(u == t2 && last == new && ys == ys1.push(y));
        lemma_steps_grow(t, state, q, k, v, g, beta, z, d, capture, n - 1);
        lemma_step_grows(t1, s, q, k, v, g, beta, i, z, d);
        lemma_lives(h, w, t1, u, 44);
        the_recurrence_applies_the_delta_rule(
            h,
            w,
            t,
            state,
            q,
            k,
            v,
            g,
            beta,
            steps,
            heads,
            z,
            d,
            capture,
            n - 1,
            ys1,
            ss1,
            s,
        );
        a_step_applies_the_delta_rule(
            h,
            w,
            t1,
            s,
            q,
            k,
            v,
            g,
            beta,
            i,
            steps,
            heads,
            z,
            d,
            y,
            new,
        );
        lemma_stays(h, t, t1, u);
        lemma_keeps(h, t, t1, q);
        lemma_keeps(h, t, t1, k);
        lemma_keeps(h, t, t1, v);
        lemma_keeps(h, t, t1, g);
        lemma_keeps(h, t, t1, beta);
        let (m, m1) = (now(h, t), now(h, t1));
        assert forall|b: int, a: int, c: int| #[trigger] row_in(z, b, a, c) implies (forall|j: int|
            0 <= j < z.dk ==> #[trigger] stepped(
                m1,
                row_of(m1, s, b, a, c),
                k,
                v,
                g,
                beta,
                z,
                n - 1,
                b,
                a,
                c,
            )(j) == row_after(m, state, k, v, g, beta, z, n, b, a, c)(j)) by {
            let row = row_of(m1, s, b, a, c);
            let row2 = row_after(m, state, k, v, g, beta, z, n - 1, b, a, c);
            assert forall|j: int| 0 <= j < z.dk implies #[trigger] row(j) == row2(j) by {
                assert(cell_in(z, b, a, c, j));
            }
            lemma_same_rule(
                z.dk as int,
                row,
                key_of(m1, k, b, n - 1, a),
                row2,
                key_of(m, k, b, n - 1, a),
                val(m, v, seq![b, n - 1, a, c]),
                val(m, g, seq![b, n - 1, a]),
                val(m, beta, seq![b, n - 1, a]),
            );
        }
        assert forall|b: int, a: int, c: int, j: int| #[trigger] cell_in(z, b, a, c, j) implies val(
            now(h, u),
            last,
            seq![b, a, c, j],
        ) == row_after(m, state, k, v, g, beta, z, n, b, a, c)(j) by {
            assert(row_in(z, b, a, c));
            let x = stepped(m1, row_of(m1, s, b, a, c), k, v, g, beta, z, n - 1, b, a, c);
            assert(x(j) == row_after(m, state, k, v, g, beta, z, n, b, a, c)(j));
        }
        assert forall|e: int, b: int, a: int, c: int|
            #![trigger ys[e], row_in(z, b, a, c)]
            0 <= e < n && row_in(z, b, a, c) implies val(now(h, u), ys[e], seq![b, a, c])
            == recalled(
            z.dk as int,
            row_after(m, state, k, v, g, beta, z, e + 1, b, a, c),
            key_of(m, q, b, e, a),
        ) by {
            if e < n - 1 {
                assert(ys[e] == ys1[e]);
                assert(ys1[e].buf < t1.next);
                lemma_keeps(h, t1, u, ys1[e]);
            } else {
                let x = stepped(m1, row_of(m1, s, b, a, c), k, v, g, beta, z, n - 1, b, a, c);
                let x2 = row_after(m, state, k, v, g, beta, z, n, b, a, c);
                let kq = key_of(m1, q, b, n - 1, a);
                let kq2 = key_of(m, q, b, n - 1, a);
                let f = |j: int| x(j) * kq(j);
                let f2 = |j: int| x2(j) * kq2(j);
                assert forall|j: int| 0 <= j < z.dk implies #[trigger] f(j) == f2(j) by {
                    assert(x(j) == x2(j));
                }
                lemma_same_sum(z.dk as int, f, f2);
            }
        }
    }
}

// ---- the rule itself ----

proof fn lemma_sum_linear(
    n: int,
    f: spec_fn(int) -> int,
    g: spec_fn(int) -> int,
    c: int,
)
    ensures
        sum_to(n, |j: int| f(j) + c * g(j)) == sum_to(n, f) + c * sum_to(n, g),
    decreases n,
{
    let w = |j: int| f(j) + c * g(j);
    if n > 0 {
        lemma_sum_linear(n - 1, f, g, c);
        let (x, y) = (sum_to(n - 1, g), g(n - 1));
        assert(c * (x + y) == c * x + c * y) by (nonlinear_arith);
    } else {
        assert(c * 0 == 0) by (nonlinear_arith);
    }
}

/// A row that is moved at full rate along a key of length one holds the value for
/// that key.
pub proof fn a_full_rate_stores_the_value(
    dk: int,
    row: spec_fn(int) -> int,
    key: spec_fn(int) -> int,
    value: int,
    decay: int,
)
    requires
        sum_to(dk, |j: int| key(j) * key(j)) == 1,
    ensures
        recalled(dk, delta_rule(dk, row, key, value, decay, 1), key) == value,
{
    let decayed = |j: int| row(j) * decay;
    let held = recalled(dk, decayed, key);
    let new = delta_rule(dk, row, key, value, decay, 1);
    let f = |j: int| decayed(j) * key(j);
    let g = |j: int| key(j) * key(j);
    let c = (value - held) * 1;
    let w = |j: int| new(j) * key(j);
    let w2 = |j: int| f(j) + c * g(j);
    assert forall|j: int| 0 <= j < dk implies #[trigger] w(j) == w2(j) by {
        let (x, y) = (decayed(j), key(j));
        assert((x + y * c) * y == x * y + c * (y * y)) by (nonlinear_arith);
    }
    lemma_same_sum(dk, w, w2);
    lemma_sum_linear(dk, f, g, c);
}

/// A rate of nothing only lets a row decay.
pub proof fn no_rate_only_decays(
    dk: int,
    row: spec_fn(int) -> int,
    key: spec_fn(int) -> int,
    value: int,
    decay: int,
    j: int,
)
    ensures
        delta_rule(dk, row, key, value, decay, 0)(j) == row(j) * decay,
{
    let decayed = |i: int| row(i) * decay;
    let x = value - recalled(dk, decayed, key);
    let y = key(j);
    assert(y * (x * 0) == 0) by (nonlinear_arith);
}

} // verus!
