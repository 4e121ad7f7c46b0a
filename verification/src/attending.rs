//! What an attention that is composed of array operations computes, on exact numbers.

use vstd::prelude::*;

use crate::array::{
    byte_size, contiguous_s, fresh, lemma_roomy, reshape_s, roomy, transpose_s, zeros_tape, ArrayV,
    Outcome,
};
use crate::collapse::{
    collapsed_strides, collapsing_keeps_elements, count, lemma_collapsed_sizes, place,
};
use crate::delta_rule::{lemma_keeps, lemma_ravel2, lemma_ravel3, lemma_stays};
use crate::dense_attention::{
    chainable, heads_of, left_of, matrices_of, packed_matrix, packed_product, paired_products,
    dense_s, masked_s, scores_s, shared_products, stacked_as, values_s, Heads,
};
use crate::device::{
    carried, grid_shape, grows, in_matrix, known, lemma_contiguous_grows, lemma_dense_at,
    lemma_dot_front, lemma_fresh, lemma_grows, lemma_lives, lemma_recorded, lemma_same_sum,
    lemma_start, launched, lives, move_name, move_steps, moves, multiplies, now,
    packing_keeps_elements, ravel, read, recorded, same, short, skips_two, stays, sum_to, touches,
    val, writes_only, History, Memory, Numbers,
};
use crate::dtype::{tag_text, width, Dtype};
use crate::elementwise::{binary_s, scalar_s};
use crate::join::{
    cat_shape, first_at, lemma_narrow_fits, lifted_at, part_fits, part_layouts, part_run,
    part_shape, parts_s, stack_s, Outcomes,
};
use crate::layout::{in_shape, is_void, packed, row_major};
use crate::masking::{
    lemma_masked_grows, lemma_softmax_grows, lowest, masked_scores_do_not_look_ahead, row_through,
    score_in, softmax_weighs_rows, visible,
};
use crate::matmul::{device_class, gemm_params};
use crate::nax::{nax_name, nax_run, nax_s, nax_tile};
use crate::reduce::softmax_last_s;
use crate::tape::{ArgV, CmdV, DispatchV, Scalar, TapeV};
use crate::views::{expanded, narrowed, narrowed_stays_inside, squeezed_stays_inside, swap_perm};
use crate::words::i32_words;

verus! {

// ---- positions of the first axis ----

/// A position of the first axis is the part of the array that lies at it.
pub proof fn a_position_is_picked(a: ArrayV, i: usize, j: Seq<int>)
    requires
        a.wf(),
        !is_void(a.shape()),
        a.rank() > 0,
        i < a.shape()[0],
        j.len() == a.rank() - 1,
    ensures
        first_at(a, i).wf(),
        first_at(a, i).buf == a.buf,
        first_at(a, i).dtype == a.dtype,
        first_at(a, i).shape() == a.shape().skip(1),
        !is_void(first_at(a, i).shape()),
        a.layout.dense() ==> first_at(a, i).layout.dense(),
        short(a.layout) ==> short(first_at(a, i).layout),
        first_at(a, i).layout.at(j) == a.layout.at(seq![i as int] + j),
{
    lemma_narrow_fits(a, 0, i, 1);
    let l = narrowed(a.layout, 0, i, 1);
    let cap = a.bytes as int / width(a.dtype) as int;
    let (o, st, w) = (a.layout.offset as int, a.strides()[0] as int, width(a.dtype) as int);
    assert(o + i * st <= (o + i * st) * w) by (nonlinear_arith)
        requires
            w >= 1,
            o >= 0,
            i >= 0,
            st >= 0,
    ;
    narrowed_stays_inside(a.layout, 0, i, 1, cap);
    squeezed_stays_inside(l, 0, cap);
    let f = first_at(a, i);
    assert(f.shape() =~= a.shape().skip(1));
    assert(f.strides() =~= a.strides().skip(1));
    let js = seq![i as int] + j;
    lemma_dot_front(js, a.strides());
    assert(js.skip(1) =~= j);
    if a.layout.dense() {
        assert forall|k: int| 0 <= k < f.layout.shape.len() implies #[trigger] f.layout.shape[k] == 1
            || f.layout.strides[k] == row_major(f.layout.shape)[k] by {
            assert(a.layout.shape[k + 1] == 1 || a.layout.strides[k + 1] == row_major(
                a.layout.shape,
            )[k + 1]);
            assert(f.layout.shape.skip(k + 1) =~= a.layout.shape.skip(k + 2));
        }
        assert(f.layout.dense());
    }
    if short(a.layout) {
        assert forall|k: int| 0 <= k < f.layout.shape.len() implies #[trigger] f.layout.shape[k]
            <= u32::MAX && f.layout.strides[k] <= u32::MAX by {
            assert(a.layout.shape[k + 1] <= u32::MAX);
        }
        assert(short(f.layout));
    }
}

// ---- products ----

/// The element of a product of two matrices.
pub open spec fn product_at(m: Memory, a: ArrayV, b: ArrayV, inner: int, i: int, j: int) -> int {
    sum_to(inner, |c: int| val(m, a, seq![i, c]) * val(m, b, seq![c, j]))
}

/// A matrix is the product of two.
pub open spec fn is_product(m: Memory, a: ArrayV, b: ArrayV, after: Memory, r: ArrayV) -> bool {
    &&& r.shape() == seq![a.shape()[0], b.shape()[1]]
    &&& forall|i: int, j: int| #[trigger]
        in_matrix(a.shape()[0] as int, b.shape()[1] as int, i, j) ==> val(after, r, seq![i, j])
            == product_at(m, a, b, a.shape()[1] as int, i, j)
}

/// A matrix that a tape knows and a copy can read.
pub open spec fn matrix(t: TapeV, a: ArrayV, rows: usize, columns: usize) -> bool {
    &&& known(t, a)
    &&& a.shape() == seq![rows, columns]
    &&& a.layout.dense() || short(a.layout)
    &&& rows <= i32::MAX
    &&& columns <= i32::MAX
}

pub proof fn lemma_nax_grows(t: TapeV, a: ArrayV, b: ArrayV)
    ensures
        grows(t, nax_s(t, a, b, false, false).0, 1),
{
    assert(t.next < u64::MAX ==> t.next.wrapping_add(1) == t.next + 1);
}

/// The terms of an element of a product.
spec fn product_terms(
    d: DispatchV,
    m: Memory,
    dt: Dtype,
    ta: bool,
    tb: bool,
    head: Seq<i32>,
    i: int,
    j: int,
) -> spec_fn(int) -> int {
    |c: int|
        read(
            m,
            d.args[0].1,
            dt,
            if ta {
                c * head[3] + i
            } else {
                i * head[3] + c
            },
        ) * read(
            m,
            d.args[1].1,
            dt,
            if tb {
                j * head[4] + c
            } else {
                c * head[4] + j
            },
        )
}

proof fn lemma_multiplied(
    d: DispatchV,
    m: Memory,
    after: Memory,
    dt: Dtype,
    ta: bool,
    tb: bool,
    head: Seq<i32>,
    strides: Seq<i64>,
    tail: Seq<i32>,
    i: int,
    j: int,
)
    requires
        multiplies(d, m, after, dt, ta, tb),
        skips_two(d),
        head.len() == 8,
        d.args[3].1 == ArgV::Bytes(gemm_params(head, strides, tail)),
        in_matrix(head[0] as int, head[1] as int, i, j),
    ensures
        read(after, d.args[2].1, dt, i * head[5] + j) == sum_to(
            head[2] as int,
            product_terms(d, m, dt, ta, tb, head, i, j),
        ),
{
    let f = |c: int|
        read(
            m,
            d.args[0].1,
            dt,
            if ta {
                c * head[3] + i
            } else {
                i * head[3] + c
            },
        ) * read(
            m,
            d.args[1].1,
            dt,
            if tb {
                j * head[4] + c
            } else {
                c * head[4] + j
            },
        );
    assert(read(after, d.args[2].1, dt, i * head[5] + j) == sum_to(head[2] as int, f));
    lemma_same_sum(head[2] as int, f, product_terms(d, m, dt, ta, tb, head, i, j));
}

/// The matrix unit multiplies.
#[verifier::rlimit(60)]
pub proof fn matrices_are_multiplied(
    h: History,
    n: Numbers,
    t: TapeV,
    a: ArrayV,
    b: ArrayV,
    r: ArrayV,
)
    requires
        matrix(t, a, a.shape()[0], a.shape()[1]),
        matrix(t, b, a.shape()[1], b.shape()[1]),
        a.layout.dense(),
        b.layout.dense(),
        a.dtype == b.dtype,
        roomy(seq![a.shape()[0], b.shape()[1]]),
        t.next < u64::MAX,
        nax_s(t, a, b, false, false).1 == Outcome::Ok(r),
        lives(h, nax_s(t, a, b, false, false).0, n),
    ensures
        stays(h, t, nax_s(t, a, b, false, false).0),
        known(nax_s(t, a, b, false, false).0, r),
        r.layout == packed(seq![a.shape()[0], b.shape()[1]]),
        r.dtype == a.dtype,
        is_product(now(h, t), a, b, now(h, nax_s(t, a, b, false, false).0), r),
{
    let u = nax_s(t, a, b, false, false).0;
    let (rows, inner, cols) = (a.shape()[0], a.shape()[1], b.shape()[1]);
    let dims = seq![rows, cols];
    let dt = a.dtype;
    let out = fresh(t, dims, dt);
    let device = device_class(t, 's');
    let d = nax_run(a, b, false, false, out, device);
    let bytes = byte_size(dims, dt);
    assert(u == recorded(t, bytes, "gemm_out"@, d));
    lemma_nax_grows(t, a, b);
    lemma_fresh(t, dims, dt);
    assert(d.args.len() == 4);
    assert(writes_only(d, t.next));
    let m = lemma_recorded(h, n, t, bytes, "gemm_out"@, d);
    let (bm, bk, wm) = nax_tile(rows, cols, inner, device);
    assert(multiplies(d, m, now(h, u), dt, false, false)) by {
        reveal(launched);
        assert(d.program.name == nax_name(false, false, tag_text(dt), bm, bk, wm));
    }
    assert(skips_two(d));
    lemma_start(a);
    lemma_start(b);
    assert(0int / width(dt) as int == 0);
    let tn = crate::tape::ceil_div(cols as int, 128);
    let tm = crate::tape::ceil_div(rows as int, bm as int);
    let sw = crate::nax::swizzle(device, tm);
    let head = seq![
        rows as i32,
        cols as i32,
        inner as i32,
        inner as i32,
        cols as i32,
        cols as i32,
        tn as usize as i32,
        tm as usize as i32,
    ];
    let strides = seq![0i64, 0i64, 0i64];
    let tail = seq![sw as i32, (inner / bk) as usize as i32, 0i32];
    assert(d.args[3].1 == ArgV::Bytes(gemm_params(head, strides, tail)));
    assert(d.args[0].1 == ArgV::Input(a.buf, a.start()));
    assert(d.args[1].1 == ArgV::Input(b.buf, b.start()));
    assert(d.args[2].1 == ArgV::Output(out.buf, 0));
    assert(head[0] == rows && head[1] == cols && head[2] == inner && head[3] == inner && head[4]
        == cols && head[5] == cols);
    assert forall|i: int, j: int| #[trigger] in_matrix(rows as int, cols as int, i, j) implies val(
        now(h, u),
        r,
        seq![i, j],
    ) == product_at(now(h, t), a, b, inner as int, i, j) by {
        assert(in_matrix(head[0] as int, head[1] as int, i, j));
        let f = |c: int|
            read(m, d.args[0].1, dt, i * inner + c) * read(m, d.args[1].1, dt, c * cols + j);
        let g = |c: int| val(now(h, t), a, seq![i, c]) * val(now(h, t), b, seq![c, j]);
        let f0 = product_terms(d, m, dt, false, false, head, i, j);
        lemma_multiplied(d, m, now(h, u), dt, false, false, head, strides, tail, i, j);
        lemma_same_sum(inner as int, f0, f);
        assert forall|c: int| 0 <= c < inner implies #[trigger] f(c) == g(c) by {
            assert(in_shape(seq![i, c], a.shape()));
            assert(in_shape(seq![c, j], b.shape()));
            lemma_dense_at(a.layout, seq![i, c]);
            lemma_dense_at(b.layout, seq![c, j]);
            lemma_ravel2(rows, inner, i, c);
            lemma_ravel2(inner, cols, c, j);
            let p = a.layout.offset + (i * inner + c);
            let q = b.layout.offset + (c * cols + j);
            assert(m(a.buf, dt, p) == now(h, t)(a.buf, dt, p));
            assert(m(b.buf, dt, q) == now(h, t)(b.buf, dt, q));
        }
        lemma_same_sum(inner as int, f, g);
        assert(in_shape(seq![i, j], dims));
        lemma_ravel2(rows, cols, i, j);
        assert(out.layout.at(seq![i, j]) == ravel(dims, seq![i, j]));
    }
}

pub proof fn lemma_packed_product_grows(t: TapeV, left: ArrayV, right: ArrayV)
    ensures
        grows(t, packed_product(t, left, right).0, 2),
{
    reveal(packed_product);
    let (t1, o1) = contiguous_s(t, left);
    lemma_contiguous_grows(t, left);
    if o1 is Ok {
        lemma_nax_grows(t1, o1->Ok_0, right);
        lemma_grows(t, t1, packed_product(t, left, right).0, 1, 1);
    }
}

#[verifier::rlimit(40)]
proof fn lemma_packed_product(
    h: History,
    n: Numbers,
    t: TapeV,
    left: ArrayV,
    right: ArrayV,
    r: ArrayV,
)
    requires
        matrix(t, left, left.shape()[0], left.shape()[1]),
        matrix(t, right, left.shape()[1], right.shape()[1]),
        right.layout.dense(),
        left.dtype == right.dtype,
        roomy(seq![left.shape()[0], right.shape()[1]]),
        t.next + 2 <= u64::MAX,
        packed_product(t, left, right).1 == Outcome::Ok(r),
        lives(h, packed_product(t, left, right).0, n),
    ensures
        stays(h, t, packed_product(t, left, right).0),
        known(packed_product(t, left, right).0, r),
        r.layout == packed(seq![left.shape()[0], right.shape()[1]]),
        r.dtype == left.dtype,
        is_product(now(h, t), left, right, now(h, packed_product(t, left, right).0), r),
{
    reveal(packed_product);
    let u = packed_product(t, left, right).0;
    let (t1, o1) = contiguous_s(t, left);
    let x = o1->Ok_0;
    lemma_contiguous_grows(t, left);
    lemma_nax_grows(t1, x, right);
    lemma_lives(h, n, t1, u, 1);
    packing_keeps_elements(h, n, t, left, x);
    matrices_are_multiplied(h, n, t1, x, right, r);
    lemma_stays(h, t, t1, u);
    lemma_product_moves(h, t, t1, u, left, x, right, r);
}

proof fn lemma_product_moves(
    h: History,
    t: TapeV,
    t1: TapeV,
    u: TapeV,
    left: ArrayV,
    x: ArrayV,
    right: ArrayV,
    r: ArrayV,
)
    requires
        left.shape() == seq![left.shape()[0], left.shape()[1]],
        right.shape() == seq![left.shape()[1], right.shape()[1]],
        same(now(h, t), left, now(h, t1), x),
        stays(h, t, t1),
        right.buf < t.next,
        is_product(now(h, t1), x, right, now(h, u), r),
    ensures
        is_product(now(h, t), left, right, now(h, u), r),
{
    lemma_keeps(h, t, t1, right);
    let inner = left.shape()[1] as int;
    assert forall|i: int, j: int| #[trigger]
        in_matrix(left.shape()[0] as int, right.shape()[1] as int, i, j) implies val(
        now(h, u),
        r,
        seq![i, j],
    ) == product_at(now(h, t), left, right, inner, i, j) by {
        assert(in_matrix(x.shape()[0] as int, right.shape()[1] as int, i, j));
        let f = |c: int| val(now(h, t1), x, seq![i, c]) * val(now(h, t1), right, seq![c, j]);
        let g = |c: int| val(now(h, t), left, seq![i, c]) * val(now(h, t), right, seq![c, j]);
        assert forall|c: int| 0 <= c < inner implies #[trigger] f(c) == g(c) by {
            assert(in_shape(seq![i, c], left.shape()));
        }
        lemma_same_sum(inner, f, g);
    }
}

// ---- products of many matrices ----

/// A packed product that a tape knows.
pub open spec fn made(
    h: History,
    t: TapeV,
    u: TapeV,
    y: ArrayV,
    l: ArrayV,
    r: ArrayV,
    rows: usize,
    columns: usize,
) -> bool {
    &&& known(u, y)
    &&& y.layout == packed(seq![rows, columns])
    &&& y.dtype == l.dtype
    &&& is_product(now(h, t), l, r, now(h, u), y)
}

proof fn lemma_made_stays(
    h: History,
    t: TapeV,
    u: TapeV,
    w: TapeV,
    y: ArrayV,
    l: ArrayV,
    r: ArrayV,
    rows: usize,
    columns: usize,
)
    requires
        made(h, t, u, y, l, r, rows, columns),
        stays(h, u, w),
        u.next <= w.next,
    ensures
        made(h, t, w, y, l, r, rows, columns),
{
    lemma_keeps(h, u, w, y);
}

/// A product of what was there before is the product of the same.
proof fn lemma_rebase(
    h: History,
    t: TapeV,
    t2: TapeV,
    u: TapeV,
    l: ArrayV,
    b: ArrayV,
    r: ArrayV,
    y: ArrayV,
    rows: usize,
    inner: usize,
    columns: usize,
)
    requires
        l.shape() == seq![rows, inner],
        b.shape() == seq![inner, columns],
        stays(h, t, t2),
        l.buf < t.next,
        same(now(h, t), b, now(h, t2), r),
        is_product(now(h, t2), l, r, now(h, u), y),
    ensures
        is_product(now(h, t), l, b, now(h, u), y),
{
    lemma_keeps(h, t, t2, l);
    assert forall|i: int, j: int| #[trigger]
        in_matrix(l.shape()[0] as int, b.shape()[1] as int, i, j) implies val(
        now(h, u),
        y,
        seq![i, j],
    ) == product_at(now(h, t), l, b, inner as int, i, j) by {
        assert(in_matrix(l.shape()[0] as int, r.shape()[1] as int, i, j));
        let f = |c: int| val(now(h, t2), l, seq![i, c]) * val(now(h, t2), r, seq![c, j]);
        let g = |c: int| val(now(h, t), l, seq![i, c]) * val(now(h, t), b, seq![c, j]);
        assert forall|c: int| 0 <= c < inner implies #[trigger] f(c) == g(c) by {
            assert(in_shape(seq![c, j], b.shape()));
        }
        lemma_same_sum(inner as int, f, g);
    }
}

/// The left matrices of a pair of batch and head.
pub open spec fn lefts(
    t: TapeV,
    queries: bool,
    a: ArrayV,
    r: int,
    bi: int,
    hi: int,
    rows: usize,
    inner: usize,
) -> bool {
    forall|ri: int|
        0 <= ri < r ==> matrix(t, #[trigger] left_of(queries, a, r, bi, hi, ri), rows, inner)
            && left_of(queries, a, r, bi, hi, ri).dtype == a.dtype
}

proof fn lemma_shared_grows(
    t: TapeV,
    queries: bool,
    a: ArrayV,
    right: ArrayV,
    r: int,
    bi: int,
    hi: int,
    k: int,
)
    requires
        k >= 0,
    ensures
        grows(t, shared_products(t, queries, a, right, r, bi, hi, k).0, 2 * k),
    decreases k,
{
    if k > 0 {
        lemma_shared_grows(t, queries, a, right, r, bi, hi, k - 1);
        let (t1, o1) = shared_products(t, queries, a, right, r, bi, hi, k - 1);
        if o1 is Ok {
            let l = left_of(queries, a, r, bi, hi, k - 1);
            lemma_packed_product_grows(t1, l, right);
            lemma_grows(t, t1, packed_product(t1, l, right).0, 2 * (k - 1), 2);
        }
    }
}

#[verifier::rlimit(40)]
proof fn lemma_shared(
    h: History,
    n: Numbers,
    t: TapeV,
    queries: bool,
    a: ArrayV,
    right: ArrayV,
    r: int,
    bi: int,
    hi: int,
    k: int,
    rows: usize,
    inner: usize,
    columns: usize,
    ys: Seq<ArrayV>,
)
    requires
        0 <= k <= r,
        lefts(t, queries, a, r, bi, hi, rows, inner),
        matrix(t, right, inner, columns),
        right.layout.dense(),
        right.dtype == a.dtype,
        roomy(seq![rows, columns]),
        t.next + 2 * k <= u64::MAX,
        shared_products(t, queries, a, right, r, bi, hi, k).1 == Outcomes::Ok(ys),
        lives(h, shared_products(t, queries, a, right, r, bi, hi, k).0, n),
    ensures
        ys.len() == k,
        stays(h, t, shared_products(t, queries, a, right, r, bi, hi, k).0),
        forall|ri: int|
            0 <= ri < k ==> made(
                h,
                t,
                shared_products(t, queries, a, right, r, bi, hi, k).0,
                #[trigger] ys[ri],
                left_of(queries, a, r, bi, hi, ri),
                right,
                rows,
                columns,
            ),
    decreases k,
{
    let u = shared_products(t, queries, a, right, r, bi, hi, k).0;
    if k > 0 {
        let (t1, o1) = shared_products(t, queries, a, right, r, bi, hi, k - 1);
        let before = o1->Ok_0;
        let l = left_of(queries, a, r, bi, hi, k - 1);
        lemma_shared_grows(t, queries, a, right, r, bi, hi, k - 1);
        lemma_packed_product_grows(t1, l, right);
        let y = packed_product(t1, l, right).1->Ok_0;
        assert(u == packed_product(t1, l, right).0);
        assert(ys == before.push(y));
        lemma_lives(h, n, t1, u, 2);
        lemma_shared(h, n, t, queries, a, right, r, bi, hi, k - 1, rows, inner, columns, before);
        assert(matrix(t, l, rows, inner));
        lemma_packed_product(h, n, t1, l, right, y);
        lemma_stays(h, t, t1, u);
        assert(same(now(h, t), right, now(h, t1), right)) by {
            lemma_keeps(h, t, t1, right);
        }
        lemma_rebase(h, t, t1, u, l, right, right, y, rows, inner, columns);
        assert forall|ri: int| 0 <= ri < k implies made(
            h,
            t,
            u,
            #[trigger] ys[ri],
            left_of(queries, a, r, bi, hi, ri),
            right,
            rows,
            columns,
        ) by {
            if ri < k - 1 {
                assert(ys[ri] == before[ri]);
                lemma_made_stays(
                    h,
                    t,
                    t1,
                    u,
                    before[ri],
                    left_of(queries, a, r, bi, hi, ri),
                    right,
                    rows,
                    columns,
                );
            }
        }
    }
}

/// The right matrix of a pair of batch and head.
pub open spec fn right_of(b: ArrayV, bi: int, hi: int) -> ArrayV {
    first_at(first_at(b, bi as usize), hi as usize)
}

/// The matrices of the first pairs of batch and head.
pub open spec fn pairs(
    t: TapeV,
    queries: bool,
    a: ArrayV,
    b: ArrayV,
    hk: int,
    r: int,
    p: int,
    rows: usize,
    inner: usize,
    columns: usize,
) -> bool {
    forall|q: int|
        0 <= q < p ==> lefts(t, queries, a, r, q / hk, #[trigger] (q % hk), rows, inner) && matrix(
            t,
            right_of(b, q / hk, q % hk),
            inner,
            columns,
        ) && right_of(b, q / hk, q % hk).dtype == a.dtype
}

pub proof fn lemma_paired_grows(
    t: TapeV,
    queries: bool,
    a: ArrayV,
    b: ArrayV,
    hk: int,
    r: int,
    p: int,
)
    requires
        p >= 0,
        r >= 0,
    ensures
        grows(t, paired_products(t, queries, a, b, hk, r, p).0, p * (2 * r + 1)),
    decreases p,
{
    assert(0 * (2 * r + 1) == 0) by (nonlinear_arith);
    if p > 0 {
        lemma_paired_grows(t, queries, a, b, hk, r, p - 1);
        let (bi, hi) = ((p - 1) / hk, (p - 1) % hk);
        let (t1, o1) = paired_products(t, queries, a, b, hk, r, p - 1);
        let g = (p - 1) * (2 * r + 1);
        assert(p * (2 * r + 1) == g + (2 * r + 1) && g >= 0) by (nonlinear_arith)
            requires
                g == (p - 1) * (2 * r + 1),
                p >= 1,
                r >= 0,
        ;
        if o1 is Ok {
            reveal(packed_matrix);
            let (t2, o2) = packed_matrix(t1, b, bi, hi);
            lemma_contiguous_grows(t1, right_of(b, bi, hi));
            lemma_grows(t, t1, t2, g, 1);
            if o2 is Ok {
                lemma_shared_grows(t2, queries, a, o2->Ok_0, r, bi, hi, r);
                let t3 = shared_products(t2, queries, a, o2->Ok_0, r, bi, hi, r).0;
                lemma_grows(t, t2, t3, g + 1, 2 * r);
            }
        }
    }
}

/// The products of the first pairs of batch and head, one for each query head that
/// shares a head of keys.
#[verifier::rlimit(60)]
pub proof fn every_pair_is_multiplied(
    h: History,
    n: Numbers,
    t: TapeV,
    queries: bool,
    a: ArrayV,
    b: ArrayV,
    hk: int,
    r: int,
    p: int,
    rows: usize,
    inner: usize,
    columns: usize,
    ys: Seq<ArrayV>,
)
    requires
        p >= 0,
        r >= 0,
        pairs(t, queries, a, b, hk, r, p, rows, inner, columns),
        roomy(seq![rows, columns]),
        t.next + p * (2 * r + 1) <= u64::MAX,
        paired_products(t, queries, a, b, hk, r, p).1 == Outcomes::Ok(ys),
        lives(h, paired_products(t, queries, a, b, hk, r, p).0, n),
    ensures
        ys.len() == p * r,
        stays(h, t, paired_products(t, queries, a, b, hk, r, p).0),
        forall|q: int, ri: int| #[trigger]
            in_matrix(p, r, q, ri) ==> 0 <= q * r + ri < ys.len() && made(
                h,
                t,
                paired_products(t, queries, a, b, hk, r, p).0,
                ys[q * r + ri],
                left_of(queries, a, r, q / hk, q % hk, ri),
                right_of(b, q / hk, q % hk),
                rows,
                columns,
            ),
    decreases p,
{
    let u = paired_products(t, queries, a, b, hk, r, p).0;
    if p > 0 {
        let (bi, hi) = ((p - 1) / hk, (p - 1) % hk);
        let (t1, o1) = paired_products(t, queries, a, b, hk, r, p - 1);
        let before = o1->Ok_0;
        let (t2, o2) = packed_matrix(t1, b, bi, hi);
        let right = o2->Ok_0;
        let (t3, o3) = shared_products(t2, queries, a, right, r, bi, hi, r);
        let more = o3->Ok_0;
        assert(u == t3 && ys == before + more);
        let g = (p - 1) * (2 * r + 1);
        assert(p * (2 * r + 1) == g + (2 * r + 1) && g >= 0) by (nonlinear_arith)
            requires
                g == (p - 1) * (2 * r + 1),
                p >= 1,
                r >= 0,
        ;
        assert((p - 1) * r + r == p * r && (p - 1) * r >= 0) by (nonlinear_arith)
            requires
                p >= 1,
                r >= 0,
        ;
        lemma_paired_grows(t, queries, a, b, hk, r, p - 1);
        let bm = right_of(b, bi, hi);
        reveal(packed_matrix);
        assert(packed_matrix(t1, b, bi, hi) == contiguous_s(t1, bm));
        lemma_contiguous_grows(t1, bm);
        lemma_shared_grows(t2, queries, a, right, r, bi, hi, r);
        lemma_grows(t1, t2, u, 1, 2 * r);
        lemma_lives(h, n, t1, u, 2 * r + 1);
        lemma_lives(h, n, t2, u, 2 * r);
        assert(pairs(t, queries, a, b, hk, r, p - 1, rows, inner, columns));
        every_pair_is_multiplied(
            h,
            n,
            t,
            queries,
            a,
            b,
            hk,
            r,
            p - 1,
            rows,
            inner,
            columns,
            before,
        );
        assert(lefts(t, queries, a, r, bi, hi, rows, inner) && matrix(t, bm, inner, columns)) by {
            assert((p - 1) % hk == hi);
        }
        packing_keeps_elements(h, n, t1, bm, right);
        lemma_stays(h, t, t1, t2);
        assert(lefts(t2, queries, a, r, bi, hi, rows, inner)) by {
            assert forall|ri: int| 0 <= ri < r implies matrix(
                t2,
                #[trigger] left_of(queries, a, r, bi, hi, ri),
                rows,
                inner,
            ) && left_of(queries, a, r, bi, hi, ri).dtype == a.dtype by {
                assert(matrix(t, left_of(queries, a, r, bi, hi, ri), rows, inner));
            }
        }
        lemma_shared(h, n, t2, queries, a, right, r, bi, hi, r, rows, inner, columns, more);
        lemma_stays(h, t, t2, u);
        lemma_stays(h, t1, t2, u);
        assert(same(now(h, t), bm, now(h, t2), right)) by {
            lemma_keeps(h, t, t1, bm);
            assert forall|idx: Seq<int>| #[trigger] in_shape(idx, bm.shape()) implies val(
                now(h, t2),
                right,
                idx,
            ) == val(now(h, t), bm, idx) by {
                assert(val(now(h, t1), bm, idx) == val(now(h, t), bm, idx));
            }
        }
        assert forall|q: int, ri: int| #[trigger] in_matrix(p, r, q, ri) implies 0 <= q * r + ri
            < ys.len() && made(
            h,
            t,
            u,
            ys[q * r + ri],
            left_of(queries, a, r, q / hk, q % hk, ri),
            right_of(b, q / hk, q % hk),
            rows,
            columns,
        ) by {
            let l = left_of(queries, a, r, q / hk, q % hk, ri);
            let x = right_of(b, q / hk, q % hk);
            if q < p - 1 {
                assert(in_matrix(p - 1, r, q, ri));
                assert(ys[q * r + ri] == before[q * r + ri]);
                lemma_made_stays(h, t, t1, u, before[q * r + ri], l, x, rows, columns);
            } else {
                assert(q == p - 1);
                assert(ys[q * r + ri] == more[ri]);
                assert(matrix(t, l, rows, inner));
                lemma_rebase(h, t, t2, u, l, x, right, more[ri], rows, inner, columns);
            }
        }
    } else {
        assert(0 * r == 0) by (nonlinear_arith);
    }
}

// ---- stacks of matrices ----

proof fn lemma_counts(s: Seq<i32>)
    requires
        1 <= s.len() <= 3,
    ensures
        s.len() == 1 ==> count(s) == s[0],
        s.len() == 2 ==> count(s) == s[0] * s[1],
        s.len() == 3 ==> count(s) == s[0] * s[1] * s[2],
{
    reveal_with_fuel(count, 4);
    let a = s.drop_last();
    if s.len() == 1 {
        assert(a =~= Seq::<i32>::empty());
        assert(1 * s[0] == s[0]) by (nonlinear_arith);
    } else {
        let b = a.drop_last();
        if s.len() == 2 {
            assert(b =~= Seq::<i32>::empty());
            assert(1 * s[0] == s[0]) by (nonlinear_arith);
        } else {
            let c = b.drop_last();
            assert(c =~= Seq::<i32>::empty());
            assert(1 * s[0] == s[0]) by (nonlinear_arith);
        }
    }
}

/// The places of a packed matrix under a leading axis of size one.
proof fn lemma_place(s0: i64, rows: i32, columns: i32, k: int)
    requires
        rows > 0,
        columns > 0,
        0 <= k < rows * columns,
    ensures
        count(seq![1i32, rows, columns]) == rows * columns,
        place(seq![1i32, rows, columns], seq![s0, columns as i64, 1i64], k) == k,
{
    let s = seq![1i32, rows, columns];
    let st = seq![s0, columns as i64, 1i64];
    lemma_counts(s);
    assert(1 * rows == rows) by (nonlinear_arith);
    assert(s.drop_last() =~= seq![1i32, rows]);
    assert(st.drop_last() =~= seq![s0, columns as i64]);
    assert(seq![1i32, rows].drop_last() =~= seq![1i32]);
    assert(seq![s0, columns as i64].drop_last() =~= seq![s0]);
    assert(seq![1i32].drop_last() =~= Seq::<i32>::empty());
    let q = k / (columns as int);
    let e = k % (columns as int);
    assert(0 <= q < rows && k == q * columns + e) by (nonlinear_arith)
        requires
            0 <= k < rows * columns,
            columns > 0,
            q == k / (columns as int),
            e == k % (columns as int),
    ;
    assert(q / (rows as int) == 0 && q % (rows as int) == q) by (nonlinear_arith)
        requires
            0 <= q < rows,
    ;
    reveal_with_fuel(place, 4);
    assert(place(seq![1i32], seq![s0], 0) == 0) by {
        assert(0int % 1int == 0);
        assert(0 * (s0 as int) == 0) by (nonlinear_arith);
    }
    assert(place(seq![1i32, rows], seq![s0, columns as i64], q) == q * columns);
    assert(place(s, st, k) == place(s.drop_last(), st.drop_last(), q) + e * 1);
}

proof fn lemma_unmoved(
    d: DispatchV,
    m: Memory,
    after: Memory,
    n: nat,
    dt: Dtype,
    s: Seq<i32>,
    to: Seq<i64>,
    start: int,
    p: int,
)
    requires
        moves(d, m, after, n, dt),
        skips_two(d),
        1 <= n <= 3,
        d.grid is Threads,
        d.args[1].1 is Output,
        s == grid_shape(n, d.grid->Threads_0),
        to == move_steps(d.args[3].1),
        start == d.args[1].1->Output_1 as int / width(dt) as int,
        forall|e: int| 0 <= e < count(s) ==> p != start + #[trigger] place(s, to, e),
    ensures
        after(d.args[1].1->Output_0, dt, p) == m(d.args[1].1->Output_0, dt, p),
{
    let b = d.args[1].1->Output_0;
    assert((forall|k: int| 0 <= k < count(s) ==> p != start + #[trigger] place(s, to, k))
        ==> after(b, dt, p) == m(b, dt, p));
}

/// A part of a stack fills its own place and leaves the others.
#[verifier::rlimit(60)]
proof fn lemma_part(
    t: TapeV,
    m: Memory,
    after: Memory,
    n: Numbers,
    a: ArrayV,
    total: usize,
    rows: usize,
    columns: usize,
    at: int,
)
    requires
        a.wf(),
        a.layout == packed(seq![rows, columns]),
        roomy(seq![total, rows, columns]),
        0 < rows <= i32::MAX,
        0 < columns <= i32::MAX,
        0 <= at < total,
        part_fits(
            a.under(expanded(a.layout, 0)),
            seq![total, rows, columns],
        ),
        1 <= part_shape(
            a.under(expanded(a.layout, 0)),
            fresh(t, seq![total, rows, columns], a.dtype),
        ).len() <= 3,
        launched(
            part_run(
                a.under(expanded(a.layout, 0)),
                fresh(t, seq![total, rows, columns], a.dtype),
                0,
                at,
            ),
            m,
            after,
            n,
        ),
    ensures
        forall|e: int|
            #![trigger m(a.buf, a.dtype, e)]
            0 <= e < rows * columns ==> after(t.next, a.dtype, at * (rows * columns) + e) == m(
                a.buf,
                a.dtype,
                e,
            ),
        forall|p: int|
            !(at * (rows * columns) <= p < at * (rows * columns) + rows * columns)
                ==> #[trigger] after(t.next, a.dtype, p) == m(t.next, a.dtype, p),
{
    let whole = seq![total, rows, columns];
    let dt = a.dtype;
    let x = a.under(expanded(a.layout, 0));
    let out = fresh(t, whole, dt);
    let d = part_run(x, out, 0, at);
    lemma_roomy(whole, dt);
    crate::dense_attention::lemma_three_strides(total, rows, columns);
    assert(packed(seq![rows, columns]).strides =~= seq![columns, 1usize]);
    assert(x.shape() =~= seq![1usize, rows, columns]);
    assert(x.strides() =~= seq![0usize, columns, 1usize]);
    let sh = i32_words(x.shape());
    let st = part_layouts(x, out);
    let mn = rows * columns;
    assert(sh =~= seq![1i32, rows as i32, columns as i32]);
    assert(st[0] =~= seq![0i64, columns as i64, 1i64]);
    assert(st[1] =~= seq![mn as usize as i64, columns as i64, 1i64]);
    let s = part_shape(x, out);
    let s0 = collapsed_strides(sh, st, 0x7fff_ffff, 0);
    let s1 = collapsed_strides(sh, st, 0x7fff_ffff, 1);
    assert(mn > 0) by (nonlinear_arith)
        requires
            mn == rows * columns,
            rows > 0,
            columns > 0,
    ;
    lemma_place(0, rows as i32, columns as i32, 0);
    collapsing_keeps_elements(sh, st, 0x7fff_ffff, 0, 0);
    lemma_collapsed_sizes(sh, st, 0x7fff_ffff);
    lemma_counts(s);
    assert(count(s) == mn);
    let k = s.len();
    assert forall|g: int| 0 <= g < k implies #[trigger] s[g] > 0 by {
        assert(s[g] >= 0);
        if s[g] == 0 {
            assert(count(s) == 0) by {
                let (p0, p1, p2) = (s[0] as int, s[1] as int, s[2] as int);
                if k == 2 {
                    assert(p0 * p1 == 0) by (nonlinear_arith)
                        requires
                            p0 == 0 || p1 == 0,
                    ;
                } else if k == 3 {
                    assert(p0 * p1 * p2 == 0) by (nonlinear_arith)
                        requires
                            p0 == 0 || p1 == 0 || p2 == 0,
                    ;
                }
            }
        }
    }
    let g = d.grid->Threads_0;
    assert(grid_shape(k, g) =~= s) by {
        assert(s[0] > 0);
        if k == 1 {
            assert(g.x == s[0]);
        } else if k == 2 {
            assert(s[1] > 0);
            assert(g.x == s[1] && g.y == s[0]);
        } else {
            assert(s[1] > 0 && s[2] > 0);
            let (p0, p1, p2) = (s[0] as int, s[1] as int, s[2] as int);
            assert(p2 * p1 > 0 && (p0 * p1 * p2) / (p2 * p1) == p0) by (nonlinear_arith)
                requires
                    p0 > 0,
                    p1 > 0,
                    p2 > 0,
            ;
            assert(g.x == s[2] && g.y == s[1] && g.z == s[0]);
        }
    }
    assert(skips_two(d));
    assert(move_steps(d.args[2].1) =~= s0) by {
        assert(s0.len() == k);
    }
    assert(move_steps(d.args[3].1) =~= s1) by {
        assert(s1.len() == k);
    }
    assert(moves(d, m, after, k, dt)) by {
        reveal(launched);
        assert(d.program.name == move_name(k, dt));
    }
    let w = width(dt) as int;
    assert(out.strides()[0] == mn);
    let start = at * mn;
    assert(0 <= start && start * w <= usize::MAX) by {
        crate::delta_rule::lemma_numel3(total, rows, columns);
        assert(total * rows * columns == total * mn) by (nonlinear_arith)
            requires
                mn == rows * columns,
        ;
        assert(0 <= start && start * w <= (total * mn) * w) by (nonlinear_arith)
            requires
                start == at * mn,
                0 <= at < total,
                mn > 0,
                w > 0,
        ;
    }
    assert(d.args[1].1 == ArgV::Output(out.buf, (start * w) as usize));
    assert((start * w) / w == start) by (nonlinear_arith)
        requires
            w > 0,
    ;
    lemma_start(x);
    assert(d.args[0].1 == ArgV::Input(a.buf, x.start()));
    assert(x.layout.offset == 0);
    assert forall|e: int|
        0 <= e < mn implies #[trigger] place(s, s1, e) == e && place(s, s0, e) == e by {
        collapsing_keeps_elements(sh, st, 0x7fff_ffff, 0, e);
        collapsing_keeps_elements(sh, st, 0x7fff_ffff, 1, e);
        lemma_place(0, rows as i32, columns as i32, e);
        lemma_place(mn as usize as i64, rows as i32, columns as i32, e);
    }
    assert forall|e: int|
        #![trigger m(a.buf, a.dtype, e)]
        0 <= e < rows * columns implies after(t.next, dt, at * (rows * columns) + e) == m(
        a.buf,
        dt,
        e,
    ) by {
        assert(place(s, s1, e) == e);
        assert(after(t.next, dt, start + place(s, s1, e)) == read(
            m,
            d.args[0].1,
            dt,
            place(s, s0, e),
        ));
    }
    assert forall|p: int| !(start <= p < start + mn) implies #[trigger] after(t.next, dt, p) == m(
        t.next,
        dt,
        p,
    ) by {
        assert forall|e: int| 0 <= e < count(s) implies p != start + #[trigger] place(s, s1, e) by {
            assert(place(s, s1, e) == e);
        }
        lemma_unmoved(d, m, after, k, dt, s, s1, start, p);
    }
}

/// Matrices of one size that a tape knows.
pub open spec fn pile(t: TapeV, v: Seq<ArrayV>, rows: usize, columns: usize, dt: Dtype) -> bool {
    &&& matrices_of(v, rows, columns, dt)
    &&& forall|i: int| 0 <= i < v.len() ==> known(t, #[trigger] v[i])
    &&& 0 < v.len() <= usize::MAX
    &&& roomy(seq![v.len() as usize, rows, columns])
    &&& 0 < rows <= i32::MAX
    &&& 0 < columns <= i32::MAX
}

#[verifier::rlimit(60)]
proof fn lemma_parts(
    h: History,
    n: Numbers,
    t: TapeV,
    v: Seq<ArrayV>,
    rows: usize,
    columns: usize,
    dt: Dtype,
    k: int,
)
    requires
        pile(t, v, rows, columns, dt),
        0 <= k <= v.len(),
        parts_s(
            zeros_tape(t, seq![v.len() as usize, rows, columns], dt),
            lifted_at(v, 0),
            fresh(t, seq![v.len() as usize, rows, columns], dt),
            0,
            k,
        ).1 is Ok,
        lives(
            h,
            parts_s(
                zeros_tape(t, seq![v.len() as usize, rows, columns], dt),
                lifted_at(v, 0),
                fresh(t, seq![v.len() as usize, rows, columns], dt),
                0,
                k,
            ).0,
            n,
        ),
    ensures
        ({
            let t0 = zeros_tape(t, seq![v.len() as usize, rows, columns], dt);
            let out = fresh(t, seq![v.len() as usize, rows, columns], dt);
            let u = parts_s(t0, lifted_at(v, 0), out, 0, k).0;
            let mn = rows * columns;
            &&& u.next == t0.next
            &&& grows(t0, u, 0)
            &&& forall|b: u64, ty: Dtype, i: int|
                b != t.next ==> #[trigger] now(h, u)(b, ty, i) == now(h, t0)(b, ty, i)
            &&& forall|g: int, e: int| #[trigger]
                in_matrix(k, mn, g, e) ==> now(h, u)(t.next, dt, g * mn + e) == now(h, t0)(
                    v[g].buf,
                    dt,
                    e,
                )
        }),
    decreases k,
{
    let total = v.len() as usize;
    let whole = seq![total, rows, columns];
    let t0 = zeros_tape(t, whole, dt);
    let out = fresh(t, whole, dt);
    let w = lifted_at(v, 0);
    let u = parts_s(t0, w, out, 0, k).0;
    let mn = rows * columns;
    if k > 0 {
        let t1 = parts_s(t0, w, out, 0, k - 1).0;
        let a = v[k - 1];
        let x = w[k - 1];
        assert(known(t, a));
        crate::dense_attention::lemma_stackable(v, rows, columns, dt);
        assert(cat_shape(w, 0) == whole);
        assert forall|i: int| 0 <= i < w.len() implies (#[trigger] w[i]).shape()[0] == 1 by {}
        crate::dense_attention::lemma_unit_total(w.take(k - 1));
        let d = part_run(x, out, 0, k - 1);
        assert(u == t1.then_do(CmdV::Launch(d)));
        assert(lives(h, t1, n)) by {
            assert forall|i: int| 0 <= i < t1.cmds.len() implies carried(
                #[trigger] t1.cmds[i],
                h(i),
                h(i + 1),
                n,
            ) by {
                assert(u.cmds[i] == t1.cmds[i]);
            }
        }
        lemma_parts(h, n, t, v, rows, columns, dt, k - 1);
        let c = u.cmds[t1.cmds.len() as int];
        assert(c == CmdV::Launch(d));
        let (m, after) = (now(h, t1), now(h, u));
        assert(carried(c, m, after, n));
        lemma_stack_fits(v, rows, columns, dt, k - 1);
        lemma_part(t, m, after, n, a, total, rows, columns, k - 1);
        assert forall|b: u64, ty: Dtype, i: int| b != t.next implies #[trigger] now(h, u)(b, ty, i)
            == now(h, t0)(b, ty, i) by {
            assert(writes_only(d, t.next));
            assert(!touches(c, b));
            assert(after(b, ty, i) == m(b, ty, i));
            assert(now(h, t1)(b, ty, i) == now(h, t0)(b, ty, i));
        }
        assert forall|g: int, e: int| #[trigger] in_matrix(k, mn, g, e) implies now(h, u)(
            t.next,
            dt,
            g * mn + e,
        ) == now(h, t0)(v[g].buf, dt, e) by {
            if g == k - 1 {
                assert(m(a.buf, dt, e) == now(h, t0)(a.buf, dt, e));
            } else {
                assert(in_matrix(k - 1, mn, g, e));
                assert(g * mn + e < (k - 1) * mn) by (nonlinear_arith)
                    requires
                        g <= k - 2,
                        0 <= e < mn,
                ;
                assert(after(t.next, dt, g * mn + e) == m(t.next, dt, g * mn + e));
            }
        }
    }
}

/// A part of a stack can be collapsed.
proof fn lemma_stack_fits(v: Seq<ArrayV>, rows: usize, columns: usize, dt: Dtype, i: int)
    requires
        matrices_of(v, rows, columns, dt),
        0 <= i < v.len() <= usize::MAX,
        roomy(seq![v.len() as usize, rows, columns]),
        rows <= i32::MAX,
        columns <= i32::MAX,
    ensures
        part_fits(
            v[i].under(expanded(v[i].layout, 0)),
            seq![v.len() as usize, rows, columns],
        ),
{
    crate::dense_attention::lemma_stackable(v, rows, columns, dt);
    let w = lifted_at(v, 0);
    assert forall|k: int| 0 <= k < w.len() implies (#[trigger] w[k]).shape() == w[0].shape()
        && w[k].dtype == w[0].dtype by {
        assert(v[k].wf() && v[0].wf());
    }
    crate::dense_attention::lemma_no_stack_fault(w, w.len() as int);
    assert(v[0].wf());
    assert(w[0].rank() == 3);
    assert(part_fits(w[i], cat_shape(w, 0)));
}

pub proof fn lemma_stack_grows(t: TapeV, v: Seq<ArrayV>)
    ensures
        grows(t, stack_s(t, v, 0).0, 1),
{
    let w = lifted_at(v, 0);
    assert(t.next < u64::MAX ==> t.next.wrapping_add(1) == t.next + 1);
    if v.len() > 0 {
        let shape = cat_shape(w, 0);
        let out = fresh(t, shape, w[0].dtype);
        let t0 = zeros_tape(t, shape, w[0].dtype);
        lemma_parts_grow(t0, w, out, w.len() as int);
        lemma_grows(t, t0, parts_s(t0, w, out, 0, w.len() as int).0, 1, 0);
    }
}

proof fn lemma_parts_grow(t: TapeV, w: Seq<ArrayV>, out: ArrayV, k: int)
    ensures
        grows(t, parts_s(t, w, out, 0, k).0, 0),
    decreases k,
{
    if k > 0 {
        lemma_parts_grow(t, w, out, k - 1);
    }
}

/// A stack holds every matrix at its place.
#[verifier::rlimit(60)]
pub proof fn stacks_hold_their_matrices(
    h: History,
    n: Numbers,
    t: TapeV,
    v: Seq<ArrayV>,
    rows: usize,
    columns: usize,
    dt: Dtype,
    r: ArrayV,
)
    requires
        pile(t, v, rows, columns, dt),
        t.next < u64::MAX,
        stack_s(t, v, 0).1 == Outcome::Ok(r),
        lives(h, stack_s(t, v, 0).0, n),
    ensures
        stays(h, t, stack_s(t, v, 0).0),
        known(stack_s(t, v, 0).0, r),
        r.layout == packed(seq![v.len() as usize, rows, columns]),
        r.layout.dense(),
        r.dtype == dt,
        forall|g: int, i: int, j: int|
            #![trigger val(now(h, t), v[g], seq2(i, j))]
            0 <= g < v.len() && in_matrix(rows as int, columns as int, i, j) ==> val(
                now(h, stack_s(t, v, 0).0),
                r,
                seq![g, i, j],
            ) == val(now(h, t), v[g], seq2(i, j)),
{
    let total = v.len() as usize;
    let whole = seq![total, rows, columns];
    let w = lifted_at(v, 0);
    let u = stack_s(t, v, 0).0;
    let t0 = zeros_tape(t, whole, dt);
    let out = fresh(t, whole, dt);
    assert(v[0].wf());
    assert forall|i: int| 0 <= i < v.len() implies 0 <= (#[trigger] v[i]).rank() by {}
    crate::dense_attention::lemma_stackable(v, rows, columns, dt);
    assert forall|k: int| 0 <= k < w.len() implies (#[trigger] w[k]).shape() == w[0].shape()
        && w[k].dtype == w[0].dtype by {
        assert(v[k].wf() && v[0].wf());
    }
    crate::dense_attention::lemma_no_stack_fault(w, w.len() as int);
    assert(w[0].dtype == dt);
    assert(u == parts_s(t0, w, out, 0, v.len() as int).0);
    assert(r == out);
    lemma_parts(h, n, t, v, rows, columns, dt, v.len() as int);
    lemma_lives(h, n, t0, u, 0);
    lemma_fresh(t, whole, dt);
    let k = t.cmds.len() as int;
    assert(t0.cmds[k] == CmdV::Alloc(t.next, byte_size(whole, dt), "zeros"@));
    assert(t0.cmds[k + 1] == CmdV::Zero(t.next));
    assert(carried(t0.cmds[k], h(k), h(k + 1), n));
    assert(carried(t0.cmds[k + 1], h(k + 1), h(k + 2), n));
    assert(t.next.wrapping_add(1) == t.next + 1);
    assert forall|b: u64, ty: Dtype, i: int| b < t.next implies #[trigger] now(h, u)(b, ty, i)
        == now(h, t)(b, ty, i) by {
        assert(now(h, u)(b, ty, i) == now(h, t0)(b, ty, i));
        assert(!touches(t0.cmds[k], b) && !touches(t0.cmds[k + 1], b));
        assert(h(k + 2)(b, ty, i) == h(k + 1)(b, ty, i));
        assert(h(k + 1)(b, ty, i) == h(k)(b, ty, i));
    }
    let mn = rows * columns;
    assert forall|g: int, i: int, j: int|
        #![trigger val(now(h, t), v[g], seq2(i, j))]
        0 <= g < v.len() && in_matrix(rows as int, columns as int, i, j) implies val(
        now(h, u),
        r,
        seq![g, i, j],
    ) == val(now(h, t), v[g], seq2(i, j)) by {
        let a = v[g];
        assert(known(t, a));
        let e = i * columns + j;
        assert(0 <= e < mn) by (nonlinear_arith)
            requires
                e == i * columns + j,
                mn == rows * columns,
                0 <= i < rows,
                0 <= j < columns,
        ;
        assert(in_matrix(v.len() as int, mn, g, e));
        assert(in_shape(seq![g, i, j], whole));
        lemma_ravel3(total, rows, columns, g, i, j);
        assert((g * rows + i) * columns + j == g * mn + e) by (nonlinear_arith)
            requires
                e == i * columns + j,
                mn == rows * columns,
        ;
        assert(in_shape(seq2(i, j), seq![rows, columns]));
        lemma_roomy(seq![rows, columns], dt);
        crate::views::packed_is_dense(seq![rows, columns]);
        lemma_dense_at(a.layout, seq2(i, j));
        lemma_ravel2(rows, columns, i, j);
        assert(seq2(i, j) =~= seq![i, j]);
        let p = a.layout.at(seq2(i, j));
        assert(p == e);
        assert(now(h, u)(a.buf, dt, e) == now(h, t0)(a.buf, dt, e));
        assert(now(h, u)(a.buf, dt, e) == now(h, t)(a.buf, dt, e));
    }
}

/// A position of a matrix.
pub open spec fn seq2(i: int, j: int) -> Seq<int> {
    seq![i, j]
}

pub proof fn lemma_stacked_grows(t: TapeV, v: Seq<ArrayV>, shape: Seq<usize>)
    ensures
        grows(t, stacked_as(t, v, shape).0, 2),
{
    reveal(stacked_as);
    let (t1, o1) = stack_s(t, v, 0);
    lemma_stack_grows(t, v);
    if o1 is Ok {
        crate::device::lemma_reshape_grows(t1, o1->Ok_0, shape);
        lemma_grows(t, t1, stacked_as(t, v, shape).0, 1, 1);
    }
}

/// A stack under another shape holds every matrix in row-major order.
#[verifier::rlimit(60)]
pub proof fn shaped_stacks_hold_their_matrices(
    h: History,
    n: Numbers,
    t: TapeV,
    v: Seq<ArrayV>,
    rows: usize,
    columns: usize,
    dt: Dtype,
    shape: Seq<usize>,
    r: ArrayV,
)
    requires
        pile(t, v, rows, columns, dt),
        t.next + 2 <= u64::MAX,
        roomy(shape),
        shape.len() <= usize::MAX,
        stacked_as(t, v, shape).1 == Outcome::Ok(r),
        lives(h, stacked_as(t, v, shape).0, n),
    ensures
        stays(h, t, stacked_as(t, v, shape).0),
        known(stacked_as(t, v, shape).0, r),
        r.layout.dense(),
        r.shape() == shape,
        r.dtype == dt,
        forall|g: int, i: int, j: int, idx: Seq<int>|
            #![trigger val(now(h, t), v[g], seq2(i, j)), in_shape(idx, shape)]
            0 <= g < v.len() && in_matrix(rows as int, columns as int, i, j) && in_shape(idx, shape)
                && ravel(shape, idx) == (g * rows + i) * columns + j ==> val(
                now(h, stacked_as(t, v, shape).0),
                r,
                idx,
            ) == val(now(h, t), v[g], seq2(i, j)),
{
    reveal(stacked_as);
    let u = stacked_as(t, v, shape).0;
    let (t1, o1) = stack_s(t, v, 0);
    let s = o1->Ok_0;
    lemma_stack_grows(t, v);
    crate::device::lemma_reshape_grows(t1, s, shape);
    lemma_lives(h, n, t1, u, 1);
    stacks_hold_their_matrices(h, n, t, v, rows, columns, dt, s);
    crate::device::reshaping_keeps_elements(h, n, t1, s, shape, r);
    lemma_stays(h, t, t1, u);
    assert forall|g: int, i: int, j: int, idx: Seq<int>|
        #![trigger val(now(h, t), v[g], seq2(i, j)), in_shape(idx, shape)]
        0 <= g < v.len() && in_matrix(rows as int, columns as int, i, j) && in_shape(idx, shape)
            && ravel(shape, idx) == (g * rows + i) * columns + j implies val(now(h, u), r, idx)
        == val(now(h, t), v[g], seq2(i, j)) by {
        let whole = seq![v.len() as usize, rows, columns];
        lemma_ravel3(v.len() as usize, rows, columns, g, i, j);
        assert(in_shape(seq![g, i, j], whole));
        assert(s.shape() == whole);
        assert(val(now(h, u), r, idx) == val(now(h, t1), s, seq![g, i, j]));
    }
}

// ---- scores ----

/// Queries, keys and values of one type whose sizes go together, and whose elements
/// the device reads.
pub open spec fn attendable(t: TapeV, q: ArrayV, k: ArrayV, v: ArrayV) -> bool {
    let z = heads_of(q, k, v);
    &&& chainable(q, k, v)
    &&& known(t, q) && known(t, k) && known(t, v)
    &&& short(k.layout) && short(v.layout)
    &&& k.dtype == q.dtype && v.dtype == q.dtype
    &&& k.shape()[3] == z.d && v.shape()[2] == z.kl && z.vd == z.d
    &&& z.h == z.hk * z.r()
    &&& z.d <= i32::MAX
    &&& crate::masking::short_sizes(z.score_shape())
}

/// The score of a query against a key: the scaled query times the key.
pub open spec fn score_of(
    m: Memory,
    n: Numbers,
    q: ArrayV,
    k: ArrayV,
    scale: u32,
    z: Heads,
    idx: Seq<int>,
) -> int {
    sum_to(
        z.d as int,
        |c: int|
            (val(m, q, seq![idx[0], idx[1] * z.r() + idx[2], idx[3], c]) * (n.number)(
                q.dtype,
                Scalar::Bits(scale),
            )) * val(m, k, seq![idx[0], idx[1], idx[4], c]),
    )
}

proof fn lemma_not_void(s: Seq<usize>)
    requires
        !is_void(s),
    ensures
        forall|i: int| 0 <= i < s.len() ==> #[trigger] s[i] > 0,
{
    assert forall|i: int| 0 <= i < s.len() implies #[trigger] s[i] > 0 by {
        if s[i] == 0 {
            assert(is_void(s));
        }
    }
}

/// A matrix that is picked out of an array of four axes.
proof fn lemma_pick_two(t: TapeV, a: ArrayV, x: usize, y: usize, i: int, j: int)
    requires
        known(t, a),
        !is_void(a.shape()),
        a.rank() == 4,
        x < a.shape()[0],
        y < a.shape()[1],
        a.layout.dense() || short(a.layout),
        a.shape()[2] <= i32::MAX,
        a.shape()[3] <= i32::MAX,
    ensures
        matrix(t, first_at(first_at(a, x), y), a.shape()[2], a.shape()[3]),
        first_at(first_at(a, x), y).dtype == a.dtype,
        first_at(first_at(a, x), y).buf == a.buf,
        first_at(first_at(a, x), y).layout.at(seq![i, j]) == a.layout.at(
            seq![x as int, y as int, i, j],
        ),
{
    a_position_is_picked(a, x, seq![y as int, i, j]);
    let b = first_at(a, x);
    a_position_is_picked(b, y, seq![i, j]);
    let c = first_at(b, y);
    assert(seq![x as int] + seq![y as int, i, j] =~= seq![x as int, y as int, i, j]);
    assert(seq![y as int] + seq![i, j] =~= seq![y as int, i, j]);
    assert(c.shape() =~= seq![a.shape()[2], a.shape()[3]]);
}

/// A matrix that is picked out of an array of five axes.
proof fn lemma_pick_three(t: TapeV, a: ArrayV, w: usize, x: usize, y: usize, i: int, j: int)
    requires
        known(t, a),
        !is_void(a.shape()),
        a.rank() == 5,
        w < a.shape()[0],
        x < a.shape()[1],
        y < a.shape()[2],
        a.layout.dense(),
        a.shape()[3] <= i32::MAX,
        a.shape()[4] <= i32::MAX,
    ensures
        matrix(t, first_at(first_at(first_at(a, w), x), y), a.shape()[3], a.shape()[4]),
        first_at(first_at(first_at(a, w), x), y).dtype == a.dtype,
        first_at(first_at(first_at(a, w), x), y).layout.at(seq![i, j]) == a.layout.at(
            seq![w as int, x as int, y as int, i, j],
        ),
{
    a_position_is_picked(a, w, seq![x as int, y as int, i, j]);
    let b = first_at(a, w);
    assert(b.rank() == 4);
    lemma_pick_two(t, b, x, y, i, j);
    assert(seq![w as int] + seq![x as int, y as int, i, j] =~= seq![
        w as int,
        x as int,
        y as int,
        i,
        j,
    ]);
}

/// Pairs of batch and head by number.
proof fn lemma_pair(q: int, nb: int, hk: int)
    requires
        0 <= q < nb * hk,
        hk > 0,
        nb >= 0,
    ensures
        0 <= q / hk < nb,
        0 <= q % hk < hk,
{
    assert(0 <= q / hk < nb && 0 <= q % hk < hk) by (nonlinear_arith)
        requires
            0 <= q < nb * hk,
            hk > 0,
            nb >= 0,
    ;
}

proof fn lemma_unpair(b: int, g: int, hk: int, nb: int)
    requires
        0 <= b < nb,
        0 <= g < hk,
    ensures
        0 <= b * hk + g < nb * hk,
        (b * hk + g) / hk == b,
        (b * hk + g) % hk == g,
{
    assert(0 <= b * hk + g < nb * hk && (b * hk + g) / hk == b && (b * hk + g) % hk == g)
        by (nonlinear_arith)
        requires
            0 <= b < nb,
            0 <= g < hk,
    ;
}

proof fn lemma_ravel5(s: Seq<usize>, idx: Seq<int>)
    requires
        s.len() == 5,
        idx.len() == 5,
    ensures
        ravel(s, idx) == (((idx[0] * s[1] + idx[1]) * s[2] + idx[2]) * s[3] + idx[3]) * s[4]
            + idx[4],
{
    crate::delta_rule::lemma_ravel4(s[0], s[1], s[2], s[3], idx[0], idx[1], idx[2], idx[3]);
    assert(s.drop_last() =~= seq![s[0], s[1], s[2], s[3]]);
    assert(idx.drop_last() =~= seq![idx[0], idx[1], idx[2], idx[3]]);
}

/// The keys with their last two axes exchanged.
proof fn lemma_turned(t: TapeV, k: ArrayV, idx: Seq<int>)
    requires
        known(t, k),
        k.rank() == 4,
        short(k.layout),
        idx.len() == 4,
    ensures
        ({
            let x = transpose_s(k, 2, 3)->Ok_0;
            &&& known(t, x)
            &&& short(x.layout)
            &&& x.dtype == k.dtype
            &&& x.shape() == seq![k.shape()[0], k.shape()[1], k.shape()[3], k.shape()[2]]
            &&& is_void(x.shape()) == is_void(k.shape())
            &&& x.layout.at(seq![idx[0], idx[1], idx[3], idx[2]]) == k.layout.at(idx)
        }),
{
    let perm = swap_perm(4, 2, 3);
    assert(perm =~= seq![0usize, 1usize, 3usize, 2usize]);
    let x = transpose_s(k, 2, 3)->Ok_0;
    let cap = k.bytes as int / width(k.dtype) as int;
    crate::views::permuted_stays_inside(k.layout, perm, cap);
    crate::views::permuted_element(k.layout, perm, idx);
    assert(crate::folds::pick(idx, perm) =~= seq![idx[0], idx[1], idx[3], idx[2]]);
    assert(x.shape() =~= seq![k.shape()[0], k.shape()[1], k.shape()[3], k.shape()[2]]);
    assert forall|i: int| 0 <= i < x.layout.shape.len() implies #[trigger] x.layout.shape[i]
        <= u32::MAX && x.layout.strides[i] <= u32::MAX by {
        assert(k.layout.shape[perm[i] as int] <= u32::MAX);
    }
}

/// The buffers that the scores of an attention take.
pub open spec fn score_room(z: Heads) -> int {
    z.b * z.hk * (2 * z.r() + 1) + 5
}

pub proof fn lemma_scores_grow(t: TapeV, q: ArrayV, k: ArrayV, v: ArrayV, scale: u32)
    ensures
        grows(t, scores_s(t, q, k, v, scale).0, score_room(heads_of(q, k, v))),
{
    reveal(scores_s);
    let z = heads_of(q, k, v);
    let u = scores_s(t, q, k, v, scale).0;
    let p = z.b * z.hk;
    let g = p * (2 * z.r() + 1);
    assert(p >= 0 && g >= 0) by (nonlinear_arith)
        requires
            p == z.b * z.hk,
            g == p * (2 * z.r() + 1),
    ;
    let (t1, o1) = scalar_s(t, Scalar::Bits(scale), q.dtype);
    crate::masking::lemma_scalar_grows(t, Scalar::Bits(scale), q.dtype);
    if o1 is Ok {
        let (t2, o2) = binary_s(t1, q, o1->Ok_0, "bmul"@);
        crate::device::lemma_binary_grows(t1, q, o1->Ok_0, "bmul"@);
        lemma_grows(t, t1, t2, 1, 1);
        if o2 is Ok {
            let kv = transpose_s(k, 2, 3)->Ok_0;
            let (t3, o3) = contiguous_s(t2, kv);
            lemma_contiguous_grows(t2, kv);
            lemma_grows(t, t2, t3, 2, 1);
            if o3 is Ok {
                let (t4, o4) = paired_products(
                    t3,
                    true,
                    o2->Ok_0,
                    o3->Ok_0,
                    z.hk as int,
                    z.r() as int,
                    p,
                );
                lemma_paired_grows(t3, true, o2->Ok_0, o3->Ok_0, z.hk as int, z.r() as int, p);
                lemma_grows(t, t3, t4, 3, g);
                if o4 is Ok {
                    lemma_stacked_grows(t4, o4->Ok_0, z.score_shape());
                    lemma_grows(t, t4, u, 3 + g, 2);
                }
            }
        }
    }
}

/// Every score is the scaled query times the key.
#[verifier::rlimit(80)]
pub proof fn scores_are_products(
    h: History,
    n: Numbers,
    t: TapeV,
    q: ArrayV,
    k: ArrayV,
    v: ArrayV,
    scale: u32,
    s: ArrayV,
)
    requires
        attendable(t, q, k, v),
        t.next + score_room(heads_of(q, k, v)) <= u64::MAX,
        scores_s(t, q, k, v, scale).1 == Outcome::Ok(s),
        lives(h, scores_s(t, q, k, v, scale).0, n),
    ensures
        stays(h, t, scores_s(t, q, k, v, scale).0),
        known(scores_s(t, q, k, v, scale).0, s),
        s.layout.dense(),
        s.shape() == heads_of(q, k, v).score_shape(),
        s.dtype == q.dtype,
        forall|idx: Seq<int>| #[trigger]
            score_in(heads_of(q, k, v), idx) ==> val(
                now(h, scores_s(t, q, k, v, scale).0),
                s,
                idx,
            ) == score_of(now(h, t), n, q, k, scale, heads_of(q, k, v), idx),
{
    reveal(scores_s);
    let z = heads_of(q, k, v);
    let u = scores_s(t, q, k, v, scale).0;
    let p = z.b * z.hk;
    let r = z.r() as int;
    let g = p * (2 * r + 1);
    lemma_not_void(q.shape());
    lemma_not_void(k.shape());
    assert(p >= 0 && g >= 0) by (nonlinear_arith)
        requires
            p == z.b * z.hk,
            g == p * (2 * r + 1),
            r >= 0,
    ;
    let num = Scalar::Bits(scale);
    let (t1, o1) = scalar_s(t, num, q.dtype);
    let sc = o1->Ok_0;
    let (t2, o2) = binary_s(t1, q, sc, "bmul"@);
    let qs = o2->Ok_0;
    let kv = transpose_s(k, 2, 3)->Ok_0;
    let (t3, o3) = contiguous_s(t2, kv);
    let kt = o3->Ok_0;
    let (t4, o4) = paired_products(t3, true, qs, kt, z.hk as int, r, p);
    let ys = o4->Ok_0;
    assert(u == stacked_as(t4, ys, z.score_shape()).0);
    crate::masking::lemma_scalar_grows(t, num, q.dtype);
    crate::device::lemma_binary_grows(t1, q, sc, "bmul"@);
    lemma_contiguous_grows(t2, kv);
    lemma_paired_grows(t3, true, qs, kt, z.hk as int, r, p);
    lemma_stacked_grows(t4, ys, z.score_shape());
    lemma_grows(t3, t4, u, g, 2);
    lemma_grows(t2, t3, u, 1, g + 2);
    lemma_grows(t1, t2, u, 1, g + 3);
    lemma_lives(h, n, t1, u, g + 4);
    lemma_lives(h, n, t2, u, g + 3);
    lemma_lives(h, n, t3, u, g + 2);
    lemma_lives(h, n, t4, u, 2);
    crate::masking::scalars_hold_their_number(h, n, t, num, q.dtype, sc);
    crate::named::lemma_with_scalar(q.shape());
    assert(sc.shape() =~= Seq::<usize>::empty());
    crate::device::arithmetic_is_elementwise(h, n, t1, q, sc, crate::device::Arith::Mul, qs);
    lemma_stays(h, t, t1, t2);
    lemma_turned(t2, k, seq![0, 0, 0, 0]);
    packing_keeps_elements(h, n, t2, kv, kt);
    lemma_stays(h, t, t2, t3);
    assert(pairs(t3, true, qs, kt, z.hk as int, r, p, z.ql, z.d, z.kl)) by {
        assert forall|w: int| 0 <= w < p implies lefts(
            t3,
            true,
            qs,
            r,
            w / z.hk as int,
            #[trigger] (w % z.hk as int),
            z.ql,
            z.d,
        ) && matrix(t3, right_of(kt, w / z.hk as int, w % z.hk as int), z.d, z.kl) && right_of(
            kt,
            w / z.hk as int,
            w % z.hk as int,
        ).dtype == qs.dtype by {
            lemma_pair(w, z.b as int, z.hk as int);
            let (bi, hi) = (w / z.hk as int, w % z.hk as int);
            lemma_pick_two(t3, kt, bi as usize, hi as usize, 0, 0);
            assert forall|ri: int| 0 <= ri < r implies matrix(
                t3,
                #[trigger] left_of(true, qs, r, bi, hi, ri),
                z.ql,
                z.d,
            ) && left_of(true, qs, r, bi, hi, ri).dtype == qs.dtype by {
                lemma_unpair(hi, ri, r, z.hk as int);
                lemma_pick_two(t3, qs, bi as usize, (hi * r + ri) as usize, 0, 0);
            }
        }
    }
    every_pair_is_multiplied(
        h,
        n,
        t3,
        true,
        qs,
        kt,
        z.hk as int,
        r,
        p,
        z.ql,
        z.d,
        z.kl,
        ys,
    );
    lemma_stays(h, t, t3, t4);
    let total = z.n();
    assert(p * r == total);
    assert(r > 0) by (nonlinear_arith)
        requires
            z.h == z.hk * r,
            z.h > 0,
            r >= 0,
    ;
    assert(p * r > 0) by (nonlinear_arith)
        requires
            p == z.b * z.hk,
            z.b > 0,
            z.hk > 0,
            r > 0,
    ;
    assert(pile(t4, ys, z.ql, z.kl, q.dtype)) by {
        assert forall|w: int| 0 <= w < ys.len() implies known(t4, #[trigger] ys[w]) && ys[w].wf()
            && ys[w].layout == packed(seq![z.ql, z.kl]) && ys[w].dtype == q.dtype by {
            lemma_pair(w, p, r);
            assert(in_matrix(p, r, w / r, w % r));
            assert((w / r) * r + w % r == w) by (nonlinear_arith)
                requires
                    r > 0,
            ;
            let (bi, hi) = ((w / r) / z.hk as int, (w / r) % z.hk as int);
            assert(lefts(t3, true, qs, r, bi, hi, z.ql, z.d));
            assert(matrix(t3, left_of(true, qs, r, bi, hi, w % r), z.ql, z.d));
        }
    }
    shaped_stacks_hold_their_matrices(
        h,
        n,
        t4,
        ys,
        z.ql,
        z.kl,
        q.dtype,
        z.score_shape(),
        s,
    );
    lemma_stays(h, t, t4, u);
    lemma_keeps(h, t, t1, q);
    lemma_keeps(h, t, t2, k);
    lemma_keeps(h, t2, t3, qs);
    assert forall|idx: Seq<int>| #[trigger] score_in(z, idx) implies val(now(h, u), s, idx)
        == score_of(now(h, t), n, q, k, scale, z, idx) by {
        let shape = z.score_shape();
        let (b, a, e, i, j) = (idx[0], idx[1], idx[2], idx[3], idx[4]);
        assert(0 <= idx[0] < shape[0] && 0 <= idx[1] < shape[1] && 0 <= idx[2] < shape[2]);
        assert(0 <= idx[3] < shape[3] && 0 <= idx[4] < shape[4]);
        lemma_ravel5(shape, idx);
        let w = b * z.hk + a;
        lemma_unpair(b, a, z.hk as int, z.b as int);
        lemma_unpair(a, e, r, z.hk as int);
        assert(in_matrix(p, r, w, e));
        let y = ys[w * r + e];
        let l = left_of(true, qs, r, b, a, e);
        let x = right_of(kt, b, a);
        assert(made(h, t3, t4, y, l, x, z.ql, z.kl));
        assert(lefts(t3, true, qs, r, b, a, z.ql, z.d)) by {
            assert(w % z.hk as int == a);
        }
        assert(matrix(t3, l, z.ql, z.d));
        assert(in_matrix(z.ql as int, z.kl as int, i, j));
        assert(in_matrix(l.shape()[0] as int, x.shape()[1] as int, i, j)) by {
            lemma_pick_two(t3, kt, b as usize, a as usize, 0, 0);
        }
        assert(seq2(i, j) =~= seq![i, j]);
        assert(val(now(h, u), s, idx) == val(now(h, t4), y, seq2(i, j)));
        let f = |c: int| val(now(h, t3), l, seq![i, c]) * val(now(h, t3), x, seq![c, j]);
        let f2 = |c: int|
            (val(now(h, t), q, seq![b, a * r + e, i, c]) * (n.number)(q.dtype, num)) * val(
                now(h, t),
                k,
                seq![b, a, j, c],
            );
        assert forall|c: int| 0 <= c < z.d implies #[trigger] f(c) == f2(c) by {
            lemma_pick_two(t3, qs, b as usize, (a * r + e) as usize, i, c);
            lemma_pick_two(t3, kt, b as usize, a as usize, c, j);
            let iq = seq![b, a * r + e, i, c];
            let ik = seq![b, a, c, j];
            assert(in_shape(iq, q.shape()));
            assert(crate::device::under(q.shape(), iq) =~= iq);
            assert(crate::device::under(sc.shape(), iq) =~= Seq::<int>::empty());
            assert(val(now(h, t2), qs, iq) == val(now(h, t1), q, iq) * val(
                now(h, t1),
                sc,
                Seq::empty(),
            ));
            assert(val(now(h, t3), qs, iq) == val(now(h, t2), qs, iq));
            assert(in_shape(ik, kv.shape()));
            lemma_turned(t2, k, seq![b, a, j, c]);
            assert(val(now(h, t3), kt, ik) == val(now(h, t2), kv, ik));
            assert(val(now(h, t2), kv, ik) == val(now(h, t2), k, seq![b, a, j, c]));
        }
        lemma_same_sum(z.d as int, f, f2);
    }
}

// ---- values ----

/// The buffers that the values of an attention take.
pub open spec fn value_room(z: Heads) -> int {
    z.b * z.hk * (2 * z.r() + 1) + 3
}

pub proof fn lemma_values_grow(t: TapeV, probs: ArrayV, v: ArrayV, z: Heads)
    ensures
        grows(t, values_s(t, probs, v, z).0, value_room(z)),
{
    reveal(values_s);
    let u = values_s(t, probs, v, z).0;
    let p = z.b * z.hk;
    let g = p * (2 * z.r() + 1);
    assert(p >= 0 && g >= 0) by (nonlinear_arith)
        requires
            p == z.b * z.hk,
            g == p * (2 * z.r() + 1),
    ;
    let (t1, o1) = paired_products(t, false, probs, v, z.hk as int, z.r() as int, p);
    lemma_paired_grows(t, false, probs, v, z.hk as int, z.r() as int, p);
    if o1 is Ok {
        let (t2, o2) = stacked_as(t1, o1->Ok_0, z.value_shape());
        lemma_stacked_grows(t1, o1->Ok_0, z.value_shape());
        lemma_grows(t, t1, t2, g, 2);
        if o2 is Ok {
            crate::device::lemma_reshape_grows(t2, o2->Ok_0, z.out_shape());
            lemma_grows(t, t2, u, g + 2, 1);
        }
    }
}

/// Every result is the sum of the values, weighted.
#[verifier::rlimit(80)]
pub proof fn results_are_weighted_values(
    h: History,
    n: Numbers,
    t: TapeV,
    q: ArrayV,
    k: ArrayV,
    v: ArrayV,
    probs: ArrayV,
    o: ArrayV,
)
    requires
        attendable(t, q, k, v),
        known(t, probs),
        probs.layout.dense(),
        probs.dtype == q.dtype,
        probs.shape() == heads_of(q, k, v).score_shape(),
        t.next + value_room(heads_of(q, k, v)) <= u64::MAX,
        values_s(t, probs, v, heads_of(q, k, v)).1 == Outcome::Ok(o),
        lives(h, values_s(t, probs, v, heads_of(q, k, v)).0, n),
    ensures
        stays(h, t, values_s(t, probs, v, heads_of(q, k, v)).0),
        known(values_s(t, probs, v, heads_of(q, k, v)).0, o),
        o.shape() == heads_of(q, k, v).out_shape(),
        forall|b: int, a: int, e: int, i: int, c: int| #[trigger]
            result_in(heads_of(q, k, v), b, a, e, i, c) ==> val(
                now(h, values_s(t, probs, v, heads_of(q, k, v)).0),
                o,
                seq![b, a * heads_of(q, k, v).r() + e, i, c],
            ) == sum_to(
                heads_of(q, k, v).kl as int,
                |j: int|
                    val(now(h, t), probs, seq![b, a, e, i, j]) * val(
                        now(h, t),
                        v,
                        seq![b, a, j, c],
                    ),
            ),
{
    reveal(values_s);
    let z = heads_of(q, k, v);
    let u = values_s(t, probs, v, z).0;
    let p = z.b * z.hk;
    let r = z.r() as int;
    let g = p * (2 * r + 1);
    lemma_not_void(q.shape());
    lemma_not_void(k.shape());
    lemma_not_void(v.shape());
    assert(p >= 0 && g >= 0) by (nonlinear_arith)
        requires
            p == z.b * z.hk,
            g == p * (2 * r + 1),
            r >= 0,
    ;
    assert(r > 0) by (nonlinear_arith)
        requires
            z.h == z.hk * r,
            z.h > 0,
            r >= 0,
    ;
    assert(p * r > 0) by (nonlinear_arith)
        requires
            p == z.b * z.hk,
            z.b > 0,
            z.hk > 0,
            r > 0,
    ;
    assert(!is_void(probs.shape())) by {
        let s = z.score_shape();
        assert forall|i: int| 0 <= i < s.len() implies #[trigger] s[i] != 0 by {}
    }
    let (t1, o1) = paired_products(t, false, probs, v, z.hk as int, r, p);
    let ys = o1->Ok_0;
    let (t2, o2) = stacked_as(t1, ys, z.value_shape());
    let s = o2->Ok_0;
    assert(u == reshape_s(t2, s, z.out_shape()).0);
    lemma_paired_grows(t, false, probs, v, z.hk as int, r, p);
    lemma_stacked_grows(t1, ys, z.value_shape());
    crate::device::lemma_reshape_grows(t2, s, z.out_shape());
    lemma_grows(t1, t2, u, 2, 1);
    lemma_lives(h, n, t1, u, 3);
    lemma_lives(h, n, t2, u, 1);
    assert(pairs(t, false, probs, v, z.hk as int, r, p, z.ql, z.kl, z.d)) by {
        assert forall|w: int| 0 <= w < p implies lefts(
            t,
            false,
            probs,
            r,
            w / z.hk as int,
            #[trigger] (w % z.hk as int),
            z.ql,
            z.kl,
        ) && matrix(t, right_of(v, w / z.hk as int, w % z.hk as int), z.kl, z.d) && right_of(
            v,
            w / z.hk as int,
            w % z.hk as int,
        ).dtype == probs.dtype by {
            lemma_pair(w, z.b as int, z.hk as int);
            let (bi, hi) = (w / z.hk as int, w % z.hk as int);
            lemma_pick_two(t, v, bi as usize, hi as usize, 0, 0);
            assert forall|ri: int| 0 <= ri < r implies matrix(
                t,
                #[trigger] left_of(false, probs, r, bi, hi, ri),
                z.ql,
                z.kl,
            ) && left_of(false, probs, r, bi, hi, ri).dtype == probs.dtype by {
                lemma_pick_three(t, probs, bi as usize, hi as usize, ri as usize, 0, 0);
            }
        }
    }
    every_pair_is_multiplied(
        h,
        n,
        t,
        false,
        probs,
        v,
        z.hk as int,
        r,
        p,
        z.ql,
        z.kl,
        z.d,
        ys,
    );
    assert(p * r == z.n());
    assert(pile(t1, ys, z.ql, z.d, q.dtype)) by {
        assert forall|w: int| 0 <= w < ys.len() implies known(t1, #[trigger] ys[w]) && ys[w].wf()
            && ys[w].layout == packed(seq![z.ql, z.d]) && ys[w].dtype == q.dtype by {
            lemma_pair(w, p, r);
            assert(in_matrix(p, r, w / r, w % r));
            assert((w / r) * r + w % r == w) by (nonlinear_arith)
                requires
                    r > 0,
            ;
            let (bi, hi) = ((w / r) / z.hk as int, (w / r) % z.hk as int);
            assert(lefts(t, false, probs, r, bi, hi, z.ql, z.kl));
            assert(matrix(t, left_of(false, probs, r, bi, hi, w % r), z.ql, z.kl));
        }
    }
    shaped_stacks_hold_their_matrices(
        h,
        n,
        t1,
        ys,
        z.ql,
        z.d,
        q.dtype,
        z.value_shape(),
        s,
    );
    lemma_stays(h, t, t1, t2);
    crate::device::reshaping_keeps_elements(h, n, t2, s, z.out_shape(), o);
    lemma_stays(h, t, t2, u);
    assert forall|b: int, a: int, e: int, i: int, c: int| #[trigger]
        result_in(z, b, a, e, i, c) implies val(now(h, u), o, seq![b, a * z.r() + e, i, c])
        == sum_to(
        z.kl as int,
        |j: int|
            val(now(h, t), probs, seq![b, a, e, i, j]) * val(now(h, t), v, seq![b, a, j, c]),
    ) by {
        let shape = z.value_shape();
        let idx = seq![b, a, e, i, c];
        let top = seq![b, a * r + e, i, c];
        lemma_ravel5(shape, idx);
        crate::delta_rule::lemma_ravel4(z.b, z.h, z.ql, z.d, b, a * r + e, i, c);
        lemma_unpair(a, e, r, z.hk as int);
        let w = b * z.hk + a;
        lemma_unpair(b, a, z.hk as int, z.b as int);
        assert(w * r + e == b * z.h + (a * r + e)) by (nonlinear_arith)
            requires
                w == b * z.hk + a,
                z.h == z.hk * r,
        ;
        assert(in_shape(idx, shape));
        assert(in_shape(top, z.out_shape()));
        assert(val(now(h, u), o, top) == val(now(h, t2), s, idx));
        assert(in_matrix(p, r, w, e));
        let y = ys[w * r + e];
        let l = left_of(false, probs, r, b, a, e);
        let x = right_of(v, b, a);
        assert(made(h, t, t1, y, l, x, z.ql, z.d));
        lemma_pick_three(t, probs, b as usize, a as usize, e as usize, 0, 0);
        lemma_pick_two(t, v, b as usize, a as usize, 0, 0);
        assert(in_matrix(z.ql as int, z.d as int, i, c));
        assert(in_matrix(l.shape()[0] as int, x.shape()[1] as int, i, c));
        assert(seq2(i, c) =~= seq![i, c]);
        assert(val(now(h, t2), s, idx) == val(now(h, t1), y, seq2(i, c)));
        let f = |j: int| val(now(h, t), l, seq![i, j]) * val(now(h, t), x, seq![j, c]);
        let f2 = |j: int|
            val(now(h, t), probs, seq![b, a, e, i, j]) * val(now(h, t), v, seq![b, a, j, c]);
        assert forall|j: int| 0 <= j < z.kl implies #[trigger] f(j) == f2(j) by {
            lemma_pick_three(t, probs, b as usize, a as usize, e as usize, i, j);
            lemma_pick_two(t, v, b as usize, a as usize, j, c);
        }
        lemma_same_sum(z.kl as int, f, f2);
    }
}

/// A result of an attention: batch, key head, the query head among those that share
/// it, query and column.
pub open spec fn result_in(z: Heads, b: int, a: int, e: int, i: int, c: int) -> bool {
    0 <= b < z.b && 0 <= a < z.hk && 0 <= e < z.r() && 0 <= i < z.ql && 0 <= c < z.d
}

// ---- the whole ----

/// The scores of a query as its softmax sees them: every score of a key that it may
/// not look at is the lowest number.
pub open spec fn looked_at(
    m: Memory,
    n: Numbers,
    q: ArrayV,
    k: ArrayV,
    scale: u32,
    causal: bool,
    mask: Option<ArrayV>,
    z: Heads,
    b: int,
    a: int,
    e: int,
    i: int,
) -> Seq<int> {
    Seq::new(
        z.kl as nat,
        |j: int|
            if visible(m, causal, mask, z, seq![b, a, e, i, j]) {
                score_of(m, n, q, k, scale, z, seq![b, a, e, i, j])
            } else {
                lowest(n, q.dtype)
            },
    )
}

/// An attention gives every query the sum of the values, each weighted by the softmax
/// of the query's scores. With a causal attention and no mask of its own, the score
/// of every key behind the query's place is the lowest number; with a mask, that of
/// every key where the mask is zero.
#[verifier::rlimit(80)]
pub proof fn attention_weighs_what_it_may_see(
    h: History,
    n: Numbers,
    t: TapeV,
    q: ArrayV,
    k: ArrayV,
    v: ArrayV,
    scale: u32,
    causal: bool,
    mask: Option<ArrayV>,
    o: ArrayV,
)
    requires
        attendable(t, q, k, v),
        mask matches Some(m) ==> known(t, m) && m.layout.dense() && short(m.layout),
        t.next + score_room(heads_of(q, k, v)) + value_room(heads_of(q, k, v)) + 7 <= u64::MAX,
        dense_s(t, q, k, v, scale, causal, mask).1 == Outcome::Ok(o),
        lives(h, dense_s(t, q, k, v, scale, causal, mask).0, n),
    ensures
        stays(h, t, dense_s(t, q, k, v, scale, causal, mask).0),
        known(dense_s(t, q, k, v, scale, causal, mask).0, o),
        o.shape() == heads_of(q, k, v).out_shape(),
        forall|b: int, a: int, e: int, i: int, c: int| #[trigger]
            result_in(heads_of(q, k, v), b, a, e, i, c) ==> val(
                now(h, dense_s(t, q, k, v, scale, causal, mask).0),
                o,
                seq![b, a * heads_of(q, k, v).r() + e, i, c],
            ) == sum_to(
                heads_of(q, k, v).kl as int,
                |j: int|
                    (n.weight)(
                        looked_at(
                            now(h, t),
                            n,
                            q,
                            k,
                            scale,
                            causal,
                            mask,
                            heads_of(q, k, v),
                            b,
                            a,
                            e,
                            i,
                        ),
                        j,
                    ) * val(now(h, t), v, seq![b, a, j, c]),
            ),
{
    let z = heads_of(q, k, v);
    let u = dense_s(t, q, k, v, scale, causal, mask).0;
    let (t1, o1) = scores_s(t, q, k, v, scale);
    let scores = o1->Ok_0;
    let hides = mask is Some || causal;
    let (t2, o2) = if hides {
        masked_s(t1, scores, mask, z, q.dtype)
    } else {
        (t1, Outcome::Ok(scores))
    };
    let s = o2->Ok_0;
    let (t3, o3) = softmax_last_s(t2, s, true);
    let p = o3->Ok_0;
    assert(dense_s(t, q, k, v, scale, causal, mask) == values_s(t3, p, v, z));
    let (sr, vr) = (score_room(z), value_room(z));
    assert(sr >= 0 && vr >= 0) by (nonlinear_arith)
        requires
            sr == z.b * z.hk * (2 * z.r() + 1) + 5,
            vr == z.b * z.hk * (2 * z.r() + 1) + 3,
    ;
    lemma_scores_grow(t, q, k, v, scale);
    lemma_values_grow(t3, p, v, z);
    lemma_softmax_grows(t2, s, true);
    lemma_lives(h, n, t3, u, vr);
    lemma_lives(h, n, t2, t3, 1);
    if hides {
        lemma_masked_grows(t1, scores, mask, z, q.dtype);
    }
    assert(grows(t1, t2, 6));
    lemma_grows(t1, t2, t3, 6, 1);
    lemma_lives(h, n, t1, t2, 6);
    scores_are_products(h, n, t, q, k, v, scale, scores);
    if hides {
        masked_scores_do_not_look_ahead(h, n, t1, scores, mask, z, q.dtype, s);
    }
    softmax_weighs_rows(h, n, t2, s, true, p);
    lemma_stays(h, t, t1, t2);
    lemma_stays(h, t, t2, t3);
    results_are_weighted_values(h, n, t3, q, k, v, p, o);
    lemma_stays(h, t, t3, u);
    lemma_keeps(h, t, t3, v);
    if let Some(a) = mask {
        lemma_keeps(h, t, t1, a);
    }
    lemma_whole(h, n, t, t1, t2, t3, u, q, k, v, scale, causal, mask, scores, s, p, o);
}

proof fn lemma_whole(
    h: History,
    n: Numbers,
    t: TapeV,
    t1: TapeV,
    t2: TapeV,
    t3: TapeV,
    u: TapeV,
    q: ArrayV,
    k: ArrayV,
    v: ArrayV,
    scale: u32,
    causal: bool,
    mask: Option<ArrayV>,
    scores: ArrayV,
    s: ArrayV,
    p: ArrayV,
    o: ArrayV,
)
    requires
        s.shape() == heads_of(q, k, v).score_shape(),
        stays(h, t, t1) && stays(h, t, t3),
        v.buf < t.next,
        mask matches Some(a) ==> a.buf < t.next,
        forall|idx: Seq<int>| #[trigger]
            score_in(heads_of(q, k, v), idx) ==> val(now(h, t1), scores, idx) == score_of(
                now(h, t),
                n,
                q,
                k,
                scale,
                heads_of(q, k, v),
                idx,
            ),
        forall|idx: Seq<int>| #[trigger]
            score_in(heads_of(q, k, v), idx) ==> val(now(h, t2), s, idx) == (if visible(
                now(h, t1),
                causal,
                mask,
                heads_of(q, k, v),
                idx,
            ) {
                val(now(h, t1), scores, idx)
            } else {
                lowest(n, q.dtype)
            }),
        forall|idx: Seq<int>| #[trigger]
            in_shape(idx, s.shape()) ==> val(now(h, t3), p, idx) == (n.weight)(
                row_through(now(h, t2), s, idx),
                idx.last(),
            ),
        forall|b: int, a: int, e: int, i: int, c: int| #[trigger]
            result_in(heads_of(q, k, v), b, a, e, i, c) ==> val(
                now(h, u),
                o,
                seq![b, a * heads_of(q, k, v).r() + e, i, c],
            ) == sum_to(
                heads_of(q, k, v).kl as int,
                |j: int|
                    val(now(h, t3), p, seq![b, a, e, i, j]) * val(
                        now(h, t3),
                        v,
                        seq![b, a, j, c],
                    ),
            ),
    ensures
        forall|b: int, a: int, e: int, i: int, c: int| #[trigger]
            result_in(heads_of(q, k, v), b, a, e, i, c) ==> val(
                now(h, u),
                o,
                seq![b, a * heads_of(q, k, v).r() + e, i, c],
            ) == sum_to(
                heads_of(q, k, v).kl as int,
                |j: int|
                    (n.weight)(
                        looked_at(
                            now(h, t),
                            n,
                            q,
                            k,
                            scale,
                            causal,
                            mask,
                            heads_of(q, k, v),
                            b,
                            a,
                            e,
                            i,
                        ),
                        j,
                    ) * val(now(h, t), v, seq![b, a, j, c]),
            ),
{
    let z = heads_of(q, k, v);
    lemma_keeps(h, t, t3, v);
    if let Some(a) = mask {
        lemma_keeps(h, t, t1, a);
    }
    assert forall|b: int, a: int, e: int, i: int, c: int| #[trigger]
        result_in(z, b, a, e, i, c) implies val(now(h, u), o, seq![b, a * z.r() + e, i, c])
        == sum_to(
        z.kl as int,
        |j: int|
            (n.weight)(
                looked_at(now(h, t), n, q, k, scale, causal, mask, z, b, a, e, i),
                j,
            ) * val(now(h, t), v, seq![b, a, j, c]),
    ) by {
        let row = looked_at(now(h, t), n, q, k, scale, causal, mask, z, b, a, e, i);
        let f = |j: int|
            val(now(h, t3), p, seq![b, a, e, i, j]) * val(now(h, t3), v, seq![b, a, j, c]);
        let f2 = |j: int| (n.weight)(row, j) * val(now(h, t), v, seq![b, a, j, c]);
        assert forall|j: int| 0 <= j < z.kl implies #[trigger] f(j) == f2(j) by {
            let idx = seq![b, a, e, i, j];
            assert(in_shape(idx, z.score_shape()));
            let seen = row_through(now(h, t2), s, idx);
            assert(seen =~= row) by {
                assert forall|w: int| 0 <= w < z.kl implies #[trigger] seen[w] == row[w] by {
                    let x = seq![b, a, e, i, w];
                    assert(idx.update(4, w) =~= x);
                    assert(in_shape(x, z.score_shape()));
                    assert(score_in(z, x));
                }
            }
        }
        lemma_same_sum(z.kl as int, f, f2);
    }
}

/// A query of a causal attention takes nothing from the keys and the values behind
/// its place but the weight of the lowest number.
pub proof fn later_keys_do_not_matter(
    m: Memory,
    other: Memory,
    n: Numbers,
    q: ArrayV,
    k: ArrayV,
    scale: u32,
    z: Heads,
    b: int,
    a: int,
    e: int,
    i: int,
)
    requires
        forall|c: int|
            0 <= c < z.d ==> #[trigger] val(m, q, seq4(b, a * z.r() + e, i, c)) == val(
                other,
                q,
                seq4(b, a * z.r() + e, i, c),
            ),
        forall|j: int, c: int|
            0 <= j < z.kl && 0 <= c < z.d && j <= i + (z.kl - z.ql) ==> #[trigger] val(
                m,
                k,
                seq4(b, a, j, c),
            ) == val(other, k, seq4(b, a, j, c)),
    ensures
        looked_at(m, n, q, k, scale, true, None, z, b, a, e, i) == looked_at(
            other,
            n,
            q,
            k,
            scale,
            true,
            None,
            z,
            b,
            a,
            e,
            i,
        ),
{
    let x = looked_at(m, n, q, k, scale, true, None, z, b, a, e, i);
    let y = looked_at(other, n, q, k, scale, true, None, z, b, a, e, i);
    assert forall|j: int| 0 <= j < z.kl implies #[trigger] x[j] == y[j] by {
        let idx = seq![b, a, e, i, j];
        if j <= i + (z.kl - z.ql) {
            let num = (n.number)(q.dtype, Scalar::Bits(scale));
            let f = |c: int|
                (val(m, q, seq![idx[0], idx[1] * z.r() + idx[2], idx[3], c]) * num) * val(
                    m,
                    k,
                    seq![idx[0], idx[1], idx[4], c],
                );
            let g = |c: int|
                (val(other, q, seq![idx[0], idx[1] * z.r() + idx[2], idx[3], c]) * num) * val(
                    other,
                    k,
                    seq![idx[0], idx[1], idx[4], c],
                );
            assert forall|c: int| 0 <= c < z.d implies #[trigger] f(c) == g(c) by {
                assert(val(m, q, seq4(b, a * z.r() + e, i, c)) == val(
                    other,
                    q,
                    seq4(b, a * z.r() + e, i, c),
                ));
                assert(val(m, k, seq4(b, a, j, c)) == val(other, k, seq4(b, a, j, c)));
            }
            lemma_same_sum(z.d as int, f, g);
        }
    }
    assert(x =~= y);
}

/// A position of an array of four axes.
pub open spec fn seq4(a: int, b: int, c: int, d: int) -> Seq<int> {
    seq![a, b, c, d]
}

} // verus!
