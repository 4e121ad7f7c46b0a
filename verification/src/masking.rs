//! What the masked softmax of an attention sees, on exact numbers.

use vstd::prelude::*;

use crate::array::{
    broadcast_to_s, byte_size, contiguous_s, from_slice_s, fresh, lemma_roomy, roomy, ArrayV,
    Outcome,
};
use crate::delta_rule::{lemma_keeps, lemma_stays};
use crate::dense_attention::{causal_mask, mask_s, masked_s, Heads};
use crate::device::{
    carried, chooses, choose_name, grows, in_order, known, lemma_contiguous_grows, lemma_dense_at,
    lemma_fresh, lemma_grows, lemma_lives, lemma_ravel, lemma_recorded, lemma_recorded_grows,
    lemma_spread_at, lemma_spread_short, lemma_start, lives, launched, now, packing_keeps_elements,
    ravel, read, recorded, short, softmax_name, stays, touches, under, val, weighs, writes_only,
    History, Memory, Numbers,
};
use crate::dtype::{tag_text, width, Dtype};
use crate::elementwise::{kernel_tag_text, scalar_s, where_kernel, where_run, where_s};
use crate::layout::{in_shape, numel};
use crate::reduce::{countable_rows, row_threads, rows_of, softmax_last_s, softmax_run};
use crate::tape::{ArgV, CmdV, Scalar, TapeV};

verus! {

// ---- numbers that are put into new buffers ----

/// A command that writes to a new buffer only.
proof fn lemma_put(h: History, n: Numbers, t: TapeV, bytes: usize, label: Seq<char>, c: CmdV) -> (m:
    Memory)
    requires
        forall|b: u64| b != t.next ==> !#[trigger] touches(c, b),
        lives(h, t.then_alloc(bytes, label).then_do(c), n),
    ensures
        stays(h, t, t.then_alloc(bytes, label).then_do(c)),
        carried(c, m, now(h, t.then_alloc(bytes, label).then_do(c)), n),
{
    let u = t.then_alloc(bytes, label).then_do(c);
    let k = t.cmds.len() as int;
    assert(u.cmds[k] == CmdV::Alloc(t.next, bytes, label));
    assert(u.cmds[k + 1] == c);
    assert(carried(u.cmds[k], h(k), h(k + 1), n));
    assert(carried(u.cmds[k + 1], h(k + 1), h(k + 2), n));
    assert forall|b: u64, dt: Dtype, i: int| b < t.next implies #[trigger] now(h, u)(b, dt, i)
        == now(h, t)(b, dt, i) by {
        assert(!touches(c, b));
        assert(h(k + 2)(b, dt, i) == h(k + 1)(b, dt, i));
        assert(h(k + 1)(b, dt, i) == h(k)(b, dt, i));
    }
    h(k + 1)
}

proof fn lemma_put_grows(t: TapeV, bytes: usize, label: Seq<char>, c: CmdV)
    ensures
        grows(t, t.then_alloc(bytes, label).then_do(c), 1),
{
    assert(t.next < u64::MAX ==> t.next.wrapping_add(1) == t.next + 1);
}

proof fn lemma_filled(
    n: Numbers,
    m: Memory,
    after: Memory,
    b: u64,
    dt: Dtype,
    v: Scalar,
    k: usize,
    i: int,
)
    requires
        carried(CmdV::Fill(b, dt, v, k), m, after, n),
        0 <= i < k,
    ensures
        after(b, dt, i) == (n.number)(dt, v),
{
    assert(crate::device::holds_throughout(after, b, dt, k as int, (n.number)(dt, v)));
}

pub proof fn lemma_scalar_grows(t: TapeV, v: Scalar, dt: Dtype)
    ensures
        grows(t, scalar_s(t, v, dt).0, 1),
{
    lemma_put_grows(
        t,
        byte_size(Seq::empty(), dt),
        "scalar"@,
        CmdV::Fill(t.next, dt, v, 1),
    );
}

/// A number without axes holds that number.
pub proof fn scalars_hold_their_number(
    h: History,
    n: Numbers,
    t: TapeV,
    v: Scalar,
    dt: Dtype,
    r: ArrayV,
)
    requires
        t.next < u64::MAX,
        scalar_s(t, v, dt).1 == Outcome::Ok(r),
        lives(h, scalar_s(t, v, dt).0, n),
    ensures
        stays(h, t, scalar_s(t, v, dt).0),
        known(scalar_s(t, v, dt).0, r),
        r.rank() == 0,
        r.dtype == dt,
        r.layout.wf(),
        val(now(h, scalar_s(t, v, dt).0), r, Seq::empty()) == (n.number)(dt, v),
{
    let c = CmdV::Fill(t.next, dt, v, 1);
    let bytes = byte_size(Seq::empty(), dt);
    let m = lemma_put(h, n, t, bytes, "scalar"@, c);
    let u = scalar_s(t, v, dt).0;
    lemma_fresh(t, Seq::empty(), dt);
    lemma_scalar_grows(t, v, dt);
    assert(in_shape(Seq::<int>::empty(), Seq::<usize>::empty()));
    assert(u == t.then_alloc(bytes, "scalar"@).then_do(c));
    let after = now(h, u);
    assert(carried(c, m, after, n));
    lemma_filled(n, m, after, t.next, dt, v, 1, 0);
}

pub proof fn lemma_bytes_grow(t: TapeV, data: Seq<u8>, shape: Seq<usize>)
    ensures
        grows(t, from_slice_s(t, data, shape, Dtype::Uint8).0, 1),
{
    lemma_put_grows(
        t,
        byte_size(shape, Dtype::Uint8),
        "array"@,
        CmdV::Write(t.next, data),
    );
}

/// Bytes that are put into an array are its elements in row-major order.
pub proof fn bytes_are_elements(
    h: History,
    n: Numbers,
    t: TapeV,
    data: Seq<u8>,
    shape: Seq<usize>,
    r: ArrayV,
)
    requires
        t.next < u64::MAX,
        roomy(shape),
        shape.len() <= usize::MAX,
        from_slice_s(t, data, shape, Dtype::Uint8).1 == Outcome::Ok(r),
        lives(h, from_slice_s(t, data, shape, Dtype::Uint8).0, n),
    ensures
        stays(h, t, from_slice_s(t, data, shape, Dtype::Uint8).0),
        known(from_slice_s(t, data, shape, Dtype::Uint8).0, r),
        r.shape() == shape,
        r.dtype == Dtype::Uint8,
        r.layout.dense(),
        r.layout == crate::layout::packed(shape),
        forall|idx: Seq<int>| #[trigger]
            in_shape(idx, shape) ==> 0 <= ravel(shape, idx) < data.len() && val(
                now(h, from_slice_s(t, data, shape, Dtype::Uint8).0),
                r,
                idx,
            ) == data[ravel(shape, idx)],
{
    let c = CmdV::Write(t.next, data);
    let bytes = byte_size(shape, Dtype::Uint8);
    let m = lemma_put(h, n, t, bytes, "array"@, c);
    let u = from_slice_s(t, data, shape, Dtype::Uint8).0;
    lemma_fresh(t, shape, Dtype::Uint8);
    lemma_bytes_grow(t, data, shape);
    assert(u == t.then_alloc(bytes, "array"@).then_do(c));
    let after = now(h, u);
    assert(carried(c, m, after, n));
    assert(numel(shape) * 1 == data.len());
    assert forall|idx: Seq<int>| #[trigger] in_shape(idx, shape) implies 0 <= ravel(shape, idx)
        < data.len() && val(now(h, u), r, idx) == data[ravel(shape, idx)] by {
        assert(after(t.next, Dtype::Uint8, ravel(shape, idx)) == data[ravel(shape, idx)]);
    }
}

// ---- choices ----

proof fn lemma_choose_name(cond: Dtype, dt: Dtype)
    ensures
        where_kernel(cond, dt) matches Some(name) ==> name == choose_name(cond, dt)
            && kernel_tag_text(cond) is Some && kernel_tag_text(dt) is Some,
{
    reveal_strlit("where_");
    reveal_strlit("_");
    reveal_strlit("u8");
    reveal_strlit("u32");
    reveal_strlit("f32");
    reveal_strlit("f16");
    reveal_strlit("bf16");
    reveal_strlit("i64");
    reveal_strlit("where_u8_f32");
    reveal_strlit("where_u32_f32");
    reveal_strlit("where_u8_bf16");
    reveal_strlit("where_u8_f16");
    reveal_strlit("where_u8_i64");
    reveal_strlit("where_u8_u32");
    reveal_strlit("where_u8_u8");
    assert("where_u8_f32"@ =~= "where_"@ + "u8"@ + "_"@ + "f32"@);
    assert("where_u32_f32"@ =~= "where_"@ + "u32"@ + "_"@ + "f32"@);
    assert("where_u8_bf16"@ =~= "where_"@ + "u8"@ + "_"@ + "bf16"@);
    assert("where_u8_f16"@ =~= "where_"@ + "u8"@ + "_"@ + "f16"@);
    assert("where_u8_i64"@ =~= "where_"@ + "u8"@ + "_"@ + "i64"@);
    assert("where_u8_u32"@ =~= "where_"@ + "u8"@ + "_"@ + "u32"@);
    assert("where_u8_u8"@ =~= "where_"@ + "u8"@ + "_"@ + "u8"@);
}

pub proof fn lemma_where_grows(t: TapeV, c: ArrayV, a: ArrayV, b: ArrayV)
    ensures
        grows(t, where_s(t, c, a, b).0, 4),
{
    let (t1, o1) = contiguous_s(t, c);
    lemma_contiguous_grows(t, c);
    if o1 is Ok {
        let (t2, o2) = contiguous_s(t1, a);
        lemma_contiguous_grows(t1, a);
        lemma_grows(t, t1, t2, 1, 1);
        if o2 is Ok {
            let (t3, _) = contiguous_s(t2, b);
            lemma_contiguous_grows(t2, b);
            lemma_grows(t, t2, t3, 2, 1);
            assert(t3.next < u64::MAX ==> t3.next.wrapping_add(1) == t3.next + 1);
        }
    }
}

/// A choice takes every element from the one array where the condition holds, and
/// from the other where it does not.
#[verifier::rlimit(60)]
pub proof fn choices_go_by_the_condition(
    h: History,
    n: Numbers,
    t: TapeV,
    c: ArrayV,
    a: ArrayV,
    b: ArrayV,
    r: ArrayV,
)
    requires
        known(t, c) && known(t, a) && known(t, b),
        c.layout.dense() || short(c.layout),
        a.layout.dense() || short(a.layout),
        b.layout.dense() || short(b.layout),
        t.next + 4 <= u64::MAX,
        where_s(t, c, a, b).1 == Outcome::Ok(r),
        lives(h, where_s(t, c, a, b).0, n),
    ensures
        stays(h, t, where_s(t, c, a, b).0),
        known(where_s(t, c, a, b).0, r),
        r.shape() == a.shape(),
        r.dtype == a.dtype,
        r.layout.dense(),
        c.shape() == a.shape() && b.shape() == a.shape(),
        forall|idx: Seq<int>| #[trigger]
            in_shape(idx, a.shape()) ==> val(now(h, where_s(t, c, a, b).0), r, idx) == (if val(
                now(h, t),
                c,
                idx,
            ) != 0 {
                val(now(h, t), a, idx)
            } else {
                val(now(h, t), b, idx)
            }),
{
    let u = where_s(t, c, a, b).0;
    let name = where_kernel(c.dtype, a.dtype)->0;
    lemma_choose_name(c.dtype, a.dtype);
    let (t1, o1) = contiguous_s(t, c);
    let x = o1->Ok_0;
    let (t2, o2) = contiguous_s(t1, a);
    let y = o2->Ok_0;
    let (t3, o3) = contiguous_s(t2, b);
    let z = o3->Ok_0;
    let out = fresh(t3, c.shape(), a.dtype);
    let d = where_run(x, y, z, out, name);
    let bytes = byte_size(c.shape(), a.dtype);
    assert(u == recorded(t3, bytes, "where_out"@, d));
    lemma_contiguous_grows(t, c);
    lemma_contiguous_grows(t1, a);
    lemma_contiguous_grows(t2, b);
    lemma_recorded_grows(t3, bytes, "where_out"@, d);
    lemma_grows(t2, t3, u, 1, 1);
    lemma_grows(t1, t2, u, 1, 2);
    lemma_lives(h, n, t1, u, 3);
    lemma_lives(h, n, t2, u, 2);
    lemma_lives(h, n, t3, u, 1);
    packing_keeps_elements(h, n, t, c, x);
    packing_keeps_elements(h, n, t1, a, y);
    packing_keeps_elements(h, n, t2, b, z);
    lemma_fresh(t3, c.shape(), a.dtype);
    assert(d.args.len() == 10);
    assert(writes_only(d, t3.next));
    let m = lemma_recorded(h, n, t3, bytes, "where_out"@, d);
    assert(chooses(d, m, now(h, u), c.dtype, a.dtype)) by {
        reveal(launched);
        assert(in_order(d));
        assert(d.program.name == choose_name(c.dtype, a.dtype));
    }
    lemma_stays(h, t, t1, t2);
    lemma_stays(h, t, t2, t3);
    lemma_stays(h, t, t3, u);
    lemma_stays(h, t1, t2, t3);
    lemma_keeps(h, t1, t3, x);
    lemma_keeps(h, t2, t3, y);
    lemma_keeps(h, t, t1, a);
    lemma_keeps(h, t, t2, b);
    lemma_start(x);
    lemma_start(y);
    lemma_start(z);
    assert(d.args[0].1 == ArgV::Size(x.count() as usize));
    assert(d.args[6].1 == ArgV::Input(x.buf, x.start()));
    assert(d.args[7].1 == ArgV::Input(y.buf, y.start()));
    assert(d.args[8].1 == ArgV::Input(z.buf, z.start()));
    assert(d.args[9].1 == ArgV::Output(out.buf, 0));
    assert(0int / width(a.dtype) as int == 0);
    assert forall|idx: Seq<int>| #[trigger] in_shape(idx, a.shape()) implies val(now(h, u), r, idx)
        == (if val(now(h, t), c, idx) != 0 {
        val(now(h, t), a, idx)
    } else {
        val(now(h, t), b, idx)
    }) by {
        let p = ravel(a.shape(), idx);
        lemma_ravel(a.shape(), idx);
        lemma_dense_at(x.layout, idx);
        lemma_dense_at(y.layout, idx);
        lemma_dense_at(z.layout, idx);
        assert(read(now(h, u), d.args[9].1, a.dtype, p) == (if read(m, d.args[6].1, c.dtype, p)
            != 0 {
            read(m, d.args[7].1, a.dtype, p)
        } else {
            read(m, d.args[8].1, a.dtype, p)
        }));
        assert(m(x.buf, c.dtype, x.layout.offset + p) == now(h, t3)(
            x.buf,
            c.dtype,
            x.layout.offset + p,
        ));
        assert(m(y.buf, a.dtype, y.layout.offset + p) == now(h, t3)(
            y.buf,
            a.dtype,
            y.layout.offset + p,
        ));
        assert(m(z.buf, a.dtype, z.layout.offset + p) == now(h, t3)(
            z.buf,
            a.dtype,
            z.layout.offset + p,
        ));
        assert(val(now(h, t3), x, idx) == val(now(h, t), c, idx));
        assert(val(now(h, t3), y, idx) == val(now(h, t), a, idx));
        assert(val(now(h, t3), z, idx) == val(now(h, t), b, idx));
        assert(fresh(t3, c.shape(), a.dtype).layout.at(idx) == p);
    }
}

// ---- softmax ----

pub proof fn lemma_softmax_grows(t: TapeV, x: ArrayV, precise: bool)
    ensures
        grows(t, softmax_last_s(t, x, precise).0, 1),
{
    assert(t.next < u64::MAX ==> t.next.wrapping_add(1) == t.next + 1);
}

/// The row of an array through a position.
pub open spec fn row_through(m: Memory, x: ArrayV, idx: Seq<int>) -> Seq<int> {
    Seq::new(
        x.shape().last() as nat,
        |c: int| val(m, x, idx.update(idx.len() - 1, c)),
    )
}

/// A softmax weighs every element in its row.
#[verifier::rlimit(60)]
pub proof fn softmax_weighs_rows(
    h: History,
    n: Numbers,
    t: TapeV,
    x: ArrayV,
    precise: bool,
    r: ArrayV,
)
    requires
        known(t, x),
        countable_rows(x.shape()),
        t.next < u64::MAX,
        softmax_last_s(t, x, precise).1 == Outcome::Ok(r),
        lives(h, softmax_last_s(t, x, precise).0, n),
    ensures
        stays(h, t, softmax_last_s(t, x, precise).0),
        known(softmax_last_s(t, x, precise).0, r),
        r.shape() == x.shape(),
        r.dtype == x.dtype,
        r.layout.dense(),
        forall|idx: Seq<int>| #[trigger]
            in_shape(idx, x.shape()) ==> val(now(h, softmax_last_s(t, x, precise).0), r, idx) == (
            n.weight)(row_through(now(h, t), x, idx), idx.last()),
{
    let u = softmax_last_s(t, x, precise).0;
    let dt = x.dtype;
    let s = x.shape();
    let math = crate::tape::Math::SafeNoLang;
    let out = fresh(t, s, dt);
    let d = softmax_run(x, out, precise, math);
    let bytes = byte_size(s, dt);
    assert(u == recorded(t, bytes, "softmax_out"@, d));
    lemma_softmax_grows(t, x, precise);
    lemma_fresh(t, s, dt);
    assert(d.args.len() == 3);
    assert(writes_only(d, t.next));
    let m = lemma_recorded(h, n, t, bytes, "softmax_out"@, d);
    let flag = dt != Dtype::Float32 && precise;
    assert(weighs(d, m, now(h, u), dt, n)) by {
        reveal(launched);
        assert(in_order(d));
        let p = if flag {
            "softmax_precise_"@
        } else {
            "softmax_"@
        };
        assert("block_"@ + (p + tag_text(dt)) =~= "block_"@ + p + tag_text(dt));
        assert(d.program.name == softmax_name(dt, flag));
    }
    lemma_start(x);
    let row = s.last() as int;
    let tg = row_threads(s.last());
    let rows = rows_of(s);
    assert(d.args[0].1 == ArgV::Input(x.buf, x.start()));
    assert(d.args[1].1 == ArgV::Output(out.buf, 0));
    assert(d.args[2].1 == ArgV::I32(row as i32));
    assert(0int / width(dt) as int == 0);
    assert(0 <= tg <= 4128);
    assert(rows >= 0);
    assert(rows * tg >= 0) by (nonlinear_arith)
        requires
            rows >= 0,
            tg >= 0,
    ;
    assert(d.grid is Threads && d.grid->Threads_0.x == rows * tg && d.grid->Threads_1.x == tg);
    assert forall|idx: Seq<int>| #[trigger] in_shape(idx, s) implies val(now(h, u), r, idx) == (
    n.weight)(row_through(now(h, t), x, idx), idx.last()) by {
        let p = ravel(s, idx);
        let head = s.drop_last();
        let front = idx.drop_last();
        assert(0 <= idx[idx.len() - 1] < s[idx.len() - 1]);
        assert(in_shape(front, head)) by {
            assert forall|i: int| 0 <= i < front.len() implies 0 <= #[trigger] front[i] < head[i] by {
                assert(0 <= idx[i] < s[i]);
            }
        }
        lemma_ravel(head, front);
        let f = ravel(head, front);
        let last = idx.last();
        let nh = numel(head) as int;
        assert((f * row + last) / row == f && (f * row + last) % row == last) by (nonlinear_arith)
            requires
                f >= 0,
                0 <= last < row,
        ;
        assert((nh * row) / row == nh) by (nonlinear_arith)
            requires
                row > 0,
        ;
        assert(rows == nh);
        assert((f + 1) * tg <= rows * tg) by (nonlinear_arith)
            requires
                f + 1 <= rows,
                tg >= 0,
        ;
        assert(f * row >= 0) by (nonlinear_arith)
            requires
                f >= 0,
                row > 0,
        ;
        let seen = Seq::new(row as nat, |c: int| read(m, d.args[0].1, dt, f * row + c));
        assert(read(now(h, u), d.args[1].1, dt, p) == (n.weight)(seen, last));
        assert(seen =~= row_through(now(h, t), x, idx)) by {
            assert forall|c: int| 0 <= c < row implies #[trigger] seen[c] == row_through(
                now(h, t),
                x,
                idx,
            )[c] by {
                let j = idx.update(idx.len() - 1, c);
                assert(in_shape(j, s)) by {
                    assert forall|i: int| 0 <= i < j.len() implies 0 <= #[trigger] j[i] < s[i] by {
                        if i < idx.len() - 1 {
                            assert(0 <= idx[i] < s[i]);
                        }
                    }
                }
                lemma_dense_at(x.layout, j);
                assert(j.drop_last() =~= front);
                let q = x.layout.offset + (f * row + c);
                assert(m(x.buf, dt, q) == now(h, t)(x.buf, dt, q));
            }
        }
        assert(fresh(t, s, dt).layout.at(idx) == p);
    }
}

// ---- the mask of an attention ----

/// Whether the query at a place may look at the key at a place, when as many queries
/// as there are stand at the end of the keys.
pub open spec fn may_look(ql: int, kl: int, i: int, j: int) -> bool {
    j <= i + (kl - ql)
}

/// The number that a masked score is set to: the lowest of the 16-bit brain floats.
pub open spec fn lowest(n: Numbers, dt: Dtype) -> int {
    (n.number)(dt, Scalar::Bits(0xff7f_0000))
}

/// The causal mask lets a query look at no key behind its own place.
pub proof fn causal_mask_hides_the_future(ql: usize, kl: usize, i: int, j: int)
    requires
        0 <= i < ql,
        0 <= j < kl,
    ensures
        0 <= i * kl + j < causal_mask(ql, kl).len(),
        causal_mask(ql, kl)[i * kl + j] != 0 <==> may_look(ql as int, kl as int, i, j),
{
    assert(0 <= i * kl + j < ql * kl && (i * kl + j) / (kl as int) == i && (i * kl + j) % (
    kl as int) == j) by (nonlinear_arith)
        requires
            0 <= i < ql,
            0 <= j < kl,
    ;
}

/// Sizes that the copying kernel takes.
pub open spec fn short_sizes(s: Seq<usize>) -> bool {
    forall|i: int| 0 <= i < s.len() ==> #[trigger] s[i] <= u32::MAX
}

/// A position of the scores.
pub open spec fn score_in(z: Heads, idx: Seq<int>) -> bool {
    in_shape(idx, z.score_shape())
}

pub proof fn lemma_masked_grows(
    t: TapeV,
    scores: ArrayV,
    mask: Option<ArrayV>,
    z: Heads,
    dt: Dtype,
)
    ensures
        grows(t, masked_s(t, scores, mask, z, dt).0, 6),
{
    reveal(masked_s);
    reveal(mask_s);
    let u = masked_s(t, scores, mask, z, dt).0;
    let (t1, o1) = mask_s(t, mask, z);
    match mask {
        Some(m) => {
            lemma_contiguous_grows(t, m);
        },
        None => {
            lemma_bytes_grow(t, causal_mask(z.ql, z.kl), seq![z.ql, z.kl]);
        },
    }
    if o1 is Ok {
        let (t2, o2) = scalar_s(t1, Scalar::Bits(0xff7f_0000), dt);
        lemma_scalar_grows(t1, Scalar::Bits(0xff7f_0000), dt);
        lemma_grows(t, t1, t2, 1, 1);
        if o2 is Ok {
            let mb = broadcast_to_s(o1->Ok_0, scores.shape());
            let lb = broadcast_to_s(o2->Ok_0, scores.shape());
            if mb is Ok && lb is Ok {
                lemma_where_grows(t2, mb->Ok_0, scores, lb->Ok_0);
                lemma_grows(t, t2, u, 2, 4);
            }
        }
    }
}

/// Scores that are masked: without a mask of its own, a score that looks ahead is
/// the lowest number; with one, a score is the lowest number where the mask is zero.
/// Every other score stays.
#[verifier::rlimit(60)]
pub proof fn masked_scores_do_not_look_ahead(
    h: History,
    n: Numbers,
    t: TapeV,
    scores: ArrayV,
    mask: Option<ArrayV>,
    z: Heads,
    dt: Dtype,
    r: ArrayV,
)
    requires
        known(t, scores),
        scores.layout.dense(),
        scores.shape() == z.score_shape(),
        roomy(seq![z.ql, z.kl]),
        short_sizes(z.score_shape()),
        mask matches Some(m) ==> known(t, m) && m.layout.dense() && short(m.layout),
        t.next + 6 <= u64::MAX,
        masked_s(t, scores, mask, z, dt).1 == Outcome::Ok(r),
        lives(h, masked_s(t, scores, mask, z, dt).0, n),
    ensures
        stays(h, t, masked_s(t, scores, mask, z, dt).0),
        known(masked_s(t, scores, mask, z, dt).0, r),
        r.shape() == scores.shape(),
        r.dtype == scores.dtype,
        r.layout.dense(),
        forall|idx: Seq<int>| #[trigger]
            score_in(z, idx) ==> val(now(h, masked_s(t, scores, mask, z, dt).0), r, idx) == (if (
            match mask {
                Some(m) => val(now(h, t), m, under(m.shape(), idx)) != 0,
                None => may_look(z.ql as int, z.kl as int, idx[3], idx[4]),
            }) {
                val(now(h, t), scores, idx)
            } else {
                lowest(n, dt)
            }),
{
    reveal(masked_s);
    reveal(mask_s);
    let u = masked_s(t, scores, mask, z, dt).0;
    let s = z.score_shape();
    let small = seq![z.ql, z.kl];
    let low = Scalar::Bits(0xff7f_0000);
    let (t1, o1) = mask_s(t, mask, z);
    let m = o1->Ok_0;
    let (t2, o2) = scalar_s(t1, low, dt);
    let w = o2->Ok_0;
    let mb = broadcast_to_s(m, s)->Ok_0;
    let lb = broadcast_to_s(w, s)->Ok_0;
    assert(u == where_s(t2, mb, scores, lb).0);
    lemma_scalar_grows(t1, low, dt);
    lemma_where_grows(t2, mb, scores, lb);
    lemma_grows(t1, t2, u, 1, 4);
    lemma_lives(h, n, t1, u, 5);
    lemma_lives(h, n, t2, u, 4);
    match mask {
        Some(a) => {
            lemma_contiguous_grows(t, a);
            assert(m == a && t1 == t);
        },
        None => {
            lemma_bytes_grow(t, causal_mask(z.ql, z.kl), small);
            bytes_are_elements(h, n, t, causal_mask(z.ql, z.kl), small, m);
            assert(short(m.layout)) by {
                lemma_roomy(small, Dtype::Uint8);
                crate::views::packed_is_dense(small);
                assert(s[3] <= u32::MAX && s[4] <= u32::MAX);
                assert(small.skip(1) =~= seq![z.kl]);
                assert(small.skip(2) =~= Seq::<usize>::empty());
                crate::layout::lemma_numel_one(z.kl);
                assert forall|i: int| 0 <= i < 2 implies #[trigger] m.layout.shape[i] <= u32::MAX
                    && m.layout.strides[i] <= u32::MAX by {
                    assert(m.layout.strides[i] == crate::layout::row_major(small)[i]);
                    assert(i == 0 || i == 1);
                }
            }
        },
    }
    scalars_hold_their_number(h, n, t1, low, dt, w);
    assert(short(w.layout));
    lemma_spread_short(m, s, mb);
    lemma_spread_short(w, s, lb);
    lemma_stays(h, t, t1, t2);
    lemma_spread_known(t1, m, s, mb, scores);
    lemma_spread_known(t2, w, s, lb, scores);
    choices_go_by_the_condition(h, n, t2, mb, scores, lb, r);
    lemma_stays(h, t, t2, u);
    lemma_keeps(h, t, t2, scores);
    lemma_keeps(h, t1, t2, m);
    assert forall|idx: Seq<int>| #[trigger] score_in(z, idx) implies val(now(h, u), r, idx) == (if (
    match mask {
        Some(a) => val(now(h, t), a, under(a.shape(), idx)) != 0,
        None => may_look(z.ql as int, z.kl as int, idx[3], idx[4]),
    }) {
        val(now(h, t), scores, idx)
    } else {
        lowest(n, dt)
    }) by {
        assert(in_shape(idx, scores.shape()));
        lemma_spread_at(m, s, mb, idx);
        lemma_spread_at(w, s, lb, idx);
        assert(under(w.shape(), idx) =~= Seq::<int>::empty());
        assert(val(now(h, t2), lb, idx) == lowest(n, dt));
        assert(val(now(h, t2), mb, idx) == val(now(h, t2), m, under(m.shape(), idx)));
        assert(val(now(h, t2), m, under(m.shape(), idx)) == val(
            now(h, t1),
            m,
            under(m.shape(), idx),
        ));
        if mask is None {
            let (i, j) = (idx[3], idx[4]);
            assert(0 <= idx[3] < s[3]);
            assert(0 <= idx[4] < s[4]);
            assert(under(small, idx) =~= seq![i, j]);
            causal_mask_hides_the_future(z.ql, z.kl, i, j);
            crate::delta_rule::lemma_ravel2(z.ql, z.kl, i, j);
            assert(in_shape(seq![i, j], small));
        }
    }
}

/// Whether an attention lets the query of a position look at its key.
pub open spec fn visible(
    m: Memory,
    causal: bool,
    mask: Option<ArrayV>,
    z: Heads,
    idx: Seq<int>,
) -> bool {
    match mask {
        Some(a) => val(m, a, under(a.shape(), idx)) != 0,
        None => causal ==> may_look(z.ql as int, z.kl as int, idx[3], idx[4]),
    }
}

/// A spread array is known where the array is.
proof fn lemma_spread_known(t: TapeV, a: ArrayV, shape: Seq<usize>, x: ArrayV, like: ArrayV)
    requires
        known(t, a),
        roomy(shape),
        shape.len() <= usize::MAX,
        broadcast_to_s(a, shape) == Outcome::Ok(x),
        like.shape() == shape,
    ensures
        known(t, x),
{
    let cap = a.bytes as int / width(a.dtype) as int;
    let k = (shape.len() - a.rank()) as nat;
    lemma_lifted_inside(a, k, cap);
    crate::views::spread_stays_inside(crate::array::lifted(a, k).layout, shape, cap);
}

proof fn lemma_lifted_inside(a: ArrayV, k: nat, cap: int)
    requires
        a.layout.wf(),
        a.layout.inside(cap),
    ensures
        crate::array::lifted(a, k).layout.wf(),
        crate::array::lifted(a, k).layout.inside(cap),
        crate::array::lifted(a, k).layout.offset == a.layout.offset,
        crate::array::lifted(a, k).buf == a.buf,
        crate::array::lifted(a, k).bytes == a.bytes,
        crate::array::lifted(a, k).dtype == a.dtype,
    decreases k,
{
    if k > 0 {
        lemma_lifted_inside(a, (k - 1) as nat, cap);
        crate::views::expanded_stays_inside(
            crate::array::lifted(a, (k - 1) as nat).layout,
            0,
            cap,
        );
    }
}

} // verus!
