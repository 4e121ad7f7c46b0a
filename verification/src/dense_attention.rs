//! Attention as a chain of array operations, and the choice between the
//! attention kernels.

use vstd::prelude::*;

use crate::array::{
    broadcast_to_s, contiguous_s, from_slice_s, lemma_roomy, reshape_s, roomy, seen, transpose_s,
    Array, ArrayV, Outcome,
};
use crate::attention::{
    attended, attends, full_s, key_blocks, partial_rows, partials, query_simds, sdpa_full_nax,
    sdpa_vector, sdpa_vector_2pass, two_pass_s, vector_s,
};
use crate::dtype::{width, Dtype};
use crate::elementwise::{binary_s, broadcasted, scalar_s, where_s};
use crate::error::Error;
use crate::join::{
    array_views, axis_total, cat_fault, cat_shape, first_at, joinable, lifted_at, Outcomes,
    part_fits, stack, stack_s,
};
use crate::layout::{is_void, numel, packed, volume};
use crate::matmul::{device_class, device_type};
use crate::nax::{matmul_nax, nax_s};
use crate::reduce::{countable_rows, softmax_last_axis, softmax_last_s};
use crate::tape::{Scalar, Tape, TapeV};
use crate::text::{cat3, dec, decimal_usize};
use crate::views::packed_is_dense;
use crate::words::{i32_words, i64_words};

verus! {

// ---- products of matrices picked out of two arrays ----

/// The left matrix of a product: a query head, or a block of scores.
pub open spec fn left_of(queries: bool, a: ArrayV, r: int, bi: int, hi: int, ri: int) -> ArrayV {
    if queries {
        first_at(first_at(a, bi as usize), (hi * r + ri) as usize)
    } else {
        first_at(first_at(first_at(a, bi as usize), hi as usize), ri as usize)
    }
}

/// The product of two matrices, the left one packed first.
#[verifier::opaque]
pub open spec fn packed_product(t: TapeV, left: ArrayV, right: ArrayV) -> (TapeV, Outcome) {
    match contiguous_s(t, left) {
        (t1, Err(m)) => (t1, Err(m)),
        (t1, Ok(x)) => nax_s(t1, x, right, false, false),
    }
}

/// A matrix picked out of an array, packed.
#[verifier::opaque]
pub open spec fn packed_matrix(t: TapeV, b: ArrayV, bi: int, hi: int) -> (TapeV, Outcome) {
    contiguous_s(t, first_at(first_at(b, bi as usize), hi as usize))
}

/// The products of the first `n` left matrices that share a right one.
pub open spec fn shared_products(
    t: TapeV,
    queries: bool,
    a: ArrayV,
    right: ArrayV,
    r: int,
    bi: int,
    hi: int,
    n: int,
) -> (TapeV, Outcomes)
    decreases n,
{
    if n <= 0 {
        (t, Ok(Seq::empty()))
    } else {
        match shared_products(t, queries, a, right, r, bi, hi, n - 1) {
            (t1, Err(m)) => (t1, Err(m)),
            (t1, Ok(rows)) => match packed_product(
                t1,
                left_of(queries, a, r, bi, hi, n - 1),
                right,
            ) {
                (t2, Err(m)) => (t2, Err(m)),
                (t2, Ok(y)) => (t2, Ok(rows.push(y))),
            },
        }
    }
}

/// The products over the first `p` pairs of batch and head of the right array.
pub open spec fn paired_products(
    t: TapeV,
    queries: bool,
    a: ArrayV,
    b: ArrayV,
    hk: int,
    r: int,
    p: int,
) -> (TapeV, Outcomes)
    decreases p,
{
    if p <= 0 {
        (t, Ok(Seq::empty()))
    } else {
        let bi = (p - 1) / hk;
        let hi = (p - 1) % hk;
        match paired_products(t, queries, a, b, hk, r, p - 1) {
            (t1, Err(m)) => (t1, Err(m)),
            (t1, Ok(rows)) => match packed_matrix(t1, b, bi, hi) {
                (t2, Err(m)) => (t2, Err(m)),
                (t2, Ok(right)) => match shared_products(t2, queries, a, right, r, bi, hi, r) {
                    (t3, Err(m)) => (t3, Err(m)),
                    (t3, Ok(more)) => (t3, Ok(rows + more)),
                },
            },
        }
    }
}

/// A list of packed matrices of one size and type.
pub open spec fn matrices_of(v: Seq<ArrayV>, m: usize, n: usize, dt: Dtype) -> bool {
    forall|i: int|
        0 <= i < v.len() ==> (#[trigger] v[i]).wf() && v[i].layout == packed(seq![m, n])
            && v[i].dtype == dt
}

/// The arrays that a product is picked out of.
pub open spec fn pickable(
    queries: bool,
    a: ArrayV,
    b: ArrayV,
    nb: usize,
    hk: usize,
    r: usize,
) -> bool {
    &&& a.wf()
    &&& b.wf()
    &&& !is_void(a.shape())
    &&& !is_void(b.shape())
    &&& b.rank() == 4
    &&& b.shape()[0] == nb
    &&& b.shape()[1] == hk
    &&& a.shape()[0] == nb
    &&& if queries {
        a.rank() == 4 && hk * r <= a.shape()[1]
    } else {
        a.rank() == 5 && a.shape()[1] == hk && a.shape()[2] == r
    }
}

/// The rows of each product.
pub open spec fn left_rows(queries: bool, a: ArrayV) -> usize {
    if queries {
        a.shape()[2]
    } else {
        a.shape()[3]
    }
}

/// Records the product of two matrices, the left one packed first.
fn record_product(tape: &mut Tape, left: &Array, right: &Array) -> (r: Result<Array, Error>)
    requires
        left@.wf(),
        left@.rank() == 2,
        right@.wf(),
        right@.rank() == 2,
        roomy(seq![left@.shape()[0], right@.shape()[1]]),
    ensures
        (final(tape)@, seen(r)) == packed_product(old(tape)@, left@, right@),
        r matches Ok(y) ==> y@.wf() && y@.layout == packed(
            seq![left@.shape()[0], right@.shape()[1]],
        ) && y@.dtype == left@.dtype,
{
    reveal(packed_product);
    match left.contiguous(tape) {
        Ok(x) => matmul_nax(tape, &x, right, false, false),
        Err(e) => Err(e),
    }
}

/// Records the packing of a matrix picked out of an array.
fn record_matrix(tape: &mut Tape, b: &Array, bi: usize, hi: usize) -> (r: Result<Array, Error>)
    requires
        b@.wf(),
        b@.rank() == 4,
        !is_void(b@.shape()),
        bi < b@.shape()[0],
        hi < b@.shape()[1],
    ensures
        (final(tape)@, seen(r)) == packed_matrix(old(tape)@, b@, bi as int, hi as int),
        r matches Ok(y) ==> y@.wf() && y@.rank() == 2 && y@.shape()[1] == b@.shape()[3],
{
    reveal(packed_matrix);
    let w = b.pair_at((bi, hi));
    w.contiguous(tape)
}

/// Picks a left matrix.
fn pick_left(queries: bool, a: &Array, r: usize, bi: usize, hi: usize, ri: usize) -> (l: Array)
    requires
        a@.wf(),
        !is_void(a@.shape()),
        a@.rank() == (if queries {
            4nat
        } else {
            5
        }),
        bi < a@.shape()[0],
        queries ==> hi * r + ri < a@.shape()[1],
        !queries ==> hi < a@.shape()[1] && ri < a@.shape()[2],
    ensures
        l@ == left_of(queries, a@, r as int, bi as int, hi as int, ri as int),
        l@.wf(),
        l@.rank() == 2,
        l@.shape()[0] == left_rows(queries, a@),
        l@.dtype == a@.dtype,
{
    if queries {
        assert(hi * r <= hi * r + ri);
        a.pair_at((bi, hi * r + ri))
    } else {
        a.triple_at(bi, hi, ri)
    }
}

fn record_shared(
    tape: &mut Tape,
    queries: bool,
    a: &Array,
    right: &Array,
    r: usize,
    bi: usize,
    hi: usize,
    Ghost(hk): Ghost<usize>,
    Ghost(b): Ghost<ArrayV>,
) -> (out: Result<Vec<Array>, Error>)
    requires
        pickable(queries, a@, b, a@.shape()[0], hk, r),
        bi < a@.shape()[0],
        hi < hk,
        right@.wf(),
        right@.rank() == 2,
        roomy(seq![left_rows(queries, a@), right@.shape()[1]]),
    ensures
        match out {
            Ok(v) => (final(tape)@, Outcomes::Ok(array_views(v@))) == shared_products(
                old(tape)@,
                queries,
                a@,
                right@,
                r as int,
                bi as int,
                hi as int,
                r as int,
            ) && v@.len() == r && matrices_of(
                array_views(v@),
                left_rows(queries, a@),
                right@.shape()[1],
                a@.dtype,
            ),
            Err(e) => (final(tape)@, Outcomes::Err(e.text())) == shared_products(
                old(tape)@,
                queries,
                a@,
                right@,
                r as int,
                bi as int,
                hi as int,
                r as int,
            ),
        },
{
    let mut v: Vec<Array> = Vec::new();
    let mut ri: usize = 0;
    let ghost m = left_rows(queries, a@);
    let ghost n = right@.shape()[1];
    assert(array_views(v@) =~= Seq::empty());
    while ri < r
        invariant
            ri <= r,
            pickable(queries, a@, b, a@.shape()[0], hk, r),
            bi < a@.shape()[0],
            hi < hk,
            right@.wf(),
            right@.rank() == 2,
            m == left_rows(queries, a@),
            n == right@.shape()[1],
            roomy(seq![m, n]),
            v@.len() == ri,
            matrices_of(array_views(v@), m, n, a@.dtype),
            (tape@, Outcomes::Ok(array_views(v@))) == shared_products(
                old(tape)@,
                queries,
                a@,
                right@,
                r as int,
                bi as int,
                hi as int,
                ri as int,
            ),
        decreases r - ri,
    {
        proof {
            assert(hi * r + ri < hk * r) by (nonlinear_arith)
                requires
                    hi + 1 <= hk,
                    ri < r,
                    hi >= 0,
            ;
            lemma_shared_stops(
                old(tape)@,
                queries,
                a@,
                right@,
                r as int,
                bi as int,
                hi as int,
                ri + 1,
                r as int,
            );
        }
        let l = pick_left(queries, a, r, bi, hi, ri);
        let ghost before = array_views(v@);
        match record_product(tape, &l, right) {
            Ok(y) => {
                v.push(y);
                proof {
                    assert(array_views(v@) =~= before.push(y@));
                    assert(y@.layout == packed(seq![m, n]));
                    assert forall|i: int| 0 <= i < array_views(v@).len() implies (
                    #[trigger] array_views(v@)[i]).wf() && array_views(v@)[i].layout == packed(
                        seq![m, n],
                    ) && array_views(v@)[i].dtype == a@.dtype by {
                        if i < before.len() {
                            assert(before[i].wf());
                        }
                    }
                }
            },
            Err(e) => {
                return Err(e);
            },
        }
        ri += 1;
    }
    Ok(v)
}

proof fn lemma_shared_stops(
    t: TapeV,
    queries: bool,
    a: ArrayV,
    right: ArrayV,
    r: int,
    bi: int,
    hi: int,
    k: int,
    n: int,
)
    requires
        0 <= k <= n,
    ensures
        shared_products(t, queries, a, right, r, bi, hi, k).1 is Err ==> shared_products(
            t,
            queries,
            a,
            right,
            r,
            bi,
            hi,
            n,
        ) == shared_products(t, queries, a, right, r, bi, hi, k),
    decreases n - k,
{
    if k < n {
        lemma_shared_stops(t, queries, a, right, r, bi, hi, k, n - 1);
    }
}

proof fn lemma_paired_stops(
    t: TapeV,
    queries: bool,
    a: ArrayV,
    b: ArrayV,
    hk: int,
    r: int,
    k: int,
    n: int,
)
    requires
        0 <= k <= n,
    ensures
        paired_products(t, queries, a, b, hk, r, k).1 is Err ==> paired_products(
            t,
            queries,
            a,
            b,
            hk,
            r,
            n,
        ) == paired_products(t, queries, a, b, hk, r, k),
    decreases n - k,
{
    if k < n {
        lemma_paired_stops(t, queries, a, b, hk, r, k, n - 1);
    }
}

/// Records the products of the matrices of two arrays.
fn record_products(
    tape: &mut Tape,
    queries: bool,
    a: &Array,
    b: &Array,
    nb: usize,
    hk: usize,
    r: usize,
) -> (out: Result<Vec<Array>, Error>)
    requires
        pickable(queries, a@, b@, nb, hk, r),
        nb * hk <= usize::MAX,
        roomy(seq![left_rows(queries, a@), b@.shape()[3]]),
    ensures
        match out {
            Ok(v) => (final(tape)@, Outcomes::Ok(array_views(v@))) == paired_products(
                old(tape)@,
                queries,
                a@,
                b@,
                hk as int,
                r as int,
                nb * hk,
            ) && v@.len() == nb * hk * r && matrices_of(
                array_views(v@),
                left_rows(queries, a@),
                b@.shape()[3],
                a@.dtype,
            ),
            Err(e) => (final(tape)@, Outcomes::Err(e.text())) == paired_products(
                old(tape)@,
                queries,
                a@,
                b@,
                hk as int,
                r as int,
                nb * hk,
            ),
        },
{
    let total: usize = nb * hk;
    let ghost m = left_rows(queries, a@);
    let ghost n = b@.shape()[3];
    let mut v: Vec<Array> = Vec::new();
    let mut p: usize = 0;
    assert(array_views(v@) =~= Seq::empty());
    assert(0 * r == 0) by (nonlinear_arith);
    while p < total
        invariant
            p <= total,
            total == nb * hk,
            pickable(queries, a@, b@, nb, hk, r),
            m == left_rows(queries, a@),
            n == b@.shape()[3],
            roomy(seq![m, n]),
            v@.len() == p * r,
            matrices_of(array_views(v@), m, n, a@.dtype),
            (tape@, Outcomes::Ok(array_views(v@))) == paired_products(
                old(tape)@,
                queries,
                a@,
                b@,
                hk as int,
                r as int,
                p as int,
            ),
        decreases total - p,
    {
        proof {
            lemma_paired_stops(
                old(tape)@,
                queries,
                a@,
                b@,
                hk as int,
                r as int,
                p + 1,
                nb * hk,
            );
            assert(hk > 0) by (nonlinear_arith)
                requires
                    p < nb * hk,
                    p >= 0,
                    hk >= 0,
            ;
            assert((p as int) / (hk as int) < nb && 0 <= (p as int) % (hk as int) && (p as int) % (hk as int) < hk) by (nonlinear_arith)
                requires
                    0 <= p < nb * hk,
                    hk > 0,
            ;
        }
        let bi: usize = p / hk;
        let hi: usize = p % hk;
        let right = match record_matrix(tape, b, bi, hi) {
            Ok(x) => x,
            Err(e) => {
                return Err(e);
            },
        };
        let ghost before = array_views(v@);
        let mut more = match record_shared(
            tape,
            queries,
            a,
            &right,
            r,
            bi,
            hi,
            Ghost(hk),
            Ghost(b@),
        ) {
            Ok(x) => x,
            Err(e) => {
                return Err(e);
            },
        };
        let ghost extra = array_views(more@);
        v.append(&mut more);
        proof {
            assert(array_views(v@) =~= before + extra);
            assert((p + 1) * r == p * r + r) by (nonlinear_arith);
            assert forall|i: int| 0 <= i < array_views(v@).len() implies (#[trigger] array_views(
                v@,
            )[i]).wf() && array_views(v@)[i].layout == packed(seq![m, n]) && array_views(v@)[i].dtype
                == a@.dtype by {
                if i < before.len() {
                    assert(before[i].wf());
                } else {
                    assert(extra[i - before.len()].wf());
                }
            }
        }
        p += 1;
    }
    Ok(v)
}

// ---- stacking matrices ----

pub proof fn lemma_no_stack_fault(v: Seq<ArrayV>, k: int)
    requires
        0 <= k <= v.len(),
        forall|i: int|
            0 <= i < v.len() ==> (#[trigger] v[i]).shape() == v[0].shape() && v[i].dtype
                == v[0].dtype,
    ensures
        cat_fault(v, 0, k) is None,
    decreases k,
{
    if k > 0 {
        lemma_no_stack_fault(v, k - 1);
        assert(v[k - 1].shape() == v[0].shape());
    }
}

pub proof fn lemma_unit_total(v: Seq<ArrayV>)
    requires
        forall|i: int| 0 <= i < v.len() ==> (#[trigger] v[i]).shape()[0] == 1,
    ensures
        axis_total(v, 0) == v.len(),
    decreases v.len(),
{
    if v.len() > 0 {
        assert forall|i: int| 0 <= i < v.drop_last().len() implies (
        #[trigger] v.drop_last()[i]).shape()[0] == 1 by {
            assert(v[i].shape()[0] == 1);
        }
        lemma_unit_total(v.drop_last());
        assert(v[v.len() - 1].shape()[0] == 1);
    }
}

/// Packed matrices of one size and type can be stacked.
pub proof fn lemma_stackable(v: Seq<ArrayV>, m: usize, n: usize, dt: Dtype)
    requires
        matrices_of(v, m, n, dt),
        v.len() <= usize::MAX,
        roomy(seq![v.len() as usize, m, n]),
        m <= i32::MAX,
        n <= i32::MAX,
    ensures
        joinable(lifted_at(v, 0), 0),
        v.len() > 0 ==> cat_shape(lifted_at(v, 0), 0) == seq![v.len() as usize, m, n],
{
    let w = lifted_at(v, 0);
    let base = seq![m, n];
    let k = v.len() as usize;
    let whole = seq![k, m, n];
    assert forall|i: int| 0 <= i < w.len() implies (#[trigger] w[i]).wf() && w[i].shape() == seq![
        1usize,
        m,
        n,
    ] && w[i].dtype == dt && w[i].strides() == packed(base).strides.insert(0, 0) by {
        assert(v[i].wf());
        crate::views::expanded_stays_inside(
            v[i].layout,
            0,
            v[i].bytes as int / width(v[i].dtype) as int,
        );
        assert(w[i].shape() =~= seq![1usize, m, n]);
    }
    lemma_no_stack_fault(w, w.len() as int);
    lemma_unit_total(w);
    if w.len() > 0 {
        assert(w[0].wf());
        assert(cat_shape(w, 0) =~= whole);
        lemma_roomy(whole, dt);
        packed_is_dense(whole);
        lemma_two(m, n);
        lemma_three_strides(k, m, n);
        assert forall|i: int| 0 <= i < w.len() implies #[trigger] part_fits(
            w[i],
            cat_shape(w, 0),
        ) by {
            let a = w[i];
            assert(a.wf());
            let sh = i32_words(a.shape());
            let st = seq![i64_words(a.strides()), i64_words(packed(whole).strides)];
            assert(sh =~= seq![1i32, m as i32, n as i32]);
            assert(a.strides() =~= seq![0usize, n, 1usize]);
            assert(st[0] =~= seq![0i64, n as i64, 1i64]);
            assert(packed(whole).strides =~= seq![(m * n) as usize, n, 1usize]);
            assert(st[1] =~= seq![(m * n) as usize as i64, n as i64, 1i64]);
            assert(n * m <= 0x7fff_ffff * 0x7fff_ffff && m * n <= 0x7fff_ffff * 0x7fff_ffff)
                by (nonlinear_arith)
                requires
                    m <= 0x7fff_ffff,
                    n <= 0x7fff_ffff,
            ;
            assert forall|j: int, q: int|
                0 <= j < st.len() && 0 <= q < sh.len() implies i64::MIN <= #[trigger] st[j][q]
                * sh[q] <= i64::MAX by {
                assert(j == 0 || j == 1);
                assert(q == 0 || q == 1 || q == 2);
                assert(st[j][1] == n && st[j][2] == 1);
                assert(sh[0] == 1 && sh[1] == m && sh[2] == n);
                if q == 1 {
                    assert(st[j][1] * sh[1] == n * m);
                } else if q == 2 {
                    assert(st[j][2] * sh[2] == 1 * n);
                }
            }
            assert forall|j: int| 0 <= j < st.len() implies (#[trigger] st[j]).len()
                >= sh.len() by {
            }
        }
    }
}

/// The sizes of a shape of two axes.
pub proof fn lemma_two(m: usize, n: usize)
    ensures
        numel(seq![m, n]) == m * n,
        numel(seq![m, n].skip(1)) == n,
        numel(seq![m, n].skip(2)) == 1,
{
    assert(seq![m, n].drop_last() =~= seq![m]);
    crate::layout::lemma_numel_one(m);
    crate::layout::lemma_numel_one(n);
    assert(seq![m, n].skip(1) =~= seq![n]);
    assert(seq![m, n].skip(2) =~= Seq::<usize>::empty());
}

/// The row-major strides of shapes of two and three axes.
pub proof fn lemma_three_strides(k: usize, m: usize, n: usize)
    requires
        volume(seq![k, m, n]) <= usize::MAX,
    ensures
        packed(seq![m, n]).strides == seq![n, 1usize],
        packed(seq![k, m, n]).strides == seq![(m * n) as usize, n, 1usize],
        m * n <= usize::MAX,
{
    lemma_two(m, n);
    let s = seq![k, m, n];
    assert(s.skip(1) =~= seq![m, n]);
    assert(s.skip(2) =~= seq![n]);
    assert(s.skip(3) =~= Seq::<usize>::empty());
    crate::layout::lemma_numel_one(n);
    crate::layout::lemma_volume_skip(s, 1);
    crate::layout::lemma_volume_bounds(s.skip(1));
    assert(packed(seq![m, n]).strides =~= seq![n, 1usize]);
    assert(packed(s).strides =~= seq![(m * n) as usize, n, 1usize]);
}

// ---- the chain ----

/// The sizes of an attention: batches, query heads, key heads, queries, keys
/// and the width of a head.
#[derive(Clone, Copy, PartialEq, Eq, Structural, Debug)]
pub struct Heads {
    pub b: usize,
    pub h: usize,
    pub hk: usize,
    pub ql: usize,
    pub kl: usize,
    pub d: usize,
    pub vd: usize,
}

/// The sizes of an attention over these arrays.
pub open spec fn heads_of(q: ArrayV, k: ArrayV, v: ArrayV) -> Heads {
    Heads {
        b: q.shape()[0],
        h: q.shape()[1],
        hk: k.shape()[1],
        ql: q.shape()[2],
        kl: k.shape()[2],
        d: q.shape()[3],
        vd: v.shape()[3],
    }
}

impl Heads {
    /// The query heads that share a head of keys.
    pub open spec fn r(self) -> usize {
        (self.h / self.hk) as usize
    }

    /// The number of products.
    pub open spec fn n(self) -> int {
        self.b * self.hk * self.r()
    }

    /// The shape of the scores.
    pub open spec fn score_shape(self) -> Seq<usize> {
        seq![self.b, self.hk, self.r(), self.ql, self.kl]
    }

    /// The shape of the results by key head.
    pub open spec fn value_shape(self) -> Seq<usize> {
        seq![self.b, self.hk, self.r(), self.ql, self.d]
    }

    /// The shape of the result.
    pub open spec fn out_shape(self) -> Seq<usize> {
        seq![self.b, self.h, self.ql, self.d]
    }

    /// The sizes that the chain works out fit.
    pub open spec fn fits(self) -> bool {
        &&& self.hk > 0
        &&& self.b * self.hk <= usize::MAX
        &&& self.n() <= usize::MAX
        &&& roomy(self.score_shape())
        &&& roomy(self.value_shape())
        &&& roomy(self.out_shape())
        &&& roomy(seq![self.ql, self.kl])
        &&& roomy(seq![self.ql, self.vd])
        &&& roomy(seq![self.n() as usize, self.ql, self.kl])
        &&& roomy(seq![self.n() as usize, self.ql, self.vd])
        &&& self.ql <= i32::MAX
        &&& self.kl <= i32::MAX
        &&& self.vd <= i32::MAX
        &&& self.kl <= 4096 ==> countable_rows(self.score_shape())
    }
}

/// Queries, keys and values with elements, whose sizes go together.
pub open spec fn chainable(q: ArrayV, k: ArrayV, v: ArrayV) -> bool {
    &&& attends(q, k, v)
    &&& !is_void(q.shape())
    &&& !is_void(k.shape())
    &&& !is_void(v.shape())
    &&& k.shape()[0] == q.shape()[0]
    &&& v.shape()[0] == q.shape()[0]
    &&& v.shape()[1] == k.shape()[1]
    &&& heads_of(q, k, v).fits()
}

/// A list of matrices stacked and given another shape.
#[verifier::opaque]
pub open spec fn stacked_as(t: TapeV, rows: Seq<ArrayV>, shape: Seq<usize>) -> (TapeV, Outcome) {
    match stack_s(t, rows, 0) {
        (t1, Err(m)) => (t1, Err(m)),
        (t1, Ok(s)) => reshape_s(t1, s, shape),
    }
}

fn record_stacked(
    tape: &mut Tape,
    rows: &Vec<Array>,
    shape: &[usize],
    Ghost(m): Ghost<usize>,
    Ghost(n): Ghost<usize>,
    Ghost(dt): Ghost<Dtype>,
) -> (r: Result<Array, Error>)
    requires
        matrices_of(array_views(rows@), m, n, dt),
        roomy(seq![rows@.len() as usize, m, n]),
        m <= i32::MAX,
        n <= i32::MAX,
        roomy(shape@),
    ensures
        (final(tape)@, seen(r)) == stacked_as(old(tape)@, array_views(rows@), shape@),
        r matches Ok(a) ==> a@.wf() && a@.shape() == shape@ && a@.layout.dense() && a@.dtype == dt
            && rows@.len() > 0,
{
    reveal(stacked_as);
    let count = rows.len();
    proof {
        lemma_stackable(array_views(rows@), m, n, dt);
        assert forall|i: int| 0 <= i < rows@.len() implies (#[trigger] rows@[i])@.wf() by {
            assert(array_views(rows@)[i].wf());
        }
        if rows@.len() > 0 {
            assert(array_views(rows@)[0].dtype == dt);
        }
    }
    match stack(tape, rows, 0) {
        Ok(s) => s.reshape(tape, shape),
        Err(e) => Err(e),
    }
}

/// The scaled queries against the keys.
#[verifier::opaque]
pub open spec fn scores_s(t: TapeV, q: ArrayV, k: ArrayV, v: ArrayV, scale: u32) -> (
    TapeV,
    Outcome,
) {
    let z = heads_of(q, k, v);
    match scalar_s(t, Scalar::Bits(scale), q.dtype) {
        (t1, Err(m)) => (t1, Err(m)),
        (t1, Ok(s)) => match binary_s(t1, q, s, "bmul"@) {
            (t2, Err(m)) => (t2, Err(m)),
            (t2, Ok(qs)) => match contiguous_s(t2, transpose_s(k, 2, 3)->Ok_0) {
                (t3, Err(m)) => (t3, Err(m)),
                (t3, Ok(kt)) => match paired_products(
                    t3,
                    true,
                    qs,
                    kt,
                    z.hk as int,
                    z.r() as int,
                    z.b * z.hk,
                ) {
                    (t4, Err(m)) => (t4, Err(m)),
                    (t4, Ok(rows)) => stacked_as(t4, rows, z.score_shape()),
                },
            },
        },
    }
}

fn head_counts(q: &Array, k: &Array, v: &Array) -> (z: Heads)
    requires
        attends(q@, k@, v@),
    ensures
        z == heads_of(q@, k@, v@),
{
    Heads {
        b: q.layout.shape[0],
        h: q.layout.shape[1],
        hk: k.layout.shape[1],
        ql: q.layout.shape[2],
        kl: k.layout.shape[2],
        d: q.layout.shape[3],
        vd: v.layout.shape[3],
    }
}

/// Records the scaled queries against the keys.
fn record_scores(tape: &mut Tape, q: &Array, k: &Array, v: &Array, scale: u32) -> (r: Result<
    Array,
    Error,
>)
    requires
        chainable(q@, k@, v@),
    ensures
        (final(tape)@, seen(r)) == scores_s(old(tape)@, q@, k@, v@, scale),
        r matches Ok(a) ==> a@.wf() && a@.shape() == heads_of(q@, k@, v@).score_shape() && a@.dtype
            == q@.dtype && a@.layout.dense() && heads_of(q@, k@, v@).r() > 0,
{
    reveal(scores_s);
    let z = head_counts(q, k, v);
    let rr: usize = z.h / z.hk;
    let s = match Array::scalar_of(tape, Scalar::Bits(scale), q.dtype) {
        Ok(s) => s,
        Err(e) => {
            return Err(e);
        },
    };
    proof {
        assert(broadcasted(q@.shape(), s@.shape()) =~= q@.shape());
    }
    let qs = match q.binary(tape, &s, "bmul") {
        Ok(x) => x,
        Err(e) => {
            return Err(e);
        },
    };
    let tr = match k.transpose(2, 3) {
        Ok(x) => x,
        Err(e) => {
            assert(false);
            return Err(e);
        },
    };
    let kt = match tr.contiguous(tape) {
        Ok(x) => x,
        Err(e) => {
            return Err(e);
        },
    };
    proof {
        assert(kt@.shape() =~= seq![z.b, z.hk, k@.shape()[3], z.kl]);
        assert forall|i: int| 0 <= i < kt@.shape().len() implies #[trigger] kt@.shape()[i] != 0 by {
            assert(k@.shape()[0] != 0 && k@.shape()[1] != 0 && k@.shape()[2] != 0 && k@.shape()[3]
                != 0);
        }
        let hk = z.hk as int;
        let h = z.h as int;
        assert(hk * (h / hk) <= h) by (nonlinear_arith)
            requires
                hk > 0,
                h >= 0,
        ;
    }
    let rows = match record_products(tape, true, &qs, &kt, z.b, z.hk, rr) {
        Ok(x) => x,
        Err(e) => {
            return Err(e);
        },
    };
    let shape: Vec<usize> = vec![z.b, z.hk, rr, z.ql, z.kl];
    assert(shape@ =~= z.score_shape());
    proof {
        if rr == 0 {
            assert(z.b * z.hk * 0 == 0) by (nonlinear_arith);
        }
    }
    record_stacked(tape, &rows, &shape, Ghost(z.ql), Ghost(z.kl), Ghost(q@.dtype))
}

/// The bytes of the causal mask: a query sees the keys up to its own place
/// from the end.
pub open spec fn causal_mask(ql: usize, kl: usize) -> Seq<u8> {
    Seq::new(
        (ql * kl) as nat,
        |p: int| if (kl - ql) + p / (kl as int) >= p % (kl as int) { 1u8 } else { 0u8 },
    )
}

fn causal_bytes(ql: usize, kl: usize) -> (v: Vec<u8>)
    requires
        ql * kl <= usize::MAX,
        ql <= i32::MAX,
        kl <= i32::MAX,
    ensures
        v@ == causal_mask(ql, kl),
{
    let total: usize = ql * kl;
    let mut v: Vec<u8> = Vec::new();
    let mut p: usize = 0;
    while p < total
        invariant
            p <= total,
            total == ql * kl,
            ql <= i32::MAX,
            kl <= i32::MAX,
            v@ == causal_mask(ql, kl).take(p as int),
        decreases total - p,
    {
        proof {
            assert(kl > 0) by (nonlinear_arith)
                requires
                    p < ql * kl,
                    p >= 0,
                    kl >= 0,
            ;
            assert((p as int) / (kl as int) < ql) by (nonlinear_arith)
                requires
                    0 <= p < ql * kl,
                    kl > 0,
            ;
        }
        let i: i64 = (p / kl) as i64;
        let j: i64 = (p % kl) as i64;
        let off: i64 = kl as i64 - ql as i64;
        v.push(
            if off + i >= j {
                1
            } else {
                0
            },
        );
        p += 1;
        assert(v@ =~= causal_mask(ql, kl).take(p as int));
    }
    assert(v@ =~= causal_mask(ql, kl));
    v
}

/// A query at the last place sees every key, and with as many queries as keys
/// no query sees a later key.
pub proof fn causal_mask_sees_the_past(n: usize, i: int, j: int)
    requires
        0 <= i < n,
        0 <= j < n,
    ensures
        causal_mask(n, n)[i * n + j] == 1 <==> j <= i,
{
    assert(0 <= i * n + j < n * n && (i * n + j) / (n as int) == i && (i * n + j) % (n as int) == j)
        by (nonlinear_arith)
        requires
            0 <= i < n,
            0 <= j < n,
    ;
}

/// The mask of the scores: the given one, or the causal one.
#[verifier::opaque]
pub open spec fn mask_s(t: TapeV, mask: Option<ArrayV>, z: Heads) -> (TapeV, Outcome) {
    match mask {
        Some(m) => contiguous_s(t, m),
        None => from_slice_s(t, causal_mask(z.ql, z.kl), seq![z.ql, z.kl], Dtype::Uint8),
    }
}

fn record_mask(tape: &mut Tape, mask: Option<&Array>, z: Heads) -> (r: Result<Array, Error>)
    requires
        z.fits(),
        mask matches Some(m) ==> m@.wf(),
    ensures
        (final(tape)@, seen(r)) == mask_s(
            old(tape)@,
            match mask {
                Some(m) => Some(m@),
                None => None,
            },
            z,
        ),
        r matches Ok(a) ==> a@.wf(),
{
    reveal(mask_s);
    match mask {
        Some(m) => m.contiguous(tape),
        None => {
            let shape: Vec<usize> = vec![z.ql, z.kl];
            assert(shape@ =~= seq![z.ql, z.kl]);
            proof {
                lemma_two(z.ql, z.kl);
                lemma_roomy(shape@, Dtype::Uint8);
            }
            let bytes = causal_bytes(z.ql, z.kl);
            Array::from_slice_dt(tape, bytes, &shape, Dtype::Uint8)
        },
    }
}

/// The scores with the masked ones at the lowest number of the 16-bit brain
/// float.
#[verifier::opaque]
pub open spec fn masked_s(
    t: TapeV,
    scores: ArrayV,
    mask: Option<ArrayV>,
    z: Heads,
    dt: Dtype,
) -> (TapeV, Outcome) {
    match mask_s(t, mask, z) {
        (t1, Err(m)) => (t1, Err(m)),
        // The bits of that number as a 32-bit float.
        (t1, Ok(m)) => match scalar_s(t1, Scalar::Bits(0xff7f_0000), dt) {
            (t2, Err(e)) => (t2, Err(e)),
            (t2, Ok(low)) => match (
                broadcast_to_s(m, scores.shape()),
                broadcast_to_s(low, scores.shape()),
            ) {
                (Ok(mb), Ok(lb)) => where_s(t2, mb, scores, lb),
                (Err(e), _) => (t2, Err(e)),
                (_, Err(e)) => (t2, Err(e)),
            },
        },
    }
}

fn record_masked(tape: &mut Tape, scores: &Array, mask: Option<&Array>, z: Heads, dt: Dtype) -> (r:
    Result<Array, Error>)
    requires
        scores@.wf(),
        scores@.shape() == z.score_shape(),
        z.fits(),
        mask matches Some(m) ==> m@.wf(),
    ensures
        (final(tape)@, seen(r)) == masked_s(
            old(tape)@,
            scores@,
            match mask {
                Some(m) => Some(m@),
                None => None,
            },
            z,
            dt,
        ),
        r matches Ok(a) ==> a@.wf() && a@.shape() == scores@.shape() && a@.dtype == scores@.dtype
            && a@.layout.dense(),
{
    reveal(masked_s);
    let m = match record_mask(tape, mask, z) {
        Ok(m) => m,
        Err(e) => {
            return Err(e);
        },
    };
    let low = match Array::scalar_of(tape, Scalar::Bits(0xff7f_0000), dt) {
        Ok(x) => x,
        Err(e) => {
            return Err(e);
        },
    };
    let mb = match m.broadcast_as(scores.shape()) {
        Ok(x) => x,
        Err(e) => {
            return Err(e);
        },
    };
    let lb = match low.broadcast_as(scores.shape()) {
        Ok(x) => x,
        Err(e) => {
            return Err(e);
        },
    };
    mb.where_cond(tape, scores, &lb)
}

/// The weights against the values.
#[verifier::opaque]
pub open spec fn values_s(t: TapeV, probs: ArrayV, v: ArrayV, z: Heads) -> (TapeV, Outcome) {
    match paired_products(t, false, probs, v, z.hk as int, z.r() as int, z.b * z.hk) {
        (t1, Err(m)) => (t1, Err(m)),
        (t1, Ok(rows)) => match stacked_as(t1, rows, z.value_shape()) {
            (t2, Err(m)) => (t2, Err(m)),
            (t2, Ok(o)) => reshape_s(t2, o, z.out_shape()),
        },
    }
}

fn record_values(tape: &mut Tape, probs: &Array, v: &Array, z: Heads) -> (r: Result<Array, Error>)
    requires
        z.fits(),
        probs@.wf(),
        probs@.shape() == z.score_shape(),
        v@.wf(),
        v@.rank() == 4,
        v@.shape()[0] == z.b,
        v@.shape()[1] == z.hk,
        v@.shape()[3] == z.vd,
        !is_void(v@.shape()),
        z.b > 0,
        z.ql > 0,
        z.kl > 0,
        z.r() > 0,
    ensures
        (final(tape)@, seen(r)) == values_s(old(tape)@, probs@, v@, z),
        r matches Ok(a) ==> a@.wf(),
{
    reveal(values_s);
    let rr: usize = z.h / z.hk;
    proof {
        let s = z.score_shape();
        assert forall|i: int| 0 <= i < s.len() implies #[trigger] s[i] != 0 by {
        }
    }
    let rows = match record_products(tape, false, probs, v, z.b, z.hk, rr) {
        Ok(x) => x,
        Err(e) => {
            return Err(e);
        },
    };
    let shape: Vec<usize> = vec![z.b, z.hk, rr, z.ql, z.d];
    assert(shape@ =~= z.value_shape());
    let o = match record_stacked(
        tape,
        &rows,
        &shape,
        Ghost(z.ql),
        Ghost(z.vd),
        Ghost(probs@.dtype),
    ) {
        Ok(x) => x,
        Err(e) => {
            return Err(e);
        },
    };
    let last: Vec<usize> = vec![z.b, z.h, z.ql, z.d];
    assert(last@ =~= z.out_shape());
    o.reshape(tape, &last)
}

/// Attention as a chain of array operations.
pub open spec fn dense_s(
    t: TapeV,
    q: ArrayV,
    k: ArrayV,
    v: ArrayV,
    scale: u32,
    causal: bool,
    mask: Option<ArrayV>,
) -> (TapeV, Outcome) {
    let z = heads_of(q, k, v);
    match scores_s(t, q, k, v, scale) {
        (t1, Err(m)) => (t1, Err(m)),
        (t1, Ok(s)) => {
            let masked = if mask is Some || causal {
                masked_s(t1, s, mask, z, q.dtype)
            } else {
                (t1, Outcome::Ok(s))
            };
            match masked {
                (t2, Err(m)) => (t2, Err(m)),
                (t2, Ok(s)) => match softmax_last_s(t2, s, true) {
                    (t3, Err(m)) => (t3, Err(m)),
                    (t3, Ok(p)) => values_s(t3, p, v, z),
                },
            }
        },
    }
}

/// Records attention as a chain of array operations: the softmax of the scaled
/// queries against the keys, masked, against the values.
pub fn sdpa_dense(
    tape: &mut Tape,
    q: &Array,
    k: &Array,
    v: &Array,
    scale: u32,
    do_causal: bool,
    mask: Option<&Array>,
) -> (r: Result<Array, Error>)
    requires
        chainable(q@, k@, v@),
        mask matches Some(m) ==> m@.wf(),
    ensures
        (final(tape)@, seen(r)) == dense_s(
            old(tape)@,
            q@,
            k@,
            v@,
            scale,
            do_causal,
            match mask {
                Some(m) => Some(m@),
                None => None,
            },
        ),
        r matches Ok(a) ==> a@.wf(),
{
    let z = head_counts(q, k, v);
    let s = match record_scores(tape, q, k, v, scale) {
        Ok(x) => x,
        Err(e) => {
            return Err(e);
        },
    };
    let s = if mask.is_some() || do_causal {
        match record_masked(tape, &s, mask, z, q.dtype) {
            Ok(x) => x,
            Err(e) => {
                return Err(e);
            },
        }
    } else {
        s
    };
    assert(s@.shape().last() == z.kl);
    let p = match softmax_last_axis(tape, &s, true) {
        Ok(x) => x,
        Err(e) => {
            return Err(e);
        },
    };
    proof {
        assert(q@.shape()[0] != 0 && q@.shape()[2] != 0 && k@.shape()[2] != 0);
    }
    record_values(tape, &p, v, z)
}

// ---- the choice ----

/// Whether the keys are cut into blocks.
pub open spec fn takes_two_passes(device: char, q: ArrayV, k: ArrayV) -> bool {
    let kl = k.shape()[2];
    ((device == 'd' || device == 's') && kl >= 1024) || (k.shape()[1] < q.shape()[1] && kl >= 4096)
}

/// The kernel that an attention goes to.
#[derive(Clone, Copy, PartialEq, Eq, Structural, Debug)]
pub enum Route {
    Vector,
    TwoPass,
    Full,
    Dense,
    MaskUnsupported,
    WidthUnsupported,
}

/// The kernel for packed queries, keys and values.
pub open spec fn route_of(device: char, q: ArrayV, k: ArrayV, causal: bool, masked: bool) -> Route {
    let ql = q.shape()[2];
    let d = q.shape()[3];
    let gqa = q.shape()[1] as nat / (k.shape()[1] as nat);
    if masked {
        if d == 192 || d == 256 {
            Route::Dense
        } else {
            Route::MaskUnsupported
        }
    } else if ql <= 8 {
        if ql * gqa > 32 {
            if d == 256 && causal {
                Route::Full
            } else {
                Route::Dense
            }
        } else if takes_two_passes(device, q, k) {
            Route::TwoPass
        } else {
            Route::Vector
        }
    } else if ql >= 1024 && d == 256 && causal {
        Route::Full
    } else if d == 192 || d == 256 {
        Route::Dense
    } else if d == 64 || d == 96 || d == 128 {
        Route::Full
    } else {
        Route::WidthUnsupported
    }
}

/// Attention of packed arrays.
pub open spec fn routed_s(
    t: TapeV,
    q: ArrayV,
    k: ArrayV,
    v: ArrayV,
    scale: u32,
    causal: bool,
    mask: Option<ArrayV>,
) -> (TapeV, Outcome) {
    let d = q.shape()[3] as nat;
    match route_of(device_class(t, 's'), q, k, causal, mask is Some) {
        Route::Vector => vector_s(t, q, k, v, scale, causal && q.shape()[2] > 1),
        Route::TwoPass => two_pass_s(t, q, k, v, scale, causal && q.shape()[2] > 1),
        Route::Full => full_s(t, q, k, v, scale, causal),
        Route::Dense => dense_s(t, q, k, v, scale, causal && mask is None, mask),
        Route::MaskUnsupported => (
            t,
            Err("sdpa: array mask with head_dim "@ + dec(d) + " not supported"@),
        ),
        Route::WidthUnsupported => (
            t,
            Err("sdpa: dense fallback for head_dim "@ + dec(d) + " not supported"@),
        ),
    }
}

/// Attention of any arrays: they are packed first.
pub open spec fn sdpa_s(
    t: TapeV,
    q: ArrayV,
    k: ArrayV,
    v: ArrayV,
    scale: u32,
    causal: bool,
    mask: Option<ArrayV>,
) -> (TapeV, Outcome) {
    match contiguous_s(t, q) {
        (t1, Err(m)) => (t1, Err(m)),
        (t1, Ok(q)) => match contiguous_s(t1, k) {
            (t2, Err(m)) => (t2, Err(m)),
            (t2, Ok(k)) => match contiguous_s(t2, v) {
                (t3, Err(m)) => (t3, Err(m)),
                (t3, Ok(v)) => routed_s(t3, q, k, v, scale, causal, mask),
            },
        },
    }
}

/// What the kernel that an attention goes to asks of the sizes.
pub open spec fn sdpa_fits(
    device: char,
    q: ArrayV,
    k: ArrayV,
    v: ArrayV,
    causal: bool,
    masked: bool,
) -> bool {
    &&& attends(q, k, v)
    &&& match route_of(device, q, k, causal, masked) {
        Route::Vector => roomy(attended(q, v)),
        Route::TwoPass => {
            let blocks = key_blocks(device, k.shape()[2], query_simds(q, k));
            roomy(attended(q, v)) && roomy(partials(q, v, blocks)) && roomy(partial_rows(q, blocks))
        },
        Route::Dense => chainable(q, k, v),
        Route::Full | Route::MaskUnsupported | Route::WidthUnsupported => true,
    }
}

/// A few queries for each head are a number of the machine.
proof fn lemma_few_queries(q: ArrayV, k: ArrayV)
    requires
        q.wf(),
        q.rank() == 4,
        k.rank() == 4,
        k.shape()[1] > 0,
        q.shape()[2] <= 8,
    ensures
        query_simds(q, k) <= usize::MAX,
        query_simds(q, k) == q.shape()[2] * (q.shape()[1] as nat / (k.shape()[1] as nat)),
{
    let h = q.shape()[1] as nat;
    let ql = q.shape()[2] as nat;
    let g = h / (k.shape()[1] as nat);
    crate::array::lemma_roomy(q.shape(), q.dtype);
    crate::layout::lemma_axis_bound(q.shape(), 1);
    assert(g <= h) by (nonlinear_arith)
        requires
            g == h / (k.shape()[1] as nat),
            k.shape()[1] > 0,
    ;
    assert(g * ql <= h * 8 && g * ql == ql * g) by (nonlinear_arith)
        requires
            g <= h,
            ql <= 8,
    ;
}

fn route(device: char, q: &Array, k: &Array, causal: bool, masked: bool) -> (r: Route)
    requires
        q@.wf(),
        k@.wf(),
        q@.rank() == 4,
        k@.rank() == 4,
        k@.shape()[1] > 0,
    ensures
        r == route_of(device, q@, k@, causal, masked),
{
    let ql = q.layout.shape[2];
    let d = q.layout.shape[3];
    let h = q.layout.shape[1];
    let hk = k.layout.shape[1];
    let gqa: usize = h / hk;
    if masked {
        if d == 192 || d == 256 {
            return Route::Dense;
        }
        return Route::MaskUnsupported;
    }
    if ql <= 8 {
        proof {
            lemma_few_queries(q@, k@);
        }
        if ql * gqa > 32 {
            if d == 256 && causal {
                return Route::Full;
            }
            return Route::Dense;
        }
        let kl = k.layout.shape[2];
        if ((device == 'd' || device == 's') && kl >= 1024) || (hk < h && kl >= 4096) {
            Route::TwoPass
        } else {
            Route::Vector
        }
    } else if ql >= 1024 && d == 256 && causal {
        Route::Full
    } else if d == 192 || d == 256 {
        Route::Dense
    } else if d == 64 || d == 96 || d == 128 {
        Route::Full
    } else {
        Route::WidthUnsupported
    }
}

/// Records attention: the kernel is chosen by the sizes, the mask and the
/// device.
pub fn sdpa(
    tape: &mut Tape,
    q: &Array,
    k: &Array,
    v: &Array,
    scale: u32,
    do_causal: bool,
    mask: Option<&Array>,
) -> (r: Result<Array, Error>)
    requires
        sdpa_fits(device_class(old(tape)@, 's'), q@, k@, v@, do_causal, mask is Some),
        mask matches Some(m) ==> m@.wf(),
    ensures
        (final(tape)@, seen(r)) == sdpa_s(
            old(tape)@,
            q@,
            k@,
            v@,
            scale,
            do_causal,
            match mask {
                Some(m) => Some(m@),
                None => None,
            },
        ),
        r matches Ok(a) ==> a@.wf(),
{
    let q = match q.contiguous(tape) {
        Ok(x) => x,
        Err(e) => {
            return Err(e);
        },
    };
    let k = match k.contiguous(tape) {
        Ok(x) => x,
        Err(e) => {
            return Err(e);
        },
    };
    let v = match v.contiguous(tape) {
        Ok(x) => x,
        Err(e) => {
            return Err(e);
        },
    };
    run_route(tape, &q, &k, &v, scale, do_causal, mask)
}

/// Records attention of packed arrays.
fn run_route(
    tape: &mut Tape,
    q: &Array,
    k: &Array,
    v: &Array,
    scale: u32,
    do_causal: bool,
    mask: Option<&Array>,
) -> (r: Result<Array, Error>)
    requires
        sdpa_fits(device_class(old(tape)@, 's'), q@, k@, v@, do_causal, mask is Some),
        mask matches Some(m) ==> m@.wf(),
    ensures
        (final(tape)@, seen(r)) == routed_s(
            old(tape)@,
            q@,
            k@,
            v@,
            scale,
            do_causal,
            match mask {
                Some(m) => Some(m@),
                None => None,
            },
        ),
        r matches Ok(a) ==> a@.wf(),
{
    let device = device_type(tape, 's');
    let d = decimal_usize(q.layout.shape[3]);
    let few = q.layout.shape[2] > 1;
    match route(device, q, k, do_causal, mask.is_some()) {
        Route::Vector => sdpa_vector(tape, q, k, v, scale, do_causal && few),
        Route::TwoPass => {
            proof {
                lemma_few_queries(q@, k@);
            }
            sdpa_vector_2pass(tape, q, k, v, scale, do_causal && few)
        },
        Route::Full => sdpa_full_nax(tape, q, k, v, scale, do_causal),
        Route::Dense => sdpa_dense(tape, q, k, v, scale, do_causal && mask.is_none(), mask),
        Route::MaskUnsupported => Err(
            Error::Msg(cat3("sdpa: array mask with head_dim ", &d, " not supported")),
        ),
        Route::WidthUnsupported => Err(
            Error::Msg(cat3("sdpa: dense fallback for head_dim ", &d, " not supported")),
        ),
    }
}

} // verus!
