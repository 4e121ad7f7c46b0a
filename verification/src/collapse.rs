//! Collapsing runs of contiguous axes.

use vstd::prelude::*;

verus! {

// ---- sizes and addressing over signed words ----

/// The number of elements of a shape.
pub open spec fn count(s: Seq<i32>) -> int
    decreases s.len(),
{
    if s.len() == 0 {
        1
    } else {
        count(s.drop_last()) * s.last()
    }
}

/// The place of the `k`-th element, in row-major order, of a strided layout.
pub open spec fn place(shape: Seq<i32>, strides: Seq<i64>, k: int) -> int
    decreases shape.len(),
{
    if shape.len() == 0 || strides.len() == 0 {
        0
    } else {
        let d = shape.last() as int;
        place(shape.drop_last(), strides.drop_last(), k / d) + (k % d) * strides.last()
    }
}

// ---- which axes are joined ----

/// The size of the run of joined axes that ends at an axis.
pub open spec fn run_size(shape: Seq<i32>, strides: Seq<Seq<i64>>, cap: i64, i: int) -> int
    decreases i, 1int,
{
    if i <= 0 {
        shape[0] as int
    } else if joins(shape, strides, cap, i) {
        run_size(shape, strides, cap, i - 1) * shape[i]
    } else {
        shape[i] as int
    }
}

/// An axis continues the run of the one before it when, in every layout, a step
/// along the earlier axis is a whole turn of the later one, and the run stays
/// within the cap.
pub open spec fn joins(shape: Seq<i32>, strides: Seq<Seq<i64>>, cap: i64, i: int) -> bool
    decreases i, 0int,
{
    i > 0 && forall|j: int|
        0 <= j < strides.len() ==> (#[trigger] strides[j])[i] * shape[i] == strides[j][i - 1]
            && run_size(shape, strides, cap, i - 1) * shape[i] <= cap
}

/// The collapsed axes: the size of each, the last axis that it covers, and
/// whether the last of them can still grow.
pub ghost struct Runs {
    pub sizes: Seq<i32>,
    pub last: Seq<int>,
    pub growing: bool,
}

/// The collapsed axes of the first `n` axes; an axis of size one adds nothing.
pub open spec fn runs(shape: Seq<i32>, strides: Seq<Seq<i64>>, cap: i64, n: int) -> Runs
    decreases n,
{
    if n <= 0 {
        Runs { sizes: Seq::empty(), last: Seq::empty(), growing: false }
    } else {
        let i = n - 1;
        let r = runs(shape, strides, cap, i);
        let growing = r.growing && joins(shape, strides, cap, i);
        if shape[i] == 1 {
            Runs { growing, ..r }
        } else if growing {
            Runs {
                sizes: r.sizes.drop_last().push((r.sizes.last() * shape[i]) as i32),
                last: r.last.drop_last().push(i),
                growing: true,
            }
        } else {
            Runs { sizes: r.sizes.push(shape[i]), last: r.last.push(i), growing: true }
        }
    }
}

/// The collapsed shape; one axis of size one when every axis has size one.
pub open spec fn collapsed_shape(shape: Seq<i32>, strides: Seq<Seq<i64>>, cap: i64) -> Seq<i32> {
    let r = runs(shape, strides, cap, shape.len() as int);
    if shape.len() > 0 && r.sizes.len() == 0 {
        seq![1i32]
    } else {
        r.sizes
    }
}

/// The collapsed strides of one of the layouts.
pub open spec fn collapsed_strides(
    shape: Seq<i32>,
    strides: Seq<Seq<i64>>,
    cap: i64,
    j: int,
) -> Seq<i64> {
    let r = runs(shape, strides, cap, shape.len() as int);
    if shape.len() > 0 && r.sizes.len() == 0 {
        seq![0i64]
    } else {
        r.last.map_values(|i: int| strides[j][i])
    }
}

/// The views of a list of strides.
pub open spec fn stride_views(v: Seq<Vec<i64>>) -> Seq<Seq<i64>> {
    v.map_values(|s: Vec<i64>| s@)
}

/// What collapsing asks of its arguments: sizes that are not negative, strides
/// for every axis whose product with the size is a 64-bit word, and runs whose
/// size is a 32-bit one.
pub open spec fn collapsible(shape: Seq<i32>, strides: Seq<Seq<i64>>, cap: i64) -> bool {
    &&& forall|i: int| 0 <= i < shape.len() ==> #[trigger] shape[i] >= 0
    &&& forall|j: int| 0 <= j < strides.len() ==> (#[trigger] strides[j]).len() >= shape.len()
    &&& forall|j: int, i: int|
        0 <= j < strides.len() && 0 <= i < shape.len() ==> i64::MIN <= #[trigger] strides[j][i]
            * shape[i] <= i64::MAX
    &&& cap <= i32::MAX
    &&& strides.len() > 0 || forall|i: int|
        0 <= i < shape.len() ==> #[trigger] run_size(shape, strides, cap, i) <= i32::MAX
}

proof fn lemma_run_bounds(shape: Seq<i32>, strides: Seq<Seq<i64>>, cap: i64, i: int)
    requires
        collapsible(shape, strides, cap),
        0 <= i < shape.len(),
    ensures
        0 <= run_size(shape, strides, cap, i) <= i32::MAX,
    decreases i,
{
    assert(shape[i] >= 0);
    if i > 0 && joins(shape, strides, cap, i) {
        lemma_run_bounds(shape, strides, cap, i - 1);
        let a = run_size(shape, strides, cap, i - 1);
        let b = shape[i] as int;
        assert(a * b >= 0) by (nonlinear_arith)
            requires
                a >= 0,
                b >= 0,
        ;
        if strides.len() > 0 {
            assert(strides[0][i] * shape[i] == strides[0][i - 1]);
        }
    }
}

/// What holds of the collapsed axes at every step.
proof fn lemma_runs(shape: Seq<i32>, strides: Seq<Seq<i64>>, cap: i64, n: int)
    requires
        collapsible(shape, strides, cap),
        0 <= n <= shape.len(),
    ensures
        ({
            let r = runs(shape, strides, cap, n);
            &&& r.sizes.len() == r.last.len()
            &&& r.sizes.len() <= n
            &&& r.growing ==> n > 0 && r.sizes.len() > 0 && r.sizes.last() == run_size(
                shape,
                strides,
                cap,
                n - 1,
            ) && (forall|j: int|
                0 <= j < strides.len() ==> (#[trigger] strides[j])[r.last.last()] == strides[j][n
                    - 1])
            &&& forall|g: int| 0 <= g < r.last.len() ==> 0 <= #[trigger] r.last[g] < n
            &&& forall|g: int| 0 <= g < r.sizes.len() ==> 0 <= #[trigger] r.sizes[g]
            &&& n > 0 && !r.growing && !joins(shape, strides, cap, n - 1) ==> shape[n - 1] == 1
            &&& n > 0 && !r.growing ==> run_size(shape, strides, cap, n - 1) == 1
        }),
    decreases n,
{
    if n > 0 {
        let i = n - 1;
        lemma_runs(shape, strides, cap, i);
        lemma_run_bounds(shape, strides, cap, i);
        let r = runs(shape, strides, cap, i);
        let growing = r.growing && joins(shape, strides, cap, i);
        assert(shape[i] >= 0);
        if i > 0 {
            let a = run_size(shape, strides, cap, i - 1);
            let b = shape[i] as int;
            assert(b == 1 ==> a * b == a) by (nonlinear_arith);
            assert(a == 1 ==> a * b == b) by (nonlinear_arith);
            if growing {
                assert forall|j: int| 0 <= j < strides.len() && shape[i] == 1 implies (
                #[trigger] strides[j])[r.last.last()] == strides[j][i] by {
                    let s = strides[j][i] as int;
                    assert(s * b == s) by (nonlinear_arith)
                        requires
                            b == 1,
                    ;
                }
            }
        }
        assert forall|g: int| 0 <= g < runs(shape, strides, cap, n).sizes.len() implies 0
            <= #[trigger] runs(shape, strides, cap, n).sizes[g] by {
            if g < r.sizes.len() {
                assert(0 <= r.sizes[g]);
            }
            if growing && shape[i] != 1 && g == r.sizes.len() - 1 {
                lemma_run_bounds(shape, strides, cap, i - 1);
                assert(r.sizes.last() * shape[i] == run_size(shape, strides, cap, i));
            }
        }
        assert forall|g: int| 0 <= g < runs(shape, strides, cap, n).last.len() implies 0
            <= #[trigger] runs(shape, strides, cap, n).last[g] < n by {
            if g < r.last.len() {
                assert(0 <= r.last[g] < i);
            }
        }
    }
}

/// No collapsed size is negative.
pub proof fn lemma_collapsed_sizes(shape: Seq<i32>, strides: Seq<Seq<i64>>, cap: i64)
    requires
        collapsible(shape, strides, cap),
    ensures
        forall|g: int|
            0 <= g < collapsed_shape(shape, strides, cap).len() ==> 0 <= #[trigger] collapsed_shape(
                shape,
                strides,
                cap,
            )[g],
        forall|j: int|
            (#[trigger] collapsed_strides(shape, strides, cap, j)).len() == collapsed_shape(
                shape,
                strides,
                cap,
            ).len(),
{
    lemma_runs(shape, strides, cap, shape.len() as int);
    let r = runs(shape, strides, cap, shape.len() as int);
    assert forall|g: int| 0 <= g < collapsed_shape(shape, strides, cap).len() implies 0
        <= #[trigger] collapsed_shape(shape, strides, cap)[g] by {
        if r.sizes.len() > 0 {
            assert(0 <= r.sizes[g]);
        }
    }
}

// ---- the law of collapsing ----

proof fn lemma_count_push(s: Seq<i32>, d: i32)
    ensures
        count(s.push(d)) == count(s) * d,
{
    assert(s.push(d).drop_last() =~= s);
}

proof fn lemma_place_push(s: Seq<i32>, st: Seq<i64>, d: i32, x: i64, k: int)
    requires
        s.len() == st.len(),
    ensures
        place(s.push(d), st.push(x), k) == place(s, st, k / (d as int)) + (k % (d as int)) * x,
{
    assert(s.push(d).drop_last() =~= s);
    assert(st.push(x).drop_last() =~= st);
}

proof fn lemma_count_nonneg(s: Seq<i32>)
    requires
        forall|i: int| 0 <= i < s.len() ==> #[trigger] s[i] >= 0,
    ensures
        count(s) >= 0,
    decreases s.len(),
{
    if s.len() > 0 {
        lemma_count_nonneg(s.drop_last());
        let a = count(s.drop_last());
        let b = s.last() as int;
        assert(s[s.len() - 1] >= 0);
        assert(a * b >= 0) by (nonlinear_arith)
            requires
                a >= 0,
                b >= 0,
        ;
    }
}

proof fn lemma_runs_place(shape: Seq<i32>, strides: Seq<Seq<i64>>, cap: i64, j: int, n: int)
    requires
        collapsible(shape, strides, cap),
        0 <= n <= shape.len(),
        0 <= j < strides.len(),
    ensures
        ({
            let r = runs(shape, strides, cap, n);
            let st = r.last.map_values(|i: int| strides[j][i]);
            &&& count(r.sizes) == count(shape.take(n))
            &&& forall|k: int|
                0 <= k < count(shape.take(n)) ==> #[trigger] place(r.sizes, st, k) == place(
                    shape.take(n),
                    strides[j].take(n),
                    k,
                )
        }),
    decreases n,
{
    let r = runs(shape, strides, cap, n);
    let st = r.last.map_values(|i: int| strides[j][i]);
    lemma_runs(shape, strides, cap, n);
    if n == 0 {
        assert(shape.take(0) =~= Seq::<i32>::empty());
        assert(r.sizes =~= Seq::<i32>::empty());
    } else {
        let i = n - 1;
        lemma_runs_place(shape, strides, cap, j, i);
        lemma_runs(shape, strides, cap, i);
        let p = runs(shape, strides, cap, i);
        let pst = p.last.map_values(|i: int| strides[j][i]);
        let d = shape[i] as int;
        assert(d >= 0) by {
            assert(shape[i] >= 0);
        }
        let head = shape.take(i);
        let hst = strides[j].take(i);
        let whole = shape.take(n);
        let wst = strides[j].take(n);
        assert(whole =~= head.push(shape[i]));
        assert(wst =~= hst.push(strides[j][i]));
        lemma_count_push(head, shape[i]);
        lemma_count_nonneg(head);
        let c = count(head);
        let x = strides[j][i] as int;
        let growing = p.growing && joins(shape, strides, cap, i);
        if d == 1 {
            assert(c * 1 == c) by (nonlinear_arith);
            assert(r.sizes == p.sizes && st =~= pst);
            assert forall|k: int| 0 <= k < count(whole) implies #[trigger] place(r.sizes, st, k)
                == place(whole, wst, k) by {
                lemma_place_push(head, hst, shape[i], strides[j][i], k);
                assert(k / 1 == k && k % 1 == 0);
                assert(0 * x == 0) by (nonlinear_arith);
                assert(place(p.sizes, pst, k) == place(head, hst, k));
            }
        } else if growing {
            let front = p.sizes.drop_last();
            let fst = pst.drop_last();
            let m = p.sizes.last() as int;
            lemma_run_bounds(shape, strides, cap, i);
            lemma_run_bounds(shape, strides, cap, i - 1);
            assert(r.sizes.last() == m * d);
            assert(r.sizes =~= front.push((m * d) as i32));
            assert(st =~= fst.push(strides[j][i]));
            lemma_count_push(front, (m * d) as i32);
            assert(p.sizes =~= front.push(p.sizes.last()));
            assert(pst =~= fst.push(pst.last()));
            lemma_count_push(front, p.sizes.last());
            let f = count(front);
            assert(f * (m * d) == (f * m) * d) by (nonlinear_arith);
            assert(pst.last() == x * d) by {
                assert(strides[j][p.last.last()] == strides[j][i - 1]);
                assert(strides[j][i] * shape[i] == strides[j][i - 1]);
            }
            assert forall|k: int| 0 <= k < count(whole) implies #[trigger] place(r.sizes, st, k)
                == place(whole, wst, k) by {
                if d == 0 {
                    assert(c * 0 == 0) by (nonlinear_arith);
                    assert(false);
                }
                if m == 0 {
                    assert(f * 0 == 0 && 0 * d == 0) by (nonlinear_arith);
                    assert(false);
                }
                lemma_place_push(head, hst, shape[i], strides[j][i], k);
                lemma_place_push(front, fst, (m * d) as i32, strides[j][i], k);
                let q = k / d;
                assert(0 <= q < c) by (nonlinear_arith)
                    requires
                        0 <= k < c * d,
                        d > 0,
                        q == k / d,
                ;
                assert(place(p.sizes, pst, q) == place(head, hst, q));
                lemma_place_push(front, fst, p.sizes.last(), pst.last(), q);
                // k splits the same way at once or in two steps.
                assert(m > 0) by {
                    assert(p.sizes.last() == run_size(shape, strides, cap, i - 1));
                }
                vstd::arithmetic::div_mod::lemma_div_denominator(k, d, m);
                assert(m * d == d * m) by (nonlinear_arith);
                vstd::arithmetic::div_mod::lemma_mod_breakdown(k, d, m);
                let a = q % m;
                let b = k % d;
                assert(k % (d * m) == d * a + b);
                assert((d * a + b) * x == a * (x * d) + b * x) by (nonlinear_arith);
            }
        } else {
            assert(r.sizes =~= p.sizes.push(shape[i]));
            assert(st =~= pst.push(strides[j][i]));
            lemma_count_push(p.sizes, shape[i]);
            assert forall|k: int| 0 <= k < count(whole) implies #[trigger] place(r.sizes, st, k)
                == place(whole, wst, k) by {
                if d == 0 {
                    assert(c * 0 == 0) by (nonlinear_arith);
                    assert(false);
                }
                lemma_place_push(head, hst, shape[i], strides[j][i], k);
                lemma_place_push(p.sizes, pst, shape[i], strides[j][i], k);
                let q = k / d;
                assert(0 <= q < c) by (nonlinear_arith)
                    requires
                        0 <= k < c * d,
                        d > 0,
                        q == k / d,
                ;
                assert(place(p.sizes, pst, q) == place(head, hst, q));
            }
        }
    }
}

/// Collapsing keeps the number of elements and, in every layout, the place of
/// each element in row-major order.
pub proof fn collapsing_keeps_elements(
    shape: Seq<i32>,
    strides: Seq<Seq<i64>>,
    cap: i64,
    j: int,
    k: int,
)
    requires
        collapsible(shape, strides, cap),
        0 <= j < strides.len(),
        strides[j].len() == shape.len(),
        0 <= k < count(shape),
    ensures
        count(collapsed_shape(shape, strides, cap)) == count(shape),
        place(
            collapsed_shape(shape, strides, cap),
            collapsed_strides(shape, strides, cap, j),
            k,
        ) == place(shape, strides[j], k),
{
    let n = shape.len() as int;
    lemma_runs_place(shape, strides, cap, j, n);
    assert(shape.take(n) =~= shape);
    assert(strides[j].take(n) =~= strides[j]);
    let r = runs(shape, strides, cap, n);
    if n > 0 && r.sizes.len() == 0 {
        assert(count(r.sizes) == 1);
        let one = seq![1i32];
        assert(one.drop_last() =~= Seq::<i32>::empty());
        assert(count(one) == count(Seq::<i32>::empty()) * 1);
        let st = r.last.map_values(|i: int| strides[j][i]);
        assert(k == 0);
        assert(place(r.sizes, st, 0) == 0);
        assert(seq![0i64].drop_last() =~= Seq::<i64>::empty());
        assert(place(one.drop_last(), seq![0i64].drop_last(), 0int / 1int) == 0);
        assert((0int % 1int) * 0 == 0);
        assert(one.last() == 1);
        assert(place(one, seq![0i64], 0) == 0);
    }
}

// ---- the executable ----

/// Collapses runs of axes that are contiguous in every layout: one shape, and
/// the strides of each layout.
pub fn collapse_contiguous_dims(shape: &[i32], strides: &Vec<Vec<i64>>, size_cap: i64) -> (r: (
    Vec<i32>,
    Vec<Vec<i64>>,
))
    requires
        collapsible(shape@, stride_views(strides@), size_cap),
    ensures
        r.0@ == collapsed_shape(shape@, stride_views(strides@), size_cap),
        r.1@.len() == strides@.len(),
        forall|j: int|
            0 <= j < strides@.len() ==> (#[trigger] r.1@[j])@ == collapsed_strides(
                shape@,
                stride_views(strides@),
                size_cap,
                j,
            ),
{
    let ghost sv = stride_views(strides@);
    let mut sizes: Vec<i32> = Vec::new();
    let mut last: Vec<usize> = Vec::new();
    let mut growing = false;
    let mut size: i64 = 0;
    let mut i: usize = 0;
    while i < shape.len()
        invariant
            i <= shape.len(),
            sv == stride_views(strides@),
            collapsible(shape@, sv, size_cap),
            sizes@ == runs(shape@, sv, size_cap, i as int).sizes,
            last@.map_values(|x: usize| x as int) == runs(shape@, sv, size_cap, i as int).last,
            growing == runs(shape@, sv, size_cap, i as int).growing,
            i > 0 ==> size == run_size(shape@, sv, size_cap, i - 1),
        decreases shape.len() - i,
    {
        proof {
            lemma_runs(shape@, sv, size_cap, i as int);
            lemma_run_bounds(shape@, sv, size_cap, i as int);
            assert(shape@[i as int] >= 0);
            if i > 0 {
                lemma_run_bounds(shape@, sv, size_cap, i - 1);
            }
        }
        let d = shape[i];
        let mut joined = i > 0;
        if i > 0 {
            assert(0 <= size * d <= 0x7fff_ffff * 0x7fff_ffff) by (nonlinear_arith)
                requires
                    0 <= size <= 0x7fff_ffff,
                    0 <= d <= 0x7fff_ffff,
            ;
            let grown: i64 = size * (d as i64);
            let mut j: usize = 0;
            while j < strides.len()
                invariant
                    j <= strides.len(),
                    0 < i < shape.len(),
                    d == shape@[i as int],
                    sv == stride_views(strides@),
                    collapsible(shape@, sv, size_cap),
                    size == run_size(shape@, sv, size_cap, i - 1),
                    grown == size * d,
                    joined == (forall|k: int|
                        0 <= k < j ==> (#[trigger] sv[k])[i as int] * shape@[i as int]
                            == sv[k][i - 1] && run_size(shape@, sv, size_cap, i - 1)
                            * shape@[i as int] <= size_cap),
                decreases strides.len() - j,
            {
                let st = &strides[j];
                assert(st@ == sv[j as int]);
                assert(sv[j as int].len() >= shape@.len());
                assert(i64::MIN <= sv[j as int][i as int] * shape@[i as int] <= i64::MAX);
                if st[i] * (d as i64) != st[i - 1] || grown > size_cap {
                    joined = false;
                }
                j += 1;
            }
            assert(joined == joins(shape@, sv, size_cap, i as int));
            size = if joined {
                grown
            } else {
                d as i64
            };
        } else {
            size = d as i64;
        }
        growing = growing && joined;
        if d != 1 {
            if growing {
                let prev = match sizes.pop() {
                    Some(p) => p,
                    None => {
                        assert(false);
                        1
                    },
                };
                last.pop();
                sizes.push(prev * d);
                last.push(i);
            } else {
                sizes.push(d);
                last.push(i);
            }
            growing = true;
        }
        i += 1;
        proof {
            let r = runs(shape@, sv, size_cap, i as int);
            assert(sizes@ =~= r.sizes);
            assert(last@.map_values(|x: usize| x as int) =~= r.last);
        }
    }
    proof {
        lemma_runs(shape@, sv, size_cap, shape@.len() as int);
        let all = runs(shape@, sv, size_cap, shape@.len() as int).last;
        assert forall|g: int| 0 <= g < last@.len() implies #[trigger] last@[g] < shape@.len() by {
            assert(all[g] == last@[g]);
        }
    }
    let lone = shape.len() > 0 && sizes.len() == 0;
    let mut out: Vec<Vec<i64>> = Vec::new();
    let mut j: usize = 0;
    while j < strides.len()
        invariant
            j <= strides.len(),
            sv == stride_views(strides@),
            collapsible(shape@, sv, size_cap),
            lone == (shape@.len() > 0 && sizes@.len() == 0),
            sizes@ == runs(shape@, sv, size_cap, shape@.len() as int).sizes,
            last@.map_values(|x: usize| x as int) == runs(
                shape@,
                sv,
                size_cap,
                shape@.len() as int,
            ).last,
            forall|g: int| 0 <= g < last@.len() ==> #[trigger] last@[g] < shape@.len(),
            out@.len() == j,
            forall|k: int|
                0 <= k < j ==> (#[trigger] out@[k])@ == collapsed_strides(shape@, sv, size_cap, k),
        decreases strides.len() - j,
    {
        let mut row: Vec<i64> = Vec::new();
        let ghost want = collapsed_strides(shape@, sv, size_cap, j as int);
        if lone {
            row.push(0);
            assert(row@ =~= want);
        } else {
            let ghost all = runs(shape@, sv, size_cap, shape@.len() as int).last;
            let mut g: usize = 0;
            assert(sv[j as int].len() >= shape@.len());
            while g < last.len()
                invariant
                    g <= last.len(),
                    j < strides.len(),
                    sv == stride_views(strides@),
                    sv[j as int].len() >= shape@.len(),
                    last@.map_values(|x: usize| x as int) == all,
                    forall|g: int| 0 <= g < last@.len() ==> #[trigger] last@[g] < shape@.len(),
                    row@ == all.map_values(|i: int| sv[j as int][i]).take(g as int),
                decreases last.len() - g,
            {
                let at = last[g];
                assert(all[g as int] == at);
                assert(last@[g as int] < shape@.len());
                row.push(strides[j][at]);
                g += 1;
                assert(row@ =~= all.map_values(|i: int| sv[j as int][i]).take(g as int));
            }
            assert(row@ =~= want);
        }
        out.push(row);
        j += 1;
    }
    if lone {
        sizes.push(1);
        assert(sizes@ =~= seq![1i32]);
    }
    (sizes, out)
}

/// The largest run that is collapsed by default: the largest 32-bit size.
pub fn collapse_default_cap() -> (c: i64)
    ensures
        c == i32::MAX,
{
    0x7fff_ffff
}

} // verus!
