//! Thread-group shapes.

use vstd::prelude::*;

use vstd::arithmetic::power2::{lemma2_to64, lemma_pow2_strictly_increases, lemma_pow2_unfold, pow2};

verus! {

/// Grows a group by doubling its extents in turn, as long as the axis has room
/// for the doubled extent, until the group has 2^10 threads, no extent can
/// grow, or a whole turn has ended at 2^`stop` threads. `n` counts the
/// doublings.
pub open spec fn grow_block(
    d0: nat,
    d1: nat,
    d2: nat,
    s0: nat,
    s1: nat,
    s2: nat,
    n: int,
    stop: int,
) -> (nat, nat, nat)
    decreases gap(d0, s0) + gap(d1, s1) + gap(d2, s2),
    when s0 >= 1 && s1 >= 1 && s2 >= 1
{
    let t0 = if d0 >= 2 * s0 {
        2 * s0
    } else {
        s0
    };
    let n0 = if d0 >= 2 * s0 {
        n + 1
    } else {
        n
    };
    if n0 == 10 {
        (t0, s1, s2)
    } else {
        let t1 = if d1 >= 2 * s1 {
            2 * s1
        } else {
            s1
        };
        let n1 = if d1 >= 2 * s1 {
            n0 + 1
        } else {
            n0
        };
        if n1 == 10 {
            (t0, t1, s2)
        } else {
            let t2 = if d2 >= 2 * s2 {
                2 * s2
            } else {
                s2
            };
            let n2 = if d2 >= 2 * s2 {
                n1 + 1
            } else {
                n1
            };
            if n2 == n || n2 == stop {
                (t0, t1, t2)
            } else {
                grow_block(d0, d1, d2, t0, t1, t2, n2, stop)
            }
        }
    }
}

/// The room that an extent has to grow.
pub open spec fn gap(d: nat, s: nat) -> nat {
    if d > s {
        (d - s) as nat
    } else {
        0
    }
}

/// The group shape for a grid of the given extents.
pub open spec fn block_dims(d0: nat, d1: nat, d2: nat, stop: int) -> (nat, nat, nat) {
    grow_block(d0, d1, d2, 1, 1, 1, 0, stop)
}

/// The group shape for a grid of the given extents.
pub fn get_block_dims(dim0: usize, dim1: usize, dim2: usize, stop: i32) -> (r: (usize, usize, usize))
    ensures
        (r.0 as nat, r.1 as nat, r.2 as nat) == block_dims(
            dim0 as nat,
            dim1 as nat,
            dim2 as nat,
            stop as int,
        ),
{
    let mut s0: usize = 1;
    let mut s1: usize = 1;
    let mut s2: usize = 1;
    let mut n: u128 = 0;
    let ghost want = block_dims(dim0 as nat, dim1 as nat, dim2 as nat, stop as int);
    loop
        invariant_except_break
            grow_block(
                dim0 as nat,
                dim1 as nat,
                dim2 as nat,
                s0 as nat,
                s1 as nat,
                s2 as nat,
                n as int,
                stop as int,
            ) == want,
        invariant
            1 <= s0 && (s0 == 1 || s0 <= dim0),
            1 <= s1 && (s1 == 1 || s1 <= dim1),
            1 <= s2 && (s2 == 1 || s2 <= dim2),
            n + 3 <= s0 + s1 + s2,
        ensures
            (s0 as nat, s1 as nat, s2 as nat) == want,
        decreases gap(dim0 as nat, s0 as nat) + gap(dim1 as nat, s1 as nat) + gap(
            dim2 as nat,
            s2 as nat,
        ),
    {
        let before = n;
        if dim0 / 2 >= s0 {
            s0 = 2 * s0;
            n = n + 1;
        }
        if n == 10 {
            break;
        }
        if dim1 / 2 >= s1 {
            s1 = 2 * s1;
            n = n + 1;
        }
        if n == 10 {
            break;
        }
        if dim2 / 2 >= s2 {
            s2 = 2 * s2;
            n = n + 1;
        }
        if n == before || (stop >= 0 && n == stop as u128) {
            break;
        }
    }
    (s0, s1, s2)
}

proof fn lemma_block_bound(
    d0: nat,
    d1: nat,
    d2: nat,
    s0: nat,
    s1: nat,
    s2: nat,
    n: int,
)
    requires
        s0 >= 1,
        s1 >= 1,
        s2 >= 1,
        0 <= n < 10,
        s0 * s1 * s2 == pow2(n as nat),
    ensures
        ({
            let g = grow_block(d0, d1, d2, s0, s1, s2, n, 10);
            g.0 * g.1 * g.2 <= 1024 && g.0 >= 1 && g.1 >= 1 && g.2 >= 1
        }),
    decreases gap(d0, s0) + gap(d1, s1) + gap(d2, s2),
{
    lemma2_to64();
    let t0 = if d0 >= 2 * s0 {
        2 * s0
    } else {
        s0
    };
    let n0 = if d0 >= 2 * s0 {
        n + 1
    } else {
        n
    };
    lemma_pow2_unfold((n + 1) as nat);
    assert(t0 * s1 * s2 == pow2(n0 as nat)) by {
        assert((2 * s0) * s1 * s2 == 2 * (s0 * s1 * s2)) by (nonlinear_arith);
    }
    if n0 != 10 {
        let t1 = if d1 >= 2 * s1 {
            2 * s1
        } else {
            s1
        };
        let n1 = if d1 >= 2 * s1 {
            n0 + 1
        } else {
            n0
        };
        lemma_pow2_unfold((n0 + 1) as nat);
        assert(t0 * t1 * s2 == pow2(n1 as nat)) by {
            assert(t0 * (2 * s1) * s2 == 2 * (t0 * s1 * s2)) by (nonlinear_arith);
        }
        if n1 != 10 {
            let t2 = if d2 >= 2 * s2 {
                2 * s2
            } else {
                s2
            };
            let n2 = if d2 >= 2 * s2 {
                n1 + 1
            } else {
                n1
            };
            lemma_pow2_unfold((n1 + 1) as nat);
            assert(t0 * t1 * t2 == pow2(n2 as nat)) by {
                assert(t0 * t1 * (2 * s2) == 2 * (t0 * t1 * s2)) by (nonlinear_arith);
            }
            if n2 == n || n2 == 10 {
                if n2 < 10 {
                    lemma_pow2_strictly_increases(n2 as nat, 10);
                }
            } else {
                lemma_block_bound(d0, d1, d2, t0, t1, t2, n2);
            }
        }
    }
}

/// A group that stops at 2^10 threads never has more, and always has one.
pub proof fn block_has_at_most_1024_threads(d0: nat, d1: nat, d2: nat)
    ensures
        ({
            let g = block_dims(d0, d1, d2, 10);
            1 <= g.0 * g.1 * g.2 <= 1024
        }),
{
    lemma2_to64();
    lemma_block_bound(d0, d1, d2, 1, 1, 1, 0);
    let g = block_dims(d0, d1, d2, 10);
    let (a, b, c) = g;
    assert(a * b * c >= 1) by (nonlinear_arith)
        requires
            a >= 1,
            b >= 1,
            c >= 1,
    ;
}

} // verus!
