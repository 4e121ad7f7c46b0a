//! Depthwise convolution along one axis, and weights packed into words.
//!
//! The convolution of `x`, of batches by positions by channels, with `w`, of channels
//! by taps, first puts zeros before and behind the positions, as many as the padding
//! says. Position `j` of the result is, in each batch and channel, the sum over the
//! taps `t` of the padded value at `j * stride + t * dilation` times `w` at `t`.

use vstd::prelude::*;

use crate::array::{
    contiguous_s, copy2_run, fresh, narrow_s, reshape_s, roomy, seen, zeros_tape, Array as Tensor,
    ArrayV, Outcome,
};
use crate::dtype::Dtype;
use crate::elementwise::{binary_s, broadcasted, cast_s, compatible};
use crate::error::Error;
use crate::facade::{shown, wrap, Array};
use crate::join::lemma_packed_step;
use crate::layout::{in_shape, volume};
use crate::named::chain;
use crate::tape::{CmdV, Tape, TapeV};
use crate::views::{narrowed, narrowed_element, thin_len, thinned, thinned_element};

verus! {

// ---- convolution ----

/// How far a kernel of `k` taps reaches.
pub open spec fn conv_span(k: usize, dil: usize) -> int {
    (k - 1) * dil + 1
}

/// The length of what a kernel of `k` taps makes of `lp` positions.
pub open spec fn conv_len(lp: int, k: usize, s: usize, dil: usize) -> int {
    if lp >= conv_span(k, dil) {
        (lp - conv_span(k, dil)) / (s as int) + 1
    } else {
        0
    }
}

/// What a convolution is asked for.
pub struct Conv {
    pub lp: usize,
    pub pl: usize,
    pub stride: usize,
    pub dil: usize,
    pub taps: usize,
    pub channels: usize,
}

impl Conv {
    /// The length of the result.
    pub open spec fn len(self) -> int {
        conv_len(self.lp as int, self.taps, self.stride, self.dil)
    }

    /// Where the padded positions start that a tap reads.
    pub open spec fn start(self, tap: int) -> int {
        tap * self.dil
    }

    /// How many padded positions lie from the first to the last that a tap reads.
    pub open spec fn width(self) -> int {
        (self.len() - 1) * self.stride + 1
    }
}

/// The shape of the padded positions.
pub open spec fn padded_shape(x: ArrayV, c: Conv) -> Seq<usize> {
    seq![x.shape()[0], c.lp, c.channels]
}

/// The positions with zeros in front and behind.
#[verifier::opaque]
pub open spec fn padded_s(t: TapeV, x: ArrayV, c: Conv) -> (TapeV, Outcome) {
    if x.shape()[1] == c.lp {
        (t, Ok(x))
    } else {
        let all = fresh(t, padded_shape(x, c), Dtype::Float32);
        let inner = all.under(narrowed(all.layout, 1, c.pl, x.shape()[1]));
        (
            zeros_tape(t, padded_shape(x, c), Dtype::Float32).then_do(
                CmdV::Launch(copy2_run(x, inner)),
            ),
            Ok(all),
        )
    }
}

/// What one tap adds: the padded positions that it reads, every `stride`-th from
/// where it starts, each channel times its weight.
pub open spec fn tap_s(t: TapeV, acc: ArrayV, x: ArrayV, w: ArrayV, c: Conv, tap: int) -> (
    TapeV,
    Outcome,
) {
    if c.len() == 0 {
        (t, Ok(acc))
    } else {
        match narrow_s(x, 1, c.start(tap) as usize, c.width() as usize) {
            Err(e) => (t, Err(e)),
            Ok(cut) => chain(
                contiguous_s(t, cut.under(thinned(cut.layout, 1, c.stride))),
                |t1: TapeV, part: ArrayV|
                    match narrow_s(w, 1, tap as usize, 1) {
                        Err(e) => (t1, Outcome::Err(e)),
                        Ok(column) => chain(
                            reshape_s(t1, column, seq![1usize, 1, c.channels]),
                            |t2: TapeV, weights: ArrayV|
                                chain(
                                    binary_s(t2, part, weights, "bmul"@),
                                    |t3: TapeV, p: ArrayV| binary_s(t3, acc, p, "badd"@),
                                ),
                        ),
                    },
            ),
        }
    }
}

/// What the first `k` taps add up to.
pub open spec fn taps_s(t: TapeV, acc: ArrayV, x: ArrayV, w: ArrayV, c: Conv, k: int) -> (
    TapeV,
    Outcome,
)
    decreases k,
{
    if k <= 0 {
        (t, Ok(acc))
    } else {
        match taps_s(t, acc, x, w, c, k - 1) {
            (t1, Err(e)) => (t1, Err(e)),
            (t1, Ok(a)) => tap_s(t1, a, x, w, c, k - 1),
        }
    }
}

proof fn lemma_taps_stop(t: TapeV, acc: ArrayV, x: ArrayV, w: ArrayV, c: Conv, k: int, n: int)
    requires
        0 <= k <= n,
        taps_s(t, acc, x, w, c, k).1 is Err,
    ensures
        taps_s(t, acc, x, w, c, n) == taps_s(t, acc, x, w, c, k),
    decreases n - k,
{
    if k < n {
        lemma_taps_stop(t, acc, x, w, c, k, n - 1);
    }
}

/// A number that may be left out.
pub open spec fn given(v: Option<i32>, default: usize) -> usize {
    match v {
        Some(n) => n as usize,
        None => default,
    }
}

fn given_or(v: Option<i32>, default: usize) -> (n: usize)
    ensures
        n == given(v, default),
{
    match v {
        Some(n) => n as usize,
        None => default,
    }
}

/// The padding, nothing where it is left out.
pub open spec fn pads(p: Option<(i32, i32)>) -> (int, int) {
    match p {
        Some((a, b)) => (a as int, b as int),
        None => (0, 0),
    }
}

/// What a convolution is asked for, from its operands.
pub open spec fn conv_of(
    x: ArrayV,
    w: ArrayV,
    stride: Option<i32>,
    padding: Option<(i32, i32)>,
    dilation: Option<i32>,
) -> Conv {
    Conv {
        lp: (x.shape()[1] + pads(padding).0 + pads(padding).1) as usize,
        pl: pads(padding).0 as usize,
        stride: given(stride, 1),
        dil: given(dilation, 1),
        taps: w.shape()[1],
        channels: x.shape()[2],
    }
}

/// A convolution of each channel on its own: the taps are added up in 32-bit
/// floats, and the sum is given in the type of the input.
pub open spec fn conv_s(t: TapeV, x: ArrayV, w: ArrayV, c: Conv, groups: usize) -> (TapeV, Outcome) {
    let n = x.shape()[0];
    if groups != x.shape()[2] || w.shape()[0] != x.shape()[2] || w.shape()[2] != 1 {
        (t, Err("conv1d: only depthwise (groups == C_in == C_out) is implemented"@))
    } else {
        let shape = seq![n, c.len() as usize, c.channels];
        let acc = fresh(t, shape, Dtype::Float32);
        chain(
            cast_s(zeros_tape(t, shape, Dtype::Float32), x, Dtype::Float32),
            |t1: TapeV, xf: ArrayV|
                chain(
                    cast_s(t1, w, Dtype::Float32),
                    |t2: TapeV, wf: ArrayV|
                        chain(
                            padded_s(t2, xf, c),
                            |t3: TapeV, xp: ArrayV|
                                chain(
                                    taps_s(t3, acc, xp, wf, c, c.taps as int),
                                    |t4: TapeV, a: ArrayV| cast_s(t4, a, x.dtype),
                                ),
                        ),
                ),
        )
    }
}

/// Positions along the second axis are in byte range.
pub open spec fn reaches(a: ArrayV) -> bool {
    (a.layout.offset + a.shape()[1] * a.strides()[1]) * 4 <= usize::MAX
}

/// Operands that a convolution can take: matrices of positions and channels whose
/// sizes are signed numbers, at least one tap, a stride, no negative padding, and
/// lengths in range.
pub open spec fn conv_fits(
    x: ArrayV,
    w: ArrayV,
    stride: Option<i32>,
    padding: Option<(i32, i32)>,
    dilation: Option<i32>,
) -> bool {
    let c = conv_of(x, w, stride, padding, dilation);
    &&& x.wf()
    &&& w.wf()
    &&& x.rank() == 3
    &&& w.rank() == 3
    &&& forall|i: int| 0 <= i < 3 ==> #[trigger] x.shape()[i] <= i32::MAX
    &&& forall|i: int| 0 <= i < 3 ==> #[trigger] w.shape()[i] <= i32::MAX
    &&& pads(padding).0 >= 0
    &&& pads(padding).1 >= 0
    &&& c.taps > 0
    &&& c.stride > 0
    &&& x.shape()[1] + pads(padding).0 + pads(padding).1 <= usize::MAX
    &&& conv_span(c.taps, c.dil) <= usize::MAX
    &&& roomy(seq![x.shape()[0], c.len() as usize, c.channels])
    &&& c.lp != x.shape()[1] ==> roomy(padded_shape(x, c))
    &&& x.dtype == Dtype::Float32 ==> reaches(x)
    &&& w.dtype == Dtype::Float32 ==> reaches(w)
}

proof fn lemma_row_shape(n: usize, l: usize, c: usize)
    ensures
        compatible(seq![n, l, c], seq![1usize, 1, c]),
        broadcasted(seq![n, l, c], seq![1usize, 1, c]) == seq![n, l, c],
{
    let a = seq![n, l, c];
    let b = seq![1usize, 1, c];
    assert forall|i: int| 0 <= i < 3 implies #[trigger] crate::elementwise::aligned(a, 3, i)
        == crate::elementwise::aligned(b, 3, i) || crate::elementwise::aligned(a, 3, i) == 1
        || crate::elementwise::aligned(b, 3, i) == 1 by {
        assert(i == 0 || i == 1 || i == 2);
    }
    assert(broadcasted(a, b) =~= a);
}

proof fn lemma_cast_reaches(t: TapeV, a: ArrayV)
    requires
        a.wf(),
        a.rank() == 3,
        a.dtype == Dtype::Float32 ==> reaches(a),
    ensures
        cast_s(t, a, Dtype::Float32).1 matches Ok(x) ==> reaches(x),
{
    if a.dtype != Dtype::Float32 {
        lemma_packed_step(a.shape(), 1, a.shape()[1] as int, Dtype::Float32);
    }
}

/// The position of the input that a tap reads for a place of the result is the
/// place in strides and the tap in dilations, less the padding in front: that is
/// where the tap's view of the padded positions finds its element.
pub proof fn taps_read_their_positions(x: ArrayV, c: Conv, tap: int, idx: Seq<int>)
    requires
        x.wf(),
        x.rank() == 3,
        reaches(x),
        x.dtype == Dtype::Float32,
        x.shape()[1] == c.lp,
        c.stride > 0,
        c.taps > 0,
        0 <= tap < c.taps,
        in_shape(idx, seq![x.shape()[0], c.len() as usize, x.shape()[2]]),
    ensures
        narrow_s(x, 1, c.start(tap) as usize, c.width() as usize) matches Ok(cut) && thinned(
            cut.layout,
            1,
            c.stride,
        ).at(idx) == x.layout.at(idx.update(1, idx[1] * c.stride + tap * c.dil)),
{
    assert(idx[1] >= 0);
    lemma_tap_room(x, c, tap);
    let s = c.start(tap) as usize;
    let w = c.width() as usize;
    let cut = narrowed(x.layout, 1, s, w);
    assert(thinned(cut, 1, c.stride).shape =~= seq![x.shape()[0], c.len() as usize, x.shape()[2]]);
    thinned_element(cut, 1, c.stride, idx);
    let j = idx.update(1, idx[1] * c.stride);
    narrowed_element(x.layout, 1, s, w, j);
    assert(j.update(1, j[1] + s) =~= idx.update(1, idx[1] * c.stride + tap * c.dil));
}

/// What a tap reads lies among the padded positions.
proof fn lemma_tap_room(x: ArrayV, c: Conv, tap: int)
    requires
        x.wf(),
        x.rank() == 3,
        reaches(x),
        x.dtype == Dtype::Float32,
        x.shape()[1] == c.lp,
        c.stride > 0,
        c.len() > 0,
        0 <= tap < c.taps,
    ensures
        0 <= c.start(tap),
        1 <= c.width(),
        c.start(tap) + c.width() <= c.lp,
        c.len() <= usize::MAX,
        (x.layout.offset + c.start(tap) * x.strides()[1]) * 4 <= usize::MAX,
        thin_len(c.width() as usize, c.stride) == c.len(),
        c.len() > 1 ==> x.strides()[1] * c.stride <= usize::MAX,
{
    let span = conv_span(c.taps, c.dil);
    let q = (c.lp - span) / (c.stride as int);
    assert(tap * c.dil <= (c.taps - 1) * c.dil && 0 <= tap * c.dil) by (nonlinear_arith)
        requires
            0 <= tap <= c.taps - 1,
            c.dil >= 0,
    ;
    assert(c.lp >= span);
    assert(q * c.stride <= c.lp - span && 0 <= q <= c.lp - span && 0 <= q * c.stride)
        by (nonlinear_arith)
        requires
            q == (c.lp - span) / (c.stride as int),
            c.stride > 0,
            c.lp >= span,
    ;
    assert(c.len() == q + 1);
    let st = x.strides()[1] as int;
    let o = x.layout.offset as int;
    let s = c.start(tap);
    assert((o + s * st) * 4 <= (o + c.lp * st) * 4) by (nonlinear_arith)
        requires
            s <= c.lp,
            st >= 0,
    ;
    assert((q * c.stride) / (c.stride as int) == q) by (nonlinear_arith)
        requires
            c.stride > 0,
    ;
    if q > 0 {
        assert(st * c.stride <= (o + c.lp * st) * 4) by (nonlinear_arith)
            requires
                q * c.stride <= c.lp,
                q >= 1,
                st >= 0,
                o >= 0,
                c.stride > 0,
        ;
    }
}

/// The positions with zeros in front and behind.
fn pad(tape: &mut Tape, x: &Tensor, c: &Conv) -> (r: Tensor)
    requires
        x@.wf(),
        x@.rank() == 3,
        x@.dtype == Dtype::Float32,
        reaches(x@),
        c.channels == x@.shape()[2],
        c.pl + x@.shape()[1] <= c.lp,
        c.lp != x@.shape()[1] ==> roomy(padded_shape(x@, *c)),
    ensures
        (final(tape)@, Outcome::Ok(r@)) == padded_s(old(tape)@, x@, *c),
        r@.wf(),
        r@.shape() == padded_shape(x@, *c),
        r@.dtype == Dtype::Float32,
        reaches(r@),
{
    proof {
        reveal(padded_s);
    }
    let l = x.dims()[1];
    if l == c.lp {
        assert(x@.shape() =~= padded_shape(x@, *c));
        return x.duplicate();
    }
    let shape = vec![x.dims()[0], c.lp, c.channels];
    assert(shape@ =~= padded_shape(x@, *c));
    let all = Tensor::zeros(tape, &shape, Dtype::Float32);
    proof {
        lemma_packed_step(shape@, 1, c.pl as int, Dtype::Float32);
        lemma_packed_step(shape@, 1, c.lp as int, Dtype::Float32);
    }
    let inner = all.narrow(1, c.pl, l).unwrap();
    assert(inner@.shape() =~= x@.shape());
    let done = x.copy_strided_into(tape, &inner);
    assert(done is Ok);
    all
}

/// One tap added to the sum.
fn add_tap(tape: &mut Tape, acc: &Tensor, x: &Tensor, w: &Tensor, c: &Conv, lout: usize, tap: usize) -> (r:
    Result<Tensor, Error>)
    requires
        acc@.wf(),
        x@.wf(),
        w@.wf(),
        x@.rank() == 3,
        w@.rank() == 3,
        x@.dtype == Dtype::Float32,
        w@.dtype == Dtype::Float32,
        reaches(x@),
        reaches(w@),
        tap < c.taps,
        c.taps == w@.shape()[1],
        c.channels == x@.shape()[2],
        c.lp == x@.shape()[1],
        c.stride > 0,
        lout == c.len(),
        acc@.shape() == seq![x@.shape()[0], lout, c.channels],
        roomy(seq![x@.shape()[0], lout, c.channels]),
    ensures
        (final(tape)@, seen(r)) == tap_s(old(tape)@, acc@, x@, w@, *c, tap as int),
        r matches Ok(a) ==> a@.wf() && a@.shape() == acc@.shape(),
{
    if lout == 0 {
        return Ok(acc.duplicate());
    }
    proof {
        lemma_tap_room(x@, *c, tap as int);
        let sw = w@.strides()[1] as int;
        let ow = w@.layout.offset as int;
        assert((ow + tap * sw) * 4 <= (ow + w@.shape()[1] * sw) * 4) by (nonlinear_arith)
            requires
                tap <= w@.shape()[1],
                sw >= 0,
        ;
        assert((lout - 1) * c.stride >= 0) by (nonlinear_arith)
            requires
                lout >= 1,
                c.stride >= 1,
        ;
    }
    let width = (lout - 1) * c.stride + 1;
    let cut = x.narrow(1, tap * c.dil, width).unwrap();
    let some = cut.every(1, c.stride);
    let part = match some.contiguous(tape) {
        Ok(p) => p,
        Err(e) => {
            return Err(e);
        },
    };
    let column = match w.narrow(1, tap, 1) {
        Ok(p) => p,
        Err(e) => {
            return Err(e);
        },
    };
    let one = vec![1usize, 1, c.channels];
    proof {
        assert(one@ =~= seq![1usize, 1, c.channels]);
        assert(part@.shape() =~= seq![x@.shape()[0], lout, c.channels]);
        lemma_row_shape(x@.shape()[0], lout, c.channels);
        lemma_one_row(x@.shape()[0], lout, c.channels);
        crate::elementwise::broadcasting_is_idempotent(acc@.shape());
    }
    let weights = match column.reshape(tape, &one) {
        Ok(p) => p,
        Err(e) => {
            return Err(e);
        },
    };
    let p = match part.broadcast_mul(tape, &weights) {
        Ok(p) => p,
        Err(e) => {
            return Err(e);
        },
    };
    acc.broadcast_add(tape, &p)
}

proof fn lemma_unit(s: Seq<usize>)
    requires
        s.len() > 0,
        s.last() == 1,
        volume(s.drop_last()) == 1,
    ensures
        volume(s) == 1,
{
    let a = volume(s.drop_last());
    let b = crate::layout::at_least_one(s.last());
    assert(a * b == 1) by (nonlinear_arith)
        requires
            a == 1,
            b == 1,
    ;
}

proof fn lemma_one_row(n: usize, l: usize, c: usize)
    requires
        roomy(seq![n, l, c]),
    ensures
        roomy(seq![1usize, 1, c]),
{
    let a = seq![n, l, c];
    let b = seq![1usize, 1, c];
    let e = crate::layout::at_least_one(c);
    assert(volume(b) == e) by {
        let b2 = b.drop_last();
        let b1 = b2.drop_last();
        assert(b1.drop_last().len() == 0);
        lemma_unit(b1);
        lemma_unit(b2);
        let f = volume(b2);
        assert(f * e == e) by (nonlinear_arith)
            requires
                f == 1,
        ;
        assert(b.last() == c);
    }
    crate::layout::lemma_volume_bounds(a.drop_last());
    let v = volume(a.drop_last());
    assert(v * e >= e) by (nonlinear_arith)
        requires
            v >= 1,
            e >= 0,
    ;
}

/// A convolution of each channel on its own, with the stride, the padding and the
/// dilation that are asked for.
#[verifier::rlimit(60)]
pub fn conv1d(
    tape: &mut Tape,
    input: &Array,
    weight: &Array,
    stride: Option<i32>,
    padding: Option<(i32, i32)>,
    dilation: Option<i32>,
    groups: Option<i32>,
) -> (r: Result<Array, Error>)
    requires
        conv_fits(input.t@, weight.t@, stride, padding, dilation),
    ensures
        (final(tape)@, shown(r)) == conv_s(
            old(tape)@,
            input.t@,
            weight.t@,
            conv_of(input.t@, weight.t@, stride, padding, dilation),
            given(groups, 1),
        ),
        r matches Ok(a) ==> a.wf(),
{
    let (n, l, cin) = (input.t.dims()[0], input.t.dims()[1], input.t.dims()[2]);
    let (cout, k) = (weight.t.dims()[0], weight.t.dims()[1]);
    let (pl, pu): (i32, i32) = match padding {
        Some(p) => p,
        None => (0, 0),
    };
    if given_or(groups, 1) != cin || cout != cin || weight.t.dims()[2] != 1 {
        return Err(
            Error::msg("conv1d: only depthwise (groups == C_in == C_out) is implemented"),
        );
    }
    let s = given_or(stride, 1);
    let dil = given_or(dilation, 1);
    let lp = l + pl as usize + pu as usize;
    proof {
        assert((k - 1) * dil >= 0) by (nonlinear_arith)
            requires
                k >= 1,
                dil >= 0,
        ;
    }
    let span = (k - 1) * dil + 1;
    let lout: usize = if lp >= span {
        proof {
            let q = (lp - span) / (s as int);
            assert(0 <= q <= lp - span) by (nonlinear_arith)
                requires
                    q == (lp - span) / (s as int),
                    s >= 1,
                    lp >= span,
            ;
        }
        (lp - span) / s + 1
    } else {
        0
    };
    let c = Conv { lp, pl: pl as usize, stride: s, dil, taps: k, channels: cin };
    assert(c == conv_of(input.t@, weight.t@, stride, padding, dilation));
    let shape = vec![n, lout, cin];
    proof {
        assert(shape@ =~= seq![n, c.len() as usize, c.channels]);
    }
    let ghost t0 = tape@;
    let mut acc = Tensor::zeros(tape, &shape, Dtype::Float32);
    let ghost first = acc@;
    proof {
        lemma_cast_reaches(tape@, input.t@);
    }
    let xf = match input.t.to_dtype(tape, Dtype::Float32) {
        Ok(x) => x,
        Err(e) => {
            return Err(e);
        },
    };
    proof {
        lemma_cast_reaches(tape@, weight.t@);
    }
    let wf = match weight.t.to_dtype(tape, Dtype::Float32) {
        Ok(x) => x,
        Err(e) => {
            return Err(e);
        },
    };
    let xp = pad(tape, &xf, &c);
    let ghost t2 = tape@;
    let mut i: usize = 0;
    while i < k
        invariant
            i <= k,
            k == c.taps,
            (tape@, Outcome::Ok(acc@)) == taps_s(t2, first, xp@, wf@, c, i as int),
            acc@.wf(),
            xp@.wf(),
            wf@.wf(),
            xp@.rank() == 3,
            wf@.rank() == 3,
            xp@.dtype == Dtype::Float32,
            wf@.dtype == Dtype::Float32,
            reaches(xp@),
            reaches(wf@),
            c.taps == wf@.shape()[1],
            c.channels == xp@.shape()[2],
            c.lp == xp@.shape()[1],
            c.stride > 0,
            lout == c.len(),
            acc@.shape() == seq![xp@.shape()[0], lout, c.channels],
            roomy(seq![xp@.shape()[0], lout, c.channels]),
            old(tape)@ == t0,
            conv_s(t0, input.t@, weight.t@, c, given(groups, 1)) == chain(
                taps_s(t2, first, xp@, wf@, c, c.taps as int),
                |t3: TapeV, a: ArrayV| cast_s(t3, a, input.t@.dtype),
            ),
            c == conv_of(input.t@, weight.t@, stride, padding, dilation),
        decreases k - i,
    {
        match add_tap(tape, &acc, &xp, &wf, &c, lout, i) {
            Ok(a) => {
                acc = a;
            },
            Err(e) => {
                proof {
                    lemma_taps_stop(t2, first, xp@, wf@, c, i + 1, k as int);
                }
                return Err(e);
            },
        }
        i += 1;
    }
    wrap(acc.to_dtype(tape, input.t.dtype()))
}

} // verus!
