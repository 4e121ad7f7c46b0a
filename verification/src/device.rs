//! A model of the device on exact numbers: what its memory holds after the
//! commands of a tape.
//!
//! A memory gives the number that a buffer holds at a place, read as a type. Every
//! kernel of the model is known by its name and reads its arguments by their slots.
//! Rounding is left out: a conversion keeps the number.

use vstd::prelude::*;

use crate::array::{
    broadcast_to_s, byte_size, contiguous_s, copied_run, copied_s, copy_words, fresh,
    lemma_fresh_wf, lemma_roomy, lifted, padded, reshape_s, roomy, ArrayV, Outcome, MAX_COPY_RANK,
};
use crate::collapse::{count, place};
use crate::dtype::{metal_text, promoted, tag_text, width, Dtype};
use crate::elementwise::{binary_run, binary_s, broadcasted, cast_run, cast_s, kernel_tag_text};
use crate::facade::promoted_s;
use crate::layout::{dot, in_shape, numel, packed, unravel, LayoutV};
use crate::matmul::gemm_params;
use crate::nax::nax_name;
use crate::reduce::{fresh_nonempty, lemma_roomy_front, reduce_last_s, reduce_run, Reduction};
use crate::tape::{max_int, ArgV, CmdV, ConstVal, Dim3, DispatchV, Grid, Scalar, TapeV};
use crate::text::dec;
use crate::views::{dense_order, packed_is_dense, spread_element};
use crate::words::u64_words;

verus! {

// ---- memory ----

/// The number that a buffer holds at a place, in elements of a type.
pub type Memory = spec_fn(u64, Dtype, int) -> int;

/// The memory before each command of a tape, and after the last.
pub type History = spec_fn(int) -> Memory;

/// What the model leaves open of the numbers: the number that a fill stores, and
/// the weight that a softmax gives a place of a row.
pub ghost struct Numbers {
    pub number: spec_fn(Dtype, Scalar) -> int,
    pub weight: spec_fn(Seq<int>, int) -> int,
}

/// The element of an array at a position.
pub open spec fn val(m: Memory, a: ArrayV, idx: Seq<int>) -> int {
    m(a.buf, a.dtype, a.layout.at(idx))
}

/// The place of a position in row-major order.
pub open spec fn ravel(shape: Seq<usize>, idx: Seq<int>) -> int
    decreases shape.len(),
{
    if shape.len() == 0 {
        0
    } else {
        ravel(shape.drop_last(), idx.drop_last()) * shape.last() + idx.last()
    }
}

/// The sum of the first `n` values.
pub open spec fn sum_to(n: int, f: spec_fn(int) -> int) -> int
    decreases n,
{
    if n <= 0 {
        0
    } else {
        sum_to(n - 1, f) + f(n - 1)
    }
}

/// Sums of the same values are the same.
pub proof fn lemma_same_sum(n: int, f: spec_fn(int) -> int, g: spec_fn(int) -> int)
    requires
        forall|i: int| 0 <= i < n ==> #[trigger] f(i) == g(i),
    ensures
        sum_to(n, f) == sum_to(n, g),
    decreases n,
{
    if n > 0 {
        lemma_same_sum(n - 1, f, g);
        assert(f(n - 1) == g(n - 1));
    }
}

// ---- arguments ----

/// Every argument stands in the slot of its place in the list.
pub open spec fn in_order(d: DispatchV) -> bool {
    forall|i: int| 0 <= i < d.args.len() ==> (#[trigger] d.args[i]).0 == i
}

/// What an argument reads, so many elements behind its start.
pub open spec fn read(m: Memory, a: ArgV, dt: Dtype, k: int) -> int {
    match a {
        ArgV::Input(b, o) => m(b, dt, o as int / width(dt) as int + k),
        ArgV::Output(b, o) => m(b, dt, o as int / width(dt) as int + k),
        _ => 0,
    }
}

/// Sizes that are handed over as 64-bit words.
pub open spec fn sizes(w: Seq<u64>) -> Seq<usize> {
    w.map_values(|x: u64| x as usize)
}

pub proof fn lemma_sizes(v: Seq<usize>)
    ensures
        sizes(u64_words(v)) == v,
{
    assert(sizes(u64_words(v)) =~= v);
}

// ---- kernels ----

/// The arithmetic of the elementwise kernels.
pub ghost enum Arith {
    Add,
    Sub,
    Mul,
}

impl Arith {
    /// The operation's name.
    pub open spec fn text(self) -> Seq<char> {
        match self {
            Arith::Add => "badd"@,
            Arith::Sub => "bsub"@,
            Arith::Mul => "bmul"@,
        }
    }

    /// The operation on two numbers.
    pub open spec fn of(self, x: int, y: int) -> int {
        match self {
            Arith::Add => x + y,
            Arith::Sub => x - y,
            Arith::Mul => x * y,
        }
    }
}

/// The kernel of an operation on two arrays of a type.
pub open spec fn arith_name(op: Arith, dt: Dtype) -> Seq<char> {
    op.text() + "_"@ + kernel_tag_text(dt)->0 + "_strided"@
}

/// Elements combined position by position: the sizes in slot 2, the strides of the
/// operands in 3 and 4, the operands in 5 and 6, the result in 7.
pub open spec fn combines(d: DispatchV, m: Memory, after: Memory, op: Arith, dt: Dtype) -> bool {
    d.args.len() == 8 ==> match (
        d.args[0].1,
        d.args[1].1,
        d.args[2].1,
        d.args[3].1,
        d.args[4].1,
    ) {
        (ArgV::Size(n), ArgV::Size(r), ArgV::U64s(s), ArgV::U64s(x), ArgV::U64s(y)) => r == s.len()
            ==> forall|idx: Seq<int>| #[trigger]
            in_shape(idx, sizes(s)) && ravel(sizes(s), idx) < n ==> read(
                after,
                d.args[7].1,
                dt,
                ravel(sizes(s), idx),
            ) == op.of(
                read(m, d.args[5].1, dt, dot(idx, sizes(x))),
                read(m, d.args[6].1, dt, dot(idx, sizes(y))),
            ),
        _ => true,
    }
}

/// The kernel that converts from a type to another.
pub open spec fn cast_name(from: Dtype, to: Dtype) -> Seq<char> {
    "cast_"@ + kernel_tag_text(from)->0 + "_"@ + kernel_tag_text(to)->0 + "_strided"@
}

/// Elements converted position by position: the sizes in slot 2, the strides in 3,
/// the operand in 4, the result in 5.
pub open spec fn converts(d: DispatchV, m: Memory, after: Memory, from: Dtype, to: Dtype) -> bool {
    d.args.len() == 6 ==> match (d.args[0].1, d.args[1].1, d.args[2].1, d.args[3].1) {
        (ArgV::Size(n), ArgV::Size(r), ArgV::U64s(s), ArgV::U64s(x)) => r == s.len() ==> forall|
            idx: Seq<int>,
        | #[trigger]
            in_shape(idx, sizes(s)) && ravel(sizes(s), idx) < n ==> read(
                after,
                d.args[5].1,
                to,
                ravel(sizes(s), idx),
            ) == read(m, d.args[4].1, from, dot(idx, sizes(x))),
        _ => true,
    }
}

/// The kernel that packs elements of a type.
pub open spec fn copy_name(dt: Dtype) -> Seq<char> {
    "copy_strided_"@ + metal_text(dt)
}

/// The sizes in the parameters of a copy.
pub open spec fn copy_shape(w: Seq<u32>) -> Seq<usize> {
    Seq::new(w[0] as nat, |i: int| w[1 + i] as usize)
}

/// The strides in the parameters of a copy.
pub open spec fn copy_steps(w: Seq<u32>) -> Seq<usize> {
    Seq::new(w[0] as nat, |i: int| w[9 + i] as usize)
}

/// Elements packed in row-major order, one thread each: the operand in slot 0, the
/// result in 1, and the rank, the sizes and the strides in 2.
pub open spec fn copies(d: DispatchV, m: Memory, after: Memory, dt: Dtype) -> bool {
    d.args.len() == 3 ==> match (d.args[2].1, d.grid) {
        (ArgV::U32s(w), Grid::Threads(g, _)) => w.len() == 17 && w[0] <= 8 ==> forall|
            idx: Seq<int>,
        | #[trigger]
            in_shape(idx, copy_shape(w)) && ravel(copy_shape(w), idx) < g.x ==> read(
                after,
                d.args[1].1,
                dt,
                ravel(copy_shape(w), idx),
            ) == read(m, d.args[0].1, dt, dot(idx, copy_steps(w))),
        _ => true,
    }
}

/// The kernel that adds up rows of a type.
pub open spec fn sum_name(dt: Dtype) -> Seq<char> {
    "row_reduce_simple_sum"@ + tag_text(dt)
}

/// Rows added up: the operand in slot 0, the result in 1, the length of a row in 2,
/// the number of rows in 3.
pub open spec fn adds_rows(d: DispatchV, m: Memory, after: Memory, dt: Dtype) -> bool {
    d.args.len() == 4 ==> match (d.args[2].1, d.args[3].1) {
        (ArgV::Size(row), ArgV::I64(n)) => forall|i: int|
            0 <= i < n ==> #[trigger] read(after, d.args[1].1, dt, i) == sum_to(
                row as int,
                |j: int| read(m, d.args[0].1, dt, i * row + j),
            ),
        _ => true,
    }
}

/// The kernel that selects values of a type by a condition of a type.
pub open spec fn choose_name(cond: Dtype, val: Dtype) -> Seq<char> {
    "where_"@ + kernel_tag_text(cond)->0 + "_"@ + kernel_tag_text(val)->0
}

/// Row-major elements chosen one by one: their number in slot 0, the condition in 6,
/// the values where it holds in 7 and where not in 8, the result in 9.
pub open spec fn chooses(d: DispatchV, m: Memory, after: Memory, cond: Dtype, dt: Dtype) -> bool {
    d.args.len() == 10 && d.program.consts == seq![
        (0usize, ConstVal::Bool(true)),
        (1usize, ConstVal::Bool(true)),
        (2usize, ConstVal::Bool(true)),
    ] ==> match d.args[0].1 {
        ArgV::Size(n) => forall|i: int|
            0 <= i < n ==> #[trigger] read(after, d.args[9].1, dt, i) == (if read(
                m,
                d.args[6].1,
                cond,
                i,
            ) != 0 {
                read(m, d.args[7].1, dt, i)
            } else {
                read(m, d.args[8].1, dt, i)
            }),
        _ => true,
    }
}

/// The kernels that take the softmax of rows of a type.
pub open spec fn softmax_name(dt: Dtype, precise: bool) -> Seq<char> {
    "block_"@ + (if precise {
        "softmax_precise_"@
    } else {
        "softmax_"@
    }) + tag_text(dt)
}

/// The softmax of every row, one group of threads each: the operand in slot 0, the
/// result in 1, the length of a row in 2.
pub open spec fn weighs(d: DispatchV, m: Memory, after: Memory, dt: Dtype, n: Numbers) -> bool {
    d.args.len() == 3 ==> match (d.args[2].1, d.grid) {
        (ArgV::I32(row), Grid::Threads(g, one)) => forall|p: int|
            0 <= p && row > 0 && (p / (row as int) + 1) * one.x <= g.x ==> #[trigger] read(
                after,
                d.args[1].1,
                dt,
                p,
            ) == (n.weight)(
                Seq::new(
                    row as nat,
                    |c: int| read(m, d.args[0].1, dt, (p / (row as int)) * row + c),
                ),
                p % (row as int),
            ),
        _ => true,
    }
}

/// A place of a matrix.
pub open spec fn in_matrix(rows: int, columns: int, i: int, j: int) -> bool {
    0 <= i < rows && 0 <= j < columns
}

/// The arguments of a kernel that leaves slot 2 free.
pub open spec fn skips_two(d: DispatchV) -> bool {
    d.args.len() == 4 && d.args[0].0 == 0 && d.args[1].0 == 1 && d.args[2].0 == 3 && d.args[3].0
        == 4
}

/// A product of two matrices: the operands in slots 0 and 1, the result in 3, and in
/// 4 the rows, the columns, the inner size and the distances between rows.
pub open spec fn multiplies(
    d: DispatchV,
    m: Memory,
    after: Memory,
    dt: Dtype,
    ta: bool,
    tb: bool,
) -> bool {
    skips_two(d) ==> forall|
        head: Seq<i32>,
        strides: Seq<i64>,
        tail: Seq<i32>,
        i: int,
        j: int,
    |
        #![trigger gemm_params(head, strides, tail), in_matrix(head[0] as int, head[1] as int, i, j)]
        head.len() == 8 && d.args[3].1 == ArgV::Bytes(gemm_params(head, strides, tail))
            && in_matrix(head[0] as int, head[1] as int, i, j) ==> read(
            after,
            d.args[2].1,
            dt,
            i * head[5] + j,
        ) == sum_to(
            head[2] as int,
            |c: int|
                read(
                    m,
                    d.args[0].1,
                    dt,
                    if ta {
                        c * head[3] + i
                    } else {
                        i * head[3] + c
                    },
                ) * read(
                    m,
                    d.args[1].1,
                    dt,
                    if tb {
                        j * head[4] + c
                    } else {
                        c * head[4] + j
                    },
                ),
        )
}

/// The kernel that copies between two strided layouts of so many axes.
pub open spec fn move_name(n: nat, dt: Dtype) -> Seq<char> {
    "copy_gg_nd"@ + dec(n) + "_"@ + metal_text(dt)
}

/// The sizes that a copy of up to three axes takes from its grid.
pub open spec fn grid_shape(n: nat, g: Dim3) -> Seq<i32> {
    if n == 1 {
        seq![g.x as i32]
    } else if n == 2 {
        seq![g.y as i32, g.x as i32]
    } else {
        seq![g.z as i32, g.y as i32, g.x as i32]
    }
}

/// The strides of a copy.
pub open spec fn move_steps(a: ArgV) -> Seq<i64> {
    match a {
        ArgV::I64(s) => seq![s],
        ArgV::I64s(v) => v,
        _ => Seq::empty(),
    }
}

/// Elements copied between two strided layouts, one thread each: the operand in slot
/// 0, the result in 1, their strides in 3 and 4. What is not written to stays.
pub open spec fn moves(d: DispatchV, m: Memory, after: Memory, n: nat, dt: Dtype) -> bool {
    skips_two(d) && 1 <= n <= 3 ==> match (d.grid, d.args[1].1) {
        (Grid::Threads(g, _), ArgV::Output(b, o)) => {
            let s = grid_shape(n, g);
            let from = move_steps(d.args[2].1);
            let to = move_steps(d.args[3].1);
            let start = o as int / width(dt) as int;
            &&& forall|k: int|
                #![trigger place(s, to, k)]
                0 <= k < count(s) ==> after(b, dt, start + place(s, to, k)) == read(
                    m,
                    d.args[0].1,
                    dt,
                    place(s, from, k),
                )
            &&& forall|p: int|
                (forall|k: int| 0 <= k < count(s) ==> p != start + #[trigger] place(s, to, k))
                    ==> #[trigger] after(b, dt, p) == m(b, dt, p)
        },
        _ => true,
    }
}

/// What a launch leaves in memory.
#[verifier::opaque]
pub open spec fn launched(d: DispatchV, m: Memory, after: Memory, n: Numbers) -> bool {
    &&& forall|ta: bool, tb: bool, dt: Dtype, bm: usize, bk: usize, wm: usize|
        d.program.name == #[trigger] nax_name(ta, tb, tag_text(dt), bm, bk, wm) ==> multiplies(
            d,
            m,
            after,
            dt,
            ta,
            tb,
        )
    &&& forall|k: nat, dt: Dtype|
        d.program.name == #[trigger] move_name(k, dt) ==> moves(d, m, after, k, dt)
    &&& in_order(d) ==> {
        &&& forall|op: Arith, dt: Dtype|
            kernel_tag_text(dt) is Some && d.program.name == #[trigger] arith_name(op, dt)
                ==> combines(d, m, after, op, dt)
        &&& forall|from: Dtype, to: Dtype|
            kernel_tag_text(from) is Some && kernel_tag_text(to) is Some && d.program.name
                == #[trigger] cast_name(from, to) ==> converts(d, m, after, from, to)
        &&& forall|dt: Dtype|
            d.program.name == #[trigger] copy_name(dt) ==> copies(d, m, after, dt)
        &&& forall|dt: Dtype|
            d.program.name == #[trigger] sum_name(dt) ==> adds_rows(d, m, after, dt)
        &&& forall|cond: Dtype, dt: Dtype|
            kernel_tag_text(cond) is Some && kernel_tag_text(dt) is Some && d.program.name
                == #[trigger] choose_name(cond, dt) ==> chooses(d, m, after, cond, dt)
        &&& forall|dt: Dtype, precise: bool|
            d.program.name == #[trigger] softmax_name(dt, precise) ==> weighs(d, m, after, dt, n)
    }
}

// ---- commands ----

/// Whether a command may change what a buffer holds.
pub open spec fn touches(c: CmdV, buf: u64) -> bool {
    match c {
        CmdV::Alloc(b, _, _) => b == buf,
        CmdV::Zero(b) => b == buf,
        CmdV::Write(b, _) => b == buf,
        CmdV::Fill(b, _, _, _) => b == buf,
        CmdV::Sync => false,
        CmdV::CopyRows(_, _, b, _, _, _) => b == buf,
        CmdV::HostCast(_, _, _, b, _, _) => b == buf,
        CmdV::Launch(d) => exists|i: int|
            0 <= i < d.args.len() && (#[trigger] d.args[i].1 matches ArgV::Output(b, _) && b
                == buf),
    }
}

/// The first elements of a buffer are all one number.
pub open spec fn holds_throughout(m: Memory, buf: u64, dt: Dtype, k: int, v: int) -> bool {
    forall|i: int| 0 <= i < k ==> #[trigger] m(buf, dt, i) == v
}

/// What a command leaves in memory.
pub open spec fn carried(c: CmdV, m: Memory, after: Memory, n: Numbers) -> bool {
    &&& forall|b: u64, dt: Dtype, i: int| !touches(c, b) ==> #[trigger] after(b, dt, i) == m(b, dt, i)
    &&& match c {
        CmdV::Zero(b) => forall|dt: Dtype, i: int| #[trigger] after(b, dt, i) == 0,
        CmdV::Write(b, v) => forall|i: int|
            0 <= i < v.len() ==> #[trigger] after(b, Dtype::Uint8, i) == v[i],
        CmdV::Fill(b, ty, s, k) => holds_throughout(after, b, ty, k as int, (n.number)(ty, s)),
        CmdV::HostCast(a, o, from, b, to, k) => forall|i: int|
            0 <= i < k ==> #[trigger] after(b, to, i) == m(a, from, o as int / width(from) as int + i),
        CmdV::Launch(d) => launched(d, m, after, n),
        _ => true,
    }
}

/// A history of the memory in which every command of a tape has its effect.
pub open spec fn lives(h: History, t: TapeV, n: Numbers) -> bool {
    forall|i: int| 0 <= i < t.cmds.len() ==> carried(#[trigger] t.cmds[i], h(i), h(i + 1), n)
}

/// The memory after the commands of a tape.
pub open spec fn now(h: History, t: TapeV) -> Memory {
    h(t.cmds.len() as int)
}

/// A tape that goes on from another with up to `n` new buffers.
pub open spec fn grows(t: TapeV, u: TapeV, n: int) -> bool {
    &&& t.next + n <= u64::MAX ==> t.next <= u.next <= t.next + n
    &&& t.cmds.len() <= u.cmds.len()
    &&& forall|i: int| 0 <= i < t.cmds.len() ==> u.cmds[i] == #[trigger] t.cmds[i]
}

/// Nothing changes in the buffers that there were.
pub open spec fn stays(h: History, t: TapeV, u: TapeV) -> bool {
    forall|b: u64, dt: Dtype, i: int|
        b < t.next ==> #[trigger] now(h, u)(b, dt, i) == now(h, t)(b, dt, i)
}

pub proof fn lemma_grows(t: TapeV, u: TapeV, w: TapeV, n: int, k: int)
    requires
        grows(t, u, n),
        grows(u, w, k),
        n >= 0,
        k >= 0,
    ensures
        grows(t, w, n + k),
{
    assert forall|i: int| 0 <= i < t.cmds.len() implies w.cmds[i] == #[trigger] t.cmds[i] by {
        assert(u.cmds[i] == t.cmds[i]);
    }
}

pub proof fn lemma_lives(h: History, n: Numbers, t: TapeV, u: TapeV, k: int)
    requires
        grows(t, u, k),
        lives(h, u, n),
    ensures
        lives(h, t, n),
{
    assert forall|i: int| 0 <= i < t.cmds.len() implies carried(
        #[trigger] t.cmds[i],
        h(i),
        h(i + 1),
        n,
    ) by {
        assert(u.cmds[i] == t.cmds[i]);
    }
}

/// A buffer is made and a kernel run that writes to it alone.
pub open spec fn recorded(t: TapeV, bytes: usize, label: Seq<char>, d: DispatchV) -> TapeV {
    t.then_alloc(bytes, label).then_do(CmdV::Launch(d))
}

/// The kernel writes to one buffer only.
pub open spec fn writes_only(d: DispatchV, buf: u64) -> bool {
    forall|i: int|
        0 <= i < d.args.len() ==> ((#[trigger] d.args[i]).1 matches ArgV::Output(b, _) ==> b == buf)
}

pub proof fn lemma_recorded_grows(t: TapeV, bytes: usize, label: Seq<char>, d: DispatchV)
    ensures
        grows(t, recorded(t, bytes, label, d), 1),
{
    assert(t.next < u64::MAX ==> t.next.wrapping_add(1) == t.next + 1);
}

/// What a new buffer gets from a kernel.
pub proof fn lemma_recorded(
    h: History,
    n: Numbers,
    t: TapeV,
    bytes: usize,
    label: Seq<char>,
    d: DispatchV,
) -> (m: Memory)
    requires
        lives(h, recorded(t, bytes, label, d), n),
        writes_only(d, t.next),
    ensures
        stays(h, t, recorded(t, bytes, label, d)),
        launched(d, m, now(h, recorded(t, bytes, label, d)), n),
        forall|b: u64, dt: Dtype, i: int|
            b < t.next ==> #[trigger] m(b, dt, i) == now(h, t)(b, dt, i),
{
    let u = recorded(t, bytes, label, d);
    let k = t.cmds.len() as int;
    assert(u.cmds[k] == CmdV::Alloc(t.next, bytes, label));
    assert(u.cmds[k + 1] == CmdV::Launch(d));
    assert(carried(u.cmds[k], h(k), h(k + 1), n));
    assert(carried(u.cmds[k + 1], h(k + 1), h(k + 2), n));
    let m = h(k + 1);
    assert forall|b: u64, dt: Dtype, i: int| b < t.next implies #[trigger] m(b, dt, i) == now(h, t)(
        b,
        dt,
        i,
    ) by {
        assert(!touches(u.cmds[k], b));
    }
    assert forall|b: u64, dt: Dtype, i: int| b < t.next implies #[trigger] now(h, u)(b, dt, i)
        == now(h, t)(b, dt, i) by {
        assert(!touches(u.cmds[k + 1], b));
        assert(h(k + 2)(b, dt, i) == m(b, dt, i));
    }
    m
}

// ---- places ----

pub proof fn lemma_ravel(shape: Seq<usize>, idx: Seq<int>)
    requires
        in_shape(idx, shape),
    ensures
        0 <= ravel(shape, idx) < numel(shape),
        unravel(shape, ravel(shape, idx)) == idx,
    decreases shape.len(),
{
    if shape.len() > 0 {
        let head = shape.drop_last();
        let front = idx.drop_last();
        assert(in_shape(front, head)) by {
            assert forall|i: int| 0 <= i < front.len() implies 0 <= #[trigger] front[i] < head[i] by {
                assert(0 <= idx[i] < shape[i]);
            }
        }
        lemma_ravel(head, front);
        let p = ravel(head, front);
        let d = shape.last() as int;
        let r = idx.last();
        let n = numel(head) as int;
        assert(0 <= idx[idx.len() - 1] < shape[idx.len() - 1]);
        assert(0 <= p * d + r < n * d && (p * d + r) / d == p && (p * d + r) % d == r)
            by (nonlinear_arith)
            requires
                0 <= p < n,
                0 <= r < d,
        ;
        assert(front.push(r) =~= idx);
    } else {
        assert(idx =~= Seq::<int>::empty());
    }
}

/// The elements of a row-major layout lie in row-major order.
pub proof fn lemma_dense_at(l: LayoutV, idx: Seq<int>)
    requires
        l.wf(),
        l.dense(),
        in_shape(idx, l.shape),
    ensures
        l.at(idx) == l.offset + ravel(l.shape, idx),
{
    lemma_ravel(l.shape, idx);
    dense_order(l, ravel(l.shape, idx));
}

pub proof fn lemma_start(a: ArrayV)
    requires
        a.layout.offset * width(a.dtype) <= usize::MAX,
    ensures
        a.start() as int / width(a.dtype) as int == a.layout.offset,
{
    let o = a.layout.offset as int;
    assert(o * 1 / 1 == o && o * 2 / 2 == o && o * 4 / 4 == o && o * 8 / 8 == o);
    match a.dtype {
        Dtype::Bool | Dtype::Uint8 | Dtype::Int8 => {},
        Dtype::Uint16 | Dtype::Int16 | Dtype::Float16 | Dtype::Bfloat16 => {},
        Dtype::Uint32 | Dtype::Int32 | Dtype::Float32 => {},
        Dtype::Int64 | Dtype::Float64 => {},
    }
}

pub proof fn lemma_dot_front(idx: Seq<int>, st: Seq<usize>)
    requires
        idx.len() == st.len(),
        idx.len() > 0,
    ensures
        dot(idx, st) == idx[0] * st[0] + dot(idx.skip(1), st.skip(1)),
    decreases idx.len(),
{
    assert(dot(idx, st) == dot(idx.drop_last(), st.drop_last()) + idx.last() * st.last());
    if idx.len() > 1 {
        lemma_dot_front(idx.drop_last(), st.drop_last());
        assert(idx.drop_last()[0] == idx[0]);
        assert(st.drop_last()[0] == st[0]);
        assert(idx.drop_last().skip(1) =~= idx.skip(1).drop_last());
        assert(st.drop_last().skip(1) =~= st.skip(1).drop_last());
        assert(idx.skip(1).last() == idx.last());
        assert(st.skip(1).last() == st.last());
        assert(dot(idx.skip(1), st.skip(1)) == dot(idx.skip(1).drop_last(), st.skip(1).drop_last())
            + idx.last() * st.last());
    } else {
        assert(idx.drop_last() =~= Seq::<int>::empty());
        assert(idx.skip(1) =~= Seq::<int>::empty());
        assert(dot(idx.drop_last(), st.drop_last()) == 0);
        assert(dot(idx.skip(1), st.skip(1)) == 0);
    }
}

/// The position in a smaller array that stands under a position of a spread one.
pub open spec fn under(shape: Seq<usize>, idx: Seq<int>) -> Seq<int> {
    Seq::new(
        shape.len(),
        |i: int|
            if shape[i] == 1 {
                0
            } else {
                idx[i + idx.len() - shape.len()]
            },
    )
}

proof fn lemma_lifted_at(a: ArrayV, k: nat, idx: Seq<int>)
    requires
        a.layout.wf(),
        idx.len() == a.rank() + k,
    ensures
        lifted(a, k).layout.wf(),
        lifted(a, k).layout.offset == a.layout.offset,
        lifted(a, k).layout.at(idx) == a.layout.at(idx.skip(k as int)),
        lifted(a, k).rank() == a.rank() + k,
        lifted(a, k).buf == a.buf,
        lifted(a, k).dtype == a.dtype,
        forall|i: int|
            0 <= i < a.rank() + k ==> #[trigger] lifted(a, k).shape()[i] == (if i < k {
                1
            } else {
                a.shape()[i - k]
            }),
        forall|i: int|
            0 <= i < a.rank() + k ==> #[trigger] lifted(a, k).strides()[i] == (if i < k {
                0
            } else {
                a.strides()[i - k]
            }),
    decreases k,
{
    if k > 0 {
        let b = lifted(a, (k - 1) as nat);
        let c = lifted(a, k);
        assert forall|i: int| 0 <= i < a.rank() + k implies #[trigger] c.strides()[i] == (if i < k {
            0
        } else {
            a.strides()[i - k]
        }) by {
            lemma_lifted_at(a, (k - 1) as nat, idx.skip(1));
            if i > 0 {
                assert(c.strides()[i] == b.strides()[i - 1]);
            }
        }
        lemma_lifted_at(a, (k - 1) as nat, idx.skip(1));
        lemma_dot_front(idx, c.strides());
        assert(c.strides().skip(1) =~= b.strides());
        assert(idx.skip(1).skip(k - 1) =~= idx.skip(k as int));
        assert(idx[0] * 0 == 0);
        assert forall|i: int| 0 <= i < a.rank() + k implies #[trigger] c.shape()[i] == (if i < k {
            1
        } else {
            a.shape()[i - k]
        }) by {
            if i > 0 {
                assert(c.shape()[i] == b.shape()[i - 1]);
            }
        }
    } else {
        assert(idx.skip(0) =~= idx);
    }
}

/// The element of a spread array is the one under it.
pub proof fn lemma_spread_at(a: ArrayV, shape: Seq<usize>, x: ArrayV, idx: Seq<int>)
    requires
        a.layout.wf(),
        broadcast_to_s(a, shape) == Outcome::Ok(x),
        in_shape(idx, shape),
    ensures
        x.layout.at(idx) == a.layout.at(under(a.shape(), idx)),
        in_shape(under(a.shape(), idx), a.shape()),
        x.layout.wf(),
        x.shape() == shape,
        x.layout.offset == a.layout.offset,
        x.buf == a.buf,
        x.dtype == a.dtype,
{
    let k = (shape.len() - a.rank()) as nat;
    let b = lifted(a, k);
    let j = Seq::new(idx.len(), |i: int| if b.shape()[i] == shape[i] { idx[i] } else { 0 });
    lemma_lifted_at(a, k, j);
    spread_element(b.layout, shape, idx);
    assert(j.skip(k as int) =~= under(a.shape(), idx)) by {
        assert forall|i: int| 0 <= i < a.rank() implies #[trigger] j.skip(k as int)[i] == under(
            a.shape(),
            idx,
        )[i] by {
            assert(b.shape()[i + k] == a.shape()[i]);
            assert(0 <= idx[i + k] < shape[i + k]);
            assert(b.shape()[i + k] == shape[i + k] || b.shape()[i + k] == 1);
        }
    }
    assert forall|i: int| 0 <= i < a.rank() implies 0 <= #[trigger] under(a.shape(), idx)[i]
        < a.shape()[i] by {
        assert(b.shape()[i + k] == a.shape()[i]);
        assert(0 <= j[i + k] < b.shape()[i + k]);
        assert(j.skip(k as int)[i] == j[i + k]);
    }
}

/// Every element is the operation on the elements under it.
pub open spec fn elementwise(
    m: Memory,
    a: ArrayV,
    b: ArrayV,
    op: Arith,
    after: Memory,
    r: ArrayV,
) -> bool {
    forall|idx: Seq<int>| #[trigger]
        in_shape(idx, r.shape()) ==> val(after, r, idx) == op.of(
            val(m, a, under(a.shape(), idx)),
            val(m, b, under(b.shape(), idx)),
        )
}

/// Every element is the sum of a row of the last axis.
pub open spec fn row_sums(m: Memory, x: ArrayV, after: Memory, r: ArrayV) -> bool {
    &&& r.shape() == x.shape().drop_last()
    &&& forall|idx: Seq<int>| #[trigger]
        in_shape(idx, r.shape()) ==> val(after, r, idx) == sum_to(
            x.shape().last() as int,
            |j: int| val(m, x, idx.push(j)),
        )
}

/// The same elements in the same row-major order.
pub open spec fn relaid(m: Memory, a: ArrayV, after: Memory, r: ArrayV) -> bool {
    forall|i: Seq<int>, j: Seq<int>| #[trigger]
        in_shape(i, a.shape()) && #[trigger] in_shape(j, r.shape()) && ravel(a.shape(), i) == ravel(
            r.shape(),
            j,
        ) ==> val(after, r, j) == val(m, a, i)
}

/// A spread array has the strides of the array, or none.
pub proof fn lemma_spread_short(a: ArrayV, shape: Seq<usize>, x: ArrayV)
    requires
        a.layout.wf(),
        short(a.layout),
        broadcast_to_s(a, shape) == Outcome::Ok(x),
        forall|i: int| 0 <= i < shape.len() ==> #[trigger] shape[i] <= u32::MAX,
    ensures
        short(x.layout),
        x.layout.wf(),
        x.shape() == shape,
        x.layout.offset == a.layout.offset,
{
    let k = (shape.len() - a.rank()) as nat;
    let b = lifted(a, k);
    lemma_lifted_at(a, k, Seq::new(shape.len(), |i: int| 0));
    assert forall|i: int| 0 <= i < x.layout.shape.len() implies #[trigger] x.layout.shape[i]
        <= u32::MAX && x.layout.strides[i] <= u32::MAX by {
        assert(shape[i] <= u32::MAX);
        assert(b.strides()[i] == (if i < k {
            0
        } else {
            a.strides()[i - k]
        }));
        if i >= k {
            assert(a.layout.shape[i - k] <= u32::MAX);
        }
    }
}

// ---- copies ----

/// A layout whose sizes and strides are 32-bit numbers, as the copying kernel takes
/// them.
pub open spec fn short(l: LayoutV) -> bool {
    forall|i: int|
        0 <= i < l.shape.len() ==> #[trigger] l.shape[i] <= u32::MAX && l.strides[i] <= u32::MAX
}

/// An array that a tape knows: its buffer has been made, and its axes can be counted.
pub open spec fn known(t: TapeV, a: ArrayV) -> bool {
    a.wf() && a.buf < t.next && a.rank() <= usize::MAX
}

/// The same elements in the same places.
pub open spec fn same(m: Memory, a: ArrayV, after: Memory, r: ArrayV) -> bool {
    &&& r.shape() == a.shape()
    &&& forall|idx: Seq<int>| #[trigger]
        in_shape(idx, a.shape()) ==> val(after, r, idx) == val(m, a, idx)
}

pub proof fn lemma_fresh(t: TapeV, shape: Seq<usize>, dt: Dtype)
    requires
        roomy(shape),
    ensures
        fresh(t, shape, dt).wf(),
        fresh(t, shape, dt).layout.dense(),
        forall|idx: Seq<int>| #[trigger]
            in_shape(idx, shape) ==> fresh(t, shape, dt).layout.at(idx) == ravel(shape, idx) && 0
                <= ravel(shape, idx) < numel(shape),
        numel(shape) <= usize::MAX,
        numel(shape) * 8 <= usize::MAX,
{
    lemma_roomy(shape, dt);
    lemma_fresh_wf(t, shape, dt);
    packed_is_dense(shape);
    assert forall|idx: Seq<int>| #[trigger] in_shape(idx, shape) implies fresh(
        t,
        shape,
        dt,
    ).layout.at(idx) == ravel(shape, idx) && 0 <= ravel(shape, idx) < numel(shape) by {
        lemma_dense_at(packed(shape), idx);
        lemma_ravel(shape, idx);
    }
}

proof fn lemma_combines(
    d: DispatchV,
    m: Memory,
    after: Memory,
    op: Arith,
    dt: Dtype,
    s: Seq<usize>,
    x: Seq<usize>,
    y: Seq<usize>,
    idx: Seq<int>,
)
    requires
        combines(d, m, after, op, dt),
        d.args.len() == 8,
        s.len() <= usize::MAX,
        numel(s) <= usize::MAX,
        d.args[0].1 == ArgV::Size(numel(s) as usize),
        d.args[1].1 == ArgV::Size(s.len() as usize),
        d.args[2].1 == ArgV::U64s(u64_words(s)),
        d.args[3].1 == ArgV::U64s(u64_words(x)),
        d.args[4].1 == ArgV::U64s(u64_words(y)),
        in_shape(idx, s),
    ensures
        read(after, d.args[7].1, dt, ravel(s, idx)) == op.of(
            read(m, d.args[5].1, dt, dot(idx, x)),
            read(m, d.args[6].1, dt, dot(idx, y)),
        ),
{
    lemma_sizes(s);
    lemma_sizes(x);
    lemma_sizes(y);
    lemma_ravel(s, idx);
    let (n, r, sw, xw, yw) = (
        d.args[0].1->Size_0,
        d.args[1].1->Size_0,
        d.args[2].1->U64s_0,
        d.args[3].1->U64s_0,
        d.args[4].1->U64s_0,
    );
    assert(r == sw.len());
    assert(sizes(sw) == s && sizes(xw) == x && sizes(yw) == y);
    assert(in_shape(idx, sizes(sw)));
    assert(ravel(sizes(sw), idx) < n);
    assert(read(after, d.args[7].1, dt, ravel(sizes(sw), idx)) == op.of(
        read(m, d.args[5].1, dt, dot(idx, sizes(xw))),
        read(m, d.args[6].1, dt, dot(idx, sizes(yw))),
    ));
}

proof fn lemma_converts(
    d: DispatchV,
    m: Memory,
    after: Memory,
    from: Dtype,
    to: Dtype,
    s: Seq<usize>,
    x: Seq<usize>,
    idx: Seq<int>,
)
    requires
        converts(d, m, after, from, to),
        d.args.len() == 6,
        s.len() <= usize::MAX,
        numel(s) <= usize::MAX,
        d.args[0].1 == ArgV::Size(numel(s) as usize),
        d.args[1].1 == ArgV::Size(s.len() as usize),
        d.args[2].1 == ArgV::U64s(u64_words(s)),
        d.args[3].1 == ArgV::U64s(u64_words(x)),
        in_shape(idx, s),
    ensures
        read(after, d.args[5].1, to, ravel(s, idx)) == read(m, d.args[4].1, from, dot(idx, x)),
{
    lemma_sizes(s);
    lemma_sizes(x);
    lemma_ravel(s, idx);
    let (n, r, sw, xw) = (
        d.args[0].1->Size_0,
        d.args[1].1->Size_0,
        d.args[2].1->U64s_0,
        d.args[3].1->U64s_0,
    );
    assert(r == sw.len());
    assert(sizes(sw) == s && sizes(xw) == x);
    assert(in_shape(idx, sizes(sw)));
    assert(ravel(sizes(sw), idx) < n);
    assert(read(after, d.args[5].1, to, ravel(sizes(sw), idx)) == read(
        m,
        d.args[4].1,
        from,
        dot(idx, sizes(xw)),
    ));
}

proof fn lemma_copies(d: DispatchV, m: Memory, after: Memory, dt: Dtype, l: LayoutV, idx: Seq<int>)
    requires
        copies(d, m, after, dt),
        d.args.len() == 3,
        l.wf(),
        l.shape.len() <= 8,
        numel(l.shape) <= usize::MAX,
        short(l),
        d.args[2].1 == ArgV::U32s(copy_words(l)),
        d.grid == crate::array::line_256(numel(l.shape)),
        in_shape(idx, l.shape),
    ensures
        read(after, d.args[1].1, dt, ravel(l.shape, idx)) == read(
            m,
            d.args[0].1,
            dt,
            dot(idx, l.strides),
        ),
{
    let w = d.args[2].1->U32s_0;
    assert(w == copy_words(l));
    assert(w.len() == 17 && w[0] == l.shape.len());
    assert(d.grid is Threads && d.grid->Threads_0.x == numel(l.shape));
    assert(copy_shape(w) =~= l.shape) by {
        assert forall|i: int| 0 <= i < l.shape.len() implies #[trigger] copy_shape(w)[i]
            == l.shape[i] by {
            assert(w[1 + i] == padded(l.shape, 1)[i]);
        }
    }
    assert(copy_steps(w) =~= l.strides) by {
        assert forall|i: int| 0 <= i < l.shape.len() implies #[trigger] copy_steps(w)[i]
            == l.strides[i] by {
            assert(w[9 + i] == padded(l.strides, 0)[i]);
            assert(l.shape[i] <= u32::MAX);
        }
    }
    lemma_ravel(l.shape, idx);
    assert(in_shape(idx, copy_shape(w)));
    assert(ravel(copy_shape(w), idx) < d.grid->Threads_0.x);
    assert(read(after, d.args[1].1, dt, ravel(copy_shape(w), idx)) == read(
        m,
        d.args[0].1,
        dt,
        dot(idx, copy_steps(w)),
    ));
}

proof fn lemma_copied(h: History, n: Numbers, t: TapeV, a: ArrayV)
    requires
        known(t, a),
        short(a.layout),
        a.rank() <= MAX_COPY_RANK,
        t.next < u64::MAX,
        lives(h, copied_s(t, a).0, n),
    ensures
        grows(t, copied_s(t, a).0, 1),
        stays(h, t, copied_s(t, a).0),
        copied_s(t, a).1 matches Ok(r) && known(copied_s(t, a).0, r) && r.layout.dense() && r.dtype
            == a.dtype && r.layout.offset == 0 && same(now(h, t), a, now(h, copied_s(t, a).0), r),
{
    let out = fresh(t, a.shape(), a.dtype);
    let d = copied_run(a, out);
    let bytes = byte_size(a.shape(), a.dtype);
    let u = recorded(t, bytes, "contiguous"@, d);
    assert(u == copied_s(t, a).0);
    lemma_recorded_grows(t, bytes, "contiguous"@, d);
    assert(d.args.len() == 3);
    assert(writes_only(d, t.next));
    let m = lemma_recorded(h, n, t, bytes, "contiguous"@, d);
    lemma_fresh(t, a.shape(), a.dtype);
    assert(copies(d, m, now(h, u), a.dtype)) by {
        reveal(launched);
        assert(in_order(d));
        assert(d.program.name == copy_name(a.dtype));
    }
    lemma_start(a);
    assert forall|idx: Seq<int>| #[trigger] in_shape(idx, a.shape()) implies val(now(h, u), out, idx)
        == val(now(h, t), a, idx) by {
        assert(0int / width(a.dtype) as int == 0);
        lemma_copies(d, m, now(h, u), a.dtype, a.layout, idx);
        assert(d.args[0].1 == ArgV::Input(a.buf, a.start()));
        assert(d.args[1].1 == ArgV::Output(out.buf, 0));
        let k = a.layout.offset + dot(idx, a.strides());
        assert(m(a.buf, a.dtype, k) == now(h, t)(a.buf, a.dtype, k));
    }
}

pub proof fn lemma_contiguous_grows(t: TapeV, a: ArrayV)
    ensures
        grows(t, contiguous_s(t, a).0, 1),
{
    let out = fresh(t, a.shape(), a.dtype);
    lemma_recorded_grows(t, byte_size(a.shape(), a.dtype), "contiguous"@, copied_run(a, out));
    assert(t.next < u64::MAX ==> t.next.wrapping_add(1) == t.next + 1);
}

/// An array that is made row-major keeps its elements.
pub proof fn packing_keeps_elements(h: History, n: Numbers, t: TapeV, a: ArrayV, r: ArrayV)
    requires
        known(t, a),
        a.layout.dense() || short(a.layout),
        t.next < u64::MAX,
        contiguous_s(t, a).1 == Outcome::Ok(r),
        lives(h, contiguous_s(t, a).0, n),
    ensures
        stays(h, t, contiguous_s(t, a).0),
        known(contiguous_s(t, a).0, r),
        r.layout.dense(),
        r.dtype == a.dtype,
        same(now(h, t), a, now(h, contiguous_s(t, a).0), r),
{
    if !a.layout.dense() {
        lemma_copied(h, n, t, a);
    }
}

pub proof fn lemma_reshape_grows(t: TapeV, a: ArrayV, shape: Seq<usize>)
    ensures
        grows(t, reshape_s(t, a, shape).0, 1),
{
    lemma_contiguous_grows(t, a);
}

/// An array under another shape has the same elements in the same row-major order.
pub proof fn reshaping_keeps_elements(
    h: History,
    n: Numbers,
    t: TapeV,
    a: ArrayV,
    shape: Seq<usize>,
    r: ArrayV,
)
    requires
        known(t, a),
        a.layout.dense() || short(a.layout),
        roomy(shape),
        shape.len() <= usize::MAX,
        t.next < u64::MAX,
        reshape_s(t, a, shape).1 == Outcome::Ok(r),
        lives(h, reshape_s(t, a, shape).0, n),
    ensures
        stays(h, t, reshape_s(t, a, shape).0),
        known(reshape_s(t, a, shape).0, r),
        r.layout.dense(),
        r.shape() == shape,
        r.dtype == a.dtype,
        numel(shape) == a.count(),
        relaid(now(h, t), a, now(h, reshape_s(t, a, shape).0), r),
{
    let u = reshape_s(t, a, shape).0;
    let b = if a.layout.dense() {
        a
    } else {
        fresh(t, a.shape(), a.dtype)
    };
    if !a.layout.dense() {
        lemma_copied(h, n, t, a);
    }
    lemma_roomy(shape, a.dtype);
    crate::views::reshaped_stays_inside(b.layout, shape, b.bytes as int / width(b.dtype) as int);
    assert forall|i: Seq<int>, j: Seq<int>| #[trigger]
        in_shape(i, a.shape()) && #[trigger] in_shape(j, shape) && ravel(a.shape(), i) == ravel(
            shape,
            j,
        ) implies val(now(h, u), r, j) == val(now(h, t), a, i) by {
        lemma_dense_at(b.layout, i);
        lemma_dense_at(r.layout, j);
        assert(val(now(h, u), b, i) == val(now(h, t), a, i));
    }
}

// ---- conversions ----

pub proof fn lemma_cast_grows(t: TapeV, a: ArrayV, dt: Dtype)
    ensures
        grows(t, cast_s(t, a, dt).0, 2),
{
    let t1 = contiguous_s(t, a).0;
    lemma_contiguous_grows(t, a);
    assert(t1.next < u64::MAX ==> t1.next.wrapping_add(1) == t1.next + 1);
}

/// A conversion keeps the elements.
pub proof fn conversion_keeps_elements(
    h: History,
    n: Numbers,
    t: TapeV,
    a: ArrayV,
    dt: Dtype,
    r: ArrayV,
)
    requires
        known(t, a),
        a.rank() > 0,
        a.dtype == dt || a.layout.dense() || short(a.layout),
        t.next + 2 <= u64::MAX,
        cast_s(t, a, dt).1 == Outcome::Ok(r),
        lives(h, cast_s(t, a, dt).0, n),
    ensures
        stays(h, t, cast_s(t, a, dt).0),
        known(cast_s(t, a, dt).0, r),
        r.dtype == dt,
        same(now(h, t), a, now(h, cast_s(t, a, dt).0), r),
{
    if a.dtype != dt {
        let u = cast_s(t, a, dt).0;
        let (t1, o) = contiguous_s(t, a);
        let x = o->Ok_0;
        lemma_contiguous_grows(t, a);
        assert(grows(t1, u, 1)) by {
            assert(t1.next < u64::MAX ==> t1.next.wrapping_add(1) == t1.next + 1);
        }
        lemma_lives(h, n, t1, u, 1);
        packing_keeps_elements(h, n, t, a, x);
        lemma_fresh(t1, a.shape(), dt);
        let out = fresh(t1, a.shape(), dt);
        let bytes = byte_size(a.shape(), dt);
        lemma_start(x);
        assert(0int / width(dt) as int == 0);
        if kernel_tag_text(a.dtype) is None || kernel_tag_text(dt) is None {
            let k = t1.cmds.len() as int;
            let c = CmdV::HostCast(x.buf, x.start(), x.dtype, t1.next, dt, x.count() as usize);
            assert(u.cmds[k] == CmdV::Alloc(t1.next, bytes, "cast_host"@));
            assert(u.cmds[k + 1] == c);
            assert(carried(u.cmds[k], h(k), h(k + 1), n));
            assert(carried(u.cmds[k + 1], h(k + 1), h(k + 2), n));
            assert forall|b: u64, ty: Dtype, i: int| b < t.next implies #[trigger] now(h, u)(
                b,
                ty,
                i,
            ) == now(h, t)(b, ty, i) by {
                assert(!touches(c, b));
                assert(h(k + 2)(b, ty, i) == h(k + 1)(b, ty, i));
                assert(h(k + 1)(b, ty, i) == h(k)(b, ty, i));
                assert(now(h, t1)(b, ty, i) == now(h, t)(b, ty, i));
            }
            assert forall|idx: Seq<int>| #[trigger] in_shape(idx, a.shape()) implies val(
                now(h, u),
                out,
                idx,
            ) == val(now(h, t), a, idx) by {
                lemma_dense_at(x.layout, idx);
                let p = ravel(a.shape(), idx);
                assert(h(k + 2)(t1.next, dt, p) == h(k + 1)(x.buf, x.dtype, x.layout.offset + p));
                assert(h(k + 1)(x.buf, x.dtype, x.layout.offset + p) == h(k)(
                    x.buf,
                    x.dtype,
                    x.layout.offset + p,
                ));
                assert(val(now(h, t1), x, idx) == val(now(h, t), a, idx));
            }
        } else {
            let d = cast_run(x, out);
            assert(u == recorded(t1, bytes, "cast_out"@, d));
            assert(d.args.len() == 6);
            assert(writes_only(d, t1.next));
            let m = lemma_recorded(h, n, t1, bytes, "cast_out"@, d);
            assert(converts(d, m, now(h, u), a.dtype, dt)) by {
                reveal(launched);
                assert(in_order(d));
                assert(d.program.name == cast_name(a.dtype, dt));
            }
            assert forall|b: u64, ty: Dtype, i: int| b < t.next implies #[trigger] now(h, u)(
                b,
                ty,
                i,
            ) == now(h, t)(b, ty, i) by {
                assert(now(h, u)(b, ty, i) == now(h, t1)(b, ty, i));
            }
            assert forall|idx: Seq<int>| #[trigger] in_shape(idx, a.shape()) implies val(
                now(h, u),
                out,
                idx,
            ) == val(now(h, t), a, idx) by {
                lemma_converts(d, m, now(h, u), a.dtype, dt, x.shape(), x.strides(), idx);
                assert(d.args[4].1 == ArgV::Input(x.buf, x.start()));
                assert(d.args[5].1 == ArgV::Output(out.buf, 0));
                let k = x.layout.offset + dot(idx, x.strides());
                assert(m(x.buf, x.dtype, k) == now(h, t1)(x.buf, x.dtype, k));
                assert(val(now(h, t1), x, idx) == val(now(h, t), a, idx));
            }
        }
    }
}

// ---- arithmetic ----

pub proof fn lemma_binary_grows(t: TapeV, a: ArrayV, b: ArrayV, op: Seq<char>)
    ensures
        grows(t, binary_s(t, a, b, op).0, 1),
{
    assert(t.next < u64::MAX ==> t.next.wrapping_add(1) == t.next + 1);
}

/// Two arrays combined: every element is the operation on the elements under it.
#[verifier::rlimit(60)]
#[verifier::spinoff_prover]
pub proof fn arithmetic_is_elementwise(
    h: History,
    n: Numbers,
    t: TapeV,
    a: ArrayV,
    b: ArrayV,
    op: Arith,
    r: ArrayV,
)
    requires
        known(t, a),
        known(t, b),
        roomy(broadcasted(a.shape(), b.shape())),
        t.next < u64::MAX,
        binary_s(t, a, b, op.text()).1 == Outcome::Ok(r),
        lives(h, binary_s(t, a, b, op.text()).0, n),
    ensures
        stays(h, t, binary_s(t, a, b, op.text()).0),
        known(binary_s(t, a, b, op.text()).0, r),
        r.layout.dense(),
        r.dtype == a.dtype,
        r.shape() == broadcasted(a.shape(), b.shape()),
        forall|idx: Seq<int>| #[trigger]
            in_shape(idx, r.shape()) ==> in_shape(under(a.shape(), idx), a.shape()) && in_shape(
                under(b.shape(), idx),
                b.shape(),
            ) && val(now(h, binary_s(t, a, b, op.text()).0), r, idx) == op.of(
                val(now(h, t), a, under(a.shape(), idx)),
                val(now(h, t), b, under(b.shape(), idx)),
            ),
{
    let u = binary_s(t, a, b, op.text()).0;
    let s = broadcasted(a.shape(), b.shape());
    let x = broadcast_to_s(a, s)->Ok_0;
    let y = broadcast_to_s(b, s)->Ok_0;
    let dt = a.dtype;
    let name = op.text() + "_"@ + kernel_tag_text(dt)->0 + "_strided"@;
    lemma_fresh(t, s, dt);
    let d = binary_run(x, y, r, name);
    let bytes = byte_size(s, dt);
    assert(u == recorded(t, bytes, "binary_out"@, d));
    assert(d.args.len() == 8);
    assert(writes_only(d, t.next));
    let m = lemma_recorded(h, n, t, bytes, "binary_out"@, d);
    assert(0int / width(dt) as int == 0);
    assert(combines(d, m, now(h, u), op, dt)) by {
        reveal(launched);
        assert(in_order(d));
        assert(d.program.name == arith_name(op, dt));
    }
    assert forall|idx: Seq<int>| #[trigger] in_shape(idx, r.shape()) implies in_shape(
        under(a.shape(), idx),
        a.shape(),
    ) && in_shape(under(b.shape(), idx), b.shape()) && val(now(h, u), r, idx) == op.of(
        val(now(h, t), a, under(a.shape(), idx)),
        val(now(h, t), b, under(b.shape(), idx)),
    ) by {
        lemma_spread_at(a, s, x, idx);
        lemma_spread_at(b, s, y, idx);
        lemma_start(x);
        lemma_start(y);
        lemma_combines(d, m, now(h, u), op, dt, s, x.strides(), y.strides(), idx);
        assert(d.args[5].1 == ArgV::Input(x.buf, x.start()));
        assert(d.args[6].1 == ArgV::Input(y.buf, y.start()));
        assert(d.args[7].1 == ArgV::Output(r.buf, 0));
        let i = x.layout.offset + dot(idx, x.strides());
        let j = y.layout.offset + dot(idx, y.strides());
        assert(m(a.buf, dt, i) == now(h, t)(a.buf, dt, i));
        assert(m(b.buf, dt, j) == now(h, t)(b.buf, dt, j));
    }
}

pub proof fn lemma_promoted_grows(t: TapeV, a: ArrayV, b: ArrayV, op: Seq<char>)
    ensures
        grows(t, promoted_s(t, a, b, op).0, 5),
{
    let dt = promoted(a.dtype, b.dtype);
    let (t1, o1) = cast_s(t, a, dt);
    lemma_cast_grows(t, a, dt);
    if o1 is Ok {
        let (t2, o2) = cast_s(t1, b, dt);
        lemma_cast_grows(t1, b, dt);
        lemma_grows(t, t1, t2, 2, 2);
        if o2 is Ok {
            lemma_binary_grows(t2, o1->Ok_0, o2->Ok_0, op);
            lemma_grows(t, t2, promoted_s(t, a, b, op).0, 4, 1);
        }
    }
}

/// An array can be read by every conversion.
pub open spec fn plain(a: ArrayV) -> bool {
    a.rank() > 0 && (a.layout.dense() || short(a.layout))
}

/// Two arrays combined in their common type: every element is the operation on the
/// elements under it.
pub proof fn mixed_arithmetic_is_elementwise(
    h: History,
    n: Numbers,
    t: TapeV,
    a: ArrayV,
    b: ArrayV,
    op: Arith,
    r: ArrayV,
)
    requires
        known(t, a),
        known(t, b),
        plain(a),
        plain(b),
        roomy(broadcasted(a.shape(), b.shape())),
        t.next + 5 <= u64::MAX,
        promoted_s(t, a, b, op.text()).1 == Outcome::Ok(r),
        lives(h, promoted_s(t, a, b, op.text()).0, n),
    ensures
        stays(h, t, promoted_s(t, a, b, op.text()).0),
        known(promoted_s(t, a, b, op.text()).0, r),
        r.layout.dense(),
        r.shape() == broadcasted(a.shape(), b.shape()),
        elementwise(now(h, t), a, b, op, now(h, promoted_s(t, a, b, op.text()).0), r),
{
    let dt = promoted(a.dtype, b.dtype);
    let (t1, o1) = cast_s(t, a, dt);
    let x = o1->Ok_0;
    let (t2, o2) = cast_s(t1, b, dt);
    let y = o2->Ok_0;
    let u = promoted_s(t, a, b, op.text()).0;
    assert(u == binary_s(t2, x, y, op.text()).0);
    lemma_cast_grows(t, a, dt);
    lemma_cast_grows(t1, b, dt);
    lemma_binary_grows(t2, x, y, op.text());
    lemma_grows(t1, t2, u, 2, 1);
    lemma_lives(h, n, t1, u, 3);
    lemma_lives(h, n, t2, u, 1);
    conversion_keeps_elements(h, n, t, a, dt, x);
    conversion_keeps_elements(h, n, t1, b, dt, y);
    arithmetic_is_elementwise(h, n, t2, x, y, op, r);
    assert forall|c: u64, ty: Dtype, i: int| c < t.next implies #[trigger] now(h, u)(c, ty, i)
        == now(h, t)(c, ty, i) by {
        assert(now(h, u)(c, ty, i) == now(h, t2)(c, ty, i));
        assert(now(h, t2)(c, ty, i) == now(h, t1)(c, ty, i));
        assert(now(h, t1)(c, ty, i) == now(h, t)(c, ty, i));
    }
    assert forall|idx: Seq<int>| #[trigger] in_shape(idx, r.shape()) implies val(now(h, u), r, idx)
        == op.of(
        val(now(h, t), a, under(a.shape(), idx)),
        val(now(h, t), b, under(b.shape(), idx)),
    ) by {
        let i = under(a.shape(), idx);
        let j = under(b.shape(), idx);
        assert(val(now(h, t1), x, i) == val(now(h, t), a, i));
        assert(val(now(h, t2), y, j) == val(now(h, t1), b, j));
        let p = x.layout.at(i);
        let q = b.layout.at(j);
        assert(now(h, t2)(x.buf, dt, p) == now(h, t1)(x.buf, dt, p));
        assert(now(h, t1)(b.buf, b.dtype, q) == now(h, t)(b.buf, b.dtype, q));
    }
}

// ---- sums ----

pub proof fn lemma_reduce_grows(t: TapeV, x: ArrayV)
    ensures
        grows(t, reduce_last_s(t, x, Reduction::Sum).0, 1),
{
    assert(t.next < u64::MAX ==> t.next.wrapping_add(1) == t.next + 1);
}

/// The last axis added up.
pub proof fn sums_add_the_last_axis(h: History, n: Numbers, t: TapeV, x: ArrayV, r: ArrayV)
    requires
        known(t, x),
        t.next < u64::MAX,
        reduce_last_s(t, x, Reduction::Sum).1 == Outcome::Ok(r),
        lives(h, reduce_last_s(t, x, Reduction::Sum).0, n),
    ensures
        stays(h, t, reduce_last_s(t, x, Reduction::Sum).0),
        known(reduce_last_s(t, x, Reduction::Sum).0, r),
        r.layout.dense(),
        r.dtype == x.dtype,
        x.rank() > 0,
        row_sums(now(h, t), x, now(h, reduce_last_s(t, x, Reduction::Sum).0), r),
{
    let u = reduce_last_s(t, x, Reduction::Sum).0;
    let s = x.shape().drop_last();
    let dt = x.dtype;
    let row = x.shape().last() as int;
    lemma_roomy_front(x.shape());
    lemma_fresh(t, s, dt);
    let out = fresh_nonempty(t, s, dt);
    assert(r == out);
    let d = reduce_run(x, out, Reduction::Sum, crate::tape::Math::SafeNoLang);
    assert(u == recorded(t, out.bytes, "reduce_out"@, d));
    assert(d.args.len() == 4);
    assert(writes_only(d, t.next));
    let m = lemma_recorded(h, n, t, out.bytes, "reduce_out"@, d);
    lemma_start(x);
    assert(0int / width(dt) as int == 0);
    assert(adds_rows(d, m, now(h, u), dt)) by {
        reveal(launched);
        assert(in_order(d));
        reveal_strlit("row_reduce_simple_");
        reveal_strlit("sum");
        reveal_strlit("row_reduce_simple_sum");
        assert("row_reduce_simple_"@ + "sum"@ =~= "row_reduce_simple_sum"@);
        assert(d.program.name == sum_name(dt));
    }
    let count = max_int(numel(s) as int, 1);
    assert(d.args[3].1 == ArgV::I64(count as usize as i64));
    assert(count as usize as i64 == count);
    let k0 = numel(s) as int;
    let w = width(dt) as int;
    assert(out.wf()) by {
        assert(max_int(k0, 1) * w <= 8 * max_int(k0, 1)) by (nonlinear_arith)
            requires
                w <= 8,
        ;
        assert(k0 * w <= max_int(k0, 1) * w) by (nonlinear_arith)
            requires
                w >= 0,
        ;
        assert((k0 * w) / w == k0) by (nonlinear_arith)
            requires
                w > 0,
        ;
        assert((max_int(k0, 1) * w) / w == max_int(k0, 1)) by (nonlinear_arith)
            requires
                w > 0,
        ;
        assert(fresh(t, s, dt).wf());
    }
    assert forall|idx: Seq<int>| #[trigger] in_shape(idx, r.shape()) implies val(now(h, u), r, idx)
        == sum_to(row, |j: int| val(now(h, t), x, idx.push(j))) by {
        let p = ravel(s, idx);
        assert(fresh(t, s, dt).layout.at(idx) == p);
        assert(read(now(h, u), d.args[1].1, dt, p) == sum_to(
            row,
            |j: int| read(m, d.args[0].1, dt, p * row + j),
        ));
        let f = |j: int| read(m, d.args[0].1, dt, p * row + j);
        let g = |j: int| val(now(h, t), x, idx.push(j));
        assert forall|j: int| 0 <= j < row implies #[trigger] f(j) == g(j) by {
            let i = idx.push(j);
            assert(in_shape(i, x.shape())) by {
                assert forall|k: int| 0 <= k < i.len() implies 0 <= #[trigger] i[k] < x.shape()[k] by {
                    if k < idx.len() {
                        assert(0 <= idx[k] < s[k]);
                    }
                }
            }
            lemma_dense_at(x.layout, i);
            assert(i.drop_last() =~= idx);
            let k = x.layout.offset + (p * row + j);
            assert(m(x.buf, dt, k) == now(h, t)(x.buf, dt, k));
        }
        lemma_same_sum(row, f, g);
    }
}

} // verus!
