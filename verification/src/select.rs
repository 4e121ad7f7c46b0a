//! The blocks that each query looks at, worked out tile by tile.

use vstd::prelude::*;

use crate::arrange::inner;
use crate::array::{roomy, Array as Tensor, ArrayV, Outcome};
use crate::calls::{call_s, fits, launch, out_of, ready, CallV};
use crate::dtype::Dtype;
use crate::facade::Array;
use crate::index::{axis_at, index_seq, indexable, indexed, picked_to, slice_of, used, IndexElem};
use crate::join::{
    array_views, axis_total, cat_s, cat_shape, joinable, lemma_narrow_fits, part_fits,
};
use crate::kernel::{
    all_wf, arg_list, out_list, ref_views, sizes_of, sound_output, KernelV, MetalKernel, OutputArg,
    TemplateArg,
};
use crate::layout::{is_void, packed, volume};
use crate::qsa::{row_of, row_s, SELECT_BACKING, SELECT_TILE, SELECT_WIDTH};
use crate::tape::{Tape, TapeV};

verus! {

// ---- tiles of queries ----

/// The tiles of so many queries.
pub open spec fn select_tiles(rows: int) -> int {
    (rows + 511) / 512
}

/// The queries of the first `n` tiles.
pub open spec fn tile_start(rows: int, n: int) -> int {
    if 512 * n <= rows {
        512 * n
    } else {
        rows
    }
}

/// The queries of a tile.
pub open spec fn tile_size(rows: int, n: int) -> int {
    tile_start(rows, n + 1) - tile_start(rows, n)
}

/// Every query is in one tile: each tile starts where the one before it ends, has at
/// least one query and no more than its limit, and the last ends with the queries.
pub proof fn tiles_cover_the_queries(rows: int, n: int)
    requires
        0 <= n < select_tiles(rows),
    ensures
        0 < tile_size(rows, n) <= SELECT_TILE,
        tile_start(rows, 0) == 0,
        tile_start(rows, n) + tile_size(rows, n) == tile_start(rows, n + 1),
        tile_start(rows, select_tiles(rows)) == rows,
{
}

/// The queries of a tile, as an index.
pub open spec fn tile_index(rows: int, n: int) -> Seq<IndexElem> {
    seq![
        IndexElem::All,
        IndexElem::Span(tile_start(rows, n) as i32, tile_start(rows, n + 1) as i32),
        IndexElem::All,
        IndexElem::All,
    ]
}

/// The run that chooses the blocks of a tile.
pub open spec fn select_call(
    q: ArrayV,
    pooled: ArrayV,
    start: ArrayV,
    total: ArrayV,
    blocks: ArrayV,
    qt: i32,
) -> CallV {
    CallV {
        inputs: seq![q, pooled, start, total, blocks],
        template: Seq::empty(),
        grid: ((qt * SELECT_WIDTH) as i32, 1, 1),
        group: (SELECT_WIDTH, 1, 1),
        outs: seq![
            out_of(seq![qt, 512], Dtype::Int32),
            out_of(seq![qt, 512], Dtype::Bool),
            out_of(seq![qt, 512], Dtype::Float32),
            out_of(seq![qt, SELECT_BACKING], Dtype::Float32),
        ],
    }
}

/// The blocks of one tile: where it starts and the sizes are written first.
pub open spec fn tile_s(
    k: KernelV,
    t: TapeV,
    q: Array,
    pooled: Array,
    pos_start: i32,
    total: i32,
    blocks: i32,
    n: int,
) -> (KernelV, TapeV, Option<Seq<ArrayV>>) {
    let rows = q.shape@[1] as int;
    let (t1, ps) = row_s(t, seq![(pos_start + tile_start(rows, n)) as i32], Dtype::Int32);
    let (t2, tt) = row_s(t1, seq![total], Dtype::Int32);
    let (t3, lb) = row_s(t2, seq![blocks], Dtype::Int32);
    call_s(
        k,
        t3,
        select_call(
            indexed(q.t@, tile_index(rows, n))->Ok_0,
            pooled.t@,
            ps->Ok_0,
            tt->Ok_0,
            lb->Ok_0,
            tile_size(rows, n) as i32,
        ),
    )
}

/// The blocks of the first `n` tiles: which they are, and which of them count.
pub open spec fn tiles_s(
    k: KernelV,
    t: TapeV,
    q: Array,
    pooled: Array,
    pos_start: i32,
    total: i32,
    blocks: i32,
    n: int,
) -> (KernelV, TapeV, Option<(Seq<ArrayV>, Seq<ArrayV>)>)
    decreases n,
{
    if n <= 0 {
        (k, t, Some((Seq::empty(), Seq::empty())))
    } else {
        let (k1, t1, o) = tiles_s(k, t, q, pooled, pos_start, total, blocks, n - 1);
        match o {
            None => (k1, t1, None),
            Some((ids, valid)) => {
                let (k2, t2, v) = tile_s(k1, t1, q, pooled, pos_start, total, blocks, n - 1);
                match v {
                    None => (k2, t2, None),
                    Some(w) => (k2, t2, Some((ids.push(w[0]), valid.push(w[1])))),
                }
            },
        }
    }
}

/// Parts put together: one is taken as it is.
pub open spec fn together(t: TapeV, v: Seq<ArrayV>) -> (TapeV, Outcome) {
    if v.len() == 1 {
        (t, Ok(v[0]))
    } else {
        cat_s(t, v, 0)
    }
}

/// The whole blocks of so many tokens.
pub open spec fn whole_blocks(total: int) -> int {
    if total >= 0 {
        total / 4
    } else {
        -((-total) / 4)
    }
}

/// Operands that the choice of blocks takes: four heads of queries, one row of
/// blocks, a block for every four tokens, and no more blocks than a cache has.
pub open spec fn select_takes(q: Array, pooled: Array, total: i32, blocks: usize) -> bool {
    let logical = blocks as i32;
    &&& q.shape@[0] == 1 && q.shape@[2] == 4 && q.shape@[3] == 128
    &&& pooled.shape@[0] == 1 && pooled.shape@[2] == 128
    &&& logical == whole_blocks(total as int) && logical <= SELECT_BACKING
}

/// The blocks that each query looks at, and which of them count.
pub open spec fn select_s(
    k: KernelV,
    t: TapeV,
    q: Array,
    pooled: Array,
    pos_start: i32,
    total: i32,
    blocks: usize,
) -> (KernelV, TapeV, Option<Seq<ArrayV>>) {
    if !select_takes(q, pooled, total, blocks) {
        (k, t, None)
    } else {
        let (k1, t1, o) = tiles_s(
            k,
            t,
            q,
            pooled,
            pos_start,
            total,
            blocks as i32,
            select_tiles(q.shape@[1] as int),
        );
        match o {
            None => (k1, t1, None),
            Some((ids, valid)) => match together(t1, ids) {
                (t2, Err(_)) => (k1, t2, None),
                (t2, Ok(a)) => match together(t2, valid) {
                    (t3, Err(_)) => (k1, t3, None),
                    (t3, Ok(b)) => (k1, t3, Some(seq![a, b])),
                },
            },
        }
    }
}

proof fn lemma_tiles_stop(
    k: KernelV,
    t: TapeV,
    q: Array,
    pooled: Array,
    pos_start: i32,
    total: i32,
    blocks: i32,
    i: int,
    n: int,
)
    requires
        0 <= i <= n,
        tiles_s(k, t, q, pooled, pos_start, total, blocks, i).2 is None,
    ensures
        tiles_s(k, t, q, pooled, pos_start, total, blocks, n) == tiles_s(
            k,
            t,
            q,
            pooled,
            pos_start,
            total,
            blocks,
            i,
        ),
    decreases n - i,
{
    if i < n {
        lemma_tiles_stop(k, t, q, pooled, pos_start, total, blocks, i, n - 1);
    }
}

// ---- one tile ----

/// A tile of the queries can be picked.
proof fn lemma_tile(a: ArrayV, rows: int, n: int)
    requires
        a.wf(),
        a.rank() == 4,
        a.shape()[0] == 1,
        a.shape()[1] == rows,
        a.shape()[2] == 4,
        a.shape()[3] == 128,
        0 < rows <= i32::MAX,
        0 <= n < select_tiles(rows),
    ensures
        indexable(a, tile_index(rows, n)),
        indexed(a, tile_index(rows, n)) is Ok,
{
    let e = tile_index(rows, n);
    let q0 = tile_start(rows, n);
    let qt = tile_size(rows, n);
    tiles_cover_the_queries(rows, n);
    reveal_with_fuel(used, 5);
    assert(used(e, 4) == 4);
    reveal_with_fuel(axis_at, 5);
    assert(!is_void(a.shape())) by {
        if is_void(a.shape()) {
            let i = choose|i: int| 0 <= i < a.shape().len() && #[trigger] a.shape()[i] == 0;
            assert(i == 0 || i == 1 || i == 2 || i == 3);
        }
    }
    lemma_narrow_fits(a, 1, q0 as usize, qt as usize);
    lemma_narrow_fits(a, 0, 0, 1);
    let b = a.under(crate::views::narrowed(a.layout, 1, q0 as usize, qt as usize));
    assert(picked_to(a, e, 0) == Outcome::Ok(a));
    assert(picked_to(a, e, 1) == Outcome::Ok(a));
    assert(picked_to(a, e, 2) == Outcome::Ok(b));
    assert(picked_to(a, e, 3) == Outcome::Ok(b));
    assert(picked_to(a, e, 4) == Outcome::Ok(b));
    assert(b.shape() =~= a.shape().update(1, qt as usize));
    crate::views::narrowed_stays_inside(
        a.layout,
        1,
        q0 as usize,
        qt as usize,
        a.bytes as int / crate::dtype::width(a.dtype) as int,
    );
    assert(b.layout.offset == a.layout.offset + q0 * a.strides()[1]);
    assert(b.strides() == a.strides());
    assert(b.layout.offset * crate::dtype::width(b.dtype) <= usize::MAX);
    assert forall|k: int| 0 <= k < e.len() implies 0 <= #[trigger] axis_at(e, a.rank(), k)
        <= a.rank() by {
        assert(k == 0 || k == 1 || k == 2 || k == 3);
    }
    assert forall|k: int|
        #![trigger picked_to(a, e, k)]
        0 <= k < e.len() && !e[k].rest() implies match picked_to(a, e, k) {
        Ok(c) => {
            let d = axis_at(e, a.rank(), k);
            let s = slice_of(e[k], c.shape()[d]);
            &&& d < c.rank()
            &&& c.shape()[d] <= i32::MAX
            &&& s.0 + s.1 <= usize::MAX
            &&& s.0 + s.1 <= c.shape()[d] ==> (c.layout.offset + s.0 * c.strides()[d])
                * crate::dtype::width(c.dtype) <= usize::MAX
        },
        Err(_) => true,
    } by {
        assert(k == 0 || k == 1 || k == 2 || k == 3);
        assert(axis_at(e, 4, k) == k);
        if k != 1 {
            let c = picked_to(a, e, k)->Ok_0;
            let s = slice_of(e[k], c.shape()[k]);
            let st = c.strides()[k] as int;
            assert(s.0 == 0);
            assert(s.0 * st == 0) by (nonlinear_arith)
                requires
                    s.0 == 0,
            ;
        }
    }
    assert(crate::index::left_out(e, a.rank(), 4) =~= Seq::<usize>::empty()) by {
        reveal_with_fuel(crate::index::left_out, 5);
    }
}

proof fn lemma_outs(qt: i32)
    requires
        0 <= qt <= 512,
    ensures
        sound_output(out_of(seq![qt, 512], Dtype::Int32)),
        sound_output(out_of(seq![qt, 512], Dtype::Bool)),
        sound_output(out_of(seq![qt, 512], Dtype::Float32)),
        sound_output(out_of(seq![qt, SELECT_BACKING], Dtype::Float32)),
{
    lemma_two(qt, 512);
    lemma_two(qt, SELECT_BACKING);
}

proof fn lemma_two(a: i32, b: i32)
    requires
        0 <= a <= 512,
        0 < b <= 65536,
    ensures
        roomy(sizes_of(seq![a, b])),
{
    let z = sizes_of(seq![a, b]);
    assert(z =~= seq![a as usize, b as usize]);
    let y = z.drop_last();
    assert(y =~= seq![a as usize]);
    assert(y.drop_last().len() == 0);
    let u = crate::layout::at_least_one(a as usize);
    let p = volume(y.drop_last());
    assert(volume(y) == p * u);
    assert(p * u == u) by (nonlinear_arith)
        requires
            p == 1,
    ;
    let w = crate::layout::at_least_one(b as usize);
    assert(volume(z) == volume(y) * w);
    assert(volume(y) * w <= 512 * 65536) by (nonlinear_arith)
        requires
            volume(y) <= 512,
            w <= 65536,
    ;
}

fn select_run(
    kernel: &mut MetalKernel,
    tape: &mut Tape,
    q: &Tensor,
    pooled: &Array,
    start: &Array,
    total: &Array,
    blocks: &Array,
    qt: i32,
) -> (r: Option<(Array, Array)>)
    requires
        q@.wf(),
        pooled.wf(),
        start.wf(),
        total.wf(),
        blocks.wf(),
        0 < qt <= 512,
        ready(old(kernel)@, 4),
    ensures
        ({
            let (k1, t1, o) = call_s(
                old(kernel)@,
                old(tape)@,
                select_call(q@, pooled.t@, start.t@, total.t@, blocks.t@, qt),
            );
            &&& final(kernel)@ == k1
            &&& final(tape)@ == t1
            &&& match r {
                Some((ids, valid)) => o matches Some(v) && ids.t@ == v[0] && valid.t@ == v[1]
                    && ids.wf() && valid.wf() && tile_of(ids.t@, qt as int, Dtype::Int32)
                    && tile_of(valid.t@, qt as int, Dtype::Bool),
                None => o is None,
            }
        }),
        ready(final(kernel)@, 4),
{
    let ghost call = select_call(q@, pooled.t@, start.t@, total.t@, blocks.t@, qt);
    let inputs: Vec<&Tensor> = vec![q, &pooled.t, &start.t, &total.t, &blocks.t];
    let template: Vec<TemplateArg> = Vec::new();
    let outs: Vec<OutputArg> = vec![
        OutputArg { shape: vec![qt, 512], dtype: Dtype::Int32 },
        OutputArg { shape: vec![qt, 512], dtype: Dtype::Bool },
        OutputArg { shape: vec![qt, 512], dtype: Dtype::Float32 },
        OutputArg { shape: vec![qt, SELECT_BACKING], dtype: Dtype::Float32 },
    ];
    proof {
        assert(ref_views(inputs@) =~= call.inputs);
        assert(arg_list(template@) =~= call.template);
        assert(out_list(outs@) =~~= call.outs);
        assert(all_wf(call.inputs));
        lemma_outs(qt);
    }
    match launch(
        kernel,
        tape,
        &inputs,
        &template,
        (qt * SELECT_WIDTH, 1, 1),
        (SELECT_WIDTH, 1, 1),
        &outs,
    ) {
        Some(v) => {
            proof {
                let w = array_views(v@);
                assert(w[0].wf() && w[1].wf());
                assert(w[0] == v@[0]@ && w[1] == v@[1]@);
                assert(sizes_of(seq![qt, 512]) =~= seq![qt as usize, 512usize]);
                assert(w[0].layout == packed(sizes_of(call.outs[0].shape)));
                assert(w[1].layout == packed(sizes_of(call.outs[1].shape)));
            }
            Some((Array::new(v[0].duplicate()), Array::new(v[1].duplicate())))
        },
        None => None,
    }
}

/// A packed part of so many queries.
pub open spec fn tile_of(a: ArrayV, qt: int, d: Dtype) -> bool {
    a.layout == packed(seq![qt as usize, 512usize]) && a.dtype == d
}

// ---- putting the tiles together ----

/// Parts of the first `n` tiles.
pub open spec fn tiled(v: Seq<ArrayV>, rows: int, d: Dtype) -> bool {
    forall|i: int|
        0 <= i < v.len() ==> tile_of(#[trigger] v[i], tile_size(rows, i), d) && v[i].wf()
}

proof fn lemma_total(v: Seq<ArrayV>, rows: int, d: Dtype)
    requires
        tiled(v, rows, d),
        v.len() <= select_tiles(rows),
        0 <= rows <= i32::MAX,
    ensures
        axis_total(v, 0) == tile_start(rows, v.len() as int),
    decreases v.len(),
{
    if v.len() > 0 {
        let n = v.len() - 1;
        assert(v.last() == v[n]);
        tiles_cover_the_queries(rows, n as int);
        assert forall|i: int| 0 <= i < v.drop_last().len() implies tile_of(
            #[trigger] v.drop_last()[i],
            tile_size(rows, i),
            d,
        ) && v.drop_last()[i].wf() by {
            assert(v.drop_last()[i] == v[i]);
        }
        lemma_total(v.drop_last(), rows, d);
    }
}

proof fn lemma_tiles_join(v: Seq<ArrayV>, rows: int, d: Dtype)
    requires
        tiled(v, rows, d),
        v.len() == select_tiles(rows),
        0 < rows <= i32::MAX,
        roomy(seq![rows as usize, 512usize]),
    ensures
        joinable(v, 0),
{
    tiles_cover_the_queries(rows, 0);
    lemma_total(v, rows, d);
    assert forall|i: int| 0 <= i < v.len() implies (#[trigger] v[i]).wf() by {
        assert(tile_of(v[i], tile_size(rows, i), d));
    }
    assert(tile_of(v[0], tile_size(rows, 0), d));
    let whole = cat_shape(v, 0);
    assert(whole =~= seq![rows as usize, 512usize]);
    lemma_steps(rows as usize);
    assert forall|i: int| 0 <= i < v.len() implies #[trigger] part_fits(v[i], whole) by {
        assert(tile_of(v[i], tile_size(rows, i), d));
        tiles_cover_the_queries(rows, i);
        let n = tile_size(rows, i) as usize;
        lemma_steps(n);
        let a = v[i];
        let shape = crate::words::i32_words(a.shape());
        let strides = seq![
            crate::words::i64_words(a.strides()),
            crate::words::i64_words(packed(whole).strides),
        ];
        assert(shape =~= seq![n as i32, 512i32]);
        assert forall|j: int, k: int|
            0 <= j < strides.len() && 0 <= k < shape.len() implies i64::MIN <= #[trigger] strides[j][k]
            * shape[k] <= i64::MAX by {
            assert(strides[j] =~= seq![512i64, 1i64]);
            assert(k == 0 || k == 1);
        }
    }
}

proof fn lemma_steps(n: usize)
    ensures
        packed(seq![n, 512usize]).strides == seq![512usize, 1usize],
        packed(seq![n, 512usize]).shape == seq![n, 512usize],
{
    let s = seq![n, 512usize];
    assert(s.skip(1) =~= seq![512usize]);
    assert(s.skip(2) =~= Seq::<usize>::empty());
    crate::layout::lemma_numel_one(512usize);
    assert(crate::layout::numel(s.skip(2)) == 1);
    assert(crate::layout::row_major(s)[0] == 512);
    assert(crate::layout::row_major(s)[1] == 1);
    assert(packed(s).strides =~= seq![512usize, 1usize]);
}

/// The arrays inside of a list.
pub open spec fn all_inner(v: Seq<Array>) -> Seq<ArrayV> {
    v.map_values(|a: Array| a.t@)
}

fn put_together(tape: &mut Tape, v: &Vec<Array>, Ghost(rows): Ghost<int>, Ghost(d): Ghost<Dtype>) -> (r: Option<
    Array,
>)
    requires
        tiled(all_inner(v@), rows, d),
        v@.len() == select_tiles(rows),
        0 < rows <= i32::MAX,
        roomy(seq![rows as usize, 512usize]),
        forall|i: int| 0 <= i < v@.len() ==> (#[trigger] v@[i]).wf(),
    ensures
        ({
            let (t1, o) = together(old(tape)@, all_inner(v@));
            &&& final(tape)@ == t1
            &&& match r {
                Some(a) => o == Outcome::Ok(a.t@) && a.wf(),
                None => o is Err,
            }
        }),
{
    let n = v.len();
    assert(all_inner(v@).len() == n);
    if n == 1 {
        return Some(v[0].detach());
    }
    let mut refs: Vec<&Array> = Vec::new();
    let mut i: usize = 0;
    while i < n
        invariant
            n == v@.len(),
            i <= n,
            inner(refs@) == all_inner(v@).take(i as int),
        decreases n - i,
    {
        let ghost before = refs@;
        let a = &v[i];
        refs.push(a);
        proof {
            assert(all_inner(v@)[i as int] == a.t@);
            assert(inner(refs@) =~= inner(before).push(a.t@));
            assert(all_inner(v@).take(i + 1) =~= all_inner(v@).take(i as int).push(a.t@));
        }
        i += 1;
    }
    proof {
        assert(all_inner(v@).take(n as int) =~= all_inner(v@));
        tiles_cover_the_queries(rows, 0);
        lemma_tiles_join(all_inner(v@), rows, d);
        assert(tile_of(all_inner(v@)[0], tile_size(rows, 0), d));
    }
    match Array::concatenate(tape, &refs, 0) {
        Ok(a) => Some(a),
        Err(_) => None,
    }
}

// ---- all queries ----

/// Queries and blocks of sizes that are signed numbers.
pub open spec fn select_fits(q: Array, pooled: Array, pos_start: i32, blocks: usize) -> bool {
    &&& q.wf()
    &&& pooled.wf()
    &&& q.t@.rank() == 4
    &&& 3 <= pooled.t@.rank() <= i32::MAX
    &&& forall|i: int| 0 <= i < 4 ==> #[trigger] q.t@.shape()[i] <= i32::MAX
    &&& fits(pos_start + q.t@.shape()[1])
    &&& q.t@.shape()[1] + 512 <= i32::MAX
    &&& blocks <= i32::MAX
    &&& roomy(seq![q.t@.shape()[1], 512usize])
}

/// The blocks that each query looks at, and which of them count. The scores of all
/// blocks are only kept for a tile of queries at a time.
pub fn select_blocks(
    kernel: &mut MetalKernel,
    tape: &mut Tape,
    q: &Array,
    pooled: &Array,
    pos_start: i32,
    total_tokens: i32,
    blocks: usize,
) -> (r: Option<(Array, Array)>)
    requires
        select_fits(*q, *pooled, pos_start, blocks),
        ready(old(kernel)@, 4),
    ensures
        ({
            let (k1, t1, o) = select_s(
                old(kernel)@,
                old(tape)@,
                *q,
                *pooled,
                pos_start,
                total_tokens,
                blocks,
            );
            &&& final(kernel)@ == k1
            &&& final(tape)@ == t1
            &&& crate::calls::got2(r, o)
        }),
        ready(final(kernel)@, 4),
{
    let rows = q.dim(1);
    if q.dim(0) != 1 || q.dim(2) != 4 || q.dim(3) != 128 {
        return None;
    }
    if pooled.dim(0) != 1 || pooled.dim(2) != 128 {
        return None;
    }
    let logical = blocks as i32;
    let whole: i32 = if total_tokens >= 0 {
        total_tokens / 4
    } else if total_tokens > -4 {
        0
    } else {
        -1
    };
    if logical != whole || logical > SELECT_BACKING {
        return None;
    }
    assert(select_takes(*q, *pooled, total_tokens, blocks));
    let ghost n = select_tiles(rows as int);
    let ghost k0 = kernel@;
    let ghost t0 = tape@;
    let mut ids: Vec<Array> = Vec::new();
    let mut valid: Vec<Array> = Vec::new();
    let mut q0: i32 = 0;
    let ghost mut i: int = 0;
    proof {
        assert(all_inner(ids@) =~= Seq::<ArrayV>::empty());
        assert(all_inner(valid@) =~= Seq::<ArrayV>::empty());
        assert(q.t@.shape()[0] <= i32::MAX && q.t@.shape()[1] <= i32::MAX && q.t@.shape()[2]
            <= i32::MAX && q.t@.shape()[3] <= i32::MAX);
        assert(q.shape@[0] == q.t@.shape()[0] && q.shape@[1] == q.t@.shape()[1] && q.shape@[2]
            == q.t@.shape()[2] && q.shape@[3] == q.t@.shape()[3]);
    }
    while q0 < rows
        invariant
            n == select_tiles(rows as int),
            0 <= i <= n,
            q0 == tile_start(rows as int, i),
            0 <= rows,
            rows == q.shape@[1],
            rows == q.t@.shape()[1],
            rows + 512 <= i32::MAX,
            q.wf(),
            pooled.wf(),
            q.t@.rank() == 4,
            q.t@.shape()[0] == 1,
            q.t@.shape()[2] == 4,
            q.t@.shape()[3] == 128,
            fits(pos_start + rows),
            ready(kernel@, 4),
            (kernel@, tape@, Some((all_inner(ids@), all_inner(valid@)))) == tiles_s(
                k0,
                t0,
                *q,
                *pooled,
                pos_start,
                total_tokens,
                logical,
                i,
            ),
            ids@.len() == i,
            valid@.len() == i,
            tiled(all_inner(ids@), rows as int, Dtype::Int32),
            tiled(all_inner(valid@), rows as int, Dtype::Bool),
            forall|j: int| 0 <= j < ids@.len() ==> (#[trigger] ids@[j]).wf(),
            forall|j: int| 0 <= j < valid@.len() ==> (#[trigger] valid@[j]).wf(),
            k0 == old(kernel)@,
            t0 == old(tape)@,
            select_takes(*q, *pooled, total_tokens, blocks),
            logical == blocks as i32,
        decreases rows - q0,
    {
        proof {
            assert(i < n);
            tiles_cover_the_queries(rows as int, i);
            lemma_tile(q.t@, rows as int, i);
        }
        let qt: i32 = if SELECT_TILE <= rows - q0 {
            SELECT_TILE
        } else {
            rows - q0
        };
        let part = vec![
            IndexElem::All,
            IndexElem::Span(q0, q0 + qt),
            IndexElem::All,
            IndexElem::All,
        ];
        assert(part@ =~= tile_index(rows as int, i));
        let cut = index_seq(&q.t, &part).unwrap();
        let start = vec![pos_start + q0];
        let total = vec![total_tokens];
        let count = vec![logical];
        proof {
            assert(start@ =~= seq![(pos_start + q0) as i32]);
            assert(total@ =~= seq![total_tokens]);
            assert(count@ =~= seq![logical]);
        }
        let ps = row_of(tape, &start);
        let tt = row_of(tape, &total);
        let lb = row_of(tape, &count);
        match select_run(kernel, tape, &cut, pooled, &ps, &tt, &lb, qt) {
            Some((a, b)) => {
                let ghost ids0 = ids@;
                let ghost valid0 = valid@;
                ids.push(a);
                valid.push(b);
                proof {
                    assert(all_inner(ids@) =~= all_inner(ids0).push(a.t@));
                    assert(all_inner(valid@) =~= all_inner(valid0).push(b.t@));
                    assert forall|j: int| 0 <= j < all_inner(ids@).len() implies tile_of(
                        #[trigger] all_inner(ids@)[j],
                        tile_size(rows as int, j),
                        Dtype::Int32,
                    ) && all_inner(ids@)[j].wf() by {
                        if j < i {
                            assert(all_inner(ids@)[j] == all_inner(ids0)[j]);
                        }
                    }
                    assert forall|j: int| 0 <= j < all_inner(valid@).len() implies tile_of(
                        #[trigger] all_inner(valid@)[j],
                        tile_size(rows as int, j),
                        Dtype::Bool,
                    ) && all_inner(valid@)[j].wf() by {
                        if j < i {
                            assert(all_inner(valid@)[j] == all_inner(valid0)[j]);
                        }
                    }
                }
            },
            None => {
                proof {
                    lemma_tiles_stop(
                        k0,
                        t0,
                        *q,
                        *pooled,
                        pos_start,
                        total_tokens,
                        logical,
                        i + 1,
                        n,
                    );
                }
                return None;
            },
        }
        q0 = q0 + qt;
        proof {
            i = i + 1;
        }
    }
    assert(i == n);
    if ids.len() == 0 {
        assert(all_inner(ids@) =~= Seq::<ArrayV>::empty());
        return None;
    }
    let a = match put_together(tape, &ids, Ghost(rows as int), Ghost(Dtype::Int32)) {
        Some(a) => a,
        None => {
            return None;
        },
    };
    let b = match put_together(tape, &valid, Ghost(rows as int), Ghost(Dtype::Bool)) {
        Some(b) => b,
        None => {
            return None;
        },
    };
    Some((a, b))
}

} // verus!
