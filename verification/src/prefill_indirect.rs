//! Mixture of experts for many tokens: tiles of rows that share an expert, and the router.

use vstd::prelude::*;

use crate::array::{Array as Tensor, ArrayV};
use crate::calls::{
    call_s, first1, fits, got1, launch, out_of, ready, CallV,
};
use crate::dtype::Dtype;
use crate::facade::Array;
use crate::kernel::{
    all_wf, arg_list, new_kernel, out_list, ref_views, sound_outputs, KernelV, MetalKernel,
    OutputArg, TemplateArg, TemplateArgV,
};
use crate::tape::{Tape, TapeV};
use crate::text::{cat2, str_views};

verus! {

/// The inputs of the kernel, by name.
pub open spec fn router_partial_inputs() -> Seq<Seq<char>> {
    seq!["x"@, "w"@]
}

/// The inputs of the kernel, by name.
pub open spec fn indirect_down_inputs() -> Seq<Seq<char>> {
    seq!["x"@, "w"@, "scales"@, "biases"@, "indices"@, "token_rows"@, "tiles"@]
}

/// The inputs of the kernel, by name.
pub open spec fn indirect_gate_up_inputs() -> Seq<Seq<char>> {
    seq!["x"@, "w0"@, "scales0"@, "biases0"@, "w1"@, "scales1"@, "biases1"@, "indices"@, "token_rows"@, "tiles"@]
}

// ---- tiles ----

/// The rows of a tile.
pub const TILE_ROWS: i32 = 32;

/// The threads that fill the table of tiles.
pub const TILE_THREADS: i32 = 1024;

/// The columns of a block on the way down.
pub const DOWN_BLOCK_N: i32 = 128;

/// The most tiles that so many rows of so many experts can take.
pub open spec fn tile_bound(rows: int, experts: int) -> int {
    (rows + 31) / 32 + experts
}

/// The most tiles that so many rows of so many experts can take.
pub fn max_tiles(rows: i32, experts: i32) -> (n: i32)
    requires
        0 <= rows,
        rows + 32 <= i32::MAX,
        fits(tile_bound(rows as int, experts as int)),
    ensures
        n == tile_bound(rows as int, experts as int),
{
    (rows + TILE_ROWS - 1) / TILE_ROWS + experts
}

/// The tiles of the runs of rows of each expert: each run starts a tile.
pub open spec fn tiles_of(runs: Seq<nat>) -> nat
    decreases runs.len(),
{
    if runs.len() == 0 {
        0
    } else {
        tiles_of(runs.drop_last()) + (runs.last() + 31) / 32
    }
}

/// The rows of all runs.
pub open spec fn rows_of_runs(runs: Seq<nat>) -> nat
    decreases runs.len(),
{
    if runs.len() == 0 {
        0
    } else {
        rows_of_runs(runs.drop_last()) + runs.last()
    }
}

/// The table of tiles has room for all of them, however the rows fall on the
/// experts.
pub proof fn tiles_have_room(runs: Seq<nat>)
    ensures
        tiles_of(runs) <= tile_bound(rows_of_runs(runs) as int, runs.len() as int),
    decreases runs.len(),
{
    lemma_tiles(runs);
}

proof fn lemma_tiles(runs: Seq<nat>)
    ensures
        tiles_of(runs) * 32 <= rows_of_runs(runs) + 31 * runs.len(),
    decreases runs.len(),
{
    if runs.len() > 0 {
        lemma_tiles(runs.drop_last());
    }
}

/// The kernel that fills the table of tiles.
pub fn tile_table_kernel(source: &str) -> (r: Option<MetalKernel>)
    ensures
        r matches Some(k) && k@ == new_kernel(
            "track_prefill_tile_table"@,
            seq!["sorted_ids"@],
            seq!["tiles"@],
            source@,
            ""@,
            false,
        ) && ready(k@, 1),
{
    let ins: Vec<&str> = vec!["sorted_ids"];
    let outs: Vec<&str> = vec!["tiles"];
    proof {
        assert(str_views(ins@) =~= seq!["sorted_ids"@]);
        assert(str_views(outs@) =~= seq!["tiles"@]);
    }
    match MetalKernel::new("track_prefill_tile_table", &ins, &outs, source, "", true, false) {
        Ok(k) => Some(k),
        Err(_) => None,
    }
}

/// The first and last row of each tile.
pub open spec fn tile_table_call(
    sorted_ids: Array,
    rows: i32,
    experts: i32,
) -> CallV {
    let max_t = tile_bound(rows as int, experts as int) as i32;
    let size = (2 * max_t) as i32;
    CallV {
        inputs: seq![sorted_ids.t@],
        template: seq![TemplateArgV::Int("R"@, rows), TemplateArgV::Int("E"@, experts), TemplateArgV::Int("BM"@, TILE_ROWS), TemplateArgV::Int("MAXT"@, max_t), TemplateArgV::Int("TG"@, TILE_THREADS)],
        grid: (TILE_THREADS, 1, 1),
        group: (TILE_THREADS, 1, 1),
        outs: seq![out_of(seq![size], Dtype::Uint32)],
    }
}

/// The first and last row of each tile.
pub fn tile_table(
    kernel: &mut MetalKernel,
    tape: &mut Tape,
    sorted_ids: &Array,
    rows: i32,
    experts: i32,
) -> (r: Option<Array>)
    requires
        sorted_ids.wf(),
        0 <= rows,
        rows + 32 <= i32::MAX,
        fits(tile_bound(rows as int, experts as int)),
        ({ let max_t = tile_bound(rows as int, experts as int) as i32; fits(2 * max_t) }),
        ready(old(kernel)@, 1),
        sound_outputs(tile_table_call(*sorted_ids, rows, experts).outs),
    ensures
        ({
            let (k1, t1, o) = call_s(
                old(kernel)@,
                old(tape)@,
                tile_table_call(*sorted_ids, rows, experts),
            );
            &&& final(kernel)@ == k1
            &&& final(tape)@ == t1
            &&& got1(r, o)
        }),
        ready(final(kernel)@, 1),
{
    let ghost call = tile_table_call(*sorted_ids, rows, experts);
    let max_t = max_tiles(rows, experts);
    let size: i32 = 2 * max_t;
    let inputs: Vec<&Tensor> = vec![&sorted_ids.t];
    let template: Vec<TemplateArg> = vec![
        TemplateArg::Int("R", rows),
        TemplateArg::Int("E", experts),
        TemplateArg::Int("BM", TILE_ROWS),
        TemplateArg::Int("MAXT", max_t),
        TemplateArg::Int("TG", TILE_THREADS),
    ];
    let outs: Vec<OutputArg> = vec![
        OutputArg { shape: vec![size], dtype: Dtype::Uint32 },
    ];
    proof {
        assert(ref_views(inputs@) =~= call.inputs);
        assert(arg_list(template@) =~= call.template);
        assert(out_list(outs@) =~~= call.outs);
        assert(all_wf(call.inputs));
    }
    let made = launch(
        kernel,
        tape,
        &inputs,
        &template,
        (TILE_THREADS, 1, 1),
        (TILE_THREADS, 1, 1),
        &outs,
    );
    first1(made)
}

// ---- projections ----

/// The kernel of the gated activation over tiles.
pub fn gate_up_kernel(source: &str, header: &str) -> (r: Option<MetalKernel>)
    ensures
        r matches Some(k) && k@ == new_kernel(
            "track_prefill_indirect_gate_up"@,
            indirect_gate_up_inputs(),
            seq!["y"@],
            source@,
            header@,
            false,
        ) && ready(k@, 1),
{
    let ins: Vec<&str> = vec!["x", "w0", "scales0", "biases0", "w1", "scales1", "biases1", "indices", "token_rows", "tiles"];
    let outs: Vec<&str> = vec!["y"];
    proof {
        assert(str_views(ins@) =~= seq!["x"@, "w0"@, "scales0"@, "biases0"@, "w1"@, "scales1"@, "biases1"@, "indices"@, "token_rows"@, "tiles"@]);
        assert(str_views(outs@) =~= seq!["y"@]);
    }
    match MetalKernel::new("track_prefill_indirect_gate_up", &ins, &outs, source, header, true, false) {
        Ok(k) => Some(k),
        Err(_) => None,
    }
}

/// The gated activation of each row's expert, tile by tile.
pub open spec fn gate_up_call(
    x: Array,
    w0: Array,
    s0: Array,
    b0: Array,
    w1: Array,
    s1: Array,
    b1: Array,
    sorted_ids: Array,
    token_rows: Array,
    tiles: Array,
    max_t: i32,
    n: i32,
    k: i32,
    rows: i32,
) -> CallV {
    let blocks = (n / 64) as i32;
    let lanes = (blocks * 32) as i32;
    let layers = (max_t * 2) as i32;
    CallV {
        inputs: seq![x.t@, w0.t@, s0.t@, b0.t@, w1.t@, s1.t@, b1.t@, sorted_ids.t@, token_rows.t@, tiles.t@],
        template: seq![TemplateArgV::Dtype("T"@, Dtype::Bfloat16), TemplateArgV::Int("N"@, n), TemplateArgV::Int("K"@, k), TemplateArgV::Bool("SILU"@, true)],
        grid: (lanes, layers, 2),
        group: (32, 2, 2),
        outs: seq![out_of(seq![rows, 1, n], Dtype::Bfloat16)],
    }
}

/// The gated activation of each row's expert, tile by tile.
pub fn gate_up(
    kernel: &mut MetalKernel,
    tape: &mut Tape,
    x: &Array,
    w0: &Array,
    s0: &Array,
    b0: &Array,
    w1: &Array,
    s1: &Array,
    b1: &Array,
    sorted_ids: &Array,
    token_rows: &Array,
    tiles: &Array,
    max_t: i32,
    n: i32,
    k: i32,
    rows: i32,
) -> (r: Option<Array>)
    requires
        x.wf(),
        w0.wf(),
        s0.wf(),
        b0.wf(),
        w1.wf(),
        s1.wf(),
        b1.wf(),
        sorted_ids.wf(),
        token_rows.wf(),
        tiles.wf(),
        n >= 0,
        ((fits(n / 64) && { let blocks = (n / 64) as i32; (fits(blocks * 32) && { let lanes = (blocks * 32) as i32; fits(max_t * 2) }) })),
        ready(old(kernel)@, 1),
        sound_outputs(gate_up_call(*x, *w0, *s0, *b0, *w1, *s1, *b1, *sorted_ids, *token_rows, *tiles, max_t, n, k, rows).outs),
    ensures
        ({
            let (k1, t1, o) = call_s(
                old(kernel)@,
                old(tape)@,
                gate_up_call(*x, *w0, *s0, *b0, *w1, *s1, *b1, *sorted_ids, *token_rows, *tiles, max_t, n, k, rows),
            );
            &&& final(kernel)@ == k1
            &&& final(tape)@ == t1
            &&& got1(r, o)
        }),
        ready(final(kernel)@, 1),
{
    let ghost call = gate_up_call(*x, *w0, *s0, *b0, *w1, *s1, *b1, *sorted_ids, *token_rows, *tiles, max_t, n, k, rows);
    let blocks: i32 = n / 64;
    let lanes: i32 = blocks * 32;
    let layers: i32 = max_t * 2;
    let inputs: Vec<&Tensor> = vec![&x.t, &w0.t, &s0.t, &b0.t, &w1.t, &s1.t, &b1.t, &sorted_ids.t, &token_rows.t, &tiles.t];
    let template: Vec<TemplateArg> = vec![
        TemplateArg::Dtype("T", Dtype::Bfloat16),
        TemplateArg::Int("N", n),
        TemplateArg::Int("K", k),
        TemplateArg::Bool("SILU", true),
    ];
    let outs: Vec<OutputArg> = vec![
        OutputArg { shape: vec![rows, 1, n], dtype: Dtype::Bfloat16 },
    ];
    proof {
        assert(ref_views(inputs@) =~= call.inputs);
        assert(arg_list(template@) =~= call.template);
        assert(out_list(outs@) =~~= call.outs);
        assert(all_wf(call.inputs));
    }
    let made = launch(
        kernel,
        tape,
        &inputs,
        &template,
        (lanes, layers, 2),
        (32, 2, 2),
        &outs,
    );
    first1(made)
}

/// The kernel of the projection down over tiles.
pub fn down_kernel(source: &str, header: &str) -> (r: Option<MetalKernel>)
    ensures
        r matches Some(k) && k@ == new_kernel(
            "track_prefill_indirect_down"@,
            indirect_down_inputs(),
            seq!["y"@],
            source@,
            header@,
            false,
        ) && ready(k@, 1),
{
    let ins: Vec<&str> = vec!["x", "w", "scales", "biases", "indices", "token_rows", "tiles"];
    let outs: Vec<&str> = vec!["y"];
    proof {
        assert(str_views(ins@) =~= seq!["x"@, "w"@, "scales"@, "biases"@, "indices"@, "token_rows"@, "tiles"@]);
        assert(str_views(outs@) =~= seq!["y"@]);
    }
    match MetalKernel::new("track_prefill_indirect_down", &ins, &outs, source, header, true, false) {
        Ok(k) => Some(k),
        Err(_) => None,
    }
}

/// The projection down of each row's expert, tile by tile; the rows are in order already.
pub open spec fn down_call(
    activated: Array,
    w: Array,
    s: Array,
    b: Array,
    sorted_ids: Array,
    tiles: Array,
    max_t: i32,
    n: i32,
    k: i32,
    rows: i32,
) -> CallV {
    let blocks = (n / DOWN_BLOCK_N) as i32;
    let lanes = (blocks * 32) as i32;
    let layers = (max_t * 2) as i32;
    CallV {
        inputs: seq![activated.t@, w.t@, s.t@, b.t@, sorted_ids.t@, sorted_ids.t@, tiles.t@],
        template: seq![TemplateArgV::Dtype("T"@, Dtype::Bfloat16), TemplateArgV::Int("N"@, n), TemplateArgV::Int("K"@, k)],
        grid: (lanes, layers, 2),
        group: (32, 2, 2),
        outs: seq![out_of(seq![rows, 1, n], Dtype::Bfloat16)],
    }
}

/// The projection down of each row's expert, tile by tile; the rows are in order already.
pub fn down(
    kernel: &mut MetalKernel,
    tape: &mut Tape,
    activated: &Array,
    w: &Array,
    s: &Array,
    b: &Array,
    sorted_ids: &Array,
    tiles: &Array,
    max_t: i32,
    n: i32,
    k: i32,
    rows: i32,
) -> (r: Option<Array>)
    requires
        activated.wf(),
        w.wf(),
        s.wf(),
        b.wf(),
        sorted_ids.wf(),
        tiles.wf(),
        n >= 0,
        ((fits(n / DOWN_BLOCK_N) && { let blocks = (n / DOWN_BLOCK_N) as i32; (fits(blocks * 32) && { let lanes = (blocks * 32) as i32; fits(max_t * 2) }) })),
        ready(old(kernel)@, 1),
        sound_outputs(down_call(*activated, *w, *s, *b, *sorted_ids, *tiles, max_t, n, k, rows).outs),
    ensures
        ({
            let (k1, t1, o) = call_s(
                old(kernel)@,
                old(tape)@,
                down_call(*activated, *w, *s, *b, *sorted_ids, *tiles, max_t, n, k, rows),
            );
            &&& final(kernel)@ == k1
            &&& final(tape)@ == t1
            &&& got1(r, o)
        }),
        ready(final(kernel)@, 1),
{
    let ghost call = down_call(*activated, *w, *s, *b, *sorted_ids, *tiles, max_t, n, k, rows);
    let blocks: i32 = n / DOWN_BLOCK_N;
    let lanes: i32 = blocks * 32;
    let layers: i32 = max_t * 2;
    let inputs: Vec<&Tensor> = vec![&activated.t, &w.t, &s.t, &b.t, &sorted_ids.t, &sorted_ids.t, &tiles.t];
    let template: Vec<TemplateArg> = vec![
        TemplateArg::Dtype("T", Dtype::Bfloat16),
        TemplateArg::Int("N", n),
        TemplateArg::Int("K", k),
    ];
    let outs: Vec<OutputArg> = vec![
        OutputArg { shape: vec![rows, 1, n], dtype: Dtype::Bfloat16 },
    ];
    proof {
        assert(ref_views(inputs@) =~= call.inputs);
        assert(arg_list(template@) =~= call.template);
        assert(out_list(outs@) =~~= call.outs);
        assert(all_wf(call.inputs));
    }
    let made = launch(
        kernel,
        tape,
        &inputs,
        &template,
        (lanes, layers, 2),
        (32, 2, 2),
        &outs,
    );
    first1(made)
}

// ---- the router ----

/// The kernel that scores the experts in two halves.
pub fn router_partial_kernel(source: &str, nax: &str, loops: &str) -> (r: Option<MetalKernel>)
    ensures
        r matches Some(k) && k@ == new_kernel(
            "track_router_bf16_storage"@,
            router_partial_inputs(),
            seq!["partials"@],
            source@,
            nax@ + loops@,
            false,
        ) && ready(k@, 1),
{
    let ins: Vec<&str> = vec!["x", "w"];
    let outs: Vec<&str> = vec!["partials"];
    let header = cat2(nax, loops);
    proof {
        assert(str_views(ins@) =~= seq!["x"@, "w"@]);
        assert(str_views(outs@) =~= seq!["partials"@]);
    }
    match MetalKernel::new("track_router_bf16_storage", &ins, &outs, source, &header, true, false) {
        Ok(k) => Some(k),
        Err(_) => None,
    }
}

/// The kernel that adds the halves up.
pub fn router_sum_kernel(source: &str) -> (r: Option<MetalKernel>)
    ensures
        r matches Some(k) && k@ == new_kernel(
            "track_router_split_sum"@,
            seq!["partials"@],
            seq!["y"@],
            source@,
            ""@,
            false,
        ) && ready(k@, 1),
{
    let ins: Vec<&str> = vec!["partials"];
    let outs: Vec<&str> = vec!["y"];
    proof {
        assert(str_views(ins@) =~= seq!["partials"@]);
        assert(str_views(outs@) =~= seq!["y"@]);
    }
    match MetalKernel::new("track_router_split_sum", &ins, &outs, source, "", true, false) {
        Ok(k) => Some(k),
        Err(_) => None,
    }
}

/// The groups of threads that score so many rows: tiles of rows, two at a time
/// where there are more than three.
pub open spec fn router_groups(rows: int) -> int {
    let tiles = (rows + 63) / 64;
    let swizzle = if tiles <= 3 {
        1int
    } else {
        2
    };
    8 * swizzle * ((tiles + swizzle - 1) / swizzle) * 2
}

/// The scores of the experts in two halves.
pub open spec fn router_partial_call(
    x: Array,
    w: Array,
    rows: i32,
) -> CallV {
    let above = (rows + 63) as i32;
    let tiles_m = (above / 64) as i32;
    let swizzle: i32 = if tiles_m <= 3 {
        1
    } else {
        2
    };
    let up = (tiles_m + swizzle - 1) as i32;
    let pairs = (up / swizzle) as i32;
    let wide = (8 * swizzle) as i32;
    let half = (wide * pairs) as i32;
    let groups = (half * 2) as i32;
    let threads = (groups * 32) as i32;
    CallV {
        inputs: seq![x.t@, w.t@],
        template: seq![TemplateArgV::Int("M"@, rows)],
        grid: (threads, 2, 2),
        group: (32, 2, 2),
        outs: seq![out_of(seq![2, rows, 512], Dtype::Float32)],
    }
}

/// The scores of the experts in two halves.
fn router_partial(
    kernel: &mut MetalKernel,
    tape: &mut Tape,
    x: &Array,
    w: &Array,
    rows: i32,
) -> (r: Option<Array>)
    requires
        x.wf(),
        w.wf(),
        rows >= 0,
        ((fits(rows + 63) && { let above = (rows + 63) as i32; (fits(above / 64) && { let tiles_m = (above / 64) as i32; { let swizzle: i32 = if tiles_m <= 3 {
        1
    } else {
        2
    }; (fits(tiles_m + swizzle - 1) && { let up = (tiles_m + swizzle - 1) as i32; (fits(up / swizzle) && { let pairs = (up / swizzle) as i32; (fits(8 * swizzle) && { let wide = (8 * swizzle) as i32; (fits(wide * pairs) && { let half = (wide * pairs) as i32; (fits(half * 2) && { let groups = (half * 2) as i32; fits(groups * 32) }) }) }) }) }) } }) })),
        ready(old(kernel)@, 1),
        sound_outputs(router_partial_call(*x, *w, rows).outs),
    ensures
        ({
            let (k1, t1, o) = call_s(
                old(kernel)@,
                old(tape)@,
                router_partial_call(*x, *w, rows),
            );
            &&& final(kernel)@ == k1
            &&& final(tape)@ == t1
            &&& got1(r, o)
        }),
        ready(final(kernel)@, 1),
{
    let ghost call = router_partial_call(*x, *w, rows);
    let above: i32 = rows + 63;
    let tiles_m: i32 = above / 64;
    let swizzle: i32 = if tiles_m <= 3 {
        1
    } else {
        2
    };
    let up: i32 = tiles_m + swizzle - 1;
    let pairs: i32 = up / swizzle;
    let wide: i32 = 8 * swizzle;
    let half: i32 = wide * pairs;
    let groups: i32 = half * 2;
    let threads: i32 = groups * 32;
    let inputs: Vec<&Tensor> = vec![&x.t, &w.t];
    let template: Vec<TemplateArg> = vec![
        TemplateArg::Int("M", rows),
    ];
    let outs: Vec<OutputArg> = vec![
        OutputArg { shape: vec![2, rows, 512], dtype: Dtype::Float32 },
    ];
    proof {
        assert(ref_views(inputs@) =~= call.inputs);
        assert(arg_list(template@) =~= call.template);
        assert(out_list(outs@) =~~= call.outs);
        assert(all_wf(call.inputs));
    }
    let made = launch(
        kernel,
        tape,
        &inputs,
        &template,
        (threads, 2, 2),
        (32, 2, 2),
        &outs,
    );
    first1(made)
}

/// The halves added up.
pub open spec fn halves_call(
    partials: ArrayV,
    rows: i32,
) -> CallV {
    CallV {
        inputs: seq![partials],
        template: seq![TemplateArgV::Int("M"@, rows)],
        grid: (512, rows, 1),
        group: (256, 1, 1),
        outs: seq![out_of(seq![1, rows, 512], Dtype::Float32)],
    }
}

/// The halves added up.
fn router_sum(
    kernel: &mut MetalKernel,
    tape: &mut Tape,
    partials: &Array,
    rows: i32,
) -> (r: Option<Array>)
    requires
        partials.wf(),
        ready(old(kernel)@, 1),
        sound_outputs(halves_call(partials.t@, rows).outs),
    ensures
        ({
            let (k1, t1, o) = call_s(
                old(kernel)@,
                old(tape)@,
                halves_call(partials.t@, rows),
            );
            &&& final(kernel)@ == k1
            &&& final(tape)@ == t1
            &&& got1(r, o)
        }),
        ready(final(kernel)@, 1),
{
    let ghost call = halves_call(partials.t@, rows);
    let inputs: Vec<&Tensor> = vec![&partials.t];
    let template: Vec<TemplateArg> = vec![
        TemplateArg::Int("M", rows),
    ];
    let outs: Vec<OutputArg> = vec![
        OutputArg { shape: vec![1, rows, 512], dtype: Dtype::Float32 },
    ];
    proof {
        assert(ref_views(inputs@) =~= call.inputs);
        assert(arg_list(template@) =~= call.template);
        assert(out_list(outs@) =~~= call.outs);
        assert(all_wf(call.inputs));
    }
    let made = launch(
        kernel,
        tape,
        &inputs,
        &template,
        (512, rows, 1),
        (256, 1, 1),
        &outs,
    );
    first1(made)
}

/// The scores of the experts for each row: two halves, added up.
pub open spec fn router_s(partial: KernelV, sum: KernelV, t: TapeV, x: Array, w: Array, rows: i32) -> (
    KernelV,
    KernelV,
    TapeV,
    Option<Seq<ArrayV>>,
) {
    let (k1, t1, o) = call_s(partial, t, router_partial_call(x, w, rows));
    match o {
        None => (k1, sum, t1, None),
        Some(v) => {
            let (k2, t2, p) = call_s(sum, t1, halves_call(v[0], rows));
            (k1, k2, t2, p)
        },
    }
}

/// The scores of the experts for each row.
pub fn router(
    partial: &mut MetalKernel,
    sum: &mut MetalKernel,
    tape: &mut Tape,
    x: &Array,
    w: &Array,
    rows: i32,
) -> (r: Option<Array>)
    requires
        x.wf(),
        w.wf(),
        0 <= rows,
        rows + 63 <= i32::MAX,
        fits(router_groups(rows as int) * 32),
        ready(old(partial)@, 1),
        ready(old(sum)@, 1),
        sound_outputs(router_partial_call(*x, *w, rows).outs),
        sound_outputs(seq![out_of(seq![1, rows, 512], Dtype::Float32)]),
    ensures
        ({
            let (k1, k2, t1, o) = router_s(
                old(partial)@,
                old(sum)@,
                old(tape)@,
                *x,
                *w,
                rows,
            );
            &&& final(partial)@ == k1
            &&& final(sum)@ == k2
            &&& final(tape)@ == t1
            &&& got1(r, o)
        }),
        ready(final(partial)@, 1),
        ready(final(sum)@, 1),
{
    proof {
        lemma_groups(rows as int);
    }
    match router_partial(partial, tape, x, w, rows) {
        Some(halves) => router_sum(sum, tape, &halves, rows),
        None => None,
    }
}

proof fn lemma_groups(rows: int)
    requires
        0 <= rows,
    ensures
        ({
            let tiles = (rows + 63) / 64;
            let swizzle = if tiles <= 3 {
                1int
            } else {
                2
            };
            let pairs = (tiles + swizzle - 1) / swizzle;
            &&& 0 <= pairs <= tiles
            &&& 0 <= 8 * swizzle * pairs <= router_groups(rows)
            &&& router_groups(rows) == 8 * swizzle * pairs * 2
        }),
{
    let tiles = (rows + 63) / 64;
    let swizzle = if tiles <= 3 {
        1int
    } else {
        2
    };
    let pairs = (tiles + swizzle - 1) / swizzle;
    if tiles <= 3 {
        assert(pairs == tiles);
    } else {
        assert(pairs == (tiles + 1) / 2);
    }
    assert(8 * swizzle * pairs >= 0) by (nonlinear_arith)
        requires
            swizzle >= 1,
            pairs >= 0,
    ;
}

} // verus!
