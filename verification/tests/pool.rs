//! Pooled buffers.

use lisa::runtime::{Allocation, MetalRuntime, Switches};

fn plain_switches() -> Switches {
    Switches {
        no_pool_reuse: false,
        plain_reuse: false,
        no_zero_reuse: false,
        no_sweep: false,
        dispatch_trace: false,
        label_trace: false,
    }
}

fn name_of(a: &Allocation) -> u64 {
    match a {
        Allocation::Reused(t) => t.id,
        Allocation::Fresh { id, .. } => *id,
    }
}

#[test]
fn pool_reuses_then_caps() {
    let mut rt = MetalRuntime::new(4, plain_switches());
    rt.pool.set_limit(1 << 20);
    // A released buffer is reused, not re-allocated.
    let a = rt.buffer(4096, "a");
    rt.pool.release(name_of(&a));
    let before = rt.pool.bytes();
    let b = rt.buffer(4096, "b");
    assert_eq!(rt.pool.bytes(), before, "released buffer should be reused");
    rt.pool.release(name_of(&b));

    // Past the cap, `sweep_if_over` releases what nobody holds.
    let mut held = Vec::new();
    for _ in 0..8 {
        held.push(name_of(&rt.buffer(512 * 1024, "big")));
    }
    let peak = rt.pool.bytes();
    for id in held.drain(2..) {
        rt.pool.release(id);
    }
    assert!(rt.pool.bytes() > (1 << 20), "pool over cap: {peak}");
    let rules = plain_switches().pool_rules();
    assert!(rt.pool.sweep_if_over(rules), "sweep should fire");
    assert!(rt.pool.bytes() <= (1 << 20), "pool bounded after sweep");
}
