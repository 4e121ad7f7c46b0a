//! Buffers, barriers, command buffers and device names.

use lisa::backend::{Backend, Exception};
use lisa::commands::{Commands, CompletionState};
use lisa::hazard::{EncoderState, FenceMap, IdSet};
use lisa::pool::{bucket_size, Buffer, BufferPool, PoolRules};
use lisa::runtime::{
    active_memory, cache_memory, clear_cache, compile_options, env_flag, pipeline_key,
    runtime_alloc_count, runtime_label_counts, runtime_poolhit_count, set_cache_limit, trim_cache,
    Allocation, CacheState, MathFunctions, MetalRuntime, Stream, Switches,
};
use lisa::tape::{ConstVal, Math};

fn switches() -> Switches {
    Switches {
        no_pool_reuse: false,
        plain_reuse: false,
        no_zero_reuse: false,
        no_sweep: false,
        dispatch_trace: false,
        label_trace: false,
    }
}

fn rules() -> PoolRules {
    PoolRules { reuse: true, plain: false, zero: true, sweep: true }
}

#[test]
fn buckets_are_whole() {
    assert_eq!(bucket_size(0), 1024);
    assert_eq!(bucket_size(1), 1024);
    assert_eq!(bucket_size(1024), 1024);
    assert_eq!(bucket_size(1025), 2048);
}

#[test]
fn smallest_fitting_buffer_is_taken() {
    let mut pool = BufferPool::new();
    pool.put(1, 4096);
    pool.put(2, 2048);
    pool.put(3, 2048);
    assert_eq!(pool.bytes(), 8192);
    assert!(pool.take(100, 0, rules()).is_none());
    pool.release(1);
    pool.release(3);
    pool.release(2);
    let t = pool.take(1500, 0, rules()).unwrap();
    assert_eq!((t.id, t.zero), (2, true));
    let t = pool.take(100, 0, rules()).unwrap();
    assert_eq!((t.id, t.zero), (3, true));
    assert!(pool.take(5000, 0, rules()).is_none());
    pool.release(2);
    let t = pool.take(2048, 0, PoolRules { zero: false, ..rules() }).unwrap();
    assert_eq!((t.id, t.zero), (2, false));
    assert!(pool.take(100, 0, PoolRules { reuse: false, ..rules() }).is_none());
}

#[test]
fn buffers_in_use_wait_for_completion() {
    let mut pool = BufferPool::new();
    pool.put(1, 1024);
    pool.mark_used_cb(1, 7);
    pool.release(1);
    assert!(pool.take(10, 6, rules()).is_none());
    assert!(pool.take(10, 6, PoolRules { plain: true, ..rules() }).is_some());
    pool.release(1);
    assert!(pool.take(10, 7, rules()).is_some());
    let mut b = Buffer { id: 4, len: 1024, used_cb: 3, held: false };
    b.mark_used_cb(2);
    assert_eq!(b.used_cb, 3);
    assert!(b.reusable_after(3) && !b.reusable_after(2));
    assert_eq!((b.id(), b.length()), (4, 1024));
}

#[test]
fn held_buffers_survive_a_sweep() {
    let mut pool = BufferPool::new();
    pool.put(1, 1024);
    pool.put(2, 2048);
    pool.release(1);
    assert_eq!(pool.sweep(), 1024);
    assert_eq!(pool.bytes(), 2048);
    pool.set_limit(4096);
    assert!(!pool.sweep_if_over(rules()));
    assert!(!pool.sweep_if_over(PoolRules { sweep: false, ..rules() }));
}

#[test]
fn conflicts_bring_barriers() {
    let mut e = EncoderState::new();
    e.set_output(1);
    assert!(!e.barrier_if_needed());
    // Reading what the dispatch before wrote.
    e.set_input(1);
    e.set_output(2);
    assert!(e.barrier_if_needed());
    // Writing what the dispatch before read.
    e.set_output(1);
    assert!(e.barrier_if_needed());
    // Nothing in common.
    e.set_input(9);
    e.set_output(8);
    assert!(!e.barrier_if_needed());
    assert!(e.all_outputs.contains(2));
    assert!(!e.all_outputs.contains(9));
}

#[test]
fn fences_guard_outputs() {
    let mut outs = IdSet::new();
    outs.insert(3);
    outs.insert(3);
    assert_eq!(outs.items.len(), 1);
    let mut m = FenceMap::new();
    m.end(&outs, 10);
    m.end(&outs, 11);
    assert!(m.fences().contains(11));
    assert!(!m.fences().contains(10));
    m.completed(&outs, 10);
    assert!(m.fences().contains(11));
    m.completed(&outs, 11);
    assert!(!m.fences().contains(11));
    assert!(outs.remove(3));
    assert!(!outs.remove(3));
}

#[test]
fn watermark_follows_the_gapless_ids() {
    let mut s = CompletionState::new();
    s.note(0);
    s.note(2);
    s.note(3);
    assert_eq!(s.watermark, 0);
    s.note(1);
    assert_eq!(s.watermark, 3);
    assert!(s.pending.items.is_empty());
    s.note(3);
    assert_eq!(s.watermark, 3);
}

#[test]
fn command_buffers_hold_their_share() {
    let mut c = Commands::new(2);
    let a = c.encoder();
    assert_eq!((a.commit, a.fresh, a.id), (None, true, 1));
    let b = c.encoder();
    assert_eq!((b.commit, b.fresh, b.id), (None, false, 1));
    let d = c.encoder();
    assert_eq!((d.commit, d.fresh, d.id), (Some(1), true, 2));
    let (last, waited) = c.begin_flush();
    assert_eq!(last, Some(2));
    assert_eq!(waited, [1, 2]);
    c.note(1);
    c.note(2);
    c.end_flush(&waited);
    assert_eq!(c.completed_id(), 2);
    assert_eq!(c.completed_watermark(), 2);
    assert_eq!(c.epoch(), 2);
    let (last, waited) = c.begin_flush();
    assert!(last.is_none() && waited.is_empty());
}

#[test]
fn allocations_are_counted() {
    let mut rt = MetalRuntime::new(4, Switches { label_trace: true, ..switches() });
    let id = match rt.buffer(2000, "x") {
        Allocation::Fresh { id, len, zero } => {
            assert_eq!((len, zero), (2048, true));
            id
        }
        Allocation::Reused(_) => panic!("an empty pool gave a buffer"),
    };
    rt.pool.release(id);
    match rt.buffer(10, "x") {
        Allocation::Reused(t) => assert_eq!((t.id, t.zero), (id, true)),
        Allocation::Fresh { .. } => panic!("a free buffer was passed over"),
    }
    assert_eq!(runtime_alloc_count(&rt.stats), 2);
    assert_eq!(runtime_poolhit_count(&rt.stats), 1);
    assert_eq!(runtime_label_counts(&rt.stats), [("x".to_string(), 2)]);
    assert_eq!(active_memory(&rt).unwrap(), 2048);
    assert_eq!(cache_memory().unwrap(), 0);
    rt.pool.release(id);
    let (_, _, freed) = clear_cache(&mut rt);
    assert_eq!(freed, 2048);
}

#[test]
fn caches_are_trimmed_above_their_limit() {
    let mut c = CacheState { limit: 0, baseline: 0 };
    assert!(!trim_cache(&mut c, 500));
    assert_eq!(c.baseline, 0);
    set_cache_limit(&mut c, 100);
    assert!(!trim_cache(&mut c, 500));
    assert_eq!(c.baseline, 500);
    assert!(!trim_cache(&mut c, 600));
    assert!(trim_cache(&mut c, 601));
}

#[test]
fn settings_are_read() {
    assert!(env_flag("LISA_PROFILE", true));
    assert!(!env_flag("LISA_PROFILE", false));
    assert!(!env_flag("LISA_NOTHING", true));
    assert_eq!(Stream::gpu(Some("7"), switches()).rt.commands.per_buffer, 7);
    assert_eq!(Stream::gpu(Some("0"), switches()).rt.commands.per_buffer, 1);
    assert!(Stream::gpu(None, switches()).runtime().pool.buffers.is_empty());
}

#[test]
fn compile_options_follow_the_math() {
    let safe = compile_options(Math::Safe, 26);
    assert!(!safe.fast);
    assert!(matches!(safe.functions, Some(MathFunctions::Precise)));
    assert_eq!(safe.language, Some(262144));
    assert_eq!(compile_options(Math::Jit, 27).language, Some(262145));
    assert_eq!(compile_options(Math::Jit, 15).language, Some(196610));
    assert_eq!(compile_options(Math::SafeNoLang, 27).language, None);
    let fast = compile_options(Math::Fast, 26);
    assert!(fast.fast);
    assert!(matches!(fast.functions, Some(MathFunctions::Fast)));
    let key = pipeline_key("f", Math::Safe, &vec![(1, ConstVal::Bool(true)), (2, ConstVal::Int(5))]);
    assert!(key.starts_with("f|Safe|"));
    assert_ne!(key, pipeline_key("f", Math::Safe, &vec![(1, ConstVal::Bool(true))]));
}

#[test]
fn device_names_resolve() {
    assert!(matches!(Backend::from_name("metal").unwrap(), Backend::Metal));
    assert!(matches!(Backend::from_name("CPU").unwrap(), Backend::Cpu));
    let e = match Backend::from_name("T\"PU") {
        Ok(_) => panic!("an unknown device was found"),
        Err(e) => e,
    };
    assert_eq!(e.message(), "unknown device \"t\\\"pu\"; available: metal, cpu");
    assert!(matches!(Backend::resolve(None, true).unwrap(), Backend::Metal));
    assert!(matches!(Backend::resolve(None, false).unwrap(), Backend::Cpu));
    assert!(Backend::resolve(Some("nope"), true).is_err());
    assert_eq!(Backend::Metal.name(), "metal");
    assert_eq!(Exception::custom("m".to_string()).message(), "m");
}
