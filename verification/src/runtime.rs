//! The runtime: what a buffer request becomes, how programs are compiled, and
//! what is counted.

use vstd::prelude::*;

use crate::commands::Commands;
use crate::error::Error;
use crate::http::whole_size;
use crate::pool::{
    bucket, bucket_size, held_ones, is_best, swept_pool, takable, Buffer, BufferPool, PoolRules,
    Taken,
};
use crate::tape::{ConstVal, Math};
use crate::text::{
    bool_str, bool_text, cat2, cat3, cat4, dec, dec_int, decimal_i32, decimal_usize, same_text,
};

verus! {

// ---- switches ----

/// The names of the diagnostic switches.
pub open spec fn is_switch(s: Seq<char>) -> bool {
    ||| s == "LISA_NO_POOL_REUSE"@
    ||| s == "LISA_NO_ZERO_REUSE"@
    ||| s == "LISA_NO_SWEEP"@
    ||| s == "LISA_NO_KEEPALIVE"@
    ||| s == "LISA_SERIAL_ENCODER"@
    ||| s == "LISA_SYNC_ROTATE"@
    ||| s == "LISA_SYNC_EVERY_OP"@
    ||| s == "LISA_CHECK_REUSE"@
    ||| s == "LISA_BARRIER_TRACE"@
    ||| s == "LISA_WAIT_TRACE"@
    ||| s == "LISA_DISPATCH_TRACE"@
    ||| s == "LISA_PLAIN_REUSE"@
    ||| s == "LISA_NO_TRIM"@
    ||| s == "LISA_RMS_TRACE"@
    ||| s == "LISA_RMS_EVAL_TOP"@
    ||| s == "LISA_DUMP_NORMED"@
    ||| s == "LISA_SHAPE_DEBUG"@
    ||| s == "LISA_PROFILE_DECODE"@
    ||| s == "LISA_PROFILE"@
    ||| s == "LISA_PROFILE_MTP"@
    ||| s == "LISA_PROFILE_MOE"@
    ||| s == "LISA_DEBUG_MTP"@
    ||| s == "LISA_DEBUG_SESSION"@
    ||| s == "LISA_DEBUG_INDIRECT"@
    ||| s == "LISA_INDEXER_DEBUG"@
    ||| s == "LISA_QSA_PROF"@
    ||| s == "LISA_TOPK"@
    ||| s == "LISA_KEEP"@
    ||| s == "LISA_TRUNC"@
    ||| s == "LISA_DUMP_TOKENS"@
    ||| s == "LISA_LDTOKENS"@
    ||| s == "LISA_NO_WARMUP"@
    ||| s == "LISA_TOTALS"@
    ||| s == "LISA_SYNC_EXP"@
    ||| s == "LISA_MEM_TRACE"@
    ||| s == "LISA_NO_DECODE_COMPLETE"@
    ||| s == "LISA_GDN_SHAPES"@
    ||| s == "LISA_NOOP_DISPATCH"@
    ||| s == "LISA_NO_TRACKING"@
    ||| s == "LISA_LABEL_TRACE"@
}

/// Whether a switch is on: it must be one of the known ones, and set.
pub fn env_flag(name: &str, set: bool) -> (on: bool)
    ensures
        on == (set && is_switch(name@)),
{
    let first = same_text(name, "LISA_NO_POOL_REUSE") || same_text(name, "LISA_NO_ZERO_REUSE")
        || same_text(name, "LISA_NO_SWEEP") || same_text(name, "LISA_NO_KEEPALIVE") || same_text(
        name,
        "LISA_SERIAL_ENCODER",
    ) || same_text(name, "LISA_SYNC_ROTATE") || same_text(name, "LISA_SYNC_EVERY_OP")
        || same_text(name, "LISA_CHECK_REUSE") || same_text(name, "LISA_BARRIER_TRACE")
        || same_text(name, "LISA_WAIT_TRACE") || same_text(name, "LISA_DISPATCH_TRACE")
        || same_text(name, "LISA_PLAIN_REUSE") || same_text(name, "LISA_NO_TRIM");
    let second = same_text(name, "LISA_RMS_TRACE") || same_text(name, "LISA_RMS_EVAL_TOP")
        || same_text(name, "LISA_DUMP_NORMED") || same_text(name, "LISA_SHAPE_DEBUG")
        || same_text(name, "LISA_PROFILE_DECODE") || same_text(name, "LISA_PROFILE")
        || same_text(name, "LISA_PROFILE_MTP") || same_text(name, "LISA_PROFILE_MOE")
        || same_text(name, "LISA_DEBUG_MTP") || same_text(name, "LISA_DEBUG_SESSION")
        || same_text(name, "LISA_DEBUG_INDIRECT") || same_text(name, "LISA_INDEXER_DEBUG")
        || same_text(name, "LISA_QSA_PROF") || same_text(name, "LISA_TOPK");
    let third = same_text(name, "LISA_KEEP") || same_text(name, "LISA_TRUNC") || same_text(
        name,
        "LISA_DUMP_TOKENS",
    ) || same_text(name, "LISA_LDTOKENS") || same_text(name, "LISA_NO_WARMUP") || same_text(
        name,
        "LISA_TOTALS",
    ) || same_text(name, "LISA_SYNC_EXP") || same_text(name, "LISA_MEM_TRACE") || same_text(
        name,
        "LISA_NO_DECODE_COMPLETE",
    ) || same_text(name, "LISA_GDN_SHAPES") || same_text(name, "LISA_NOOP_DISPATCH")
        || same_text(name, "LISA_NO_TRACKING") || same_text(name, "LISA_LABEL_TRACE");
    set && (first || second || third)
}

/// The switches that the runtime itself obeys.
#[derive(Clone, Copy, PartialEq, Eq, Structural, Debug)]
pub struct Switches {
    pub no_pool_reuse: bool,
    pub plain_reuse: bool,
    pub no_zero_reuse: bool,
    pub no_sweep: bool,
    pub dispatch_trace: bool,
    pub label_trace: bool,
}

impl Switches {
    /// How the pool is used.
    pub open spec fn rules(self) -> PoolRules {
        PoolRules {
            reuse: !self.no_pool_reuse,
            plain: self.plain_reuse,
            zero: !self.no_zero_reuse,
            sweep: !self.no_sweep,
        }
    }

    /// Requests for buffers are counted.
    pub open spec fn tracing(self) -> bool {
        self.dispatch_trace || self.label_trace
    }

    /// How the pool is used.
    pub fn pool_rules(self) -> (r: PoolRules)
        ensures
            r == self.rules(),
    {
        PoolRules {
            reuse: !self.no_pool_reuse,
            plain: self.plain_reuse,
            zero: !self.no_zero_reuse,
            sweep: !self.no_sweep,
        }
    }
}

// ---- counters ----

/// What has been counted.
pub struct Stats {
    pub wait_ns: u64,
    pub dispatches: u64,
    pub encoders: u64,
    pub allocs: u64,
    pub pool_hits: u64,
    pub zero_ns: u64,
    /// How often a buffer was asked for under each label.
    pub labels: Vec<(String, u64)>,
}

pub open spec fn label_views(v: Seq<(String, u64)>) -> Seq<(Seq<char>, u64)> {
    v.map_values(|e: (String, u64)| (e.0@, e.1))
}

/// The count of a label goes up by one; a new label is counted last.
pub open spec fn label_counted(v: Seq<(Seq<char>, u64)>, label: Seq<char>, i: int) -> Seq<
    (Seq<char>, u64),
>
    decreases v.len() - i,
{
    if i < 0 || i >= v.len() {
        v.push((label, 1))
    } else if v[i].0 == label {
        v.update(i, (label, (v[i].1 + 1) as u64))
    } else {
        label_counted(v, label, i + 1)
    }
}

impl Stats {
    pub open spec fn countable(self) -> bool {
        forall|i: int| 0 <= i < self.labels@.len() ==> (#[trigger] self.labels@[i]).1 < u64::MAX
    }

    /// Nothing has been counted yet.
    pub open spec fn untouched(self) -> bool {
        &&& self.wait_ns == 0
        &&& self.dispatches == 0
        &&& self.encoders == 0
        &&& self.allocs == 0
        &&& self.pool_hits == 0
        &&& self.zero_ns == 0
        &&& self.labels@.len() == 0
    }

    pub fn new() -> (s: Stats)
        ensures
            s.untouched(),
            s.countable(),
    {
        Stats {
            wait_ns: 0,
            dispatches: 0,
            encoders: 0,
            allocs: 0,
            pool_hits: 0,
            zero_ns: 0,
            labels: Vec::new(),
        }
    }

    /// Counts a label.
    fn count_label(&mut self, label: &str)
        requires
            old(self).countable(),
        ensures
            label_views(final(self).labels@) == label_counted(
                label_views(old(self).labels@),
                label@,
                0,
            ),
            final(self).wait_ns == old(self).wait_ns,
            final(self).dispatches == old(self).dispatches,
            final(self).encoders == old(self).encoders,
            final(self).allocs == old(self).allocs,
            final(self).pool_hits == old(self).pool_hits,
            final(self).zero_ns == old(self).zero_ns,
    {
        let ghost v = label_views(self.labels@);
        let mut i: usize = 0;
        while i < self.labels.len()
            invariant
                i <= self.labels@.len(),
                *self == *old(self),
                self.countable(),
                v == label_views(self.labels@),
                label_counted(v, label@, 0) == label_counted(v, label@, i as int),
            decreases self.labels.len() - i,
        {
            assert(v[i as int] == (self.labels@[i as int].0@, self.labels@[i as int].1));
            if same_text(&self.labels[i].0, label) {
                let n = self.labels[i].1;
                let e = (label.to_owned(), n + 1);
                self.labels.set(i, e);
                assert(label_views(self.labels@) =~= v.update(i as int, (label@, (n + 1) as u64)));
                return;
            }
            i += 1;
        }
        let e = (label.to_owned(), 1u64);
        self.labels.push(e);
        assert(label_views(self.labels@) =~= v.push((label@, 1)));
    }
}

/// The nanoseconds that were spent waiting.
pub fn runtime_wait_ns(s: &Stats) -> (n: u64)
    ensures
        n == s.wait_ns,
{
    s.wait_ns
}

pub fn runtime_dispatch_count(s: &Stats) -> (n: u64)
    ensures
        n == s.dispatches,
{
    s.dispatches
}

pub fn runtime_encoder_count(s: &Stats) -> (n: u64)
    ensures
        n == s.encoders,
{
    s.encoders
}

pub fn runtime_alloc_count(s: &Stats) -> (n: u64)
    ensures
        n == s.allocs,
{
    s.allocs
}

pub fn runtime_poolhit_count(s: &Stats) -> (n: u64)
    ensures
        n == s.pool_hits,
{
    s.pool_hits
}

pub fn runtime_zero_ns(s: &Stats) -> (n: u64)
    ensures
        n == s.zero_ns,
{
    s.zero_ns
}

/// How often a buffer was asked for under each label.
pub fn label_counts(s: &Stats) -> (v: Vec<(String, u64)>)
    ensures
        label_views(v@) == label_views(s.labels@),
{
    let ghost want = label_views(s.labels@);
    let mut v: Vec<(String, u64)> = Vec::new();
    let mut i: usize = 0;
    assert(label_views(v@) =~= want.take(0));
    while i < s.labels.len()
        invariant
            i <= s.labels@.len(),
            want == label_views(s.labels@),
            label_views(v@) == want.take(i as int),
        decreases s.labels.len() - i,
    {
        let e = (s.labels[i].0.clone(), s.labels[i].1);
        let ghost before = label_views(v@);
        v.push(e);
        assert(label_views(v@) =~= before.push((e.0@, e.1)));
        i += 1;
        assert(label_views(v@) =~= want.take(i as int));
    }
    assert(want.take(want.len() as int) =~= want);
    v
}

/// How often a buffer was asked for under each label.
pub fn runtime_label_counts(s: &Stats) -> (v: Vec<(String, u64)>)
    ensures
        label_views(v@) == label_views(s.labels@),
{
    label_counts(s)
}

// ---- compilation ----

/// The floating-point functions of a compiled program.
#[derive(Clone, Copy, PartialEq, Eq, Structural, Debug)]
pub enum MathFunctions {
    Precise,
    Fast,
}

/// What a program is compiled with.
#[derive(Clone, Copy, PartialEq, Eq, Structural, Debug)]
pub struct CompileOptions {
    /// Fast mathematics, or safe.
    pub fast: bool,
    /// The floating-point functions, if they are chosen at all.
    pub functions: Option<MathFunctions>,
    /// The language version, if it is chosen at all.
    pub language: Option<usize>,
}

/// The newest language version of a system release.
pub open spec fn language_version(system: u32) -> usize {
    if system >= 27 {
        262145
    } else if system >= 26 {
        262144
    } else {
        196610
    }
}

/// What a program is compiled with on a system release.
pub open spec fn options_of(math: Math, system: u32) -> CompileOptions {
    match math {
        Math::SafeNoLang => CompileOptions {
            fast: false,
            functions: Some(MathFunctions::Precise),
            language: None,
        },
        Math::Jit => CompileOptions {
            fast: false,
            functions: None,
            language: Some(language_version(system)),
        },
        Math::Safe => CompileOptions {
            fast: false,
            functions: Some(MathFunctions::Precise),
            language: Some(language_version(system)),
        },
        Math::Fast => CompileOptions {
            fast: true,
            functions: Some(MathFunctions::Fast),
            language: None,
        },
    }
}

/// What a program is compiled with on a system release.
pub fn compile_options(math: Math, system: u32) -> (o: CompileOptions)
    ensures
        o == options_of(math, system),
{
    let language: usize = if system >= 27 {
        262145
    } else if system >= 26 {
        262144
    } else {
        196610
    };
    match math {
        Math::SafeNoLang => CompileOptions {
            fast: false,
            functions: Some(MathFunctions::Precise),
            language: None,
        },
        Math::Jit => CompileOptions { fast: false, functions: None, language: Some(language) },
        Math::Safe => CompileOptions {
            fast: false,
            functions: Some(MathFunctions::Precise),
            language: Some(language),
        },
        Math::Fast => CompileOptions {
            fast: true,
            functions: Some(MathFunctions::Fast),
            language: None,
        },
    }
}

pub open spec fn math_name(math: Math) -> Seq<char> {
    match math {
        Math::Jit => "Jit"@,
        Math::Safe => "Safe"@,
        Math::SafeNoLang => "SafeNoLang"@,
        Math::Fast => "Fast"@,
    }
}

/// A function constant in a cache key.
pub open spec fn const_key(c: (usize, ConstVal)) -> Seq<char> {
    dec(c.0 as nat) + (match c.1 {
        ConstVal::Bool(b) => "Bool("@ + bool_text(b) + ")"@,
        ConstVal::Int(v) => "Int("@ + dec_int(v as int) + ")"@,
    })
}

pub open spec fn const_keys(v: Seq<(usize, ConstVal)>, k: int) -> Seq<char>
    decreases k,
{
    if k <= 0 {
        Seq::empty()
    } else {
        const_keys(v, k - 1) + const_key(v[k - 1])
    }
}

/// Under what a compiled program is kept: its name, how it is compiled, and its
/// function constants.
pub fn pipeline_key(name: &str, math: Math, consts: &Vec<(usize, ConstVal)>) -> (s: String)
    ensures
        s@ == name@ + "|"@ + math_name(math) + "|"@ + const_keys(
            consts@,
            consts@.len() as int,
        ),
{
    let m = match math {
        Math::Jit => "Jit",
        Math::Safe => "Safe",
        Math::SafeNoLang => "SafeNoLang",
        Math::Fast => "Fast",
    };
    let mut keys = String::new();
    assert(keys@ =~= Seq::empty());
    let mut i: usize = 0;
    while i < consts.len()
        invariant
            i <= consts@.len(),
            keys@ == const_keys(consts@, i as int),
        decreases consts.len() - i,
    {
        let (at, v) = consts[i];
        let n = decimal_usize(at);
        let t = match v {
            ConstVal::Bool(b) => cat3("Bool(", bool_str(b), ")"),
            ConstVal::Int(x) => {
                let d = decimal_i32(x);
                cat3("Int(", &d, ")")
            },
        };
        let e = cat2(&n, &t);
        keys.append(&e);
        i += 1;
    }
    let mut s = cat4(name, "|", m, "|");
    s.append(&keys);
    s
}

// ---- buffers ----

/// Where a requested buffer comes from.
#[derive(Clone, Copy, PartialEq, Eq, Structural, Debug)]
pub enum Allocation {
    /// A pooled buffer, by its place and its name, cleared or not.
    Reused(Taken),
    /// A new buffer of a length, cleared or not.
    Fresh { id: u64, len: usize, zero: bool },
}

/// The runtime, as far as it can be told without a device.
pub struct MetalRuntime {
    pub pool: BufferPool,
    pub commands: Commands,
    pub stats: Stats,
    pub switches: Switches,
    pub next_buffer: u64,
}

impl MetalRuntime {
    pub open spec fn wf(self) -> bool {
        &&& self.pool.wf()
        &&& self.commands@.wf()
        &&& forall|i: int|
            0 <= i < self.pool.buffers@.len() ==> (#[trigger] self.pool.buffers@[i]).id
                < self.next_buffer
    }

    /// A runtime before its first use: its pool is empty and without a limit, no
    /// command buffer has completed, and nothing has been counted.
    pub open spec fn unused(self, per_buffer: usize, switches: Switches) -> bool {
        &&& self.wf()
        &&& self.switches == switches
        &&& self.pool.buffers@ == Seq::<Buffer>::empty()
        &&& self.pool.bytes == 0
        &&& self.pool.limit == 0
        &&& self.commands.per_buffer == (if per_buffer > 1 {
            per_buffer
        } else {
            1
        })
        &&& self.commands@.completed.watermark == 0
        &&& self.stats.untouched()
        &&& self.stats.countable()
        &&& self.next_buffer == 1
    }

    /// A runtime whose command buffers may each be used so often.
    pub fn new(per_buffer: usize, switches: Switches) -> (r: MetalRuntime)
        ensures
            r.unused(per_buffer, switches),
    {
        MetalRuntime {
            pool: BufferPool::new(),
            commands: Commands::new(per_buffer),
            stats: Stats::new(),
            switches,
            next_buffer: 1,
        }
    }

    /// The pool after it has been looked through for what is above its limit.
    pub open spec fn swept(self) -> Seq<Buffer> {
        swept_pool(self.pool.buffers@, self.pool.limit, self.switches.rules())
    }

    /// Finds a buffer of at least so many bytes: a pooled one that is at rest, or
    /// a new one that joins the pool.
    pub fn buffer(&mut self, bytes: usize, label: &str) -> (a: Allocation)
        requires
            old(self).wf(),
            old(self).stats.countable(),
            old(self).next_buffer < u64::MAX,
            old(self).pool.bytes + bucket(bytes) <= usize::MAX,
        ensures
            final(self).wf(),
            final(self).switches == old(self).switches,
            final(self).commands == old(self).commands,
            final(self).pool.limit == old(self).pool.limit,
            ({
                let pool = old(self).swept();
                let rules = old(self).switches.rules();
                let done = old(self).commands@.completed.watermark;
                match a {
                    Allocation::Reused(t) => {
                        &&& rules.reuse
                        &&& is_best(pool, bytes, done, rules.plain, t.place as int)
                        &&& t.id == pool[t.place as int].id
                        &&& t.zero == rules.zero
                        &&& final(self).pool.buffers@ == pool.update(
                            t.place as int,
                            Buffer { held: true, ..pool[t.place as int] },
                        )
                        &&& final(self).next_buffer == old(self).next_buffer
                    },
                    Allocation::Fresh { id, len, zero } => {
                        &&& rules.reuse ==> forall|j: int|
                            0 <= j < pool.len() ==> !takable(
                                #[trigger] pool[j],
                                bytes,
                                done,
                                rules.plain,
                            )
                        &&& id == old(self).next_buffer
                        &&& len == bucket(bytes)
                        &&& zero == rules.zero
                        &&& final(self).pool.buffers@ == pool.push(
                            Buffer { id, len, used_cb: 0, held: true },
                        )
                        &&& final(self).next_buffer == old(self).next_buffer + 1
                    },
                }
            }),
            ({
                let s = old(self).switches;
                let one: int = if s.tracing() {
                    1
                } else {
                    0
                };
                let hit: int = if s.tracing() && a is Reused {
                    1
                } else {
                    0
                };
                &&& final(self).stats.allocs == (old(self).stats.allocs + one)
                    % 0x1_0000_0000_0000_0000
                &&& final(self).stats.pool_hits == (old(self).stats.pool_hits + hit)
                    % 0x1_0000_0000_0000_0000
                &&& label_views(final(self).stats.labels@) == (if s.label_trace {
                    label_counted(label_views(old(self).stats.labels@), label@, 0)
                } else {
                    label_views(old(self).stats.labels@)
                })
            }),
    {
        let tracing = self.switches.dispatch_trace || self.switches.label_trace;
        if tracing {
            self.stats.allocs = self.stats.allocs.wrapping_add(1);
            if self.switches.label_trace {
                self.stats.count_label(label);
            }
        }
        let rules = self.switches.pool_rules();
        let ghost whole = self.pool.buffers@;
        self.pool.sweep_if_over(rules);
        let ghost pool = self.pool.buffers@;
        proof {
            crate::pool::lemma_swept(whole, self.pool.limit, rules);
            assert forall|i: int| 0 <= i < pool.len() implies (#[trigger] pool[i]).id
                < self.next_buffer by {
                assert(whole.contains(pool[i]));
            }
        }
        let done = self.commands.completed_watermark();
        match self.pool.take(bytes, done, rules) {
            Some(t) => {
                if tracing {
                    self.stats.pool_hits = self.stats.pool_hits.wrapping_add(1);
                }
                Allocation::Reused(t)
            },
            None => {
                let len = bucket_size(bytes);
                let id = self.next_buffer;
                self.next_buffer = id + 1;
                self.pool.put(id, len);
                Allocation::Fresh { id, len, zero: rules.zero }
            },
        }
    }
}

// ---- memory ----

/// When the pool is trimmed.
#[derive(Clone, Copy, PartialEq, Eq, Structural, Debug)]
pub struct CacheState {
    /// How far the pool may grow past its baseline; zero is no limit.
    pub limit: usize,
    /// The bytes of the pool when it was first looked at; zero is none yet.
    pub baseline: usize,
}

/// Sets how far the pool may grow past its baseline; zero is no limit.
pub fn set_cache_limit(c: &mut CacheState, bytes: usize)
    ensures
        *final(c) == (CacheState { limit: bytes, ..*old(c) }),
{
    c.limit = bytes;
}

/// Gives back every buffer that nobody holds, once everything that was committed
/// has been waited for: what to commit, what to wait for, and the bytes.
pub fn clear_cache(rt: &mut MetalRuntime) -> (r: (Option<u64>, Vec<u64>, usize))
    requires
        old(rt).wf(),
        old(rt).commands.current_id < u64::MAX - 1,
    ensures
        final(rt).wf(),
        (final(rt).commands@, r.1@) == old(rt).commands@.drained(),
        r.0 == (if old(rt).commands@.busy() {
            Some(old(rt).commands.current_id)
        } else {
            None
        }),
        final(rt).pool.buffers@ == held_ones(old(rt).pool.buffers@),
        final(rt).pool.limit == old(rt).pool.limit,
        r.2 == old(rt).pool.bytes - final(rt).pool.bytes,
        final(rt).next_buffer == old(rt).next_buffer,
        final(rt).stats == old(rt).stats,
        final(rt).switches == old(rt).switches,
{
    let (commit, waiting) = rt.commands.begin_flush();
    let ghost whole = rt.pool.buffers@;
    let freed = rt.pool.sweep();
    proof {
        crate::pool::lemma_held(whole);
        assert forall|i: int| 0 <= i < rt.pool.buffers@.len() implies (
        #[trigger] rt.pool.buffers@[i]).id < rt.next_buffer by {
            assert(whole.contains(rt.pool.buffers@[i]));
        }
    }
    (commit, waiting, freed)
}

/// Whether the pool has grown too far. The first look only notes how large it is.
pub fn trim_cache(c: &mut CacheState, bytes: usize) -> (clear: bool)
    ensures
        clear == (old(c).limit != 0 && old(c).baseline != 0 && bytes > old(c).baseline
            + old(c).limit),
        *final(c) == (CacheState {
            baseline: if old(c).limit != 0 && old(c).baseline == 0 {
                bytes
            } else {
                old(c).baseline
            },
            ..*old(c)
        }),
{
    if c.limit == 0 {
        return false;
    }
    if c.baseline == 0 {
        c.baseline = bytes;
        return false;
    }
    match c.baseline.checked_add(c.limit) {
        Some(most) => bytes > most,
        None => false,
    }
}

/// The bytes of the pool: the runtime owns all that is allocated.
pub fn active_memory(rt: &MetalRuntime) -> (r: Result<usize, Error>)
    ensures
        r == Ok::<usize, Error>(rt.pool.bytes),
{
    Ok(rt.pool.bytes())
}

/// No high-water mark is kept: the bytes of the pool.
pub fn peak_memory(rt: &MetalRuntime) -> (r: Result<usize, Error>)
    ensures
        r == Ok::<usize, Error>(rt.pool.bytes),
{
    active_memory(rt)
}

pub fn cache_memory() -> (r: Result<usize, Error>)
    ensures
        r == Ok::<usize, Error>(0),
{
    Ok(0)
}

/// Zero: no limit is known.
pub fn memory_limit() -> (r: Result<usize, Error>)
    ensures
        r == Ok::<usize, Error>(0),
{
    Ok(0)
}

// ---- streams ----

/// A stream: the runtime whose queue it feeds.
pub struct Stream {
    pub rt: MetalRuntime,
}

/// How often a command buffer may be used, from its setting.
pub open spec fn per_buffer_of(setting: Option<&str>) -> usize {
    match setting {
        Some(s) => match whole_size(s@) {
            Some(n) => n,
            None => 16,
        },
        None => 16,
    }
}

impl Stream {
    /// The stream of a new runtime.
    pub fn gpu(setting: Option<&str>, switches: Switches) -> (s: Stream)
        ensures
            s.rt.unused(per_buffer_of(setting), switches),
    {
        let n: usize = match setting {
            Some(t) => {
                let c = crate::text::chars_of(t);
                match crate::http::parse_size(&c) {
                    Some(n) => n,
                    None => 16,
                }
            },
            None => 16,
        };
        Stream { rt: MetalRuntime::new(n, switches) }
    }

    /// The stream of a new runtime.
    pub fn thread_local_or_default(setting: Option<&str>, switches: Switches) -> (s: Stream)
        ensures
            s.rt.unused(per_buffer_of(setting), switches),
    {
        Stream::gpu(setting, switches)
    }

    /// The runtime, which is the only device.
    pub fn device(&self) -> (rt: &MetalRuntime)
        ensures
            *rt == self.rt,
    {
        &self.rt
    }

    pub fn runtime(&self) -> (rt: &MetalRuntime)
        ensures
            *rt == self.rt,
    {
        &self.rt
    }
}

} // verus!
