//! The buffer pool: which buffer is used again, and what is given back.

use vstd::prelude::*;

use crate::tape::{ceil_div, div_up, max_int};

verus! {

/// Buffers come in multiples of this.
pub const BUCKET: usize = 1024;

/// A size filled up to whole buckets; at least one.
pub open spec fn bucket(size: usize) -> int {
    ceil_div(max_int(size as int, 1), BUCKET as int) * BUCKET
}

/// A size filled up to whole buckets, so that similar sizes share a buffer.
pub fn bucket_size(size: usize) -> (b: usize)
    requires
        bucket(size) <= usize::MAX,
    ensures
        b == bucket(size),
        b >= size,
        b > 0,
        b % BUCKET == 0,
{
    let n: usize = if size > 1 {
        size
    } else {
        1
    };
    let q = div_up(n, BUCKET);
    assert((q * 1024) % 1024 == 0) by (nonlinear_arith);
    q * BUCKET
}

/// A buffer of the pool.
#[derive(Clone, Copy, PartialEq, Eq, Structural, Debug)]
pub struct Buffer {
    pub id: u64,
    pub len: usize,
    /// The last command buffer that it was bound in; none is zero.
    pub used_cb: u64,
    /// Somebody besides the pool holds it.
    pub held: bool,
}

impl Buffer {
    /// The last command buffer that touched it, if any, has completed.
    pub open spec fn settled(self, completed: u64) -> bool {
        self.used_cb == 0 || self.used_cb <= completed
    }

    /// Notes a command buffer that it is bound in.
    pub fn mark_used_cb(&mut self, cb: u64)
        ensures
            *final(self) == (Buffer {
                used_cb: max_int(old(self).used_cb as int, cb as int) as u64,
                ..*old(self)
            }),
    {
        if cb > self.used_cb {
            self.used_cb = cb;
        }
    }

    /// Whether the last command buffer that touched it has completed.
    pub fn reusable_after(&self, completed: u64) -> (b: bool)
        ensures
            b == self.settled(completed),
    {
        self.used_cb == 0 || self.used_cb <= completed
    }

    pub fn id(&self) -> (id: u64)
        ensures
            id == self.id,
    {
        self.id
    }

    pub fn length(&self) -> (n: usize)
        ensures
            n == self.len,
    {
        self.len
    }
}

/// How the pool is used.
#[derive(Clone, Copy, PartialEq, Eq, Structural, Debug)]
pub struct PoolRules {
    /// Buffers are used again.
    pub reuse: bool,
    /// A buffer may be used again before its command buffer has completed.
    pub plain: bool,
    /// Buffers are cleared.
    pub zero: bool,
    /// Buffers are given back above the limit.
    pub sweep: bool,
}

/// The buffer can be taken for a size.
pub open spec fn takable(b: Buffer, size: usize, completed: u64, plain: bool) -> bool {
    !b.held && (plain || b.settled(completed)) && b.len >= size
}

/// The bytes of buffers.
pub open spec fn total(v: Seq<Buffer>) -> int
    decreases v.len(),
{
    if v.len() == 0 {
        0
    } else {
        total(v.drop_last()) + v.last().len
    }
}

/// The buffers that somebody holds.
pub open spec fn held_ones(v: Seq<Buffer>) -> Seq<Buffer>
    decreases v.len(),
{
    if v.len() == 0 {
        Seq::empty()
    } else if v.last().held {
        held_ones(v.drop_last()).push(v.last())
    } else {
        held_ones(v.drop_last())
    }
}

/// A pool of buffers that counts its bytes.
pub struct BufferPool {
    /// The buffers, in the order in which they came.
    pub buffers: Vec<Buffer>,
    pub bytes: usize,
    /// The bytes above which buffers are given back; zero is no limit.
    pub limit: usize,
}

/// A buffer that the pool hands out.
#[derive(Clone, Copy, PartialEq, Eq, Structural, Debug)]
pub struct Taken {
    /// Its place in the pool.
    pub place: usize,
    pub id: u64,
    /// It is cleared first.
    pub zero: bool,
}

/// The buffer at a place is the first of the smallest that can be taken.
pub open spec fn is_best(
    v: Seq<Buffer>,
    size: usize,
    completed: u64,
    plain: bool,
    i: int,
) -> bool {
    &&& 0 <= i < v.len()
    &&& takable(v[i], size, completed, plain)
    &&& forall|j: int|
        0 <= j < v.len() && takable(#[trigger] v[j], size, completed, plain) ==> v[i].len
            < v[j].len || (v[i].len == v[j].len && i <= j)
}

impl BufferPool {
    /// The bytes are those of the buffers, buffers come in whole buckets, and no
    /// two have the same name.
    pub open spec fn wf(self) -> bool {
        &&& self.bytes == total(self.buffers@)
        &&& forall|i: int|
            0 <= i < self.buffers@.len() ==> (#[trigger] self.buffers@[i]).len > 0
                && self.buffers@[i].len % BUCKET == 0
        &&& forall|i: int, j: int|
            0 <= i < j < self.buffers@.len() ==> (#[trigger] self.buffers@[i]).id != (
            #[trigger] self.buffers@[j]).id
    }

    pub fn new() -> (p: BufferPool)
        ensures
            p.wf(),
            p.buffers@ == Seq::<Buffer>::empty(),
            p.bytes == 0,
            p.limit == 0,
    {
        BufferPool { buffers: Vec::new(), bytes: 0, limit: 0 }
    }

    /// Sets the bytes above which buffers are given back; zero is no limit.
    pub fn set_limit(&mut self, bytes: usize)
        ensures
            final(self).limit == bytes,
            final(self).buffers == old(self).buffers,
            final(self).bytes == old(self).bytes,
    {
        self.limit = bytes;
    }

    pub fn bytes(&self) -> (n: usize)
        ensures
            n == self.bytes,
    {
        self.bytes
    }

    /// Takes the smallest free buffer that holds a size and whose last command
    /// buffer has completed. What it held before is to be cleared: a kernel may
    /// read what nothing has written since.
    pub fn take(&mut self, size: usize, completed: u64, rules: PoolRules) -> (r: Option<Taken>)
        requires
            old(self).wf(),
        ensures
            final(self).wf(),
            final(self).limit == old(self).limit,
            match r {
                Some(t) => {
                    &&& rules.reuse
                    &&& is_best(old(self).buffers@, size, completed, rules.plain, t.place as int)
                    &&& t.id == old(self).buffers@[t.place as int].id
                    &&& t.zero == rules.zero
                    &&& final(self).buffers@ == old(self).buffers@.update(
                        t.place as int,
                        Buffer { held: true, ..old(self).buffers@[t.place as int] },
                    )
                },
                None => {
                    &&& final(self).buffers@ == old(self).buffers@
                    &&& rules.reuse ==> forall|j: int|
                        0 <= j < old(self).buffers@.len() ==> !takable(
                            #[trigger] old(self).buffers@[j],
                            size,
                            completed,
                            rules.plain,
                        )
                },
            },
    {
        if !rules.reuse {
            return None;
        }
        let mut best: Option<usize> = None;
        let mut i: usize = 0;
        while i < self.buffers.len()
            invariant
                i <= self.buffers@.len(),
                *self == *old(self),
                match best {
                    Some(k) => k < i && takable(
                        self.buffers@[k as int],
                        size,
                        completed,
                        rules.plain,
                    ) && forall|j: int|
                        0 <= j < i && takable(
                            #[trigger] self.buffers@[j],
                            size,
                            completed,
                            rules.plain,
                        ) ==> self.buffers@[k as int].len < self.buffers@[j].len || (
                        self.buffers@[k as int].len == self.buffers@[j].len && k <= j),
                    None => forall|j: int|
                        0 <= j < i ==> !takable(
                            #[trigger] self.buffers@[j],
                            size,
                            completed,
                            rules.plain,
                        ),
                },
            decreases self.buffers.len() - i,
        {
            let b = self.buffers[i];
            if !b.held && (rules.plain || b.reusable_after(completed)) && b.len >= size {
                match best {
                    Some(k) => {
                        if b.len < self.buffers[k].len {
                            best = Some(i);
                        }
                    },
                    None => {
                        best = Some(i);
                    },
                }
            }
            i += 1;
        }
        match best {
            Some(k) => {
                let b = self.buffers[k];
                let held = Buffer { held: true, ..b };
                proof {
                    lemma_total_update(self.buffers@, k as int, held);
                }
                self.buffers.set(k, held);
                Some(Taken { place: k, id: b.id, zero: rules.zero })
            },
            None => None,
        }
    }

    /// Adds a new buffer, which somebody holds.
    pub fn put(&mut self, id: u64, len: usize)
        requires
            old(self).wf(),
            len > 0,
            len % BUCKET == 0,
            old(self).bytes + len <= usize::MAX,
            forall|i: int|
                0 <= i < old(self).buffers@.len() ==> (#[trigger] old(self).buffers@[i]).id != id,
        ensures
            final(self).wf(),
            final(self).limit == old(self).limit,
            final(self).bytes == old(self).bytes + len,
            final(self).buffers@ == old(self).buffers@.push(
                Buffer { id, len, used_cb: 0, held: true },
            ),
    {
        let b = Buffer { id, len, used_cb: 0, held: true };
        let ghost before = self.buffers@;
        self.bytes = self.bytes + len;
        self.buffers.push(b);
        assert(self.buffers@.drop_last() =~= before);
    }

    /// The place of a buffer.
    fn place(&self, id: u64) -> (r: Option<usize>)
        ensures
            match r {
                Some(p) => p < self.buffers@.len() && self.buffers@[p as int].id == id,
                None => forall|i: int|
                    0 <= i < self.buffers@.len() ==> (#[trigger] self.buffers@[i]).id != id,
            },
    {
        let mut i: usize = 0;
        while i < self.buffers.len()
            invariant
                i <= self.buffers@.len(),
                forall|j: int| 0 <= j < i ==> (#[trigger] self.buffers@[j]).id != id,
            decreases self.buffers.len() - i,
        {
            if self.buffers[i].id == id {
                return Some(i);
            }
            i += 1;
        }
        None
    }

    /// Nobody but the pool holds the buffer any more.
    pub fn release(&mut self, id: u64)
        requires
            old(self).wf(),
        ensures
            final(self).wf(),
            final(self).limit == old(self).limit,
            final(self).buffers@ == released(old(self).buffers@, id),
    {
        match self.place(id) {
            Some(p) => {
                let b = Buffer { held: false, ..self.buffers[p] };
                proof {
                    lemma_total_update(self.buffers@, p as int, b);
                }
                self.buffers.set(p, b);
            },
            None => {},
        }
        assert(self.buffers@ =~= released(old(self).buffers@, id));
    }

    /// Notes the command buffer that a buffer is bound in.
    pub fn mark_used_cb(&mut self, id: u64, cb: u64)
        requires
            old(self).wf(),
        ensures
            final(self).wf(),
            final(self).limit == old(self).limit,
            final(self).buffers@ == marked(old(self).buffers@, id, cb),
    {
        match self.place(id) {
            Some(p) => {
                let mut b = self.buffers[p];
                b.mark_used_cb(cb);
                proof {
                    lemma_total_update(self.buffers@, p as int, b);
                }
                self.buffers.set(p, b);
            },
            None => {},
        }
        assert(self.buffers@ =~= marked(old(self).buffers@, id, cb));
    }

    /// Gives back every buffer that nobody holds; the bytes that they had.
    pub fn sweep(&mut self) -> (freed: usize)
        requires
            old(self).wf(),
        ensures
            final(self).wf(),
            final(self).limit == old(self).limit,
            final(self).buffers@ == held_ones(old(self).buffers@),
            freed == old(self).bytes - final(self).bytes,
    {
        let ghost all = self.buffers@;
        let mut kept: Vec<Buffer> = Vec::new();
        let mut bytes: usize = 0;
        let mut i: usize = 0;
        while i < self.buffers.len()
            invariant
                i <= self.buffers@.len(),
                *self == *old(self),
                all == self.buffers@,
                self.bytes == total(all),
                kept@ == held_ones(all.take(i as int)),
                bytes == total(kept@),
                bytes <= total(all.take(i as int)),
            decreases self.buffers.len() - i,
        {
            proof {
                assert(all.take(i + 1).drop_last() =~= all.take(i as int));
                lemma_total_prefix(all, i + 1);
            }
            let b = self.buffers[i];
            if b.held {
                let ghost before = kept@;
                bytes = bytes + b.len;
                kept.push(b);
                assert(kept@.drop_last() =~= before);
            }
            i += 1;
        }
        assert(all.take(all.len() as int) =~= all);
        let freed = self.bytes - bytes;
        proof {
            lemma_held_ones(all);
        }
        self.buffers = kept;
        self.bytes = bytes;
        freed
    }

    /// Gives buffers back once the pool holds more than its limit; whether it
    /// did.
    pub fn sweep_if_over(&mut self, rules: PoolRules) -> (swept: bool)
        requires
            old(self).wf(),
        ensures
            final(self).wf(),
            final(self).limit == old(self).limit,
            swept == is_over(old(self).buffers@, old(self).limit, rules),
            final(self).buffers@ == swept_pool(old(self).buffers@, old(self).limit, rules),
    {
        if rules.sweep && self.limit != 0 && self.bytes > self.limit {
            self.sweep();
            return true;
        }
        false
    }
}

/// Buffers are more than a limit allows.
pub open spec fn is_over(v: Seq<Buffer>, limit: usize, rules: PoolRules) -> bool {
    rules.sweep && limit != 0 && total(v) > limit
}

/// The buffers that are left when those above a limit are given back.
pub open spec fn swept_pool(v: Seq<Buffer>, limit: usize, rules: PoolRules) -> Seq<Buffer> {
    if is_over(v, limit, rules) {
        held_ones(v)
    } else {
        v
    }
}

/// The buffers after one has been let go.
pub open spec fn released(v: Seq<Buffer>, id: u64) -> Seq<Buffer> {
    v.map_values(
        |b: Buffer|
            if b.id == id {
                Buffer { held: false, ..b }
            } else {
                b
            },
    )
}

/// The buffers after one has been bound.
pub open spec fn marked(v: Seq<Buffer>, id: u64, cb: u64) -> Seq<Buffer> {
    v.map_values(
        |b: Buffer|
            if b.id == id {
                Buffer { used_cb: max_int(b.used_cb as int, cb as int) as u64, ..b }
            } else {
                b
            },
    )
}

proof fn lemma_total_update(v: Seq<Buffer>, i: int, b: Buffer)
    requires
        0 <= i < v.len(),
        b.len == v[i].len,
    ensures
        total(v.update(i, b)) == total(v),
    decreases v.len(),
{
    if i == v.len() - 1 {
        assert(v.update(i, b).drop_last() =~= v.drop_last());
    } else {
        assert(v.update(i, b).drop_last() =~= v.drop_last().update(i, b));
        lemma_total_update(v.drop_last(), i, b);
    }
}

proof fn lemma_total_prefix(v: Seq<Buffer>, k: int)
    requires
        0 <= k <= v.len(),
    ensures
        0 <= total(v.take(k)) <= total(v),
    decreases v.len(),
{
    if k == v.len() {
        assert(v.take(k) =~= v);
        if v.len() > 0 {
            lemma_total_prefix(v.drop_last(), k - 1);
            assert(v.drop_last().take(k - 1) =~= v.drop_last());
        }
    } else {
        assert(v.drop_last().take(k) =~= v.take(k));
        lemma_total_prefix(v.drop_last(), k);
    }
}

proof fn lemma_held_ones(v: Seq<Buffer>)
    ensures
        total(held_ones(v)) <= total(v),
        forall|i: int|
            0 <= i < held_ones(v).len() ==> v.contains(#[trigger] held_ones(v)[i])
                && held_ones(v)[i].held,
        (forall|i: int, j: int|
            0 <= i < j < v.len() ==> (#[trigger] v[i]).id != (#[trigger] v[j]).id) ==> (forall|
            i: int,
            j: int,
        |
            0 <= i < j < held_ones(v).len() ==> (#[trigger] held_ones(v)[i]).id != (
            #[trigger] held_ones(v)[j]).id),
    decreases v.len(),
{
    if v.len() > 0 {
        let w = v.drop_last();
        lemma_held_ones(w);
        let h = held_ones(w);
        let r = held_ones(v);
        assert forall|i: int| 0 <= i < r.len() implies v.contains(#[trigger] r[i])
            && r[i].held by {
            if i < h.len() {
                assert(r[i] == h[i]);
                let p = choose|p: int| 0 <= p < w.len() && w[p] == h[i];
                assert(v[p] == h[i]);
            } else {
                assert(v[v.len() - 1] == r[i]);
            }
        }
        if v.last().held {
            assert(r.drop_last() =~= h);
        }
        if forall|i: int, j: int|
            0 <= i < j < v.len() ==> (#[trigger] v[i]).id != (#[trigger] v[j]).id {
            assert forall|i: int, j: int| 0 <= i < j < w.len() implies (#[trigger] w[i]).id != (
            #[trigger] w[j]).id by {
                assert(v[i].id != v[j].id);
            }
            assert forall|i: int, j: int| 0 <= i < j < r.len() implies (#[trigger] r[i]).id != (
            #[trigger] r[j]).id by {
                assert(r[i] == h[i]);
                if j < h.len() {
                    assert(r[j] == h[j]);
                } else {
                    assert(w.contains(h[i]));
                    let p = choose|p: int| 0 <= p < w.len() && w[p] == h[i];
                    assert(v[p] == h[i]);
                    assert(v[v.len() - 1] == r[j]);
                    assert(v[p].id != v[v.len() - 1].id);
                }
            }
        }
    }
}

/// What is held was in the pool.
pub proof fn lemma_held(v: Seq<Buffer>)
    ensures
        forall|i: int| 0 <= i < held_ones(v).len() ==> v.contains(#[trigger] held_ones(v)[i]),
        total(held_ones(v)) <= total(v),
{
    lemma_held_ones(v);
}

/// What is left was in the pool.
pub proof fn lemma_swept(v: Seq<Buffer>, limit: usize, rules: PoolRules)
    ensures
        forall|i: int|
            0 <= i < swept_pool(v, limit, rules).len() ==> v.contains(
                #[trigger] swept_pool(v, limit, rules)[i],
            ),
        total(swept_pool(v, limit, rules)) <= total(v),
{
    lemma_held_ones(v);
}

/// A buffer that the pool hands out holds the size, is in nobody's hands, and is
/// no longer used by a command buffer.
pub proof fn taken_buffers_are_idle(v: Seq<Buffer>, size: usize, completed: u64, i: int)
    requires
        is_best(v, size, completed, false, i),
    ensures
        v[i].len >= size,
        !v[i].held,
        v[i].used_cb == 0 || v[i].used_cb <= completed,
{
}

/// At most one buffer can be the one that is handed out.
pub proof fn best_is_unique(
    v: Seq<Buffer>,
    size: usize,
    completed: u64,
    plain: bool,
    i: int,
    j: int,
)
    requires
        is_best(v, size, completed, plain, i),
        is_best(v, size, completed, plain, j),
    ensures
        i == j,
{
}

/// A buffer that was let go and has come to rest is handed out again for its own
/// size.
pub proof fn released_buffers_are_used_again(
    v: Seq<Buffer>,
    i: int,
    size: usize,
    completed: u64,
)
    requires
        0 <= i < v.len(),
        v[i].settled(completed),
        v[i].len >= size,
    ensures
        takable(released(v, v[i].id)[i], size, completed, false),
{
}

/// A pool is within its limit once it has been looked through, as long as what
/// somebody holds is.
pub proof fn swept_pool_is_within_its_limit(v: Seq<Buffer>, limit: usize, rules: PoolRules)
    requires
        rules.sweep,
        limit != 0,
        total(held_ones(v)) <= limit,
    ensures
        total(swept_pool(v, limit, rules)) <= limit,
{
}

/// What somebody holds is never given back.
pub proof fn held_buffers_stay(v: Seq<Buffer>, limit: usize, rules: PoolRules, i: int)
    requires
        0 <= i < v.len(),
        v[i].held,
    ensures
        swept_pool(v, limit, rules).contains(v[i]),
{
    lemma_held_stay(v, i);
    assert(v.contains(v[i]));
}

proof fn lemma_held_stay(v: Seq<Buffer>, i: int)
    requires
        0 <= i < v.len(),
        v[i].held,
    ensures
        held_ones(v).contains(v[i]),
    decreases v.len(),
{
    let r = held_ones(v);
    if i == v.len() - 1 {
        assert(r[r.len() - 1] == v[i]);
    } else {
        let w = v.drop_last();
        lemma_held_stay(w, i);
        let h = held_ones(w);
        let p = choose|p: int| 0 <= p < h.len() && h[p] == w[i];
        assert(r[p] == v[i]);
    }
}

} // verus!
