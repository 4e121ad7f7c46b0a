//! Hazards: where dispatches of one session need a barrier between them, and
//! which fences a session waits for.

use vstd::prelude::*;

verus! {

// ---- sets of buffers ----

/// A set of buffers.
pub struct IdSet {
    pub items: Vec<u64>,
}

impl View for IdSet {
    type V = Set<u64>;

    open spec fn view(&self) -> Set<u64> {
        self.items@.to_set()
    }
}

impl IdSet {
    pub fn new() -> (s: IdSet)
        ensures
            s@ == Set::<u64>::empty(),
    {
        let s = IdSet { items: Vec::new() };
        assert(s@ =~= Set::<u64>::empty());
        s
    }

    pub fn contains(&self, id: u64) -> (b: bool)
        ensures
            b == self@.contains(id),
    {
        let mut i: usize = 0;
        while i < self.items.len()
            invariant
                i <= self.items@.len(),
                forall|j: int| 0 <= j < i ==> self.items@[j] != id,
            decreases self.items.len() - i,
        {
            if self.items[i] == id {
                assert(self.items@.contains(id));
                return true;
            }
            i += 1;
        }
        false
    }

    pub fn insert(&mut self, id: u64)
        ensures
            final(self)@ == old(self)@.insert(id),
    {
        let ghost before = self.items@;
        if !self.contains(id) {
            self.items.push(id);
            assert forall|x: u64| self.items@.contains(x) <==> before.contains(x) || x == id by {
                if before.contains(x) {
                    let p = choose|p: int| 0 <= p < before.len() && before[p] == x;
                    assert(self.items@[p] == x);
                }
                if x == id {
                    assert(self.items@[before.len() as int] == x);
                }
            }
        }
        assert(self@ =~= before.to_set().insert(id));
    }

    /// Takes a buffer out; whether it was there.
    pub fn remove(&mut self, id: u64) -> (found: bool)
        ensures
            final(self)@ == old(self)@.remove(id),
            found == old(self)@.contains(id),
    {
        let found = self.contains(id);
        let ghost all = self.items@;
        let mut kept: Vec<u64> = Vec::new();
        let mut i: usize = 0;
        while i < self.items.len()
            invariant
                i <= self.items@.len(),
                all == self.items@,
                all == old(self).items@,
                forall|x: u64| #[trigger]
                    kept@.contains(x) <==> all.take(i as int).contains(x) && x != id,
            decreases self.items.len() - i,
        {
            let y = self.items[i];
            let ghost before = kept@;
            if y != id {
                kept.push(y);
            }
            proof {
                let a = all.take(i as int);
                let b = all.take(i + 1);
                assert forall|x: u64| #[trigger] kept@.contains(x) <==> b.contains(x) && x != id by {
                    if before.contains(x) {
                        let p = choose|p: int| 0 <= p < before.len() && before[p] == x;
                        assert(kept@[p] == x);
                        let q = choose|q: int| 0 <= q < a.len() && a[q] == x;
                        assert(b[q] == x);
                    }
                    if kept@.contains(x) {
                        let p = choose|p: int| 0 <= p < kept@.len() && kept@[p] == x;
                        if p < before.len() {
                            assert(before[p] == x);
                        } else {
                            assert(b[i as int] == x);
                        }
                    }
                    if b.contains(x) && x != id {
                        let q = choose|q: int| 0 <= q < b.len() && b[q] == x;
                        if q < a.len() {
                            assert(a[q] == x);
                        } else {
                            assert(kept@[before.len() as int] == x);
                        }
                    }
                }
            }
            i += 1;
        }
        assert(all.take(all.len() as int) =~= all);
        self.items = kept;
        assert(self@ =~= all.to_set().remove(id));
        found
    }

    /// Adds all of another set.
    pub fn add_all(&mut self, other: &IdSet)
        ensures
            final(self)@ == old(self)@.union(other@),
    {
        let ghost before = self@;
        let mut i: usize = 0;
        assert(before =~= before.union(other.items@.take(0).to_set()));
        while i < other.items.len()
            invariant
                i <= other.items@.len(),
                self@ == before.union(other.items@.take(i as int).to_set()),
            decreases other.items.len() - i,
        {
            let id = other.items[i];
            self.insert(id);
            proof {
                let a = other.items@.take(i as int);
                let b = other.items@.take(i + 1);
                assert forall|x: u64| b.contains(x) <==> a.contains(x) || x == id by {
                    if a.contains(x) {
                        let p = choose|p: int| 0 <= p < a.len() && a[p] == x;
                        assert(b[p] == x);
                    }
                    if x == id {
                        assert(b[i as int] == x);
                    }
                    if b.contains(x) && x != id {
                        let p = choose|p: int| 0 <= p < b.len() && b[p] == x;
                        assert(a[p] == x);
                    }
                }
                assert(self@ =~= before.union(b.to_set()));
            }
            i += 1;
        }
        assert(other.items@.take(other.items@.len() as int) =~= other.items@);
    }
}

// ---- barriers ----

/// What a session has read and written: by the dispatches since the last barrier,
/// and by the one that is being prepared.
pub struct EncoderState {
    pub prev_outputs: IdSet,
    pub next_outputs: IdSet,
    pub prev_inputs: IdSet,
    pub next_inputs: IdSet,
    pub needs_barrier: bool,
    /// Everything that the session wrote.
    pub all_outputs: IdSet,
}

/// The view of what a session has read and written.
#[verifier::ext_equal]
pub ghost struct SessionV {
    pub prev_outputs: Set<u64>,
    pub next_outputs: Set<u64>,
    pub prev_inputs: Set<u64>,
    pub next_inputs: Set<u64>,
    pub needs_barrier: bool,
    pub all_outputs: Set<u64>,
}

impl View for EncoderState {
    type V = SessionV;

    open spec fn view(&self) -> SessionV {
        SessionV {
            prev_outputs: self.prev_outputs@,
            next_outputs: self.next_outputs@,
            prev_inputs: self.prev_inputs@,
            next_inputs: self.next_inputs@,
            needs_barrier: self.needs_barrier,
            all_outputs: self.all_outputs@,
        }
    }
}

/// A session that has done nothing yet.
pub open spec fn fresh_session() -> SessionV {
    SessionV {
        prev_outputs: Set::empty(),
        next_outputs: Set::empty(),
        prev_inputs: Set::empty(),
        next_inputs: Set::empty(),
        needs_barrier: false,
        all_outputs: Set::empty(),
    }
}

/// A buffer that a dispatch reads or writes.
#[derive(Clone, Copy, PartialEq, Eq, Structural, Debug)]
pub enum Bind {
    Input(u64),
    Output(u64),
}

/// The session after a buffer has been bound for the next dispatch.
pub open spec fn bound(s: SessionV, b: Bind) -> SessionV {
    match b {
        Bind::Input(id) => SessionV {
            needs_barrier: s.needs_barrier || s.prev_outputs.contains(id),
            next_inputs: s.next_inputs.insert(id),
            ..s
        },
        Bind::Output(id) => SessionV {
            needs_barrier: s.needs_barrier || s.prev_outputs.contains(id)
                || s.prev_inputs.contains(id),
            next_outputs: s.next_outputs.insert(id),
            all_outputs: s.all_outputs.insert(id),
            ..s
        },
    }
}

/// The session after the dispatch, and whether a barrier came before it.
pub open spec fn dispatched(s: SessionV) -> (SessionV, bool) {
    let next = SessionV {
        prev_outputs: if s.needs_barrier {
            s.next_outputs
        } else {
            s.prev_outputs.union(s.next_outputs)
        },
        prev_inputs: if s.needs_barrier {
            s.next_inputs
        } else {
            s.prev_inputs.union(s.next_inputs)
        },
        next_outputs: Set::empty(),
        next_inputs: Set::empty(),
        needs_barrier: false,
        ..s
    };
    (next, s.needs_barrier)
}

impl EncoderState {
    pub fn new() -> (s: EncoderState)
        ensures
            s@ == fresh_session(),
    {
        EncoderState {
            prev_outputs: IdSet::new(),
            next_outputs: IdSet::new(),
            prev_inputs: IdSet::new(),
            next_inputs: IdSet::new(),
            needs_barrier: false,
            all_outputs: IdSet::new(),
        }
    }

    /// Binds a buffer that is read.
    pub fn set_input(&mut self, id: u64)
        ensures
            final(self)@ == bound(old(self)@, Bind::Input(id)),
    {
        if self.prev_outputs.contains(id) {
            self.needs_barrier = true;
        }
        self.next_inputs.insert(id);
    }

    /// Binds a buffer that is written.
    pub fn set_output(&mut self, id: u64)
        ensures
            final(self)@ == bound(old(self)@, Bind::Output(id)),
    {
        if self.prev_outputs.contains(id) || self.prev_inputs.contains(id) {
            self.needs_barrier = true;
        }
        self.next_outputs.insert(id);
        self.all_outputs.insert(id);
    }

    /// Dispatches; whether a barrier comes first.
    pub fn barrier_if_needed(&mut self) -> (barrier: bool)
        ensures
            (final(self)@, barrier) == dispatched(old(self)@),
    {
        let mut outs = IdSet::new();
        std::mem::swap(&mut outs, &mut self.next_outputs);
        let mut ins = IdSet::new();
        std::mem::swap(&mut ins, &mut self.next_inputs);
        let barrier = self.needs_barrier;
        if barrier {
            self.needs_barrier = false;
            self.prev_outputs = outs;
            self.prev_inputs = ins;
        } else {
            self.prev_outputs.add_all(&outs);
            self.prev_inputs.add_all(&ins);
        }
        barrier
    }
}

// ---- what barriers achieve ----

/// The session after the first `k` bindings of a dispatch.
pub open spec fn all_bound(s: SessionV, binds: Seq<Bind>, k: int) -> SessionV
    decreases k,
{
    if k <= 0 {
        s
    } else {
        bound(all_bound(s, binds, k - 1), binds[k - 1])
    }
}

/// The session after the first `k` dispatches, each given by its bindings.
pub open spec fn session_after(ds: Seq<Seq<Bind>>, k: int) -> SessionV
    decreases k,
{
    if k <= 0 {
        fresh_session()
    } else {
        dispatched(
            all_bound(session_after(ds, k - 1), ds[k - 1], ds[k - 1].len() as int),
        ).0
    }
}

/// The session when everything is bound for a dispatch.
pub open spec fn before_dispatch(ds: Seq<Seq<Bind>>, k: int) -> SessionV {
    all_bound(session_after(ds, k), ds[k], ds[k].len() as int)
}

/// Whether a barrier comes before a dispatch.
pub open spec fn has_barrier(ds: Seq<Seq<Bind>>, k: int) -> bool {
    dispatched(before_dispatch(ds, k)).1
}

pub open spec fn reads(d: Seq<Bind>, id: u64) -> bool {
    d.contains(Bind::Input(id))
}

pub open spec fn writes(d: Seq<Bind>, id: u64) -> bool {
    d.contains(Bind::Output(id))
}

/// Two dispatches that may not run at the same time: both touch a buffer, and one
/// of them writes it.
pub open spec fn conflict(a: Seq<Bind>, b: Seq<Bind>, id: u64) -> bool {
    (writes(a, id) && (reads(b, id) || writes(b, id))) || (reads(a, id) && writes(b, id))
}

proof fn lemma_all_bound(s: SessionV, binds: Seq<Bind>, k: int)
    requires
        0 <= k <= binds.len(),
    ensures
        ({
            let r = all_bound(s, binds, k);
            &&& r.prev_outputs == s.prev_outputs
            &&& r.prev_inputs == s.prev_inputs
            &&& forall|id: u64|
                #![trigger r.next_inputs.contains(id)]
                r.next_inputs.contains(id) <==> s.next_inputs.contains(id) || reads(
                    binds.take(k),
                    id,
                )
            &&& forall|id: u64|
                #![trigger r.next_outputs.contains(id)]
                r.next_outputs.contains(id) <==> s.next_outputs.contains(id) || writes(
                    binds.take(k),
                    id,
                )
            &&& s.needs_barrier ==> r.needs_barrier
            &&& forall|j: int|
                0 <= j < k && s.prev_outputs.contains(
                    (match #[trigger] binds[j] {
                        Bind::Input(id) => id,
                        Bind::Output(id) => id,
                    }),
                ) ==> r.needs_barrier
            &&& forall|j: int|
                0 <= j < k && (#[trigger] binds[j] matches Bind::Output(id) && s.prev_inputs.contains(
                    id,
                )) ==> r.needs_barrier
        }),
    decreases k,
{
    if k > 0 {
        lemma_all_bound(s, binds, k - 1);
        let a = binds.take(k - 1);
        let b = binds.take(k);
        let last = binds[k - 1];
        assert forall|x: Bind| b.contains(x) <==> a.contains(x) || x == last by {
            if a.contains(x) {
                let p = choose|p: int| 0 <= p < a.len() && a[p] == x;
                assert(b[p] == x);
            }
            if x == last {
                assert(b[k - 1] == x);
            }
            if b.contains(x) && x != last {
                let p = choose|p: int| 0 <= p < b.len() && b[p] == x;
                assert(a[p] == x);
            }
        }
    } else {
        assert(binds.take(0) =~= Seq::<Bind>::empty());
    }
}

/// What a dispatch has read or written since the last barrier is remembered.
proof fn lemma_remembered(ds: Seq<Seq<Bind>>, i: int, k: int)
    requires
        0 <= i < k <= ds.len(),
        forall|m: int| i < m < k ==> !has_barrier(ds, m),
    ensures
        forall|id: u64| #[trigger] reads(ds[i], id) ==> session_after(ds, k).prev_inputs.contains(id),
        forall|id: u64| #[trigger]
            writes(ds[i], id) ==> session_after(ds, k).prev_outputs.contains(id),
        session_after(ds, k).next_inputs == Set::<u64>::empty(),
        session_after(ds, k).next_outputs == Set::<u64>::empty(),
        !session_after(ds, k).needs_barrier,
    decreases k,
{
    let d = k - 1;
    let s = session_after(ds, d);
    lemma_all_bound(s, ds[d], ds[d].len() as int);
    assert(ds[d].take(ds[d].len() as int) =~= ds[d]);
    let b = before_dispatch(ds, d);
    assert(b == all_bound(s, ds[d], ds[d].len() as int));
    if i < d {
        lemma_remembered(ds, i, d);
        assert(!has_barrier(ds, d));
    } else {
        assert forall|id: u64| #[trigger] reads(ds[i], id) implies session_after(
            ds,
            k,
        ).prev_inputs.contains(id) by {
            assert(b.next_inputs.contains(id));
        }
        assert forall|id: u64| #[trigger] writes(ds[i], id) implies session_after(
            ds,
            k,
        ).prev_outputs.contains(id) by {
            assert(b.next_outputs.contains(id));
        }
    }
}

/// Between two dispatches that may not run at the same time there is a barrier.
pub proof fn conflicts_are_separated(ds: Seq<Seq<Bind>>, i: int, j: int, id: u64)
    requires
        0 <= i < j < ds.len(),
        conflict(ds[i], ds[j], id),
    ensures
        exists|k: int| i < k <= j && #[trigger] has_barrier(ds, k),
{
    if forall|k: int| i < k <= j ==> !#[trigger] has_barrier(ds, k) {
        lemma_remembered(ds, i, j);
        let s = session_after(ds, j);
        let n = ds[j].len() as int;
        lemma_all_bound(s, ds[j], n);
        assert(before_dispatch(ds, j) == all_bound(s, ds[j], n));
        if writes(ds[j], id) {
            let p = choose|p: int| 0 <= p < n && ds[j][p] == Bind::Output(id);
            assert(ds[j][p] == Bind::Output(id));
        } else {
            let p = choose|p: int| 0 <= p < n && ds[j][p] == Bind::Input(id);
            assert(ds[j][p] == Bind::Input(id));
        }
        assert(has_barrier(ds, j));
    }
}

/// The first dispatch of a session needs no barrier.
pub proof fn first_dispatch_needs_no_barrier(ds: Seq<Seq<Bind>>)
    requires
        ds.len() > 0,
    ensures
        !has_barrier(ds, 0),
{
    let s = fresh_session();
    assert(session_after(ds, 0) == s);
    lemma_no_barrier(s, ds[0], ds[0].len() as int);
}

proof fn lemma_no_barrier(s: SessionV, binds: Seq<Bind>, k: int)
    requires
        0 <= k <= binds.len(),
        s.prev_outputs == Set::<u64>::empty(),
        s.prev_inputs == Set::<u64>::empty(),
        !s.needs_barrier,
    ensures
        !all_bound(s, binds, k).needs_barrier,
        all_bound(s, binds, k).prev_outputs == s.prev_outputs,
        all_bound(s, binds, k).prev_inputs == s.prev_inputs,
    decreases k,
{
    if k > 0 {
        lemma_no_barrier(s, binds, k - 1);
    }
}

// ---- fences ----

/// The fence of the last session that wrote each buffer, as far as that session
/// may still run. No buffer stands in it twice.
pub struct FenceMap {
    pub entries: Vec<(u64, u64)>,
}

/// No buffer stands in the list twice.
pub open spec fn one_each(v: Seq<(u64, u64)>) -> bool {
    forall|i: int, j: int| 0 <= i < j < v.len() ==> (#[trigger] v[i]).0 != (#[trigger] v[j]).0
}

spec fn sits_before(v: Seq<(u64, u64)>, x: (u64, u64), i: int) -> bool {
    exists|q: int| 0 <= q < i && #[trigger] v[q] == x
}

impl FenceMap {
    pub open spec fn wf(self) -> bool {
        one_each(self.entries@)
    }

    /// A session with this fence is the last that wrote the buffer.
    pub open spec fn guards(self, buffer: u64, fence: u64) -> bool {
        self.entries@.contains((buffer, fence))
    }

    pub fn new() -> (m: FenceMap)
        ensures
            m.wf(),
            m.entries@ == Seq::<(u64, u64)>::empty(),
    {
        FenceMap { entries: Vec::new() }
    }

    fn set(&mut self, buffer: u64, fence: u64)
        requires
            old(self).wf(),
        ensures
            final(self).wf(),
            forall|b: u64, f: u64| #[trigger]
                final(self).guards(b, f) <==> (if b == buffer {
                    f == fence
                } else {
                    old(self).guards(b, f)
                }),
    {
        let ghost before = self.entries@;
        let mut i: usize = 0;
        while i < self.entries.len()
            invariant
                i <= self.entries@.len(),
                self.entries@ == before,
                one_each(before),
                before == old(self).entries@,
                forall|j: int| 0 <= j < i ==> (#[trigger] before[j]).0 != buffer,
            decreases self.entries.len() - i,
        {
            if self.entries[i].0 == buffer {
                self.entries.set(i, (buffer, fence));
                let ghost after = self.entries@;
                proof {
                    assert(before[i as int].0 == buffer);
                    assert forall|p: int, q: int| 0 <= p < q < after.len() implies (
                    #[trigger] after[p]).0 != (#[trigger] after[q]).0 by {
                        assert(before[p].0 != before[q].0);
                    }
                    assert forall|b: u64, f: u64| #[trigger] self.guards(b, f) <==> (if b
                        == buffer {
                        f == fence
                    } else {
                        old(self).guards(b, f)
                    }) by {
                        if b == buffer {
                            if self.guards(b, f) {
                                let p = choose|p: int|
                                    0 <= p < after.len() && after[p] == (b, f);
                                if p != i {
                                    assert(after[i as int].0 == after[p].0);
                                }
                            }
                            assert(after[i as int] == (buffer, fence));
                        } else {
                            if self.guards(b, f) {
                                let p = choose|p: int|
                                    0 <= p < after.len() && after[p] == (b, f);
                                assert(before[p] == (b, f));
                            }
                            if old(self).guards(b, f) {
                                let p = choose|p: int|
                                    0 <= p < before.len() && before[p] == (b, f);
                                assert(after[p] == (b, f));
                            }
                        }
                    }
                }
                return;
            }
            i += 1;
        }
        self.entries.push((buffer, fence));
        let ghost after = self.entries@;
        proof {
            assert forall|b: u64, f: u64| #[trigger] self.guards(b, f) <==> (if b == buffer {
                f == fence
            } else {
                old(self).guards(b, f)
            }) by {
                if self.guards(b, f) {
                    let p = choose|p: int| 0 <= p < after.len() && after[p] == (b, f);
                    if p < before.len() {
                        assert(before[p] == (b, f));
                    }
                }
                if old(self).guards(b, f) {
                    let p = choose|p: int| 0 <= p < before.len() && before[p] == (b, f);
                    assert(after[p] == (b, f));
                }
                assert(after[before.len() as int] == (buffer, fence));
            }
        }
    }

    /// A session ends: its fence now guards everything that it wrote.
    pub fn end(&mut self, outputs: &IdSet, fence: u64)
        requires
            old(self).wf(),
        ensures
            final(self).wf(),
            forall|b: u64, f: u64| #[trigger]
                final(self).guards(b, f) <==> (if outputs@.contains(b) {
                    f == fence
                } else {
                    old(self).guards(b, f)
                }),
    {
        let mut i: usize = 0;
        while i < outputs.items.len()
            invariant
                i <= outputs.items@.len(),
                self.wf(),
                forall|b: u64, f: u64| #[trigger]
                    self.guards(b, f) <==> (if outputs.items@.take(i as int).contains(b) {
                        f == fence
                    } else {
                        old(self).guards(b, f)
                    }),
            decreases outputs.items.len() - i,
        {
            let id = outputs.items[i];
            self.set(id, fence);
            proof {
                let a = outputs.items@.take(i as int);
                let b = outputs.items@.take(i + 1);
                assert forall|x: u64| #[trigger] b.contains(x) <==> a.contains(x) || x == id by {
                    if a.contains(x) {
                        let p = choose|p: int| 0 <= p < a.len() && a[p] == x;
                        assert(b[p] == x);
                    }
                    if x == id {
                        assert(b[i as int] == x);
                    }
                    if b.contains(x) && x != id {
                        let p = choose|p: int| 0 <= p < b.len() && b[p] == x;
                        assert(a[p] == x);
                    }
                }
            }
            i += 1;
        }
        assert(outputs.items@.take(outputs.items@.len() as int) =~= outputs.items@);
        assert forall|b: u64, f: u64| #[trigger] self.guards(b, f) <==> (if outputs@.contains(
            b,
        ) {
            f == fence
        } else {
            old(self).guards(b, f)
        }) by {
            assert(outputs@.contains(b) <==> outputs.items@.contains(b));
        }
    }

    /// The command buffer of a session has completed: what the session's fence
    /// still guards needs no guard any more.
    pub fn completed(&mut self, outputs: &IdSet, fence: u64)
        requires
            old(self).wf(),
        ensures
            final(self).wf(),
            forall|b: u64, f: u64| #[trigger]
                final(self).guards(b, f) <==> old(self).guards(b, f) && !(f == fence
                    && outputs@.contains(b)),
    {
        let ghost all = self.entries@;
        let mut kept: Vec<(u64, u64)> = Vec::new();
        let mut i: usize = 0;
        while i < self.entries.len()
            invariant
                i <= self.entries@.len(),
                self.entries@ == all,
                all == old(self).entries@,
                one_each(all),
                one_each(kept@),
                forall|p: int|
                    0 <= p < kept@.len() ==> sits_before(all, #[trigger] kept@[p], i as int)
                        && !(kept@[p].1 == fence && outputs@.contains(kept@[p].0)),
                forall|q: int|
                    0 <= q < i && !((#[trigger] all[q]).1 == fence && outputs@.contains(all[q].0))
                        ==> kept@.contains(all[q]),
            decreases self.entries.len() - i,
        {
            let e = self.entries[i];
            let ghost before = kept@;
            proof {
                assert forall|p: int| 0 <= p < before.len() implies sits_before(
                    all,
                    #[trigger] before[p],
                    i + 1,
                ) by {
                    let x = choose|x: int| 0 <= x < i && #[trigger] all[x] == before[p];
                    assert(all[x] == before[p]);
                }
            }
            if !(e.1 == fence && outputs.contains(e.0)) {
                kept.push(e);
                proof {
                    assert(all[i as int] == e);
                    assert(sits_before(all, e, i + 1));
                    assert forall|p: int, q: int| 0 <= p < q < kept@.len() implies (
                    #[trigger] kept@[p]).0 != (#[trigger] kept@[q]).0 by {
                        assert(kept@[p] == before[p]);
                        if q < before.len() {
                            assert(kept@[q] == before[q]);
                        } else {
                            assert(sits_before(all, before[p], i as int));
                            let x = choose|x: int| 0 <= x < i && #[trigger] all[x] == before[p];
                            assert(all[x].0 != all[i as int].0);
                        }
                    }
                    assert forall|p: int| 0 <= p < kept@.len() implies sits_before(
                        all,
                        #[trigger] kept@[p],
                        i + 1,
                    ) && !(kept@[p].1 == fence && outputs@.contains(kept@[p].0)) by {
                        if p < before.len() {
                            assert(kept@[p] == before[p]);
                        }
                    }
                    assert forall|q: int|
                        0 <= q < i + 1 && !((#[trigger] all[q]).1 == fence && outputs@.contains(
                            all[q].0,
                        )) implies kept@.contains(all[q]) by {
                        if q < i {
                            assert(before.contains(all[q]));
                            let p = choose|p: int| 0 <= p < before.len() && before[p] == all[q];
                            assert(kept@[p] == all[q]);
                        } else {
                            assert(kept@[before.len() as int] == all[q]);
                        }
                    }
                }
            }
            i += 1;
        }
        self.entries = kept;
        assert forall|b: u64, f: u64| #[trigger] self.guards(b, f) <==> old(self).guards(b, f)
            && !(f == fence && outputs@.contains(b)) by {
            if self.guards(b, f) {
                let p = choose|p: int| 0 <= p < kept@.len() && kept@[p] == (b, f);
                assert(sits_before(all, kept@[p], all.len() as int));
                assert(all.contains((b, f)));
            }
            if old(self).guards(b, f) && !(f == fence && outputs@.contains(b)) {
                let q = choose|q: int| 0 <= q < all.len() && all[q] == (b, f);
                assert(kept@.contains(all[q]));
            }
        }
    }

    /// The fences that a new session waits for, each once.
    pub fn fences(&self) -> (s: IdSet)
        ensures
            forall|f: u64| #[trigger]
                s@.contains(f) <==> exists|b: u64| #[trigger] self.guards(b, f),
    {
        let mut s = IdSet::new();
        let mut i: usize = 0;
        while i < self.entries.len()
            invariant
                i <= self.entries@.len(),
                forall|f: u64| #[trigger]
                    s@.contains(f) <==> exists|q: int| 0 <= q < i && (#[trigger] self.entries@[q]).1 == f,
            decreases self.entries.len() - i,
        {
            let ghost before = s@;
            let g = self.entries[i].1;
            s.insert(g);
            proof {
                assert forall|f: u64| #[trigger] s@.contains(f) <==> exists|q: int|
                    0 <= q < i + 1 && (#[trigger] self.entries@[q]).1 == f by {
                    if f == g {
                        assert(self.entries@[i as int].1 == f);
                    } else if before.contains(f) {
                        let q = choose|q: int| 0 <= q < i && (#[trigger] self.entries@[q]).1 == f;
                        assert(self.entries@[q].1 == f);
                    }
                }
            }
            i += 1;
        }
        assert forall|f: u64| #[trigger] s@.contains(f) <==> exists|b: u64| #[trigger]
            self.guards(b, f) by {
            if s@.contains(f) {
                let q = choose|q: int|
                    0 <= q < self.entries@.len() && (#[trigger] self.entries@[q]).1 == f;
                assert(self.entries@.contains((self.entries@[q].0, f)));
                assert(self.guards(self.entries@[q].0, f));
            }
            if exists|b: u64| #[trigger] self.guards(b, f) {
                let b = choose|b: u64| #[trigger] self.guards(b, f);
                let q = choose|q: int| 0 <= q < self.entries@.len() && self.entries@[q] == (b, f);
                assert(self.entries@[q].1 == f);
            }
        }
        s
    }

    /// Forgets all of it.
    pub fn clear(&mut self)
        ensures
            final(self).wf(),
            final(self).entries@ == Seq::<(u64, u64)>::empty(),
    {
        self.entries = Vec::new();
    }
}

} // verus!
