//! Command buffers: when one is full, what has completed, and what is waited for.

use vstd::prelude::*;

use crate::hazard::IdSet;
use crate::pool::Buffer;

verus! {

// ---- completion ----

/// Which command buffers have completed. They are committed in the order of their
/// numbers but may report out of order: those above the first gap are pending.
pub struct CompletionState {
    pub watermark: u64,
    pub pending: IdSet,
}

/// The view of which command buffers have completed.
pub ghost struct CompletionV {
    pub watermark: u64,
    pub pending: Set<u64>,
}

impl View for CompletionState {
    type V = CompletionV;

    open spec fn view(&self) -> CompletionV {
        CompletionV { watermark: self.watermark, pending: self.pending@ }
    }
}

impl CompletionV {
    /// The command buffers that have completed.
    pub open spec fn done(self) -> Set<u64> {
        Set::new(|id: u64| 1 <= id <= self.watermark || self.pending.contains(id))
    }

    /// What is pending lies above the watermark and does not touch it.
    pub open spec fn wf(self) -> bool {
        &&& !self.pending.contains((self.watermark + 1) as u64)
        &&& forall|id: u64| #[trigger]
            self.pending.contains(id) ==> self.watermark < id < u64::MAX
    }
}

/// The completed command buffers with one more. They are numbered from one: no
/// number is none.
pub open spec fn noted(done: Set<u64>, id: u64) -> Set<u64> {
    if id == 0 {
        done
    } else {
        done.insert(id)
    }
}

impl CompletionState {
    pub fn new() -> (s: CompletionState)
        ensures
            s@.wf(),
            s@.watermark == 0,
            s@.done() == Set::<u64>::empty(),
    {
        let s = CompletionState { watermark: 0, pending: IdSet::new() };
        assert(s@.done() =~= Set::<u64>::empty());
        s
    }

    /// A command buffer has completed.
    pub fn note(&mut self, id: u64)
        requires
            old(self)@.wf(),
            id < u64::MAX,
        ensures
            final(self)@.wf(),
            final(self)@.done() == noted(old(self)@.done(), id),
    {
        if id <= self.watermark {
            assert(self@.done() =~= noted(self@.done(), id));
            return;
        }
        let ghost want = self@.done().insert(id);
        self.pending.insert(id);
        assert(self@.done() =~= want);
        while self.watermark < u64::MAX - 1 && self.pending.contains(self.watermark + 1)
            invariant
                self@.done() == want,
                forall|x: u64| #[trigger]
                    self@.pending.contains(x) ==> self.watermark < x < u64::MAX,
            decreases u64::MAX - self.watermark,
        {
            let next = self.watermark + 1;
            let ghost before = self@;
            self.pending.remove(next);
            self.watermark = next;
            assert(self@.done() =~= before.done());
        }
    }
}

/// What has completed decides the watermark: it stands before the first command
/// buffer that has not.
pub proof fn watermark_is_determined(a: CompletionV, b: CompletionV)
    requires
        a.wf(),
        b.wf(),
        a.done() == b.done(),
    ensures
        a.watermark == b.watermark,
{
    if a.watermark < b.watermark {
        let x = (a.watermark + 1) as u64;
        assert(b.done().contains(x));
        assert(a.done().contains(x));
    }
    if b.watermark < a.watermark {
        let x = (b.watermark + 1) as u64;
        assert(a.done().contains(x));
        assert(b.done().contains(x));
    }
}

/// The numbers among `ids` that name command buffers.
pub open spec fn buffers_in(ids: Seq<u64>) -> Set<u64> {
    Set::new(|x: u64| x > 0 && ids.contains(x))
}

/// What has completed after each number was noted, whatever their order and
/// however often one came: the watermark is the last before the first gap, and
/// what lies above it is pending.
pub proof fn noted_buffers_are_done(states: Seq<CompletionV>, ids: Seq<u64>)
    requires
        states.len() == ids.len() + 1,
        states[0].done() == Set::<u64>::empty(),
        forall|k: int|
            0 <= k < ids.len() ==> (#[trigger] states[k + 1]).done() == noted(
                states[k].done(),
                ids[k],
            ),
        states.last().wf(),
    ensures
        states.last().done() == buffers_in(ids),
        forall|x: u64| 1 <= x <= states.last().watermark ==> #[trigger] ids.contains(x),
        states.last().watermark < u64::MAX ==> !ids.contains((states.last().watermark + 1) as u64),
        forall|x: u64| #[trigger]
            states.last().pending.contains(x) <==> ids.contains(x) && x > states.last().watermark,
{
    let c = states.last();
    lemma_done(states, ids, ids.len() as int);
    assert(ids.take(ids.len() as int) =~= ids);
    assert forall|x: u64| 1 <= x <= c.watermark implies #[trigger] ids.contains(x) by {
        assert(c.done().contains(x));
    }
    if c.watermark < u64::MAX {
        let x = (c.watermark + 1) as u64;
        if ids.contains(x) {
            assert(c.done().contains(x));
        }
    }
    assert forall|x: u64| #[trigger] c.pending.contains(x) <==> ids.contains(x) && x > c.watermark by {
        if c.pending.contains(x) {
            assert(c.done().contains(x));
        }
        if ids.contains(x) && x > c.watermark {
            assert(c.done().contains(x));
        }
    }
}

proof fn lemma_done(states: Seq<CompletionV>, ids: Seq<u64>, k: int)
    requires
        states.len() == ids.len() + 1,
        0 <= k <= ids.len(),
        states[0].done() == Set::<u64>::empty(),
        forall|k: int|
            0 <= k < ids.len() ==> (#[trigger] states[k + 1]).done() == noted(
                states[k].done(),
                ids[k],
            ),
    ensures
        states[k].done() == buffers_in(ids.take(k)),
    decreases k,
{
    if k == 0 {
        assert(states[0].done() =~= buffers_in(ids.take(0)));
    } else {
        lemma_done(states, ids, k - 1);
        assert(states[k - 1 + 1].done() == noted(states[k - 1].done(), ids[k - 1]));
        let a = ids.take(k - 1);
        let b = ids.take(k);
        assert(b =~= a.push(ids[k - 1]));
        assert forall|x: u64| #[trigger] b.contains(x) <==> a.contains(x) || x == ids[k - 1] by {
            if a.contains(x) {
                let i = choose|i: int| 0 <= i < a.len() && a[i] == x;
                assert(b[i] == x);
            }
            if x == ids[k - 1] {
                assert(b[k - 1] == x);
            }
        }
        assert(states[k].done() =~= buffers_in(b));
    }
}

/// A buffer that may be used again was last bound in a command buffer that has
/// completed, if in any.
pub proof fn reusable_buffers_are_done_with(b: Buffer, c: CompletionV)
    requires
        b.settled(c.watermark),
        b.used_cb != 0,
    ensures
        c.done().contains(b.used_cb),
{
}

// ---- rotation ----

/// The command buffers of a queue: the one that is being filled and those that
/// have been committed and not waited for.
pub struct Commands {
    pub current_id: u64,
    pub in_flight: Vec<u64>,
    /// The current command buffer has an open session.
    pub open: bool,
    /// How often the current command buffer has been used.
    pub compute_count: usize,
    /// How often one command buffer may be used.
    pub per_buffer: usize,
    pub completed_id: u64,
    pub epoch: u64,
    pub completed: CompletionState,
}

/// The view of the command buffers of a queue.
#[verifier::ext_equal]
pub ghost struct CommandsV {
    pub current_id: u64,
    pub in_flight: Seq<u64>,
    pub open: bool,
    pub compute_count: usize,
    pub per_buffer: usize,
    pub completed_id: u64,
    pub epoch: u64,
    pub completed: CompletionV,
}

impl View for Commands {
    type V = CommandsV;

    open spec fn view(&self) -> CommandsV {
        CommandsV {
            current_id: self.current_id,
            in_flight: self.in_flight@,
            open: self.open,
            compute_count: self.compute_count,
            per_buffer: self.per_buffer,
            completed_id: self.completed_id,
            epoch: self.epoch,
            completed: self.completed@,
        }
    }
}

impl CommandsV {
    /// Numbers rise in the order of commitment, and no command buffer is used more
    /// often than it may be.
    pub open spec fn wf(self) -> bool {
        &&& self.per_buffer >= 1
        &&& self.compute_count <= self.per_buffer
        &&& self.open ==> self.compute_count > 0
        &&& 1 <= self.current_id < u64::MAX
        &&& self.completed_id < self.current_id
        &&& forall|i: int|
            0 <= i < self.in_flight.len() ==> 1 <= #[trigger] self.in_flight[i]
                < self.current_id
        &&& forall|i: int, j: int|
            0 <= i < j < self.in_flight.len() ==> #[trigger] self.in_flight[i]
                < #[trigger] self.in_flight[j]
        &&& self.completed.wf()
    }

    /// The current command buffer is committed and another one begun.
    pub open spec fn rotated(self) -> CommandsV {
        CommandsV {
            current_id: (self.current_id + 1) as u64,
            in_flight: self.in_flight.push(self.current_id),
            open: false,
            compute_count: 0,
            ..self
        }
    }

    /// The current command buffer has no room left.
    pub open spec fn full(self) -> bool {
        self.compute_count >= self.per_buffer
    }

    /// A session is opened or gone on with.
    pub open spec fn opened(self) -> CommandsV {
        if self.full() {
            CommandsV { open: true, compute_count: 1, ..self.rotated() }
        } else {
            CommandsV { open: true, compute_count: (self.compute_count + 1) as usize, ..self }
        }
    }

    /// Something has been put into the current command buffer.
    pub open spec fn busy(self) -> bool {
        self.open || self.compute_count > 0
    }

    /// Everything is committed, and all of it is about to be waited for.
    pub open spec fn drained(self) -> (CommandsV, Seq<u64>) {
        let c = if self.busy() {
            self.rotated()
        } else {
            self
        };
        (CommandsV { in_flight: Seq::empty(), ..c }, c.in_flight)
    }
}

/// What opening a session takes.
#[derive(Clone, Copy, PartialEq, Eq, Structural, Debug)]
pub struct Opening {
    /// The command buffer that is committed first.
    pub commit: Option<u64>,
    /// The session is a new one.
    pub fresh: bool,
    /// The command buffer that the session belongs to.
    pub id: u64,
}

impl Commands {
    /// Command buffers that may each be used so often; once at least.
    pub fn new(per_buffer: usize) -> (c: Commands)
        ensures
            c@.wf(),
            c@ == (CommandsV {
                current_id: 1,
                in_flight: Seq::empty(),
                open: false,
                compute_count: 0,
                per_buffer: if per_buffer > 1 {
                    per_buffer
                } else {
                    1
                },
                completed_id: 0,
                epoch: 1,
                completed: c@.completed,
            }),
            c@.completed.watermark == 0,
            c@.completed.done() == Set::<u64>::empty(),
    {
        Commands {
            current_id: 1,
            in_flight: Vec::new(),
            open: false,
            compute_count: 0,
            per_buffer: if per_buffer > 1 {
                per_buffer
            } else {
                1
            },
            completed_id: 0,
            epoch: 1,
            completed: CompletionState::new(),
        }
    }

    /// The last command buffer that is known to have completed.
    pub fn completed_id(&self) -> (n: u64)
        ensures
            n == self.completed_id,
    {
        self.completed_id
    }

    /// Up to here all command buffers have completed.
    pub fn completed_watermark(&self) -> (n: u64)
        ensures
            n == self@.completed.watermark,
    {
        self.completed.watermark
    }

    /// How often everything has been waited for, counted from one.
    pub fn epoch(&self) -> (n: u64)
        ensures
            n == self.epoch,
    {
        self.epoch
    }

    fn rotate(&mut self) -> (committed: u64)
        requires
            old(self)@.wf(),
            old(self).current_id < u64::MAX - 1,
        ensures
            final(self)@ == old(self)@.rotated(),
            final(self)@.wf(),
            committed == old(self).current_id,
    {
        let id = self.current_id;
        self.in_flight.push(id);
        self.current_id = id + 1;
        self.open = false;
        self.compute_count = 0;
        id
    }

    /// Opens a session, or goes on with the open one; a full command buffer is
    /// committed first.
    pub fn encoder(&mut self) -> (r: Opening)
        requires
            old(self)@.wf(),
            old(self).current_id < u64::MAX - 1,
        ensures
            final(self)@ == old(self)@.opened(),
            final(self)@.wf(),
            r.commit == (if old(self)@.full() {
                Some(old(self).current_id)
            } else {
                None
            }),
            r.fresh == (old(self)@.full() || !old(self).open),
            r.id == final(self).current_id,
    {
        let mut commit: Option<u64> = None;
        if self.compute_count >= self.per_buffer {
            commit = Some(self.rotate());
            self.compute_count = 1;
        } else {
            self.compute_count = self.compute_count + 1;
        }
        let fresh = !self.open;
        self.open = true;
        Opening { commit, fresh, id: self.current_id }
    }

    /// Commits everything; what to commit now and what to wait for, in order.
    pub fn begin_flush(&mut self) -> (r: (Option<u64>, Vec<u64>))
        requires
            old(self)@.wf(),
            old(self).current_id < u64::MAX - 1,
        ensures
            (final(self)@, r.1@) == old(self)@.drained(),
            final(self)@.wf(),
            r.0 == (if old(self)@.busy() {
                Some(old(self).current_id)
            } else {
                None
            }),
    {
        let mut commit: Option<u64> = None;
        if self.open || self.compute_count > 0 {
            commit = Some(self.rotate());
        }
        let mut waiting: Vec<u64> = Vec::new();
        std::mem::swap(&mut waiting, &mut self.in_flight);
        (commit, waiting)
    }

    /// Everything up to the last that was waited for has completed.
    pub fn end_flush(&mut self, waited: &Vec<u64>)
        requires
            old(self)@.wf(),
            old(self).epoch < u64::MAX,
            forall|i: int| 0 <= i < waited@.len() ==> #[trigger] waited@[i] < old(self).current_id,
        ensures
            final(self)@.wf(),
            final(self)@ == (CommandsV {
                completed_id: if waited@.len() > 0 && waited@.last() > old(self).completed_id {
                    waited@.last()
                } else {
                    old(self).completed_id
                },
                epoch: (old(self).epoch + 1) as u64,
                ..old(self)@
            }),
    {
        let n = waited.len();
        if n > 0 && waited[n - 1] > self.completed_id {
            self.completed_id = waited[n - 1];
        }
        self.epoch = self.epoch + 1;
    }

    /// A command buffer has completed.
    pub fn note(&mut self, id: u64)
        requires
            old(self)@.wf(),
            id < u64::MAX,
        ensures
            final(self)@.wf(),
            final(self)@.completed.done() == noted(old(self)@.completed.done(), id),
            final(self)@ == (CommandsV { completed: final(self)@.completed, ..old(self)@ }),
    {
        self.completed.note(id);
    }
}

/// A flush leaves nothing in flight, and waits last for the last command buffer
/// that was begun, if it was used.
pub proof fn flush_waits_for_everything(c: CommandsV)
    requires
        c.wf(),
    ensures
        c.drained().0.in_flight.len() == 0,
        c.busy() ==> c.drained().1.last() == c.current_id,
        forall|i: int|
            0 <= i < c.in_flight.len() ==> c.drained().1.contains(#[trigger] c.in_flight[i]),
{
    let w = c.drained().1;
    assert forall|i: int| 0 <= i < c.in_flight.len() implies w.contains(
        #[trigger] c.in_flight[i],
    ) by {
        assert(w[i] == c.in_flight[i]);
    }
}

/// No command buffer is used more often than it may be.
pub proof fn command_buffers_keep_their_budget(c: CommandsV)
    requires
        c.wf(),
        c.current_id < u64::MAX - 1,
    ensures
        1 <= c.opened().compute_count <= c.per_buffer,
        c.opened().per_buffer == c.per_buffer,
{
}

} // verus!
