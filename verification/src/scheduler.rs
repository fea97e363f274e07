//! Bounded-concurrency meshing pipeline state. A queue of chunk positions
//! waits for work; a capped set of in-flight builds is tracked by position.
//! Each tick the driver drains at most the spare capacity off the front of
//! the queue, starts a build for every position whose 7-chunk neighbourhood
//! is available, pushes the rest back, and retires builds as they finish.
//! The driver performs the asynchronous work itself; every decision about
//! the queue and the in-flight set is made here.

use vstd::math::min;
use vstd::prelude::*;

use crate::math::IVec3;

verus! {

/// Most builds allowed in flight at once.
pub const MAX_TASKS: usize = 16;

/// First position of `p` in `s` at or after `i`, or -1.
pub open spec fn pos_index_from(s: Seq<IVec3>, p: IVec3, i: int) -> int
    decreases s.len() - i,
{
    if i < 0 || i >= s.len() {
        -1
    } else if s[i] == p {
        i
    } else {
        pos_index_from(s, p, i + 1)
    }
}

/// The meshing scheduler: pending positions and the in-flight builds,
/// tracked by position.
#[derive(Debug)]
pub struct Mesher {
    /// Positions waiting to be meshed, oldest first.
    pub queue: Vec<IVec3>,
    /// Positions whose builds are in flight, tracked by the driver.
    pub tasks: Vec<IVec3>,
}

impl Mesher {
    /// Positions with builds currently in flight.
    pub open spec fn spec_tasks(&self) -> Seq<IVec3> {
        self.tasks@
    }

    /// The in-flight set never exceeds the cap.
    pub open spec fn wf(&self) -> bool {
        self.spec_tasks().len() <= MAX_TASKS
    }

    /// Fresh scheduler: nothing queued, nothing in flight.
    pub fn new() -> (m: Self)
        ensures
            m.wf(),
            m.queue@.len() == 0,
            m.spec_tasks().len() == 0,
    {
        Self { queue: Vec::new(), tasks: Vec::new() }
    }

    /// Queue a position for meshing, behind everything already waiting.
    pub fn enqueue(&mut self, pos: IVec3)
        requires
            old(self).wf(),
        ensures
            final(self).wf(),
            final(self).queue@ == old(self).queue@.push(pos),
            final(self).spec_tasks() == old(self).spec_tasks(),
    {
        self.queue.push(pos);
    }

    /// Put a position back on the queue after its neighbourhood turned out
    /// to be incomplete; it is retried on a later tick.
    pub fn requeue(&mut self, pos: IVec3)
        requires
            old(self).wf(),
        ensures
            final(self).wf(),
            final(self).queue@ == old(self).queue@.push(pos),
            final(self).spec_tasks() == old(self).spec_tasks(),
    {
        self.queue.push(pos);
    }

    /// Number of builds in flight.
    pub fn tasks_len(&self) -> (n: usize)
        ensures
            n == self.spec_tasks().len(),
    {
        self.tasks.len()
    }

    /// Take this tick's batch off the front of the queue: as many waiting
    /// positions as there is spare capacity, in queue order.
    pub fn drain_batch(&mut self) -> (batch: Vec<IVec3>)
        requires
            old(self).wf(),
        ensures
            final(self).wf(),
            final(self).spec_tasks() == old(self).spec_tasks(),
            batch@.len() == min(
                old(self).queue@.len() as int,
                MAX_TASKS - old(self).spec_tasks().len(),
            ),
            batch@ == old(self).queue@.take(batch@.len() as int),
            final(self).queue@ == old(self).queue@.skip(batch@.len() as int),
    {
        let spare = MAX_TASKS - self.tasks.len();
        let l = if self.queue.len() < spare {
            self.queue.len()
        } else {
            spare
        };
        let mut batch: Vec<IVec3> = Vec::new();
        let ghost pre = self.queue@;
        let mut k: usize = 0;
        while k < l
            invariant
                k <= l,
                l <= pre.len(),
                batch@.len() == k,
                batch@ == pre.take(k as int),
                self.queue@ == pre.skip(k as int),
                self.tasks@ == old(self).tasks@,
                old(self).wf(),
            decreases l - k,
        {
            let p = self.queue.remove(0);
            batch.push(p);
            proof {
                assert(batch@ =~= pre.take(k as int + 1));
                assert(self.queue@ =~= pre.skip(k as int + 1));
            }
            k = k + 1;
        }
        batch
    }

    /// Record that a build was started for `pos`; capacity must be spare.
    pub fn task_started(&mut self, pos: IVec3)
        requires
            old(self).wf(),
            old(self).spec_tasks().len() < MAX_TASKS,
        ensures
            final(self).wf(),
            final(self).queue@ == old(self).queue@,
            final(self).spec_tasks() == old(self).spec_tasks().push(pos),
    {
        self.tasks.push(pos);
    }

    /// Retire the build tracked for `pos`: the first entry at that position
    /// leaves the in-flight set; without one, nothing changes.
    pub fn task_finished(&mut self, pos: IVec3)
        requires
            old(self).wf(),
        ensures
            final(self).wf(),
            final(self).queue@ == old(self).queue@,
            pos_index_from(old(self).spec_tasks(), pos, 0) >= 0 ==> final(self).spec_tasks()
                == old(self).spec_tasks().remove(pos_index_from(old(self).spec_tasks(), pos, 0)),
            pos_index_from(old(self).spec_tasks(), pos, 0) < 0 ==> final(self).spec_tasks() == old(
                self,
            ).spec_tasks(),
    {
        let ghost pre = self.tasks@;
        let mut i: usize = 0;
        while i < self.tasks.len()
            invariant
                self.tasks@ == pre,
                pre == old(self).spec_tasks(),
                self.queue@ == old(self).queue@,
                0 <= i <= pre.len(),
                old(self).wf(),
                pos_index_from(pre, pos, 0) == pos_index_from(pre, pos, i as int),
            decreases pre.len() - i,
        {
            if self.tasks[i] == pos {
                proof {
                    assert(pos_index_from(pre, pos, i as int) == i);
                }
                self.tasks.remove(i);
                return ;
            }
            i = i + 1;
        }
    }
}

/// Build the scheduler state used for the lifetime of the world; the caller
/// owns it and threads it through every tick.
pub fn init_mesher() -> (m: Mesher)
    ensures
        m.wf(),
        m.queue@.len() == 0,
        m.spec_tasks().len() == 0,
{
    Mesher::new()
}

/// A deferred unit of work: a chunk position that should not be attempted
/// before its due time.
#[derive(Debug, Clone, Copy, PartialEq, Eq, Structural)]
pub struct ScheduleEntry {
    pub position: IVec3,
    pub due_at: u64,
}

/// Whether some entry of `s` is pending for position `p`.
pub open spec fn sched_contains(s: Seq<ScheduleEntry>, p: IVec3) -> bool {
    exists|i: int| 0 <= i < s.len() && (#[trigger] s[i]).position == p
}

/// The persisted scheduling entries: at most one pending entry per
/// position. A retried position is removed and re-inserted whole with a new
/// due time; a due entry is consumed exactly once.
#[derive(Debug)]
pub struct ScheduleTable {
    entries: Vec<ScheduleEntry>,
}

impl ScheduleTable {
    /// The pending entries, oldest insertion last refreshed.
    pub closed spec fn entries(&self) -> Seq<ScheduleEntry> {
        self.entries@
    }

    /// At most one pending entry per position.
    pub open spec fn wf(&self) -> bool {
        forall|i: int, j: int|
            0 <= i < j < self.entries().len() ==> (#[trigger] self.entries()[i]).position != (
            #[trigger] self.entries()[j]).position
    }

    /// Fresh empty table.
    pub fn new() -> (t: Self)
        ensures
            t.wf(),
            t.entries().len() == 0,
    {
        ScheduleTable { entries: Vec::new() }
    }

    /// Number of pending entries.
    pub fn len(&self) -> (n: usize)
        ensures
            n == self.entries().len(),
    {
        self.entries.len()
    }

    /// Schedule `position` for `due_at`, dropping any pending entry for the
    /// same position first: the unique constraint holds by construction.
    pub fn insert(&mut self, position: IVec3, due_at: u64)
        requires
            old(self).wf(),
        ensures
            final(self).wf(),
            final(self).entries() == old(self).entries().filter(
                |e: ScheduleEntry| e.position != position,
            ).push(ScheduleEntry { position, due_at }),
    {
        let ghost pre = self.entries@;
        let ghost keep = |e: ScheduleEntry| e.position != position;
        let mut kept: Vec<ScheduleEntry> = Vec::new();
        let mut i: usize = 0;
        while i < self.entries.len()
            invariant
                self.entries@ == pre,
                pre == old(self).entries(),
                old(self).wf(),
                0 <= i <= pre.len(),
                kept@ == pre.take(i as int).filter(keep),
                keep == (|e: ScheduleEntry| e.position != position),
            decreases pre.len() - i,
        {
            let e = self.entries[i];
            if !(e.position == position) {
                kept.push(e);
            }
            proof {
                lemma_filter_take_step(pre, keep, i as int);
            }
            i = i + 1;
        }
        kept.push(ScheduleEntry { position, due_at });
        self.entries = kept;
        proof {
            assert(pre.take(pre.len() as int) =~= pre);
            lemma_filter_unique_positions(pre, keep);
            assert forall|a: int, b: int|
                0 <= a < b < self.entries@.len() implies (#[trigger] self.entries@[a]).position
                != (#[trigger] self.entries@[b]).position by {
                let f = pre.filter(keep);
                if b < f.len() {
                } else {
                    pre.lemma_filter_pred(keep, a);
                }
            }
        }
    }

    /// Consume every entry whose due time has passed, in order; entries not
    /// yet due stay pending, untouched.
    pub fn take_due(&mut self, now: u64) -> (due: Vec<ScheduleEntry>)
        requires
            old(self).wf(),
        ensures
            final(self).wf(),
            due@ == old(self).entries().filter(|e: ScheduleEntry| e.due_at <= now),
            final(self).entries() == old(self).entries().filter(|e: ScheduleEntry| e.due_at > now),
    {
        let ghost pre = self.entries@;
        let ghost is_due = |e: ScheduleEntry| e.due_at <= now;
        let ghost keep = |e: ScheduleEntry| e.due_at > now;
        let mut due: Vec<ScheduleEntry> = Vec::new();
        let mut kept: Vec<ScheduleEntry> = Vec::new();
        let mut i: usize = 0;
        while i < self.entries.len()
            invariant
                self.entries@ == pre,
                pre == old(self).entries(),
                old(self).wf(),
                0 <= i <= pre.len(),
                due@ == pre.take(i as int).filter(is_due),
                kept@ == pre.take(i as int).filter(keep),
                is_due == (|e: ScheduleEntry| e.due_at <= now),
                keep == (|e: ScheduleEntry| e.due_at > now),
            decreases pre.len() - i,
        {
            let e = self.entries[i];
            if e.due_at <= now {
                due.push(e);
            } else {
                kept.push(e);
            }
            proof {
                lemma_filter_take_step(pre, is_due, i as int);
                lemma_filter_take_step(pre, keep, i as int);
            }
            i = i + 1;
        }
        self.entries = kept;
        proof {
            assert(pre.take(pre.len() as int) =~= pre);
            lemma_filter_unique_positions(pre, keep);
        }
        due
    }
}

/// Filtering one more element of a prefix appends it exactly when the
/// predicate holds.
proof fn lemma_filter_take_step(s: Seq<ScheduleEntry>, pred: spec_fn(ScheduleEntry) -> bool, i: int)
    requires
        0 <= i < s.len(),
    ensures
        s.take(i + 1).filter(pred) == if pred(s[i]) {
            s.take(i).filter(pred).push(s[i])
        } else {
            s.take(i).filter(pred)
        },
{
    assert(s.take(i + 1) =~= s.take(i).push(s[i]));
    assert(s.take(i + 1).drop_last() =~= s.take(i));
    reveal(Seq::filter);
}

/// Filtering keeps positions unique.
proof fn lemma_filter_unique_positions(s: Seq<ScheduleEntry>, pred: spec_fn(ScheduleEntry) -> bool)
    requires
        forall|i: int, j: int|
            0 <= i < j < s.len() ==> (#[trigger] s[i]).position != (#[trigger] s[j]).position,
    ensures
        forall|i: int, j: int|
            0 <= i < j < s.filter(pred).len() ==> (#[trigger] s.filter(pred)[i]).position != (
            #[trigger] s.filter(pred)[j]).position,
    decreases s.len(),
{
    reveal(Seq::filter);
    if s.len() > 0 {
        let rest = s.drop_last();
        let last = s.last();
        let f = rest.filter(pred);
        assert forall|i: int, j: int|
            0 <= i < j < rest.len() implies (#[trigger] rest[i]).position != (
        #[trigger] rest[j]).position by {
            assert(rest[i] == s[i] && rest[j] == s[j]);
        }
        lemma_filter_unique_positions(rest, pred);
        if pred(last) {
            assert forall|i: int|
                0 <= i < f.len() implies (#[trigger] f[i]).position != last.position by {
                assert(f.contains(f[i]));
                rest.lemma_filter_contains_rev(pred, f[i]);
                let k = choose|k: int| 0 <= k < rest.len() && rest[k] == f[i];
                assert(s[k] == rest[k]);
                assert(s[k].position != s[s.len() - 1].position);
            }
            assert(s.filter(pred) == f.push(last));
            assert forall|i: int, j: int|
                0 <= i < j < s.filter(pred).len() implies (#[trigger] s.filter(pred)[i]).position
                != (#[trigger] s.filter(pred)[j]).position by {
                if j < f.len() {
                    assert(s.filter(pred)[i] == f[i] && s.filter(pred)[j] == f[j]);
                } else {
                    assert(s.filter(pred)[j] == last);
                    assert(s.filter(pred)[i] == f[i]);
                }
            }
        } else {
            assert(s.filter(pred) == f);
        }
    }
}

/// The tick driver's own state: a monotone counter advanced once per
/// period, only ever by the system's own scheduler.
#[derive(Debug, Clone, Copy, PartialEq, Eq, Structural)]
pub struct Ticker {
    pub ticks: u64,
}

/// Why a tick was rejected.
#[derive(Debug, Clone, Copy, PartialEq, Eq, Structural)]
pub enum TickError {
    Unauthorized,
}

impl Ticker {
    pub fn new() -> (t: Self)
        ensures
            t.ticks == 0,
    {
        Ticker { ticks: 0 }
    }

    /// Advance the driver by one period. A caller other than the system's
    /// own scheduler is rejected outright and the counter does not move;
    /// rejection is fatal to that invocation only.
    pub fn tick(&mut self, authorized: bool) -> (r: Result<u64, TickError>)
        requires
            old(self).ticks < u64::MAX,
        ensures
            authorized ==> final(self).ticks == old(self).ticks + 1 && r == Ok::<
                u64,
                TickError,
            >(final(self).ticks),
            !authorized ==> final(self).ticks == old(self).ticks && r == Err::<
                u64,
                TickError,
            >(TickError::Unauthorized),
    {
        if !authorized {
            return Err(TickError::Unauthorized);
        }
        self.ticks = self.ticks + 1;
        Ok(self.ticks)
    }
}

} // verus!
