//! Periodic tasks: a unit of recurring work identified by a name, an
//! interval, and a kind of work. A task's life is one loop — perform the
//! work, record the outcome, sleep one interval, repeat forever. A failed
//! cycle is logged and absorbed; it never ends the task.
//!
//! Time is counted in discrete simulated units. A task carries the next
//! instant it is due; completing a cycle at instant `now` schedules the next
//! one at `now + interval` (a late cycle starts the next wait from its own
//! completion — there is no catch-up).

use vstd::prelude::*;

use crate::counter::SharedCounter;

verus! {

/// What a task's recurring work does each cycle, within the verified core.
/// Real fetch/write work is performed outside and reported back; these kinds
/// are the deterministic stand-ins the scheduler simulation runs.
#[derive(Clone, Copy, Debug, PartialEq, Eq, Structural)]
pub enum WorkKind {
    /// Increment the shared counter cell; always succeeds.
    CounterTick,
    /// A remote fetch that fails every cycle (a mocked unreachable source).
    FailingFetch,
    /// Work that succeeds without touching shared state.
    SteadyWork,
}

/// The result of one cycle of work.
#[derive(Clone, Copy, Debug, PartialEq, Eq, Structural)]
pub enum WorkOutcome {
    Success,
    Failure,
}

/// Severity of the log line a cycle produces.
#[derive(Clone, Copy, Debug, PartialEq, Eq, Structural)]
pub enum Severity {
    Info,
    Warn,
}

/// The outcome each work kind produces in the simulation.
pub open spec fn outcome_of(kind: WorkKind) -> WorkOutcome {
    match kind {
        WorkKind::CounterTick => WorkOutcome::Success,
        WorkKind::FailingFetch => WorkOutcome::Failure,
        WorkKind::SteadyWork => WorkOutcome::Success,
    }
}

/// A successful cycle logs at INFO, a failed one at WARN.
pub open spec fn severity_of(outcome: WorkOutcome) -> Severity {
    match outcome {
        WorkOutcome::Success => Severity::Info,
        WorkOutcome::Failure => Severity::Warn,
    }
}

/// The mathematical state of one periodic task.
pub ghost struct TaskModel {
    pub interval: int,
    pub kind: WorkKind,
    pub next_due: int,
    pub cycles: int,
    pub failures: int,
}

/// A task as first registered: never run, first due one interval in.
pub open spec fn fresh_task(interval: int, kind: WorkKind) -> TaskModel {
    TaskModel { interval, kind, next_due: interval, cycles: 0, failures: 0 }
}

/// A task model that makes sense at instant `now`: a positive interval, and
/// the task is scheduled no further out than one full interval.
pub open spec fn task_invariant(t: TaskModel, now: int) -> bool {
    &&& t.interval >= 1
    &&& t.next_due <= now + t.interval
    &&& t.cycles >= 0
    &&& t.failures >= 0
}

/// The state after completing one cycle at instant `now`: one more cycle on
/// the books, one more failure if the work failed, next cycle due one
/// interval after this completion.
pub open spec fn after_cycle(t: TaskModel, now: int, outcome: WorkOutcome) -> TaskModel {
    TaskModel {
        interval: t.interval,
        kind: t.kind,
        next_due: now + t.interval,
        cycles: t.cycles + 1,
        failures: t.failures + if outcome is Failure { 1int } else { 0 },
    }
}

/// One instant of simulated time has arrived at `now`: the task runs its
/// cycle if it is due, and otherwise keeps waiting.
pub open spec fn tick_model(t: TaskModel, now: int) -> TaskModel {
    if now >= t.next_due {
        after_cycle(t, now, outcome_of(t.kind))
    } else {
        t
    }
}

/// The task's state after the `units` instants `now + 1 ..= now + units`
/// have passed.
pub open spec fn model_after(t: TaskModel, now: int, units: nat) -> TaskModel
    decreases units,
{
    if units == 0 {
        t
    } else {
        tick_model(model_after(t, now, (units - 1) as nat), now + units)
    }
}

/// Peeling the first instant off a run instead of the last.
pub proof fn lemma_model_after_front(t: TaskModel, now: int, units: nat)
    requires
        units >= 1,
    ensures
        model_after(t, now, units) == model_after(tick_model(t, now + 1), now + 1, (units - 1) as nat),
    decreases units,
{
    if units == 1 {
        assert(model_after(t, now, 0) == t);
        assert(model_after(tick_model(t, now + 1), now + 1, 0) == tick_model(t, now + 1));
    } else {
        lemma_model_after_front(t, now, (units - 1) as nat);
    }
}

/// A run never loses history: interval and kind are fixed, cycle and failure
/// counts only grow, and they grow by at most one per instant.
pub proof fn lemma_model_after_bounds(t: TaskModel, now: int, units: nat)
    ensures
        model_after(t, now, units).interval == t.interval,
        model_after(t, now, units).kind == t.kind,
        t.cycles <= model_after(t, now, units).cycles <= t.cycles + units,
        t.failures <= model_after(t, now, units).failures <= t.failures + units,
    decreases units,
{
    if units > 0 {
        lemma_model_after_bounds(t, now, (units - 1) as nat);
    }
}

/// Running `u1` instants and then `u2` more is one run of `u1 + u2`.
pub proof fn lemma_model_after_join(t: TaskModel, now: int, u1: nat, u2: nat)
    ensures
        model_after(model_after(t, now, u1), now + u1, u2) == model_after(t, now, u1 + u2),
    decreases u2,
{
    if u2 > 0 {
        lemma_model_after_join(t, now, u1, (u2 - 1) as nat);
    }
}

/// A scheduled task stays scheduled: the task invariant survives any run.
pub proof fn lemma_task_invariant_preserved(t: TaskModel, now: int, units: nat)
    requires
        task_invariant(t, now),
    ensures
        task_invariant(model_after(t, now, units), now + units),
    decreases units,
{
    if units > 0 {
        lemma_task_invariant_preserved(t, now, (units - 1) as nat);
    }
}

/// A scheduled task is invoked at least once more within one full interval.
pub proof fn lemma_due_within(t: TaskModel, now: int, units: nat)
    requires
        t.interval >= 1,
        units >= 1,
        t.next_due <= now + units,
    ensures
        model_after(t, now, units).cycles >= t.cycles + 1,
    decreases units,
{
    lemma_model_after_front(t, now, units);
    let t1 = tick_model(t, now + 1);
    if now + 1 >= t.next_due {
        lemma_model_after_bounds(t1, now + 1, (units - 1) as nat);
    } else {
        lemma_due_within(t1, now + 1, (units - 1) as nat);
    }
}

/// In a run of a task whose work fails every cycle, every completed cycle is
/// a failure: the failure count grows in step with the cycle count.
pub proof fn lemma_failures_track_cycles(t: TaskModel, now: int, units: nat)
    requires
        t.kind is FailingFetch,
    ensures
        model_after(t, now, units).failures - t.failures == model_after(t, now, units).cycles - t.cycles,
    decreases units,
{
    if units > 0 {
        lemma_failures_track_cycles(t, now, (units - 1) as nat);
        lemma_model_after_bounds(t, now, (units - 1) as nat);
    }
}

/// Liveness under persistent failure: however long a task whose work always
/// fails has been running, it is still scheduled, every one of its cycles so
/// far was a failed cycle that it survived, and within one more full interval
/// it performs its work at least once again — it retries indefinitely.
pub proof fn lemma_failing_task_lives(t: TaskModel, now: int, units: nat)
    requires
        t.kind is FailingFetch,
        task_invariant(t, now),
    ensures
        task_invariant(model_after(t, now, units), now + units),
        model_after(t, now, units).failures - t.failures == model_after(t, now, units).cycles - t.cycles,
        model_after(t, now, (units + t.interval) as nat).cycles >= model_after(t, now, units).cycles + 1,
{
    lemma_task_invariant_preserved(t, now, units);
    lemma_failures_track_cycles(t, now, units);
    let a = model_after(t, now, units);
    lemma_model_after_bounds(t, now, units);
    lemma_due_within(a, now + units, t.interval as nat);
    lemma_model_after_join(t, now, units, t.interval as nat);
}

/// One periodic unit of recurring work.
pub struct PeriodicTask {
    pub name: String,
    pub interval: u64,
    pub kind: WorkKind,
    pub next_due: u64,
    pub cycles: u64,
    pub failures: u64,
}

impl PeriodicTask {
    /// The task's mathematical state.
    pub open spec fn model(&self) -> TaskModel {
        TaskModel {
            interval: self.interval as int,
            kind: self.kind,
            next_due: self.next_due as int,
            cycles: self.cycles as int,
            failures: self.failures as int,
        }
    }

    /// A freshly registered task: first due one interval from now.
    pub fn new(name: String, interval: u64, kind: WorkKind) -> (t: PeriodicTask)
        requires
            interval >= 1,
        ensures
            t.name == name,
            t.model() == fresh_task(interval as int, kind),
    {
        PeriodicTask { name, interval, kind, next_due: interval, cycles: 0, failures: 0 }
    }

    /// Is the task due to run at instant `now`?
    pub fn is_due(&self, now: u64) -> (r: bool)
        ensures
            r == (now as int >= self.model().next_due),
    {
        now >= self.next_due
    }

    /// Record one completed cycle at instant `now` with the given outcome,
    /// and schedule the next cycle one interval after this completion. A
    /// failure is recorded and absorbed — the task stays scheduled. Returns
    /// the severity at which this cycle is to be logged.
    pub fn complete_cycle(&mut self, now: u64, outcome: WorkOutcome) -> (sev: Severity)
        requires
            old(self).cycles < u64::MAX,
            old(self).failures < u64::MAX,
            now + old(self).interval <= u64::MAX,
        ensures
            final(self).name == old(self).name,
            final(self).model() == after_cycle(old(self).model(), now as int, outcome),
            sev == severity_of(outcome),
    {
        self.cycles = self.cycles + 1;
        if let WorkOutcome::Failure = outcome {
            self.failures = self.failures + 1;
        }
        self.next_due = now + self.interval;
        match outcome {
            WorkOutcome::Success => Severity::Info,
            WorkOutcome::Failure => Severity::Warn,
        }
    }

    /// Perform one cycle's work, by kind. The counter kind ticks the shared
    /// cell; the failing fetch reports a failure; steady work reports a
    /// success and touches nothing.
    pub fn perform_work(&self, cell: &mut SharedCounter) -> (o: WorkOutcome)
        requires
            self.kind is CounterTick ==> old(cell).value() < u64::MAX,
        ensures
            o == outcome_of(self.kind),
            final(cell).value() == old(cell).value() + if self.kind is CounterTick { 1int } else { 0 },
    {
        match self.kind {
            WorkKind::CounterTick => {
                cell.increment();
                WorkOutcome::Success
            },
            WorkKind::FailingFetch => WorkOutcome::Failure,
            WorkKind::SteadyWork => WorkOutcome::Success,
        }
    }
}

} // verus!
