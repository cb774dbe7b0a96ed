//! The scheduler: a single-threaded cooperative executor that owns every
//! periodic task. Tasks are registered with `spawn` before the run loop
//! starts; once started, the scheduler advances simulated time one instant at
//! a time and, at each instant, runs every task that is due, in registration
//! order. An individual task's failure is logged and absorbed; it never halts
//! the scheduler or the other tasks. The loop itself never finishes — the
//! process around it drives it window by window with `run_for`.

use vstd::prelude::*;

use crate::counter::SharedCounter;
use crate::task::{
    after_cycle, model_after, outcome_of, severity_of, tick_model, PeriodicTask, Severity,
    TaskModel, WorkKind, WorkOutcome,
};

verus! {

/// Misuse of `spawn`, fatal at startup.
#[derive(Clone, Copy, Debug, PartialEq, Eq, Structural)]
pub enum SpawnError {
    /// Registration after the run loop has started is a wiring bug.
    AlreadyStarted,
    /// Registration under a name that is already taken is a wiring bug.
    DuplicateName,
}

/// Is a task of this name already registered?
pub open spec fn has_task_named(tasks: Seq<PeriodicTask>, name: Seq<char>) -> bool {
    exists|x: int| 0 <= x < tasks.len() && (#[trigger] tasks[x]).name@ == name
}

/// One structured log line: which task, and at what severity its cycle ended.
#[derive(Clone, Copy, Debug, PartialEq, Eq, Structural)]
pub struct LogEvent {
    pub task: usize,
    pub severity: Severity,
}

/// The models of a row of tasks.
pub open spec fn models(tasks: Seq<PeriodicTask>) -> Seq<TaskModel> {
    tasks.map_values(|t: PeriodicTask| t.model())
}

/// Counter increments contributed at instant `now` by the due tasks from
/// index `i` on: one per due counter task.
pub open spec fn due_gain_from(ts: Seq<TaskModel>, now: int, i: nat) -> int
    decreases ts.len() - i,
{
    if i >= ts.len() {
        0
    } else {
        (if now >= ts[i as int].next_due && ts[i as int].kind is CounterTick {
            1int
        } else {
            0
        }) + due_gain_from(ts, now, i + 1)
    }
}

/// The log lines written at instant `now` by the due tasks from index `i`
/// on, in task order.
pub open spec fn due_log_from(ts: Seq<TaskModel>, now: int, i: nat) -> Seq<LogEvent>
    decreases ts.len() - i,
{
    if i >= ts.len() {
        Seq::empty()
    } else {
        let rest = due_log_from(ts, now, i + 1);
        if now >= ts[i as int].next_due {
            seq![
                LogEvent {
                    task: i as usize,
                    severity: severity_of(outcome_of(ts[i as int].kind)),
                },
            ] + rest
        } else {
            rest
        }
    }
}

/// Every task advanced through the instant `now`.
pub open spec fn advance_all(ts: Seq<TaskModel>, now: int) -> Seq<TaskModel> {
    ts.map_values(|t: TaskModel| tick_model(t, now))
}

/// The task models after the `u` instants `now + 1 ..= now + u`.
pub open spec fn sim_tasks(ts: Seq<TaskModel>, now: int, u: nat) -> Seq<TaskModel>
    decreases u,
{
    if u == 0 {
        ts
    } else {
        advance_all(sim_tasks(ts, now, (u - 1) as nat), now + u)
    }
}

/// The counter increments accumulated over those `u` instants.
pub open spec fn sim_gain(ts: Seq<TaskModel>, now: int, u: nat) -> int
    decreases u,
{
    if u == 0 {
        0
    } else {
        sim_gain(ts, now, (u - 1) as nat) + due_gain_from(
            sim_tasks(ts, now, (u - 1) as nat),
            now + u,
            0,
        )
    }
}

/// The log written over those `u` instants, in time and task order.
pub open spec fn sim_log(ts: Seq<TaskModel>, now: int, u: nat) -> Seq<LogEvent>
    decreases u,
{
    if u == 0 {
        Seq::empty()
    } else {
        sim_log(ts, now, (u - 1) as nat) + due_log_from(
            sim_tasks(ts, now, (u - 1) as nat),
            now + u,
            0,
        )
    }
}

/// At one instant, the due tasks from index `i` on contribute between zero
/// and one counter increment each.
pub proof fn lemma_due_gain_from_bounds(ts: Seq<TaskModel>, now: int, i: nat)
    ensures
        0 <= due_gain_from(ts, now, i) <= if i <= ts.len() {
            ts.len() - i
        } else {
            0int
        },
    decreases ts.len() - i,
{
    if i < ts.len() {
        lemma_due_gain_from_bounds(ts, now, i + 1);
    }
}

/// A simulated run touches each task independently: position `i` after `u`
/// instants is exactly that one task's model run `u` instants.
pub proof fn lemma_sim_tasks_pointwise(ts: Seq<TaskModel>, now: int, u: nat)
    ensures
        sim_tasks(ts, now, u).len() == ts.len(),
        forall|i: int|
            0 <= i < ts.len() ==> sim_tasks(ts, now, u)[i] == model_after(ts[i], now, u),
    decreases u,
{
    if u > 0 {
        lemma_sim_tasks_pointwise(ts, now, (u - 1) as nat);
    }
}

/// Over `u` instants, the counter gains at most `u` per task.
pub proof fn lemma_sim_gain_bound(ts: Seq<TaskModel>, now: int, u: nat)
    ensures
        0 <= sim_gain(ts, now, u) <= u * ts.len(),
    decreases u,
{
    if u > 0 {
        lemma_sim_gain_bound(ts, now, (u - 1) as nat);
        lemma_sim_tasks_pointwise(ts, now, (u - 1) as nat);
        lemma_due_gain_from_bounds(sim_tasks(ts, now, (u - 1) as nat), now + u, 0);
        assert((u - 1) * ts.len() + ts.len() == u * ts.len()) by (nonlinear_arith);
    } else {
        assert(u * ts.len() == 0) by (nonlinear_arith)
            requires
                u == 0,
        ;
    }
}

/// Room to run `units` instants without any count leaving `u64`.
pub open spec fn run_bounds(ts: Seq<TaskModel>, now: int, units: int, counter: int) -> bool {
    &&& now + units <= u64::MAX
    &&& counter + units * ts.len() <= u64::MAX
    &&& forall|i: int|
        0 <= i < ts.len() ==> {
            &&& (#[trigger] ts[i]).cycles + units <= u64::MAX
            &&& ts[i].failures + units <= u64::MAX
            &&& now + units + ts[i].interval <= u64::MAX
        }
}

/// The single-threaded cooperative executor.
pub struct Scheduler {
    pub started: bool,
    pub now: u64,
    pub tasks: Vec<PeriodicTask>,
}

impl Scheduler {
    /// A scheduler with no tasks, not yet started, at instant zero.
    pub fn new() -> (s: Scheduler)
        ensures
            !s.started,
            s.now == 0,
            s.tasks@ =~= Seq::<PeriodicTask>::empty(),
    {
        Scheduler { started: false, now: 0, tasks: Vec::new() }
    }

    /// Register a task. Before the run loop starts, a task under a fresh
    /// name always registers; registration after the start, or under a taken
    /// name, is refused as a wiring bug and the scheduler is left untouched.
    pub fn spawn(&mut self, t: PeriodicTask) -> (r: Result<(), SpawnError>)
        ensures
            match r {
                Ok(()) => {
                    &&& !old(self).started
                    &&& !has_task_named(old(self).tasks@, t.name@)
                    &&& final(self).tasks@ == old(self).tasks@.push(t)
                    &&& final(self).started == old(self).started
                    &&& final(self).now == old(self).now
                },
                Err(e) => {
                    &&& *final(self) == *old(self)
                    &&& e == (if old(self).started {
                        SpawnError::AlreadyStarted
                    } else {
                        SpawnError::DuplicateName
                    })
                    &&& (old(self).started || has_task_named(old(self).tasks@, t.name@))
                },
            },
    {
        if self.started {
            return Err(SpawnError::AlreadyStarted);
        }
        let mut x: usize = 0;
        while x < self.tasks.len()
            invariant
                0 <= x <= self.tasks@.len(),
                !self.started,
                forall|k: int| 0 <= k < x ==> (#[trigger] self.tasks@[k]).name@ != t.name@,
            decreases self.tasks@.len() - x,
        {
            if crate::toml_text::str_eq(self.tasks[x].name.as_str(), t.name.as_str()) {
                return Err(SpawnError::DuplicateName);
            }
            x = x + 1;
        }
        proof {
            if has_task_named(self.tasks@, t.name@) {
                let w = choose|w: int|
                    0 <= w < self.tasks@.len() && (#[trigger] self.tasks@[w]).name@ == t.name@;
                assert(self.tasks@[w].name@ != t.name@);
            }
        }
        self.tasks.push(t);
        Ok(())
    }

    /// Start the run loop. From here on the task set is fixed.
    pub fn start(&mut self)
        requires
            !old(self).started,
        ensures
            final(self).started,
            final(self).now == old(self).now,
            final(self).tasks@ == old(self).tasks@,
    {
        self.started = true;
    }

    /// Drive the run loop through the next `units` instants of simulated
    /// time. At each instant every due task performs its work (the counter
    /// task ticking the shared cell), has its cycle recorded, and is
    /// rescheduled one interval later; each cycle appends one log line, WARN
    /// for a failure and INFO otherwise. The scheduler keeps running whatever
    /// the outcomes: it returns with every task still registered and
    /// scheduled, and the log of the window.
    pub fn run_for(&mut self, cell: &mut SharedCounter, units: u64) -> (log: Vec<LogEvent>)
        requires
            old(self).started,
            run_bounds(
                models(old(self).tasks@),
                old(self).now as int,
                units as int,
                old(cell).value() as int,
            ),
        ensures
            final(self).started,
            final(self).now == old(self).now + units,
            final(self).tasks@.len() == old(self).tasks@.len(),
            forall|i: int|
                0 <= i < old(self).tasks@.len() ==> {
                    &&& (#[trigger] final(self).tasks@[i]).name == old(self).tasks@[i].name
                    &&& final(self).tasks@[i].model() == model_after(
                        old(self).tasks@[i].model(),
                        old(self).now as int,
                        units as nat,
                    )
                },
            final(cell).value() == old(cell).value() + sim_gain(
                models(old(self).tasks@),
                old(self).now as int,
                units as nat,
            ),
            log@ == sim_log(models(old(self).tasks@), old(self).now as int, units as nat),
    {
        let ghost tasks0 = self.tasks@;
        let ghost ts0 = models(self.tasks@);
        let ghost n0 = self.now as int;
        let ghost c0 = cell.value() as int;
        let mut log: Vec<LogEvent> = Vec::new();
        let mut done: u64 = 0;
        while done < units
            invariant
                done <= units,
                self.started,
                self.now as int == n0 + done,
                self.tasks@.len() == ts0.len(),
                ts0 == models(tasks0),
                tasks0.len() == ts0.len(),
                run_bounds(ts0, n0, units as int, c0),
                forall|i: int|
                    0 <= i < ts0.len() ==> {
                        &&& (#[trigger] self.tasks@[i]).name == tasks0[i].name
                        &&& self.tasks@[i].model() == sim_tasks(ts0, n0, done as nat)[i]
                    },
                cell.value() as int == c0 + sim_gain(ts0, n0, done as nat),
                log@ == sim_log(ts0, n0, done as nat),
            decreases units - done,
        {
            let now = self.now + 1;
            self.now = now;
            let ghost entry = models(self.tasks@);
            let ghost tick_tasks = self.tasks@;
            let ghost c_entry = cell.value() as int;
            let ghost log_entry = log@;
            proof {
                lemma_sim_tasks_pointwise(ts0, n0, done as nat);
                assert(entry =~= sim_tasks(ts0, n0, done as nat));
            }
            let n_tasks = self.tasks.len();
            let mut j: usize = 0;
            while j < n_tasks
                invariant
                    j <= n_tasks,
                    n_tasks == ts0.len(),
                    self.started,
                    self.now == now,
                    self.tasks@.len() == ts0.len(),
                    entry.len() == ts0.len(),
                    tick_tasks.len() == ts0.len(),
                    tasks0.len() == ts0.len(),
                    ts0 == models(tasks0),
                    entry == models(tick_tasks),
                    entry == sim_tasks(ts0, n0, done as nat),
                    done < units,
                    now as int == n0 + done + 1,
                    run_bounds(ts0, n0, units as int, c0),
                    c_entry == c0 + sim_gain(ts0, n0, done as nat),
                    log_entry == sim_log(ts0, n0, done as nat),
                    forall|i: int|
                        0 <= i < ts0.len() ==> (#[trigger] tick_tasks[i]).name == tasks0[i].name,
                    forall|i: int|
                        j <= i < ts0.len() ==> (#[trigger] self.tasks@[i]) == tick_tasks[i],
                    forall|i: int|
                        0 <= i < j ==> {
                            &&& (#[trigger] self.tasks@[i]).name == tasks0[i].name
                            &&& self.tasks@[i].model() == tick_model(entry[i], now as int)
                        },
                    cell.value() as int == c_entry + due_gain_from(entry, now as int, 0)
                        - due_gain_from(entry, now as int, j as nat),
                    log_entry + due_log_from(entry, now as int, 0) == log@ + due_log_from(
                        entry,
                        now as int,
                        j as nat,
                    ),
                decreases n_tasks - j,
            {
                proof {
                    lemma_sim_tasks_pointwise(ts0, n0, done as nat);
                    crate::task::lemma_model_after_bounds(ts0[j as int], n0, done as nat);
                    lemma_due_gain_from_bounds(entry, now as int, j as nat);
                    lemma_due_gain_from_bounds(entry, now as int, (j + 1) as nat);
                    lemma_due_gain_from_bounds(entry, now as int, 0);
                    lemma_sim_gain_bound(ts0, n0, done as nat);
                    assert((done + 1) * ts0.len() <= units * ts0.len()) by (nonlinear_arith)
                        requires
                            done + 1 <= units,
                            ts0.len() >= 0,
                    ;
                    assert(done * ts0.len() + ts0.len() == (done + 1) * ts0.len())
                        by (nonlinear_arith);
                }
                let due = self.tasks[j].is_due(now);
                if due {
                    let outcome = self.tasks[j].perform_work(cell);
                    let sev = self.tasks[j].complete_cycle(now, outcome);
                    log.push(LogEvent { task: j, severity: sev });
                    proof {
                        assert(self.tasks@[j as int].model() == after_cycle(
                            entry[j as int],
                            now as int,
                            outcome,
                        ));
                        assert(log_entry + due_log_from(entry, now as int, 0) =~= log@
                            + due_log_from(entry, now as int, (j + 1) as nat));
                    }
                } else {
                    proof {
                        assert(tick_model(entry[j as int], now as int) == entry[j as int]);
                    }
                }
                j = j + 1;
            }
            proof {
                assert(due_gain_from(entry, now as int, ts0.len() as nat) == 0);
                assert(due_log_from(entry, now as int, ts0.len() as nat)
                    =~= Seq::<LogEvent>::empty());
                assert(log_entry + due_log_from(entry, now as int, 0) =~= log@);
                assert(sim_tasks(ts0, n0, (done + 1) as nat) == advance_all(entry, now as int));
                assert(forall|i: int|
                    0 <= i < ts0.len() ==> advance_all(entry, now as int)[i] == tick_model(
                        entry[i],
                        now as int,
                    ));
                assert(log@ =~= sim_log(ts0, n0, (done + 1) as nat));
            }
            done = done + 1;
        }
        proof {
            lemma_sim_tasks_pointwise(ts0, n0, units as nat);
            assert(forall|i: int|
                0 <= i < ts0.len() ==> ts0[i] == (#[trigger] tasks0[i]).model());
        }
        log
    }
}

} // verus!
