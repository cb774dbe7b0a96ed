use roveros::bridge::{BlockingJob, BridgeError, WorkerReport};
use roveros::counter::SharedCounter;
use roveros::fetch::{fetch_cycle, fetch_cycle_outcome, FetchFailure};
use roveros::sched::{Scheduler, SpawnError};
use roveros::task::{PeriodicTask, Severity, WorkKind, WorkOutcome};

#[test]
fn counter_starts_at_zero_and_counts() {
    let mut c = SharedCounter::new();
    assert_eq!(c.get(), 0);
    c.increment();
    c.increment();
    assert_eq!(c.get(), 2);
}

#[test]
fn counter_n_ticks_end_at_exactly_n() {
    let mut c = SharedCounter::new();
    c.apply_ticks(1000);
    assert_eq!(c.get(), 1000);
    c.apply_ticks(234);
    assert_eq!(c.get(), 1234);
}

#[test]
fn bridge_resolves_finished_to_ok() {
    let r: Result<u32, BridgeError<String>> = roveros::bridge::resolve_report(
        WorkerReport::Finished(7),
    );
    assert_eq!(r, Ok(7));
}

#[test]
fn bridge_resolves_failure_to_operation_failed() {
    let r: Result<u32, BridgeError<String>> = roveros::bridge::resolve_report(
        WorkerReport::Failed(String::from("refused")),
    );
    assert_eq!(r, Err(BridgeError::OperationFailed(String::from("refused"))));
}

#[test]
fn bridge_resolves_panic_to_worker_panicked() {
    let r: Result<u32, BridgeError<String>> = roveros::bridge::resolve_report(
        WorkerReport::Panicked,
    );
    assert_eq!(r, Err(BridgeError::WorkerPanicked));
}

#[test]
fn bridge_resolves_deadline_to_timeout() {
    let r: Result<u32, BridgeError<String>> = roveros::bridge::resolve_report(
        WorkerReport::DeadlineExceeded,
    );
    assert_eq!(r, Err(BridgeError::Timeout));
}

#[test]
fn bridge_deadline_rule() {
    assert!(!roveros::bridge::deadline_exceeded(9_999, 10_000));
    assert!(roveros::bridge::deadline_exceeded(10_000, 10_000));
    assert!(roveros::bridge::deadline_exceeded(10_001, 10_000));
}

#[test]
fn blocking_job_is_delivered_once_and_consumed_once() {
    let mut job: BlockingJob<u32, String> = BlockingJob::new(10_000);
    job.deliver(WorkerReport::DeadlineExceeded);
    let r = job.take();
    assert_eq!(r, Err(BridgeError::Timeout));
}

#[test]
fn task_records_failures_and_reschedules() {
    let mut t = PeriodicTask::new(String::from("fetch"), 5, WorkKind::FailingFetch);
    assert!(!t.is_due(4));
    assert!(t.is_due(5));
    let sev = t.complete_cycle(5, WorkOutcome::Failure);
    assert_eq!(sev, Severity::Warn);
    assert_eq!(t.cycles, 1);
    assert_eq!(t.failures, 1);
    assert_eq!(t.next_due, 10);
    let sev2 = t.complete_cycle(10, WorkOutcome::Success);
    assert_eq!(sev2, Severity::Info);
    assert_eq!(t.cycles, 2);
    assert_eq!(t.failures, 1);
}

#[test]
fn task_work_outcome_matches_kind() {
    let mut cell = SharedCounter::new();
    let counter_task = PeriodicTask::new(String::from("count"), 1, WorkKind::CounterTick);
    let fetch_task = PeriodicTask::new(String::from("fetch"), 1, WorkKind::FailingFetch);
    let steady_task = PeriodicTask::new(String::from("steady"), 1, WorkKind::SteadyWork);
    assert_eq!(counter_task.perform_work(&mut cell), WorkOutcome::Success);
    assert_eq!(cell.get(), 1);
    assert_eq!(fetch_task.perform_work(&mut cell), WorkOutcome::Failure);
    assert_eq!(steady_task.perform_work(&mut cell), WorkOutcome::Success);
    assert_eq!(cell.get(), 1);
}

#[test]
fn spawn_after_start_is_refused() {
    let mut s = Scheduler::new();
    let t1 = PeriodicTask::new(String::from("count"), 1, WorkKind::CounterTick);
    assert!(s.spawn(t1).is_ok());
    s.start();
    let t2 = PeriodicTask::new(String::from("late"), 1, WorkKind::SteadyWork);
    assert_eq!(s.spawn(t2), Err(SpawnError::AlreadyStarted));
    assert_eq!(s.tasks.len(), 1);
}

#[test]
fn scheduler_runs_failing_fetch_and_counter_for_ten_units() {
    let mut s = Scheduler::new();
    let fetch = PeriodicTask::new(String::from("fetch"), 1, WorkKind::FailingFetch);
    let count = PeriodicTask::new(String::from("count"), 1, WorkKind::CounterTick);
    assert!(s.spawn(fetch).is_ok());
    assert!(s.spawn(count).is_ok());
    s.start();
    let mut cell = SharedCounter::new();
    let log = s.run_for(&mut cell, 10);
    // the counter task ran once per unit: exactly ten, none lost
    assert_eq!(cell.get(), 10);
    // the fetch task failed every unit and was logged at WARN each time
    let fetch_warnings = log
        .iter()
        .filter(|e| e.task == 0 && e.severity == Severity::Warn)
        .count();
    assert!(fetch_warnings >= 10);
    assert_eq!(fetch_warnings, 10);
    // every counter cycle was logged at INFO
    let count_infos = log
        .iter()
        .filter(|e| e.task == 1 && e.severity == Severity::Info)
        .count();
    assert_eq!(count_infos, 10);
    assert_eq!(log.len(), 20);
    // the scheduler is still running, both tasks still registered and scheduled
    assert!(s.started);
    assert_eq!(s.tasks.len(), 2);
    assert_eq!(s.tasks[0].cycles, 10);
    assert_eq!(s.tasks[0].failures, 10);
    assert_eq!(s.tasks[1].cycles, 10);
    assert_eq!(s.tasks[1].failures, 0);
    assert_eq!(s.now, 10);
}

#[test]
fn scheduler_respects_intervals() {
    let mut s = Scheduler::new();
    let slow = PeriodicTask::new(String::from("slow"), 3, WorkKind::SteadyWork);
    assert!(s.spawn(slow).is_ok());
    s.start();
    let mut cell = SharedCounter::new();
    let log = s.run_for(&mut cell, 10);
    // due at 3, 6 and 9: three cycles in ten units
    assert_eq!(s.tasks[0].cycles, 3);
    assert_eq!(log.len(), 3);
    assert_eq!(cell.get(), 0);
}

#[test]
fn fetch_cycle_classifies_bridge_outcomes() {
    let timeout: Result<String, BridgeError<String>> = Err(BridgeError::Timeout);
    assert_eq!(fetch_cycle(timeout), Err(FetchFailure::Timeout));
    let transport: Result<String, BridgeError<String>> =
        Err(BridgeError::OperationFailed(String::from("dns")));
    assert_eq!(fetch_cycle(transport), Err(FetchFailure::Transport));
    let panicked: Result<String, BridgeError<String>> = Err(BridgeError::WorkerPanicked);
    assert_eq!(fetch_cycle(panicked), Err(FetchFailure::WorkerPanicked));
    let garbage: Result<String, BridgeError<String>> = Ok(String::from("not a config"));
    assert_eq!(fetch_cycle(garbage), Err(FetchFailure::Parse));
}

#[test]
fn fetch_cycle_outcome_severity() {
    let failed: Result<roveros::mapping_config::MappingConfig, FetchFailure> =
        Err(FetchFailure::Timeout);
    assert_eq!(fetch_cycle_outcome(&failed), WorkOutcome::Failure);
}

#[test]
fn spawn_duplicate_name_is_refused() {
    let mut s = Scheduler::new();
    let t1 = PeriodicTask::new(String::from("count"), 1, WorkKind::CounterTick);
    let t2 = PeriodicTask::new(String::from("count"), 2, WorkKind::SteadyWork);
    assert!(s.spawn(t1).is_ok());
    assert_eq!(s.spawn(t2), Err(SpawnError::DuplicateName));
    assert_eq!(s.tasks.len(), 1);
}

#[test]
fn load_monitor_alerts_on_threshold_crossings_only() {
    let mut m = roveros::monitor::LoadMonitor::new(800);
    assert!(!m.observe(200));
    assert!(!m.observe(799));
    assert!(m.observe(800));
    assert!(!m.observe(950));
    assert!(!m.observe(400));
    assert!(m.observe(1000));
}

#[test]
fn load_monitor_first_sample_at_threshold_alerts() {
    let mut m = roveros::monitor::LoadMonitor::new(100);
    assert!(m.observe(150));
    assert!(!m.observe(150));
}
