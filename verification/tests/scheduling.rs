use pinger::scheduler::run_ticks;
use pinger::scheduler::DEFAULT_INTERVAL_MILLIS;
use pinger::shutdown::conclude;
use pinger::DispatchError;
use pinger::IpAddress;
use pinger::Level;
use pinger::LogMessage;
use pinger::ProbeError;
use pinger::ProbeInterval;
use pinger::ProbeOutcome;
use pinger::ProcessState;
use pinger::RunEnd;
use pinger::Scheduler;
use pinger::SchedulerPhase;
use pinger::ShutdownCoordinator;

fn target() -> IpAddress {
    IpAddress::V4(192, 0, 2, 7)
}

#[test]
fn each_success_logs_one_record_in_order() {
    let outcomes = vec![ProbeOutcome::Success; 4];
    let log = run_ticks(target(), &outcomes);
    assert_eq!(log.len(), 4);
    for rec in &log {
        assert_eq!(*rec, LogMessage::SentPing(target()));
    }
}

#[test]
fn no_ticks_log_nothing() {
    let log = run_ticks(target(), &Vec::new());
    assert!(log.is_empty());
}

#[test]
fn alternating_outcomes_log_in_lockstep() {
    let outcomes = vec![
        ProbeOutcome::Success,
        ProbeOutcome::Failure(ProbeError::Timeout),
        ProbeOutcome::Success,
        ProbeOutcome::Failure(ProbeError::Timeout),
    ];
    let log = run_ticks(target(), &outcomes);
    assert_eq!(
        log,
        vec![
            LogMessage::SentPing(target()),
            LogMessage::FailedPing(target(), ProbeError::Timeout),
            LogMessage::SentPing(target()),
            LogMessage::FailedPing(target(), ProbeError::Timeout),
        ]
    );
}

#[test]
fn every_failure_reason_is_logged_as_an_error() {
    let outcomes = vec![
        ProbeOutcome::Failure(ProbeError::Timeout),
        ProbeOutcome::Failure(ProbeError::Unreachable),
        ProbeOutcome::Failure(ProbeError::Socket),
    ];
    let log = run_ticks(target(), &outcomes);
    assert_eq!(log.len(), 3);
    assert_eq!(log[0], LogMessage::FailedPing(target(), ProbeError::Timeout));
    assert_eq!(log[1], LogMessage::FailedPing(target(), ProbeError::Unreachable));
    assert_eq!(log[2], LogMessage::FailedPing(target(), ProbeError::Socket));
    for rec in &log {
        assert_eq!(rec.level(), Level::Error);
    }
}

#[test]
fn record_levels_match_their_kind() {
    assert_eq!(LogMessage::SentPing(target()).level(), Level::Info);
    assert_eq!(
        LogMessage::FailedPing(target(), ProbeError::Socket).level(),
        Level::Error
    );
    assert_eq!(LogMessage::ShuttingDown.level(), Level::Info);
    assert_eq!(LogMessage::SchedulerFailed(DispatchError).level(), Level::Error);
}

#[test]
fn scheduler_phases_step_as_the_machine_says() {
    let mut sched = Scheduler::new(target());
    assert_eq!(sched.phase, SchedulerPhase::WaitingForTick);
    assert!(sched.log.is_empty());

    sched.begin_tick();
    assert_eq!(sched.phase, SchedulerPhase::Dispatching);

    let rec = sched.finish_dispatch(ProbeOutcome::Success);
    assert_eq!(rec, LogMessage::SentPing(target()));
    assert_eq!(sched.phase, SchedulerPhase::WaitingForTick);
    assert_eq!(sched.log, vec![LogMessage::SentPing(target())]);

    sched.stop();
    assert_eq!(sched.phase, SchedulerPhase::Stopped);
    assert_eq!(sched.log, vec![LogMessage::SentPing(target())]);
}

#[test]
fn second_signal_is_without_effect() {
    let mut coord = ShutdownCoordinator::new();
    assert_eq!(coord.state, ProcessState::Running);

    let first = coord.on_signal();
    assert_eq!(first, Some(LogMessage::ShuttingDown));
    assert_eq!(coord.state, ProcessState::ShuttingDown);

    let second = coord.on_signal();
    assert_eq!(second, None);
    assert_eq!(coord.state, ProcessState::ShuttingDown);
}

#[test]
fn three_ticks_then_a_signal_exit_cleanly() {
    let outcomes = vec![ProbeOutcome::Success; 3];
    let log = run_ticks(target(), &outcomes);
    assert_eq!(
        log,
        vec![
            LogMessage::SentPing(target()),
            LogMessage::SentPing(target()),
            LogMessage::SentPing(target()),
        ]
    );

    let mut coord = ShutdownCoordinator::new();
    let notice = coord.on_signal();
    assert_eq!(notice, Some(LogMessage::ShuttingDown));

    let (record, clean) = conclude(RunEnd::SignalReceived);
    assert_eq!(record, LogMessage::ShuttingDown);
    assert!(clean);
}

#[test]
fn a_dispatch_failure_ends_the_run_unclean() {
    let (record, clean) = conclude(RunEnd::SchedulerFailed(DispatchError));
    assert_eq!(record, LogMessage::SchedulerFailed(DispatchError));
    assert!(!clean);
}

#[test]
fn no_address_means_no_ping_is_ever_sent() {
    let lookup = pinger::LookupOutcome::Addresses(Vec::new());
    let resolved = pinger::resolver::resolve_from_lookup(&lookup);
    assert_eq!(resolved, Err(pinger::ResolutionError::NoAddresses));

    // Startup aborts before the loop: a scheduler that never ran has an
    // empty log, so no success record is ever produced.
    let sched = Scheduler::new(target());
    assert!(sched.log.is_empty());
    assert!(!sched.log.contains(&LogMessage::SentPing(target())));
}

#[test]
fn log_rotation_defaults_to_daily() {
    assert_eq!(pinger::LogRotation::default(), pinger::LogRotation::Daily);
}

#[test]
fn intervals_must_be_positive() {
    assert_eq!(ProbeInterval::new(0), None);
    let iv = ProbeInterval::new(100).unwrap();
    assert_eq!(iv.millis, 100);
    assert_eq!(ProbeInterval::default().millis, DEFAULT_INTERVAL_MILLIS);
    assert_eq!(DEFAULT_INTERVAL_MILLIS, 5000);
}
