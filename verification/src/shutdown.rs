//! The shutdown coordinator: termination signals race the scheduler loop,
//! whichever resolves first wins, and only the first signal means
//! anything. The waiting itself — OS signals, the cooperative race — is
//! the caller's; this module fixes what each event does to the process
//! state and which single record it emits.

use vstd::prelude::*;

use crate::probe::DispatchError;
use crate::sink::LogMessage;

verus! {

/// The process-wide state the coordinator guards.
#[derive(Clone, Copy, Debug, PartialEq, Eq, Structural)]
pub enum ProcessState {
    /// The probe loop runs; signals are being listened for.
    Running,
    /// The race has resolved; no further ticks are dispatched.
    ShuttingDown,
}

/// What one signal does to a state: the first moves it to
/// `ShuttingDown` and emits the one shutdown record; every later one
/// changes nothing and emits nothing.
pub open spec fn spec_on_signal(state: ProcessState) -> (ProcessState, Option<LogMessage>) {
    match state {
        ProcessState::Running => (ProcessState::ShuttingDown, Some(LogMessage::ShuttingDown)),
        ProcessState::ShuttingDown => (ProcessState::ShuttingDown, None),
    }
}

/// How many records a run of `n` signals from `state` emits.
pub open spec fn records_emitted(state: ProcessState, n: nat) -> nat
    decreases n,
{
    if n == 0 {
        0
    } else {
        let stepped = spec_on_signal(state);
        (if stepped.1 is Some {
            1nat
        } else {
            0nat
        }) + records_emitted(stepped.0, (n - 1) as nat)
    }
}

/// Once shutting down, further signals emit nothing at all.
pub proof fn lemma_no_records_once_down(n: nat)
    ensures
        records_emitted(ProcessState::ShuttingDown, n) == 0,
    decreases n,
{
    if n > 0 {
        lemma_no_records_once_down((n - 1) as nat);
    }
}

/// Idempotence of shutdown: however many signals arrive — one, or two in
/// quick succession, or more — a running process emits exactly one
/// shutdown record and shuts down exactly once.
pub proof fn lemma_shutdown_idempotent(n: nat)
    requires
        n >= 1,
    ensures
        records_emitted(ProcessState::Running, n) == 1,
{
    lemma_no_records_once_down((n - 1) as nat);
}

/// The coordinator that observes signals.
pub struct ShutdownCoordinator {
    /// The state the signals drive.
    pub state: ProcessState,
}

impl ShutdownCoordinator {
    /// A coordinator for a freshly started process.
    pub fn new() -> (c: ShutdownCoordinator)
        ensures
            c.state == ProcessState::Running,
    {
        ShutdownCoordinator { state: ProcessState::Running }
    }

    /// Observe one termination signal (interrupt or terminate alike):
    /// exactly `spec_on_signal` — the first observation emits the one
    /// shutdown record, any further observation is without effect.
    pub fn on_signal(&mut self) -> (r: Option<LogMessage>)
        ensures
            final(self).state == spec_on_signal(old(self).state).0,
            r == spec_on_signal(old(self).state).1,
            final(self).state == ProcessState::ShuttingDown,
    {
        match self.state {
            ProcessState::Running => {
                self.state = ProcessState::ShuttingDown;
                Some(LogMessage::ShuttingDown)
            },
            ProcessState::ShuttingDown => None,
        }
    }
}

/// How the race ended: which of the two concurrently polled branches
/// resolved first.
#[derive(Clone, Copy, Debug, PartialEq, Eq, Structural)]
pub enum RunEnd {
    /// A termination signal won; the scheduler loop is abandoned at its
    /// current suspension point.
    SignalReceived,
    /// The scheduler loop ended itself with a dispatch failure.
    SchedulerFailed(DispatchError),
}

/// Resolve the race: the one final record to log, and whether the process
/// exits cleanly. A signal exits cleanly with the shutdown notice; a
/// scheduler failure exits non-clean with the one fatal record.
pub fn conclude(end: RunEnd) -> (r: (LogMessage, bool))
    ensures
        r == match end {
            RunEnd::SignalReceived => (LogMessage::ShuttingDown, true),
            RunEnd::SchedulerFailed(e) => (LogMessage::SchedulerFailed(e), false),
        },
{
    match end {
        RunEnd::SignalReceived => (LogMessage::ShuttingDown, true),
        RunEnd::SchedulerFailed(e) => (LogMessage::SchedulerFailed(e), false),
    }
}

} // verus!
