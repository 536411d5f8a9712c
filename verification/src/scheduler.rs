//! The probe scheduler: a state machine driven by a periodic timer, which
//! dispatches one probe per tick, never two at once, and hands the sink
//! exactly one record per outcome, in dispatch order. Waiting for the
//! timer and running the blocking probe are the caller's suspension
//! points; the machine itself only decides.

use vstd::prelude::*;

use crate::addr::IpAddress;
use crate::probe::ProbeOutcome;
use crate::sink::LogMessage;
use crate::sink::message_for;
use crate::sink::messages_for;

verus! {

/// The milliseconds of the default probe interval.
pub const DEFAULT_INTERVAL_MILLIS: u64 = 5000;

/// The spacing of ticks: a positive duration, set once from
/// configuration and never changed.
#[derive(Clone, Copy, Debug, PartialEq, Eq, Structural)]
pub struct ProbeInterval {
    /// The tick spacing in milliseconds; always positive.
    pub millis: u64,
}

impl ProbeInterval {
    /// An interval must be positive: a zero spacing would make the timer
    /// fire without pause.
    pub open spec fn valid(self) -> bool {
        self.millis > 0
    }

    /// Accept a configured spacing, rejecting zero.
    pub fn new(millis: u64) -> (r: Option<ProbeInterval>)
        ensures
            millis > 0 ==> r == Some(ProbeInterval { millis }),
            millis == 0 ==> r is None,
            r matches Some(iv) ==> iv.valid(),
    {
        if millis > 0 {
            Some(ProbeInterval { millis })
        } else {
            None
        }
    }
}

impl Default for ProbeInterval {
    /// The default spacing of five seconds.
    fn default() -> (r: Self)
        ensures
            r.millis == DEFAULT_INTERVAL_MILLIS,
            r.valid(),
    {
        ProbeInterval { millis: DEFAULT_INTERVAL_MILLIS }
    }
}

/// Where the scheduler stands. `Dispatching` is entered from
/// `WaitingForTick` only and left only when the outcome is in, so at most
/// one probe is ever in flight; `Stopped` is reachable from
/// `WaitingForTick` only, never over a probe still in flight.
#[derive(Clone, Copy, Debug, PartialEq, Eq, Structural)]
pub enum SchedulerPhase {
    /// Idle between ticks.
    WaitingForTick,
    /// One probe is in flight.
    Dispatching,
    /// Told to stop; no further ticks are dispatched.
    Stopped,
}

/// The scheduler: the shared read-only target, the phase, and the records
/// handed to the sink so far, oldest first.
pub struct Scheduler {
    /// The resolved target every tick probes.
    pub target: IpAddress,
    /// Where the machine stands.
    pub phase: SchedulerPhase,
    /// Every record handed to the sink, in dispatch order.
    pub log: Vec<LogMessage>,
}

impl Scheduler {
    /// A fresh scheduler for this target: idle, nothing logged, no tick
    /// fired yet.
    pub fn new(target: IpAddress) -> (s: Scheduler)
        ensures
            s.target == target,
            s.phase == SchedulerPhase::WaitingForTick,
            s.log@ == Seq::<LogMessage>::empty(),
    {
        Scheduler { target, phase: SchedulerPhase::WaitingForTick, log: Vec::new() }
    }

    /// A tick fired: dispatch one probe. Only an idle scheduler may
    /// dispatch, so ticks that would overlap a probe in flight cannot be
    /// taken.
    pub fn begin_tick(&mut self)
        requires
            old(self).phase == SchedulerPhase::WaitingForTick,
        ensures
            final(self).phase == SchedulerPhase::Dispatching,
            final(self).target == old(self).target,
            final(self).log == old(self).log,
    {
        self.phase = SchedulerPhase::Dispatching;
    }

    /// The probe in flight reported its outcome: log exactly one record
    /// for it and fall back to idle. A probe failure never ends the loop.
    pub fn finish_dispatch(&mut self, outcome: ProbeOutcome) -> (rec: LogMessage)
        requires
            old(self).phase == SchedulerPhase::Dispatching,
        ensures
            final(self).phase == SchedulerPhase::WaitingForTick,
            final(self).target == old(self).target,
            rec == message_for(old(self).target, outcome),
            final(self).log@ == old(self).log@.push(rec),
    {
        let rec = match outcome {
            ProbeOutcome::Success => LogMessage::SentPing(self.target),
            ProbeOutcome::Failure(e) => LogMessage::FailedPing(self.target, e),
        };
        self.log.push(rec);
        self.phase = SchedulerPhase::WaitingForTick;
        rec
    }

    /// Stop for good. Only an idle scheduler can be stopped: a probe in
    /// flight is never interrupted from here.
    pub fn stop(&mut self)
        requires
            old(self).phase == SchedulerPhase::WaitingForTick,
        ensures
            final(self).phase == SchedulerPhase::Stopped,
            final(self).target == old(self).target,
            final(self).log == old(self).log,
    {
        self.phase = SchedulerPhase::Stopped;
    }
}

/// Run the machine through a whole sequence of tick outcomes and stop:
/// exactly one record per outcome comes out, in dispatch order, each the
/// record of its own tick's outcome.
pub fn run_ticks(target: IpAddress, outcomes: &Vec<ProbeOutcome>) -> (log: Vec<LogMessage>)
    ensures
        log@ == messages_for(target, outcomes@),
        log@.len() == outcomes@.len(),
{
    let mut sched = Scheduler::new(target);
    let mut i: usize = 0;
    while i < outcomes.len()
        invariant
            i <= outcomes@.len(),
            sched.phase == SchedulerPhase::WaitingForTick,
            sched.target == target,
            sched.log@ == messages_for(target, outcomes@.take(i as int)),
        decreases outcomes@.len() - i,
    {
        sched.begin_tick();
        let _rec = sched.finish_dispatch(outcomes[i]);
        proof {
            assert(outcomes@.take(i as int).push(outcomes@[i as int]) =~= outcomes@.take(
                i as int + 1,
            ));
            assert(messages_for(target, outcomes@.take(i as int + 1)) =~= messages_for(
                target,
                outcomes@.take(i as int),
            ).push(message_for(target, outcomes@[i as int])));
        }
        i += 1;
    }
    proof {
        assert(outcomes@.take(outcomes@.len() as int) =~= outcomes@);
    }
    sched.stop();
    sched.log
}

/// When every probe of a run succeeds, the run logs exactly one success
/// record per tick — no more, no fewer — strictly in dispatch order.
pub proof fn lemma_all_success_run(target: IpAddress, outcomes: Seq<ProbeOutcome>)
    requires
        forall|i: int| 0 <= i < outcomes.len() ==> outcomes[i] == ProbeOutcome::Success,
    ensures
        messages_for(target, outcomes).len() == outcomes.len(),
        forall|i: int|
            0 <= i < outcomes.len() ==> messages_for(target, outcomes)[i]
                == LogMessage::SentPing(target),
{
}

} // verus!
