//! Records handed to the logging sink: one per probe outcome, one for the
//! shutdown signal, one for a fatal scheduler error. The sink's own
//! formatting, rotation and retention are outside collaborators; the
//! verified core fixes only which records exist and in what order.

use vstd::prelude::*;

use crate::addr::IpAddress;
use crate::probe::DispatchError;
use crate::probe::ProbeError;
use crate::probe::ProbeOutcome;

verus! {

/// The severity of a record.
#[derive(Clone, Copy, Debug, PartialEq, Eq, Structural)]
pub enum Level {
    Info,
    Error,
}

/// One record for the logging sink.
#[derive(Clone, Copy, Debug, PartialEq, Eq, Structural)]
pub enum LogMessage {
    /// A probe round-trip to the target completed.
    SentPing(IpAddress),
    /// A probe to the target failed for the given reason.
    FailedPing(IpAddress, ProbeError),
    /// The shutdown signal won the race; the process exits cleanly.
    ShuttingDown,
    /// The scheduler loop ended with a dispatch failure; the process exits
    /// with a non-clean status.
    SchedulerFailed(DispatchError),
}

/// The severity each record carries: probe successes and the shutdown
/// notice are informational, failures are errors.
pub open spec fn spec_level(m: LogMessage) -> Level {
    match m {
        LogMessage::SentPing(_) => Level::Info,
        LogMessage::FailedPing(_, _) => Level::Error,
        LogMessage::ShuttingDown => Level::Info,
        LogMessage::SchedulerFailed(_) => Level::Error,
    }
}

impl LogMessage {
    /// The severity of this record.
    pub fn level(&self) -> (l: Level)
        ensures
            l == spec_level(*self),
    {
        match self {
            LogMessage::SentPing(_) => Level::Info,
            LogMessage::FailedPing(_, _) => Level::Error,
            LogMessage::ShuttingDown => Level::Info,
            LogMessage::SchedulerFailed(_) => Level::Error,
        }
    }
}

/// How often the sink's log file rotates. Set once from configuration;
/// the rotation mechanics themselves belong to the outside sink.
#[derive(Clone, Copy, Debug, PartialEq, Eq, Structural)]
pub enum LogRotation {
    /// Rotate every hour.
    Hourly,
    /// Rotate once a day.
    Daily,
    /// Rotate once a week.
    Weekly,
    /// Rotate every month.
    Monthly,
    /// Rotate yearly.
    Yearly,
}

impl Default for LogRotation {
    /// Without configuration the log rotates daily.
    fn default() -> (r: Self)
        ensures
            r == LogRotation::Daily,
    {
        LogRotation::Daily
    }
}

/// The one record a single dispatch produces for its outcome.
pub open spec fn message_for(target: IpAddress, outcome: ProbeOutcome) -> LogMessage {
    match outcome {
        ProbeOutcome::Success => LogMessage::SentPing(target),
        ProbeOutcome::Failure(e) => LogMessage::FailedPing(target, e),
    }
}

/// The records a run of dispatches produces, one per outcome, in dispatch
/// order.
pub open spec fn messages_for(target: IpAddress, outcomes: Seq<ProbeOutcome>) -> Seq<LogMessage> {
    outcomes.map_values(|o: ProbeOutcome| message_for(target, o))
}

} // verus!
