//! Outcome of a single probe: one ICMP echo round-trip against the target.

use vstd::prelude::*;

verus! {

/// Why a single probe failed. Probe failures are per-tick and non-fatal:
/// the scheduler logs them and keeps going.
#[derive(Clone, Copy, Debug, PartialEq, Eq, Structural)]
pub enum ProbeError {
    /// No reply arrived before the probe's internal deadline.
    Timeout,
    /// An ICMP error reported the host as unreachable.
    Unreachable,
    /// The echo socket could not be opened or used (e.g. missing permission).
    Socket,
}

/// The result of one probe dispatch, produced once per tick and consumed
/// immediately by the logging sink.
#[derive(Clone, Copy, Debug, PartialEq, Eq, Structural)]
pub enum ProbeOutcome {
    /// The echo reply was observed.
    Success,
    /// The round-trip failed for the given reason.
    Failure(ProbeError),
}

/// A failure of the off-thread dispatch mechanism itself, as opposed to a
/// probe outcome. Fatal to the scheduler loop: it is logged once and ends
/// the loop.
#[derive(Clone, Copy, Debug, PartialEq, Eq, Structural)]
pub struct DispatchError;

} // verus!
