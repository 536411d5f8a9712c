//! A verified core for a periodic network-reachability probe: target
//! resolution from an IP literal or a DNS lookup's result, a tick-driven
//! scheduler that dispatches one probe at a time and logs one record per
//! outcome in order, and a shutdown coordinator whose first signal wins.
//! The blocking edges — the DNS query, the ICMP round-trip, the timer,
//! the OS signals — stay with the caller, which feeds their plain results
//! into these functions.

pub mod addr;
pub mod probe;
pub mod resolver;
pub mod scheduler;
pub mod shutdown;
pub mod sink;

pub use addr::IpAddress;
pub use probe::DispatchError;
pub use probe::ProbeError;
pub use probe::ProbeOutcome;
pub use resolver::LookupOutcome;
pub use resolver::ResolutionError;
pub use resolver::ResolveStep;
pub use scheduler::ProbeInterval;
pub use scheduler::Scheduler;
pub use scheduler::SchedulerPhase;
pub use shutdown::ProcessState;
pub use shutdown::RunEnd;
pub use shutdown::ShutdownCoordinator;
pub use sink::Level;
pub use sink::LogMessage;
pub use sink::LogRotation;
