//! Target-address resolution: a literal IP is taken as it stands, with no
//! I/O at all; anything else needs one startup-only DNS lookup, whose
//! result list is decided here. The lookup itself is network I/O and is
//! performed by the caller; this module fixes what the outcome means.

use vstd::prelude::*;

use crate::addr::IpAddress;
use crate::addr::parse_ip;
use crate::addr::spec_parse_ip;

verus! {

/// Why no target could be determined. Startup-fatal: with no target there
/// is no fallback, and the probe loop never starts.
#[derive(Clone, Copy, Debug, PartialEq, Eq, Structural)]
pub enum ResolutionError {
    /// The lookup succeeded but listed no addresses.
    NoAddresses,
    /// The underlying resolver reported an error (network failure,
    /// NXDOMAIN, timeout).
    LookupFailed,
}

/// The first step of resolution: either the target string is an IP
/// literal denoting this address, or a DNS lookup is needed.
#[derive(Clone, Copy, Debug, PartialEq, Eq, Structural)]
pub enum ResolveStep {
    /// The string is an IP literal for this address; resolution is done.
    Literal(IpAddress),
    /// The string is no IP literal; one DNS lookup must decide.
    NeedsLookup,
}

/// What one DNS lookup produced: the resolver's ordered address list, or
/// its error.
#[derive(Debug, PartialEq, Eq)]
pub enum LookupOutcome {
    /// The resolver returned this ordered list (possibly empty).
    Addresses(Vec<IpAddress>),
    /// The resolver itself failed.
    Failed,
}

/// Classify a target string. A valid IP literal resolves to exactly the
/// address it denotes, immediately and with zero network I/O; any other
/// string needs a lookup.
pub fn classify_target(s: &Vec<u8>) -> (r: ResolveStep)
    ensures
        r == match spec_parse_ip(s@) {
            Some(a) => ResolveStep::Literal(a),
            None => ResolveStep::NeedsLookup,
        },
{
    match parse_ip(s) {
        Some(a) => ResolveStep::Literal(a),
        None => ResolveStep::NeedsLookup,
    }
}

/// Decide resolution from a lookup outcome: the first listed address when
/// there is one; `NoAddresses` when the list is empty; `LookupFailed` when
/// the resolver failed. Nothing else is ever returned.
pub fn resolve_from_lookup(lookup: &LookupOutcome) -> (r: Result<IpAddress, ResolutionError>)
    ensures
        r == match lookup {
            LookupOutcome::Addresses(v) => if v@.len() > 0 {
                Ok::<IpAddress, ResolutionError>(v@[0])
            } else {
                Err::<IpAddress, ResolutionError>(ResolutionError::NoAddresses)
            },
            LookupOutcome::Failed => Err::<IpAddress, ResolutionError>(
                ResolutionError::LookupFailed,
            ),
        },
{
    match lookup {
        LookupOutcome::Addresses(v) => {
            if v.len() > 0 {
                Ok(v[0])
            } else {
                Err(ResolutionError::NoAddresses)
            }
        },
        LookupOutcome::Failed => Err(ResolutionError::LookupFailed),
    }
}

} // verus!
