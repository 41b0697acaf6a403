//! The client's choice of the address it registers, from the command line,
//! the configuration and whether it may ask the user.

use vstd::prelude::*;

verus! {

/// Where the client takes the address it registers from.
#[derive(Debug)]
pub enum AddressPlan {
    /// The address given on the command line; it must be on an interface.
    Explicit(String),
    /// The configured interface address, if it is still on an interface.
    Configured(String),
    /// Ask the user to pick an interface, and save its address in the configuration.
    Ask,
    /// Take the machine's address from the interface listing.
    Detect,
}

/// What happens when the configured address is no longer on an interface.
#[derive(Clone, Copy, Debug, PartialEq, Eq)]
pub enum MissingAddress {
    /// Give up: the client runs detached and cannot ask.
    Fail,
    /// Ask the user to pick an interface.
    Ask,
}

/// The plan: a command-line address first, then the configured one; with
/// neither, ask the user unless detached, in which case detect.
pub fn plan_address(explicit: Option<String>, configured: Option<String>, detached: bool) -> (p:
    AddressPlan)
    ensures
        match explicit {
            Some(e) => p matches AddressPlan::Explicit(x) && x@ == e@,
            None => match configured {
                Some(c) => p matches AddressPlan::Configured(x) && x@ == c@,
                None => if detached {
                    p is Detect
                } else {
                    p is Ask
                },
            },
        },
{
    match explicit {
        Some(e) => AddressPlan::Explicit(e),
        None => match configured {
            Some(c) => AddressPlan::Configured(c),
            None => if detached {
                AddressPlan::Detect
            } else {
                AddressPlan::Ask
            },
        },
    }
}

/// When the configured address is gone: fail if detached, else ask.
pub fn missing_configured_address(detached: bool) -> (m: MissingAddress)
    ensures
        m == (if detached {
            MissingAddress::Fail
        } else {
            MissingAddress::Ask
        }),
{
    if detached {
        MissingAddress::Fail
    } else {
        MissingAddress::Ask
    }
}

} // verus!
