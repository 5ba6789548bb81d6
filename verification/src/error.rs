//! Why an operation of the engine was refused.

use crate::host_count::CountError;
use vstd::prelude::*;

verus! {

/// Why an operation was refused. A refused operation changes nothing.
#[derive(Clone, Copy, Debug, PartialEq, Eq, Structural)]
pub enum Error {
    /// A split was asked for at a prefix that is not longer than the
    /// network's own, or that the family does not have.
    InvalidPrefix,
    /// A VLAN tag outside the range.
    InvalidVlan,
    /// The state of the device does not allow the event.
    InvalidTransition,
    /// The block given for a subnet does not lie in the network, or has
    /// another prefix than the one asked for.
    ContainmentViolation,
    /// No network, or no device, is known by the key given.
    NotFound,
    /// The records could not be stored: a key is already taken.
    BackendError,
    /// Counters would pass their bound, or `used` and `free` together
    /// would pass `available`.
    CounterOverflow,
    /// A counter would fall below zero.
    CounterUnderflow,
}

impl Error {
    /// The error that stands for a refusal of a counter.
    pub fn from_count(e: CountError) -> (r: Error)
        ensures
            r == match e {
                CountError::Overflow => Error::CounterOverflow,
                CountError::Underflow => Error::CounterUnderflow,
            },
    {
        match e {
            CountError::Overflow => Error::CounterOverflow,
            CountError::Underflow => Error::CounterUnderflow,
        }
    }
}

} // verus!
