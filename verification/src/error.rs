//! The failures that name construction can end in.

use vstd::prelude::*;

verus! {

/// Why a name could not be built.
#[derive(Debug, Clone, Copy, PartialEq, Eq, Structural)]
pub enum Error {
    /// The text does not denote a valid DNS name: it is longer than 1024
    /// octets, its syntax is bad, a label is empty or longer than 63 octets,
    /// or the whole name is longer than 255 octets.
    InvalidName,
    /// Candidate and zone are each valid, but put together they exceed the
    /// 255 octets a DNS name may take.
    NameTooLong,
}

} // verus!
