//! The ways in which a query can fail.

use vstd::prelude::*;

verus! {

/// The failure of a read-only query. No query changes the ledger, whether it
/// fails or not.
#[derive(Clone, Copy, Debug, PartialEq, Eq, Structural)]
pub enum QueryError {
    /// The ledger has no entry under the address that was asked for.
    NotFound,
    /// The hierarchy of administrations goes deeper than a walk may follow it.
    RecursionLimitExceeded,
    /// The ledger was never told the name of its time oracle.
    ConfigNotFound,
    /// No time oracle runs under the configured name.
    TimeServiceNotFound,
    /// The time oracle has not told the time yet.
    TimeNotSet,
}

} // verus!
