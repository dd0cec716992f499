//! The failure kinds that an operation can surface to its caller.
//!
//! A failed operation leaves all state unchanged: the contracts of the
//! operations say so explicitly. A settlement shortfall is deliberately
//! not an error: it is a soft outcome (deactivation plus an event), so
//! it does not appear here.

use vstd::prelude::*;

verus! {

/// Why an operation was rejected. Every rejection is total: no state
/// changes and no transfer or event is produced.
#[derive(Clone, Copy, Debug, PartialEq, Eq, Structural)]
pub enum Error {
    /// A privileged operation ran before the administrator was registered.
    NotInitialized,
    /// A second attempt to register the administrator.
    AlreadyInitialized,
    /// The caller could not prove the identity the operation demands.
    Unauthorized,
    /// A non-positive amount was supplied to a deposit, withdraw,
    /// settlement or payment.
    InvalidAmount,
    /// A basis-point rate above the full scale was supplied at vault
    /// creation.
    InvalidRate,
    /// Vault creation addressed a key that already holds a record.
    AlreadyExists,
    /// An operation addressed a vault key with no record.
    NotFound,
    /// A withdraw asked for more than the vault holds.
    InsufficientBalance,
}

} // verus!
