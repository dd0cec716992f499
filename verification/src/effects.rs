//! Transfer instructions handed back to the host.
//!
//! The core never moves value itself: it bookkeeps, and returns the exact
//! list of transfers the host's token ledger must execute atomically with
//! the state change. Identities (accounts, assets) are opaque to the
//! accounting rules, so they are carried as plain 64-bit handles that the
//! host maps to real addresses.

use vstd::prelude::*;

verus! {

/// An endpoint of a transfer: either the contract's own custody or an
/// external account handle.
#[derive(Clone, Copy, Debug, PartialEq, Eq, Structural)]
pub enum Party {
    /// The contract's own holdings, out of which settlements and
    /// withdrawals are paid and into which deposits flow.
    Custody,
    /// An external account, named by its handle.
    Account(u64),
}

/// One instructed movement of value: `amount` of `asset` from `from` to
/// `to`. Operations only ever instruct transfers with a positive amount.
#[derive(Clone, Copy, Debug, PartialEq, Eq, Structural)]
pub struct Transfer {
    /// Handle of the fungible asset being moved.
    pub asset: u64,
    /// Source of the funds.
    pub from: Party,
    /// Destination of the funds.
    pub to: Party,
    /// How much moves; always strictly positive.
    pub amount: i128,
}

} // verus!
