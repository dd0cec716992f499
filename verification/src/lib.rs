//! Verified accounting core of an on-ledger escrow/vault system.
//!
//! The library models two contracts as explicit state machines:
//! a profit-sharing vault that accumulates user deposits and settles a
//! basis-point commission between a platform and a developer, and a
//! single-shot payment splitter. Every balance-affecting operation is
//! specified exactly: which error it returns on which input, how the
//! stored records change, and which transfers and events it instructs
//! the surrounding host to perform.

pub mod effects;
pub mod errors;
pub mod fees;
pub mod history;
pub mod payment;
pub mod vault;
