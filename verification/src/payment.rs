//! The flat payment splitter: a single-shot 90/10 split of a purchase
//! between the seller and the platform, with no persistent balances.
//!
//! The platform's share is the truncated tenth of the amount; the seller
//! receives the exact remainder, so the two shares always reassemble the
//! amount paid.

use vstd::arithmetic::div_mod::{lemma_div_by_multiple, lemma_div_is_ordered, lemma_div_pos_is_pos};
use vstd::arithmetic::mul::{lemma_mul_inequality, lemma_mul_nonnegative};
use vstd::prelude::*;

use crate::effects::{Party, Transfer};
use crate::errors::Error;

verus! {

/// Storage key of the payment contract: only the administrator slot,
/// which holds the platform wallet that receives each commission.
#[derive(Clone, Copy, Debug, PartialEq, Eq, Structural)]
pub enum DataKey {
    Admin,
}

/// The platform's share of a payment: a truncated tenth.
pub open spec fn platform_share_of(amount: int) -> int {
    (amount * 10) / 100
}

/// The seller's share: the exact remainder of the platform's truncation.
pub open spec fn seller_share_of(amount: int) -> int {
    amount - platform_share_of(amount)
}

/// The platform's share of a nonnegative amount never leaves `[0, amount]`.
pub proof fn lemma_platform_share_bounds(amount: int)
    requires
        0 <= amount,
    ensures
        0 <= platform_share_of(amount) <= amount,
{
    lemma_mul_nonnegative(amount, 10);
    lemma_div_pos_is_pos(amount * 10, 100);
    lemma_mul_inequality(10, 100, amount);
    assert(amount * 10 == 10 * amount);
    assert(amount * 100 == 100 * amount);
    lemma_div_is_ordered(amount * 10, amount * 100, 100);
    lemma_div_by_multiple(amount, 100);
}

/// Law: the split loses nothing. Both shares are within `[0, amount]` and
/// sum back to the amount exactly.
pub proof fn lemma_payment_split_exact(amount: int)
    requires
        0 <= amount,
    ensures
        platform_share_of(amount) + seller_share_of(amount) == amount,
        0 <= platform_share_of(amount) <= amount,
        0 <= seller_share_of(amount) <= amount,
{
    lemma_platform_share_bounds(amount);
}

/// The transfers a payment instructs: the platform's share to the
/// platform wallet, then the seller's share to the seller, each sourced
/// from the buyer and omitted when zero.
pub open spec fn payment_transfers(
    buyer: u64,
    seller: u64,
    platform: u64,
    token: u64,
    amount: int,
) -> Seq<Transfer> {
    let ps = platform_share_of(amount);
    let ss = seller_share_of(amount);
    let to_platform = if ps > 0 {
        seq![(Transfer {
            asset: token,
            from: Party::Account(buyer),
            to: Party::Account(platform),
            amount: ps as i128,
        })]
    } else {
        Seq::<Transfer>::empty()
    };
    if ss > 0 {
        to_platform.push(Transfer {
            asset: token,
            from: Party::Account(buyer),
            to: Party::Account(seller),
            amount: ss as i128,
        })
    } else {
        to_platform
    }
}

/// The notification a completed payment publishes.
#[derive(Clone, Copy, Debug, PartialEq, Eq, Structural)]
pub struct PaymentEvent {
    /// The order being paid for.
    pub order_id: u64,
    /// Who paid.
    pub buyer: u64,
    /// Who sold.
    pub seller: u64,
    /// The token the payment was made in.
    pub token: u64,
    /// The full amount paid.
    pub amount: i128,
    /// The platform's share of it.
    pub platform_share: i128,
    /// The seller's share of it.
    pub seller_share: i128,
}

/// What a successful payment instructs the host to do: execute these
/// transfers and publish this event, atomically.
#[derive(Clone, Debug, PartialEq, Eq)]
pub struct PaymentOutcome {
    /// Token movements to execute, in order; every amount is positive.
    pub transfers: Vec<Transfer>,
    /// The payment notification to publish.
    pub event: PaymentEvent,
}

/// The payment contract: only the platform wallet registered at `init`.
pub struct WhaleerPayment {
    admin: Option<u64>,
}

impl WhaleerPayment {
    /// The registered platform wallet, if `init` has run.
    pub closed spec fn admin_id(self) -> Option<u64> {
        self.admin
    }

    /// A fresh contract instance with no platform wallet registered.
    pub fn new() -> (s: Self)
        ensures
            s.admin_id() is None,
    {
        WhaleerPayment { admin: None }
    }

    /// Register the platform wallet that will receive each commission.
    /// Succeeds exactly once per instance; every later call is rejected
    /// and changes nothing.
    pub fn init(&mut self, platform_admin: u64) -> (r: Result<(), Error>)
        ensures
            match r {
                Ok(()) => {
                    &&& old(self).admin_id() is None
                    &&& final(self).admin_id() == Some(platform_admin)
                },
                Err(e) => {
                    &&& e == Error::AlreadyInitialized
                    &&& old(self).admin_id() is Some
                    &&& *final(self) == *old(self)
                },
            },
    {
        if self.admin.is_some() {
            return Err(Error::AlreadyInitialized);
        }
        self.admin = Some(platform_admin);
        Ok(())
    }

    /// Split a payment from `buyer` to `seller`: a truncated tenth goes to
    /// the platform wallet, the exact remainder to the seller, each
    /// transfer omitted when its share is zero. Only the buyer may
    /// authorize the payment. The contract keeps no balance: every
    /// transfer is sourced from the buyer directly.
    pub fn pay_split(
        &mut self,
        auth: u64,
        buyer: u64,
        seller: u64,
        token: u64,
        amount: i128,
        order_id: u64,
    ) -> (r: Result<PaymentOutcome, Error>)
        requires
            amount * 10 <= i128::MAX,
        ensures
            *final(self) == *old(self),
            match r {
                Ok(o) => match old(self).admin_id() {
                    Some(platform) => {
                        let ps = platform_share_of(amount as int);
                        let ss = seller_share_of(amount as int);
                        &&& auth == buyer
                        &&& amount > 0
                        &&& o.transfers@ == payment_transfers(
                            buyer,
                            seller,
                            platform,
                            token,
                            amount as int,
                        )
                        &&& o.event == (PaymentEvent {
                            order_id,
                            buyer,
                            seller,
                            token,
                            amount,
                            platform_share: ps as i128,
                            seller_share: ss as i128,
                        })
                        &&& o.event.platform_share + o.event.seller_share == amount
                    },
                    None => false,
                },
                Err(e) => {
                    if auth != buyer {
                        e == Error::Unauthorized
                    } else if amount <= 0 {
                        e == Error::InvalidAmount
                    } else {
                        &&& e == Error::NotInitialized
                        &&& old(self).admin_id() is None
                    }
                },
            },
    {
        if auth != buyer {
            return Err(Error::Unauthorized);
        }
        if amount <= 0 {
            return Err(Error::InvalidAmount);
        }
        let platform = match self.admin {
            Some(p) => p,
            None => {
                return Err(Error::NotInitialized);
            },
        };
        proof {
            lemma_platform_share_bounds(amount as int);
        }
        let platform_share: i128 = ((amount as u128) * 10 / 100) as i128;
        let seller_share: i128 = amount - platform_share;
        let mut transfers: Vec<Transfer> = Vec::new();
        if platform_share > 0 {
            transfers.push(
                Transfer {
                    asset: token,
                    from: Party::Account(buyer),
                    to: Party::Account(platform),
                    amount: platform_share,
                },
            );
        }
        if seller_share > 0 {
            transfers.push(
                Transfer {
                    asset: token,
                    from: Party::Account(buyer),
                    to: Party::Account(seller),
                    amount: seller_share,
                },
            );
        }
        proof {
            assert(transfers@ =~= payment_transfers(buyer, seller, platform, token, amount as int));
        }
        Ok(
            PaymentOutcome {
                transfers,
                event: PaymentEvent {
                    order_id,
                    buyer,
                    seller,
                    token,
                    amount,
                    platform_share,
                    seller_share,
                },
            },
        )
    }
}

} // verus!
