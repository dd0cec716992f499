//! The profit-sharing vault: per-(bot, user) escrow balances, an admin
//! registry, and the settlement engine.
//!
//! The contract state is explicit: one administrator slot and a keyed
//! store of vault records. Every operation takes the identity the host
//! has authenticated for this call (`auth`), checks it against the
//! identity the operation demands, and returns either the exact failure
//! kind or an [`Outcome`] listing the transfers and events the host must
//! apply atomically with the state change. The store is modelled as a
//! `Map` from key to record; each operation's contract states the new map
//! in terms of the old one.

use vstd::pervasive::VecAdditionalExecFns;
use vstd::prelude::*;

use crate::effects::{Party, Transfer};
use crate::errors::Error;
use crate::fees::{
    commission_of, compute_commission, developer_fee_of, platform_fee_of, split_commission,
    BPS_SCALE,
};

verus! {

/// Storage key of the vault contract: the administrator slot, or one
/// vault record addressed by `(bot_id, user_id)`.
#[derive(Clone, Copy, Debug, PartialEq, Eq, Structural)]
pub enum DataKey {
    Admin,
    Vault(u64, u64),
}

/// One vault record: its beneficiaries, its asset, its commission rates
/// (fixed at creation), its balance, and its lifecycle flag.
#[derive(Clone, Copy, Debug, PartialEq, Eq, Structural)]
pub struct VaultObj {
    /// Destination and source of user funds; rebindable by the admin.
    pub user_address: u64,
    /// Receives the developer's share of each commission; rebindable.
    pub developer: u64,
    /// Receives the platform's share of each commission.
    pub platform: u64,
    /// The fungible asset this vault holds.
    pub asset: u64,
    /// Commission rate applied to reported profit, in basis points.
    pub profit_share_bps: u32,
    /// Platform's share of each commission, in basis points; the
    /// developer receives the remainder.
    pub platform_cut_bps: u32,
    /// Current balance; never negative.
    pub balance: i128,
    /// False while the vault is suspended for an uncovered commission;
    /// reset to true only by a deposit.
    pub is_active: bool,
}

/// A record is well formed when both rates are within scale and the
/// balance is nonnegative.
pub open spec fn vault_wf(v: VaultObj) -> bool {
    &&& v.profit_share_bps <= BPS_SCALE
    &&& v.platform_cut_bps <= BPS_SCALE
    &&& v.balance >= 0
}

/// Notifications published by vault operations, in the order the host
/// must append them to its event log.
#[derive(Clone, Copy, Debug, PartialEq, Eq, Structural)]
pub enum Event {
    /// A deposit was credited.
    Deposit { bot_id: u64, user_id: u64, amount: i128 },
    /// A withdrawal was paid out.
    Withdraw { bot_id: u64, user_id: u64, amount: i128 },
    /// A settlement deducted `total_commission` for `profit_amount`.
    Settled { bot_id: u64, user_id: u64, profit_amount: i128, total_commission: i128 },
    /// A settlement found the balance short of the owed commission and
    /// suspended the vault instead of moving funds.
    InsufficientCover { bot_id: u64, user_id: u64, total_commission: i128, balance: i128 },
    /// The admin rebound the vault's user address.
    UserAddressUpdated { bot_id: u64, user_id: u64, new_address: u64 },
    /// The admin rebound the vault's developer address.
    DeveloperUpdated { bot_id: u64, user_id: u64, new_address: u64 },
}

/// What a successful operation instructs the host to do besides the state
/// change: execute these transfers and append these events, atomically
/// with it.
#[derive(Clone, Debug, PartialEq, Eq)]
pub struct Outcome {
    /// Token movements to execute, in order; every amount is positive.
    pub transfers: Vec<Transfer>,
    /// Events to append to the log, in order.
    pub events: Vec<Event>,
}

/// The record after a deposit of `amount`: balance grows, and the vault
/// is (re)activated unconditionally.
pub open spec fn deposited(v: VaultObj, amount: int) -> VaultObj {
    VaultObj { balance: (v.balance + amount) as i128, is_active: true, ..v }
}

/// The record after a withdrawal of `amount`: balance shrinks, the
/// lifecycle flag is untouched.
pub open spec fn withdrawn(v: VaultObj, amount: int) -> VaultObj {
    VaultObj { balance: (v.balance - amount) as i128, ..v }
}

/// The record with settlement suspended.
pub open spec fn deactivated(v: VaultObj) -> VaultObj {
    VaultObj { is_active: false, ..v }
}

/// The record after a settlement on reported profit `profit`: a suspended
/// vault is untouched; a vault that cannot cover the commission is
/// suspended with its balance intact; otherwise the commission is
/// deducted and the vault stays active.
pub open spec fn settled(v: VaultObj, profit: int) -> VaultObj {
    let total = commission_of(profit, v.profit_share_bps as int);
    if !v.is_active {
        v
    } else if v.balance < total {
        deactivated(v)
    } else {
        VaultObj { balance: (v.balance - total) as i128, ..v }
    }
}

/// The transfers a covered settlement instructs: the platform fee to the
/// platform, then the developer fee to the developer, each omitted when
/// it is zero.
pub open spec fn settlement_transfers(v: VaultObj, total: int) -> Seq<Transfer> {
    let pf = platform_fee_of(total, v.platform_cut_bps as int);
    let df = developer_fee_of(total, v.platform_cut_bps as int);
    let to_platform = if pf > 0 {
        seq![(Transfer {
            asset: v.asset,
            from: Party::Custody,
            to: Party::Account(v.platform),
            amount: pf as i128,
        })]
    } else {
        Seq::<Transfer>::empty()
    };
    if df > 0 {
        to_platform.push(Transfer {
            asset: v.asset,
            from: Party::Custody,
            to: Party::Account(v.developer),
            amount: df as i128,
        })
    } else {
        to_platform
    }
}

impl VaultObj {
    /// Credit a deposit to this record, checked out of a keyed store.
    /// `auth` must be the record's current user — not a caller-supplied
    /// identity, which would allow spoofing. On success the balance grows
    /// and the record is reactivated unconditionally.
    pub fn deposit_step(&self, bot_id: u64, user_id: u64, auth: u64, amount: i128) -> (r: Result<
        (VaultObj, Outcome),
        Error,
    >)
        requires
            self.balance + amount <= i128::MAX,
        ensures
            match r {
                Ok(p) => {
                    &&& amount > 0
                    &&& auth == self.user_address
                    &&& p.0 == deposited(*self, amount as int)
                    &&& p.1.transfers@ == seq![
                        (Transfer {
                            asset: self.asset,
                            from: Party::Account(self.user_address),
                            to: Party::Custody,
                            amount,
                        }),
                    ]
                    &&& p.1.events@ == seq![(Event::Deposit { bot_id, user_id, amount })]
                },
                Err(e) => {
                    if amount <= 0 {
                        e == Error::InvalidAmount
                    } else {
                        &&& e == Error::Unauthorized
                        &&& auth != self.user_address
                    }
                },
            },
    {
        if amount <= 0 {
            return Err(Error::InvalidAmount);
        }
        if auth != self.user_address {
            return Err(Error::Unauthorized);
        }
        let updated = VaultObj { balance: self.balance + amount, is_active: true, ..*self };
        let mut transfers: Vec<Transfer> = Vec::new();
        transfers.push(
            Transfer {
                asset: self.asset,
                from: Party::Account(self.user_address),
                to: Party::Custody,
                amount,
            },
        );
        let mut events: Vec<Event> = Vec::new();
        events.push(Event::Deposit { bot_id, user_id, amount });
        proof {
            assert(transfers@ =~= seq![
                (Transfer {
                    asset: self.asset,
                    from: Party::Account(self.user_address),
                    to: Party::Custody,
                    amount,
                }),
            ]);
            assert(events@ =~= seq![(Event::Deposit { bot_id, user_id, amount })]);
        }
        Ok((updated, Outcome { transfers, events }))
    }

    /// Pay a withdrawal out of this record. Only the record's current user
    /// may withdraw, and only up to the balance; the lifecycle flag is
    /// untouched.
    pub fn withdraw_step(&self, bot_id: u64, user_id: u64, auth: u64, amount: i128) -> (r: Result<
        (VaultObj, Outcome),
        Error,
    >)
        ensures
            match r {
                Ok(p) => {
                    &&& amount > 0
                    &&& auth == self.user_address
                    &&& amount <= self.balance
                    &&& p.0 == withdrawn(*self, amount as int)
                    &&& p.1.transfers@ == seq![
                        (Transfer {
                            asset: self.asset,
                            from: Party::Custody,
                            to: Party::Account(self.user_address),
                            amount,
                        }),
                    ]
                    &&& p.1.events@ == seq![(Event::Withdraw { bot_id, user_id, amount })]
                },
                Err(e) => {
                    if amount <= 0 {
                        e == Error::InvalidAmount
                    } else if auth != self.user_address {
                        e == Error::Unauthorized
                    } else {
                        &&& e == Error::InsufficientBalance
                        &&& amount > self.balance
                    }
                },
            },
    {
        if amount <= 0 {
            return Err(Error::InvalidAmount);
        }
        if auth != self.user_address {
            return Err(Error::Unauthorized);
        }
        if amount > self.balance {
            return Err(Error::InsufficientBalance);
        }
        let updated = VaultObj { balance: self.balance - amount, ..*self };
        let mut transfers: Vec<Transfer> = Vec::new();
        transfers.push(
            Transfer {
                asset: self.asset,
                from: Party::Custody,
                to: Party::Account(self.user_address),
                amount,
            },
        );
        let mut events: Vec<Event> = Vec::new();
        events.push(Event::Withdraw { bot_id, user_id, amount });
        proof {
            assert(transfers@ =~= seq![
                (Transfer {
                    asset: self.asset,
                    from: Party::Custody,
                    to: Party::Account(self.user_address),
                    amount,
                }),
            ]);
            assert(events@ =~= seq![(Event::Withdraw { bot_id, user_id, amount })]);
        }
        Ok((updated, Outcome { transfers, events }))
    }

    /// Settle the commission owed on a reported profit against this
    /// record: skip it silently if suspended, suspend it if the balance
    /// cannot cover the commission, otherwise deduct and split the
    /// commission. Authorization of the settlement (an admin concern) is
    /// the store's business, not the record's.
    pub fn settle_step(&self, bot_id: u64, user_id: u64, profit_amount: i128) -> (r: Result<
        (VaultObj, Outcome),
        Error,
    >)
        requires
            vault_wf(*self),
            profit_amount * self.profit_share_bps <= i128::MAX,
            commission_of(profit_amount as int, self.profit_share_bps as int)
                * self.platform_cut_bps <= i128::MAX,
        ensures
            match r {
                Ok(p) => ({
                    let total = commission_of(profit_amount as int, self.profit_share_bps as int);
                    &&& profit_amount > 0
                    &&& p.0 == settled(*self, profit_amount as int)
                    &&& vault_wf(p.0)
                    &&& if !self.is_active {
                        &&& p.1.transfers@ == Seq::<Transfer>::empty()
                        &&& p.1.events@ == Seq::<Event>::empty()
                    } else if self.balance < total {
                        &&& p.1.transfers@ == Seq::<Transfer>::empty()
                        &&& p.1.events@ == seq![
                            (Event::InsufficientCover {
                                bot_id,
                                user_id,
                                total_commission: total as i128,
                                balance: self.balance,
                            }),
                        ]
                    } else {
                        &&& p.1.transfers@ == settlement_transfers(*self, total)
                        &&& p.1.events@ == seq![
                            (Event::Settled {
                                bot_id,
                                user_id,
                                profit_amount,
                                total_commission: total as i128,
                            }),
                        ]
                    }
                }),
                Err(e) => {
                    &&& e == Error::InvalidAmount
                    &&& profit_amount <= 0
                },
            },
    {
        if profit_amount <= 0 {
            return Err(Error::InvalidAmount);
        }
        if !self.is_active {
            return Ok((*self, Outcome { transfers: Vec::new(), events: Vec::new() }));
        }
        let total = compute_commission(profit_amount, self.profit_share_bps);
        if self.balance < total {
            let updated = VaultObj { is_active: false, ..*self };
            let mut events: Vec<Event> = Vec::new();
            events.push(
                Event::InsufficientCover {
                    bot_id,
                    user_id,
                    total_commission: total,
                    balance: self.balance,
                },
            );
            proof {
                assert(events@ =~= seq![
                    (Event::InsufficientCover {
                        bot_id,
                        user_id,
                        total_commission: total,
                        balance: self.balance,
                    }),
                ]);
            }
            return Ok((updated, Outcome { transfers: Vec::new(), events }));
        }
        let (platform_fee, developer_fee) = split_commission(total, self.platform_cut_bps);
        let mut transfers: Vec<Transfer> = Vec::new();
        if platform_fee > 0 {
            transfers.push(
                Transfer {
                    asset: self.asset,
                    from: Party::Custody,
                    to: Party::Account(self.platform),
                    amount: platform_fee,
                },
            );
        }
        if developer_fee > 0 {
            transfers.push(
                Transfer {
                    asset: self.asset,
                    from: Party::Custody,
                    to: Party::Account(self.developer),
                    amount: developer_fee,
                },
            );
        }
        let updated = VaultObj { balance: self.balance - total, ..*self };
        proof {
            assert(updated == settled(*self, profit_amount as int));
            assert(transfers@ =~= settlement_transfers(
                *self,
                commission_of(profit_amount as int, self.profit_share_bps as int),
            ));
        }
        let mut events: Vec<Event> = Vec::new();
        events.push(Event::Settled { bot_id, user_id, profit_amount, total_commission: total });
        proof {
            assert(events@ =~= seq![
                (Event::Settled { bot_id, user_id, profit_amount, total_commission: total }),
            ]);
        }
        Ok((updated, Outcome { transfers, events }))
    }

    /// Rebind this record's user address, leaving everything else as it
    /// was. The admin check that guards rebinding is the store's business.
    pub fn rebind_user_step(&self, bot_id: u64, user_id: u64, new_address: u64) -> (r: (
        VaultObj,
        Outcome,
    ))
        ensures
            r.0 == (VaultObj { user_address: new_address, ..*self }),
            r.1.transfers@ == Seq::<Transfer>::empty(),
            r.1.events@ == seq![(Event::UserAddressUpdated { bot_id, user_id, new_address })],
    {
        let updated = VaultObj { user_address: new_address, ..*self };
        let mut events: Vec<Event> = Vec::new();
        events.push(Event::UserAddressUpdated { bot_id, user_id, new_address });
        proof {
            assert(events@ =~= seq![(Event::UserAddressUpdated { bot_id, user_id, new_address })]);
        }
        (updated, Outcome { transfers: Vec::new(), events })
    }

    /// Rebind this record's developer address, leaving everything else as
    /// it was.
    pub fn rebind_developer_step(&self, bot_id: u64, user_id: u64, new_address: u64) -> (r: (
        VaultObj,
        Outcome,
    ))
        ensures
            r.0 == (VaultObj { developer: new_address, ..*self }),
            r.1.transfers@ == Seq::<Transfer>::empty(),
            r.1.events@ == seq![(Event::DeveloperUpdated { bot_id, user_id, new_address })],
    {
        let updated = VaultObj { developer: new_address, ..*self };
        let mut events: Vec<Event> = Vec::new();
        events.push(Event::DeveloperUpdated { bot_id, user_id, new_address });
        proof {
            assert(events@ =~= seq![(Event::DeveloperUpdated { bot_id, user_id, new_address })]);
        }
        (updated, Outcome { transfers: Vec::new(), events })
    }
}

/// The store entries read as a map: a later entry for a key shadows an
/// earlier one, and under `keys_distinct` there is no shadowing at all.
pub open spec fn entries_map(s: Seq<(DataKey, VaultObj)>) -> Map<DataKey, VaultObj>
    decreases s.len(),
{
    if s.len() == 0 {
        Map::empty()
    } else {
        entries_map(s.drop_last()).insert(s.last().0, s.last().1)
    }
}

/// No two store entries share a key.
pub open spec fn keys_distinct(s: Seq<(DataKey, VaultObj)>) -> bool {
    forall|i: int, j: int|
        0 <= i < j < s.len() ==> (#[trigger] s[i]).0 != (#[trigger] s[j]).0
}

proof fn lemma_distinct_drop_last(s: Seq<(DataKey, VaultObj)>)
    requires
        keys_distinct(s),
        s.len() > 0,
    ensures
        keys_distinct(s.drop_last()),
{
    assert forall|i: int, j: int|
        0 <= i < j < s.drop_last().len() implies (#[trigger] s.drop_last()[i]).0
        != (#[trigger] s.drop_last()[j]).0 by {
        assert(s.drop_last()[i] == s[i]);
        assert(s.drop_last()[j] == s[j]);
    }
}

proof fn lemma_entries_map_domain(s: Seq<(DataKey, VaultObj)>, k: DataKey)
    ensures
        entries_map(s).contains_key(k) <==> exists|i: int|
            0 <= i < s.len() && (#[trigger] s[i]).0 == k,
    decreases s.len(),
{
    if s.len() > 0 {
        lemma_entries_map_domain(s.drop_last(), k);
        if s.last().0 == k {
            assert((s[s.len() - 1]).0 == k);
        } else if entries_map(s).contains_key(k) {
            let i = choose|i: int| 0 <= i < s.drop_last().len() && (#[trigger] s.drop_last()[i]).0 == k;
            assert((s[i]).0 == k);
        } else if exists|i: int| 0 <= i < s.len() && (#[trigger] s[i]).0 == k {
            let i = choose|i: int| 0 <= i < s.len() && (#[trigger] s[i]).0 == k;
            assert(i < s.len() - 1);
            assert(s.drop_last()[i] == s[i]);
        }
    }
}

proof fn lemma_entries_map_at(s: Seq<(DataKey, VaultObj)>, i: int)
    requires
        keys_distinct(s),
        0 <= i < s.len(),
    ensures
        entries_map(s).contains_key(s[i].0),
        entries_map(s)[s[i].0] == s[i].1,
    decreases s.len(),
{
    if i < s.len() - 1 {
        lemma_distinct_drop_last(s);
        assert(s.drop_last()[i] == s[i]);
        lemma_entries_map_at(s.drop_last(), i);
        assert(s.last().0 != s[i].0);
    }
}

proof fn lemma_entries_map_push(s: Seq<(DataKey, VaultObj)>, e: (DataKey, VaultObj))
    ensures
        entries_map(s.push(e)) == entries_map(s).insert(e.0, e.1),
{
    assert(s.push(e).drop_last() =~= s);
    assert(s.push(e).last() == e);
}

proof fn lemma_entries_map_update(s: Seq<(DataKey, VaultObj)>, i: int, v: VaultObj)
    requires
        keys_distinct(s),
        0 <= i < s.len(),
    ensures
        entries_map(s.update(i, (s[i].0, v))) == entries_map(s).insert(s[i].0, v),
    decreases s.len(),
{
    let k = s[i].0;
    let s2 = s.update(i, (k, v));
    if i == s.len() - 1 {
        assert(s2.drop_last() =~= s.drop_last());
        assert(s2.last() == (k, v));
        assert(entries_map(s.drop_last()).insert(k, s.last().1).insert(k, v) =~= entries_map(
            s.drop_last(),
        ).insert(k, v));
    } else {
        lemma_distinct_drop_last(s);
        assert(s.drop_last()[i] == s[i]);
        lemma_entries_map_update(s.drop_last(), i, v);
        assert(s2.drop_last() =~= s.drop_last().update(i, (k, v)));
        assert(s2.last() == s.last());
        let last = s.last();
        assert((s[s.len() - 1]).0 == last.0);
        assert(k != last.0);
        assert(entries_map(s.drop_last()).insert(k, v).insert(last.0, last.1) =~= entries_map(
            s.drop_last(),
        ).insert(last.0, last.1).insert(k, v));
    }
}

proof fn lemma_store_update_wf(s: Seq<(DataKey, VaultObj)>, i: int, v: VaultObj)
    requires
        keys_distinct(s),
        forall|j: int| 0 <= j < s.len() ==> (#[trigger] s[j]).0 is Vault,
        forall|j: int| 0 <= j < s.len() ==> vault_wf((#[trigger] s[j]).1),
        0 <= i < s.len(),
        vault_wf(v),
    ensures
        keys_distinct(s.update(i, (s[i].0, v))),
        forall|j: int|
            0 <= j < s.update(i, (s[i].0, v)).len() ==> (#[trigger] s.update(i, (s[i].0, v))[j]).0
                is Vault,
        forall|j: int|
            0 <= j < s.update(i, (s[i].0, v)).len() ==> vault_wf(
                (#[trigger] s.update(i, (s[i].0, v))[j]).1,
            ),
        entries_map(s.update(i, (s[i].0, v))) == entries_map(s).insert(s[i].0, v),
{
    let s2 = s.update(i, (s[i].0, v));
    assert forall|a: int, b: int| 0 <= a < b < s2.len() implies (#[trigger] s2[a]).0
        != (#[trigger] s2[b]).0 by {
        assert(s[a].0 != s[b].0);
    }
    lemma_entries_map_update(s, i, v);
}

proof fn lemma_store_push_wf(s: Seq<(DataKey, VaultObj)>, e: (DataKey, VaultObj))
    requires
        keys_distinct(s),
        forall|j: int| 0 <= j < s.len() ==> (#[trigger] s[j]).0 is Vault,
        forall|j: int| 0 <= j < s.len() ==> vault_wf((#[trigger] s[j]).1),
        forall|j: int| 0 <= j < s.len() ==> (#[trigger] s[j]).0 != e.0,
        e.0 is Vault,
        vault_wf(e.1),
    ensures
        keys_distinct(s.push(e)),
        forall|j: int| 0 <= j < s.push(e).len() ==> (#[trigger] s.push(e)[j]).0 is Vault,
        forall|j: int| 0 <= j < s.push(e).len() ==> vault_wf((#[trigger] s.push(e)[j]).1),
        entries_map(s.push(e)) == entries_map(s).insert(e.0, e.1),
{
    let s2 = s.push(e);
    assert forall|a: int, b: int| 0 <= a < b < s2.len() implies (#[trigger] s2[a]).0
        != (#[trigger] s2[b]).0 by {
        if b < s.len() {
            assert(s[a].0 != s[b].0);
        } else {
            assert(s2[b] == e);
            assert(s2[a] == s[a]);
        }
    }
    assert forall|j: int| 0 <= j < s2.len() implies (#[trigger] s2[j]).0 is Vault by {
        if j < s.len() {
            assert(s2[j] == s[j]);
        } else {
            assert(s2[j] == e);
        }
    }
    assert forall|j: int| 0 <= j < s2.len() implies vault_wf((#[trigger] s2[j]).1) by {
        if j < s.len() {
            assert(s2[j] == s[j]);
        } else {
            assert(s2[j] == e);
        }
    }
    lemma_entries_map_push(s, e);
}

/// The vault contract: one administrator slot and the keyed store of
/// vault records.
pub struct ProfitSharingVault {
    admin: Option<u64>,
    store: Vec<(DataKey, VaultObj)>,
}

impl ProfitSharingVault {
    /// The registered administrator, if `init` has run.
    pub closed spec fn admin_id(self) -> Option<u64> {
        self.admin
    }

    /// The vault records as a map from storage key to record.
    pub closed spec fn vaults(self) -> Map<DataKey, VaultObj> {
        entries_map(self.store@)
    }

    /// Internal consistency: every stored key is a `Vault` key, keys are
    /// distinct, and every record is well formed. Established by `new`
    /// and preserved by every operation.
    pub closed spec fn wf(self) -> bool {
        &&& keys_distinct(self.store@)
        &&& forall|i: int| 0 <= i < self.store@.len() ==> (#[trigger] self.store@[i]).0 is Vault
        &&& forall|i: int| 0 <= i < self.store@.len() ==> vault_wf((#[trigger] self.store@[i]).1)
    }

    /// A fresh contract instance: no administrator, no vaults.
    pub fn new() -> (s: Self)
        ensures
            s.wf(),
            s.admin_id() is None,
            s.vaults() == Map::<DataKey, VaultObj>::empty(),
    {
        ProfitSharingVault { admin: None, store: Vec::new() }
    }

    /// Register the platform administrator. Succeeds exactly once per
    /// instance; every later call is rejected and changes nothing.
    pub fn init(&mut self, admin: u64) -> (r: Result<(), Error>)
        requires
            old(self).wf(),
        ensures
            final(self).wf(),
            match r {
                Ok(()) => {
                    &&& old(self).admin_id() is None
                    &&& final(self).admin_id() == Some(admin)
                    &&& final(self).vaults() == old(self).vaults()
                },
                Err(e) => {
                    &&& e == Error::AlreadyInitialized
                    &&& old(self).admin_id() is Some
                    &&& *final(self) == *old(self)
                },
            },
    {
        if self.admin.is_some() {
            return Err(Error::AlreadyInitialized);
        }
        self.admin = Some(admin);
        Ok(())
    }

    /// Index of the record stored under `(bot_id, user_id)`, if any.
    fn find_vault(&self, bot_id: u64, user_id: u64) -> (r: Option<usize>)
        ensures
            match r {
                Some(i) => i < self.store@.len() && self.store@[i as int].0 == DataKey::Vault(
                    bot_id,
                    user_id,
                ),
                None => forall|j: int|
                    0 <= j < self.store@.len() ==> (#[trigger] self.store@[j]).0 != DataKey::Vault(
                        bot_id,
                        user_id,
                    ),
            },
    {
        let mut i: usize = 0;
        while i < self.store.len()
            invariant
                i <= self.store@.len(),
                forall|j: int|
                    0 <= j < i ==> (#[trigger] self.store@[j]).0 != DataKey::Vault(bot_id, user_id),
            decreases self.store@.len() - i,
        {
            if self.store[i].0 == DataKey::Vault(bot_id, user_id) {
                return Some(i);
            }
            i = i + 1;
        }
        None
    }

    /// Read the record stored under `(bot_id, user_id)`. Read-only and
    /// unprivileged; fails with `NotFound` exactly when no record exists.
    pub fn get_vault(&self, bot_id: u64, user_id: u64) -> (r: Result<VaultObj, Error>)
        requires
            self.wf(),
        ensures
            match r {
                Ok(v) => {
                    &&& self.vaults().contains_key(DataKey::Vault(bot_id, user_id))
                    &&& v == self.vaults()[DataKey::Vault(bot_id, user_id)]
                },
                Err(e) => {
                    &&& e == Error::NotFound
                    &&& !self.vaults().contains_key(DataKey::Vault(bot_id, user_id))
                },
            },
    {
        match self.find_vault(bot_id, user_id) {
            Some(i) => {
                proof {
                    lemma_entries_map_at(self.store@, i as int);
                }
                Ok(self.store[i].1)
            },
            None => {
                proof {
                    lemma_entries_map_domain(self.store@, DataKey::Vault(bot_id, user_id));
                }
                Err(Error::NotFound)
            },
        }
    }

    /// Create the vault stored under `(bot_id, user_id)`. Admin-only;
    /// rejects a rate above scale and a key already in use; on success the
    /// new record starts with balance 0 and is active. No transfer and no
    /// event is produced.
    pub fn init_vault(
        &mut self,
        auth: u64,
        bot_id: u64,
        user_id: u64,
        user_address: u64,
        developer: u64,
        platform: u64,
        asset: u64,
        profit_share_bps: u32,
        platform_cut_bps: u32,
    ) -> (r: Result<(), Error>)
        requires
            old(self).wf(),
        ensures
            final(self).wf(),
            final(self).admin_id() == old(self).admin_id(),
            match r {
                Ok(()) => {
                    &&& old(self).admin_id() == Some(auth)
                    &&& profit_share_bps <= BPS_SCALE
                    &&& platform_cut_bps <= BPS_SCALE
                    &&& !old(self).vaults().contains_key(DataKey::Vault(bot_id, user_id))
                    &&& final(self).vaults() == old(self).vaults().insert(
                        DataKey::Vault(bot_id, user_id),
                        (VaultObj {
                            user_address,
                            developer,
                            platform,
                            asset,
                            profit_share_bps,
                            platform_cut_bps,
                            balance: 0,
                            is_active: true,
                        }),
                    )
                },
                Err(e) => {
                    &&& *final(self) == *old(self)
                    &&& if old(self).admin_id() is None {
                        e == Error::NotInitialized
                    } else if old(self).admin_id() != Some(auth) {
                        e == Error::Unauthorized
                    } else if profit_share_bps > BPS_SCALE || platform_cut_bps > BPS_SCALE {
                        e == Error::InvalidRate
                    } else {
                        &&& e == Error::AlreadyExists
                        &&& old(self).vaults().contains_key(DataKey::Vault(bot_id, user_id))
                    }
                },
            },
    {
        let admin = match self.admin {
            Some(a) => a,
            None => {
                return Err(Error::NotInitialized);
            },
        };
        if auth != admin {
            return Err(Error::Unauthorized);
        }
        if profit_share_bps > BPS_SCALE {
            return Err(Error::InvalidRate);
        }
        if platform_cut_bps > BPS_SCALE {
            return Err(Error::InvalidRate);
        }
        match self.find_vault(bot_id, user_id) {
            Some(i) => {
                proof {
                    lemma_entries_map_domain(self.store@, DataKey::Vault(bot_id, user_id));
                    assert(self.store@[i as int].0 == DataKey::Vault(bot_id, user_id));
                }
                Err(Error::AlreadyExists)
            },
            None => {
                proof {
                    lemma_entries_map_domain(self.store@, DataKey::Vault(bot_id, user_id));
                }
                let record = VaultObj {
                    user_address,
                    developer,
                    platform,
                    asset,
                    profit_share_bps,
                    platform_cut_bps,
                    balance: 0,
                    is_active: true,
                };
                let ghost s1 = self.store@;
                self.store.push((DataKey::Vault(bot_id, user_id), record));
                proof {
                    lemma_store_push_wf(s1, (DataKey::Vault(bot_id, user_id), record));
                }
                Ok(())
            },
        }
    }

    /// Credit `amount` to the vault under `(bot_id, user_id)`. Only the
    /// record's current user may deposit. On success the host is
    /// instructed to move `amount` of the vault's asset from the user
    /// into custody; the balance grows by `amount` and the vault becomes
    /// active again whatever its state was before — a deposit is the sole
    /// reactivation path.
    pub fn deposit(&mut self, auth: u64, bot_id: u64, user_id: u64, amount: i128) -> (r: Result<
        Outcome,
        Error,
    >)
        requires
            old(self).wf(),
            old(self).vaults().contains_key(DataKey::Vault(bot_id, user_id)) ==> old(self).vaults()[
                DataKey::Vault(bot_id, user_id)
            ].balance + amount <= i128::MAX,
        ensures
            final(self).wf(),
            final(self).admin_id() == old(self).admin_id(),
            match r {
                Ok(o) => ({
                    let key = DataKey::Vault(bot_id, user_id);
                    let v = old(self).vaults()[key];
                    &&& amount > 0
                    &&& old(self).vaults().contains_key(key)
                    &&& auth == v.user_address
                    &&& final(self).vaults() == old(self).vaults().insert(
                        key,
                        deposited(v, amount as int),
                    )
                    &&& o.transfers@ == seq![
                        (Transfer {
                            asset: v.asset,
                            from: Party::Account(v.user_address),
                            to: Party::Custody,
                            amount,
                        }),
                    ]
                    &&& o.events@ == seq![(Event::Deposit { bot_id, user_id, amount })]
                }),
                Err(e) => {
                    &&& *final(self) == *old(self)
                    &&& if amount <= 0 {
                        e == Error::InvalidAmount
                    } else if !old(self).vaults().contains_key(DataKey::Vault(bot_id, user_id)) {
                        e == Error::NotFound
                    } else {
                        &&& e == Error::Unauthorized
                        &&& auth != old(self).vaults()[DataKey::Vault(bot_id, user_id)].user_address
                    }
                },
            },
    {
        if amount <= 0 {
            return Err(Error::InvalidAmount);
        }
        let idx = match self.find_vault(bot_id, user_id) {
            Some(i) => i,
            None => {
                proof {
                    lemma_entries_map_domain(self.store@, DataKey::Vault(bot_id, user_id));
                }
                return Err(Error::NotFound);
            },
        };
        proof {
            lemma_entries_map_at(self.store@, idx as int);
        }
        let v = self.store[idx].1;
        match v.deposit_step(bot_id, user_id, auth, amount) {
            Ok((updated, outcome)) => {
                let ghost s1 = self.store@;
                proof {
                    assert(vault_wf(updated));
                }
                self.store.set(idx, (DataKey::Vault(bot_id, user_id), updated));
                proof {
                    lemma_store_update_wf(s1, idx as int, updated);
                }
                Ok(outcome)
            },
            Err(e) => Err(e),
        }
    }

    /// Pay `amount` out of the vault back to its user. Only the record's
    /// current user may withdraw; asking for more than the balance is a
    /// hard failure that changes nothing. The lifecycle flag is untouched.
    pub fn withdraw(&mut self, auth: u64, bot_id: u64, user_id: u64, amount: i128) -> (r: Result<
        Outcome,
        Error,
    >)
        requires
            old(self).wf(),
        ensures
            final(self).wf(),
            final(self).admin_id() == old(self).admin_id(),
            match r {
                Ok(o) => ({
                    let key = DataKey::Vault(bot_id, user_id);
                    let v = old(self).vaults()[key];
                    &&& amount > 0
                    &&& old(self).vaults().contains_key(key)
                    &&& auth == v.user_address
                    &&& amount <= v.balance
                    &&& final(self).vaults() == old(self).vaults().insert(
                        key,
                        withdrawn(v, amount as int),
                    )
                    &&& o.transfers@ == seq![
                        (Transfer {
                            asset: v.asset,
                            from: Party::Custody,
                            to: Party::Account(v.user_address),
                            amount,
                        }),
                    ]
                    &&& o.events@ == seq![(Event::Withdraw { bot_id, user_id, amount })]
                }),
                Err(e) => ({
                    let key = DataKey::Vault(bot_id, user_id);
                    &&& *final(self) == *old(self)
                    &&& if amount <= 0 {
                        e == Error::InvalidAmount
                    } else if !old(self).vaults().contains_key(key) {
                        e == Error::NotFound
                    } else if auth != old(self).vaults()[key].user_address {
                        e == Error::Unauthorized
                    } else {
                        &&& e == Error::InsufficientBalance
                        &&& amount > old(self).vaults()[key].balance
                    }
                }),
            },
    {
        if amount <= 0 {
            return Err(Error::InvalidAmount);
        }
        let idx = match self.find_vault(bot_id, user_id) {
            Some(i) => i,
            None => {
                proof {
                    lemma_entries_map_domain(self.store@, DataKey::Vault(bot_id, user_id));
                }
                return Err(Error::NotFound);
            },
        };
        proof {
            lemma_entries_map_at(self.store@, idx as int);
        }
        let v = self.store[idx].1;
        match v.withdraw_step(bot_id, user_id, auth, amount) {
            Ok((updated, outcome)) => {
                let ghost s1 = self.store@;
                proof {
                    assert(vault_wf(updated));
                }
                self.store.set(idx, (DataKey::Vault(bot_id, user_id), updated));
                proof {
                    lemma_store_update_wf(s1, idx as int, updated);
                }
                Ok(outcome)
            },
            Err(e) => Err(e),
        }
    }

    /// Settle the commission owed on a reported profit. Admin-only: the
    /// administrator is the party attesting to the profit figure.
    ///
    /// A suspended vault is skipped silently: nothing changes and nothing
    /// is instructed. A vault whose balance cannot cover the commission is
    /// suspended with its balance intact, and only an event is produced —
    /// a soft outcome, deliberately unlike the hard `InsufficientBalance`
    /// of `withdraw`. Otherwise the commission is deducted and split: the
    /// platform fee is the truncated cut, the developer fee the exact
    /// remainder, and each is transferred out of custody unless zero.
    pub fn settle_profit(
        &mut self,
        auth: u64,
        bot_id: u64,
        user_id: u64,
        profit_amount: i128,
    ) -> (r: Result<Outcome, Error>)
        requires
            old(self).wf(),
            ({
                let key = DataKey::Vault(bot_id, user_id);
                old(self).vaults().contains_key(key) ==> {
                    let v = old(self).vaults()[key];
                    &&& profit_amount * v.profit_share_bps <= i128::MAX
                    &&& commission_of(profit_amount as int, v.profit_share_bps as int)
                        * v.platform_cut_bps <= i128::MAX
                }
            }),
        ensures
            final(self).wf(),
            final(self).admin_id() == old(self).admin_id(),
            match r {
                Ok(o) => ({
                    let key = DataKey::Vault(bot_id, user_id);
                    let v = old(self).vaults()[key];
                    let total = commission_of(profit_amount as int, v.profit_share_bps as int);
                    &&& old(self).admin_id() == Some(auth)
                    &&& profit_amount > 0
                    &&& old(self).vaults().contains_key(key)
                    &&& final(self).vaults() == old(self).vaults().insert(
                        key,
                        settled(v, profit_amount as int),
                    )
                    &&& if !v.is_active {
                        &&& *final(self) == *old(self)
                        &&& o.transfers@ == Seq::<Transfer>::empty()
                        &&& o.events@ == Seq::<Event>::empty()
                    } else if v.balance < total {
                        &&& o.transfers@ == Seq::<Transfer>::empty()
                        &&& o.events@ == seq![
                            (Event::InsufficientCover {
                                bot_id,
                                user_id,
                                total_commission: total as i128,
                                balance: v.balance,
                            }),
                        ]
                    } else {
                        &&& o.transfers@ == settlement_transfers(v, total)
                        &&& o.events@ == seq![
                            (Event::Settled {
                                bot_id,
                                user_id,
                                profit_amount,
                                total_commission: total as i128,
                            }),
                        ]
                    }
                }),
                Err(e) => {
                    &&& *final(self) == *old(self)
                    &&& if old(self).admin_id() is None {
                        e == Error::NotInitialized
                    } else if old(self).admin_id() != Some(auth) {
                        e == Error::Unauthorized
                    } else if profit_amount <= 0 {
                        e == Error::InvalidAmount
                    } else {
                        &&& e == Error::NotFound
                        &&& !old(self).vaults().contains_key(DataKey::Vault(bot_id, user_id))
                    }
                },
            },
    {
        let admin = match self.admin {
            Some(a) => a,
            None => {
                return Err(Error::NotInitialized);
            },
        };
        if auth != admin {
            return Err(Error::Unauthorized);
        }
        if profit_amount <= 0 {
            return Err(Error::InvalidAmount);
        }
        let idx = match self.find_vault(bot_id, user_id) {
            Some(i) => i,
            None => {
                proof {
                    lemma_entries_map_domain(self.store@, DataKey::Vault(bot_id, user_id));
                }
                return Err(Error::NotFound);
            },
        };
        proof {
            lemma_entries_map_at(self.store@, idx as int);
        }
        let v = self.store[idx].1;
        if !v.is_active {
            // Skipped without a store write, exactly as the contract's
            // storage would see it.
            proof {
                assert(old(self).vaults() =~= old(self).vaults().insert(
                    DataKey::Vault(bot_id, user_id),
                    settled(v, profit_amount as int),
                ));
            }
            return Ok(Outcome { transfers: Vec::new(), events: Vec::new() });
        }
        match v.settle_step(bot_id, user_id, profit_amount) {
            Ok((updated, outcome)) => {
                let ghost s1 = self.store@;
                self.store.set(idx, (DataKey::Vault(bot_id, user_id), updated));
                proof {
                    lemma_store_update_wf(s1, idx as int, updated);
                }
                Ok(outcome)
            },
            Err(e) => Err(e),
        }
    }

    /// Rebind the vault's user address. Admin-only: used to migrate a
    /// beneficiary without moving funds. Balance, rates and lifecycle are
    /// untouched; no transfer is instructed.
    pub fn update_user_address(
        &mut self,
        auth: u64,
        bot_id: u64,
        user_id: u64,
        new_address: u64,
    ) -> (r: Result<Outcome, Error>)
        requires
            old(self).wf(),
        ensures
            final(self).wf(),
            final(self).admin_id() == old(self).admin_id(),
            match r {
                Ok(o) => ({
                    let key = DataKey::Vault(bot_id, user_id);
                    let v = old(self).vaults()[key];
                    &&& old(self).admin_id() == Some(auth)
                    &&& old(self).vaults().contains_key(key)
                    &&& final(self).vaults() == old(self).vaults().insert(
                        key,
                        (VaultObj { user_address: new_address, ..v }),
                    )
                    &&& o.transfers@ == Seq::<Transfer>::empty()
                    &&& o.events@ == seq![
                        (Event::UserAddressUpdated { bot_id, user_id, new_address }),
                    ]
                }),
                Err(e) => {
                    &&& *final(self) == *old(self)
                    &&& if old(self).admin_id() is None {
                        e == Error::NotInitialized
                    } else if old(self).admin_id() != Some(auth) {
                        e == Error::Unauthorized
                    } else {
                        &&& e == Error::NotFound
                        &&& !old(self).vaults().contains_key(DataKey::Vault(bot_id, user_id))
                    }
                },
            },
    {
        let admin = match self.admin {
            Some(a) => a,
            None => {
                return Err(Error::NotInitialized);
            },
        };
        if auth != admin {
            return Err(Error::Unauthorized);
        }
        let idx = match self.find_vault(bot_id, user_id) {
            Some(i) => i,
            None => {
                proof {
                    lemma_entries_map_domain(self.store@, DataKey::Vault(bot_id, user_id));
                }
                return Err(Error::NotFound);
            },
        };
        proof {
            lemma_entries_map_at(self.store@, idx as int);
        }
        let v = self.store[idx].1;
        let (updated, outcome) = v.rebind_user_step(bot_id, user_id, new_address);
        let ghost s1 = self.store@;
        self.store.set(idx, (DataKey::Vault(bot_id, user_id), updated));
        proof {
            lemma_store_update_wf(s1, idx as int, updated);
        }
        Ok(outcome)
    }

    /// Rebind the vault's developer address. Admin-only, like
    /// `update_user_address`, and otherwise identical except for the field
    /// it overwrites.
    pub fn update_developer_address(
        &mut self,
        auth: u64,
        bot_id: u64,
        user_id: u64,
        new_address: u64,
    ) -> (r: Result<Outcome, Error>)
        requires
            old(self).wf(),
        ensures
            final(self).wf(),
            final(self).admin_id() == old(self).admin_id(),
            match r {
                Ok(o) => ({
                    let key = DataKey::Vault(bot_id, user_id);
                    let v = old(self).vaults()[key];
                    &&& old(self).admin_id() == Some(auth)
                    &&& old(self).vaults().contains_key(key)
                    &&& final(self).vaults() == old(self).vaults().insert(
                        key,
                        (VaultObj { developer: new_address, ..v }),
                    )
                    &&& o.transfers@ == Seq::<Transfer>::empty()
                    &&& o.events@ == seq![(Event::DeveloperUpdated { bot_id, user_id, new_address })]
                }),
                Err(e) => {
                    &&& *final(self) == *old(self)
                    &&& if old(self).admin_id() is None {
                        e == Error::NotInitialized
                    } else if old(self).admin_id() != Some(auth) {
                        e == Error::Unauthorized
                    } else {
                        &&& e == Error::NotFound
                        &&& !old(self).vaults().contains_key(DataKey::Vault(bot_id, user_id))
                    }
                },
            },
    {
        let admin = match self.admin {
            Some(a) => a,
            None => {
                return Err(Error::NotInitialized);
            },
        };
        if auth != admin {
            return Err(Error::Unauthorized);
        }
        let idx = match self.find_vault(bot_id, user_id) {
            Some(i) => i,
            None => {
                proof {
                    lemma_entries_map_domain(self.store@, DataKey::Vault(bot_id, user_id));
                }
                return Err(Error::NotFound);
            },
        };
        proof {
            lemma_entries_map_at(self.store@, idx as int);
        }
        let v = self.store[idx].1;
        let (updated, outcome) = v.rebind_developer_step(bot_id, user_id, new_address);
        let ghost s1 = self.store@;
        self.store.set(idx, (DataKey::Vault(bot_id, user_id), updated));
        proof {
            lemma_store_update_wf(s1, idx as int, updated);
        }
        Ok(outcome)
    }
}

} // verus!
