//! Laws about whole histories of one vault record.
//!
//! The operations' own contracts describe each step through the spec
//! functions `deposited`, `withdrawn` and `settled`. This module folds
//! those steps over a sequence of operations and proves the accounting
//! laws that hold of every such history: the balance never goes negative,
//! and it always equals the starting balance plus all deposits, minus all
//! withdrawals, minus the commissions actually settled.

use vstd::prelude::*;

use crate::fees::{commission_of, lemma_bps_fraction_bounds};
use crate::vault::{deactivated, deposited, settled, vault_wf, withdrawn, VaultObj};

verus! {

/// One balance-affecting operation on a single vault record.
pub enum VaultOp {
    /// A user deposit of `amount`.
    Deposit { amount: i128 },
    /// A user withdrawal of `amount`.
    Withdraw { amount: i128 },
    /// A settlement on reported profit `profit`.
    Settle { profit: i128 },
}

/// The inputs on which an operation does its work: the amounts the
/// operations accept, and the machine bounds under which they run. A
/// settlement is admitted even when the vault cannot cover the commission
/// or is suspended — those are soft outcomes, not rejections.
pub open spec fn op_admitted(v: VaultObj, op: VaultOp) -> bool {
    match op {
        VaultOp::Deposit { amount } => amount > 0 && v.balance + amount <= i128::MAX,
        VaultOp::Withdraw { amount } => 0 < amount <= v.balance,
        VaultOp::Settle { profit } => profit > 0 && profit * v.profit_share_bps <= i128::MAX,
    }
}

/// The record after one operation, exactly as the operations' contracts
/// state it.
pub open spec fn op_applied(v: VaultObj, op: VaultOp) -> VaultObj {
    match op {
        VaultOp::Deposit { amount } => deposited(v, amount as int),
        VaultOp::Withdraw { amount } => withdrawn(v, amount as int),
        VaultOp::Settle { profit } => settled(v, profit as int),
    }
}

/// The record after a whole sequence of operations.
pub open spec fn run(v: VaultObj, ops: Seq<VaultOp>) -> VaultObj
    decreases ops.len(),
{
    if ops.len() == 0 {
        v
    } else {
        run(op_applied(v, ops[0]), ops.drop_first())
    }
}

/// Every operation in the sequence is admitted in the state it meets.
pub open spec fn ops_admitted(v: VaultObj, ops: Seq<VaultOp>) -> bool
    decreases ops.len(),
{
    ops.len() == 0 || (op_admitted(v, ops[0]) && ops_admitted(
        op_applied(v, ops[0]),
        ops.drop_first(),
    ))
}

/// Sum of all amounts deposited along the sequence.
pub open spec fn deposits_total(ops: Seq<VaultOp>) -> int
    decreases ops.len(),
{
    if ops.len() == 0 {
        0
    } else {
        (match ops[0] {
            VaultOp::Deposit { amount } => amount as int,
            _ => 0,
        }) + deposits_total(ops.drop_first())
    }
}

/// Sum of all amounts withdrawn along the sequence.
pub open spec fn withdrawals_total(ops: Seq<VaultOp>) -> int
    decreases ops.len(),
{
    if ops.len() == 0 {
        0
    } else {
        (match ops[0] {
            VaultOp::Withdraw { amount } => amount as int,
            _ => 0,
        }) + withdrawals_total(ops.drop_first())
    }
}

/// Sum of the commissions actually deducted along the run: a settlement
/// contributes its commission only when the vault it meets is active and
/// can cover it; a skipped or suspending settlement contributes nothing.
pub open spec fn settled_total(v: VaultObj, ops: Seq<VaultOp>) -> int
    decreases ops.len(),
{
    if ops.len() == 0 {
        0
    } else {
        (match ops[0] {
            VaultOp::Settle { profit } => {
                let total = commission_of(profit as int, v.profit_share_bps as int);
                if v.is_active && total <= v.balance {
                    total
                } else {
                    0
                }
            },
            _ => 0,
        }) + settled_total(op_applied(v, ops[0]), ops.drop_first())
    }
}

/// Law: settlement on a suspended vault is a no-op on the record.
pub proof fn lemma_settle_suspended_noop(v: VaultObj, profit: int)
    requires
        !v.is_active,
    ensures
        settled(v, profit) == v,
{
}

/// Law: after any deposit the vault is active, whatever it was before.
pub proof fn lemma_deposit_activates(v: VaultObj, amount: int)
    ensures
        deposited(v, amount).is_active,
{
}

/// Law: a settlement the balance cannot cover suspends the vault and
/// leaves its balance (and everything else) unchanged.
pub proof fn lemma_settle_shortfall_suspends(v: VaultObj, profit: int)
    requires
        v.is_active,
        v.balance < commission_of(profit, v.profit_share_bps as int),
    ensures
        settled(v, profit) == deactivated(v),
        settled(v, profit).balance == v.balance,
        !settled(v, profit).is_active,
{
}

/// Law: conservation of funds. Over any admitted history the record stays
/// well formed — in particular the balance never goes negative — the
/// commission rates never change, and the final balance is exactly the
/// starting balance plus all deposits, minus all withdrawals, minus the
/// commissions actually settled.
pub proof fn lemma_balance_accounting(v: VaultObj, ops: Seq<VaultOp>)
    requires
        vault_wf(v),
        ops_admitted(v, ops),
    ensures
        vault_wf(run(v, ops)),
        run(v, ops).balance == v.balance + deposits_total(ops) - withdrawals_total(ops)
            - settled_total(v, ops),
        run(v, ops).profit_share_bps == v.profit_share_bps,
        run(v, ops).platform_cut_bps == v.platform_cut_bps,
    decreases ops.len(),
{
    if ops.len() > 0 {
        let v1 = op_applied(v, ops[0]);
        match ops[0] {
            VaultOp::Settle { profit } => {
                lemma_bps_fraction_bounds(profit as int, v.profit_share_bps as int);
            },
            _ => {},
        }
        assert(vault_wf(v1));
        lemma_balance_accounting(v1, ops.drop_first());
    }
}

proof fn lemma_prefix_admitted(v: VaultObj, ops: Seq<VaultOp>, k: int)
    requires
        ops_admitted(v, ops),
        0 <= k <= ops.len(),
    ensures
        ops_admitted(v, ops.take(k)),
    decreases k,
{
    if k > 0 {
        assert(ops.take(k)[0] == ops[0]);
        lemma_prefix_admitted(op_applied(v, ops[0]), ops.drop_first(), k - 1);
        assert(ops.take(k).drop_first() =~= ops.drop_first().take(k - 1));
    }
}

/// Law: the balance is nonnegative not only at the end but after every
/// prefix of an admitted history.
pub proof fn lemma_balance_never_negative(v: VaultObj, ops: Seq<VaultOp>, k: int)
    requires
        vault_wf(v),
        ops_admitted(v, ops),
        0 <= k <= ops.len(),
    ensures
        run(v, ops.take(k)).balance >= 0,
{
    lemma_prefix_admitted(v, ops, k);
    lemma_balance_accounting(v, ops.take(k));
}

} // verus!
