use whaleer::effects::{Party, Transfer};
use whaleer::errors::Error;
use whaleer::vault::{Event, ProfitSharingVault, VaultObj};

const ADMIN: u64 = 1;
const USER: u64 = 100;
const DEV: u64 = 200;
const PLATFORM: u64 = 300;
const ASSET: u64 = 400;
const BOT: u64 = 7;
const UID: u64 = 9;

/// A contract with one vault at (BOT, UID): 20% profit share, 10% platform cut.
fn vault_fixture() -> ProfitSharingVault {
    let mut c = ProfitSharingVault::new();
    c.init(ADMIN).unwrap();
    c.init_vault(ADMIN, BOT, UID, USER, DEV, PLATFORM, ASSET, 2000, 1000)
        .unwrap();
    c
}

#[test]
fn init_succeeds_once() {
    let mut c = ProfitSharingVault::new();
    assert_eq!(c.init(ADMIN), Ok(()));
}

#[test]
fn second_init_rejected() {
    let mut c = ProfitSharingVault::new();
    c.init(ADMIN).unwrap();
    assert_eq!(c.init(ADMIN), Err(Error::AlreadyInitialized));
    assert_eq!(c.init(42), Err(Error::AlreadyInitialized));
}

#[test]
fn init_vault_before_init_rejected() {
    let mut c = ProfitSharingVault::new();
    let r = c.init_vault(ADMIN, BOT, UID, USER, DEV, PLATFORM, ASSET, 2000, 1000);
    assert_eq!(r, Err(Error::NotInitialized));
}

#[test]
fn init_vault_requires_admin() {
    let mut c = ProfitSharingVault::new();
    c.init(ADMIN).unwrap();
    let r = c.init_vault(USER, BOT, UID, USER, DEV, PLATFORM, ASSET, 2000, 1000);
    assert_eq!(r, Err(Error::Unauthorized));
}

#[test]
fn init_vault_rejects_rate_above_scale() {
    let mut c = ProfitSharingVault::new();
    c.init(ADMIN).unwrap();
    let r = c.init_vault(ADMIN, BOT, UID, USER, DEV, PLATFORM, ASSET, 10001, 1000);
    assert_eq!(r, Err(Error::InvalidRate));
    let r = c.init_vault(ADMIN, BOT, UID, USER, DEV, PLATFORM, ASSET, 2000, 10001);
    assert_eq!(r, Err(Error::InvalidRate));
}

#[test]
fn init_vault_duplicate_key_rejected() {
    let mut c = vault_fixture();
    let r = c.init_vault(ADMIN, BOT, UID, USER, DEV, PLATFORM, ASSET, 500, 500);
    assert_eq!(r, Err(Error::AlreadyExists));
    // The first record is untouched.
    let v = c.get_vault(BOT, UID).unwrap();
    assert_eq!(v.profit_share_bps, 2000);
    assert_eq!(v.platform_cut_bps, 1000);
}

#[test]
fn fresh_vault_starts_empty_and_active() {
    let c = vault_fixture();
    let v = c.get_vault(BOT, UID).unwrap();
    assert_eq!(v.balance, 0);
    assert!(v.is_active);
    assert_eq!(v.user_address, USER);
    assert_eq!(v.developer, DEV);
    assert_eq!(v.platform, PLATFORM);
    assert_eq!(v.asset, ASSET);
}

#[test]
fn get_vault_unknown_key() {
    let c = vault_fixture();
    assert_eq!(c.get_vault(BOT, UID + 1), Err(Error::NotFound));
}

#[test]
fn deposit_credits_balance_and_instructs_transfer() {
    let mut c = vault_fixture();
    let o = c.deposit(USER, BOT, UID, 1000).unwrap();
    assert_eq!(
        o.transfers,
        vec![Transfer {
            asset: ASSET,
            from: Party::Account(USER),
            to: Party::Custody,
            amount: 1000,
        }]
    );
    assert_eq!(
        o.events,
        vec![Event::Deposit { bot_id: BOT, user_id: UID, amount: 1000 }]
    );
    let v = c.get_vault(BOT, UID).unwrap();
    assert_eq!(v.balance, 1000);
    assert!(v.is_active);
}

#[test]
fn deposit_rejects_nonpositive_amount() {
    let mut c = vault_fixture();
    assert_eq!(c.deposit(USER, BOT, UID, 0), Err(Error::InvalidAmount));
    assert_eq!(c.deposit(USER, BOT, UID, -5), Err(Error::InvalidAmount));
    assert_eq!(c.get_vault(BOT, UID).unwrap().balance, 0);
}

#[test]
fn deposit_unknown_vault() {
    let mut c = vault_fixture();
    assert_eq!(c.deposit(USER, BOT + 1, UID, 10), Err(Error::NotFound));
}

#[test]
fn deposit_requires_current_user() {
    let mut c = vault_fixture();
    assert_eq!(c.deposit(DEV, BOT, UID, 10), Err(Error::Unauthorized));
    // After the admin rebinds the user address, only the new one may deposit.
    c.update_user_address(ADMIN, BOT, UID, 111).unwrap();
    assert_eq!(c.deposit(USER, BOT, UID, 10), Err(Error::Unauthorized));
    assert!(c.deposit(111, BOT, UID, 10).is_ok());
}

#[test]
fn withdraw_pays_out_and_keeps_lifecycle() {
    let mut c = vault_fixture();
    c.deposit(USER, BOT, UID, 1000).unwrap();
    let o = c.withdraw(USER, BOT, UID, 400).unwrap();
    assert_eq!(
        o.transfers,
        vec![Transfer {
            asset: ASSET,
            from: Party::Custody,
            to: Party::Account(USER),
            amount: 400,
        }]
    );
    assert_eq!(
        o.events,
        vec![Event::Withdraw { bot_id: BOT, user_id: UID, amount: 400 }]
    );
    let v = c.get_vault(BOT, UID).unwrap();
    assert_eq!(v.balance, 600);
    assert!(v.is_active);
}

#[test]
fn withdraw_more_than_balance_fails_and_changes_nothing() {
    let mut c = vault_fixture();
    c.deposit(USER, BOT, UID, 50).unwrap();
    let r = c.withdraw(USER, BOT, UID, 51);
    assert_eq!(r, Err(Error::InsufficientBalance));
    let v = c.get_vault(BOT, UID).unwrap();
    assert_eq!(v.balance, 50);
    assert!(v.is_active);
}

#[test]
fn withdraw_rejects_nonpositive_amount() {
    let mut c = vault_fixture();
    assert_eq!(c.withdraw(USER, BOT, UID, 0), Err(Error::InvalidAmount));
    assert_eq!(c.withdraw(USER, BOT, UID, -1), Err(Error::InvalidAmount));
}

#[test]
fn withdraw_requires_current_user() {
    let mut c = vault_fixture();
    c.deposit(USER, BOT, UID, 100).unwrap();
    assert_eq!(c.withdraw(ADMIN, BOT, UID, 10), Err(Error::Unauthorized));
}

#[test]
fn settlement_splits_commission_exactly() {
    // Vault at 20% profit share, 10% platform cut; deposit 1000, settle 500:
    // commission 100, platform fee 10, developer fee 90, balance 900.
    let mut c = vault_fixture();
    c.deposit(USER, BOT, UID, 1000).unwrap();
    let o = c.settle_profit(ADMIN, BOT, UID, 500).unwrap();
    assert_eq!(
        o.transfers,
        vec![
            Transfer {
                asset: ASSET,
                from: Party::Custody,
                to: Party::Account(PLATFORM),
                amount: 10,
            },
            Transfer {
                asset: ASSET,
                from: Party::Custody,
                to: Party::Account(DEV),
                amount: 90,
            },
        ]
    );
    assert_eq!(
        o.events,
        vec![Event::Settled {
            bot_id: BOT,
            user_id: UID,
            profit_amount: 500,
            total_commission: 100,
        }]
    );
    let v = c.get_vault(BOT, UID).unwrap();
    assert_eq!(v.balance, 900);
    assert!(v.is_active);
}

#[test]
fn settlement_shortfall_suspends_until_next_deposit() {
    // Balance 50, settle on profit 1000: commission 200 > 50. The vault is
    // suspended with its balance intact; a second settlement is a silent
    // no-op; a deposit reactivates it.
    let mut c = vault_fixture();
    c.deposit(USER, BOT, UID, 50).unwrap();
    let o = c.settle_profit(ADMIN, BOT, UID, 1000).unwrap();
    assert!(o.transfers.is_empty());
    assert_eq!(
        o.events,
        vec![Event::InsufficientCover {
            bot_id: BOT,
            user_id: UID,
            total_commission: 200,
            balance: 50,
        }]
    );
    let v = c.get_vault(BOT, UID).unwrap();
    assert_eq!(v.balance, 50);
    assert!(!v.is_active);

    let o = c.settle_profit(ADMIN, BOT, UID, 1000).unwrap();
    assert!(o.transfers.is_empty());
    assert!(o.events.is_empty());
    let v = c.get_vault(BOT, UID).unwrap();
    assert_eq!(v.balance, 50);
    assert!(!v.is_active);

    let o = c.deposit(USER, BOT, UID, 1).unwrap();
    assert_eq!(o.transfers.len(), 1);
    let v = c.get_vault(BOT, UID).unwrap();
    assert_eq!(v.balance, 51);
    assert!(v.is_active);
}

#[test]
fn settlement_requires_admin() {
    let mut c = vault_fixture();
    c.deposit(USER, BOT, UID, 1000).unwrap();
    assert_eq!(c.settle_profit(USER, BOT, UID, 500), Err(Error::Unauthorized));
}

#[test]
fn settlement_rejects_nonpositive_profit() {
    let mut c = vault_fixture();
    assert_eq!(c.settle_profit(ADMIN, BOT, UID, 0), Err(Error::InvalidAmount));
    assert_eq!(c.settle_profit(ADMIN, BOT, UID, -10), Err(Error::InvalidAmount));
}

#[test]
fn settlement_unknown_vault() {
    let mut c = vault_fixture();
    assert_eq!(c.settle_profit(ADMIN, BOT, UID + 1, 500), Err(Error::NotFound));
}

#[test]
fn settlement_before_init_rejected() {
    let mut c = ProfitSharingVault::new();
    assert_eq!(c.settle_profit(ADMIN, BOT, UID, 500), Err(Error::NotInitialized));
}

#[test]
fn settlement_of_tiny_profit_rounds_commission_to_zero() {
    // Commission truncates toward zero: 4 * 2000 / 10000 == 0, so both
    // fees are zero, no transfer is instructed, and the vault keeps dust.
    let mut c = vault_fixture();
    c.deposit(USER, BOT, UID, 100).unwrap();
    let o = c.settle_profit(ADMIN, BOT, UID, 4).unwrap();
    assert!(o.transfers.is_empty());
    assert_eq!(
        o.events,
        vec![Event::Settled {
            bot_id: BOT,
            user_id: UID,
            profit_amount: 4,
            total_commission: 0,
        }]
    );
    let v = c.get_vault(BOT, UID).unwrap();
    assert_eq!(v.balance, 100);
    assert!(v.is_active);
}

#[test]
fn update_user_address_rebinds_identity() {
    let mut c = vault_fixture();
    let o = c.update_user_address(ADMIN, BOT, UID, 555).unwrap();
    assert!(o.transfers.is_empty());
    assert_eq!(
        o.events,
        vec![Event::UserAddressUpdated { bot_id: BOT, user_id: UID, new_address: 555 }]
    );
    assert_eq!(c.get_vault(BOT, UID).unwrap().user_address, 555);
}

#[test]
fn update_user_address_requires_admin() {
    let mut c = vault_fixture();
    assert_eq!(c.update_user_address(USER, BOT, UID, 555), Err(Error::Unauthorized));
}

#[test]
fn update_developer_address_rebinds_identity() {
    let mut c = vault_fixture();
    let o = c.update_developer_address(ADMIN, BOT, UID, 666).unwrap();
    assert!(o.transfers.is_empty());
    assert_eq!(
        o.events,
        vec![Event::DeveloperUpdated { bot_id: BOT, user_id: UID, new_address: 666 }]
    );
    assert_eq!(c.get_vault(BOT, UID).unwrap().developer, 666);
}

#[test]
fn update_developer_address_unknown_vault() {
    let mut c = vault_fixture();
    assert_eq!(
        c.update_developer_address(ADMIN, BOT, UID + 1, 666),
        Err(Error::NotFound)
    );
}

#[test]
fn balances_are_tracked_per_vault() {
    let mut c = vault_fixture();
    c.init_vault(ADMIN, BOT, UID + 1, 101, DEV, PLATFORM, ASSET, 0, 0)
        .unwrap();
    c.deposit(USER, BOT, UID, 30).unwrap();
    c.deposit(101, BOT, UID + 1, 70).unwrap();
    c.withdraw(101, BOT, UID + 1, 50).unwrap();
    assert_eq!(c.get_vault(BOT, UID).unwrap().balance, 30);
    assert_eq!(c.get_vault(BOT, UID + 1).unwrap().balance, 20);
}

#[test]
fn balance_is_deposits_minus_withdrawals_minus_settled_commissions() {
    let mut c = vault_fixture();
    c.deposit(USER, BOT, UID, 1000).unwrap();
    c.deposit(USER, BOT, UID, 250).unwrap();
    c.withdraw(USER, BOT, UID, 300).unwrap();
    // 20% of 500 is a commission of 100.
    c.settle_profit(ADMIN, BOT, UID, 500).unwrap();
    c.withdraw(USER, BOT, UID, 50).unwrap();
    let v = c.get_vault(BOT, UID).unwrap();
    assert_eq!(v.balance, 1000 + 250 - 300 - 100 - 50);
    assert!(v.balance >= 0);
}

#[test]
fn record_steps_drive_the_same_transitions() {
    // The record-level steps, as a keyed-store host would call them.
    let v = VaultObj {
        user_address: USER,
        developer: DEV,
        platform: PLATFORM,
        asset: ASSET,
        profit_share_bps: 2000,
        platform_cut_bps: 1000,
        balance: 0,
        is_active: false,
    };
    let (v1, _) = v.deposit_step(BOT, UID, USER, 1000).unwrap();
    assert!(v1.is_active);
    assert_eq!(v1.balance, 1000);
    let (v2, o2) = v1.settle_step(BOT, UID, 500).unwrap();
    assert_eq!(v2.balance, 900);
    assert_eq!(o2.transfers.len(), 2);
    let (v3, _) = v2.withdraw_step(BOT, UID, USER, 900).unwrap();
    assert_eq!(v3.balance, 0);
    assert_eq!(
        v3.withdraw_step(BOT, UID, USER, 1),
        Err(Error::InsufficientBalance)
    );
    assert_eq!(
        v3.deposit_step(BOT, UID, DEV, 5),
        Err(Error::Unauthorized)
    );
}

#[test]
fn settle_step_on_suspended_record_is_noop() {
    let v = VaultObj {
        user_address: USER,
        developer: DEV,
        platform: PLATFORM,
        asset: ASSET,
        profit_share_bps: 2000,
        platform_cut_bps: 1000,
        balance: 77,
        is_active: false,
    };
    let (v1, o) = v.settle_step(BOT, UID, 500).unwrap();
    assert_eq!(v1, v);
    assert!(o.transfers.is_empty());
    assert!(o.events.is_empty());
}

#[test]
fn rebind_steps_touch_only_their_field() {
    let v = VaultObj {
        user_address: USER,
        developer: DEV,
        platform: PLATFORM,
        asset: ASSET,
        profit_share_bps: 2000,
        platform_cut_bps: 1000,
        balance: 42,
        is_active: true,
    };
    let (v1, o1) = v.rebind_user_step(BOT, UID, 123);
    assert_eq!(v1, VaultObj { user_address: 123, ..v });
    assert!(o1.transfers.is_empty());
    assert_eq!(
        o1.events,
        vec![Event::UserAddressUpdated { bot_id: BOT, user_id: UID, new_address: 123 }]
    );
    let (v2, o2) = v.rebind_developer_step(BOT, UID, 124);
    assert_eq!(v2, VaultObj { developer: 124, ..v });
    assert_eq!(
        o2.events,
        vec![Event::DeveloperUpdated { bot_id: BOT, user_id: UID, new_address: 124 }]
    );
}

#[test]
fn zero_rate_vault_settles_without_transfers() {
    // profit_share_bps of 0 owes no commission at all.
    let mut c = ProfitSharingVault::new();
    c.init(ADMIN).unwrap();
    c.init_vault(ADMIN, BOT, UID, USER, DEV, PLATFORM, ASSET, 0, 10000)
        .unwrap();
    c.deposit(USER, BOT, UID, 10).unwrap();
    let o = c.settle_profit(ADMIN, BOT, UID, i128::MAX / 10000).unwrap();
    assert!(o.transfers.is_empty());
    assert_eq!(c.get_vault(BOT, UID).unwrap().balance, 10);
}

#[test]
fn full_cut_sends_whole_commission_to_platform() {
    // platform_cut_bps of 10000 leaves the developer nothing.
    let mut c = ProfitSharingVault::new();
    c.init(ADMIN).unwrap();
    c.init_vault(ADMIN, BOT, UID, USER, DEV, PLATFORM, ASSET, 10000, 10000)
        .unwrap();
    c.deposit(USER, BOT, UID, 500).unwrap();
    let o = c.settle_profit(ADMIN, BOT, UID, 500).unwrap();
    assert_eq!(
        o.transfers,
        vec![Transfer {
            asset: ASSET,
            from: Party::Custody,
            to: Party::Account(PLATFORM),
            amount: 500,
        }]
    );
    assert_eq!(c.get_vault(BOT, UID).unwrap().balance, 0);
    assert!(c.get_vault(BOT, UID).unwrap().is_active);
}
