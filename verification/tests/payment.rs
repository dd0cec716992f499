use whaleer::effects::{Party, Transfer};
use whaleer::errors::Error;
use whaleer::payment::WhaleerPayment;

const PLATFORM: u64 = 1;
const BUYER: u64 = 10;
const SELLER: u64 = 20;
const TOKEN: u64 = 30;

fn payment_fixture() -> WhaleerPayment {
    let mut c = WhaleerPayment::new();
    c.init(PLATFORM).unwrap();
    c
}

#[test]
fn payment_init_succeeds_once() {
    let mut c = WhaleerPayment::new();
    assert_eq!(c.init(PLATFORM), Ok(()));
    assert_eq!(c.init(PLATFORM), Err(Error::AlreadyInitialized));
}

#[test]
fn pay_split_is_ninety_ten() {
    let mut c = payment_fixture();
    let o = c.pay_split(BUYER, BUYER, SELLER, TOKEN, 1000, 77).unwrap();
    assert_eq!(
        o.transfers,
        vec![
            Transfer {
                asset: TOKEN,
                from: Party::Account(BUYER),
                to: Party::Account(PLATFORM),
                amount: 100,
            },
            Transfer {
                asset: TOKEN,
                from: Party::Account(BUYER),
                to: Party::Account(SELLER),
                amount: 900,
            },
        ]
    );
    assert_eq!(o.event.order_id, 77);
    assert_eq!(o.event.amount, 1000);
    assert_eq!(o.event.platform_share, 100);
    assert_eq!(o.event.seller_share, 900);
    assert_eq!(o.event.token, TOKEN);
}

#[test]
fn pay_split_truncates_platform_share() {
    // 9 * 10 / 100 == 0: the platform transfer is omitted and the seller
    // receives everything.
    let mut c = payment_fixture();
    let o = c.pay_split(BUYER, BUYER, SELLER, TOKEN, 9, 1).unwrap();
    assert_eq!(
        o.transfers,
        vec![Transfer {
            asset: TOKEN,
            from: Party::Account(BUYER),
            to: Party::Account(SELLER),
            amount: 9,
        }]
    );
    assert_eq!(o.event.platform_share, 0);
    assert_eq!(o.event.seller_share, 9);
}

#[test]
fn pay_split_shares_always_reassemble_amount() {
    let mut c = payment_fixture();
    for amount in [1i128, 9, 10, 11, 99, 100, 101, 123456789] {
        let o = c.pay_split(BUYER, BUYER, SELLER, TOKEN, amount, 5).unwrap();
        assert_eq!(o.event.platform_share + o.event.seller_share, amount);
    }
}

#[test]
fn pay_split_requires_buyer_authorization() {
    let mut c = payment_fixture();
    let r = c.pay_split(SELLER, BUYER, SELLER, TOKEN, 1000, 77);
    assert_eq!(r, Err(Error::Unauthorized));
}

#[test]
fn pay_split_rejects_nonpositive_amount() {
    let mut c = payment_fixture();
    assert_eq!(
        c.pay_split(BUYER, BUYER, SELLER, TOKEN, 0, 77),
        Err(Error::InvalidAmount)
    );
    assert_eq!(
        c.pay_split(BUYER, BUYER, SELLER, TOKEN, -3, 77),
        Err(Error::InvalidAmount)
    );
}

#[test]
fn pay_split_before_init_rejected() {
    let mut c = WhaleerPayment::new();
    let r = c.pay_split(BUYER, BUYER, SELLER, TOKEN, 1000, 77);
    assert_eq!(r, Err(Error::NotInitialized));
}
