use whaleer::fees::{compute_commission, split_commission, BPS_SCALE};

#[test]
fn commission_is_truncated_share() {
    // 500 * 2000 / 10000 == 100.
    assert_eq!(compute_commission(500, 2000), 100);
    // 999 * 1 / 10000 truncates to 0.
    assert_eq!(compute_commission(999, 1), 0);
    // Full scale takes the whole profit.
    assert_eq!(compute_commission(12345, BPS_SCALE), 12345);
    // Zero rate owes nothing, whatever the profit.
    assert_eq!(compute_commission(i128::MAX / 10000, 0), 0);
}

#[test]
fn split_matches_worked_example() {
    // 100 at a 10% cut: platform 10, developer 90.
    assert_eq!(split_commission(100, 1000), (10, 90));
}

#[test]
fn split_gives_truncation_dust_to_developer() {
    // 101 * 3333 / 10000 == 33, so the developer receives 68.
    assert_eq!(split_commission(101, 3333), (33, 68));
}

#[test]
fn split_extremes() {
    assert_eq!(split_commission(100, 0), (0, 100));
    assert_eq!(split_commission(100, BPS_SCALE), (100, 0));
    assert_eq!(split_commission(0, 5000), (0, 0));
}

#[test]
fn split_never_loses_a_unit() {
    for total in [1i128, 2, 3, 9, 10, 99, 100, 101, 9999, 10000, 10001] {
        for cut in [0u32, 1, 3333, 5000, 9999, 10000] {
            let (platform_fee, developer_fee) = split_commission(total, cut);
            assert_eq!(platform_fee + developer_fee, total);
            assert!(platform_fee >= 0 && developer_fee >= 0);
            assert!(platform_fee <= total && developer_fee <= total);
        }
    }
}
