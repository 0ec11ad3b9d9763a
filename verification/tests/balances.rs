use chain_bench::balance_tracker::BalanceTracker;
use chain_bench::primitives::{Address, TxHash, U256};

fn address(last: u8) -> Address {
    let mut bytes = [0u8; 20];
    bytes[19] = last;
    Address { bytes }
}

fn wei(x: u128) -> U256 {
    U256::from_u128(x)
}

const MAX: U256 = U256 { limbs: [u64::MAX; 4] };

#[test]
fn u256_limbs_of_small_and_large_values() {
    assert_eq!(U256::from_u64(7).limbs, [7, 0, 0, 0]);
    assert_eq!(U256::from_u128(u128::MAX).limbs, [u64::MAX, u64::MAX, 0, 0]);
    assert_eq!(U256::from_u128((5u128 << 64) + 9).limbs, [9, 5, 0, 0]);
}

#[test]
fn address_key_splits_after_four_bytes() {
    let mut bytes = [0u8; 20];
    bytes[0] = 1;
    bytes[3] = 2;
    bytes[4] = 3;
    bytes[19] = 4;
    assert_eq!(Address { bytes }.key(), (0x0100_0002, (3u128 << 120) + 4));
}

#[test]
fn hash_key_splits_in_the_middle() {
    let mut bytes = [0u8; 32];
    bytes[0] = 0xff;
    bytes[15] = 1;
    bytes[16] = 2;
    bytes[31] = 3;
    assert_eq!(TxHash { bytes }.key(), ((0xffu128 << 120) + 1, (2u128 << 120) + 3));
}

#[test]
fn new_tracker_converts_gwei_and_eth_to_wei() {
    let tracker = BalanceTracker::new(u64::MAX, 3);
    assert_eq!(tracker.refaucet_amount(), wei(3_000_000_000_000_000_000));
    assert_eq!(tracker.get_balance(&address(1)), None);
    // u64::MAX Gwei is the threshold: one wei less is low, as much is not.
    let threshold = u64::MAX as u128 * 1_000_000_000;
    let mut tracker = BalanceTracker::new(u64::MAX, 3);
    tracker.set_balance(address(1), wei(threshold - 1));
    tracker.set_balance(address(2), wei(threshold));
    assert!(tracker.needs_refaucet(&address(1)));
    assert!(!tracker.needs_refaucet(&address(2)));
}

#[test]
fn largest_refaucet_amount_is_exact() {
    let tracker = BalanceTracker::new(0, u64::MAX);
    assert_eq!(tracker.refaucet_amount(), wei(u64::MAX as u128 * 1_000_000_000_000_000_000));
}

#[test]
fn set_balance_is_read_back_and_replaced() {
    let mut tracker = BalanceTracker::new(1, 1);
    tracker.set_balance(address(1), wei(10));
    tracker.set_balance(address(2), MAX);
    tracker.set_balance(address(1), wei(20));
    assert_eq!(tracker.get_balance(&address(1)), Some(wei(20)));
    assert_eq!(tracker.get_balance(&address(2)), Some(MAX));
}

#[test]
fn deduct_gas_takes_gas_times_price() {
    let mut tracker = BalanceTracker::new(1, 1);
    tracker.set_balance(address(1), wei(1_000_000));
    assert_eq!(tracker.deduct_gas(&address(1), 21, 1_000), Some(wei(979_000)));
    assert_eq!(tracker.get_balance(&address(1)), Some(wei(979_000)));
}

#[test]
fn deduct_gas_stops_at_zero() {
    let mut tracker = BalanceTracker::new(1, 1);
    tracker.set_balance(address(1), wei(5));
    assert_eq!(tracker.deduct_gas(&address(1), 2, 3), Some(wei(0)));
}

#[test]
fn deduct_gas_of_the_largest_cost_does_not_wrap() {
    let mut tracker = BalanceTracker::new(1, 1);
    tracker.set_balance(address(1), MAX);
    // (2^128 - 1)^2 = 2^256 - 2^129 + 1, so 2^129 - 2 is left.
    assert_eq!(
        tracker.deduct_gas(&address(1), u128::MAX, u128::MAX),
        Some(U256 { limbs: [u64::MAX - 1, u64::MAX, 1, 0] })
    );
}

#[test]
fn untracked_account_is_left_alone() {
    let mut tracker = BalanceTracker::new(1, 1);
    assert_eq!(tracker.deduct_gas(&address(1), 1, 1), None);
    tracker.credit(&address(1), wei(5));
    assert_eq!(tracker.get_balance(&address(1)), None);
    assert!(!tracker.needs_refaucet(&address(1)));
}

#[test]
fn credit_adds_up_and_wraps() {
    let mut tracker = BalanceTracker::new(1, 1);
    tracker.set_balance(address(1), wei(5));
    tracker.credit(&address(1), wei(6));
    assert_eq!(tracker.get_balance(&address(1)), Some(wei(11)));
    tracker.set_balance(address(1), MAX);
    tracker.credit(&address(1), wei(3));
    assert_eq!(tracker.get_balance(&address(1)), Some(wei(2)));
}

#[test]
fn costs_add_up() {
    let mut twice = BalanceTracker::new(1, 1);
    let mut once = BalanceTracker::new(1, 1);
    for tracker in [&mut twice, &mut once] {
        tracker.set_balance(address(1), wei(100));
        tracker.set_balance(address(2), wei(7));
    }
    twice.deduct_gas(&address(1), 3, 10);
    twice.deduct_gas(&address(1), 4, 10);
    once.deduct_gas(&address(1), 7, 10);
    assert_eq!(twice.get_balance(&address(1)), Some(wei(30)));
    assert_eq!(once.get_balance(&address(1)), Some(wei(30)));
    assert_eq!(once.get_balance(&address(2)), Some(wei(7)));
}

#[test]
fn costs_of_two_accounts_commute() {
    let mut a = BalanceTracker::new(1, 1);
    let mut b = BalanceTracker::new(1, 1);
    for tracker in [&mut a, &mut b] {
        tracker.set_balance(address(1), wei(100));
        tracker.set_balance(address(2), wei(200));
    }
    a.deduct_gas(&address(1), 1, 30);
    a.deduct_gas(&address(2), 1, 50);
    b.deduct_gas(&address(2), 1, 50);
    b.deduct_gas(&address(1), 1, 30);
    for tracker in [&a, &b] {
        assert_eq!(tracker.get_balance(&address(1)), Some(wei(70)));
        assert_eq!(tracker.get_balance(&address(2)), Some(wei(150)));
    }
}

#[test]
fn refaucet_ends_need() {
    let mut tracker = BalanceTracker::new(1, 1);
    tracker.set_balance(address(1), wei(1));
    assert!(tracker.needs_refaucet(&address(1)));
    let amount = tracker.refaucet_amount();
    tracker.credit(&address(1), amount);
    assert!(!tracker.needs_refaucet(&address(1)));
    assert_eq!(tracker.get_balance(&address(1)), Some(wei(1_000_000_000_000_000_001)));
}
