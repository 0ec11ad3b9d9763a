use chain_bench::bench_config::{
    default_log_path, default_max_fee_per_gas, default_max_priority_fee_per_gas,
    default_refaucet_amount, AddressPoolType, SamplingPolicy,
};
use chain_bench::eth_amount::eth_str_to_u256;
use chain_bench::gas::{
    gas_config, gas_cost_per_txn_budget, init_gas_config, max_fee_per_gas,
    max_priority_fee_per_gas, GasConfig, GasConfigCell, DEFAULT_TX_GAS_PRICE_WEI,
};
use chain_bench::primitives::U256;

#[test]
fn defaults_of_the_configuration() {
    assert_eq!(default_log_path(), "./log.log");
    assert_eq!(default_max_fee_per_gas(), 5000);
    assert_eq!(default_max_priority_fee_per_gas(), 500);
    assert_eq!(default_refaucet_amount(), 1);
    assert_eq!(AddressPoolType::default(), AddressPoolType::Random);
}

#[test]
fn default_sampling_is_ten_and_not_full() {
    let policy = SamplingPolicy::default();
    assert_eq!(policy.size(), 10);
    assert!(!policy.is_full());
}

#[test]
fn full_sampling_in_any_case() {
    assert!(SamplingPolicy::Full("full".to_string()).is_full());
    assert!(SamplingPolicy::Full("FuLL".to_string()).is_full());
    assert!(!SamplingPolicy::Full("ful".to_string()).is_full());
    assert!(!SamplingPolicy::Full("fully".to_string()).is_full());
    assert!(!SamplingPolicy::Full("fu\u{17f}l".to_string()).is_full());
    assert!(!SamplingPolicy::Full("".to_string()).is_full());
    assert_eq!(SamplingPolicy::Full("full".to_string()).size(), 10);
}

#[test]
fn partial_sampling_has_its_size() {
    assert!(!SamplingPolicy::Partial(0).is_full());
    assert_eq!(SamplingPolicy::Partial(0).size(), 0);
    assert_eq!(SamplingPolicy::Partial(77).size(), 77);
}

#[test]
fn eth_amounts_come_to_wei_exactly() {
    let wei = |text: &str| eth_str_to_u256(text.as_bytes());
    assert_eq!(wei("100"), Some(U256::from_u128(100_000_000_000_000_000_000)));
    assert_eq!(wei("0.1"), Some(U256::from_u128(100_000_000_000_000_000)));
    assert_eq!(wei("1234.000000000000000001"), Some(U256::from_u128(1_234_000_000_000_000_000_001)));
    assert_eq!(wei(".5"), Some(U256::from_u128(500_000_000_000_000_000)));
    assert_eq!(wei("5."), Some(U256::from_u128(5_000_000_000_000_000_000)));
    // Less than a wei is left out.
    assert_eq!(wei("0.0000000000000000019"), Some(U256::from_u128(1)));
    // The largest amount, and one wei more than that.
    assert_eq!(wei("340282366920938463463.374607431768211455"), Some(U256::from_u128(u128::MAX)));
    assert_eq!(wei("340282366920938463463.374607431768211456"), Some(U256::from_u128(u128::MAX)));
    assert_eq!(
        wei("340282366920938463463.374607431768211454"),
        Some(U256::from_u128(u128::MAX - 1))
    );
    assert_eq!(wei("99999999999999999999999999999999999999999"), Some(U256::from_u128(u128::MAX)));
}

#[test]
fn eth_amounts_with_signs_and_exponents() {
    let wei = |text: &str| eth_str_to_u256(text.as_bytes());
    let number = |n: u128| Some(U256::from_u128(n));
    assert_eq!(wei("+1.1"), wei("1.1"));
    assert_eq!(wei("+1.1"), number(1_100_000_000_000_000_000));
    assert_eq!(wei("-1"), number(0));
    assert_eq!(wei("-0"), number(0));
    assert_eq!(wei("1e3"), number(1_000_000_000_000_000_000_000));
    assert_eq!(wei("1E+3"), wei("1e3"));
    assert_eq!(wei("12.5e-1"), number(1_250_000_000_000_000_000));
    assert_eq!(wei("1e-18"), number(1));
    assert_eq!(wei("19e-19"), number(1));
    assert_eq!(wei("9e-19"), number(0));
    assert_eq!(wei("123456e-23"), number(1));
    assert_eq!(wei("1.e1"), number(10_000_000_000_000_000_000));
    assert_eq!(wei("0e99999999999999999999999999999999999999999999"), number(0));
    assert_eq!(wei("1e99999999999999999999999999999999999999999999"), number(u128::MAX));
    assert_eq!(wei("1e-99999999999999999999999999999999999999999999"), number(0));
    assert_eq!(wei("34028236692093846346337460743176821145.5e-17"), number(u128::MAX));
    assert_eq!(wei("34028236692093846346337460743176821145.4e-17"), number(u128::MAX - 1));
    assert_eq!(wei("1e21"), number(u128::MAX));
    assert_eq!(wei("3e20"), number(300_000_000_000_000_000_000_000_000_000_000_000_000));
}

#[test]
fn eth_amounts_without_a_number() {
    let wei = |text: &str| eth_str_to_u256(text.as_bytes());
    for text in ["inf", "+Inf", "INFINITY"] {
        assert_eq!(wei(text), Some(U256::from_u128(u128::MAX)));
    }
    for text in ["-inf", "-infinity", "nan", "-NaN", "+nan"] {
        assert_eq!(wei(text), Some(U256::from_u128(0)));
    }
}

#[test]
fn larger_eth_amounts_give_no_fewer_wei() {
    let texts = [
        "-inf", "-1e400", "-1", "0", "1e-400", "9e-19", "1e-18", "0.1", "1", "+1.0000001", "1.1",
        "11e-1", "12", "1e20", "3.4e20", "3.5e20", "1e400", "inf",
    ];
    for pair in texts.windows(2) {
        let less = eth_str_to_u256(pair[0].as_bytes()).unwrap();
        let more = eth_str_to_u256(pair[1].as_bytes()).unwrap();
        assert!((less.limbs[1], less.limbs[0]) <= (more.limbs[1], more.limbs[0]));
    }
}

#[test]
fn texts_are_eth_amounts_where_they_are_floats() {
    for text in [
        "", ".", "1.2.3", "-", "+", "--1", "1e", "e1", "1e+", "1e1.5", "1e5e", "1 ", " 1", "1,5",
        "0x10", "1.x", "infinit", "infi", "in", "na", "nann", ".e1", "1_0", "5.", ".5", "1.", "+.5",
        "-5.e-3", "1E5", "iNf", "infinity", "nan", "00.00", "1e-0", "1e00000000000000000000001",
    ] {
        assert_eq!(eth_str_to_u256(text.as_bytes()).is_some(), text.parse::<f64>().is_ok());
    }
}

#[test]
fn gas_config_of_the_default_price() {
    let mut cell = GasConfigCell::new();
    assert!(!cell.is_initialized());
    init_gas_config(&mut cell, DEFAULT_TX_GAS_PRICE_WEI);
    assert!(cell.is_initialized());
    assert_eq!(
        *gas_config(&cell),
        GasConfig {
            max_fee_per_gas: 60_000_000_000,
            max_priority_fee_per_gas: 1_000_000_000,
            gas_cost_per_txn_budget: 6_000_000_000_000_000,
        }
    );
}

#[test]
fn tip_is_clamped_to_a_low_price() {
    let mut cell = GasConfigCell::new();
    init_gas_config(&mut cell, 999_999_999);
    assert_eq!(max_fee_per_gas(&cell), 999_999_999);
    assert_eq!(max_priority_fee_per_gas(&cell), 999_999_999);
    assert_eq!(gas_cost_per_txn_budget(&cell), 99_999_999_900_000);
}

#[test]
fn budget_saturates() {
    let mut cell = GasConfigCell::new();
    init_gas_config(&mut cell, u128::MAX / 100_000 + 1);
    assert_eq!(gas_cost_per_txn_budget(&cell), u128::MAX);
    let mut cell = GasConfigCell::new();
    init_gas_config(&mut cell, u128::MAX / 100_000);
    assert_eq!(gas_cost_per_txn_budget(&cell), u128::MAX / 100_000 * 100_000);
}

#[test]
fn second_initialization_is_ignored() {
    let mut cell = GasConfigCell::new();
    init_gas_config(&mut cell, 5_000_000_000);
    init_gas_config(&mut cell, 7);
    assert_eq!(max_fee_per_gas(&cell), 5_000_000_000);
    assert_eq!(max_priority_fee_per_gas(&cell), 1_000_000_000);
}

#[test]
fn budget_covers_the_worst_case() {
    let mut cell = GasConfigCell::new();
    init_gas_config(&mut cell, 123_456_789);
    assert!(gas_cost_per_txn_budget(&cell) >= 100_000 * max_fee_per_gas(&cell));
    assert!(gas_cost_per_txn_budget(&cell) >= 21_000 * 100_000_000);
}
