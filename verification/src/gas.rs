//! Gas pricing, resolved once from the configuration.
use vstd::prelude::*;

verus! {

/// Default `tx_gas_price` when omitted from the config (60 Gwei in wei).
///
/// Sized to fit chains with low minimum base fees. For Gravity (50 Gwei
/// protocol minimum) the user should override to 100 Gwei or higher to
/// leave headroom for transient base-fee spikes under load.
pub const DEFAULT_TX_GAS_PRICE_WEI: u128 = 60_000_000_000;

/// Worst-case gas units used to size the per-txn cost budget reserved during
/// faucet distribution (covers ERC20/contract calls; ETH transfers are 21k).
pub const WORST_CASE_GAS_LIMIT: u128 = 100_000;

/// Fixed priority fee (tip) target. Clamped to `max_fee_per_gas` so configs
/// with sub-1-Gwei `tx_gas_price` stay valid (`tip <= max_fee`).
pub const TARGET_PRIORITY_FEE_PER_GAS: u128 = 1_000_000_000;

/// Resolved gas pricing, populated once from config at startup.
#[derive(Clone, Copy, Debug, PartialEq, Eq, Structural)]
pub struct GasConfig {
    pub max_fee_per_gas: u128,
    pub max_priority_fee_per_gas: u128,
    pub gas_cost_per_txn_budget: u128,
}

/// The pricing that follows from a gas price: the price itself as the maximum fee, the tip target
/// or the price if that is lower, and the price of a worst-case transaction or `u128::MAX` if that
/// is lower.
pub open spec fn gas_config_for(tx_gas_price_wei: u128) -> GasConfig {
    GasConfig {
        max_fee_per_gas: tx_gas_price_wei,
        max_priority_fee_per_gas: if tx_gas_price_wei < TARGET_PRIORITY_FEE_PER_GAS {
            tx_gas_price_wei
        } else {
            TARGET_PRIORITY_FEE_PER_GAS
        },
        gas_cost_per_txn_budget: if tx_gas_price_wei * WORST_CASE_GAS_LIMIT <= u128::MAX {
            (tx_gas_price_wei * WORST_CASE_GAS_LIMIT) as u128
        } else {
            u128::MAX
        },
    }
}

/// Holds the gas pricing once it is known. The first initialization stays.
pub struct GasConfigCell {
    config: Option<GasConfig>,
}

impl View for GasConfigCell {
    type V = Option<GasConfig>;

    closed spec fn view(&self) -> Option<GasConfig> {
        self.config
    }
}

impl GasConfigCell {
    /// What it holds is what follows from its maximum fee as the gas price.
    #[verifier::type_invariant]
    spec fn is_resolved(self) -> bool {
        self.config matches Some(config) ==> config == gas_config_for(config.max_fee_per_gas)
    }

    /// A cell that no price has been given to.
    pub fn new() -> (cell: Self)
        ensures
            cell@ is None,
    {
        GasConfigCell { config: None }
    }

    /// Whether a price has been given.
    pub fn is_initialized(&self) -> (r: bool)
        ensures
            r == (self@ is Some),
    {
        self.config.is_some()
    }
}

/// Initialize the gas config. Call once at startup, before any
/// transaction is built. Subsequent calls are ignored.
pub fn init_gas_config(cell: &mut GasConfigCell, tx_gas_price_wei: u128)
    ensures
        final(cell)@ == (match old(cell)@ {
            Some(config) => Some(config),
            None => Some(gas_config_for(tx_gas_price_wei)),
        }),
{
    let max_fee = tx_gas_price_wei;
    let tip: u128 = if max_fee < TARGET_PRIORITY_FEE_PER_GAS {
        max_fee
    } else {
        TARGET_PRIORITY_FEE_PER_GAS
    };
    let budget: u128 = match max_fee.checked_mul(WORST_CASE_GAS_LIMIT) {
        Some(cost) => cost,
        None => u128::MAX,
    };
    if cell.config.is_none() {
        cell.config = Some(
            GasConfig {
                max_fee_per_gas: max_fee,
                max_priority_fee_per_gas: tip,
                gas_cost_per_txn_budget: budget,
            },
        );
    }
}

/// The gas pricing of an initialized cell.
pub fn gas_config(cell: &GasConfigCell) -> (config: &GasConfig)
    requires
        cell@ is Some,
    ensures
        cell@ == Some(*config),
        *config == gas_config_for(config.max_fee_per_gas),
{
    proof {
        use_type_invariant(cell);
    }
    cell.config.as_ref().unwrap()
}

/// The most that a transaction pays per unit of gas, in wei.
pub fn max_fee_per_gas(cell: &GasConfigCell) -> (fee: u128)
    requires
        cell@ is Some,
    ensures
        fee == cell@->0.max_fee_per_gas,
        cell@ == Some(gas_config_for(fee)),
{
    gas_config(cell).max_fee_per_gas
}

/// The tip that a transaction pays per unit of gas, in wei.
pub fn max_priority_fee_per_gas(cell: &GasConfigCell) -> (fee: u128)
    requires
        cell@ is Some,
    ensures
        fee == cell@->0.max_priority_fee_per_gas,
{
    gas_config(cell).max_priority_fee_per_gas
}

/// What is reserved for the gas of one transaction, in wei.
pub fn gas_cost_per_txn_budget(cell: &GasConfigCell) -> (budget: u128)
    requires
        cell@ is Some,
    ensures
        budget == cell@->0.gas_cost_per_txn_budget,
{
    gas_config(cell).gas_cost_per_txn_budget
}

/// Whatever the gas price, the tip is at most the maximum fee.
pub proof fn law_tip_within_max_fee(tx_gas_price_wei: u128)
    ensures
        gas_config_for(tx_gas_price_wei).max_priority_fee_per_gas <= gas_config_for(
            tx_gas_price_wei,
        ).max_fee_per_gas,
{
}

/// The budget of a transaction covers any use of gas up to the worst case, at any price up to the
/// maximum fee, unless the price is so high that the budget is the largest there is.
pub proof fn law_budget_covers_worst_case(tx_gas_price_wei: u128, gas_used: nat, price: nat)
    requires
        gas_used <= WORST_CASE_GAS_LIMIT,
        price <= gas_config_for(tx_gas_price_wei).max_fee_per_gas,
    ensures
        gas_used * price <= gas_config_for(tx_gas_price_wei).gas_cost_per_txn_budget
            || gas_config_for(tx_gas_price_wei).gas_cost_per_txn_budget == u128::MAX,
{
    assert(gas_used * price <= tx_gas_price_wei * WORST_CASE_GAS_LIMIT) by (nonlinear_arith)
        requires
            gas_used <= WORST_CASE_GAS_LIMIT,
            price <= tx_gas_price_wei,
    ;
}

/// The pricing in numbers: the gas price is the maximum fee, the tip is a Gwei or the gas price if
/// that is lower, and the budget is for a hundred thousand units of gas or the largest number of 128
/// bits if that is lower.
pub proof fn law_pricing_in_numbers(tx_gas_price_wei: u128)
    ensures
        gas_config_for(tx_gas_price_wei).max_fee_per_gas == tx_gas_price_wei,
        tx_gas_price_wei >= 1_000_000_000 ==> gas_config_for(
            tx_gas_price_wei,
        ).max_priority_fee_per_gas == 1_000_000_000,
        tx_gas_price_wei < 1_000_000_000 ==> gas_config_for(
            tx_gas_price_wei,
        ).max_priority_fee_per_gas == tx_gas_price_wei,
        tx_gas_price_wei * 100_000 <= u128::MAX ==> gas_config_for(
            tx_gas_price_wei,
        ).gas_cost_per_txn_budget == tx_gas_price_wei * 100_000,
        tx_gas_price_wei * 100_000 > u128::MAX ==> gas_config_for(
            tx_gas_price_wei,
        ).gas_cost_per_txn_budget == u128::MAX,
{
}

} // verus!
