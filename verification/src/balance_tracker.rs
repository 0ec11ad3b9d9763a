//! Per-account balances, kept up to date from transaction receipts.
use std::collections::BTreeMap;
use vstd::arithmetic::div_mod::lemma_small_mod;
use vstd::arithmetic::power::pow;
use vstd::prelude::*;

use crate::primitives::{
    key_of, law_u256_is_its_value, lemma_key_injective, saturating_difference, u256_modulus,
    Address, U256,
};

verus! {

broadcast use {vstd::std_specs::btree::group_btree_axioms, vstd::laws_cmp::group_laws_cmp};

/// What a balance tracker knows: the balance of each tracked account by its address, the balance
/// below which an account is topped up, and by how much, all in wei.
pub struct Ledger {
    pub balances: Map<Seq<u8>, nat>,
    pub low_balance_threshold: nat,
    pub refaucet_amount: nat,
}

impl Ledger {
    /// Whether the account is tracked with a balance below the threshold.
    pub open spec fn is_low(self, address: Seq<u8>) -> bool {
        self.balances.contains_key(address) && self.balances[address] < self.low_balance_threshold
    }

    /// The account tracked with `balance`, whatever it had before.
    pub open spec fn with_balance(self, address: Seq<u8>, balance: nat) -> Ledger {
        Ledger { balances: self.balances.insert(address, balance), ..self }
    }

    /// `cost` taken off the balance of the account, down to zero at most, where it is tracked.
    pub open spec fn after_cost(self, address: Seq<u8>, cost: nat) -> Ledger {
        if self.balances.contains_key(address) {
            self.with_balance(address, saturating_difference(self.balances[address], cost))
        } else {
            self
        }
    }

    /// `amount` put on the balance of the account modulo 2^256, where it is tracked.
    pub open spec fn after_credit(self, address: Seq<u8>, amount: nat) -> Ledger {
        if self.balances.contains_key(address) {
            self.with_balance(address, (self.balances[address] + amount) % u256_modulus())
        } else {
            self
        }
    }
}

/// Tracks per-account ETH balance in receipt mode.
/// Balance is updated by subtracting gas costs from transaction receipts.
pub struct BalanceTracker {
    /// Balances by the key of the address.
    balances: BTreeMap<(u128, u128), U256>,
    /// Below this threshold, re-faucet is triggered (in wei)
    low_balance_threshold: U256,
    /// Amount to re-faucet (in wei)
    refaucet_amount: U256,
}

impl View for BalanceTracker {
    type V = Ledger;

    closed spec fn view(&self) -> Ledger {
        Ledger {
            balances: Map::new(
                |address: Seq<u8>|
                    address.len() == 20 && self.balances@.contains_key(key_of(address)),
                |address: Seq<u8>| self.balances@[key_of(address)]@,
            ),
            low_balance_threshold: self.low_balance_threshold@,
            refaucet_amount: self.refaucet_amount@,
        }
    }
}

impl BalanceTracker {
    /// Create a new BalanceTracker.
    ///
    /// `low_balance_threshold_gwei`: threshold in Gwei
    /// `refaucet_eth`: re-faucet amount in whole ETH
    pub fn new(low_balance_threshold_gwei: u64, refaucet_eth: u64) -> (tracker: Self)
        ensures
            tracker@.balances == Map::<Seq<u8>, nat>::empty(),
            tracker@.low_balance_threshold == low_balance_threshold_gwei * 1_000_000_000,
            tracker@.refaucet_amount == refaucet_eth * 1_000_000_000_000_000_000,
    {
        let wei_per_eth = U256::from_u64(10).wrapping_pow(U256::from_u64(18));
        assert(wei_per_eth@ == 1_000_000_000_000_000_000) by {
            reveal_with_fuel(pow, 19);
            assert(pow(10, 18) == 1_000_000_000_000_000_000);
        }
        let tracker = BalanceTracker {
            balances: BTreeMap::new(),
            low_balance_threshold: U256::from_u64(low_balance_threshold_gwei).wrapping_mul(
                U256::from_u64(1_000_000_000),
            ),
            refaucet_amount: U256::from_u64(refaucet_eth).wrapping_mul(wei_per_eth),
        };
        proof {
            lemma_small_mod((low_balance_threshold_gwei * 1_000_000_000) as nat, u256_modulus());
            lemma_small_mod(
                (refaucet_eth * 1_000_000_000_000_000_000) as nat,
                u256_modulus(),
            );
            assert(tracker@.balances =~= Map::<Seq<u8>, nat>::empty());
        }
        tracker
    }

    /// Set initial balance for an account (after faucet distribution)
    pub fn set_balance(&mut self, address: Address, balance: U256)
        ensures
            final(self)@ == old(self)@.with_balance(address@, balance@),
    {
        self.balances.insert(address.key(), balance);
        proof {
            assert forall|a: Seq<u8>| a.len() == 20 && key_of(a) == key_of(address@) implies a
                == address@ by {
                lemma_key_injective(a, address@);
            }
            assert(self@.balances =~= old(self)@.balances.insert(address@, balance@));
        }
    }

    /// Deduct gas cost from a transaction receipt.
    /// Returns the updated balance, or None if the account is not tracked.
    pub fn deduct_gas(
        &mut self,
        address: &Address,
        gas_used: u128,
        effective_gas_price: u128,
    ) -> (remaining: Option<U256>)
        ensures
            final(self)@ == old(self)@.after_cost(
                address@,
                (gas_used * effective_gas_price) as nat,
            ),
            remaining is Some <==> old(self)@.balances.contains_key(address@),
            remaining matches Some(balance) ==> balance@ == final(self)@.balances[address@],
    {
        let gas_cost = U256::from_u128(gas_used).wrapping_mul(U256::from_u128(effective_gas_price));
        proof {
            assert(0 <= gas_used * effective_gas_price < u256_modulus()) by (nonlinear_arith)
                requires
                    0 <= gas_used < 0x1_0000000000000000_0000000000000000,
                    0 <= effective_gas_price < 0x1_0000000000000000_0000000000000000,
            ;
            lemma_small_mod((gas_used * effective_gas_price) as nat, u256_modulus());
        }
        let current: Option<U256> = self.get_balance(address);
        match current {
            Some(balance) => {
                let left = balance.saturating_sub(gas_cost);
                self.set_balance(*address, left);
                Some(left)
            },
            None => None,
        }
    }

    /// Check if an account needs re-faucet
    pub fn needs_refaucet(&self, address: &Address) -> (low: bool)
        ensures
            low == self@.is_low(address@),
    {
        match self.get_balance(address) {
            Some(balance) => balance.less_than(self.low_balance_threshold),
            None => false,
        }
    }

    /// Credit balance after re-faucet
    pub fn credit(&mut self, address: &Address, amount: U256)
        ensures
            final(self)@ == old(self)@.after_credit(address@, amount@),
    {
        let current: Option<U256> = self.get_balance(address);
        match current {
            Some(balance) => {
                self.set_balance(*address, balance.wrapping_add(amount));
            },
            None => {},
        }
    }

    /// Get the re-faucet amount in wei
    pub fn refaucet_amount(&self) -> (amount: U256)
        ensures
            amount@ == self@.refaucet_amount,
    {
        self.refaucet_amount
    }

    /// Get current tracked balance for an address
    pub fn get_balance(&self, address: &Address) -> (balance: Option<U256>)
        ensures
            balance is Some <==> self@.balances.contains_key(address@),
            balance matches Some(b) ==> b@ == self@.balances[address@],
    {
        match self.balances.get(&address.key()) {
            Some(balance) => Some(*balance),
            None => None,
        }
    }
}

/// What has been set is read back, and no other account is touched.
pub proof fn law_balance_read_back(
    ledger: Ledger,
    address: Seq<u8>,
    balance: nat,
    other: Seq<u8>,
)
    ensures
        ledger.with_balance(address, balance).balances.contains_pair(address, balance),
        other != address ==> {
            let after = ledger.with_balance(address, balance).balances;
            &&& after.contains_key(other) == ledger.balances.contains_key(other)
            &&& after.contains_key(other) ==> after[other] == ledger.balances[other]
        },
{
}

/// Costs and credits touch the account that they are for, leave every other account, the threshold
/// and the re-faucet amount as they are, and make no account tracked or untracked.
pub proof fn law_only_the_account_moves(
    ledger: Ledger,
    address: Seq<u8>,
    amount: nat,
    other: Seq<u8>,
)
    ensures
        ({
            let cost = ledger.after_cost(address, amount);
            let credit = ledger.after_credit(address, amount);
            &&& cost.balances.dom() == ledger.balances.dom()
            &&& credit.balances.dom() == ledger.balances.dom()
            &&& cost.low_balance_threshold == ledger.low_balance_threshold
            &&& credit.low_balance_threshold == ledger.low_balance_threshold
            &&& cost.refaucet_amount == ledger.refaucet_amount
            &&& credit.refaucet_amount == ledger.refaucet_amount
            &&& other != address && ledger.balances.contains_key(other) ==> {
                &&& cost.balances[other] == ledger.balances[other]
                &&& credit.balances[other] == ledger.balances[other]
            }
        }),
{
    assert(ledger.after_cost(address, amount).balances.dom() =~= ledger.balances.dom());
    assert(ledger.after_credit(address, amount).balances.dom() =~= ledger.balances.dom());
}

/// A cost never raises a balance, and takes exactly its amount where the balance covers it.
pub proof fn law_cost_lowers(ledger: Ledger, address: Seq<u8>, cost: nat)
    requires
        ledger.balances.contains_key(address),
    ensures
        ledger.after_cost(address, cost).balances[address] <= ledger.balances[address],
        cost <= ledger.balances[address] ==> ledger.after_cost(address, cost).balances[address]
            + cost == ledger.balances[address],
{
}

/// Costs add up: two of them, one after the other, come to one of their sum.
pub proof fn law_costs_add_up(ledger: Ledger, address: Seq<u8>, first: nat, second: nat)
    ensures
        ledger.after_cost(address, first).after_cost(address, second) == ledger.after_cost(
            address,
            first + second,
        ),
{
    assert(ledger.after_cost(address, first).after_cost(address, second).balances
        =~= ledger.after_cost(address, first + second).balances);
}

/// Costs of different accounts may be taken in any order.
pub proof fn law_costs_commute(
    ledger: Ledger,
    address: Seq<u8>,
    cost: nat,
    other: Seq<u8>,
    other_cost: nat,
)
    ensures
        ledger.after_cost(address, cost).after_cost(other, other_cost) == ledger.after_cost(
            other,
            other_cost,
        ).after_cost(address, cost),
{
    assert(ledger.after_cost(address, cost).after_cost(other, other_cost).balances
        =~= ledger.after_cost(other, other_cost).after_cost(address, cost).balances);
}

/// A re-faucet of at least the threshold ends the need for one, as long as the balance stays below
/// 2^256.
pub proof fn law_refaucet_ends_need(ledger: Ledger, address: Seq<u8>)
    requires
        ledger.refaucet_amount >= ledger.low_balance_threshold,
        ledger.balances.contains_key(address) ==> ledger.balances[address]
            + ledger.refaucet_amount < u256_modulus(),
    ensures
        !ledger.after_credit(address, ledger.refaucet_amount).is_low(address),
{
    if ledger.balances.contains_key(address) {
        lemma_small_mod(ledger.balances[address] + ledger.refaucet_amount, u256_modulus());
    }
}

/// An account that is not tracked never needs a re-faucet, whatever it is charged or credited.
pub proof fn law_untracked_is_left_alone(ledger: Ledger, address: Seq<u8>, amount: nat)
    requires
        !ledger.balances.contains_key(address),
    ensures
        !ledger.is_low(address),
        ledger.after_cost(address, amount) == ledger,
        ledger.after_credit(address, amount) == ledger,
{
}

/// Every balance that is tracked is below 2^256.
pub proof fn law_balances_fit(tracker: BalanceTracker, address: Seq<u8>)
    requires
        tracker@.balances.contains_key(address),
    ensures
        tracker@.balances[address] < u256_modulus(),
{
    let balance = tracker.balances@[key_of(address)];
    law_u256_is_its_value(balance, balance);
}

/// What a cost leaves, a credit gives and being low means, in numbers, for an account that is
/// tracked.
pub proof fn law_balance_in_numbers(ledger: Ledger, address: Seq<u8>, amount: nat)
    requires
        ledger.balances.contains_key(address),
    ensures
        ledger.balances[address] >= amount ==> ledger.after_cost(address, amount).balances[address]
            == ledger.balances[address] - amount,
        ledger.balances[address] < amount ==> ledger.after_cost(address, amount).balances[address]
            == 0,
        ledger.after_credit(address, amount).balances[address] == (ledger.balances[address]
            + amount) as int
            % 0x1_0000000000000000_0000000000000000_0000000000000000_0000000000000000int,
        ledger.is_low(address) <==> ledger.balances[address] < ledger.low_balance_threshold,
        ledger.with_balance(address, amount).low_balance_threshold == ledger.low_balance_threshold,
        ledger.with_balance(address, amount).refaucet_amount == ledger.refaucet_amount,
{
}

/// A credit is undone by a cost of the same amount, where the credit does not wrap.
pub proof fn law_cost_undoes_credit(ledger: Ledger, address: Seq<u8>, amount: nat)
    requires
        ledger.balances.contains_key(address),
        ledger.balances[address] + amount < u256_modulus(),
    ensures
        ledger.after_credit(address, amount).after_cost(address, amount) == ledger,
{
    lemma_small_mod(ledger.balances[address] + amount, u256_modulus());
    assert(ledger.after_credit(address, amount).after_cost(address, amount).balances
        =~= ledger.balances);
}

} // verus!
