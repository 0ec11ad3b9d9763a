//! Configuration of a bench run.
use vstd::prelude::*;

use crate::primitives::U256;

verus! {

/// Address pool type selection
#[derive(Clone, Copy, Debug, PartialEq, Eq, Structural)]
pub enum AddressPoolType {
    Random,
    Weighted,
}

impl Default for AddressPoolType {
    fn default() -> (r: Self)
        ensures
            r == AddressPoolType::Random,
    {
        AddressPoolType::Random
    }
}

/// Complete configuration structure
#[derive(Clone, Debug)]
pub struct BenchConfig {
    pub nodes: Vec<NodeConfig>,
    pub faucet: FaucetConfig,
    pub accounts: AccountConfig,
    pub performance: PerformanceConfig,
    pub contract_config_path: String,
    pub num_tokens: usize,
    pub target_tps: u64,
    pub enable_swap_token: bool,
    pub address_pool_type: AddressPoolType,
    pub log_path: String,
    /// Max fee per gas in Gwei (default: 5000)
    pub max_fee_per_gas: u64,
    /// Max priority fee per gas in Gwei (default: 500)
    pub max_priority_fee_per_gas: u64,
    /// Re-faucet amount in ETH when account balance runs low (default: 1)
    pub refaucet_amount: u64,
}

/// The `log_path` of a configuration that names none.
pub fn default_log_path() -> (r: String)
    ensures
        r@ == "./log.log"@,
{
    "./log.log".to_owned()
}

/// The `max_fee_per_gas` of a configuration that names none, in Gwei.
pub fn default_max_fee_per_gas() -> (r: u64)
    ensures
        r == 5000,
{
    5000
}

/// The `max_priority_fee_per_gas` of a configuration that names none, in Gwei.
pub fn default_max_priority_fee_per_gas() -> (r: u64)
    ensures
        r == 500,
{
    500
}

/// The `refaucet_amount` of a configuration that names none, in ETH.
pub fn default_refaucet_amount() -> (r: u64)
    ensures
        r == 1,
{
    1
}

/// Node and chain configuration
#[derive(Clone, Debug)]
pub struct NodeConfig {
    pub rpc_url: String,
    pub chain_id: u64,
}

/// Faucet and deployer account configuration
#[derive(Clone, Debug)]
pub struct FaucetConfig {
    pub private_key: String,
    pub faucet_level: u32,
    pub wait_duration_secs: u64,
    /// Balance of the faucet account in wei
    pub faucet_eth_balance: U256,
}

/// Load testing account configuration
#[derive(Clone, Debug)]
pub struct AccountConfig {
    pub num_accounts: usize,
}

/// Performance and stress configuration
#[derive(Clone, Debug)]
pub struct PerformanceConfig {
    /// Number of concurrent transaction sending tasks inside TxnConsumer
    pub num_senders: usize,
    /// Maximum capacity of the transaction pool inside Consumer
    pub max_pool_size: usize,
    /// Duration of the benchmark in seconds
    pub duration_secs: u64,
    /// Sampling configuration: "full" or integer size (default: 10)
    pub sampling: SamplingPolicy,
}

/// How many of the transactions in flight are sampled for their receipts.
#[derive(Clone, Debug)]
pub enum SamplingPolicy {
    Full(String),
    Partial(usize),
}

impl Default for SamplingPolicy {
    fn default() -> (r: Self)
        ensures
            r == SamplingPolicy::Partial(10),
    {
        SamplingPolicy::Partial(10)
    }
}

/// The lower-case form of an ASCII capital letter; any other character as it is.
pub open spec fn ascii_lower(c: char) -> char {
    if 'A' <= c && c <= 'Z' {
        ((c as u32) + 32) as char
    } else {
        c
    }
}

/// Whether two strings are the same up to the case of ASCII letters.
pub open spec fn same_ignoring_ascii_case(a: Seq<char>, b: Seq<char>) -> bool {
    &&& a.len() == b.len()
    &&& forall|i: int| 0 <= i < a.len() ==> ascii_lower(#[trigger] a[i]) == ascii_lower(b[i])
}

/// `str::eq_ignore_ascii_case`: the two strings match, character by character, once ASCII letters
/// are compared without regard to case.
pub assume_specification[ str::eq_ignore_ascii_case ](a: &str, b: &str) -> (r: bool)
    ensures
        r == same_ignoring_ascii_case(a@, b@),
;

impl SamplingPolicy {
    /// Whether every transaction is sampled.
    pub fn is_full(&self) -> (r: bool)
        ensures
            r == (self matches SamplingPolicy::Full(s) && same_ignoring_ascii_case(s@, "full"@)),
    {
        match self {
            SamplingPolicy::Full(s) => s.as_str().eq_ignore_ascii_case("full"),
            _ => false,
        }
    }

    /// The number of transactions to sample; 10 where the policy gives none.
    pub fn size(&self) -> (r: usize)
        ensures
            r == (match self {
                SamplingPolicy::Partial(n) => *n,
                SamplingPolicy::Full(_) => 10,
            }),
    {
        match self {
            SamplingPolicy::Partial(n) => *n,
            _ => 10,
        }
    }
}

/// The texts that ask for every transaction to be sampled are those of four letters, f, u, l and l,
/// each of them small or capital.
pub proof fn law_full(text: Seq<char>)
    ensures
        same_ignoring_ascii_case(text, "full"@) <==> text.len() == 4 && (text[0] == 'f' || text[0]
            == 'F') && (text[1] == 'u' || text[1] == 'U') && (text[2] == 'l' || text[2] == 'L') && (
        text[3] == 'l' || text[3] == 'L'),
{
    reveal_strlit("full");
    let full = "full"@;
    assert(full.len() == 4 && full[0] == 'f' && full[1] == 'u' && full[2] == 'l' && full[3] == 'l');
    if same_ignoring_ascii_case(text, full) {
        assert(ascii_lower(text[0]) == ascii_lower(full[0]));
        assert(ascii_lower(text[1]) == ascii_lower(full[1]));
        assert(ascii_lower(text[2]) == ascii_lower(full[2]));
        assert(ascii_lower(text[3]) == ascii_lower(full[3]));
    }
    if text.len() == 4 && (text[0] == 'f' || text[0] == 'F') && (text[1] == 'u' || text[1] == 'U')
        && (text[2] == 'l' || text[2] == 'L') && (text[3] == 'l' || text[3] == 'L') {
        assert forall|i: int| 0 <= i < text.len() implies ascii_lower(#[trigger] text[i])
            == ascii_lower(full[i]) by {
            assert(i == 0 || i == 1 || i == 2 || i == 3);
        }
    }
}

} // verus!
