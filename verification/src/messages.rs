//! Messages between the monitor and the actors around it.
use std::sync::Arc;
use vstd::prelude::*;

use crate::primitives::{Address, TxHash, U256};

verus! {

/// Stands for the mailbox of an actor.
pub type ActorHandle = u64;

/// Stands for the connection to a node.
pub type ClientHandle = u64;

/// Identifies a transaction plan.
pub type PlanId = u128;

/// Identifies a transaction before it has a hash.
pub type TxnId = u128;

/// Identifies an account of the bench.
pub type AccountId = u64;

/// A point in time, in nanoseconds of a clock that never runs backwards.
pub type Nanos = u64;

/// What is known of a transaction apart from its bytes.
#[derive(Clone, Copy, Debug, PartialEq, Eq)]
pub struct TxnMetadata {
    pub txn_id: TxnId,
    pub plan_id: PlanId,
    pub from_account: Address,
    pub from_account_id: AccountId,
    pub nonce: u64,
    /// Whether the transaction tops up another account.
    pub is_refaucet: bool,
    /// The account that the transaction tops up.
    pub refaucet_target: Option<Address>,
}

/// Tells the monitor where the producer is.
#[derive(Clone, Copy, Debug, PartialEq, Eq, Structural)]
pub struct RegisterProducer {
    pub addr: ActorHandle,
}

/// Tells the monitor where the consumer is.
#[derive(Clone, Copy, Debug, PartialEq, Eq, Structural)]
pub struct RegisterConsumer {
    pub addr: ActorHandle,
}

/// Announces a plan.
#[derive(Clone, Debug, PartialEq, Eq)]
pub struct RegisterPlan {
    pub plan_id: PlanId,
    pub plan_name: String,
}

/// How the submission of a transaction ended.
#[derive(Clone, Copy, Debug, PartialEq, Eq)]
pub enum SubmissionResult {
    NonceTooLow { tx_hash: TxHash, expect_nonce: u64, actual_nonce: u64, from_account: Address },
    ErrorWithRetry,
    Success(TxHash),
    /// Transaction confirmed on-chain with receipt data.
    /// Contains gas cost info for balance tracking.
    SuccessWithReceipt {
        tx_hash: TxHash,
        gas_used: u128,
        effective_gas_price: u128,
        status: bool,
    },
    /// Insufficient balance to submit transaction. The transaction was never sent.
    /// Nonce should NOT be advanced; account should be retried after re-faucet.
    InsufficientBalance,
}

/// Another owner of the same shared value: `Arc::clone`, which points to what `shared` points to.
#[verifier::external_body]
pub(crate) fn share<T>(shared: &Arc<T>) -> (other: Arc<T>)
    ensures
        other == *shared,
{
    Arc::clone(shared)
}

/// Reports how the submission of a transaction ended.
#[derive(Debug, PartialEq, Eq)]
pub struct UpdateSubmissionResult {
    pub metadata: TxnMetadata,
    pub result: SubmissionResult,
    pub rpc_url: String,
    pub send_time: Nanos,
    /// Signed transaction bytes for retry support
    pub signed_bytes: Arc<Vec<u8>>,
}

impl Clone for UpdateSubmissionResult {
    fn clone(&self) -> (r: Self)
        ensures
            r == *self,
    {
        UpdateSubmissionResult {
            metadata: self.metadata,
            result: self.result,
            rpc_url: self.rpc_url.clone(),
            send_time: self.send_time,
            signed_bytes: share(&self.signed_bytes),
        }
    }
}

/// Comes once a second.
#[derive(Clone, Copy, Debug, PartialEq, Eq, Structural)]
pub struct Tick;

/// How busy the producer is.
#[derive(Clone, Copy, Debug, PartialEq, Eq, Structural)]
pub struct ReportProducerStats {
    pub ready_accounts: u64,
    pub sending_txns: u64,
}

/// Every transaction of the plan has been dealt with.
#[derive(Clone, Copy, Debug, PartialEq, Eq, Structural)]
pub struct PlanCompleted {
    pub plan_id: PlanId,
}

/// The plan has been given up.
#[derive(Clone, Debug, PartialEq, Eq)]
pub struct PlanFailed {
    pub plan_id: PlanId,
    pub reason: String,
}

/// Message to retry a timed-out transaction
#[derive(Debug, PartialEq, Eq)]
pub struct RetryTxn {
    pub signed_bytes: Arc<Vec<u8>>,
    pub metadata: TxnMetadata,
}

impl Clone for RetryTxn {
    fn clone(&self) -> (r: Self)
        ensures
            r == *self,
    {
        RetryTxn { signed_bytes: share(&self.signed_bytes), metadata: self.metadata }
    }
}

/// Message sent to Producer when an account needs re-faucet
#[derive(Clone, Copy, Debug, PartialEq, Eq)]
pub struct RefaucetNeeded {
    pub account: Address,
    pub account_id: AccountId,
}

/// Message to initialize balance tracking for all leaf accounts after faucet distribution
#[derive(Clone, Debug, PartialEq, Eq)]
pub struct InitBalances {
    /// Addresses of all leaf accounts
    pub addresses: Vec<Address>,
    /// Initial balance for each account (in wei)
    pub balance_per_account: U256,
}

/// Information for correcting account nonce
#[derive(Clone, Copy, Debug, PartialEq, Eq)]
pub struct NonceCorrectionInfo {
    pub account: Address,
    pub expected_nonce: u64,
}

/// Message to correct nonces based on txpool_content analysis
#[derive(Clone, Debug, PartialEq, Eq)]
pub struct CorrectNonces {
    pub corrections: Vec<NonceCorrectionInfo>,
}

/// Asks that `count` transactions of the plan be expected.
#[derive(Clone, Copy, Debug, PartialEq, Eq, Structural)]
pub struct ProduceTxns {
    pub count: usize,
    pub plan_id: PlanId,
}

/// All `count` transactions of the plan have been produced.
#[derive(Clone, Copy, Debug, PartialEq, Eq, Structural)]
pub struct PlanProduced {
    pub plan_id: PlanId,
    pub count: usize,
}

/// Asks for the statistics to be logged.
#[derive(Clone, Copy, Debug, PartialEq, Eq, Structural)]
pub struct LogStats;

/// A transaction was found in a block, with its receipt.
#[derive(Clone, Copy, Debug, PartialEq, Eq)]
pub struct TxnConfirmed {
    pub tx_hash: TxHash,
    /// Time from submission to confirmation.
    pub latency: Nanos,
    pub gas_used: u128,
    pub effective_gas_price: u128,
    pub status: bool,
    pub metadata: TxnMetadata,
}

} // verus!
