use std::sync::Arc;

use chain_bench::bench_config::SamplingPolicy;
use chain_bench::messages::{
    CorrectNonces, InitBalances, LogStats, NonceCorrectionInfo, PlanCompleted, PlanFailed,
    PlanProduced, ProduceTxns, RefaucetNeeded, RegisterConsumer, RegisterPlan, RegisterProducer,
    ReportProducerStats, RetryTxn, SubmissionResult, Tick, TxnMetadata, UpdateSubmissionResult,
};
use chain_bench::monitor::{
    BackpressureAction, ClientTable, MempoolAction, Monitor, MonitorAction, MonitorMessage,
    NonceCorrectionJob, PlanStatus, PoolReport, ProducerMessage, RpcClient, TickReport, Timer,
    TimerKind, TrackerCommand,
};
use chain_bench::primitives::{Address, TxHash, U256};

const PRODUCER: u64 = 11;
const CONSUMER: u64 = 22;

fn address(last: u8) -> Address {
    let mut bytes = [0u8; 20];
    bytes[19] = last;
    Address { bytes }
}

fn client(url: &str, handle: u64) -> RpcClient {
    RpcClient { rpc_url: url.to_string(), handle }
}

fn monitor(receipt_mode: bool) -> Monitor {
    Monitor::new_with_clients(
        vec![client("http://a", 1)],
        1000,
        SamplingPolicy::Partial(10),
        receipt_mode,
    )
}

fn with_actors(receipt_mode: bool) -> Monitor {
    let mut m = monitor(receipt_mode);
    assert!(m.handle(MonitorMessage::RegisterProducer(RegisterProducer { addr: PRODUCER })).is_empty());
    assert!(m.handle(MonitorMessage::RegisterConsumer(RegisterConsumer { addr: CONSUMER })).is_empty());
    m
}

fn metadata(from: u8) -> TxnMetadata {
    TxnMetadata {
        txn_id: 5,
        plan_id: 6,
        from_account: address(from),
        from_account_id: 100 + from as u64,
        nonce: 7,
        is_refaucet: false,
        refaucet_target: None,
    }
}

fn submission(metadata: TxnMetadata, result: SubmissionResult) -> UpdateSubmissionResult {
    UpdateSubmissionResult {
        metadata,
        result,
        rpc_url: "http://a".to_string(),
        send_time: 3,
        signed_bytes: Arc::new(vec![1, 2, 3]),
    }
}

fn receipt(gas_used: u128, effective_gas_price: u128) -> SubmissionResult {
    SubmissionResult::SuccessWithReceipt {
        tx_hash: TxHash { bytes: [9; 32] },
        gas_used,
        effective_gas_price,
        status: true,
    }
}

fn forwarded(msg: &UpdateSubmissionResult) -> MonitorAction {
    MonitorAction::ToProducer(PRODUCER, ProducerMessage::Submission(msg.clone()))
}

fn tracked_submission(msg: &UpdateSubmissionResult) -> MonitorAction {
    MonitorAction::ToTracker(TrackerCommand::Submission(msg.clone()))
}

fn refaucet_of(from: u8) -> MonitorAction {
    MonitorAction::ToProducer(
        PRODUCER,
        ProducerMessage::RefaucetNeeded(RefaucetNeeded {
            account: address(from),
            account_id: 100 + from as u64,
        }),
    )
}

#[test]
fn timers_of_the_monitor() {
    assert_eq!(
        monitor(false).started(),
        vec![
            Timer { kind: TimerKind::Tick, interval_ms: 1000 },
            Timer { kind: TimerKind::LogStats, interval_ms: 1700 },
            Timer { kind: TimerKind::PollPool, interval_ms: 1000 },
        ]
    );
}

#[test]
fn monitor_keeps_its_settings() {
    assert_eq!(monitor(false).max_pool_size(), 1000);
    assert_eq!(monitor(false).sampling_policy().size(), 10);
}

#[test]
fn last_client_of_a_url_counts() {
    let table = ClientTable::new(vec![
        client("http://a", 1),
        client("http://b", 2),
        client("http://a", 3),
    ]);
    let mut all: Vec<(String, u64)> =
        table.all().iter().map(|c| (c.rpc_url.clone(), c.handle)).collect();
    all.sort();
    assert_eq!(all, vec![("http://a".to_string(), 3), ("http://b".to_string(), 2)]);
    assert!(matches!(table.any(), Some(2) | Some(3)));
    assert_eq!(ClientTable::new(vec![]).any(), None);
}

#[test]
fn success_goes_to_producer_and_tracker() {
    let mut m = with_actors(false);
    let msg = submission(metadata(1), SubmissionResult::Success(TxHash { bytes: [9; 32] }));
    assert_eq!(m.handle_submission(msg.clone()), vec![forwarded(&msg), tracked_submission(&msg)]);
}

#[test]
fn nonce_too_low_goes_to_producer_and_tracker() {
    let mut m = with_actors(false);
    let msg = submission(
        metadata(1),
        SubmissionResult::NonceTooLow {
            tx_hash: TxHash { bytes: [9; 32] },
            expect_nonce: 8,
            actual_nonce: 7,
            from_account: address(1),
        },
    );
    assert_eq!(
        m.handle(MonitorMessage::Submission(msg.clone())),
        vec![forwarded(&msg), tracked_submission(&msg)]
    );
}

#[test]
fn failed_submission_goes_back_to_the_consumer() {
    let mut m = with_actors(false);
    let msg = submission(metadata(1), SubmissionResult::ErrorWithRetry);
    let actions = m.handle_submission(msg.clone());
    assert_eq!(
        actions,
        vec![
            forwarded(&msg),
            MonitorAction::ToConsumer(
                CONSUMER,
                RetryTxn { signed_bytes: Arc::new(vec![1, 2, 3]), metadata: metadata(1) }
            ),
        ]
    );
    // The bytes are shared, not copied.
    match &actions[1] {
        MonitorAction::ToConsumer(_, retry) => {
            assert!(Arc::ptr_eq(&retry.signed_bytes, &msg.signed_bytes))
        }
        _ => unreachable!(),
    }
}

#[test]
fn failed_submission_without_consumer_goes_to_the_tracker() {
    let mut m = monitor(false);
    let msg = submission(metadata(1), SubmissionResult::ErrorWithRetry);
    assert_eq!(m.handle_submission(msg.clone()), vec![tracked_submission(&msg)]);
}

#[test]
fn insufficient_balance_is_not_handed_on() {
    let mut m = with_actors(true);
    let msg = submission(metadata(1), SubmissionResult::InsufficientBalance);
    // Balances are not tracked yet.
    assert_eq!(m.handle_submission(msg.clone()), vec![forwarded(&msg)]);
    m.enable_balance_tracking(1, 1);
    assert_eq!(m.handle_submission(msg.clone()), vec![forwarded(&msg), refaucet_of(1)]);
    // Nobody to tell.
    let mut m = monitor(true);
    m.enable_balance_tracking(1, 1);
    assert!(m.handle_submission(msg).is_empty());
}

#[test]
fn refaucet_round_trip() {
    let mut m = with_actors(true);
    // Below one Gwei an account is low; one ETH is what it gets.
    m.enable_balance_tracking(1, 1);
    m.handle(MonitorMessage::InitBalances(InitBalances {
        addresses: vec![address(1), address(2)],
        balance_per_account: U256::from_u64(3_000_000_000),
    }));
    // Exactly the threshold is left: not low.
    let first = submission(metadata(1), receipt(2, 1_000_000_000));
    assert_eq!(
        m.handle_submission(first.clone()),
        vec![forwarded(&first), tracked_submission(&first)]
    );
    let second = submission(metadata(1), receipt(1, 1));
    assert_eq!(
        m.handle_submission(second.clone()),
        vec![forwarded(&second), refaucet_of(1), tracked_submission(&second)]
    );
    let top_up = submission(
        TxnMetadata { is_refaucet: true, refaucet_target: Some(address(1)), ..metadata(9) },
        receipt(21_000, 1_000_000_000),
    );
    assert_eq!(
        m.handle_submission(top_up.clone()),
        vec![forwarded(&top_up), tracked_submission(&top_up)]
    );
    // 1 ETH + 999_999_999 wei are left: spending 1 ETH makes the account low by one wei.
    let third = submission(metadata(1), receipt(1, 1_000_000_000_000_000_000));
    assert_eq!(
        m.handle_submission(third.clone()),
        vec![forwarded(&third), refaucet_of(1), tracked_submission(&third)]
    );
    // The other account has not moved.
    let other = submission(metadata(2), receipt(2, 1_000_000_000));
    assert_eq!(
        m.handle_submission(other.clone()),
        vec![forwarded(&other), tracked_submission(&other)]
    );
}

#[test]
fn receipt_of_an_untracked_account_asks_for_nothing() {
    let mut m = with_actors(true);
    m.enable_balance_tracking(u64::MAX, 1);
    let msg = submission(metadata(1), receipt(1, 1));
    assert_eq!(m.handle_submission(msg.clone()), vec![forwarded(&msg), tracked_submission(&msg)]);
}

#[test]
fn refaucet_without_target_credits_nobody() {
    let mut m = with_actors(true);
    m.enable_balance_tracking(1, 1);
    m.handle_init_balances(&InitBalances {
        addresses: vec![address(1)],
        balance_per_account: U256::from_u64(0),
    });
    let top_up = submission(TxnMetadata { is_refaucet: true, ..metadata(1) }, receipt(1, 1));
    assert_eq!(
        m.handle_submission(top_up.clone()),
        vec![forwarded(&top_up), tracked_submission(&top_up)]
    );
    let low = submission(metadata(1), receipt(0, 0));
    assert_eq!(
        m.handle_submission(low.clone()),
        vec![forwarded(&low), refaucet_of(1), tracked_submission(&low)]
    );
}

#[test]
fn tick_tells_of_backpressure_samples_and_plans() {
    let mut m = with_actors(false);
    let report = TickReport {
        backpressure: BackpressureAction::Pause,
        has_sampling_tasks: true,
        plans: vec![
            (1, PlanStatus::Completed),
            (2, PlanStatus::InProgress),
            (3, PlanStatus::Failed { reason: "late".to_string() }),
        ],
    };
    assert_eq!(
        m.handle(MonitorMessage::Tick(Tick, report)),
        vec![
            MonitorAction::ToProducer(PRODUCER, ProducerMessage::PauseProducer),
            MonitorAction::FetchSampledReceipts { consumer: Some(CONSUMER) },
            MonitorAction::ToProducer(
                PRODUCER,
                ProducerMessage::PlanCompleted(PlanCompleted { plan_id: 1 })
            ),
            MonitorAction::ToProducer(
                PRODUCER,
                ProducerMessage::PlanFailed(PlanFailed { plan_id: 3, reason: "late".to_string() })
            ),
        ]
    );
}

#[test]
fn tick_that_resumes() {
    let m = with_actors(false);
    let report = TickReport {
        backpressure: BackpressureAction::Resume,
        has_sampling_tasks: false,
        plans: vec![],
    };
    assert_eq!(
        m.handle_tick(&report),
        vec![MonitorAction::ToProducer(PRODUCER, ProducerMessage::ResumeProducer)]
    );
}

#[test]
fn tick_without_actors_tells_nobody() {
    let report = TickReport {
        backpressure: BackpressureAction::Pause,
        has_sampling_tasks: true,
        plans: vec![(1, PlanStatus::Completed)],
    };
    assert_eq!(
        monitor(false).handle_tick(&report),
        vec![MonitorAction::FetchSampledReceipts { consumer: None }]
    );
    let quiet = TickReport {
        backpressure: BackpressureAction::NoChange,
        has_sampling_tasks: false,
        plans: vec![],
    };
    assert!(with_actors(false).handle_tick(&quiet).is_empty());
}

#[test]
fn messages_for_the_tracker() {
    let mut m = with_actors(false);
    let plan = RegisterPlan { plan_id: 1, plan_name: "swap".to_string() };
    assert_eq!(
        m.handle(MonitorMessage::RegisterPlan(plan.clone())),
        vec![MonitorAction::ToTracker(TrackerCommand::RegisterPlan(plan))]
    );
    let produce = ProduceTxns { count: 2, plan_id: 1 };
    assert_eq!(
        m.handle(MonitorMessage::ProduceTxns(produce)),
        vec![MonitorAction::ToTracker(TrackerCommand::ProduceTxns(produce))]
    );
    let produced = PlanProduced { plan_id: 1, count: 2 };
    assert_eq!(
        m.handle(MonitorMessage::PlanProduced(produced)),
        vec![MonitorAction::ToTracker(TrackerCommand::PlanProduced(produced))]
    );
    let stats = ReportProducerStats { ready_accounts: 3, sending_txns: 4 };
    assert_eq!(
        m.handle(MonitorMessage::ReportProducerStats(stats)),
        vec![MonitorAction::ToTracker(TrackerCommand::ProducerStats(stats))]
    );
    assert_eq!(
        m.handle(MonitorMessage::PlanFailed(PlanFailed { plan_id: 8, reason: "x".to_string() })),
        vec![MonitorAction::ToTracker(TrackerCommand::MarkPlanFailed(8))]
    );
    assert_eq!(
        m.handle(MonitorMessage::LogStats(LogStats)),
        vec![MonitorAction::ToTracker(TrackerCommand::LogStats)]
    );
}

#[test]
fn registering_again_replaces_the_actor() {
    let mut m = with_actors(false);
    assert_eq!(m.pool_poll_target(), Some(PRODUCER));
    m.handle(MonitorMessage::RegisterProducer(RegisterProducer { addr: 33 }));
    assert_eq!(m.pool_poll_target(), Some(33));
    assert_eq!(monitor(false).pool_poll_target(), None);
}

#[test]
fn sampled_receipts_are_retried_in_order() {
    let retry = |n: u8| RetryTxn { signed_bytes: Arc::new(vec![n]), metadata: metadata(n) };
    let queue = vec![retry(1), retry(2)];
    assert_eq!(
        Monitor::handle_sampled_receipts(Some(5), &queue),
        vec![MonitorAction::ToConsumer(5, retry(1)), MonitorAction::ToConsumer(5, retry(2))]
    );
    assert!(Monitor::handle_sampled_receipts(None, &queue).is_empty());
}

#[test]
fn pool_report_corrects_nonces_outside_receipt_mode() {
    let stuck =
        PoolReport { pending: 4, queued: 5, action: MempoolAction::NeedsNonceCorrection };
    let healthy = PoolReport { action: MempoolAction::Healthy, ..stuck };
    let numbers = || {
        MonitorAction::ToTracker(TrackerCommand::MempoolStats { pending: 4, queued: 5 })
    };
    let job = NonceCorrectionJob { client: 1, producer: PRODUCER };
    assert_eq!(
        monitor(false).handle_pool_report(PRODUCER, Some(stuck)),
        vec![numbers(), MonitorAction::CorrectNonces(job)]
    );
    assert_eq!(monitor(false).handle_pool_report(PRODUCER, Some(healthy)), vec![numbers()]);
    assert_eq!(monitor(true).handle_pool_report(PRODUCER, Some(stuck)), vec![numbers()]);
    assert!(monitor(false).handle_pool_report(PRODUCER, None).is_empty());
    let nodeless = Monitor::new_with_clients(vec![], 1, SamplingPolicy::default(), false);
    assert_eq!(nodeless.handle_pool_report(PRODUCER, Some(stuck)), vec![numbers()]);
    assert!(nodeless.clients().all().is_empty());
}

#[test]
fn nonce_corrections_of_the_accounts_that_answered() {
    let job = NonceCorrectionJob { client: 1, producer: 7 };
    let replies = vec![(address(1), Some(10)), (address(2), None), (address(3), Some(30))];
    assert_eq!(
        job.finish(&replies),
        Some((
            7,
            CorrectNonces {
                corrections: vec![
                    NonceCorrectionInfo { account: address(1), expected_nonce: 10 },
                    NonceCorrectionInfo { account: address(3), expected_nonce: 30 },
                ],
            }
        ))
    );
    assert_eq!(job.finish(&vec![(address(2), None)]), None);
    assert_eq!(job.finish(&vec![]), None);
}
