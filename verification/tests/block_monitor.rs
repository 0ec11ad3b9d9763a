use std::collections::HashSet;

use chain_bench::block_monitor::{
    BackpressureChange, BlockMonitor, BlockMonitorEvent, BlockMonitorRequest, Outcome, Summary,
    BACKPRESSURE_RESUME_THRESHOLD, MAX_PENDING_TXNS,
};
use chain_bench::messages::{TxnConfirmed, TxnMetadata};
use chain_bench::pending::{
    BlockReply, BlockTransactions, PendingSet, PendingTxInfo, Receipt, ReceiptReply, StuckLevel,
    StuckTx,
};
use chain_bench::primitives::{Address, TxHash};

const SECOND: u64 = 1_000_000_000;

fn hash(n: u64) -> TxHash {
    let mut bytes = [0u8; 32];
    bytes[24..].copy_from_slice(&n.to_be_bytes());
    bytes[0] = (n % 251) as u8;
    TxHash { bytes }
}

fn metadata(nonce: u64) -> TxnMetadata {
    TxnMetadata {
        txn_id: 1,
        plan_id: 2,
        from_account: Address { bytes: [7; 20] },
        from_account_id: 3,
        nonce,
        is_refaucet: false,
        refaucet_target: None,
    }
}

fn info(n: u64, submit_time: u64) -> PendingTxInfo {
    PendingTxInfo {
        tx_hash: hash(n),
        metadata: metadata(n),
        submit_time,
        rpc_url: "http://a".to_string(),
    }
}

fn receipt(gas_used: u64) -> Receipt {
    Receipt { gas_used, effective_gas_price: 5, status: gas_used != 0 }
}

fn confirmed(n: u64, latency: u64, gas_used: u64) -> TxnConfirmed {
    TxnConfirmed {
        tx_hash: hash(n),
        latency,
        gas_used: gas_used as u128,
        effective_gas_price: 5,
        status: gas_used != 0,
        metadata: metadata(n),
    }
}

fn hashes(from: u64, to: u64) -> Vec<TxHash> {
    (from..to).map(hash).collect()
}

fn step(m: &mut BlockMonitor, event: BlockMonitorEvent) -> Outcome {
    assert!(m.awaits(&event));
    assert!(m.has_room());
    m.step(event)
}

fn is_quiet(out: &Outcome) -> bool {
    out.confirmations.is_empty()
        && out.stuck.is_empty()
        && out.backpressure.is_none()
        && out.summary.is_none()
}

/// A monitor of one node that has started from block 10 and waits for registrations.
fn started(channel: Option<u64>) -> BlockMonitor {
    let mut m = BlockMonitor::new(1, vec![42, 43], channel);
    let out = step(&mut m, BlockMonitorEvent::Started);
    assert_eq!(out.request, BlockMonitorRequest::BlockNumber { client: 42 });
    let out = step(&mut m, BlockMonitorEvent::BlockNumber(Some(10)));
    assert_eq!(out.request, BlockMonitorRequest::Registrations);
    assert!(is_quiet(&out));
    m
}

/// From waiting for registrations to waiting for the time, with no new block.
fn register(m: &mut BlockMonitor, infos: Vec<PendingTxInfo>) {
    let out = step(m, BlockMonitorEvent::Registrations(infos));
    assert_eq!(out.request, BlockMonitorRequest::BlockNumber { client: 42 });
    let out = step(m, BlockMonitorEvent::BlockNumber(None));
    assert_eq!(out.request, BlockMonitorRequest::Time);
}

/// From waiting for the time to waiting for registrations.
fn finish_round(m: &mut BlockMonitor, now: u64, summary_due: bool) -> (Outcome, Option<Summary>) {
    let out = step(m, BlockMonitorEvent::Time(now));
    assert_eq!(out.request, BlockMonitorRequest::SummaryTick);
    let tick = step(m, BlockMonitorEvent::SummaryTick(summary_due));
    assert_eq!(tick.request, BlockMonitorRequest::Sleep { millis: 200 });
    let woken = step(m, BlockMonitorEvent::Woken);
    assert_eq!(woken.request, BlockMonitorRequest::Registrations);
    (out, tick.summary)
}

#[test]
fn round_confirms_a_mined_transaction() {
    let mut m = started(None);
    assert_eq!(m.monitor_addr(), 1);
    let out = step(&mut m, BlockMonitorEvent::Registrations(vec![info(1, 100), info(2, 200)]));
    assert_eq!(out.request, BlockMonitorRequest::BlockNumber { client: 42 });
    let out = step(&mut m, BlockMonitorEvent::BlockNumber(Some(13)));
    assert_eq!(
        out.request,
        BlockMonitorRequest::Blocks { client: 42, numbers: vec![11, 12, 13] }
    );
    let out = step(
        &mut m,
        BlockMonitorEvent::Blocks(vec![
            BlockReply::Block(BlockTransactions::Full(vec![hash(2), hash(9)])),
            BlockReply::Missing,
            BlockReply::Failed,
        ]),
    );
    assert_eq!(out.request, BlockMonitorRequest::Receipts { client: 42, hashes: vec![hash(2)] });
    let out = step(
        &mut m,
        BlockMonitorEvent::Receipts(vec![(hash(2), ReceiptReply::Found(receipt(21_000)))], 1_200),
    );
    assert_eq!(out.confirmations, vec![confirmed(2, 1_000, 21_000)]);
    assert_eq!(out.request, BlockMonitorRequest::Time);
    let (out, summary) = finish_round(&mut m, 1_300, true);
    assert!(is_quiet(&out));
    assert_eq!(summary, Some(Summary { pending: 1, confirmed: 1, last_block: 13 }));
}

#[test]
fn summary_starts_the_count_afresh() {
    let mut m = started(None);
    for round in 0..2u64 {
        step(&mut m, BlockMonitorEvent::Registrations(vec![info(round, 0)]));
        step(&mut m, BlockMonitorEvent::BlockNumber(Some(11 + round)));
        step(
            &mut m,
            BlockMonitorEvent::Blocks(vec![BlockReply::Block(BlockTransactions::Hashes(vec![
                hash(round),
            ]))]),
        );
        step(
            &mut m,
            BlockMonitorEvent::Receipts(vec![(hash(round), ReceiptReply::Found(receipt(1)))], 5),
        );
        let (_, summary) = finish_round(&mut m, 5, round == 1);
        if round == 0 {
            assert_eq!(summary, None);
        } else {
            assert_eq!(summary, Some(Summary { pending: 0, confirmed: 2, last_block: 12 }));
        }
    }
    register(&mut m, vec![]);
    let (_, summary) = finish_round(&mut m, 6, true);
    assert_eq!(summary, Some(Summary { pending: 0, confirmed: 0, last_block: 12 }));
}

#[test]
fn no_block_is_fetched_twice() {
    let mut m = started(None);
    let mut seen = HashSet::new();
    for head in [12u64, 12, 11, 15, 16] {
        step(&mut m, BlockMonitorEvent::Registrations(vec![]));
        let out = step(&mut m, BlockMonitorEvent::BlockNumber(Some(head)));
        if let BlockMonitorRequest::Blocks { numbers, .. } = out.request {
            for n in &numbers {
                assert!(seen.insert(*n));
            }
            let replies = numbers.iter().map(|_| BlockReply::Block(BlockTransactions::Uncle));
            let out = step(&mut m, BlockMonitorEvent::Blocks(replies.collect()));
            assert_eq!(out.request, BlockMonitorRequest::Time);
        } else {
            assert_eq!(out.request, BlockMonitorRequest::Time);
        }
        finish_round(&mut m, 0, false);
    }
    let mut seen: Vec<u64> = seen.into_iter().collect();
    seen.sort();
    assert_eq!(seen, vec![11, 12, 13, 14, 15, 16]);
}

#[test]
fn unknown_initial_block_starts_from_the_beginning() {
    let mut m = BlockMonitor::new(1, vec![42], None);
    step(&mut m, BlockMonitorEvent::Started);
    step(&mut m, BlockMonitorEvent::BlockNumber(None));
    step(&mut m, BlockMonitorEvent::Registrations(vec![]));
    let out = step(&mut m, BlockMonitorEvent::BlockNumber(Some(2)));
    assert_eq!(out.request, BlockMonitorRequest::Blocks { client: 42, numbers: vec![1, 2] });
}

#[test]
fn monitor_without_nodes_only_watches_the_clock() {
    let mut m = BlockMonitor::new(1, vec![], None);
    let out = step(&mut m, BlockMonitorEvent::Started);
    assert_eq!(out.request, BlockMonitorRequest::Registrations);
    let out = step(&mut m, BlockMonitorEvent::Registrations(vec![info(1, 0)]));
    assert_eq!(out.request, BlockMonitorRequest::Time);
    let (out, _) = finish_round(&mut m, 30 * SECOND, false);
    assert_eq!(out.stuck.len(), 1);
}

#[test]
fn receipts_are_fetched_in_batches() {
    let mut m = started(None);
    step(&mut m, BlockMonitorEvent::Registrations((0..450).map(|n| info(n, 0)).collect()));
    step(&mut m, BlockMonitorEvent::BlockNumber(Some(12)));
    // The second block repeats some of the first.
    let mut out = step(
        &mut m,
        BlockMonitorEvent::Blocks(vec![
            BlockReply::Block(BlockTransactions::Hashes(hashes(0, 300))),
            BlockReply::Block(BlockTransactions::Full(hashes(250, 500))),
        ]),
    );
    let mut sizes = Vec::new();
    let mut asked = HashSet::new();
    let mut confirmations = 0;
    while let BlockMonitorRequest::Receipts { client, hashes } = out.request {
        assert_eq!(client, 42);
        sizes.push(hashes.len());
        for h in &hashes {
            assert!(asked.insert(h.bytes));
        }
        let replies = hashes.into_iter().map(|h| (h, ReceiptReply::Found(receipt(1))));
        out = step(&mut m, BlockMonitorEvent::Receipts(replies.collect(), 1));
        confirmations += out.confirmations.len();
    }
    assert_eq!(sizes, vec![200, 200, 50]);
    assert_eq!(asked, hashes(0, 450).into_iter().map(|h| h.bytes).collect());
    assert_eq!(confirmations, 450);
    let (_, summary) = finish_round(&mut m, 1, true);
    assert_eq!(summary, Some(Summary { pending: 0, confirmed: 450, last_block: 12 }));
}

#[test]
fn receipt_that_was_not_found_leaves_the_transaction_pending() {
    let mut m = started(None);
    step(&mut m, BlockMonitorEvent::Registrations(vec![info(1, 0), info(2, 0)]));
    step(&mut m, BlockMonitorEvent::BlockNumber(Some(11)));
    step(
        &mut m,
        BlockMonitorEvent::Blocks(vec![BlockReply::Block(BlockTransactions::Hashes(vec![
            hash(1),
            hash(2),
        ]))]),
    );
    let out = step(
        &mut m,
        BlockMonitorEvent::Receipts(
            vec![(hash(1), ReceiptReply::NotFound), (hash(2), ReceiptReply::Failed)],
            1,
        ),
    );
    assert!(is_quiet(&out));
    let (_, summary) = finish_round(&mut m, 1, true);
    assert_eq!(summary, Some(Summary { pending: 2, confirmed: 0, last_block: 11 }));
}

/// A monitor that has found transactions 1 and 2 in block 11, and waits for registrations again: the
/// receipt of 1 was not there, and that of 2 could not be fetched.
fn with_late_receipt() -> BlockMonitor {
    let mut m = started(None);
    step(&mut m, BlockMonitorEvent::Registrations(vec![info(1, 0), info(2, 0)]));
    step(&mut m, BlockMonitorEvent::BlockNumber(Some(11)));
    step(
        &mut m,
        BlockMonitorEvent::Blocks(vec![BlockReply::Block(BlockTransactions::Hashes(vec![
            hash(1),
            hash(2),
        ]))]),
    );
    step(
        &mut m,
        BlockMonitorEvent::Receipts(
            vec![(hash(1), ReceiptReply::NotFound), (hash(2), ReceiptReply::Failed)],
            1,
        ),
    );
    finish_round(&mut m, 1, false);
    m
}

#[test]
fn late_receipt_is_picked_up_with_the_next_block() {
    let mut m = with_late_receipt();
    step(&mut m, BlockMonitorEvent::Registrations(vec![info(3, 0)]));
    let out = step(&mut m, BlockMonitorEvent::BlockNumber(Some(12)));
    assert_eq!(out.request, BlockMonitorRequest::Blocks { client: 42, numbers: vec![12] });
    let out = step(
        &mut m,
        BlockMonitorEvent::Blocks(vec![BlockReply::Block(BlockTransactions::Hashes(vec![hash(3)]))]),
    );
    assert_eq!(
        out.request,
        BlockMonitorRequest::Receipts { client: 42, hashes: vec![hash(3), hash(1)] }
    );
    let found = ReceiptReply::Found(receipt(1));
    let out = step(
        &mut m,
        BlockMonitorEvent::Receipts(vec![(hash(3), found), (hash(1), found)], 9),
    );
    assert_eq!(out.confirmations, vec![confirmed(3, 9, 1), confirmed(1, 9, 1)]);
    let (_, summary) = finish_round(&mut m, 9, true);
    assert_eq!(summary, Some(Summary { pending: 1, confirmed: 2, last_block: 12 }));
}

#[test]
fn late_receipt_is_picked_up_with_an_empty_block() {
    let mut m = with_late_receipt();
    step(&mut m, BlockMonitorEvent::Registrations(vec![]));
    step(&mut m, BlockMonitorEvent::BlockNumber(Some(12)));
    let out = step(
        &mut m,
        BlockMonitorEvent::Blocks(vec![BlockReply::Block(BlockTransactions::Hashes(vec![]))]),
    );
    assert_eq!(out.request, BlockMonitorRequest::Receipts { client: 42, hashes: vec![hash(1)] });
}

#[test]
fn late_receipt_is_picked_up_without_a_new_block() {
    let mut m = with_late_receipt();
    // Without the number of the newest block nothing is asked for, and nothing is forgotten.
    register(&mut m, vec![]);
    finish_round(&mut m, 2, false);
    // Still not there: it stays late.
    for now in [3, 4] {
        step(&mut m, BlockMonitorEvent::Registrations(vec![]));
        let out = step(&mut m, BlockMonitorEvent::BlockNumber(Some(11)));
        let asked = BlockMonitorRequest::Receipts { client: 42, hashes: vec![hash(1)] };
        assert_eq!(out.request, asked);
        let reply = if now == 3 {
            ReceiptReply::NotFound
        } else {
            ReceiptReply::Found(receipt(5))
        };
        let out = step(&mut m, BlockMonitorEvent::Receipts(vec![(hash(1), reply)], now));
        if now == 3 {
            assert!(is_quiet(&out));
        } else {
            assert_eq!(out.confirmations, vec![confirmed(1, 4, 5)]);
        }
        finish_round(&mut m, now, false);
    }
    // Nothing is late any more.
    step(&mut m, BlockMonitorEvent::Registrations(vec![]));
    let out = step(&mut m, BlockMonitorEvent::BlockNumber(Some(11)));
    assert_eq!(out.request, BlockMonitorRequest::Time);
}

#[test]
fn backpressure_alternates_with_hysteresis() {
    let mut m = started(Some(77));
    let max = MAX_PENDING_TXNS as u64;
    register(&mut m, (0..max).map(|n| info(n, 0)).collect());
    let (out, _) = finish_round(&mut m, 0, false);
    assert_eq!(out.backpressure, None);
    register(&mut m, vec![info(max, 0)]);
    let (out, _) = finish_round(&mut m, 0, false);
    assert_eq!(
        out.backpressure,
        Some(BackpressureChange { channel: Some(77), hold: true, pending: 200_001 })
    );
    register(&mut m, vec![info(max + 1, 0)]);
    let (out, _) = finish_round(&mut m, 0, false);
    assert_eq!(out.backpressure, None);

    // Confirm down to the threshold: still held back. One more lets go.
    let threshold = BACKPRESSURE_RESUME_THRESHOLD as u64;
    for (head, from, to, signal) in [
        (11, threshold, max + 2, None),
        (
            12,
            threshold - 1,
            threshold,
            Some(BackpressureChange { channel: Some(77), hold: false, pending: 159_999 }),
        ),
        (13, threshold - 2, threshold - 1, None),
    ] {
        step(&mut m, BlockMonitorEvent::Registrations(vec![]));
        step(&mut m, BlockMonitorEvent::BlockNumber(Some(head)));
        let mut out = step(
            &mut m,
            BlockMonitorEvent::Blocks(vec![BlockReply::Block(BlockTransactions::Hashes(hashes(
                from, to,
            )))]),
        );
        while let BlockMonitorRequest::Receipts { hashes, .. } = out.request {
            let replies = hashes.into_iter().map(|h| (h, ReceiptReply::Found(receipt(1))));
            out = step(&mut m, BlockMonitorEvent::Receipts(replies.collect(), 0));
        }
        let (out, _) = finish_round(&mut m, 0, false);
        assert_eq!(out.backpressure, signal);
    }
}

#[test]
fn without_a_channel_the_change_is_noted() {
    let mut m = started(None);
    register(&mut m, (0..MAX_PENDING_TXNS as u64 + 1).map(|n| info(n, 0)).collect());
    let (out, _) = finish_round(&mut m, 0, false);
    assert_eq!(
        out.backpressure,
        Some(BackpressureChange { channel: None, hold: true, pending: 200_001 })
    );
}

#[test]
fn overdue_transactions_by_level() {
    let mut m = started(None);
    let now = 1_000 * SECOND;
    let ages: [(u64, u64); 7] = [
        (1, 30 * SECOND - 1),
        (2, 30 * SECOND),
        (3, 120 * SECOND - 1),
        (4, 120 * SECOND),
        (5, 300 * SECOND - 1),
        (6, 300 * SECOND),
        (7, 1_000 * SECOND),
    ];
    register(&mut m, ages.iter().map(|(n, age)| info(*n, now - age)).collect());
    let stuck = |n: u64, level: StuckLevel, elapsed_secs: u64| StuckTx {
        tx_hash: hash(n),
        level,
        elapsed_secs,
        account: Address { bytes: [7; 20] },
        nonce: n,
    };
    let expected = vec![
        stuck(2, StuckLevel::Warning, 30),
        stuck(3, StuckLevel::Warning, 119),
        stuck(4, StuckLevel::Stuck, 120),
        stuck(5, StuckLevel::Stuck, 299),
        stuck(6, StuckLevel::Timeout, 300),
        stuck(7, StuckLevel::Timeout, 1_000),
    ];
    let mut reports = m.check_stuck_txs(now);
    reports.sort_by_key(|r| r.nonce);
    assert_eq!(reports, expected);
    let (out, _) = finish_round(&mut m, now, false);
    assert_eq!(out.stuck.len(), 6);
}

#[test]
fn clock_before_submission_counts_as_no_time() {
    let mut set = PendingSet::new();
    set.insert(info(1, 100));
    assert!(set.overdue(50).is_empty());
    let out = set.confirm(&vec![(hash(1), ReceiptReply::Found(receipt(0)))], 50);
    assert_eq!(out, vec![confirmed(1, 0, 0)]);
}

#[test]
fn registering_a_hash_again_replaces_it() {
    let mut set = PendingSet::new();
    set.register(vec![info(1, 0), info(2, 0), info(1, 7)]);
    assert_eq!(set.len(), 2);
    assert!(set.contains(&hash(1)));
    assert!(!set.contains(&hash(3)));
    assert_eq!(set.remove(&hash(1)), Some(info(1, 7)));
    assert_eq!(set.remove(&hash(1)), None);
    assert_eq!(set.len(), 1);
}

#[test]
fn transaction_is_confirmed_once() {
    let mut set = PendingSet::new();
    set.register(vec![info(1, 0)]);
    let found = ReceiptReply::Found(receipt(1));
    let out = set.confirm(&vec![(hash(1), found), (hash(1), found), (hash(2), found)], 9);
    assert_eq!(out, vec![confirmed(1, 9, 1)]);
    assert_eq!(set.len(), 0);
    // Registered again, it can be confirmed again.
    set.register(vec![info(1, 3)]);
    assert_eq!(set.confirm(&vec![(hash(1), found)], 9), vec![confirmed(1, 6, 1)]);
}

#[test]
fn blocks_match_pending_transactions_once() {
    let mut set = PendingSet::new();
    set.register(vec![info(1, 0), info(2, 0)]);
    let replies = vec![
        BlockReply::Block(BlockTransactions::Hashes(vec![hash(2), hash(3), hash(2)])),
        BlockReply::Block(BlockTransactions::Full(vec![hash(2), hash(4)])),
    ];
    assert_eq!(set.match_blocks(&replies, &vec![]), vec![hash(2)]);
    assert_eq!(set.match_blocks(&replies, &vec![hash(2), hash(3)]), vec![hash(2)]);
    assert_eq!(set.match_blocks(&vec![], &vec![hash(1), hash(1)]), vec![hash(1)]);
}

#[test]
fn only_the_awaited_event_is_awaited() {
    let m = BlockMonitor::new(1, vec![42], None);
    assert!(m.awaits(&BlockMonitorEvent::Started));
    assert!(!m.awaits(&BlockMonitorEvent::Woken));
    assert!(!m.awaits(&BlockMonitorEvent::BlockNumber(None)));
    let m = started(None);
    assert!(m.awaits(&BlockMonitorEvent::Registrations(vec![])));
    assert!(!m.awaits(&BlockMonitorEvent::Time(0)));
}
