//! The monitor: follows every submission, keeps balances, and decides what the actors around it
//! are told.
use vstd::prelude::*;

use crate::balance_tracker::{BalanceTracker, Ledger};
use crate::bench_config::SamplingPolicy;
use crate::messages::{
    share, ActorHandle, ClientHandle, CorrectNonces, InitBalances, LogStats, NonceCorrectionInfo,
    PlanCompleted, PlanFailed, PlanId, PlanProduced, ProduceTxns, RefaucetNeeded, RegisterConsumer,
    RegisterPlan, RegisterProducer, ReportProducerStats, RetryTxn, SubmissionResult, Tick,
    UpdateSubmissionResult,
};
use crate::primitives::{lemma_kept, u256_modulus, Address, TxHash, U256};

verus! {

/// Milliseconds between two ticks.
pub const TICK_INTERVAL_MS: u64 = 1000;

/// Milliseconds between two logs of the statistics.
pub const LOG_STATS_INTERVAL_MS: u64 = 1700;

/// Milliseconds between two looks at the transaction pools of the nodes.
pub const POOL_POLL_INTERVAL_MS: u64 = 1000;

/// A node to talk to.
#[derive(Debug, PartialEq, Eq)]
pub struct RpcClient {
    pub rpc_url: String,
    pub handle: ClientHandle,
}

/// What becomes due at each interval.
#[derive(Clone, Copy, Debug, PartialEq, Eq, Structural)]
pub enum TimerKind {
    Tick,
    LogStats,
    PollPool,
}

/// A timer that runs for as long as the monitor does.
#[derive(Clone, Copy, Debug, PartialEq, Eq, Structural)]
pub struct Timer {
    pub kind: TimerKind,
    pub interval_ms: u64,
}

/// Where a plan stands.
#[derive(Clone, Debug, PartialEq, Eq)]
pub enum PlanStatus {
    Completed,
    Failed { reason: String },
    InProgress,
}

/// What the number of pending transactions asks of the producer.
#[derive(Clone, Copy, Debug, PartialEq, Eq, Structural)]
pub enum BackpressureAction {
    Pause,
    Resume,
    NoChange,
}

/// What the state of the transaction pools asks for.
#[derive(Clone, Copy, Debug, PartialEq, Eq, Structural)]
pub enum MempoolAction {
    Healthy,
    NeedsNonceCorrection,
}

/// What the transaction pools hold, and what that asks for.
#[derive(Clone, Copy, Debug, PartialEq, Eq, Structural)]
pub struct PoolReport {
    pub pending: u64,
    pub queued: u64,
    pub action: MempoolAction,
}

/// What the transaction tracker reports when a tick comes.
#[derive(Debug)]
pub struct TickReport {
    pub backpressure: BackpressureAction,
    /// Whether there are receipts to be fetched for sampled transactions.
    pub has_sampling_tasks: bool,
    /// The active plans and where they stand.
    pub plans: Vec<(PlanId, PlanStatus)>,
}

/// What the producer can be told.
#[derive(Debug, PartialEq, Eq)]
pub enum ProducerMessage {
    Submission(UpdateSubmissionResult),
    RefaucetNeeded(RefaucetNeeded),
    PlanCompleted(PlanCompleted),
    PlanFailed(PlanFailed),
    PauseProducer,
    ResumeProducer,
}

/// What the transaction tracker can be told.
#[derive(Debug, PartialEq, Eq)]
pub enum TrackerCommand {
    RegisterPlan(RegisterPlan),
    Submission(UpdateSubmissionResult),
    ProduceTxns(ProduceTxns),
    PlanProduced(PlanProduced),
    ProducerStats(ReportProducerStats),
    MarkPlanFailed(PlanId),
    MempoolStats { pending: u64, queued: u64 },
    LogStats,
}

/// The accounts whose nonces are stuck are to be found in the pool of `client`, and the producer
/// told of the nonces that the chain expects.
#[derive(Clone, Copy, Debug, PartialEq, Eq, Structural)]
pub struct NonceCorrectionJob {
    pub client: ClientHandle,
    pub producer: ActorHandle,
}

/// Something the monitor wants done.
#[derive(Debug, PartialEq, Eq)]
pub enum MonitorAction {
    ToProducer(ActorHandle, ProducerMessage),
    ToConsumer(ActorHandle, RetryTxn),
    ToTracker(TrackerCommand),
    /// Fetch the receipts of the sampled transactions; what has to be retried goes to `consumer`.
    FetchSampledReceipts { consumer: Option<ActorHandle> },
    CorrectNonces(NonceCorrectionJob),
}

/// A message to the monitor.
#[derive(Debug)]
pub enum MonitorMessage {
    RegisterProducer(RegisterProducer),
    RegisterConsumer(RegisterConsumer),
    RegisterPlan(RegisterPlan),
    Submission(UpdateSubmissionResult),
    ProduceTxns(ProduceTxns),
    PlanProduced(PlanProduced),
    ReportProducerStats(ReportProducerStats),
    PlanFailed(PlanFailed),
    InitBalances(InitBalances),
    LogStats(LogStats),
    Tick(Tick, TickReport),
}

/// Of the clients in the order given, the handle that each URL leads to: that of the last client
/// with the URL.
pub open spec fn clients_by_url(clients: Seq<RpcClient>) -> Map<Seq<char>, ClientHandle>
    decreases clients.len(),
{
    if clients.len() == 0 {
        Map::empty()
    } else {
        clients_by_url(clients.drop_last()).insert(
            clients.last().rpc_url@,
            clients.last().handle,
        )
    }
}

/// What the monitor remembers from one message to the next.
pub struct MonitorState {
    pub producer: Option<ActorHandle>,
    pub consumer: Option<ActorHandle>,
    /// The balances, where they are tracked.
    pub ledger: Option<Ledger>,
    pub clients: Map<Seq<char>, ClientHandle>,
    pub receipt_mode: bool,
    pub max_pool_size: usize,
    pub sampling_policy: SamplingPolicy,
}

/// Whether `address` is one of `addresses`.
pub open spec fn is_listed(addresses: Seq<Address>, address: Seq<u8>) -> bool {
    exists|i: int| 0 <= i < addresses.len() && (#[trigger] addresses[i])@ == address
}

/// The ledger once each of `addresses` has been given `balance`.
pub open spec fn with_balances(ledger: Ledger, addresses: Seq<Address>, balance: nat) -> Ledger {
    Ledger {
        balances: Map::new(
            |a: Seq<u8>| is_listed(addresses, a) || ledger.balances.contains_key(a),
            |a: Seq<u8>|
                if is_listed(addresses, a) {
                    balance
                } else {
                    ledger.balances[a]
                },
        ),
        ..ledger
    }
}

/// The ledger once a submission has been accounted for. A receipt of an ordinary transaction costs
/// the sender its gas; a receipt of a re-faucet credits the target. Nothing else moves a balance.
pub open spec fn ledger_after_submission(ledger: Ledger, msg: UpdateSubmissionResult) -> Ledger {
    match msg.result {
        SubmissionResult::SuccessWithReceipt { gas_used, effective_gas_price, .. } => {
            if !msg.metadata.is_refaucet {
                ledger.after_cost(
                    msg.metadata.from_account@,
                    (gas_used * effective_gas_price) as nat,
                )
            } else {
                match msg.metadata.refaucet_target {
                    Some(target) => ledger.after_credit(target@, ledger.refaucet_amount),
                    None => ledger,
                }
            }
        },
        _ => ledger,
    }
}

/// Whether a submission shows that its sender has to be topped up: it could not pay, or the gas of
/// an ordinary transaction has left it below the threshold.
pub open spec fn refaucet_due(ledger: Ledger, msg: UpdateSubmissionResult) -> bool {
    match msg.result {
        SubmissionResult::SuccessWithReceipt { .. } => {
            !msg.metadata.is_refaucet && ledger_after_submission(ledger, msg).is_low(
                msg.metadata.from_account@,
            )
        },
        SubmissionResult::InsufficientBalance => true,
        _ => false,
    }
}

impl MonitorState {
    /// A message for the producer, if there is one.
    pub open spec fn to_producer(self, message: ProducerMessage) -> Seq<MonitorAction> {
        match self.producer {
            Some(producer) => seq![MonitorAction::ToProducer(producer, message)],
            None => seq![],
        }
    }

    /// The request to top up the sender of a submission, where it is due.
    pub open spec fn refaucet_request(self, msg: UpdateSubmissionResult) -> Seq<MonitorAction> {
        if self.ledger is Some && refaucet_due(self.ledger->0, msg) {
            self.to_producer(
                ProducerMessage::RefaucetNeeded(
                    RefaucetNeeded {
                        account: msg.metadata.from_account,
                        account_id: msg.metadata.from_account_id,
                    },
                ),
            )
        } else {
            seq![]
        }
    }

    /// Who takes care of a submission next. One that was never sent goes nowhere, one that failed
    /// goes back to the consumer if there is one, and any other goes to the tracker.
    pub open spec fn handed_on(self, msg: UpdateSubmissionResult) -> Seq<MonitorAction> {
        if msg.result is InsufficientBalance {
            seq![]
        } else if msg.result is ErrorWithRetry && self.consumer is Some {
            seq![
                MonitorAction::ToConsumer(
                    self.consumer->0,
                    RetryTxn { signed_bytes: msg.signed_bytes, metadata: msg.metadata },
                ),
            ]
        } else {
            seq![MonitorAction::ToTracker(TrackerCommand::Submission(msg))]
        }
    }

    /// What a submission leads to, in order.
    pub open spec fn submission_actions(self, msg: UpdateSubmissionResult) -> Seq<MonitorAction> {
        self.to_producer(ProducerMessage::Submission(msg)) + self.refaucet_request(msg)
            + self.handed_on(msg)
    }

    /// What the producer is told of a plan.
    pub open spec fn plan_notice(self, plan_id: PlanId, status: PlanStatus) -> Seq<MonitorAction> {
        match status {
            PlanStatus::Completed => self.to_producer(
                ProducerMessage::PlanCompleted(PlanCompleted { plan_id }),
            ),
            PlanStatus::Failed { reason } => self.to_producer(
                ProducerMessage::PlanFailed(PlanFailed { plan_id, reason }),
            ),
            PlanStatus::InProgress => seq![],
        }
    }

    /// What the producer is told of several plans, in their order.
    pub open spec fn plan_notices(self, plans: Seq<(PlanId, PlanStatus)>) -> Seq<MonitorAction>
        decreases plans.len(),
    {
        if plans.len() == 0 {
            seq![]
        } else {
            self.plan_notices(plans.drop_last()) + self.plan_notice(plans.last().0, plans.last().1)
        }
    }

    /// What the producer is told of the number of pending transactions.
    pub open spec fn backpressure_notice(self, action: BackpressureAction) -> Seq<MonitorAction> {
        match action {
            BackpressureAction::Pause => self.to_producer(ProducerMessage::PauseProducer),
            BackpressureAction::Resume => self.to_producer(ProducerMessage::ResumeProducer),
            BackpressureAction::NoChange => seq![],
        }
    }

    /// What a tick leads to, in order.
    pub open spec fn tick_actions(self, report: TickReport) -> Seq<MonitorAction> {
        self.backpressure_notice(report.backpressure) + if report.has_sampling_tasks {
            seq![MonitorAction::FetchSampledReceipts { consumer: self.consumer }]
        } else {
            seq![]
        } + self.plan_notices(report.plans@)
    }

    /// What a message leads to, in order.
    pub open spec fn actions_for(self, msg: MonitorMessage) -> Seq<MonitorAction> {
        match msg {
            MonitorMessage::RegisterProducer(_) => seq![],
            MonitorMessage::RegisterConsumer(_) => seq![],
            MonitorMessage::RegisterPlan(m) => seq![
                MonitorAction::ToTracker(TrackerCommand::RegisterPlan(m)),
            ],
            MonitorMessage::Submission(m) => self.submission_actions(m),
            MonitorMessage::ProduceTxns(m) => seq![
                MonitorAction::ToTracker(TrackerCommand::ProduceTxns(m)),
            ],
            MonitorMessage::PlanProduced(m) => seq![
                MonitorAction::ToTracker(TrackerCommand::PlanProduced(m)),
            ],
            MonitorMessage::ReportProducerStats(m) => seq![
                MonitorAction::ToTracker(TrackerCommand::ProducerStats(m)),
            ],
            MonitorMessage::PlanFailed(m) => seq![
                MonitorAction::ToTracker(TrackerCommand::MarkPlanFailed(m.plan_id)),
            ],
            MonitorMessage::InitBalances(_) => seq![],
            MonitorMessage::LogStats(_) => seq![MonitorAction::ToTracker(TrackerCommand::LogStats)],
            MonitorMessage::Tick(_, report) => self.tick_actions(report),
        }
    }

    /// What the monitor remembers once it has dealt with a message.
    pub open spec fn after(self, msg: MonitorMessage) -> MonitorState {
        match msg {
            MonitorMessage::RegisterProducer(m) => MonitorState { producer: Some(m.addr), ..self },
            MonitorMessage::RegisterConsumer(m) => MonitorState { consumer: Some(m.addr), ..self },
            MonitorMessage::Submission(m) => MonitorState {
                ledger: match self.ledger {
                    Some(ledger) => Some(ledger_after_submission(ledger, m)),
                    None => None,
                },
                ..self
            },
            MonitorMessage::InitBalances(m) => MonitorState {
                ledger: match self.ledger {
                    Some(ledger) => Some(
                        with_balances(ledger, m.addresses@, m.balance_per_account@),
                    ),
                    None => None,
                },
                ..self
            },
            _ => self,
        }
    }
}

/// Core for system state tracking and fault tolerance
pub struct Monitor {
    /// Registered Producer address
    producer_addr: Option<ActorHandle>,
    /// Registered Consumer address
    consumer_addr: Option<ActorHandle>,
    /// One client for each RPC URL.
    clients: ClientTable,
    /// Per-account ETH balance tracker (only active in receipt mode)
    balance_tracker: Option<BalanceTracker>,
    /// When true, skip txpool_content nonce correction (unnecessary with per-tx receipt)
    receipt_mode: bool,
    /// Capacity of the transaction pool.
    max_pool_size: usize,
    /// How many pending transactions are sampled.
    sampling_policy: SamplingPolicy,
}

impl View for Monitor {
    type V = MonitorState;

    closed spec fn view(&self) -> MonitorState {
        MonitorState {
            producer: self.producer_addr,
            consumer: self.consumer_addr,
            ledger: match self.balance_tracker {
                Some(tracker) => Some(tracker@),
                None => None,
            },
            clients: self.clients@,
            receipt_mode: self.receipt_mode,
            max_pool_size: self.max_pool_size,
            sampling_policy: self.sampling_policy,
        }
    }
}

/// The nodes to talk to, each under its URL.
pub struct ClientTable {
    clients: Vec<RpcClient>,
}

impl View for ClientTable {
    type V = Map<Seq<char>, ClientHandle>;

    closed spec fn view(&self) -> Map<Seq<char>, ClientHandle> {
        clients_by_url(self.clients@)
    }
}

impl ClientTable {
    /// Each URL occurs once among the clients.
    #[verifier::type_invariant]
    spec fn has_distinct_urls(self) -> bool {
        distinct_urls(self.clients@)
    }

    /// A table of the given clients. Of several with one URL, the last one counts.
    pub fn new(clients: Vec<RpcClient>) -> (table: Self)
        ensures
            table@ == clients_by_url(clients@),
    {
        ClientTable { clients: one_per_url(clients) }
    }

    /// The clients, one for each URL.
    pub fn all(&self) -> (clients: &Vec<RpcClient>)
        ensures
            clients_by_url(clients@) == self@,
            distinct_urls(clients@),
    {
        proof {
            use_type_invariant(self);
        }
        &self.clients
    }

    /// Some client of the table, unless it is empty.
    pub fn any(&self) -> (client: Option<ClientHandle>)
        ensures
            client is None <==> self@ == Map::<Seq<char>, ClientHandle>::empty(),
            client matches Some(handle) ==> self@.contains_value(handle),
    {
        proof {
            use_type_invariant(self);
            lemma_clients_by_url(self.clients@);
        }
        if self.clients.len() == 0 {
            None
        } else {
            let handle = self.clients[0].handle;
            assert(self@.dom().contains(self.clients@[0].rpc_url@));
            Some(handle)
        }
    }
}

/// No two clients have one URL.
pub open spec fn distinct_urls(clients: Seq<RpcClient>) -> bool {
    forall|i: int, j: int|
        0 <= i < j < clients.len() ==> (#[trigger] clients[i]).rpc_url@ != (
        #[trigger] clients[j]).rpc_url@
}

/// Where URLs are distinct, the handle of each client is the one that its URL leads to, and a URL
/// that no client has leads nowhere.
proof fn lemma_clients_by_url(clients: Seq<RpcClient>)
    requires
        distinct_urls(clients),
    ensures
        forall|i: int|
            0 <= i < clients.len() ==> clients_by_url(clients).contains_pair(
                (#[trigger] clients[i]).rpc_url@,
                clients[i].handle,
            ),
        forall|url: Seq<char>| #[trigger]
            clients_by_url(clients).contains_key(url) ==> exists|i: int|
                0 <= i < clients.len() && (#[trigger] clients[i]).rpc_url@ == url,
    decreases clients.len(),
{
    if clients.len() > 0 {
        lemma_clients_by_url(clients.drop_last());
        assert forall|i: int| 0 <= i < clients.len() implies clients_by_url(clients).contains_pair(
            (#[trigger] clients[i]).rpc_url@,
            clients[i].handle,
        ) by {
            if i < clients.len() - 1 {
                assert(clients.drop_last()[i] == clients[i]);
                assert(clients[i].rpc_url@ != clients[clients.len() - 1].rpc_url@);
            }
        }
        assert forall|url: Seq<char>| #[trigger]
            clients_by_url(clients).contains_key(url) implies exists|i: int|
            0 <= i < clients.len() && (#[trigger] clients[i]).rpc_url@ == url by {
            if url == clients.last().rpc_url@ {
                assert(clients[clients.len() - 1].rpc_url@ == url);
            } else {
                assert(clients_by_url(clients.drop_last()).contains_key(url));
                let i = choose|i: int|
                    0 <= i < clients.len() - 1 && (#[trigger] clients.drop_last()[i]).rpc_url@
                        == url;
                assert(clients[i].rpc_url@ == url);
            }
        }
    }
}

/// Replacing the client of a URL changes where that URL leads, and nothing else.
proof fn lemma_replaced_client(clients: Seq<RpcClient>, j: int, client: RpcClient)
    requires
        distinct_urls(clients),
        0 <= j < clients.len(),
        clients[j].rpc_url@ == client.rpc_url@,
    ensures
        distinct_urls(clients.update(j, client)),
        clients_by_url(clients.update(j, client)) == clients_by_url(clients).insert(
            client.rpc_url@,
            client.handle,
        ),
{
    let updated = clients.update(j, client);
    lemma_clients_by_url(clients);
    lemma_clients_by_url(updated);
    let expected = clients_by_url(clients).insert(client.rpc_url@, client.handle);
    assert(clients[j].rpc_url@ == updated[j].rpc_url@);
    assert forall|url: Seq<char>|
        #![trigger clients_by_url(updated).contains_key(url)]
        #![trigger expected.contains_key(url)]
        clients_by_url(updated).contains_key(url) == expected.contains_key(url) && (
        expected.contains_key(url) ==> clients_by_url(updated)[url] == expected[url]) by {
        if clients_by_url(updated).contains_key(url) {
            let i = choose|i: int|
                0 <= i < updated.len() && (#[trigger] updated[i]).rpc_url@ == url;
            assert(clients[i].rpc_url@ == url);
        }
        if expected.contains_key(url) && url != client.rpc_url@ {
            let i = choose|i: int|
                0 <= i < clients.len() && (#[trigger] clients[i]).rpc_url@ == url;
            assert(updated[i] == clients[i]);
        }
    }
    assert forall|url: Seq<char>|
        clients_by_url(updated).dom().contains(url) == expected.dom().contains(url) by {
        assert(clients_by_url(updated).contains_key(url) == expected.contains_key(url));
    }
    assert forall|url: Seq<char>| #[trigger] expected.dom().contains(url) implies clients_by_url(
        updated,
    )[url] == expected[url] by {
        assert(expected.contains_key(url));
    }
    assert(clients_by_url(updated) =~= expected);
}

/// Of several clients with one URL, the last one's handle in the place of the first.
fn one_per_url(clients: Vec<RpcClient>) -> (kept: Vec<RpcClient>)
    ensures
        distinct_urls(kept@),
        clients_by_url(kept@) == clients_by_url(clients@),
{
    let mut kept: Vec<RpcClient> = Vec::new();
    let mut i: usize = 0;
    assert(clients@.take(0).len() == 0);
    while i < clients.len()
        invariant
            i <= clients@.len(),
            distinct_urls(kept@),
            clients_by_url(kept@) == clients_by_url(clients@.take(i as int)),
        decreases clients@.len() - i,
    {
        let rpc_url = clients[i].rpc_url.clone();
        let handle = clients[i].handle;
        let mut j: usize = 0;
        while j < kept.len() && !(kept[j].rpc_url == rpc_url)
            invariant
                j <= kept@.len(),
                forall|k: int| 0 <= k < j ==> (#[trigger] kept@[k]).rpc_url@ != rpc_url@,
            decreases kept@.len() - j,
        {
            j = j + 1;
        }
        let ghost before = kept@;
        let client = RpcClient { rpc_url, handle };
        if j < kept.len() {
            kept.set(j, client);
            proof {
                lemma_replaced_client(before, j as int, client);
            }
        } else {
            kept.push(client);
            assert(kept@.drop_last() =~= before);
        }
        assert(clients@.take(i + 1).drop_last() =~= clients@.take(i as int));
        i = i + 1;
    }
    assert(clients@.take(i as int) =~= clients@);
    kept
}

impl Monitor {
    /// A monitor of the given nodes that no actor has registered with and that tracks no balances.
    pub fn new_with_clients(
        clients: Vec<RpcClient>,
        max_pool_size: usize,
        sampling_policy: SamplingPolicy,
        receipt_mode: bool,
    ) -> (monitor: Self)
        ensures
            monitor@ == (MonitorState {
                producer: None,
                consumer: None,
                ledger: None,
                clients: clients_by_url(clients@),
                receipt_mode,
                max_pool_size,
                sampling_policy,
            }),
    {
        Monitor {
            producer_addr: None,
            consumer_addr: None,
            clients: ClientTable::new(clients),
            balance_tracker: None,
            receipt_mode,
            max_pool_size,
            sampling_policy,
        }
    }

    /// Enable balance tracking for receipt mode.
    /// `threshold_gwei`: re-faucet when balance drops below this (Gwei)
    /// `refaucet_eth`: amount to re-faucet (whole ETH)
    pub fn enable_balance_tracking(&mut self, threshold_gwei: u64, refaucet_eth: u64)
        ensures
            final(self)@ == (MonitorState {
                ledger: Some(
                    Ledger {
                        balances: Map::empty(),
                        low_balance_threshold: (threshold_gwei * 1_000_000_000) as nat,
                        refaucet_amount: (refaucet_eth * 1_000_000_000_000_000_000) as nat,
                    },
                ),
                ..old(self)@
            }),
    {
        self.balance_tracker = Some(BalanceTracker::new(threshold_gwei, refaucet_eth));
    }

    /// The nodes to talk to.
    pub fn clients(&self) -> (clients: &ClientTable)
        ensures
            clients@ == self@.clients,
    {
        &self.clients
    }

    /// Capacity of the transaction pool.
    pub fn max_pool_size(&self) -> (size: usize)
        ensures
            size == self@.max_pool_size,
    {
        self.max_pool_size
    }

    /// How many pending transactions are sampled.
    pub fn sampling_policy(&self) -> (policy: &SamplingPolicy)
        ensures
            *policy == self@.sampling_policy,
    {
        &self.sampling_policy
    }

    /// The timers to start with the monitor.
    pub fn started(&self) -> (timers: Vec<Timer>)
        ensures
            timers@ == seq![
                Timer { kind: TimerKind::Tick, interval_ms: 1000 },
                Timer { kind: TimerKind::LogStats, interval_ms: 1700 },
                Timer { kind: TimerKind::PollPool, interval_ms: 1000 },
            ],
    {
        let mut timers: Vec<Timer> = Vec::new();
        timers.push(Timer { kind: TimerKind::Tick, interval_ms: TICK_INTERVAL_MS });
        timers.push(Timer { kind: TimerKind::LogStats, interval_ms: LOG_STATS_INTERVAL_MS });
        timers.push(Timer { kind: TimerKind::PollPool, interval_ms: POOL_POLL_INTERVAL_MS });
        timers
    }

    /// A message for the producer at the end of `actions`, if there is a producer.
    fn tell_producer(&self, message: ProducerMessage, actions: &mut Vec<MonitorAction>)
        ensures
            final(actions)@ == old(actions)@ + self@.to_producer(message),
    {
        match self.producer_addr {
            Some(producer) => {
                actions.push(MonitorAction::ToProducer(producer, message));
            },
            None => {},
        }
    }

    /// Notify Producer of plan status changes
    fn notify_plan_status(
        &self,
        plan_id: PlanId,
        status: &PlanStatus,
        actions: &mut Vec<MonitorAction>,
    )
        ensures
            final(actions)@ == old(actions)@ + self@.plan_notice(plan_id, *status),
    {
        match status {
            PlanStatus::Completed => {
                self.tell_producer(
                    ProducerMessage::PlanCompleted(PlanCompleted { plan_id }),
                    actions,
                );
            },
            PlanStatus::Failed { reason } => {
                self.tell_producer(
                    ProducerMessage::PlanFailed(PlanFailed { plan_id, reason: reason.clone() }),
                    actions,
                );
            },
            PlanStatus::InProgress => {},
        }
    }

    /// Takes the receipt of a submission into the balances, and says whether its sender has to be
    /// topped up.
    fn settle(&mut self, msg: &UpdateSubmissionResult) -> (due: bool)
        ensures
            final(self)@ == old(self)@.after(MonitorMessage::Submission(*msg)),
            due == (old(self)@.ledger is Some && refaucet_due(old(self)@.ledger->0, *msg)),
    {
        match &mut self.balance_tracker {
            None => false,
            Some(tracker) => match msg.result {
                SubmissionResult::SuccessWithReceipt { gas_used, effective_gas_price, .. } => {
                    if msg.metadata.is_refaucet {
                        // A re-faucet transaction: credit the target (depleted) account.
                        match msg.metadata.refaucet_target {
                            Some(target) => {
                                let amount = tracker.refaucet_amount();
                                tracker.credit(&target, amount);
                            },
                            None => {},
                        }
                        false
                    } else {
                        // An ordinary transaction: deduct gas and check if re-faucet is needed.
                        let address = &msg.metadata.from_account;
                        match tracker.deduct_gas(address, gas_used, effective_gas_price) {
                            Some(_) => tracker.needs_refaucet(address),
                            None => false,
                        }
                    }
                },
                SubmissionResult::InsufficientBalance => true,
                _ => false,
            },
        }
    }

    /// Deals with the outcome of a submission.
    pub fn handle_submission(&mut self, msg: UpdateSubmissionResult) -> (actions: Vec<
        MonitorAction,
    >)
        ensures
            final(self)@ == old(self)@.after(MonitorMessage::Submission(msg)),
            actions@ == old(self)@.submission_actions(msg),
    {
        let mut actions: Vec<MonitorAction> = Vec::new();
        // Forward message to producer
        self.tell_producer(ProducerMessage::Submission(msg.clone()), &mut actions);
        if self.settle(&msg) {
            self.tell_producer(
                ProducerMessage::RefaucetNeeded(
                    RefaucetNeeded {
                        account: msg.metadata.from_account,
                        account_id: msg.metadata.from_account_id,
                    },
                ),
                &mut actions,
            );
        }
        match msg.result {
            SubmissionResult::InsufficientBalance => {
                // The transaction was never submitted: the tracker is not told, and the Producer
                // puts the account back in the ready pool.
            },
            SubmissionResult::ErrorWithRetry => {
                // Retry endlessly, to prevent nonce gaps and premature plan completion.
                match self.consumer_addr {
                    Some(consumer) => {
                        let retry = RetryTxn {
                            signed_bytes: share(&msg.signed_bytes),
                            metadata: msg.metadata,
                        };
                        actions.push(MonitorAction::ToConsumer(consumer, retry));
                    },
                    None => {
                        actions.push(MonitorAction::ToTracker(TrackerCommand::Submission(msg)));
                    },
                }
            },
            _ => {
                actions.push(MonitorAction::ToTracker(TrackerCommand::Submission(msg)));
            },
        }
        assert(actions@ =~= old(self)@.submission_actions(msg));
        actions
    }

    /// Deals with a tick, given what the tracker has to report.
    pub fn handle_tick(&self, report: &TickReport) -> (actions: Vec<MonitorAction>)
        ensures
            actions@ == self@.tick_actions(*report),
    {
        let mut actions: Vec<MonitorAction> = Vec::new();
        match report.backpressure {
            BackpressureAction::Pause => {
                self.tell_producer(ProducerMessage::PauseProducer, &mut actions);
            },
            BackpressureAction::Resume => {
                self.tell_producer(ProducerMessage::ResumeProducer, &mut actions);
            },
            BackpressureAction::NoChange => {},
        }
        if report.has_sampling_tasks {
            actions.push(MonitorAction::FetchSampledReceipts { consumer: self.consumer_addr });
        }
        let ghost first = actions@;
        let mut i: usize = 0;
        assert(report.plans@.take(0).len() == 0);
        while i < report.plans.len()
            invariant
                i <= report.plans@.len(),
                actions@ =~= first + self@.plan_notices(report.plans@.take(i as int)),
            decreases report.plans@.len() - i,
        {
            assert(report.plans@.take(i + 1).drop_last() =~= report.plans@.take(i as int));
            self.notify_plan_status(report.plans[i].0, &report.plans[i].1, &mut actions);
            i = i + 1;
        }
        assert(report.plans@.take(i as int) =~= report.plans@);
        assert(actions@ =~= self@.tick_actions(*report));
        actions
    }

    /// Gives each of the accounts its initial balance, where balances are tracked.
    pub fn handle_init_balances(&mut self, msg: &InitBalances)
        ensures
            final(self)@ == old(self)@.after(MonitorMessage::InitBalances(*msg)),
    {
        match &mut self.balance_tracker {
            Some(tracker) => {
                set_balances(tracker, &msg.addresses, msg.balance_per_account);
            },
            None => {},
        }
    }

    /// Deals with a message.
    pub fn handle(&mut self, msg: MonitorMessage) -> (actions: Vec<MonitorAction>)
        ensures
            final(self)@ == old(self)@.after(msg),
            actions@ == old(self)@.actions_for(msg),
    {
        match msg {
            MonitorMessage::RegisterProducer(m) => {
                self.producer_addr = Some(m.addr);
                Vec::new()
            },
            MonitorMessage::RegisterConsumer(m) => {
                self.consumer_addr = Some(m.addr);
                Vec::new()
            },
            MonitorMessage::RegisterPlan(m) => tell_tracker(TrackerCommand::RegisterPlan(m)),
            MonitorMessage::Submission(m) => self.handle_submission(m),
            MonitorMessage::ProduceTxns(m) => tell_tracker(TrackerCommand::ProduceTxns(m)),
            MonitorMessage::PlanProduced(m) => tell_tracker(TrackerCommand::PlanProduced(m)),
            MonitorMessage::ReportProducerStats(m) => tell_tracker(
                TrackerCommand::ProducerStats(m),
            ),
            MonitorMessage::PlanFailed(m) => tell_tracker(
                TrackerCommand::MarkPlanFailed(m.plan_id),
            ),
            MonitorMessage::InitBalances(m) => {
                self.handle_init_balances(&m);
                Vec::new()
            },
            MonitorMessage::LogStats(_) => tell_tracker(TrackerCommand::LogStats),
            MonitorMessage::Tick(_, report) => self.handle_tick(&report),
        }
    }

    /// What the receipts of the sampled transactions lead to: each transaction that has to be
    /// retried goes to the consumer that was registered when the receipts were asked for.
    pub fn handle_sampled_receipts(
        consumer: Option<ActorHandle>,
        retry_queue: &Vec<RetryTxn>,
    ) -> (actions: Vec<MonitorAction>)
        ensures
            actions@ == (match consumer {
                Some(to) => retry_queue@.map_values(
                    |retry: RetryTxn| MonitorAction::ToConsumer(to, retry),
                ),
                None => seq![],
            }),
    {
        let mut actions: Vec<MonitorAction> = Vec::new();
        match consumer {
            Some(to) => {
                let mut i: usize = 0;
                while i < retry_queue.len()
                    invariant
                        i <= retry_queue@.len(),
                        actions@.len() == i,
                        forall|k: int|
                            0 <= k < i ==> #[trigger] actions@[k] == MonitorAction::ToConsumer(
                                to,
                                retry_queue@[k],
                            ),
                    decreases retry_queue@.len() - i,
                {
                    actions.push(MonitorAction::ToConsumer(to, retry_queue[i].clone()));
                    i = i + 1;
                }
            },
            None => {},
        }
        actions
    }

    /// The producer on whose behalf the transaction pools are to be looked at, if there is one.
    pub fn pool_poll_target(&self) -> (producer: Option<ActorHandle>)
        ensures
            producer == self@.producer,
    {
        self.producer_addr
    }

    /// What a look at the transaction pools on behalf of `producer` leads to. Nothing, if it
    /// failed; else the tracker gets the numbers. Stuck nonces are corrected except in receipt
    /// mode, where nonces are always accurate, given a node to ask.
    pub fn handle_pool_report(
        &self,
        producer: ActorHandle,
        report: Option<PoolReport>,
    ) -> (actions: Vec<MonitorAction>)
        ensures
            report is None ==> actions@.len() == 0,
            report matches Some(r) ==> {
                let corrects = !self@.receipt_mode && r.action is NeedsNonceCorrection
                    && self@.clients != Map::<Seq<char>, ClientHandle>::empty();
                &&& actions@.len() == if corrects {
                    2int
                } else {
                    1int
                }
                &&& actions@[0] == MonitorAction::ToTracker(
                    TrackerCommand::MempoolStats { pending: r.pending, queued: r.queued },
                )
                &&& corrects ==> (actions@[1] matches MonitorAction::CorrectNonces(job)
                    && job.producer == producer && self@.clients.contains_value(job.client))
            },
    {
        let mut actions: Vec<MonitorAction> = Vec::new();
        match report {
            Some(r) => {
                actions.push(
                    MonitorAction::ToTracker(
                        TrackerCommand::MempoolStats { pending: r.pending, queued: r.queued },
                    ),
                );
                if !self.receipt_mode && r.action == MempoolAction::NeedsNonceCorrection {
                    match self.clients.any() {
                        Some(client) => {
                            actions.push(
                                MonitorAction::CorrectNonces(
                                    NonceCorrectionJob { client, producer },
                                ),
                            );
                        },
                        None => {},
                    }
                }
            },
            None => {},
        }
        actions
    }
}

/// A single command to the tracker.
fn tell_tracker(command: TrackerCommand) -> (actions: Vec<MonitorAction>)
    ensures
        actions@ == seq![MonitorAction::ToTracker(command)],
{
    let mut actions: Vec<MonitorAction> = Vec::new();
    actions.push(MonitorAction::ToTracker(command));
    actions
}

/// Gives each of the accounts the balance.
fn set_balances(tracker: &mut BalanceTracker, addresses: &Vec<Address>, balance: U256)
    ensures
        final(tracker)@ == with_balances(old(tracker)@, addresses@, balance@),
{
    let ghost start = tracker@;
    let mut i: usize = 0;
    assert(tracker@.balances =~= with_balances(start, addresses@.take(0), balance@).balances);
    while i < addresses.len()
        invariant
            i <= addresses@.len(),
            start == old(tracker)@,
            tracker@ == with_balances(start, addresses@.take(i as int), balance@),
        decreases addresses@.len() - i,
    {
        let address = addresses[i];
        let ghost before = tracker@;
        tracker.set_balance(address, balance);
        proof {
            let shorter = addresses@.take(i as int);
            let longer = addresses@.take(i + 1);
            assert forall|a: Seq<u8>| is_listed(longer, a) == (is_listed(shorter, a) || a
                == address@) by {
                if is_listed(shorter, a) {
                    let k = choose|k: int|
                        0 <= k < shorter.len() && (#[trigger] shorter[k])@ == a;
                    assert(longer[k]@ == a);
                }
                if a == address@ {
                    assert(longer[i as int]@ == a);
                }
                if is_listed(longer, a) && a != address@ {
                    let k = choose|k: int|
                        0 <= k < longer.len() && (#[trigger] longer[k])@ == a;
                    assert(shorter[k]@ == a);
                }
            }
            assert(tracker@.balances =~= with_balances(start, longer, balance@).balances);
        }
        i = i + 1;
    }
    assert(addresses@.take(i as int) =~= addresses@);
}

/// The corrections that the replies of the chain allow: an account with the nonce that the chain
/// expects of it, for each account that it gave one for, in order.
pub open spec fn corrections_from(replies: Seq<(Address, Option<u64>)>) -> Seq<
    NonceCorrectionInfo,
>
    decreases replies.len(),
{
    if replies.len() == 0 {
        seq![]
    } else {
        let earlier = corrections_from(replies.drop_last());
        match replies.last().1 {
            Some(expected_nonce) => earlier.push(
                NonceCorrectionInfo { account: replies.last().0, expected_nonce },
            ),
            None => earlier,
        }
    }
}

impl NonceCorrectionJob {
    /// The message to the producer once the chain has been asked for the nonce of each account
    /// whose transactions are stuck. There is none if no nonce could be had.
    pub fn finish(&self, replies: &Vec<(Address, Option<u64>)>) -> (message: Option<
        (ActorHandle, CorrectNonces),
    >)
        ensures
            message is None <==> corrections_from(replies@).len() == 0,
            message matches Some((to, correct)) ==> to == self.producer && correct.corrections@
                == corrections_from(replies@),
    {
        let mut corrections: Vec<NonceCorrectionInfo> = Vec::new();
        let mut i: usize = 0;
        assert(replies@.take(0).len() == 0);
        while i < replies.len()
            invariant
                i <= replies@.len(),
                corrections@ == corrections_from(replies@.take(i as int)),
            decreases replies@.len() - i,
        {
            assert(replies@.take(i + 1).drop_last() =~= replies@.take(i as int));
            match replies[i].1 {
                Some(expected_nonce) => {
                    corrections.push(
                        NonceCorrectionInfo { account: replies[i].0, expected_nonce },
                    );
                },
                None => {},
            }
            i = i + 1;
        }
        assert(replies@.take(i as int) =~= replies@);
        if corrections.len() == 0 {
            None
        } else {
            Some((self.producer, CorrectNonces { corrections }))
        }
    }
}

/// Whether an action sends nothing to an actor that is not registered.
pub open spec fn goes_to_registered(state: MonitorState, action: MonitorAction) -> bool {
    match action {
        MonitorAction::ToProducer(to, _) => state.producer == Some(to),
        MonitorAction::ToConsumer(to, _) => state.consumer == Some(to),
        _ => true,
    }
}

/// Whatever the message, only registered actors are told anything.
pub proof fn law_only_registered_actors_are_told(state: MonitorState, msg: MonitorMessage)
    ensures
        forall|i: int|
            0 <= i < state.actions_for(msg).len() ==> goes_to_registered(
                state,
                #[trigger] state.actions_for(msg)[i],
            ),
{
    match msg {
        MonitorMessage::Tick(_, report) => {
            lemma_plan_notices_registered(state, report.plans@);
        },
        _ => {},
    }
}

/// Plan notices go to the registered producer.
proof fn lemma_plan_notices_registered(state: MonitorState, plans: Seq<(PlanId, PlanStatus)>)
    ensures
        forall|i: int|
            0 <= i < state.plan_notices(plans).len() ==> goes_to_registered(
                state,
                #[trigger] state.plan_notices(plans)[i],
            ),
    decreases plans.len(),
{
    if plans.len() > 0 {
        lemma_plan_notices_registered(state, plans.drop_last());
        let earlier = state.plan_notices(plans.drop_last());
        assert forall|i: int| 0 <= i < state.plan_notices(plans).len() implies goes_to_registered(
            state,
            #[trigger] state.plan_notices(plans)[i],
        ) by {
            if i < earlier.len() {
                assert(state.plan_notices(plans)[i] == earlier[i]);
            }
        }
    }
}

/// Every submission is forwarded to the producer, before anything else, as it came.
pub proof fn law_submissions_are_forwarded(state: MonitorState, msg: UpdateSubmissionResult)
    requires
        state.producer is Some,
    ensures
        state.submission_actions(msg).len() > 0,
        state.submission_actions(msg)[0] == MonitorAction::ToProducer(
            state.producer->0,
            ProducerMessage::Submission(msg),
        ),
{
}

/// Whether an action takes a submission further.
pub open spec fn is_hand_on(action: MonitorAction) -> bool {
    action is ToConsumer || action is ToTracker
}

/// A submission is taken further exactly once, by the consumer or by the tracker, unless it was
/// never sent: then it is not taken further at all.
pub proof fn law_submission_is_handed_on_once(state: MonitorState, msg: UpdateSubmissionResult)
    ensures
        ({
            let actions = state.submission_actions(msg);
            let last = actions.len() - 1;
            &&& forall|i: int|
                0 <= i < last ==> !is_hand_on(#[trigger] actions[i])
            &&& actions.len() > 0 ==> (is_hand_on(actions[last]) <==> !(
            msg.result is InsufficientBalance))
            &&& !(msg.result is InsufficientBalance) ==> actions.len() > 0
        }),
{
}

/// A failed submission is never reported to the tracker while there is a consumer to retry it: the
/// consumer gets its signed bytes and its metadata back.
pub proof fn law_failed_submission_is_retried(state: MonitorState, msg: UpdateSubmissionResult)
    requires
        msg.result is ErrorWithRetry,
        state.consumer is Some,
    ensures
        state.submission_actions(msg).last() == MonitorAction::ToConsumer(
            state.consumer->0,
            RetryTxn { signed_bytes: msg.signed_bytes, metadata: msg.metadata },
        ),
        forall|i: int|
            0 <= i < state.submission_actions(msg).len() ==> !(
            #[trigger] state.submission_actions(msg)[i] is ToTracker),
{
}

/// Whether an action asks the producer to top up an account.
pub open spec fn is_refaucet_request(action: MonitorAction) -> bool {
    action matches MonitorAction::ToProducer(_, message) && message is RefaucetNeeded
}

/// A submission leads to a request to top up its sender exactly where balances are tracked, the
/// sender has to be topped up and there is a producer; and then to one such request.
pub proof fn law_refaucet_requested_when_due(state: MonitorState, msg: UpdateSubmissionResult)
    ensures
        ({
            let actions = state.submission_actions(msg);
            let due = state.ledger is Some && refaucet_due(state.ledger->0, msg)
                && state.producer is Some;
            &&& due ==> actions.len() > 1 && actions[1] == MonitorAction::ToProducer(
                state.producer->0,
                ProducerMessage::RefaucetNeeded(
                    RefaucetNeeded {
                        account: msg.metadata.from_account,
                        account_id: msg.metadata.from_account_id,
                    },
                ),
            )
            &&& forall|i: int|
                0 <= i < actions.len() && is_refaucet_request(#[trigger] actions[i]) ==> due && i
                    == 1
        }),
{
}

/// Balances move with receipts and initial balances only, and only initial balances make an account
/// tracked.
pub proof fn law_balances_follow_receipts(state: MonitorState, msg: MonitorMessage)
    ensures
        !(msg is InitBalances) && !(msg matches MonitorMessage::Submission(m)
            && m.result is SuccessWithReceipt) ==> state.after(msg).ledger == state.ledger,
        state.ledger is Some <==> state.after(msg).ledger is Some,
        state.ledger is Some && !(msg is InitBalances) ==> state.after(
            msg,
        ).ledger->0.balances.dom() == state.ledger->0.balances.dom(),
{
    if state.ledger is Some {
        match msg {
            MonitorMessage::Submission(m) => {
                assert(ledger_after_submission(state.ledger->0, m).balances.dom()
                    =~= state.ledger->0.balances.dom());
            },
            _ => {},
        }
    }
}

/// An account whose sender ran low is asked to be topped up, and once the receipt of the re-faucet
/// is in, it has the re-faucet amount on top of what it had left.
pub proof fn law_refaucet_round_trip(
    ledger: Ledger,
    spent: UpdateSubmissionResult,
    topped_up: UpdateSubmissionResult,
)
    requires
        spent.result is SuccessWithReceipt,
        refaucet_due(ledger, spent),
        topped_up.result is SuccessWithReceipt,
        topped_up.metadata.is_refaucet,
        topped_up.metadata.refaucet_target == Some(spent.metadata.from_account),
    ensures
        ({
            let account = spent.metadata.from_account@;
            let left = ledger_after_submission(ledger, spent);
            let full = ledger_after_submission(left, topped_up);
            &&& left.balances[account] < ledger.low_balance_threshold
            &&& full.balances[account] == (left.balances[account] + ledger.refaucet_amount)
                % u256_modulus()
        }),
{
}

/// Registering an actor replaces the one before, and nothing but a registration changes where
/// messages go, which nodes there are or the mode.
pub proof fn law_registrations_stay(state: MonitorState, msg: MonitorMessage)
    ensures
        state.after(msg).producer == (match msg {
            MonitorMessage::RegisterProducer(m) => Some(m.addr),
            _ => state.producer,
        }),
        state.after(msg).consumer == (match msg {
            MonitorMessage::RegisterConsumer(m) => Some(m.addr),
            _ => state.consumer,
        }),
        state.after(msg).clients == state.clients,
        state.after(msg).receipt_mode == state.receipt_mode,
{
}

/// Every account that was given an initial balance has it, and no other account is touched.
pub proof fn law_initial_balances(
    ledger: Ledger,
    addresses: Seq<Address>,
    balance: nat,
    address: Seq<u8>,
)
    ensures
        is_listed(addresses, address) ==> with_balances(
            ledger,
            addresses,
            balance,
        ).balances.contains_pair(address, balance),
        !is_listed(addresses, address) ==> {
            let after = with_balances(ledger, addresses, balance).balances;
            &&& after.contains_key(address) == ledger.balances.contains_key(address)
            &&& after.contains_key(address) ==> after[address] == ledger.balances[address]
        },
{
}

/// A receipt of an ordinary transaction, whether or not the transaction succeeded, takes its gas off
/// the balance of its sender, down to zero at most, and moves nothing else. A re-faucet is asked for
/// exactly where what is left is below the threshold.
pub proof fn law_receipt_charges_sender(
    state: MonitorState,
    msg: UpdateSubmissionResult,
    tx_hash: TxHash,
    gas_used: u128,
    effective_gas_price: u128,
    status: bool,
)
    requires
        state.ledger is Some,
        !msg.metadata.is_refaucet,
        msg.result == (SubmissionResult::SuccessWithReceipt {
            tx_hash,
            gas_used,
            effective_gas_price,
            status,
        }),
    ensures
        ({
            let before = state.ledger->0;
            let after = state.after(MonitorMessage::Submission(msg)).ledger->0;
            let sender = msg.metadata.from_account@;
            let cost = gas_used * effective_gas_price;
            &&& state.after(MonitorMessage::Submission(msg)).ledger is Some
            &&& forall|account: Seq<u8>| #[trigger]
                after.balances.contains_key(account) <==> before.balances.contains_key(account)
            &&& forall|account: Seq<u8>| #[trigger]
                after.balances.contains_key(account) && account != sender
                    ==> after.balances[account] == before.balances[account]
            &&& before.balances.contains_key(sender) && before.balances[sender] >= cost
                ==> after.balances[sender] == before.balances[sender] - cost
            &&& before.balances.contains_key(sender) && before.balances[sender] < cost
                ==> after.balances[sender] == 0
            &&& after.low_balance_threshold == before.low_balance_threshold
            &&& after.refaucet_amount == before.refaucet_amount
            &&& forall|to: ActorHandle, request: RefaucetNeeded| #[trigger]
                state.actions_for(MonitorMessage::Submission(msg)).contains(
                    MonitorAction::ToProducer(to, ProducerMessage::RefaucetNeeded(request)),
                ) <==> state.producer == Some(to) && request.account == msg.metadata.from_account
                    && request.account_id == msg.metadata.from_account_id
                    && before.balances.contains_key(sender) && before.balances[sender] - cost
                    < before.low_balance_threshold && (before.low_balance_threshold > 0)
        }),
{
    broadcast use vstd::seq_lib::group_seq_properties;

    assert(0 <= gas_used * effective_gas_price) by (nonlinear_arith);
    let actions = state.actions_for(MonitorMessage::Submission(msg));
    let before = state.ledger->0;
    let sender = msg.metadata.from_account@;
    let cost = gas_used * effective_gas_price;
    let due = before.balances.contains_key(sender) && before.balances[sender] - cost
        < before.low_balance_threshold && before.low_balance_threshold > 0;
    assert(refaucet_due(before, msg) == due);
    assert forall|to: ActorHandle, request: RefaucetNeeded| #[trigger]
        actions.contains(
            MonitorAction::ToProducer(to, ProducerMessage::RefaucetNeeded(request)),
        ) <==> state.producer == Some(to) && request.account == msg.metadata.from_account
            && request.account_id == msg.metadata.from_account_id && due by {
        if due && state.producer == Some(to) && request.account == msg.metadata.from_account
            && request.account_id == msg.metadata.from_account_id {
            assert(actions[1] == MonitorAction::ToProducer(
                to,
                ProducerMessage::RefaucetNeeded(request),
            ));
        }
    }
}

/// A receipt of a re-faucet, whether or not it succeeded, puts the re-faucet amount on the balance
/// of its target, modulo 2^256, and moves nothing else, not even the balance of its sender. No
/// re-faucet is asked for.
pub proof fn law_receipt_of_refaucet_credits_target(
    state: MonitorState,
    msg: UpdateSubmissionResult,
)
    requires
        state.ledger is Some,
        msg.metadata.is_refaucet,
        msg.result is SuccessWithReceipt,
    ensures
        ({
            let before = state.ledger->0;
            let after = state.after(MonitorMessage::Submission(msg)).ledger->0;
            &&& state.after(MonitorMessage::Submission(msg)).ledger is Some
            &&& forall|account: Seq<u8>| #[trigger]
                after.balances.contains_key(account) <==> before.balances.contains_key(account)
            &&& forall|account: Seq<u8>| #[trigger]
                after.balances.contains_key(account) ==> after.balances[account] == (
                if msg.metadata.refaucet_target is Some && msg.metadata.refaucet_target->0@
                    == account {
                    (before.balances[account] + before.refaucet_amount) as int
                        % 0x1_0000000000000000_0000000000000000_0000000000000000_0000000000000000int
                } else {
                    before.balances[account] as int
                })
            &&& after.low_balance_threshold == before.low_balance_threshold
            &&& after.refaucet_amount == before.refaucet_amount
            &&& forall|to: ActorHandle, request: RefaucetNeeded| !(
            #[trigger] state.actions_for(MonitorMessage::Submission(msg)).contains(
                MonitorAction::ToProducer(to, ProducerMessage::RefaucetNeeded(request)),
            ))
        }),
{
    broadcast use vstd::seq_lib::group_seq_properties;

}

/// A submission without a receipt moves no balance. It has a re-faucet asked for exactly if the
/// balance did not suffice and balances are tracked.
pub proof fn law_no_receipt_moves_nothing(state: MonitorState, msg: UpdateSubmissionResult)
    requires
        !(msg.result is SuccessWithReceipt) || state.ledger is None,
    ensures
        state.after(MonitorMessage::Submission(msg)) == state,
        forall|to: ActorHandle, request: RefaucetNeeded| #[trigger]
            state.actions_for(MonitorMessage::Submission(msg)).contains(
                MonitorAction::ToProducer(to, ProducerMessage::RefaucetNeeded(request)),
            ) <==> msg.result is InsufficientBalance && state.ledger is Some && state.producer
                == Some(to) && request.account == msg.metadata.from_account && request.account_id
                == msg.metadata.from_account_id,
{
    broadcast use vstd::seq_lib::group_seq_properties;

    let actions = state.actions_for(MonitorMessage::Submission(msg));
    assert forall|to: ActorHandle, request: RefaucetNeeded|
        msg.result is InsufficientBalance && state.ledger is Some && state.producer == Some(to)
            && request.account == msg.metadata.from_account && request.account_id
            == msg.metadata.from_account_id implies #[trigger] actions.contains(
        MonitorAction::ToProducer(to, ProducerMessage::RefaucetNeeded(request)),
    ) by {
        assert(actions[1] == MonitorAction::ToProducer(
            to,
            ProducerMessage::RefaucetNeeded(request),
        ));
    }
}

/// Who hears of a submission: the producer, if there is one, of every one of them and first; the
/// consumer of one that failed, to try it again; the tracker of every other one that was sent, and of
/// one that failed where there is no consumer. Nobody else does, and nobody twice.
pub proof fn law_who_hears_of_a_submission(state: MonitorState, msg: UpdateSubmissionResult)
    ensures
        ({
            let actions = state.actions_for(MonitorMessage::Submission(msg));
            let retried = msg.result is ErrorWithRetry && state.consumer is Some;
            let kept = !retried && !(msg.result is InsufficientBalance);
            let told: int = if state.producer is Some {
                1
            } else {
                0
            };
            let last: int = if retried || kept {
                1
            } else {
                0
            };
            &&& state.producer is Some ==> actions.len() > 0 && actions[0]
                == MonitorAction::ToProducer(state.producer->0, ProducerMessage::Submission(msg))
            &&& retried ==> actions.len() > 0 && actions[actions.len() - 1]
                == MonitorAction::ToConsumer(
                state.consumer->0,
                RetryTxn { signed_bytes: msg.signed_bytes, metadata: msg.metadata },
            )
            &&& kept ==> actions.len() > 0 && actions[actions.len() - 1]
                == MonitorAction::ToTracker(TrackerCommand::Submission(msg))
            &&& told + last <= actions.len() <= told + last + 1
            &&& forall|i: int|
                told <= i < actions.len() - last ==> (
                #[trigger] actions[i] matches MonitorAction::ToProducer(to, notice)
                    && notice is RefaucetNeeded && state.producer == Some(to))
        }),
{
}

/// What the producer is told of a plan by a tick: that it is completed, or that it has failed and
/// why.
pub open spec fn notice_of_plan(to: ActorHandle, plan: (PlanId, PlanStatus)) -> MonitorAction {
    MonitorAction::ToProducer(
        to,
        match plan.1 {
            PlanStatus::Failed { reason } => ProducerMessage::PlanFailed(
                PlanFailed { plan_id: plan.0, reason },
            ),
            _ => ProducerMessage::PlanCompleted(PlanCompleted { plan_id: plan.0 }),
        },
    )
}

/// The notices of plans are one for each plan that is not in progress, in order.
proof fn lemma_plan_notices_filtered(state: MonitorState, plans: Seq<(PlanId, PlanStatus)>)
    ensures
        state.plan_notices(plans) == (match state.producer {
            Some(to) => plans.filter(
                |plan: (PlanId, PlanStatus)| !(plan.1 is InProgress),
            ).map_values(|plan: (PlanId, PlanStatus)| notice_of_plan(to, plan)),
            None => seq![],
        }),
    decreases plans.len(),
{
    if plans.len() > 0 {
        lemma_plan_notices_filtered(state, plans.drop_last());
    }
    match state.producer {
        Some(to) => {
            lemma_kept(
                plans,
                |plan: (PlanId, PlanStatus)| !(plan.1 is InProgress),
                |plan: (PlanId, PlanStatus)| notice_of_plan(to, plan),
            );
            if plans.len() > 0 {
                let earlier = state.plan_notices(plans.drop_last());
                let (plan_id, status) = plans.last();
                if status is InProgress {
                    assert(state.plan_notices(plans) =~= earlier);
                } else {
                    assert(state.plan_notices(plans) =~= earlier.push(
                        notice_of_plan(to, plans.last()),
                    ));
                }
            }
        },
        None => {
            assert(state.plan_notices(plans) =~= seq![]);
        },
    }
}

/// What a tick leads to, whatever the number of pending transactions asks for: first the producer, if
/// there is one, is told to pause or to go on, if it has to; then sampled receipts are fetched for
/// the consumer, exactly if there are any to fetch; then the producer is told of every plan of the
/// report that has completed or failed, in order, and of no other. Nothing is remembered.
pub proof fn law_tick(state: MonitorState, tick: Tick, report: TickReport)
    ensures
        ({
            let pause: Seq<MonitorAction> = match (state.producer, report.backpressure) {
                (Some(to), BackpressureAction::Pause) => seq![
                    MonitorAction::ToProducer(to, ProducerMessage::PauseProducer),
                ],
                (Some(to), BackpressureAction::Resume) => seq![
                    MonitorAction::ToProducer(to, ProducerMessage::ResumeProducer),
                ],
                _ => seq![],
            };
            let fetch: Seq<MonitorAction> = if report.has_sampling_tasks {
                seq![MonitorAction::FetchSampledReceipts { consumer: state.consumer }]
            } else {
                seq![]
            };
            let notices: Seq<MonitorAction> = match state.producer {
                Some(to) => report.plans@.filter(
                    |plan: (PlanId, PlanStatus)| !(plan.1 is InProgress),
                ).map_values(|plan: (PlanId, PlanStatus)| notice_of_plan(to, plan)),
                None => seq![],
            };
            state.actions_for(MonitorMessage::Tick(tick, report)) == pause + fetch + notices
        }),
        state.after(MonitorMessage::Tick(tick, report)) == state,
{
    lemma_plan_notices_filtered(state, report.plans@);
    let notices = state.plan_notices(report.plans@);
    assert(state.actions_for(MonitorMessage::Tick(tick, report)) =~= state.backpressure_notice(
        report.backpressure,
    ) + (if report.has_sampling_tasks {
        seq![MonitorAction::FetchSampledReceipts { consumer: state.consumer }]
    } else {
        seq![]
    }) + notices);
}

/// Each plan of a report, at a tick: with a producer registered, it is told of the plan exactly if
/// the plan has completed or failed, with the id and the reason of the plan; and receipts are fetched
/// exactly if there are any to fetch, whatever else the report says.
pub proof fn law_tick_tells_of_each_plan(
    state: MonitorState,
    tick: Tick,
    report: TickReport,
    i: int,
)
    requires
        0 <= i < report.plans@.len(),
    ensures
        ({
            let actions = state.actions_for(MonitorMessage::Tick(tick, report));
            let (plan_id, status) = report.plans@[i];
            &&& state.producer matches Some(to) ==> {
                &&& status is Completed ==> actions.contains(
                    MonitorAction::ToProducer(
                        to,
                        ProducerMessage::PlanCompleted(PlanCompleted { plan_id }),
                    ),
                )
                &&& status matches PlanStatus::Failed { reason } ==> actions.contains(
                    MonitorAction::ToProducer(
                        to,
                        ProducerMessage::PlanFailed(PlanFailed { plan_id, reason }),
                    ),
                )
            }
            &&& actions.contains(MonitorAction::FetchSampledReceipts { consumer: state.consumer })
                <==> report.has_sampling_tasks
        }),
        forall|to: ActorHandle, done: PlanCompleted| #[trigger]
            state.actions_for(MonitorMessage::Tick(tick, report)).contains(
                MonitorAction::ToProducer(to, ProducerMessage::PlanCompleted(done)),
            ) ==> report.plans@.contains((done.plan_id, PlanStatus::Completed)),
        forall|to: ActorHandle, failed: PlanFailed| #[trigger]
            state.actions_for(MonitorMessage::Tick(tick, report)).contains(
                MonitorAction::ToProducer(to, ProducerMessage::PlanFailed(failed)),
            ) ==> report.plans@.contains(
                (failed.plan_id, PlanStatus::Failed { reason: failed.reason }),
            ),
{
    let actions = state.actions_for(MonitorMessage::Tick(tick, report));
    let notices = state.plan_notices(report.plans@);
    let first = state.backpressure_notice(report.backpressure) + (if report.has_sampling_tasks {
        seq![MonitorAction::FetchSampledReceipts { consumer: state.consumer }]
    } else {
        seq![]
    });
    assert(actions =~= first + notices);
    lemma_notices_of_plans(state, report.plans@);
    let (plan_id, status) = report.plans@[i];
    if state.producer is Some && !(status is InProgress) {
        let k = choose|k: int|
            0 <= k < notices.len() && #[trigger] notices[k] == notice_of_plan(
                state.producer->0,
                report.plans@[i],
            );
        assert(actions[first.len() + k] == notices[k]);
    }
    let fetch = MonitorAction::FetchSampledReceipts { consumer: state.consumer };
    if report.has_sampling_tasks {
        assert(actions[first.len() - 1] == fetch);
    }
    if actions.contains(fetch) {
        let k = choose|k: int| 0 <= k < actions.len() && actions[k] == fetch;
        if k >= first.len() {
            assert(actions[k] == notices[k - first.len()]);
        }
    }
    assert forall|to: ActorHandle, done: PlanCompleted| #[trigger]
        actions.contains(
            MonitorAction::ToProducer(to, ProducerMessage::PlanCompleted(done)),
        ) implies report.plans@.contains((done.plan_id, PlanStatus::Completed)) by {
        let action = MonitorAction::ToProducer(to, ProducerMessage::PlanCompleted(done));
        let k = choose|k: int| 0 <= k < actions.len() && actions[k] == action;
        assert(k >= first.len());
        assert(notices[k - first.len()] == action);
    }
    assert forall|to: ActorHandle, failed: PlanFailed| #[trigger]
        actions.contains(
            MonitorAction::ToProducer(to, ProducerMessage::PlanFailed(failed)),
        ) implies report.plans@.contains(
        (failed.plan_id, PlanStatus::Failed { reason: failed.reason }),
    ) by {
        let action = MonitorAction::ToProducer(to, ProducerMessage::PlanFailed(failed));
        let k = choose|k: int| 0 <= k < actions.len() && actions[k] == action;
        assert(k >= first.len());
        assert(notices[k - first.len()] == action);
    }
}

/// Every plan that has ended has its notice, and every notice its plan.
proof fn lemma_notices_of_plans(state: MonitorState, plans: Seq<(PlanId, PlanStatus)>)
    ensures
        state.producer is Some ==> forall|i: int|
            0 <= i < plans.len() && !((#[trigger] plans[i]).1 is InProgress) ==> exists|k: int|
                0 <= k < state.plan_notices(plans).len() && #[trigger] state.plan_notices(plans)[k]
                    == notice_of_plan(state.producer->0, plans[i]),
        forall|k: int|
            #![trigger state.plan_notices(plans)[k]]
            0 <= k < state.plan_notices(plans).len() ==> (match state.plan_notices(plans)[k] {
                MonitorAction::ToProducer(to, ProducerMessage::PlanCompleted(done)) =>
                    state.producer == Some(to) && plans.contains(
                        (done.plan_id, PlanStatus::Completed),
                    ),
                MonitorAction::ToProducer(to, ProducerMessage::PlanFailed(failed)) =>
                    state.producer == Some(to) && plans.contains(
                        (failed.plan_id, PlanStatus::Failed { reason: failed.reason }),
                    ),
                _ => false,
            }),
    decreases plans.len(),
{
    broadcast use vstd::seq_lib::group_seq_properties;

    if plans.len() > 0 {
        let shorter = plans.drop_last();
        let last = plans.len() - 1;
        let (all, earlier) = (state.plan_notices(plans), state.plan_notices(shorter));
        lemma_notices_of_plans(state, shorter);
        assert(plans[last] == plans.last());
        assert(plans.contains(plans[last]));
        if state.producer is Some {
            assert forall|i: int|
                0 <= i < plans.len() && !((#[trigger] plans[i]).1 is InProgress) implies exists|
                k: int,
            |
                0 <= k < all.len() && #[trigger] all[k] == notice_of_plan(
                    state.producer->0,
                    plans[i],
                ) by {
                if i < last {
                    assert(shorter[i] == plans[i]);
                    let k = choose|k: int|
                        0 <= k < earlier.len() && #[trigger] earlier[k] == notice_of_plan(
                            state.producer->0,
                            plans[i],
                        );
                    assert(all[k] == earlier[k]);
                } else {
                    assert(all[earlier.len() as int] == notice_of_plan(
                        state.producer->0,
                        plans[last],
                    ));
                }
            }
        }
        assert forall|k: int| #![trigger all[k]] 0 <= k < all.len() implies (match all[k] {
            MonitorAction::ToProducer(to, ProducerMessage::PlanCompleted(done)) => state.producer
                == Some(to) && plans.contains((done.plan_id, PlanStatus::Completed)),
            MonitorAction::ToProducer(to, ProducerMessage::PlanFailed(failed)) => state.producer
                == Some(to) && plans.contains(
                (failed.plan_id, PlanStatus::Failed { reason: failed.reason }),
            ),
            _ => false,
        }) by {
            if k < earlier.len() {
                assert(all[k] == earlier[k]);
                assert forall|plan: (PlanId, PlanStatus)| shorter.contains(
                    plan,
                ) implies plans.contains(plan) by {
                    let i = choose|i: int| 0 <= i < shorter.len() && shorter[i] == plan;
                    assert(plans[i] == plan);
                }
            }
        }
    }
}

/// Messages that are for the tracker reach it as they come, alone, and nothing else is done with
/// them. Registrations and initial balances lead to no action.
pub proof fn law_messages_are_passed_on(state: MonitorState, msg: MonitorMessage)
    ensures
        msg matches MonitorMessage::RegisterPlan(m) ==> state.actions_for(msg) == seq![
            MonitorAction::ToTracker(TrackerCommand::RegisterPlan(m)),
        ],
        msg matches MonitorMessage::ProduceTxns(m) ==> state.actions_for(msg) == seq![
            MonitorAction::ToTracker(TrackerCommand::ProduceTxns(m)),
        ],
        msg matches MonitorMessage::PlanProduced(m) ==> state.actions_for(msg) == seq![
            MonitorAction::ToTracker(TrackerCommand::PlanProduced(m)),
        ],
        msg matches MonitorMessage::ReportProducerStats(m) ==> state.actions_for(msg) == seq![
            MonitorAction::ToTracker(TrackerCommand::ProducerStats(m)),
        ],
        msg matches MonitorMessage::PlanFailed(m) ==> state.actions_for(msg) == seq![
            MonitorAction::ToTracker(TrackerCommand::MarkPlanFailed(m.plan_id)),
        ],
        msg is LogStats ==> state.actions_for(msg) == seq![
            MonitorAction::ToTracker(TrackerCommand::LogStats),
        ],
        msg is RegisterProducer || msg is RegisterConsumer || msg is InitBalances
            ==> state.actions_for(msg).len() == 0,
        msg matches MonitorMessage::Submission(m) ==> state.actions_for(msg)
            == state.submission_actions(m),
        msg matches MonitorMessage::Tick(_, report) ==> state.actions_for(msg)
            == state.tick_actions(report),
        msg matches MonitorMessage::RegisterProducer(m) ==> state.after(msg) == (MonitorState {
            producer: Some(m.addr),
            ..state
        }),
        msg matches MonitorMessage::RegisterConsumer(m) ==> state.after(msg) == (MonitorState {
            consumer: Some(m.addr),
            ..state
        }),
        msg is Submission || msg is InitBalances ==> state.after(msg) == (MonitorState {
            ledger: state.after(msg).ledger,
            ..state
        }),
        !(msg is RegisterProducer) && !(msg is RegisterConsumer) && !(msg is Submission) && !(
        msg is InitBalances) ==> state.after(msg) == state,
{
}

/// Initial balances: where balances are tracked, every account that is listed has the balance given,
/// whatever it had, and every other account is left as it was; so are the threshold and the
/// re-faucet amount. Where they are not tracked nothing happens.
pub proof fn law_accounts_get_initial_balances(
    state: MonitorState,
    msg: InitBalances,
    account: Seq<u8>,
)
    ensures
        ({
            let after = state.after(MonitorMessage::InitBalances(msg)).ledger;
            &&& state.ledger is None ==> after is None
            &&& state.ledger matches Some(before) ==> {
                &&& after is Some
                &&& forall|i: int|
                    0 <= i < msg.addresses@.len() ==> after->0.balances.contains_pair(
                        (#[trigger] msg.addresses@[i])@,
                        msg.balance_per_account@,
                    )
                &&& (forall|i: int|
                    0 <= i < msg.addresses@.len() ==> (#[trigger] msg.addresses@[i])@ != account)
                    ==> (after->0.balances.contains_key(account) <==> before.balances.contains_key(
                    account,
                )) && (before.balances.contains_key(account) ==> after->0.balances[account]
                    == before.balances[account])
                &&& after->0.low_balance_threshold == before.low_balance_threshold
                &&& after->0.refaucet_amount == before.refaucet_amount
            }
        }),
{
    if state.ledger is Some {
        let after = state.after(MonitorMessage::InitBalances(msg)).ledger->0;
        assert forall|i: int| 0 <= i < msg.addresses@.len() implies after.balances.contains_pair(
            (#[trigger] msg.addresses@[i])@,
            msg.balance_per_account@,
        ) by {
            assert(is_listed(msg.addresses@, msg.addresses@[i]@));
        }
    }
}

/// A URL leads to the last of the clients that have it.
pub proof fn law_last_client_of_a_url(clients: Seq<RpcClient>, i: int)
    requires
        0 <= i < clients.len(),
        forall|j: int|
            i < j < clients.len() ==> (#[trigger] clients[j]).rpc_url@ != clients[i].rpc_url@,
    ensures
        clients_by_url(clients).contains_pair(clients[i].rpc_url@, clients[i].handle),
    decreases clients.len(),
{
    if i < clients.len() - 1 {
        let shorter = clients.drop_last();
        assert(clients[clients.len() - 1].rpc_url@ != clients[i].rpc_url@);
        assert forall|j: int| i < j < shorter.len() implies (#[trigger] shorter[j]).rpc_url@
            != shorter[i].rpc_url@ by {
            assert(clients[j].rpc_url@ != clients[i].rpc_url@);
        }
        law_last_client_of_a_url(shorter, i);
    }
}

/// A URL that no client has leads nowhere.
pub proof fn law_no_client_of_a_url(clients: Seq<RpcClient>, url: Seq<char>)
    requires
        forall|i: int| 0 <= i < clients.len() ==> (#[trigger] clients[i]).rpc_url@ != url,
    ensures
        !clients_by_url(clients).contains_key(url),
    decreases clients.len(),
{
    if clients.len() > 0 {
        let shorter = clients.drop_last();
        assert(clients[clients.len() - 1].rpc_url@ != url);
        assert forall|i: int| 0 <= i < shorter.len() implies (#[trigger] shorter[i]).rpc_url@
            != url by {
            assert(clients[i].rpc_url@ != url);
        }
        law_no_client_of_a_url(shorter, url);
    }
}

/// The corrections are one for each account that the chain gave a nonce for, with that nonce, in
/// order.
pub proof fn law_corrections_of_the_answers(replies: Seq<(Address, Option<u64>)>)
    ensures
        corrections_from(replies) == replies.filter(
            |reply: (Address, Option<u64>)| reply.1 is Some,
        ).map_values(
            |reply: (Address, Option<u64>)|
                NonceCorrectionInfo { account: reply.0, expected_nonce: reply.1->0 },
        ),
    decreases replies.len(),
{
    lemma_kept(
        replies,
        |reply: (Address, Option<u64>)| reply.1 is Some,
        |reply: (Address, Option<u64>)|
            NonceCorrectionInfo { account: reply.0, expected_nonce: reply.1->0 },
    );
    if replies.len() > 0 {
        law_corrections_of_the_answers(replies.drop_last());
    }
}

} // verus!
