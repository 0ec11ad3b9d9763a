//! Block-driven receipt monitoring: which blocks and receipts to fetch, what they confirm, and
//! when to hold the producer back.
use vstd::prelude::*;

use crate::messages::{ActorHandle, ClientHandle, Nanos, TxnConfirmed};
use crate::pending::{
    add_late, confirmed, confirmed_hashes, found_hashes, is_among, is_keyed_by_hash, is_match,
    is_stuck_report, late_hashes, law_confirmations_carry_receipts, law_confirmed_if_found,
    law_confirmed_once, law_found_are_confirmed, law_last_registration_counts, law_late_and_found,
    law_matched_are_mined_and_pending, law_overdue_are_reported, law_registered_is_pending,
    law_unregistered_is_left,
    lemma_among_either, lemma_confirmed_count, lemma_found_was_asked, lemma_late_hash,
    lemma_registered_keyed, lemma_registered_only, lemma_replies_in_turn, lemma_same_bytes,
    mined_hashes, registered, BlockReply, BlockTransactions, PendingMap, PendingSet, PendingTxInfo,
    ReceiptReply, StuckTx,
};
use crate::primitives::TxHash;

verus! {

/// Above this many pending transactions the producer is held back.
pub const MAX_PENDING_TXNS: usize = 200_000;

/// Below this many pending transactions the producer is let go again.
pub const BACKPRESSURE_RESUME_THRESHOLD: usize = 160_000;

/// At most this many receipts are fetched at a time.
pub const RECEIPT_BATCH_SIZE: usize = 200;

/// Milliseconds from one round to the next.
pub const POLL_INTERVAL_MS: u64 = 200;

/// Seconds between two summaries.
pub const SUMMARY_INTERVAL_SECS: u64 = 10;

/// Stands for a channel that backpressure is signalled on.
pub type ChannelHandle = u64;

/// What the monitor is waiting for.
#[derive(Clone, Copy, Debug, PartialEq, Eq, Structural)]
pub enum Phase {
    /// To be started.
    Starting,
    /// The number of the block to start from.
    InitialBlock,
    /// The transactions that have been registered meanwhile.
    Draining,
    /// The number of the newest block.
    Head,
    /// The blocks since the last round.
    Blocks,
    /// A batch of receipts.
    Receipts,
    /// The time.
    Clock,
    /// Whether a summary is due.
    Summary,
    /// The next round.
    Sleeping,
}

/// Something the monitor has been waiting for.
#[derive(Debug)]
pub enum BlockMonitorEvent {
    Started,
    /// The number of the newest block, if it could be had.
    BlockNumber(Option<u64>),
    /// The transactions that have been registered since the last time, in their order.
    Registrations(Vec<PendingTxInfo>),
    Blocks(Vec<BlockReply>),
    /// Receipts, and the time they came.
    Receipts(Vec<(TxHash, ReceiptReply)>, Nanos),
    Time(Nanos),
    /// Whether a summary is due.
    SummaryTick(bool),
    Woken,
}

/// What has to be had for the monitor to go on.
#[derive(Debug, PartialEq, Eq)]
pub enum BlockMonitorRequest {
    BlockNumber { client: ClientHandle },
    Registrations,
    Blocks { client: ClientHandle, numbers: Vec<u64> },
    Receipts { client: ClientHandle, hashes: Vec<TxHash> },
    Time,
    SummaryTick,
    Sleep { millis: u64 },
}

/// How the last rounds went.
#[derive(Clone, Copy, Debug, PartialEq, Eq, Structural)]
pub struct Summary {
    pub pending: usize,
    /// Transactions confirmed since the last summary.
    pub confirmed: u64,
    pub last_block: u64,
}

/// The producer is to be held back from now on, or let go.
#[derive(Clone, Copy, Debug, PartialEq, Eq, Structural)]
pub struct BackpressureChange {
    /// The channel to say so on, if there is one.
    pub channel: Option<ChannelHandle>,
    pub hold: bool,
    /// The number of pending transactions that asks for it.
    pub pending: usize,
}

/// What an event leads to.
#[derive(Debug)]
pub struct Outcome {
    /// What the monitor actor is to be told.
    pub confirmations: Vec<TxnConfirmed>,
    /// The transactions to complain about.
    pub stuck: Vec<StuckTx>,
    /// Whether to hold the producer back, where that changes.
    pub backpressure: Option<BackpressureChange>,
    pub summary: Option<Summary>,
    /// What to wait for next.
    pub request: BlockMonitorRequest,
}

impl Outcome {
    /// Whether there is nothing to do but to wait.
    pub open spec fn is_quiet(self) -> bool {
        &&& self.confirmations@.len() == 0
        &&& self.stuck@.len() == 0
        &&& self.backpressure is None
        &&& self.summary is None
    }

    /// Nothing but a request.
    fn quiet(request: BlockMonitorRequest) -> (out: Outcome)
        ensures
            out.is_quiet(),
            out.request == request,
    {
        Outcome {
            confirmations: Vec::new(),
            stuck: Vec::new(),
            backpressure: None,
            summary: None,
            request,
        }
    }
}

/// The numbers of the blocks after `last`, up to and with `head`, in order.
pub open spec fn blocks_after(last: u64, head: u64) -> Seq<u64> {
    Seq::new((head - last) as nat, |i: int| (last + 1 + i) as u64)
}

/// Whether the producer is held back, given whether it was and how many transactions are pending.
pub open spec fn held_back(before: bool, pending: nat) -> bool {
    if before {
        pending >= BACKPRESSURE_RESUME_THRESHOLD
    } else {
        pending > MAX_PENDING_TXNS
    }
}

/// The size of the next batch, out of `n` receipts that are still to be fetched.
pub open spec fn batch_size(n: nat) -> nat {
    if n < RECEIPT_BATCH_SIZE {
        n
    } else {
        RECEIPT_BATCH_SIZE as nat
    }
}

/// What the block monitor remembers from one event to the next.
pub struct BlockMonitorState {
    pub monitor_addr: ActorHandle,
    pub clients: Seq<ClientHandle>,
    pub backpressure_tx: Option<ChannelHandle>,
    pub pending: PendingMap,
    pub last_seen_block: u64,
    /// Whether the producer is held back.
    pub backpressure_signaled: bool,
    /// Transactions confirmed since the last summary, up to the last round.
    pub confirmed_10s: u64,
    pub phase: Phase,
    /// The matched transactions whose receipts have not been asked for.
    pub unfetched: Seq<TxHash>,
    /// The transactions found in blocks whose receipts were not there yet. They are picked up in
    /// the next cycle.
    pub late: Seq<TxHash>,
    /// Transactions confirmed in this round.
    pub confirmed: nat,
}

impl BlockMonitorState {
    /// The state of a new block monitor.
    pub open spec fn initial(
        monitor_addr: ActorHandle,
        clients: Seq<ClientHandle>,
        backpressure_tx: Option<ChannelHandle>,
    ) -> BlockMonitorState {
        BlockMonitorState {
            monitor_addr,
            clients,
            backpressure_tx,
            pending: Map::empty(),
            last_seen_block: 0,
            backpressure_signaled: false,
            confirmed_10s: 0,
            phase: Phase::Starting,
            unfetched: seq![],
            late: seq![],
            confirmed: 0,
        }
    }

    /// Whether this is the kind of event that the monitor is waiting for.
    pub open spec fn awaits(self, event: BlockMonitorEvent) -> bool {
        match event {
            BlockMonitorEvent::Started => self.phase is Starting,
            BlockMonitorEvent::BlockNumber(_) => self.phase is InitialBlock || self.phase is Head,
            BlockMonitorEvent::Registrations(_) => self.phase is Draining,
            BlockMonitorEvent::Blocks(_) => self.phase is Blocks,
            BlockMonitorEvent::Receipts(_, _) => self.phase is Receipts,
            BlockMonitorEvent::Time(_) => self.phase is Clock,
            BlockMonitorEvent::SummaryTick(_) => self.phase is Summary,
            BlockMonitorEvent::Woken => self.phase is Sleeping,
        }
    }

    /// Whether the counter of confirmations has room for everything that is pending.
    pub open spec fn has_room(self) -> bool {
        self.confirmed_10s + self.confirmed + self.pending.len() <= u64::MAX
    }

    /// What holds of every state: transactions are pending under their own hashes, blocks are seen
    /// from the start on, only receipts are counted and batched, and only a client is waited for.
    pub open spec fn is_consistent(self) -> bool {
        &&& is_keyed_by_hash(self.pending)
        &&& self.phase is Starting || self.phase is InitialBlock ==> self.last_seen_block == 0
        &&& !(self.phase is Receipts) ==> self.unfetched.len() == 0 && self.confirmed == 0
        &&& (self.phase is InitialBlock || self.phase is Head || self.phase is Blocks
            || self.phase is Receipts) ==> self.clients.len() > 0
    }

    /// The state in another phase.
    pub open spec fn at(self, phase: Phase) -> BlockMonitorState {
        BlockMonitorState { phase, ..self }
    }

    /// The transactions to look up on an event: those of the blocks, if it brings any, and those
    /// that are late.
    pub open spec fn candidates(self, event: BlockMonitorEvent) -> Seq<TxHash> {
        match event {
            BlockMonitorEvent::Blocks(replies) => mined_hashes(replies@) + self.late,
            _ => self.late,
        }
    }

    /// Whether an event that the monitor awaits has it look transactions up: the blocks have come,
    /// or there is no new one.
    pub open spec fn looks_up_on(self, event: BlockMonitorEvent) -> bool {
        match event {
            BlockMonitorEvent::Blocks(_) => true,
            BlockMonitorEvent::BlockNumber(Some(head)) => self.phase is Head && head
                <= self.last_seen_block,
            _ => false,
        }
    }

    /// Started: the first client is asked for the block to start from, or, where there is none,
    /// the first round begins.
    pub open spec fn on_started(self, post: BlockMonitorState, out: Outcome) -> bool {
        &&& out.is_quiet()
        &&& if self.clients.len() > 0 {
            &&& post == self.at(Phase::InitialBlock)
            &&& out.request == BlockMonitorRequest::BlockNumber { client: self.clients[0] }
        } else {
            &&& post == self.at(Phase::Draining)
            &&& out.request == BlockMonitorRequest::Registrations
        }
    }

    /// The block to start from, if it could be had, is the last one seen.
    pub open spec fn on_initial_block(
        self,
        number: Option<u64>,
        post: BlockMonitorState,
        out: Outcome,
    ) -> bool {
        &&& out.is_quiet()
        &&& out.request == BlockMonitorRequest::Registrations
        &&& post == (match number {
            Some(n) => BlockMonitorState { last_seen_block: n, ..self },
            None => self,
        }).at(Phase::Draining)
    }

    /// Registered transactions are pending. Then the first client, if there is one, is asked for
    /// the newest block.
    pub open spec fn on_registrations(
        self,
        infos: Seq<PendingTxInfo>,
        post: BlockMonitorState,
        out: Outcome,
    ) -> bool {
        let filled = BlockMonitorState { pending: registered(self.pending, infos), ..self };
        &&& out.is_quiet()
        &&& if self.clients.len() > 0 {
            &&& post == filled.at(Phase::Head)
            &&& out.request == BlockMonitorRequest::BlockNumber { client: self.clients[0] }
        } else {
            &&& post == filled.at(Phase::Clock)
            &&& out.request == BlockMonitorRequest::Time
        }
    }

    /// Every block since the last one seen is fetched, if there are any. Without a new block the
    /// late receipts are asked for.
    pub open spec fn on_head(
        self,
        number: Option<u64>,
        post: BlockMonitorState,
        out: Outcome,
    ) -> bool {
        match number {
            Some(head) => if head > self.last_seen_block {
                &&& out.is_quiet()
                &&& post == (BlockMonitorState { last_seen_block: head, ..self }).at(Phase::Blocks)
                &&& out.request matches BlockMonitorRequest::Blocks { client, numbers }
                &&& client == self.clients[0]
                &&& numbers@ == blocks_after(self.last_seen_block, head)
            } else {
                self.looks_up(self.late, post, out)
            },
            None => {
                &&& out.is_quiet()
                &&& post == self.at(Phase::Clock)
                &&& out.request == BlockMonitorRequest::Time
            },
        }
    }

    /// The receipts of the first batch out of what is to be fetched are asked for; the rest waits.
    pub open spec fn fetches(
        self,
        matched: Seq<TxHash>,
        post: BlockMonitorState,
        out: Outcome,
    ) -> bool {
        &&& post == (BlockMonitorState {
            unfetched: matched.skip(batch_size(matched.len()) as int),
            ..self
        }).at(Phase::Receipts)
        &&& out.request matches BlockMonitorRequest::Receipts { client, hashes }
        &&& client == self.clients[0]
        &&& hashes@ == matched.take(batch_size(matched.len()) as int)
    }

    /// The receipts of the pending ones of `candidates` are fetched, in batches, and no
    /// transaction is late any more. The order among them is left open.
    pub open spec fn looks_up(
        self,
        candidates: Seq<TxHash>,
        post: BlockMonitorState,
        out: Outcome,
    ) -> bool {
        let cleared = BlockMonitorState { late: seq![], ..self };
        &&& out.is_quiet()
        &&& match out.request {
            BlockMonitorRequest::Receipts { client, hashes } => {
                let matched = hashes@ + post.unfetched;
                &&& is_match(self.pending, candidates, matched)
                &&& matched.len() > 0
                &&& cleared.fetches(matched, post, out)
            },
            _ => {
                &&& is_match(self.pending, candidates, seq![])
                &&& post == cleared.at(Phase::Clock)
                &&& out.request == BlockMonitorRequest::Time
            },
        }
    }

    /// The transactions of the blocks are looked up, and those that are late.
    pub open spec fn on_blocks(
        self,
        replies: Seq<BlockReply>,
        post: BlockMonitorState,
        out: Outcome,
    ) -> bool {
        self.looks_up(mined_hashes(replies) + self.late, post, out)
    }

    /// Each receipt of a pending transaction confirms it. A transaction whose receipt is not there
    /// even though it was in a block is late. With the last batch the round's confirmations are
    /// added to those since the last summary.
    pub open spec fn on_receipts(
        self,
        replies: Seq<(TxHash, ReceiptReply)>,
        now: Nanos,
        post: BlockMonitorState,
        out: Outcome,
    ) -> bool {
        let (left, confirmations) = confirmed(self.pending, replies, now);
        let counted = self.confirmed + confirmations.len();
        let taken = BlockMonitorState {
            pending: left,
            late: self.late + late_hashes(replies),
            ..self
        };
        &&& out.confirmations@ == confirmations
        &&& out.stuck@.len() == 0
        &&& out.backpressure is None
        &&& out.summary is None
        &&& if self.unfetched.len() > 0 {
            (BlockMonitorState { confirmed: counted, ..taken }).fetches(
                self.unfetched,
                post,
                out,
            )
        } else {
            &&& post == (BlockMonitorState {
                confirmed: 0,
                confirmed_10s: (self.confirmed_10s + counted) as u64,
                ..taken
            }).at(Phase::Clock)
            &&& out.request == BlockMonitorRequest::Time
        }
    }

    /// Overdue transactions are reported, and the producer is held back or let go where that
    /// changes.
    pub open spec fn on_time(self, now: Nanos, post: BlockMonitorState, out: Outcome) -> bool {
        let held = held_back(self.backpressure_signaled, self.pending.len());
        &&& is_stuck_report(self.pending, now, out.stuck@)
        &&& out.confirmations@.len() == 0
        &&& out.summary is None
        &&& out.backpressure is Some <==> held != self.backpressure_signaled
        &&& out.backpressure matches Some(change) ==> change.channel == self.backpressure_tx
            && change.hold == held && change.pending == self.pending.len()
        &&& post == (BlockMonitorState { backpressure_signaled: held, ..self }).at(Phase::Summary)
        &&& out.request == BlockMonitorRequest::SummaryTick
    }

    /// A summary, if it is due, starts the count of confirmations afresh.
    pub open spec fn on_summary_tick(
        self,
        due: bool,
        post: BlockMonitorState,
        out: Outcome,
    ) -> bool {
        &&& out.confirmations@.len() == 0
        &&& out.stuck@.len() == 0
        &&& out.backpressure is None
        &&& out.request == BlockMonitorRequest::Sleep { millis: 200 }
        &&& if due {
            &&& post == (BlockMonitorState { confirmed_10s: 0, ..self }).at(Phase::Sleeping)
            &&& out.summary matches Some(summary)
            &&& summary.pending == self.pending.len()
            &&& summary.confirmed == self.confirmed_10s
            &&& summary.last_block == self.last_seen_block
        } else {
            &&& post == self.at(Phase::Sleeping)
            &&& out.summary is None
        }
    }

    /// The next round begins.
    pub open spec fn on_woken(self, post: BlockMonitorState, out: Outcome) -> bool {
        &&& out.is_quiet()
        &&& post == self.at(Phase::Draining)
        &&& out.request == BlockMonitorRequest::Registrations
    }

    /// Whether an event can lead from this state to `post`, with `out` as its outcome.
    pub open spec fn steps_to(
        self,
        event: BlockMonitorEvent,
        post: BlockMonitorState,
        out: Outcome,
    ) -> bool {
        match event {
            BlockMonitorEvent::Started => self.on_started(post, out),
            BlockMonitorEvent::BlockNumber(number) => if self.phase is InitialBlock {
                self.on_initial_block(number, post, out)
            } else {
                self.on_head(number, post, out)
            },
            BlockMonitorEvent::Registrations(infos) => self.on_registrations(infos@, post, out),
            BlockMonitorEvent::Blocks(replies) => self.on_blocks(replies@, post, out),
            BlockMonitorEvent::Receipts(replies, now) => self.on_receipts(
                replies@,
                now,
                post,
                out,
            ),
            BlockMonitorEvent::Time(now) => self.on_time(now, post, out),
            BlockMonitorEvent::SummaryTick(due) => self.on_summary_tick(due, post, out),
            BlockMonitorEvent::Woken => self.on_woken(post, out),
        }
    }
}

/// Block-driven receipt monitor.
/// Runs as a standalone task, polling blocks and confirming receipts.
pub struct BlockMonitor {
    pending: PendingSet,
    monitor_addr: ActorHandle,
    clients: Vec<ClientHandle>,
    last_seen_block: u64,
    /// Channel to signal backpressure when pending set is too large
    backpressure_tx: Option<ChannelHandle>,
    backpressure_signaled: bool,
    confirmed_10s: u64,
    phase: Phase,
    /// The pending transactions found in the blocks of this round.
    matched: Vec<TxHash>,
    /// How many of them have had their receipts asked for.
    fetched: usize,
    /// The transactions found in blocks whose receipts were not there yet.
    late: Vec<TxHash>,
    confirmed: usize,
}

impl View for BlockMonitor {
    type V = BlockMonitorState;

    closed spec fn view(&self) -> BlockMonitorState {
        BlockMonitorState {
            monitor_addr: self.monitor_addr,
            clients: self.clients@,
            backpressure_tx: self.backpressure_tx,
            pending: self.pending@,
            last_seen_block: self.last_seen_block,
            backpressure_signaled: self.backpressure_signaled,
            confirmed_10s: self.confirmed_10s,
            phase: self.phase,
            unfetched: self.matched@.skip(self.fetched as int),
            late: self.late@,
            confirmed: self.confirmed as nat,
        }
    }
}

impl BlockMonitor {
    /// The state is consistent, and its counters are within their bounds.
    pub closed spec fn wf(&self) -> bool {
        &&& self@.is_consistent()
        &&& self.pending.wf()
        &&& self.fetched <= self.matched@.len()
        &&& self.confirmed + self.pending@.len() <= usize::MAX
    }

    /// The state of a block monitor is consistent.
    pub proof fn lemma_consistent(&self)
        requires
            self.wf(),
        ensures
            self@.is_consistent(),
            self@.pending.dom().finite(),
    {
        self.pending.lemma_bounded();
    }

    /// A block monitor that has seen no block and has no transaction pending.
    pub fn new(
        monitor_addr: ActorHandle,
        clients: Vec<ClientHandle>,
        backpressure_tx: Option<ChannelHandle>,
    ) -> (monitor: Self)
        ensures
            monitor.wf(),
            monitor@ == BlockMonitorState::initial(monitor_addr, clients@, backpressure_tx),
    {
        let monitor = BlockMonitor {
            pending: PendingSet::new(),
            monitor_addr,
            clients,
            last_seen_block: 0,
            backpressure_tx,
            backpressure_signaled: false,
            confirmed_10s: 0,
            phase: Phase::Starting,
            matched: Vec::new(),
            fetched: 0,
            late: Vec::new(),
            confirmed: 0,
        };
        assert(monitor@.unfetched =~= seq![]);
        monitor
    }

    /// The actor to tell of confirmations.
    pub fn monitor_addr(&self) -> (addr: ActorHandle)
        ensures
            addr == self@.monitor_addr,
    {
        self.monitor_addr
    }

    /// The numbers of the blocks to fetch, now that `head` is the newest.
    fn missed_blocks(&self, head: u64) -> (numbers: Vec<u64>)
        requires
            head > self@.last_seen_block,
        ensures
            numbers@ == blocks_after(self@.last_seen_block, head),
    {
        let mut numbers: Vec<u64> = Vec::new();
        let mut last: u64 = self.last_seen_block;
        while last < head
            invariant
                self.last_seen_block <= last <= head,
                numbers@ =~= blocks_after(self.last_seen_block, last),
            decreases head - last,
        {
            last = last + 1;
            numbers.push(last);
        }
        numbers
    }

    /// Takes the next batch of hashes whose receipts are to be fetched.
    fn next_batch(&mut self) -> (hashes: Vec<TxHash>)
        requires
            old(self).fetched <= old(self).matched@.len(),
        ensures
            hashes@ == old(self)@.unfetched.take(
                batch_size(old(self)@.unfetched.len()) as int,
            ),
            *final(self) == (BlockMonitor { fetched: final(self).fetched, ..*old(self) }),
            final(self).fetched == old(self).fetched + batch_size(old(self)@.unfetched.len()),
    {
        let mut hashes: Vec<TxHash> = Vec::new();
        let ghost start = self.fetched;
        while self.fetched < self.matched.len() && hashes.len() < RECEIPT_BATCH_SIZE
            invariant
                start <= self.fetched <= self.matched@.len(),
                hashes@.len() == self.fetched - start,
                hashes@.len() <= RECEIPT_BATCH_SIZE,
                hashes@ =~= self.matched@.subrange(start as int, self.fetched as int),
                *self == (BlockMonitor { fetched: self.fetched, ..*old(self) }),
                start == old(self).fetched,
            decreases self.matched@.len() - self.fetched,
        {
            hashes.push(self.matched[self.fetched]);
            self.fetched = self.fetched + 1;
        }
        hashes
    }

    /// The stuck transactions to warn of.
    pub fn check_stuck_txs(&self, now: Nanos) -> (stuck: Vec<StuckTx>)
        requires
            self.wf(),
        ensures
            is_stuck_report(self@.pending, now, stuck@),
    {
        self.pending.overdue(now)
    }

    /// Holds the producer back or lets it go, where the number of pending transactions asks for
    /// that, and returns what changes.
    fn check_backpressure(&mut self) -> (change: Option<BackpressureChange>)
        requires
            old(self).pending.wf(),
        ensures
            ({
                let before = old(self)@.backpressure_signaled;
                let held = held_back(before, old(self)@.pending.len());
                &&& *final(self) == (BlockMonitor { backpressure_signaled: held, ..*old(self) })
                &&& change is Some <==> held != before
                &&& change matches Some(c) ==> c.channel == old(self)@.backpressure_tx && c.hold
                    == held && c.pending == old(self)@.pending.len()
            }),
    {
        let pending = self.pending.len();
        if pending > MAX_PENDING_TXNS && !self.backpressure_signaled {
            self.backpressure_signaled = true;
        } else if pending < BACKPRESSURE_RESUME_THRESHOLD && self.backpressure_signaled {
            self.backpressure_signaled = false;
        } else {
            return None;
        }
        Some(
            BackpressureChange {
                channel: self.backpressure_tx,
                hold: self.backpressure_signaled,
                pending,
            },
        )
    }

    /// Whether the counter of confirmations has room for everything that is pending.
    pub fn has_room(&self) -> (r: bool)
        requires
            self.wf(),
        ensures
            r == self@.has_room(),
    {
        self.confirmed as u128 + self.pending.len() as u128
            <= (u64::MAX - self.confirmed_10s) as u128
    }

    /// Whether this is the kind of event that the monitor is waiting for.
    pub fn awaits(&self, event: &BlockMonitorEvent) -> (r: bool)
        ensures
            r == self@.awaits(*event),
    {
        match event {
            BlockMonitorEvent::Started => self.phase == Phase::Starting,
            BlockMonitorEvent::BlockNumber(_) => self.phase == Phase::InitialBlock || self.phase
                == Phase::Head,
            BlockMonitorEvent::Registrations(_) => self.phase == Phase::Draining,
            BlockMonitorEvent::Blocks(_) => self.phase == Phase::Blocks,
            BlockMonitorEvent::Receipts(_, _) => self.phase == Phase::Receipts,
            BlockMonitorEvent::Time(_) => self.phase == Phase::Clock,
            BlockMonitorEvent::SummaryTick(_) => self.phase == Phase::Summary,
            BlockMonitorEvent::Woken => self.phase == Phase::Sleeping,
        }
    }

    /// Takes up the number of the newest block.
    fn take_block_number(&mut self, number: Option<u64>) -> (out: Outcome)
        requires
            old(self).wf(),
            old(self)@.phase is InitialBlock || old(self)@.phase is Head,
        ensures
            final(self).wf(),
            old(self)@.steps_to(BlockMonitorEvent::BlockNumber(number), final(self)@, out),
    {
        if self.phase == Phase::InitialBlock {
            match number {
                Some(n) => {
                    self.last_seen_block = n;
                },
                None => {},
            }
            self.phase = Phase::Draining;
            return Outcome::quiet(BlockMonitorRequest::Registrations);
        }
        match number {
            Some(head) => {
                if head > self.last_seen_block {
                    let numbers = self.missed_blocks(head);
                    self.last_seen_block = head;
                    self.phase = Phase::Blocks;
                    Outcome::quiet(
                        BlockMonitorRequest::Blocks { client: self.clients[0], numbers },
                    )
                } else {
                    let no_blocks: Vec<BlockReply> = Vec::new();
                    proof {
                        assert(mined_hashes(no_blocks@) + self@.late =~= self@.late);
                    }
                    self.look_up(&no_blocks)
                }
            },
            None => {
                self.phase = Phase::Clock;
                Outcome::quiet(BlockMonitorRequest::Time)
            },
        }
    }

    /// Asks for the first receipts of the pending transactions among those of the blocks and the
    /// late ones.
    fn look_up(&mut self, replies: &Vec<BlockReply>) -> (out: Outcome)
        requires
            old(self).wf(),
            old(self)@.phase is Head || old(self)@.phase is Blocks,
        ensures
            final(self).wf(),
            old(self)@.looks_up(mined_hashes(replies@) + old(self)@.late, final(self)@, out),
    {
        let matched = self.pending.match_blocks(replies, &self.late);
        let ghost all = matched@;
        self.late = Vec::new();
        if matched.len() == 0 {
            assert(matched@ =~= seq![]);
            self.phase = Phase::Clock;
            return Outcome::quiet(BlockMonitorRequest::Time);
        }
        self.matched = matched;
        self.fetched = 0;
        self.phase = Phase::Receipts;
        assert(self@.unfetched =~= all);
        let hashes = self.next_batch();
        let out = Outcome::quiet(BlockMonitorRequest::Receipts { client: self.clients[0], hashes });
        proof {
            assert(self@.unfetched =~= all.skip(batch_size(all.len()) as int));
            assert(hashes@ + self@.unfetched =~= all);
        }
        out
    }

    /// Fetch new blocks, cross-reference with pending set, confirm receipts: takes up a batch of
    /// receipts.
    fn take_receipts(&mut self, replies: &Vec<(TxHash, ReceiptReply)>, now: Nanos) -> (out: Outcome)
        requires
            old(self).wf(),
            old(self)@.phase is Receipts,
            old(self)@.has_room(),
        ensures
            final(self).wf(),
            old(self)@.on_receipts(replies@, now, final(self)@, out),
    {
        let ghost before = self@;
        proof {
            self.pending.lemma_bounded();
            lemma_confirmed_count(before.pending, replies@, now);
        }
        let confirmations = self.pending.confirm(replies, now);
        proof {
            self.pending.lemma_bounded();
        }
        // A receipt can be missing even though the transaction was in a block, due to race
        // conditions; the transaction is picked up in the next cycle.
        add_late(replies, &mut self.late);
        self.confirmed = self.confirmed + confirmations.len();
        if self.fetched < self.matched.len() {
            let hashes = self.next_batch();
            assert(self@.unfetched =~= before.unfetched.skip(
                batch_size(before.unfetched.len()) as int,
            ));
            Outcome {
                confirmations,
                ..Outcome::quiet(BlockMonitorRequest::Receipts { client: self.clients[0], hashes })
            }
        } else {
            self.confirmed_10s = self.confirmed_10s + self.confirmed as u64;
            self.confirmed = 0;
            self.phase = Phase::Clock;
            Outcome { confirmations, ..Outcome::quiet(BlockMonitorRequest::Time) }
        }
    }

    /// Main loop: poll blocks, match pending txs, confirm receipts. Takes up an event that was
    /// waited for, and says what to do and what to wait for next.
    pub fn step(&mut self, event: BlockMonitorEvent) -> (out: Outcome)
        requires
            old(self).wf(),
            old(self)@.awaits(event),
            event is Receipts ==> old(self)@.has_room(),
        ensures
            final(self).wf(),
            old(self)@.steps_to(event, final(self)@, out),
    {
        match event {
            BlockMonitorEvent::Started => {
                if self.clients.len() > 0 {
                    self.phase = Phase::InitialBlock;
                    Outcome::quiet(BlockMonitorRequest::BlockNumber { client: self.clients[0] })
                } else {
                    self.phase = Phase::Draining;
                    Outcome::quiet(BlockMonitorRequest::Registrations)
                }
            },
            BlockMonitorEvent::BlockNumber(number) => self.take_block_number(number),
            BlockMonitorEvent::Registrations(infos) => {
                self.pending.register(infos);
                proof {
                    self.pending.lemma_bounded();
                }
                if self.clients.len() > 0 {
                    self.phase = Phase::Head;
                    Outcome::quiet(BlockMonitorRequest::BlockNumber { client: self.clients[0] })
                } else {
                    self.phase = Phase::Clock;
                    Outcome::quiet(BlockMonitorRequest::Time)
                }
            },
            BlockMonitorEvent::Blocks(replies) => self.look_up(&replies),
            BlockMonitorEvent::Receipts(replies, now) => self.take_receipts(&replies, now),
            BlockMonitorEvent::Time(now) => {
                let stuck = self.check_stuck_txs(now);
                let backpressure = self.check_backpressure();
                self.phase = Phase::Summary;
                Outcome {
                    stuck,
                    backpressure,
                    ..Outcome::quiet(BlockMonitorRequest::SummaryTick)
                }
            },
            BlockMonitorEvent::SummaryTick(due) => {
                let summary = if due {
                    Some(
                        Summary {
                            pending: self.pending.len(),
                            confirmed: self.confirmed_10s,
                            last_block: self.last_seen_block,
                        },
                    )
                } else {
                    None
                };
                if due {
                    self.confirmed_10s = 0;
                }
                self.phase = Phase::Sleeping;
                Outcome {
                    summary,
                    ..Outcome::quiet(BlockMonitorRequest::Sleep { millis: POLL_INTERVAL_MS })
                }
            },
            BlockMonitorEvent::Woken => {
                self.phase = Phase::Draining;
                Outcome::quiet(BlockMonitorRequest::Registrations)
            },
        }
    }
}

/// A new block monitor is in a consistent state, and every event leads from one to another.
pub proof fn law_consistency_is_kept(
    pre: BlockMonitorState,
    event: BlockMonitorEvent,
    post: BlockMonitorState,
    out: Outcome,
)
    requires
        pre.is_consistent(),
        pre.awaits(event),
        pre.steps_to(event, post, out),
    ensures
        BlockMonitorState::initial(
            pre.monitor_addr,
            pre.clients,
            pre.backpressure_tx,
        ).is_consistent(),
        post.is_consistent(),
        post.monitor_addr == pre.monitor_addr,
        post.clients == pre.clients,
        post.backpressure_tx == pre.backpressure_tx,
{
    match event {
        BlockMonitorEvent::Registrations(infos) => {
            lemma_registered_keyed(pre.pending, infos@);
        },
        BlockMonitorEvent::Receipts(replies, now) => {
            law_confirmed_once(pre.pending, replies@, now);
        },
        _ => {},
    }
}

/// Fetching up to one block and then up to a later one fetches every block in between once.
pub proof fn law_blocks_fetched_once(last: u64, head: u64, later: u64)
    requires
        last <= head <= later,
    ensures
        blocks_after(last, head) + blocks_after(head, later) == blocks_after(last, later),
        blocks_after(last, head).no_duplicates(),
        forall|n: u64| #[trigger] blocks_after(last, head).contains(n) <==> last < n <= head,
{
    assert(blocks_after(last, head) + blocks_after(head, later) =~= blocks_after(last, later));
    assert forall|n: u64| #[trigger]
        blocks_after(last, head).contains(n) <==> last < n <= head by {
        if last < n <= head {
            assert(blocks_after(last, head)[n - last - 1] == n);
        }
    }
}

/// The producer is held back whenever more than the maximum is pending and let go whenever less
/// than the resume threshold is; in between nothing changes.
pub proof fn law_backpressure_hysteresis(before: bool, pending: nat)
    ensures
        pending > MAX_PENDING_TXNS ==> held_back(before, pending),
        pending < BACKPRESSURE_RESUME_THRESHOLD ==> !held_back(before, pending),
        BACKPRESSURE_RESUME_THRESHOLD <= pending <= MAX_PENDING_TXNS ==> held_back(
            before,
            pending,
        ) == before,
{
}

/// A signal is given on a change only, and says what the state is now: so no two signals in a row
/// say the same.
pub proof fn law_signals_alternate(
    pre: BlockMonitorState,
    event: BlockMonitorEvent,
    post: BlockMonitorState,
    out: Outcome,
)
    requires
        pre.awaits(event),
        pre.steps_to(event, post, out),
    ensures
        out.backpressure matches Some(change) ==> change.channel == pre.backpressure_tx
            && change.hold == post.backpressure_signaled && change.hold
            != pre.backpressure_signaled,
        out.backpressure is None ==> post.backpressure_signaled == pre.backpressure_signaled,
{
}

/// The last block seen never goes back, and once the monitor has its block to start from, it moves
/// only as the blocks up to it are asked for.
pub proof fn law_last_seen_block_grows(
    pre: BlockMonitorState,
    event: BlockMonitorEvent,
    post: BlockMonitorState,
    out: Outcome,
)
    requires
        pre.is_consistent(),
        pre.awaits(event),
        pre.steps_to(event, post, out),
    ensures
        pre.last_seen_block <= post.last_seen_block,
        out.request matches BlockMonitorRequest::Blocks { client, numbers } ==> numbers@
            == blocks_after(pre.last_seen_block, post.last_seen_block),
        !(out.request is Blocks) && !(pre.phase is InitialBlock) ==> pre.last_seen_block
            == post.last_seen_block,
{
}

/// A pending transaction stays pending until it is confirmed.
pub proof fn law_pending_until_confirmed(
    pre: BlockMonitorState,
    event: BlockMonitorEvent,
    post: BlockMonitorState,
    out: Outcome,
    hash: Seq<u8>,
)
    requires
        pre.is_consistent(),
        pre.awaits(event),
        pre.steps_to(event, post, out),
        pre.pending.contains_key(hash),
    ensures
        post.pending.contains_key(hash) || exists|i: int|
            0 <= i < out.confirmations@.len() && (#[trigger] out.confirmations@[i]).tx_hash@
                == hash,
{
    match event {
        BlockMonitorEvent::Registrations(infos) => {
            law_registered_is_pending(pre.pending, infos@);
        },
        BlockMonitorEvent::Receipts(replies, now) => {
            law_confirmed_once(pre.pending, replies@, now);
        },
        _ => {},
    }
}

/// A confirmation is of a transaction that was pending and is so no longer, and a transaction that
/// becomes pending has been registered.
pub proof fn law_confirmed_was_pending(
    pre: BlockMonitorState,
    event: BlockMonitorEvent,
    post: BlockMonitorState,
    out: Outcome,
)
    requires
        pre.is_consistent(),
        pre.awaits(event),
        pre.steps_to(event, post, out),
    ensures
        forall|i: int|
            0 <= i < out.confirmations@.len() ==> pre.pending.contains_key(
                (#[trigger] out.confirmations@[i]).tx_hash@,
            ) && !post.pending.contains_key(out.confirmations@[i].tx_hash@),
        !(event is Registrations) ==> post.pending.dom().subset_of(pre.pending.dom()),
{
    match event {
        BlockMonitorEvent::Receipts(replies, now) => {
            law_confirmed_once(pre.pending, replies@, now);
        },
        _ => {},
    }
}

/// Receipts are asked for in batches that are neither empty nor too large, and what has not been
/// asked for yet is kept, in order.
pub proof fn law_batches(
    pre: BlockMonitorState,
    event: BlockMonitorEvent,
    post: BlockMonitorState,
    out: Outcome,
)
    requires
        pre.awaits(event),
        pre.steps_to(event, post, out),
    ensures
        out.request matches BlockMonitorRequest::Receipts { client, hashes } ==> 0 < hashes@.len()
            <= RECEIPT_BATCH_SIZE && (event is Receipts ==> hashes@ + post.unfetched
            == pre.unfetched) && (!(event is Receipts) ==> is_match(
            pre.pending,
            pre.candidates(event),
            hashes@ + post.unfetched,
        )),
{
    if out.request is Receipts {
        let hashes = out.request->Receipts_hashes@;
        match event {
            BlockMonitorEvent::Receipts(_, _) => {
                assert(hashes + post.unfetched =~= pre.unfetched);
            },
            _ => {},
        }
    }
}

/// Whether an outcome asks for the receipt of a transaction, at once or in a later batch.
pub open spec fn asks_for(post: BlockMonitorState, out: Outcome, hash: TxHash) -> bool {
    out.request matches BlockMonitorRequest::Receipts { client, hashes } && (hashes@
        + post.unfetched).contains(hash)
}

/// A pending transaction that is late is asked for again as soon as the monitor looks transactions
/// up, whether or not there is a new block, and whether or not a new block holds it. Until then it
/// stays late.
pub proof fn law_late_is_asked_for(
    pre: BlockMonitorState,
    event: BlockMonitorEvent,
    post: BlockMonitorState,
    out: Outcome,
    hash: TxHash,
)
    requires
        pre.awaits(event),
        pre.steps_to(event, post, out),
        pre.late.contains(hash),
        pre.pending.contains_key(hash@),
    ensures
        pre.looks_up_on(event) ==> asks_for(post, out, hash),
        !pre.looks_up_on(event) ==> post.late.contains(hash),
{
    broadcast use vstd::seq_lib::group_seq_properties;

    if pre.looks_up_on(event) {
        assert(pre.candidates(event).contains(hash));
        if out.request is Receipts {
            let matched = out.request->Receipts_hashes@ + post.unfetched;
            assert(matched.contains(hash));
        } else {
            assert(Seq::<TxHash>::empty().contains(hash));
        }
    }
}

/// A receipt that is not there makes its transaction late.
pub proof fn law_missing_receipt_is_late(
    pre: BlockMonitorState,
    replies: Vec<(TxHash, ReceiptReply)>,
    now: Nanos,
    post: BlockMonitorState,
    out: Outcome,
    i: int,
)
    requires
        pre.steps_to(BlockMonitorEvent::Receipts(replies, now), post, out),
        0 <= i < replies@.len(),
        replies@[i].1 is NotFound,
    ensures
        post.late.contains(replies@[i].0),
{
    broadcast use vstd::seq_lib::group_seq_properties;

    lemma_late_hash(replies@, i);
}

/// Whether an event is an answer to a request.
pub open spec fn answers(request: BlockMonitorRequest, event: BlockMonitorEvent) -> bool {
    match request {
        BlockMonitorRequest::BlockNumber { .. } => event is BlockNumber,
        BlockMonitorRequest::Registrations => event is Registrations,
        BlockMonitorRequest::Blocks { .. } => event is Blocks,
        BlockMonitorRequest::Receipts { .. } => event is Receipts,
        BlockMonitorRequest::Time => event is Time,
        BlockMonitorRequest::SummaryTick => event is SummaryTick,
        BlockMonitorRequest::Sleep { .. } => event is Woken,
    }
}

/// The monitor waits for what it has asked for: any answer to its request is what it awaits next.
pub proof fn law_request_is_awaited(
    pre: BlockMonitorState,
    event: BlockMonitorEvent,
    post: BlockMonitorState,
    out: Outcome,
    next: BlockMonitorEvent,
)
    requires
        pre.awaits(event),
        pre.steps_to(event, post, out),
        answers(out.request, next),
    ensures
        post.awaits(next),
{
}

/// Whether a block monitor goes through `states` as it takes up `events`, with `outs` as their
/// outcomes.
pub open spec fn is_run(
    states: Seq<BlockMonitorState>,
    events: Seq<BlockMonitorEvent>,
    outs: Seq<Outcome>,
) -> bool {
    &&& states.len() == events.len() + 1
    &&& outs.len() == events.len()
    &&& states[0].is_consistent()
    &&& forall|i: int|
        0 <= i < events.len() ==> states[i].awaits(#[trigger] events[i]) && states[i].steps_to(
            events[i],
            states[i + 1],
            outs[i],
        )
}

/// Between two states of a run the state stays consistent, the channel stays the same, and the last
/// block seen does not go back.
proof fn lemma_run_keeps(
    states: Seq<BlockMonitorState>,
    events: Seq<BlockMonitorEvent>,
    outs: Seq<Outcome>,
    i: int,
    j: int,
)
    requires
        is_run(states, events, outs),
        0 <= i <= j < states.len(),
    ensures
        states[i].is_consistent(),
        states[j].is_consistent(),
        states[j].backpressure_tx == states[i].backpressure_tx,
        states[i].last_seen_block <= states[j].last_seen_block,
    decreases j,
{
    if j > 0 {
        let event = events[j - 1];
        lemma_run_keeps(states, events, outs, if i < j { i } else { j - 1 }, j - 1);
        law_consistency_is_kept(states[j - 1], event, states[j], outs[j - 1]);
        law_last_seen_block_grows(states[j - 1], event, states[j], outs[j - 1]);
    }
}

/// Whether the producer is held back stays the same while nothing is signalled.
proof fn lemma_quiet_signal(
    states: Seq<BlockMonitorState>,
    events: Seq<BlockMonitorEvent>,
    outs: Seq<Outcome>,
    i: int,
    j: int,
)
    requires
        is_run(states, events, outs),
        0 <= i <= j < states.len(),
        forall|k: int| i <= k < j ==> (#[trigger] outs[k]).backpressure is None,
    ensures
        states[j].backpressure_signaled == states[i].backpressure_signaled,
    decreases j - i,
{
    if i < j {
        lemma_quiet_signal(states, events, outs, i, j - 1);
        lemma_run_keeps(states, events, outs, 0, j - 1);
        law_signals_alternate(states[j - 1], events[j - 1], states[j], outs[j - 1]);
    }
}

/// Over a whole run the signals alternate: one that holds the producer back is followed by one that
/// lets it go, and the other way round.
pub proof fn law_run_signals_alternate(
    states: Seq<BlockMonitorState>,
    events: Seq<BlockMonitorEvent>,
    outs: Seq<Outcome>,
    i: int,
    j: int,
)
    requires
        is_run(states, events, outs),
        0 <= i < j < outs.len(),
        outs[i].backpressure is Some,
        outs[j].backpressure is Some,
        forall|k: int| i < k < j ==> (#[trigger] outs[k]).backpressure is None,
    ensures
        outs[i].backpressure->0.hold != outs[j].backpressure->0.hold,
{
    lemma_run_keeps(states, events, outs, 0, i);
    law_signals_alternate(states[i], events[i], states[i + 1], outs[i]);
    lemma_quiet_signal(states, events, outs, i + 1, j);
    law_signals_alternate(states[j], events[j], states[j + 1], outs[j]);
}

/// The first signal of a run that begins with the producer let go, as with a new monitor, holds it
/// back.
pub proof fn law_run_first_signal_holds_back(
    states: Seq<BlockMonitorState>,
    events: Seq<BlockMonitorEvent>,
    outs: Seq<Outcome>,
    i: int,
)
    requires
        is_run(states, events, outs),
        !states[0].backpressure_signaled,
        0 <= i < outs.len(),
        outs[i].backpressure is Some,
        forall|k: int| 0 <= k < i ==> (#[trigger] outs[k]).backpressure is None,
    ensures
        outs[i].backpressure->0.hold,
        !BlockMonitorState::initial(
            states[0].monitor_addr,
            states[0].clients,
            states[0].backpressure_tx,
        ).backpressure_signaled,
{
    lemma_quiet_signal(states, events, outs, 0, i);
    law_signals_alternate(states[i], events[i], states[i + 1], outs[i]);
}

/// The numbers of the blocks that the outcomes before `n` ask for, in order.
pub open spec fn blocks_asked(outs: Seq<Outcome>, n: int) -> Seq<u64>
    decreases n,
{
    if n <= 0 {
        seq![]
    } else {
        let earlier = blocks_asked(outs, n - 1);
        match outs[n - 1].request {
            BlockMonitorRequest::Blocks { client, numbers } => earlier + numbers@,
            _ => earlier,
        }
    }
}

/// Once the monitor has its block to start from, it asks over a whole run for every block after
/// that up to the last one seen, in order: none is skipped, and none is asked for twice.
pub proof fn law_run_fetches_every_block(
    states: Seq<BlockMonitorState>,
    events: Seq<BlockMonitorEvent>,
    outs: Seq<Outcome>,
    n: int,
)
    requires
        is_run(states, events, outs),
        !(states[0].phase is Starting) && !(states[0].phase is InitialBlock),
        0 <= n < states.len(),
    ensures
        blocks_asked(outs, n) == blocks_after(
            states[0].last_seen_block,
            states[n].last_seen_block,
        ),
        !(states[n].phase is Starting) && !(states[n].phase is InitialBlock),
    decreases n,
{
    let start = states[0].last_seen_block;
    if n == 0 {
        assert(blocks_asked(outs, n) =~= blocks_after(start, start));
    } else {
        let (pre, post) = (states[n - 1], states[n]);
        law_run_fetches_every_block(states, events, outs, n - 1);
        lemma_run_keeps(states, events, outs, 0, n - 1);
        assert(pre.awaits(events[n - 1]) && pre.steps_to(events[n - 1], post, outs[n - 1]));
        law_last_seen_block_grows(pre, events[n - 1], post, outs[n - 1]);
        law_blocks_fetched_once(start, pre.last_seen_block, post.last_seen_block);
    }
}

/// Over a whole run no block is asked for twice.
pub proof fn law_run_fetches_blocks_once(
    states: Seq<BlockMonitorState>,
    events: Seq<BlockMonitorEvent>,
    outs: Seq<Outcome>,
    i: int,
    j: int,
    number: u64,
)
    requires
        is_run(states, events, outs),
        0 <= i < j < outs.len(),
        outs[i].request is Blocks,
        outs[j].request is Blocks,
    ensures
        !(outs[i].request->Blocks_numbers@.contains(number)
            && outs[j].request->Blocks_numbers@.contains(number)),
{
    lemma_run_keeps(states, events, outs, i, i + 1);
    lemma_run_keeps(states, events, outs, i + 1, j);
    lemma_run_keeps(states, events, outs, j, j + 1);
    law_last_seen_block_grows(states[i], events[i], states[i + 1], outs[i]);
    law_last_seen_block_grows(states[j], events[j], states[j + 1], outs[j]);
    law_blocks_fetched_once(
        states[i].last_seen_block,
        states[i + 1].last_seen_block,
        states[i + 1].last_seen_block,
    );
    law_blocks_fetched_once(
        states[j].last_seen_block,
        states[j + 1].last_seen_block,
        states[j + 1].last_seen_block,
    );
}

/// Between two states of a run a late transaction stays so while nothing is looked up and it is
/// pending.
proof fn lemma_late_until_looked_up(
    states: Seq<BlockMonitorState>,
    events: Seq<BlockMonitorEvent>,
    outs: Seq<Outcome>,
    i: int,
    j: int,
    hash: TxHash,
)
    requires
        is_run(states, events, outs),
        0 <= i <= j < states.len(),
        states[i].late.contains(hash),
        forall|k: int| i <= k < j ==> !states[k].looks_up_on(#[trigger] events[k]),
        forall|k: int| i <= k < j ==> (#[trigger] states[k]).pending.contains_key(hash@),
    ensures
        states[j].late.contains(hash),
    decreases j - i,
{
    if i < j {
        lemma_late_until_looked_up(states, events, outs, i, j - 1, hash);
        assert(states[j - 1].pending.contains_key(hash@));
        assert(!states[j - 1].looks_up_on(events[j - 1]));
        law_late_is_asked_for(states[j - 1], events[j - 1], states[j], outs[j - 1], hash);
    }
}

/// Over a whole run a transaction whose receipt was not there is picked up in the next cycle: as
/// soon as the monitor looks transactions up again, it asks for that receipt, if the transaction
/// has been pending all along.
pub proof fn law_run_late_is_picked_up(
    states: Seq<BlockMonitorState>,
    events: Seq<BlockMonitorEvent>,
    outs: Seq<Outcome>,
    i: int,
    j: int,
    m: int,
)
    requires
        is_run(states, events, outs),
        0 <= i < j < outs.len(),
        events[i] is Receipts,
        0 <= m < events[i]->Receipts_0@.len(),
        events[i]->Receipts_0@[m].1 is NotFound,
        forall|k: int|
            i < k <= j ==> (#[trigger] states[k]).pending.contains_key(
                events[i]->Receipts_0@[m].0@,
            ),
        forall|k: int| i < k < j ==> !states[k].looks_up_on(#[trigger] events[k]),
        states[j].looks_up_on(events[j]),
    ensures
        asks_for(states[j + 1], outs[j], events[i]->Receipts_0@[m].0),
{
    let hash = events[i]->Receipts_0@[m].0;
    law_missing_receipt_is_late(
        states[i],
        events[i]->Receipts_0,
        events[i]->Receipts_1,
        states[i + 1],
        outs[i],
        m,
    );
    lemma_late_until_looked_up(states, events, outs, i + 1, j, hash);
    assert(states[j].pending.contains_key(hash@));
    law_late_is_asked_for(states[j], events[j], states[j + 1], outs[j], hash);
}

/// Whether an event registers a transaction with the hash.
pub open spec fn registers(event: BlockMonitorEvent, hash: Seq<u8>) -> bool {
    event matches BlockMonitorEvent::Registrations(infos) && exists|i: int|
        0 <= i < infos@.len() && (#[trigger] infos@[i]).tx_hash@ == hash
}

/// Whether an outcome confirms the transaction with the hash.
pub open spec fn confirms(out: Outcome, hash: Seq<u8>) -> bool {
    exists|i: int|
        0 <= i < out.confirmations@.len() && (#[trigger] out.confirmations@[i]).tx_hash@ == hash
}

/// A transaction that is not pending stays so until it is registered.
proof fn lemma_absent_until_registered(
    states: Seq<BlockMonitorState>,
    events: Seq<BlockMonitorEvent>,
    outs: Seq<Outcome>,
    i: int,
    j: int,
    hash: Seq<u8>,
)
    requires
        is_run(states, events, outs),
        0 <= i <= j < states.len(),
        !states[i].pending.contains_key(hash),
        forall|k: int| i <= k < j ==> !registers(#[trigger] events[k], hash),
    ensures
        !states[j].pending.contains_key(hash),
    decreases j - i,
{
    if i < j {
        let event = events[j - 1];
        lemma_absent_until_registered(states, events, outs, i, j - 1, hash);
        lemma_run_keeps(states, events, outs, 0, j - 1);
        match event {
            BlockMonitorEvent::Registrations(infos) => {
                assert(!registers(event, hash));
                if states[j].pending.contains_key(hash) {
                    lemma_registered_only(states[j - 1].pending, infos@, hash);
                }
            },
            _ => {
                law_confirmed_was_pending(states[j - 1], event, states[j], outs[j - 1]);
            },
        }
    }
}

/// Over a whole run a transaction is confirmed once for each time that it is registered: between
/// two confirmations of one hash the hash is registered again.
pub proof fn law_run_confirms_once(
    states: Seq<BlockMonitorState>,
    events: Seq<BlockMonitorEvent>,
    outs: Seq<Outcome>,
    i: int,
    j: int,
    hash: Seq<u8>,
)
    requires
        is_run(states, events, outs),
        0 <= i < j < outs.len(),
        confirms(outs[i], hash),
        confirms(outs[j], hash),
    ensures
        exists|k: int| i < k < j && registers(#[trigger] events[k], hash),
{
    lemma_run_keeps(states, events, outs, 0, i);
    lemma_run_keeps(states, events, outs, 0, j);
    law_confirmed_was_pending(states[i], events[i], states[i + 1], outs[i]);
    law_confirmed_was_pending(states[j], events[j], states[j + 1], outs[j]);
    if forall|k: int| i < k < j ==> !registers(#[trigger] events[k], hash) {
        lemma_absent_until_registered(states, events, outs, i + 1, j, hash);
    }
}

/// The hashes that the outcomes from `i` up to `j`, exclusive, ask the receipts of, in order.
pub open spec fn asked(outs: Seq<Outcome>, i: int, j: int) -> Seq<TxHash>
    decreases j - i,
{
    if j <= i {
        seq![]
    } else {
        asked(outs, i, j - 1) + outs[j - 1].request->Receipts_hashes@
    }
}

/// The replies that the events from `i` up to `j`, exclusive, bring, in order.
pub open spec fn replied(events: Seq<BlockMonitorEvent>, i: int, j: int) -> Seq<
    (TxHash, ReceiptReply),
>
    decreases j - i,
{
    if j <= i {
        seq![]
    } else {
        replied(events, i, j - 1) + events[j - 1]->Receipts_0@
    }
}

/// The confirmations of the outcomes from `i` up to `j`, exclusive, in order.
pub open spec fn confirmations(outs: Seq<Outcome>, i: int, j: int) -> Seq<TxnConfirmed>
    decreases j - i,
{
    if j <= i {
        seq![]
    } else {
        confirmations(outs, i, j - 1) + outs[j - 1].confirmations@
    }
}

/// Whether `replies` are to `hashes`, one by one.
pub open spec fn replies_to(hashes: Seq<TxHash>, replies: Seq<(TxHash, ReceiptReply)>) -> bool {
    &&& replies.len() == hashes.len()
    &&& forall|i: int| 0 <= i < hashes.len() ==> (#[trigger] replies[i]).0 == hashes[i]
}

/// Whether the events of a run from `i` to `j` are one round of receipts: at `i` transactions are
/// looked up, each event after that brings the receipts that were asked for, and at `j` there is
/// nothing more to ask for.
pub open spec fn is_receipt_round(
    states: Seq<BlockMonitorState>,
    events: Seq<BlockMonitorEvent>,
    outs: Seq<Outcome>,
    i: int,
    j: int,
) -> bool {
    &&& is_run(states, events, outs)
    &&& 0 <= i < j < outs.len()
    &&& states[i].looks_up_on(events[i])
    &&& forall|k: int| i <= k < j ==> (#[trigger] outs[k]).request is Receipts
    &&& !(outs[j].request is Receipts)
    &&& forall|k: int|
        i < k <= j ==> (#[trigger] events[k]) is Receipts && replies_to(
            outs[k - 1].request->Receipts_hashes@,
            events[k]->Receipts_0@,
        )
}

/// What holds in the midst of a round of receipts, once the events before `n` have been taken up.
spec fn round_so_far(
    states: Seq<BlockMonitorState>,
    events: Seq<BlockMonitorEvent>,
    outs: Seq<Outcome>,
    i: int,
    n: int,
) -> bool {
    let replies = replied(events, i + 1, n);
    &&& is_keyed_by_hash(states[n].pending)
    &&& forall|hash: Seq<u8>| #[trigger]
        states[n].pending.contains_key(hash) <==> states[i].pending.contains_key(hash)
            && !is_among(found_hashes(replies), hash)
    &&& confirmed_hashes(confirmations(outs, i + 1, n)) == found_hashes(replies)
    &&& states[n].late == late_hashes(replies)
    &&& replies_to(asked(outs, i, n - 1), replies)
}

/// A round of receipts begins with nothing replied, and with everything that is to be asked for
/// asked for or left for later.
proof fn lemma_round_begins(
    states: Seq<BlockMonitorState>,
    events: Seq<BlockMonitorEvent>,
    outs: Seq<Outcome>,
    i: int,
    j: int,
)
    requires
        is_receipt_round(states, events, outs, i, j),
    ensures
        round_so_far(states, events, outs, i, i + 1),
        is_match(
            states[i].pending,
            states[i].candidates(events[i]),
            asked(outs, i, i + 1) + states[i + 1].unfetched,
        ),
{
    lemma_run_keeps(states, events, outs, i, i + 1);
    assert(states[i].steps_to(events[i], states[i + 1], outs[i]));
    assert(outs[i].request is Receipts);
    assert(asked(outs, i, i) =~= seq![]);
    assert(asked(outs, i, i + 1) =~= outs[i].request->Receipts_hashes@);
    assert(replied(events, i + 1, i + 1) =~= seq![]);
    assert(confirmed_hashes(confirmations(outs, i + 1, i + 1)) =~= seq![]);
}

/// A batch of receipts keeps what holds in the midst of a round, and is followed by the next batch,
/// if there is one.
proof fn lemma_round_goes_on(
    states: Seq<BlockMonitorState>,
    events: Seq<BlockMonitorEvent>,
    outs: Seq<Outcome>,
    i: int,
    j: int,
    n: int,
    all: Seq<TxHash>,
)
    requires
        is_receipt_round(states, events, outs, i, j),
        i < n <= j,
        round_so_far(states, events, outs, i, n),
        is_match(states[i].pending, states[i].candidates(events[i]), all),
        asked(outs, i, n) + states[n].unfetched == all,
    ensures
        round_so_far(states, events, outs, i, n + 1),
        n < j ==> asked(outs, i, n + 1) + states[n + 1].unfetched == all,
        n == j ==> asked(outs, i, n) == all,
{
    broadcast use vstd::seq_lib::group_seq_properties;

    let before = replied(events, i + 1, n);
    let batch = events[n]->Receipts_0@;
    let now = events[n]->Receipts_1;
    let earlier = asked(outs, i, n - 1);
    let hashes = outs[n - 1].request->Receipts_hashes@;
    assert(events[n] is Receipts);
    assert(states[n].steps_to(events[n], states[n + 1], outs[n]));
    assert(outs[n - 1].request is Receipts);
    assert(asked(outs, i, n) == earlier + hashes);
    assert(replied(events, i + 1, n + 1) == before + batch);
    lemma_replies_in_turn(before, batch);

    // The batch asks for different transactions, all of them pending still.
    assert forall|k: int| 0 <= k < batch.len() implies (#[trigger] batch[k]).0 == all[earlier.len()
        + k] by {
        assert(hashes[k] == (earlier + hashes)[earlier.len() + k]);
    }
    assert forall|k: int| 0 <= k < batch.len() implies states[n].pending.contains_key(
        (#[trigger] batch[k]).0@,
    ) by {
        let hash = batch[k].0;
        assert(all.contains(hash));
        assert(states[i].pending.contains_key(hash@));
        if is_among(found_hashes(before), hash@) {
            let f = choose|f: int|
                0 <= f < found_hashes(before).len() && (#[trigger] found_hashes(before)[f])@
                    == hash@;
            lemma_found_was_asked(before, f);
            let m = choose|m: int|
                0 <= m < before.len() && (#[trigger] before[m]).0 == found_hashes(before)[f];
            assert(before[m].0 == earlier[m]);
            assert(all[m] == earlier[m]);
            lemma_same_bytes(all[m], hash);
            assert(all[m] == all[earlier.len() + k]);
        }
    }
    assert forall|a: int, b: int| 0 <= a < b < batch.len() implies (#[trigger] batch[a]).0@ != (
    #[trigger] batch[b]).0@ by {
        if batch[a].0@ == batch[b].0@ {
            lemma_same_bytes(batch[a].0, batch[b].0);
            assert(all[earlier.len() + a] == all[earlier.len() + b]);
        }
    }
    law_found_are_confirmed(states[n].pending, batch, now);
    law_confirmed_once(states[n].pending, batch, now);

    assert(confirmed_hashes(confirmations(outs, i + 1, n + 1)) =~= confirmed_hashes(
        confirmations(outs, i + 1, n),
    ) + confirmed_hashes(outs[n].confirmations@));
    lemma_among_either(found_hashes(before), found_hashes(batch));
    assert(states[n + 1].late =~= late_hashes(before + batch));
    assert forall|m: int| 0 <= m < asked(outs, i, n).len() implies (
    #[trigger] (before + batch)[m]).0 == asked(outs, i, n)[m] by {
        if m < before.len() {
            assert(before[m].0 == earlier[m]);
        } else {
            assert(batch[m - before.len()].0 == hashes[m - earlier.len()]);
        }
    }
    if n < j {
        assert(outs[n].request is Receipts);
        assert(asked(outs, i, n + 1) == asked(outs, i, n) + outs[n].request->Receipts_hashes@);
        assert(outs[n].request->Receipts_hashes@ + states[n + 1].unfetched
            =~= states[n].unfetched);
        assert(asked(outs, i, n + 1) + states[n + 1].unfetched =~= all);
    } else {
        assert(states[n].unfetched.len() == 0);
        assert(asked(outs, i, n) =~= all);
    }
}

/// What holds once the events of a round before `n` have been taken up.
proof fn lemma_round(
    states: Seq<BlockMonitorState>,
    events: Seq<BlockMonitorEvent>,
    outs: Seq<Outcome>,
    i: int,
    j: int,
    n: int,
)
    requires
        is_receipt_round(states, events, outs, i, j),
        i < n <= j + 1,
    ensures
        round_so_far(states, events, outs, i, n),
        is_match(
            states[i].pending,
            states[i].candidates(events[i]),
            if n <= j {
                asked(outs, i, n) + states[n].unfetched
            } else {
                asked(outs, i, j)
            },
        ),
    decreases n - i,
{
    if n == i + 1 {
        lemma_round_begins(states, events, outs, i, j);
    } else {
        lemma_round(states, events, outs, i, j, n - 1);
        let all = asked(outs, i, n - 1) + states[n - 1].unfetched;
        lemma_round_goes_on(states, events, outs, i, j, n - 1, all);
    }
}

/// A whole round of receipts, over all its batches: asked for are exactly the pending transactions
/// among those of the blocks and the late ones, each of them once; confirmed are exactly those of
/// them whose receipts were found, in order; these and no others cease to be pending; and late are
/// exactly those whose receipts were not there.
pub proof fn law_receipt_round(
    states: Seq<BlockMonitorState>,
    events: Seq<BlockMonitorEvent>,
    outs: Seq<Outcome>,
    i: int,
    j: int,
)
    requires
        is_receipt_round(states, events, outs, i, j),
    ensures
        is_match(states[i].pending, states[i].candidates(events[i]), asked(outs, i, j)),
        replies_to(asked(outs, i, j), replied(events, i + 1, j + 1)),
        confirmed_hashes(confirmations(outs, i + 1, j + 1)) == found_hashes(
            replied(events, i + 1, j + 1),
        ),
        forall|hash: Seq<u8>| #[trigger]
            states[j + 1].pending.contains_key(hash) <==> states[i].pending.contains_key(hash)
                && !is_among(found_hashes(replied(events, i + 1, j + 1)), hash),
        states[j + 1].late == late_hashes(replied(events, i + 1, j + 1)),
{
    lemma_round(states, events, outs, i, j, j + 1);
}

/// The blocks after one, up to another: the next one first, each by one higher than the one before,
/// the last one last.
pub proof fn law_blocks_in_order(last: u64, head: u64)
    requires
        last <= head,
    ensures
        blocks_after(last, head).len() == head - last,
        forall|i: int|
            0 <= i < head - last ==> #[trigger] blocks_after(last, head)[i] == last + 1 + i,
{
}

/// More than two hundred thousand pending transactions hold the producer back, fewer than a hundred
/// and sixty thousand let it go, and in between it stays as it is.
pub proof fn law_backpressure_numbers(before: bool, pending: nat)
    ensures
        held_back(before, pending) <==> pending > 200_000 || before && pending >= 160_000,
{
}

/// A new monitor has seen nothing, holds nothing and waits to be started.
pub proof fn law_new_monitor(
    monitor_addr: ActorHandle,
    clients: Seq<ClientHandle>,
    backpressure_tx: Option<ChannelHandle>,
)
    ensures
        ({
            let new = BlockMonitorState::initial(monitor_addr, clients, backpressure_tx);
            &&& new.monitor_addr == monitor_addr
            &&& new.clients == clients
            &&& new.backpressure_tx == backpressure_tx
            &&& forall|hash: Seq<u8>| !(#[trigger] new.pending.contains_key(hash))
            &&& new.last_seen_block == 0
            &&& !new.backpressure_signaled
            &&& new.confirmed_10s == 0
            &&& new.confirmed == 0
            &&& new.late.len() == 0
            &&& new.unfetched.len() == 0
            &&& new.awaits(BlockMonitorEvent::Started)
        }),
{
}

/// Started, the monitor asks its first client for the newest block, or for registrations where it
/// has no client; nothing else happens.
pub proof fn law_start(pre: BlockMonitorState, post: BlockMonitorState, out: Outcome)
    requires
        pre.steps_to(BlockMonitorEvent::Started, post, out),
    ensures
        pre.clients.len() > 0 ==> out.request == (BlockMonitorRequest::BlockNumber {
            client: pre.clients[0],
        }) && post == (BlockMonitorState { phase: Phase::InitialBlock, ..pre }),
        pre.clients.len() == 0 ==> out.request == BlockMonitorRequest::Registrations && post == (
        BlockMonitorState { phase: Phase::Draining, ..pre }),
        out.confirmations@.len() == 0 && out.stuck@.len() == 0,
        out.backpressure is None && out.summary is None,
{
}

/// The block to start from is the first newest block, or the very first where that could not be
/// had. Then registrations are asked for.
pub proof fn law_start_block(
    pre: BlockMonitorState,
    number: Option<u64>,
    post: BlockMonitorState,
    out: Outcome,
)
    requires
        pre.is_consistent(),
        pre.phase is InitialBlock,
        pre.steps_to(BlockMonitorEvent::BlockNumber(number), post, out),
    ensures
        number matches Some(n) ==> post.last_seen_block == n,
        number is None ==> post.last_seen_block == 0,
        post == (BlockMonitorState {
            last_seen_block: post.last_seen_block,
            phase: Phase::Draining,
            ..pre
        }),
        out.request == BlockMonitorRequest::Registrations,
        out.confirmations@.len() == 0 && out.stuck@.len() == 0,
        out.backpressure is None && out.summary is None,
{
}

/// Every transaction that is registered is pending afterwards, as it was registered last, and what
/// was pending before stays so. Then the first client is asked for the newest block, or, where there
/// is none, the time is asked for.
pub proof fn law_registrations(
    pre: BlockMonitorState,
    infos: Vec<PendingTxInfo>,
    post: BlockMonitorState,
    out: Outcome,
    i: int,
    hash: Seq<u8>,
)
    requires
        pre.steps_to(BlockMonitorEvent::Registrations(infos), post, out),
    ensures
        0 <= i < infos@.len() && (forall|j: int|
            i < j < infos@.len() ==> (#[trigger] infos@[j]).tx_hash@ != infos@[i].tx_hash@)
            ==> post.pending.contains_pair(infos@[i].tx_hash@, infos@[i]),
        (forall|j: int| 0 <= j < infos@.len() ==> (#[trigger] infos@[j]).tx_hash@ != hash) ==> (
        post.pending.contains_key(hash) <==> pre.pending.contains_key(hash)) && (
        pre.pending.contains_key(hash) ==> post.pending[hash] == pre.pending[hash]),
        post == (BlockMonitorState { pending: post.pending, phase: post.phase, ..pre }),
        pre.clients.len() > 0 ==> post.phase is Head && out.request == (
        BlockMonitorRequest::BlockNumber { client: pre.clients[0] }),
        pre.clients.len() == 0 ==> post.phase is Clock && out.request == BlockMonitorRequest::Time,
        out.confirmations@.len() == 0 && out.stuck@.len() == 0,
        out.backpressure is None && out.summary is None,
{
    if 0 <= i < infos@.len() && (forall|j: int|
        i < j < infos@.len() ==> (#[trigger] infos@[j]).tx_hash@ != infos@[i].tx_hash@) {
        law_last_registration_counts(pre.pending, infos@, i);
    }
    if forall|j: int| 0 <= j < infos@.len() ==> (#[trigger] infos@[j]).tx_hash@ != hash {
        law_unregistered_is_left(pre.pending, infos@, hash);
    }
}

/// A newer block has the first client asked for every block since the last one seen, and only for
/// those, in order. Without the number of the newest block nothing is asked for but the time.
pub proof fn law_new_blocks(
    pre: BlockMonitorState,
    number: Option<u64>,
    post: BlockMonitorState,
    out: Outcome,
)
    requires
        pre.phase is Head,
        pre.steps_to(BlockMonitorEvent::BlockNumber(number), post, out),
    ensures
        number is Some && number->0 > pre.last_seen_block ==> {
            &&& out.request matches BlockMonitorRequest::Blocks { client, numbers }
            &&& client == pre.clients[0]
            &&& numbers@.len() == number->0 - pre.last_seen_block
            &&& forall|i: int|
                0 <= i < numbers@.len() ==> #[trigger] numbers@[i] == pre.last_seen_block + 1 + i
            &&& post == (BlockMonitorState {
                last_seen_block: number->0,
                phase: Phase::Blocks,
                ..pre
            })
        },
        number is None ==> out.request == BlockMonitorRequest::Time && post == (BlockMonitorState {
            phase: Phase::Clock,
            ..pre
        }),
        out.confirmations@.len() == 0 && out.stuck@.len() == 0,
        out.backpressure is None && out.summary is None,
{
}

/// Once the blocks have come, the receipts that are asked for, at once and in later batches, are
/// those of all pending transactions that any of the blocks holds or that are late, each once. The
/// first client is asked for up to two hundred of them, and where there are none, the time is asked
/// for.
pub proof fn law_blocks_are_looked_up(
    pre: BlockMonitorState,
    replies: Vec<BlockReply>,
    post: BlockMonitorState,
    out: Outcome,
)
    requires
        pre.steps_to(BlockMonitorEvent::Blocks(replies), post, out),
    ensures
        ({
            let now: Seq<TxHash> = match out.request {
                BlockMonitorRequest::Receipts { client, hashes } => hashes@,
                _ => seq![],
            };
            let wanted = now + post.unfetched;
            let total = if out.request is Receipts {
                now.len() + post.unfetched.len()
            } else {
                0
            };
            &&& forall|hash: TxHash|
                (#[trigger] now.contains(hash) || out.request is Receipts
                    && post.unfetched.contains(hash)) <==> pre.pending.contains_key(hash@) && (
                pre.late.contains(hash) || exists|i: int|
                    0 <= i < replies@.len() && (match #[trigger] replies@[i] {
                        BlockReply::Block(BlockTransactions::Full(hashes)) => hashes@.contains(
                            hash,
                        ),
                        BlockReply::Block(BlockTransactions::Hashes(hashes)) => hashes@.contains(
                            hash,
                        ),
                        _ => false,
                    }))
            &&& out.request is Receipts ==> wanted.no_duplicates() && 0 < now.len() <= 200 && (
            now.len() < 200 ==> post.unfetched.len() == 0) && post.phase is Receipts
                && out.request->Receipts_client == pre.clients[0]
            &&& total == 0 ==> out.request == BlockMonitorRequest::Time && post.phase is Clock
            &&& post.late.len() == 0
            &&& post == (BlockMonitorState {
                late: post.late,
                unfetched: post.unfetched,
                phase: post.phase,
                ..pre
            })
        }),
        out.confirmations@.len() == 0 && out.stuck@.len() == 0,
        out.backpressure is None && out.summary is None,
{
    broadcast use vstd::seq_lib::group_seq_properties;

    let now: Seq<TxHash> = match out.request {
        BlockMonitorRequest::Receipts { client, hashes } => hashes@,
        _ => seq![],
    };
    let matched = if out.request is Receipts {
        now + post.unfetched
    } else {
        seq![]
    };
    law_matched_are_mined_and_pending(pre.pending, replies@, pre.late, matched);
    assert forall|hash: TxHash|
        (#[trigger] now.contains(hash) || out.request is Receipts && post.unfetched.contains(hash))
            <==> pre.pending.contains_key(hash@) && (pre.late.contains(hash) || exists|i: int|
            0 <= i < replies@.len() && (match #[trigger] replies@[i] {
                BlockReply::Block(BlockTransactions::Full(hashes)) => hashes@.contains(hash),
                BlockReply::Block(BlockTransactions::Hashes(hashes)) => hashes@.contains(hash),
                _ => false,
            })) by {
        assert(matched.contains(hash) <==> now.contains(hash) || out.request is Receipts
            && post.unfetched.contains(hash));
    }
}

/// Without a new block, the late transactions that are still pending are looked up in the same way,
/// and no others.
pub proof fn law_late_are_looked_up(
    pre: BlockMonitorState,
    head: u64,
    post: BlockMonitorState,
    out: Outcome,
    hash: TxHash,
)
    requires
        pre.phase is Head,
        head <= pre.last_seen_block,
        pre.steps_to(BlockMonitorEvent::BlockNumber(Some(head)), post, out),
    ensures
        (out.request matches BlockMonitorRequest::Receipts { client, hashes } && (hashes@.contains(
            hash,
        ) || post.unfetched.contains(hash))) <==> pre.pending.contains_key(hash@)
            && pre.late.contains(hash),
        out.request matches BlockMonitorRequest::Receipts { client, hashes } ==> client
            == pre.clients[0] && 0 < hashes@.len() <= 200 && (hashes@.len() < 200
            ==> post.unfetched.len() == 0) && post.phase is Receipts,
        !(out.request is Receipts) ==> out.request == BlockMonitorRequest::Time
            && post.phase is Clock,
        post.late.len() == 0,
        post == (BlockMonitorState {
            late: post.late,
            unfetched: post.unfetched,
            phase: post.phase,
            ..pre
        }),
        out.confirmations@.len() == 0 && out.stuck@.len() == 0,
        out.backpressure is None && out.summary is None,
{
    broadcast use vstd::seq_lib::group_seq_properties;

    if out.request is Receipts {
        let matched = out.request->Receipts_hashes@ + post.unfetched;
        assert(is_match(pre.pending, pre.late, matched));
        assert(matched.contains(hash) <==> pre.late.contains(hash) && pre.pending.contains_key(
            hash@,
        ));
    } else {
        assert(is_match(pre.pending, pre.late, Seq::<TxHash>::empty()));
        assert(Seq::<TxHash>::empty().contains(hash) <==> pre.late.contains(hash)
            && pre.pending.contains_key(hash@));
    }
}

/// Receipts: a pending transaction is confirmed exactly if one is found for it, with what the receipt
/// says; all others stay pending; those without a receipt are late. Then the next batch, in order and
/// up to two hundred, is asked for, or the time where there is none. Confirmations are counted.
pub proof fn law_receipts(
    pre: BlockMonitorState,
    replies: Vec<(TxHash, ReceiptReply)>,
    now: Nanos,
    post: BlockMonitorState,
    out: Outcome,
    hash: TxHash,
)
    requires
        pre.is_consistent(),
        pre.has_room(),
        pre.pending.dom().finite(),
        pre.steps_to(BlockMonitorEvent::Receipts(replies, now), post, out),
    ensures
        pre.pending.contains_key(hash@) ==> ((exists|k: int|
            0 <= k < replies@.len() && (#[trigger] replies@[k]).0 == hash && replies@[k].1 is Found)
            <==> !post.pending.contains_key(hash@)),
        post.pending.contains_key(hash@) ==> pre.pending.contains_pair(
            hash@,
            post.pending[hash@],
        ),
        pre.pending.contains_key(hash@) && !post.pending.contains_key(hash@) <==> exists|i: int|
            0 <= i < out.confirmations@.len() && (#[trigger] out.confirmations@[i]).tx_hash == hash,
        forall|i: int|
            #![trigger out.confirmations@[i]]
            0 <= i < out.confirmations@.len() ==> exists|k: int|
                #![trigger replies@[k]]
                0 <= k < replies@.len() && replies@[k].0 == out.confirmations@[i].tx_hash && (
                match replies@[k].1 {
                    ReceiptReply::Found(receipt) => out.confirmations@[i].status == receipt.status
                        && out.confirmations@[i].gas_used == receipt.gas_used
                        && out.confirmations@[i].effective_gas_price
                        == receipt.effective_gas_price,
                    _ => false,
                }),
        forall|i: int|
            #![trigger out.confirmations@[i]]
            0 <= i < out.confirmations@.len() ==> {
                let c = out.confirmations@[i];
                let info = pre.pending[c.tx_hash@];
                &&& pre.pending.contains_key(c.tx_hash@)
                &&& c.metadata == info.metadata
                &&& now >= info.submit_time ==> c.latency == now - info.submit_time
                &&& now < info.submit_time ==> c.latency == 0
            },
        forall|i: int, j: int|
            0 <= i < j < out.confirmations@.len() ==> (#[trigger] out.confirmations@[i]).tx_hash@
                != (#[trigger] out.confirmations@[j]).tx_hash@,
        out.confirmations@ == confirmed(pre.pending, replies@, now).1,
        post.late == pre.late + replies@.filter(
            |r: (TxHash, ReceiptReply)| r.1 is NotFound,
        ).map_values(|r: (TxHash, ReceiptReply)| r.0),
        pre.unfetched.len() > 0 ==> {
            &&& out.request matches BlockMonitorRequest::Receipts { client, hashes }
            &&& client == pre.clients[0]
            &&& hashes@ + post.unfetched == pre.unfetched
            &&& 0 < hashes@.len() <= 200
            &&& hashes@.len() < 200 ==> post.unfetched.len() == 0
            &&& post.phase is Receipts
        },
        pre.unfetched.len() == 0 ==> out.request == BlockMonitorRequest::Time && post.phase is Clock
            && post.unfetched.len() == 0 && post.confirmed == 0,
        post.confirmed_10s + post.confirmed == pre.confirmed_10s + pre.confirmed
            + out.confirmations@.len(),
        post == (BlockMonitorState {
            pending: post.pending,
            late: post.late,
            unfetched: post.unfetched,
            phase: post.phase,
            confirmed: post.confirmed,
            confirmed_10s: post.confirmed_10s,
            ..pre
        }),
        out.stuck@.len() == 0 && out.backpressure is None && out.summary is None,
{
    broadcast use vstd::seq_lib::group_seq_properties;

    let (left, confirmations) = confirmed(pre.pending, replies@, now);
    law_late_and_found(replies@);
    law_confirmations_carry_receipts(pre.pending, replies@, now);
    law_confirmed_once(pre.pending, replies@, now);
    lemma_confirmed_count(pre.pending, replies@, now);
    if pre.pending.contains_key(hash@) {
        law_confirmed_if_found(pre.pending, replies@, now, hash);
    }
    assert forall|i: int|
        #![trigger out.confirmations@[i]]
        0 <= i < out.confirmations@.len() implies exists|k: int|
        #![trigger replies@[k]]
        0 <= k < replies@.len() && replies@[k].0 == out.confirmations@[i].tx_hash && (
        match replies@[k].1 {
            ReceiptReply::Found(receipt) => out.confirmations@[i].status == receipt.status
                && out.confirmations@[i].gas_used == receipt.gas_used
                && out.confirmations@[i].effective_gas_price == receipt.effective_gas_price,
            _ => false,
        }) by {
        assert(out.confirmations@[i] == confirmed(pre.pending, replies@, now).1[i]);
    }
    assert forall|i: int|
        #![trigger out.confirmations@[i]]
        0 <= i < out.confirmations@.len() implies {
        let c = out.confirmations@[i];
        let info = pre.pending[c.tx_hash@];
        &&& pre.pending.contains_key(c.tx_hash@)
        &&& c.metadata == info.metadata
        &&& now >= info.submit_time ==> c.latency == now - info.submit_time
        &&& now < info.submit_time ==> c.latency == 0
    } by {
        assert(out.confirmations@[i] == confirmed(pre.pending, replies@, now).1[i]);
    }
    if pre.unfetched.len() > 0 {
        assert(out.request->Receipts_hashes@ + post.unfetched =~= pre.unfetched);
    }
}

/// The time: the overdue transactions are reported as they are, and the producer is held back above
/// two hundred thousand pending transactions and let go below a hundred and sixty thousand, which is
/// signalled where it changes.
pub proof fn law_time(pre: BlockMonitorState, now: Nanos, post: BlockMonitorState, out: Outcome)
    requires
        pre.is_consistent(),
        pre.steps_to(BlockMonitorEvent::Time(now), post, out),
    ensures
        forall|hash: Seq<u8>| #[trigger]
            pre.pending.contains_key(hash) && now - pre.pending[hash].submit_time >= 30_000_000_000
                ==> exists|i: int|
                0 <= i < out.stuck@.len() && (#[trigger] out.stuck@[i]).tx_hash@ == hash,
        forall|i: int|
            #![trigger out.stuck@[i]]
            0 <= i < out.stuck@.len() ==> {
                let report = out.stuck@[i];
                let info = pre.pending[report.tx_hash@];
                let waited = now - info.submit_time;
                &&& pre.pending.contains_key(report.tx_hash@)
                &&& waited >= 30_000_000_000
                &&& report.level is Timeout <==> waited >= 300_000_000_000
                &&& report.level is Stuck <==> 120_000_000_000 <= waited < 300_000_000_000
                &&& report.elapsed_secs == waited / 1_000_000_000
                &&& report.account == info.metadata.from_account
                &&& report.nonce == info.metadata.nonce
            },
        forall|i: int, j: int|
            0 <= i < j < out.stuck@.len() ==> (#[trigger] out.stuck@[i]).tx_hash@ != (
            #[trigger] out.stuck@[j]).tx_hash@,
        post.backpressure_signaled <==> pre.pending.len() > 200_000 || pre.backpressure_signaled
            && pre.pending.len() >= 160_000,
        out.backpressure is Some <==> post.backpressure_signaled != pre.backpressure_signaled,
        out.backpressure matches Some(change) ==> change.hold == post.backpressure_signaled
            && change.channel == pre.backpressure_tx && change.pending == pre.pending.len(),
        post == (BlockMonitorState {
            backpressure_signaled: post.backpressure_signaled,
            phase: Phase::Summary,
            ..pre
        }),
        out.request == BlockMonitorRequest::SummaryTick,
        out.confirmations@.len() == 0 && out.summary is None,
{
    law_overdue_are_reported(pre.pending, now, out.stuck@);
    law_backpressure_numbers(pre.backpressure_signaled, pre.pending.len());
}

/// A summary comes exactly if it is due, with the numbers of the moment; it starts the count of
/// confirmations afresh. Then the monitor sleeps for a fifth of a second.
pub proof fn law_summary(
    pre: BlockMonitorState,
    due: bool,
    post: BlockMonitorState,
    out: Outcome,
)
    requires
        pre.steps_to(BlockMonitorEvent::SummaryTick(due), post, out),
    ensures
        out.summary is Some <==> due,
        out.summary matches Some(summary) ==> summary.pending == pre.pending.len()
            && summary.confirmed == pre.confirmed_10s && summary.last_block == pre.last_seen_block,
        post == (BlockMonitorState {
            confirmed_10s: if due {
                0
            } else {
                pre.confirmed_10s
            },
            phase: Phase::Sleeping,
            ..pre
        }),
        out.request == (BlockMonitorRequest::Sleep { millis: 200 }),
        out.confirmations@.len() == 0 && out.stuck@.len() == 0 && out.backpressure is None,
{
}

/// Woken, the monitor asks for registrations again, and has forgotten nothing.
pub proof fn law_wake(pre: BlockMonitorState, post: BlockMonitorState, out: Outcome)
    requires
        pre.steps_to(BlockMonitorEvent::Woken, post, out),
    ensures
        post == (BlockMonitorState { phase: Phase::Draining, ..pre }),
        out.request == BlockMonitorRequest::Registrations,
        out.confirmations@.len() == 0 && out.stuck@.len() == 0,
        out.backpressure is None && out.summary is None,
{
}

/// In each phase the monitor waits for one kind of event, and the count of confirmations has room as
/// long as all that is pending could still be confirmed.
pub proof fn law_phases(pre: BlockMonitorState, event: BlockMonitorEvent)
    ensures
        pre.phase is Starting ==> (pre.awaits(event) <==> event is Started),
        pre.phase is InitialBlock || pre.phase is Head ==> (pre.awaits(event)
            <==> event is BlockNumber),
        pre.phase is Draining ==> (pre.awaits(event) <==> event is Registrations),
        pre.phase is Blocks ==> (pre.awaits(event) <==> event is Blocks),
        pre.phase is Receipts ==> (pre.awaits(event) <==> event is Receipts),
        pre.phase is Clock ==> (pre.awaits(event) <==> event is Time),
        pre.phase is Summary ==> (pre.awaits(event) <==> event is SummaryTick),
        pre.phase is Sleeping ==> (pre.awaits(event) <==> event is Woken),
        pre.has_room() <==> pre.confirmed_10s + pre.confirmed + pre.pending.len()
            <= 0xffff_ffff_ffff_ffff,
{
}

/// The confirmations of the outcomes before `n` since the last summary among them.
pub open spec fn confirmed_since_summary(outs: Seq<Outcome>, n: int) -> nat
    decreases n,
{
    if n <= 0 {
        0
    } else if outs[n - 1].summary is Some {
        0
    } else {
        confirmed_since_summary(outs, n - 1) + outs[n - 1].confirmations@.len()
    }
}

/// Over a whole run that begins with nothing counted, as with a new monitor, every confirmation is
/// counted, and a summary tells of as many as there have been since the one before.
pub proof fn law_run_summaries_count_confirmations(
    states: Seq<BlockMonitorState>,
    events: Seq<BlockMonitorEvent>,
    outs: Seq<Outcome>,
    n: int,
)
    requires
        is_run(states, events, outs),
        states[0].confirmed_10s == 0,
        states[0].confirmed == 0,
        forall|k: int|
            0 <= k < states.len() ==> (#[trigger] states[k]).has_room()
                && states[k].pending.dom().finite(),
        0 <= n < states.len(),
    ensures
        states[n].confirmed_10s + states[n].confirmed == confirmed_since_summary(outs, n),
        n < outs.len() && outs[n].summary is Some ==> outs[n].summary->0.confirmed
            == confirmed_since_summary(outs, n),
    decreases n,
{
    if n > 0 {
        let (pre, post, event, out) = (states[n - 1], states[n], events[n - 1], outs[n - 1]);
        law_run_summaries_count_confirmations(states, events, outs, n - 1);
        lemma_run_keeps(states, events, outs, 0, n - 1);
        assert(pre.awaits(event) && pre.steps_to(event, post, out));
        assert(pre.has_room() && pre.pending.dom().finite());
        match event {
            BlockMonitorEvent::Receipts(replies, now) => {
                lemma_confirmed_count(pre.pending, replies@, now);
            },
            _ => {},
        }
    }
    if n < outs.len() {
        lemma_run_keeps(states, events, outs, 0, n);
        assert(states[n].awaits(events[n]) && states[n].steps_to(
            events[n],
            states[n + 1],
            outs[n],
        ));
    }
}

} // verus!
