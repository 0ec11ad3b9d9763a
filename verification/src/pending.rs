//! The transactions that wait for their receipts.
use std::collections::{BTreeMap, BTreeSet};
use vstd::prelude::*;
use vstd::relations::injective_on;
use vstd::std_specs::iter::IteratorSpec;

use crate::messages::{Nanos, TxnConfirmed, TxnMetadata};
use crate::primitives::{
    key_of, lemma_kept, lemma_key_injective, saturating_difference, Address, TxHash,
};

verus! {

broadcast use {vstd::std_specs::btree::group_btree_axioms, vstd::laws_cmp::group_laws_cmp};

/// Seconds after which a pending transaction is worth a warning.
pub const WARN_PENDING_SECS: u64 = 30;

/// Seconds after which a pending transaction counts as stuck.
pub const STUCK_SECS: u64 = 120;

/// Seconds after which a pending transaction counts as timed out.
pub const TIMEOUT_SECS: u64 = 300;

/// Information about a pending transaction waiting for receipt confirmation
#[derive(Debug, PartialEq, Eq)]
pub struct PendingTxInfo {
    pub tx_hash: TxHash,
    pub metadata: TxnMetadata,
    pub submit_time: Nanos,
    pub rpc_url: String,
}

/// How long overdue a transaction is.
#[derive(Clone, Copy, Debug, PartialEq, Eq, Structural)]
pub enum StuckLevel {
    Warning,
    Stuck,
    Timeout,
}

/// A transaction that is overdue.
#[derive(Clone, Copy, Debug, PartialEq, Eq)]
pub struct StuckTx {
    pub tx_hash: TxHash,
    pub level: StuckLevel,
    pub elapsed_secs: u64,
    pub account: Address,
    pub nonce: u64,
}

/// What a receipt says of a transaction.
#[derive(Clone, Copy, Debug, PartialEq, Eq, Structural)]
pub struct Receipt {
    pub gas_used: u64,
    pub effective_gas_price: u128,
    pub status: bool,
}

/// The answer to a request for a receipt.
#[derive(Clone, Copy, Debug, PartialEq, Eq, Structural)]
pub enum ReceiptReply {
    Found(Receipt),
    NotFound,
    Failed,
}

/// The transactions of a block: in full, of which the hashes are kept, or as hashes, or those of
/// an uncle block, which has none.
#[derive(Debug, PartialEq, Eq)]
pub enum BlockTransactions {
    Full(Vec<TxHash>),
    Hashes(Vec<TxHash>),
    Uncle,
}

/// The answer to a request for a block.
#[derive(Debug, PartialEq, Eq)]
pub enum BlockReply {
    Block(BlockTransactions),
    Missing,
    Failed,
}

/// Nanoseconds from `submit_time` to `now`, zero where the clock reads earlier.
pub open spec fn elapsed(submit_time: Nanos, now: Nanos) -> nat {
    saturating_difference(now as nat, submit_time as nat)
}

/// How long overdue a transaction is after `elapsed_secs`, if at all.
pub open spec fn stuck_level(elapsed_secs: nat) -> Option<StuckLevel> {
    if elapsed_secs >= TIMEOUT_SECS {
        Some(StuckLevel::Timeout)
    } else if elapsed_secs >= STUCK_SECS {
        Some(StuckLevel::Stuck)
    } else if elapsed_secs >= WARN_PENDING_SECS {
        Some(StuckLevel::Warning)
    } else {
        None
    }
}

/// What there is to say of a pending transaction at `now`, if it is overdue.
pub open spec fn stuck_report(info: PendingTxInfo, now: Nanos) -> Option<StuckTx> {
    let elapsed_secs = elapsed(info.submit_time, now) / 1_000_000_000;
    match stuck_level(elapsed_secs) {
        Some(level) => Some(
            StuckTx {
                tx_hash: info.tx_hash,
                level,
                elapsed_secs: elapsed_secs as u64,
                account: info.metadata.from_account,
                nonce: info.metadata.nonce,
            },
        ),
        None => None,
    }
}

/// How the confirmation of a pending transaction reads, given its receipt at `now`.
pub open spec fn confirmation(info: PendingTxInfo, receipt: Receipt, now: Nanos) -> TxnConfirmed {
    TxnConfirmed {
        tx_hash: info.tx_hash,
        latency: elapsed(info.submit_time, now) as u64,
        gas_used: receipt.gas_used as u128,
        effective_gas_price: receipt.effective_gas_price,
        status: receipt.status,
        metadata: info.metadata,
    }
}

/// Pending transactions by hash.
pub type PendingMap = Map<Seq<u8>, PendingTxInfo>;

/// Whether every transaction is pending under its own hash.
pub open spec fn is_keyed_by_hash(pending: PendingMap) -> bool {
    forall|hash: Seq<u8>| #[trigger]
        pending.contains_key(hash) ==> pending[hash].tx_hash@ == hash
}

/// The pending transactions once `infos` have been registered in their order.
pub open spec fn registered(pending: PendingMap, infos: Seq<PendingTxInfo>) -> PendingMap
    decreases infos.len(),
{
    if infos.len() == 0 {
        pending
    } else {
        registered(pending, infos.drop_last()).insert(infos.last().tx_hash@, infos.last())
    }
}

/// The pending transactions that are left, and the confirmations that went out, once `replies`
/// have been taken up in their order: a receipt that was found for a pending transaction confirms
/// it, and it is pending no longer.
pub open spec fn confirmed(
    pending: PendingMap,
    replies: Seq<(TxHash, ReceiptReply)>,
    now: Nanos,
) -> (PendingMap, Seq<TxnConfirmed>)
    decreases replies.len(),
{
    if replies.len() == 0 {
        (pending, seq![])
    } else {
        let (left, out) = confirmed(pending, replies.drop_last(), now);
        let (hash, reply) = replies.last();
        match reply {
            ReceiptReply::Found(receipt) if left.contains_key(hash@) => (
                left.remove(hash@),
                out.push(confirmation(left[hash@], receipt, now)),
            ),
            _ => (left, out),
        }
    }
}

/// The hashes whose receipts were not there, in order.
pub open spec fn late_hashes(replies: Seq<(TxHash, ReceiptReply)>) -> Seq<TxHash>
    decreases replies.len(),
{
    if replies.len() == 0 {
        seq![]
    } else {
        let earlier = late_hashes(replies.drop_last());
        if replies.last().1 is NotFound {
            earlier.push(replies.last().0)
        } else {
            earlier
        }
    }
}

/// The hashes whose receipts were found, in order.
pub open spec fn found_hashes(replies: Seq<(TxHash, ReceiptReply)>) -> Seq<TxHash>
    decreases replies.len(),
{
    if replies.len() == 0 {
        seq![]
    } else {
        let earlier = found_hashes(replies.drop_last());
        if replies.last().1 is Found {
            earlier.push(replies.last().0)
        } else {
            earlier
        }
    }
}

/// Registered transactions are pending under their own hashes.
pub(crate) proof fn lemma_registered_keyed(pending: PendingMap, infos: Seq<PendingTxInfo>)
    requires
        is_keyed_by_hash(pending),
    ensures
        is_keyed_by_hash(registered(pending, infos)),
    decreases infos.len(),
{
    if infos.len() > 0 {
        lemma_registered_keyed(pending, infos.drop_last());
    }
}

/// What is pending once transactions have been registered was pending before or is one of them.
pub(crate) proof fn lemma_registered_only(
    pending: PendingMap,
    infos: Seq<PendingTxInfo>,
    hash: Seq<u8>,
)
    requires
        registered(pending, infos).contains_key(hash),
        !pending.contains_key(hash),
    ensures
        exists|i: int| 0 <= i < infos.len() && (#[trigger] infos[i]).tx_hash@ == hash,
    decreases infos.len(),
{
    if infos.len() > 0 {
        if infos.last().tx_hash@ == hash {
            assert(infos[infos.len() - 1].tx_hash@ == hash);
        } else {
            lemma_registered_only(pending, infos.drop_last(), hash);
            let i = choose|i: int|
                0 <= i < infos.len() - 1 && (#[trigger] infos.drop_last()[i]).tx_hash@ == hash;
            assert(infos[i].tx_hash@ == hash);
        }
    }
}

/// A hash whose receipt was not there is among the late ones.
pub(crate) proof fn lemma_late_hash(replies: Seq<(TxHash, ReceiptReply)>, i: int)
    requires
        0 <= i < replies.len(),
        replies[i].1 is NotFound,
    ensures
        late_hashes(replies).contains(replies[i].0),
    decreases replies.len(),
{
    broadcast use vstd::seq_lib::group_seq_properties;

    if i < replies.len() - 1 {
        lemma_late_hash(replies.drop_last(), i);
    }
}

/// As many transactions cease to be pending as are confirmed.
pub(crate) proof fn lemma_confirmed_count(
    pending: PendingMap,
    replies: Seq<(TxHash, ReceiptReply)>,
    now: Nanos,
)
    requires
        pending.dom().finite(),
    ensures
        confirmed(pending, replies, now).0.dom().finite(),
        confirmed(pending, replies, now).0.len() + confirmed(pending, replies, now).1.len()
            == pending.len(),
    decreases replies.len(),
{
    if replies.len() > 0 {
        lemma_confirmed_count(pending, replies.drop_last(), now);
    }
}

/// The hashes of the transactions in a block.
pub open spec fn block_hashes(reply: BlockReply) -> Seq<TxHash> {
    match reply {
        BlockReply::Block(BlockTransactions::Full(hashes)) => hashes@,
        BlockReply::Block(BlockTransactions::Hashes(hashes)) => hashes@,
        _ => seq![],
    }
}

/// The hashes of the transactions in several blocks, one block after the other.
pub open spec fn mined_hashes(replies: Seq<BlockReply>) -> Seq<TxHash>
    decreases replies.len(),
{
    if replies.len() == 0 {
        seq![]
    } else {
        mined_hashes(replies.drop_last()) + block_hashes(replies.last())
    }
}

/// Whether `matched` are the hashes among `mined` that are pending, each of them once.
pub open spec fn is_match(pending: PendingMap, mined: Seq<TxHash>, matched: Seq<TxHash>) -> bool {
    &&& matched.no_duplicates()
    &&& forall|hash: TxHash| #[trigger]
        matched.contains(hash) <==> mined.contains(hash) && pending.contains_key(hash@)
}

/// Whether `reports` say of each overdue transaction what there is to say, once, and no more.
pub open spec fn is_stuck_report(pending: PendingMap, now: Nanos, reports: Seq<StuckTx>) -> bool {
    &&& forall|i: int|
        0 <= i < reports.len() ==> pending.contains_key((#[trigger] reports[i]).tx_hash@)
            && stuck_report(pending[reports[i].tx_hash@], now) == Some(reports[i])
    &&& forall|hash: Seq<u8>| #[trigger]
        pending.contains_key(hash) && stuck_report(pending[hash], now) is Some ==> exists|i: int|
            0 <= i < reports.len() && (#[trigger] reports[i]).tx_hash@ == hash
    &&& forall|i: int, j: int|
        0 <= i < j < reports.len() ==> (#[trigger] reports[i]).tx_hash@ != (
        #[trigger] reports[j]).tx_hash@
}

/// Whether `keys` are the keys of `hashes`.
spec fn keys_are(keys: Set<(u128, u128)>, hashes: Seq<TxHash>) -> bool {
    forall|hash: TxHash| #[trigger] hashes.contains(hash) <==> keys.contains(key_of(hash@))
}

/// Hashes with the same bytes are the same.
pub(crate) proof fn lemma_same_bytes(a: TxHash, b: TxHash)
    requires
        a@ == b@,
    ensures
        a == b,
{
    assert(a.bytes =~= b.bytes);
}

/// Hashes with one key are the same.
proof fn lemma_same_hash(a: TxHash, b: TxHash)
    requires
        key_of(a@) == key_of(b@),
    ensures
        a == b,
{
    lemma_key_injective(a@, b@);
    lemma_same_bytes(a, b);
}

/// A pending hash that was not matched before is matched once it has been added.
proof fn lemma_match_extended(
    pending: PendingMap,
    mined: Seq<TxHash>,
    matched: Seq<TxHash>,
    hash: TxHash,
)
    requires
        is_match(pending, mined, matched),
        pending.contains_key(hash@),
        !matched.contains(hash),
    ensures
        is_match(pending, mined.push(hash), matched.push(hash)),
{
    broadcast use vstd::seq_lib::group_seq_properties;

    assert forall|h: TxHash| #[trigger]
        matched.push(hash).contains(h) <==> mined.push(hash).contains(h) && pending.contains_key(
        h@,
    ) by {
        assert(matched.contains(h) <==> mined.contains(h) && pending.contains_key(h@));
    }
}

/// Where a hash has been added, its key has to be, too.
proof fn lemma_keys_extended(keys: Set<(u128, u128)>, hashes: Seq<TxHash>, hash: TxHash)
    requires
        keys_are(keys, hashes),
    ensures
        keys_are(keys.insert(key_of(hash@)), hashes.push(hash)),
{
    broadcast use vstd::seq_lib::group_seq_properties;

    assert forall|h: TxHash| #[trigger]
        hashes.push(hash).contains(h) <==> keys.insert(key_of(hash@)).contains(key_of(h@)) by {
        assert(hashes.contains(h) <==> keys.contains(key_of(h@)));
        if key_of(h@) == key_of(hash@) {
            lemma_same_hash(h, hash);
        }
    }
}

/// A hash that is not pending, or that was matched before, changes nothing.
proof fn lemma_match_kept(
    pending: PendingMap,
    mined: Seq<TxHash>,
    matched: Seq<TxHash>,
    keys: Set<(u128, u128)>,
    hash: TxHash,
)
    requires
        is_match(pending, mined, matched),
        keys_are(keys, matched),
        !pending.contains_key(hash@) || keys.contains(key_of(hash@)),
    ensures
        is_match(pending, mined.push(hash), matched),
{
    broadcast use vstd::seq_lib::group_seq_properties;

    assert(matched.contains(hash) <==> keys.contains(key_of(hash@)));
    assert forall|h: TxHash| #[trigger]
        matched.contains(h) <==> mined.push(hash).contains(h) && pending.contains_key(h@) by {
        assert(matched.contains(h) <==> mined.contains(h) && pending.contains_key(h@));
    }
}

/// The transactions that wait for their receipts, each under its hash.
pub struct PendingSet {
    txs: BTreeMap<(u128, u128), PendingTxInfo>,
}

impl View for PendingSet {
    type V = PendingMap;

    closed spec fn view(&self) -> PendingMap {
        Map::new(
            |hash: Seq<u8>| hash.len() == 32 && self.txs@.contains_key(key_of(hash)),
            |hash: Seq<u8>| self.txs@[key_of(hash)],
        )
    }
}

impl PendingSet {
    /// Every transaction is kept under the key of its own hash.
    pub closed spec fn wf(&self) -> bool {
        forall|key: (u128, u128)| #[trigger]
            self.txs@.contains_key(key) ==> key_of(self.txs@[key].tx_hash@) == key
    }

    /// A transaction found under a hash has that hash, and a machine word counts them all.
    pub proof fn lemma_bounded(&self)
        requires
            self.wf(),
        ensures
            is_keyed_by_hash(self@),
            self@.dom().finite(),
            self@.len() <= usize::MAX,
    {
        self.lemma_view();
        assert(self.txs.len() == self.txs@.len());
    }

    /// A transaction found under a hash has that hash, and there are as many hashes as keys.
    proof fn lemma_view(&self)
        requires
            self.wf(),
        ensures
            is_keyed_by_hash(self@),
            self@.dom().finite(),
            self@.len() == self.txs@.len(),
    {
        assert forall|hash: Seq<u8>| #[trigger]
            self@.contains_key(hash) implies self@[hash].tx_hash@ == hash by {
            lemma_key_injective(self@[hash].tx_hash@, hash);
        }
        let keys = self.txs@.dom();
        let to_hash = |key: (u128, u128)| self.txs@[key].tx_hash@;
        assert(injective_on(to_hash, keys)) by {
            assert forall|a: (u128, u128), b: (u128, u128)|
                keys.contains(a) && keys.contains(b) && to_hash(a) == to_hash(b) implies a
                == b by {
                assert(self.txs@.contains_key(a) && self.txs@.contains_key(b));
            }
        }
        assert(keys.map(to_hash) =~= self@.dom()) by {
            assert forall|hash: Seq<u8>| self@.dom().contains(hash) implies keys.map(
                to_hash,
            ).contains(hash) by {
                assert(self@.contains_key(hash));
                assert(keys.contains(key_of(hash)));
                assert(to_hash(key_of(hash)) == hash);
            }
            assert forall|hash: Seq<u8>| #[trigger]
                keys.map(to_hash).contains(hash) implies self@.dom().contains(hash) by {
                let key = choose|key: (u128, u128)| keys.contains(key) && to_hash(key) == hash;
                assert(self.txs@.contains_key(key));
            }
        }
        vstd::set_lib::lemma_map_size(keys, self@.dom(), to_hash);
    }

    /// No transaction at all.
    pub fn new() -> (set: Self)
        ensures
            set.wf(),
            set@ == PendingMap::empty(),
    {
        let set = PendingSet { txs: BTreeMap::new() };
        assert(set@ =~= PendingMap::empty());
        set
    }

    /// The number of transactions.
    pub fn len(&self) -> (n: usize)
        requires
            self.wf(),
        ensures
            n == self@.len(),
    {
        proof {
            self.lemma_view();
        }
        self.txs.len()
    }

    /// Whether there is a transaction with the hash.
    pub fn contains(&self, hash: &TxHash) -> (r: bool)
        ensures
            r == self@.contains_key(hash@),
    {
        self.txs.contains_key(&hash.key())
    }

    /// Registers a transaction, in place of any with its hash.
    pub fn insert(&mut self, info: PendingTxInfo)
        requires
            old(self).wf(),
        ensures
            final(self).wf(),
            final(self)@ == old(self)@.insert(info.tx_hash@, info),
    {
        self.txs.insert(info.tx_hash.key(), info);
        proof {
            assert forall|h: Seq<u8>| h.len() == 32 && key_of(h) == key_of(info.tx_hash@) implies h
                == info.tx_hash@ by {
                lemma_key_injective(h, info.tx_hash@);
            }
            assert(self@ =~= old(self)@.insert(info.tx_hash@, info));
        }
    }

    /// Takes out the transaction with the hash, if there is one.
    pub fn remove(&mut self, hash: &TxHash) -> (info: Option<PendingTxInfo>)
        requires
            old(self).wf(),
        ensures
            final(self).wf(),
            final(self)@ == old(self)@.remove(hash@),
            info is Some <==> old(self)@.contains_key(hash@),
            info matches Some(i) ==> i == old(self)@[hash@] && i.tx_hash == *hash,
    {
        proof {
            self.lemma_view();
        }
        let info = self.txs.remove(&hash.key());
        proof {
            assert forall|h: Seq<u8>| h.len() == 32 && key_of(h) == key_of(hash@) implies h
                == hash@ by {
                lemma_key_injective(h, hash@);
            }
            assert(self@ =~= old(self)@.remove(hash@));
            assert(info matches Some(i) ==> i.tx_hash.bytes =~= hash.bytes);
        }
        info
    }

    /// Registers transactions in their order.
    pub fn register(&mut self, infos: Vec<PendingTxInfo>)
        requires
            old(self).wf(),
        ensures
            final(self).wf(),
            final(self)@ == registered(old(self)@, infos@),
    {
        let ghost start = self@;
        let ghost all = infos@;
        assert(all.take(0).len() == 0);
        for info in it: infos
            invariant
                self.wf(),
                it.seq() == all,
                self@ == registered(start, all.take(it.index() as int)),
        {
            assert(all.take(it.index() + 1).drop_last() =~= all.take(it.index() as int));
            self.insert(info);
        }
        assert(all.take(all.len() as int) =~= all);
    }

    /// Takes up receipts in their order, and returns the confirmations that they lead to.
    pub fn confirm(&mut self, replies: &Vec<(TxHash, ReceiptReply)>, now: Nanos) -> (out: Vec<
        TxnConfirmed,
    >)
        requires
            old(self).wf(),
        ensures
            final(self).wf(),
            (final(self)@, out@) == confirmed(old(self)@, replies@, now),
    {
        let ghost start = self@;
        let mut out: Vec<TxnConfirmed> = Vec::new();
        let mut i: usize = 0;
        assert(replies@.take(0).len() == 0);
        while i < replies.len()
            invariant
                i <= replies@.len(),
                self.wf(),
                (self@, out@) == confirmed(start, replies@.take(i as int), now),
            decreases replies@.len() - i,
        {
            assert(replies@.take(i + 1).drop_last() =~= replies@.take(i as int));
            let (hash, reply) = replies[i];
            match reply {
                ReceiptReply::Found(receipt) => {
                    let ghost before = self@;
                    match self.remove(&hash) {
                        Some(info) => {
                            out.push(
                                TxnConfirmed {
                                    tx_hash: info.tx_hash,
                                    latency: since(info.submit_time, now),
                                    gas_used: receipt.gas_used as u128,
                                    effective_gas_price: receipt.effective_gas_price,
                                    status: receipt.status,
                                    metadata: info.metadata,
                                },
                            );
                        },
                        None => {
                            assert(self@ =~= before);
                        },
                    }
                },
                _ => {},
            }
            i = i + 1;
        }
        assert(replies@.take(i as int) =~= replies@);
        out
    }

    /// Adds the pending ones of `hashes` to `matched`, except those that are there already. The
    /// keys of what is in `matched` are in `seen`.
    fn add_matches(
        &self,
        hashes: &Vec<TxHash>,
        seen: &mut BTreeSet<(u128, u128)>,
        matched: &mut Vec<TxHash>,
        Ghost(mined): Ghost<Seq<TxHash>>,
    )
        requires
            is_match(self@, mined, old(matched)@),
            keys_are(old(seen)@, old(matched)@),
        ensures
            is_match(self@, mined + hashes@, final(matched)@),
            keys_are(final(seen)@, final(matched)@),
    {
        let mut i: usize = 0;
        assert(mined + hashes@.take(0) =~= mined);
        while i < hashes.len()
            invariant
                i <= hashes@.len(),
                is_match(self@, mined + hashes@.take(i as int), matched@),
                keys_are(seen@, matched@),
            decreases hashes@.len() - i,
        {
            let hash = hashes[i];
            let ghost shorter = mined + hashes@.take(i as int);
            let ghost before = matched@;
            let ghost seen_before = seen@;
            assert(mined + hashes@.take(i + 1) =~= shorter.push(hash));
            let key = hash.key();
            if self.contains(&hash) && !seen.contains(&key) {
                seen.insert(key);
                matched.push(hash);
                proof {
                    lemma_match_extended(self@, shorter, before, hash);
                    lemma_keys_extended(seen_before, before, hash);
                }
            } else {
                proof {
                    lemma_match_kept(self@, shorter, before, seen@, hash);
                }
            }
            i = i + 1;
        }
        assert(hashes@.take(i as int) =~= hashes@);
    }

    /// The pending transactions among those of the blocks and the late ones, each of them once.
    pub fn match_blocks(&self, replies: &Vec<BlockReply>, late: &Vec<TxHash>) -> (matched: Vec<
        TxHash,
    >)
        ensures
            is_match(self@, mined_hashes(replies@) + late@, matched@),
            forall|hash: TxHash| #[trigger]
                matched@.contains(hash) <==> self@.contains_key(hash@) && (late@.contains(hash)
                    || exists|i: int|
                    0 <= i < replies@.len() && (match #[trigger] replies@[i] {
                        BlockReply::Block(BlockTransactions::Full(hashes)) => hashes@.contains(
                            hash,
                        ),
                        BlockReply::Block(BlockTransactions::Hashes(hashes)) => hashes@.contains(
                            hash,
                        ),
                        _ => false,
                    })),
    {
        let mut seen: BTreeSet<(u128, u128)> = BTreeSet::new();
        let mut matched: Vec<TxHash> = Vec::new();
        let mut i: usize = 0;
        assert(replies@.take(0).len() == 0);
        while i < replies.len()
            invariant
                i <= replies@.len(),
                is_match(self@, mined_hashes(replies@.take(i as int)), matched@),
                keys_are(seen@, matched@),
            decreases replies@.len() - i,
        {
            let ghost mined = mined_hashes(replies@.take(i as int));
            assert(replies@.take(i + 1).drop_last() =~= replies@.take(i as int));
            match &replies[i] {
                BlockReply::Block(BlockTransactions::Full(hashes)) => {
                    self.add_matches(hashes, &mut seen, &mut matched, Ghost(mined));
                },
                BlockReply::Block(BlockTransactions::Hashes(hashes)) => {
                    self.add_matches(hashes, &mut seen, &mut matched, Ghost(mined));
                },
                _ => {
                    assert(mined + Seq::<TxHash>::empty() =~= mined);
                },
            }
            i = i + 1;
        }
        assert(replies@.take(i as int) =~= replies@);
        self.add_matches(late, &mut seen, &mut matched, Ghost(mined_hashes(replies@)));
        proof {
            law_matched_are_mined_and_pending(self@, replies@, late@, matched@);
        }
        matched
    }

    /// What there is to say of each transaction that is overdue at `now`.
    pub fn overdue(&self, now: Nanos) -> (reports: Vec<StuckTx>)
        requires
            self.wf(),
        ensures
            is_stuck_report(self@, now, reports@),
    {
        proof {
            self.lemma_view();
        }
        let mut reports: Vec<StuckTx> = Vec::new();
        // For each report, the place of its transaction in the walk.
        let ghost mut places: Seq<int> = Seq::empty();
        let txs = self.txs.iter();
        let ghost walk = txs.remaining();
        for (_key, info) in it: txs
            invariant
                it.seq() == walk,
                places.len() == reports@.len(),
                forall|i: int|
                    0 <= i < reports@.len() ==> 0 <= (#[trigger] places[i]) < it.index()
                        && stuck_report(*walk[places[i]].1, now) == Some(reports@[i]),
                forall|i: int, j: int|
                    0 <= i < j < places.len() ==> (#[trigger] places[i]) < (#[trigger] places[j]),
                forall|k: int|
                    0 <= k < it.index() && stuck_report(*(#[trigger] walk[k]).1, now) is Some
                        ==> places.contains(k),
        {
            let ghost earlier = places;
            match overdue_report(info, now) {
                Some(report) => {
                    reports.push(report);
                    proof {
                        places = places.push(it.index() as int);
                        assert(places[places.len() - 1] == it.index());
                    }
                },
                None => {},
            }
            proof {
                assert forall|k: int|
                    0 <= k < it.index() + 1 && stuck_report(
                        *(#[trigger] walk[k]).1,
                        now,
                    ) is Some implies places.contains(k) by {
                    if k < it.index() {
                        let i = earlier.index_of(k);
                        assert(places[i] == k);
                    }
                }
            }
        }
        proof {
            assert forall|k: int| 0 <= k < walk.len() implies self.txs@.contains_key(
                *(#[trigger] walk[k]).0,
            ) && self@.contains_pair(walk[k].1.tx_hash@, *walk[k].1) by {
                assert(self.txs@[*walk[k].0] == *walk[k].1);
                assert(self.txs@.contains_key(*walk[k].0));
                assert(key_of(walk[k].1.tx_hash@) == *walk[k].0);
                assert(self@.contains_key(walk[k].1.tx_hash@));
            }
            assert forall|i: int, j: int| 0 <= i < j < reports@.len() implies (
            #[trigger] reports@[i]).tx_hash@ != (#[trigger] reports@[j]).tx_hash@ by {
                let (a, b) = (places[i], places[j]);
                if reports@[i].tx_hash@ == reports@[j].tx_hash@ {
                    assert(*walk[a].0 == *walk[b].0);
                    assert(walk[a] == walk[b]);
                }
            }
            assert forall|i: int| 0 <= i < reports@.len() implies self@.contains_key(
                (#[trigger] reports@[i]).tx_hash@,
            ) && stuck_report(self@[reports@[i].tx_hash@], now) == Some(reports@[i]) by {
                assert(self@.contains_pair(walk[places[i]].1.tx_hash@, *walk[places[i]].1));
            }
            assert forall|hash: Seq<u8>| #[trigger]
                self@.contains_key(hash) && stuck_report(self@[hash], now) is Some implies exists|
                i: int,
            |
                0 <= i < reports@.len() && (#[trigger] reports@[i]).tx_hash@ == hash by {
                let key = key_of(hash);
                assert(self.txs@.contains_key(key));
                let k = walk.index_of((&key, &self.txs@[key]));
                assert(walk[k].1 == self@[hash]);
                let i = places.index_of(k);
                assert(reports@[i].tx_hash@ == hash);
            }
        }
        reports
    }
}

/// Adds the hashes whose receipts were not there to `late`, in order.
pub fn add_late(replies: &Vec<(TxHash, ReceiptReply)>, late: &mut Vec<TxHash>)
    ensures
        final(late)@ == old(late)@ + late_hashes(replies@),
{
    let ghost start = late@;
    let mut i: usize = 0;
    assert(replies@.take(0).len() == 0);
    while i < replies.len()
        invariant
            i <= replies@.len(),
            late@ =~= start + late_hashes(replies@.take(i as int)),
        decreases replies@.len() - i,
    {
        assert(replies@.take(i + 1).drop_last() =~= replies@.take(i as int));
        if replies[i].1 == ReceiptReply::NotFound {
            late.push(replies[i].0);
        }
        i = i + 1;
    }
    assert(replies@.take(i as int) =~= replies@);
}

/// Nanoseconds from `submit_time` to `now`.
fn since(submit_time: Nanos, now: Nanos) -> (r: u64)
    ensures
        r == elapsed(submit_time, now),
{
    if submit_time <= now {
        now - submit_time
    } else {
        0
    }
}

/// How long overdue a transaction is after `elapsed_secs`, if at all.
fn level_after(elapsed_secs: u64) -> (level: Option<StuckLevel>)
    ensures
        level == stuck_level(elapsed_secs as nat),
{
    if elapsed_secs >= TIMEOUT_SECS {
        Some(StuckLevel::Timeout)
    } else if elapsed_secs >= STUCK_SECS {
        Some(StuckLevel::Stuck)
    } else if elapsed_secs >= WARN_PENDING_SECS {
        Some(StuckLevel::Warning)
    } else {
        None
    }
}

/// What there is to say of a pending transaction at `now`, if it is overdue.
fn overdue_report(info: &PendingTxInfo, now: Nanos) -> (report: Option<StuckTx>)
    ensures
        report == stuck_report(*info, now),
{
    let elapsed_secs = since(info.submit_time, now) / 1_000_000_000;
    match level_after(elapsed_secs) {
        Some(level) => Some(
            StuckTx {
                tx_hash: info.tx_hash,
                level,
                elapsed_secs,
                account: info.metadata.from_account,
                nonce: info.metadata.nonce,
            },
        ),
        None => None,
    }
}

/// Whether a hash is among `hashes`.
pub open spec fn is_among(hashes: Seq<TxHash>, hash: Seq<u8>) -> bool {
    exists|i: int| 0 <= i < hashes.len() && (#[trigger] hashes[i])@ == hash
}

/// The hashes of the transactions that are confirmed.
pub open spec fn confirmed_hashes(confirmations: Seq<TxnConfirmed>) -> Seq<TxHash> {
    confirmations.map_values(|c: TxnConfirmed| c.tx_hash)
}

/// A hash whose receipt was found has been asked for.
pub(crate) proof fn lemma_found_was_asked(replies: Seq<(TxHash, ReceiptReply)>, i: int)
    requires
        0 <= i < found_hashes(replies).len(),
    ensures
        exists|k: int|
            0 <= k < replies.len() && (#[trigger] replies[k]).0 == found_hashes(replies)[i],
    decreases replies.len(),
{
    let shorter = replies.drop_last();
    if i < found_hashes(shorter).len() {
        lemma_found_was_asked(shorter, i);
        let k = choose|k: int|
            0 <= k < shorter.len() && (#[trigger] shorter[k]).0 == found_hashes(shorter)[i];
        assert(replies[k].0 == found_hashes(replies)[i]);
    } else {
        assert(replies[replies.len() - 1].0 == found_hashes(replies)[i]);
    }
}

/// Where different pending transactions are asked for, exactly those whose receipts were found are
/// confirmed, in order, and they cease to be pending.
pub proof fn law_found_are_confirmed(
    pending: PendingMap,
    replies: Seq<(TxHash, ReceiptReply)>,
    now: Nanos,
)
    requires
        is_keyed_by_hash(pending),
        forall|i: int| 0 <= i < replies.len() ==> pending.contains_key((#[trigger] replies[i]).0@),
        forall|i: int, j: int|
            0 <= i < j < replies.len() ==> (#[trigger] replies[i]).0@ != (#[trigger] replies[j]).0@,
    ensures
        confirmed_hashes(confirmed(pending, replies, now).1) == found_hashes(replies),
        forall|hash: Seq<u8>| #[trigger]
            confirmed(pending, replies, now).0.contains_key(hash) <==> pending.contains_key(hash)
                && !is_among(found_hashes(replies), hash),
    decreases replies.len(),
{
    if replies.len() > 0 {
        let shorter = replies.drop_last();
        law_found_are_confirmed(pending, shorter, now);
        law_confirmed_once(pending, shorter, now);
        let (left, out) = confirmed(pending, shorter, now);
        let (hash, reply) = replies.last();
        if is_among(found_hashes(shorter), hash@) {
            let i = choose|i: int|
                0 <= i < found_hashes(shorter).len() && (#[trigger] found_hashes(shorter)[i])@
                    == hash@;
            lemma_found_was_asked(shorter, i);
            let k = choose|k: int|
                0 <= k < shorter.len() && (#[trigger] shorter[k]).0 == found_hashes(shorter)[i];
            assert(replies[k].0@ != replies[replies.len() - 1].0@);
        }
        assert(pending.contains_key(replies[replies.len() - 1].0@));
        assert(left.contains_key(hash@));
        if reply is Found {
            assert(left[hash@].tx_hash.bytes =~= hash.bytes);
            assert(confirmed_hashes(confirmed(pending, replies, now).1) =~= confirmed_hashes(
                out,
            ).push(hash));
            let found = found_hashes(replies);
            assert forall|h: Seq<u8>| is_among(found, h) == (is_among(found_hashes(shorter), h) || h
                == hash@) by {
                if is_among(found_hashes(shorter), h) {
                    let i = choose|i: int|
                        0 <= i < found_hashes(shorter).len() && (
                        #[trigger] found_hashes(shorter)[i])@ == h;
                    assert(found[i]@ == h);
                }
                if h == hash@ {
                    assert(found[found.len() - 1]@ == h);
                }
                if is_among(found, h) && h != hash@ {
                    let i = choose|i: int| 0 <= i < found.len() && (#[trigger] found[i])@ == h;
                    assert(found_hashes(shorter)[i]@ == h);
                }
            }
        }
    } else {
        assert(confirmed_hashes(confirmed(pending, replies, now).1) =~= found_hashes(replies));
    }
}

/// A hash is among two sequences, one after the other, if it is among either.
pub(crate) proof fn lemma_among_either(first: Seq<TxHash>, second: Seq<TxHash>)
    ensures
        forall|hash: Seq<u8>| #[trigger]
            is_among(first + second, hash) <==> is_among(first, hash) || is_among(second, hash),
{
    assert forall|hash: Seq<u8>| #[trigger]
        is_among(first + second, hash) <==> is_among(first, hash) || is_among(second, hash) by {
        if is_among(first, hash) {
            let i = choose|i: int| 0 <= i < first.len() && (#[trigger] first[i])@ == hash;
            assert((first + second)[i]@ == hash);
        }
        if is_among(second, hash) {
            let i = choose|i: int| 0 <= i < second.len() && (#[trigger] second[i])@ == hash;
            assert((first + second)[first.len() + i]@ == hash);
        }
        if is_among(first + second, hash) {
            let i = choose|i: int|
                0 <= i < (first + second).len() && (#[trigger] (first + second)[i])@ == hash;
            if i < first.len() {
                assert(first[i]@ == hash);
            } else {
                assert(second[i - first.len()]@ == hash);
            }
        }
    }
}

/// Replies that come one after the other: what was found comes one after the other, and so does
/// what was not there.
pub(crate) proof fn lemma_replies_in_turn(
    first: Seq<(TxHash, ReceiptReply)>,
    second: Seq<(TxHash, ReceiptReply)>,
)
    ensures
        found_hashes(first + second) == found_hashes(first) + found_hashes(second),
        late_hashes(first + second) == late_hashes(first) + late_hashes(second),
    decreases second.len(),
{
    if second.len() == 0 {
        assert(first + second =~= first);
        assert(found_hashes(first) + found_hashes(second) =~= found_hashes(first));
        assert(late_hashes(first) + late_hashes(second) =~= late_hashes(first));
    } else {
        lemma_replies_in_turn(first, second.drop_last());
        assert((first + second).drop_last() =~= first + second.drop_last());
        assert(found_hashes(first + second) =~= found_hashes(first) + found_hashes(second));
        assert(late_hashes(first + second) =~= late_hashes(first) + late_hashes(second));
    }
}

/// Every confirmation is of a transaction that was pending, each transaction is confirmed once, and
/// those that are confirmed, and no others, cease to be pending.
pub proof fn law_confirmed_once(
    pending: PendingMap,
    replies: Seq<(TxHash, ReceiptReply)>,
    now: Nanos,
)
    requires
        is_keyed_by_hash(pending),
    ensures
        ({
            let (left, out) = confirmed(pending, replies, now);
            &&& forall|i: int|
                0 <= i < out.len() ==> pending.contains_key((#[trigger] out[i]).tx_hash@)
                    && !left.contains_key(out[i].tx_hash@) && out[i].metadata
                    == pending[out[i].tx_hash@].metadata
            &&& forall|i: int, j: int|
                0 <= i < j < out.len() ==> (#[trigger] out[i]).tx_hash@ != (
                #[trigger] out[j]).tx_hash@
            &&& forall|hash: Seq<u8>| #[trigger]
                left.contains_key(hash) ==> pending.contains_key(hash) && left[hash]
                    == pending[hash]
            &&& forall|hash: Seq<u8>| #[trigger]
                pending.contains_key(hash) && !left.contains_key(hash) ==> exists|i: int|
                    0 <= i < out.len() && (#[trigger] out[i]).tx_hash@ == hash
        }),
    decreases replies.len(),
{
    if replies.len() > 0 {
        law_confirmed_once(pending, replies.drop_last(), now);
        let (left, out) = confirmed(pending, replies.drop_last(), now);
        let (final_left, final_out) = confirmed(pending, replies, now);
        let (hash, reply) = replies.last();
        if reply is Found && left.contains_key(hash@) {
            assert(final_out.drop_last() =~= out);
            assert(final_out[final_out.len() - 1].tx_hash@ == hash@);
            assert forall|h: Seq<u8>| #[trigger]
                pending.contains_key(h) && !final_left.contains_key(h) implies exists|i: int|
                0 <= i < final_out.len() && (#[trigger] final_out[i]).tx_hash@ == h by {
                if h != hash@ {
                    let i = choose|i: int| 0 <= i < out.len() && (#[trigger] out[i]).tx_hash@ == h;
                    assert(final_out[i] == out[i]);
                }
            }
        }
    }
}

/// A receipt that was found for a pending transaction confirms it, whatever comes before and after.
pub proof fn law_receipt_confirms(
    pending: PendingMap,
    replies: Seq<(TxHash, ReceiptReply)>,
    now: Nanos,
    i: int,
)
    requires
        0 <= i < replies.len(),
        replies[i].1 is Found,
    ensures
        !confirmed(pending, replies, now).0.contains_key(replies[i].0@),
    decreases replies.len(),
{
    if i < replies.len() - 1 {
        law_receipt_confirms(pending, replies.drop_last(), now, i);
    }
}

/// What has been registered is pending, and what was pending before still is.
pub proof fn law_registered_is_pending(pending: PendingMap, infos: Seq<PendingTxInfo>)
    ensures
        forall|i: int|
            0 <= i < infos.len() ==> registered(pending, infos).contains_key(
                (#[trigger] infos[i]).tx_hash@,
            ),
        forall|hash: Seq<u8>| #[trigger]
            pending.contains_key(hash) ==> registered(pending, infos).contains_key(hash),
    decreases infos.len(),
{
    if infos.len() > 0 {
        law_registered_is_pending(pending, infos.drop_last());
        assert forall|i: int| 0 <= i < infos.len() implies registered(pending, infos).contains_key(
            (#[trigger] infos[i]).tx_hash@,
        ) by {
            if i < infos.len() - 1 {
                assert(infos.drop_last()[i] == infos[i]);
            }
        }
    }
}

/// A transaction that is overdue stays so for as long as it is pending, and its level never drops.
pub proof fn law_overdue_grows(info: PendingTxInfo, now: Nanos, later: Nanos)
    requires
        now <= later,
    ensures
        stuck_report(info, now) matches Some(first) ==> (stuck_report(info, later) matches Some(
            second,
        ) && first.elapsed_secs <= second.elapsed_secs && (first.level is Timeout
            ==> second.level is Timeout) && (first.level is Stuck ==> !(
        second.level is Warning))),
{
}

/// The mined hashes are those that any of the blocks holds, wherever it stands among them: its
/// transactions are taken in full or as hashes, and no other reply holds any.
pub proof fn law_every_block_counts(replies: Seq<BlockReply>, hash: TxHash)
    ensures
        mined_hashes(replies).contains(hash) <==> exists|i: int|
            0 <= i < replies.len() && (match #[trigger] replies[i] {
                BlockReply::Block(BlockTransactions::Full(hashes)) => hashes@.contains(hash),
                BlockReply::Block(BlockTransactions::Hashes(hashes)) => hashes@.contains(hash),
                _ => false,
            }),
    decreases replies.len(),
{
    broadcast use vstd::seq_lib::group_seq_properties;

    if replies.len() > 0 {
        let shorter = replies.drop_last();
        let last = replies.len() - 1;
        law_every_block_counts(shorter, hash);
        assert(replies[last] == replies.last());
        if mined_hashes(shorter).contains(hash) {
            let i = choose|i: int|
                0 <= i < shorter.len() && (match #[trigger] shorter[i] {
                    BlockReply::Block(BlockTransactions::Full(hashes)) => hashes@.contains(hash),
                    BlockReply::Block(BlockTransactions::Hashes(hashes)) => hashes@.contains(hash),
                    _ => false,
                });
            assert(replies[i] == shorter[i]);
        }
        if exists|i: int|
            0 <= i < replies.len() && (match #[trigger] replies[i] {
                BlockReply::Block(BlockTransactions::Full(hashes)) => hashes@.contains(hash),
                BlockReply::Block(BlockTransactions::Hashes(hashes)) => hashes@.contains(hash),
                _ => false,
            }) {
            let i = choose|i: int|
                0 <= i < replies.len() && (match #[trigger] replies[i] {
                    BlockReply::Block(BlockTransactions::Full(hashes)) => hashes@.contains(hash),
                    BlockReply::Block(BlockTransactions::Hashes(hashes)) => hashes@.contains(hash),
                    _ => false,
                });
            if i < last {
                assert(shorter[i] == replies[i]);
            }
        }
    }
}

/// What is matched are exactly the pending transactions that any of the blocks holds or that are
/// late, each of them once.
pub proof fn law_matched_are_mined_and_pending(
    pending: PendingMap,
    replies: Seq<BlockReply>,
    late: Seq<TxHash>,
    matched: Seq<TxHash>,
)
    requires
        is_match(pending, mined_hashes(replies) + late, matched),
    ensures
        forall|hash: TxHash| #[trigger]
            matched.contains(hash) <==> pending.contains_key(hash@) && (late.contains(hash)
                || exists|i: int|
                0 <= i < replies.len() && (match #[trigger] replies[i] {
                    BlockReply::Block(BlockTransactions::Full(hashes)) => hashes@.contains(hash),
                    BlockReply::Block(BlockTransactions::Hashes(hashes)) => hashes@.contains(hash),
                    _ => false,
                })),
        forall|i: int, j: int| 0 <= i < j < matched.len() ==> matched[i] != matched[j],
{
    broadcast use vstd::seq_lib::group_seq_properties;

    assert forall|hash: TxHash| #[trigger]
        matched.contains(hash) <==> pending.contains_key(hash@) && (late.contains(hash) || exists|
        i: int,
    |
        0 <= i < replies.len() && (match #[trigger] replies[i] {
            BlockReply::Block(BlockTransactions::Full(hashes)) => hashes@.contains(hash),
            BlockReply::Block(BlockTransactions::Hashes(hashes)) => hashes@.contains(hash),
            _ => false,
        })) by {
        law_every_block_counts(replies, hash);
        assert((mined_hashes(replies) + late).contains(hash) <==> mined_hashes(replies).contains(
            hash,
        ) || late.contains(hash));
    }
}

/// Every confirmation carries what the first receipt found for its hash says, whether or not the
/// transaction succeeded, and the time from its submission, with the metadata that it was
/// registered with.
pub proof fn law_confirmations_carry_receipts(
    pending: PendingMap,
    replies: Seq<(TxHash, ReceiptReply)>,
    now: Nanos,
)
    requires
        is_keyed_by_hash(pending),
    ensures
        forall|i: int|
            #![trigger confirmed(pending, replies, now).1[i]]
            0 <= i < confirmed(pending, replies, now).1.len() ==> {
                let c = confirmed(pending, replies, now).1[i];
                let info = pending[c.tx_hash@];
                &&& pending.contains_key(c.tx_hash@)
                &&& c.metadata == info.metadata
                &&& now >= info.submit_time ==> c.latency == now - info.submit_time
                &&& now < info.submit_time ==> c.latency == 0
                &&& exists|k: int|
                    #![trigger replies[k]]
                    0 <= k < replies.len() && replies[k].0 == c.tx_hash && (match replies[k].1 {
                        ReceiptReply::Found(receipt) => c.status == receipt.status && c.gas_used
                            == receipt.gas_used && c.effective_gas_price
                            == receipt.effective_gas_price,
                        _ => false,
                    }) && forall|j: int|
                        0 <= j < k && (#[trigger] replies[j]).0 == c.tx_hash ==> !(
                        replies[j].1 is Found)
            },
    decreases replies.len(),
{
    if replies.len() > 0 {
        let shorter = replies.drop_last();
        let last = replies.len() - 1;
        law_confirmations_carry_receipts(pending, shorter, now);
        law_confirmed_once(pending, shorter, now);
        let (left, out) = confirmed(pending, shorter, now);
        let all = confirmed(pending, replies, now).1;
        let (hash, reply) = replies.last();
        assert forall|i: int| #![trigger all[i]] 0 <= i < all.len() implies {
            let c = all[i];
            let info = pending[c.tx_hash@];
            &&& pending.contains_key(c.tx_hash@)
            &&& c.metadata == info.metadata
            &&& now >= info.submit_time ==> c.latency == now - info.submit_time
            &&& now < info.submit_time ==> c.latency == 0
            &&& exists|k: int|
                #![trigger replies[k]]
                0 <= k < replies.len() && replies[k].0 == c.tx_hash && (match replies[k].1 {
                    ReceiptReply::Found(receipt) => c.status == receipt.status && c.gas_used
                        == receipt.gas_used && c.effective_gas_price
                        == receipt.effective_gas_price,
                    _ => false,
                }) && forall|j: int|
                    0 <= j < k && (#[trigger] replies[j]).0 == c.tx_hash ==> !(
                    replies[j].1 is Found)
        } by {
            let c = all[i];
            if i < out.len() {
                assert(c == out[i]);
                let k = choose|k: int|
                    #![trigger shorter[k]]
                    0 <= k < shorter.len() && shorter[k].0 == c.tx_hash && (match shorter[k].1 {
                        ReceiptReply::Found(receipt) => c.status == receipt.status && c.gas_used
                            == receipt.gas_used && c.effective_gas_price
                            == receipt.effective_gas_price,
                        _ => false,
                    }) && forall|j: int|
                        0 <= j < k && (#[trigger] shorter[j]).0 == c.tx_hash ==> !(
                        shorter[j].1 is Found);
                assert(replies[k] == shorter[k]);
                assert forall|j: int|
                    0 <= j < k && (#[trigger] replies[j]).0 == c.tx_hash implies !(
                replies[j].1 is Found) by {
                    assert(shorter[j] == replies[j]);
                }
            } else {
                lemma_same_bytes(left[hash@].tx_hash, hash);
                assert(replies[last].0 == c.tx_hash);
                assert forall|j: int|
                    0 <= j < last && (#[trigger] replies[j]).0 == c.tx_hash implies !(
                replies[j].1 is Found) by {
                    assert(shorter[j] == replies[j]);
                    if replies[j].1 is Found {
                        law_receipt_confirms(pending, shorter, now, j);
                    }
                }
            }
        }
    }
}

/// Whether `k` is the place of the first receipt that is found for a hash.
pub open spec fn is_first_found(
    replies: Seq<(TxHash, ReceiptReply)>,
    hash: TxHash,
    k: int,
) -> bool {
    &&& 0 <= k < replies.len()
    &&& replies[k].0 == hash
    &&& replies[k].1 is Found
    &&& forall|j: int| 0 <= j < k && (#[trigger] replies[j]).0 == hash ==> !(replies[j].1 is Found)
}

/// The confirmations come in the order of the receipts that they are from.
pub proof fn law_confirmations_in_order(
    pending: PendingMap,
    replies: Seq<(TxHash, ReceiptReply)>,
    now: Nanos,
    i: int,
    j: int,
    a: int,
    b: int,
)
    requires
        is_keyed_by_hash(pending),
        0 <= i < j < confirmed(pending, replies, now).1.len(),
        is_first_found(replies, confirmed(pending, replies, now).1[i].tx_hash, a),
        is_first_found(replies, confirmed(pending, replies, now).1[j].tx_hash, b),
    ensures
        a < b,
    decreases replies.len(),
{
    let shorter = replies.drop_last();
    let last = replies.len() - 1;
    let (left, out) = confirmed(pending, shorter, now);
    let all = confirmed(pending, replies, now).1;
    law_confirmed_once(pending, shorter, now);
    law_confirmations_carry_receipts(pending, shorter, now);
    assert(i < out.len());
    assert(all[i] == out[i]);
    lemma_found_earlier(pending, replies, now, i, a);
    if j < out.len() {
        assert(all[j] == out[j]);
        lemma_found_earlier(pending, replies, now, j, b);
        assert(is_first_found(shorter, out[i].tx_hash, a)) by {
            assert(forall|k: int| 0 <= k < shorter.len() ==> shorter[k] == replies[k]);
        }
        assert(is_first_found(shorter, out[j].tx_hash, b)) by {
            assert(forall|k: int| 0 <= k < shorter.len() ==> shorter[k] == replies[k]);
        }
        law_confirmations_in_order(pending, shorter, now, i, j, a, b);
    } else if b < last {
        lemma_same_bytes(left[replies.last().0@].tx_hash, replies.last().0);
        assert(shorter[b] == replies[b]);
        law_receipt_confirms(pending, shorter, now, b);
    }
}

/// The first receipt found for what all replies but the last confirm is among them.
proof fn lemma_found_earlier(
    pending: PendingMap,
    replies: Seq<(TxHash, ReceiptReply)>,
    now: Nanos,
    i: int,
    a: int,
)
    requires
        is_keyed_by_hash(pending),
        replies.len() > 0,
        0 <= i < confirmed(pending, replies.drop_last(), now).1.len(),
        is_first_found(
            replies,
            confirmed(pending, replies.drop_last(), now).1[i].tx_hash,
            a,
        ),
    ensures
        a < replies.len() - 1,
{
    let shorter = replies.drop_last();
    let c = confirmed(pending, shorter, now).1[i];
    law_confirmations_carry_receipts(pending, shorter, now);
    let k = choose|k: int|
        #![trigger shorter[k]]
        0 <= k < shorter.len() && shorter[k].0 == c.tx_hash && (match shorter[k].1 {
            ReceiptReply::Found(receipt) => c.status == receipt.status && c.gas_used
                == receipt.gas_used && c.effective_gas_price == receipt.effective_gas_price,
            _ => false,
        }) && forall|j: int|
            0 <= j < k && (#[trigger] shorter[j]).0 == c.tx_hash ==> !(shorter[j].1 is Found);
    assert(replies[k] == shorter[k]);
    if k < a {
        assert(!(replies[k].1 is Found));
    }
}

/// A pending transaction is confirmed exactly if a receipt is found for it, and else stays pending
/// as it was.
pub proof fn law_confirmed_if_found(
    pending: PendingMap,
    replies: Seq<(TxHash, ReceiptReply)>,
    now: Nanos,
    hash: TxHash,
)
    requires
        is_keyed_by_hash(pending),
        pending.contains_key(hash@),
    ensures
        (exists|k: int|
            0 <= k < replies.len() && (#[trigger] replies[k]).0 == hash && replies[k].1 is Found)
            <==> (exists|i: int|
            0 <= i < confirmed(pending, replies, now).1.len() && (#[trigger] confirmed(
                pending,
                replies,
                now,
            ).1[i]).tx_hash == hash),
        !(exists|k: int|
            0 <= k < replies.len() && (#[trigger] replies[k]).0 == hash && replies[k].1 is Found)
            <==> confirmed(pending, replies, now).0.contains_key(hash@),
        confirmed(pending, replies, now).0.contains_key(hash@) ==> confirmed(
            pending,
            replies,
            now,
        ).0[hash@] == pending[hash@],
{
    let (left, out) = confirmed(pending, replies, now);
    law_confirmed_once(pending, replies, now);
    law_confirmations_carry_receipts(pending, replies, now);
    if exists|k: int|
        0 <= k < replies.len() && (#[trigger] replies[k]).0 == hash && replies[k].1 is Found {
        let k = choose|k: int|
            0 <= k < replies.len() && (#[trigger] replies[k]).0 == hash && replies[k].1 is Found;
        law_receipt_confirms(pending, replies, now, k);
        let i = choose|i: int| 0 <= i < out.len() && (#[trigger] out[i]).tx_hash@ == hash@;
        lemma_same_bytes(out[i].tx_hash, hash);
        assert(out[i].tx_hash == hash);
    }
    if exists|i: int| 0 <= i < out.len() && (#[trigger] out[i]).tx_hash == hash {
        let i = choose|i: int| 0 <= i < out.len() && (#[trigger] out[i]).tx_hash == hash;
        assert(!left.contains_key(out[i].tx_hash@));
    }
    if !left.contains_key(hash@) {
        let i = choose|i: int| 0 <= i < out.len() && (#[trigger] out[i]).tx_hash@ == hash@;
        lemma_same_bytes(out[i].tx_hash, hash);
        assert(out[i].tx_hash == hash);
    }
}

/// Of several registrations of one hash the last one counts, whatever was pending before.
pub proof fn law_last_registration_counts(
    pending: PendingMap,
    infos: Seq<PendingTxInfo>,
    i: int,
)
    requires
        0 <= i < infos.len(),
        forall|j: int|
            i < j < infos.len() ==> (#[trigger] infos[j]).tx_hash@ != infos[i].tx_hash@,
    ensures
        registered(pending, infos).contains_pair(infos[i].tx_hash@, infos[i]),
    decreases infos.len(),
{
    if i < infos.len() - 1 {
        let shorter = infos.drop_last();
        assert(infos[infos.len() - 1].tx_hash@ != infos[i].tx_hash@);
        assert forall|j: int| i < j < shorter.len() implies (#[trigger] shorter[j]).tx_hash@
            != shorter[i].tx_hash@ by {
            assert(infos[j].tx_hash@ != infos[i].tx_hash@);
        }
        law_last_registration_counts(pending, shorter, i);
    }
}

/// A transaction that is not registered is left as it was, pending or not.
pub proof fn law_unregistered_is_left(
    pending: PendingMap,
    infos: Seq<PendingTxInfo>,
    hash: Seq<u8>,
)
    requires
        forall|i: int| 0 <= i < infos.len() ==> (#[trigger] infos[i]).tx_hash@ != hash,
    ensures
        registered(pending, infos).contains_key(hash) <==> pending.contains_key(hash),
        pending.contains_key(hash) ==> registered(pending, infos)[hash] == pending[hash],
    decreases infos.len(),
{
    if infos.len() > 0 {
        let shorter = infos.drop_last();
        assert(infos[infos.len() - 1].tx_hash@ != hash);
        assert forall|i: int| 0 <= i < shorter.len() implies (#[trigger] shorter[i]).tx_hash@
            != hash by {
            assert(infos[i].tx_hash@ != hash);
        }
        law_unregistered_is_left(pending, shorter, hash);
    }
}

/// What is said of an overdue transaction: nothing in the first thirty seconds, a warning from then
/// on, that it is stuck from two minutes on and that it has timed out from five minutes on, with the
/// whole seconds since its submission, its account and its nonce.
pub proof fn law_overdue_levels(info: PendingTxInfo, now: Nanos)
    ensures
        ({
            let waited: int = if now >= info.submit_time {
                now - info.submit_time
            } else {
                0
            };
            &&& stuck_report(info, now) is Some <==> waited >= 30_000_000_000
            &&& stuck_report(info, now) matches Some(report) ==> {
                &&& report.tx_hash == info.tx_hash
                &&& report.account == info.metadata.from_account
                &&& report.nonce == info.metadata.nonce
                &&& report.elapsed_secs * 1_000_000_000 <= waited
                &&& waited < (report.elapsed_secs + 1) * 1_000_000_000
                &&& report.level is Timeout <==> waited >= 300_000_000_000
                &&& report.level is Stuck <==> 120_000_000_000 <= waited < 300_000_000_000
                &&& report.level is Warning <==> waited < 120_000_000_000
            }
        }),
{
}

/// A report of overdue transactions: every pending transaction that has waited for thirty seconds or
/// longer is reported, once, at its level, and no other.
pub proof fn law_overdue_are_reported(pending: PendingMap, now: Nanos, reports: Seq<StuckTx>)
    requires
        is_keyed_by_hash(pending),
        is_stuck_report(pending, now, reports),
    ensures
        forall|hash: Seq<u8>| #[trigger]
            pending.contains_key(hash) && now - pending[hash].submit_time >= 30_000_000_000
                ==> exists|i: int|
                0 <= i < reports.len() && (#[trigger] reports[i]).tx_hash@ == hash,
        forall|i: int|
            #![trigger reports[i]]
            0 <= i < reports.len() ==> {
                let report = reports[i];
                let info = pending[report.tx_hash@];
                let waited = now - info.submit_time;
                &&& pending.contains_key(report.tx_hash@)
                &&& waited >= 30_000_000_000
                &&& report.level is Timeout <==> waited >= 300_000_000_000
                &&& report.level is Stuck <==> 120_000_000_000 <= waited < 300_000_000_000
                &&& report.elapsed_secs == waited / 1_000_000_000
                &&& report.account == info.metadata.from_account
                &&& report.nonce == info.metadata.nonce
            },
        forall|i: int, j: int|
            0 <= i < j < reports.len() ==> (#[trigger] reports[i]).tx_hash@ != (
            #[trigger] reports[j]).tx_hash@,
{
    assert forall|hash: Seq<u8>| #[trigger]
        pending.contains_key(hash) && now - pending[hash].submit_time
            >= 30_000_000_000 implies exists|i: int|
        0 <= i < reports.len() && (#[trigger] reports[i]).tx_hash@ == hash by {
        law_overdue_levels(pending[hash], now);
    }
    assert forall|i: int| #![trigger reports[i]] 0 <= i < reports.len() implies {
        let report = reports[i];
        let info = pending[report.tx_hash@];
        let waited = now - info.submit_time;
        &&& pending.contains_key(report.tx_hash@)
        &&& waited >= 30_000_000_000
        &&& report.level is Timeout <==> waited >= 300_000_000_000
        &&& report.level is Stuck <==> 120_000_000_000 <= waited < 300_000_000_000
        &&& report.elapsed_secs == waited / 1_000_000_000
        &&& report.account == info.metadata.from_account
        &&& report.nonce == info.metadata.nonce
    } by {
        law_overdue_levels(pending[reports[i].tx_hash@], now);
    }
}

/// Late are the hashes of all replies without a receipt and found those of all replies with one, in
/// the order of the replies. A reply that failed is neither.
pub proof fn law_late_and_found(replies: Seq<(TxHash, ReceiptReply)>)
    ensures
        late_hashes(replies) == replies.filter(
            |r: (TxHash, ReceiptReply)| r.1 is NotFound,
        ).map_values(|r: (TxHash, ReceiptReply)| r.0),
        found_hashes(replies) == replies.filter(
            |r: (TxHash, ReceiptReply)| r.1 is Found,
        ).map_values(|r: (TxHash, ReceiptReply)| r.0),
    decreases replies.len(),
{
    let hash = |r: (TxHash, ReceiptReply)| r.0;
    lemma_kept(replies, |r: (TxHash, ReceiptReply)| r.1 is NotFound, hash);
    lemma_kept(replies, |r: (TxHash, ReceiptReply)| r.1 is Found, hash);
    if replies.len() > 0 {
        law_late_and_found(replies.drop_last());
    }
}

} // verus!
