//! Per-client offline/overflow queue shared by the storage backends.
//!
//! A client is behind exactly when its queue is non-empty, a batch taken from it is unfinished or
//! a displaced handler still has deliveries to hand back. The count is the queue length after
//! every operation. Work for the write-behind task is appended to the queue's lane; the message
//! body stays in memory until its file exists.

use super::{is_past, InflightDirection, InflightMessage, QueuedMessage};
use crate::text::share;
use crate::text_map::TextMap;
use crate::types::{PublishPacket, QoS};
use std::collections::VecDeque;
use std::sync::Arc;
use vstd::prelude::*;

verus! {

/// Sequence numbers start high so a front re-queue always has room below the oldest entry.
pub const SEQ_FLOOR: u64 = 0x4000_0000_0000_0000;

/// Bounds on one client's queue; the oldest entries are dropped when either is exceeded.
#[derive(Debug, Clone, Copy)]
pub struct QueueLimits {
    pub max_messages: usize,
    pub max_bytes: usize,
}

impl Default for QueueLimits {
    fn default() -> (r: Self)
        ensures
            r.max_messages == 10_000,
            r.max_bytes == 64 * 1024 * 1024,
    {
        QueueLimits { max_messages: 10_000, max_bytes: 67_108_864 }
    }
}

/// Work handed to the write-behind task, in per-client FIFO order.
#[derive(Debug)]
pub enum QueueOp {
    Write { client_id: String, seq: u64, body: Arc<QueuedMessage> },
    Delete { client_id: String, seq: u64 },
    StoreInflight(Box<InflightMessage>),
    RemoveInflight { client_id: String, packet_id: u16, direction: InflightDirection },
    RemoveAllInflight { client_id: String },
}

/// One queued message: its body is in memory, or in a file that the startup scan found.
#[derive(Debug)]
pub struct QueueEntry {
    pub seq: u64,
    pub bytes: usize,
    pub expires_at: Option<u64>,
    pub body: Option<Arc<QueuedMessage>>,
    pub path: Option<String>,
}

impl QueueEntry {
    /// The entry of a message in memory.
    pub open spec fn of(seq: u64, message: QueuedMessage) -> QueueEntry {
        QueueEntry {
            seq,
            bytes: message.payload@.len() as usize,
            expires_at: message.expires_at,
            body: Some(Arc::new(message)),
            path: None,
        }
    }

    /// Whether the deadline of the entry has passed.
    pub fn is_expired(&self, now: u64) -> (r: bool)
        ensures
            r == crate::broker::storage::past(self.expires_at, now),
    {
        is_past(self.expires_at, now)
    }

    /// Whether the entry is live and its body is still in a file.
    pub fn is_unread(&self, now: u64) -> (r: bool)
        ensures
            r == unread(*self, now),
    {
        self.body.is_none() && self.path.is_some() && !self.is_expired(now)
    }
}

impl Clone for QueueEntry {
    fn clone(&self) -> (r: Self)
        ensures
            r == *self,
    {
        QueueEntry {
            seq: self.seq,
            bytes: self.bytes,
            expires_at: self.expires_at,
            body: match &self.body {
                Some(body) => Some(share(body)),
                None => None,
            },
            path: crate::types::copy_text(&self.path),
        }
    }
}

/// What `push` did with the message.
#[derive(Debug, Clone, Copy, PartialEq, Eq, Structural)]
pub struct PushOutcome {
    pub seq: u64,
    pub dropped_oldest: usize,
}

/// One client's queue.
#[derive(Debug)]
pub struct ClientQueue {
    client_id: String,
    entries: VecDeque<QueueEntry>,
    bytes: u128,
    count: usize,
    handoffs: usize,
    draining: bool,
    wake: bool,
    quiesced: bool,
    limits: QueueLimits,
    lane: Option<Vec<QueueOp>>,
}

/// The bytes of all entries together.
pub open spec fn total_bytes(entries: Seq<QueueEntry>) -> nat
    decreases entries.len(),
{
    if entries.len() == 0 {
        0
    } else {
        entries[0].bytes as nat + total_bytes(entries.drop_first())
    }
}

/// More messages than allowed, or more bytes than allowed in more than one message.
pub open spec fn over_limits(entries: Seq<QueueEntry>, limits: QueueLimits) -> bool {
    ||| entries.len() > limits.max_messages
    ||| total_bytes(entries) > limits.max_bytes && entries.len() > 1
}

/// How many of the oldest entries have to go before the rest is within the limits.
pub open spec fn surplus(entries: Seq<QueueEntry>, limits: QueueLimits) -> nat
    decreases entries.len(),
{
    if entries.len() > 0 && over_limits(entries, limits) {
        1 + surplus(entries.drop_first(), limits)
    } else {
        0
    }
}

/// Which entries leave the queue.
#[derive(Debug, Clone, Copy)]
pub enum DropRule {
    /// Those with a sequence number below the cutoff, or all.
    Below(Option<u64>),
    /// Those whose deadline has passed at this moment.
    Expired(u64),
}

impl DropRule {
    /// Whether an entry leaves.
    pub open spec fn drops(self, e: QueueEntry) -> bool {
        match self {
            DropRule::Below(Some(cutoff)) => e.seq < cutoff,
            DropRule::Below(None) => true,
            DropRule::Expired(now) => crate::broker::storage::past(e.expires_at, now),
        }
    }

    fn applies(&self, e: &QueueEntry) -> (r: bool)
        ensures
            r == self.drops(*e),
    {
        match self {
            DropRule::Below(Some(cutoff)) => e.seq < *cutoff,
            DropRule::Below(None) => true,
            DropRule::Expired(now) => e.is_expired(*now),
        }
    }
}

/// The entries that a rule leaves, in order.
pub open spec fn kept(entries: Seq<QueueEntry>, rule: DropRule) -> Seq<QueueEntry>
    decreases entries.len(),
{
    if entries.len() == 0 {
        Seq::empty()
    } else if rule.drops(entries.last()) {
        kept(entries.drop_last(), rule)
    } else {
        kept(entries.drop_last(), rule).push(entries.last())
    }
}

/// The entries that a rule drops, in order.
pub open spec fn dropped(entries: Seq<QueueEntry>, rule: DropRule) -> Seq<QueueEntry>
    decreases entries.len(),
{
    if entries.len() == 0 {
        Seq::empty()
    } else if rule.drops(entries.last()) {
        dropped(entries.drop_last(), rule).push(entries.last())
    } else {
        dropped(entries.drop_last(), rule)
    }
}

/// The entries whose deadline has not passed, in order.
pub open spec fn live(entries: Seq<QueueEntry>, now: u64) -> Seq<QueueEntry> {
    kept(entries, DropRule::Expired(now))
}

/// The entries whose deadline has passed, in order.
pub open spec fn expired(entries: Seq<QueueEntry>, now: u64) -> Seq<QueueEntry> {
    dropped(entries, DropRule::Expired(now))
}

/// Whether the body of a live entry is still in a file.
pub open spec fn unread(e: QueueEntry, now: u64) -> bool {
    e.body is None && e.path is Some && !crate::broker::storage::past(e.expires_at, now)
}

/// Whether a take hands out the message of an entry: it is in memory and has not expired.
pub open spec fn hands_out(e: QueueEntry, now: u64) -> bool {
    &&& !crate::broker::storage::past(e.expires_at, now)
    &&& e.body is Some
    &&& !crate::broker::storage::past(e.body->0.recomputed().expires_at, now)
}

/// How many entries leave the front in a take: up to the one that makes the handed out messages
/// `limit`, or to the first whose body is still in a file, or all.
pub open spec fn reach(entries: Seq<QueueEntry>, limit: int, now: u64) -> nat
    decreases entries.len(),
{
    if limit <= 0 || entries.len() == 0 || unread(entries[0], now) {
        0
    } else if hands_out(entries[0], now) {
        1 + reach(entries.drop_first(), limit - 1, now)
    } else {
        1 + reach(entries.drop_first(), limit, now)
    }
}

/// The sequence numbers of entries.
pub open spec fn seqs(entries: Seq<QueueEntry>) -> Seq<u64> {
    entries.map_values(|e: QueueEntry| e.seq)
}

/// The numbers that are not in `reject`, in order.
pub open spec fn without(numbers: Seq<u64>, reject: Seq<u64>) -> Seq<u64>
    decreases numbers.len(),
{
    if numbers.len() == 0 {
        Seq::empty()
    } else if reject.contains(numbers.last()) {
        without(numbers.drop_last(), reject)
    } else {
        without(numbers.drop_last(), reject).push(numbers.last())
    }
}

/// One deletion for each number, in order.
pub open spec fn deletions(client_id: String, numbers: Seq<u64>) -> Seq<QueueOp> {
    numbers.map_values(|seq: u64| QueueOp::Delete { client_id, seq })
}

/// One write for each entry in memory whose number is not in `reject`, in order.
pub open spec fn writes(client_id: String, entries: Seq<QueueEntry>, reject: Seq<u64>) -> Seq<
    QueueOp,
>
    decreases entries.len(),
{
    if entries.len() == 0 {
        Seq::empty()
    } else {
        let before = writes(client_id, entries.drop_last(), reject);
        let last = entries.last();
        if reject.contains(last.seq) || last.body is None {
            before
        } else {
            before.push(QueueOp::Write { client_id, seq: last.seq, body: last.body->0 })
        }
    }
}

/// The entries of messages in memory, numbered from `first` on.
pub open spec fn batch(first: int, messages: Seq<QueuedMessage>) -> Seq<QueueEntry> {
    Seq::new(messages.len(), |i: int| QueueEntry::of((first + i) as u64, messages[i]))
}

/// The number of the first entry that a front re-queue of `len` messages uses: directly below
/// the head, or 0 where there is no room below it.
pub open spec fn requeue_first(entries: Seq<QueueEntry>, next_seq: u64, len: nat) -> int {
    let base = if entries.len() > 0 {
        entries[0].seq
    } else {
        next_seq
    };
    if base >= len {
        base - len
    } else {
        0
    }
}

/// The messages of taken entries as they are handed out: each with its deadline counted again,
/// those that have expired or have no body left out.
pub open spec fn delivered(entries: Seq<QueueEntry>, now: u64) -> Seq<QueuedMessage>
    decreases entries.len(),
{
    if entries.len() == 0 {
        Seq::empty()
    } else {
        let before = delivered(entries.drop_last(), now);
        match entries.last().body {
            Some(body) => if crate::broker::storage::past(body.recomputed().expires_at, now) {
                before
            } else {
                before.push(body.recomputed())
            },
            None => before,
        }
    }
}

/// The sequence numbers increase from the oldest entry to the newest.
pub open spec fn increasing(entries: Seq<QueueEntry>) -> bool {
    forall|i: int, j: int|
        #![trigger entries[i], entries[j]]
        0 <= i < j < entries.len() ==> entries[i].seq < entries[j].seq
}

proof fn lemma_total_push(entries: Seq<QueueEntry>, e: QueueEntry)
    ensures
        total_bytes(entries.push(e)) == total_bytes(entries) + e.bytes,
    decreases entries.len(),
{
    reveal_with_fuel(total_bytes, 2);
    if entries.len() > 0 {
        assert(entries.push(e).drop_first() =~= entries.drop_first().push(e));
        lemma_total_push(entries.drop_first(), e);
    } else {
        assert(entries.push(e).drop_first() =~= Seq::<QueueEntry>::empty());
    }
}

proof fn lemma_total_concat(a: Seq<QueueEntry>, b: Seq<QueueEntry>)
    ensures
        total_bytes(a + b) == total_bytes(a) + total_bytes(b),
    decreases a.len(),
{
    if a.len() == 0 {
        assert(a + b =~= b);
    } else {
        assert((a + b).drop_first() =~= a.drop_first() + b);
        lemma_total_concat(a.drop_first(), b);
    }
}

proof fn lemma_total_split(entries: Seq<QueueEntry>, rule: DropRule)
    ensures
        total_bytes(kept(entries, rule)) + total_bytes(dropped(entries, rule)) == total_bytes(
            entries,
        ),
        kept(entries, rule).len() + dropped(entries, rule).len() == entries.len(),
    decreases entries.len(),
{
    if entries.len() > 0 {
        let rest = entries.drop_last();
        lemma_total_split(rest, rule);
        lemma_total_push(rest, entries.last());
        assert(rest.push(entries.last()) =~= entries);
        lemma_total_push(kept(rest, rule), entries.last());
        lemma_total_push(dropped(rest, rule), entries.last());
    }
}

proof fn lemma_total_bound(entries: Seq<QueueEntry>)
    ensures
        total_bytes(entries) <= entries.len() * usize::MAX,
        entries.len() <= usize::MAX ==> total_bytes(entries) + usize::MAX <= u128::MAX,
    decreases entries.len(),
{
    if entries.len() > 0 {
        lemma_total_bound(entries.drop_first());
        assert(entries.len() * usize::MAX == (entries.len() - 1) * usize::MAX + usize::MAX)
            by (nonlinear_arith);
    }
    if entries.len() <= usize::MAX {
        assert(entries.len() * usize::MAX <= usize::MAX * usize::MAX) by (nonlinear_arith)
            requires
                entries.len() <= usize::MAX,
        ;
        assert(usize::MAX * usize::MAX + usize::MAX <= u128::MAX) by (nonlinear_arith)
            requires
                usize::MAX <= 0xffff_ffff_ffff_ffff,
        ;
    }
}

/// Dropping the surplus brings a queue within its limits, and dropping fewer of the oldest entries
/// does not.
pub proof fn lemma_surplus(entries: Seq<QueueEntry>, limits: QueueLimits)
    ensures
        surplus(entries, limits) <= entries.len(),
        !over_limits(entries.skip(surplus(entries, limits) as int), limits),
        forall|n: int|
            0 <= n < surplus(entries, limits) ==> over_limits(#[trigger] entries.skip(n), limits),
    decreases entries.len(),
{
    assert(entries.skip(0) =~= entries);
    if entries.len() > 0 && over_limits(entries, limits) {
        let rest = entries.drop_first();
        lemma_surplus(rest, limits);
        assert(rest.skip(surplus(rest, limits) as int) =~= entries.skip(
            surplus(entries, limits) as int,
        ));
        assert forall|n: int| 0 <= n < surplus(entries, limits) implies over_limits(
            #[trigger] entries.skip(n),
            limits,
        ) by {
            if n > 0 {
                assert(entries.skip(n) =~= rest.skip(n - 1));
            }
        }
    }
}

proof fn lemma_reach(entries: Seq<QueueEntry>, limit: int, now: u64)
    ensures
        reach(entries, limit, now) <= entries.len(),
    decreases entries.len(),
{
    if limit > 0 && entries.len() > 0 {
        lemma_reach(entries.drop_first(), limit, now);
        lemma_reach(entries.drop_first(), limit - 1, now);
    }
}

fn holds_number(numbers: &Vec<u64>, n: u64) -> (r: bool)
    ensures
        r == numbers@.contains(n),
{
    let mut i: usize = 0;
    while i < numbers.len()
        invariant
            i <= numbers@.len(),
            forall|j: int| 0 <= j < i ==> numbers@[j] != n,
        decreases numbers@.len() - i,
    {
        if numbers[i] == n {
            assert(numbers@[i as int] == n);
            return true;
        }
        i = i + 1;
    }
    false
}

impl ClientQueue {
    /// The client that the queue belongs to.
    pub closed spec fn id(&self) -> String {
        self.client_id
    }

    /// The queued entries, oldest first.
    pub closed spec fn queued(&self) -> Seq<QueueEntry> {
        self.entries@
    }

    /// The bounds of the queue.
    pub closed spec fn bounds(&self) -> QueueLimits {
        self.limits
    }

    /// How many displaced handlers still hold deliveries.
    pub closed spec fn open_handoffs(&self) -> usize {
        self.handoffs
    }

    /// Whether a batch taken from the queue is unfinished.
    pub closed spec fn unfinished_batch(&self) -> bool {
        self.draining
    }

    /// Whether a wake-up is stored for the handler.
    pub closed spec fn wake_stored(&self) -> bool {
        self.wake
    }

    /// Whether the end of the last hand-off is stored for a successor.
    pub closed spec fn quiesced_stored(&self) -> bool {
        self.quiesced
    }

    /// The work for the write-behind task; `None` where nothing is persisted.
    pub closed spec fn work(&self) -> Option<Seq<QueueOp>> {
        match self.lane {
            Some(lane) => Some(lane@),
            None => None,
        }
    }

    /// The count and the byte total agree with the entries.
    pub closed spec fn wf(&self) -> bool {
        &&& self.count == self.entries@.len()
        &&& self.bytes == total_bytes(self.entries@)
    }

    /// What stays the same when only entries and work change.
    pub open spec fn same_control(&self, other: &ClientQueue) -> bool {
        &&& self.id() == other.id()
        &&& self.bounds() == other.bounds()
        &&& self.open_handoffs() == other.open_handoffs()
        &&& self.wake_stored() == other.wake_stored()
        &&& self.quiesced_stored() == other.quiesced_stored()
    }

    /// What stays the same when only the control state changes.
    pub open spec fn same_contents(&self, other: &ClientQueue) -> bool {
        &&& self.id() == other.id()
        &&& self.bounds() == other.bounds()
        &&& self.queued() == other.queued()
        &&& self.work() == other.work()
    }

    /// The work after more of it was added; nothing where nothing is persisted.
    pub open spec fn more_work(work: Option<Seq<QueueOp>>, ops: Seq<QueueOp>) -> Option<
        Seq<QueueOp>,
    > {
        match work {
            Some(before) => Some(before + ops),
            None => None,
        }
    }

    /// The queue after a message was appended to these entries and this work: the oldest entries
    /// are gone while a limit is exceeded, their files are to be deleted, and the message is to be
    /// written unless it is gone itself.
    pub open spec fn holds_pushed(
        &self,
        entries: Seq<QueueEntry>,
        work: Option<Seq<QueueOp>>,
        seq: u64,
        message: QueuedMessage,
    ) -> bool {
        let all = entries.push(QueueEntry::of(seq, message));
        let n = surplus(all, self.bounds()) as int;
        let gone = seqs(all.take(n));
        let written = if gone.contains(seq) {
            Seq::<QueueOp>::empty()
        } else {
            seq![QueueOp::Write { client_id: self.id(), seq, body: Arc::new(message) }]
        };
        &&& self.queued() == all.skip(n)
        &&& self.work() == ClientQueue::more_work(
            work,
            deletions(self.id(), without(gone, seq![seq])) + written,
        )
    }

    /// The queue after messages were put in front of these entries and this work: the oldest
    /// entries are gone while a limit is exceeded, the files of older entries that are gone are to
    /// be deleted, and the messages that are still there are to be written.
    pub open spec fn holds_requeued(
        &self,
        entries: Seq<QueueEntry>,
        work: Option<Seq<QueueOp>>,
        next_seq: u64,
        messages: Seq<QueuedMessage>,
    ) -> bool {
        let first = requeue_first(entries, next_seq, messages.len());
        let fresh = batch(first, messages);
        let all = fresh + entries;
        let n = surplus(all, self.bounds()) as int;
        let gone = seqs(all.take(n));
        if messages.len() == 0 {
            self.queued() == entries && self.work() == work
        } else {
            &&& self.queued() == all.skip(n)
            &&& self.work() == ClientQueue::more_work(
                work,
                deletions(self.id(), without(gone, seqs(fresh))) + writes(self.id(), fresh, gone),
            )
        }
    }

    /// An empty queue. `persist` says whether work for the write-behind task is collected.
    pub fn new(client_id: String, limits: QueueLimits, persist: bool) -> (r: Self)
        ensures
            r.wf(),
            r.id() == client_id,
            r.bounds() == limits,
            r.queued() == Seq::<QueueEntry>::empty(),
            r.open_handoffs() == 0,
            !r.unfinished_batch(),
            !r.wake_stored(),
            !r.quiesced_stored(),
            r.work() == (if persist {
                Some(Seq::<QueueOp>::empty())
            } else {
                None
            }),
    {
        ClientQueue {
            client_id,
            entries: VecDeque::new(),
            bytes: 0,
            count: 0,
            handoffs: 0,
            draining: false,
            wake: false,
            quiesced: false,
            limits,
            lane: if persist {
                Some(Vec::new())
            } else {
                None
            },
        }
    }

    /// The client that the queue belongs to.
    pub fn client_id(&self) -> (r: &str)
        ensures
            r@ == self.id()@,
    {
        self.client_id.as_str()
    }

    /// Number of queued messages; the router's "behind" check.
    pub fn count(&self) -> (r: usize)
        requires
            self.wf(),
        ensures
            r == self.queued().len(),
    {
        self.count
    }

    /// Whether nothing is queued.
    pub fn is_empty(&self) -> (r: bool)
        requires
            self.wf(),
        ensures
            r == (self.queued().len() == 0),
    {
        self.count() == 0
    }

    /// True while at least one displaced handler still has deliveries to hand back.
    pub fn handoff(&self) -> (r: bool)
        ensures
            r == (self.open_handoffs() > 0),
    {
        self.handoffs() > 0
    }

    /// Number of displaced handlers still to hand back their deliveries. A handler compares
    /// this against the value it saw when it bound to tell "someone displaced me" (must stop
    /// and hand off) from "an older handler is still finishing" (must keep delivering).
    pub fn handoffs(&self) -> (r: usize)
        ensures
            r == self.open_handoffs(),
    {
        self.handoffs
    }

    /// A handler was displaced and will hand its deliveries back.
    pub fn begin_handoff(&mut self)
        requires
            old(self).wf(),
        ensures
            final(self).wf(),
            final(self).same_contents(old(self)),
            final(self).open_handoffs() == (if old(self).open_handoffs() < usize::MAX {
                old(self).open_handoffs() + 1
            } else {
                0
            }),
            final(self).unfinished_batch() == old(self).unfinished_batch(),
            final(self).wake_stored() == old(self).wake_stored(),
            final(self).quiesced_stored() == old(self).quiesced_stored(),
    {
        self.handoffs = self.handoffs.wrapping_add(1);
    }

    /// A displaced handler has handed its deliveries back. The end of the last hand-off is
    /// stored for a successor; an end without a beginning changes nothing.
    pub fn end_handoff(&mut self)
        requires
            old(self).wf(),
        ensures
            final(self).wf(),
            final(self).same_contents(old(self)),
            final(self).open_handoffs() == (if old(self).open_handoffs() > 0 {
                old(self).open_handoffs() - 1
            } else {
                0
            }),
            final(self).unfinished_batch() == old(self).unfinished_batch(),
            final(self).wake_stored() == old(self).wake_stored(),
            final(self).quiesced_stored() == (old(self).quiesced_stored()
                || old(self).open_handoffs() == 1),
    {
        let previous: usize = self.handoffs;
        self.handoffs = previous.saturating_sub(1);
        if previous == 1 {
            self.quiesced = true;
        }
    }

    /// Takes the stored end of the last hand-off. `false` means that a successor has to wait
    /// before it binds, so that it never touches the session while an older handler could still
    /// re-queue into it.
    pub fn handoff_quiesced(&mut self) -> (r: bool)
        requires
            old(self).wf(),
        ensures
            final(self).wf(),
            final(self).same_contents(old(self)),
            final(self).open_handoffs() == old(self).open_handoffs(),
            final(self).unfinished_batch() == old(self).unfinished_batch(),
            final(self).wake_stored() == old(self).wake_stored(),
            r == old(self).quiesced_stored(),
            !final(self).quiesced_stored(),
    {
        let stored = self.quiesced;
        self.quiesced = false;
        stored
    }

    /// True while a handler holds a batch it took from the queue and has not finished with.
    pub fn draining(&self) -> (r: bool)
        ensures
            r == self.unfinished_batch(),
    {
        self.draining
    }

    /// Marks the batch taken by `take` as fully sent or returned, so routers may use the
    /// delivery channel again.
    pub fn finish_drain(&mut self)
        requires
            old(self).wf(),
        ensures
            final(self).wf(),
            final(self).same_contents(old(self)),
            final(self).same_control(old(self)),
            !final(self).unfinished_batch(),
    {
        self.draining = false;
    }

    /// The queue holds older messages, a handler still holds a batch taken from it, or a
    /// displaced handler is about to hand its deliveries back.
    pub open spec fn lags(&self) -> bool {
        ||| self.queued().len() > 0
        ||| self.unfinished_batch()
        ||| self.open_handoffs() > 0
    }

    /// Behind: the router must queue instead of using the delivery channel.
    pub fn behind(&self) -> (r: bool)
        requires
            self.wf(),
        ensures
            r == self.lags(),
    {
        self.count() > 0 || self.draining() || self.handoff()
    }

    /// Wakes the handler that serves this client; one wake-up is stored if none is waiting.
    pub fn notify(&mut self)
        requires
            old(self).wf(),
        ensures
            final(self).wf(),
            final(self).same_contents(old(self)),
            final(self).open_handoffs() == old(self).open_handoffs(),
            final(self).unfinished_batch() == old(self).unfinished_batch(),
            final(self).quiesced_stored() == old(self).quiesced_stored(),
            final(self).wake_stored(),
    {
        self.wake = true;
    }

    /// Takes the stored wake-up; `false` means that the handler has to wait for one.
    pub fn notified(&mut self) -> (r: bool)
        requires
            old(self).wf(),
        ensures
            final(self).wf(),
            final(self).same_contents(old(self)),
            final(self).open_handoffs() == old(self).open_handoffs(),
            final(self).unfinished_batch() == old(self).unfinished_batch(),
            final(self).quiesced_stored() == old(self).quiesced_stored(),
            r == old(self).wake_stored(),
            !final(self).wake_stored(),
    {
        let stored = self.wake;
        self.wake = false;
        stored
    }

    fn enqueue_write(&mut self, seq: u64, body: Arc<QueuedMessage>)
        ensures
            final(self).entries == old(self).entries,
            final(self).bytes == old(self).bytes,
            final(self).count == old(self).count,
            final(self).same_control(old(self)),
            final(self).draining == old(self).draining,
            final(self).work() == ClientQueue::more_work(
                old(self).work(),
                seq![QueueOp::Write { client_id: old(self).client_id, seq, body }],
            ),
    {
        let client_id = self.client_id.clone();
        if let Some(lane) = &mut self.lane {
            let ghost before = lane@;
            lane.push(QueueOp::Write { client_id, seq, body });
            assert(lane@ =~= before + seq![QueueOp::Write { client_id, seq, body }]);
        }
    }

    fn enqueue_delete(&mut self, seq: u64)
        ensures
            final(self).entries == old(self).entries,
            final(self).bytes == old(self).bytes,
            final(self).count == old(self).count,
            final(self).same_control(old(self)),
            final(self).draining == old(self).draining,
            final(self).work() == ClientQueue::more_work(
                old(self).work(),
                seq![QueueOp::Delete { client_id: old(self).client_id, seq }],
            ),
    {
        let client_id = self.client_id.clone();
        if let Some(lane) = &mut self.lane {
            let ghost before = lane@;
            lane.push(QueueOp::Delete { client_id, seq });
            assert(lane@ =~= before + seq![QueueOp::Delete { client_id, seq }]);
        }
    }

    /// Asks for the deletion of the files with these numbers.
    fn enqueue_deletes(&mut self, numbers: &Vec<u64>)
        ensures
            final(self).entries == old(self).entries,
            final(self).bytes == old(self).bytes,
            final(self).count == old(self).count,
            final(self).same_control(old(self)),
            final(self).draining == old(self).draining,
            final(self).work() == ClientQueue::more_work(
                old(self).work(),
                deletions(old(self).client_id, numbers@),
            ),
    {
        let ghost start = *self;
        let mut i: usize = 0;
        proof {
            assert(deletions(start.client_id, numbers@.take(0)) =~= Seq::<QueueOp>::empty());
            if let Some(before) = start.work() {
                assert(before + Seq::<QueueOp>::empty() =~= before);
            }
        }
        while i < numbers.len()
            invariant
                i <= numbers@.len(),
                self.entries == start.entries,
                self.bytes == start.bytes,
                self.count == start.count,
                self.same_control(&start),
                self.draining == start.draining,
                self.work() == ClientQueue::more_work(
                    start.work(),
                    deletions(start.client_id, numbers@.take(i as int)),
                ),
            decreases numbers@.len() - i,
        {
            self.enqueue_delete(numbers[i]);
            proof {
                let next = QueueOp::Delete { client_id: start.client_id, seq: numbers@[i as int] };
                assert(deletions(start.client_id, numbers@.take(i + 1)) =~= deletions(
                    start.client_id,
                    numbers@.take(i as int),
                ) + seq![next]);
                if let Some(before) = start.work() {
                    assert(before + deletions(start.client_id, numbers@.take(i + 1)) =~= (before
                        + deletions(start.client_id, numbers@.take(i as int))) + seq![next]);
                }
            }
            i = i + 1;
        }
        assert(numbers@.take(numbers@.len() as int) =~= numbers@);
    }

    /// Drops the oldest entries until the rest is within the limits.
    fn enforce_limits(&mut self) -> (evicted: Vec<u64>)
        requires
            old(self).bytes == total_bytes(old(self).entries@),
        ensures
            final(self).bytes == total_bytes(final(self).entries@),
            final(self).count == old(self).count,
            final(self).same_control(old(self)),
            final(self).draining == old(self).draining,
            final(self).work() == old(self).work(),
            final(self).entries@ == old(self).entries@.skip(
                surplus(old(self).entries@, old(self).limits) as int,
            ),
            evicted@ == seqs(
                old(self).entries@.take(surplus(old(self).entries@, old(self).limits) as int),
            ),
    {
        let ghost start = self.entries@;
        let ghost limits = self.limits;
        let ghost origin = *self;
        let mut evicted: Vec<u64> = Vec::new();
        proof {
            assert(start.skip(0) =~= start);
            assert(seqs(start.take(0)) =~= Seq::<u64>::empty());
            lemma_surplus(start, limits);
        }
        while self.entries.len() > self.limits.max_messages || (self.bytes
            > self.limits.max_bytes as u128 && self.entries.len() > 1)
            invariant
                self.bytes == total_bytes(self.entries@),
                self.count == origin.count,
                self.same_control(&origin),
                self.draining == origin.draining,
                self.work() == origin.work(),
                self.limits == limits,
                start == origin.entries@,
                evicted@.len() <= start.len(),
                self.entries@ == start.skip(evicted@.len() as int),
                evicted@ == seqs(start.take(evicted@.len() as int)),
                surplus(start, limits) == evicted@.len() + surplus(self.entries@, limits),
            decreases self.entries@.len(),
        {
            let ghost n = evicted@.len() as int;
            let ghost current = self.entries@;
            match self.entries.pop_front() {
                Some(oldest) => {
                    self.bytes = self.bytes - oldest.bytes as u128;
                    evicted.push(oldest.seq);
                    proof {
                        assert(self.entries@ =~= current.drop_first());
                        assert(self.entries@ =~= start.skip(n + 1));
                        assert(seqs(start.take(n + 1)) =~= seqs(start.take(n)).push(oldest.seq));
                    }
                },
                None => {},
            }
        }
        evicted
    }

    /// Appends a message under the next sequence number, then drops the oldest entries while a
    /// limit is exceeded. Dropped entries are deleted from disk and the message is written there,
    /// unless it was dropped itself.
    pub fn push(&mut self, counter: &mut u64, message: QueuedMessage) -> (r: PushOutcome)
        requires
            old(self).wf(),
        ensures
            final(self).wf(),
            final(self).same_control(old(self)),
            final(self).unfinished_batch() == old(self).unfinished_batch(),
            *final(counter) == (if *old(counter) < u64::MAX {
                *old(counter) + 1
            } else {
                0
            }),
            r.seq == *old(counter),
            final(self).holds_pushed(
                old(self).queued(),
                old(self).work(),
                *old(counter),
                message,
            ),
            r.dropped_oldest == surplus(
                old(self).queued().push(QueueEntry::of(*old(counter), message)),
                old(self).bounds(),
            ),
    {
        let ghost start = *self;
        let ghost entry = QueueEntry::of(*counter, message);
        let ghost all = self.entries@.push(entry);
        let bytes: usize = message.payload.len();
        let expires_at = message.expires_at;
        let body = Arc::new(message);
        let seq: u64 = *counter;
        *counter = if seq < u64::MAX {
            seq + 1
        } else {
            0
        };
        proof {
            lemma_total_push(self.entries@, entry);
            lemma_surplus(all, self.limits);
        }
        let held: usize = self.entries.len();
        proof {
            lemma_total_bound(self.entries@);
        }
        self.bytes = self.bytes + bytes as u128;
        self.entries.push_back(
            QueueEntry { seq, bytes, expires_at, body: Some(share(&body)), path: None },
        );
        assert(self.entries@ =~= all);
        let evicted = self.enforce_limits();
        self.count = self.entries.len();
        let dropped: usize = evicted.len();
        let others = numbers_without_one(&evicted, seq);
        self.enqueue_deletes(&others);
        let ghost deleted = deletions(start.client_id, without(evicted@, seq![seq]));
        if !holds_number(&evicted, seq) {
            let ghost between = self.work();
            self.enqueue_write(seq, body);
            proof {
                let write = seq![
                    QueueOp::Write { client_id: start.client_id, seq, body: Arc::new(message) },
                ];
                if let Some(before) = start.work() {
                    assert((before + deleted) + write =~= before + (deleted + write));
                }
            }
        } else {
            assert(deleted + Seq::<QueueOp>::empty() =~= deleted);
        }
        PushOutcome { seq, dropped_oldest: dropped }
    }

    /// Removes and returns at most `limit` live messages from the front, in order.
    ///
    /// Expired and unreadable entries are discarded inside the take and use up none of the limit.
    /// An entry whose body is still in a file stays, and ends the take: `unread_front` names its
    /// file and `supply` brings the body in. So an empty result means that the queue was empty at
    /// that instant, or that a file has to be read first.
    pub fn take(&mut self, limit: usize, now: u64) -> (r: Vec<QueuedMessage>)
        requires
            old(self).wf(),
        ensures
            final(self).wf(),
            final(self).same_control(old(self)),
            ({
                let n = reach(old(self).queued(), limit as int, now) as int;
                &&& r@ == delivered(live(old(self).queued().take(n), now), now)
                &&& final(self).queued() == old(self).queued().skip(n)
                &&& final(self).work() == ClientQueue::more_work(
                    old(self).work(),
                    deletions(old(self).id(), seqs(old(self).queued().take(n))),
                )
            }),
            final(self).unfinished_batch() == (old(self).unfinished_batch() || r@.len() > 0),
            r@.len() <= limit,
            r@.len() < limit ==> final(self).queued().len() == 0 || unread(
                final(self).queued()[0],
                now,
            ),
    {
        let ghost start = self.entries@;
        let ghost origin = *self;
        let mut out: Vec<QueuedMessage> = Vec::new();
        let mut gone: Vec<u64> = Vec::new();
        let ghost mut n: int = 0;
        proof {
            assert(start.skip(0) =~= start);
            assert(start.take(0) =~= Seq::<QueueEntry>::empty());
            assert(seqs(Seq::<QueueEntry>::empty()) =~= Seq::<u64>::empty());
            lemma_reach(start, limit as int, now);
        }
        while out.len() < limit && self.entries.len() > 0 && !self.entries[0].is_unread(now)
            invariant
                self.bytes == total_bytes(self.entries@),
                self.same_control(&origin),
                self.draining == origin.draining,
                self.work() == origin.work(),
                start == origin.entries@,
                0 <= n <= start.len(),
                self.entries@ == start.skip(n),
                out@ == delivered(live(start.take(n), now), now),
                gone@ == seqs(start.take(n)),
                out@.len() <= limit,
                reach(start, limit as int, now) == n + reach(
                    start.skip(n),
                    limit - out@.len(),
                    now,
                ),
            decreases self.entries@.len(),
        {
            let ghost current = self.entries@;
            match self.entries.pop_front() {
                Some(entry) => {
                    self.bytes = self.bytes - entry.bytes as u128;
                    proof {
                        assert(self.entries@ =~= current.drop_first());
                        assert(current.drop_first() =~= start.skip(n + 1));
                        assert(start.take(n + 1).drop_last() =~= start.take(n));
                        assert(start.take(n + 1).last() == entry);
                        assert(seqs(start.take(n + 1)) =~= seqs(start.take(n)).push(entry.seq));
                        let before = live(start.take(n), now);
                        assert(before.push(entry).drop_last() =~= before);
                        n = n + 1;
                    }
                    gone.push(entry.seq);
                    if !entry.is_expired(now) {
                        if let Some(body) = &entry.body {
                            let mut message = (**body).clone();
                            message.recompute_expiry();
                            if !message.is_expired(now) {
                                out.push(message);
                            }
                        }
                    }
                },
                None => {},
            }
        }
        self.enqueue_deletes(&gone);
        self.count = self.entries.len();
        if out.len() > 0 {
            self.draining = true;
        }
        out
    }

    /// The number and the file of the oldest entry, where its body is still in the file.
    pub fn unread_front(&self, now: u64) -> (r: Option<(u64, String)>)
        requires
            self.wf(),
        ensures
            match r {
                Some((seq, path)) => {
                    &&& self.queued().len() > 0
                    &&& unread(self.queued()[0], now)
                    &&& self.queued()[0].seq == seq
                    &&& self.queued()[0].path == Some(path)
                },
                None => self.queued().len() == 0 || !unread(self.queued()[0], now),
            },
    {
        if self.entries.len() == 0 {
            return None;
        }
        let front = &self.entries[0];
        if !front.is_unread(now) {
            return None;
        }
        match crate::types::copy_text(&front.path) {
            Some(path) => Some((front.seq, path)),
            None => None,
        }
    }

    /// Brings in what the file of the oldest entry holds; an entry whose file cannot be read is
    /// discarded. Nothing happens where the entry is no longer the oldest, or has its body.
    pub fn supply(&mut self, seq: u64, body: Option<QueuedMessage>)
        requires
            old(self).wf(),
        ensures
            final(self).wf(),
            final(self).same_control(old(self)),
            final(self).unfinished_batch() == old(self).unfinished_batch(),
            ({
                let before = old(self).queued();
                let waits = before.len() > 0 && before[0].seq == seq && before[0].body is None;
                match body {
                    Some(message) if waits => {
                        &&& final(self).queued() == before.update(
                            0,
                            QueueEntry { body: Some(Arc::new(message)), ..before[0] },
                        )
                        &&& final(self).work() == old(self).work()
                    },
                    None if waits => {
                        &&& final(self).queued() == before.drop_first()
                        &&& final(self).work() == ClientQueue::more_work(
                            old(self).work(),
                            deletions(old(self).id(), seq![seq]),
                        )
                    },
                    _ => *final(self) == *old(self),
                }
            }),
    {
        if self.entries.len() == 0 || self.entries[0].seq != seq || self.entries[0].body.is_some() {
            return;
        }
        let ghost start = self.entries@;
        if let Some(entry) = self.entries.pop_front() {
            assert(self.entries@ =~= start.drop_first());
            match body {
                Some(message) => {
                    let ghost filled = QueueEntry { body: Some(Arc::new(message)), ..entry };
                    self.entries.push_front(
                        QueueEntry {
                            seq: entry.seq,
                            bytes: entry.bytes,
                            expires_at: entry.expires_at,
                            body: Some(Arc::new(message)),
                            path: entry.path,
                        },
                    );
                    proof {
                        assert(self.entries@ =~= start.update(0, filled));
                        assert(start.update(0, filled).drop_first() =~= start.drop_first());
                    }
                },
                None => {
                    self.bytes = self.bytes - entry.bytes as u128;
                    self.count = self.entries.len();
                    self.enqueue_delete(seq);
                    assert(deletions(self.client_id, seq![seq]) =~= seq![
                        QueueOp::Delete { client_id: self.client_id, seq },
                    ]);
                },
            }
        }
    }

    /// Puts messages back at the front, in order, with sequence numbers below the current head,
    /// then drops the oldest entries while a limit is exceeded. Where there is no room below the
    /// head the numbers start at 0.
    pub fn requeue_front(&mut self, counter: &u64, messages: Vec<QueuedMessage>)
        requires
            old(self).wf(),
        ensures
            final(self).wf(),
            final(self).same_control(old(self)),
            final(self).unfinished_batch() == old(self).unfinished_batch(),
            final(self).holds_requeued(old(self).queued(), old(self).work(), *counter, messages@),
    {
        if messages.len() == 0 {
            return;
        }
        let ghost origin = *self;
        let ghost start = self.entries@;
        let ghost sent = messages@;
        let base: u64 = match self.entries.len() {
            0 => *counter,
            _ => self.entries[0].seq,
        };
        let len: u64 = messages.len() as u64;
        let first: u64 = if base >= len {
            base - len
        } else {
            0
        };
        let ghost target = batch(first as int, sent);
        assert(first == requeue_first(start, *counter, sent.len()));
        let mut fresh: Vec<QueueEntry> = Vec::new();
        for message in it: messages
            invariant
                it.seq() == sent,
                sent.len() == len,
                first + len <= u64::MAX,
                fresh@.len() == it.index(),
                target == batch(first as int, sent),
                fresh@ == target.take(it.index() as int),
        {
            let index: u64 = fresh.len() as u64;
            let bytes: usize = message.payload.len();
            let expires_at = message.expires_at;
            fresh.push(
                QueueEntry {
                    seq: first + index,
                    bytes,
                    expires_at,
                    body: Some(Arc::new(message)),
                    path: None,
                },
            );
            assert(fresh@ =~= target.take(it.index() + 1));
        }
        assert(fresh@ =~= target);
        proof {
            assert(target.skip(target.len() as int) + start =~= start);
        }
        let mut j: usize = fresh.len();
        while j > 0
            invariant
                j <= fresh@.len(),
                fresh@ == target,
                self.entries@ == target.skip(j as int) + start,
                self.bytes == total_bytes(self.entries@),
                self.count == origin.count,
                self.same_control(&origin),
                self.draining == origin.draining,
                self.work() == origin.work(),
            decreases j,
        {
            j = j - 1;
            let ghost current = self.entries@;
            let entry = fresh[j].clone();
            proof {
                assert((target.skip(j as int) + start).drop_first() =~= current);
                assert((target.skip(j as int) + start)[0] == entry);
            }
            let held: usize = self.entries.len();
            proof {
                lemma_total_bound(self.entries@);
            }
            self.bytes = self.bytes + entry.bytes as u128;
            self.entries.push_front(entry);
            assert(self.entries@ =~= target.skip(j as int) + start);
        }
        assert(target.skip(0) =~= target);
        let ghost all = target + start;
        proof {
            lemma_surplus(all, self.limits);
        }
        let evicted = self.enforce_limits();
        self.count = self.entries.len();
        let own = numbers_of(&fresh);
        let older = numbers_without(&evicted, &own);
        self.enqueue_deletes(&older);
        let ghost deleted = deletions(origin.client_id, without(evicted@, seqs(target)));
        let mut i: usize = 0;
        proof {
            assert(target.take(0) =~= Seq::<QueueEntry>::empty());
            assert(deleted + Seq::<QueueOp>::empty() =~= deleted);
        }
        while i < fresh.len()
            invariant
                i <= fresh@.len(),
                fresh@ == target,
                target == batch(first as int, sent),
                self.wf(),
                self.entries@ == all.skip(surplus(all, origin.limits) as int),
                self.same_control(&origin),
                self.draining == origin.draining,
                self.work() == ClientQueue::more_work(
                    origin.work(),
                    deleted + writes(origin.client_id, target.take(i as int), evicted@),
                ),
            decreases fresh@.len() - i,
        {
            let ghost written = writes(origin.client_id, target.take(i as int), evicted@);
            assert(target.take(i + 1).drop_last() =~= target.take(i as int));
            assert(target.take(i + 1).last() == fresh@[i as int]);
            if !holds_number(&evicted, fresh[i].seq) {
                if let Some(body) = &fresh[i].body {
                    let shared = share(body);
                    self.enqueue_write(fresh[i].seq, shared);
                    proof {
                        let write = seq![
                            QueueOp::Write {
                                client_id: origin.client_id,
                                seq: target[i as int].seq,
                                body: shared,
                            },
                        ];
                        assert(writes(origin.client_id, target.take(i + 1), evicted@) =~= written
                            + write);
                        if let Some(before) = origin.work() {
                            assert((before + (deleted + written)) + write =~= before + (deleted + (
                            written + write)));
                        }
                    }
                }
            }
            i = i + 1;
        }
        assert(target.take(target.len() as int) =~= target);
    }

    /// Drops the entries that a rule names, keeps the others in order and has the files of the
    /// dropped ones deleted. Returns how many were dropped.
    fn drop_entries(&mut self, rule: DropRule) -> (r: usize)
        requires
            old(self).wf(),
        ensures
            final(self).wf(),
            final(self).same_control(old(self)),
            final(self).unfinished_batch() == old(self).unfinished_batch(),
            final(self).queued() == kept(old(self).queued(), rule),
            r == dropped(old(self).queued(), rule).len(),
            final(self).work() == ClientQueue::more_work(
                old(self).work(),
                deletions(old(self).id(), seqs(dropped(old(self).queued(), rule))),
            ),
    {
        let ghost start = self.entries@;
        let ghost origin = *self;
        let mut rest: VecDeque<QueueEntry> = VecDeque::new();
        let mut gone: Vec<u64> = Vec::new();
        let mut bytes: u128 = 0;
        let ghost mut n: int = 0;
        proof {
            assert(start.skip(0) =~= start);
            assert(start.take(0) =~= Seq::<QueueEntry>::empty());
            assert(seqs(Seq::<QueueEntry>::empty()) =~= Seq::<u64>::empty());
        }
        while self.entries.len() > 0
            invariant
                0 <= n <= start.len(),
                self.entries@ == start.skip(n),
                self.same_control(&origin),
                self.draining == origin.draining,
                self.work() == origin.work(),
                rest@ == kept(start.take(n), rule),
                gone@ == seqs(dropped(start.take(n), rule)),
                bytes == total_bytes(rest@),
                total_bytes(start) <= u128::MAX,
            decreases self.entries@.len(),
        {
            let ghost current = self.entries@;
            match self.entries.pop_front() {
                Some(entry) => {
                    proof {
                        assert(current.drop_first() =~= start.skip(n + 1));
                        assert(self.entries@ =~= start.skip(n + 1));
                        assert(start.take(n + 1).drop_last() =~= start.take(n));
                        assert(start.take(n + 1).last() == entry);
                        assert(seqs(dropped(start.take(n), rule).push(entry)) =~= seqs(
                            dropped(start.take(n), rule),
                        ).push(entry.seq));
                        lemma_total_push(rest@, entry);
                        lemma_total_split(start.take(n + 1), rule);
                        assert(start.take(n + 1) + start.skip(n + 1) =~= start);
                        lemma_total_concat(start.take(n + 1), start.skip(n + 1));
                        n = n + 1;
                    }
                    if rule.applies(&entry) {
                        gone.push(entry.seq);
                    } else {
                        bytes = bytes + entry.bytes as u128;
                        rest.push_back(entry);
                        assert(rest@ =~= kept(start.take(n), rule));
                    }
                },
                None => {},
            }
        }
        assert(start.take(start.len() as int) =~= start);
        self.entries = rest;
        self.bytes = bytes;
        self.count = self.entries.len();
        self.enqueue_deletes(&gone);
        gone.len()
    }

    /// Removes every entry, or only those with a sequence number below `cutoff`. Returns how many
    /// were removed.
    pub fn clear(&mut self, cutoff: Option<u64>) -> (r: usize)
        requires
            old(self).wf(),
        ensures
            final(self).wf(),
            final(self).same_control(old(self)),
            final(self).unfinished_batch() == old(self).unfinished_batch(),
            final(self).queued() == kept(old(self).queued(), DropRule::Below(cutoff)),
            r == dropped(old(self).queued(), DropRule::Below(cutoff)).len(),
            final(self).work() == ClientQueue::more_work(
                old(self).work(),
                deletions(
                    old(self).id(),
                    seqs(dropped(old(self).queued(), DropRule::Below(cutoff))),
                ),
            ),
    {
        self.drop_entries(DropRule::Below(cutoff))
    }

    /// Drops expired entries whose expiry is known in memory. Returns how many were removed.
    pub fn purge_expired(&mut self, now: u64) -> (r: usize)
        requires
            old(self).wf(),
        ensures
            final(self).wf(),
            final(self).same_control(old(self)),
            final(self).unfinished_batch() == old(self).unfinished_batch(),
            final(self).queued() == live(old(self).queued(), now),
            r == expired(old(self).queued(), now).len(),
            final(self).work() == ClientQueue::more_work(
                old(self).work(),
                deletions(old(self).id(), seqs(expired(old(self).queued(), now))),
            ),
    {
        self.drop_entries(DropRule::Expired(now))
    }

    /// Copies of the live entries, in order; those whose body is in a file come without it.
    pub fn snapshot(&self, now: u64) -> (r: Vec<QueueEntry>)
        ensures
            r@ == live(self.queued(), now),
    {
        let ghost start = self.entries@;
        let mut out: Vec<QueueEntry> = Vec::new();
        let mut i: usize = 0;
        assert(start.take(0) =~= Seq::<QueueEntry>::empty());
        while i < self.entries.len()
            invariant
                start == self.entries@,
                i <= start.len(),
                out@ == live(start.take(i as int), now),
            decreases start.len() - i,
        {
            assert(start.take(i + 1).drop_last() =~= start.take(i as int));
            if !self.entries[i].is_expired(now) {
                out.push(self.entries[i].clone());
            }
            i = i + 1;
        }
        assert(start.take(start.len() as int) =~= start);
        out
    }

    /// Non-destructive snapshot of the live messages in memory, in order.
    pub fn peek_all(&self, now: u64) -> (r: Vec<QueuedMessage>)
        ensures
            r@ == delivered(live(self.queued(), now), now),
    {
        let entries = self.snapshot(now);
        messages_of(&entries, now)
    }

    /// Adds an entry discovered on disk at startup; its body is read on take, but its byte
    /// size (payload length, matching `push`) and expiry are recorded now.
    pub fn push_scanned(&mut self, seq: u64, path: String, bytes: usize, expires_at: Option<u64>)
        requires
            old(self).wf(),
        ensures
            final(self).wf(),
            final(self).same_control(old(self)),
            final(self).unfinished_batch() == old(self).unfinished_batch(),
            final(self).work() == old(self).work(),
            final(self).queued() == old(self).queued().push(
                (QueueEntry { seq, bytes, expires_at, body: None, path: Some(path) }),
            ),
    {
        let entry = QueueEntry { seq, bytes, expires_at, body: None, path: Some(path) };
        proof {
            lemma_total_push(self.entries@, entry);
        }
        let held: usize = self.entries.len();
        proof {
            lemma_total_bound(self.entries@);
        }
        self.bytes = self.bytes + bytes as u128;
        self.entries.push_back(entry);
        self.count = self.entries.len();
    }

    /// Hands the collected work to the write-behind task.
    pub fn drain_work(&mut self) -> (r: Vec<QueueOp>)
        requires
            old(self).wf(),
        ensures
            final(self).wf(),
            final(self).same_control(old(self)),
            final(self).unfinished_batch() == old(self).unfinished_batch(),
            final(self).queued() == old(self).queued(),
            match old(self).work() {
                Some(work) => r@ == work && final(self).work() == Some(Seq::<QueueOp>::empty()),
                None => r@ == Seq::<QueueOp>::empty() && final(self).work() is None,
            },
    {
        let mut out: Vec<QueueOp> = Vec::new();
        if let Some(lane) = &mut self.lane {
            std::mem::swap(lane, &mut out);
        }
        out
    }
}

/// The sequence numbers of entries.
fn numbers_of(entries: &Vec<QueueEntry>) -> (r: Vec<u64>)
    ensures
        r@ == seqs(entries@),
{
    let mut out: Vec<u64> = Vec::new();
    let mut i: usize = 0;
    while i < entries.len()
        invariant
            i <= entries@.len(),
            out@ == seqs(entries@.take(i as int)),
        decreases entries@.len() - i,
    {
        out.push(entries[i].seq);
        i = i + 1;
        assert(out@ =~= seqs(entries@.take(i as int)));
    }
    assert(entries@.take(entries@.len() as int) =~= entries@);
    out
}

/// The messages of entries as they are handed out: each with its deadline counted again, those
/// that have expired or have no body left out.
pub fn messages_of(entries: &Vec<QueueEntry>, now: u64) -> (r: Vec<QueuedMessage>)
    ensures
        r@ == delivered(entries@, now),
{
    let mut out: Vec<QueuedMessage> = Vec::new();
    let mut i: usize = 0;
    assert(entries@.take(0) =~= Seq::<QueueEntry>::empty());
    while i < entries.len()
        invariant
            i <= entries@.len(),
            out@ == delivered(entries@.take(i as int), now),
        decreases entries@.len() - i,
    {
        assert(entries@.take(i + 1).drop_last() =~= entries@.take(i as int));
        if let Some(body) = &entries[i].body {
            let mut message = (**body).clone();
            message.recompute_expiry();
            if !message.is_expired(now) {
                out.push(message);
            }
        }
        i = i + 1;
    }
    assert(entries@.take(entries@.len() as int) =~= entries@);
    out
}

/// The numbers that differ from `n`, in order.
fn numbers_without_one(numbers: &Vec<u64>, n: u64) -> (r: Vec<u64>)
    ensures
        r@ == without(numbers@, seq![n]),
{
    let mut reject: Vec<u64> = Vec::new();
    reject.push(n);
    assert(reject@ =~= seq![n]);
    numbers_without(numbers, &reject)
}

/// The numbers that are not in `reject`, in order.
fn numbers_without(numbers: &Vec<u64>, reject: &Vec<u64>) -> (r: Vec<u64>)
    ensures
        r@ == without(numbers@, reject@),
{
    let mut out: Vec<u64> = Vec::new();
    let mut i: usize = 0;
    assert(numbers@.take(0) =~= Seq::<u64>::empty());
    while i < numbers.len()
        invariant
            i <= numbers@.len(),
            out@ == without(numbers@.take(i as int), reject@),
        decreases numbers@.len() - i,
    {
        assert(numbers@.take(i + 1).drop_last() =~= numbers@.take(i as int));
        if !holds_number(reject, numbers[i]) {
            out.push(numbers[i]);
        }
        i = i + 1;
    }
    assert(numbers@.take(numbers@.len() as int) =~= numbers@);
    out
}

/// A queue and the number of its users outside the registry.
#[derive(Debug)]
pub struct Registered {
    queue: ClientQueue,
    holders: usize,
}

impl Registered {
    /// The queue.
    pub closed spec fn queue(&self) -> ClientQueue {
        self.queue
    }

    /// The number of its users outside the registry.
    pub closed spec fn holders(&self) -> usize {
        self.holders
    }
}

/// A hold on one client's queue, which keeps it in the registry.
#[derive(Debug)]
pub struct QueueHandle {
    pub client_id: String,
}

/// Registry of per-client queues owned by a backend. All queues draw their sequence numbers from
/// one counter.
#[derive(Debug)]
pub struct QueueRegistry {
    queues: TextMap<Registered>,
    seq: u64,
    limits: QueueLimits,
    persist: bool,
    left: Vec<QueueOp>,
}

/// Whether a queue is empty and held by nobody.
pub open spec fn is_idle(entry: Registered) -> bool {
    entry.holders() == 0 && entry.queue().queued().len() == 0
}

/// The work that the idle queues of a list have collected, queue by queue.
pub open spec fn idle_work(list: Seq<(Seq<char>, Registered)>) -> Seq<QueueOp>
    decreases list.len(),
{
    if list.len() == 0 {
        Seq::empty()
    } else {
        let rest = idle_work(list.drop_last());
        match list.last().1.queue().work() {
            Some(work) => if is_idle(list.last().1) {
                rest + work
            } else {
                rest
            },
            None => rest,
        }
    }
}

/// The state of a queue beside its entries and its work: hand-offs, an unfinished batch, stored
/// wake-ups, and who holds it.
pub struct Control {
    pub open_handoffs: usize,
    pub unfinished_batch: bool,
    pub wake_stored: bool,
    pub quiesced_stored: bool,
    pub holders: usize,
}

/// The state of a queue that nobody has touched.
pub open spec fn untouched() -> Control {
    Control {
        open_handoffs: 0,
        unfinished_batch: false,
        wake_stored: false,
        quiesced_stored: false,
        holders: 0,
    }
}

/// How many hold a queue when one more does.
pub open spec fn one_more(holders: usize) -> usize {
    if holders < usize::MAX {
        (holders + 1) as usize
    } else {
        usize::MAX
    }
}

/// The state of a queue after it was held for a while.
pub open spec fn held_for_a_while(control: Control) -> Control {
    Control { holders: (one_more(control.holders) - 1) as usize, ..control }
}

impl View for QueueRegistry {
    type V = Map<Seq<char>, Registered>;

    closed spec fn view(&self) -> Map<Seq<char>, Registered> {
        self.queues@
    }
}

impl QueueRegistry {
    /// The next sequence number that will be assigned.
    pub closed spec fn counter(&self) -> u64 {
        self.seq
    }

    /// The bounds of every queue.
    pub closed spec fn bounds(&self) -> QueueLimits {
        self.limits
    }

    /// Whether work for a write-behind task is collected.
    pub closed spec fn persists(&self) -> bool {
        self.persist
    }

    /// The work of queues that were dropped before it was handed over.
    pub closed spec fn left_work(&self) -> Seq<QueueOp> {
        self.left@
    }

    /// The queues in the order of first touch.
    pub closed spec fn listed(&self) -> Seq<(Seq<char>, Registered)> {
        self.queues.listing()
    }

    /// A queue that fits the registry under a client's name.
    pub open spec fn fits(&self, client_id: Seq<char>, queue: ClientQueue) -> bool {
        &&& queue.wf()
        &&& queue.id()@ == client_id
        &&& queue.bounds() == self.bounds()
        &&& queue.work() is Some <==> self.persists()
    }

    /// Every queue stands under its client's name.
    pub closed spec fn wf(&self) -> bool {
        &&& self.queues.wf()
        &&& forall|k: Seq<char>| #[trigger]
            self@.contains_key(k) ==> self.fits(k, self@[k].queue())
    }

    /// What is queued for a client.
    pub open spec fn entries_of(&self, client_id: Seq<char>) -> Seq<QueueEntry> {
        if self@.contains_key(client_id) {
            self@[client_id].queue().queued()
        } else {
            Seq::empty()
        }
    }

    /// The work for the write-behind task that a client's queue has collected.
    pub open spec fn work_of(&self, client_id: Seq<char>) -> Option<Seq<QueueOp>> {
        if self@.contains_key(client_id) {
            self@[client_id].queue().work()
        } else if self.persists() {
            Some(Seq::empty())
        } else {
            None
        }
    }

    /// The state of a client's queue beside its entries and its work; that of a queue that nobody
    /// has touched where there is none.
    pub open spec fn control_of(&self, client_id: Seq<char>) -> Control {
        if self@.contains_key(client_id) {
            let queue = self@[client_id].queue();
            Control {
                open_handoffs: queue.open_handoffs(),
                unfinished_batch: queue.unfinished_batch(),
                wake_stored: queue.wake_stored(),
                quiesced_stored: queue.quiesced_stored(),
                holders: self@[client_id].holders(),
            }
        } else {
            untouched()
        }
    }

    /// The counter and the settings are the same.
    pub open spec fn same_counter(&self, other: &QueueRegistry) -> bool {
        &&& self.counter() == other.counter()
        &&& self.bounds() == other.bounds()
        &&& self.persists() == other.persists()
    }

    /// Everything but the queues is the same.
    pub open spec fn same_settings(&self, other: &QueueRegistry) -> bool {
        &&& self.same_counter(other)
        &&& self.left_work() == other.left_work()
    }

    /// A queue as it is created on first touch.
    pub open spec fn is_new_queue(&self, client_id: Seq<char>, queue: ClientQueue) -> bool {
        &&& self.fits(client_id, queue)
        &&& queue.queued() == Seq::<QueueEntry>::empty()
        &&& queue.open_handoffs() == 0
        &&& !queue.unfinished_batch()
        &&& !queue.wake_stored()
        &&& !queue.quiesced_stored()
        &&& queue.work() == (if self.persists() {
            Some(Seq::<QueueOp>::empty())
        } else {
            None
        })
    }

    /// An empty registry whose counter stands at the floor.
    pub fn new(limits: QueueLimits, persist: bool) -> (r: Self)
        ensures
            r.wf(),
            r@ == Map::<Seq<char>, Registered>::empty(),
            r.counter() == SEQ_FLOOR,
            r.bounds() == limits,
            r.persists() == persist,
            r.left_work() == Seq::<QueueOp>::empty(),
    {
        QueueRegistry {
            queues: TextMap::new(),
            seq: SEQ_FLOOR,
            limits,
            persist,
            left: Vec::new(),
        }
    }

    /// Makes sure that the client has a queue.
    fn ensure_queue(&mut self, client_id: &str)
        requires
            old(self).wf(),
        ensures
            final(self).wf(),
            final(self).same_settings(old(self)),
            old(self)@.contains_key(client_id@) ==> final(self)@ == old(self)@,
            !old(self)@.contains_key(client_id@) ==> final(self)@ == old(self)@.insert(
                client_id@,
                final(self)@[client_id@],
            ) && final(self)@[client_id@].holders() == 0 && old(self).is_new_queue(
                client_id@,
                final(self)@[client_id@].queue(),
            ),
            final(self)@.contains_key(client_id@),
    {
        if !self.queues.contains_key(client_id) {
            let queue = ClientQueue::new(client_id.to_owned(), self.limits, self.persist);
            let _ = self.queues.insert(client_id.to_owned(), Registered { queue, holders: 0 });
            assert(self@.insert(client_id@, self@[client_id@]) =~= self@);
        }
    }

    /// Returns a hold on the client's queue, creating the queue on first touch. A queue is never
    /// unlinked while it is held.
    pub fn handle(&mut self, client_id: &str) -> (r: QueueHandle)
        requires
            old(self).wf(),
        ensures
            final(self).wf(),
            final(self).same_settings(old(self)),
            r.client_id@ == client_id@,
            final(self)@ == old(self)@.insert(client_id@, final(self)@[client_id@]),
            final(self).fits(client_id@, final(self)@[client_id@].queue()),
            old(self)@.contains_key(client_id@) ==> {
                &&& final(self)@[client_id@].queue() == old(self)@[client_id@].queue()
                &&& final(self)@[client_id@].holders() == (if old(self)@[client_id@].holders()
                    < usize::MAX {
                    old(self)@[client_id@].holders() + 1
                } else {
                    usize::MAX as int
                })
            },
            !old(self)@.contains_key(client_id@) ==> {
                &&& old(self).is_new_queue(client_id@, final(self)@[client_id@].queue())
                &&& final(self)@[client_id@].holders() == 1
            },
    {
        let ghost origin = *self;
        self.ensure_queue(client_id);
        let ghost middle = *self;
        if let Some(entry) = self.queues.get_mut(client_id) {
            entry.holders = entry.holders.saturating_add(1);
        }
        proof {
            assert(self@ =~= origin@.insert(client_id@, self@[client_id@]));
        }
        QueueHandle { client_id: client_id.to_owned() }
    }

    /// Gives a hold back.
    pub fn release(&mut self, handle: QueueHandle)
        requires
            old(self).wf(),
        ensures
            final(self).wf(),
            final(self).same_settings(old(self)),
            !old(self)@.contains_key(handle.client_id@) ==> final(self)@ == old(self)@,
            old(self)@.contains_key(handle.client_id@) ==> {
                let id = handle.client_id@;
                &&& final(self)@ == old(self)@.insert(id, final(self)@[id])
                &&& final(self)@[id].queue() == old(self)@[id].queue()
                &&& final(self)@[id].holders() == (if old(self)@[id].holders() > 0 {
                    old(self)@[id].holders() - 1
                } else {
                    0
                })
            },
    {
        let ghost origin = *self;
        if let Some(entry) = self.queues.get_mut(handle.client_id.as_str()) {
            entry.holders = entry.holders.saturating_sub(1);
        }
        proof {
            let id = handle.client_id@;
            if origin@.contains_key(id) {
                assert(self@ =~= origin@.insert(id, self@[id]));
            }
        }
    }

    /// The client's queue, if there is one.
    pub fn queue(&self, client_id: &str) -> (r: Option<&ClientQueue>)
        requires
            self.wf(),
        ensures
            match r {
                Some(q) => self@.contains_key(client_id@) && *q == self@[client_id@].queue()
                    && self.fits(client_id@, *q),
                None => !self@.contains_key(client_id@),
            },
    {
        match self.queues.get(client_id) {
            Some(entry) => Some(&entry.queue),
            None => None,
        }
    }

    /// The client's queue for changes that keep it a queue of this client. It is created on first
    /// touch.
    pub fn queue_mut(&mut self, client_id: &str) -> (r: Option<&mut ClientQueue>)
        requires
            old(self).wf(),
        ensures
            match r {
                Some(q) => {
                    &&& old(self)@.contains_key(client_id@)
                    &&& *q == old(self)@[client_id@].queue()
                    &&& old(self).fits(client_id@, *q)
                    &&& final(self).same_settings(old(self))
                    &&& final(self)@ == old(self)@.insert(client_id@, final(self)@[client_id@])
                    &&& final(self)@[client_id@].queue() == *final(q)
                    &&& final(self)@[client_id@].holders() == old(self)@[client_id@].holders()
                    &&& old(self).fits(client_id@, *final(q)) ==> final(self).wf()
                },
                None => !old(self)@.contains_key(client_id@) && *final(self) == *old(self),
            },
    {
        let ghost after = *final(self);
        let ghost origin = *self;
        match self.queues.get_mut(client_id) {
            Some(entry) => {
                proof {
                    assert(after@ =~= origin@.insert(client_id@, after@[client_id@]));
                    assert(origin.fits(client_id@, origin@[client_id@].queue()));
                }
                Some(&mut entry.queue)
            },
            None => None,
        }
    }

    /// Every client that has a queue, in the order of first touch.
    pub fn handles(&self) -> (r: Vec<String>)
        requires
            self.wf(),
        ensures
            r@.len() == self@.dom().len(),
            forall|i: int| 0 <= i < r@.len() ==> self@.contains_key((#[trigger] r@[i])@),
            forall|k: Seq<char>| #[trigger]
                self@.contains_key(k) ==> exists|i: int| 0 <= i < r@.len() && (#[trigger] r@[i])@ == k,
            forall|i: int, j: int|
                #![trigger r@[i], r@[j]]
                0 <= i < j < r@.len() ==> r@[i]@ != r@[j]@,
    {
        let mut out: Vec<String> = Vec::new();
        let ghost list = self.queues.listing();
        proof {
            crate::text_map::lemma_as_map(list);
        }
        let n: usize = self.queues.len();
        let mut i: usize = 0;
        while i < n
            invariant
                i <= n,
                n == list.len(),
                list == self.queues.listing(),
                out@.len() == i,
                forall|j: int| 0 <= j < i ==> (#[trigger] out@[j])@ == list[j].0,
            decreases n - i,
        {
            out.push(self.queues.key_at(i).clone());
            i = i + 1;
        }
        proof {
            assert forall|j: int| 0 <= j < out@.len() implies self@.contains_key(
                (#[trigger] out@[j])@,
            ) by {
                assert(list[j].0 == out@[j]@);
            }
            assert forall|k: Seq<char>| #[trigger] self@.contains_key(k) implies exists|j: int|
                0 <= j < out@.len() && (#[trigger] out@[j])@ == k by {
                let j = choose|j: int| 0 <= j < list.len() && (#[trigger] list[j]).0 == k;
                assert(out@[j]@ == k);
            }
            assert forall|a: int, b: int|
                #![trigger out@[a], out@[b]]
                0 <= a < b < out@.len() implies out@[a]@ != out@[b]@ by {
                assert(list[a].0 != list[b].0);
            }
        }
        out
    }

    /// The next sequence number that will be assigned.
    pub fn next_seq(&self) -> (r: u64)
        ensures
            r == self.counter(),
    {
        self.seq
    }

    /// The counter once it is raised above a number found on disk, and to the floor at least.
    pub open spec fn seeded(counter: u64, max_seen: u64) -> int {
        let above = if max_seen < u64::MAX {
            max_seen + 1
        } else {
            u64::MAX as int
        };
        let least = if above > SEQ_FLOOR {
            above
        } else {
            SEQ_FLOOR as int
        };
        if counter > least {
            counter as int
        } else {
            least
        }
    }

    /// Raises the sequence counter above everything found on disk, and to the floor at least.
    pub fn seed_seq(&mut self, max_seen: u64)
        requires
            old(self).wf(),
        ensures
            final(self).wf(),
            final(self)@ == old(self)@,
            final(self).bounds() == old(self).bounds(),
            final(self).persists() == old(self).persists(),
            final(self).left_work() == old(self).left_work(),
            final(self).counter() == QueueRegistry::seeded(old(self).counter(), max_seen),
    {
        let above: u64 = max_seen.saturating_add(1);
        let least: u64 = if above > SEQ_FLOOR {
            above
        } else {
            SEQ_FLOOR
        };
        if self.seq < least {
            self.seq = least;
        }
    }

    /// Drops the queues that are empty and held by nobody. Returns how many were dropped. The work
    /// that a dropped queue has collected stays behind in the registry.
    pub fn evict_idle(&mut self) -> (r: usize)
        requires
            old(self).wf(),
        ensures
            final(self).wf(),
            final(self).same_counter(old(self)),
            forall|k: Seq<char>| #[trigger]
                final(self)@.contains_key(k) <==> old(self)@.contains_key(k) && !is_idle(
                    old(self)@[k],
                ),
            forall|k: Seq<char>| #[trigger]
                final(self)@.contains_key(k) ==> final(self)@[k] == old(self)@[k],
            r == old(self)@.dom().len() - final(self)@.dom().len(),
            final(self).left_work() == old(self).left_work() + idle_work(old(self).listed()),
            !old(self).persists() ==> final(self).left_work() == old(self).left_work(),
    {
        let ghost origin = *self;
        let ghost all = self.queues.listing();
        let ghost mut passed: int = 0;
        let before: usize = self.queues.len();
        let mut i: usize = 0;
        assert(all.take(0) =~= Seq::<(Seq<char>, Registered)>::empty());
        assert(all.skip(0) =~= all);
        while i < self.queues.len()
            invariant
                self.wf(),
                origin.wf(),
                self.same_counter(&origin),
                all == origin.queues.listing(),
                0 <= passed <= all.len(),
                i <= self.queues.listing().len(),
                self.queues.listing().len() <= before,
                self.queues.listing().skip(i as int) == all.skip(passed),
                self.left@ == origin.left@ + idle_work(all.take(passed)),
                forall|k: Seq<char>| #[trigger]
                    self@.contains_key(k) ==> origin@.contains_key(k) && self@[k] == origin@[k],
                forall|k: Seq<char>| #[trigger]
                    origin@.contains_key(k) && !self@.contains_key(k) ==> is_idle(origin@[k]),
                forall|j: int| 0 <= j < i ==> !is_idle((#[trigger] self.queues.listing()[j]).1),
            decreases self.queues.listing().len() - i,
        {
            let ghost list = self.queues.listing();
            proof {
                crate::text_map::lemma_as_map(list);
                assert(self@.contains_key(list[i as int].0));
                assert(self@[list[i as int].0] == list[i as int].1);
                assert(list.skip(i as int).len() == all.skip(passed).len());
                assert(list.skip(i as int)[0] == all.skip(passed)[0]);
                assert(list[i as int] == all[passed]);
                assert(all.take(passed + 1).drop_last() =~= all.take(passed));
                assert(all.take(passed + 1).last() == all[passed]);
                assert(list.skip(i as int).drop_first() =~= list.skip(i + 1));
                assert(all.skip(passed).drop_first() =~= all.skip(passed + 1));
            }
            let entry = self.queues.value_at(i);
            if entry.holders == 0 && entry.queue.is_empty() {
                let (_, entry) = self.queues.remove_at(i);
                if let Some(lane) = entry.queue.lane {
                    let mut lane = lane;
                    self.left.append(&mut lane);
                }
                proof {
                    assert(self.queues.listing().skip(i as int) =~= list.skip(i + 1));
                    assert(self.left@ =~= origin.left@ + idle_work(all.take(passed + 1)));
                    assert forall|j: int| 0 <= j < i implies !is_idle((
                    #[trigger] self.queues.listing()[j]).1) by {
                        assert(self.queues.listing()[j] == list[j]);
                    }
                }
            } else {
                i = i + 1;
            }
            proof {
                passed = passed + 1;
            }
        }
        proof {
            let list = self.queues.listing();
            assert(list.skip(i as int).len() == 0);
            assert(all.take(passed) =~= all);
            crate::text_map::lemma_as_map(list);
            crate::text_map::lemma_as_map(all);
            assert forall|k: Seq<char>| #[trigger] self@.contains_key(k) implies !is_idle(
                origin@[k],
            ) by {
                let j = choose|j: int| 0 <= j < list.len() && (#[trigger] list[j]).0 == k;
                assert(self@[list[j].0] == list[j].1);
            }
            if !origin.persists() {
                assert forall|j: int| 0 <= j < all.len() implies (
                #[trigger] all[j]).1.queue().work() is None by {
                    assert(origin@.contains_key(all[j].0) && origin@[all[j].0] == all[j].1);
                }
                lemma_no_idle_work(all);
                assert(self.left@ =~= origin.left@);
            }
        }
        before - self.queues.len()
    }

    /// Hands over the work that dropped queues have left behind.
    pub fn drain_left_work(&mut self) -> (r: Vec<QueueOp>)
        requires
            old(self).wf(),
        ensures
            final(self).wf(),
            final(self).same_counter(old(self)),
            final(self)@ == old(self)@,
            final(self).listed() == old(self).listed(),
            r@ == old(self).left_work(),
            final(self).left_work() == Seq::<QueueOp>::empty(),
    {
        let mut out: Vec<QueueOp> = Vec::new();
        std::mem::swap(&mut self.left, &mut out);
        out
    }

    /// A queue without its expired messages.
    pub open spec fn purged(before: ClientQueue, after: ClientQueue, now: u64) -> bool {
        &&& after.same_control(&before)
        &&& after.unfinished_batch() == before.unfinished_batch()
        &&& after.queued() == live(before.queued(), now)
        &&& after.work() == ClientQueue::more_work(
            before.work(),
            deletions(before.id(), seqs(expired(before.queued(), now))),
        )
    }

    /// Drops the expired messages of every queue.
    pub fn purge_expired(&mut self, now: u64)
        requires
            old(self).wf(),
        ensures
            final(self).wf(),
            final(self).same_settings(old(self)),
            final(self)@.dom() == old(self)@.dom(),
            forall|k: Seq<char>| #[trigger]
                old(self)@.contains_key(k) ==> final(self)@[k].holders() == old(self)@[k].holders()
                    && QueueRegistry::purged(
                    old(self)@[k].queue(),
                    final(self)@[k].queue(),
                    now,
                ),
    {
        let ghost origin = *self;
        let ids = self.handles();
        let mut i: usize = 0;
        while i < ids.len()
            invariant
                i <= ids@.len(),
                self.wf(),
                origin.wf(),
                self.same_settings(&origin),
                self@.dom() == origin@.dom(),
                forall|j: int| 0 <= j < ids@.len() ==> origin@.contains_key((#[trigger] ids@[j])@),
                forall|a: int, b: int|
                    #![trigger ids@[a], ids@[b]]
                    0 <= a < b < ids@.len() ==> ids@[a]@ != ids@[b]@,
                forall|j: int|
                    0 <= j < i ==> self@[(#[trigger] ids@[j])@].holders()
                        == origin@[ids@[j]@].holders() && QueueRegistry::purged(
                        origin@[ids@[j]@].queue(),
                        self@[ids@[j]@].queue(),
                        now,
                    ),
                forall|j: int|
                    i <= j < ids@.len() ==> self@[(#[trigger] ids@[j])@] == origin@[ids@[j]@],
            decreases ids@.len() - i,
        {
            let ghost before = *self;
            let id = ids[i].as_str();
            assert(ids@[i as int]@ == id@);
            if let Some(queue) = self.queue_mut(id) {
                let _ = queue.purge_expired(now);
            }
            proof {
                assert(before@.contains_key(id@));
                assert(self@.dom() =~= before@.dom());
                assert forall|j: int| 0 <= j < ids@.len() && j != i implies self@[(
                #[trigger] ids@[j])@] == before@[ids@[j]@] by {
                    assert(ids@[j]@ != ids@[i as int]@);
                }
            }
            i = i + 1;
        }
        proof {
            assert forall|k: Seq<char>| #[trigger] origin@.contains_key(k) implies self@[k].holders()
                == origin@[k].holders() && QueueRegistry::purged(
                origin@[k].queue(),
                self@[k].queue(),
                now,
            ) by {
                let j = choose|j: int| 0 <= j < ids@.len() && (#[trigger] ids@[j])@ == k;
            }
        }
    }

    /// The bounds of every queue.
    pub fn limits(&self) -> (r: QueueLimits)
        ensures
            r == self.bounds(),
    {
        self.limits
    }

    /// The registry after a message was appended to a client's queue, which is created on first
    /// touch.
    pub open spec fn pushed(
        before: QueueRegistry,
        after: QueueRegistry,
        client_id: Seq<char>,
        message: QueuedMessage,
        r: PushOutcome,
    ) -> bool {
        &&& after.bounds() == before.bounds()
        &&& after.persists() == before.persists()
        &&& after.left_work() == before.left_work()
        &&& after.counter() == (if before.counter() < u64::MAX {
            before.counter() + 1
        } else {
            0
        })
        &&& after@ == before@.insert(client_id, after@[client_id])
        &&& after.control_of(client_id) == before.control_of(client_id)
        &&& after.fits(client_id, after@[client_id].queue())
        &&& before@.contains_key(client_id) ==> after@[client_id].queue().id()
            == before@[client_id].queue().id()
        &&& after@[client_id].queue().holds_pushed(
            before.entries_of(client_id),
            before.work_of(client_id),
            before.counter(),
            message,
        )
        &&& r.seq == before.counter()
        &&& r.dropped_oldest == surplus(
            before.entries_of(client_id).push(QueueEntry::of(before.counter(), message)),
            before.bounds(),
        )
    }

    /// The registry after one more holds a client's queue, which is created on first touch.
    pub open spec fn held(
        before: QueueRegistry,
        after: QueueRegistry,
        client_id: Seq<char>,
    ) -> bool {
        &&& after.same_settings(&before)
        &&& after@ == before@.insert(client_id, after@[client_id])
        &&& after.entries_of(client_id) == before.entries_of(client_id)
        &&& after.work_of(client_id) == before.work_of(client_id)
        &&& after.control_of(client_id) == (Control {
            holders: one_more(before.control_of(client_id).holders),
            ..before.control_of(client_id)
        })
        &&& after.fits(client_id, after@[client_id].queue())
        &&& before@.contains_key(client_id) ==> after@[client_id].queue()
            == before@[client_id].queue()
    }

    /// Appends a message to a client's queue, which is created on first touch.
    pub fn push(&mut self, client_id: &str, message: QueuedMessage) -> (r: PushOutcome)
        requires
            old(self).wf(),
        ensures
            final(self).wf(),
            QueueRegistry::pushed(*old(self), *final(self), client_id@, message, r),
    {
        let ghost origin = *self;
        self.ensure_queue(client_id);
        let ghost middle = *self;
        let mut counter: u64 = self.seq;
        assert(middle.fits(client_id@, middle@[client_id@].queue()));
        let outcome = match self.queues.get_mut(client_id) {
            Some(entry) => entry.queue.push(&mut counter, message),
            None => PushOutcome { seq: 0, dropped_oldest: 0 },
        };
        self.seq = counter;
        proof {
            assert(self@ =~= origin@.insert(client_id@, self@[client_id@]));
        }
        outcome
    }

    /// Puts messages back at the front of a client's queue, which is created on first touch.
    pub fn requeue_front(&mut self, client_id: &str, messages: Vec<QueuedMessage>)
        requires
            old(self).wf(),
        ensures
            final(self).wf(),
            final(self).same_settings(old(self)),
            final(self)@ == old(self)@.insert(client_id@, final(self)@[client_id@]),
            final(self).control_of(client_id@) == old(self).control_of(client_id@),
            final(self).fits(client_id@, final(self)@[client_id@].queue()),
            old(self)@.contains_key(client_id@) ==> final(self)@[client_id@].queue().id()
                == old(self)@[client_id@].queue().id(),
            final(self)@[client_id@].queue().holds_requeued(
                old(self).entries_of(client_id@),
                old(self).work_of(client_id@),
                old(self).counter(),
                messages@,
            ),
    {
        let ghost origin = *self;
        self.ensure_queue(client_id);
        let ghost middle = *self;
        let counter: u64 = self.seq;
        assert(middle.fits(client_id@, middle@[client_id@].queue()));
        if let Some(entry) = self.queues.get_mut(client_id) {
            entry.queue.requeue_front(&counter, messages);
        }
        proof {
            assert(self@ =~= origin@.insert(client_id@, self@[client_id@]));
        }
    }
}

/// Queues that collect no work leave none behind.
proof fn lemma_no_idle_work(list: Seq<(Seq<char>, Registered)>)
    requires
        forall|j: int| 0 <= j < list.len() ==> (#[trigger] list[j]).1.queue().work() is None,
    ensures
        idle_work(list) == Seq::<QueueOp>::empty(),
    decreases list.len(),
{
    if list.len() > 0 {
        let rest = list.drop_last();
        assert forall|j: int| 0 <= j < rest.len() implies (
        #[trigger] rest[j]).1.queue().work() is None by {
            assert(rest[j] == list[j]);
        }
        lemma_no_idle_work(rest);
        assert(list[list.len() - 1].1.queue().work() is None);
    }
}

/// Dropping idle queues loses no work: each operation that a dropped queue had collected is among
/// the work that is left behind.
pub proof fn law_eviction_loses_no_work(list: Seq<(Seq<char>, Registered)>, i: int, op: QueueOp)
    requires
        0 <= i < list.len(),
        is_idle(list[i].1),
        list[i].1.queue().work() is Some,
        list[i].1.queue().work()->0.contains(op),
    ensures
        idle_work(list).contains(op),
    decreases list.len(),
{
    let rest = idle_work(list.drop_last());
    if i == list.len() - 1 {
        let work = list[i].1.queue().work()->0;
        let j = choose|j: int| 0 <= j < work.len() && work[j] == op;
        assert(idle_work(list)[rest.len() + j] == op);
    } else {
        assert(list.drop_last()[i] == list[i]);
        law_eviction_loses_no_work(list.drop_last(), i, op);
        let j = choose|j: int| 0 <= j < rest.len() && rest[j] == op;
        assert(idle_work(list)[j] == op);
    }
}

proof fn lemma_live_prefix(front: Seq<QueueEntry>, rest: Seq<QueueEntry>, now: u64)
    requires
        forall|i: int|
            0 <= i < front.len() ==> hands_out(#[trigger] front[i], now),
    ensures
        reach(front + rest, front.len() as int, now) == front.len(),
        live(front, now) == front,
        expired(front, now) == Seq::<QueueEntry>::empty(),
    decreases front.len(),
{
    if front.len() > 0 {
        let tail = front.drop_first();
        assert forall|i: int| 0 <= i < tail.len() implies hands_out(#[trigger] tail[i], now) by {
            assert(tail[i] == front[i + 1]);
        }
        assert((front + rest).drop_first() =~= tail + rest);
        assert((front + rest)[0] == front[0]);
        lemma_live_prefix(tail, rest, now);
        let init = front.drop_last();
        assert forall|i: int| 0 <= i < init.len() implies hands_out(#[trigger] init[i], now) by {
            assert(init[i] == front[i]);
        }
        lemma_live_prefix(init, rest, now);
        assert(init.push(front.last()) =~= front);
    }
}

proof fn lemma_delivered_batch(first: int, messages: Seq<QueuedMessage>, now: u64)
    requires
        forall|i: int|
            0 <= i < messages.len() ==> !super::past(
                (#[trigger] messages[i]).recomputed().expires_at,
                now,
            ),
    ensures
        delivered(batch(first, messages), now) == messages.map_values(
            |m: QueuedMessage| m.recomputed(),
        ),
    decreases messages.len(),
{
    let out = messages.map_values(|m: QueuedMessage| m.recomputed());
    if messages.len() > 0 {
        let init = messages.drop_last();
        assert forall|i: int| 0 <= i < init.len() implies !crate::broker::storage::past(
            (#[trigger] init[i]).recomputed().expires_at,
            now,
        ) by {
            assert(init[i] == messages[i]);
        }
        lemma_delivered_batch(first, init, now);
        assert(batch(first, messages).drop_last() =~= batch(first, init));
        assert(messages[messages.len() - 1] == messages.last());
        assert(out =~= init.map_values(|m: QueuedMessage| m.recomputed()).push(
            messages.last().recomputed(),
        ));
    } else {
        assert(out =~= Seq::<QueuedMessage>::empty());
    }
}

/// A take after a front re-queue that dropped nothing hands the re-queued messages back first, in
/// their order, each with its deadline counted again, as long as none has expired; what was queued
/// before stays queued.
pub proof fn law_requeued_messages_come_out_first(
    before: Seq<QueueEntry>,
    messages: Seq<QueuedMessage>,
    next_seq: u64,
    now: u64,
)
    requires
        forall|i: int|
            0 <= i < messages.len() ==> !super::past((#[trigger] messages[i]).expires_at, now),
        forall|i: int|
            0 <= i < messages.len() ==> !super::past(
                (#[trigger] messages[i]).recomputed().expires_at,
                now,
            ),
    ensures
        ({
            let first = requeue_first(before, next_seq, messages.len());
            let all = batch(first, messages) + before;
            let n = reach(all, messages.len() as int, now) as int;
            &&& delivered(live(all.take(n), now), now) == messages.map_values(
                |m: QueuedMessage| m.recomputed(),
            )
            &&& all.skip(n) == before
        }),
{
    let first = requeue_first(before, next_seq, messages.len());
    let fresh = batch(first, messages);
    let all = fresh + before;
    assert forall|i: int| 0 <= i < fresh.len() implies hands_out(#[trigger] fresh[i], now) by {
        assert(fresh[i] == QueueEntry::of((first + i) as u64, messages[i]));
    }
    lemma_live_prefix(fresh, before, now);
    assert(all.take(fresh.len() as int) =~= fresh);
    assert(all.skip(fresh.len() as int) =~= before);
    lemma_delivered_batch(first, messages, now);
}

/// A take that hands out nothing, though it may, leaves nothing but what has to be read from a file
/// first: once no body has to be, the queue is empty.
pub proof fn law_empty_take_means_an_empty_queue(entries: Seq<QueueEntry>, limit: int, now: u64)
    requires
        limit > 0,
        forall|i: int| 0 <= i < entries.len() ==> !unread(#[trigger] entries[i], now),
        delivered(live(entries.take(reach(entries, limit, now) as int), now), now).len() == 0,
    ensures
        entries.skip(reach(entries, limit, now) as int) == Seq::<QueueEntry>::empty(),
    decreases entries.len(),
{
    let n = reach(entries, limit, now) as int;
    lemma_reach(entries, limit, now);
    if entries.len() > 0 {
        let rest = entries.drop_first();
        assert(!unread(entries[0], now));
        assert forall|i: int| 0 <= i < rest.len() implies !unread(#[trigger] rest[i], now) by {
            assert(rest[i] == entries[i + 1]);
        }
        lemma_reach(rest, limit, now);
        lemma_reach(rest, limit - 1, now);
        let head = seq![entries[0]];
        assert(entries.take(n) =~= head + rest.take(n - 1));
        lemma_handed_concat(head, rest.take(n - 1), now);
        assert(head.drop_last() =~= Seq::<QueueEntry>::empty());
        assert(live(head.drop_last(), now) =~= Seq::<QueueEntry>::empty());
        if hands_out(entries[0], now) {
            assert(live(head, now) =~= head);
            assert(delivered(live(head, now), now).len() == 1);
        } else {
            law_empty_take_means_an_empty_queue(rest, limit, now);
            assert(entries.skip(n) =~= rest.skip(n - 1));
        }
    } else {
        assert(entries.skip(n) =~= Seq::<QueueEntry>::empty());
    }
}

proof fn lemma_handed_concat(a: Seq<QueueEntry>, b: Seq<QueueEntry>, now: u64)
    ensures
        live(a + b, now) == live(a, now) + live(b, now),
        delivered(a + b, now) == delivered(a, now) + delivered(b, now),
        delivered(live(a + b, now), now) == delivered(live(a, now), now) + delivered(
            live(b, now),
            now,
        ),
    decreases b.len(),
{
    lemma_live_concat(a, b, now);
    lemma_delivered_concat(a, b, now);
    lemma_delivered_concat(live(a, now), live(b, now), now);
}

proof fn lemma_live_concat(a: Seq<QueueEntry>, b: Seq<QueueEntry>, now: u64)
    ensures
        live(a + b, now) == live(a, now) + live(b, now),
    decreases b.len(),
{
    if b.len() > 0 {
        lemma_live_concat(a, b.drop_last(), now);
        assert((a + b).drop_last() =~= a + b.drop_last());
        assert((a + b).last() == b.last());
        assert(live(a + b, now) =~= live(a, now) + live(b, now));
    } else {
        assert(a + b =~= a);
        assert(live(a, now) + live(b, now) =~= live(a, now));
    }
}

proof fn lemma_delivered_concat(a: Seq<QueueEntry>, b: Seq<QueueEntry>, now: u64)
    ensures
        delivered(a + b, now) == delivered(a, now) + delivered(b, now),
    decreases b.len(),
{
    if b.len() > 0 {
        lemma_delivered_concat(a, b.drop_last(), now);
        assert((a + b).drop_last() =~= a + b.drop_last());
        assert((a + b).last() == b.last());
        assert(delivered(a + b, now) =~= delivered(a, now) + delivered(b, now));
    } else {
        assert(a + b =~= a);
        assert(delivered(a, now) + delivered(b, now) =~= delivered(a, now));
    }
}

/// Live messages that were taken and are put back stand where they were: the queue is as long as
/// before the take and hands out the same messages in the same order.
pub proof fn law_taken_messages_go_back_where_they_were(
    entries: Seq<QueueEntry>,
    limit: int,
    next_seq: u64,
    now: u64,
)
    requires
        forall|i: int| 0 <= i < entries.len() ==> hands_out(#[trigger] entries[i], now),
        limit >= 0,
    ensures
        ({
            let n = reach(entries, limit, now) as int;
            let taken = delivered(live(entries.take(n), now), now);
            let rest = entries.skip(n);
            let after = batch(requeue_first(rest, next_seq, taken.len()), taken) + rest;
            &&& after.len() == entries.len()
            &&& delivered(live(after, now), now) == delivered(live(entries, now), now)
        }),
{
    let n = reach(entries, limit, now) as int;
    lemma_reach(entries, limit, now);
    let front = entries.take(n);
    let rest = entries.skip(n);
    let taken = delivered(live(front, now), now);
    let first = requeue_first(rest, next_seq, taken.len());
    assert(front + rest =~= entries);
    lemma_handed_concat(front, rest, now);
    assert forall|i: int| 0 <= i < front.len() implies hands_out(#[trigger] front[i], now) by {
        assert(front[i] == entries[i]);
    }
    lemma_live_prefix(front, rest, now);
    lemma_handed_each(front, now);
    let again = taken.map_values(|m: QueuedMessage| m.recomputed());
    assert forall|i: int| 0 <= i < taken.len() implies !crate::broker::storage::past(
        (#[trigger] taken[i]).recomputed().expires_at,
        now,
    ) && !crate::broker::storage::past(taken[i].expires_at, now) && taken[i].recomputed()
        == taken[i] by {
        assert(hands_out(front[i], now));
    }
    lemma_delivered_batch(first, taken, now);
    assert(again =~= taken);
    let fresh = batch(first, taken);
    assert forall|i: int| 0 <= i < fresh.len() implies hands_out(#[trigger] fresh[i], now) by {
        assert(fresh[i] == QueueEntry::of((first + i) as u64, taken[i]));
        assert(!crate::broker::storage::past(taken[i].recomputed().expires_at, now));
    }
    lemma_live_prefix(fresh, rest, now);
    lemma_handed_concat(fresh, rest, now);
}

proof fn lemma_handed_each(entries: Seq<QueueEntry>, now: u64)
    requires
        forall|i: int| 0 <= i < entries.len() ==> hands_out(#[trigger] entries[i], now),
    ensures
        delivered(entries, now).len() == entries.len(),
        forall|i: int|
            0 <= i < entries.len() ==> (#[trigger] delivered(entries, now)[i])
                == entries[i].body->0.recomputed(),
    decreases entries.len(),
{
    if entries.len() > 0 {
        let init = entries.drop_last();
        assert forall|i: int| 0 <= i < init.len() implies hands_out(#[trigger] init[i], now) by {
            assert(init[i] == entries[i]);
        }
        lemma_handed_each(init, now);
        assert(hands_out(entries[entries.len() - 1], now));
        assert forall|i: int| 0 <= i < entries.len() implies (
        #[trigger] delivered(entries, now)[i]) == entries[i].body->0.recomputed() by {
            if i < init.len() {
                assert(delivered(entries, now)[i] == delivered(init, now)[i]);
                assert(init[i] == entries[i]);
            }
        }
    }
}

/// Where every queued number increases and lies below the counter, it does so after a push too.
pub proof fn law_push_keeps_numbers_increasing(
    before: Seq<QueueEntry>,
    message: QueuedMessage,
    counter: u64,
    limits: QueueLimits,
)
    requires
        increasing(before),
        forall|i: int| 0 <= i < before.len() ==> (#[trigger] before[i]).seq < counter,
    ensures
        ({
            let all = before.push(QueueEntry::of(counter, message));
            let after = all.skip(surplus(all, limits) as int);
            &&& increasing(after)
            &&& forall|i: int| 0 <= i < after.len() ==> (#[trigger] after[i]).seq < counter + 1
        }),
{
    let all = before.push(QueueEntry::of(counter, message));
    lemma_surplus(all, limits);
    lemma_increasing_skip(all, surplus(all, limits) as int);
}

/// A front re-queue keeps the numbers increasing wherever there is room below the head.
pub proof fn law_requeue_keeps_numbers_increasing(
    before: Seq<QueueEntry>,
    messages: Seq<QueuedMessage>,
    counter: u64,
    limits: QueueLimits,
)
    requires
        increasing(before),
        messages.len() <= (if before.len() > 0 {
            before[0].seq
        } else {
            counter
        }),
    ensures
        ({
            let all = batch(requeue_first(before, counter, messages.len()), messages) + before;
            increasing(all.skip(surplus(all, limits) as int))
        }),
{
    let first = requeue_first(before, counter, messages.len());
    let fresh = batch(first, messages);
    let all = fresh + before;
    assert forall|i: int, j: int|
        #![trigger all[i], all[j]]
        0 <= i < j < all.len() implies all[i].seq < all[j].seq by {
        if j < fresh.len() {
            assert(all[i] == fresh[i] && all[j] == fresh[j]);
        } else {
            assert(all[j] == before[j - fresh.len()]);
            assert(before[0].seq <= before[j - fresh.len()].seq);
            if i < fresh.len() {
                assert(all[i] == fresh[i]);
            } else {
                assert(all[i] == before[i - fresh.len()]);
            }
        }
    }
    lemma_surplus(all, limits);
    lemma_increasing_skip(all, surplus(all, limits) as int);
}

proof fn lemma_increasing_skip(entries: Seq<QueueEntry>, n: int)
    requires
        increasing(entries),
        0 <= n <= entries.len(),
    ensures
        increasing(entries.skip(n)),
{
    let after = entries.skip(n);
    assert forall|i: int, j: int|
        #![trigger after[i], after[j]]
        0 <= i < j < after.len() implies after[i].seq < after[j].seq by {
        assert(after[i] == entries[i + n] && after[j] == entries[j + n]);
    }
}

/// Clearing up to a cutoff removes what was numbered below it and keeps, in order, what was queued
/// from it on.
pub proof fn law_clear_keeps_what_came_after_the_cutoff(
    older: Seq<QueueEntry>,
    newer: Seq<QueueEntry>,
    cutoff: u64,
)
    requires
        forall|i: int| 0 <= i < older.len() ==> (#[trigger] older[i]).seq < cutoff,
        forall|i: int| 0 <= i < newer.len() ==> (#[trigger] newer[i]).seq >= cutoff,
    ensures
        kept(older + newer, DropRule::Below(Some(cutoff))) == newer,
        dropped(older + newer, DropRule::Below(Some(cutoff))) == older,
    decreases older.len() + newer.len(),
{
    let all = older + newer;
    if newer.len() > 0 {
        let init = newer.drop_last();
        assert forall|i: int| 0 <= i < init.len() implies (#[trigger] init[i]).seq >= cutoff by {
            assert(init[i] == newer[i]);
        }
        law_clear_keeps_what_came_after_the_cutoff(older, init, cutoff);
        assert(all.drop_last() =~= older + init);
        assert(all.last() == newer[newer.len() - 1]);
        assert(init.push(newer.last()) =~= newer);
    } else if older.len() > 0 {
        let init = older.drop_last();
        assert forall|i: int| 0 <= i < init.len() implies (#[trigger] init[i]).seq < cutoff by {
            assert(init[i] == older[i]);
        }
        law_clear_keeps_what_came_after_the_cutoff(init, newer, cutoff);
        assert(all.drop_last() =~= init + newer);
        assert(all.last() == older[older.len() - 1]);
        assert(init.push(older.last()) =~= older);
    }
}

/// A take whose limit is not below the number of entries empties the queue, once no body has to be
/// read from a file.
pub proof fn law_unlimited_take_empties_the_queue(entries: Seq<QueueEntry>, limit: int, now: u64)
    requires
        limit >= entries.len(),
        forall|i: int| 0 <= i < entries.len() ==> !unread(#[trigger] entries[i], now),
    ensures
        reach(entries, limit, now) == entries.len(),
        entries.skip(reach(entries, limit, now) as int) == Seq::<QueueEntry>::empty(),
    decreases entries.len(),
{
    if entries.len() > 0 {
        assert forall|i: int| 0 <= i < entries.drop_first().len() implies !unread(
            #[trigger] entries.drop_first()[i],
            now,
        ) by {
            assert(entries.drop_first()[i] == entries[i + 1]);
        }
        law_unlimited_take_empties_the_queue(entries.drop_first(), limit - 1, now);
        law_unlimited_take_empties_the_queue(entries.drop_first(), limit, now);
    }
    assert(entries.skip(entries.len() as int) =~= Seq::<QueueEntry>::empty());
}

/// A message that was pushed without dropping anything is read back: a take whose limit allows it
/// hands out what was queued before, in order, and then that message, as long as it has not
/// expired.
pub proof fn law_pushed_message_comes_out_last(
    entries: Seq<QueueEntry>,
    seq: u64,
    message: QueuedMessage,
    limit: int,
    now: u64,
)
    requires
        limit > entries.len(),
        forall|i: int| 0 <= i < entries.len() ==> !unread(#[trigger] entries[i], now),
        !super::past(message.expires_at, now),
        !super::past(message.recomputed().expires_at, now),
    ensures
        ({
            let all = entries.push(QueueEntry::of(seq, message));
            let n = reach(all, limit, now) as int;
            &&& delivered(live(all.take(n), now), now) == delivered(live(entries, now), now).push(
                message.recomputed(),
            )
            &&& all.skip(n) == Seq::<QueueEntry>::empty()
        }),
{
    let e = QueueEntry::of(seq, message);
    let all = entries.push(e);
    law_unlimited_take_empties_the_queue(all, limit, now);
    let one = seq![e];
    assert(all =~= entries + one);
    assert(all.take(all.len() as int) =~= all);
    lemma_handed_concat(entries, one, now);
    assert(one.drop_last() =~= Seq::<QueueEntry>::empty());
    assert(live(one.drop_last(), now) =~= Seq::<QueueEntry>::empty());
    assert(live(one, now) =~= one);
    assert(delivered(one.drop_last(), now) =~= Seq::<QueuedMessage>::empty());
    assert(one.last() == e);
    assert(delivered(one, now) =~= seq![message.recomputed()]);
    assert(delivered(live(all, now), now) =~= delivered(live(entries, now), now).push(
        message.recomputed(),
    ));
}

/// Clearing without a cutoff removes everything.
pub proof fn law_clear_removes_everything(entries: Seq<QueueEntry>)
    ensures
        kept(entries, DropRule::Below(None)) == Seq::<QueueEntry>::empty(),
        dropped(entries, DropRule::Below(None)) == entries,
    decreases entries.len(),
{
    if entries.len() > 0 {
        law_clear_removes_everything(entries.drop_last());
        assert(entries.drop_last().push(entries.last()) =~= entries);
    }
}

/// The bytes of a queue are those of its payloads: the bytes of two lists add up, and a message
/// counts with the length of its payload.
pub proof fn law_bytes_are_those_of_the_payloads(
    a: Seq<QueueEntry>,
    b: Seq<QueueEntry>,
    seq: u64,
    message: QueuedMessage,
)
    ensures
        total_bytes(a + b) == total_bytes(a) + total_bytes(b),
        message.payload@.len() <= usize::MAX ==> total_bytes(seq![QueueEntry::of(seq, message)])
            == message.payload@.len(),
        total_bytes(Seq::<QueueEntry>::empty()) == 0,
{
    lemma_total_concat(a, b);
    let one = seq![QueueEntry::of(seq, message)];
    assert(one.drop_first() =~= Seq::<QueueEntry>::empty());
    assert(total_bytes(one) == one[0].bytes as nat + total_bytes(one.drop_first()));
}

/// A queue stays within its limits, and only the oldest messages leave, no more of them than has to
/// be: what is left holds no more messages and no more bytes than allowed, apart from a single
/// message that is too large alone, and with one more of those that left it would hold too many.
pub proof fn law_queue_stays_within_its_limits(entries: Seq<QueueEntry>, limits: QueueLimits)
    ensures
        ({
            let n = surplus(entries, limits) as int;
            let rest = entries.skip(n);
            &&& 0 <= n <= entries.len()
            &&& rest.len() <= limits.max_messages
            &&& rest.len() > 1 ==> total_bytes(rest) <= limits.max_bytes
            &&& entries.len() <= limits.max_messages && total_bytes(entries) <= limits.max_bytes
                ==> n == 0
            &&& entries.len() == 1 && limits.max_messages > 0 ==> n == 0
            &&& n > 0 ==> rest.len() + 1 > limits.max_messages || total_bytes(
                entries.skip(n - 1),
            ) > limits.max_bytes
        }),
{
    lemma_surplus(entries, limits);
    let n = surplus(entries, limits) as int;
    if n > 0 {
        assert(over_limits(entries.skip(n - 1), limits));
    }
}

/// Of a list of entries those are live whose deadline has not passed, in their order; an entry
/// without a deadline always is.
pub proof fn law_live_entries(entries: Seq<QueueEntry>, now: u64)
    ensures
        live(entries, now) == entries.filter(
            |e: QueueEntry| e.expires_at is None || now <= e.expires_at->0,
        ),
        expired(entries, now) == entries.filter(
            |e: QueueEntry| e.expires_at is Some && now > e.expires_at->0,
        ),
    decreases entries.len(),
{
    reveal(Seq::filter);
    if entries.len() > 0 {
        law_live_entries(entries.drop_last(), now);
    }
}

/// A message that was queued at a moment is handed out exactly while its expiry interval has not
/// gone by since, whatever stands before it: a take that reaches it gives what stands before it, and
/// then the message as it was queued, or without it once it has expired.
pub proof fn law_queued_message_is_handed_out_until_it_expires(
    entries: Seq<QueueEntry>,
    seq: u64,
    packet: PublishPacket,
    client_id: String,
    qos: QoS,
    packet_id: Option<u16>,
    start: u64,
    limit: int,
    now: u64,
)
    requires
        limit > entries.len(),
        forall|i: int| 0 <= i < entries.len() ==> !unread(#[trigger] entries[i], now),
    ensures
        ({
            let message = QueuedMessage::of(packet, client_id, qos, packet_id, start);
            let all = entries.push(QueueEntry::of(seq, message));
            let before = delivered(live(entries, now), now);
            let out = delivered(live(all.take(reach(all, limit, now) as int), now), now);
            if packet.properties.message_expiry_interval matches Some(seconds) && now > start
                + seconds * 1000 {
                out == before
            } else {
                out == before.push(message)
            }
        }),
{
    let message = QueuedMessage::of(packet, client_id, qos, packet_id, start);
    let e = QueueEntry::of(seq, message);
    let all = entries.push(e);
    assert forall|i: int| 0 <= i < all.len() implies !unread(#[trigger] all[i], now) by {
        if i < entries.len() {
            assert(all[i] == entries[i]);
        }
    }
    law_unlimited_take_empties_the_queue(all, limit, now);
    assert(all.take(all.len() as int) =~= all);
    let one = seq![e];
    assert(all =~= entries + one);
    lemma_handed_concat(entries, one, now);
    super::law_message_lives_for_its_interval(packet, client_id, qos, packet_id, start, now);
    assert(one.drop_last() =~= Seq::<QueueEntry>::empty());
    assert(one.last() == e);
    assert(live(one.drop_last(), now) =~= Seq::<QueueEntry>::empty());
    assert(delivered(Seq::<QueueEntry>::empty(), now) =~= Seq::<QueuedMessage>::empty());
    let before = delivered(live(entries, now), now);
    if super::past(message.expires_at, now) {
        assert(live(one, now) =~= Seq::<QueueEntry>::empty());
        assert(delivered(live(all, now), now) =~= before);
    } else {
        assert(live(one, now) =~= one);
        assert(message.recomputed() == message);
        assert(delivered(one, now) =~= seq![message]);
        assert(delivered(live(all, now), now) =~= before.push(message));
    }
}

/// Nothing that is handed out has expired: each message was queued no longer ago than its expiry
/// interval.
pub proof fn law_nothing_expired_is_handed_out(entries: Seq<QueueEntry>, now: u64, i: int)
    requires
        0 <= i < delivered(entries, now).len(),
    ensures
        delivered(entries, now)[i].message_expiry_interval matches Some(seconds) ==> now
            <= delivered(entries, now)[i].queued_at + seconds * 1000,
        exists|k: int|
            0 <= k < entries.len() && (#[trigger] entries[k]).body is Some
                && entries[k].body->0.topic == delivered(entries, now)[i].topic
                && entries[k].body->0.payload == delivered(entries, now)[i].payload,
    decreases entries.len(),
{
    let init = entries.drop_last();
    let last = entries.last();
    if i < delivered(init, now).len() {
        law_nothing_expired_is_handed_out(init, now, i);
        let k = choose|k: int|
            0 <= k < init.len() && (#[trigger] init[k]).body is Some && init[k].body->0.topic
                == delivered(init, now)[i].topic && init[k].body->0.payload == delivered(
                init,
                now,
            )[i].payload;
        assert(entries[k] == init[k]);
    } else {
        assert(entries[entries.len() - 1] == last);
    }
}

/// Taking messages in portions is taking them at once: a take gives the oldest messages that can be
/// handed out, as many as the limit allows, and what is left gives the others in their order.
pub proof fn law_take_gives_the_oldest_messages(entries: Seq<QueueEntry>, limit: int, now: u64)
    requires
        limit >= 0,
        forall|i: int| 0 <= i < entries.len() ==> !unread(#[trigger] entries[i], now),
    ensures
        ({
            let n = reach(entries, limit, now) as int;
            let all = delivered(live(entries, now), now);
            let out = delivered(live(entries.take(n), now), now);
            &&& out + delivered(live(entries.skip(n), now), now) == all
            &&& out.len() == (if all.len() < limit {
                all.len() as int
            } else {
                limit
            })
        }),
    decreases entries.len(),
{
    let n = reach(entries, limit, now) as int;
    lemma_reach(entries, limit, now);
    let all = delivered(live(entries, now), now);
    assert(entries.take(n) + entries.skip(n) =~= entries);
    lemma_handed_concat(entries.take(n), entries.skip(n), now);
    if entries.len() > 0 && limit > 0 {
        let rest = entries.drop_first();
        let head = seq![entries[0]];
        assert(!unread(entries[0], now));
        assert forall|i: int| 0 <= i < rest.len() implies !unread(#[trigger] rest[i], now) by {
            assert(rest[i] == entries[i + 1]);
        }
        assert(head.drop_last() =~= Seq::<QueueEntry>::empty());
        assert(head.last() == entries[0]);
        assert(live(head.drop_last(), now) =~= Seq::<QueueEntry>::empty());
        assert(delivered(Seq::<QueueEntry>::empty(), now) =~= Seq::<QueuedMessage>::empty());
        assert(entries =~= head + rest);
        lemma_handed_concat(head, rest, now);
        assert(entries.take(n) =~= head + rest.take(n - 1));
        lemma_handed_concat(head, rest.take(n - 1), now);
        if hands_out(entries[0], now) {
            law_take_gives_the_oldest_messages(rest, limit - 1, now);
            assert(live(head, now) =~= head);
            assert(delivered(live(head, now), now).len() == 1);
        } else {
            law_take_gives_the_oldest_messages(rest, limit, now);
            if super::past(entries[0].expires_at, now) {
                assert(live(head, now) =~= Seq::<QueueEntry>::empty());
            } else {
                assert(live(head, now) =~= head);
            }
            assert(delivered(live(head, now), now).len() == 0);
        }
    } else {
        assert(entries.take(0) =~= Seq::<QueueEntry>::empty());
        assert(live(Seq::<QueueEntry>::empty(), now) =~= Seq::<QueueEntry>::empty());
        assert(delivered(Seq::<QueueEntry>::empty(), now) =~= Seq::<QueuedMessage>::empty());
        if entries.len() == 0 {
            assert(entries =~= Seq::<QueueEntry>::empty());
        }
    }
}

/// The files of a client's queue after work was done in order: a write makes the file of its number,
/// a deletion removes it.
pub open spec fn files_after(files: Set<u64>, work: Seq<QueueOp>) -> Set<u64>
    decreases work.len(),
{
    if work.len() == 0 {
        files
    } else {
        let before = files_after(files, work.drop_last());
        match work.last() {
            QueueOp::Write { seq, .. } => before.insert(seq),
            QueueOp::Delete { seq, .. } => before.remove(seq),
            _ => before,
        }
    }
}

proof fn lemma_files_concat(files: Set<u64>, a: Seq<QueueOp>, b: Seq<QueueOp>)
    ensures
        files_after(files, a + b) == files_after(files_after(files, a), b),
    decreases b.len(),
{
    if b.len() > 0 {
        lemma_files_concat(files, a, b.drop_last());
        assert((a + b).drop_last() =~= a + b.drop_last());
        assert((a + b).last() == b.last());
    } else {
        assert(a + b =~= a);
    }
}

proof fn lemma_files_deleted(files: Set<u64>, client_id: String, numbers: Seq<u64>, x: u64)
    ensures
        files_after(files, deletions(client_id, numbers)).contains(x) <==> files.contains(x)
            && !numbers.contains(x),
    decreases numbers.len(),
{
    let ops = deletions(client_id, numbers);
    if numbers.len() > 0 {
        let init = numbers.drop_last();
        lemma_files_deleted(files, client_id, init, x);
        assert(ops.drop_last() =~= deletions(client_id, init));
        assert(ops.last() == (QueueOp::Delete { client_id, seq: numbers.last() }));
        assert(numbers =~= init.push(numbers.last()));
        vstd::seq_lib::lemma_seq_contains_after_push(init, numbers.last(), x);
    }
}

proof fn lemma_without(numbers: Seq<u64>, reject: Seq<u64>, x: u64)
    ensures
        without(numbers, reject).contains(x) <==> numbers.contains(x) && !reject.contains(x),
    decreases numbers.len(),
{
    if numbers.len() > 0 {
        let init = numbers.drop_last();
        lemma_without(init, reject, x);
        assert(numbers =~= init.push(numbers.last()));
        vstd::seq_lib::lemma_seq_contains_after_push(init, numbers.last(), x);
        vstd::seq_lib::lemma_seq_contains_after_push(
            without(init, reject),
            numbers.last(),
            x,
        );
    }
}

/// The numbers of entries, as a set.
pub open spec fn numbers_in(entries: Seq<QueueEntry>) -> Set<u64> {
    Set::new(|x: u64| exists|i: int| 0 <= i < entries.len() && (#[trigger] entries[i]).seq == x)
}

proof fn lemma_numbers_in(entries: Seq<QueueEntry>, x: u64)
    ensures
        seqs(entries).contains(x) <==> numbers_in(entries).contains(x),
{
    if seqs(entries).contains(x) {
        let i = choose|i: int| 0 <= i < seqs(entries).len() && seqs(entries)[i] == x;
        assert(entries[i].seq == x);
    }
    if numbers_in(entries).contains(x) {
        let i = choose|i: int| 0 <= i < entries.len() && (#[trigger] entries[i]).seq == x;
        assert(seqs(entries)[i] == x);
    }
}

proof fn lemma_numbers_cut(entries: Seq<QueueEntry>, n: int, x: u64)
    requires
        increasing(entries),
        0 <= n <= entries.len(),
    ensures
        numbers_in(entries.skip(n)).contains(x) <==> numbers_in(entries).contains(x)
            && !numbers_in(entries.take(n)).contains(x),
        numbers_in(entries.take(n)).contains(x) ==> numbers_in(entries).contains(x),
{
    if numbers_in(entries.skip(n)).contains(x) {
        let i = choose|i: int|
            0 <= i < entries.skip(n).len() && (#[trigger] entries.skip(n)[i]).seq == x;
        assert(entries[i + n].seq == x);
        if numbers_in(entries.take(n)).contains(x) {
            let j = choose|j: int|
                0 <= j < entries.take(n).len() && (#[trigger] entries.take(n)[j]).seq == x;
            assert(entries[j].seq < entries[i + n].seq);
        }
    }
    if numbers_in(entries.take(n)).contains(x) {
        let j = choose|j: int|
            0 <= j < entries.take(n).len() && (#[trigger] entries.take(n)[j]).seq == x;
        assert(entries[j].seq == x);
    }
    if numbers_in(entries).contains(x) && !numbers_in(entries.take(n)).contains(x) {
        let i = choose|i: int| 0 <= i < entries.len() && (#[trigger] entries[i]).seq == x;
        if i < n {
            assert(entries.take(n)[i].seq == x);
        } else {
            assert(entries.skip(n)[i - n].seq == x);
        }
    }
}

/// The files on disk follow the queue: where there was a file for every queued message and no other,
/// there is again once the work of a push has been done.
pub proof fn law_files_follow_a_push(
    before: Seq<QueueEntry>,
    after: ClientQueue,
    work: Seq<QueueOp>,
    seq: u64,
    message: QueuedMessage,
)
    requires
        increasing(before),
        before.len() > 0 ==> before.last().seq < seq,
        after.holds_pushed(before, Some(Seq::empty()), seq, message),
        after.work() == Some(work),
    ensures
        files_after(numbers_in(before), work) == numbers_in(after.queued()),
{
    let e = QueueEntry::of(seq, message);
    let all = before.push(e);
    let n = surplus(all, after.bounds()) as int;
    lemma_surplus(all, after.bounds());
    assert(increasing(all)) by {
        assert forall|i: int, j: int|
            #![trigger all[i], all[j]]
            0 <= i < j < all.len() implies all[i].seq < all[j].seq by {
            assert(all[i] == before[i]);
            if j < before.len() {
                assert(before[i].seq < before[j].seq);
            } else if i < before.len() - 1 {
                assert(before[i].seq < before[before.len() - 1].seq);
            }
        }
    }
    let gone = seqs(all.take(n));
    let removed = without(gone, seq![seq]);
    let deleted = deletions(after.id(), removed);
    let written = if gone.contains(seq) {
        Seq::<QueueOp>::empty()
    } else {
        seq![QueueOp::Write { client_id: after.id(), seq, body: Arc::new(message) }]
    };
    assert(work =~= deleted + written);
    lemma_files_concat(numbers_in(before), deleted, written);
    let middle = files_after(numbers_in(before), deleted);
    if !gone.contains(seq) {
        assert(written.drop_last() =~= Seq::<QueueOp>::empty());
        assert(written.last() == (QueueOp::Write {
            client_id: after.id(),
            seq,
            body: Arc::new(message),
        }));
        assert(files_after(middle, written.drop_last()) == middle);
        assert(files_after(middle, written) == middle.insert(seq));
    }
    assert forall|x: u64|
        files_after(numbers_in(before), work).contains(x) <==> numbers_in(after.queued()).contains(
            x,
        ) by {
        lemma_files_deleted(numbers_in(before), after.id(), removed, x);
        lemma_without(gone, seq![seq], x);
        lemma_numbers_in(all.take(n), x);
        lemma_numbers_in(all.take(n), seq);
        lemma_numbers_cut(all, n, x);
        lemma_numbers_cut(all, n, seq);
        assert(seq![seq].contains(x) <==> x == seq) by {
            assert(seq![seq][0] == seq);
        }
        assert(numbers_in(all).contains(x) <==> numbers_in(before).contains(x) || x == seq) by {
            if numbers_in(before).contains(x) {
                let i = choose|i: int| 0 <= i < before.len() && (#[trigger] before[i]).seq == x;
                assert(all[i].seq == x);
            }
            if x == seq {
                assert(all[before.len() as int].seq == x);
            }
            if numbers_in(all).contains(x) {
                let i = choose|i: int| 0 <= i < all.len() && (#[trigger] all[i]).seq == x;
                if i < before.len() {
                    assert(before[i].seq == x);
                }
            }
        }
        assert(!numbers_in(before).contains(seq)) by {
            if numbers_in(before).contains(seq) {
                let i = choose|i: int| 0 <= i < before.len() && (#[trigger] before[i]).seq == seq;
                assert(all[i].seq < all[before.len() as int].seq);
            }
        }
    }
    assert(files_after(numbers_in(before), work) =~= numbers_in(after.queued()));
}

/// The files on disk follow the queue: taking messages out removes their files and no other.
pub proof fn law_files_follow_a_take(
    entries: Seq<QueueEntry>,
    client_id: String,
    limit: int,
    now: u64,
)
    requires
        increasing(entries),
    ensures
        ({
            let n = reach(entries, limit, now) as int;
            files_after(numbers_in(entries), deletions(client_id, seqs(entries.take(n))))
                == numbers_in(entries.skip(n))
        }),
{
    let n = reach(entries, limit, now) as int;
    lemma_reach(entries, limit, now);
    let work = deletions(client_id, seqs(entries.take(n)));
    assert forall|x: u64|
        files_after(numbers_in(entries), work).contains(x) <==> numbers_in(
            entries.skip(n),
        ).contains(x) by {
        lemma_files_deleted(numbers_in(entries), client_id, seqs(entries.take(n)), x);
        lemma_numbers_in(entries.take(n), x);
        lemma_numbers_cut(entries, n, x);
    }
    assert(files_after(numbers_in(entries), work) =~= numbers_in(entries.skip(n)));
}

/// A client has a backlog exactly while messages are queued for it, a batch that was taken is not
/// finished, or a displaced handler has deliveries to hand back.
pub proof fn law_backlog(queue: ClientQueue)
    ensures
        queue.queued().len() > 0 ==> queue.lags(),
        queue.unfinished_batch() ==> queue.lags(),
        queue.open_handoffs() > 0 ==> queue.lags(),
        queue.lags() && queue.queued().len() == 0 && !queue.unfinished_batch()
            ==> queue.open_handoffs() > 0,
{
}

proof fn lemma_files_written(
    files: Set<u64>,
    client_id: String,
    entries: Seq<QueueEntry>,
    reject: Seq<u64>,
    x: u64,
)
    requires
        forall|i: int| 0 <= i < entries.len() ==> (#[trigger] entries[i]).body is Some,
    ensures
        files_after(files, writes(client_id, entries, reject)).contains(x) <==> files.contains(x)
            || numbers_in(entries).contains(x) && !reject.contains(x),
    decreases entries.len(),
{
    let ops = writes(client_id, entries, reject);
    if entries.len() > 0 {
        let init = entries.drop_last();
        let last = entries[entries.len() - 1];
        assert forall|i: int| 0 <= i < init.len() implies (#[trigger] init[i]).body is Some by {
            assert(init[i] == entries[i]);
        }
        lemma_files_written(files, client_id, init, reject, x);
        assert(last.body is Some);
        assert(numbers_in(entries).contains(x) <==> numbers_in(init).contains(x) || x == last.seq)
            by {
            if numbers_in(init).contains(x) {
                let i = choose|i: int| 0 <= i < init.len() && (#[trigger] init[i]).seq == x;
                assert(entries[i].seq == x);
            }
            if numbers_in(entries).contains(x) {
                let i = choose|i: int| 0 <= i < entries.len() && (#[trigger] entries[i]).seq == x;
                if i < init.len() {
                    assert(init[i].seq == x);
                }
            }
        }
        let before = writes(client_id, init, reject);
        if !reject.contains(last.seq) {
            assert(ops == before.push(
                QueueOp::Write { client_id, seq: last.seq, body: last.body->0 },
            ));
            assert(ops.drop_last() =~= before);
        } else {
            assert(ops == before);
        }
    }
}

/// The files on disk follow the queue: where there was a file for every queued message and no other,
/// there is again once the work of a front re-queue has been done.
pub proof fn law_files_follow_a_requeue(
    before: Seq<QueueEntry>,
    after: ClientQueue,
    work: Seq<QueueOp>,
    next_seq: u64,
    messages: Seq<QueuedMessage>,
)
    requires
        increasing(before),
        messages.len() > 0,
        before.len() > 0 ==> messages.len() <= before[0].seq,
        before.len() == 0 ==> messages.len() <= next_seq,
        after.holds_requeued(before, Some(Seq::empty()), next_seq, messages),
        after.work() == Some(work),
    ensures
        files_after(numbers_in(before), work) == numbers_in(after.queued()),
{
    let first = requeue_first(before, next_seq, messages.len());
    let fresh = batch(first, messages);
    let all = fresh + before;
    let n = surplus(all, after.bounds()) as int;
    lemma_surplus(all, after.bounds());
    assert(increasing(all)) by {
        assert forall|i: int, j: int|
            #![trigger all[i], all[j]]
            0 <= i < j < all.len() implies all[i].seq < all[j].seq by {
            if i < fresh.len() {
                assert(all[i].seq == first + i);
                if j < fresh.len() {
                    assert(all[j].seq == first + j);
                } else {
                    assert(all[j] == before[j - fresh.len()]);
                    if j > fresh.len() {
                        assert(before[0].seq < before[j - fresh.len()].seq);
                    }
                }
            } else {
                assert(before[i - fresh.len()].seq < before[j - fresh.len()].seq);
            }
        }
    }
    let gone = seqs(all.take(n));
    let removed = without(gone, seqs(fresh));
    let deleted = deletions(after.id(), removed);
    let written = writes(after.id(), fresh, gone);
    assert(work =~= deleted + written);
    lemma_files_concat(numbers_in(before), deleted, written);
    let middle = files_after(numbers_in(before), deleted);
    assert forall|i: int| 0 <= i < fresh.len() implies (#[trigger] fresh[i]).body is Some by {
        assert(fresh[i] == QueueEntry::of((first + i) as u64, messages[i]));
    }
    assert forall|x: u64|
        files_after(numbers_in(before), work).contains(x) <==> numbers_in(after.queued()).contains(
            x,
        ) by {
        lemma_files_written(middle, after.id(), fresh, gone, x);
        lemma_files_deleted(numbers_in(before), after.id(), removed, x);
        lemma_without(gone, seqs(fresh), x);
        lemma_numbers_in(fresh, x);
        lemma_numbers_in(all.take(n), x);
        lemma_numbers_cut(all, n, x);
        lemma_numbers_cut(all, fresh.len() as int, x);
        assert(all.take(fresh.len() as int) =~= fresh);
        assert(all.skip(fresh.len() as int) =~= before);
    }
    assert(files_after(numbers_in(before), work) =~= numbers_in(after.queued()));
}

/// The files on disk follow the queue: purging removes the files of the expired messages and no other.
pub proof fn law_files_follow_a_purge(
    before: ClientQueue,
    after: ClientQueue,
    work: Seq<QueueOp>,
    now: u64,
)
    requires
        increasing(before.queued()),
        before.work() == Some(Seq::<QueueOp>::empty()),
        QueueRegistry::purged(before, after, now),
        after.work() == Some(work),
    ensures
        files_after(numbers_in(before.queued()), work) == numbers_in(after.queued()),
        after.queued() == before.queued().filter(
            |e: QueueEntry| e.expires_at is None || now <= e.expires_at->0,
        ),
{
    let entries = before.queued();
    law_live_entries(entries, now);
    let gone = seqs(expired(entries, now));
    assert(work =~= deletions(before.id(), gone));
    assert forall|x: u64|
        files_after(numbers_in(entries), work).contains(x) <==> numbers_in(
            after.queued(),
        ).contains(x) by {
        lemma_files_deleted(numbers_in(entries), before.id(), gone, x);
        lemma_numbers_in(expired(entries, now), x);
        lemma_live_or_expired(entries, now, x);
    }
    assert(files_after(numbers_in(entries), work) =~= numbers_in(after.queued()));
}

proof fn lemma_live_or_expired(entries: Seq<QueueEntry>, now: u64, x: u64)
    requires
        increasing(entries),
    ensures
        numbers_in(live(entries, now)).contains(x) <==> numbers_in(entries).contains(x)
            && !numbers_in(expired(entries, now)).contains(x),
        numbers_in(expired(entries, now)).contains(x) ==> numbers_in(entries).contains(x),
    decreases entries.len(),
{
    if entries.len() > 0 {
        let init = entries.drop_last();
        let last = entries[entries.len() - 1];
        assert(increasing(init)) by {
            assert forall|i: int, j: int|
                #![trigger init[i], init[j]]
                0 <= i < j < init.len() implies init[i].seq < init[j].seq by {
                assert(entries[i].seq < entries[j].seq);
            }
        }
        lemma_live_or_expired(init, now, x);
        lemma_numbers_pushed(init, last, x);
        lemma_numbers_pushed(live(init, now), last, x);
        lemma_numbers_pushed(expired(init, now), last, x);
        assert(init.push(last) =~= entries);
        if x == last.seq && numbers_in(init).contains(x) {
            let i = choose|i: int| 0 <= i < init.len() && (#[trigger] init[i]).seq == x;
            assert(entries[i].seq < entries[entries.len() - 1].seq);
        }
    }
}

proof fn lemma_numbers_pushed(entries: Seq<QueueEntry>, last: QueueEntry, x: u64)
    ensures
        numbers_in(entries.push(last)).contains(x) <==> numbers_in(entries).contains(x) || x
            == last.seq,
{
    let all = entries.push(last);
    if numbers_in(entries).contains(x) {
        let i = choose|i: int| 0 <= i < entries.len() && (#[trigger] entries[i]).seq == x;
        assert(all[i].seq == x);
    }
    if x == last.seq {
        assert(all[entries.len() as int].seq == x);
    }
    if numbers_in(all).contains(x) {
        let i = choose|i: int| 0 <= i < all.len() && (#[trigger] all[i]).seq == x;
        if i < entries.len() {
            assert(entries[i].seq == x);
        }
    }
}

/// A message that is pushed while there is room stands last in its client's queue under a number that no
/// message had before, and the queues of other clients stay as they are.
pub proof fn law_pushed_message_stands_last(
    before: QueueRegistry,
    after: QueueRegistry,
    client_id: Seq<char>,
    message: QueuedMessage,
    r: PushOutcome,
    other: Seq<char>,
)
    requires
        QueueRegistry::pushed(before, after, client_id, message, r),
        before.bounds() == after@[client_id].queue().bounds(),
        before.entries_of(client_id).len() < before.bounds().max_messages,
        total_bytes(before.entries_of(client_id).push(QueueEntry::of(r.seq, message)))
            <= before.bounds().max_bytes,
        other != client_id,
    ensures
        ({
            let queue = after@[client_id].queue().queued();
            &&& after@.contains_key(client_id)
            &&& queue.len() == before.entries_of(client_id).len() + 1
            &&& queue.drop_last() == before.entries_of(client_id)
            &&& queue.last().seq == r.seq
            &&& queue.last().body == Some(Arc::new(message))
            &&& queue.last().expires_at == message.expires_at
            &&& r.dropped_oldest == 0
            &&& r.seq < u64::MAX ==> after.counter() == r.seq + 1
            &&& after@.contains_key(other) == before@.contains_key(other)
            &&& after@[other] == before@[other]
        }),
{
    let all = before.entries_of(client_id).push(QueueEntry::of(r.seq, message));
    law_queue_stays_within_its_limits(all, before.bounds());
    assert(all.skip(0) =~= all);
    assert(all.drop_last() =~= before.entries_of(client_id));
}

} // verus!
