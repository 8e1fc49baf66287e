//! Rows that wait to be written to disk.
//!
//! A store that is followed by its remove within one settle window never touches the disk, which
//! is the normal life of an acknowledged message; only rows that stay open long enough are
//! written.

use super::client_queue::QueueOp;
use super::row_map::{Row, RowKey, RowMap};
use super::{InflightDirection, InflightMessage, QueuedMessage};
use crate::text::same_text;
use std::sync::Arc;
use vstd::prelude::*;

verus! {

/// How long, in milliseconds, a row may sit unwritten so that its remove can cancel it.
pub const INFLIGHT_SETTLE: u64 = 250;

/// Total pending rows that force a write-out before the settle window ends.
pub const INFLIGHT_SETTLE_MAX: usize = 8192;

/// Rows waiting for the settle window: `Some` is a store that has not reached the disk, `None` a
/// remove that must delete whatever an earlier write-out (or an earlier run) left there.
///
/// A remove may cancel a pending store only when nothing for that key has ever reached the
/// disk; once a row is written out (or was found on disk at the start) its remove must always
/// produce a delete, otherwise a stale row survives and is redelivered after a restart.
#[derive(Debug)]
pub struct PendingRows<T> {
    pending: RowMap<Option<T>>,
    on_disk: Vec<RowKey>,
}

/// The keys in a list.
pub open spec fn keys_in(list: Seq<RowKey>) -> Set<Row> {
    Set::new(|k: Row| exists|i: int| 0 <= i < list.len() && (#[trigger] list[i])@ == k)
}

impl<T> PendingRows<T> {
    /// What waits, by key.
    pub closed spec fn waiting(&self) -> Map<Row, Option<T>> {
        self.pending@
    }

    /// What waits, in order.
    pub closed spec fn waiting_list(&self) -> Seq<(RowKey, Option<T>)> {
        self.pending.listing()
    }

    /// The keys whose rows have reached the disk.
    pub closed spec fn written(&self) -> Set<Row> {
        keys_in(self.on_disk@)
    }

    /// No key waits twice.
    pub closed spec fn wf(&self) -> bool {
        self.pending.wf()
    }

    /// Nothing waits, and nothing is on disk.
    pub fn new() -> (r: Self)
        ensures
            r.wf(),
            r.waiting() == Map::<Row, Option<T>>::empty(),
            r.written() == Set::<Row>::empty(),
    {
        let r = PendingRows { pending: RowMap::new(), on_disk: Vec::new() };
        assert(r.written() =~= Set::<Row>::empty());
        r
    }

    /// The number of rows that wait.
    pub fn len(&self) -> (r: usize)
        requires
            self.wf(),
        ensures
            r == self.waiting().dom().len(),
    {
        self.pending.len()
    }

    fn disk_position(&self, key: &RowKey) -> (r: Option<usize>)
        ensures
            match r {
                Some(i) => i < self.on_disk@.len() && self.on_disk@[i as int]@ == key@
                    && self.written().contains(key@),
                None => !self.written().contains(key@),
            },
    {
        let mut i: usize = 0;
        while i < self.on_disk.len()
            invariant
                i <= self.on_disk@.len(),
                forall|j: int| 0 <= j < i ==> (#[trigger] self.on_disk@[j])@ != key@,
            decreases self.on_disk@.len() - i,
        {
            if self.on_disk[i].same(key) {
                assert(self.on_disk@[i as int]@ == key@);
                return Some(i);
            }
            i = i + 1;
        }
        None
    }

    /// A row is stored: it waits, whatever waited under its key.
    pub fn store(&mut self, key: RowKey, row: T)
        requires
            old(self).wf(),
        ensures
            final(self).wf(),
            final(self).waiting() == old(self).waiting().insert(key@, Some(row)),
            final(self).written() == old(self).written(),
    {
        self.pending.insert(key, Some(row));
    }

    /// What waits after a remove: a store that never reached the disk is cancelled, anything else
    /// becomes a delete.
    pub open spec fn after_remove(
        waiting: Map<Row, Option<T>>,
        written: Set<Row>,
        key: Row,
    ) -> Map<Row, Option<T>> {
        if waiting.contains_key(key) && waiting[key] is Some && !written.contains(key) {
            waiting.remove(key)
        } else {
            waiting.insert(key, None)
        }
    }

    /// A row is removed.
    pub fn remove(&mut self, key: RowKey)
        requires
            old(self).wf(),
        ensures
            final(self).wf(),
            final(self).waiting() == PendingRows::after_remove(
                old(self).waiting(),
                old(self).written(),
                key@,
            ),
            final(self).written() == old(self).written(),
    {
        let on_disk = self.disk_position(&key).is_some();
        let unwritten = match self.pending.get(&key) {
            Some(row) => row.is_some(),
            None => false,
        };
        if unwritten && !on_disk {
            let _ = self.pending.remove(&key);
        } else {
            self.pending.insert(key, None);
        }
    }

    /// A row was written, or was found on disk.
    pub fn note_written(&mut self, key: RowKey)
        requires
            old(self).wf(),
        ensures
            final(self).wf(),
            final(self).waiting() == old(self).waiting(),
            final(self).waiting_list() == old(self).waiting_list(),
            final(self).written() == old(self).written().insert(key@),
    {
        let ghost before = self.on_disk@;
        if self.disk_position(&key).is_none() {
            self.on_disk.push(key);
        }
        proof {
            let after = self.on_disk@;
            assert forall|k: Row| #[trigger] keys_in(after).contains(k) <==> keys_in(
                before,
            ).insert(key@).contains(k) by {
                if keys_in(after).contains(k) {
                    let i = choose|i: int| 0 <= i < after.len() && (#[trigger] after[i])@ == k;
                    if i < before.len() {
                        assert(before[i]@ == k);
                    }
                }
                if keys_in(before).contains(k) {
                    let i = choose|i: int| 0 <= i < before.len() && (#[trigger] before[i])@ == k;
                    assert(after[i]@ == k);
                }
                if k == key@ && after.len() > before.len() {
                    assert(after[after.len() - 1]@ == k);
                }
            }
            assert(keys_in(after) =~= keys_in(before).insert(key@));
        }
    }

    /// A row is no longer on disk.
    pub fn note_deleted(&mut self, key: &RowKey)
        requires
            old(self).wf(),
        ensures
            final(self).wf(),
            final(self).waiting() == old(self).waiting(),
            final(self).waiting_list() == old(self).waiting_list(),
            final(self).written() == old(self).written().remove(key@),
    {
        let mut rest: Vec<RowKey> = Vec::new();
        let mut i: usize = 0;
        while i < self.on_disk.len()
            invariant
                i <= self.on_disk@.len(),
                forall|j: int| 0 <= j < rest@.len() ==> (#[trigger] rest@[j])@ != key@,
                forall|j: int|
                    0 <= j < rest@.len() ==> keys_in(self.on_disk@).contains(
                        (#[trigger] rest@[j])@,
                    ),
                forall|j: int|
                    0 <= j < i && (#[trigger] self.on_disk@[j])@ != key@ ==> keys_in(
                        rest@,
                    ).contains(self.on_disk@[j]@),
            decreases self.on_disk@.len() - i,
        {
            if !self.on_disk[i].same(key) {
                let ghost before = rest@;
                rest.push(self.on_disk[i].copy());
                proof {
                    assert(rest@[rest@.len() - 1]@ == self.on_disk@[i as int]@);
                    assert forall|j: int|
                        0 <= j < i + 1 && (#[trigger] self.on_disk@[j])@ != key@ implies keys_in(
                        rest@,
                    ).contains(self.on_disk@[j]@) by {
                        if j < i {
                            let m = choose|m: int|
                                0 <= m < before.len() && (#[trigger] before[m])@
                                    == self.on_disk@[j]@;
                            assert(rest@[m]@ == self.on_disk@[j]@);
                        }
                    }
                }
            }
            i = i + 1;
        }
        proof {
            assert(keys_in(rest@) =~= keys_in(self.on_disk@).remove(key@)) by {
                assert forall|k: Row| #[trigger] keys_in(rest@).contains(k) <==> keys_in(
                    self.on_disk@,
                ).remove(key@).contains(k) by {
                    if keys_in(rest@).contains(k) {
                        let m = choose|m: int| 0 <= m < rest@.len() && (#[trigger] rest@[m])@ == k;
                        assert(rest@[m]@ != key@);
                    }
                    if keys_in(self.on_disk@).contains(k) && k != key@ {
                        let m = choose|m: int|
                            0 <= m < self.on_disk@.len() && (#[trigger] self.on_disk@[m])@ == k;
                        assert(keys_in(rest@).contains(self.on_disk@[m]@));
                    }
                }
            }
        }
        self.on_disk = rest;
    }

    /// Takes everything that waits, to be written out: stores are written, removes are deleted.
    pub fn drain(&mut self) -> (r: Vec<(RowKey, Option<T>)>)
        requires
            old(self).wf(),
        ensures
            final(self).wf(),
            final(self).waiting() == Map::<Row, Option<T>>::empty(),
            final(self).written() == old(self).written(),
            r@ == old(self).waiting_list(),
            crate::broker::storage::row_map::rows_map(r@) == old(self).waiting(),
            crate::broker::storage::row_map::distinct_rows(r@),
    {
        self.pending.drain()
    }

    /// Forgets everything of a client: what waits, and what is on disk.
    pub fn forget_client(&mut self, client_id: &str)
        requires
            old(self).wf(),
        ensures
            final(self).wf(),
            final(self).waiting() == super::row_map::without_client(
                old(self).waiting(),
                client_id@,
            ),
            final(self).written() == old(self).written().filter(|k: Row| k.0 != client_id@),
    {
        let ghost disk_before = self.on_disk@;
        self.pending.remove_client(client_id);
        let ghost rows = self.pending;
        let mut rest: Vec<RowKey> = Vec::new();
        let mut i: usize = 0;
        while i < self.on_disk.len()
            invariant
                i <= self.on_disk@.len(),
                self.on_disk@ == disk_before,
                self.pending == rows,
                forall|j: int|
                    0 <= j < rest@.len() ==> keys_in(disk_before).contains((#[trigger] rest@[j])@)
                        && rest@[j]@.0 != client_id@,
                forall|j: int|
                    0 <= j < i && (#[trigger] disk_before[j])@.0 != client_id@ ==> keys_in(
                        rest@,
                    ).contains(disk_before[j]@),
            decreases self.on_disk@.len() - i,
        {
            if !same_text(self.on_disk[i].client_id.as_str(), client_id) {
                let ghost earlier = rest@;
                rest.push(self.on_disk[i].copy());
                proof {
                    assert(rest@[rest@.len() - 1]@ == disk_before[i as int]@);
                    assert forall|j: int|
                        0 <= j < i + 1 && (#[trigger] disk_before[j])@.0
                            != client_id@ implies keys_in(rest@).contains(disk_before[j]@) by {
                        if j < i {
                            let m = choose|m: int|
                                0 <= m < earlier.len() && (#[trigger] earlier[m])@
                                    == disk_before[j]@;
                            assert(rest@[m]@ == disk_before[j]@);
                        }
                    }
                }
            }
            i = i + 1;
        }
        self.on_disk = rest;
        proof {
            let kept = keys_in(disk_before).filter(|k: Row| k.0 != client_id@);
            assert forall|k: Row| #[trigger] self.written().contains(k) <==> kept.contains(k) by {
                if self.written().contains(k) {
                    let m = choose|m: int|
                        0 <= m < self.on_disk@.len() && (#[trigger] self.on_disk@[m])@ == k;
                    assert(keys_in(disk_before).contains(self.on_disk@[m]@));
                }
                if kept.contains(k) {
                    let m = choose|m: int|
                        0 <= m < disk_before.len() && (#[trigger] disk_before[m])@ == k;
                    assert(keys_in(self.on_disk@).contains(disk_before[m]@));
                }
            }
            assert(self.written() =~= kept);
        }
    }
}

/// The number of the slot that an in-flight message fills: its identifier and its direction.
pub open spec fn inflight_slot(packet_id: u16, direction: InflightDirection) -> u64 {
    match direction {
        InflightDirection::Inbound => (packet_id * 2) as u64,
        InflightDirection::Outbound => (packet_id * 2 + 1) as u64,
    }
}

/// Two in-flight messages fill one slot only if identifier and direction agree.
pub proof fn law_inflight_slots_are_distinct(
    p: u16,
    d: InflightDirection,
    q: u16,
    e: InflightDirection,
)
    requires
        inflight_slot(p, d) == inflight_slot(q, e),
    ensures
        p == q,
        d == e,
{
}

/// Which in-flight message fills a slot, if one can.
pub fn inflight_of(slot: u64) -> (r: Option<(u16, InflightDirection)>)
    ensures
        match r {
            Some((packet_id, direction)) => inflight_slot(packet_id, direction) == slot,
            None => forall|packet_id: u16, direction: InflightDirection| #[trigger]
                inflight_slot(packet_id, direction) != slot,
        },
{
    let number: u64 = slot / 2;
    if number > 0xFFFF {
        return None;
    }
    let direction = if slot % 2 == 0 {
        InflightDirection::Inbound
    } else {
        InflightDirection::Outbound
    };
    Some((number as u16, direction))
}

/// The key of an in-flight message.
pub fn inflight_key(client_id: String, packet_id: u16, direction: InflightDirection) -> (r: RowKey)
    ensures
        r@ == (client_id@, inflight_slot(packet_id, direction)),
{
    let base: u64 = (packet_id as u64) * 2;
    match direction {
        InflightDirection::Inbound => RowKey { client_id, slot: base },
        InflightDirection::Outbound => RowKey { client_id, slot: base + 1 },
    }
}

/// What the storage writer is told.
#[derive(Debug)]
pub enum WriterEvent {
    /// A row is to be written or removed.
    Op(QueueOp),
    /// Somebody waits until everything handed over so far is on disk.
    Flush,
    /// The settle window has ended.
    Tick,
    /// No more operations will come.
    Closed,
}

/// What the storage writer does next.
#[derive(Debug)]
pub struct WriterStep {
    /// The client whose in-flight directory is to be removed.
    pub remove_directory: Option<String>,
    /// Whether everything that waits is written out now.
    pub write_out: bool,
    /// Whether the writer ends after that.
    pub stop: bool,
}

/// The storage writer: queued messages and in-flight rows, each waiting to be written.
#[derive(Debug)]
pub struct QueueWriter {
    pub queue: PendingRows<Arc<QueuedMessage>>,
    pub inflight: PendingRows<Box<InflightMessage>>,
}

impl QueueWriter {
    /// No key waits twice.
    pub open spec fn wf(&self) -> bool {
        self.queue.wf() && self.inflight.wf()
    }

    /// Nothing waits.
    pub fn new() -> (r: Self)
        ensures
            r.wf(),
            r.queue.waiting() == Map::<Row, Option<Arc<QueuedMessage>>>::empty(),
            r.queue.written() == Set::<Row>::empty(),
            r.inflight.waiting() == Map::<Row, Option<Box<InflightMessage>>>::empty(),
            r.inflight.written() == Set::<Row>::empty(),
    {
        QueueWriter { queue: PendingRows::new(), inflight: PendingRows::new() }
    }

    /// What waits after an operation.
    pub open spec fn applied(before: QueueWriter, after: QueueWriter, op: QueueOp) -> bool {
        match op {
            QueueOp::Write { client_id, seq, body } => {
                &&& after.queue.waiting() == before.queue.waiting().insert(
                    (client_id@, seq),
                    Some(body),
                )
                &&& after.queue.written() == before.queue.written()
                &&& after.inflight == before.inflight
            },
            QueueOp::Delete { client_id, seq } => {
                &&& after.queue.waiting() == PendingRows::after_remove(
                    before.queue.waiting(),
                    before.queue.written(),
                    (client_id@, seq),
                )
                &&& after.queue.written() == before.queue.written()
                &&& after.inflight == before.inflight
            },
            QueueOp::StoreInflight(message) => {
                &&& after.inflight.waiting() == before.inflight.waiting().insert(
                    (message.client_id@, inflight_slot(message.packet_id, message.direction)),
                    Some(message),
                )
                &&& after.inflight.written() == before.inflight.written()
                &&& after.queue == before.queue
            },
            QueueOp::RemoveInflight { client_id, packet_id, direction } => {
                &&& after.inflight.waiting() == PendingRows::after_remove(
                    before.inflight.waiting(),
                    before.inflight.written(),
                    (client_id@, inflight_slot(packet_id, direction)),
                )
                &&& after.inflight.written() == before.inflight.written()
                &&& after.queue == before.queue
            },
            QueueOp::RemoveAllInflight { client_id } => {
                &&& after.inflight.waiting() == crate::broker::storage::row_map::without_client(
                    before.inflight.waiting(),
                    client_id@,
                )
                &&& after.inflight.written() == before.inflight.written().filter(
                    |k: Row| k.0 != client_id@,
                )
                &&& after.queue == before.queue
            },
        }
    }

    /// Applies an operation; gives the client whose in-flight directory is to be removed, if the
    /// operation removes everything of a client.
    pub fn apply(&mut self, op: QueueOp) -> (r: Option<String>)
        requires
            old(self).wf(),
        ensures
            final(self).wf(),
            QueueWriter::applied(*old(self), *final(self), op),
            match op {
                QueueOp::RemoveAllInflight { client_id } => r == Some(client_id),
                _ => r is None,
            },
    {
        match op {
            QueueOp::Write { client_id, seq, body } => {
                self.queue.store(RowKey { client_id, slot: seq }, body);
                None
            },
            QueueOp::Delete { client_id, seq } => {
                self.queue.remove(RowKey { client_id, slot: seq });
                None
            },
            QueueOp::StoreInflight(message) => {
                let key = inflight_key(
                    message.client_id.clone(),
                    message.packet_id,
                    message.direction,
                );
                self.inflight.store(key, message);
                None
            },
            QueueOp::RemoveInflight { client_id, packet_id, direction } => {
                self.inflight.remove(inflight_key(client_id, packet_id, direction));
                None
            },
            QueueOp::RemoveAllInflight { client_id } => {
                self.inflight.forget_client(client_id.as_str());
                Some(client_id)
            },
        }
    }

    /// Whether so much waits that it is written out before the settle window ends.
    pub fn is_full(&self) -> (r: bool)
        requires
            self.wf(),
        ensures
            r == (self.queue.waiting().dom().len() + self.inflight.waiting().dom().len()
                >= INFLIGHT_SETTLE_MAX),
    {
        self.inflight.len().saturating_add(self.queue.len()) >= INFLIGHT_SETTLE_MAX
    }

    /// Takes one event. Whoever waits for a flush is told after the write-out.
    pub fn step(&mut self, event: WriterEvent) -> (r: WriterStep)
        requires
            old(self).wf(),
        ensures
            final(self).wf(),
            match event {
                WriterEvent::Op(op) => {
                    &&& QueueWriter::applied(*old(self), *final(self), op)
                    &&& r.remove_directory == match op {
                        QueueOp::RemoveAllInflight { client_id } => Some(client_id),
                        _ => None,
                    }
                    &&& r.write_out == (final(self).queue.waiting().dom().len()
                        + final(self).inflight.waiting().dom().len() >= INFLIGHT_SETTLE_MAX)
                    &&& !r.stop
                },
                WriterEvent::Flush | WriterEvent::Tick => {
                    &&& *final(self) == *old(self)
                    &&& r == (WriterStep { remove_directory: None, write_out: true, stop: false })
                },
                WriterEvent::Closed => {
                    &&& *final(self) == *old(self)
                    &&& r == (WriterStep { remove_directory: None, write_out: true, stop: true })
                },
            },
    {
        match event {
            WriterEvent::Op(op) => {
                let remove_directory = self.apply(op);
                WriterStep { remove_directory, write_out: self.is_full(), stop: false }
            },
            WriterEvent::Flush => WriterStep {
                remove_directory: None,
                write_out: true,
                stop: false,
            },
            WriterEvent::Tick => WriterStep {
                remove_directory: None,
                write_out: true,
                stop: false,
            },
            WriterEvent::Closed => WriterStep {
                remove_directory: None,
                write_out: true,
                stop: true,
            },
        }
    }
}

/// The rows on disk after everything that waits was written out.
pub open spec fn disk_after<T>(disk: Set<Row>, waiting: Map<Row, Option<T>>) -> Set<Row> {
    Set::new(
        |k: Row|
            if waiting.contains_key(k) {
                waiting[k] is Some
            } else {
                disk.contains(k)
            },
    )
}

/// As long as every row on disk is known to be there, a removed row is gone from disk once what
/// waits has been written out, whether its store was cancelled or not.
pub proof fn law_removed_row_leaves_no_file<T>(
    disk: Set<Row>,
    waiting: Map<Row, Option<T>>,
    written: Set<Row>,
    key: Row,
)
    requires
        disk.subset_of(written),
    ensures
        !disk_after(disk, PendingRows::after_remove(waiting, written, key)).contains(key),
{
}

/// A row that was never on disk and is stored and removed within one window touches the disk at no
/// time: nothing waits for it.
pub proof fn law_store_and_remove_cancel<T>(
    waiting: Map<Row, Option<T>>,
    written: Set<Row>,
    key: Row,
    row: T,
)
    requires
        !written.contains(key),
        !waiting.contains_key(key),
    ensures
        PendingRows::after_remove(waiting.insert(key, Some(row)), written, key) == waiting,
{
    assert(waiting.insert(key, Some(row)).remove(key) =~= waiting);
}

/// Writing out keeps the knowledge complete: afterwards every row on disk is known to be there.
pub proof fn law_write_out_keeps_track<T>(
    disk: Set<Row>,
    waiting: Map<Row, Option<T>>,
    written: Set<Row>,
)
    requires
        disk.subset_of(written),
    ensures
        disk_after(disk, waiting).subset_of(disk_after(written, waiting)),
{
}

/// An operation changes the row that it names and no other: a message that is to be written waits
/// under its client and number, and after a removal none does.
pub proof fn law_operation_changes_its_own_row(
    before: QueueWriter,
    after: QueueWriter,
    client_id: String,
    seq: u64,
    body: Arc<QueuedMessage>,
    other: Row,
)
    requires
        other != (client_id@, seq),
    ensures
        QueueWriter::applied(before, after, QueueOp::Write { client_id, seq, body }) ==> {
            &&& after.queue.waiting().contains_key((client_id@, seq))
            &&& after.queue.waiting()[(client_id@, seq)] == Some(body)
            &&& after.queue.waiting().contains_key(other) == before.queue.waiting().contains_key(
                other,
            )
            &&& after.queue.waiting()[other] == before.queue.waiting()[other]
            &&& after.inflight == before.inflight
        },
        QueueWriter::applied(before, after, QueueOp::Delete { client_id, seq }) ==> {
            &&& after.queue.waiting().contains_key((client_id@, seq)) ==> after.queue.waiting()[(
                client_id@,
                seq,
            )] is None
            &&& before.queue.written().contains((client_id@, seq))
                ==> after.queue.waiting().contains_key((client_id@, seq))
            &&& after.queue.waiting().contains_key(other) == before.queue.waiting().contains_key(
                other,
            )
            &&& after.inflight == before.inflight
        },
{
}

/// In-flight messages are stored and removed by client, identifier and direction, and those of a
/// client can be removed together.
pub proof fn law_inflight_operations(
    before: QueueWriter,
    after: QueueWriter,
    message: Box<InflightMessage>,
    client_id: String,
    packet_id: u16,
    direction: InflightDirection,
    row: Row,
)
    ensures
        QueueWriter::applied(before, after, QueueOp::StoreInflight(message)) ==> {
            let key = (message.client_id@, inflight_slot(message.packet_id, message.direction));
            &&& after.inflight.waiting().contains_key(key)
            &&& after.inflight.waiting()[key] == Some(message)
            &&& after.queue == before.queue
        },
        QueueWriter::applied(
            before,
            after,
            QueueOp::RemoveInflight { client_id, packet_id, direction },
        ) ==> {
            let key = (client_id@, inflight_slot(packet_id, direction));
            &&& after.inflight.waiting().contains_key(key) ==> after.inflight.waiting()[key] is None
            &&& after.queue == before.queue
        },
        QueueWriter::applied(before, after, QueueOp::RemoveAllInflight { client_id }) ==> {
            &&& row.0 == client_id@ ==> !after.inflight.waiting().contains_key(row)
                && !after.inflight.written().contains(row)
            &&& row.0 != client_id@ ==> after.inflight.waiting().contains_key(row)
                == before.inflight.waiting().contains_key(row)
            &&& after.queue == before.queue
        },
{
}

} // verus!
