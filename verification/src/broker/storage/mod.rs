//! What the broker keeps: queued, retained and in-flight messages, and client sessions.
//!
//! Time is a number of milliseconds since the Unix epoch, handed in by the caller.

use crate::text::share;
use crate::text_map::TextMap;
use crate::types::{Bytes, PublishPacket, QoS};
use vstd::prelude::*;

pub mod client_queue;
pub mod file_backend;
pub mod file_names;
pub mod memory_backend;
pub mod queue_scan;
pub mod row_map;
pub mod sessions;
pub mod write_behind;

verus! {

/// Whether a deadline has passed.
pub open spec fn past(deadline: Option<u64>, now: u64) -> bool {
    deadline matches Some(at) && now > at
}

/// Whether a deadline has passed.
pub fn is_past(deadline: Option<u64>, now: u64) -> (r: bool)
    ensures
        r == past(deadline, now),
{
    match deadline {
        Some(at) => now > at,
        None => false,
    }
}

/// The deadline that lies an interval of seconds after a moment, if there is an interval.
pub open spec fn deadline_after(start: u64, seconds: Option<u32>) -> Option<u64> {
    match seconds {
        Some(s) => if start + s * 1000 <= u64::MAX {
            Some((start + s * 1000) as u64)
        } else {
            Some(u64::MAX)
        },
        None => None,
    }
}

/// The deadline that lies an interval of seconds after a moment, if there is an interval.
pub fn deadline_from(start: u64, seconds: Option<u32>) -> (r: Option<u64>)
    ensures
        r == deadline_after(start, seconds),
{
    match seconds {
        Some(s) => Some(start.saturating_add((s as u64) * 1000)),
        None => None,
    }
}

/// A message that waits for a client.
#[derive(Debug)]
pub struct QueuedMessage {
    pub topic: String,
    pub payload: Bytes,
    pub client_id: String,
    pub qos: QoS,
    pub retain: bool,
    pub packet_id: Option<u16>,
    pub queued_at: u64,
    pub message_expiry_interval: Option<u32>,
    pub expires_at: Option<u64>,
    pub target_flow: Option<u64>,
}

impl Clone for QueuedMessage {
    fn clone(&self) -> (r: Self)
        ensures
            r == *self,
    {
        QueuedMessage {
            topic: self.topic.clone(),
            payload: share(&self.payload),
            client_id: self.client_id.clone(),
            qos: self.qos,
            retain: self.retain,
            packet_id: self.packet_id,
            queued_at: self.queued_at,
            message_expiry_interval: self.message_expiry_interval,
            expires_at: self.expires_at,
            target_flow: self.target_flow,
        }
    }
}

impl QueuedMessage {
    /// The message that queueing a packet for a client at a moment gives.
    pub open spec fn of(
        packet: PublishPacket,
        client_id: String,
        qos: QoS,
        packet_id: Option<u16>,
        now: u64,
    ) -> QueuedMessage {
        QueuedMessage {
            topic: packet.topic_name,
            payload: packet.payload,
            client_id,
            qos,
            retain: packet.retain,
            packet_id,
            queued_at: now,
            message_expiry_interval: packet.properties.message_expiry_interval,
            expires_at: deadline_after(now, packet.properties.message_expiry_interval),
            target_flow: None,
        }
    }

    /// Queues a packet for a client.
    pub fn new(
        packet: PublishPacket,
        client_id: String,
        qos: QoS,
        packet_id: Option<u16>,
        now: u64,
    ) -> (r: Self)
        ensures
            r == QueuedMessage::of(packet, client_id, qos, packet_id, now),
    {
        let interval = packet.properties.message_expiry_interval;
        QueuedMessage {
            topic: packet.topic_name,
            payload: packet.payload,
            client_id,
            qos,
            retain: packet.retain,
            packet_id,
            queued_at: now,
            message_expiry_interval: interval,
            expires_at: deadline_from(now, interval),
            target_flow: None,
        }
    }

    /// Binds the message to a flow of the client.
    pub fn with_target_flow(self, target_flow: Option<u64>) -> (r: Self)
        ensures
            r == (QueuedMessage { target_flow, ..self }),
    {
        let mut message = self;
        message.target_flow = target_flow;
        message
    }

    /// Whether the message has expired.
    pub fn is_expired(&self, now: u64) -> (r: bool)
        ensures
            r == past(self.expires_at, now),
    {
        is_past(self.expires_at, now)
    }

    /// The message with its deadline counted again from the moment at which it was queued; one
    /// without an expiry interval keeps the deadline it has.
    pub open spec fn recomputed(self) -> QueuedMessage {
        if self.message_expiry_interval is Some {
            QueuedMessage {
                expires_at: deadline_after(self.queued_at, self.message_expiry_interval),
                ..self
            }
        } else {
            self
        }
    }

    /// Counts the deadline again from the moment at which the message was queued.
    pub fn recompute_expiry(&mut self)
        ensures
            *final(self) == old(self).recomputed(),
    {
        if self.message_expiry_interval.is_some() {
            self.expires_at = deadline_from(self.queued_at, self.message_expiry_interval);
        }
    }
}

/// Which side sent an in-flight message.
#[derive(Debug, Clone, Copy, PartialEq, Eq, Structural)]
pub enum InflightDirection {
    Inbound,
    Outbound,
}

/// A message whose acknowledgement is outstanding.
#[derive(Debug)]
pub struct InflightMessage {
    pub client_id: String,
    pub packet_id: u16,
    pub direction: InflightDirection,
    pub topic: String,
    pub payload: Bytes,
    pub qos: QoS,
    pub retain: bool,
    pub expires_at: Option<u64>,
}

impl Clone for InflightMessage {
    fn clone(&self) -> (r: Self)
        ensures
            r == *self,
    {
        InflightMessage {
            client_id: self.client_id.clone(),
            packet_id: self.packet_id,
            direction: self.direction,
            topic: self.topic.clone(),
            payload: share(&self.payload),
            qos: self.qos,
            retain: self.retain,
            expires_at: self.expires_at,
        }
    }
}

impl InflightMessage {
    /// Whether the message has expired.
    pub fn is_expired(&self, now: u64) -> (r: bool)
        ensures
            r == past(self.expires_at, now),
    {
        is_past(self.expires_at, now)
    }
}

/// The last message that was published to a topic with the retain flag.
#[derive(Debug)]
pub struct RetainedMessage {
    pub packet: PublishPacket,
    pub expires_at: Option<u64>,
}

impl Clone for RetainedMessage {
    fn clone(&self) -> (r: Self)
        ensures
            r == *self,
    {
        RetainedMessage { packet: self.packet.clone(), expires_at: self.expires_at }
    }
}

impl RetainedMessage {
    /// The retained form of a packet that came at a moment.
    pub open spec fn of(packet: PublishPacket, now: u64) -> RetainedMessage {
        RetainedMessage {
            packet,
            expires_at: deadline_after(now, packet.properties.message_expiry_interval),
        }
    }

    /// Retains a packet.
    pub fn new(packet: PublishPacket, now: u64) -> (r: Self)
        ensures
            r == RetainedMessage::of(packet, now),
    {
        let expires_at = deadline_from(now, packet.properties.message_expiry_interval);
        RetainedMessage { packet, expires_at }
    }

    /// Whether the message has expired.
    pub fn is_expired(&self, now: u64) -> (r: bool)
        ensures
            r == past(self.expires_at, now),
    {
        is_past(self.expires_at, now)
    }

    /// The packet as a new subscriber gets it: retained, without identifier, not a duplicate.
    pub open spec fn publication(self) -> PublishPacket {
        PublishPacket { packet_id: None, retain: true, dup: false, ..self.packet }
    }

    /// The packet as a new subscriber gets it.
    pub fn to_publish_packet(&self) -> (r: PublishPacket)
        ensures
            r == self.publication(),
    {
        let mut packet = self.packet.clone();
        packet.packet_id = None;
        packet.retain = true;
        packet.dup = false;
        packet
    }
}

/// The payloads that a client with change-only subscriptions was sent last, by topic.
#[derive(Debug)]
pub struct ChangeOnlyState {
    last: TextMap<Bytes>,
}

impl View for ChangeOnlyState {
    type V = Map<Seq<char>, Seq<u8>>;

    closed spec fn view(&self) -> Map<Seq<char>, Seq<u8>> {
        self.last@.map_values(|b: Bytes| b@)
    }
}

impl ChangeOnlyState {
    /// No topic stands twice.
    pub closed spec fn wf(&self) -> bool {
        self.last.wf()
    }

    /// Nothing was sent.
    pub fn new() -> (r: Self)
        ensures
            r.wf(),
            r@ == Map::<Seq<char>, Seq<u8>>::empty(),
    {
        let r = ChangeOnlyState { last: TextMap::new() };
        assert(r@ =~= Map::<Seq<char>, Seq<u8>>::empty());
        r
    }

    /// Whether a payload differs from the last one sent on the topic.
    pub fn should_deliver(&self, topic: &str, payload: &Bytes) -> (r: bool)
        requires
            self.wf(),
        ensures
            r == !(self@.contains_key(topic@) && self@[topic@] == payload@),
    {
        match self.last.get(topic) {
            Some(last) => !same_bytes(last, payload),
            None => true,
        }
    }

    /// Records the payload that was sent on a topic.
    pub fn update(&mut self, topic: &str, payload: &Bytes)
        requires
            old(self).wf(),
        ensures
            final(self).wf(),
            final(self)@ == old(self)@.insert(topic@, payload@),
    {
        let ghost before = self@;
        let _ = self.last.insert(topic.to_owned(), share(payload));
        assert(self@ =~= before.insert(topic@, payload@));
    }
}

/// Whether two byte strings hold the same bytes.
pub fn same_bytes(a: &Bytes, b: &Bytes) -> (r: bool)
    ensures
        r == (a@ == b@),
{
    if a.len() != b.len() {
        return false;
    }
    let mut i: usize = 0;
    while i < a.len()
        invariant
            i <= a@.len(),
            a@.len() == b@.len(),
            forall|j: int| 0 <= j < i ==> a@[j] == b@[j],
        decreases a@.len() - i,
    {
        if a[i] != b[i] {
            assert(a@[i as int] != b@[i as int]);
            return false;
        }
        i = i + 1;
    }
    assert(a@ =~= b@);
    true
}

/// A message that is queued or retained at a moment lives for its expiry interval: it has expired
/// exactly when more seconds than that have gone by. One without an interval never expires. Nothing
/// of what was published is lost.
pub proof fn law_message_lives_for_its_interval(
    packet: PublishPacket,
    client_id: String,
    qos: QoS,
    packet_id: Option<u16>,
    start: u64,
    now: u64,
)
    ensures
        ({
            let queued = QueuedMessage::of(packet, client_id, qos, packet_id, start);
            let retained = RetainedMessage::of(packet, start);
            let over = packet.properties.message_expiry_interval matches Some(seconds) && now
                > start + seconds * 1000;
            &&& past(queued.expires_at, now) <==> over
            &&& past(queued.recomputed().expires_at, now) <==> over
            &&& past(retained.expires_at, now) <==> over
            &&& queued.topic == packet.topic_name
            &&& queued.payload == packet.payload
            &&& queued.retain == packet.retain
            &&& queued.qos == qos
            &&& queued.client_id == client_id
            &&& queued.packet_id == packet_id
            &&& retained.packet == packet
        }),
{
}

/// Counting the deadline of a queued message again changes nothing else, and whatever the deadline
/// was, it lies the interval after the moment at which the message was queued.
pub proof fn law_deadline_is_counted_from_queueing(message: QueuedMessage, now: u64)
    ensures
        message.message_expiry_interval matches Some(seconds) ==> (past(
            message.recomputed().expires_at,
            now,
        ) <==> now > message.queued_at + seconds * 1000),
        message.message_expiry_interval is None ==> message.recomputed() == message,
        message.recomputed() == (QueuedMessage {
            expires_at: message.recomputed().expires_at,
            ..message
        }),
        message.recomputed().recomputed() == message.recomputed(),
{
}

/// A new subscriber gets a retained message as it was published, marked as retained, without the
/// identifier of the publisher and not as a duplicate.
pub proof fn law_retained_message_is_published_again(message: RetainedMessage)
    ensures
        ({
            let sent = message.publication();
            &&& sent.topic_name == message.packet.topic_name
            &&& sent.payload == message.packet.payload
            &&& sent.qos == message.packet.qos
            &&& sent.properties == message.packet.properties
            &&& sent.retain
            &&& sent.packet_id is None
            &&& !sent.dup
        }),
{
}

} // verus!
