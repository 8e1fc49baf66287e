//! The state of a client and the identifiers that it gives out.

use crate::client::direct::ack::AckDispatcher;
use crate::client::direct::outbound::ServerCapabilities;
use crate::client::direct::replay::{OfflineQueue, PublishPolicy};
use crate::client::direct::tracking::{IdReservation, OutboundIds, OutcomeTracker};
use crate::client::publish_outcome::Ledger;
use crate::codec::registry::CodecRegistry;
use crate::error::{MqttError, Result};
use crate::packet_ids::PacketIdSet;
use crate::packets::{SubscriptionOptions, WillMessage};
use crate::session::state::SessionState;
use crate::types::{Bytes, ProtocolVersion};
use std::sync::Arc;
use vstd::prelude::*;

verus! {

/// Whether the client connects again by itself.
#[derive(Debug, Clone, Copy, PartialEq, Eq, Structural)]
pub enum AutomaticReconnectLifecycle {
    Armed,
    Stopped,
}

/// The properties of CONNECT.
#[derive(Debug)]
pub struct ConnectProperties {
    pub session_expiry_interval: Option<u32>,
    pub receive_maximum: Option<u16>,
    pub maximum_packet_size: Option<u32>,
    pub topic_alias_maximum: Option<u16>,
    pub request_response_information: Option<bool>,
    pub request_problem_information: Option<bool>,
    pub authentication_method: Option<String>,
    pub authentication_data: Option<Bytes>,
    pub user_properties: Arc<Vec<(String, String)>>,
}

impl ConnectProperties {
    /// There are none.
    pub open spec fn none(&self) -> bool {
        &&& self.session_expiry_interval is None
        &&& self.receive_maximum is None
        &&& self.maximum_packet_size is None
        &&& self.topic_alias_maximum is None
        &&& self.request_response_information is None
        &&& self.request_problem_information is None
        &&& self.authentication_method is None
        &&& self.authentication_data is None
        &&& self.user_properties@ == Seq::<(String, String)>::empty()
    }
}

impl Default for ConnectProperties {
    fn default() -> (r: Self)
        ensures
            r.none(),
    {
        ConnectProperties {
            session_expiry_interval: None,
            receive_maximum: None,
            maximum_packet_size: None,
            topic_alias_maximum: None,
            request_response_information: None,
            request_problem_information: None,
            authentication_method: None,
            authentication_data: None,
            user_properties: Arc::new(Vec::new()),
        }
    }
}

/// How a client connects.
pub struct ConnectOptions {
    pub client_id: String,
    pub clean_start: bool,
    /// In seconds; zero for none.
    pub keep_alive: u64,
    pub protocol_version: ProtocolVersion,
    pub username: Option<String>,
    pub password: Option<Bytes>,
    pub will: Option<WillMessage>,
    pub properties: ConnectProperties,
    /// The application acknowledges messages itself.
    pub deferred_ack: bool,
    /// The client begins with a session that the server keeps.
    pub resume_existing_session: bool,
    pub codec_registry: Option<Arc<CodecRegistry>>,
}

impl ConnectOptions {
    /// The options of a client that begins a new session and asks for a sign of life every minute.
    pub fn new(client_id: String) -> (r: Self)
        ensures
            r.client_id == client_id,
            r.clean_start,
            r.keep_alive == 60,
            r.protocol_version == ProtocolVersion::V5,
            r.username is None,
            r.password is None,
            r.will is None,
            r.properties.none(),
            !r.deferred_ack,
            !r.resume_existing_session,
            r.codec_registry is None,
    {
        ConnectOptions {
            client_id,
            clean_start: true,
            keep_alive: 60,
            protocol_version: ProtocolVersion::V5,
            username: None,
            password: None,
            will: None,
            properties: ConnectProperties::default(),
            deferred_ack: false,
            resume_existing_session: false,
            codec_registry: None,
        }
    }
}

/// A subscription that is made again on a new connection.
#[derive(Debug)]
pub struct StoredSubscription {
    pub topic_filter: String,
    pub options: SubscriptionOptions,
    pub subscription_identifier: Option<u32>,
    pub callback_id: u64,
}

/// Gives out packet identifiers from one on; after the largest it begins again.
#[derive(Debug, Clone, Copy, PartialEq, Eq, Structural)]
pub struct PacketIdGenerator {
    pub next: u16,
}

/// The identifier that comes some steps after another.
pub open spec fn id_after(start: u16, steps: int) -> u16 {
    ((start - 1 + steps) % 65535 + 1) as u16
}

impl PacketIdGenerator {
    /// The next identifier is one.
    pub open spec fn wf(&self) -> bool {
        self.next != 0
    }

    /// Begins with one.
    pub fn new() -> (r: Self)
        ensures
            r.wf(),
            r.next == 1,
    {
        PacketIdGenerator { next: 1 }
    }

    /// Gives out an identifier.
    pub fn next(&mut self) -> (r: u16)
        requires
            old(self).wf(),
        ensures
            final(self).wf(),
            r == old(self).next,
            final(self).next == id_after(old(self).next, 1),
    {
        let id: u16 = self.next;
        self.next = if id == u16::MAX {
            1
        } else {
            id + 1
        };
        id
    }
}

/// The state of a client.
pub struct DirectClientInner {
    pub session: SessionState,
    pub connected: bool,
    pub connection_epoch: u64,
    pub options: ConnectOptions,
    pub generator: PacketIdGenerator,
    pub pending_subacks: PacketIdSet,
    pub pending_unsubacks: PacketIdSet,
    /// The QoS 1 messages whose PUBACK is waited for.
    pub pending_pubacks: PacketIdSet,
    /// The QoS 2 messages whose PUBCOMP is waited for.
    pub pending_pubcomps: PacketIdSet,
    pub outbound_ids: OutboundIds,
    pub publish_outcomes: OutcomeTracker,
    pub ledger: Ledger,
    pub queued_messages: OfflineQueue,
    pub stored_subscriptions: Vec<StoredSubscription>,
    pub queue_on_disconnect: bool,
    pub policy: PublishPolicy,
    pub server_capabilities: ServerCapabilities,
    pub negotiated_keep_alive_secs: u64,
    pub server_redirect: Option<String>,
    pub ack_dispatcher: AckDispatcher,
    pub automatic_reconnect_lifecycle: AutomaticReconnectLifecycle,
}

/// The keep-alive interval as CONNECT carries it: the largest that fits, where it is larger.
pub open spec fn wire_keep_alive(seconds: u64) -> u16 {
    if seconds <= u16::MAX {
        seconds as u16
    } else {
        u16::MAX
    }
}

impl DirectClientInner {
    /// The parts are in order.
    pub open spec fn wf(&self) -> bool {
        &&& self.session.wf()
        &&& self.generator.wf()
        &&& self.pending_subacks.wf()
        &&& self.pending_unsubacks.wf()
        &&& self.pending_pubacks.wf()
        &&& self.pending_pubcomps.wf()
        &&& self.outbound_ids.wf()
        &&& self.publish_outcomes.wf()
        &&& self.ledger.wf()
        &&& self.ack_dispatcher.wf()
        &&& self.options.codec_registry matches Some(registry) ==> registry.wf()
    }

    /// A client that is not connected. It queues messages while it is not, unless it begins a new
    /// session with each connection.
    pub fn new(options: ConnectOptions) -> (r: Self)
        requires
            options.codec_registry matches Some(registry) ==> registry.wf(),
        ensures
            r.wf(),
            !r.connected,
            r.connection_epoch == 0,
            r.options == options,
            r.session.is_new(options.client_id),
            r.generator.next == 1,
            r.pending_subacks@ == Set::<u16>::empty(),
            r.pending_unsubacks@ == Set::<u16>::empty(),
            r.pending_pubacks@ == Set::<u16>::empty(),
            r.pending_pubcomps@ == Set::<u16>::empty(),
            r.outbound_ids.reserved() == Set::<u16>::empty(),
            r.outbound_ids.quarantined() == Set::<u16>::empty(),
            r.publish_outcomes@ == Map::<
                u64,
                crate::client::direct::tracking::Awaited,
            >::empty(),
            r.ledger@ == Map::<u64, crate::client::publish_outcome::Progress>::empty(),
            r.ledger.upcoming() == 0,
            r.queued_messages@.len() == 0,
            r.queued_messages.last_serial() == 0,
            r.stored_subscriptions@.len() == 0,
            r.queue_on_disconnect == !options.clean_start,
            r.policy == (PublishPolicy { maximum_qos: None, retain_available: true }),
            r.server_capabilities == (ServerCapabilities {
                wildcard_subscriptions: true,
                shared_subscriptions: true,
                subscription_identifiers: true,
            }),
            r.negotiated_keep_alive_secs == options.keep_alive,
            r.server_redirect is None,
            r.ack_dispatcher.ranks().first() == 0,
            r.ack_dispatcher.ranks().places() == Seq::<
                Option<crate::client::direct::ack::AckRequest>,
            >::empty(),
            r.automatic_reconnect_lifecycle == AutomaticReconnectLifecycle::Armed,
    {
        let session = SessionState::new(options.client_id.clone());
        DirectClientInner {
            session,
            connected: false,
            connection_epoch: 0,
            generator: PacketIdGenerator::new(),
            pending_subacks: PacketIdSet::new(),
            pending_unsubacks: PacketIdSet::new(),
            pending_pubacks: PacketIdSet::new(),
            pending_pubcomps: PacketIdSet::new(),
            outbound_ids: OutboundIds::new(),
            publish_outcomes: OutcomeTracker::new(),
            ledger: Ledger::new(),
            queued_messages: OfflineQueue::new(),
            stored_subscriptions: Vec::new(),
            queue_on_disconnect: !options.clean_start,
            policy: PublishPolicy { maximum_qos: None, retain_available: true },
            server_capabilities: ServerCapabilities::default(),
            negotiated_keep_alive_secs: options.keep_alive,
            server_redirect: None,
            ack_dispatcher: AckDispatcher::new(),
            automatic_reconnect_lifecycle: AutomaticReconnectLifecycle::Armed,
            options,
        }
    }

    /// Whether there is a connection.
    pub fn is_connected(&self) -> (r: bool)
        ensures
            r == self.connected,
    {
        self.connected
    }

    /// Records whether there is a connection.
    pub fn set_connected(&mut self, connected: bool)
        ensures
            *final(self) == (DirectClientInner { connected, ..*old(self) }),
    {
        self.connected = connected;
    }

    /// The keep-alive interval in force, in seconds.
    pub fn negotiated_keep_alive(&self) -> (r: u64)
        ensures
            r == self.negotiated_keep_alive_secs,
    {
        self.negotiated_keep_alive_secs
    }

    /// Whether messages are queued while there is no connection.
    pub fn is_queue_on_disconnect(&self) -> (r: bool)
        ensures
            r == self.queue_on_disconnect,
    {
        self.queue_on_disconnect
    }

    /// Sets whether messages are queued while there is no connection.
    pub fn set_queue_on_disconnect(&mut self, enabled: bool)
        ensures
            *final(self) == (DirectClientInner { queue_on_disconnect: enabled, ..*old(self) }),
    {
        self.queue_on_disconnect = enabled;
    }

    /// The keep-alive interval as CONNECT carries it.
    pub fn configured_keep_alive_u16(&self) -> (r: u16)
        ensures
            r == wire_keep_alive(self.options.keep_alive),
    {
        if self.options.keep_alive <= u16::MAX as u64 {
            self.options.keep_alive as u16
        } else {
            u16::MAX
        }
    }

    /// Takes over the keep-alive interval of the server, or the one that was asked for.
    pub fn apply_negotiated_keep_alive(&mut self, server_value: Option<u16>)
        ensures
            *final(self) == (DirectClientInner {
                negotiated_keep_alive_secs: match server_value {
                    Some(v) => v as u64,
                    None => wire_keep_alive(old(self).options.keep_alive) as u64,
                },
                ..*old(self)
            }),
    {
        let effective: u16 = match server_value {
            Some(v) => v,
            None => self.configured_keep_alive_u16(),
        };
        self.negotiated_keep_alive_secs = effective as u64;
    }

    /// Begins a new connection: what belongs to an earlier one is recognised by its number.
    pub fn advance_connection_epoch(&mut self) -> (r: u64)
        ensures
            r == (old(self).connection_epoch + 1) % 0x1_0000_0000_0000_0000,
            *final(self) == (DirectClientInner { connection_epoch: r, ..*old(self) }),
    {
        self.connection_epoch = self.connection_epoch.wrapping_add(1);
        self.connection_epoch
    }

    /// Whether a new packet must not get an identifier.
    pub open spec fn busy(&self, packet_id: u16) -> bool {
        ||| self.session.outbound@.contains_key(packet_id as u64)
        ||| self.pending_subacks@.contains(packet_id)
        ||| self.pending_unsubacks@.contains(packet_id)
        ||| self.outbound_ids.held(packet_id)
    }

    fn is_busy(&self, packet_id: u16) -> (r: bool)
        requires
            self.wf(),
        ensures
            r == self.busy(packet_id),
    {
        self.session.is_outbound(packet_id) || self.pending_subacks.contains(packet_id)
            || self.pending_unsubacks.contains(packet_id) || self.outbound_ids.holds(packet_id)
    }

    /// A new identifier was reserved: the first that is free, in the order of the generator.
    pub open spec fn allocated(before: DirectClientInner, after: DirectClientInner, id: u16) -> bool {
        &&& id != 0
        &&& !before.busy(id)
        &&& exists|k: int|
            0 <= k < 65535 && id == #[trigger] id_after(before.generator.next, k) && (forall|j: int|
                0 <= j < k ==> before.busy(#[trigger] id_after(before.generator.next, j)))
                && after.generator.next == id_after(before.generator.next, k + 1)
        &&& after.outbound_ids.reserved() == before.outbound_ids.reserved().insert(id)
        &&& after.outbound_ids.quarantined() == before.outbound_ids.quarantined()
        &&& after == (DirectClientInner {
            generator: after.generator,
            outbound_ids: after.outbound_ids,
            ..before
        })
    }

    /// Reserves the next free identifier. Only if every identifier is taken there is none.
    pub fn allocate_packet_id(&mut self) -> (r: Result<IdReservation>)
        requires
            old(self).wf(),
        ensures
            final(self).wf(),
            match r {
                Ok(reservation) => DirectClientInner::allocated(
                    *old(self),
                    *final(self),
                    reservation.id(),
                ),
                Err(e) => {
                    &&& e == MqttError::PacketIdExhausted
                    &&& forall|id: u16| id != 0 ==> #[trigger] old(self).busy(id)
                    &&& *final(self) == *old(self)
                },
            },
    {
        let ghost origin = *self;
        let ghost start = self.generator.next;
        let mut k: u32 = 0;
        while k < 65535
            invariant
                k <= 65535,
                origin == *old(self),
                origin.wf(),
                self.wf(),
                start == origin.generator.next,
                start != 0,
                self.generator.next == id_after(start, k as int),
                *self == (DirectClientInner { generator: self.generator, ..origin }),
                forall|j: int| 0 <= j < k ==> origin.busy(#[trigger] id_after(start, j)),
            decreases 65535 - k,
        {
            let id: u16 = self.generator.next();
            assert(id == id_after(start, k as int));
            assert(id_after(id_after(start, k as int), 1) == id_after(start, k + 1));
            if !self.is_busy(id) {
                assert(!origin.busy(id));
                if let Some(reservation) = self.outbound_ids.claim(id) {
                    return Ok(reservation);
                }
            }
            assert(origin.busy(id));
            k = k + 1;
        }
        proof {
            assert(id_after(start, 65535) == start);
            assert forall|id: u16| id != 0 implies #[trigger] origin.busy(id) by {
                let j = (id - start) % 65535;
                assert(0 <= j < 65535);
                lemma_reached(start, id);
                assert(origin.busy(id_after(start, j)));
            }
        }
        Err(MqttError::PacketIdExhausted)
    }
}

/// Going through the identifiers from any of them on, every one is reached.
proof fn lemma_reached(start: u16, id: u16)
    requires
        start != 0,
        id != 0,
    ensures
        id_after(start, (id - start) % 65535) == id,
{
    let j = (id - start) % 65535;
    if id >= start {
        assert(j == id - start);
    } else {
        assert(j == id - start + 65535);
    }
}

/// Identifiers run from 1 to 65535 and then begin again; zero is none.
pub proof fn law_identifiers_begin_again(start: u16)
    requires
        start != 0,
    ensures
        id_after(start, 0) == start,
        start < 65535 ==> id_after(start, 1) == start + 1,
        start == 65535 ==> id_after(start, 1) == 1,
        id_after(start, 65535) == start,
        id_after(start, 1) != 0,
{
}

/// An identifier that was reserved is not given out again before it is free: of two that are reserved
/// one after the other none is the other, and neither is in use already.
pub proof fn law_identifier_is_reserved_once(
    before: DirectClientInner,
    between: DirectClientInner,
    after: DirectClientInner,
    first: u16,
    second: u16,
)
    requires
        DirectClientInner::allocated(before, between, first),
        DirectClientInner::allocated(between, after, second),
    ensures
        first != second,
        first != 0 && second != 0,
        !before.session.outbound@.contains_key(first as u64),
        !before.session.outbound@.contains_key(second as u64),
        !before.pending_subacks@.contains(first) && !before.pending_unsubacks@.contains(first),
        !before.outbound_ids.reserved().contains(first),
        !before.outbound_ids.quarantined().contains(first),
        after.outbound_ids.reserved().contains(first),
        after.outbound_ids.reserved().contains(second),
{
}

/// CONNECT carries the keep-alive interval that was asked for, or the largest that fits.
pub proof fn law_keep_alive_fits_its_field(seconds: u64)
    ensures
        wire_keep_alive(seconds) <= seconds,
        seconds <= 65535 ==> wire_keep_alive(seconds) == seconds,
        seconds > 65535 ==> wire_keep_alive(seconds) == 65535,
{
}

} // verus!
