//! How a connection begins and ends.
//!
//! The caller writes and reads packets. What it hands over is what came; what it gets is what to
//! do next.

use crate::client::auth_handler::AuthResponse;
use crate::client::direct::client::DirectClientInner;
use crate::client::direct::outbound::ServerCapabilities;
use crate::client::direct::replay::PublishPolicy;
use crate::error::{MqttError, ReasonCode, Result};
use crate::packets::{ConnAckPacket, ConnectPacket, Packet, ReasonPacket, WillMessage};
use crate::session::flow_control::FlowControlManager;
use crate::session::quic_flow::{FlowFlags, FlowId};
use crate::session::state::OutboundReplay;
use crate::session::topic_alias::TopicAliasManager;
use crate::text::{owned, share};
use crate::types::{copy_bytes, copy_text, Bytes, Properties};
use std::sync::Arc;
use vstd::prelude::*;

verus! {

/// The receive maximum of a server that announces none.
pub const DEFAULT_RECEIVE_MAXIMUM: u16 = 65535;

/// The number that stands for a yes or no in a property.
pub open spec fn flag_byte(flag: Option<bool>) -> Option<u8> {
    match flag {
        Some(true) => Some(1u8),
        Some(false) => Some(0u8),
        None => None,
    }
}

fn flag_value(flag: Option<bool>) -> (r: Option<u8>)
    ensures
        r == flag_byte(flag),
{
    match flag {
        Some(true) => Some(1),
        Some(false) => Some(0),
        None => None,
    }
}

/// What a client does with a packet that comes before its CONNECT is answered.
#[derive(Debug)]
pub enum HandshakeStep {
    /// The authentication handler is asked to answer a challenge.
    Challenge { method: String, data: Option<Bytes> },
    /// The next packet is read.
    Wait,
    /// CONNECT was answered.
    Answered(ConnAckPacket),
}

/// What a client does with the answer to its CONNECT.
#[derive(Debug)]
pub enum ConnectStep {
    /// The connection is opened. First the session is replayed, if there is a quota for that.
    Open { items: Vec<OutboundReplay>, slots: Option<u64>, session_present: bool },
    /// The connection is closed.
    Fail(MqttError),
    /// DISCONNECT is sent, then the connection is closed.
    Reject { disconnect: ReasonPacket, error: MqttError },
}

/// What runs while there is a connection.
#[derive(Debug, Clone, Copy, PartialEq, Eq, Structural)]
pub struct BackgroundTasks {
    pub packet_reader: bool,
    /// The interval of the sign of life in seconds, if there is one.
    pub keepalive: Option<u64>,
    pub stream_acceptor: bool,
    pub flow_expiration: bool,
    /// The largest packet that is read from a stream.
    pub maximum_packet_size: usize,
    /// The largest alias that the server may use.
    pub topic_alias_maximum: u16,
    /// Whether the server may explain its answers.
    pub request_problem_information: bool,
}

/// The receive maximum of a server.
pub open spec fn announced_maximum(connack: ConnAckPacket) -> u16 {
    match connack.properties.receive_maximum {
        Some(maximum) => maximum,
        None => DEFAULT_RECEIVE_MAXIMUM,
    }
}

/// The identifiers of the messages whose release is outstanding, in order.
pub open spec fn released_ids(items: Seq<OutboundReplay>) -> Seq<u16>
    decreases items.len(),
{
    if items.len() == 0 {
        Seq::empty()
    } else {
        match items.last() {
            OutboundReplay::PubRel(id) => released_ids(items.drop_last()).push(id),
            OutboundReplay::Publish(_) => released_ids(items.drop_last()),
        }
    }
}

fn retained_in_flight(items: &Vec<OutboundReplay>) -> (r: Vec<u16>)
    ensures
        r@ == released_ids(items@),
{
    let mut out: Vec<u16> = Vec::new();
    let mut i: usize = 0;
    assert(items@.take(0) =~= Seq::<OutboundReplay>::empty());
    while i < items.len()
        invariant
            i <= items@.len(),
            out@ == released_ids(items@.take(i as int)),
        decreases items@.len() - i,
    {
        assert(items@.take(i + 1).drop_last() =~= items@.take(i as int));
        match &items[i] {
            OutboundReplay::PubRel(id) => {
                out.push(*id);
            },
            OutboundReplay::Publish(_) => {},
        }
        i = i + 1;
    }
    assert(items@.take(items@.len() as int) =~= items@);
    out
}

/// What the handler's first answer, or the options, give for CONNECT. Without an authentication
/// method there is nothing; a handler that fails is passed over.
pub open spec fn initial_auth_data(
    method: Option<String>,
    configured: Option<Bytes>,
    initial: Option<Result<Option<Vec<u8>>>>,
) -> Option<Seq<u8>> {
    if method is None {
        None
    } else {
        match initial {
            Some(Ok(Some(data))) => Some(data@),
            Some(Ok(None)) => None,
            _ => match configured {
                Some(data) => Some(data@),
                None => None,
            },
        }
    }
}

impl DirectClientInner {
    /// The properties that CONNECT carries.
    pub open spec fn connect_properties(&self, p: Properties, auth_data: Option<Seq<u8>>) -> bool {
        let asked = self.options.properties;
        &&& p.session_expiry_interval == asked.session_expiry_interval
        &&& p.receive_maximum == asked.receive_maximum
        &&& p.maximum_packet_size == asked.maximum_packet_size
        &&& p.topic_alias_maximum == asked.topic_alias_maximum
        &&& p.request_response_information == flag_byte(asked.request_response_information)
        &&& p.request_problem_information == flag_byte(asked.request_problem_information)
        &&& p.user_properties == asked.user_properties
        &&& p.authentication_method == asked.authentication_method
        &&& match auth_data {
            Some(data) => p.authentication_data matches Some(d) && d@ == data,
            None => p.authentication_data is None,
        }
        &&& exists|blank: Properties| #[trigger]
            blank.none() && p == (Properties {
                session_expiry_interval: p.session_expiry_interval,
                receive_maximum: p.receive_maximum,
                maximum_packet_size: p.maximum_packet_size,
                topic_alias_maximum: p.topic_alias_maximum,
                request_response_information: p.request_response_information,
                request_problem_information: p.request_problem_information,
                user_properties: p.user_properties,
                authentication_method: p.authentication_method,
                authentication_data: p.authentication_data,
                ..blank
            })
    }

    /// The connection that there was is over. This comes before CONNECT and after DISCONNECT;
    /// whoever holds the writer, the streams and the tasks of the connection ends them.
    pub fn reset_connection_runtime(&mut self)
        ensures
            *final(self) == (DirectClientInner { connected: false, ..*old(self) }),
    {
        self.set_connected(false);
    }

    /// The CONNECT packet. `initial` is what the authentication handler answered before any
    /// challenge, if there is a handler.
    pub fn build_connect_packet(&self, initial: Option<Result<Option<Vec<u8>>>>) -> (r:
        ConnectPacket)
        ensures
            r.protocol_version == self.options.protocol_version.number(),
            r.clean_start == self.options.clean_start,
            r.keep_alive == crate::client::direct::client::wire_keep_alive(
                self.options.keep_alive,
            ),
            r.client_id == self.session.client_id,
            r.will == self.options.will,
            r.username == self.options.username,
            r.password == self.options.password,
            self.connect_properties(
                r.properties,
                initial_auth_data(
                    self.options.properties.authentication_method,
                    self.options.properties.authentication_data,
                    initial,
                ),
            ),
            match self.options.will {
                Some(will) => r.will_properties == will.properties,
                None => r.will_properties.none(),
            },
    {
        let asked = &self.options.properties;
        let mut properties = Properties::default();
        let ghost blank = properties;
        assert(blank.none());
        properties.session_expiry_interval = asked.session_expiry_interval;
        properties.receive_maximum = asked.receive_maximum;
        properties.maximum_packet_size = asked.maximum_packet_size;
        properties.topic_alias_maximum = asked.topic_alias_maximum;
        properties.request_response_information = flag_value(asked.request_response_information);
        properties.request_problem_information = flag_value(asked.request_problem_information);
        properties.user_properties = share(&asked.user_properties);
        properties.authentication_method = copy_text(&asked.authentication_method);
        if asked.authentication_method.is_some() {
            properties.authentication_data = match initial {
                Some(Ok(Some(data))) => Some(Arc::new(data)),
                Some(Ok(None)) => None,
                _ => copy_bytes(&asked.authentication_data),
            };
        }
        let will: Option<WillMessage> = match &self.options.will {
            Some(will) => Some(will.clone()),
            None => None,
        };
        ConnectPacket {
            protocol_version: self.options.protocol_version.as_u8(),
            clean_start: self.options.clean_start,
            keep_alive: self.configured_keep_alive_u16(),
            client_id: self.session.client_id.clone(),
            will_properties: DirectClientInner::build_will_properties(&will),
            will,
            username: copy_text(&self.options.username),
            password: copy_bytes(&self.options.password),
            properties,
        }
    }

    /// The properties that CONNECT carries for the will.
    pub fn build_will_properties(will: &Option<WillMessage>) -> (r: Properties)
        ensures
            match *will {
                Some(w) => r == w.properties,
                None => r.none(),
            },
    {
        match will {
            Some(w) => w.properties.clone(),
            None => Properties::default(),
        }
    }

    /// What an AUTH packet asks of the client, or why it is refused.
    pub open spec fn auth_step(
        &self,
        auth: ReasonPacket,
        has_handler: bool,
        r: Result<HandshakeStep>,
    ) -> bool {
        if auth.reason_code == ReasonCode::Success {
            r matches Ok(HandshakeStep::Wait)
        } else if auth.reason_code != ReasonCode::ContinueAuthentication {
            r matches Err(e) && e == MqttError::AuthenticationFailed
        } else if self.options.properties.authentication_method is None {
            r matches Err(MqttError::ProtocolError(text)) && text@
                == "AUTH received but CONNECT carried no Authentication Method"@
        } else if !has_handler {
            r matches Err(e) && e == MqttError::AuthenticationFailed
        } else {
            r matches Ok(HandshakeStep::Challenge { method, data }) && data
                == auth.properties.authentication_data && method@ == (
            match auth.properties.authentication_method {
                Some(method) => method@,
                None => Seq::<char>::empty(),
            })
        }
    }

    /// What an AUTH packet asks of the client before its CONNECT is answered.
    pub fn handle_connect_auth(&self, auth: &ReasonPacket, has_handler: bool) -> (r: Result<
        HandshakeStep,
    >)
        ensures
            self.auth_step(*auth, has_handler, r),
    {
        if auth.reason_code == ReasonCode::ContinueAuthentication {
            if self.options.properties.authentication_method.is_none() {
                return Err(
                    MqttError::ProtocolError(
                        owned("AUTH received but CONNECT carried no Authentication Method"),
                    ),
                );
            }
            if !has_handler {
                return Err(MqttError::AuthenticationFailed);
            }
            let method = match &auth.properties.authentication_method {
                Some(method) => method.clone(),
                None => String::new(),
            };
            assert(auth.properties.authentication_method is None ==> method@ =~= Seq::<
                char,
            >::empty());
            return Ok(
                HandshakeStep::Challenge {
                    method,
                    data: copy_bytes(&auth.properties.authentication_data),
                },
            );
        }
        if auth.reason_code == ReasonCode::Success {
            Ok(HandshakeStep::Wait)
        } else {
            Err(MqttError::AuthenticationFailed)
        }
    }

    /// An AUTH packet of the client's own authentication method.
    pub open spec fn auth_packet(
        &self,
        packet: ReasonPacket,
        reason_code: ReasonCode,
        data: Option<Seq<u8>>,
    ) -> bool {
        &&& packet.reason_code == reason_code
        &&& packet.properties.authentication_method
            == self.options.properties.authentication_method
        &&& match data {
            Some(d) => packet.properties.authentication_data matches Some(bytes) && bytes@ == d,
            None => packet.properties.authentication_data is None,
        }
        &&& exists|blank: Properties| #[trigger]
            blank.none() && packet.properties == (Properties {
                authentication_method: packet.properties.authentication_method,
                authentication_data: packet.properties.authentication_data,
                ..blank
            })
    }

    fn new_auth_packet(&self, reason_code: ReasonCode, data: Option<Vec<u8>>) -> (r: ReasonPacket)
        ensures
            self.auth_packet(
                r,
                reason_code,
                match data {
                    Some(d) => Some(d@),
                    None => None,
                },
            ),
    {
        let mut properties = Properties::default();
        let ghost blank = properties;
        assert(blank.none());
        properties.authentication_method = copy_text(
            &self.options.properties.authentication_method,
        );
        properties.authentication_data = match data {
            Some(d) => Some(Arc::new(d)),
            None => None,
        };
        ReasonPacket { reason_code, properties }
    }

    /// What is sent after the authentication handler has answered a challenge.
    pub fn answer_challenge(&self, response: Result<AuthResponse>) -> (r: Result<
        Option<ReasonPacket>,
    >)
        ensures
            match response {
                Ok(AuthResponse::Continue(data)) => r matches Ok(Some(packet)) && self.auth_packet(
                    packet,
                    ReasonCode::ContinueAuthentication,
                    Some(data@),
                ),
                Ok(AuthResponse::Success) => r matches Ok(None),
                Ok(AuthResponse::Abort(_)) => r matches Err(e) && e
                    == MqttError::AuthenticationFailed,
                Err(e) => r == Err::<Option<ReasonPacket>, MqttError>(e),
            },
    {
        match response {
            Ok(AuthResponse::Continue(data)) => Ok(
                Some(self.new_auth_packet(ReasonCode::ContinueAuthentication, Some(data))),
            ),
            Ok(AuthResponse::Success) => Ok(None),
            Ok(AuthResponse::Abort(_)) => Err(MqttError::AuthenticationFailed),
            Err(e) => Err(e),
        }
    }

    /// What a client does with a packet that comes before its CONNECT is answered.
    pub fn wait_for_connack(&self, packet: Packet, has_handler: bool) -> (r: Result<HandshakeStep>)
        ensures
            match packet {
                Packet::ConnAck(connack) => r == Ok::<_, MqttError>(
                    HandshakeStep::Answered(connack),
                ),
                Packet::Auth(auth) => self.auth_step(auth, has_handler, r),
                _ => r matches Err(MqttError::ProtocolError(text)) && text@
                    == "Expected CONNACK or AUTH"@,
            },
    {
        match packet {
            Packet::Auth(auth) => self.handle_connect_auth(&auth, has_handler),
            Packet::ConnAck(connack) => Ok(HandshakeStep::Answered(connack)),
            _ => Err(MqttError::ProtocolError(owned("Expected CONNACK or AUTH"))),
        }
    }

    /// Begins to authenticate again. `initial` is what the authentication handler answers before
    /// any challenge, if there is a handler.
    pub fn reauthenticate(&self, initial: Option<Result<Option<Vec<u8>>>>) -> (r: Result<
        ReasonPacket,
    >)
        ensures
            if !self.connected {
                r matches Err(e) && e == MqttError::NotConnected
            } else if initial is None || self.options.properties.authentication_method is None {
                r matches Err(e) && e == MqttError::AuthenticationFailed
            } else {
                match initial->0 {
                    Ok(data) => r matches Ok(packet) && self.auth_packet(
                        packet,
                        ReasonCode::ReAuthenticate,
                        match data {
                            Some(d) => Some(d@),
                            None => None,
                        },
                    ),
                    Err(e) => r == Err::<ReasonPacket, MqttError>(e),
                }
            },
    {
        if !self.connected {
            return Err(MqttError::NotConnected);
        }
        match initial {
            None => Err(MqttError::AuthenticationFailed),
            Some(answer) => {
                if self.options.properties.authentication_method.is_none() {
                    return Err(MqttError::AuthenticationFailed);
                }
                match answer {
                    Ok(data) => Ok(self.new_auth_packet(ReasonCode::ReAuthenticate, data)),
                    Err(e) => Err(e),
                }
            },
        }
    }

    /// Whether the client knows of a session that the server may have: it did not ask for a new
    /// one, and was connected before or was told that there is one.
    pub open spec fn knows_session(&self) -> bool {
        &&& !self.options.clean_start
        &&& self.connection_epoch > 0 || self.options.resume_existing_session
    }

    /// Whether the client knows of a session that the server may have.
    pub fn holds_session_state(&self) -> (r: bool)
        ensures
            r == self.knows_session(),
    {
        !self.options.clean_start && (self.connection_epoch > 0
            || self.options.resume_existing_session)
    }

    /// The server has no session: what the client remembered of one is gone, but for the messages
    /// that are queued once more.
    pub open spec fn session_discarded(
        before: DirectClientInner,
        after: DirectClientInner,
    ) -> bool {
        let items = crate::session::state::replay_of(before.session.outbound.listing());
        exists|middle: DirectClientInner| #[trigger]
            DirectClientInner::requeued(middle, after, items) && {
                &&& middle.session.outbound@ == Map::<
                    u64,
                    Option<crate::types::PublishPacket>,
                >::empty()
                &&& middle.session.outbound.listing() == Seq::<
                    (u64, Option<crate::types::PublishPacket>),
                >::empty()
                &&& middle.session.pubrecs@ == Set::<u16>::empty()
                &&& middle.session.delivered@ == Set::<u16>::empty()
                &&& middle.session.acked@ == Set::<u16>::empty()
                &&& middle.session.flow.same_outbound(&before.session.flow)
                &&& middle.session.flow.inbound_maximum() == before.session.flow.inbound_maximum()
                &&& middle.session.flow.received() == Map::<u64, u64>::empty()
                &&& middle.ack_dispatcher.ranks().places() == Seq::<
                    Option<crate::client::direct::ack::AckRequest>,
                >::empty()
                &&& middle.ack_dispatcher.ranks().first() == before.ack_dispatcher.ranks().first()
                    + before.ack_dispatcher.ranks().places().len()
                &&& middle == (DirectClientInner {
                    session: crate::session::state::SessionState {
                        outbound: middle.session.outbound,
                        pubrecs: middle.session.pubrecs,
                        delivered: middle.session.delivered,
                        acked: middle.session.acked,
                        flow: middle.session.flow,
                        ..before.session
                    },
                    ack_dispatcher: middle.ack_dispatcher,
                    ..before
                })
            }
    }

    /// The session goes on if the server has it; otherwise it is discarded.
    pub open spec fn session_after(
        before: DirectClientInner,
        after: DirectClientInner,
        connack: ConnAckPacket,
    ) -> bool {
        if connack.session_present {
            after == before
        } else {
            DirectClientInner::session_discarded(before, after)
        }
    }

    /// Forgets the session. What the application has not acknowledged can no longer be
    /// acknowledged.
    pub fn discard_session_state(&mut self)
        requires
            old(self).wf(),
        ensures
            final(self).wf(),
            DirectClientInner::session_discarded(*old(self), *final(self)),
    {
        self.ack_dispatcher.discard_pending();
        let unacknowledged = self.session.outbound_replay();
        self.session.discard_outbound_state();
        self.session.flow.clear_inbound();
        self.session.clear_all_inbound_state();
        let ghost middle = *self;
        self.requeue_lost_session(unacknowledged);
        assert(DirectClientInner::requeued(middle, *self, unacknowledged@));
    }

    /// Takes over the client identifier that the server has assigned.
    pub fn adopt_assigned_client_identifier(&mut self, connack: &ConnAckPacket)
        requires
            old(self).wf(),
        ensures
            final(self).wf(),
            match connack.properties.assigned_client_identifier {
                Some(assigned) => *final(self) == (DirectClientInner {
                    session: crate::session::state::SessionState {
                        client_id: assigned,
                        ..old(self).session
                    },
                    options: crate::client::direct::client::ConnectOptions {
                        client_id: assigned,
                        ..old(self).options
                    },
                    ..*old(self)
                }),
                None => *final(self) == *old(self),
            },
    {
        if let Some(assigned) = &connack.properties.assigned_client_identifier {
            self.session.client_id = assigned.clone();
            self.options.client_id = assigned.clone();
        }
    }

    /// Takes over the limits of the server and sets those of the client. A server that takes no
    /// message at all is refused.
    pub fn apply_negotiated_packet_sizes(&mut self, connack: &ConnAckPacket) -> (r: Result<u16>)
        requires
            old(self).wf(),
        ensures
            final(self).wf(),
            match connack.properties.receive_maximum {
                Some(0) => {
                    &&& r matches Err(MqttError::ProtocolError(text)) && text@
                        == "server advertised a Receive Maximum of 0"@
                    &&& *final(self) == *old(self)
                },
                _ => {
                    &&& r == Ok::<u16, MqttError>(announced_maximum(*connack))
                    &&& DirectClientInner::limits_set(*old(self), *final(self), *connack)
                },
            },
    {
        let receive_maximum: u16 = match connack.properties.receive_maximum {
            Some(maximum) => {
                if maximum == 0 {
                    return Err(
                        MqttError::ProtocolError(owned("server advertised a Receive Maximum of 0")),
                    );
                }
                maximum
            },
            None => DEFAULT_RECEIVE_MAXIMUM,
        };
        if let Some(maximum) = self.options.properties.receive_maximum {
            self.session.flow.set_inbound_receive_maximum(maximum);
        }
        if let Some(maximum) = self.options.properties.maximum_packet_size {
            self.session.client_maximum_packet_size = Some(maximum);
        }
        self.session.server_maximum_packet_size = connack.properties.maximum_packet_size;
        Ok(receive_maximum)
    }

    /// The limits of the server were taken over, and those of the client set.
    pub open spec fn limits_set(
        before: DirectClientInner,
        after: DirectClientInner,
        connack: ConnAckPacket,
    ) -> bool {
        &&& after.session.flow.same_outbound(&before.session.flow)
        &&& after.session.flow.received() == before.session.flow.received()
        &&& after.session.flow.inbound_maximum() == match before.options.properties.receive_maximum {
            Some(maximum) => maximum,
            None => before.session.flow.inbound_maximum(),
        }
        &&& after == (DirectClientInner {
            session: crate::session::state::SessionState {
                flow: after.session.flow,
                client_maximum_packet_size: match before.options.properties.maximum_packet_size {
                    Some(maximum) => Some(maximum),
                    None => before.session.client_maximum_packet_size,
                },
                server_maximum_packet_size: connack.properties.maximum_packet_size,
                ..before.session
            },
            ..before
        })
    }

    /// The client as the CONNACK makes it, but for the limits: the identifier, the keep-alive
    /// interval, and what the server takes of a message.
    pub open spec fn configured(self, connack: ConnAckPacket) -> DirectClientInner {
        let client_id = match connack.properties.assigned_client_identifier {
            Some(assigned) => Some(assigned),
            None => None,
        };
        DirectClientInner {
            session: crate::session::state::SessionState {
                client_id: match client_id {
                    Some(assigned) => assigned,
                    None => self.session.client_id,
                },
                ..self.session
            },
            options: crate::client::direct::client::ConnectOptions {
                client_id: match client_id {
                    Some(assigned) => assigned,
                    None => self.options.client_id,
                },
                ..self.options
            },
            policy: PublishPolicy {
                maximum_qos: connack.properties.maximum_qos,
                retain_available: crate::client::direct::outbound::available(
                    connack.properties.retain_available,
                ),
            },
            negotiated_keep_alive_secs: match connack.properties.server_keep_alive {
                Some(seconds) => seconds as u64,
                None => crate::client::direct::client::wire_keep_alive(
                    self.options.keep_alive,
                ) as u64,
            },
            ..self
        }
    }

    /// Takes over what the CONNACK says of the session, the client's identifier, the messages that
    /// the server takes and its limits. Gives the receive maximum.
    pub fn apply_server_capabilities(&mut self, connack: &ConnAckPacket) -> (r: Result<u16>)
        requires
            old(self).wf(),
        ensures
            final(self).wf(),
            exists|session: DirectClientInner|
                {
                    &&& DirectClientInner::session_after(*old(self), session, *connack)
                    &&& match connack.properties.receive_maximum {
                        Some(0) => {
                            &&& r matches Err(MqttError::ProtocolError(text)) && text@
                                == "server advertised a Receive Maximum of 0"@
                            &&& *final(self) == #[trigger] session.configured(*connack)
                        },
                        _ => {
                            &&& r == Ok::<u16, MqttError>(announced_maximum(*connack))
                            &&& DirectClientInner::limits_set(
                                session.configured(*connack),
                                *final(self),
                                *connack,
                            )
                        },
                    }
                },
    {
        if !connack.session_present {
            self.discard_session_state();
        }
        let ghost session = *self;
        self.adopt_assigned_client_identifier(connack);
        self.policy = PublishPolicy {
            maximum_qos: connack.properties.maximum_qos,
            retain_available: match connack.properties.retain_available {
                Some(value) => value != 0,
                None => true,
            },
        };
        self.apply_negotiated_keep_alive(connack.properties.server_keep_alive);
        assert(*self == session.configured(*connack));
        self.apply_negotiated_packet_sizes(connack)
    }

    /// Takes over which subscriptions and topic aliases the server takes.
    pub fn apply_negotiated_capabilities(&mut self, connack: &ConnAckPacket)
        requires
            old(self).wf(),
        ensures
            final(self).wf(),
            DirectClientInner::capabilities_set(*old(self), *final(self), *connack),
    {
        self.server_capabilities = ServerCapabilities::from_connack(connack);
        let maximum: u16 = match connack.properties.topic_alias_maximum {
            Some(maximum) => maximum,
            None => 0,
        };
        self.session.topic_alias_out = TopicAliasManager::new(maximum);
    }

    /// The capabilities of the server were taken over. No alias is in use.
    pub open spec fn capabilities_set(
        before: DirectClientInner,
        after: DirectClientInner,
        connack: ConnAckPacket,
    ) -> bool {
        &&& after.server_capabilities == (ServerCapabilities {
            wildcard_subscriptions: crate::client::direct::outbound::available(
                connack.properties.wildcard_subscription_available,
            ),
            shared_subscriptions: crate::client::direct::outbound::available(
                connack.properties.shared_subscription_available,
            ),
            subscription_identifiers: crate::client::direct::outbound::available(
                connack.properties.subscription_identifier_available,
            ),
        })
        &&& after.session.topic_alias_out.maximum() == (
        match connack.properties.topic_alias_maximum {
            Some(maximum) => maximum,
            None => 0,
        })
        &&& after.session.topic_alias_out.topics() == Map::<u64, String>::empty()
        &&& after.session.topic_alias_out.aliases() == Map::<Seq<char>, u16>::empty()
        &&& after.session.topic_alias_out.next() == 1
        &&& after == (DirectClientInner {
            server_capabilities: after.server_capabilities,
            session: crate::session::state::SessionState {
                topic_alias_out: after.session.topic_alias_out,
                ..before.session
            },
            ..before
        })
    }

    /// The quotas of a new connection: the messages whose release is outstanding are in flight, and
    /// the rest is for the session that is replayed, if anything is.
    pub open spec fn quota_reset(
        before: DirectClientInner,
        after: DirectClientInner,
        receive_maximum: u16,
        items: Seq<OutboundReplay>,
        slots: Option<u64>,
        now: u64,
    ) -> bool {
        let flow = after.session.flow;
        let replay = items.len() > 0 || before.queued_messages@.len() > 0;
        let next = before.session.flow.next_quota();
        let capacity = crate::session::flow_control::room(
            receive_maximum,
            flow.sent().dom().len(),
        );
        &&& flow.same_inbound(&before.session.flow)
        &&& flow.maximum() == receive_maximum
        &&& flow.sent() == crate::session::flow_control::sent_at(released_ids(items), now)
        &&& flow.sent_list() == crate::session::flow_control::listed_at(released_ids(items), now)
        &&& flow.debt() == crate::session::flow_control::debt_of(
            receive_maximum,
            flow.sent().dom().len(),
        )
        &&& !flow.main_quota().closed
        &&& flow.main_quota().number == next
        &&& flow.main_quota().permits == (if replay {
            0
        } else {
            capacity
        })
        &&& slots is Some <==> replay
        &&& flow.replay_quota() is Some <==> replay
        &&& flow.replay_quota() matches Some(q) ==> slots == Some(q.number) && q.permits == capacity
            && !q.closed && q.number == (next + 1) % 0x1_0000_0000_0000_0000
        &&& flow.next_quota() == (next + (if replay {
            2int
        } else {
            1int
        })) % 0x1_0000_0000_0000_0000
        &&& next < u64::MAX && before.session.flow.numbered() ==> forall|q: u64| #[trigger]
            before.session.flow.in_use(q) ==> !flow.in_use(q)
        &&& next < u64::MAX - 1 ==> FlowControlManager::numbers_go_on(before.session.flow, flow)
        &&& receive_maximum > 0 ==> flow.balance() == receive_maximum
        &&& after == (DirectClientInner {
            session: crate::session::state::SessionState { flow, ..before.session },
            ..before
        })
    }

    /// Begins the quotas of a new connection.
    pub fn reset_send_quota(
        &mut self,
        receive_maximum: u16,
        replay_items: &Vec<OutboundReplay>,
        now: u64,
    ) -> (r: Option<u64>)
        requires
            old(self).wf(),
        ensures
            final(self).wf(),
            DirectClientInner::quota_reset(
                *old(self),
                *final(self),
                receive_maximum,
                replay_items@,
                r,
                now,
            ),
    {
        let retained = retained_in_flight(replay_items);
        let replay = replay_items.len() > 0 || !self.queued_messages.is_empty();
        self.session.flow.reset_for_connection(
            receive_maximum,
            retained.as_slice(),
            replay,
            now,
        )
    }

    /// Goes on with the answer to CONNECT.
    pub fn connect(&mut self, connack: ConnAckPacket, now: u64) -> (r: ConnectStep)
        requires
            old(self).wf(),
        ensures
            final(self).wf(),
            if connack.reason_code == ReasonCode::UseAnotherServer || connack.reason_code
                == ReasonCode::ServerMoved {
                &&& r == ConnectStep::Fail(MqttError::ConnectionRefused(connack.reason_code))
                &&& *final(self) == (DirectClientInner {
                    server_redirect: connack.properties.server_reference,
                    ..*old(self)
                })
            } else if connack.reason_code != ReasonCode::Success {
                &&& r == ConnectStep::Fail(MqttError::ConnectionRefused(connack.reason_code))
                &&& *final(self) == *old(self)
            } else if connack.session_present && !old(self).knows_session() {
                &&& r matches ConnectStep::Reject {
                    disconnect,
                    error: MqttError::ProtocolError(text),
                } && disconnect.reason_code == ReasonCode::ProtocolError
                    && disconnect.properties.none() && text@
                    == "CONNACK Session Present=1 but the client holds no session state"@
                &&& *final(self) == *old(self)
            } else {
                exists|session: DirectClientInner|
                    {
                        &&& DirectClientInner::session_after(*old(self), session, connack)
                        &&& match connack.properties.receive_maximum {
                            Some(0) => {
                                &&& r matches ConnectStep::Fail(MqttError::ProtocolError(text))
                                    && text@ == "server advertised a Receive Maximum of 0"@
                                &&& *final(self) == #[trigger] session.configured(connack)
                            },
                            _ => {
                                &&& r matches ConnectStep::Open { items, slots, session_present }
                                    && session_present == connack.session_present
                                    && DirectClientInner::opened(
                                    session.configured(connack),
                                    *final(self),
                                    connack,
                                    items@,
                                    slots,
                                    now,
                                )
                            },
                        }
                    }
            },
    {
        if connack.reason_code == ReasonCode::UseAnotherServer || connack.reason_code
            == ReasonCode::ServerMoved {
            self.server_redirect = copy_text(&connack.properties.server_reference);
            return ConnectStep::Fail(MqttError::ConnectionRefused(connack.reason_code));
        }
        if connack.reason_code != ReasonCode::Success {
            return ConnectStep::Fail(MqttError::ConnectionRefused(connack.reason_code));
        }
        if connack.session_present && !self.holds_session_state() {
            return DirectClientInner::reject_unexpected_session_present();
        }
        let receive_maximum: u16 = match self.apply_server_capabilities(&connack) {
            Ok(maximum) => maximum,
            Err(e) => {
                return ConnectStep::Fail(e);
            },
        };
        let ghost limited = *self;
        let ghost session = choose|session: DirectClientInner|
            DirectClientInner::session_after(*old(self), session, connack)
                && DirectClientInner::limits_set(
                #[trigger] session.configured(connack),
                limited,
                connack,
            );
        self.apply_negotiated_capabilities(&connack);
        let ghost able = *self;
        let items = self.session.outbound_replay();
        let slots = self.reset_send_quota(receive_maximum, &items, now);
        assert(DirectClientInner::capabilities_set(limited, able, connack));
        assert(DirectClientInner::quota_reset(
            able,
            *self,
            announced_maximum(connack),
            items@,
            slots,
            now,
        ));
        assert(DirectClientInner::opened(
            session.configured(connack),
            *self,
            connack,
            items@,
            slots,
            now,
        ));
        ConnectStep::Open { items, slots, session_present: connack.session_present }
    }

    /// Everything that CONNACK says was taken over, and the quotas of the connection began. What
    /// has to be sent again is what the session remembers.
    pub open spec fn opened(
        before: DirectClientInner,
        after: DirectClientInner,
        connack: ConnAckPacket,
        items: Seq<OutboundReplay>,
        slots: Option<u64>,
        now: u64,
    ) -> bool {
        &&& items == crate::session::state::replay_of(before.session.outbound.listing())
        &&& exists|limited: DirectClientInner, able: DirectClientInner|
            DirectClientInner::limits_set(before, limited, connack) && #[trigger]
                DirectClientInner::capabilities_set(limited, able, connack) && #[trigger]
                DirectClientInner::quota_reset(
                able,
                after,
                announced_maximum(connack),
                items,
                slots,
                now,
            )
    }

    /// The server has a session of which the client knows nothing: the connection is closed.
    pub fn reject_unexpected_session_present() -> (r: ConnectStep)
        ensures
            r matches ConnectStep::Reject { disconnect, error: MqttError::ProtocolError(text) }
                && disconnect.reason_code == ReasonCode::ProtocolError
                && disconnect.properties.none() && text@
                == "CONNACK Session Present=1 but the client holds no session state"@,
    {
        ConnectStep::Reject {
            disconnect: ReasonPacket {
                reason_code: ReasonCode::ProtocolError,
                properties: Properties::default(),
            },
            error: MqttError::ProtocolError(
                owned("CONNACK Session Present=1 but the client holds no session state"),
            ),
        }
    }

    /// The connection is open. Gives its number.
    pub fn open_connection(&mut self) -> (r: u64)
        requires
            old(self).wf(),
        ensures
            final(self).wf(),
            r == (old(self).connection_epoch + 1) % 0x1_0000_0000_0000_0000,
            *final(self) == (DirectClientInner {
                connection_epoch: r,
                connected: true,
                ..*old(self)
            }),
    {
        let epoch: u64 = self.advance_connection_epoch();
        self.set_connected(true);
        epoch
    }

    /// What runs while there is a connection: the reader always, the sign of life if there is an
    /// interval for it, and the tasks for streams on a QUIC connection.
    pub fn start_background_tasks(&self, has_writer: bool, quic: bool) -> (r: Result<
        BackgroundTasks,
    >)
        ensures
            if !has_writer {
                r matches Err(e) && e == MqttError::NotConnected
            } else {
                r == Ok::<_, MqttError>(
                    BackgroundTasks {
                        packet_reader: true,
                        keepalive: if self.negotiated_keep_alive_secs == 0 {
                            None
                        } else {
                            Some(self.negotiated_keep_alive_secs)
                        },
                        stream_acceptor: quic,
                        flow_expiration: quic,
                        maximum_packet_size: match self.options.properties.maximum_packet_size {
                            Some(size) => size as usize,
                            None => usize::MAX,
                        },
                        topic_alias_maximum: match self.options.properties.topic_alias_maximum {
                            Some(maximum) => maximum,
                            None => 0,
                        },
                        request_problem_information:
                            self.options.properties.request_problem_information != Some(false),
                    },
                )
            },
    {
        if !has_writer {
            return Err(MqttError::NotConnected);
        }
        Ok(
            BackgroundTasks {
                packet_reader: true,
                keepalive: if self.negotiated_keep_alive_secs == 0 {
                    None
                } else {
                    Some(self.negotiated_keep_alive_secs)
                },
                stream_acceptor: quic,
                flow_expiration: quic,
                maximum_packet_size: match self.options.properties.maximum_packet_size {
                    Some(size) => size as usize,
                    None => usize::MAX,
                },
                topic_alias_maximum: match self.options.properties.topic_alias_maximum {
                    Some(maximum) => maximum,
                    None => 0,
                },
                request_problem_information: match self.options.properties.request_problem_information {
                    Some(asked) => asked,
                    None => true,
                },
            },
        )
    }

    /// Ends the connection. The result says whether DISCONNECT is sent first; without a connection
    /// it is an error. Whoever waits for a permit fails.
    pub fn disconnect_with_packet(&mut self, send_disconnect: bool) -> (r: Result<
        Option<ReasonPacket>,
    >)
        requires
            old(self).wf(),
        ensures
            final(self).wf(),
            if !old(self).connected {
                r matches Err(e) && e == MqttError::NotConnected
            } else {
                match r {
                    Ok(Some(packet)) => send_disconnect && packet.reason_code
                        == ReasonCode::Success && packet.properties.none(),
                    Ok(None) => !send_disconnect,
                    Err(_) => false,
                }
            },
            DirectClientInner::quota_closed(*old(self), *final(self)),
    {
        let was_connected = self.connected;
        self.reset_connection_runtime();
        self.session.flow.close_send_quota();
        if !was_connected {
            return Err(MqttError::NotConnected);
        }
        if send_disconnect {
            Ok(
                Some(
                    ReasonPacket {
                        reason_code: ReasonCode::Success,
                        properties: Properties::default(),
                    },
                ),
            )
        } else {
            Ok(None)
        }
    }

    /// Ends the connection with DISCONNECT.
    pub fn disconnect(&mut self) -> (r: Result<Option<ReasonPacket>>)
        requires
            old(self).wf(),
        ensures
            final(self).wf(),
            old(self).connected ==> (r matches Ok(Some(packet)) && packet.reason_code
                == ReasonCode::Success && packet.properties.none()),
            !old(self).connected ==> (r matches Err(e) && e == MqttError::NotConnected),
            DirectClientInner::quota_closed(*old(self), *final(self)),
    {
        self.disconnect_with_packet(true)
    }

    /// There is no connection, and no permit can be taken.
    pub open spec fn quota_closed(before: DirectClientInner, after: DirectClientInner) -> bool {
        let flow = after.session.flow;
        &&& flow.main_quota() == (crate::session::flow_control::Quota {
            closed: true,
            ..before.session.flow.main_quota()
        })
        &&& flow.replay_quota() is None
        &&& flow.sent() == before.session.flow.sent()
        &&& flow.sent_list() == before.session.flow.sent_list()
        &&& flow.debt() == before.session.flow.debt()
        &&& flow.maximum() == before.session.flow.maximum()
        &&& flow.next_quota() == before.session.flow.next_quota()
        &&& flow.same_inbound(&before.session.flow)
        &&& after == (DirectClientInner {
            connected: false,
            session: crate::session::state::SessionState { flow, ..before.session },
            ..before
        })
    }

    /// Checks that a flow can be discarded: there is a connection, and it is a QUIC connection.
    pub fn discard_flow(&self, quic: bool) -> (r: Result<()>)
        ensures
            r is Ok <==> self.connected && quic,
            !self.connected ==> (r matches Err(e) && e == MqttError::NotConnected),
            self.connected && !quic ==> (r matches Err(MqttError::ConnectionError(text)) && text@
                == "discard_flow only supported for QUIC connections"@),
    {
        if !self.connected {
            return Err(MqttError::NotConnected);
        }
        if !quic {
            return Err(
                MqttError::ConnectionError(
                    owned("discard_flow only supported for QUIC connections"),
                ),
            );
        }
        Ok(())
    }

    /// Checks that the connection can move to another address: there is one, and it is a QUIC
    /// connection.
    pub fn migrate(&self, quic: bool) -> (r: Result<()>)
        ensures
            r is Ok <==> self.connected && quic,
            !self.connected ==> (r matches Err(e) && e == MqttError::NotConnected),
            self.connected && !quic ==> (r matches Err(MqttError::ConnectionError(text)) && text@
                == "migration only supported for QUIC connections"@),
    {
        if !self.connected {
            return Err(MqttError::NotConnected);
        }
        if !quic {
            return Err(
                MqttError::ConnectionError(owned("migration only supported for QUIC connections")),
            );
        }
        Ok(())
    }
}

/// The flows that are opened once more, none of them as a clean one. Without a QUIC connection
/// there are none.
pub fn recover_flows(flows: &Vec<(FlowId, FlowFlags)>, quic: bool) -> (r: Vec<(FlowId, FlowFlags)>)
    ensures
        r@ == (if quic {
            flows@.map_values(
                |f: (FlowId, FlowFlags)| (f.0, FlowFlags { clean: 0, ..f.1 }),
            )
        } else {
            Seq::empty()
        }),
{
    let mut out: Vec<(FlowId, FlowFlags)> = Vec::new();
    if !quic {
        return out;
    }
    let mut i: usize = 0;
    while i < flows.len()
        invariant
            i <= flows@.len(),
            out@.len() == i,
            forall|j: int|
                0 <= j < i ==> #[trigger] out@[j] == (
                    flows@[j].0,
                    FlowFlags { clean: 0, ..flows@[j].1 },
                ),
        decreases flows@.len() - i,
    {
        let (id, flags) = flows[i];
        out.push((id, FlowFlags { clean: 0, ..flags }));
        i = i + 1;
    }
    assert(out@ =~= flows@.map_values(
        |f: (FlowId, FlowFlags)| (f.0, FlowFlags { clean: 0, ..f.1 }),
    ));
    out
}

/// A new connection has quotas of its own: whatever permit was taken on an earlier one is void, so
/// that the receive maximum of the server bounds what is in flight on the new one.
pub proof fn law_permits_of_earlier_connections_are_void(
    before: DirectClientInner,
    after: DirectClientInner,
    connack: ConnAckPacket,
    items: Seq<OutboundReplay>,
    slots: Option<u64>,
    now: u64,
    quota: u64,
)
    requires
        before.session.flow.next_quota() < u64::MAX - 1,
        quota < before.session.flow.next_quota(),
        DirectClientInner::opened(before, after, connack, items, slots, now),
    ensures
        !after.session.flow.in_use(quota),
        after.session.flow.permit_of(quota) is Closed,
        FlowControlManager::numbers_go_on(before.session.flow, after.session.flow),
        announced_maximum(connack) > 0 ==> after.session.flow.sent().dom().len()
            <= announced_maximum(connack) + after.session.flow.debt(),
{
    let (limited, able) = choose|limited: DirectClientInner, able: DirectClientInner|
        DirectClientInner::limits_set(before, limited, connack) && #[trigger]
            DirectClientInner::capabilities_set(limited, able, connack) && #[trigger]
            DirectClientInner::quota_reset(
            able,
            after,
            announced_maximum(connack),
            items,
            slots,
            now,
        );
    assert(able.session.flow.same_outbound(&before.session.flow));
    assert forall|q: u64|
        q < before.session.flow.next_quota() && #[trigger] after.session.flow.in_use(
            q,
        ) implies before.session.flow.in_use(q) by {
        assert(able.session.flow.in_use(q) == before.session.flow.in_use(q));
    }
    let flow = after.session.flow;
    assert(flow.main_quota().number == before.session.flow.next_quota());
    assert(!flow.in_use(quota));
}

/// The message that was sent last is sent again last, after everything that the session remembered
/// before, in its order.
pub proof fn law_last_message_is_sent_again_last(
    before: DirectClientInner,
    between: DirectClientInner,
    after: DirectClientInner,
    ready: crate::client::direct::publish::ReadyPublish,
    handle: crate::client::publish_outcome::PublishHandle,
    connack: ConnAckPacket,
    items: Seq<OutboundReplay>,
    slots: Option<u64>,
    now: u64,
)
    requires
        before.wf(),
        DirectClientInner::committed(before, between, ready, handle),
        !before.session.outbound@.contains_key(ready.packet.packet_id->0 as u64),
        DirectClientInner::opened(between, after, connack, items, slots, now),
    ensures
        items.len() > 0,
        items.drop_last() == crate::session::state::replay_of(before.session.outbound.listing()),
        items.last() matches OutboundReplay::Publish(publish) && before.resolved(
            ready.packet,
            Ok(publish),
        ),
{
    let id = ready.packet.packet_id->0;
    let list = before.session.outbound.listing();
    crate::id_map::lemma_as_map(list);
    crate::session::state::law_messages_are_sent_again_in_order(
        list,
        id,
        between.session.outbound@[id as u64],
    );
}

/// What the server announces is in force on the connection: the quality of service and the retained
/// messages that it takes, the keep-alive interval, which is the client's own where it names none, and
/// the identifier that it assigns.
pub proof fn law_announcements_are_in_force(client: DirectClientInner, connack: ConnAckPacket)
    ensures
        ({
            let after = client.configured(connack);
            &&& after.policy.maximum_qos == connack.properties.maximum_qos
            &&& after.policy.retain_available <==> connack.properties.retain_available is None
                || connack.properties.retain_available->0 > 0
            &&& connack.properties.server_keep_alive matches Some(seconds)
                ==> after.negotiated_keep_alive_secs == seconds
            &&& connack.properties.server_keep_alive is None && client.options.keep_alive <= 65535
                ==> after.negotiated_keep_alive_secs == client.options.keep_alive
            &&& connack.properties.assigned_client_identifier matches Some(id)
                ==> after.session.client_id == id && after.options.client_id == id
            &&& connack.properties.assigned_client_identifier is None
                ==> after.session.client_id == client.session.client_id
            &&& after.session.outbound == client.session.outbound
            &&& after.queued_messages == client.queued_messages
        }),
        announced_maximum(connack) == (match connack.properties.receive_maximum {
            Some(maximum) => maximum,
            None => 65535,
        }),
{
}

/// The limits of the server on the size of packets are in force, and those of the client where it has
/// set any.
pub proof fn law_limits_are_in_force(
    before: DirectClientInner,
    after: DirectClientInner,
    connack: ConnAckPacket,
)
    requires
        DirectClientInner::limits_set(before, after, connack),
    ensures
        after.session.server_maximum_packet_size == connack.properties.maximum_packet_size,
        before.options.properties.maximum_packet_size is Some
            ==> after.session.client_maximum_packet_size
            == before.options.properties.maximum_packet_size,
        before.options.properties.receive_maximum matches Some(maximum)
            ==> after.session.flow.inbound_maximum() == maximum,
{
}

/// A capability that the server denies is not used, and any other is; the aliases of an earlier
/// connection are gone, and no more can be used than the server takes.
pub proof fn law_capabilities_are_in_force(
    before: DirectClientInner,
    after: DirectClientInner,
    connack: ConnAckPacket,
    alias: u16,
)
    requires
        DirectClientInner::capabilities_set(before, after, connack),
    ensures
        after.server_capabilities.wildcard_subscriptions
            <==> connack.properties.wildcard_subscription_available != Some(0u8),
        after.server_capabilities.shared_subscriptions
            <==> connack.properties.shared_subscription_available != Some(0u8),
        after.server_capabilities.subscription_identifiers
            <==> connack.properties.subscription_identifier_available != Some(0u8),
        !after.session.topic_alias_out.topics().contains_key(alias as u64),
        connack.properties.topic_alias_maximum is None ==> after.session.topic_alias_out.maximum()
            == 0,
        connack.properties.topic_alias_maximum matches Some(maximum)
            ==> after.session.topic_alias_out.maximum() == maximum,
{
}

/// The messages whose release is outstanding are in flight from the start of a connection, in order;
/// those that are sent again are not yet.
pub proof fn law_outstanding_releases_are_in_flight(
    items: Seq<OutboundReplay>,
    item: OutboundReplay,
    id: u16,
)
    ensures
        item is Publish ==> released_ids(items.push(item)) == released_ids(items),
        released_ids(items.push(OutboundReplay::PubRel(id))) == released_ids(items).push(id),
        released_ids(Seq::<OutboundReplay>::empty()) == Seq::<u16>::empty(),
{
    assert(items.push(item).drop_last() =~= items);
    assert(items.push(OutboundReplay::PubRel(id)).drop_last() =~= items);
}

/// A client that begins anew knows of no session, and neither does one that was never connected, unless
/// it was told of one; any other does.
pub proof fn law_session_that_a_client_knows_of(client: DirectClientInner)
    ensures
        client.options.clean_start ==> !client.knows_session(),
        !client.options.clean_start && client.connection_epoch > 0 ==> client.knows_session(),
        !client.options.clean_start && client.connection_epoch == 0 ==> (client.knows_session()
            <==> client.options.resume_existing_session),
{
}

/// When the server has no session, nothing of it is left: no exchange in either direction goes on, and
/// no acknowledgement of an earlier message is accepted; the numbers of publishes go on.
pub proof fn law_lost_session_is_forgotten(before: DirectClientInner, after: DirectClientInner)
    requires
        DirectClientInner::session_discarded(before, after),
    ensures
        after.session.outbound@ == Map::<u64, Option<crate::types::PublishPacket>>::empty(),
        after.session.pubrecs@ == Set::<u16>::empty(),
        after.session.delivered@ == Set::<u16>::empty(),
        after.session.acked@ == Set::<u16>::empty(),
        after.session.flow.received() == Map::<u64, u64>::empty(),
        after.publish_outcomes@ == Map::<u64, crate::client::direct::tracking::Awaited>::empty(),
        after.ledger.upcoming() == before.ledger.upcoming(),
        after.session.subscriptions == before.session.subscriptions,
{
}

/// An AUTH packet asks for an answer only where the client has named an authentication method and has a
/// handler; one that reports success is waited after, and any other fails.
pub proof fn law_authentication_goes_on(
    client: DirectClientInner,
    auth: ReasonPacket,
    has_handler: bool,
    r: Result<HandshakeStep>,
)
    requires
        client.auth_step(auth, has_handler, r),
    ensures
        auth.reason_code.byte() == 0x00 <==> r matches Ok(HandshakeStep::Wait),
        auth.reason_code.byte() == 0x18 && client.options.properties.authentication_method is Some
            && has_handler <==> r matches Ok(HandshakeStep::Challenge { .. }),
        r matches Ok(HandshakeStep::Challenge { data, .. }) ==> data
            == auth.properties.authentication_data,
{
}

/// CONNECT carries what the options ask for: the intervals and limits as they are, a yes as one and a no
/// as zero, and nothing where nothing is asked for.
pub proof fn law_connect_carries_what_was_asked_for(
    client: DirectClientInner,
    p: Properties,
    auth_data: Option<Seq<u8>>,
)
    requires
        client.connect_properties(p, auth_data),
    ensures
        ({
            let asked = client.options.properties;
            &&& p.session_expiry_interval == asked.session_expiry_interval
            &&& p.receive_maximum == asked.receive_maximum
            &&& p.maximum_packet_size == asked.maximum_packet_size
            &&& p.topic_alias_maximum == asked.topic_alias_maximum
            &&& p.user_properties == asked.user_properties
            &&& p.authentication_method == asked.authentication_method
            &&& asked.request_problem_information is None <==> p.request_problem_information is None
            &&& asked.request_problem_information matches Some(yes)
                ==> p.request_problem_information == Some(
                if yes {
                    1u8
                } else {
                    0u8
                },
            )
            &&& asked.request_response_information is None <==> p.request_response_information
                is None
            &&& asked.request_response_information matches Some(yes)
                ==> p.request_response_information == Some(
                if yes {
                    1u8
                } else {
                    0u8
                },
            )
            &&& p.authentication_data is Some <==> auth_data is Some
            &&& auth_data matches Some(data) ==> p.authentication_data->0@ == data
            &&& p.message_expiry_interval is None
            &&& p.assigned_client_identifier is None
            &&& p.server_keep_alive is None
            &&& p.maximum_qos is None
        }),
{
}

/// Authentication data goes only with a method: that of the handler where it gives any, and otherwise
/// that of the options, unless the handler has none to give.
pub proof fn law_initial_authentication_data(
    method: String,
    configured: Bytes,
    data: Vec<u8>,
    e: MqttError,
)
    ensures
        initial_auth_data(None, Some(configured), Some(Ok(Some(data)))) is None,
        initial_auth_data(None, Some(configured), None) is None,
        initial_auth_data(Some(method), Some(configured), Some(Ok(Some(data)))) == Some(data@),
        initial_auth_data(Some(method), None, Some(Ok(Some(data)))) == Some(data@),
        initial_auth_data(Some(method), Some(configured), Some(Ok(None))) is None,
        initial_auth_data(Some(method), Some(configured), Some(Err(e))) == Some(configured@),
        initial_auth_data(Some(method), Some(configured), None) == Some(configured@),
        initial_auth_data(Some(method), None, None) is None,
{
}

/// An AUTH packet of the client names its own method and carries the data that are given, and nothing
/// else.
pub proof fn law_answer_names_the_method(
    client: DirectClientInner,
    packet: ReasonPacket,
    reason_code: ReasonCode,
    data: Seq<u8>,
)
    requires
        client.auth_packet(packet, reason_code, Some(data)),
    ensures
        packet.reason_code == reason_code,
        packet.properties.authentication_method == client.options.properties.authentication_method,
        packet.properties.authentication_data is Some,
        packet.properties.authentication_data->0@ == data,
        packet.properties.reason_string is None,
{
}

/// A session that the server has goes on; one that it does not have leaves no exchange behind.
pub proof fn law_session_goes_on_where_the_server_has_it(
    before: DirectClientInner,
    after: DirectClientInner,
    connack: ConnAckPacket,
)
    requires
        DirectClientInner::session_after(before, after, connack),
    ensures
        connack.session_present ==> after.session.outbound == before.session.outbound
            && after.session.pubrecs == before.session.pubrecs && after.publish_outcomes
            == before.publish_outcomes,
        !connack.session_present ==> after.session.outbound@.dom() == Set::<u64>::empty()
            && after.session.pubrecs@ == Set::<u16>::empty() && after.session.flow.received()
            == Map::<u64, u64>::empty(),
        after.session.subscriptions == before.session.subscriptions,
{
}

/// Without a connection there is no permit to be had; what is in flight stays so.
pub proof fn law_no_permit_without_a_connection(
    before: DirectClientInner,
    after: DirectClientInner,
    quota: u64,
)
    requires
        DirectClientInner::quota_closed(before, after),
    ensures
        !after.connected,
        !(after.session.flow.permit_of(quota) is Taken),
        after.session.flow.sent() == before.session.flow.sent(),
        after.session.outbound == before.session.outbound,
        after.queued_messages == before.queued_messages,
{
}

/// A new connection begins with as many permits as the server takes messages, less those whose release
/// is outstanding; while there is something to send again these come first, and new messages wait.
pub proof fn law_new_connection_begins_with_its_quota(
    before: DirectClientInner,
    after: DirectClientInner,
    receive_maximum: u16,
    items: Seq<OutboundReplay>,
    slots: Option<u64>,
    now: u64,
)
    requires
        DirectClientInner::quota_reset(before, after, receive_maximum, items, slots, now),
        receive_maximum > 0,
    ensures
        ({
            let flow = after.session.flow;
            let held = flow.sent().dom().len();
            let free: int = if held < receive_maximum {
                receive_maximum - held
            } else {
                0
            };
            let nothing = items.len() == 0 && before.queued_messages@.len() == 0;
            &&& flow.maximum() == receive_maximum
            &&& !flow.main_quota().closed
            &&& nothing ==> flow.main_quota().permits == free && slots is None
            &&& !nothing ==> flow.main_quota().permits == 0 && slots is Some
                && flow.replay_quota() is Some && flow.replay_quota()->0.permits == free
                && flow.replay_quota()->0.number == slots->0
            &&& items.len() == 0 ==> flow.sent() == Map::<u64, u64>::empty()
            &&& after.session.outbound == before.session.outbound
        }),
{
}

/// An authentication that cannot go on fails: one that the server refuses, and one that no handler can
/// answer, as failed, and one that was never asked for as a protocol error.
pub proof fn law_authentication_that_cannot_go_on(
    client: DirectClientInner,
    auth: ReasonPacket,
    has_handler: bool,
    r: Result<HandshakeStep>,
)
    requires
        client.auth_step(auth, has_handler, r),
        auth.reason_code.byte() != 0x00,
    ensures
        auth.reason_code.byte() != 0x18 ==> r == Err::<HandshakeStep, MqttError>(
            MqttError::AuthenticationFailed,
        ),
        auth.reason_code.byte() == 0x18 && client.options.properties.authentication_method is None
            ==> r is Err && r->Err_0 is ProtocolError,
        auth.reason_code.byte() == 0x18 && client.options.properties.authentication_method is Some
            && !has_handler ==> r == Err::<HandshakeStep, MqttError>(
            MqttError::AuthenticationFailed,
        ),
{
}

/// What the server says in its CONNACK holds from the start of the connection, and what has to be sent
/// again is what the session remembers.
pub proof fn law_connection_opens_as_the_server_says(
    before: DirectClientInner,
    after: DirectClientInner,
    connack: ConnAckPacket,
    items: Seq<OutboundReplay>,
    slots: Option<u64>,
    now: u64,
)
    requires
        DirectClientInner::opened(before, after, connack, items, slots, now),
    ensures
        after.session.server_maximum_packet_size == connack.properties.maximum_packet_size,
        connack.properties.receive_maximum is None ==> after.session.flow.maximum() == 65535,
        connack.properties.receive_maximum matches Some(maximum) ==> after.session.flow.maximum()
            == maximum,
        after.server_capabilities.wildcard_subscriptions
            <==> connack.properties.wildcard_subscription_available != Some(0u8),
        connack.properties.topic_alias_maximum is None ==> after.session.topic_alias_out.maximum()
            == 0,
        connack.properties.topic_alias_maximum matches Some(maximum)
            ==> after.session.topic_alias_out.maximum() == maximum,
        items.len() == before.session.outbound.listing().len(),
        after.session.outbound == before.session.outbound,
        after.queued_messages == before.queued_messages,
{
}

} // verus!
