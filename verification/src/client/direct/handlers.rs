//! What the client does with the packets of the server.
//!
//! Each function takes a packet and says what is to be written or handed to the application. Where
//! something is written first, a second function takes the outcome of that.

use crate::client::direct::ack::{AckCallbackManager, AckKind, AckRequest, AckToken};
use crate::client::direct::client::DirectClientInner;
use crate::error::{MqttError, ReasonCode, Result};
use crate::packets::{AckPacket, Packet};
use crate::session::quic_flow::FlowId;
use crate::session::state::{AckResolution, SessionState};
use crate::session::topic_alias::TopicAliasManager;
use crate::text::{is_empty_text, owned};
use crate::types::{PublishPacket, QoS};
use vstd::prelude::*;

verus! {

/// Whether a QoS 2 message came for the first time.
#[derive(Debug, Clone, Copy, PartialEq, Eq, Structural)]
pub enum Qos2Receipt {
    First,
    Duplicate,
}

/// A message of the server has its topic: an alias without a topic stands for the topic that it was
/// given to last, and an alias with a topic is given to that topic. Zero, an alias above the
/// maximum and one that stands for no topic are refused.
pub open spec fn topic_resolved(
    before: TopicAliasManager,
    after: TopicAliasManager,
    publish: PublishPacket,
    r: Result<PublishPacket>,
) -> bool {
    match publish.properties.topic_alias {
        None => r == Ok::<PublishPacket, MqttError>(publish) && after == before,
        Some(alias) => if publish.topic_name@.len() == 0 {
            &&& after == before
            &&& match r {
                Ok(p) => {
                    &&& before.topics().contains_key(alias as u64)
                    &&& p.topic_name@ == before.topics()[alias as u64]@
                    &&& p == (PublishPacket { topic_name: p.topic_name, ..publish })
                },
                Err(e) => {
                    &&& !before.topics().contains_key(alias as u64)
                    &&& e == MqttError::TopicAliasInvalid(alias)
                },
            }
        } else if 0 < alias <= before.maximum() {
            &&& r == Ok::<PublishPacket, MqttError>(publish)
            &&& after.maximum() == before.maximum()
            &&& after.next() == before.next()
            &&& after.topics().contains_key(alias as u64)
            &&& after.topics()[alias as u64]@ == publish.topic_name@
            &&& after.topics() == before.topics().insert(
                alias as u64,
                after.topics()[alias as u64],
            )
            &&& after.aliases() == TopicAliasManager::realiased(
                before.topics(),
                before.aliases(),
                alias,
                publish.topic_name@,
            )
        } else {
            &&& r == Err::<PublishPacket, MqttError>(MqttError::TopicAliasInvalid(alias))
            &&& after == before
        },
    }
}

/// Gives a message of the server its topic, by the aliases that the server gave out.
pub fn with_incoming_topic(
    aliases: &mut TopicAliasManager,
    publish: PublishPacket,
) -> (r: Result<PublishPacket>)
    requires
        old(aliases).wf(),
    ensures
        final(aliases).wf(),
        topic_resolved(*old(aliases), *final(aliases), publish, r),
{
    let alias: u16 = match publish.properties.topic_alias {
        Some(alias) => alias,
        None => {
            return Ok(publish);
        },
    };
    if is_empty_text(publish.topic_name.as_str()) {
        let mut packet = publish;
        return match aliases.get_topic(alias) {
            Some(topic) => {
                packet.topic_name = owned(topic);
                Ok(packet)
            },
            None => Err(MqttError::TopicAliasInvalid(alias)),
        };
    }
    match aliases.register_alias(alias, publish.topic_name.as_str()) {
        Ok(_) => Ok(publish),
        Err(e) => Err(e),
    }
}

/// A message without a topic gets the topic that its alias came with.
pub proof fn law_alias_stands_for_its_topic(
    before: TopicAliasManager,
    between: TopicAliasManager,
    after: TopicAliasManager,
    first: PublishPacket,
    taken: Result<PublishPacket>,
    second: PublishPacket,
    r: Result<PublishPacket>,
)
    requires
        topic_resolved(before, between, first, taken),
        topic_resolved(between, after, second, r),
        taken is Ok,
        first.topic_name@.len() > 0,
        first.properties.topic_alias is Some,
        second.topic_name@.len() == 0,
        second.properties.topic_alias == first.properties.topic_alias,
    ensures
        r matches Ok(p) && p.topic_name@ == first.topic_name@,
{
}

/// What is done with a message of the server.
#[derive(Debug)]
pub enum PublishStep {
    /// It is handed to the callbacks.
    Dispatch(PublishPacket),
    /// An acknowledgement is written, then `finish_publish` is asked. The receipt is there for a
    /// QoS 2 message.
    Acknowledge { ack: Packet, publish: PublishPacket, receipt: Option<Qos2Receipt> },
    /// It is handed to the one callback that acknowledges it.
    Deferred { publish: PublishPacket, callback: u64, token: AckToken },
    /// The acknowledgement that was given before is sent once more, in its turn.
    Resend(AckRequest),
    /// Nothing.
    Ignore,
}

/// What is done with a packet of the server.
#[derive(Debug)]
pub enum IncomingStep {
    Publish(PublishStep),
    /// A sign of life came.
    Pong,
    /// PUBREL is written, then `finish_pubrec` is asked.
    Release(AckPacket),
    /// PUBCOMP is written, then `finish_pubrel` is asked.
    Complete(AckPacket),
    /// Nothing.
    Done,
}

/// Whether a message of the server is one too many.
pub open spec fn window_full(session: SessionState, packet_id: u16) -> bool {
    let limit = session.flow.inbound_maximum();
    &&& limit != 0
    &&& !session.flow.received().contains_key(packet_id as u64)
    &&& session.flow.received().dom().len() >= limit
}

/// A message of the server has its place in the receive window, and its flow is remembered.
pub open spec fn taken_in(
    before: SessionState,
    after: SessionState,
    packet_id: u16,
    flow_id: Option<FlowId>,
    now: u64,
) -> bool {
    &&& after.flow.same_outbound(&before.flow)
    &&& after.flow.inbound_maximum() == before.flow.inbound_maximum()
    &&& after.flow.received() == (if before.flow.inbound_maximum() == 0
        || before.flow.received().contains_key(packet_id as u64) {
        before.flow.received()
    } else {
        before.flow.received().insert(packet_id as u64, now)
    })
    &&& after.publish_flows@ == (match flow_id {
        Some(flow) => before.publish_flows@.insert(packet_id as u64, flow.0),
        None => before.publish_flows@,
    })
    &&& after == (SessionState {
        flow: after.flow,
        publish_flows: after.publish_flows,
        ..before
    })
}

/// A message with the flow on which it came.
pub open spec fn on_flow(publish: PublishPacket, flow_id: Option<FlowId>) -> PublishPacket {
    PublishPacket {
        stream_id: match flow_id {
            Some(flow) => Some(flow.0),
            None => None,
        },
        ..publish
    }
}

fn with_flow(publish: PublishPacket, flow_id: Option<FlowId>) -> (r: PublishPacket)
    ensures
        r == on_flow(publish, flow_id),
{
    let mut packet = publish;
    packet.stream_id = match flow_id {
        Some(flow) => Some(flow.0),
        None => None,
    };
    packet
}

/// The callback that acknowledges the messages of a topic.
pub open spec fn owner_of(callbacks: Option<&AckCallbackManager>, topic: Seq<char>) -> Option<u64> {
    match callbacks {
        Some(manager) => if manager.by_topic().contains_key(topic) {
            Some(manager.by_topic()[topic].callback)
        } else {
            crate::client::direct::ack::first_match(manager.by_filter(), topic)
        },
        None => None,
    }
}

impl DirectClientInner {
    /// A message with its payload decoded, if there is a codec for its content type.
    pub open spec fn decoded(&self, publish: PublishPacket, r: Result<PublishPacket>) -> bool {
        match self.options.codec_registry {
            None => r == Ok::<PublishPacket, MqttError>(publish),
            Some(registry) => {
                let bytes = match publish.properties.content_type {
                    Some(t) if registry.known().contains_key(t@) => registry.known()[t@].codec.decoded(
                        publish.payload@,
                    ),
                    _ => Some(publish.payload@),
                };
                match bytes {
                    Some(payload) => r matches Ok(p) && p.payload@ == payload && p == (
                    PublishPacket { payload: p.payload, ..publish }),
                    None => r matches Err(e)
                        && registry.known()[publish.properties.content_type->0@].codec.decode_fails(
                        publish.payload@,
                        e,
                    ),
                }
            },
        }
    }

    /// Decodes the payload of a message.
    pub fn decode_publish(&self, publish: PublishPacket) -> (r: Result<PublishPacket>)
        requires
            self.wf(),
        ensures
            self.decoded(publish, r),
    {
        match &self.options.codec_registry {
            None => Ok(publish),
            Some(registry) => {
                let content_type = match &publish.properties.content_type {
                    Some(t) => Some(t.as_str()),
                    None => None,
                };
                let payload = match registry.decode_if_needed(
                    publish.payload.as_slice(),
                    content_type,
                ) {
                    Ok(payload) => payload,
                    Err(e) => {
                        return Err(e);
                    },
                };
                let mut packet = publish;
                packet.payload = payload;
                Ok(packet)
            },
        }
    }

    fn take_in(&mut self, packet_id: u16, flow_id: Option<FlowId>, now: u64) -> (r: Result<()>)
        requires
            old(self).wf(),
        ensures
            final(self).wf(),
            match r {
                Ok(()) => {
                    &&& !window_full(old(self).session, packet_id)
                    &&& taken_in(
                        old(self).session,
                        final(self).session,
                        packet_id,
                        flow_id,
                        now,
                    )
                    &&& *final(self) == (DirectClientInner {
                        session: final(self).session,
                        ..*old(self)
                    })
                },
                Err(e) => {
                    &&& window_full(old(self).session, packet_id)
                    &&& e == MqttError::ReceiveMaximumExceeded
                    &&& *final(self) == *old(self)
                },
            },
    {
        match self.session.flow.register_inbound_publish(packet_id, now) {
            Ok(()) => {},
            Err(e) => {
                return Err(e);
            },
        }
        if let Some(flow) = flow_id {
            self.session.store_publish_flow(packet_id, flow.0);
        }
        Ok(())
    }

    /// Takes a QoS 1 message in and gives the PUBACK for it.
    pub fn ack_qos1_inbound(&mut self, packet_id: u16, flow_id: Option<FlowId>, now: u64) -> (r:
        Result<AckPacket>)
        requires
            old(self).wf(),
        ensures
            final(self).wf(),
            match r {
                Ok(ack) => {
                    &&& !window_full(old(self).session, packet_id)
                    &&& ack.plain(packet_id, ReasonCode::Success)
                    &&& taken_in(
                        old(self).session,
                        final(self).session,
                        packet_id,
                        flow_id,
                        now,
                    )
                    &&& *final(self) == (DirectClientInner {
                        session: final(self).session,
                        ..*old(self)
                    })
                },
                Err(e) => {
                    &&& window_full(old(self).session, packet_id)
                    &&& e == MqttError::ReceiveMaximumExceeded
                    &&& *final(self) == *old(self)
                },
            },
    {
        match self.take_in(packet_id, flow_id, now) {
            Ok(()) => Ok(AckPacket::new(packet_id, ReasonCode::Success)),
            Err(e) => Err(e),
        }
    }

    /// A QoS 2 message was taken in; its receipt is being confirmed.
    pub open spec fn receipt_pending(
        before: DirectClientInner,
        after: DirectClientInner,
        packet_id: u16,
        flow_id: Option<FlowId>,
        now: u64,
    ) -> bool {
        &&& after.session.pubrecs@ == before.session.pubrecs@.insert(packet_id)
        &&& taken_in(
            before.session,
            SessionState { pubrecs: before.session.pubrecs, ..after.session },
            packet_id,
            flow_id,
            now,
        )
        &&& after == (DirectClientInner { session: after.session, ..before })
    }

    /// Takes a QoS 2 message in and gives the PUBREC for it. It comes for the first time unless its
    /// receipt was confirmed before.
    pub fn ack_qos2_inbound(&mut self, packet_id: u16, flow_id: Option<FlowId>, now: u64) -> (r:
        Result<(AckPacket, Qos2Receipt)>)
        requires
            old(self).wf(),
        ensures
            final(self).wf(),
            match r {
                Ok((ack, receipt)) => {
                    &&& !window_full(old(self).session, packet_id)
                    &&& ack.plain(packet_id, ReasonCode::Success)
                    &&& receipt == (if old(self).session.pubrecs@.contains(packet_id) {
                        Qos2Receipt::Duplicate
                    } else {
                        Qos2Receipt::First
                    })
                    &&& DirectClientInner::receipt_pending(
                        *old(self),
                        *final(self),
                        packet_id,
                        flow_id,
                        now,
                    )
                },
                Err(e) => {
                    &&& window_full(old(self).session, packet_id)
                    &&& e == MqttError::ReceiveMaximumExceeded
                    &&& *final(self) == *old(self)
                },
            },
    {
        match self.take_in(packet_id, flow_id, now) {
            Ok(()) => {},
            Err(e) => {
                return Err(e);
            },
        }
        let first = self.session.mark_pubrec_pending(packet_id);
        let receipt = if first {
            Qos2Receipt::First
        } else {
            Qos2Receipt::Duplicate
        };
        Ok((AckPacket::new(packet_id, ReasonCode::Success), receipt))
    }

    /// Whether the order of acknowledgements has another place.
    pub open spec fn has_place(&self) -> bool {
        self.ack_dispatcher.ranks().first() + self.ack_dispatcher.ranks().places().len()
            < u64::MAX
    }

    /// The order of acknowledgements has one place more; gives its number.
    pub open spec fn place_added(before: DirectClientInner, after: DirectClientInner) -> Option<
        u64,
    > {
        if after.ack_dispatcher.ranks().first() == before.ack_dispatcher.ranks().first()
            && after.ack_dispatcher.ranks().places() == before.ack_dispatcher.ranks().places().push(
            None,
        ) {
            Some(
                (before.ack_dispatcher.ranks().first()
                    + before.ack_dispatcher.ranks().places().len()) as u64,
            )
        } else {
            None
        }
    }

    /// A message that the application acknowledges was delivered: it is a duplicate from now on.
    pub open spec fn delivery_recorded(
        before: DirectClientInner,
        after: DirectClientInner,
        packet_id: u16,
        flow_id: Option<FlowId>,
        now: u64,
    ) -> bool {
        &&& after.session.delivered@ == before.session.delivered@.insert(packet_id)
        &&& after.session.acked@ == (if before.session.delivered@.contains(packet_id) {
            before.session.acked@
        } else {
            before.session.acked@.remove(packet_id)
        })
        &&& taken_in(
            before.session,
            SessionState {
                delivered: before.session.delivered,
                acked: before.session.acked,
                ..after.session
            },
            packet_id,
            flow_id,
            now,
        )
        &&& after == (DirectClientInner {
            session: after.session,
            ack_dispatcher: after.ack_dispatcher,
            ..before
        })
    }

    /// What is done with a message that the application acknowledges. Its acknowledgement is not
    /// written here but when the token is resolved. A duplicate is suppressed; it is acknowledged
    /// once more if the application has acknowledged it, and otherwise nothing is sent, for the
    /// application still holds the token.
    pub open spec fn deferred_step(
        before: DirectClientInner,
        after: DirectClientInner,
        arrived: PublishPacket,
        flow_id: Option<FlowId>,
        callback: u64,
        r: Result<PublishStep>,
        now: u64,
    ) -> bool {
        if arrived.qos == QoS::AtMostOnce {
            &&& r matches Ok(PublishStep::Deferred { publish, callback: to, token }) && publish
                == arrived && to == callback && token.id() == 0 && token.level()
                == QoS::AtMostOnce && token.place() is None
            &&& after == before
        } else {
            match arrived.packet_id {
                None => r matches Ok(PublishStep::Ignore) && after == before,
                Some(packet_id) => if window_full(before.session, packet_id) {
                    &&& r matches Err(e) && e == MqttError::ReceiveMaximumExceeded
                    &&& after == before
                } else {
                    &&& DirectClientInner::delivery_recorded(
                        before,
                        after,
                        packet_id,
                        flow_id,
                        now,
                    )
                    &&& if !before.session.delivered@.contains(packet_id) {
                        r matches Ok(PublishStep::Deferred { publish, callback: to, token })
                            && publish == arrived && to == callback && token.id() == packet_id
                            && token.level() == arrived.qos && token.place() is Some
                            && token.place() == DirectClientInner::place_added(before, after)
                    } else if before.session.acked@.contains(packet_id) {
                        r matches Ok(PublishStep::Resend(request)) && request == (AckRequest {
                            seq: DirectClientInner::place_added(before, after),
                            packet_id,
                            qos: arrived.qos,
                            kind: AckKind::Ack,
                        }) && request.seq is Some
                    } else {
                        &&& r matches Ok(PublishStep::Ignore)
                        &&& after.ack_dispatcher == before.ack_dispatcher
                    }
                },
            }
        }
    }

    /// Delivers a message to the callback that acknowledges it.
    pub fn deliver_deferred(
        &mut self,
        publish: PublishPacket,
        flow_id: Option<FlowId>,
        callback: u64,
        now: u64,
    ) -> (r: Result<PublishStep>)
        requires
            old(self).wf(),
            old(self).has_place(),
        ensures
            final(self).wf(),
            DirectClientInner::deferred_step(
                *old(self),
                *final(self),
                on_flow(publish, flow_id),
                flow_id,
                callback,
                r,
                now,
            ),
    {
        let qos = publish.qos;
        let publish = with_flow(publish, flow_id);
        if qos == QoS::AtMostOnce {
            let token = self.ack_dispatcher.token(0, QoS::AtMostOnce);
            return Ok(PublishStep::Deferred { publish, callback, token });
        }
        let packet_id: u16 = match publish.packet_id {
            Some(packet_id) => packet_id,
            None => {
                return Ok(PublishStep::Ignore);
            },
        };
        match self.take_in(packet_id, flow_id, now) {
            Ok(()) => {},
            Err(e) => {
                return Err(e);
            },
        }
        if !self.session.mark_delivered(packet_id) {
            return Ok(
                match self.resend_matching_ack(packet_id, qos) {
                    Some(request) => PublishStep::Resend(request),
                    None => PublishStep::Ignore,
                },
            );
        }
        self.session.set_resolution(packet_id, AckResolution::Unresolved);
        let token = self.ack_dispatcher.token(packet_id, qos);
        Ok(PublishStep::Deferred { publish, callback, token })
    }

    /// The acknowledgement that is sent once more for a duplicate: the one that the application has
    /// given. While it has given none, nothing is sent.
    pub fn resend_matching_ack(&mut self, packet_id: u16, qos: QoS) -> (r: Option<AckRequest>)
        requires
            old(self).wf(),
            old(self).has_place(),
            qos != QoS::AtMostOnce,
        ensures
            final(self).wf(),
            if old(self).session.acked@.contains(packet_id) {
                &&& r == Some(
                    AckRequest {
                        seq: DirectClientInner::place_added(*old(self), *final(self)),
                        packet_id,
                        qos,
                        kind: AckKind::Ack,
                    },
                )
                &&& r->0.seq is Some
                &&& *final(self) == (DirectClientInner {
                    ack_dispatcher: final(self).ack_dispatcher,
                    ..*old(self)
                })
            } else {
                r is None && *final(self) == *old(self)
            },
    {
        match self.session.get_resolution(packet_id) {
            AckResolution::Acked => Some(self.ack_dispatcher.enqueue(packet_id, qos, AckKind::Ack)),
            AckResolution::Unresolved => None,
        }
    }

    /// What is done with a message of the server whose payload is decoded.
    pub open spec fn publish_step(
        before: DirectClientInner,
        after: DirectClientInner,
        publish: PublishPacket,
        flow_id: Option<FlowId>,
        callback: Option<u64>,
        r: Result<PublishStep>,
        now: u64,
    ) -> bool {
        let arrived = on_flow(publish, flow_id);
        match callback {
            Some(to) => DirectClientInner::deferred_step(
                before,
                after,
                arrived,
                flow_id,
                to,
                r,
                now,
            ),
            None => if publish.qos == QoS::AtMostOnce || publish.packet_id is None {
                &&& r == Ok::<PublishStep, MqttError>(PublishStep::Dispatch(arrived))
                &&& after == before
            } else if window_full(before.session, publish.packet_id->0) {
                &&& r matches Err(e) && e == MqttError::ReceiveMaximumExceeded
                &&& after == before
            } else if publish.qos == QoS::AtLeastOnce {
                &&& r matches Ok(
                    PublishStep::Acknowledge { ack: Packet::PubAck(ack), publish: p, receipt },
                ) && ack.plain(publish.packet_id->0, ReasonCode::Success) && p == arrived
                    && receipt is None
                &&& taken_in(before.session, after.session, publish.packet_id->0, flow_id, now)
                &&& after == (DirectClientInner { session: after.session, ..before })
            } else {
                &&& r matches Ok(
                    PublishStep::Acknowledge { ack: Packet::PubRec(ack), publish: p, receipt },
                ) && ack.plain(publish.packet_id->0, ReasonCode::Success) && p == arrived
                    && receipt == Some(
                    if before.session.pubrecs@.contains(publish.packet_id->0) {
                        Qos2Receipt::Duplicate
                    } else {
                        Qos2Receipt::First
                    },
                )
                &&& DirectClientInner::receipt_pending(
                    before,
                    after,
                    publish.packet_id->0,
                    flow_id,
                    now,
                )
            },
        }
    }

    /// What is done with a message of the server: its payload is decoded, then it goes to the one
    /// callback that acknowledges it, or is acknowledged and goes to the callbacks of its topic.
    /// `callbacks` is there if the application acknowledges messages itself.
    pub fn handle_publish_with_ack(
        &mut self,
        publish: PublishPacket,
        flow_id: Option<FlowId>,
        callbacks: Option<&AckCallbackManager>,
        now: u64,
    ) -> (r: Result<PublishStep>)
        requires
            old(self).wf(),
            old(self).has_place(),
            callbacks matches Some(manager) ==> manager.wf(),
        ensures
            final(self).wf(),
            exists|decoded: Result<PublishPacket>|
                {
                    &&& #[trigger] old(self).decoded(publish, decoded)
                    &&& match decoded {
                        Ok(p) => DirectClientInner::publish_step(
                            *old(self),
                            *final(self),
                            p,
                            flow_id,
                            owner_of(callbacks, publish.topic_name@),
                            r,
                            now,
                        ),
                        Err(e) => r == Err::<PublishStep, MqttError>(e) && *final(self)
                            == *old(self),
                    }
                },
    {
        let ghost origin = *self;
        let decoded = self.decode_publish(publish);
        assert(origin.decoded(publish, decoded));
        let publish = match decoded {
            Ok(publish) => publish,
            Err(e) => {
                return Err(e);
            },
        };
        if let Some(manager) = callbacks {
            if let Some(callback) = manager.find_one(publish.topic_name.as_str()) {
                return self.deliver_deferred(publish, flow_id, callback, now);
            }
        }
        let qos = publish.qos;
        let publish = with_flow(publish, flow_id);
        let packet_id: u16 = match publish.packet_id {
            Some(packet_id) => packet_id,
            None => {
                return Ok(PublishStep::Dispatch(publish));
            },
        };
        match qos {
            QoS::AtMostOnce => Ok(PublishStep::Dispatch(publish)),
            QoS::AtLeastOnce => match self.ack_qos1_inbound(packet_id, flow_id, now) {
                Ok(ack) => Ok(
                    PublishStep::Acknowledge { ack: Packet::PubAck(ack), publish, receipt: None },
                ),
                Err(e) => Err(e),
            },
            QoS::ExactlyOnce => match self.ack_qos2_inbound(packet_id, flow_id, now) {
                Ok((ack, receipt)) => Ok(
                    PublishStep::Acknowledge {
                        ack: Packet::PubRec(ack),
                        publish,
                        receipt: Some(receipt),
                    },
                ),
                Err(e) => Err(e),
            },
        }
    }

    /// A message of the server is done: its place in the receive window is free.
    pub open spec fn window_freed(
        before: DirectClientInner,
        after: DirectClientInner,
        packet_id: u16,
    ) -> bool {
        &&& after.session.flow.same_outbound(&before.session.flow)
        &&& after.session.flow.inbound_maximum() == before.session.flow.inbound_maximum()
        &&& after.session.flow.received() == before.session.flow.received().remove(
            packet_id as u64,
        )
        &&& after == (DirectClientInner {
            session: SessionState { flow: after.session.flow, ..before.session },
            ..before
        })
    }

    /// Goes on with a message whose acknowledgement was to be written; gives what is handed to the
    /// callbacks. A QoS 2 message is handed over once: when its receipt could not be confirmed it
    /// comes for the first time again.
    pub fn finish_publish(
        &mut self,
        packet_id: u16,
        publish: PublishPacket,
        receipt: Option<Qos2Receipt>,
        written: Result<()>,
    ) -> (r: Result<Option<PublishPacket>>)
        requires
            old(self).wf(),
        ensures
            final(self).wf(),
            match written {
                Ok(()) => r == Ok::<Option<PublishPacket>, MqttError>(
                    if receipt == Some(Qos2Receipt::Duplicate) {
                        None
                    } else {
                        Some(publish)
                    },
                ),
                Err(e) => r == Err::<Option<PublishPacket>, MqttError>(e),
            },
            if written is Ok && receipt is None {
                DirectClientInner::window_freed(*old(self), *final(self), packet_id)
            } else if written is Err && receipt == Some(Qos2Receipt::First) {
                &&& final(self).session.pubrecs@ == old(self).session.pubrecs@.remove(packet_id)
                &&& *final(self) == (DirectClientInner {
                    session: SessionState {
                        pubrecs: final(self).session.pubrecs,
                        ..old(self).session
                    },
                    ..*old(self)
                })
            } else {
                *final(self) == *old(self)
            },
    {
        match written {
            Err(e) => {
                if receipt == Some(Qos2Receipt::First) {
                    self.session.remove_pubrec(packet_id);
                }
                Err(e)
            },
            Ok(()) => match receipt {
                None => {
                    self.session.flow.acknowledge_inbound(packet_id);
                    Ok(Some(publish))
                },
                Some(Qos2Receipt::First) => Ok(Some(publish)),
                Some(Qos2Receipt::Duplicate) => Ok(None),
            },
        }
    }

    /// The server has taken a QoS 2 message: gives the PUBREL for it.
    pub fn handle_pubrec_outgoing(&mut self, packet_id: u16) -> (r: AckPacket)
        requires
            old(self).wf(),
        ensures
            final(self).wf(),
            r.plain(packet_id, ReasonCode::Success),
            crate::session::state::message_forgotten(
                old(self).session.outbound,
                final(self).session.outbound,
                packet_id,
            ),
            *final(self) == (DirectClientInner {
                session: SessionState {
                    outbound: final(self).session.outbound,
                    ..old(self).session
                },
                ..*old(self)
            }),
    {
        self.session.complete_pubrec(packet_id);
        AckPacket::new(packet_id, ReasonCode::Success)
    }

    /// Goes on after PUBREL was to be written: once it is, PUBCOMP is waited for.
    pub fn finish_pubrec(&mut self, packet_id: u16, written: Result<()>) -> (r: Result<()>)
        requires
            old(self).wf(),
        ensures
            final(self).wf(),
            r == written,
            if written is Ok {
                &&& crate::session::state::remembered(
                    old(self).session.outbound,
                    final(self).session.outbound,
                    packet_id,
                    None,
                )
                &&& *final(self) == (DirectClientInner {
                    session: SessionState {
                        outbound: final(self).session.outbound,
                        ..old(self).session
                    },
                    ..*old(self)
                })
            } else {
                *final(self) == *old(self)
            },
    {
        if written.is_ok() {
            self.session.store_pubrel(packet_id);
        }
        written
    }

    /// The exchange of a QoS 2 message to the server is complete.
    pub fn handle_pubcomp_outgoing(&mut self, packet_id: u16)
        requires
            old(self).wf(),
            old(self).session.flow.can_refill(),
        ensures
            final(self).wf(),
            DirectClientInner::exchange_over(*old(self), *final(self), packet_id),
    {
        self.release_outbound_quota(packet_id);
    }

    /// An outbound exchange is forgotten, and its permit came back.
    pub open spec fn exchange_over(
        before: DirectClientInner,
        after: DirectClientInner,
        packet_id: u16,
    ) -> bool {
        &&& crate::session::state::forgotten(
            before.session.outbound,
            after.session.outbound,
            packet_id,
        )
        &&& DirectClientInner::given_back(before.session.flow, after.session.flow, packet_id)
        &&& after == (DirectClientInner {
            session: SessionState {
                flow: after.session.flow,
                outbound: after.session.outbound,
                ..before.session
            },
            ..before
        })
    }

    /// The server releases a QoS 2 message: gives the PUBCOMP for it. From now on a message with
    /// its identifier is a new one.
    pub fn handle_pubrel(&mut self, packet_id: u16) -> (r: AckPacket)
        requires
            old(self).wf(),
        ensures
            final(self).wf(),
            r.plain(packet_id, ReasonCode::Success),
            DirectClientInner::inbound_released(*old(self), *final(self), packet_id),
    {
        self.session.clear_inbound_state(packet_id);
        AckPacket::new(packet_id, ReasonCode::Success)
    }

    /// An inbound exchange is forgotten.
    pub open spec fn inbound_released(
        before: DirectClientInner,
        after: DirectClientInner,
        packet_id: u16,
    ) -> bool {
        &&& after.session.pubrecs@ == before.session.pubrecs@.remove(packet_id)
        &&& after.session.delivered@ == before.session.delivered@.remove(packet_id)
        &&& after.session.acked@ == before.session.acked@.remove(packet_id)
        &&& after == (DirectClientInner {
            session: SessionState {
                pubrecs: after.session.pubrecs,
                delivered: after.session.delivered,
                acked: after.session.acked,
                ..before.session
            },
            ..before
        })
    }

    /// Goes on after PUBCOMP was to be written: once it is, the message is done.
    pub fn finish_pubrel(&mut self, packet_id: u16, written: Result<()>) -> (r: Result<()>)
        requires
            old(self).wf(),
        ensures
            final(self).wf(),
            r == written,
            if written is Ok {
                DirectClientInner::window_freed(*old(self), *final(self), packet_id)
            } else {
                *final(self) == *old(self)
            },
    {
        if written.is_ok() {
            self.session.flow.acknowledge_inbound(packet_id);
        }
        written
    }

    /// What a packet that settles nothing does, and what is left to do for it.
    pub open spec fn incoming(
        before: DirectClientInner,
        after: DirectClientInner,
        packet: Packet,
        flow_id: Option<FlowId>,
        callbacks: Option<&AckCallbackManager>,
        r: Result<IncomingStep>,
        now: u64,
    ) -> bool {
        match packet {
            Packet::Publish(publish) => exists|decoded: Result<PublishPacket>|
                {
                    &&& #[trigger] before.decoded(publish, decoded)
                    &&& match decoded {
                        Ok(p) => match r {
                            Ok(IncomingStep::Publish(step)) => DirectClientInner::publish_step(
                                before,
                                after,
                                p,
                                flow_id,
                                owner_of(callbacks, publish.topic_name@),
                                Ok(step),
                                now,
                            ),
                            Ok(_) => false,
                            Err(e) => DirectClientInner::publish_step(
                                before,
                                after,
                                p,
                                flow_id,
                                owner_of(callbacks, publish.topic_name@),
                                Err(e),
                                now,
                            ),
                        },
                        Err(e) => r == Err::<IncomingStep, MqttError>(e) && after
                            == before,
                    }
                },
            Packet::PingResp => r matches Ok(IncomingStep::Pong) && after
                == before,
            Packet::PubRec(pubrec) => {
                &&& r matches Ok(IncomingStep::Release(release)) && release.plain(
                    pubrec.packet_id,
                    ReasonCode::Success,
                )
                &&& crate::session::state::message_forgotten(
                    before.session.outbound,
                    after.session.outbound,
                    pubrec.packet_id,
                )
                &&& after == (DirectClientInner {
                    session: SessionState {
                        outbound: after.session.outbound,
                        ..before.session
                    },
                    ..before
                })
            },
            Packet::PubRel(pubrel) => {
                &&& r matches Ok(IncomingStep::Complete(complete)) && complete.plain(
                    pubrel.packet_id,
                    ReasonCode::Success,
                )
                &&& DirectClientInner::inbound_released(
                    before,
                    after,
                    pubrel.packet_id,
                )
            },
            Packet::PubComp(pubcomp) => {
                &&& r matches Ok(IncomingStep::Done)
                &&& DirectClientInner::exchange_over(
                    before,
                    after,
                    pubcomp.packet_id,
                )
            },
            Packet::Disconnect(_) => (r matches Err(MqttError::ConnectionError(text)) && text@
                == "Server disconnected"@) && after == before,
            _ => r matches Ok(IncomingStep::Done) && after == before,
        }
    }

    /// What is done with a packet of the server that is not an answer to a request.
    pub fn handle_incoming_packet_with_writer(
        &mut self,
        packet: Packet,
        flow_id: Option<FlowId>,
        callbacks: Option<&AckCallbackManager>,
        now: u64,
    ) -> (r: Result<IncomingStep>)
        requires
            old(self).wf(),
            old(self).has_place(),
            old(self).session.flow.can_refill(),
            callbacks matches Some(manager) ==> manager.wf(),
        ensures
            final(self).wf(),
            DirectClientInner::incoming(
                *old(self),
                *final(self),
                packet,
                flow_id,
                callbacks,
                r,
                now,
            ),
    {
        match packet {
            Packet::Publish(publish) => match self.handle_publish_with_ack(
                publish,
                flow_id,
                callbacks,
                now,
            ) {
                Ok(step) => Ok(IncomingStep::Publish(step)),
                Err(e) => Err(e),
            },
            Packet::PingResp => Ok(IncomingStep::Pong),
            Packet::PubRec(pubrec) => Ok(
                IncomingStep::Release(self.handle_pubrec_outgoing(pubrec.packet_id)),
            ),
            Packet::PubRel(pubrel) => Ok(
                IncomingStep::Complete(self.handle_pubrel(pubrel.packet_id)),
            ),
            Packet::PubComp(pubcomp) => {
                self.handle_pubcomp_outgoing(pubcomp.packet_id);
                Ok(IncomingStep::Done)
            },
            Packet::Disconnect(_) => Err(MqttError::ConnectionError(owned("Server disconnected"))),
            _ => Ok(IncomingStep::Done),
        }
    }

    /// What is done with a packet that came on a stream on which nothing can be written: a message
    /// must not want an acknowledgement.
    pub fn handle_incoming_packet_no_writer(&self, packet: Packet, flow_id: Option<FlowId>) -> (r:
        Result<IncomingStep>)
        requires
            self.wf(),
        ensures
            match packet {
                Packet::Publish(publish) => if publish.qos != QoS::AtMostOnce {
                    r matches Err(MqttError::ProtocolError(text)) && text@
                        == "QoS > 0 publish received on unidirectional stream"@
                } else {
                    exists|decoded: Result<PublishPacket>|
                        {
                            &&& #[trigger] self.decoded(publish, decoded)
                            &&& r == (match decoded {
                                Ok(p) => Ok::<IncomingStep, MqttError>(
                                    IncomingStep::Publish(
                                        PublishStep::Dispatch(on_flow(p, flow_id)),
                                    ),
                                ),
                                Err(e) => Err::<IncomingStep, MqttError>(e),
                            })
                        }
                },
                Packet::PingResp => r matches Ok(IncomingStep::Pong),
                Packet::Disconnect(_) => r matches Err(MqttError::ConnectionError(text)) && text@
                    == "Server disconnected"@,
                _ => r matches Ok(IncomingStep::Done),
            },
    {
        match packet {
            Packet::Publish(publish) => {
                if publish.qos != QoS::AtMostOnce {
                    return Err(
                        MqttError::ProtocolError(
                            owned("QoS > 0 publish received on unidirectional stream"),
                        ),
                    );
                }
                let decoded = self.decode_publish(publish);
                assert(self.decoded(publish, decoded));
                match decoded {
                    Ok(p) => Ok(
                        IncomingStep::Publish(PublishStep::Dispatch(with_flow(p, flow_id))),
                    ),
                    Err(e) => Err(e),
                }
            },
            Packet::PingResp => Ok(IncomingStep::Pong),
            Packet::Disconnect(_) => Err(MqttError::ConnectionError(owned("Server disconnected"))),
            _ => Ok(IncomingStep::Done),
        }
    }
}

/// A QoS 2 message reaches the application once: when it comes again before the server has released
/// it, it is confirmed again but not handed over.
pub proof fn law_qos2_message_is_delivered_once(
    before: DirectClientInner,
    first: DirectClientInner,
    again: DirectClientInner,
    publish: PublishPacket,
    repeated: PublishPacket,
    flow_id: Option<FlowId>,
    r1: Result<PublishStep>,
    r2: Result<PublishStep>,
    now: u64,
    later: u64,
)
    requires
        publish.qos == QoS::ExactlyOnce && repeated.qos == QoS::ExactlyOnce,
        publish.packet_id is Some && repeated.packet_id == publish.packet_id,
        !before.session.pubrecs@.contains(publish.packet_id->0),
        DirectClientInner::publish_step(before, first, publish, flow_id, None, r1, now),
        DirectClientInner::publish_step(first, again, repeated, flow_id, None, r2, later),
        r1 is Ok,
        r2 is Ok,
    ensures
        r1->Ok_0 matches PublishStep::Acknowledge { receipt, .. } && receipt == Some(
            Qos2Receipt::First,
        ),
        r2->Ok_0 matches PublishStep::Acknowledge { receipt, .. } && receipt == Some(
            Qos2Receipt::Duplicate,
        ),
{
}

/// Once the server has released a message, another with its identifier is a new one.
pub proof fn law_released_identifier_is_new(
    before: DirectClientInner,
    released: DirectClientInner,
    after: DirectClientInner,
    publish: PublishPacket,
    flow_id: Option<FlowId>,
    r: Result<PublishStep>,
    now: u64,
)
    requires
        publish.qos == QoS::ExactlyOnce,
        publish.packet_id is Some,
        DirectClientInner::inbound_released(before, released, publish.packet_id->0),
        DirectClientInner::publish_step(released, after, publish, flow_id, None, r, now),
        r is Ok,
    ensures
        r->Ok_0 matches PublishStep::Acknowledge { receipt, .. } && receipt == Some(
            Qos2Receipt::First,
        ),
{
}

/// A message that the application acknowledges reaches it once, and nothing is sent for it before
/// the application has decided.
pub proof fn law_acknowledgement_waits_for_the_application(
    before: DirectClientInner,
    first: DirectClientInner,
    again: DirectClientInner,
    publish: PublishPacket,
    flow_id: Option<FlowId>,
    callback: u64,
    r1: Result<PublishStep>,
    r2: Result<PublishStep>,
    now: u64,
    later: u64,
)
    requires
        publish.qos != QoS::AtMostOnce,
        publish.packet_id is Some,
        !before.session.delivered@.contains(publish.packet_id->0),
        DirectClientInner::publish_step(before, first, publish, flow_id, Some(callback), r1, now),
        DirectClientInner::publish_step(first, again, publish, flow_id, Some(callback), r2, later),
        r1 is Ok,
        r2 is Ok,
    ensures
        r1->Ok_0 is Deferred,
        r2->Ok_0 is Ignore,
{
}

/// A message of the server reaches the application with its topic and payload, and is acknowledged
/// under its identifier with what its quality of service asks for: nothing, PUBACK or PUBREC.
pub proof fn law_message_is_acknowledged_as_it_asks(
    before: DirectClientInner,
    after: DirectClientInner,
    publish: PublishPacket,
    flow_id: Option<FlowId>,
    r: Result<PublishStep>,
    now: u64,
)
    requires
        DirectClientInner::publish_step(before, after, publish, flow_id, None, r, now),
        r is Ok,
        publish.qos != QoS::AtMostOnce ==> publish.packet_id is Some,
    ensures
        publish.qos == QoS::AtMostOnce ==> (r->Ok_0 matches PublishStep::Dispatch(p)
            && p.topic_name == publish.topic_name && p.payload == publish.payload && after
            == before),
        publish.qos == QoS::AtLeastOnce ==> (r->Ok_0 matches PublishStep::Acknowledge {
            ack: Packet::PubAck(ack),
            publish: p,
            ..
        } && Some(ack.packet_id) == publish.packet_id && ack.reason_code == ReasonCode::Success
            && p.topic_name == publish.topic_name && p.payload == publish.payload),
        publish.qos == QoS::ExactlyOnce ==> (r->Ok_0 matches PublishStep::Acknowledge {
            ack: Packet::PubRec(ack),
            publish: p,
            ..
        } && Some(ack.packet_id) == publish.packet_id && ack.reason_code == ReasonCode::Success
            && p.topic_name == publish.topic_name && p.payload == publish.payload
            && after.session.pubrecs@.contains(publish.packet_id->0)),
{
}

/// A message that one callback acknowledges goes to that callback, with its topic and payload, and the
/// token is for it.
pub proof fn law_deferred_message_reaches_its_callback(
    before: DirectClientInner,
    after: DirectClientInner,
    publish: PublishPacket,
    flow_id: Option<FlowId>,
    callback: u64,
    r: Result<PublishStep>,
    now: u64,
)
    requires
        DirectClientInner::publish_step(before, after, publish, flow_id, Some(callback), r, now),
        publish.packet_id is Some,
        publish.qos != QoS::AtMostOnce,
        !before.session.delivered@.contains(publish.packet_id->0),
        r is Ok,
    ensures
        r->Ok_0 matches PublishStep::Deferred { publish: p, callback: to, token } && p.topic_name
            == publish.topic_name && p.payload == publish.payload && to == callback
            && Some(token.id()) == publish.packet_id && token.level() == publish.qos,
        after.session.delivered@.contains(publish.packet_id->0),
{
}

/// The server may have no more messages in flight than the client takes: one that is sent again counts
/// once, one too many is refused, and what is taken keeps within the limit.
pub proof fn law_receive_window_is_bounded(
    before: SessionState,
    after: SessionState,
    packet_id: u16,
    flow_id: Option<FlowId>,
    now: u64,
)
    requires
        before.wf(),
        taken_in(before, after, packet_id, flow_id, now),
        !window_full(before, packet_id),
        before.flow.inbound_maximum() > 0,
        before.flow.received().dom().len() <= before.flow.inbound_maximum(),
    ensures
        after.flow.received().contains_key(packet_id as u64),
        after.flow.received().dom().len() <= before.flow.inbound_maximum(),
        before.flow.received().contains_key(packet_id as u64) ==> after.flow.received()
            == before.flow.received(),
{
    before.flow.lemma_lists();
    let id = packet_id as u64;
    if !before.flow.received().contains_key(id) {
        assert(before.flow.received().insert(id, now).dom() =~= before.flow.received().dom().insert(
            id,
        ));
    }
}

/// A client that takes any number of messages, or has one already, or has fewer than it takes, refuses
/// none.
pub proof fn law_window_refuses_only_one_too_many(session: SessionState, packet_id: u16)
    ensures
        session.flow.inbound_maximum() == 0 ==> !window_full(session, packet_id),
        session.flow.received().contains_key(packet_id as u64) ==> !window_full(session, packet_id),
        session.flow.received().dom().len() < session.flow.inbound_maximum() ==> !window_full(
            session,
            packet_id,
        ),
        session.flow.inbound_maximum() > 0 && !session.flow.received().contains_key(
            packet_id as u64,
        ) && session.flow.received().dom().len() >= session.flow.inbound_maximum() ==> window_full(
            session,
            packet_id,
        ),
{
}

/// What a packet of the server is answered with: a PUBREC with the release of its message, a PUBREL with
/// the completion, each under the identifier it came with; a PUBCOMP ends the exchange. The message of
/// a PUBREC is not sent again, but its exchange goes on.
pub proof fn law_packet_is_answered(
    before: DirectClientInner,
    after: DirectClientInner,
    ack: crate::packets::AckPacket,
    flow_id: Option<FlowId>,
    callbacks: Option<&AckCallbackManager>,
    r: Result<IncomingStep>,
    now: u64,
    other: u64,
)
    requires
        other != ack.packet_id as u64,
    ensures
        DirectClientInner::incoming(
            before,
            after,
            Packet::PubRec(ack),
            flow_id,
            callbacks,
            r,
            now,
        ) ==> (r matches Ok(IncomingStep::Release(release)) && release.packet_id == ack.packet_id
            && release.reason_code == ReasonCode::Success) && (
        before.session.outbound@.contains_key(other) == after.session.outbound@.contains_key(other))
            && (after.session.outbound@.contains_key(ack.packet_id as u64)
            ==> after.session.outbound@[ack.packet_id as u64] is None),
        DirectClientInner::incoming(
            before,
            after,
            Packet::PubRel(ack),
            flow_id,
            callbacks,
            r,
            now,
        ) ==> (r matches Ok(IncomingStep::Complete(complete)) && complete.packet_id
            == ack.packet_id && complete.reason_code == ReasonCode::Success)
            && !after.session.pubrecs@.contains(ack.packet_id)
            && !after.session.delivered@.contains(ack.packet_id) && after.session.outbound
            == before.session.outbound,
        DirectClientInner::incoming(
            before,
            after,
            Packet::PubComp(ack),
            flow_id,
            callbacks,
            r,
            now,
        ) ==> (r matches Ok(IncomingStep::Done)) && !after.session.outbound@.contains_key(
            ack.packet_id as u64,
        ) && after.session.outbound@.contains_key(other) == before.session.outbound@.contains_key(
            other,
        ) && !(before.session.flow.maximum() > 0 && after.session.flow.sent().contains_key(
            ack.packet_id as u64,
        )),
        DirectClientInner::incoming(
            before,
            after,
            Packet::PingResp,
            flow_id,
            callbacks,
            r,
            now,
        ) ==> (r matches Ok(IncomingStep::Pong)) && after == before,
{
}

/// A message of the server reaches the application with its topic, and with its payload as it was sent
/// where there is no codec for it.
pub proof fn law_message_of_the_server_reaches_the_application(
    before: DirectClientInner,
    after: DirectClientInner,
    publish: PublishPacket,
    flow_id: Option<FlowId>,
    r: Result<IncomingStep>,
    now: u64,
)
    requires
        DirectClientInner::incoming(
            before,
            after,
            Packet::Publish(publish),
            flow_id,
            None,
            r,
            now,
        ),
        publish.qos == QoS::AtMostOnce,
        before.options.codec_registry is None || publish.properties.content_type is None,
    ensures
        r matches Ok(IncomingStep::Publish(PublishStep::Dispatch(p))) && p.topic_name
            == publish.topic_name && p.payload@ == publish.payload@ && p.retain == publish.retain
            && p.properties == publish.properties,
        after == before,
{
}

/// The callback for the topic itself comes before those with a wildcard; without callbacks the client
/// acknowledges by itself.
pub proof fn law_callback_of_the_topic_comes_first(manager: AckCallbackManager, topic: Seq<char>)
    ensures
        owner_of(None, topic) is None,
        manager.by_topic().contains_key(topic) ==> owner_of(Some(&manager), topic) == Some(
            manager.by_topic()[topic].callback,
        ),
        !manager.by_topic().contains_key(topic) && manager.by_filter().len() == 0 ==> owner_of(
            Some(&manager),
            topic,
        ) is None,
        !manager.by_topic().contains_key(topic) && manager.by_filter().len() > 0
            && crate::topic::topic_matches(
            topic,
            crate::topic::unshared(manager.by_filter()[0].topic_filter@),
        ) ==> owner_of(Some(&manager), topic) == Some(manager.by_filter()[0].callback),
{
}

/// A place in the receive window that is freed can be taken by the next message.
pub proof fn law_freed_place_can_be_taken(
    before: DirectClientInner,
    after: DirectClientInner,
    packet_id: u16,
    other: u16,
)
    requires
        before.wf(),
        DirectClientInner::window_freed(before, after, packet_id),
        before.session.flow.received().contains_key(packet_id as u64),
        before.session.flow.received().dom().len() <= before.session.flow.inbound_maximum(),
    ensures
        !window_full(after.session, other),
        !after.session.flow.received().contains_key(packet_id as u64),
{
    before.session.flow.lemma_lists();
    assert(after.session.flow.received().dom() =~= before.session.flow.received().dom().remove(
        packet_id as u64,
    ));
}

} // verus!
