//! Publishing that waits for its acknowledgement.

use crate::client::direct::client::DirectClientInner;
use crate::client::direct::outbound::{check_topic, PublishOptions};
use crate::client::direct::replay::QueuedPublish;
use crate::client::direct::subscribe::Answer;
use crate::error::{MqttError, ReasonCode, Result};
use crate::packets::{Packet, SubAckPacket, UnsubAckPacket};
use crate::session::flow_control::FlowControlManager;
use crate::session::state::SessionState;
use crate::text::owned;
use crate::types::{PublishPacket, QoS};
use std::sync::Arc;
use vstd::prelude::*;

verus! {

/// How long an acknowledgement is waited for, in milliseconds.
pub const PUBLISH_WAIT: u64 = 10_000;

/// What is done with a message of the application.
#[derive(Debug)]
pub enum PublishStart {
    /// It waits for a connection.
    Queued { packet_id: u16 },
    /// It is written. If `wait` is set its acknowledgement is waited for.
    Send { packet: PublishPacket, wait: bool },
}

/// Where a packet of the server goes that may be an answer.
#[derive(Debug)]
pub enum ResponseStep {
    /// To the SUBSCRIBE that waits for it.
    SubAck(SubAckPacket),
    /// To the UNSUBSCRIBE that waits for it.
    UnsubAck(UnsubAckPacket),
    /// The message with the identifier was acknowledged.
    Published { packet_id: u16, reason_code: ReasonCode },
    /// Nowhere.
    Ignore,
    /// It is handled. If a message is named, that message was acknowledged first.
    Handle { packet: Packet, published: Option<(u16, ReasonCode)> },
}

/// The quality of service with which a message is sent: the one that was asked for, unless the
/// server takes less.
pub open spec fn effective_qos(qos: QoS, maximum: Option<u8>) -> QoS {
    match maximum {
        Some(m) if qos.level() > m => crate::client::direct::replay::qos_of(m),
        _ => qos,
    }
}

fn limited_qos(qos: QoS, maximum: Option<u8>) -> (r: QoS)
    ensures
        r == effective_qos(qos, maximum),
{
    if let Some(m) = maximum {
        if qos.as_u8() > m {
            return if m == 0 {
                QoS::AtMostOnce
            } else if m == 1 {
                QoS::AtLeastOnce
            } else {
                QoS::ExactlyOnce
            };
        }
    }
    qos
}

/// A message as the application wants it.
pub open spec fn requested(
    packet: PublishPacket,
    topic: String,
    payload: Seq<u8>,
    options: PublishOptions,
    qos: QoS,
    packet_id: Option<u16>,
) -> bool {
    &&& packet.topic_name == topic
    &&& packet.payload@ == payload
    &&& packet.qos == qos
    &&& packet.retain == options.retain
    &&& !packet.dup
    &&& packet.packet_id == packet_id
    &&& packet.properties == options.properties
    &&& packet.protocol_version == 5
    &&& packet.stream_id is None
}

fn request(
    topic: String,
    payload: Vec<u8>,
    options: PublishOptions,
    qos: QoS,
    packet_id: Option<u16>,
) -> (r: PublishPacket)
    ensures
        requested(r, topic, payload@, options, qos, packet_id),
{
    PublishPacket {
        topic_name: topic,
        packet_id,
        payload: Arc::new(payload),
        qos,
        retain: options.retain,
        dup: false,
        properties: options.properties,
        protocol_version: 5,
        stream_id: None,
    }
}

impl DirectClientInner {
    /// Whether a message waits for a connection.
    pub open spec fn queues(&self, qos: QoS) -> bool {
        !self.connected && self.queue_on_disconnect && qos != QoS::AtMostOnce
    }

    /// An identifier that was free was given out, and is no longer reserved.
    pub open spec fn id_given_out(
        before: DirectClientInner,
        after: DirectClientInner,
        id: u16,
    ) -> bool {
        &&& exists|middle: DirectClientInner| #[trigger]
            DirectClientInner::allocated(before, middle, id) && after.generator
                == middle.generator
        &&& after.outbound_ids.reserved() == before.outbound_ids.reserved()
        &&& after.outbound_ids.quarantined() == before.outbound_ids.quarantined()
    }

    /// A message that will be acknowledged has an identifier and a permit. It is remembered, and its
    /// acknowledgement waited for.
    pub open spec fn awaiting_acknowledgement(
        before: DirectClientInner,
        after: DirectClientInner,
        packet: PublishPacket,
        now: u64,
    ) -> bool {
        let id = packet.packet_id->0;
        &&& DirectClientInner::id_given_out(before, after, id)
        &&& before.session.flow.admits()
        &&& FlowControlManager::acquired(before.session.flow, after.session.flow, id, now)
        &&& crate::session::state::remembered(
            before.session.outbound,
            after.session.outbound,
            id,
            Some(packet),
        )
        &&& after.pending_pubacks@ == (if packet.qos == QoS::AtLeastOnce {
            before.pending_pubacks@.insert(id)
        } else {
            before.pending_pubacks@
        })
        &&& after.pending_pubcomps@ == (if packet.qos == QoS::ExactlyOnce {
            before.pending_pubcomps@.insert(id)
        } else {
            before.pending_pubcomps@
        })
        &&& after == (DirectClientInner {
            generator: after.generator,
            outbound_ids: after.outbound_ids,
            session: SessionState {
                flow: after.session.flow,
                outbound: after.session.outbound,
                ..before.session
            },
            pending_pubacks: after.pending_pubacks,
            pending_pubcomps: after.pending_pubcomps,
            ..before
        })
    }

    /// A message waits for a connection, under an identifier that is reserved for it.
    pub open spec fn set_aside(
        before: DirectClientInner,
        after: DirectClientInner,
        packet_id: u16,
    ) -> bool {
        let queue = after.queued_messages@;
        &&& queue.len() == before.queued_messages@.len() + 1
        &&& queue.drop_last() == before.queued_messages@
        &&& queue.last().serial == crate::client::direct::replay::serial_after(
            before.queued_messages.last_serial(),
            1,
        )
        &&& after.queued_messages.last_serial() == queue.last().serial
        &&& queue.last().reservation matches Some(reserved) && reserved.id() == packet_id
        &&& queue.last().completion is None
        &&& DirectClientInner::allocated(
            before,
            (DirectClientInner { queued_messages: before.queued_messages, ..after }),
            packet_id,
        )
    }

    /// Why a message that has an identifier cannot be sent: it is larger than the server takes, or
    /// too many messages are in flight. Nothing but the next identifier has changed.
    pub open spec fn unsendable(
        before: DirectClientInner,
        after: DirectClientInner,
        packet: PublishPacket,
        e: MqttError,
    ) -> bool {
        let limit = before.session.server_maximum_packet_size;
        &&& packet.packet_id is Some
        &&& DirectClientInner::id_given_out(before, after, packet.packet_id->0)
        &&& after == (DirectClientInner {
            generator: after.generator,
            outbound_ids: after.outbound_ids,
            ..before
        })
        &&& if crate::client::direct::publish::too_large(packet, limit) {
            crate::client::direct::publish::size_error(packet, limit, e)
        } else {
            e == MqttError::FlowControlExceeded && !before.session.flow.admits()
        }
    }

    /// Begins to wait for the acknowledgement of a message; `true` says that there will be one.
    pub fn setup_publish_acknowledgment(&mut self, qos: QoS, packet_id: Option<u16>) -> (r: bool)
        requires
            old(self).wf(),
        ensures
            final(self).wf(),
            r == (qos != QoS::AtMostOnce),
            qos == QoS::AtMostOnce ==> *final(self) == *old(self),
            final(self).pending_pubacks@ == (if qos == QoS::AtLeastOnce && packet_id is Some {
                old(self).pending_pubacks@.insert(packet_id->0)
            } else {
                old(self).pending_pubacks@
            }),
            final(self).pending_pubcomps@ == (if qos == QoS::ExactlyOnce && packet_id is Some {
                old(self).pending_pubcomps@.insert(packet_id->0)
            } else {
                old(self).pending_pubcomps@
            }),
            *final(self) == (DirectClientInner {
                pending_pubacks: final(self).pending_pubacks,
                pending_pubcomps: final(self).pending_pubcomps,
                ..*old(self)
            }),
    {
        match qos {
            QoS::AtMostOnce => false,
            QoS::AtLeastOnce => {
                if let Some(id) = packet_id {
                    self.pending_pubacks.insert(id);
                }
                true
            },
            QoS::ExactlyOnce => {
                if let Some(id) = packet_id {
                    self.pending_pubcomps.insert(id);
                }
                true
            },
        }
    }

    /// Begins to publish. The topic has to be valid. Without a connection a message that will be
    /// acknowledged waits for one, if messages may wait. The quality of service is at most what the
    /// server takes. A message that will be acknowledged needs a free identifier and a permit.
    pub fn publish(
        &mut self,
        topic: String,
        payload: Vec<u8>,
        options: PublishOptions,
        now: u64,
    ) -> (r: Result<PublishStart>)
        requires
            old(self).wf(),
        ensures
            final(self).wf(),
            ({
                let qos = effective_qos(options.qos, old(self).policy.maximum_qos);
                let limit = old(self).session.server_maximum_packet_size;
                let exhausted = forall|id: u16| id != 0 ==> #[trigger] old(self).busy(id);
                if !crate::client::direct::outbound::topic_passes(topic@, options.properties) {
                    &&& r matches Err(e) && crate::client::direct::outbound::topic_error(topic@, e)
                    &&& *final(self) == *old(self)
                } else if old(self).queues(options.qos) {
                    match r {
                        Ok(PublishStart::Queued { packet_id }) => {
                            &&& DirectClientInner::set_aside(*old(self), *final(self), packet_id)
                            &&& requested(
                                final(self).queued_messages@.last().packet,
                                topic,
                                payload@,
                                options,
                                options.qos,
                                Some(packet_id),
                            )
                        },
                        Ok(PublishStart::Send { .. }) => false,
                        Err(e) => {
                            &&& e == MqttError::PacketIdExhausted
                            &&& exhausted
                            &&& *final(self) == *old(self)
                        },
                    }
                } else if !old(self).connected {
                    &&& r matches Err(e) && e == MqttError::NotConnected
                    &&& *final(self) == *old(self)
                } else if qos == QoS::AtMostOnce {
                    &&& *final(self) == *old(self)
                    &&& match r {
                        Ok(PublishStart::Queued { .. }) => false,
                        Ok(PublishStart::Send { packet, wait }) => {
                            &&& requested(packet, topic, payload@, options, qos, None)
                            &&& !crate::client::direct::publish::too_large(packet, limit)
                            &&& !wait
                        },
                        Err(e) => exists|packet: PublishPacket|
                            {
                                &&& #[trigger] requested(
                                    packet,
                                    topic,
                                    payload@,
                                    options,
                                    qos,
                                    None,
                                )
                                &&& crate::client::direct::publish::too_large(packet, limit)
                                &&& crate::client::direct::publish::size_error(packet, limit, e)
                            },
                    }
                } else {
                    match r {
                        Ok(PublishStart::Queued { .. }) => false,
                        Ok(PublishStart::Send { packet, wait }) => {
                            &&& packet.packet_id is Some
                            &&& requested(
                                packet,
                                topic,
                                payload@,
                                options,
                                qos,
                                packet.packet_id,
                            )
                            &&& !crate::client::direct::publish::too_large(packet, limit)
                            &&& wait
                            &&& DirectClientInner::awaiting_acknowledgement(
                                *old(self),
                                *final(self),
                                packet,
                                now,
                            )
                        },
                        Err(e) => {
                            ||| e == MqttError::PacketIdExhausted && exhausted && *final(self)
                                == *old(self)
                            ||| exists|packet: PublishPacket|
                                requested(
                                    packet,
                                    topic,
                                    payload@,
                                    options,
                                    qos,
                                    packet.packet_id,
                                ) && #[trigger] DirectClientInner::unsendable(
                                    *old(self),
                                    *final(self),
                                    packet,
                                    e,
                                )
                        },
                    }
                }
            }),
    {
        match check_topic(topic.as_str(), &options.properties) {
            Ok(()) => {},
            Err(e) => {
                return Err(e);
            },
        }
        let asked = options.qos;
        if !self.connected && self.queue_on_disconnect && asked != QoS::AtMostOnce {
            let reservation = match self.allocate_packet_id() {
                Ok(reservation) => reservation,
                Err(e) => {
                    return Err(e);
                },
            };
            let packet_id: u16 = reservation.packet_id();
            let packet = request(topic, payload, options, asked, Some(packet_id));
            let ghost before = self.queued_messages@;
            self.queued_messages.push_back(QueuedPublish::new(packet, reservation, None));
            assert(self.queued_messages@.drop_last() =~= before);
            return Ok(PublishStart::Queued { packet_id });
        }
        let qos = limited_qos(asked, self.policy.maximum_qos);
        if !self.connected {
            return Err(MqttError::NotConnected);
        }
        let ghost wanted = payload@;
        if qos == QoS::AtMostOnce {
            let packet = request(topic, payload, options, qos, None);
            assert(requested(packet, topic, wanted, options, qos, None));
            return match self.check_publish_size(&packet) {
                Ok(()) => Ok(PublishStart::Send { packet, wait: false }),
                Err(e) => Err(e),
            };
        }
        let reservation = match self.allocate_packet_id() {
            Ok(reservation) => reservation,
            Err(e) => {
                return Err(e);
            },
        };
        let ghost middle = *self;
        let id: u16 = reservation.packet_id();
        let packet = request(topic, payload, options, qos, Some(id));
        let admitted = match self.check_publish_size(&packet) {
            Ok(()) => self.session.flow.try_acquire_send_quota(id, now),
            Err(e) => Err(e),
        };
        self.outbound_ids.release(reservation);
        proof {
            assert(DirectClientInner::allocated(*old(self), middle, id));
            assert(self.outbound_ids.reserved() =~= old(self).outbound_ids.reserved());
            assert(requested(packet, topic, wanted, options, qos, packet.packet_id));
        }
        match admitted {
            Ok(()) => {},
            Err(e) => {
                assert(DirectClientInner::unsendable(*old(self), *self, packet, e));
                return Err(e);
            },
        }
        self.session.store_unacked_publish(id, packet.clone());
        let wait = self.setup_publish_acknowledgment(qos, Some(id));
        Ok(PublishStart::Send { packet, wait })
    }

    /// Ends waiting for the acknowledgement of a message.
    pub fn wait_for_acknowledgment(
        &mut self,
        qos: QoS,
        packet_id: Option<u16>,
        answer: Answer<ReasonCode>,
    ) -> (r: Result<()>)
        requires
            old(self).wf(),
        ensures
            final(self).wf(),
            match answer {
                Answer::Came(code) => {
                    &&& r == (if code.error() {
                        Err::<(), MqttError>(MqttError::PublishFailed(code))
                    } else {
                        Ok::<(), MqttError>(())
                    })
                    &&& *final(self) == *old(self)
                },
                Answer::ChannelClosed => (r matches Err(MqttError::ProtocolError(text)) && text@
                    == "Acknowledgment channel closed"@) && *final(self) == *old(self),
                Answer::TimedOut => {
                    &&& r matches Err(e) && e == MqttError::Timeout
                    &&& final(self).pending_pubacks@ == (if qos == QoS::AtLeastOnce
                        && packet_id is Some {
                        old(self).pending_pubacks@.remove(packet_id->0)
                    } else {
                        old(self).pending_pubacks@
                    })
                    &&& final(self).pending_pubcomps@ == (if qos == QoS::ExactlyOnce
                        && packet_id is Some {
                        old(self).pending_pubcomps@.remove(packet_id->0)
                    } else {
                        old(self).pending_pubcomps@
                    })
                    &&& *final(self) == (DirectClientInner {
                        pending_pubacks: final(self).pending_pubacks,
                        pending_pubcomps: final(self).pending_pubcomps,
                        ..*old(self)
                    })
                },
            },
    {
        match answer {
            Answer::Came(code) => {
                if code.is_error() {
                    return Err(MqttError::PublishFailed(code));
                }
                Ok(())
            },
            Answer::ChannelClosed => Err(
                MqttError::ProtocolError(owned("Acknowledgment channel closed")),
            ),
            Answer::TimedOut => {
                if let Some(id) = packet_id {
                    match qos {
                        QoS::AtLeastOnce => {
                            self.pending_pubacks.remove(id);
                        },
                        QoS::ExactlyOnce => {
                            self.pending_pubcomps.remove(id);
                        },
                        QoS::AtMostOnce => {},
                    }
                }
                Err(MqttError::Timeout)
            },
        }
    }

    /// Where a packet of the server goes that may be an answer. A PUBACK or PUBCOMP wakes whoever
    /// waits for it, and so does a PUBREC that refuses a message. A message that is done is
    /// forgotten, and its permit comes back; that of a PUBCOMP is when it is handled.
    pub fn packet_reader_task_with_responses(&mut self, packet: Packet) -> (r: ResponseStep)
        requires
            old(self).wf(),
            old(self).session.flow.can_refill(),
        ensures
            final(self).wf(),
            match packet {
                Packet::SubAck(ack) => if old(self).pending_subacks@.contains(ack.packet_id) {
                    &&& r == ResponseStep::SubAck(ack)
                    &&& final(self).pending_subacks@ == old(self).pending_subacks@.remove(
                        ack.packet_id,
                    )
                    &&& *final(self) == (DirectClientInner {
                        pending_subacks: final(self).pending_subacks,
                        ..*old(self)
                    })
                } else {
                    r == (ResponseStep::Handle { packet, published: None }) && *final(self)
                        == *old(self)
                },
                Packet::UnsubAck(ack) => if old(self).pending_unsubacks@.contains(ack.packet_id) {
                    &&& r == ResponseStep::UnsubAck(ack)
                    &&& final(self).pending_unsubacks@ == old(self).pending_unsubacks@.remove(
                        ack.packet_id,
                    )
                    &&& *final(self) == (DirectClientInner {
                        pending_unsubacks: final(self).pending_unsubacks,
                        ..*old(self)
                    })
                } else {
                    r == (ResponseStep::Handle { packet, published: None }) && *final(self)
                        == *old(self)
                },
                Packet::PubAck(ack) => if old(self).pending_pubacks@.contains(ack.packet_id) {
                    &&& r == (ResponseStep::Published {
                        packet_id: ack.packet_id,
                        reason_code: ack.reason_code,
                    })
                    &&& final(self).pending_pubacks@ == old(self).pending_pubacks@.remove(
                        ack.packet_id,
                    )
                    &&& DirectClientInner::exchange_over(
                        (DirectClientInner {
                            pending_pubacks: final(self).pending_pubacks,
                            ..*old(self)
                        }),
                        *final(self),
                        ack.packet_id,
                    )
                } else {
                    r == (ResponseStep::Handle { packet, published: None }) && *final(self)
                        == *old(self)
                },
                Packet::PubRec(ack) => if !ack.reason_code.error() {
                    r == (ResponseStep::Handle { packet, published: None }) && *final(self)
                        == *old(self)
                } else if old(self).pending_pubcomps@.contains(ack.packet_id) {
                    &&& r == (ResponseStep::Published {
                        packet_id: ack.packet_id,
                        reason_code: ack.reason_code,
                    })
                    &&& final(self).pending_pubcomps@ == old(self).pending_pubcomps@.remove(
                        ack.packet_id,
                    )
                    &&& DirectClientInner::exchange_over(
                        (DirectClientInner {
                            pending_pubcomps: final(self).pending_pubcomps,
                            ..*old(self)
                        }),
                        *final(self),
                        ack.packet_id,
                    )
                } else {
                    r is Ignore && *final(self) == *old(self)
                },
                Packet::PubComp(ack) => if old(self).pending_pubcomps@.contains(ack.packet_id) {
                    &&& r == (ResponseStep::Handle {
                        packet,
                        published: Some((ack.packet_id, ack.reason_code)),
                    })
                    &&& DirectClientInner::pubcomp_answered(
                        *old(self),
                        *final(self),
                        ack.packet_id,
                    )
                } else {
                    r == (ResponseStep::Handle { packet, published: None }) && *final(self)
                        == *old(self)
                },
                _ => r == (ResponseStep::Handle { packet, published: None }) && *final(self)
                    == *old(self),
            },
    {
        match packet {
            Packet::SubAck(ack) => {
                if self.pending_subacks.contains(ack.packet_id) {
                    self.pending_subacks.remove(ack.packet_id);
                    return ResponseStep::SubAck(ack);
                }
                ResponseStep::Handle { packet: Packet::SubAck(ack), published: None }
            },
            Packet::UnsubAck(ack) => {
                if self.pending_unsubacks.contains(ack.packet_id) {
                    self.pending_unsubacks.remove(ack.packet_id);
                    return ResponseStep::UnsubAck(ack);
                }
                ResponseStep::Handle { packet: Packet::UnsubAck(ack), published: None }
            },
            Packet::PubAck(ack) => {
                if self.pending_pubacks.contains(ack.packet_id) {
                    self.pending_pubacks.remove(ack.packet_id);
                    self.release_outbound_quota(ack.packet_id);
                    return ResponseStep::Published {
                        packet_id: ack.packet_id,
                        reason_code: ack.reason_code,
                    };
                }
                ResponseStep::Handle { packet: Packet::PubAck(ack), published: None }
            },
            Packet::PubRec(ack) => {
                if !ack.reason_code.is_error() {
                    return ResponseStep::Handle { packet: Packet::PubRec(ack), published: None };
                }
                if self.pending_pubcomps.contains(ack.packet_id) {
                    self.pending_pubcomps.remove(ack.packet_id);
                    self.release_outbound_quota(ack.packet_id);
                    return ResponseStep::Published {
                        packet_id: ack.packet_id,
                        reason_code: ack.reason_code,
                    };
                }
                ResponseStep::Ignore
            },
            Packet::PubComp(ack) => {
                let published = if self.pending_pubcomps.contains(ack.packet_id) {
                    self.pending_pubcomps.remove(ack.packet_id);
                    Some((ack.packet_id, ack.reason_code))
                } else {
                    None
                };
                ResponseStep::Handle { packet: Packet::PubComp(ack), published }
            },
            other => ResponseStep::Handle { packet: other, published: None },
        }
    }

    /// Nobody waits for the PUBCOMP of a message any more.
    pub open spec fn pubcomp_answered(
        before: DirectClientInner,
        after: DirectClientInner,
        packet_id: u16,
    ) -> bool {
        &&& after.pending_pubcomps@ == before.pending_pubcomps@.remove(packet_id)
        &&& after == (DirectClientInner { pending_pubcomps: after.pending_pubcomps, ..before })
    }

    /// Checks that a packet can be sent.
    pub fn send_packet(has_writer: bool) -> (r: Result<()>)
        ensures
            r == (if has_writer {
                Ok::<(), MqttError>(())
            } else {
                Err::<(), MqttError>(MqttError::NotConnected)
            }),
    {
        if has_writer {
            Ok(())
        } else {
            Err(MqttError::NotConnected)
        }
    }

    /// Whether datagrams can be sent: they are enabled, and the connection takes them.
    pub fn datagrams_available(enabled: bool, connection_maximum: Option<usize>) -> (r: bool)
        ensures
            r == (enabled && connection_maximum is Some),
    {
        enabled && connection_maximum.is_some()
    }

    /// The largest datagram that can be sent.
    pub fn max_datagram_size(enabled: bool, connection_maximum: Option<usize>) -> (r: Option<usize>)
        ensures
            r == (if enabled {
                connection_maximum
            } else {
                None
            }),
    {
        if enabled {
            connection_maximum
        } else {
            None
        }
    }

    /// Checks that a datagram can be sent or read: datagrams are enabled, and there is a
    /// connection.
    pub fn send_datagram(enabled: bool, has_connection: bool) -> (r: Result<()>)
        ensures
            r is Ok <==> enabled && has_connection,
            !enabled ==> (r matches Err(MqttError::InvalidState(text)) && text@
                == "Datagrams not enabled"@),
            enabled && !has_connection ==> (r matches Err(e) && e == MqttError::NotConnected),
    {
        if !enabled {
            return Err(MqttError::InvalidState(owned("Datagrams not enabled")));
        }
        if !has_connection {
            return Err(MqttError::NotConnected);
        }
        Ok(())
    }

    /// Checks that a message can be sent as a datagram: it must not want an acknowledgement, and a
    /// datagram must be possible.
    pub fn send_publish_as_datagram(
        publish: &PublishPacket,
        enabled: bool,
        has_connection: bool,
    ) -> (r: Result<()>)
        ensures
            r is Ok <==> publish.qos == QoS::AtMostOnce && enabled && has_connection,
            publish.qos != QoS::AtMostOnce ==> (r matches Err(MqttError::ProtocolError(text))
                && text@ == "Only QoS 0 publishes can be sent as datagrams"@),
            publish.qos == QoS::AtMostOnce && !enabled ==> (r matches Err(
                MqttError::InvalidState(text),
            ) && text@ == "Datagrams not enabled"@),
            publish.qos == QoS::AtMostOnce && enabled && !has_connection ==> (r matches Err(e)
                && e == MqttError::NotConnected),
    {
        if publish.qos != QoS::AtMostOnce {
            return Err(
                MqttError::ProtocolError(owned("Only QoS 0 publishes can be sent as datagrams")),
            );
        }
        DirectClientInner::send_datagram(enabled, has_connection)
    }
}

/// The interval between signs of life, in milliseconds: three quarters of the keep-alive interval,
/// which is in seconds.
pub open spec fn ping_interval(keep_alive_secs: u64) -> int {
    if keep_alive_secs * 750 <= u64::MAX {
        keep_alive_secs * 750
    } else {
        u64::MAX as int
    }
}

/// The interval between signs of life, in milliseconds.
pub fn ping_millis(keep_alive_secs: u64) -> (r: u64)
    ensures
        r == ping_interval(keep_alive_secs),
{
    let millis: u128 = keep_alive_secs as u128 * 1000 * 3 / 4;
    if millis <= u64::MAX as u128 {
        millis as u64
    } else {
        u64::MAX
    }
}

/// A sign of life goes out before the keep-alive interval is over.
pub proof fn law_ping_comes_in_time(keep_alive_secs: u64)
    requires
        keep_alive_secs > 0,
    ensures
        0 < ping_interval(keep_alive_secs) < keep_alive_secs * 1000,
{
}

/// A message is sent with the quality of service that was asked for, unless that is above the
/// server's maximum: then with the maximum.
pub proof fn law_message_is_sent_with_what_the_server_takes(qos: QoS, maximum: Option<u8>)
    ensures
        effective_qos(qos, maximum).level() <= qos.level(),
        match maximum {
            Some(m) => effective_qos(qos, maximum).level() == (if m < qos.level() {
                m
            } else {
                qos.level()
            }),
            None => effective_qos(qos, maximum) == qos,
        },
{
}

/// A sign of life goes out after three quarters of the keep-alive interval.
pub proof fn law_ping_comes_after_three_quarters(keep_alive_secs: u64)
    requires
        keep_alive_secs <= 0xFFFF_FFFF,
    ensures
        4 * ping_interval(keep_alive_secs) == 3 * (keep_alive_secs * 1000),
{
}

/// A message that waits for its acknowledgement went out under an identifier that was free, and is
/// remembered under it until it is acknowledged; it has the topic and the payload that were asked for.
pub proof fn law_published_message_is_what_was_asked_for(
    before: DirectClientInner,
    after: DirectClientInner,
    packet: PublishPacket,
    topic: String,
    payload: Seq<u8>,
    options: PublishOptions,
    qos: QoS,
    now: u64,
)
    requires
        requested(packet, topic, payload, options, qos, packet.packet_id),
        DirectClientInner::awaiting_acknowledgement(before, after, packet, now),
    ensures
        packet.topic_name == topic,
        packet.payload@ == payload,
        packet.qos == qos,
        packet.retain == options.retain,
        packet.properties == options.properties,
        !packet.dup,
        !before.session.outbound@.contains_key(packet.packet_id->0 as u64),
        after.session.outbound@.contains_key(packet.packet_id->0 as u64),
        after.session.outbound@[packet.packet_id->0 as u64] == Some(packet),
        qos == QoS::AtLeastOnce ==> after.pending_pubacks@.contains(packet.packet_id->0),
        qos == QoS::ExactlyOnce ==> after.pending_pubcomps@.contains(packet.packet_id->0),
        before.session.flow.maximum() > 0 ==> after.session.flow.sent().contains_key(
            packet.packet_id->0 as u64,
        ) && after.session.flow.main_quota().permits < before.session.flow.main_quota().permits,
{
}

/// A message that cannot be sent is refused with the reason, and is not kept; one that is set aside
/// waits last, under an identifier that nothing else has.
pub proof fn law_message_that_cannot_be_sent_now(
    before: DirectClientInner,
    after: DirectClientInner,
    packet: PublishPacket,
    e: MqttError,
    packet_id: u16,
)
    ensures
        DirectClientInner::unsendable(before, after, packet, e) ==> {
            &&& after.session == before.session
            &&& after.queued_messages == before.queued_messages
            &&& after.outbound_ids.reserved() == before.outbound_ids.reserved()
            &&& e is PacketTooLarge ==> before.session.server_maximum_packet_size is Some
                && crate::packets::publish_size(packet)
                > before.session.server_maximum_packet_size->0
            &&& !(e is PacketTooLarge) ==> e == MqttError::FlowControlExceeded
                && before.session.flow.maximum() > 0 && (before.session.flow.main_quota().closed
                || before.session.flow.main_quota().permits == 0)
        },
        DirectClientInner::set_aside(before, after, packet_id) ==> {
            &&& after.queued_messages@.len() == before.queued_messages@.len() + 1
            &&& after.queued_messages@.drop_last() == before.queued_messages@
            &&& after.queued_messages@.last().reservation is Some
            &&& after.queued_messages@.last().reservation->0.id() == packet_id
            &&& packet_id != 0
            &&& !before.outbound_ids.reserved().contains(packet_id)
            &&& !before.session.outbound@.contains_key(packet_id as u64)
            &&& after.outbound_ids.reserved().contains(packet_id)
        },
        DirectClientInner::pubcomp_answered(before, after, packet_id) ==> {
            &&& !after.pending_pubcomps@.contains(packet_id)
            &&& forall|other: u16|
                other != packet_id ==> (#[trigger] after.pending_pubcomps@.contains(other)
                    == before.pending_pubcomps@.contains(other))
            &&& after.session == before.session
        },
{
}

} // verus!
