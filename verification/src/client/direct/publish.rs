//! The way of a message from the application to the connection.

use crate::client::direct::client::DirectClientInner;
use crate::client::direct::outbound::{check_publish, check_topic_alias, PublishOptions};
use crate::client::direct::replay::QueuedPublish;
use crate::client::direct::tracking::IdReservation;
use crate::client::publish_outcome::{
    Delivery, IndeterminateReason, Ledger, PublishHandle, PublishOutcome,
};
use crate::error::{MqttError, Result};
use crate::packets::publish_len;
use crate::session::flow_control::FlowControlManager;
use crate::session::topic_alias::TopicAliasManager;
use crate::text::{byte_len, is_empty_text, owned};
use crate::types::{Bytes, Properties, PublishPacket, QoS};
use std::sync::Arc;
use vstd::prelude::*;

verus! {

/// The identifier with which the size of a PUBLISH is measured before it has one.
pub const SIZE_PROBE_PACKET_ID: u16 = 1;

/// A message that is ready for the connection.
#[derive(Debug)]
pub struct ReadyPublish {
    /// The message as the application wants it.
    pub request: PublishPacket,
    /// The message as the connection takes it.
    pub packet: PublishPacket,
    pub reservation: Option<IdReservation>,
    /// The connection for which it was made ready.
    pub epoch: u64,
}

/// What became of a message that the application handed over.
#[derive(Debug)]
pub enum StagedPublish {
    /// It waits for a connection.
    Queued(PublishHandle),
    /// It can be sent.
    Ready(ReadyPublish),
}

/// A PUBLISH that is to be written.
#[derive(Debug)]
pub struct Outgoing {
    pub packet: PublishPacket,
    /// The publish that stays in flight until it is acknowledged.
    pub in_flight: Option<PublishHandle>,
}

/// What is done with a message that is ready.
#[derive(Debug)]
pub enum TransmitStep {
    /// It is written.
    Write(Outgoing),
    /// The connection was replaced: the message was made ready for the new one.
    Restaged(ReadyPublish),
}

/// What became of a PUBLISH that was written.
#[derive(Debug)]
pub enum Transmitted {
    Sent(Delivery),
    /// It waits for its acknowledgement.
    InFlight(PublishHandle),
    /// It could not be written, and is sent again with the session.
    Detached(PublishHandle),
}

/// Whether a PUBLISH is larger than the server takes.
pub open spec fn too_large(publish: PublishPacket, limit: Option<u32>) -> bool {
    limit matches Some(max) && crate::packets::publish_size(publish) > max
}

/// Whether the topic of a PUBLISH rests on an alias alone.
pub open spec fn rests_on_alias(publish: PublishPacket) -> bool {
    publish.topic_name@.len() == 0 && publish.properties.topic_alias is Some
}

/// The error of a PUBLISH that is larger than the server takes.
pub open spec fn size_error(publish: PublishPacket, limit: Option<u32>, e: MqttError) -> bool {
    e matches MqttError::PacketTooLarge { size, max } && max == limit->0 && size == (
    if crate::packets::publish_size(publish) < usize::MAX {
        crate::packets::publish_size(publish)
    } else {
        usize::MAX as int
    })
}

impl DirectClientInner {
    /// A PUBLISH with the topic that its alias stands for.
    pub open spec fn resolved(&self, publish: PublishPacket, r: Result<PublishPacket>) -> bool {
        if rests_on_alias(publish) {
            let alias = publish.properties.topic_alias->0;
            match r {
                Ok(p) => {
                    &&& self.session.topic_alias_out.topics().contains_key(alias as u64)
                    &&& p.topic_name@ == self.session.topic_alias_out.topics()[alias as u64]@
                    &&& p == (PublishPacket { topic_name: p.topic_name, ..publish })
                },
                Err(e) => {
                    &&& !self.session.topic_alias_out.topics().contains_key(alias as u64)
                    &&& e == MqttError::TopicAliasInvalid(alias)
                },
            }
        } else {
            r == Ok::<PublishPacket, MqttError>(publish)
        }
    }

    /// Checks the size of a PUBLISH against what the server takes.
    pub fn check_publish_size(&self, publish: &PublishPacket) -> (r: Result<()>)
        ensures
            r is Err <==> too_large(*publish, self.session.server_maximum_packet_size),
            r matches Err(e) ==> size_error(
                *publish,
                self.session.server_maximum_packet_size,
                e,
            ),
    {
        self.session.check_packet_size(publish_len(publish))
    }

    /// Gives a PUBLISH the topic that its alias stands for.
    pub fn with_aliased_topic(&self, publish: PublishPacket) -> (r: Result<PublishPacket>)
        requires
            self.wf(),
        ensures
            self.resolved(publish, r),
    {
        if let Some(alias) = publish.properties.topic_alias {
            if is_empty_text(publish.topic_name.as_str()) {
                let mut packet = publish;
                return match self.session.topic_alias_out.get_topic(alias) {
                    Some(topic) => {
                        packet.topic_name = owned(topic);
                        Ok(packet)
                    },
                    None => Err(MqttError::TopicAliasInvalid(alias)),
                };
            }
        }
        Ok(publish)
    }

    /// A message as the application wants it, to be queued.
    pub open spec fn queue_request(
        &self,
        topic: String,
        payload: Bytes,
        options: PublishOptions,
    ) -> PublishPacket {
        PublishPacket {
            topic_name: topic,
            packet_id: Some(SIZE_PROBE_PACKET_ID),
            payload,
            qos: options.qos,
            retain: options.retain,
            dup: false,
            properties: options.properties,
            protocol_version: self.options.protocol_version.number(),
            stream_id: None,
        }
    }

    /// A message was queued under a new identifier and a new publish; the last known server takes
    /// it.
    pub open spec fn enqueued(
        before: DirectClientInner,
        after: DirectClientInner,
        request: PublishPacket,
        handle: PublishHandle,
    ) -> bool {
        let queue = after.queued_messages@;
        &&& queue.len() == before.queued_messages@.len() + 1
        &&& queue.drop_last() == before.queued_messages@
        &&& queue.last().serial == crate::client::direct::replay::serial_after(
            before.queued_messages.last_serial(),
            1,
        )
        &&& after.queued_messages.last_serial() == queue.last().serial
        &&& queue.last().reservation is Some
        &&& queue.last().completion is Some
        &&& ({
            let id = queue.last().reservation->0.id();
            &&& DirectClientInner::allocated(
                before,
                (DirectClientInner {
                    generator: after.generator,
                    outbound_ids: after.outbound_ids,
                    ..before
                }),
                id,
            )
            &&& queue.last().packet.packet_id == Some(id)
        })
        &&& before.resolved(
            request,
            Ok((PublishPacket { packet_id: request.packet_id, ..queue.last().packet })),
        )
        &&& request.retain ==> before.policy.retain_available
        &&& !too_large(
            (PublishPacket { packet_id: request.packet_id, ..queue.last().packet }),
            before.session.server_maximum_packet_size,
        )
        &&& queue.last().completion->0.subject() == handle.publish
        &&& !queue.last().completion->0.was_resent()
        &&& Ledger::begun(before.ledger, after.ledger, Some(handle))
        &&& after.ledger@ == before.ledger@.insert(
            handle.publish,
            crate::client::publish_outcome::Progress::Pending,
        )
        &&& after == (DirectClientInner {
            generator: after.generator,
            outbound_ids: after.outbound_ids,
            ledger: after.ledger,
            queued_messages: after.queued_messages,
            ..before
        })
    }

    /// Queues a message until there is a connection. What the last known server would not take is
    /// refused at once; only then an identifier is given out.
    pub fn queue_publish_message(
        &mut self,
        topic: String,
        payload: Bytes,
        options: PublishOptions,
    ) -> (r: Result<PublishHandle>)
        requires
            old(self).wf(),
        ensures
            final(self).wf(),
            ({
                let request = old(self).queue_request(topic, payload, options);
                if options.retain && !old(self).policy.retain_available {
                    r == Err::<PublishHandle, MqttError>(MqttError::RetainNotSupported)
                } else {
                    match r {
                        Ok(handle) => DirectClientInner::enqueued(
                            *old(self),
                            *final(self),
                            request,
                            handle,
                        ),
                        Err(e) => {
                            ||| old(self).resolved(request, Err(e))
                            ||| exists|p: PublishPacket|
                                old(self).resolved(request, Ok(p)) && #[trigger] too_large(
                                    p,
                                    old(self).session.server_maximum_packet_size,
                                ) && size_error(p, old(self).session.server_maximum_packet_size, e)
                            ||| e == MqttError::PacketIdExhausted && forall|id: u16|
                                id != 0 ==> #[trigger] old(self).busy(id)
                        },
                    }
                }
            }),
            r is Err ==> *final(self) == *old(self),
    {
        if options.retain && !self.policy.retain_available {
            return Err(MqttError::RetainNotSupported);
        }
        let request = PublishPacket {
            topic_name: topic,
            packet_id: Some(SIZE_PROBE_PACKET_ID),
            payload,
            qos: options.qos,
            retain: options.retain,
            dup: false,
            properties: options.properties,
            protocol_version: self.options.protocol_version.as_u8(),
            stream_id: None,
        };
        let mut publish = match self.with_aliased_topic(request) {
            Ok(publish) => publish,
            Err(e) => {
                return Err(e);
            },
        };
        match self.check_publish_size(&publish) {
            Ok(()) => {},
            Err(e) => {
                return Err(e);
            },
        }
        let ghost fitting = publish;
        let reservation = match self.allocate_packet_id() {
            Ok(reservation) => reservation,
            Err(e) => {
                return Err(e);
            },
        };
        publish.packet_id = Some(reservation.packet_id());
        let (completion, handle) = self.ledger.open();
        self.queued_messages.push_back(QueuedPublish::new(publish, reservation, Some(completion)));
        proof {
            let queue = self.queued_messages@;
            assert(queue.drop_last() =~= old(self).queued_messages@);
            assert((PublishPacket {
                packet_id: Some(SIZE_PROBE_PACKET_ID),
                ..queue.last().packet
            }) == fitting);
        }
        Ok(handle)
    }

    /// What goes out for a payload and the properties of a message: encoded with the default
    /// codec, unless the application does not want that or there is none. The content type of the
    /// codec goes with it, unless the application set one.
    pub open spec fn encoding(
        &self,
        payload: Seq<u8>,
        properties: Properties,
        skip_codec: bool,
        out: (Bytes, Properties),
    ) -> bool {
        match self.encoder(payload, skip_codec) {
            Some((content_type, encoded)) => {
                &&& encoded == Some(out.0@)
                &&& if properties.content_type is Some {
                    out.1 == properties
                } else {
                    &&& out.1.content_type matches Some(t) && t@ == content_type
                    &&& out.1 == (Properties { content_type: out.1.content_type, ..properties })
                }
            },
            None => out.0@ == payload && out.1 == properties,
        }
    }

    /// The content type of the codec that encodes a payload, and what it makes of it; nothing where
    /// the payload goes out as it is.
    pub open spec fn encoder(&self, payload: Seq<u8>, skip_codec: bool) -> Option<
        (Seq<char>, Option<Seq<u8>>),
    > {
        match self.options.codec_registry {
            Some(registry) if !skip_codec => match registry.preferred() {
                Some(content_type) if payload.len()
                    >= registry.known()[content_type].codec.least() => Some(
                    (content_type, registry.known()[content_type].codec.encoded(payload)),
                ),
                _ => None,
            },
            _ => None,
        }
    }

    /// Whether an error is the one with which the codec does not encode a payload.
    pub open spec fn encoding_fails(&self, payload: Seq<u8>, skip_codec: bool, e: MqttError) -> bool {
        &&& self.encoder(payload, skip_codec) matches Some(c) && c.1 is None
        &&& self.options.codec_registry matches Some(registry)
            && registry.known()[registry.preferred()->0].codec.encode_fails(payload, e)
    }

    /// Encodes a payload for the connection.
    pub fn encode_payload(&self, payload: Bytes, options: &PublishOptions) -> (r: Result<
        (Bytes, Properties),
    >)
        requires
            self.wf(),
        ensures
            r is Err <==> (self.encoder(payload@, options.skip_codec) matches Some(e)
                && e.1 is None),
            r matches Err(e) ==> self.encoding_fails(payload@, options.skip_codec, e),
            r matches Ok(out) ==> self.encoding(
                payload@,
                options.properties,
                options.skip_codec,
                out,
            ),
    {
        let mut properties = options.properties.clone();
        if options.skip_codec {
            return Ok((payload, properties));
        }
        match &self.options.codec_registry {
            Some(registry) => match registry.encode_with_default(payload.as_slice()) {
                Ok((encoded, content_type)) => {
                    if let Some(t) = content_type {
                        if properties.content_type.is_none() {
                            properties.content_type = Some(t);
                        }
                    }
                    Ok((encoded, properties))
                },
                Err(e) => Err(e),
            },
            None => Ok((payload, properties)),
        }
    }

    /// The message that is measured against the connection.
    pub open spec fn probe(request: PublishPacket) -> PublishPacket {
        PublishPacket {
            packet_id: if request.qos != QoS::AtMostOnce {
                Some(SIZE_PROBE_PACKET_ID)
            } else {
                None
            },
            ..request
        }
    }

    /// Whether the alias of a message may go out on the connection.
    pub open spec fn alias_passes(&self, request: PublishPacket) -> bool {
        request.properties.topic_alias matches Some(alias)
            ==> crate::client::direct::outbound::alias_usable(
            self.session.topic_alias_out,
            request.topic_name@,
            alias,
        )
    }

    /// What makes a message ready for the connection, or why it cannot be.
    pub open spec fn readied(
        before: DirectClientInner,
        after: DirectClientInner,
        request: PublishPacket,
        r: Result<ReadyPublish>,
    ) -> bool {
        let fit = crate::client::direct::replay::downgraded(
            DirectClientInner::probe(request),
            before.policy.maximum_qos,
        );
        if !before.connected {
            &&& r == Err::<ReadyPublish, MqttError>(MqttError::NotConnected)
            &&& after == before
        } else if !before.alias_passes(request) {
            &&& r == Err::<ReadyPublish, MqttError>(
                MqttError::TopicAliasInvalid(request.properties.topic_alias->0),
            )
            &&& after == before
        } else if request.retain && !before.policy.retain_available {
            &&& r == Err::<ReadyPublish, MqttError>(MqttError::RetainNotSupported)
            &&& after == before
        } else if too_large(fit, before.session.server_maximum_packet_size) {
            &&& r matches Err(e) && size_error(fit, before.session.server_maximum_packet_size, e)
            &&& after == before
        } else if fit.qos == QoS::AtMostOnce {
            &&& after == before
            &&& r == Ok::<_, MqttError>(
                (ReadyPublish {
                    request,
                    packet: fit,
                    reservation: None,
                    epoch: before.connection_epoch,
                }),
            )
        } else {
            match r {
                Ok(ready) => {
                    &&& ready.reservation is Some
                    &&& DirectClientInner::allocated(before, after, ready.reservation->0.id())
                    &&& ready.request == request
                    &&& ready.packet == (PublishPacket {
                        packet_id: Some(ready.reservation->0.id()),
                        ..fit
                    })
                    &&& ready.epoch == before.connection_epoch
                },
                Err(e) => {
                    &&& e == MqttError::PacketIdExhausted
                    &&& forall|id: u16| id != 0 ==> #[trigger] before.busy(id)
                    &&& after == before
                },
            }
        }
    }

    /// Makes a message ready for the connection: its alias, its flags, its size and its quality of
    /// service are those that the server takes, and it has an identifier if it needs one.
    pub fn conform_to_connection(&mut self, request: PublishPacket) -> (r: Result<ReadyPublish>)
        requires
            old(self).wf(),
        ensures
            final(self).wf(),
            DirectClientInner::readied(*old(self), *final(self), request, r),
    {
        if !self.connected {
            return Err(MqttError::NotConnected);
        }
        if let Some(alias) = request.properties.topic_alias {
            match check_topic_alias(
                &self.session.topic_alias_out,
                request.topic_name.as_str(),
                alias,
            ) {
                Ok(()) => {},
                Err(e) => {
                    return Err(e);
                },
            }
        }
        let mut probe = request.clone();
        probe.packet_id = if request.qos != QoS::AtMostOnce {
            Some(SIZE_PROBE_PACKET_ID)
        } else {
            None
        };
        let mut packet = match self.policy.conform(probe) {
            Ok(packet) => packet,
            Err(e) => {
                return Err(e);
            },
        };
        match self.check_publish_size(&packet) {
            Ok(()) => {},
            Err(e) => {
                return Err(e);
            },
        }
        let epoch: u64 = self.connection_epoch;
        if packet.qos == QoS::AtMostOnce {
            return Ok(ReadyPublish { request, packet, reservation: None, epoch });
        }
        let reservation = match self.allocate_packet_id() {
            Ok(reservation) => reservation,
            Err(e) => {
                return Err(e);
            },
        };
        packet.packet_id = Some(reservation.packet_id());
        Ok(ReadyPublish { request, packet, reservation: Some(reservation), epoch })
    }

    /// A message as the application wants it, to be sent.
    pub open spec fn send_request(
        &self,
        topic: String,
        options: PublishOptions,
        out: (Bytes, Properties),
        request: PublishPacket,
    ) -> bool {
        &&& request.topic_name == topic
        &&& request.payload == out.0
        &&& request.qos == options.qos
        &&& request.retain == options.retain
        &&& !request.dup
        &&& request.packet_id is None
        &&& request.protocol_version == self.options.protocol_version.number()
        &&& request.stream_id is None
        &&& if request.protocol_version == 5 {
            request.properties == out.1
        } else {
            request.properties.none()
        }
    }

    /// Takes a message from the application: it is checked, and then queued or made ready for the
    /// connection.
    pub fn stage_publish(
        &mut self,
        topic: String,
        payload: Vec<u8>,
        options: PublishOptions,
    ) -> (r: Result<StagedPublish>)
        requires
            old(self).wf(),
        ensures
            final(self).wf(),
            r is Err ==> *final(self) == *old(self),
            if !crate::client::direct::outbound::publishable(topic@, options.properties) {
                r matches Err(e) && crate::client::direct::outbound::publish_error(
                    topic@,
                    options.properties,
                    e,
                )
            } else if old(self).connected {
                match r {
                    Ok(StagedPublish::Ready(ready)) => exists|out: (Bytes, Properties)|
                        old(self).encoding(payload@, options.properties, options.skip_codec, out)
                            && #[trigger] old(self).send_request(
                            topic,
                            options,
                            out,
                            ready.request,
                        ) && DirectClientInner::readied(
                            *old(self),
                            *final(self),
                            ready.request,
                            Ok(ready),
                        ),
                    Ok(StagedPublish::Queued(_)) => false,
                    Err(e) => {
                        ||| old(self).encoding_fails(payload@, options.skip_codec, e)
                        ||| exists|out: (Bytes, Properties), request: PublishPacket|
                            old(self).encoding(
                                payload@,
                                options.properties,
                                options.skip_codec,
                                out,
                            ) && #[trigger] old(self).send_request(topic, options, out, request)
                                && DirectClientInner::readied(
                                *old(self),
                                *final(self),
                                request,
                                Err(e),
                            )
                    },
                }
            } else if old(self).queue_on_disconnect && options.qos != QoS::AtMostOnce {
                match r {
                    Ok(StagedPublish::Queued(handle)) => exists|shared: Bytes|
                        shared@ == payload@ && DirectClientInner::enqueued(
                            *old(self),
                            *final(self),
                            #[trigger] old(self).queue_request(topic, shared, options),
                            handle,
                        ),
                    Ok(StagedPublish::Ready(_)) => false,
                    Err(e) => {
                        ||| options.retain && !old(self).policy.retain_available && e
                            == MqttError::RetainNotSupported
                        ||| exists|shared: Bytes|
                            shared@ == payload@ && old(self).resolved(
                                #[trigger] old(self).queue_request(topic, shared, options),
                                Err(e),
                            )
                        ||| exists|shared: Bytes, p: PublishPacket|
                            shared@ == payload@ && old(self).resolved(
                                #[trigger] old(self).queue_request(topic, shared, options),
                                Ok(p),
                            ) && #[trigger] too_large(
                                p,
                                old(self).session.server_maximum_packet_size,
                            ) && size_error(p, old(self).session.server_maximum_packet_size, e)
                        ||| e == MqttError::PacketIdExhausted && forall|id: u16|
                            id != 0 ==> #[trigger] old(self).busy(id)
                    },
                }
            } else {
                r == Err::<StagedPublish, MqttError>(MqttError::NotConnected)
            },
    {
        match check_publish(topic.as_str(), &options) {
            Ok(()) => {},
            Err(e) => {
                return Err(e);
            },
        }
        let shared: Bytes = Arc::new(payload);
        if !self.connected {
            if self.queue_on_disconnect && options.qos != QoS::AtMostOnce {
                let ghost request = self.queue_request(topic, shared, options);
                return match self.queue_publish_message(topic, shared, options) {
                    Ok(handle) => Ok(StagedPublish::Queued(handle)),
                    Err(e) => Err(e),
                };
            }
            return Err(MqttError::NotConnected);
        }
        let (final_payload, encoded_properties) = match self.encode_payload(shared, &options) {
            Ok(out) => out,
            Err(e) => {
                return Err(e);
            },
        };
        let ghost out = (final_payload, encoded_properties);
        let protocol_version: u8 = self.options.protocol_version.as_u8();
        let properties = if protocol_version == 5 {
            encoded_properties
        } else {
            Properties::default()
        };
        let request = PublishPacket {
            topic_name: topic,
            payload: final_payload,
            qos: options.qos,
            retain: options.retain,
            dup: false,
            packet_id: None,
            properties,
            protocol_version,
            stream_id: None,
        };
        assert(self.send_request(topic, options, out, request));
        match self.conform_to_connection(request) {
            Ok(ready) => {
                assert(ready.request == request);
                Ok(StagedPublish::Ready(ready))
            },
            Err(e) => Err(e),
        }
    }

    /// A permit came back, if a message had one: it paid a debt, or went to the quota for messages
    /// that are sent again, while that goes on, or else to the one for new messages.
    pub open spec fn given_back(
        before: FlowControlManager,
        after: FlowControlManager,
        packet_id: u16,
    ) -> bool {
        if before.maximum() > 0 && before.sent().contains_key(packet_id as u64) {
            &&& FlowControlManager::permit_returned(before, after, packet_id)
            &&& after.balance() == before.balance()
        } else {
            after == before
        }
    }

    /// Gives the permit of a message back, if it has one.
    pub fn release_send_quota(&mut self, packet_id: u16)
        requires
            old(self).wf(),
            old(self).session.flow.can_refill(),
        ensures
            final(self).wf(),
            DirectClientInner::given_back(
                old(self).session.flow,
                final(self).session.flow,
                packet_id,
            ),
            *final(self) == (DirectClientInner {
                session: crate::session::state::SessionState {
                    flow: final(self).session.flow,
                    ..old(self).session
                },
                ..*old(self)
            }),
    {
        let _ = self.session.flow.acknowledge(packet_id);
    }

    /// An outbound exchange is over: it is forgotten, and its permit comes back.
    pub fn release_outbound_quota(&mut self, packet_id: u16)
        requires
            old(self).wf(),
            old(self).session.flow.can_refill(),
        ensures
            final(self).wf(),
            crate::session::state::forgotten(
                old(self).session.outbound,
                final(self).session.outbound,
                packet_id,
            ),
            DirectClientInner::given_back(
                old(self).session.flow,
                final(self).session.flow,
                packet_id,
            ),
            *final(self) == (DirectClientInner {
                session: crate::session::state::SessionState {
                    flow: final(self).session.flow,
                    outbound: final(self).session.outbound,
                    ..old(self).session
                },
                ..*old(self)
            }),
    {
        self.session.complete_outbound(packet_id);
        self.release_send_quota(packet_id);
    }

    fn give_up(&mut self, reservation: Option<IdReservation>, claimed: Option<u16>)
        requires
            old(self).wf(),
            old(self).session.flow.can_refill(),
        ensures
            final(self).wf(),
            DirectClientInner::returned(*old(self), *final(self), reservation, claimed),
    {
        if let Some(packet_id) = claimed {
            self.release_send_quota(packet_id);
        }
        if let Some(reserved) = reservation {
            self.outbound_ids.release(reserved);
        }
    }

    /// What a message held was given back: the identifier that was reserved for it, and the permit
    /// that it had claimed.
    pub open spec fn returned(
        before: DirectClientInner,
        after: DirectClientInner,
        reservation: Option<IdReservation>,
        claimed: Option<u16>,
    ) -> bool {
        &&& match claimed {
            Some(packet_id) => DirectClientInner::given_back(
                before.session.flow,
                after.session.flow,
                packet_id,
            ),
            None => after.session.flow == before.session.flow,
        }
        &&& after.outbound_ids.quarantined() == before.outbound_ids.quarantined()
        &&& after.outbound_ids.reserved() == match reservation {
            Some(reserved) => before.outbound_ids.reserved().remove(reserved.id()),
            None => before.outbound_ids.reserved(),
        }
        &&& after == (DirectClientInner {
            session: crate::session::state::SessionState {
                flow: after.session.flow,
                ..before.session
            },
            outbound_ids: after.outbound_ids,
            ..before
        })
    }

    /// The permit that a message has claimed from the quota in use.
    pub open spec fn live_claim(&self, packet_id: Option<u16>, claim: Option<u64>) -> Option<u16> {
        if claim == Some(self.session.flow.main_quota().number) {
            packet_id
        } else {
            None
        }
    }

    /// A message that was staged for another connection gives its permit back and is staged anew;
    /// only then its identifier is free.
    pub open spec fn restaged(
        before: DirectClientInner,
        after: DirectClientInner,
        ready: ReadyPublish,
        claimed: Option<u16>,
        r: Result<ReadyPublish>,
    ) -> bool {
        exists|middle: DirectClientInner, staged: DirectClientInner|
            {
                &&& #[trigger] DirectClientInner::returned(before, middle, None, claimed)
                &&& DirectClientInner::readied(middle, staged, ready.request, r)
                &&& #[trigger] DirectClientInner::returned(staged, after, ready.reservation, None)
            }
    }

    /// A message is remembered until it is acknowledged, under its identifier and as a new publish;
    /// the identifier is no longer reserved, for the session holds it.
    pub open spec fn committed(
        before: DirectClientInner,
        after: DirectClientInner,
        ready: ReadyPublish,
        handle: PublishHandle,
    ) -> bool {
        let id = ready.packet.packet_id->0;
        &&& before.resolved(
            ready.packet,
            Ok(after.session.outbound@[id as u64]->0),
        )
        &&& after.session.outbound@.contains_key(id as u64)
        &&& after.session.outbound@[id as u64] is Some
        &&& crate::session::state::remembered(
            before.session.outbound,
            after.session.outbound,
            id,
            after.session.outbound@[id as u64],
        )
        &&& Ledger::begun(before.ledger, after.ledger, Some(handle))
        &&& if before.publish_outcomes@.contains_key(id as u64) {
            &&& after.publish_outcomes == before.publish_outcomes
            &&& after.ledger@ == Ledger::settled(
                before.ledger@,
                handle.publish,
                PublishOutcome::Indeterminate(IndeterminateReason::Abandoned),
            )
        } else {
            &&& after.publish_outcomes.tracks(id, ready.packet.qos)
            &&& after.publish_outcomes@[id as u64].subject() == handle.publish
            &&& !after.publish_outcomes@[id as u64].was_resent()
            &&& after.publish_outcomes@ == before.publish_outcomes@.insert(
                id as u64,
                after.publish_outcomes@[id as u64],
            )
            &&& after.ledger@ == before.ledger@.insert(
                handle.publish,
                crate::client::publish_outcome::Progress::Pending,
            )
        }
        &&& after.outbound_ids.quarantined() == before.outbound_ids.quarantined()
        &&& after.outbound_ids.reserved() == match ready.reservation {
            Some(reserved) => before.outbound_ids.reserved().remove(reserved.id()),
            None => before.outbound_ids.reserved(),
        }
        &&& after == (DirectClientInner {
            session: crate::session::state::SessionState {
                outbound: after.session.outbound,
                ..before.session
            },
            publish_outcomes: after.publish_outcomes,
            ledger: after.ledger,
            outbound_ids: after.outbound_ids,
            ..before
        })
    }

    /// Sends a message that is ready: it is written, and remembered first if it will be
    /// acknowledged. If the connection is gone, or was replaced, what the message held is given
    /// back; for a new connection it is made ready once more.
    pub fn transmit_publish(&mut self, ready: ReadyPublish, claim: Option<u64>) -> (r: Result<
        TransmitStep,
    >)
        requires
            old(self).wf(),
            old(self).session.flow.can_refill(),
        ensures
            final(self).wf(),
            ({
                let claimed = old(self).live_claim(ready.packet.packet_id, claim);
                if !old(self).connected {
                    &&& r == Err::<TransmitStep, MqttError>(MqttError::NotConnected)
                    &&& DirectClientInner::returned(
                        *old(self),
                        *final(self),
                        ready.reservation,
                        claimed,
                    )
                } else if ready.epoch != old(self).connection_epoch {
                    match r {
                        Ok(TransmitStep::Restaged(again)) => DirectClientInner::restaged(
                            *old(self),
                            *final(self),
                            ready,
                            claimed,
                            Ok(again),
                        ),
                        Ok(TransmitStep::Write(_)) => false,
                        Err(e) => DirectClientInner::restaged(
                            *old(self),
                            *final(self),
                            ready,
                            claimed,
                            Err(e),
                        ),
                    }
                } else if ready.packet.packet_id is Some && ready.packet.qos != QoS::AtMostOnce {
                    match r {
                        Ok(TransmitStep::Write(out)) => {
                            &&& out.packet == ready.packet
                            &&& out.in_flight is Some
                            &&& DirectClientInner::committed(
                                *old(self),
                                *final(self),
                                ready,
                                out.in_flight->0,
                            )
                        },
                        Ok(TransmitStep::Restaged(_)) => false,
                        Err(e) => {
                            &&& old(self).resolved(ready.packet, Err(e))
                            &&& DirectClientInner::returned(
                                *old(self),
                                *final(self),
                                ready.reservation,
                                ready.packet.packet_id,
                            )
                        },
                    }
                } else {
                    &&& r == Ok::<_, MqttError>(
                        TransmitStep::Write(Outgoing { packet: ready.packet, in_flight: None }),
                    )
                    &&& DirectClientInner::returned(
                        *old(self),
                        *final(self),
                        ready.reservation,
                        None,
                    )
                }
            }),
    {
        let packet_id = ready.packet.packet_id;
        let current = match claim {
            Some(number) => number == self.session.flow.quota_number(),
            None => false,
        };
        let claimed = if current {
            packet_id
        } else {
            None
        };
        if !self.connected {
            self.give_up(ready.reservation, claimed);
            return Err(MqttError::NotConnected);
        }
        if ready.epoch != self.connection_epoch {
            let ghost origin = *self;
            self.give_up(None, claimed);
            let ghost middle = *self;
            let again = self.conform_to_connection(ready.request);
            let ghost staged = *self;
            if let Some(reserved) = ready.reservation {
                self.outbound_ids.release(reserved);
            }
            assert(DirectClientInner::returned(origin, middle, None, claimed));
            assert(DirectClientInner::returned(staged, *self, ready.reservation, None));
            return match again {
                Ok(again) => Ok(TransmitStep::Restaged(again)),
                Err(e) => Err(e),
            };
        }
        let qos = ready.packet.qos;
        let in_flight = match packet_id {
            Some(pid) => {
                if qos != QoS::AtMostOnce {
                    let stored = match self.with_aliased_topic(ready.packet.clone()) {
                        Ok(stored) => stored,
                        Err(e) => {
                            self.give_up(ready.reservation, Some(pid));
                            return Err(e);
                        },
                    };
                    self.session.store_unacked_publish(pid, stored);
                    let (completion, handle) = self.ledger.open();
                    self.publish_outcomes.track(&mut self.ledger, pid, qos, completion);
                    proof {
                        if old(self).publish_outcomes@.contains_key(pid as u64) {
                            assert(self.ledger@ =~= Ledger::settled(
                                old(self).ledger@,
                                handle.publish,
                                PublishOutcome::Indeterminate(IndeterminateReason::Abandoned),
                            ));
                        }
                    }
                    Some(handle)
                } else {
                    None
                }
            },
            None => None,
        };
        if let Some(reserved) = ready.reservation {
            self.outbound_ids.release(reserved);
        }
        Ok(TransmitStep::Write(Outgoing { packet: ready.packet, in_flight }))
    }

    /// What becomes of a PUBLISH once it is known whether it could be written. An alias that went
    /// out with its topic is known to the server from then on.
    pub fn finish_transmit(&mut self, out: &Outgoing, written: Result<()>) -> (r: Result<
        Transmitted,
    >)
        requires
            old(self).wf(),
        ensures
            final(self).wf(),
            match (written, out.in_flight) {
                (Ok(()), None) => r == Ok::<_, MqttError>(
                    Transmitted::Sent(Delivery::with(out.packet.qos, out.packet.packet_id)),
                ),
                (Ok(()), Some(handle)) => r == Ok::<_, MqttError>(Transmitted::InFlight(handle)),
                (Err(e), None) => r == Err::<Transmitted, MqttError>(e),
                (Err(_), Some(handle)) => r == Ok::<_, MqttError>(Transmitted::Detached(handle)),
            },
            *final(self) == (DirectClientInner {
                session: crate::session::state::SessionState {
                    topic_alias_out: final(self).session.topic_alias_out,
                    ..old(self).session
                },
                ..*old(self)
            }),
            ({
                let before = old(self).session.topic_alias_out;
                let after = final(self).session.topic_alias_out;
                let alias = out.packet.properties.topic_alias;
                let topic = out.packet.topic_name@;
                if written is Ok && alias is Some && topic.len() > 0 && 0 < alias->0
                    <= before.maximum() {
                    &&& after.topics().contains_key(alias->0 as u64)
                    &&& after.topics()[alias->0 as u64]@ == topic
                    &&& after.topics() == before.topics().insert(
                        alias->0 as u64,
                        after.topics()[alias->0 as u64],
                    )
                    &&& after.aliases() == TopicAliasManager::realiased(
                        before.topics(),
                        before.aliases(),
                        alias->0,
                        topic,
                    )
                    &&& after.maximum() == before.maximum()
                    &&& after.next() == before.next()
                } else {
                    after == before
                }
            }),
    {
        let ok = written.is_ok();
        if ok {
            if let Some(alias) = out.packet.properties.topic_alias {
                if !is_empty_text(out.packet.topic_name.as_str()) {
                    let _ = self.session.topic_alias_out.register_alias(
                        alias,
                        out.packet.topic_name.as_str(),
                    );
                }
            }
        }
        match written {
            Ok(()) => match out.in_flight {
                None => Ok(Transmitted::Sent(Delivery::of(out.packet.qos, out.packet.packet_id))),
                Some(handle) => Ok(Transmitted::InFlight(handle)),
            },
            Err(e) => match out.in_flight {
                None => Err(e),
                Some(handle) => Ok(Transmitted::Detached(handle)),
            },
        }
    }
}

/// How the streams of a QUIC connection are used.
#[derive(Debug, Clone, Copy, PartialEq, Eq, Structural)]
pub enum StreamStrategy {
    ControlOnly,
    DataPerPublish,
    DataPerTopic,
    DataPerSubscription,
}

/// The way that a PUBLISH takes to the server.
#[derive(Debug, Clone, Copy, PartialEq, Eq, Structural)]
pub enum PublishRoute {
    /// In a datagram, if it fits once it is encoded; otherwise the way without datagrams.
    Datagram,
    /// On a stream of its own.
    OwnStream,
    /// On the stream of its topic.
    TopicStream,
    /// On the stream of the control packets.
    Control,
}

/// The way of a PUBLISH without datagrams.
pub open spec fn stream_route(strategy: Option<StreamStrategy>) -> PublishRoute {
    match strategy {
        Some(StreamStrategy::DataPerPublish) => PublishRoute::OwnStream,
        Some(StreamStrategy::ControlOnly) => PublishRoute::Control,
        Some(_) => PublishRoute::TopicStream,
        None => PublishRoute::Control,
    }
}

/// Whether a PUBLISH may go in a datagram: it has no acknowledgement, and topic and payload leave
/// room for the header.
pub open spec fn datagram_candidate(publish: PublishPacket, max_datagram: Option<usize>) -> bool {
    &&& publish.qos == QoS::AtMostOnce
    &&& max_datagram matches Some(max) && publish.payload@.len() + 5 + crate::text::utf8(
        publish.topic_name@,
    ).len() <= max
}

/// The way that a PUBLISH takes. `max_datagram` is there only if datagrams are in use; `strategy`
/// only on a QUIC connection.
pub fn publish_route(
    publish: &PublishPacket,
    max_datagram: Option<usize>,
    strategy: Option<StreamStrategy>,
) -> (r: PublishRoute)
    ensures
        r == (if datagram_candidate(*publish, max_datagram) {
            PublishRoute::Datagram
        } else {
            stream_route(strategy)
        }),
{
    if publish.qos == QoS::AtMostOnce {
        if let Some(max) = max_datagram {
            let size: u128 = publish.payload.len() as u128 + 5 + byte_len(
                publish.topic_name.as_str(),
            ) as u128;
            if size <= max as u128 {
                return PublishRoute::Datagram;
            }
        }
    }
    route_without_datagrams(strategy)
}

/// The way of a PUBLISH without datagrams.
pub fn route_without_datagrams(strategy: Option<StreamStrategy>) -> (r: PublishRoute)
    ensures
        r == stream_route(strategy),
{
    match strategy {
        Some(StreamStrategy::DataPerPublish) => PublishRoute::OwnStream,
        Some(StreamStrategy::ControlOnly) => PublishRoute::Control,
        Some(_) => PublishRoute::TopicStream,
        None => PublishRoute::Control,
    }
}

/// A message that will be acknowledged is remembered before it is written: whatever happens to the
/// connection, the session has it to send again.
pub proof fn law_acknowledged_message_is_in_the_session(
    before: DirectClientInner,
    after: DirectClientInner,
    ready: ReadyPublish,
    handle: PublishHandle,
)
    requires
        DirectClientInner::committed(before, after, ready, handle),
    ensures
        after.session.outbound@.contains_key(ready.packet.packet_id->0 as u64),
        after.busy(ready.packet.packet_id->0),
{
}

/// A message that is ready to go is the one asked for, with the quality of service that the server takes
/// where that is lower, and it keeps to what the server announced: its size, retained messages and
/// aliases. It has an identifier exactly where it will be acknowledged, and one that nothing else has.
pub proof fn law_ready_message_conforms(
    before: DirectClientInner,
    after: DirectClientInner,
    request: PublishPacket,
    ready: ReadyPublish,
)
    requires
        DirectClientInner::readied(before, after, request, Ok(ready)),
    ensures
        before.connected,
        ready.request == request,
        ready.epoch == before.connection_epoch,
        ready.packet.topic_name == request.topic_name,
        ready.packet.payload == request.payload,
        ready.packet.properties == request.properties,
        ready.packet.retain == request.retain,
        ready.packet.dup == request.dup,
        before.policy.maximum_qos is None ==> ready.packet.qos == request.qos,
        before.policy.maximum_qos matches Some(most) ==> ready.packet.qos.level() == (if most
            < request.qos.level() {
            most
        } else {
            request.qos.level()
        }),
        request.retain ==> before.policy.retain_available,
        before.session.server_maximum_packet_size matches Some(most)
            ==> crate::packets::publish_size(ready.packet) <= most,
        ready.packet.packet_id is Some <==> ready.packet.qos != QoS::AtMostOnce,
        ready.packet.packet_id matches Some(id) ==> id != 0
            && !before.session.outbound@.contains_key(id as u64)
            && !before.outbound_ids.reserved().contains(id)
            && after.outbound_ids.reserved().contains(id),
        ready.packet.packet_id is None ==> after == before,
{
    let fit = crate::client::direct::replay::downgraded(
        DirectClientInner::probe(request),
        before.policy.maximum_qos,
    );
    assert(crate::packets::publish_size(fit) == crate::packets::publish_size(ready.packet));
}

/// A message that cannot go is refused with the reason, and nothing is taken for it.
pub proof fn law_message_is_refused_with_the_reason(
    before: DirectClientInner,
    after: DirectClientInner,
    request: PublishPacket,
    e: MqttError,
)
    requires
        DirectClientInner::readied(before, after, request, Err(e)),
    ensures
        after == before,
        !before.connected <==> e == MqttError::NotConnected,
        e == MqttError::RetainNotSupported ==> request.retain && !before.policy.retain_available,
        e == MqttError::PacketIdExhausted ==> before.busy(1) && before.busy(65535),
        e matches MqttError::PacketTooLarge { max, .. }
            ==> before.session.server_maximum_packet_size == Some(max as u32),
{
}

/// A message that is queued while there is no connection is the one asked for, stands last, and waits
/// for its outcome under an identifier that nothing else has; the others stay as they are.
pub proof fn law_queued_message_is_what_was_asked_for(
    before: DirectClientInner,
    after: DirectClientInner,
    topic: String,
    payload: Bytes,
    options: PublishOptions,
    handle: PublishHandle,
)
    requires
        DirectClientInner::enqueued(
            before,
            after,
            before.queue_request(topic, payload, options),
            handle,
        ),
    ensures
        ({
            let queue = after.queued_messages@;
            let last = queue.last();
            &&& queue.len() == before.queued_messages@.len() + 1
            &&& forall|i: int|
                0 <= i < before.queued_messages@.len() ==> queue[i] == (
                #[trigger] before.queued_messages@[i])
            &&& topic@.len() > 0 ==> last.packet.topic_name == topic
            &&& last.packet.payload == payload
            &&& last.packet.qos == options.qos
            &&& last.packet.retain == options.retain
            &&& last.packet.properties == options.properties
            &&& !last.packet.dup
            &&& last.packet.packet_id is Some
            &&& last.packet.packet_id->0 != 0
            &&& !before.session.outbound@.contains_key(last.packet.packet_id->0 as u64)
            &&& !before.outbound_ids.reserved().contains(last.packet.packet_id->0)
            &&& after.outbound_ids.reserved().contains(last.packet.packet_id->0)
            &&& last.completion is Some
            &&& last.completion->0.subject() == handle.publish
            &&& options.retain ==> before.policy.retain_available
            &&& after.session == before.session
        }),
{
    let queue = after.queued_messages@;
    assert forall|i: int| 0 <= i < before.queued_messages@.len() implies queue[i] == (
    #[trigger] before.queued_messages@[i]) by {
        assert(queue.drop_last()[i] == queue[i]);
    }
}

/// A payload is encoded only with a codec, only where that is wished for, and only from the size at
/// which it is worth it; the content type tells which codec it was, unless the application has named
/// one.
pub proof fn law_payload_is_encoded_where_it_is_wished_for(
    client: DirectClientInner,
    payload: Seq<u8>,
    properties: Properties,
    skip_codec: bool,
    out: (Bytes, Properties),
)
    requires
        client.encoding(payload, properties, skip_codec, out),
    ensures
        skip_codec || client.options.codec_registry is None ==> out.0@ == payload && out.1
            == properties,
        client.options.codec_registry matches Some(registry) && registry.preferred() is None
            ==> out.0@ == payload && out.1 == properties,
        client.options.codec_registry matches Some(registry) && registry.preferred() is Some
            && payload.len() < registry.known()[registry.preferred()->0].codec.least() ==> out.0@
            == payload && out.1 == properties,
        !skip_codec && client.options.codec_registry is Some
            && client.options.codec_registry->0.preferred() is Some && payload.len()
            >= client.options.codec_registry->0.known()[client.options.codec_registry->0.preferred()->0].codec.least()
            ==> client.options.codec_registry->0.known()[client.options.codec_registry->0.preferred()->0].codec.encoded(
            payload,
        ) == Some(out.0@) && out.1.content_type is Some && (properties.content_type is None
            ==> out.1.content_type->0@ == client.options.codec_registry->0.preferred()->0),
        properties.content_type is Some ==> out.1 == properties,
        out.1 == (Properties { content_type: out.1.content_type, ..properties }),
{
}

/// What is sent is what was asked for; before version 5 it has no properties.
pub proof fn law_request_is_what_was_asked_for(
    client: DirectClientInner,
    topic: String,
    options: PublishOptions,
    out: (Bytes, Properties),
    request: PublishPacket,
)
    requires
        client.send_request(topic, options, out, request),
    ensures
        request.topic_name == topic,
        request.payload == out.0,
        request.qos.level() == options.qos.level(),
        request.retain == options.retain,
        !request.dup,
        client.options.protocol_version.number() == 5 ==> request.properties == out.1,
        client.options.protocol_version.number() != 5 ==> request.properties.topic_alias is None
            && request.properties.content_type is None
            && request.properties.message_expiry_interval is None,
{
}

/// A message without a topic goes to the topic of its alias, and any other to its own.
pub proof fn law_message_goes_to_its_topic(
    client: DirectClientInner,
    publish: PublishPacket,
    p: PublishPacket,
)
    requires
        client.resolved(publish, Ok(p)),
    ensures
        publish.topic_name@.len() > 0 ==> p == publish,
        publish.topic_name@.len() == 0 && publish.properties.topic_alias is Some
            ==> client.session.topic_alias_out.topics().contains_key(
            publish.properties.topic_alias->0 as u64,
        ) && p.topic_name@ == client.session.topic_alias_out.topics()[publish.properties.topic_alias->0 as u64]@,
        p.payload == publish.payload,
        p.qos == publish.qos,
        p.packet_id == publish.packet_id,
{
}

/// A message whose outcome is waited for is kept until it is acknowledged, with its topic and payload,
/// and its identifier is no longer merely reserved.
pub proof fn law_committed_message_is_kept(
    before: DirectClientInner,
    after: DirectClientInner,
    ready: ReadyPublish,
    handle: PublishHandle,
    other: u64,
)
    requires
        DirectClientInner::committed(before, after, ready, handle),
        ready.packet.topic_name@.len() > 0,
        other != ready.packet.packet_id->0 as u64,
    ensures
        after.session.outbound@.contains_key(ready.packet.packet_id->0 as u64),
        after.session.outbound@[ready.packet.packet_id->0 as u64] == Some(ready.packet),
        after.session.outbound@.contains_key(other) == before.session.outbound@.contains_key(other),
        before.session.outbound@.contains_key(other) ==> after.session.outbound@[other]
            == before.session.outbound@[other],
        ready.reservation matches Some(r) ==> !after.outbound_ids.reserved().contains(r.id()),
        !before.publish_outcomes@.contains_key(ready.packet.packet_id->0 as u64)
            ==> after.publish_outcomes.tracks(ready.packet.packet_id->0, ready.packet.qos)
            && after.publish_outcomes@[ready.packet.packet_id->0 as u64].subject()
            == handle.publish,
{
}

/// A message has a stream of its own, that of its topic, or the control stream, as the strategy says;
/// without a strategy there is only the control stream.
pub proof fn law_strategy_tells_the_stream(strategy: StreamStrategy)
    ensures
        stream_route(None) is Control,
        stream_route(Some(strategy)) is Control <==> strategy == StreamStrategy::ControlOnly,
        stream_route(Some(strategy)) is OwnStream <==> strategy == StreamStrategy::DataPerPublish,
{
}

/// Only a message that is sent at most once goes as a datagram, and only whole.
pub proof fn law_datagram_holds_the_message(publish: PublishPacket, most: usize)
    ensures
        !datagram_candidate(publish, None),
        datagram_candidate(publish, Some(most)) ==> publish.qos.level() == 0
            && publish.payload@.len() + crate::text::utf8(publish.topic_name@).len() + 5 <= most,
        publish.qos.level() == 0 && publish.payload@.len() + crate::text::utf8(
            publish.topic_name@,
        ).len() + 5 <= most ==> datagram_candidate(publish, Some(most)),
{
}

/// A permit is given back only to the quota it was taken from: one of an earlier connection is void.
pub proof fn law_permit_goes_back_to_its_quota(
    client: DirectClientInner,
    packet_id: Option<u16>,
    quota: u64,
)
    ensures
        client.live_claim(packet_id, None) is None,
        quota == client.session.flow.main_quota().number ==> client.live_claim(
            packet_id,
            Some(quota),
        ) == packet_id,
        quota != client.session.flow.main_quota().number ==> client.live_claim(
            packet_id,
            Some(quota),
        ) is None,
{
}

/// What was taken for a message that is not sent is given back: its identifier is free and its slot
/// open; nothing else changes.
pub proof fn law_what_was_taken_is_given_back(
    before: DirectClientInner,
    after: DirectClientInner,
    reservation: Option<IdReservation>,
    claimed: Option<u16>,
    other: u16,
)
    requires
        DirectClientInner::returned(before, after, reservation, claimed),
        reservation matches Some(r) ==> other != r.id(),
    ensures
        reservation matches Some(r) ==> !after.outbound_ids.reserved().contains(r.id()),
        after.outbound_ids.reserved().contains(other) == before.outbound_ids.reserved().contains(
            other,
        ),
        claimed is Some && before.session.flow.maximum() > 0
            ==> !after.session.flow.sent().contains_key(claimed->0 as u64),
        claimed is Some && before.session.flow.maximum() > 0
            && before.session.flow.sent().contains_key(claimed->0 as u64)
            && before.session.flow.debt() == 0 && before.session.flow.replay_quota() is None
            && before.session.flow.can_refill()
            ==> after.session.flow.main_quota().permits == before.session.flow.main_quota().permits
            + 1,
        claimed is None ==> after.session.flow == before.session.flow,
        after.session.outbound == before.session.outbound,
        after.queued_messages == before.queued_messages,
        after.ledger == before.ledger,
{
}

/// A message fits the limit exactly where it is not larger; without a limit every message fits.
pub proof fn law_messages_up_to_the_limit_fit(publish: PublishPacket, most: u32)
    ensures
        !too_large(publish, None),
        too_large(publish, Some(most)) <==> crate::packets::publish_size(publish) > most,
{
}

/// Encoding fails only where it is tried.
pub proof fn law_encoding_fails_only_where_it_is_tried(
    client: DirectClientInner,
    payload: Seq<u8>,
    properties: Properties,
    skip_codec: bool,
    e: MqttError,
    out: (Bytes, Properties),
)
    requires
        client.encoding_fails(payload, skip_codec, e),
    ensures
        !skip_codec,
        client.options.codec_registry is Some,
        client.options.codec_registry->0.preferred() is Some,
        !client.encoding(payload, properties, skip_codec, out),
{
}

} // verus!
