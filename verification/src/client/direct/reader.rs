//! The packets of the server on their way to whoever waits for them.

use crate::client::connection::{
    disconnect_code_for, disconnect_reason_for, fails_connection, owns_current_connection,
    DisconnectReason,
};
use crate::client::direct::ack::AckCallbackManager;
use crate::client::direct::client::DirectClientInner;
use crate::client::direct::connect::HandshakeStep;
use crate::client::direct::handlers::IncomingStep;
use crate::client::publish_outcome::{Ledger, PublishOutcome, PublishRejection};
use crate::error::{MqttError, ReasonCode, Result};
use crate::packets::{Packet, ReasonPacket, SubAckPacket, UnsubAckPacket};
use crate::session::quic_flow::{FlowFlags, FlowId};
use crate::session::state::{OutboundStage, SessionState};
use crate::text::{decimal_text, joined};
use crate::types::{Properties, QoS};
use vstd::prelude::*;

verus! {

/// How long closing a connection may take, in milliseconds.
pub const CLOSE_TIMEOUT: u64 = 5_000;

/// The most bytes that the header of a flow takes.
pub const FLOW_HEADER_BYTES: usize = 32;

/// The properties of a packet in which the server may explain its answer.
pub open spec fn explained(packet: Packet) -> Option<Properties> {
    match packet {
        Packet::PubAck(p) => Some(p.properties),
        Packet::PubRec(p) => Some(p.properties),
        Packet::PubRel(p) => Some(p.properties),
        Packet::PubComp(p) => Some(p.properties),
        Packet::SubAck(p) => Some(p.properties),
        Packet::UnsubAck(p) => Some(p.properties),
        Packet::Auth(p) => Some(p.properties),
        _ => None,
    }
}

/// The properties of a packet in which the server may explain its answer.
pub fn problem_information_properties(packet: &Packet) -> (r: Option<&Properties>)
    ensures
        match explained(*packet) {
            Some(p) => r matches Some(q) && *q == p,
            None => r is None,
        },
{
    match packet {
        Packet::PubAck(p) => Some(&p.properties),
        Packet::PubRec(p) => Some(&p.properties),
        Packet::PubRel(p) => Some(&p.properties),
        Packet::PubComp(p) => Some(&p.properties),
        Packet::SubAck(p) => Some(&p.properties),
        Packet::UnsubAck(p) => Some(&p.properties),
        Packet::Auth(p) => Some(&p.properties),
        _ => None,
    }
}

/// The name of a packet.
pub open spec fn name_of(packet: Packet) -> Seq<char> {
    match packet {
        Packet::Connect(_) => "CONNECT"@,
        Packet::ConnAck(_) => "CONNACK"@,
        Packet::Publish(_) => "PUBLISH"@,
        Packet::PubAck(_) => "PUBACK"@,
        Packet::PubRec(_) => "PUBREC"@,
        Packet::PubRel(_) => "PUBREL"@,
        Packet::PubComp(_) => "PUBCOMP"@,
        Packet::Subscribe(_) => "SUBSCRIBE"@,
        Packet::SubAck(_) => "SUBACK"@,
        Packet::Unsubscribe(_) => "UNSUBSCRIBE"@,
        Packet::UnsubAck(_) => "UNSUBACK"@,
        Packet::PingReq => "PINGREQ"@,
        Packet::PingResp => "PINGRESP"@,
        Packet::Disconnect(_) => "DISCONNECT"@,
        Packet::Auth(_) => "AUTH"@,
    }
}

/// The name of a packet.
pub fn packet_type_name(packet: &Packet) -> (r: &'static str)
    ensures
        r@ == name_of(*packet),
{
    match packet {
        Packet::Connect(_) => "CONNECT",
        Packet::ConnAck(_) => "CONNACK",
        Packet::Publish(_) => "PUBLISH",
        Packet::PubAck(_) => "PUBACK",
        Packet::PubRec(_) => "PUBREC",
        Packet::PubRel(_) => "PUBREL",
        Packet::PubComp(_) => "PUBCOMP",
        Packet::Subscribe(_) => "SUBSCRIBE",
        Packet::SubAck(_) => "SUBACK",
        Packet::Unsubscribe(_) => "UNSUBSCRIBE",
        Packet::UnsubAck(_) => "UNSUBACK",
        Packet::PingReq => "PINGREQ",
        Packet::PingResp => "PINGRESP",
        Packet::Disconnect(_) => "DISCONNECT",
        Packet::Auth(_) => "AUTH",
    }
}

/// What is said about an explanation that was not asked for.
pub const UNASKED: &'static str =
    " carries a Reason String or User Property although Request Problem Information is 0 [MQTT-3.1.2-29]";

/// Whether a packet explains its answer although that was not asked for.
pub open spec fn unasked(packet: Packet, requested: bool) -> bool {
    &&& !requested
    &&& explained(packet) matches Some(p) && (p.reason_string is Some
        || p.user_properties@.len() > 0)
}

/// Checks that a packet does not explain its answer unless that was asked for.
pub fn check_problem_information(packet: &Packet, requested: bool) -> (r: Result<()>)
    ensures
        r is Err <==> unasked(*packet, requested),
        r matches Err(e) ==> (e matches MqttError::ProtocolError(text) && text@ == name_of(*packet)
            + UNASKED@),
{
    if requested {
        return Ok(());
    }
    match problem_information_properties(packet) {
        None => Ok(()),
        Some(properties) => {
            if properties.reason_string.is_some() || properties.user_properties.len() > 0 {
                let text = joined(packet_type_name(packet), UNASKED, "");
                proof {
                    reveal_strlit("");
                    assert(text@ =~= name_of(*packet) + UNASKED@);
                }
                return Err(MqttError::ProtocolError(text));
            }
            Ok(())
        },
    }
}

/// The stages of an exchange in which an acknowledgement may come.
pub open spec fn accepted(packet: Packet, stage: OutboundStage) -> bool {
    match packet {
        Packet::PubAck(_) => stage == OutboundStage::AwaitingPubAck,
        Packet::PubRec(ack) => stage == OutboundStage::AwaitingPubRec || (!ack.reason_code.error()
            && stage == OutboundStage::AwaitingPubComp),
        Packet::PubComp(_) => stage == OutboundStage::AwaitingPubComp,
        _ => true,
    }
}

/// The exchange to which an acknowledgement belongs.
pub open spec fn exchange_of(packet: Packet) -> Option<u16> {
    match packet {
        Packet::PubAck(ack) => Some(ack.packet_id),
        Packet::PubRec(ack) => Some(ack.packet_id),
        Packet::PubComp(ack) => Some(ack.packet_id),
        _ => None,
    }
}

/// The name of a stage.
pub open spec fn stage_name(stage: OutboundStage) -> Seq<char> {
    match stage {
        OutboundStage::AwaitingPubAck => "AwaitingPubAck"@,
        OutboundStage::AwaitingPubRec => "AwaitingPubRec"@,
        OutboundStage::AwaitingPubComp => "AwaitingPubComp"@,
    }
}

fn stage_text(stage: OutboundStage) -> (r: &'static str)
    ensures
        r@ == stage_name(stage),
{
    match stage {
        OutboundStage::AwaitingPubAck => "AwaitingPubAck",
        OutboundStage::AwaitingPubRec => "AwaitingPubRec",
        OutboundStage::AwaitingPubComp => "AwaitingPubComp",
    }
}

/// Whether an acknowledgement has settled an exchange.
#[derive(Debug, Clone, Copy, PartialEq, Eq, Structural)]
pub enum Routed {
    Settled,
    Unhandled,
}

/// Where a packet of the server goes.
#[derive(Debug)]
pub enum PacketStep {
    /// It has done its work.
    Done,
    /// To the SUBSCRIBE that waits for it.
    SubAck(SubAckPacket),
    /// To the UNSUBSCRIBE that waits for it.
    UnsubAck(UnsubAckPacket),
    /// To the authentication.
    Auth(ReasonPacket),
    /// To `handle_incoming_packet_with_writer`.
    Incoming(Packet),
}

/// How a connection is closed after an error.
#[derive(Debug)]
pub struct Closing {
    /// The code of the DISCONNECT that is sent first, if one is.
    pub disconnect: Option<ReasonCode>,
    pub reason: DisconnectReason,
}

impl DirectClientInner {
    /// Whether an acknowledgement does not belong where its exchange stands. One for an exchange
    /// that is not known is no error.
    pub open spec fn misplaced(&self, packet: Packet) -> bool {
        exchange_of(packet) matches Some(id) && self.session.outbound@.contains_key(id as u64)
            && !accepted(
            packet,
            crate::session::state::stage_of(self.session.outbound@[id as u64]),
        )
    }

    /// The error of an acknowledgement that does not belong where its exchange stands.
    pub open spec fn misplaced_error(&self, packet: Packet, e: MqttError) -> bool {
        let id = exchange_of(packet)->0;
        e matches MqttError::ProtocolError(text) && text@ == (name_of(packet)
            + " for packet identifier "@ + crate::text::decimal(id as nat))
            + " which is waiting for "@ + stage_name(
            crate::session::state::stage_of(self.session.outbound@[id as u64]),
        )
    }

    /// Checks that an acknowledgement belongs where its exchange stands.
    pub fn check_acknowledgement_matches(&self, packet: &Packet) -> (r: Result<()>)
        requires
            self.wf(),
        ensures
            r is Err <==> self.misplaced(*packet),
            r matches Err(e) ==> self.misplaced_error(*packet, e),
    {
        let (packet_id, refused): (u16, bool) = match packet {
            Packet::PubAck(ack) => (ack.packet_id, false),
            Packet::PubRec(ack) => (ack.packet_id, ack.reason_code.is_error()),
            Packet::PubComp(ack) => (ack.packet_id, false),
            _ => {
                return Ok(());
            },
        };
        let stage = match self.session.outbound_stage(packet_id) {
            Some(stage) => stage,
            None => {
                return Ok(());
            },
        };
        let fits = match packet {
            Packet::PubAck(_) => stage == OutboundStage::AwaitingPubAck,
            Packet::PubRec(_) => stage == OutboundStage::AwaitingPubRec || (!refused && stage
                == OutboundStage::AwaitingPubComp),
            _ => stage == OutboundStage::AwaitingPubComp,
        };
        if fits {
            return Ok(());
        }
        let number = decimal_text(packet_id as u64);
        let head = joined(packet_type_name(packet), " for packet identifier ", number.as_str());
        Err(
            MqttError::ProtocolError(
                joined(head.as_str(), " which is waiting for ", stage_text(stage)),
            ),
        )
    }

    /// The publish of an acknowledged exchange has its outcome, and the exchange is over.
    pub open spec fn exchange_settled(
        before: DirectClientInner,
        after: DirectClientInner,
        packet_id: u16,
        qos: QoS,
        outcome: spec_fn(bool) -> PublishOutcome,
    ) -> bool {
        let id = packet_id as u64;
        &&& if before.publish_outcomes.tracks(packet_id, qos) {
            &&& after.publish_outcomes@ == before.publish_outcomes@.remove(id)
            &&& after.ledger@ == Ledger::settled(
                before.ledger@,
                before.publish_outcomes@[id].subject(),
                outcome(before.publish_outcomes@[id].was_resent()),
            )
        } else {
            &&& after.publish_outcomes == before.publish_outcomes
            &&& after.ledger == before.ledger
        }
        &&& after.ledger.upcoming() == before.ledger.upcoming()
        &&& crate::session::state::forgotten(
            before.session.outbound,
            after.session.outbound,
            packet_id,
        )
        &&& DirectClientInner::given_back(before.session.flow, after.session.flow, packet_id)
        &&& after == (DirectClientInner {
            session: SessionState {
                flow: after.session.flow,
                outbound: after.session.outbound,
                ..before.session
            },
            publish_outcomes: after.publish_outcomes,
            ledger: after.ledger,
            ..before
        })
    }

    /// The outcome that ends an exchange. A PUBREC ends it only where it refuses the message.
    pub open spec fn settlement(
        before: DirectClientInner,
        after: DirectClientInner,
        packet: Packet,
        r: Routed,
    ) -> bool {
        match packet {
            Packet::PubAck(ack) => {
                &&& r == Routed::Settled
                &&& DirectClientInner::exchange_settled(
                    before,
                    after,
                    ack.packet_id,
                    QoS::AtLeastOnce,
                    |resent: bool|
                        crate::client::direct::tracking::OutcomeTracker::puback_outcome(
                            resent,
                            ack.packet_id,
                            ack.reason_code,
                        ),
                )
            },
            Packet::PubRec(ack) if ack.reason_code.error() => {
                &&& r == Routed::Settled
                &&& DirectClientInner::exchange_settled(
                    before,
                    after,
                    ack.packet_id,
                    QoS::ExactlyOnce,
                    |resent: bool|
                        crate::client::publish_outcome::rejection_outcome(
                            resent,
                            PublishRejection::Refused(ack.reason_code),
                        ),
                )
            },
            Packet::PubComp(ack) => {
                &&& r == Routed::Settled
                &&& DirectClientInner::exchange_settled(
                    before,
                    after,
                    ack.packet_id,
                    QoS::ExactlyOnce,
                    |resent: bool|
                        PublishOutcome::Delivered(
                            crate::client::publish_outcome::Delivery::with(
                                QoS::ExactlyOnce,
                                Some(ack.packet_id),
                            ),
                        ),
                )
            },
            _ => r == Routed::Unhandled && after == before,
        }
    }

    /// Settles the exchange that an acknowledgement ends.
    pub fn settle_acknowledgement(&mut self, packet: &Packet) -> (r: Result<Routed>)
        requires
            old(self).wf(),
            old(self).session.flow.can_refill(),
        ensures
            final(self).wf(),
            match r {
                Ok(routed) => !old(self).misplaced(*packet) && DirectClientInner::settlement(
                    *old(self),
                    *final(self),
                    *packet,
                    routed,
                ),
                Err(e) => {
                    &&& old(self).misplaced(*packet)
                    &&& old(self).misplaced_error(*packet, e)
                    &&& *final(self) == *old(self)
                },
            },
    {
        match self.check_acknowledgement_matches(packet) {
            Ok(()) => {},
            Err(e) => {
                return Err(e);
            },
        }
        match packet {
            Packet::PubAck(ack) => {
                self.publish_outcomes.settle_puback(
                    &mut self.ledger,
                    ack.packet_id,
                    ack.reason_code,
                );
                self.release_outbound_quota(ack.packet_id);
                Ok(Routed::Settled)
            },
            Packet::PubRec(ack) => {
                if !ack.reason_code.is_error() {
                    return Ok(Routed::Unhandled);
                }
                self.session.remove_unacked_publish(ack.packet_id);
                self.publish_outcomes.refused(
                    &mut self.ledger,
                    ack.packet_id,
                    QoS::ExactlyOnce,
                    ack.reason_code,
                );
                self.release_outbound_quota(ack.packet_id);
                proof {
                    let key = ack.packet_id as u64;
                    assert(self.session.outbound@ =~= old(self).session.outbound@.remove(key));
                    crate::id_map::lemma_without_key_twice(
                        old(self).session.outbound.listing(),
                        key,
                    );
                }
                Ok(Routed::Settled)
            },
            Packet::PubComp(ack) => {
                self.publish_outcomes.acknowledged(
                    &mut self.ledger,
                    ack.packet_id,
                    QoS::ExactlyOnce,
                );
                self.release_outbound_quota(ack.packet_id);
                Ok(Routed::Settled)
            },
            _ => Ok(Routed::Unhandled),
        }
    }

    /// Where a packet of the server goes. `requested` says whether the server may explain its
    /// answers.
    pub fn process_packet(&mut self, packet: Packet, requested: bool) -> (r: Result<PacketStep>)
        requires
            old(self).wf(),
            old(self).session.flow.can_refill(),
        ensures
            final(self).wf(),
            if unasked(packet, requested) {
                &&& r matches Err(MqttError::ProtocolError(text)) && text@ == name_of(packet)
                    + UNASKED@
                &&& *final(self) == *old(self)
            } else if old(self).misplaced(packet) {
                &&& r matches Err(e) && old(self).misplaced_error(packet, e)
                &&& *final(self) == *old(self)
            } else {
                match packet {
                    Packet::PubAck(_) | Packet::PubComp(_) => (r matches Ok(PacketStep::Done))
                        && DirectClientInner::settlement(
                        *old(self),
                        *final(self),
                        packet,
                        Routed::Settled,
                    ),
                    Packet::PubRec(ack) => if ack.reason_code.error() {
                        (r matches Ok(PacketStep::Done)) && DirectClientInner::settlement(
                            *old(self),
                            *final(self),
                            packet,
                            Routed::Settled,
                        )
                    } else {
                        r == Ok::<PacketStep, MqttError>(PacketStep::Incoming(packet))
                            && *final(self) == *old(self)
                    },
                    Packet::SubAck(ack) => if old(self).pending_subacks@.contains(ack.packet_id) {
                        &&& r == Ok::<PacketStep, MqttError>(PacketStep::SubAck(ack))
                        &&& final(self).pending_subacks@ == old(self).pending_subacks@.remove(
                            ack.packet_id,
                        )
                        &&& *final(self) == (DirectClientInner {
                            pending_subacks: final(self).pending_subacks,
                            ..*old(self)
                        })
                    } else {
                        r == Ok::<PacketStep, MqttError>(PacketStep::Incoming(packet))
                            && *final(self) == *old(self)
                    },
                    Packet::UnsubAck(ack) => if old(self).pending_unsubacks@.contains(
                        ack.packet_id,
                    ) {
                        &&& r == Ok::<PacketStep, MqttError>(PacketStep::UnsubAck(ack))
                        &&& final(self).pending_unsubacks@ == old(self).pending_unsubacks@.remove(
                            ack.packet_id,
                        )
                        &&& *final(self) == (DirectClientInner {
                            pending_unsubacks: final(self).pending_unsubacks,
                            ..*old(self)
                        })
                    } else {
                        r == Ok::<PacketStep, MqttError>(PacketStep::Incoming(packet))
                            && *final(self) == *old(self)
                    },
                    Packet::Auth(auth) => r == Ok::<PacketStep, MqttError>(PacketStep::Auth(auth))
                        && *final(self) == *old(self),
                    _ => r == Ok::<PacketStep, MqttError>(PacketStep::Incoming(packet))
                        && *final(self) == *old(self),
                }
            },
    {
        match check_problem_information(&packet, requested) {
            Ok(()) => {},
            Err(e) => {
                return Err(e);
            },
        }
        match self.settle_acknowledgement(&packet) {
            Ok(Routed::Settled) => {
                return Ok(PacketStep::Done);
            },
            Ok(Routed::Unhandled) => {},
            Err(e) => {
                return Err(e);
            },
        }
        match packet {
            Packet::SubAck(ack) => {
                if self.pending_subacks.contains(ack.packet_id) {
                    self.pending_subacks.remove(ack.packet_id);
                    return Ok(PacketStep::SubAck(ack));
                }
                Ok(PacketStep::Incoming(Packet::SubAck(ack)))
            },
            Packet::UnsubAck(ack) => {
                if self.pending_unsubacks.contains(ack.packet_id) {
                    self.pending_unsubacks.remove(ack.packet_id);
                    return Ok(PacketStep::UnsubAck(ack));
                }
                Ok(PacketStep::Incoming(Packet::UnsubAck(ack)))
            },
            Packet::Auth(auth) => Ok(PacketStep::Auth(auth)),
            other => Ok(PacketStep::Incoming(other)),
        }
    }

    /// What an AUTH packet asks of the client during a session.
    pub fn handle_auth_packet(&self, auth: &ReasonPacket, has_handler: bool) -> (r: Result<
        HandshakeStep,
    >)
        ensures
            self.auth_step(*auth, has_handler, r),
    {
        self.handle_connect_auth(auth, has_handler)
    }

    /// Nobody waits for SUBACK or UNSUBACK any more, unless another connection has been made since.
    pub fn clear_pending_if_current(&mut self, epoch: u64)
        requires
            old(self).wf(),
        ensures
            final(self).wf(),
            if epoch == old(self).connection_epoch {
                &&& final(self).pending_subacks@ == Set::<u16>::empty()
                &&& final(self).pending_unsubacks@ == Set::<u16>::empty()
                &&& *final(self) == (DirectClientInner {
                    pending_subacks: final(self).pending_subacks,
                    pending_unsubacks: final(self).pending_unsubacks,
                    ..*old(self)
                })
            } else {
                *final(self) == *old(self)
            },
    {
        if !owns_current_connection(epoch, self.connection_epoch) {
            return ;
        }
        self.pending_subacks.clear();
        self.pending_unsubacks.clear();
    }

    /// The reader of a connection ends with an error: says how the connection is closed.
    pub fn packet_reader_failed(&mut self, epoch: u64, failure: &MqttError) -> (r: Closing)
        requires
            old(self).wf(),
        ensures
            final(self).wf(),
            r.disconnect == crate::client::connection::closing_code(*failure),
            crate::client::connection::reports(r.reason, *failure),
            if epoch == old(self).connection_epoch {
                &&& final(self).pending_subacks@ == Set::<u16>::empty()
                &&& final(self).pending_unsubacks@ == Set::<u16>::empty()
                &&& *final(self) == (DirectClientInner {
                    pending_subacks: final(self).pending_subacks,
                    pending_unsubacks: final(self).pending_unsubacks,
                    ..*old(self)
                })
            } else {
                *final(self) == *old(self)
            },
    {
        self.clear_pending_if_current(epoch);
        Closing { disconnect: disconnect_code_for(failure), reason: disconnect_reason_for(failure) }
    }

    /// Takes a packet of a stream that the server opened: an acknowledgement is settled, anything
    /// else is handled with the flow of the stream.
    pub fn take_stream_packet(
        &mut self,
        packet: Packet,
        flow_id: Option<FlowId>,
        callbacks: Option<&AckCallbackManager>,
        now: u64,
    ) -> (r: Result<IncomingStep>)
        requires
            old(self).wf(),
            old(self).has_place(),
            old(self).session.flow.can_refill(),
            callbacks matches Some(manager) ==> manager.wf(),
        ensures
            final(self).wf(),
            if old(self).misplaced(packet) {
                &&& r matches Err(e) && old(self).misplaced_error(packet, e)
                &&& *final(self) == *old(self)
            } else if packet is PubAck || packet is PubComp || (packet matches Packet::PubRec(ack)
                && ack.reason_code.error()) {
                &&& r matches Ok(IncomingStep::Done)
                &&& DirectClientInner::settlement(
                    *old(self),
                    *final(self),
                    packet,
                    Routed::Settled,
                )
            } else {
                DirectClientInner::incoming(
                    *old(self),
                    *final(self),
                    packet,
                    flow_id,
                    callbacks,
                    r,
                    now,
                )
            },
    {
        match self.settle_acknowledgement(&packet) {
            Ok(Routed::Settled) => Ok(IncomingStep::Done),
            Ok(Routed::Unhandled) => self.handle_incoming_packet_with_writer(
                packet,
                flow_id,
                callbacks,
                now,
            ),
            Err(e) => Err(e),
        }
    }

    /// A stream of the server ends with an error: says how the connection is closed, if it is.
    pub fn end_data_stream(&mut self, epoch: u64, error: &MqttError) -> (r: Option<Closing>)
        requires
            old(self).wf(),
        ensures
            final(self).wf(),
            r is Some <==> (*error is ServerDisconnect || crate::client::connection::closing_code(
                *error,
            ) is Some),
            r matches Some(closing) ==> closing.disconnect
                == crate::client::connection::closing_code(*error)
                && crate::client::connection::reports(closing.reason, *error),
            r is None ==> *final(self) == *old(self),
            r is Some && epoch == old(self).connection_epoch ==> final(self).pending_subacks@
                == Set::<u16>::empty() && final(self).pending_unsubacks@ == Set::<u16>::empty(),
            epoch != old(self).connection_epoch ==> *final(self) == *old(self),
            *final(self) == (DirectClientInner {
                pending_subacks: final(self).pending_subacks,
                pending_unsubacks: final(self).pending_unsubacks,
                ..*old(self)
            }),
    {
        if !fails_connection(error) {
            return None;
        }
        Some(self.packet_reader_failed(epoch, error))
    }
}

/// Whether a packet reports an error with which the connection ends.
pub fn is_error_disconnect(packet: &Packet) -> (r: bool)
    ensures
        r == (packet matches Packet::Disconnect(p) && p.reason_code.error()),
{
    match packet {
        Packet::Disconnect(p) => p.reason_code.is_error(),
        _ => false,
    }
}

/// The bytes with which the headers of flows begin.
#[derive(Debug, Clone, Copy, PartialEq, Eq, Structural)]
pub struct FlowTypes {
    pub control: u8,
    pub client_data: u8,
    pub server_data: u8,
}

impl FlowTypes {
    /// Whether a header of a flow begins with a byte.
    pub open spec fn begins(self, b: u8) -> bool {
        b == self.control || b == self.client_data || b == self.server_data
    }

    /// Whether a header of a flow begins with a byte.
    pub fn is_flow_header_byte(self, b: u8) -> (r: bool)
        ensures
            r == self.begins(b),
    {
        b == self.control || b == self.client_data || b == self.server_data
    }
}

/// The header of a flow.
#[derive(Debug, Clone, Copy, PartialEq, Eq, Structural)]
pub enum FlowHeader {
    Control { flow_id: FlowId, flags: FlowFlags },
    /// The interval is in seconds; zero for none.
    ClientData { flow_id: FlowId, expire_interval: u64, flags: FlowFlags },
    ServerData { flow_id: FlowId, expire_interval: u64, flags: FlowFlags },
    UserDefined,
}

/// What the start of a stream says of its flow.
#[derive(Debug)]
pub struct ServerFlowResult {
    pub flow_id: Option<FlowId>,
    pub flags: Option<FlowFlags>,
    /// In seconds.
    pub expire: Option<u64>,
    /// The bytes that were read and do not belong to the header.
    pub leftover: Vec<u8>,
}

/// What is done next to read the header of a flow.
#[derive(Debug)]
pub enum HeaderStep {
    /// At most so many bytes are read.
    Read(usize),
    /// There is no header; these bytes belong to the first packet.
    NoHeader(ServerFlowResult),
    /// The header is in these bytes.
    Decode(Vec<u8>),
}

/// Reads the header of a flow from the start of a stream.
#[derive(Debug)]
pub struct FlowHeaderReader {
    pub types: FlowTypes,
    pub buffer: Vec<u8>,
}

/// The bytes that a read gives; none at the end of the stream.
pub open spec fn chunk_bytes(chunk: Option<Vec<u8>>) -> Seq<u8> {
    match chunk {
        Some(bytes) => bytes@,
        None => Seq::empty(),
    }
}

impl FlowHeaderReader {
    /// Begins: one byte is read.
    pub fn new(types: FlowTypes) -> (r: (Self, HeaderStep))
        ensures
            r.0.types == types,
            r.0.buffer@ == Seq::<u8>::empty(),
            r.1 == HeaderStep::Read(1),
    {
        (FlowHeaderReader { types, buffer: Vec::new() }, HeaderStep::Read(1))
    }

    /// Goes on with what a read gave. The first byte says whether there is a header; then as many
    /// bytes are read as a header may take, or as there are.
    pub fn try_read_server_flow_header(&mut self, chunk: Option<Vec<u8>>) -> (r: HeaderStep)
        requires
            old(self).buffer@.len() < FLOW_HEADER_BYTES,
        ensures
            final(self).types == old(self).types,
            ({
                let before = old(self).buffer@;
                let bytes = chunk_bytes(chunk);
                if before.len() == 0 && (bytes.len() == 0 || !old(self).types.begins(bytes[0])) {
                    &&& r matches HeaderStep::NoHeader(result) && result.leftover@ == bytes
                        && result.flow_id is None && result.flags is None && result.expire is None
                    &&& final(self).buffer@ == before
                } else if bytes.len() == 0 {
                    &&& r matches HeaderStep::Decode(header) && header@ == before
                    &&& final(self).buffer@ == Seq::<u8>::empty()
                } else if before.len() + bytes.len() < FLOW_HEADER_BYTES {
                    &&& r == HeaderStep::Read(
                        (FLOW_HEADER_BYTES - before.len() - bytes.len()) as usize,
                    )
                    &&& final(self).buffer@ == before + bytes
                } else {
                    &&& r matches HeaderStep::Decode(header) && header@ == before + bytes
                    &&& final(self).buffer@ == Seq::<u8>::empty()
                }
            }),
    {
        let bytes = match chunk {
            Some(bytes) => bytes,
            None => Vec::new(),
        };
        assert(bytes@ =~= chunk_bytes(chunk));
        if self.buffer.len() == 0 {
            if bytes.len() == 0 || !self.types.is_flow_header_byte(bytes[0]) {
                return HeaderStep::NoHeader(
                    ServerFlowResult { flow_id: None, flags: None, expire: None, leftover: bytes },
                );
            }
        }
        let ghost before = self.buffer@;
        let mut header: Vec<u8> = Vec::new();
        std::mem::swap(&mut header, &mut self.buffer);
        if bytes.len() == 0 {
            return HeaderStep::Decode(header);
        }
        let mut i: usize = 0;
        assert(before + bytes@.take(0) =~= before);
        while i < bytes.len()
            invariant
                i <= bytes@.len(),
                header@ == before + bytes@.take(i as int),
                self.buffer@ == Seq::<u8>::empty(),
                self.types == old(self).types,
            decreases bytes@.len() - i,
        {
            header.push(bytes[i]);
            assert(header@ =~= before + bytes@.take(i + 1));
            i = i + 1;
        }
        assert(bytes@.take(bytes@.len() as int) =~= bytes@);
        if header.len() < FLOW_HEADER_BYTES {
            let missing: usize = FLOW_HEADER_BYTES - header.len();
            self.buffer = header;
            return HeaderStep::Read(missing);
        }
        HeaderStep::Decode(header)
    }
}

/// What the header of a flow says. A header of another kind says nothing.
pub fn server_flow(header: FlowHeader, leftover: Vec<u8>) -> (r: ServerFlowResult)
    ensures
        r.leftover == leftover,
        match header {
            FlowHeader::Control { flow_id, flags } => r.flow_id == Some(flow_id) && r.flags == Some(
                flags,
            ) && r.expire is None,
            FlowHeader::ClientData { flow_id, expire_interval, flags }
            | FlowHeader::ServerData { flow_id, expire_interval, flags } => {
                &&& r.flow_id == Some(flow_id)
                &&& r.flags == Some(flags)
                &&& r.expire == (if expire_interval > 0 {
                    Some(expire_interval)
                } else {
                    None
                })
            },
            FlowHeader::UserDefined => r.flow_id is None && r.flags is None && r.expire is None,
        },
{
    match header {
        FlowHeader::Control { flow_id, flags } => ServerFlowResult {
            flow_id: Some(flow_id),
            flags: Some(flags),
            expire: None,
            leftover,
        },
        FlowHeader::ClientData { flow_id, expire_interval, flags }
        | FlowHeader::ServerData { flow_id, expire_interval, flags } => {
            let expire = if expire_interval > 0 {
                Some(expire_interval)
            } else {
                None
            };
            ServerFlowResult { flow_id: Some(flow_id), flags: Some(flags), expire, leftover }
        },
        FlowHeader::UserDefined => ServerFlowResult {
            flow_id: None,
            flags: None,
            expire: None,
            leftover,
        },
    }
}

/// The flow of a stream, and the bytes that were read beyond its header. A stream whose header
/// could not be read has no flow.
pub fn stream_start(header: Result<ServerFlowResult>) -> (r: (Option<FlowId>, Vec<u8>))
    ensures
        match header {
            Ok(result) => {
                &&& r.0 == (if result.flags is Some {
                    result.flow_id
                } else {
                    None
                })
                &&& r.1 == result.leftover
            },
            Err(_) => r.0 is None && r.1@ == Seq::<u8>::empty(),
        },
{
    match header {
        Ok(result) => {
            let flow_id = match result.flags {
                Some(_) => result.flow_id,
                None => None,
            };
            (flow_id, result.leftover)
        },
        Err(_) => (None, Vec::new()),
    }
}

/// What was read from a data stream. A packet that comes while the connection is closed is not
/// taken any more.
pub fn read_data_stream_packet(read: Result<Packet>, closing: bool) -> (r: Option<Result<Packet>>)
    ensures
        r == (if read is Ok && closing {
            None
        } else {
            Some(read)
        }),
{
    match read {
        Ok(packet) => if closing {
            None
        } else {
            Some(Ok(packet))
        },
        Err(e) => Some(Err(e)),
    }
}

/// An acknowledgement that ends an exchange frees its identifier and leaves its publish with an
/// outcome.
pub proof fn law_acknowledged_exchange_is_over(
    before: DirectClientInner,
    after: DirectClientInner,
    packet: Packet,
)
    requires
        DirectClientInner::settlement(before, after, packet, Routed::Settled),
    ensures
        exchange_of(packet) matches Some(id) && !after.session.outbound@.contains_key(id as u64) && (
        before.session.flow.maximum() > 0 ==> !after.session.flow.sent().contains_key(id as u64)),
{
}

/// An acknowledgement is taken only for the message that it can be for: PUBACK for a QoS 1 message,
/// PUBREC for a QoS 2 message, and PUBCOMP once that was released. A repeated PUBREC that refuses
/// nothing is taken then too.
pub proof fn law_acknowledgement_fits_its_message(
    ack: crate::packets::AckPacket,
    publish: crate::types::PublishPacket,
)
    requires
        publish.qos != QoS::AtMostOnce,
    ensures
        ({
            let sent = crate::session::state::stage_of(Some(publish));
            let released = crate::session::state::stage_of(None);
            &&& accepted(Packet::PubAck(ack), sent) <==> publish.qos == QoS::AtLeastOnce
            &&& !accepted(Packet::PubAck(ack), released)
            &&& accepted(Packet::PubRec(ack), sent) <==> publish.qos == QoS::ExactlyOnce
            &&& accepted(Packet::PubRec(ack), released) <==> ack.reason_code.byte() < 0x80
            &&& !accepted(Packet::PubComp(ack), sent)
            &&& accepted(Packet::PubComp(ack), released)
        }),
{
}

/// Whoever published a message is told what the server said of it: an acknowledgement without a
/// failure delivers it with the quality of service it was sent with, under its identifier, and one
/// with a failure rejects it with that code. Other publishes keep their outcome.
pub proof fn law_publisher_is_told_the_outcome(
    before: DirectClientInner,
    after: DirectClientInner,
    ack: crate::packets::AckPacket,
    qos: QoS,
    other: u64,
)
    requires
        before.publish_outcomes.tracks(ack.packet_id, qos),
        !before.publish_outcomes@[ack.packet_id as u64].was_resent(),
        other != before.publish_outcomes@[ack.packet_id as u64].subject(),
    ensures
        ({
            let publish = before.publish_outcomes@[ack.packet_id as u64].subject();
            let told = Ledger::awaited(after.ledger@, publish);
            let failed = ack.reason_code.byte() >= 0x80;
            let refused = PublishOutcome::Rejected(PublishRejection::Refused(ack.reason_code));
            &&& qos == QoS::AtLeastOnce && DirectClientInner::settlement(
                before,
                after,
                Packet::PubAck(ack),
                Routed::Settled,
            ) ==> told == Some(
                if failed {
                    refused
                } else {
                    PublishOutcome::Delivered(
                        crate::client::publish_outcome::Delivery::AtLeastOnce {
                            packet_id: ack.packet_id,
                        },
                    )
                },
            ) && Ledger::awaited(after.ledger@, other) == Ledger::awaited(before.ledger@, other)
            &&& qos == QoS::ExactlyOnce && failed && DirectClientInner::settlement(
                before,
                after,
                Packet::PubRec(ack),
                Routed::Settled,
            ) ==> told == Some(refused) && Ledger::awaited(after.ledger@, other)
                == Ledger::awaited(before.ledger@, other)
            &&& qos == QoS::ExactlyOnce && DirectClientInner::settlement(
                before,
                after,
                Packet::PubComp(ack),
                Routed::Settled,
            ) ==> told == Some(
                PublishOutcome::Delivered(
                    crate::client::publish_outcome::Delivery::ExactlyOnce {
                        packet_id: ack.packet_id,
                    },
                ),
            ) && Ledger::awaited(after.ledger@, other) == Ledger::awaited(before.ledger@, other)
        }),
{
}

/// A PUBREC that does not refuse a message ends nothing: its exchange goes on.
pub proof fn law_receipt_does_not_end_an_exchange(
    before: DirectClientInner,
    after: DirectClientInner,
    ack: crate::packets::AckPacket,
    r: Routed,
)
    requires
        ack.reason_code.byte() < 0x80,
        DirectClientInner::settlement(before, after, Packet::PubRec(ack), r),
    ensures
        r == Routed::Unhandled,
        after == before,
{
}

/// An explanation is unwelcome only where none was asked for, and only an answer can hold one.
pub proof fn law_explanation_has_to_be_asked_for(packet: Packet)
    ensures
        !unasked(packet, true),
        packet is Publish || packet is ConnAck || packet is Disconnect || packet is PingResp
            ==> !unasked(packet, false),
        packet matches Packet::PubAck(p) ==> (unasked(packet, false) <==> p.properties.reason_string
            is Some || p.properties.user_properties@.len() > 0),
        packet matches Packet::PubRec(p) ==> (unasked(packet, false) <==> p.properties.reason_string
            is Some || p.properties.user_properties@.len() > 0),
        packet matches Packet::PubComp(p) ==> (unasked(packet, false)
            <==> p.properties.reason_string is Some || p.properties.user_properties@.len() > 0),
        packet matches Packet::SubAck(p) ==> (unasked(packet, false) <==> p.properties.reason_string
            is Some || p.properties.user_properties@.len() > 0),
        packet matches Packet::UnsubAck(p) ==> (unasked(packet, false)
            <==> p.properties.reason_string is Some || p.properties.user_properties@.len() > 0),
{
}

/// An acknowledgement that ends an exchange ends it in every respect: the message is not sent again, its
/// slot is free, and nobody waits for its outcome any more. Other exchanges go on.
pub proof fn law_settled_exchange_is_over(
    before: DirectClientInner,
    after: DirectClientInner,
    ack: crate::packets::AckPacket,
    r: Routed,
    other: u64,
)
    requires
        DirectClientInner::settlement(before, after, Packet::PubAck(ack), r)
            || DirectClientInner::settlement(before, after, Packet::PubComp(ack), r) || (
        ack.reason_code.byte() >= 0x80 && DirectClientInner::settlement(
            before,
            after,
            Packet::PubRec(ack),
            r,
        )),
        other != ack.packet_id as u64,
    ensures
        r == Routed::Settled,
        !after.session.outbound@.contains_key(ack.packet_id as u64),
        after.session.outbound@.contains_key(other) == before.session.outbound@.contains_key(other),
        before.session.flow.maximum() > 0 ==> !after.session.flow.sent().contains_key(
            ack.packet_id as u64,
        ),
        before.session.flow.maximum() > 0 && before.session.flow.sent().contains_key(
            ack.packet_id as u64,
        ) && before.session.flow.debt() == 0 && before.session.flow.replay_quota() is None
            && before.session.flow.can_refill()
            ==> after.session.flow.main_quota().permits == before.session.flow.main_quota().permits
            + 1,
        after.session.flow.maximum() == before.session.flow.maximum(),
        after.publish_outcomes@.contains_key(other) == before.publish_outcomes@.contains_key(other),
{
}

/// An acknowledgement is an error only where its exchange is known and waits for another one; one that
/// is for no exchange is let pass.
pub proof fn law_misplaced_acknowledgement(
    client: DirectClientInner,
    ack: crate::packets::AckPacket,
    publish: crate::types::PublishPacket,
)
    requires
        publish.qos != QoS::AtMostOnce,
    ensures
        ({
            let id = ack.packet_id as u64;
            let known = client.session.outbound@.contains_key(id);
            let waits_for = client.session.outbound@[id];
            &&& !known ==> !client.misplaced(Packet::PubAck(ack)) && !client.misplaced(
                Packet::PubRec(ack),
            ) && !client.misplaced(Packet::PubComp(ack))
            &&& known && waits_for == Some(publish) ==> {
                &&& client.misplaced(Packet::PubAck(ack)) <==> publish.qos == QoS::ExactlyOnce
                &&& client.misplaced(Packet::PubRec(ack)) <==> publish.qos == QoS::AtLeastOnce
                &&& client.misplaced(Packet::PubComp(ack))
            }
            &&& known && waits_for is None ==> {
                &&& client.misplaced(Packet::PubAck(ack))
                &&& !client.misplaced(Packet::PubComp(ack))
            }
            &&& !client.misplaced(Packet::PingResp)
        }),
{
}

} // verus!
