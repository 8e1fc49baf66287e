//! What a new connection sends before any new message: the exchanges of the session, then the
//! messages that waited for a connection.

use crate::client::direct::client::DirectClientInner;
use crate::client::direct::replay::{without_topic_alias, PublishPolicy, QueuedPublish};
use crate::client::publish_outcome::{Delivery, IndeterminateReason, Ledger, PublishOutcome};
use crate::error::{MqttError, ReasonCode, Result};
use crate::packets::{AckPacket, Packet};
use crate::session::flow_control::{FlowControlManager, Permit};
use crate::session::state::{OutboundReplay, SessionState};
use crate::types::{PublishPacket, QoS};
use vstd::prelude::*;

verus! {

/// The replay of a session on one connection.
#[derive(Debug)]
pub struct SessionReplay {
    /// What is sent again, in order.
    pub items: Vec<OutboundReplay>,
    pub next: usize,
    /// The quota for it.
    pub slots: u64,
    /// The connection.
    pub epoch: u64,
    pub policy: PublishPolicy,
}

/// What is done next in the replay of a session.
#[derive(Debug)]
pub enum ReplayStep {
    /// A packet is written; if that fails the replay ends.
    Write(Packet),
    /// A permit is waited for.
    AwaitSlot,
    /// The next step is asked for.
    Next,
    /// The replay ends: the connection does.
    Stop,
    /// Everything is sent.
    Done,
}

/// What is done next with the messages that waited for a connection.
#[derive(Debug)]
pub enum FlushStep {
    /// A message of the session is written; if that fails the replay ends.
    Write(PublishPacket),
    /// A message is written that is not acknowledged; see `write_downgraded`.
    WriteDowngraded(PublishPacket, QueuedPublish),
    AwaitSlot,
    Next,
    Stop,
    Done,
}

/// What became of a packet that was to be written.
#[derive(Debug, Clone, Copy, PartialEq, Eq, Structural)]
pub enum Written {
    Complete,
    /// The connection ended before.
    NotAttempted,
    /// It may have been written in part.
    Failed,
}

/// Whether a connection takes a message as it is.
pub open spec fn fits(policy: PublishPolicy, limit: Option<u32>, publish: PublishPacket) -> bool {
    &&& !(publish.retain && !policy.retain_available)
    &&& !(policy.maximum_qos matches Some(max) && publish.qos.level() > max)
    &&& !crate::client::direct::publish::too_large(publish, limit)
}

/// A message as a connection takes it that waited for one.
pub open spec fn conformed(policy: PublishPolicy, publish: PublishPacket) -> PublishPacket {
    crate::client::direct::replay::unaliased(
        crate::client::direct::replay::downgraded(publish, policy.maximum_qos),
    )
}

/// Why a connection does not take a message that waited for one.
pub open spec fn conform_error(
    policy: PublishPolicy,
    limit: Option<u32>,
    publish: PublishPacket,
    e: MqttError,
) -> bool {
    if publish.retain && !policy.retain_available {
        e == MqttError::RetainNotSupported
    } else {
        &&& crate::client::direct::publish::too_large(conformed(policy, publish), limit)
        &&& crate::client::direct::publish::size_error(conformed(policy, publish), limit, e)
    }
}

impl DirectClientInner {
    /// Whether a connection is the one in use.
    pub open spec fn current(&self, epoch: u64) -> bool {
        self.connected && self.connection_epoch == epoch
    }

    /// Whether a connection is the one in use.
    pub fn is_current(&self, epoch: u64) -> (r: bool)
        ensures
            r == self.current(epoch),
    {
        self.connected && self.connection_epoch == epoch
    }

    /// The replay of the session on a connection.
    pub fn session_replay(&self, items: Vec<OutboundReplay>, slots: u64, epoch: u64) -> (r:
        SessionReplay)
        ensures
            r == (SessionReplay { items, next: 0, slots, epoch, policy: self.policy }),
    {
        SessionReplay { items, next: 0, slots, epoch, policy: self.policy }
    }

    /// A message is not sent again, for the connection does not take it. The server may still hold
    /// a QoS 2 message: its identifier is kept from others.
    pub open spec fn replay_abandoned(
        before: DirectClientInner,
        after: DirectClientInner,
        packet_id: u16,
        qos: QoS,
    ) -> bool {
        let id = packet_id as u64;
        &&& after.outbound_ids.reserved() == before.outbound_ids.reserved()
        &&& after.outbound_ids.quarantined() == (if qos == QoS::ExactlyOnce {
            before.outbound_ids.quarantined().insert(packet_id)
        } else {
            before.outbound_ids.quarantined()
        })
        &&& crate::session::state::message_forgotten(
            before.session.outbound,
            after.session.outbound,
            packet_id,
        )
        &&& after.publish_outcomes@ == before.publish_outcomes@.remove(id)
        &&& after.ledger.upcoming() == before.ledger.upcoming()
        &&& after.ledger@ == (if before.publish_outcomes@.contains_key(id) {
            Ledger::settled(
                before.ledger@,
                before.publish_outcomes@[id].subject(),
                PublishOutcome::Indeterminate(IndeterminateReason::ReplayNotConforming),
            )
        } else {
            before.ledger@
        })
        &&& after == (DirectClientInner {
            outbound_ids: after.outbound_ids,
            session: SessionState { outbound: after.session.outbound, ..before.session },
            publish_outcomes: after.publish_outcomes,
            ledger: after.ledger,
            ..before
        })
    }

    /// Gives up a message that the connection does not take; `false` says that the connection is
    /// no longer in use, and nothing was done.
    pub fn abandon_replay(&mut self, epoch: u64, publish: &PublishPacket) -> (r: bool)
        requires
            old(self).wf(),
        ensures
            final(self).wf(),
            match publish.packet_id {
                None => r && *final(self) == *old(self),
                Some(packet_id) => {
                    &&& r == old(self).current(epoch)
                    &&& if r {
                        DirectClientInner::replay_abandoned(
                            *old(self),
                            *final(self),
                            packet_id,
                            publish.qos,
                        )
                    } else {
                        *final(self) == *old(self)
                    }
                },
            },
    {
        let packet_id: u16 = match publish.packet_id {
            Some(packet_id) => packet_id,
            None => {
                return true;
            },
        };
        if !self.is_current(epoch) {
            return false;
        }
        if publish.qos == QoS::ExactlyOnce {
            self.outbound_ids.quarantine(packet_id);
        }
        self.session.remove_unacked_publish(packet_id);
        if let Some(completion) = self.publish_outcomes.take(packet_id) {
            self.ledger.indeterminate(completion, IndeterminateReason::ReplayNotConforming);
        }
        true
    }

    fn admits_unchanged(&self, policy: PublishPolicy, publish: &PublishPacket) -> (r: bool)
        ensures
            r == fits(policy, self.session.server_maximum_packet_size, *publish),
    {
        policy.admits_unchanged(publish).is_ok() && self.check_publish_size(publish).is_ok()
    }

    /// A message is sent once more: it has a permit, and its publish counts as sent before.
    pub open spec fn resending(
        before: DirectClientInner,
        after: DirectClientInner,
        slots: u64,
        packet_id: u16,
        now: u64,
    ) -> bool {
        let id = packet_id as u64;
        &&& FlowControlManager::slot_taken(
            before.session.flow,
            after.session.flow,
            slots,
            packet_id,
            now,
        )
        &&& if before.publish_outcomes@.contains_key(id) {
            &&& after.publish_outcomes@ == before.publish_outcomes@.insert(
                id,
                after.publish_outcomes@[id],
            )
            &&& after.publish_outcomes@[id].was_resent()
            &&& after.publish_outcomes@[id].level() == before.publish_outcomes@[id].level()
            &&& after.publish_outcomes@[id].subject() == before.publish_outcomes@[id].subject()
        } else {
            after.publish_outcomes == before.publish_outcomes
        }
        &&& after == (DirectClientInner {
            session: SessionState { flow: after.session.flow, ..before.session },
            publish_outcomes: after.publish_outcomes,
            ..before
        })
    }

    /// Goes on with the exchanges of the session. A message that the connection takes is sent again
    /// as a duplicate, without an alias of its topic, once there is a permit for it; a release is
    /// sent again as it is.
    pub fn replay_session_state(&mut self, replay: &mut SessionReplay, now: u64) -> (r: ReplayStep)
        requires
            old(self).wf(),
            old(replay).next <= old(replay).items@.len(),
        ensures
            final(self).wf(),
            *final(replay) == (SessionReplay { next: final(replay).next, ..*old(replay) }),
            final(replay).next == (if r is Write || r is Next {
                old(replay).next + 1
            } else {
                old(replay).next as int
            }),
            final(replay).next <= final(replay).items@.len(),
            r is Done <==> old(replay).next == old(replay).items@.len(),
            r is Done || r is Stop || r is AwaitSlot ==> *final(self) == *old(self),
            old(replay).next < old(replay).items@.len() ==> DirectClientInner::replay_step(
                *old(self),
                *final(self),
                *old(replay),
                old(replay).items@[old(replay).next as int],
                r,
                now,
            ),
    {
        if replay.next >= replay.items.len() {
            return ReplayStep::Done;
        }
        let place: usize = replay.next;
        let resend = match &replay.items[place] {
            OutboundReplay::PubRel(packet_id) => {
                let release = AckPacket::new(*packet_id, ReasonCode::Success);
                replay.next = place + 1;
                return ReplayStep::Write(Packet::PubRel(release));
            },
            OutboundReplay::Publish(publish) => without_topic_alias(publish.clone()),
        };
        if !self.admits_unchanged(replay.policy, &resend) {
            if !self.abandon_replay(replay.epoch, &resend) {
                return ReplayStep::Stop;
            }
            replay.next = place + 1;
            return ReplayStep::Next;
        }
        if let Some(packet_id) = resend.packet_id {
            match self.session.flow.take_slot(replay.slots, packet_id, now) {
                Permit::Empty => {
                    return ReplayStep::AwaitSlot;
                },
                Permit::Closed => {
                    return ReplayStep::Stop;
                },
                Permit::Taken => {},
            }
            self.publish_outcomes.mark_resent(packet_id);
        }
        let mut packet = resend;
        packet.dup = true;
        replay.next = place + 1;
        ReplayStep::Write(Packet::Publish(packet))
    }

    /// What is done with one exchange of the session.
    pub open spec fn replay_step(
        before: DirectClientInner,
        after: DirectClientInner,
        replay: SessionReplay,
        item: OutboundReplay,
        r: ReplayStep,
        now: u64,
    ) -> bool {
        match item {
            OutboundReplay::PubRel(packet_id) => {
                &&& r matches ReplayStep::Write(Packet::PubRel(release)) && release.plain(
                    packet_id,
                    ReasonCode::Success,
                )
                &&& after == before
            },
            OutboundReplay::Publish(publish) => {
                let resend = crate::client::direct::replay::unaliased(publish);
                if !fits(replay.policy, before.session.server_maximum_packet_size, resend) {
                    match resend.packet_id {
                        None => r is Next && after == before,
                        Some(packet_id) => if before.current(replay.epoch) {
                            r is Next && DirectClientInner::replay_abandoned(
                                before,
                                after,
                                packet_id,
                                resend.qos,
                            )
                        } else {
                            r is Stop
                        },
                    }
                } else {
                    let sent = ReplayStep::Write(
                        Packet::Publish(PublishPacket { dup: true, ..resend }),
                    );
                    match resend.packet_id {
                        None => r == sent && after == before,
                        Some(packet_id) => match before.session.flow.permit_of(replay.slots) {
                            Permit::Empty => r is AwaitSlot,
                            Permit::Closed => r is Stop,
                            Permit::Taken => r == sent && DirectClientInner::resending(
                                before,
                                after,
                                replay.slots,
                                packet_id,
                                now,
                            ),
                        },
                    }
                }
            },
        }
    }

    fn conform_queued(&self, policy: PublishPolicy, queued: PublishPacket) -> (r: Result<
        PublishPacket,
    >)
        ensures
            match r {
                Ok(publish) => {
                    &&& publish == conformed(policy, queued)
                    &&& !(queued.retain && !policy.retain_available)
                    &&& !crate::client::direct::publish::too_large(
                        publish,
                        self.session.server_maximum_packet_size,
                    )
                },
                Err(e) => conform_error(
                    policy,
                    self.session.server_maximum_packet_size,
                    queued,
                    e,
                ),
            },
    {
        let publish = match policy.conform(queued) {
            Ok(publish) => without_topic_alias(publish),
            Err(e) => {
                return Err(e);
            },
        };
        match self.check_publish_size(&publish) {
            Ok(()) => Ok(publish),
            Err(e) => Err(e),
        }
    }

    /// The oldest message that waited for a connection was rejected.
    pub open spec fn front_rejected(
        before: DirectClientInner,
        after: DirectClientInner,
        e: MqttError,
    ) -> bool {
        let front = before.queued_messages@[0];
        &&& after.queued_messages@ == before.queued_messages@.drop_first()
        &&& after.queued_messages.last_serial() == before.queued_messages.last_serial()
        &&& after.outbound_ids.quarantined() == before.outbound_ids.quarantined()
        &&& after.outbound_ids.reserved() == (match front.reservation {
            Some(reserved) => before.outbound_ids.reserved().remove(reserved.id()),
            None => before.outbound_ids.reserved(),
        })
        &&& after.ledger.upcoming() == before.ledger.upcoming()
        &&& after.ledger@ == (match front.completion {
            Some(completion) => Ledger::settled(
                before.ledger@,
                completion.subject(),
                crate::client::publish_outcome::rejection_outcome(
                    completion.was_resent(),
                    crate::client::publish_outcome::PublishRejection::of_error(e),
                ),
            ),
            None => before.ledger@,
        })
        &&& after == (DirectClientInner {
            queued_messages: after.queued_messages,
            outbound_ids: after.outbound_ids,
            ledger: after.ledger,
            ..before
        })
    }

    /// The oldest message that waited for a connection became one of the session: it is remembered
    /// as it is sent, and its publish waits for the acknowledgement.
    pub open spec fn front_transferred(
        before: DirectClientInner,
        after: DirectClientInner,
        slots: u64,
        packet_id: u16,
        publish: PublishPacket,
        now: u64,
    ) -> bool {
        let front = before.queued_messages@[0];
        let id = packet_id as u64;
        &&& FlowControlManager::slot_taken(
            before.session.flow,
            after.session.flow,
            slots,
            packet_id,
            now,
        )
        &&& crate::session::state::remembered(
            before.session.outbound,
            after.session.outbound,
            packet_id,
            Some(publish),
        )
        &&& after.queued_messages@ == before.queued_messages@.drop_first()
        &&& after.queued_messages.last_serial() == before.queued_messages.last_serial()
        &&& after.outbound_ids.quarantined() == before.outbound_ids.quarantined()
        &&& after.outbound_ids.reserved() == (match front.reservation {
            Some(reserved) => before.outbound_ids.reserved().remove(reserved.id()),
            None => before.outbound_ids.reserved(),
        })
        &&& after.ledger.upcoming() == before.ledger.upcoming()
        &&& match front.completion {
            None => after.publish_outcomes == before.publish_outcomes && after.ledger
                == before.ledger,
            Some(completion) => if before.publish_outcomes@.contains_key(id) {
                &&& after.publish_outcomes == before.publish_outcomes
                &&& after.ledger@ == Ledger::settled(
                    before.ledger@,
                    completion.subject(),
                    PublishOutcome::Indeterminate(IndeterminateReason::Abandoned),
                )
            } else {
                &&& after.ledger == before.ledger
                &&& after.publish_outcomes.tracks(packet_id, publish.qos)
                &&& after.publish_outcomes@[id].subject() == completion.subject()
                &&& after.publish_outcomes@[id].was_resent() == completion.was_resent()
                &&& after.publish_outcomes@ == before.publish_outcomes@.insert(
                    id,
                    after.publish_outcomes@[id],
                )
            },
        }
        &&& after == (DirectClientInner {
            session: SessionState {
                flow: after.session.flow,
                outbound: after.session.outbound,
                ..before.session
            },
            queued_messages: after.queued_messages,
            outbound_ids: after.outbound_ids,
            publish_outcomes: after.publish_outcomes,
            ledger: after.ledger,
            ..before
        })
    }

    /// What is done with the oldest message that waited for a connection.
    pub open spec fn flush_step(
        before: DirectClientInner,
        after: DirectClientInner,
        replay: SessionReplay,
        r: FlushStep,
        now: u64,
    ) -> bool {
        let front = before.queued_messages@[0];
        let limit = before.session.server_maximum_packet_size;
        let publish = conformed(replay.policy, front.packet);
        let refused = front.packet.retain && !replay.policy.retain_available
            || crate::client::direct::publish::too_large(publish, limit);
        if refused {
            if before.current(replay.epoch) {
                &&& r is Next
                &&& exists|e: MqttError|
                    conform_error(replay.policy, limit, front.packet, e) && #[trigger]
                        DirectClientInner::front_rejected(before, after, e)
            } else {
                r is Stop && after == before
            }
        } else {
            match publish.packet_id {
                None => if before.current(replay.epoch) {
                    &&& r == FlushStep::WriteDowngraded(publish, front)
                    &&& after.queued_messages@ == before.queued_messages@.drop_first()
                    &&& after.queued_messages.last_serial() == before.queued_messages.last_serial()
                    &&& after == (DirectClientInner {
                        queued_messages: after.queued_messages,
                        ..before
                    })
                } else {
                    r is Stop && after == before
                },
                Some(packet_id) => match before.session.flow.permit_of(replay.slots) {
                    Permit::Empty => r is AwaitSlot && after == before,
                    Permit::Closed => r is Stop && after == before,
                    Permit::Taken => if before.current(replay.epoch) {
                        &&& r == FlushStep::Write(publish)
                        &&& DirectClientInner::front_transferred(
                            before,
                            after,
                            replay.slots,
                            packet_id,
                            publish,
                            now,
                        )
                    } else {
                        &&& r is Stop
                        &&& FlowControlManager::slot_taken(
                            before.session.flow,
                            after.session.flow,
                            replay.slots,
                            packet_id,
                            now,
                        )
                        &&& after == (DirectClientInner {
                            session: SessionState { flow: after.session.flow, ..before.session },
                            ..before
                        })
                    },
                },
            }
        }
    }

    /// Goes on with the messages that waited for a connection, oldest first.
    pub fn flush_offline_queue(&mut self, replay: &SessionReplay, now: u64) -> (r: FlushStep)
        requires
            old(self).wf(),
        ensures
            final(self).wf(),
            r is Done <==> old(self).queued_messages@.len() == 0,
            r is Done ==> *final(self) == *old(self),
            old(self).queued_messages@.len() > 0 ==> DirectClientInner::flush_step(
                *old(self),
                *final(self),
                *replay,
                r,
                now,
            ),
    {
        let (serial, queued) = match self.queued_messages.front() {
            Some(front) => front,
            None => {
                return FlushStep::Done;
            },
        };
        let ghost origin = *self;
        assert(crate::client::direct::replay::place_of(self.queued_messages@, serial) == 0);
        assert(self.queued_messages@.remove(0) =~= self.queued_messages@.drop_first());
        let publish = match self.conform_queued(replay.policy, queued) {
            Ok(publish) => publish,
            Err(e) => {
                if !self.is_current(replay.epoch) {
                    return FlushStep::Stop;
                }
                if let Some(rejected) = self.queued_messages.take(serial) {
                    if let Some(reserved) = rejected.reject(&mut self.ledger, &e) {
                        self.outbound_ids.release(reserved);
                    }
                }
                assert(DirectClientInner::front_rejected(origin, *self, e));
                return FlushStep::Next;
            },
        };
        if let Some(packet_id) = publish.packet_id {
            match self.session.flow.take_slot(replay.slots, packet_id, now) {
                Permit::Empty => {
                    return FlushStep::AwaitSlot;
                },
                Permit::Closed => {
                    return FlushStep::Stop;
                },
                Permit::Taken => {},
            }
        }
        if !self.is_current(replay.epoch) {
            return FlushStep::Stop;
        }
        let queued = match self.queued_messages.take(serial) {
            Some(queued) => queued,
            None => {
                return FlushStep::Next;
            },
        };
        match publish.packet_id {
            None => FlushStep::WriteDowngraded(publish, queued),
            Some(packet_id) => {
                self.session.store_unacked_publish(packet_id, publish.clone());
                if let Some(completion) = queued.completion {
                    self.publish_outcomes.track(
                        &mut self.ledger,
                        packet_id,
                        publish.qos,
                        completion,
                    );
                }
                if let Some(reserved) = queued.reservation {
                    self.outbound_ids.release(reserved);
                }
                FlushStep::Write(publish)
            },
        }
    }

    /// Ends the way of a message that is not acknowledged. One that was not written stays the
    /// oldest that waits; one that may have been written in part has an unknown outcome. Whether
    /// the replay goes on is returned.
    pub fn write_downgraded(&mut self, queued: QueuedPublish, written: Written) -> (r: bool)
        requires
            old(self).wf(),
        ensures
            final(self).wf(),
            r == (written == Written::Complete),
            if written == Written::NotAttempted {
                let serial = crate::client::direct::replay::serial_after(
                    old(self).queued_messages.last_serial(),
                    1,
                );
                &&& final(self).queued_messages@.len() == old(self).queued_messages@.len() + 1
                &&& final(self).queued_messages@.drop_first() == old(self).queued_messages@
                &&& final(self).queued_messages@[0] == crate::client::direct::replay::stamped(
                    queued,
                    serial,
                )
                &&& final(self).queued_messages.last_serial() == serial
                &&& *final(self) == (DirectClientInner {
                    queued_messages: final(self).queued_messages,
                    ..*old(self)
                })
            } else {
                &&& final(self).outbound_ids.quarantined() == old(self).outbound_ids.quarantined()
                &&& final(self).outbound_ids.reserved() == (match queued.reservation {
                    Some(reserved) => old(self).outbound_ids.reserved().remove(reserved.id()),
                    None => old(self).outbound_ids.reserved(),
                })
                &&& final(self).ledger.upcoming() == old(self).ledger.upcoming()
                &&& final(self).ledger@ == (match queued.completion {
                    Some(completion) => Ledger::settled(
                        old(self).ledger@,
                        completion.subject(),
                        if written == Written::Complete {
                            PublishOutcome::Delivered(Delivery::Unconfirmed)
                        } else {
                            PublishOutcome::Indeterminate(IndeterminateReason::ConnectionLost)
                        },
                    ),
                    None => old(self).ledger@,
                })
                &&& *final(self) == (DirectClientInner {
                    outbound_ids: final(self).outbound_ids,
                    ledger: final(self).ledger,
                    ..*old(self)
                })
            },
    {
        let settled = match written {
            Written::Complete => PublishOutcome::Delivered(Delivery::Unconfirmed),
            Written::Failed => PublishOutcome::Indeterminate(IndeterminateReason::ConnectionLost),
            Written::NotAttempted => {
                let mut back: Vec<QueuedPublish> = Vec::new();
                back.push(queued);
                let ghost before = self.queued_messages@;
                self.queued_messages.push_front_in_order(back);
                assert(self.queued_messages@.drop_first() =~= before);
                return false;
            },
        };
        let complete = written == Written::Complete;
        if let Some(completion) = queued.completion {
            self.ledger.settle(completion, settled);
        }
        if let Some(reserved) = queued.reservation {
            self.outbound_ids.release(reserved);
        }
        complete
    }
}

/// A message is sent again with its own identifier and quality of service, marked as a duplicate,
/// and stays in the session until it is acknowledged.
pub proof fn law_message_is_sent_again_as_a_duplicate(
    before: DirectClientInner,
    after: DirectClientInner,
    replay: SessionReplay,
    publish: PublishPacket,
    sent: PublishPacket,
    now: u64,
)
    requires
        DirectClientInner::replay_step(
            before,
            after,
            replay,
            OutboundReplay::Publish(publish),
            ReplayStep::Write(Packet::Publish(sent)),
            now,
        ),
    ensures
        sent.dup,
        sent.packet_id == publish.packet_id,
        sent.qos == publish.qos,
        sent.topic_name == publish.topic_name,
        sent.payload == publish.payload,
        sent.retain == publish.retain,
        sent.properties.topic_alias is None,
        after.session.outbound == before.session.outbound,
        publish.packet_id matches Some(id) ==> after.session.flow.sent().contains_key(id as u64),
{
}

/// A message that waits is sent as soon as there is room for it, first in, first out: it keeps its topic,
/// payload and identifier, it has the quality of service that the server takes where that is lower, and
/// it is kept until it is acknowledged.
pub proof fn law_waiting_message_is_sent(
    before: DirectClientInner,
    after: DirectClientInner,
    replay: SessionReplay,
    r: FlushStep,
    now: u64,
)
    requires
        before.queued_messages@.len() > 0,
        DirectClientInner::flush_step(before, after, replay, r, now),
        before.connected,
        before.connection_epoch == replay.epoch,
        before.session.flow.permit_of(replay.slots) is Taken,
        before.session.server_maximum_packet_size is None,
        replay.policy.retain_available,
        before.queued_messages@[0].packet.packet_id is Some,
        before.queued_messages@[0].packet.qos != QoS::AtMostOnce,
        replay.policy.maximum_qos matches Some(most) ==> most > 0,
    ensures
        ({
            let front = before.queued_messages@[0].packet;
            let id = front.packet_id->0;
            &&& r is Write
            &&& r->Write_0.topic_name == front.topic_name
            &&& r->Write_0.payload == front.payload
            &&& r->Write_0.retain == front.retain
            &&& r->Write_0.packet_id == front.packet_id
            &&& r->Write_0.dup == front.dup
            &&& r->Write_0.properties.topic_alias is None
            &&& replay.policy.maximum_qos is None ==> r->Write_0.qos == front.qos
            &&& replay.policy.maximum_qos matches Some(most) ==> r->Write_0.qos.level() == (if most
                < front.qos.level() {
                most
            } else {
                front.qos.level()
            })
            &&& after.queued_messages@ == before.queued_messages@.skip(1)
            &&& after.session.outbound@.contains_key(id as u64)
            &&& after.session.outbound@[id as u64] == Some(r->Write_0)
            &&& after.session.flow.sent().contains_key(id as u64)
        }),
{
    assert(before.queued_messages@.drop_first() =~= before.queued_messages@.skip(1));
}

/// A waiting message that the server does not take is rejected, and whoever published it is told why;
/// its identifier is free again and the next message comes.
pub proof fn law_message_that_is_not_taken_is_rejected(
    before: DirectClientInner,
    after: DirectClientInner,
    replay: SessionReplay,
    r: FlushStep,
    now: u64,
)
    requires
        before.queued_messages@.len() > 0,
        DirectClientInner::flush_step(before, after, replay, r, now),
        before.connected,
        before.connection_epoch == replay.epoch,
        before.queued_messages@[0].packet.retain,
        !replay.policy.retain_available,
        before.queued_messages@[0].reservation is Some,
        before.queued_messages@[0].completion is Some,
        !before.queued_messages@[0].completion->0.was_resent(),
    ensures
        ({
            let front = before.queued_messages@[0];
            &&& r is Next
            &&& after.queued_messages@ == before.queued_messages@.skip(1)
            &&& !after.outbound_ids.reserved().contains(front.reservation->0.id())
            &&& after.session == before.session
            &&& Ledger::awaited(after.ledger@, front.completion->0.subject()) == Some(
                PublishOutcome::Rejected(
                    crate::client::publish_outcome::PublishRejection::RetainNotSupported,
                ),
            )
        }),
{
    assert(before.queued_messages@.drop_first() =~= before.queued_messages@.skip(1));
}

/// A message fits where it is not larger than the server takes, not of a higher quality of service, and
/// not retained where the server retains nothing.
pub proof fn law_message_that_fits(
    policy: PublishPolicy,
    limit: Option<u32>,
    publish: PublishPacket,
)
    ensures
        fits(policy, limit, publish) <==> {
            &&& publish.retain ==> policy.retain_available
            &&& policy.maximum_qos is Some ==> publish.qos.level() <= policy.maximum_qos->0
            &&& limit is Some ==> crate::packets::publish_size(publish) <= limit->0
        },
{
}

/// When a connection is resumed, a message that was not acknowledged is sent again as soon as there is
/// room for it, and one that was received is released again.
pub proof fn law_unacknowledged_message_is_sent_again(
    before: DirectClientInner,
    after: DirectClientInner,
    replay: SessionReplay,
    item: OutboundReplay,
    r: ReplayStep,
    now: u64,
)
    requires
        DirectClientInner::replay_step(before, after, replay, item, r, now),
        before.session.flow.permit_of(replay.slots) is Taken,
        replay.policy.retain_available,
        replay.policy.maximum_qos is None,
        before.session.server_maximum_packet_size is None,
    ensures
        item matches OutboundReplay::Publish(publish) ==> (r matches ReplayStep::Write(
            Packet::Publish(sent),
        ) && sent.dup && sent.topic_name == publish.topic_name && sent.payload == publish.payload
            && sent.qos == publish.qos && sent.packet_id == publish.packet_id),
        item matches OutboundReplay::PubRel(id) ==> (r matches ReplayStep::Write(
            Packet::PubRel(release),
        ) && release.packet_id == id && release.reason_code == ReasonCode::Success && after
            == before),
{
}

/// A message that the server of the new connection does not take is not sent again: whoever published it
/// is told that its outcome is unknown, and the identifier of a QoS 2 message is not used again.
pub proof fn law_message_that_no_longer_fits_is_given_up(
    before: DirectClientInner,
    after: DirectClientInner,
    replay: SessionReplay,
    publish: PublishPacket,
    r: ReplayStep,
    now: u64,
)
    requires
        DirectClientInner::replay_step(
            before,
            after,
            replay,
            OutboundReplay::Publish(publish),
            r,
            now,
        ),
        before.connected,
        before.connection_epoch == replay.epoch,
        publish.packet_id is Some,
        before.publish_outcomes@.contains_key(publish.packet_id->0 as u64),
        publish.retain && !replay.policy.retain_available || (replay.policy.maximum_qos is Some
            && publish.qos.level() > replay.policy.maximum_qos->0),
    ensures
        ({
            let id = publish.packet_id->0;
            let subject = before.publish_outcomes@[id as u64].subject();
            &&& r is Next
            &&& Ledger::awaited(after.ledger@, subject) == Some(
                PublishOutcome::Indeterminate(IndeterminateReason::ReplayNotConforming),
            )
            &&& !after.publish_outcomes@.contains_key(id as u64)
            &&& publish.qos == QoS::ExactlyOnce ==> after.outbound_ids.quarantined().contains(id)
            &&& publish.qos != QoS::ExactlyOnce ==> after.outbound_ids.quarantined()
                == before.outbound_ids.quarantined()
        }),
{
}

/// A waiting message for a server that takes only QoS 0 goes out at once, without an identifier, and with
/// its topic and payload.
pub proof fn law_waiting_message_is_sent_at_most_once_where_it_has_to_be(
    before: DirectClientInner,
    after: DirectClientInner,
    replay: SessionReplay,
    r: FlushStep,
    now: u64,
)
    requires
        before.queued_messages@.len() > 0,
        DirectClientInner::flush_step(before, after, replay, r, now),
        before.connected,
        before.connection_epoch == replay.epoch,
        before.session.server_maximum_packet_size is None,
        replay.policy.retain_available,
        before.queued_messages@[0].packet.qos != QoS::AtMostOnce,
        replay.policy.maximum_qos == Some(0u8),
    ensures
        ({
            let front = before.queued_messages@[0];
            &&& r is WriteDowngraded
            &&& r->WriteDowngraded_0.qos == QoS::AtMostOnce
            &&& r->WriteDowngraded_0.packet_id is None
            &&& r->WriteDowngraded_0.topic_name == front.packet.topic_name
            &&& r->WriteDowngraded_0.payload == front.packet.payload
            &&& r->WriteDowngraded_0.properties.topic_alias is None
            &&& r->WriteDowngraded_1 == front
            &&& after.queued_messages@ == before.queued_messages@.skip(1)
            &&& after.session == before.session
        }),
{
    assert(before.queued_messages@.drop_first() =~= before.queued_messages@.skip(1));
}

/// Nothing is sent on a connection that is no longer the one it was meant for, and nothing while there is
/// no room.
pub proof fn law_nothing_is_sent_on_an_earlier_connection(
    before: DirectClientInner,
    after: DirectClientInner,
    replay: SessionReplay,
    r: FlushStep,
    now: u64,
)
    requires
        before.queued_messages@.len() > 0,
        DirectClientInner::flush_step(before, after, replay, r, now),
    ensures
        !before.connected || before.connection_epoch != replay.epoch ==> !(r is Write) && !(r
            is WriteDowngraded) && after.queued_messages == before.queued_messages,
        r is Write ==> before.session.flow.permit_of(replay.slots) is Taken,
        r is AwaitSlot ==> before.session.flow.permit_of(replay.slots) is Empty && after == before,
{
}

/// A message that is sent again is still waited for, with its quality of service, and whoever published
/// it learns that it may come twice.
pub proof fn law_message_sent_again_is_still_waited_for(
    before: DirectClientInner,
    after: DirectClientInner,
    slots: u64,
    packet_id: u16,
    now: u64,
)
    requires
        DirectClientInner::resending(before, after, slots, packet_id, now),
        before.publish_outcomes@.contains_key(packet_id as u64),
    ensures
        ({
            let id = packet_id as u64;
            &&& after.publish_outcomes@.contains_key(id)
            &&& after.publish_outcomes@[id].was_resent()
            &&& after.publish_outcomes@[id].level() == before.publish_outcomes@[id].level()
            &&& after.publish_outcomes@[id].subject() == before.publish_outcomes@[id].subject()
            &&& after.session.outbound == before.session.outbound
            &&& after.ledger == before.ledger
        }),
{
}

} // verus!
