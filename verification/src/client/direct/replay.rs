//! What waits while there is no connection, and what a connection takes of it.

use crate::client::direct::tracking::IdReservation;
use crate::client::publish_outcome::{Completion, Ledger, PublishRejection};
use crate::error::{MqttError, Result};
use crate::types::{PublishPacket, QoS};
use vstd::prelude::*;

verus! {

/// What the server takes of a PUBLISH.
#[derive(Debug, Clone, Copy, PartialEq, Eq, Structural)]
pub struct PublishPolicy {
    pub maximum_qos: Option<u8>,
    pub retain_available: bool,
}

/// The quality of service that a maximum stands for.
pub open spec fn qos_of(maximum: u8) -> QoS {
    if maximum == 0 {
        QoS::AtMostOnce
    } else if maximum == 1 {
        QoS::AtLeastOnce
    } else {
        QoS::ExactlyOnce
    }
}

/// A PUBLISH with the quality of service that the server takes. Without one there is no packet
/// identifier.
pub open spec fn downgraded(publish: PublishPacket, maximum: Option<u8>) -> PublishPacket {
    match maximum {
        Some(m) if publish.qos.level() > m => PublishPacket {
            qos: qos_of(m),
            packet_id: if m == 0 {
                None
            } else {
                publish.packet_id
            },
            ..publish
        },
        _ => publish,
    }
}

/// A PUBLISH whose topic does not rest on an alias of an earlier connection.
pub open spec fn unaliased(publish: PublishPacket) -> PublishPacket {
    PublishPacket {
        properties: crate::types::Properties { topic_alias: None, ..publish.properties },
        ..publish
    }
}

/// A PUBLISH whose topic does not rest on an alias of an earlier connection.
pub fn without_topic_alias(publish: PublishPacket) -> (r: PublishPacket)
    ensures
        r == unaliased(publish),
{
    let mut packet = publish;
    packet.properties.topic_alias = None;
    packet
}

impl PublishPolicy {
    /// Makes a PUBLISH one that the server takes.
    pub fn conform(self, publish: PublishPacket) -> (r: Result<PublishPacket>)
        ensures
            r == (if publish.retain && !self.retain_available {
                Err(MqttError::RetainNotSupported)
            } else {
                Ok(downgraded(publish, self.maximum_qos))
            }),
    {
        let mut packet = publish;
        if packet.retain && !self.retain_available {
            return Err(MqttError::RetainNotSupported);
        }
        if let Some(maximum) = self.maximum_qos {
            if packet.qos.as_u8() > maximum {
                packet.qos = if maximum == 0 {
                    QoS::AtMostOnce
                } else if maximum == 1 {
                    QoS::AtLeastOnce
                } else {
                    QoS::ExactlyOnce
                };
                if packet.qos == QoS::AtMostOnce {
                    packet.packet_id = None;
                }
            }
        }
        Ok(packet)
    }

    /// Whether the server takes a PUBLISH as it is.
    pub fn admits_unchanged(self, publish: &PublishPacket) -> (r: Result<()>)
        ensures
            r == (if publish.retain && !self.retain_available {
                Err(MqttError::RetainNotSupported)
            } else if self.maximum_qos is Some && publish.qos.level() > self.maximum_qos->0 {
                Err(MqttError::QoSNotSupported)
            } else {
                Ok(())
            }),
    {
        if publish.retain && !self.retain_available {
            return Err(MqttError::RetainNotSupported);
        }
        if let Some(maximum) = self.maximum_qos {
            if publish.qos.as_u8() > maximum {
                return Err(MqttError::QoSNotSupported);
            }
        }
        Ok(())
    }
}

/// What a connection takes of a message never exceeds the server's maximum, and what it takes
/// unchanged it would not change.
pub proof fn law_conforming_message_is_within_the_maximum(
    publish: PublishPacket,
    maximum: u8,
)
    ensures
        downgraded(publish, Some(maximum)).qos.level() <= maximum,
        downgraded(publish, Some(maximum)).qos.level() == (if maximum < publish.qos.level() {
            maximum
        } else {
            publish.qos.level()
        }),
        downgraded(publish, Some(maximum)) == (PublishPacket {
            qos: downgraded(publish, Some(maximum)).qos,
            packet_id: downgraded(publish, Some(maximum)).packet_id,
            ..publish
        }),
        downgraded(publish, Some(maximum)).packet_id == (if maximum == 0 && publish.qos.level() > 0 {
            None
        } else {
            publish.packet_id
        }),
        publish.qos.level() <= maximum ==> downgraded(publish, Some(maximum)) == publish,
        downgraded(publish, None) == publish,
        downgraded(downgraded(publish, Some(maximum)), Some(maximum)) == downgraded(
            publish,
            Some(maximum),
        ),
{
}

/// A message that waits for a connection.
#[derive(Debug)]
pub struct QueuedPublish {
    pub serial: u64,
    pub packet: PublishPacket,
    pub reservation: Option<IdReservation>,
    pub completion: Option<Completion>,
}

impl QueuedPublish {
    /// A message that waits for a connection.
    pub fn new(
        packet: PublishPacket,
        reservation: IdReservation,
        completion: Option<Completion>,
    ) -> (r: Self)
        ensures
            r == (QueuedPublish {
                serial: 0,
                packet,
                reservation: Some(reservation),
                completion,
            }),
    {
        QueuedPublish { serial: 0, packet, reservation: Some(reservation), completion }
    }

    /// The message is not sent: the new connection does not take it. Gives back what was reserved
    /// for it.
    pub fn reject(self, ledger: &mut Ledger, error: &MqttError) -> (r: Option<IdReservation>)
        requires
            old(ledger).wf(),
        ensures
            final(ledger).wf(),
            final(ledger).upcoming() == old(ledger).upcoming(),
            r == self.reservation,
            final(ledger)@ == match self.completion {
                Some(completion) => Ledger::settled(
                    old(ledger)@,
                    completion.subject(),
                    crate::client::publish_outcome::rejection_outcome(
                        completion.was_resent(),
                        PublishRejection::of_error(*error),
                    ),
                ),
                None => old(ledger)@,
            },
    {
        if let Some(completion) = self.completion {
            ledger.rejected(completion, PublishRejection::from_error(error));
        }
        self.reservation
    }
}

/// A number behind another, beginning again after the largest.
pub open spec fn serial_after(serial: u64, n: int) -> u64 {
    ((serial + n) % 0x1_0000_0000_0000_0000) as u64
}

/// A message with a serial number.
pub open spec fn stamped(queued: QueuedPublish, serial: u64) -> QueuedPublish {
    QueuedPublish { serial, ..queued }
}

/// The messages that wait for a connection, oldest first.
#[derive(Debug)]
pub struct OfflineQueue {
    messages: Vec<QueuedPublish>,
    next_serial: u64,
}

impl View for OfflineQueue {
    type V = Seq<QueuedPublish>;

    closed spec fn view(&self) -> Seq<QueuedPublish> {
        self.messages@
    }
}

/// Where the first message with a serial number stands; the length where there is none.
pub open spec fn place_of(messages: Seq<QueuedPublish>, serial: u64) -> int
    decreases messages.len(),
{
    if messages.len() == 0 || messages[0].serial == serial {
        0
    } else {
        1 + place_of(messages.drop_first(), serial)
    }
}

impl OfflineQueue {
    /// The serial number that was given last.
    pub closed spec fn last_serial(&self) -> u64 {
        self.next_serial
    }

    /// Nothing waits.
    pub fn new() -> (r: Self)
        ensures
            r@ == Seq::<QueuedPublish>::empty(),
            r.last_serial() == 0,
    {
        OfflineQueue { messages: Vec::new(), next_serial: 0 }
    }

    fn stamp(&mut self, queued: QueuedPublish) -> (r: QueuedPublish)
        ensures
            final(self)@ == old(self)@,
            final(self).last_serial() == serial_after(old(self).last_serial(), 1),
            r == stamped(queued, serial_after(old(self).last_serial(), 1)),
    {
        self.next_serial = self.next_serial.wrapping_add(1);
        let mut message = queued;
        message.serial = self.next_serial;
        message
    }

    /// Puts a message at the end.
    pub fn push_back(&mut self, queued: QueuedPublish)
        ensures
            final(self)@ == old(self)@.push(
                stamped(queued, serial_after(old(self).last_serial(), 1)),
            ),
            final(self).last_serial() == serial_after(old(self).last_serial(), 1),
    {
        let queued = self.stamp(queued);
        self.messages.push(queued);
    }

    /// Puts messages before the others, in their order.
    pub fn push_front_in_order(&mut self, ordered: Vec<QueuedPublish>)
        ensures
            final(self)@ == Seq::new(
                ordered@.len(),
                |i: int|
                    stamped(
                        ordered@[i],
                        serial_after(old(self).last_serial(), ordered@.len() - i),
                    ),
            ) + old(self)@,
            final(self).last_serial() == serial_after(
                old(self).last_serial(),
                ordered@.len() as int,
            ),
    {
        let ghost origin = self@;
        let ghost start = self.last_serial();
        let ghost all = ordered@;
        let ghost mark = |i: int| stamped(all[i], serial_after(start, all.len() - i));
        let mut rest = ordered;
        assert(Seq::new(all.len(), mark).skip(all.len() as int) + origin =~= origin);
        while rest.len() > 0
            invariant
                rest@ == all.take(rest@.len() as int),
                rest@.len() <= all.len(),
                mark == (|i: int| stamped(all[i], serial_after(start, all.len() - i))),
                self.last_serial() == serial_after(start, all.len() - rest@.len()),
                self@ == Seq::new(all.len(), mark).skip(rest@.len() as int) + origin,
            decreases rest@.len(),
        {
            let ghost n = rest@.len() as int;
            let ghost before = self@;
            if let Some(queued) = rest.pop() {
                assert(queued == all[n - 1]);
                let queued = self.stamp(queued);
                self.messages.insert(0, queued);
                proof {
                    assert(rest@ =~= all.take(n - 1));
                    assert(serial_after(serial_after(start, all.len() - n), 1) == serial_after(
                        start,
                        all.len() - (n - 1),
                    ));
                    assert(self@ =~= Seq::new(all.len(), mark).skip(n - 1) + origin);
                }
            }
        }
        assert(Seq::new(all.len(), mark).skip(0) =~= Seq::new(all.len(), mark));
    }

    /// The oldest message and its serial number.
    pub fn front(&self) -> (r: Option<(u64, PublishPacket)>)
        ensures
            r == (if self@.len() == 0 {
                None
            } else {
                Some((self@[0].serial, self@[0].packet))
            }),
    {
        if self.messages.len() == 0 {
            None
        } else {
            Some((self.messages[0].serial, self.messages[0].packet.clone()))
        }
    }

    /// Takes the message with a serial number out.
    pub fn take(&mut self, serial: u64) -> (r: Option<QueuedPublish>)
        ensures
            final(self).last_serial() == old(self).last_serial(),
            ({
                let place = place_of(old(self)@, serial);
                if 0 <= place < old(self)@.len() {
                    &&& r == Some(old(self)@[place])
                    &&& final(self)@ == old(self)@.remove(place)
                } else {
                    &&& r is None
                    &&& final(self)@ == old(self)@
                }
            }),
    {
        let ghost all = self.messages@;
        let mut i: usize = 0;
        assert(all.skip(0) =~= all);
        while i < self.messages.len()
            invariant
                all == self.messages@,
                *self == *old(self),
                i <= all.len(),
                place_of(all, serial) == i + place_of(all.skip(i as int), serial),
            decreases all.len() - i,
        {
            assert(all.skip(i as int)[0] == all[i as int]);
            assert(all.skip(i as int).drop_first() =~= all.skip(i + 1));
            if self.messages[i].serial == serial {
                return Some(self.messages.remove(i));
            }
            i = i + 1;
        }
        assert(all.skip(all.len() as int).len() == 0);
        None
    }

    /// Whether nothing waits.
    pub fn is_empty(&self) -> (r: bool)
        ensures
            r == (self@.len() == 0),
    {
        self.messages.len() == 0
    }
}

impl Default for OfflineQueue {
    fn default() -> (r: Self)
        ensures
            r@ == Seq::<QueuedPublish>::empty(),
            r.last_serial() == 0,
    {
        OfflineQueue::new()
    }
}

/// Numbers of waiting messages go up by one, and a message is found under its number: the first that
/// has it.
pub proof fn law_waiting_message_is_found(messages: Seq<QueuedPublish>, serial: u64)
    ensures
        0 <= place_of(messages, serial) <= messages.len(),
        place_of(messages, serial) < messages.len() ==> messages[place_of(messages, serial)].serial
            == serial,
        forall|i: int| 0 <= i < place_of(messages, serial) ==> (#[trigger] messages[i]).serial
            != serial,
        serial < u64::MAX ==> serial_after(serial, 1) == serial + 1,
    decreases messages.len(),
{
    if messages.len() > 0 && messages[0].serial != serial {
        let rest = messages.drop_first();
        law_waiting_message_is_found(rest, serial);
        let at = place_of(rest, serial);
        assert(at < rest.len() ==> rest[at] == messages[at + 1]);
        assert forall|i: int| 0 <= i < at + 1 implies (#[trigger] messages[i]).serial != serial by {
            if i > 0 {
                assert(rest[i - 1] == messages[i]);
            }
        }
    }
}

/// Sending a message without an alias changes nothing else of it.
pub proof fn law_only_the_alias_is_dropped(publish: PublishPacket)
    ensures
        unaliased(publish).properties.topic_alias is None,
        unaliased(publish).topic_name == publish.topic_name,
        unaliased(publish).payload == publish.payload,
        unaliased(publish).qos == publish.qos,
        unaliased(publish).packet_id == publish.packet_id,
        unaliased(publish).retain == publish.retain,
        unaliased(publish).properties.user_properties == publish.properties.user_properties,
        unaliased(publish).properties.content_type == publish.properties.content_type,
        unaliased(publish).properties.message_expiry_interval
            == publish.properties.message_expiry_interval,
        publish.properties.topic_alias is None ==> unaliased(publish) == publish,
{
}

} // verus!
