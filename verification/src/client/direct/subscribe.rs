//! Subscribing and unsubscribing.

use crate::client::direct::client::{DirectClientInner, StoredSubscription};
use crate::client::direct::outbound::check_unsubscribe;
use crate::client::direct::publish::StreamStrategy;
use crate::error::{MqttError, ReasonCode, Result};
use crate::packets::{
    subscribe_len, unsubscribe_len, SubAckPacket, SubscribePacket, SubscriptionOptions,
    TopicFilter, UnsubAckPacket, UnsubscribePacket,
};
use crate::session::state::SessionState;
use crate::text::{decimal_text, joined, owned, same_text};
use crate::types::QoS;
use vstd::prelude::*;

verus! {

/// How long SUBACK and UNSUBACK are waited for, in milliseconds.
pub const SUBSCRIPTION_WAIT: u64 = 10_000;

/// Whether a subscription is made again on a new connection.
#[derive(Debug, Clone, Copy, PartialEq, Eq, Structural)]
pub enum SubscriptionPersistence {
    Persist,
    Skip,
}

/// How waiting for the answer to a request ended.
#[derive(Debug)]
pub enum Answer<T> {
    Came(T),
    /// The connection ended.
    ChannelClosed,
    TimedOut,
}

/// The quality of service that a code in SUBACK grants.
pub open spec fn granted(code: ReasonCode) -> Option<QoS> {
    match code {
        ReasonCode::Success => Some(QoS::AtMostOnce),
        ReasonCode::GrantedQoS1 => Some(QoS::AtLeastOnce),
        ReasonCode::GrantedQoS2 => Some(QoS::ExactlyOnce),
        _ => None,
    }
}

/// The quality of service that a code in SUBACK grants.
pub fn granted_qos(code: ReasonCode) -> (r: Option<QoS>)
    ensures
        r == granted(code),
{
    match code {
        ReasonCode::Success => Some(QoS::AtMostOnce),
        ReasonCode::GrantedQoS1 => Some(QoS::AtLeastOnce),
        ReasonCode::GrantedQoS2 => Some(QoS::ExactlyOnce),
        _ => None,
    }
}

/// The subscriptions of a session after the answers to some filters.
pub open spec fn recorded(
    before: Map<Seq<char>, SubscriptionOptions>,
    filters: Seq<TopicFilter>,
    codes: Seq<ReasonCode>,
    n: int,
) -> Map<Seq<char>, SubscriptionOptions>
    decreases n,
{
    if n <= 0 {
        before
    } else {
        let rest = recorded(before, filters, codes, n - 1);
        match granted(codes[n - 1]) {
            Some(qos) => rest.insert(
                filters[n - 1].filter@,
                SubscriptionOptions { qos, ..filters[n - 1].options },
            ),
            None => rest,
        }
    }
}

/// How many filters of a SUBSCRIBE have an answer.
pub open spec fn answered(filters: Seq<TopicFilter>, codes: Seq<ReasonCode>) -> int {
    if filters.len() <= codes.len() {
        filters.len() as int
    } else {
        codes.len() as int
    }
}

/// The subscriptions of a session without some filters.
pub open spec fn without_filters(
    before: Map<Seq<char>, SubscriptionOptions>,
    filters: Seq<String>,
) -> Map<Seq<char>, SubscriptionOptions>
    decreases filters.len(),
{
    if filters.len() == 0 {
        before
    } else {
        without_filters(before, filters.drop_last()).remove(filters.last()@)
    }
}

/// Whether a filter stands in a list.
pub open spec fn listed(filters: Seq<String>, filter: Seq<char>) -> bool {
    exists|i: int| 0 <= i < filters.len() && (#[trigger] filters[i])@ == filter
}

fn is_listed(filters: &Vec<String>, filter: &str) -> (r: bool)
    ensures
        r == listed(filters@, filter@),
{
    let mut i: usize = 0;
    while i < filters.len()
        invariant
            i <= filters@.len(),
            forall|j: int| 0 <= j < i ==> (#[trigger] filters@[j])@ != filter@,
        decreases filters@.len() - i,
    {
        if same_text(filters[i].as_str(), filter) {
            return true;
        }
        i = i + 1;
    }
    false
}

/// What is remembered of the filters of a SUBSCRIBE.
pub open spec fn remembered(
    filters: Seq<TopicFilter>,
    subscription_identifier: Option<u32>,
    callback_id: u64,
) -> Seq<StoredSubscription> {
    filters.map_values(
        |f: TopicFilter|
            StoredSubscription {
                topic_filter: f.filter,
                options: f.options,
                subscription_identifier,
                callback_id,
            },
    )
}

/// Remembers the filters of a SUBSCRIBE for a new connection, unless they are to be skipped.
pub fn maybe_store_subscriptions(
    stored: &mut Vec<StoredSubscription>,
    filters: &Vec<TopicFilter>,
    subscription_identifier: Option<u32>,
    callback_id: u64,
    persistence: SubscriptionPersistence,
)
    ensures
        final(stored)@ == (if persistence == SubscriptionPersistence::Skip {
            old(stored)@
        } else {
            old(stored)@ + remembered(filters@, subscription_identifier, callback_id)
        }),
{
    if persistence == SubscriptionPersistence::Skip {
        return ;
    }
    let ghost before = stored@;
    let ghost all = remembered(filters@, subscription_identifier, callback_id);
    let mut i: usize = 0;
    assert(before + all.take(0) =~= before);
    while i < filters.len()
        invariant
            i <= filters@.len(),
            all == remembered(filters@, subscription_identifier, callback_id),
            stored@ == before + all.take(i as int),
        decreases filters@.len() - i,
    {
        stored.push(
            StoredSubscription {
                topic_filter: filters[i].filter.clone(),
                options: filters[i].options,
                subscription_identifier,
                callback_id,
            },
        );
        assert(stored@ =~= before + all.take(i + 1));
        i = i + 1;
    }
    assert(all.take(all.len() as int) =~= all);
}

/// The first subscription identifier of a SUBSCRIBE.
pub open spec fn first_identifier(ids: Seq<u32>) -> Option<u32> {
    if ids.len() > 0 {
        Some(ids[0])
    } else {
        None
    }
}

/// The error of a request that is larger than the server takes.
pub open spec fn request_too_large(size: int, limit: Option<u32>, e: MqttError) -> bool {
    e matches MqttError::PacketTooLarge { size: shown, max } && max == limit->0 && shown == (
    if size < usize::MAX {
        size
    } else {
        usize::MAX as int
    })
}

impl DirectClientInner {
    /// A SUBSCRIBE got an identifier and waits for its SUBACK.
    pub open spec fn awaiting_suback(
        before: DirectClientInner,
        after: DirectClientInner,
        packet: SubscribePacket,
        callback_id: u64,
        persistence: SubscriptionPersistence,
        sent: SubscribePacket,
    ) -> bool {
        let id = sent.packet_id;
        &&& sent == (SubscribePacket { packet_id: id, ..packet })
        &&& exists|middle: DirectClientInner| #[trigger]
            DirectClientInner::allocated(before, middle, id) && after.generator
                == middle.generator
        &&& after.outbound_ids.reserved() == before.outbound_ids.reserved()
        &&& after.outbound_ids.quarantined() == before.outbound_ids.quarantined()
        &&& after.pending_subacks@ == before.pending_subacks@.insert(id)
        &&& after.stored_subscriptions@ == (if persistence == SubscriptionPersistence::Skip {
            before.stored_subscriptions@
        } else {
            before.stored_subscriptions@ + remembered(
                packet.filters@,
                first_identifier(packet.properties.subscription_identifiers@),
                callback_id,
            )
        })
        &&& after == (DirectClientInner {
            generator: after.generator,
            outbound_ids: after.outbound_ids,
            pending_subacks: after.pending_subacks,
            stored_subscriptions: after.stored_subscriptions,
            ..before
        })
    }

    /// Begins to subscribe: gives the packet to send. A subscription that persists is remembered
    /// before it is answered.
    pub fn subscribe_with_callback_internal(
        &mut self,
        packet: SubscribePacket,
        callback_id: u64,
        persistence: SubscriptionPersistence,
        has_writer: bool,
    ) -> (r: Result<SubscribePacket>)
        requires
            old(self).wf(),
        ensures
            final(self).wf(),
            ({
                let limit = old(self).session.server_maximum_packet_size;
                let size = crate::packets::subscribe_size(packet);
                let too_large = limit is Some && size > limit->0;
                match r {
                    Ok(sent) => {
                        &&& old(self).connected && has_writer && !too_large
                        &&& old(self).server_capabilities.takes(packet)
                        &&& DirectClientInner::awaiting_suback(
                            *old(self),
                            *final(self),
                            packet,
                            callback_id,
                            persistence,
                            sent,
                        )
                    },
                    Err(e) => {
                        &&& *final(self) == *old(self)
                        &&& if !old(self).connected {
                            e == MqttError::NotConnected
                        } else if !old(self).server_capabilities.takes(packet) {
                            old(self).server_capabilities.refusal(packet, e)
                        } else if too_large {
                            request_too_large(size, limit, e)
                        } else if !has_writer {
                            e == MqttError::NotConnected
                        } else {
                            &&& e == MqttError::PacketIdExhausted
                            &&& forall|id: u16| id != 0 ==> #[trigger] old(self).busy(id)
                        }
                    },
                }
            }),
    {
        if !self.connected {
            return Err(MqttError::NotConnected);
        }
        match self.server_capabilities.check_subscribe(&packet) {
            Ok(()) => {},
            Err(e) => {
                return Err(e);
            },
        }
        match self.session.check_packet_size(subscribe_len(&packet)) {
            Ok(()) => {},
            Err(e) => {
                return Err(e);
            },
        }
        if !has_writer {
            return Err(MqttError::NotConnected);
        }
        let ghost origin = *self;
        let reservation = match self.allocate_packet_id() {
            Ok(reservation) => reservation,
            Err(e) => {
                return Err(e);
            },
        };
        let ghost middle = *self;
        let packet_id: u16 = reservation.packet_id();
        let mut packet = packet;
        packet.packet_id = packet_id;
        self.pending_subacks.insert(packet_id);
        self.outbound_ids.release(reservation);
        assert(self.outbound_ids.reserved() =~= origin.outbound_ids.reserved());
        let identifier: Option<u32> = if packet.properties.subscription_identifiers.len() > 0 {
            Some(packet.properties.subscription_identifiers[0])
        } else {
            None
        };
        maybe_store_subscriptions(
            &mut self.stored_subscriptions,
            &packet.filters,
            identifier,
            callback_id,
            persistence,
        );
        assert(DirectClientInner::allocated(origin, middle, packet_id));
        Ok(packet)
    }

    /// Begins to subscribe, now and on every new connection.
    pub fn subscribe_with_callback(
        &mut self,
        packet: SubscribePacket,
        callback_id: u64,
        has_writer: bool,
    ) -> (r: Result<SubscribePacket>)
        requires
            old(self).wf(),
        ensures
            final(self).wf(),
            ({
                let limit = old(self).session.server_maximum_packet_size;
                let size = crate::packets::subscribe_size(packet);
                let too_large = limit is Some && size > limit->0;
                match r {
                    Ok(sent) => {
                        &&& old(self).connected && has_writer && !too_large
                        &&& old(self).server_capabilities.takes(packet)
                        &&& DirectClientInner::awaiting_suback(
                            *old(self),
                            *final(self),
                            packet,
                            callback_id,
                            SubscriptionPersistence::Persist,
                            sent,
                        )
                    },
                    Err(e) => {
                        &&& *final(self) == *old(self)
                        &&& if !old(self).connected {
                            e == MqttError::NotConnected
                        } else if !old(self).server_capabilities.takes(packet) {
                            old(self).server_capabilities.refusal(packet, e)
                        } else if too_large {
                            request_too_large(size, limit, e)
                        } else if !has_writer {
                            e == MqttError::NotConnected
                        } else {
                            &&& e == MqttError::PacketIdExhausted
                            &&& forall|id: u16| id != 0 ==> #[trigger] old(self).busy(id)
                        }
                    },
                }
            }),
    {
        self.subscribe_with_callback_internal(
            packet,
            callback_id,
            SubscriptionPersistence::Persist,
            has_writer,
        )
    }

    /// Takes the answer to a SUBSCRIBE, or the end of the wait for it.
    pub fn wait_for_suback(&mut self, packet_id: u16, answer: Answer<SubAckPacket>) -> (r: Result<
        SubAckPacket,
    >)
        requires
            old(self).wf(),
        ensures
            final(self).wf(),
            match answer {
                Answer::Came(suback) => r == Ok::<_, MqttError>(suback) && *final(self)
                    == *old(self),
                Answer::ChannelClosed => (r matches Err(MqttError::ProtocolError(text)) && text@
                    == "SUBACK channel closed"@) && *final(self) == *old(self),
                Answer::TimedOut => {
                    &&& r matches Err(e) && e == MqttError::Timeout
                    &&& final(self).pending_subacks@ == old(self).pending_subacks@.remove(packet_id)
                    &&& *final(self) == (DirectClientInner {
                        pending_subacks: final(self).pending_subacks,
                        ..*old(self)
                    })
                },
            },
    {
        match answer {
            Answer::Came(suback) => Ok(suback),
            Answer::ChannelClosed => Err(MqttError::ProtocolError(owned("SUBACK channel closed"))),
            Answer::TimedOut => {
                self.pending_subacks.remove(packet_id);
                Err(MqttError::Timeout)
            },
        }
    }

    /// The subscription that the answer to a filter makes: it has the quality of service that was
    /// granted.
    pub fn create_subscription_from_filter(filter: &TopicFilter, reason_code: ReasonCode) -> (r:
        Option<SubscriptionOptions>)
        ensures
            r == (match granted(reason_code) {
                Some(qos) => Some(SubscriptionOptions { qos, ..filter.options }),
                None => None,
            }),
    {
        match granted_qos(reason_code) {
            Some(qos) => Some(
                SubscriptionOptions {
                    qos,
                    no_local: filter.options.no_local,
                    retain_as_published: filter.options.retain_as_published,
                    retain_handling: filter.options.retain_handling,
                },
            ),
            None => None,
        }
    }

    /// Ends subscribing with the SUBACK: every granted subscription is recorded, and the first one
    /// that was refused is the error.
    pub fn finish_subscribe(&mut self, packet: &SubscribePacket, suback: &SubAckPacket) -> (r:
        Result<Vec<(u16, QoS)>>)
        requires
            old(self).wf(),
        ensures
            final(self).wf(),
            final(self).session.subscriptions@ == recorded(
                old(self).session.subscriptions@,
                packet.filters@,
                suback.reason_codes@,
                answered(packet.filters@, suback.reason_codes@),
            ),
            *final(self) == (DirectClientInner {
                session: SessionState {
                    subscriptions: final(self).session.subscriptions,
                    ..old(self).session
                },
                ..*old(self)
            }),
            ({
                let codes = suback.reason_codes@;
                match r {
                    Ok(results) => {
                        &&& results@.len() == codes.len()
                        &&& forall|i: int|
                            0 <= i < codes.len() ==> granted(codes[i]) == Some(
                                (#[trigger] results@[i]).1,
                            ) && results@[i].0 == packet.packet_id
                    },
                    Err(e) => exists|i: int|
                        0 <= i < codes.len() && e == MqttError::SubscriptionDenied(
                            #[trigger] codes[i],
                        ) && granted(codes[i]) is None && forall|j: int|
                            0 <= j < i ==> granted(#[trigger] codes[j]) is Some,
                }
            }),
    {
        let ghost before = self.session.subscriptions@;
        let ghost origin = *self;
        let ghost n = answered(packet.filters@, suback.reason_codes@);
        let mut i: usize = 0;
        while i < packet.filters.len() && i < suback.reason_codes.len()
            invariant
                i <= packet.filters@.len(),
                i <= suback.reason_codes@.len(),
                self.wf(),
                before == origin.session.subscriptions@,
                self.session.subscriptions@ == recorded(
                    before,
                    packet.filters@,
                    suback.reason_codes@,
                    i as int,
                ),
                *self == (DirectClientInner {
                    session: SessionState {
                        subscriptions: self.session.subscriptions,
                        ..origin.session
                    },
                    ..origin
                }),
            decreases packet.filters@.len() - i,
        {
            let filter = &packet.filters[i];
            if let Some(options) = DirectClientInner::create_subscription_from_filter(
                filter,
                suback.reason_codes[i],
            ) {
                self.session.add_subscription(filter.filter.as_str(), options);
            }
            i = i + 1;
        }
        assert(i == n);
        let mut results: Vec<(u16, QoS)> = Vec::new();
        let mut k: usize = 0;
        while k < suback.reason_codes.len()
            invariant
                k <= suback.reason_codes@.len(),
                results@.len() == k,
                forall|j: int|
                    0 <= j < k ==> granted(suback.reason_codes@[j]) == Some(
                        (#[trigger] results@[j]).1,
                    ) && results@[j].0 == packet.packet_id,
                origin == *old(self),
                before == origin.session.subscriptions@,
                n == answered(packet.filters@, suback.reason_codes@),
                self.wf(),
                self.session.subscriptions@ == recorded(
                    before,
                    packet.filters@,
                    suback.reason_codes@,
                    n,
                ),
                *self == (DirectClientInner {
                    session: SessionState {
                        subscriptions: self.session.subscriptions,
                        ..origin.session
                    },
                    ..origin
                }),
            decreases suback.reason_codes@.len() - k,
        {
            let code = suback.reason_codes[k];
            match granted_qos(code) {
                Some(qos) => {
                    results.push((packet.packet_id, qos));
                },
                None => {
                    assert(suback.reason_codes@[k as int] == code);
                    assert forall|j: int| 0 <= j < k implies granted(
                        #[trigger] suback.reason_codes@[j],
                    ) is Some by {
                        assert(results@[j] == results@[j]);
                    }
                    return Err(MqttError::SubscriptionDenied(code));
                },
            }
            k = k + 1;
        }
        Ok(results)
    }

    /// Checks an UNSUBSCRIBE: its filters, and its size against what the server takes.
    pub fn check_unsubscribe(&self, packet: &UnsubscribePacket) -> (r: Result<()>)
        ensures
            r is Ok <==> self.takes_unsubscribe(*packet),
            r matches Err(e) ==> self.unsubscribe_error(*packet, e),
    {
        match check_unsubscribe(packet) {
            Ok(()) => {},
            Err(e) => {
                return Err(e);
            },
        }
        self.session.check_packet_size(unsubscribe_len(packet))
    }

    /// Whether the filters of an UNSUBSCRIBE are valid.
    pub open spec fn valid_filters(packet: UnsubscribePacket) -> bool {
        forall|i: int|
            0 <= i < packet.filters@.len() ==> crate::topic::valid_subscription_filter(
                (#[trigger] packet.filters@[i])@,
            )
    }

    /// Whether an UNSUBSCRIBE can be sent.
    pub open spec fn takes_unsubscribe(&self, packet: UnsubscribePacket) -> bool {
        &&& DirectClientInner::valid_filters(packet)
        &&& self.session.server_maximum_packet_size matches Some(max)
            ==> crate::packets::unsubscribe_size(packet) <= max
    }

    /// The error of an UNSUBSCRIBE that cannot be sent.
    pub open spec fn unsubscribe_error(&self, packet: UnsubscribePacket, e: MqttError) -> bool {
        if DirectClientInner::valid_filters(packet) {
            request_too_large(
                crate::packets::unsubscribe_size(packet),
                self.session.server_maximum_packet_size,
                e,
            )
        } else {
            exists|i: int|
                0 <= i < packet.filters@.len() && !crate::topic::valid_subscription_filter(
                    (#[trigger] packet.filters@[i])@,
                ) && (forall|j: int|
                    0 <= j < i ==> crate::topic::valid_subscription_filter(
                        (#[trigger] packet.filters@[j])@,
                    )) && (e matches MqttError::InvalidTopicFilter(t) && t@
                    == packet.filters@[i]@)
        }
    }

    /// An UNSUBSCRIBE got an identifier and waits for its UNSUBACK. Its filters are not subscribed
    /// to again on a new connection.
    pub open spec fn awaiting_unsuback(
        before: DirectClientInner,
        after: DirectClientInner,
        packet: UnsubscribePacket,
        sent: UnsubscribePacket,
    ) -> bool {
        let id = sent.packet_id;
        &&& sent == (UnsubscribePacket { packet_id: id, ..packet })
        &&& exists|middle: DirectClientInner| #[trigger]
            DirectClientInner::allocated(before, middle, id) && after.generator
                == middle.generator
        &&& after.outbound_ids.reserved() == before.outbound_ids.reserved()
        &&& after.outbound_ids.quarantined() == before.outbound_ids.quarantined()
        &&& after.pending_unsubacks@ == before.pending_unsubacks@.insert(id)
        &&& after.stored_subscriptions@ == before.stored_subscriptions@.filter(
            |s: StoredSubscription| !listed(packet.filters@, s.topic_filter@),
        )
        &&& after == (DirectClientInner {
            generator: after.generator,
            outbound_ids: after.outbound_ids,
            pending_unsubacks: after.pending_unsubacks,
            stored_subscriptions: after.stored_subscriptions,
            ..before
        })
    }

    /// Begins to unsubscribe: gives the packet to send.
    pub fn unsubscribe(&mut self, packet: UnsubscribePacket, has_writer: bool) -> (r: Result<
        UnsubscribePacket,
    >)
        requires
            old(self).wf(),
        ensures
            final(self).wf(),
            match r {
                Ok(sent) => {
                    &&& old(self).connected && has_writer && old(self).takes_unsubscribe(packet)
                    &&& DirectClientInner::awaiting_unsuback(
                        *old(self),
                        *final(self),
                        packet,
                        sent,
                    )
                },
                Err(e) => {
                    &&& *final(self) == *old(self)
                    &&& if !old(self).connected {
                        e == MqttError::NotConnected
                    } else if !old(self).takes_unsubscribe(packet) {
                        old(self).unsubscribe_error(packet, e)
                    } else if !has_writer {
                        e == MqttError::NotConnected
                    } else {
                        &&& e == MqttError::PacketIdExhausted
                        &&& forall|id: u16| id != 0 ==> #[trigger] old(self).busy(id)
                    }
                },
            },
    {
        if !self.connected {
            return Err(MqttError::NotConnected);
        }
        match self.check_unsubscribe(&packet) {
            Ok(()) => {},
            Err(e) => {
                return Err(e);
            },
        }
        if !has_writer {
            return Err(MqttError::NotConnected);
        }
        let ghost origin = *self;
        let reservation = match self.allocate_packet_id() {
            Ok(reservation) => reservation,
            Err(e) => {
                return Err(e);
            },
        };
        let ghost middle = *self;
        let packet_id: u16 = reservation.packet_id();
        let mut packet = packet;
        packet.packet_id = packet_id;
        self.pending_unsubacks.insert(packet_id);
        self.outbound_ids.release(reservation);
        assert(self.outbound_ids.reserved() =~= origin.outbound_ids.reserved());
        forget_stored(&mut self.stored_subscriptions, &packet.filters);
        assert(DirectClientInner::allocated(origin, middle, packet_id));
        Ok(packet)
    }

    /// Ends unsubscribing with the answer, or without one.
    pub fn finish_unsubscribe(
        &mut self,
        packet: &UnsubscribePacket,
        answer: Answer<UnsubAckPacket>,
    ) -> (r: Result<()>)
        requires
            old(self).wf(),
        ensures
            final(self).wf(),
            match answer {
                Answer::Came(unsuback) => if unsuback.packet_id == packet.packet_id {
                    &&& r is Ok
                    &&& final(self).session.subscriptions@ == without_filters(
                        old(self).session.subscriptions@,
                        packet.filters@,
                    )
                    &&& *final(self) == (DirectClientInner {
                        session: SessionState {
                            subscriptions: final(self).session.subscriptions,
                            ..old(self).session
                        },
                        ..*old(self)
                    })
                } else {
                    &&& r matches Err(MqttError::ProtocolError(text)) && text@
                        == "UNSUBACK packet ID mismatch: expected "@ + crate::text::decimal(
                        packet.packet_id as nat,
                    ) + (", got "@ + crate::text::decimal(unsuback.packet_id as nat))
                    &&& *final(self) == *old(self)
                },
                Answer::ChannelClosed => (r matches Err(MqttError::ProtocolError(text)) && text@
                    == "UNSUBACK channel closed"@) && *final(self) == *old(self),
                Answer::TimedOut => {
                    &&& r matches Err(e) && e == MqttError::Timeout
                    &&& final(self).pending_unsubacks@ == old(self).pending_unsubacks@.remove(
                        packet.packet_id,
                    )
                    &&& *final(self) == (DirectClientInner {
                        pending_unsubacks: final(self).pending_unsubacks,
                        ..*old(self)
                    })
                },
            },
    {
        let unsuback = match answer {
            Answer::Came(unsuback) => unsuback,
            Answer::ChannelClosed => {
                return Err(MqttError::ProtocolError(owned("UNSUBACK channel closed")));
            },
            Answer::TimedOut => {
                self.pending_unsubacks.remove(packet.packet_id);
                return Err(MqttError::Timeout);
            },
        };
        if unsuback.packet_id != packet.packet_id {
            let expected = decimal_text(packet.packet_id as u64);
            let got = decimal_text(unsuback.packet_id as u64);
            let tail = joined(", got ", got.as_str(), "");
            proof {
                reveal_strlit("");
                assert(tail@ =~= ", got "@ + got@);
            }
            return Err(
                MqttError::ProtocolError(
                    joined(
                        "UNSUBACK packet ID mismatch: expected ",
                        expected.as_str(),
                        tail.as_str(),
                    ),
                ),
            );
        }
        let ghost origin = *self;
        let ghost all = packet.filters@;
        let mut i: usize = 0;
        assert(all.take(0) =~= Seq::<String>::empty());
        while i < packet.filters.len()
            invariant
                all == packet.filters@,
                i <= all.len(),
                self.wf(),
                self.session.subscriptions@ == without_filters(
                    origin.session.subscriptions@,
                    all.take(i as int),
                ),
                *self == (DirectClientInner {
                    session: SessionState {
                        subscriptions: self.session.subscriptions,
                        ..origin.session
                    },
                    ..origin
                }),
            decreases all.len() - i,
        {
            assert(all.take(i + 1).drop_last() =~= all.take(i as int));
            self.session.remove_subscription(packet.filters[i].as_str());
            i = i + 1;
        }
        assert(all.take(all.len() as int) =~= all);
        Ok(())
    }
}

/// Forgets the subscriptions to some filters.
fn forget_stored(stored: &mut Vec<StoredSubscription>, filters: &Vec<String>)
    ensures
        final(stored)@ == old(stored)@.filter(
            |s: StoredSubscription| !listed(filters@, s.topic_filter@),
        ),
{
    let ghost all = stored@;
    let ghost keep = |s: StoredSubscription| !listed(filters@, s.topic_filter@);
    let mut i: usize = 0;
    proof {
        reveal(Seq::filter);
        assert(all.take(0) =~= Seq::<StoredSubscription>::empty());
        assert(all.skip(0) =~= all);
    }
    let ghost mut gone: int = 0;
    while i < stored.len()
        invariant
            keep == (|s: StoredSubscription| !listed(filters@, s.topic_filter@)),
            0 <= gone,
            i + gone <= all.len(),
            stored@ == all.take(i + gone).filter(keep) + all.skip(i + gone),
            all.take(i + gone).filter(keep).len() == i,
        decreases stored@.len() - i,
    {
        let ghost place = i + gone;
        let ghost kept = all.take(place).filter(keep);
        proof {
            reveal(Seq::filter);
            assert(stored@[i as int] == all[place]);
            assert(all.take(place + 1).drop_last() =~= all.take(place));
            assert(all.take(place + 1).last() == all[place]);
        }
        if is_listed(filters, stored[i].topic_filter.as_str()) {
            stored.remove(i);
            proof {
                gone = gone + 1;
                assert(!keep(all[place]));
                assert(all.take(place + 1).filter(keep) == kept);
                assert(stored@ =~= kept + all.skip(place + 1));
            }
        } else {
            proof {
                assert(keep(all[place]));
                assert(all.take(place + 1).filter(keep) == kept.push(all[place]));
                assert(stored@ =~= kept.push(all[place]) + all.skip(place + 1));
            }
            i = i + 1;
        }
    }
    proof {
        assert(all.skip(i + gone).len() == 0);
        assert(all.take(all.len() as int) =~= all);
        assert(stored@ =~= all.filter(keep));
    }
}

/// Whether the streams of a QUIC connection are those of topics.
pub open spec fn by_topic(strategy: Option<StreamStrategy>) -> bool {
    strategy matches Some(s) && s != StreamStrategy::ControlOnly && s
        != StreamStrategy::DataPerPublish
}

/// Whether the streams of a QUIC connection are those of topics.
pub fn uses_topic_streams(strategy: Option<StreamStrategy>) -> (r: bool)
    ensures
        r == by_topic(strategy),
{
    match strategy {
        Some(s) => s != StreamStrategy::ControlOnly && s != StreamStrategy::DataPerPublish,
        None => false,
    }
}

/// Whether a SUBSCRIBE goes on the stream of its topic: it has one filter.
pub fn subscribe_on_flow(packet: &SubscribePacket, strategy: Option<StreamStrategy>) -> (r: bool)
    ensures
        r == (packet.filters@.len() == 1 && by_topic(strategy)),
{
    packet.filters.len() == 1 && uses_topic_streams(strategy)
}

/// Whether an UNSUBSCRIBE goes on the stream of its topic: it has one filter, and there is a flow
/// for it.
pub fn unsubscribe_on_flow(
    packet: &UnsubscribePacket,
    strategy: Option<StreamStrategy>,
    has_flow: bool,
) -> (r: bool)
    ensures
        r == (packet.filters@.len() == 1 && by_topic(strategy) && has_flow),
{
    packet.filters.len() == 1 && uses_topic_streams(strategy) && has_flow
}

/// After an UNSUBSCRIBE no filter of it is subscribed to again on a new connection.
pub proof fn law_unsubscribed_filters_are_forgotten(
    before: DirectClientInner,
    after: DirectClientInner,
    packet: UnsubscribePacket,
    sent: UnsubscribePacket,
    i: int,
    k: int,
)
    requires
        DirectClientInner::awaiting_unsuback(before, after, packet, sent),
        0 <= i < after.stored_subscriptions@.len(),
        0 <= k < packet.filters@.len(),
    ensures
        after.stored_subscriptions@[i].topic_filter@ != packet.filters@[k]@,
{
    let keep = |s: StoredSubscription| !listed(packet.filters@, s.topic_filter@);
    before.stored_subscriptions@.lemma_filter_pred(keep, i);
    assert(keep(after.stored_subscriptions@[i]));
}

/// A code in SUBACK grants a subscription exactly where it is 0, 1 or 2 on the wire, and the quality
/// of service that it grants has that number.
pub proof fn law_granted_quality_of_service_is_the_code(code: ReasonCode)
    ensures
        granted(code) is Some <==> code.byte() <= 2,
        granted(code) matches Some(qos) ==> qos.level() == code.byte(),
        granted(code) is Some ==> !code.error(),
{
}

/// After SUBACK a session has a subscription to every filter that was granted, with the options that
/// were asked for and the quality of service of its last grant.
pub proof fn law_granted_subscription_is_recorded(
    before: Map<Seq<char>, SubscriptionOptions>,
    filters: Seq<TopicFilter>,
    codes: Seq<ReasonCode>,
    n: int,
    i: int,
)
    requires
        0 <= i < n <= filters.len(),
        n <= codes.len(),
        codes[i].byte() <= 2,
        forall|j: int|
            i < j < n && (#[trigger] filters[j]).filter@ == filters[i].filter@ ==> codes[j].byte()
                > 2,
    ensures
        ({
            let after = recorded(before, filters, codes, n);
            let filter = filters[i].filter@;
            &&& after.contains_key(filter)
            &&& after[filter].qos.level() == codes[i].byte()
            &&& after[filter] == (SubscriptionOptions {
                qos: after[filter].qos,
                ..filters[i].options
            })
        }),
    decreases n,
{
    law_granted_quality_of_service_is_the_code(codes[n - 1]);
    if i < n - 1 {
        law_granted_subscription_is_recorded(before, filters, codes, n - 1, i);
        assert(filters[n - 1].filter@ == filters[i].filter@ ==> codes[n - 1].byte() > 2);
    }
}

/// SUBACK changes no subscription to a filter that it does not grant.
pub proof fn law_other_subscriptions_stay(
    before: Map<Seq<char>, SubscriptionOptions>,
    filters: Seq<TopicFilter>,
    codes: Seq<ReasonCode>,
    n: int,
    filter: Seq<char>,
)
    requires
        0 <= n <= filters.len(),
        n <= codes.len(),
        forall|j: int|
            0 <= j < n && (#[trigger] filters[j]).filter@ == filter ==> codes[j].byte() > 2,
    ensures
        recorded(before, filters, codes, n).contains_key(filter) == before.contains_key(filter),
        before.contains_key(filter) ==> recorded(before, filters, codes, n)[filter]
            == before[filter],
    decreases n,
{
    if n > 0 {
        law_granted_quality_of_service_is_the_code(codes[n - 1]);
        law_other_subscriptions_stay(before, filters, codes, n - 1, filter);
        assert(filters[n - 1].filter@ == filter ==> codes[n - 1].byte() > 2);
    }
}

/// After UNSUBACK a session has no subscription to a filter of the UNSUBSCRIBE, and keeps every
/// other.
pub proof fn law_unsubscribed_filters_leave_the_session(
    before: Map<Seq<char>, SubscriptionOptions>,
    filters: Seq<String>,
    filter: Seq<char>,
)
    ensures
        ({
            let after = without_filters(before, filters);
            &&& after.contains_key(filter) <==> before.contains_key(filter) && !exists|i: int|
                0 <= i < filters.len() && (#[trigger] filters[i])@ == filter
            &&& after.contains_key(filter) ==> after[filter] == before[filter]
        }),
    decreases filters.len(),
{
    if filters.len() > 0 {
        let init = filters.drop_last();
        law_unsubscribed_filters_leave_the_session(before, init, filter);
        if exists|i: int| 0 <= i < filters.len() && (#[trigger] filters[i])@ == filter {
            let i = choose|i: int| 0 <= i < filters.len() && (#[trigger] filters[i])@ == filter;
            if i < init.len() {
                assert(init[i]@ == filter);
            }
        }
        if exists|i: int| 0 <= i < init.len() && (#[trigger] init[i])@ == filter {
            let i = choose|i: int| 0 <= i < init.len() && (#[trigger] init[i])@ == filter;
            assert(filters[i]@ == filter);
        }
        assert(filters[filters.len() - 1]@ == filters.last()@);
    }
}

/// Every filter of a SUBSCRIBE is remembered for a new connection, in order, with its options and the
/// callback of the SUBSCRIBE.
pub proof fn law_filters_are_remembered_in_order(
    filters: Seq<TopicFilter>,
    subscription_identifier: Option<u32>,
    callback_id: u64,
    i: int,
)
    requires
        0 <= i < filters.len(),
    ensures
        remembered(filters, subscription_identifier, callback_id).len() == filters.len(),
        ({
            let one = remembered(filters, subscription_identifier, callback_id)[i];
            &&& one.topic_filter == filters[i].filter
            &&& one.options == filters[i].options
            &&& one.callback_id == callback_id
            &&& one.subscription_identifier == subscription_identifier
        }),
{
}

/// A SUBSCRIBE goes out as it was asked for, under an identifier that was free, and its answer is waited
/// for; what it subscribes to is remembered, in order and behind what was remembered before, unless
/// that is not wished for.
pub proof fn law_subscribe_waits_for_its_answer(
    before: DirectClientInner,
    after: DirectClientInner,
    packet: SubscribePacket,
    callback_id: u64,
    persistence: SubscriptionPersistence,
    sent: SubscribePacket,
    i: int,
)
    requires
        DirectClientInner::awaiting_suback(
            before,
            after,
            packet,
            callback_id,
            persistence,
            sent,
        ),
        0 <= i < packet.filters@.len(),
    ensures
        sent.filters == packet.filters,
        sent.properties == packet.properties,
        sent.packet_id != 0,
        !before.pending_subacks@.contains(sent.packet_id),
        !before.session.outbound@.contains_key(sent.packet_id as u64),
        after.pending_subacks@.contains(sent.packet_id),
        persistence == SubscriptionPersistence::Skip ==> after.stored_subscriptions@
            == before.stored_subscriptions@,
        persistence != SubscriptionPersistence::Skip ==> ({
            let stored = after.stored_subscriptions@;
            let k = before.stored_subscriptions@.len() + i;
            &&& stored.len() == before.stored_subscriptions@.len() + packet.filters@.len()
            &&& stored.take(before.stored_subscriptions@.len() as int)
                == before.stored_subscriptions@
            &&& stored[k].topic_filter == packet.filters@[i].filter
            &&& stored[k].options == packet.filters@[i].options
            &&& stored[k].callback_id == callback_id
            &&& packet.properties.subscription_identifiers@.len() > 0
                ==> stored[k].subscription_identifier == Some(
                packet.properties.subscription_identifiers@[0],
            )
            &&& packet.properties.subscription_identifiers@.len() == 0
                ==> stored[k].subscription_identifier is None
        }),
        after.session == before.session,
{
    let stored = after.stored_subscriptions@;
    if persistence != SubscriptionPersistence::Skip {
        assert(stored.take(before.stored_subscriptions@.len() as int)
            =~= before.stored_subscriptions@);
    }
}

/// As many filters are answered as there are filters and codes for them.
pub proof fn law_answered_filters(filters: Seq<TopicFilter>, codes: Seq<ReasonCode>)
    ensures
        filters.len() == codes.len() ==> answered(filters, codes) == filters.len(),
        answered(filters, codes) <= filters.len(),
        answered(filters, codes) <= codes.len(),
        answered(filters, codes) == filters.len() || answered(filters, codes) == codes.len(),
{
}

/// An UNSUBSCRIBE is sent unless one of its filters is not valid or it is larger than the server takes;
/// the error tells which.
pub proof fn law_unsubscribe_that_may_be_sent(
    client: DirectClientInner,
    packet: UnsubscribePacket,
    e: MqttError,
    i: int,
)
    ensures
        client.takes_unsubscribe(packet) && 0 <= i < packet.filters@.len()
            ==> crate::topic::valid_subscription_filter(packet.filters@[i]@),
        client.takes_unsubscribe(packet) && client.session.server_maximum_packet_size is Some
            ==> crate::packets::unsubscribe_size(packet)
            <= client.session.server_maximum_packet_size->0,
        !client.takes_unsubscribe(packet) && client.session.server_maximum_packet_size is None
            ==> exists|j: int|
            0 <= j < packet.filters@.len() && !crate::topic::valid_subscription_filter(
                (#[trigger] packet.filters@[j])@,
            ),
        !client.takes_unsubscribe(packet) && client.unsubscribe_error(packet, e) ==> e
            is PacketTooLarge || e is InvalidTopicFilter,
        client.unsubscribe_error(packet, e) && e is InvalidTopicFilter ==> exists|j: int|
            0 <= j < packet.filters@.len() && !crate::topic::valid_subscription_filter(
                (#[trigger] packet.filters@[j])@,
            ) && packet.filters@[j]@ == e->InvalidTopicFilter_0@,
{
}

/// Streams are those of topics exactly where a message has neither a stream of its own nor the control
/// stream.
pub proof fn law_streams_of_topics(strategy: Option<StreamStrategy>)
    ensures
        by_topic(strategy) <==> crate::client::direct::publish::stream_route(strategy)
            is TopicStream,
        by_topic(None) <==> false,
{
}

} // verus!
