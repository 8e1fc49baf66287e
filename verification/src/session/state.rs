//! What a client remembers of its session from one connection to the next.

use crate::error::{MqttError, Result};
use crate::id_map::IdMap;
use crate::packet_ids::PacketIdSet;
use crate::packets::SubscriptionOptions;
use crate::session::flow_control::FlowControlManager;
use crate::session::topic_alias::TopicAliasManager;
use crate::text::owned;
use crate::text_map::TextMap;
use crate::types::{PublishPacket, QoS};
use vstd::prelude::*;

verus! {

/// What an outbound exchange waits for.
#[derive(Debug, Clone, Copy, PartialEq, Eq, Structural)]
pub enum OutboundStage {
    AwaitingPubAck,
    AwaitingPubRec,
    AwaitingPubComp,
}

/// What has to be sent again of an outbound exchange.
#[derive(Debug)]
pub enum OutboundReplay {
    Publish(PublishPacket),
    PubRel(u16),
}

/// What the application has decided about a message that it acknowledges itself.
#[derive(Debug, Clone, Copy, PartialEq, Eq, Structural)]
pub enum AckResolution {
    Unresolved,
    Acked,
}

/// The exchanges of a session, in the order in which they are sent again.
pub type Exchanges = IdMap<Option<PublishPacket>>;

/// An exchange is remembered: one that was known keeps its place, a new one comes last.
pub open spec fn remembered(
    before: Exchanges,
    after: Exchanges,
    packet_id: u16,
    message: Option<PublishPacket>,
) -> bool {
    &&& after@ == before@.insert(packet_id as u64, message)
    &&& after.listing() == crate::id_map::placed(before.listing(), packet_id as u64, message)
}

/// An exchange is forgotten; the others keep their order.
pub open spec fn forgotten(before: Exchanges, after: Exchanges, packet_id: u16) -> bool {
    &&& after@ == before@.remove(packet_id as u64)
    &&& after.listing() == crate::id_map::without_key(before.listing(), packet_id as u64)
}

/// A message that was not acknowledged is forgotten; the release of one that was stays.
pub open spec fn message_forgotten(before: Exchanges, after: Exchanges, packet_id: u16) -> bool {
    if before@.contains_key(packet_id as u64) && before@[packet_id as u64] is Some {
        forgotten(before, after, packet_id)
    } else {
        after@ == before@ && after.listing() == before.listing()
    }
}

/// The state of a session on the client's side.
///
/// The outbound exchanges stand under their identifiers: a message that was not acknowledged, or
/// none where only the release of a QoS 2 message is outstanding. Inbound identifiers are another
/// matter: the two sides number their messages independently.
#[derive(Debug)]
pub struct SessionState {
    pub client_id: String,
    pub outbound: IdMap<Option<PublishPacket>>,
    pub pubrecs: PacketIdSet,
    pub delivered: PacketIdSet,
    pub acked: PacketIdSet,
    pub flow: FlowControlManager,
    pub topic_alias_out: TopicAliasManager,
    pub server_maximum_packet_size: Option<u32>,
    pub client_maximum_packet_size: Option<u32>,
    pub subscriptions: TextMap<SubscriptionOptions>,
    pub publish_flows: IdMap<u64>,
}

/// What the exchange of a message waits for.
pub open spec fn stage_of(message: Option<PublishPacket>) -> OutboundStage {
    match message {
        Some(publish) => if publish.qos == QoS::ExactlyOnce {
            OutboundStage::AwaitingPubRec
        } else {
            OutboundStage::AwaitingPubAck
        },
        None => OutboundStage::AwaitingPubComp,
    }
}

/// What has to be sent again of a list of exchanges, in order.
pub open spec fn replay_of(list: Seq<(u64, Option<PublishPacket>)>) -> Seq<OutboundReplay> {
    list.map_values(
        |e: (u64, Option<PublishPacket>)|
            match e.1 {
                Some(publish) => OutboundReplay::Publish(publish),
                None => OutboundReplay::PubRel(e.0 as u16),
            },
    )
}

impl SessionState {
    /// The parts are in order, and every outbound identifier is one.
    pub open spec fn wf(&self) -> bool {
        &&& self.outbound.wf()
        &&& forall|k: u64| #[trigger] self.outbound@.contains_key(k) ==> k <= u16::MAX
        &&& self.pubrecs.wf()
        &&& self.delivered.wf()
        &&& self.acked.wf()
        &&& self.flow.wf()
        &&& self.topic_alias_out.wf()
        &&& self.subscriptions.wf()
        &&& self.publish_flows.wf()
    }

    /// Nothing has happened in the session.
    pub open spec fn is_new(&self, client_id: String) -> bool {
        &&& self.client_id == client_id
        &&& self.outbound@ == Map::<u64, Option<PublishPacket>>::empty()
        &&& self.outbound.listing() == Seq::<(u64, Option<PublishPacket>)>::empty()
        &&& self.pubrecs@ == Set::<u16>::empty()
        &&& self.delivered@ == Set::<u16>::empty()
        &&& self.acked@ == Set::<u16>::empty()
        &&& self.server_maximum_packet_size is None
        &&& self.client_maximum_packet_size is None
        &&& self.subscriptions@ == Map::<Seq<char>, SubscriptionOptions>::empty()
        &&& self.publish_flows@ == Map::<u64, u64>::empty()
        &&& self.topic_alias_out.maximum() == 0
        &&& self.topic_alias_out.next() == 1
        &&& self.topic_alias_out.topics() == Map::<u64, String>::empty()
        &&& self.topic_alias_out.aliases() == Map::<Seq<char>, u16>::empty()
        &&& self.flow.is_new(
            65535,
            (crate::session::flow_control::FlowControlConfig {
                in_flight_timeout: 60_000,
                backpressure_timeout: None,
            }),
        )
    }

    /// A session in which nothing has happened.
    pub fn new(client_id: String) -> (r: Self)
        ensures
            r.wf(),
            r.is_new(client_id),
    {
        SessionState {
            client_id,
            outbound: IdMap::new(),
            pubrecs: PacketIdSet::new(),
            delivered: PacketIdSet::new(),
            acked: PacketIdSet::new(),
            flow: FlowControlManager::new(65535),
            topic_alias_out: TopicAliasManager::new(0),
            server_maximum_packet_size: None,
            client_maximum_packet_size: None,
            subscriptions: TextMap::new(),
            publish_flows: IdMap::new(),
        }
    }

    /// Remembers a message until it is acknowledged.
    pub fn store_unacked_publish(&mut self, packet_id: u16, publish: PublishPacket)
        requires
            old(self).wf(),
        ensures
            final(self).wf(),
            remembered(old(self).outbound, final(self).outbound, packet_id, Some(publish)),
            *final(self) == (SessionState { outbound: final(self).outbound, ..*old(self) }),
    {
        let _ = self.outbound.insert(packet_id as u64, Some(publish));
    }

    /// Forgets a message that was not acknowledged. The release of one that was stays.
    pub fn remove_unacked_publish(&mut self, packet_id: u16)
        requires
            old(self).wf(),
        ensures
            final(self).wf(),
            message_forgotten(old(self).outbound, final(self).outbound, packet_id),
            *final(self) == (SessionState { outbound: final(self).outbound, ..*old(self) }),
    {
        let unacked = match self.outbound.get(packet_id as u64) {
            Some(message) => message.is_some(),
            None => false,
        };
        if unacked {
            let _ = self.outbound.remove(packet_id as u64);
        }
    }

    /// A PUBREC came: its message need not be sent again.
    pub fn complete_pubrec(&mut self, packet_id: u16)
        requires
            old(self).wf(),
        ensures
            final(self).wf(),
            message_forgotten(old(self).outbound, final(self).outbound, packet_id),
            *final(self) == (SessionState { outbound: final(self).outbound, ..*old(self) }),
    {
        self.remove_unacked_publish(packet_id);
    }

    /// Remembers that a message was released, until its PUBCOMP comes.
    pub fn store_pubrel(&mut self, packet_id: u16)
        requires
            old(self).wf(),
        ensures
            final(self).wf(),
            remembered(old(self).outbound, final(self).outbound, packet_id, None),
            *final(self) == (SessionState { outbound: final(self).outbound, ..*old(self) }),
    {
        let _ = self.outbound.insert(packet_id as u64, None);
    }

    /// Forgets an exchange, whatever it waits for.
    pub fn complete_outbound(&mut self, packet_id: u16)
        requires
            old(self).wf(),
        ensures
            final(self).wf(),
            forgotten(old(self).outbound, final(self).outbound, packet_id),
            *final(self) == (SessionState { outbound: final(self).outbound, ..*old(self) }),
    {
        let _ = self.outbound.remove(packet_id as u64);
    }

    /// What an exchange waits for.
    pub fn outbound_stage(&self, packet_id: u16) -> (r: Option<OutboundStage>)
        requires
            self.wf(),
        ensures
            r == (if self.outbound@.contains_key(packet_id as u64) {
                Some(stage_of(self.outbound@[packet_id as u64]))
            } else {
                None
            }),
    {
        match self.outbound.get(packet_id as u64) {
            Some(Some(publish)) => if publish.qos == QoS::ExactlyOnce {
                Some(OutboundStage::AwaitingPubRec)
            } else {
                Some(OutboundStage::AwaitingPubAck)
            },
            Some(None) => Some(OutboundStage::AwaitingPubComp),
            None => None,
        }
    }

    /// Whether an identifier belongs to an exchange that is not complete.
    pub fn is_outbound(&self, packet_id: u16) -> (r: bool)
        requires
            self.wf(),
        ensures
            r == self.outbound@.contains_key(packet_id as u64),
    {
        self.outbound.contains_key(packet_id as u64)
    }

    /// What has to be sent again on a new connection, in order.
    pub fn outbound_replay(&self) -> (r: Vec<OutboundReplay>)
        requires
            self.wf(),
        ensures
            r@ == replay_of(self.outbound.listing()),
    {
        let ghost list = self.outbound.listing();
        let n: usize = self.outbound.len();
        let mut out: Vec<OutboundReplay> = Vec::new();
        let mut i: usize = 0;
        while i < n
            invariant
                i <= n,
                n == list.len(),
                list == self.outbound.listing(),
                out@.len() == i,
                forall|j: int| 0 <= j < i ==> #[trigger] out@[j] == replay_of(list)[j],
            decreases n - i,
        {
            let item = match self.outbound.value_at(i) {
                Some(publish) => OutboundReplay::Publish(publish.clone()),
                None => OutboundReplay::PubRel(self.outbound.key_at(i) as u16),
            };
            out.push(item);
            i = i + 1;
        }
        assert(out@ =~= replay_of(list));
        out
    }

    /// Forgets every outbound exchange.
    pub fn discard_outbound_state(&mut self)
        requires
            old(self).wf(),
        ensures
            final(self).wf(),
            final(self).outbound@ == Map::<u64, Option<PublishPacket>>::empty(),
            final(self).outbound.listing() == Seq::<(u64, Option<PublishPacket>)>::empty(),
            *final(self) == (SessionState { outbound: final(self).outbound, ..*old(self) }),
    {
        self.outbound.clear();
    }

    /// Records that the receipt of a QoS 2 message is being confirmed; `true` says that it comes
    /// for the first time.
    pub fn mark_pubrec_pending(&mut self, packet_id: u16) -> (r: bool)
        requires
            old(self).wf(),
        ensures
            final(self).wf(),
            r == !old(self).pubrecs@.contains(packet_id),
            final(self).pubrecs@ == old(self).pubrecs@.insert(packet_id),
            *final(self) == (SessionState { pubrecs: final(self).pubrecs, ..*old(self) }),
    {
        let first = !self.pubrecs.contains(packet_id);
        self.pubrecs.insert(packet_id);
        first
    }

    /// Records that the receipt of a QoS 2 message was confirmed.
    pub fn mark_pubrec_sent(&mut self, packet_id: u16)
        requires
            old(self).wf(),
        ensures
            final(self).wf(),
            final(self).pubrecs@ == old(self).pubrecs@.insert(packet_id),
            *final(self) == (SessionState { pubrecs: final(self).pubrecs, ..*old(self) }),
    {
        self.pubrecs.insert(packet_id);
    }

    /// Forgets that the receipt of a QoS 2 message was confirmed.
    pub fn remove_pubrec(&mut self, packet_id: u16)
        requires
            old(self).wf(),
        ensures
            final(self).wf(),
            final(self).pubrecs@ == old(self).pubrecs@.remove(packet_id),
            *final(self) == (SessionState { pubrecs: final(self).pubrecs, ..*old(self) }),
    {
        self.pubrecs.remove(packet_id);
    }

    /// Whether the receipt of a QoS 2 message was confirmed.
    pub fn has_pubrec(&self, packet_id: u16) -> (r: bool)
        requires
            self.wf(),
        ensures
            r == self.pubrecs@.contains(packet_id),
    {
        self.pubrecs.contains(packet_id)
    }

    /// Records that a message was handed to the application; `true` says that it was for the first
    /// time.
    pub fn mark_delivered(&mut self, packet_id: u16) -> (r: bool)
        requires
            old(self).wf(),
        ensures
            final(self).wf(),
            r == !old(self).delivered@.contains(packet_id),
            final(self).delivered@ == old(self).delivered@.insert(packet_id),
            *final(self) == (SessionState { delivered: final(self).delivered, ..*old(self) }),
    {
        let first = !self.delivered.contains(packet_id);
        self.delivered.insert(packet_id);
        first
    }

    /// Whether a message was handed to the application.
    pub fn is_delivered(&self, packet_id: u16) -> (r: bool)
        requires
            self.wf(),
        ensures
            r == self.delivered@.contains(packet_id),
    {
        self.delivered.contains(packet_id)
    }

    /// Records what the application has decided about a message.
    pub fn set_resolution(&mut self, packet_id: u16, resolution: AckResolution)
        requires
            old(self).wf(),
        ensures
            final(self).wf(),
            final(self).acked@ == match resolution {
                AckResolution::Acked => old(self).acked@.insert(packet_id),
                AckResolution::Unresolved => old(self).acked@.remove(packet_id),
            },
            *final(self) == (SessionState { acked: final(self).acked, ..*old(self) }),
    {
        match resolution {
            AckResolution::Acked => {
                self.acked.insert(packet_id);
            },
            AckResolution::Unresolved => {
                self.acked.remove(packet_id);
            },
        }
    }

    /// What the application has decided about a message.
    pub fn get_resolution(&self, packet_id: u16) -> (r: AckResolution)
        requires
            self.wf(),
        ensures
            r == (if self.acked@.contains(packet_id) {
                AckResolution::Acked
            } else {
                AckResolution::Unresolved
            }),
    {
        if self.acked.contains(packet_id) {
            AckResolution::Acked
        } else {
            AckResolution::Unresolved
        }
    }

    /// Forgets an inbound exchange: a later message with its identifier is a new one.
    pub fn clear_inbound_state(&mut self, packet_id: u16)
        requires
            old(self).wf(),
        ensures
            final(self).wf(),
            final(self).pubrecs@ == old(self).pubrecs@.remove(packet_id),
            final(self).delivered@ == old(self).delivered@.remove(packet_id),
            final(self).acked@ == old(self).acked@.remove(packet_id),
            *final(self) == (SessionState {
                pubrecs: final(self).pubrecs,
                delivered: final(self).delivered,
                acked: final(self).acked,
                ..*old(self)
            }),
    {
        self.pubrecs.remove(packet_id);
        self.delivered.remove(packet_id);
        self.acked.remove(packet_id);
    }

    /// Forgets every inbound exchange.
    pub fn clear_all_inbound_state(&mut self)
        requires
            old(self).wf(),
        ensures
            final(self).wf(),
            final(self).pubrecs@ == Set::<u16>::empty(),
            final(self).delivered@ == Set::<u16>::empty(),
            final(self).acked@ == Set::<u16>::empty(),
            *final(self) == (SessionState {
                pubrecs: final(self).pubrecs,
                delivered: final(self).delivered,
                acked: final(self).acked,
                ..*old(self)
            }),
    {
        self.pubrecs.clear();
        self.delivered.clear();
        self.acked.clear();
    }

    /// Remembers on which flow a message came.
    pub fn store_publish_flow(&mut self, packet_id: u16, flow: u64)
        requires
            old(self).wf(),
        ensures
            final(self).wf(),
            final(self).publish_flows@ == old(self).publish_flows@.insert(packet_id as u64, flow),
            *final(self) == (SessionState {
                publish_flows: final(self).publish_flows,
                ..*old(self)
            }),
    {
        let _ = self.publish_flows.insert(packet_id as u64, flow);
    }

    /// Checks the size of a packet against what the server takes.
    pub fn check_packet_size(&self, size: u64) -> (r: Result<()>)
        ensures
            r is Err <==> (self.server_maximum_packet_size matches Some(max) && size > max),
            r matches Err(e) ==> e == (MqttError::PacketTooLarge {
                size: if size < usize::MAX {
                    size as usize
                } else {
                    usize::MAX
                },
                max: self.server_maximum_packet_size->0 as usize,
            }),
    {
        if let Some(max) = self.server_maximum_packet_size {
            if size > max as u64 {
                let shown: usize = if size < usize::MAX as u64 {
                    size as usize
                } else {
                    usize::MAX
                };
                return Err(MqttError::PacketTooLarge { size: shown, max: max as usize });
            }
        }
        Ok(())
    }

    /// Records a subscription that the server granted.
    pub fn add_subscription(&mut self, topic_filter: &str, options: SubscriptionOptions)
        requires
            old(self).wf(),
        ensures
            final(self).wf(),
            final(self).subscriptions@ == old(self).subscriptions@.insert(topic_filter@, options),
            *final(self) == (SessionState {
                subscriptions: final(self).subscriptions,
                ..*old(self)
            }),
    {
        let _ = self.subscriptions.insert(owned(topic_filter), options);
    }

    /// Forgets a subscription.
    pub fn remove_subscription(&mut self, topic_filter: &str)
        requires
            old(self).wf(),
        ensures
            final(self).wf(),
            final(self).subscriptions@ == old(self).subscriptions@.remove(topic_filter@),
            *final(self) == (SessionState {
                subscriptions: final(self).subscriptions,
                ..*old(self)
            }),
    {
        let _ = self.subscriptions.remove(topic_filter);
    }
}

/// Messages are sent again in the order in which they were stored: a message under a new identifier
/// comes last, one that is stored once more or whose release is remembered keeps its place, and
/// completing an exchange keeps the order of the others.
pub proof fn law_messages_are_sent_again_in_order(
    list: Seq<(u64, Option<PublishPacket>)>,
    packet_id: u16,
    message: Option<PublishPacket>,
)
    ensures
        ({
            let key = packet_id as u64;
            let after = crate::id_map::placed(list, key, message);
            if crate::id_map::holds_key(list, key) {
                &&& after.len() == list.len()
                &&& forall|i: int|
                    0 <= i < list.len() ==> (#[trigger] after[i]).0 == list[i].0 && (after[i].1
                        == if list[i].0 == key {
                        message
                    } else {
                        list[i].1
                    })
            } else {
                &&& replay_of(after).drop_last() == replay_of(list)
                &&& replay_of(after).last() == (match message {
                    Some(publish) => OutboundReplay::Publish(publish),
                    None => OutboundReplay::PubRel(packet_id),
                })
            }
        }),
        crate::id_map::without_key(list, packet_id as u64) == list.filter(
            |e: (u64, Option<PublishPacket>)| e.0 != packet_id as u64,
        ),
{
    let key = packet_id as u64;
    let after = crate::id_map::placed(list, key, message);
    if !crate::id_map::holds_key(list, key) {
        assert(replay_of(after).drop_last() =~= replay_of(list));
    }
    lemma_without_key_is_filter(list, key);
}

proof fn lemma_without_key_is_filter(list: Seq<(u64, Option<PublishPacket>)>, key: u64)
    ensures
        crate::id_map::without_key(list, key) == list.filter(
            |e: (u64, Option<PublishPacket>)| e.0 != key,
        ),
    decreases list.len(),
{
    reveal(Seq::filter);
    if list.len() > 0 {
        lemma_without_key_is_filter(list.drop_last(), key);
    }
}

/// An exchange goes through its stages: a QoS 1 message waits for its PUBACK, a QoS 2 message for its
/// PUBREC, and once it was released for its PUBCOMP.
pub proof fn law_exchange_goes_through_its_stages(publish: PublishPacket)
    requires
        publish.qos != QoS::AtMostOnce,
    ensures
        stage_of(Some(publish)) == OutboundStage::AwaitingPubAck <==> publish.qos
            == QoS::AtLeastOnce,
        stage_of(Some(publish)) == OutboundStage::AwaitingPubRec <==> publish.qos
            == QoS::ExactlyOnce,
        stage_of(None) == OutboundStage::AwaitingPubComp,
{
}

/// Of each exchange what is outstanding is sent again: the message until it was taken, and its release
/// from then on.
pub proof fn law_outstanding_part_is_sent_again(
    list: Seq<(u64, Option<PublishPacket>)>,
    i: int,
)
    requires
        0 <= i < list.len(),
        list[i].0 <= u16::MAX,
    ensures
        replay_of(list).len() == list.len(),
        list[i].1 matches Some(publish) ==> replay_of(list)[i] == OutboundReplay::Publish(publish),
        list[i].1 is None ==> (replay_of(list)[i] matches OutboundReplay::PubRel(id) && id
            == list[i].0),
{
}

/// A message that is remembered is found until it is forgotten; forgetting it keeps every other, and
/// the release of a message is not forgotten with it.
pub proof fn law_message_is_remembered_until_it_is_forgotten(
    before: Exchanges,
    stored: Exchanges,
    after: Exchanges,
    packet_id: u16,
    message: Option<PublishPacket>,
    other: u64,
)
    requires
        remembered(before, stored, packet_id, message),
        other != packet_id as u64,
    ensures
        stored@.contains_key(packet_id as u64),
        stored@[packet_id as u64] == message,
        stored@.contains_key(other) == before@.contains_key(other),
        before@.contains_key(other) ==> stored@[other] == before@[other],
        forgotten(stored, after, packet_id) ==> !after@.contains_key(packet_id as u64)
            && after@.contains_key(other) == before@.contains_key(other),
        message_forgotten(stored, after, packet_id) ==> (after@.contains_key(packet_id as u64)
            <==> message is None),
{
}

} // verus!
