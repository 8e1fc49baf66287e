//! Checks on what the client sends.

use crate::error::{MqttError, Result};
use crate::packets::{ConnAckPacket, SubscribePacket, TopicFilter, UnsubscribePacket};
use crate::session::topic_alias::TopicAliasManager;
use crate::text::{decimal_text, is_empty_text, joined, owned};
use crate::topic::{
    is_wildcard_filter, parse_shared_subscription, validate_subscription_filter,
    validate_topic_name,
};
use crate::types::{Properties, QoS};
use vstd::prelude::*;

verus! {

/// The largest subscription identifier.
pub const MAX_SUBSCRIPTION_IDENTIFIER: u32 = 268_435_455;

/// The properties of a message to publish.
pub type PublishProperties = Properties;

/// How a message is to be published.
#[derive(Debug)]
pub struct PublishOptions {
    pub qos: QoS,
    pub retain: bool,
    pub properties: PublishProperties,
    /// The payload goes out as it is, even where a codec is set.
    pub skip_codec: bool,
}

impl Default for PublishOptions {
    fn default() -> (r: Self)
        ensures
            r.qos == QoS::AtMostOnce,
            !r.retain,
            r.properties.none(),
            !r.skip_codec,
    {
        PublishOptions {
            qos: QoS::AtMostOnce,
            retain: false,
            properties: Properties::default(),
            skip_codec: false,
        }
    }
}

/// What a server says that it can do with subscriptions.
#[derive(Debug, Clone, Copy, PartialEq, Eq, Structural)]
pub struct ServerCapabilities {
    pub wildcard_subscriptions: bool,
    pub shared_subscriptions: bool,
    pub subscription_identifiers: bool,
}

impl Default for ServerCapabilities {
    fn default() -> (r: Self)
        ensures
            r == (ServerCapabilities {
                wildcard_subscriptions: true,
                shared_subscriptions: true,
                subscription_identifiers: true,
            }),
    {
        ServerCapabilities {
            wildcard_subscriptions: true,
            shared_subscriptions: true,
            subscription_identifiers: true,
        }
    }
}

/// A capability is there unless its property is zero.
pub open spec fn available(property: Option<u8>) -> bool {
    property != Some(0u8)
}

fn is_available(property: Option<u8>) -> (r: bool)
    ensures
        r == available(property),
{
    match property {
        Some(value) => value != 0,
        None => true,
    }
}

/// A number that is no subscription identifier.
pub open spec fn bad_identifier(id: u32) -> bool {
    id == 0 || id > MAX_SUBSCRIPTION_IDENTIFIER
}

/// What is said about a number that is no subscription identifier.
pub open spec fn identifier_text(id: u32) -> Seq<char> {
    "Subscription Identifier "@ + crate::text::decimal(id as nat) + " is outside 1..=268435455"@
}

impl ServerCapabilities {
    /// The capabilities that a CONNACK announces.
    pub fn from_connack(connack: &ConnAckPacket) -> (r: Self)
        ensures
            r.wildcard_subscriptions == available(
                connack.properties.wildcard_subscription_available,
            ),
            r.shared_subscriptions == available(connack.properties.shared_subscription_available),
            r.subscription_identifiers == available(
                connack.properties.subscription_identifier_available,
            ),
    {
        ServerCapabilities {
            wildcard_subscriptions: is_available(
                connack.properties.wildcard_subscription_available,
            ),
            shared_subscriptions: is_available(connack.properties.shared_subscription_available),
            subscription_identifiers: is_available(
                connack.properties.subscription_identifier_available,
            ),
        }
    }

    /// Whether a filter may be subscribed to.
    pub open spec fn takes_filter(self, filter: Seq<char>) -> bool {
        &&& crate::topic::valid_subscription_filter(filter)
        &&& crate::topic::share_group(filter) is Some ==> self.shared_subscriptions
        &&& crate::topic::has_wildcard(crate::topic::unshared(filter))
            ==> self.wildcard_subscriptions
    }

    /// The error for a filter that may not be subscribed to.
    pub open spec fn filter_error(self, filter: Seq<char>, e: MqttError) -> bool {
        if !crate::topic::valid_subscription_filter(filter) {
            e matches MqttError::InvalidTopicFilter(t) && t@ == filter
        } else if crate::topic::share_group(filter) is Some && !self.shared_subscriptions {
            e == MqttError::SharedSubscriptionsNotSupported
        } else {
            e == MqttError::WildcardSubscriptionsNotSupported
        }
    }

    /// Whether a SUBSCRIBE may be sent.
    pub open spec fn takes(self, packet: SubscribePacket) -> bool {
        let ids = packet.properties.subscription_identifiers@;
        &&& forall|i: int| 0 <= i < ids.len() ==> !bad_identifier(#[trigger] ids[i])
        &&& ids.len() > 0 ==> self.subscription_identifiers
        &&& forall|i: int|
            0 <= i < packet.filters@.len() ==> self.takes_filter(
                (#[trigger] packet.filters@[i]).filter@,
            )
    }

    /// The error for a SUBSCRIBE that may not be sent: the first bad identifier, then identifiers
    /// that the server does not take, then the first bad filter.
    pub open spec fn refusal(self, packet: SubscribePacket, e: MqttError) -> bool {
        let ids = packet.properties.subscription_identifiers@;
        ||| exists|i: int|
            0 <= i < ids.len() && bad_identifier(#[trigger] ids[i]) && (forall|j: int|
                0 <= j < i ==> !bad_identifier(#[trigger] ids[j])) && (
            e matches MqttError::ProtocolError(t) && t@ == identifier_text(ids[i]))
        ||| {
            &&& forall|i: int| 0 <= i < ids.len() ==> !bad_identifier(#[trigger] ids[i])
            &&& ids.len() > 0 && !self.subscription_identifiers
            &&& e == MqttError::SubscriptionIdentifiersNotSupported
        }
        ||| {
            &&& forall|i: int| 0 <= i < ids.len() ==> !bad_identifier(#[trigger] ids[i])
            &&& ids.len() > 0 ==> self.subscription_identifiers
            &&& exists|i: int|
                0 <= i < packet.filters@.len() && !self.takes_filter(
                    (#[trigger] packet.filters@[i]).filter@,
                ) && (forall|j: int|
                    0 <= j < i ==> self.takes_filter((#[trigger] packet.filters@[j]).filter@))
                    && self.filter_error(packet.filters@[i].filter@, e)
        }
    }

    fn check_filter(self, filter: &TopicFilter) -> (r: Result<()>)
        ensures
            r is Ok <==> self.takes_filter(filter.filter@),
            r matches Err(e) ==> self.filter_error(filter.filter@, e),
    {
        match validate_subscription_filter(filter.filter.as_str()) {
            Ok(()) => {},
            Err(e) => {
                return Err(e);
            },
        }
        let (topic_filter, share_name) = parse_shared_subscription(filter.filter.as_str());
        if share_name.is_some() && !self.shared_subscriptions {
            return Err(MqttError::SharedSubscriptionsNotSupported);
        }
        if is_wildcard_filter(topic_filter.as_str()) && !self.wildcard_subscriptions {
            return Err(MqttError::WildcardSubscriptionsNotSupported);
        }
        Ok(())
    }

    /// Checks a SUBSCRIBE against what the protocol and the server allow.
    pub fn check_subscribe(self, packet: &SubscribePacket) -> (r: Result<()>)
        ensures
            r is Ok <==> self.takes(*packet),
            r matches Err(e) ==> self.refusal(*packet, e),
    {
        let ghost ids = packet.properties.subscription_identifiers@;
        let mut i: usize = 0;
        while i < packet.properties.subscription_identifiers.len()
            invariant
                ids == packet.properties.subscription_identifiers@,
                i <= ids.len(),
                forall|j: int| 0 <= j < i ==> !bad_identifier(#[trigger] ids[j]),
            decreases ids.len() - i,
        {
            let id: u32 = packet.properties.subscription_identifiers[i];
            if id == 0 || id > MAX_SUBSCRIPTION_IDENTIFIER {
                let number = decimal_text(id as u64);
                assert(bad_identifier(ids[i as int]));
                return Err(
                    MqttError::ProtocolError(
                        joined(
                            "Subscription Identifier ",
                            number.as_str(),
                            " is outside 1..=268435455",
                        ),
                    ),
                );
            }
            assert(!bad_identifier(ids[i as int]));
            i = i + 1;
        }
        if packet.properties.subscription_identifiers.len() != 0 && !self.subscription_identifiers {
            return Err(MqttError::SubscriptionIdentifiersNotSupported);
        }
        let mut k: usize = 0;
        while k < packet.filters.len()
            invariant
                k <= packet.filters@.len(),
                forall|j: int| 0 <= j < ids.len() ==> !bad_identifier(#[trigger] ids[j]),
                ids == packet.properties.subscription_identifiers@,
                ids.len() > 0 ==> self.subscription_identifiers,
                forall|j: int|
                    0 <= j < k ==> self.takes_filter((#[trigger] packet.filters@[j]).filter@),
            decreases packet.filters@.len() - k,
        {
            match self.check_filter(&packet.filters[k]) {
                Ok(()) => {},
                Err(e) => {
                    assert(!self.takes_filter(packet.filters@[k as int].filter@));
                    return Err(e);
                },
            }
            assert(self.takes_filter(packet.filters@[k as int].filter@));
            k = k + 1;
        }
        Ok(())
    }
}

/// Checks the filters of an UNSUBSCRIBE; the first bad one is the error.
pub fn check_unsubscribe(packet: &UnsubscribePacket) -> (r: Result<()>)
    ensures
        r is Ok <==> forall|i: int|
            0 <= i < packet.filters@.len() ==> crate::topic::valid_subscription_filter(
                (#[trigger] packet.filters@[i])@,
            ),
        r matches Err(e) ==> exists|i: int|
            0 <= i < packet.filters@.len() && !crate::topic::valid_subscription_filter(
                (#[trigger] packet.filters@[i])@,
            ) && (forall|j: int|
                0 <= j < i ==> crate::topic::valid_subscription_filter(
                    (#[trigger] packet.filters@[j])@,
                )) && (e matches MqttError::InvalidTopicFilter(t) && t@ == packet.filters@[i]@),
{
    let mut i: usize = 0;
    while i < packet.filters.len()
        invariant
            i <= packet.filters@.len(),
            forall|j: int|
                0 <= j < i ==> crate::topic::valid_subscription_filter(
                    (#[trigger] packet.filters@[j])@,
                ),
        decreases packet.filters@.len() - i,
    {
        match validate_subscription_filter(packet.filters[i].as_str()) {
            Ok(()) => {},
            Err(e) => {
                assert(!crate::topic::valid_subscription_filter(packet.filters@[i as int]@));
                return Err(e);
            },
        }
        assert(crate::topic::valid_subscription_filter(packet.filters@[i as int]@));
        i = i + 1;
    }
    Ok(())
}

/// Whether a message may have a topic: a name that is empty needs an alias.
pub open spec fn topic_passes(topic: Seq<char>, properties: Properties) -> bool {
    if topic.len() == 0 {
        properties.topic_alias is Some
    } else {
        crate::topic::valid_topic_name(topic)
    }
}

/// The error for a topic that a message may not have.
pub open spec fn topic_error(topic: Seq<char>, e: MqttError) -> bool {
    e matches MqttError::InvalidTopicName(t) && t@ == (if topic.len() == 0 {
        "zero-length Topic Name requires a Topic Alias"@
    } else {
        topic
    })
}

/// Checks the topic of a message.
pub fn check_topic(topic: &str, properties: &Properties) -> (r: Result<()>)
    ensures
        r is Ok <==> topic_passes(topic@, *properties),
        r matches Err(e) ==> topic_error(topic@, e),
{
    if is_empty_text(topic) {
        if properties.topic_alias.is_none() {
            return Err(
                MqttError::InvalidTopicName(
                    owned("zero-length Topic Name requires a Topic Alias"),
                ),
            );
        }
        return Ok(());
    }
    validate_topic_name(topic)
}

/// Whether a message may be published on a topic: a name that is empty needs an alias, an alias is
/// not zero, a response topic is a topic name, and there are no subscription identifiers.
pub open spec fn publishable(topic: Seq<char>, properties: Properties) -> bool {
    &&& topic_passes(topic, properties)
    &&& properties.topic_alias != Some(0u16)
    &&& properties.response_topic matches Some(t) ==> crate::topic::valid_topic_name(t@)
    &&& properties.subscription_identifiers@.len() == 0
}

/// The error for a message that may not be published.
pub open spec fn publish_error(topic: Seq<char>, properties: Properties, e: MqttError) -> bool {
    if !topic_passes(topic, properties) {
        topic_error(topic, e)
    } else if properties.topic_alias == Some(0u16) {
        e == MqttError::TopicAliasInvalid(0)
    } else if properties.response_topic is Some && !crate::topic::valid_topic_name(
        properties.response_topic->0@,
    ) {
        e matches MqttError::InvalidTopicName(t) && t@ == properties.response_topic->0@
    } else {
        e matches MqttError::ProtocolError(t) && t@
            == "a client PUBLISH must not contain a Subscription Identifier"@
    }
}

/// Checks a message before it is published.
pub fn check_publish(topic: &str, options: &PublishOptions) -> (r: Result<()>)
    ensures
        r is Ok <==> publishable(topic@, options.properties),
        r matches Err(e) ==> publish_error(topic@, options.properties, e),
{
    let properties = &options.properties;
    match check_topic(topic, properties) {
        Ok(()) => {},
        Err(e) => {
            return Err(e);
        },
    }
    if let Some(alias) = properties.topic_alias {
        if alias == 0 {
            return Err(MqttError::TopicAliasInvalid(0));
        }
    }
    if let Some(response_topic) = &properties.response_topic {
        match validate_topic_name(response_topic.as_str()) {
            Ok(()) => {},
            Err(e) => {
                return Err(e);
            },
        }
    }
    if properties.subscription_identifiers.len() != 0 {
        return Err(
            MqttError::ProtocolError(
                owned("a client PUBLISH must not contain a Subscription Identifier"),
            ),
        );
    }
    Ok(())
}

/// Whether an alias may go out with a topic: without a topic it has to stand for one already, with
/// a topic it has to be within the maximum.
pub open spec fn alias_usable(aliases: TopicAliasManager, topic: Seq<char>, alias: u16) -> bool {
    if topic.len() == 0 {
        aliases.topics().contains_key(alias as u64)
    } else {
        1 <= alias <= aliases.maximum()
    }
}

/// Checks an alias that goes out with a topic.
pub fn check_topic_alias(aliases: &TopicAliasManager, topic: &str, alias: u16) -> (r: Result<()>)
    requires
        aliases.wf(),
    ensures
        r is Ok <==> alias_usable(*aliases, topic@, alias),
        r matches Err(e) ==> e == MqttError::TopicAliasInvalid(alias),
{
    let known = if is_empty_text(topic) {
        aliases.get_topic(alias).is_some()
    } else {
        1 <= alias && alias <= aliases.topic_alias_maximum()
    };
    if known {
        Ok(())
    } else {
        Err(MqttError::TopicAliasInvalid(alias))
    }
}

/// A capability that a server does not mention is there, and so is one that it announces with any
/// number but zero.
pub proof fn law_unmentioned_capability_is_there(value: u8)
    ensures
        available(None),
        available(Some(value)) <==> value > 0,
{
}

/// A server that takes everything takes every filter that may be subscribed to. One without wildcards
/// takes none that holds one, and one without shared subscriptions none in the name of a group; the
/// error says so.
pub proof fn law_filters_that_a_server_takes(
    capabilities: ServerCapabilities,
    filter: Seq<char>,
    group: Seq<char>,
    e: MqttError,
)
    requires
        !group.contains('/'),
    ensures
        capabilities.takes_filter(filter) ==> crate::topic::valid_subscription_filter(filter),
        capabilities.wildcard_subscriptions && capabilities.shared_subscriptions
            && crate::topic::valid_subscription_filter(filter) ==> capabilities.takes_filter(filter),
        !"$share/"@.is_prefix_of(filter) && crate::topic::valid_subscription_filter(filter) ==> (
        capabilities.takes_filter(filter) <==> capabilities.wildcard_subscriptions || !(
        filter.contains('+') || filter.contains('#'))),
        ({
            let whole = "$share/"@ + group + "/"@ + filter;
            crate::topic::valid_subscription_filter(whole) ==> (capabilities.takes_filter(whole)
                <==> capabilities.shared_subscriptions && (capabilities.wildcard_subscriptions
                || !(filter.contains('+') || filter.contains('#'))))
        }),
        !capabilities.takes_filter(filter) && capabilities.filter_error(filter, e) ==> {
            &&& !crate::topic::valid_subscription_filter(filter) ==> e is InvalidTopicFilter
            &&& e is SharedSubscriptionsNotSupported ==> !capabilities.shared_subscriptions
            &&& e is WildcardSubscriptionsNotSupported ==> !capabilities.wildcard_subscriptions
            &&& e is InvalidTopicFilter || e is SharedSubscriptionsNotSupported || e
                is WildcardSubscriptionsNotSupported
        },
{
    crate::topic::law_shared_subscription_is_taken_apart(group, filter, filter);
}

/// Subscription identifiers run from 1 to 268435455; a SUBSCRIBE carries some only to a server that
/// takes them.
pub proof fn law_subscription_identifiers(
    capabilities: ServerCapabilities,
    packet: SubscribePacket,
    i: int,
    id: u32,
)
    requires
        capabilities.takes(packet),
        0 <= i < packet.properties.subscription_identifiers@.len(),
    ensures
        1 <= packet.properties.subscription_identifiers@[i] <= 268_435_455,
        capabilities.subscription_identifiers,
        bad_identifier(id) <==> !(1 <= id <= 268_435_455),
{
    assert(!bad_identifier(packet.properties.subscription_identifiers@[i]));
}

/// A message may be published on a topic without wildcards, or on none where an alias stands for it;
/// an alias is never zero, answers go to a topic name, and there are no subscription identifiers.
pub proof fn law_messages_that_may_be_published(topic: Seq<char>, properties: Properties)
    ensures
        publishable(topic, properties) ==> {
            &&& !topic.contains('+') && !topic.contains('#')
            &&& topic.len() == 0 ==> properties.topic_alias is Some
            &&& properties.topic_alias is Some ==> properties.topic_alias->0 > 0
            &&& properties.response_topic is Some ==> properties.response_topic->0@.len() > 0
                && !properties.response_topic->0@.contains('+')
                && !properties.response_topic->0@.contains('#')
            &&& properties.subscription_identifiers@.len() == 0
        },
        crate::topic::valid_topic_name(topic) && properties.topic_alias is None
            && properties.response_topic is None && properties.subscription_identifiers@.len() == 0
            ==> publishable(topic, properties),
        topic.len() == 0 && properties.topic_alias is Some && properties.topic_alias->0 > 0
            && properties.response_topic is None && properties.subscription_identifiers@.len() == 0
            ==> publishable(topic, properties),
{
}

/// The error of a message tells what is wrong with it, the topic before all else.
pub proof fn law_error_tells_what_is_wrong_with_a_message(
    topic: Seq<char>,
    properties: Properties,
    e: MqttError,
)
    requires
        publish_error(topic, properties, e),
    ensures
        topic.len() > 0 && !crate::topic::valid_topic_name(topic) ==> e is InvalidTopicName
            && e->InvalidTopicName_0@ == topic,
        topic.len() == 0 && properties.topic_alias is None ==> e is InvalidTopicName,
        topic.len() > 0 && crate::topic::valid_topic_name(topic) && properties.topic_alias == Some(
            0u16,
        ) ==> e == MqttError::TopicAliasInvalid(0),
        topic.len() > 0 && crate::topic::valid_topic_name(topic) && properties.topic_alias is None
            && properties.response_topic is Some && !crate::topic::valid_topic_name(
            properties.response_topic->0@,
        ) ==> e is InvalidTopicName && e->InvalidTopicName_0@ == properties.response_topic->0@,
{
}

/// The error of a SUBSCRIBE tells what is wrong with it, a bad identifier before all else.
pub proof fn law_error_tells_what_is_wrong_with_a_subscribe(
    server: ServerCapabilities,
    packet: SubscribePacket,
    e: MqttError,
)
    requires
        server.refusal(packet, e),
    ensures
        ({
            let ids = packet.properties.subscription_identifiers@;
            let bad = exists|i: int|
                0 <= i < ids.len() && ((#[trigger] ids[i]) == 0 || ids[i] > 268_435_455);
            &&& bad ==> e is ProtocolError
            &&& !bad && ids.len() > 0 && !server.subscription_identifiers ==> e
                == MqttError::SubscriptionIdentifiersNotSupported
            &&& e == MqttError::SubscriptionIdentifiersNotSupported && !bad ==> packet.filters@.len()
                > 0 || ids.len() > 0
        }),
{
    let ids = packet.properties.subscription_identifiers@;
    if exists|i: int| 0 <= i < ids.len() && ((#[trigger] ids[i]) == 0 || ids[i] > 268_435_455) {
        let i = choose|i: int|
            0 <= i < ids.len() && ((#[trigger] ids[i]) == 0 || ids[i] > 268_435_455);
        assert(bad_identifier(ids[i]));
    }
}

/// An alias may go out with a topic where the server takes that many, and without one only where it
/// stands for one already.
pub proof fn law_aliases_that_may_go_out(
    aliases: TopicAliasManager,
    topic: Seq<char>,
    alias: u16,
)
    ensures
        topic.len() > 0 ==> (alias_usable(aliases, topic, alias) <==> alias != 0 && alias
            <= aliases.maximum()),
        topic.len() == 0 ==> (alias_usable(aliases, topic, alias)
            <==> aliases.topics().contains_key(alias as u64)),
{
}

/// The error for a filter tells what the server does not take: a filter that is not valid before all
/// else, then shared subscriptions, then wildcards.
pub proof fn law_error_tells_what_is_wrong_with_a_filter(
    server: ServerCapabilities,
    filter: Seq<char>,
    e: MqttError,
)
    requires
        !server.takes_filter(filter),
        server.filter_error(filter, e),
    ensures
        !crate::topic::valid_subscription_filter(filter) <==> e is InvalidTopicFilter,
        e is InvalidTopicFilter ==> e->InvalidTopicFilter_0@ == filter,
        e == MqttError::SharedSubscriptionsNotSupported ==> !server.shared_subscriptions
            && crate::topic::share_group(filter) is Some,
        e == MqttError::WildcardSubscriptionsNotSupported ==> !server.wildcard_subscriptions
            && crate::topic::has_wildcard(crate::topic::unshared(filter)),
        crate::topic::valid_subscription_filter(filter) && crate::topic::share_group(filter) is Some
            && !server.shared_subscriptions ==> e == MqttError::SharedSubscriptionsNotSupported,
{
}

/// A SUBSCRIBE whose identifiers pass is refused only for a filter that the server does not take.
pub proof fn law_subscribe_is_refused_for_its_filter(
    server: ServerCapabilities,
    packet: SubscribePacket,
    e: MqttError,
)
    requires
        server.refusal(packet, e),
        packet.properties.subscription_identifiers@.len() == 0,
    ensures
        exists|i: int|
            0 <= i < packet.filters@.len() && !server.takes_filter(
                (#[trigger] packet.filters@[i]).filter@,
            ) && server.filter_error(packet.filters@[i].filter@, e),
{
}

} // verus!
