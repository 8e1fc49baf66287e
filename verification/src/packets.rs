//! The packets that clients and servers exchange.

use crate::error::ReasonCode;
use crate::text::{byte_len, share};
use crate::types::{Bytes, Properties, PublishPacket, QoS};
use vstd::prelude::*;

verus! {

/// How a subscription wants its messages.
#[derive(Debug, Clone, Copy, PartialEq, Eq, Structural)]
pub struct SubscriptionOptions {
    pub qos: QoS,
    pub no_local: bool,
    pub retain_as_published: bool,
    pub retain_handling: u8,
}

impl Default for SubscriptionOptions {
    fn default() -> (r: Self)
        ensures
            r == (SubscriptionOptions {
                qos: QoS::AtMostOnce,
                no_local: false,
                retain_as_published: false,
                retain_handling: 0,
            }),
    {
        SubscriptionOptions {
            qos: QoS::AtMostOnce,
            no_local: false,
            retain_as_published: false,
            retain_handling: 0,
        }
    }
}

/// A filter to subscribe to.
#[derive(Debug)]
pub struct TopicFilter {
    pub filter: String,
    pub options: SubscriptionOptions,
}

/// A SUBSCRIBE packet.
#[derive(Debug)]
pub struct SubscribePacket {
    pub packet_id: u16,
    pub filters: Vec<TopicFilter>,
    pub properties: Properties,
    pub protocol_version: u8,
}

/// An UNSUBSCRIBE packet.
#[derive(Debug)]
pub struct UnsubscribePacket {
    pub packet_id: u16,
    pub filters: Vec<String>,
    pub properties: Properties,
    pub protocol_version: u8,
}

/// A PUBACK, PUBREC, PUBREL or PUBCOMP packet.
#[derive(Debug)]
pub struct AckPacket {
    pub packet_id: u16,
    pub reason_code: ReasonCode,
    pub properties: Properties,
}

impl AckPacket {
    /// An acknowledgement that carries nothing but its reason.
    pub open spec fn plain(&self, packet_id: u16, reason_code: ReasonCode) -> bool {
        &&& self.packet_id == packet_id
        &&& self.reason_code == reason_code
        &&& self.properties.none()
    }

    /// An acknowledgement that carries nothing but its reason.
    pub fn new(packet_id: u16, reason_code: ReasonCode) -> (r: Self)
        ensures
            r.plain(packet_id, reason_code),
    {
        AckPacket { packet_id, reason_code, properties: Properties::default() }
    }
}

/// A SUBACK packet.
#[derive(Debug)]
pub struct SubAckPacket {
    pub packet_id: u16,
    pub reason_codes: Vec<ReasonCode>,
    pub properties: Properties,
}

/// An UNSUBACK packet.
#[derive(Debug)]
pub struct UnsubAckPacket {
    pub packet_id: u16,
    pub reason_codes: Vec<ReasonCode>,
    pub properties: Properties,
}

/// A CONNACK packet.
#[derive(Debug)]
pub struct ConnAckPacket {
    pub session_present: bool,
    pub reason_code: ReasonCode,
    pub properties: Properties,
}

impl ConnAckPacket {
    /// A CONNACK without properties.
    pub fn new(session_present: bool, reason_code: ReasonCode) -> (r: Self)
        ensures
            r.session_present == session_present,
            r.reason_code == reason_code,
            r.properties.none(),
    {
        ConnAckPacket { session_present, reason_code, properties: Properties::default() }
    }
}

/// An AUTH or DISCONNECT packet.
#[derive(Debug)]
pub struct ReasonPacket {
    pub reason_code: ReasonCode,
    pub properties: Properties,
}

/// The message that the server publishes when a client is lost.
#[derive(Debug)]
pub struct WillMessage {
    pub topic: String,
    pub payload: Bytes,
    pub qos: QoS,
    pub retain: bool,
    pub properties: Properties,
}

impl Clone for WillMessage {
    fn clone(&self) -> (r: Self)
        ensures
            r == *self,
    {
        WillMessage {
            topic: self.topic.clone(),
            payload: share(&self.payload),
            qos: self.qos,
            retain: self.retain,
            properties: self.properties.clone(),
        }
    }
}

/// A CONNECT packet.
#[derive(Debug)]
pub struct ConnectPacket {
    pub protocol_version: u8,
    pub clean_start: bool,
    pub keep_alive: u16,
    pub client_id: String,
    pub will: Option<WillMessage>,
    pub username: Option<String>,
    pub password: Option<Bytes>,
    pub properties: Properties,
    pub will_properties: Properties,
}

/// A packet.
#[derive(Debug)]
pub enum Packet {
    Connect(Box<ConnectPacket>),
    ConnAck(ConnAckPacket),
    Publish(PublishPacket),
    PubAck(AckPacket),
    PubRec(AckPacket),
    PubRel(AckPacket),
    PubComp(AckPacket),
    Subscribe(SubscribePacket),
    SubAck(SubAckPacket),
    Unsubscribe(UnsubscribePacket),
    UnsubAck(UnsubAckPacket),
    PingReq,
    PingResp,
    Disconnect(ReasonPacket),
    Auth(ReasonPacket),
}

/// How many bytes a variable byte integer takes.
pub open spec fn varint_size(n: int) -> int {
    if n < 0x80 {
        1
    } else if n < 0x4000 {
        2
    } else if n < 0x20_0000 {
        3
    } else {
        4
    }
}

/// How many bytes the optional texts and byte strings of a property take: its identifier, the
/// length and the bytes.
pub open spec fn text_size(text: Option<String>) -> int {
    match text {
        Some(t) => 3int + crate::text::utf8(t@).len(),
        None => 0,
    }
}

/// How many bytes the subscription identifiers take.
pub open spec fn identifiers_size(ids: Seq<u32>) -> int
    decreases ids.len(),
{
    if ids.len() == 0 {
        0
    } else {
        identifiers_size(ids.drop_last()) + 1 + varint_size(ids.last() as int)
    }
}

/// How many bytes the user properties take.
pub open spec fn user_size(user: Seq<(String, String)>) -> int
    decreases user.len(),
{
    if user.len() == 0 {
        0
    } else {
        user_size(user.drop_last()) + 5 + crate::text::utf8(user.last().0@).len()
            + crate::text::utf8(user.last().1@).len()
    }
}

/// How many bytes the properties of a PUBLISH take, without their length.
pub open spec fn publish_properties_size(p: Properties) -> int {
    (if p.payload_format_indicator is Some {
        2int
    } else {
        0
    }) + (if p.message_expiry_interval is Some {
        5int
    } else {
        0
    }) + (if p.topic_alias is Some {
        3int
    } else {
        0
    }) + text_size(p.content_type) + text_size(p.response_topic) + (match p.correlation_data {
        Some(data) => 3int + data@.len(),
        None => 0,
    }) + identifiers_size(p.subscription_identifiers@) + user_size(p.user_properties@)
}

/// How many bytes of a PUBLISH follow its fixed header.
pub open spec fn publish_rest_size(packet: PublishPacket) -> int {
    2 + crate::text::utf8(packet.topic_name@).len() + (if packet.qos.level() > 0 {
        2int
    } else {
        0
    }) + (if packet.protocol_version == 5 {
        varint_size(publish_properties_size(packet.properties)) + publish_properties_size(
            packet.properties,
        )
    } else {
        0
    }) + packet.payload@.len()
}

/// How many bytes a PUBLISH takes on the wire.
pub open spec fn publish_size(packet: PublishPacket) -> int {
    1 + varint_size(publish_rest_size(packet)) + publish_rest_size(packet)
}

/// The largest number of a sum that is kept.
pub const SIZE_CAP: u128 = 0xFFFF_FFFF_FFFF_FFFF_FFFF_FFFF_FFFF;

/// A number of bytes, or the cap where it is larger.
pub open spec fn capped(n: int) -> int {
    if n < SIZE_CAP {
        n
    } else {
        SIZE_CAP as int
    }
}

fn plus(a: u128, b: u128) -> (r: u128)
    requires
        a <= SIZE_CAP,
        b <= 0xFFFF_FFFF_FFFF_FFFF_FFFF,
    ensures
        r == capped(a + b),
{
    if a + b < SIZE_CAP {
        a + b
    } else {
        SIZE_CAP
    }
}

fn varint_len(n: u128) -> (r: u128)
    requires
        n <= SIZE_CAP,
    ensures
        r == varint_size(n as int),
{
    if n < 0x80 {
        1
    } else if n < 0x4000 {
        2
    } else if n < 0x20_0000 {
        3
    } else {
        4
    }
}

fn text_len(text: &Option<String>) -> (r: u128)
    ensures
        r == text_size(*text),
        r <= 0x1_0000_0000_0000_0002,
{
    match text {
        Some(t) => 3 + byte_len(t.as_str()) as u128,
        None => 0,
    }
}

fn properties_len(p: &Properties) -> (r: u128)
    ensures
        r == capped(publish_properties_size(*p)),
        r <= SIZE_CAP,
{
    let mut n: u128 = 0;
    if p.payload_format_indicator.is_some() {
        n = n + 2;
    }
    if p.message_expiry_interval.is_some() {
        n = n + 5;
    }
    if p.topic_alias.is_some() {
        n = n + 3;
    }
    n = n + text_len(&p.content_type) + text_len(&p.response_topic);
    n = n + match &p.correlation_data {
        Some(data) => 3 + data.len() as u128,
        None => 0,
    };
    let ghost base = n;
    let ghost ids = p.subscription_identifiers@;
    let mut i: usize = 0;
    assert(ids.take(0) =~= Seq::<u32>::empty());
    while i < p.subscription_identifiers.len()
        invariant
            ids == p.subscription_identifiers@,
            i <= ids.len(),
            n <= SIZE_CAP,
            n == capped(base + identifiers_size(ids.take(i as int))),
        decreases ids.len() - i,
    {
        assert(ids.take(i + 1).drop_last() =~= ids.take(i as int));
        let step: u128 = 1 + varint_len(p.subscription_identifiers[i] as u128);
        n = plus(n, step);
        i = i + 1;
    }
    assert(ids.take(ids.len() as int) =~= ids);
    let ghost so_far = base + identifiers_size(ids);
    let ghost user = p.user_properties@;
    let mut j: usize = 0;
    assert(user.take(0) =~= Seq::<(String, String)>::empty());
    while j < p.user_properties.len()
        invariant
            user == p.user_properties@,
            j <= user.len(),
            n <= SIZE_CAP,
            n == capped(so_far + user_size(user.take(j as int))),
        decreases user.len() - j,
    {
        assert(user.take(j + 1).drop_last() =~= user.take(j as int));
        let step: u128 = 5 + byte_len(p.user_properties[j].0.as_str()) as u128 + byte_len(
            p.user_properties[j].1.as_str(),
        ) as u128;
        n = plus(n, step);
        j = j + 1;
    }
    assert(user.take(user.len() as int) =~= user);
    n
}

proof fn lemma_sizes_are_natural(p: Properties)
    ensures
        publish_properties_size(p) >= 0,
        identifiers_size(p.subscription_identifiers@) >= 0,
        user_size(p.user_properties@) >= 0,
{
    lemma_identifiers_size(p.subscription_identifiers@);
    lemma_user_size(p.user_properties@);
}

proof fn lemma_identifiers_size(ids: Seq<u32>)
    ensures
        identifiers_size(ids) >= 0,
    decreases ids.len(),
{
    if ids.len() > 0 {
        lemma_identifiers_size(ids.drop_last());
    }
}

proof fn lemma_user_size(user: Seq<(String, String)>)
    ensures
        user_size(user) >= 0,
    decreases user.len(),
{
    if user.len() > 0 {
        lemma_user_size(user.drop_last());
    }
}

/// How many bytes a PUBLISH takes on the wire; the largest `u64` where they are more.
pub fn publish_len(packet: &PublishPacket) -> (r: u64)
    ensures
        r == (if publish_size(*packet) < u64::MAX {
            publish_size(*packet)
        } else {
            u64::MAX as int
        }),
{
    proof {
        lemma_sizes_are_natural(packet.properties);
    }
    let mut rest: u128 = 2 + byte_len(packet.topic_name.as_str()) as u128;
    if packet.qos.as_u8() > 0 {
        rest = rest + 2;
    }
    rest = rest + packet.payload.len() as u128;
    let ghost fixed = rest as int;
    if packet.protocol_version == 5 {
        let properties: u128 = properties_len(&packet.properties);
        if properties >= 0xFFFF_FFFF_FFFF_FFFF_FFFF {
            return u64::MAX;
        }
        rest = rest + varint_len(properties) + properties;
    }
    assert(rest == publish_rest_size(*packet));
    let total: u128 = 1 + varint_len(rest) + rest;
    if total < u64::MAX as u128 {
        total as u64
    } else {
        u64::MAX
    }
}

/// How many bytes the filters of a SUBSCRIBE take: each a length, the bytes and its options.
pub open spec fn filters_size(filters: Seq<TopicFilter>) -> int
    decreases filters.len(),
{
    if filters.len() == 0 {
        0
    } else {
        filters_size(filters.drop_last()) + 3 + crate::text::utf8(filters.last().filter@).len()
    }
}

/// How many bytes the filters of an UNSUBSCRIBE take: each a length and the bytes.
pub open spec fn names_size(filters: Seq<String>) -> int
    decreases filters.len(),
{
    if filters.len() == 0 {
        0
    } else {
        names_size(filters.drop_last()) + 2 + crate::text::utf8(filters.last()@).len()
    }
}

/// How many bytes a packet takes that has an identifier, properties and filters of a size.
pub open spec fn request_size(properties: Properties, protocol_version: u8, filters: int) -> int {
    let rest = 2 + (if protocol_version == 5 {
        varint_size(publish_properties_size(properties)) + publish_properties_size(properties)
    } else {
        0
    }) + filters;
    1 + varint_size(rest) + rest
}

/// How many bytes a SUBSCRIBE takes on the wire.
pub open spec fn subscribe_size(packet: SubscribePacket) -> int {
    request_size(packet.properties, packet.protocol_version, filters_size(packet.filters@))
}

/// How many bytes an UNSUBSCRIBE takes on the wire.
pub open spec fn unsubscribe_size(packet: UnsubscribePacket) -> int {
    request_size(packet.properties, packet.protocol_version, names_size(packet.filters@))
}

fn request_len(properties: &Properties, protocol_version: u8, filters: u128) -> (r: u64)
    requires
        filters <= SIZE_CAP,
    ensures
        filters < 0xFFFF_FFFF_FFFF_FFFF_FFFF ==> r == (if request_size(
            *properties,
            protocol_version,
            filters as int,
        ) < u64::MAX {
            request_size(*properties, protocol_version, filters as int)
        } else {
            u64::MAX as int
        }),
        filters >= 0xFFFF_FFFF_FFFF_FFFF_FFFF ==> r == u64::MAX,
{
    proof {
        lemma_sizes_are_natural(*properties);
    }
    if filters >= 0xFFFF_FFFF_FFFF_FFFF_FFFF {
        return u64::MAX;
    }
    let mut rest: u128 = 2 + filters;
    if protocol_version == 5 {
        let own: u128 = properties_len(properties);
        if own >= 0xFFFF_FFFF_FFFF_FFFF_FFFF {
            return u64::MAX;
        }
        rest = rest + varint_len(own) + own;
    }
    let total: u128 = 1 + varint_len(rest) + rest;
    if total < u64::MAX as u128 {
        total as u64
    } else {
        u64::MAX
    }
}

/// How many bytes a SUBSCRIBE takes on the wire; the largest `u64` where they are more.
pub fn subscribe_len(packet: &SubscribePacket) -> (r: u64)
    ensures
        r == (if subscribe_size(*packet) < u64::MAX {
            subscribe_size(*packet)
        } else {
            u64::MAX as int
        }),
{
    let ghost all = packet.filters@;
    let mut n: u128 = 0;
    let mut i: usize = 0;
    assert(all.take(0) =~= Seq::<TopicFilter>::empty());
    while i < packet.filters.len()
        invariant
            all == packet.filters@,
            i <= all.len(),
            n <= SIZE_CAP,
            filters_size(all.take(i as int)) >= 0,
            n == capped(filters_size(all.take(i as int))),
        decreases all.len() - i,
    {
        assert(all.take(i + 1).drop_last() =~= all.take(i as int));
        n = plus(n, 3 + byte_len(packet.filters[i].filter.as_str()) as u128);
        i = i + 1;
    }
    assert(all.take(all.len() as int) =~= all);
    proof {
        lemma_sizes_are_natural(packet.properties);
    }
    request_len(&packet.properties, packet.protocol_version, n)
}

/// How many bytes an UNSUBSCRIBE takes on the wire; the largest `u64` where they are more.
pub fn unsubscribe_len(packet: &UnsubscribePacket) -> (r: u64)
    ensures
        r == (if unsubscribe_size(*packet) < u64::MAX {
            unsubscribe_size(*packet)
        } else {
            u64::MAX as int
        }),
{
    let ghost all = packet.filters@;
    let mut n: u128 = 0;
    let mut i: usize = 0;
    assert(all.take(0) =~= Seq::<String>::empty());
    while i < packet.filters.len()
        invariant
            all == packet.filters@,
            i <= all.len(),
            n <= SIZE_CAP,
            names_size(all.take(i as int)) >= 0,
            n == capped(names_size(all.take(i as int))),
        decreases all.len() - i,
    {
        assert(all.take(i + 1).drop_last() =~= all.take(i as int));
        n = plus(n, 2 + byte_len(packet.filters[i].as_str()) as u128);
        i = i + 1;
    }
    assert(all.take(all.len() as int) =~= all);
    proof {
        lemma_sizes_are_natural(packet.properties);
    }
    request_len(&packet.properties, packet.protocol_version, n)
}

/// A variable byte integer takes seven bits of a number in each byte, and at most four bytes.
pub proof fn law_variable_byte_integer(n: int)
    requires
        0 <= n < 128 * 128 * 128 * 128,
    ensures
        1 <= varint_size(n) <= 4,
        varint_size(n) == 1 <==> n < 128,
        varint_size(n) <= 2 <==> n < 128 * 128,
        varint_size(n) <= 3 <==> n < 128 * 128 * 128,
{
}

/// A PUBLISH without properties takes the length of its topic and two bytes for it, its payload, two
/// bytes for an identifier where it has one, and in version 5 one byte for the missing properties. A
/// header goes before that: one byte and the length of the rest.
pub proof fn law_size_of_a_publish(packet: PublishPacket)
    requires
        packet.properties.none(),
    ensures
        publish_rest_size(packet) == 2 + crate::text::utf8(packet.topic_name@).len()
            + packet.payload@.len() + (if packet.qos == QoS::AtMostOnce {
            0int
        } else {
            2
        }) + (if packet.protocol_version == 5 {
            1int
        } else {
            0
        }),
        publish_size(packet) > publish_rest_size(packet) + 1,
        publish_size(packet) - publish_rest_size(packet) - 1 == varint_size(
            publish_rest_size(packet),
        ),
{
    assert(identifiers_size(packet.properties.subscription_identifiers@) == 0);
    assert(user_size(packet.properties.user_properties@) == 0);
}

/// Each property adds its identifier and its value to the size: a number its bytes, a text or a byte
/// string its length and two bytes, a pair of texts both.
pub proof fn law_size_of_properties(
    p: Properties,
    text: String,
    data: Bytes,
    seconds: u32,
    alias: u16,
    indicator: u8,
)
    requires
        p.content_type is None,
        p.response_topic is None,
        p.correlation_data is None,
        p.message_expiry_interval is None,
        p.topic_alias is None,
        p.payload_format_indicator is None,
    ensures
        ({
            let n = publish_properties_size(p);
            &&& publish_properties_size((Properties { content_type: Some(text), ..p })) == n + 1 + 2
                + crate::text::utf8(text@).len()
            &&& publish_properties_size((Properties { response_topic: Some(text), ..p })) == n + 1
                + 2 + crate::text::utf8(text@).len()
            &&& publish_properties_size((Properties { correlation_data: Some(data), ..p })) == n + 1
                + 2 + data@.len()
            &&& publish_properties_size(
                (Properties { message_expiry_interval: Some(seconds), ..p }),
            ) == n + 1 + 4
            &&& publish_properties_size((Properties { topic_alias: Some(alias), ..p })) == n + 1 + 2
            &&& publish_properties_size(
                (Properties { payload_format_indicator: Some(indicator), ..p }),
            ) == n + 1 + 1
        }),
{
}

/// Each user property, each subscription identifier and each filter adds its own size, whatever stands
/// before it.
pub proof fn law_sizes_add_up(
    user: Seq<(String, String)>,
    pair: (String, String),
    ids: Seq<u32>,
    id: u32,
    filters: Seq<TopicFilter>,
    filter: TopicFilter,
    names: Seq<String>,
    name: String,
)
    ensures
        user_size(user.push(pair)) == user_size(user) + 1 + 2 + crate::text::utf8(pair.0@).len() + 2
            + crate::text::utf8(pair.1@).len(),
        identifiers_size(ids.push(id)) == identifiers_size(ids) + 1 + varint_size(id as int),
        filters_size(filters.push(filter)) == filters_size(filters) + 2 + crate::text::utf8(
            filter.filter@,
        ).len() + 1,
        names_size(names.push(name)) == names_size(names) + 2 + crate::text::utf8(name@).len(),
        user_size(Seq::<(String, String)>::empty()) == 0,
        identifiers_size(Seq::<u32>::empty()) == 0,
        filters_size(Seq::<TopicFilter>::empty()) == 0,
        names_size(Seq::<String>::empty()) == 0,
{
    assert(user.push(pair).drop_last() =~= user);
    assert(ids.push(id).drop_last() =~= ids);
    assert(filters.push(filter).drop_last() =~= filters);
    assert(names.push(name).drop_last() =~= names);
}

/// A longer payload makes a longer packet, by as many bytes and those that the length itself takes
/// more; a request grows with its filters in the same way.
pub proof fn law_packet_grows_with_its_content(
    packet: PublishPacket,
    payload: Bytes,
    subscribe: SubscribePacket,
    unsubscribe: UnsubscribePacket,
)
    requires
        payload@.len() >= packet.payload@.len(),
        subscribe.protocol_version == 5 && subscribe.properties.none(),
        unsubscribe.protocol_version == 5 && unsubscribe.properties.none(),
    ensures
        publish_rest_size((PublishPacket { payload, ..packet })) - publish_rest_size(packet)
            == payload@.len() - packet.payload@.len(),
        publish_size((PublishPacket { payload, ..packet })) - publish_size(packet) >= payload@.len()
            - packet.payload@.len(),
        subscribe_size(subscribe) == 1 + varint_size(3 + filters_size(subscribe.filters@)) + 3
            + filters_size(subscribe.filters@),
        unsubscribe_size(unsubscribe) == 1 + varint_size(3 + names_size(unsubscribe.filters@)) + 3
            + names_size(unsubscribe.filters@),
{
    assert(identifiers_size(subscribe.properties.subscription_identifiers@) == 0);
    assert(user_size(subscribe.properties.user_properties@) == 0);
    assert(identifiers_size(unsubscribe.properties.subscription_identifiers@) == 0);
    assert(user_size(unsubscribe.properties.user_properties@) == 0);
}

/// The size of a SUBSCRIBE and of an UNSUBSCRIBE: a byte, a length, the identifier, the properties with
/// their length from version 5 on, and the filters.
pub proof fn law_size_of_requests(subscribe: SubscribePacket, unsubscribe: UnsubscribePacket)
    ensures
        ({
            let rest = subscribe_size(subscribe) - 1 - varint_size(
                2 + filters_size(subscribe.filters@),
            );
            &&& subscribe.protocol_version != 5 ==> rest == 2 + filters_size(subscribe.filters@)
        }),
        ({
            let rest = unsubscribe_size(unsubscribe) - 1 - varint_size(
                2 + names_size(unsubscribe.filters@),
            );
            &&& unsubscribe.protocol_version != 5 ==> rest == 2 + names_size(unsubscribe.filters@)
        }),
        subscribe.protocol_version == 5 ==> ({
            let own = publish_properties_size(subscribe.properties);
            let body = 2 + own + varint_size(own) + filters_size(subscribe.filters@);
            subscribe_size(subscribe) == body + 1 + varint_size(body)
        }),
        unsubscribe.protocol_version == 5 ==> ({
            let own = publish_properties_size(unsubscribe.properties);
            let body = 2 + own + varint_size(own) + names_size(unsubscribe.filters@);
            unsubscribe_size(unsubscribe) == body + 1 + varint_size(body)
        }),
{
}

} // verus!
