//! Values that the client and the broker share: quality of service, properties and the PUBLISH
//! packet.

use crate::text::share;
use std::sync::Arc;
use vstd::prelude::*;

verus! {

/// A byte string that is cheap to copy: copies share one allocation.
pub type Bytes = Arc<Vec<u8>>;

/// Quality of service of a message.
#[derive(Debug, Clone, Copy, PartialEq, Eq, Structural)]
pub enum QoS {
    AtMostOnce,
    AtLeastOnce,
    ExactlyOnce,
}

impl QoS {
    /// The number that stands for the quality of service.
    pub open spec fn level(self) -> u8 {
        match self {
            QoS::AtMostOnce => 0,
            QoS::AtLeastOnce => 1,
            QoS::ExactlyOnce => 2,
        }
    }

    /// The number that stands for the quality of service.
    pub fn as_u8(&self) -> (r: u8)
        ensures
            r == self.level(),
    {
        match self {
            QoS::AtMostOnce => 0,
            QoS::AtLeastOnce => 1,
            QoS::ExactlyOnce => 2,
        }
    }

    /// The lower of two qualities of service.
    pub open spec fn lower(self, other: QoS) -> QoS {
        if self.level() <= other.level() {
            self
        } else {
            other
        }
    }

    /// The lower of two qualities of service.
    pub fn min_of(self, other: QoS) -> (r: QoS)
        ensures
            r == self.lower(other),
    {
        if self.as_u8() <= other.as_u8() {
            self
        } else {
            other
        }
    }
}

/// Version of the MQTT protocol.
#[derive(Debug, Clone, Copy, PartialEq, Eq, Structural)]
pub enum ProtocolVersion {
    V311,
    V5,
}

impl ProtocolVersion {
    /// The number that stands for the version in CONNECT.
    pub open spec fn number(self) -> u8 {
        match self {
            ProtocolVersion::V311 => 4,
            ProtocolVersion::V5 => 5,
        }
    }

    /// The number that stands for the version in CONNECT.
    pub fn as_u8(&self) -> (r: u8)
        ensures
            r == self.number(),
    {
        match self {
            ProtocolVersion::V311 => 4,
            ProtocolVersion::V5 => 5,
        }
    }
}

/// A copy of an optional string.
pub(crate) fn copy_text(text: &Option<String>) -> (r: Option<String>)
    ensures
        r == *text,
{
    match text {
        Some(s) => Some(s.clone()),
        None => None,
    }
}

/// A copy of an optional byte string.
pub(crate) fn copy_bytes(bytes: &Option<Bytes>) -> (r: Option<Bytes>)
    ensures
        r == *bytes,
{
    match bytes {
        Some(b) => Some(share(b)),
        None => None,
    }
}

/// The properties of a packet. A property that the packet does not carry is `None`; user
/// properties and subscription identifiers may stand more than once and keep their order.
#[derive(Debug)]
pub struct Properties {
    pub payload_format_indicator: Option<u8>,
    pub message_expiry_interval: Option<u32>,
    pub content_type: Option<String>,
    pub response_topic: Option<String>,
    pub correlation_data: Option<Bytes>,
    pub subscription_identifiers: Arc<Vec<u32>>,
    pub session_expiry_interval: Option<u32>,
    pub assigned_client_identifier: Option<String>,
    pub server_keep_alive: Option<u16>,
    pub authentication_method: Option<String>,
    pub authentication_data: Option<Bytes>,
    pub request_problem_information: Option<u8>,
    pub will_delay_interval: Option<u32>,
    pub request_response_information: Option<u8>,
    pub server_reference: Option<String>,
    pub reason_string: Option<String>,
    pub receive_maximum: Option<u16>,
    pub topic_alias_maximum: Option<u16>,
    pub topic_alias: Option<u16>,
    pub maximum_qos: Option<u8>,
    pub retain_available: Option<u8>,
    pub user_properties: Arc<Vec<(String, String)>>,
    pub maximum_packet_size: Option<u32>,
    pub wildcard_subscription_available: Option<u8>,
    pub subscription_identifier_available: Option<u8>,
    pub shared_subscription_available: Option<u8>,
}

impl Properties {
    /// No property at all.
    pub open spec fn none(self) -> bool {
        &&& self.payload_format_indicator is None
        &&& self.message_expiry_interval is None
        &&& self.content_type is None
        &&& self.response_topic is None
        &&& self.correlation_data is None
        &&& self.subscription_identifiers@ == Seq::<u32>::empty()
        &&& self.session_expiry_interval is None
        &&& self.assigned_client_identifier is None
        &&& self.server_keep_alive is None
        &&& self.authentication_method is None
        &&& self.authentication_data is None
        &&& self.request_problem_information is None
        &&& self.will_delay_interval is None
        &&& self.request_response_information is None
        &&& self.server_reference is None
        &&& self.reason_string is None
        &&& self.receive_maximum is None
        &&& self.topic_alias_maximum is None
        &&& self.topic_alias is None
        &&& self.maximum_qos is None
        &&& self.retain_available is None
        &&& self.user_properties@ == Seq::<(String, String)>::empty()
        &&& self.maximum_packet_size is None
        &&& self.wildcard_subscription_available is None
        &&& self.subscription_identifier_available is None
        &&& self.shared_subscription_available is None
    }
}

impl Default for Properties {
    fn default() -> (r: Self)
        ensures
            r.none(),
    {
        Properties {
            payload_format_indicator: None,
            message_expiry_interval: None,
            content_type: None,
            response_topic: None,
            correlation_data: None,
            subscription_identifiers: Arc::new(Vec::new()),
            session_expiry_interval: None,
            assigned_client_identifier: None,
            server_keep_alive: None,
            authentication_method: None,
            authentication_data: None,
            request_problem_information: None,
            will_delay_interval: None,
            request_response_information: None,
            server_reference: None,
            reason_string: None,
            receive_maximum: None,
            topic_alias_maximum: None,
            topic_alias: None,
            maximum_qos: None,
            retain_available: None,
            user_properties: Arc::new(Vec::new()),
            maximum_packet_size: None,
            wildcard_subscription_available: None,
            subscription_identifier_available: None,
            shared_subscription_available: None,
        }
    }
}

impl Clone for Properties {
    fn clone(&self) -> (r: Self)
        ensures
            r == *self,
    {
        Properties {
            payload_format_indicator: self.payload_format_indicator,
            message_expiry_interval: self.message_expiry_interval,
            content_type: copy_text(&self.content_type),
            response_topic: copy_text(&self.response_topic),
            correlation_data: copy_bytes(&self.correlation_data),
            subscription_identifiers: share(&self.subscription_identifiers),
            session_expiry_interval: self.session_expiry_interval,
            assigned_client_identifier: copy_text(&self.assigned_client_identifier),
            server_keep_alive: self.server_keep_alive,
            authentication_method: copy_text(&self.authentication_method),
            authentication_data: copy_bytes(&self.authentication_data),
            request_problem_information: self.request_problem_information,
            will_delay_interval: self.will_delay_interval,
            request_response_information: self.request_response_information,
            server_reference: copy_text(&self.server_reference),
            reason_string: copy_text(&self.reason_string),
            receive_maximum: self.receive_maximum,
            topic_alias_maximum: self.topic_alias_maximum,
            topic_alias: self.topic_alias,
            maximum_qos: self.maximum_qos,
            retain_available: self.retain_available,
            user_properties: share(&self.user_properties),
            maximum_packet_size: self.maximum_packet_size,
            wildcard_subscription_available: self.wildcard_subscription_available,
            subscription_identifier_available: self.subscription_identifier_available,
            shared_subscription_available: self.shared_subscription_available,
        }
    }
}

/// A PUBLISH packet.
#[derive(Debug)]
pub struct PublishPacket {
    pub topic_name: String,
    pub packet_id: Option<u16>,
    pub payload: Bytes,
    pub qos: QoS,
    pub retain: bool,
    pub dup: bool,
    pub properties: Properties,
    pub protocol_version: u8,
    /// The flow on which the packet came.
    pub stream_id: Option<u64>,
}

impl Clone for PublishPacket {
    fn clone(&self) -> (r: Self)
        ensures
            r == *self,
    {
        PublishPacket {
            topic_name: self.topic_name.clone(),
            packet_id: self.packet_id,
            payload: share(&self.payload),
            qos: self.qos,
            retain: self.retain,
            dup: self.dup,
            properties: self.properties.clone(),
            protocol_version: self.protocol_version,
            stream_id: self.stream_id,
        }
    }
}

impl PublishPacket {
    /// A PUBLISH of protocol version 5 without identifier, properties or flags.
    pub fn new(topic_name: String, payload: Vec<u8>, qos: QoS) -> (r: Self)
        ensures
            r.topic_name == topic_name,
            r.payload@ == payload@,
            r.qos == qos,
            r.packet_id is None,
            !r.retain && !r.dup,
            r.properties.none(),
            r.protocol_version == 5,
            r.stream_id is None,
    {
        PublishPacket {
            topic_name,
            packet_id: None,
            payload: Arc::new(payload),
            qos,
            retain: false,
            dup: false,
            properties: Properties::default(),
            protocol_version: 5,
            stream_id: None,
        }
    }
}

/// The three qualities of service are numbered from zero on, each above the one before.
pub proof fn law_qualities_of_service_are_numbered(qos: QoS)
    ensures
        qos.level() <= 2,
        QoS::AtMostOnce.level() < QoS::AtLeastOnce.level() < QoS::ExactlyOnce.level(),
{
}

/// The lower of two qualities of service is one of them, and neither is below it.
pub proof fn law_lower_quality_of_service(a: QoS, b: QoS)
    ensures
        a.lower(b) == a || a.lower(b) == b,
        a.lower(b).level() <= a.level(),
        a.lower(b).level() <= b.level(),
        a.lower(b) == b.lower(a),
{
}

/// The versions of the protocol follow each other, and version 5 has its own number.
pub proof fn law_versions_follow_each_other()
    ensures
        ProtocolVersion::V311.number() + 1 == ProtocolVersion::V5.number(),
        ProtocolVersion::V5.number() == 5,
{
}

} // verus!
