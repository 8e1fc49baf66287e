//! Errors and MQTT reason codes.

use crate::text::{decimal_text, joined, owned};
use vstd::prelude::*;

verus! {

/// Reason codes of MQTT 5 acknowledgements, CONNACK, DISCONNECT and AUTH packets.
#[derive(Debug, Clone, Copy, PartialEq, Eq, Structural)]
pub enum ReasonCode {
    Success,
    GrantedQoS1,
    GrantedQoS2,
    DisconnectWithWillMessage,
    NoMatchingSubscribers,
    NoSubscriptionExisted,
    ContinueAuthentication,
    ReAuthenticate,
    UnspecifiedError,
    MalformedPacket,
    ProtocolError,
    ImplementationSpecificError,
    UnsupportedProtocolVersion,
    ClientIdentifierNotValid,
    BadUsernameOrPassword,
    NotAuthorized,
    ServerUnavailable,
    ServerBusy,
    Banned,
    ServerShuttingDown,
    BadAuthenticationMethod,
    KeepAliveTimeout,
    SessionTakenOver,
    TopicFilterInvalid,
    TopicNameInvalid,
    PacketIdentifierInUse,
    PacketIdentifierNotFound,
    ReceiveMaximumExceeded,
    TopicAliasInvalid,
    PacketTooLarge,
    MessageRateTooHigh,
    QuotaExceeded,
    AdministrativeAction,
    PayloadFormatInvalid,
    RetainNotSupported,
    QoSNotSupported,
    UseAnotherServer,
    ServerMoved,
    SharedSubscriptionsNotSupported,
    ConnectionRateExceeded,
    MaximumConnectTime,
    SubscriptionIdentifiersNotSupported,
    WildcardSubscriptionsNotSupported,
}

impl ReasonCode {
    /// The byte that stands for the code on the wire.
    pub open spec fn byte(self) -> u8 {
        match self {
            ReasonCode::Success => 0x00,
            ReasonCode::GrantedQoS1 => 0x01,
            ReasonCode::GrantedQoS2 => 0x02,
            ReasonCode::DisconnectWithWillMessage => 0x04,
            ReasonCode::NoMatchingSubscribers => 0x10,
            ReasonCode::NoSubscriptionExisted => 0x11,
            ReasonCode::ContinueAuthentication => 0x18,
            ReasonCode::ReAuthenticate => 0x19,
            ReasonCode::UnspecifiedError => 0x80,
            ReasonCode::MalformedPacket => 0x81,
            ReasonCode::ProtocolError => 0x82,
            ReasonCode::ImplementationSpecificError => 0x83,
            ReasonCode::UnsupportedProtocolVersion => 0x84,
            ReasonCode::ClientIdentifierNotValid => 0x85,
            ReasonCode::BadUsernameOrPassword => 0x86,
            ReasonCode::NotAuthorized => 0x87,
            ReasonCode::ServerUnavailable => 0x88,
            ReasonCode::ServerBusy => 0x89,
            ReasonCode::Banned => 0x8A,
            ReasonCode::ServerShuttingDown => 0x8B,
            ReasonCode::BadAuthenticationMethod => 0x8C,
            ReasonCode::KeepAliveTimeout => 0x8D,
            ReasonCode::SessionTakenOver => 0x8E,
            ReasonCode::TopicFilterInvalid => 0x8F,
            ReasonCode::TopicNameInvalid => 0x90,
            ReasonCode::PacketIdentifierInUse => 0x91,
            ReasonCode::PacketIdentifierNotFound => 0x92,
            ReasonCode::ReceiveMaximumExceeded => 0x93,
            ReasonCode::TopicAliasInvalid => 0x94,
            ReasonCode::PacketTooLarge => 0x95,
            ReasonCode::MessageRateTooHigh => 0x96,
            ReasonCode::QuotaExceeded => 0x97,
            ReasonCode::AdministrativeAction => 0x98,
            ReasonCode::PayloadFormatInvalid => 0x99,
            ReasonCode::RetainNotSupported => 0x9A,
            ReasonCode::QoSNotSupported => 0x9B,
            ReasonCode::UseAnotherServer => 0x9C,
            ReasonCode::ServerMoved => 0x9D,
            ReasonCode::SharedSubscriptionsNotSupported => 0x9E,
            ReasonCode::ConnectionRateExceeded => 0x9F,
            ReasonCode::MaximumConnectTime => 0xA0,
            ReasonCode::SubscriptionIdentifiersNotSupported => 0xA1,
            ReasonCode::WildcardSubscriptionsNotSupported => 0xA2,
        }
    }

    /// The byte that stands for the code on the wire.
    pub fn code(&self) -> (r: u8)
        ensures
            r == self.byte(),
    {
        match self {
            ReasonCode::Success => 0x00,
            ReasonCode::GrantedQoS1 => 0x01,
            ReasonCode::GrantedQoS2 => 0x02,
            ReasonCode::DisconnectWithWillMessage => 0x04,
            ReasonCode::NoMatchingSubscribers => 0x10,
            ReasonCode::NoSubscriptionExisted => 0x11,
            ReasonCode::ContinueAuthentication => 0x18,
            ReasonCode::ReAuthenticate => 0x19,
            ReasonCode::UnspecifiedError => 0x80,
            ReasonCode::MalformedPacket => 0x81,
            ReasonCode::ProtocolError => 0x82,
            ReasonCode::ImplementationSpecificError => 0x83,
            ReasonCode::UnsupportedProtocolVersion => 0x84,
            ReasonCode::ClientIdentifierNotValid => 0x85,
            ReasonCode::BadUsernameOrPassword => 0x86,
            ReasonCode::NotAuthorized => 0x87,
            ReasonCode::ServerUnavailable => 0x88,
            ReasonCode::ServerBusy => 0x89,
            ReasonCode::Banned => 0x8A,
            ReasonCode::ServerShuttingDown => 0x8B,
            ReasonCode::BadAuthenticationMethod => 0x8C,
            ReasonCode::KeepAliveTimeout => 0x8D,
            ReasonCode::SessionTakenOver => 0x8E,
            ReasonCode::TopicFilterInvalid => 0x8F,
            ReasonCode::TopicNameInvalid => 0x90,
            ReasonCode::PacketIdentifierInUse => 0x91,
            ReasonCode::PacketIdentifierNotFound => 0x92,
            ReasonCode::ReceiveMaximumExceeded => 0x93,
            ReasonCode::TopicAliasInvalid => 0x94,
            ReasonCode::PacketTooLarge => 0x95,
            ReasonCode::MessageRateTooHigh => 0x96,
            ReasonCode::QuotaExceeded => 0x97,
            ReasonCode::AdministrativeAction => 0x98,
            ReasonCode::PayloadFormatInvalid => 0x99,
            ReasonCode::RetainNotSupported => 0x9A,
            ReasonCode::QoSNotSupported => 0x9B,
            ReasonCode::UseAnotherServer => 0x9C,
            ReasonCode::ServerMoved => 0x9D,
            ReasonCode::SharedSubscriptionsNotSupported => 0x9E,
            ReasonCode::ConnectionRateExceeded => 0x9F,
            ReasonCode::MaximumConnectTime => 0xA0,
            ReasonCode::SubscriptionIdentifiersNotSupported => 0xA1,
            ReasonCode::WildcardSubscriptionsNotSupported => 0xA2,
        }
    }

    /// Codes from 0x80 on report a failure.
    pub open spec fn error(self) -> bool {
        self.byte() >= 0x80
    }

    /// Whether the code reports a failure.
    pub fn is_error(&self) -> (r: bool)
        ensures
            r == self.error(),
    {
        self.code() >= 0x80
    }

    /// The codes that a PUBACK or a PUBREC may carry.
    pub open spec fn publish_ack(self) -> bool {
        match self {
            ReasonCode::Success
            | ReasonCode::NoMatchingSubscribers
            | ReasonCode::UnspecifiedError
            | ReasonCode::ImplementationSpecificError
            | ReasonCode::NotAuthorized
            | ReasonCode::TopicNameInvalid
            | ReasonCode::PacketIdentifierInUse
            | ReasonCode::QuotaExceeded
            | ReasonCode::PayloadFormatInvalid => true,
            _ => false,
        }
    }

    /// Whether a PUBACK or a PUBREC may carry the code.
    pub fn is_valid_publish_ack(&self) -> (r: bool)
        ensures
            r == self.publish_ack(),
    {
        match self {
            ReasonCode::Success
            | ReasonCode::NoMatchingSubscribers
            | ReasonCode::UnspecifiedError
            | ReasonCode::ImplementationSpecificError
            | ReasonCode::NotAuthorized
            | ReasonCode::TopicNameInvalid
            | ReasonCode::PacketIdentifierInUse
            | ReasonCode::QuotaExceeded
            | ReasonCode::PayloadFormatInvalid => true,
            _ => false,
        }
    }
}

/// What can go wrong in the client and in the broker.
#[derive(Debug, PartialEq)]
pub enum MqttError {
    Io(String),
    InvalidTopicName(String),
    InvalidTopicFilter(String),
    ConnectionError(String),
    ConnectionRefused(ReasonCode),
    ProtocolError(String),
    MalformedPacket(String),
    PacketTooLarge { size: usize, max: usize },
    AuthenticationFailed,
    NotAuthorized,
    NotConnected,
    AlreadyConnected,
    Timeout,
    SubscriptionDenied(ReasonCode),
    PublishFailed(ReasonCode),
    PacketIdNotFound(u16),
    PacketIdExhausted,
    InvalidQoS(u8),
    InvalidPacketType(u8),
    InvalidReasonCode(u8),
    InvalidPropertyId(u8),
    DuplicatePropertyId(u8),
    KeepAliveTimeout,
    ServerDisconnect(ReasonCode),
    FlowControlExceeded,
    ReceiveMaximumExceeded,
    TopicAliasInvalid(u16),
    QoSNotSupported,
    RetainNotSupported,
    WildcardSubscriptionsNotSupported,
    SubscriptionIdentifiersNotSupported,
    SharedSubscriptionsNotSupported,
    StringTooLong(usize),
    InvalidState(String),
    Configuration(String),
    ConnectionClosedByPeer,
    ClientClosed,
}

/// A text behind a label.
fn labelled(label: &str, text: &str) -> (r: String)
    ensures
        r@ == label@ + text@,
{
    let r = joined(label, text, "");
    proof {
        reveal_strlit("");
        assert(r@ =~= label@ + text@);
    }
    r
}

/// A number behind a label.
fn numbered(label: &str, n: u64) -> (r: String)
    ensures
        r@ == label@ + crate::text::decimal(n as nat),
{
    let number = decimal_text(n);
    labelled(label, number.as_str())
}

impl MqttError {
    /// The error in words.
    pub open spec fn text(self) -> Seq<char> {
        match self {
            MqttError::Io(t) => "I/O error: "@ + t@,
            MqttError::InvalidTopicName(t) => "Invalid topic name: "@ + t@,
            MqttError::InvalidTopicFilter(t) => "Invalid topic filter: "@ + t@,
            MqttError::ConnectionError(t) => "Connection error: "@ + t@,
            MqttError::ConnectionRefused(c) => "Connection refused, reason code "@
                + crate::text::decimal(c.byte() as nat),
            MqttError::ProtocolError(t) => "Protocol error: "@ + t@,
            MqttError::MalformedPacket(t) => "Malformed packet: "@ + t@,
            MqttError::PacketTooLarge { size, max } => "Packet too large: "@ + crate::text::decimal(size as nat)
                + " bytes, at most "@ + crate::text::decimal(max as nat),
            MqttError::AuthenticationFailed => "Authentication failed"@,
            MqttError::NotAuthorized => "Not authorized"@,
            MqttError::NotConnected => "Not connected"@,
            MqttError::AlreadyConnected => "Already connected"@,
            MqttError::Timeout => "Timeout"@,
            MqttError::SubscriptionDenied(c) => "Subscription denied, reason code "@
                + crate::text::decimal(c.byte() as nat),
            MqttError::PublishFailed(c) => "Publish failed, reason code "@
                + crate::text::decimal(c.byte() as nat),
            MqttError::PacketIdNotFound(n) => "Packet identifier not found: "@
                + crate::text::decimal(n as nat),
            MqttError::PacketIdExhausted => "Packet identifiers exhausted"@,
            MqttError::InvalidQoS(n) => "Invalid QoS: "@ + crate::text::decimal(n as nat),
            MqttError::InvalidPacketType(n) => "Invalid packet type: "@
                + crate::text::decimal(n as nat),
            MqttError::InvalidReasonCode(n) => "Invalid reason code: "@
                + crate::text::decimal(n as nat),
            MqttError::InvalidPropertyId(n) => "Invalid property identifier: "@
                + crate::text::decimal(n as nat),
            MqttError::DuplicatePropertyId(n) => "Duplicate property identifier: "@
                + crate::text::decimal(n as nat),
            MqttError::KeepAliveTimeout => "Keep-alive timeout"@,
            MqttError::ServerDisconnect(c) => "Server disconnected, reason code "@
                + crate::text::decimal(c.byte() as nat),
            MqttError::FlowControlExceeded => "Flow control exceeded"@,
            MqttError::ReceiveMaximumExceeded => "Receive maximum exceeded"@,
            MqttError::TopicAliasInvalid(n) => "Topic alias invalid: "@
                + crate::text::decimal(n as nat),
            MqttError::QoSNotSupported => "QoS not supported"@,
            MqttError::RetainNotSupported => "Retain not supported"@,
            MqttError::WildcardSubscriptionsNotSupported => "Wildcard subscriptions not supported"@,
            MqttError::SubscriptionIdentifiersNotSupported => "Subscription identifiers not supported"@,
            MqttError::SharedSubscriptionsNotSupported => "Shared subscriptions not supported"@,
            MqttError::StringTooLong(n) => "String too long: "@ + crate::text::decimal(n as nat),
            MqttError::InvalidState(t) => "Invalid state: "@ + t@,
            MqttError::Configuration(t) => "Configuration error: "@ + t@,
            MqttError::ConnectionClosedByPeer => "Connection closed by peer"@,
            MqttError::ClientClosed => "Client closed"@,
        }
    }

    /// The error in words.
    pub fn describe(&self) -> (r: String)
        ensures
            r@ == self.text(),
    {
        match self {
            MqttError::Io(t) => labelled("I/O error: ", t.as_str()),
            MqttError::InvalidTopicName(t) => labelled("Invalid topic name: ", t.as_str()),
            MqttError::InvalidTopicFilter(t) => labelled("Invalid topic filter: ", t.as_str()),
            MqttError::ConnectionError(t) => labelled("Connection error: ", t.as_str()),
            MqttError::ConnectionRefused(c) => numbered(
                "Connection refused, reason code ",
                c.code() as u64,
            ),
            MqttError::ProtocolError(t) => labelled("Protocol error: ", t.as_str()),
            MqttError::MalformedPacket(t) => labelled("Malformed packet: ", t.as_str()),
            MqttError::PacketTooLarge { size, max } => {
                let head = numbered("Packet too large: ", *size as u64);
                let tail = numbered(" bytes, at most ", *max as u64);
                let r = joined(head.as_str(), tail.as_str(), "");
                proof {
                    reveal_strlit("");
                    assert(r@ =~= self.text());
                }
                r
            },
            MqttError::AuthenticationFailed => owned("Authentication failed"),
            MqttError::NotAuthorized => owned("Not authorized"),
            MqttError::NotConnected => owned("Not connected"),
            MqttError::AlreadyConnected => owned("Already connected"),
            MqttError::Timeout => owned("Timeout"),
            MqttError::SubscriptionDenied(c) => numbered(
                "Subscription denied, reason code ",
                c.code() as u64,
            ),
            MqttError::PublishFailed(c) => numbered(
                "Publish failed, reason code ",
                c.code() as u64,
            ),
            MqttError::PacketIdNotFound(n) => numbered("Packet identifier not found: ", *n as u64),
            MqttError::PacketIdExhausted => owned("Packet identifiers exhausted"),
            MqttError::InvalidQoS(n) => numbered("Invalid QoS: ", *n as u64),
            MqttError::InvalidPacketType(n) => numbered("Invalid packet type: ", *n as u64),
            MqttError::InvalidReasonCode(n) => numbered("Invalid reason code: ", *n as u64),
            MqttError::InvalidPropertyId(n) => numbered("Invalid property identifier: ", *n as u64),
            MqttError::DuplicatePropertyId(n) => numbered(
                "Duplicate property identifier: ",
                *n as u64,
            ),
            MqttError::KeepAliveTimeout => owned("Keep-alive timeout"),
            MqttError::ServerDisconnect(c) => numbered(
                "Server disconnected, reason code ",
                c.code() as u64,
            ),
            MqttError::FlowControlExceeded => owned("Flow control exceeded"),
            MqttError::ReceiveMaximumExceeded => owned("Receive maximum exceeded"),
            MqttError::TopicAliasInvalid(n) => numbered("Topic alias invalid: ", *n as u64),
            MqttError::QoSNotSupported => owned("QoS not supported"),
            MqttError::RetainNotSupported => owned("Retain not supported"),
            MqttError::WildcardSubscriptionsNotSupported => owned(
                "Wildcard subscriptions not supported",
            ),
            MqttError::SubscriptionIdentifiersNotSupported => owned(
                "Subscription identifiers not supported",
            ),
            MqttError::SharedSubscriptionsNotSupported => owned(
                "Shared subscriptions not supported",
            ),
            MqttError::StringTooLong(n) => numbered("String too long: ", *n as u64),
            MqttError::InvalidState(t) => labelled("Invalid state: ", t.as_str()),
            MqttError::Configuration(t) => labelled("Configuration error: ", t.as_str()),
            MqttError::ConnectionClosedByPeer => owned("Connection closed by peer"),
            MqttError::ClientClosed => owned("Client closed"),
        }
    }
}

/// Result of an operation that can fail with an [`MqttError`].
pub type Result<T> = std::result::Result<T, MqttError>;

/// The codes that report a failure follow each other from 0x80 on; the others are below it, and no two
/// codes share a byte.
pub proof fn law_failures_are_numbered_from_0x80(code: ReasonCode, other: ReasonCode)
    ensures
        code.byte() == other.byte() ==> code == other,
        code.error() <==> code.byte() >= 0x80,
        ReasonCode::UnspecifiedError.byte() == 0x80,
        ReasonCode::UnspecifiedError.byte() + 1 == ReasonCode::MalformedPacket.byte(),
        ReasonCode::MalformedPacket.byte() + 1 == ReasonCode::ProtocolError.byte(),
        ReasonCode::ProtocolError.byte() + 1 == ReasonCode::ImplementationSpecificError.byte(),
        ReasonCode::ImplementationSpecificError.byte() + 1 == ReasonCode::UnsupportedProtocolVersion.byte(),
        ReasonCode::UnsupportedProtocolVersion.byte() + 1 == ReasonCode::ClientIdentifierNotValid.byte(),
        ReasonCode::ClientIdentifierNotValid.byte() + 1 == ReasonCode::BadUsernameOrPassword.byte(),
        ReasonCode::BadUsernameOrPassword.byte() + 1 == ReasonCode::NotAuthorized.byte(),
        ReasonCode::NotAuthorized.byte() + 1 == ReasonCode::ServerUnavailable.byte(),
        ReasonCode::ServerUnavailable.byte() + 1 == ReasonCode::ServerBusy.byte(),
        ReasonCode::ServerBusy.byte() + 1 == ReasonCode::Banned.byte(),
        ReasonCode::Banned.byte() + 1 == ReasonCode::ServerShuttingDown.byte(),
        ReasonCode::ServerShuttingDown.byte() + 1 == ReasonCode::BadAuthenticationMethod.byte(),
        ReasonCode::BadAuthenticationMethod.byte() + 1 == ReasonCode::KeepAliveTimeout.byte(),
        ReasonCode::KeepAliveTimeout.byte() + 1 == ReasonCode::SessionTakenOver.byte(),
        ReasonCode::SessionTakenOver.byte() + 1 == ReasonCode::TopicFilterInvalid.byte(),
        ReasonCode::TopicFilterInvalid.byte() + 1 == ReasonCode::TopicNameInvalid.byte(),
        ReasonCode::TopicNameInvalid.byte() + 1 == ReasonCode::PacketIdentifierInUse.byte(),
        ReasonCode::PacketIdentifierInUse.byte() + 1 == ReasonCode::PacketIdentifierNotFound.byte(),
        ReasonCode::PacketIdentifierNotFound.byte() + 1 == ReasonCode::ReceiveMaximumExceeded.byte(),
        ReasonCode::ReceiveMaximumExceeded.byte() + 1 == ReasonCode::TopicAliasInvalid.byte(),
        ReasonCode::TopicAliasInvalid.byte() + 1 == ReasonCode::PacketTooLarge.byte(),
        ReasonCode::PacketTooLarge.byte() + 1 == ReasonCode::MessageRateTooHigh.byte(),
        ReasonCode::MessageRateTooHigh.byte() + 1 == ReasonCode::QuotaExceeded.byte(),
        ReasonCode::QuotaExceeded.byte() + 1 == ReasonCode::AdministrativeAction.byte(),
        ReasonCode::AdministrativeAction.byte() + 1 == ReasonCode::PayloadFormatInvalid.byte(),
        ReasonCode::PayloadFormatInvalid.byte() + 1 == ReasonCode::RetainNotSupported.byte(),
        ReasonCode::RetainNotSupported.byte() + 1 == ReasonCode::QoSNotSupported.byte(),
        ReasonCode::QoSNotSupported.byte() + 1 == ReasonCode::UseAnotherServer.byte(),
        ReasonCode::UseAnotherServer.byte() + 1 == ReasonCode::ServerMoved.byte(),
        ReasonCode::ServerMoved.byte() + 1 == ReasonCode::SharedSubscriptionsNotSupported.byte(),
        ReasonCode::SharedSubscriptionsNotSupported.byte() + 1 == ReasonCode::ConnectionRateExceeded.byte(),
        ReasonCode::ConnectionRateExceeded.byte() + 1 == ReasonCode::MaximumConnectTime.byte(),
        ReasonCode::MaximumConnectTime.byte() + 1 == ReasonCode::SubscriptionIdentifiersNotSupported.byte(),
        ReasonCode::SubscriptionIdentifiersNotSupported.byte() + 1 == ReasonCode::WildcardSubscriptionsNotSupported.byte(),
        ReasonCode::Success.byte() == 0,
        ReasonCode::Success.byte() + 1 == ReasonCode::GrantedQoS1.byte(),
        ReasonCode::GrantedQoS1.byte() + 1 == ReasonCode::GrantedQoS2.byte(),
        ReasonCode::GrantedQoS2.byte() + 2 == ReasonCode::DisconnectWithWillMessage.byte(),
        ReasonCode::NoMatchingSubscribers.byte() == 0x10,
        ReasonCode::NoMatchingSubscribers.byte() + 1 == ReasonCode::NoSubscriptionExisted.byte(),
        ReasonCode::ContinueAuthentication.byte() == 0x18,
        ReasonCode::ContinueAuthentication.byte() + 1 == ReasonCode::ReAuthenticate.byte(),
{
}

/// A PUBACK or a PUBREC may carry success, the note that nobody is subscribed, and the failures that
/// concern a message.
pub proof fn law_codes_of_an_acknowledgement(code: ReasonCode)
    ensures
        code.publish_ack() <==> code.byte() == 0x00 || code.byte() == 0x10 || code.byte() == 0x80
            || code.byte() == 0x83 || code.byte() == 0x87 || code.byte() == 0x90 || code.byte()
            == 0x91 || code.byte() == 0x97 || code.byte() == 0x99,
{
}

} // verus!
