//! Connections as the application sees them.

use crate::error::{MqttError, ReasonCode};
use vstd::prelude::*;

verus! {

/// How the client connects again after it lost the connection. Delays are milliseconds.
#[derive(Debug, Clone, Copy, PartialEq, Eq, Structural)]
pub struct ReconnectConfig {
    pub enabled: bool,
    pub initial_delay: u64,
    pub max_delay: u64,
    /// By how much the delay grows with each attempt, in tenths.
    pub backoff_factor_tenths: u32,
    /// How often it is tried; without it, as long as it takes.
    pub max_attempts: Option<u32>,
}

impl Default for ReconnectConfig {
    fn default() -> (r: Self)
        ensures
            r == (ReconnectConfig {
                enabled: true,
                initial_delay: 1_000,
                max_delay: 60_000,
                backoff_factor_tenths: 20,
                max_attempts: None,
            }),
    {
        ReconnectConfig {
            enabled: true,
            initial_delay: 1_000,
            max_delay: 60_000,
            backoff_factor_tenths: 20,
            max_attempts: None,
        }
    }
}

/// Why a connection ended.
#[derive(Debug, PartialEq)]
pub enum DisconnectReason {
    ClientInitiated,
    ServerDisconnect(ReasonCode),
    AuthFailure,
    KeepAliveTimeout,
    NetworkError(String),
    ProtocolError(String),
}

/// Whether an error is one of the network.
pub open spec fn network_error(error: MqttError) -> bool {
    error is Io || error is ConnectionError || error is ConnectionClosedByPeer || error
        is ClientClosed
}

/// Whether a reason is the one that an error gives.
pub open spec fn reports(r: DisconnectReason, error: MqttError) -> bool {
    match error {
        MqttError::ServerDisconnect(reason_code) => r == DisconnectReason::ServerDisconnect(
            reason_code,
        ),
        MqttError::AuthenticationFailed | MqttError::NotAuthorized => r
            == DisconnectReason::AuthFailure,
        MqttError::KeepAliveTimeout => r == DisconnectReason::KeepAliveTimeout,
        e => if network_error(e) {
            r matches DisconnectReason::NetworkError(t) && t@ == e.text()
        } else {
            r matches DisconnectReason::ProtocolError(t) && t@ == e.text()
        },
    }
}

/// Why a connection that ended with an error ended.
pub fn disconnect_reason_for(error: &MqttError) -> (r: DisconnectReason)
    ensures
        reports(r, *error),
{
    match error {
        MqttError::ServerDisconnect(reason_code) => DisconnectReason::ServerDisconnect(
            *reason_code,
        ),
        MqttError::AuthenticationFailed => DisconnectReason::AuthFailure,
        MqttError::NotAuthorized => DisconnectReason::AuthFailure,
        MqttError::KeepAliveTimeout => DisconnectReason::KeepAliveTimeout,
        MqttError::Io(_) => DisconnectReason::NetworkError(error.describe()),
        MqttError::ConnectionError(_) => DisconnectReason::NetworkError(error.describe()),
        MqttError::ConnectionClosedByPeer => DisconnectReason::NetworkError(error.describe()),
        MqttError::ClientClosed => DisconnectReason::NetworkError(error.describe()),
        _ => DisconnectReason::ProtocolError(error.describe()),
    }
}

/// The reason code with which the client closes a connection after an error. Where the connection
/// is gone, or the other side has ended it, nothing is sent.
pub open spec fn closing_code(error: MqttError) -> Option<ReasonCode> {
    match error {
        MqttError::Io(_)
        | MqttError::ConnectionError(_)
        | MqttError::ConnectionClosedByPeer
        | MqttError::ClientClosed
        | MqttError::NotConnected
        | MqttError::ServerDisconnect(_)
        | MqttError::KeepAliveTimeout => None,
        MqttError::MalformedPacket(_)
        | MqttError::InvalidQoS(_)
        | MqttError::InvalidPacketType(_)
        | MqttError::InvalidReasonCode(_)
        | MqttError::InvalidPropertyId(_)
        | MqttError::InvalidTopicName(_)
        | MqttError::StringTooLong(_) => Some(ReasonCode::MalformedPacket),
        MqttError::ProtocolError(_) | MqttError::DuplicatePropertyId(_) => Some(
            ReasonCode::ProtocolError,
        ),
        MqttError::PacketTooLarge { .. } => Some(ReasonCode::PacketTooLarge),
        MqttError::ReceiveMaximumExceeded => Some(ReasonCode::ReceiveMaximumExceeded),
        MqttError::TopicAliasInvalid(_) => Some(ReasonCode::TopicAliasInvalid),
        MqttError::AuthenticationFailed | MqttError::NotAuthorized => Some(
            ReasonCode::NotAuthorized,
        ),
        _ => Some(ReasonCode::UnspecifiedError),
    }
}

/// The reason code with which the client closes a connection after an error.
pub fn disconnect_code_for(error: &MqttError) -> (r: Option<ReasonCode>)
    ensures
        r == closing_code(*error),
{
    match error {
        MqttError::Io(_)
        | MqttError::ConnectionError(_)
        | MqttError::ConnectionClosedByPeer
        | MqttError::ClientClosed
        | MqttError::NotConnected
        | MqttError::ServerDisconnect(_)
        | MqttError::KeepAliveTimeout => None,
        MqttError::MalformedPacket(_)
        | MqttError::InvalidQoS(_)
        | MqttError::InvalidPacketType(_)
        | MqttError::InvalidReasonCode(_)
        | MqttError::InvalidPropertyId(_)
        | MqttError::InvalidTopicName(_)
        | MqttError::StringTooLong(_) => Some(ReasonCode::MalformedPacket),
        MqttError::ProtocolError(_) | MqttError::DuplicatePropertyId(_) => Some(
            ReasonCode::ProtocolError,
        ),
        MqttError::PacketTooLarge { .. } => Some(ReasonCode::PacketTooLarge),
        MqttError::ReceiveMaximumExceeded => Some(ReasonCode::ReceiveMaximumExceeded),
        MqttError::TopicAliasInvalid(_) => Some(ReasonCode::TopicAliasInvalid),
        MqttError::AuthenticationFailed | MqttError::NotAuthorized => Some(
            ReasonCode::NotAuthorized,
        ),
        _ => Some(ReasonCode::UnspecifiedError),
    }
}

/// Whether an error on a data stream fails the whole connection: the server has ended it, or the
/// client has to.
pub fn fails_connection(error: &MqttError) -> (r: bool)
    ensures
        r == (*error is ServerDisconnect || closing_code(*error) is Some),
{
    matches!(error, MqttError::ServerDisconnect(_)) || disconnect_code_for(error).is_some()
}

/// Whether a task that belongs to a connection may still act for the client: no other connection
/// has been made since.
pub fn owns_current_connection(connection_epoch: u64, current_epoch: u64) -> (r: bool)
    ensures
        r == (connection_epoch == current_epoch),
{
    connection_epoch == current_epoch
}

/// A connection that is gone, or that the server has ended, is closed without a word. In every other
/// case the code that is sent reports a failure, and tells the kind of error.
pub proof fn law_error_is_told_when_a_connection_is_closed(error: MqttError)
    ensures
        closing_code(error) is None <==> error is Io || error is ConnectionError || error
            is ConnectionClosedByPeer || error is ClientClosed || error is NotConnected || error
            is ServerDisconnect || error is KeepAliveTimeout,
        closing_code(error) matches Some(code) ==> code.error(),
        error is MalformedPacket || error is InvalidQoS || error is InvalidPacketType || error
            is InvalidReasonCode || error is InvalidPropertyId || error is InvalidTopicName || error
            is StringTooLong ==> closing_code(error) == Some(ReasonCode::MalformedPacket),
        error is ProtocolError || error is DuplicatePropertyId ==> closing_code(error) == Some(
            ReasonCode::ProtocolError,
        ),
        error is PacketTooLarge ==> closing_code(error) == Some(ReasonCode::PacketTooLarge),
        error is ReceiveMaximumExceeded ==> closing_code(error) == Some(
            ReasonCode::ReceiveMaximumExceeded,
        ),
        error is TopicAliasInvalid ==> closing_code(error) == Some(ReasonCode::TopicAliasInvalid),
        error is AuthenticationFailed || error is NotAuthorized ==> closing_code(error) == Some(
            ReasonCode::NotAuthorized,
        ),
{
}

/// The reason that the application is told is the kind of the error: what the server said, a failed
/// authentication, a missing sign of life, the network, and otherwise the protocol.
pub proof fn law_application_is_told_why(r: DisconnectReason, error: MqttError)
    requires
        reports(r, error),
    ensures
        error matches MqttError::ServerDisconnect(code) ==> r
            == DisconnectReason::ServerDisconnect(code),
        error is AuthenticationFailed || error is NotAuthorized <==> r is AuthFailure,
        error is KeepAliveTimeout <==> r is KeepAliveTimeout,
        error is Io || error is ConnectionError || error is ConnectionClosedByPeer || error
            is ClientClosed <==> r is NetworkError,
        !(r is ClientInitiated),
{
}

} // verus!
