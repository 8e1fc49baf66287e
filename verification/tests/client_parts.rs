use mqtt5::client::auth_handler::{AuthHandler, AuthResponse};
use mqtt5::client::auth_handlers::jwt::JwtAuthHandler;
use mqtt5::client::auth_handlers::plain::PlainAuthHandler;
use mqtt5::client::connection::{
    disconnect_code_for, disconnect_reason_for, fails_connection, owns_current_connection,
    DisconnectReason, ReconnectConfig,
};
use mqtt5::client::direct::ack::{
    AckCallbackManager, AckDispatcher, AckKind, AckOrder, AckRequest,
};
use mqtt5::client::direct::handlers::with_incoming_topic;
use mqtt5::client::direct::outbound::{
    check_publish, check_topic_alias, check_unsubscribe, PublishOptions, PublishProperties,
    ServerCapabilities,
};
use mqtt5::client::direct::replay::{OfflineQueue, PublishPolicy, QueuedPublish};
use mqtt5::client::direct::tracking::{OutboundIds, OutcomeTracker};
use mqtt5::client::error_recovery::{
    is_recoverable, ErrorRecoveryConfig, RecoverableError, RetryState,
};
use mqtt5::client::publish_outcome::{
    settle_in_flight, Delivery, IndeterminateReason, Ledger, PublishOutcome, PublishRejection,
    PublishResult, WaitEnd,
};
use mqtt5::error::{MqttError, ReasonCode};
use mqtt5::packets::{
    publish_len, subscribe_len, unsubscribe_len, ConnAckPacket, Packet, SubscribePacket,
    SubscriptionOptions, TopicFilter, UnsubscribePacket,
};
use mqtt5::session::state::SessionState;
use mqtt5::session::topic_alias::TopicAliasManager;
use mqtt5::types::{Properties, PublishPacket, QoS};
use std::sync::Arc;

#[test]
fn test_jwt_handler_initial_response() {
    let handler = JwtAuthHandler::new("my.jwt.token".to_string());
    let response = handler.initial_response("JWT").unwrap();
    assert_eq!(response, Some(b"my.jwt.token".to_vec()));
}

#[test]
fn test_jwt_handler_challenge_returns_success() {
    let handler = JwtAuthHandler::new("my.jwt.token".to_string());
    let response = handler.handle_challenge("JWT", None).unwrap();
    assert!(matches!(response, AuthResponse::Success));
}

#[test]
fn test_plain_handler_no_authzid() {
    let handler = PlainAuthHandler::new("user".to_string(), "pass".to_string());
    let response = handler.initial_response("PLAIN").unwrap();
    assert_eq!(response, Some(b"\0user\0pass".to_vec()));
}

#[test]
fn test_plain_handler_with_authzid() {
    let handler = PlainAuthHandler::new("user".to_string(), "pass".to_string())
        .with_authzid("admin".to_string());
    let response = handler.initial_response("PLAIN").unwrap();
    assert_eq!(response, Some(b"admin\0user\0pass".to_vec()));
}

#[test]
fn test_plain_handler_challenge_returns_success() {
    let handler = PlainAuthHandler::new("user".to_string(), "pass".to_string());
    let response = handler.handle_challenge("PLAIN", None).unwrap();
    assert!(matches!(response, AuthResponse::Success));
}

#[test]
fn test_reconnect_config_default() {
    let config = ReconnectConfig::default();
    assert!(config.enabled);
    assert_eq!(config.initial_delay, 1_000);
    assert_eq!(config.max_delay, 60_000);
    assert_eq!(config.backoff_factor_tenths, 20);
    assert_eq!(config.max_attempts, None);
}

#[test]
fn test_reconnect_config_custom() {
    let config = ReconnectConfig {
        enabled: true,
        initial_delay: 2_000,
        max_delay: 30_000,
        backoff_factor_tenths: 15,
        max_attempts: Some(5),
    };

    assert!(config.enabled);
    assert_eq!(config.initial_delay, 2_000);
    assert_eq!(config.max_delay, 30_000);
    assert_eq!(config.backoff_factor_tenths, 15);
    assert_eq!(config.max_attempts, Some(5));
}

#[test]
fn stale_epoch_does_not_own_current_connection() {
    assert!(!owns_current_connection(1, 2));
    assert!(owns_current_connection(2, 2));
}

#[test]
fn disconnect_reason_carries_server_reason_code() {
    assert_eq!(
        disconnect_reason_for(&MqttError::ServerDisconnect(ReasonCode::SessionTakenOver)),
        DisconnectReason::ServerDisconnect(ReasonCode::SessionTakenOver)
    );
    assert_eq!(
        disconnect_reason_for(&MqttError::AuthenticationFailed),
        DisconnectReason::AuthFailure
    );
    assert_eq!(
        disconnect_reason_for(&MqttError::KeepAliveTimeout),
        DisconnectReason::KeepAliveTimeout
    );
    assert!(matches!(
        disconnect_reason_for(&MqttError::ConnectionClosedByPeer),
        DisconnectReason::NetworkError(_)
    ));
    assert!(matches!(
        disconnect_reason_for(&MqttError::MalformedPacket("bad".to_string())),
        DisconnectReason::ProtocolError(_)
    ));
}

#[test]
fn connection_is_closed_with_the_code_of_its_error() {
    let code = |error: MqttError| disconnect_code_for(&error);
    assert_eq!(code(MqttError::Io("x".to_string())), None);
    assert_eq!(code(MqttError::KeepAliveTimeout), None);
    assert_eq!(
        code(MqttError::InvalidQoS(3)),
        Some(ReasonCode::MalformedPacket)
    );
    assert_eq!(
        code(MqttError::DuplicatePropertyId(1)),
        Some(ReasonCode::ProtocolError)
    );
    assert_eq!(
        code(MqttError::PacketTooLarge { size: 2, max: 1 }),
        Some(ReasonCode::PacketTooLarge)
    );
    assert_eq!(
        code(MqttError::ReceiveMaximumExceeded),
        Some(ReasonCode::ReceiveMaximumExceeded)
    );
    assert_eq!(
        code(MqttError::TopicAliasInvalid(4)),
        Some(ReasonCode::TopicAliasInvalid)
    );
    assert_eq!(
        code(MqttError::NotAuthorized),
        Some(ReasonCode::NotAuthorized)
    );
    assert_eq!(
        code(MqttError::PacketIdExhausted),
        Some(ReasonCode::UnspecifiedError)
    );
    assert!(!fails_connection(&MqttError::ConnectionClosedByPeer));
    assert!(fails_connection(&MqttError::ServerDisconnect(
        ReasonCode::ServerBusy
    )));
    assert!(fails_connection(&MqttError::ReceiveMaximumExceeded));
}

#[test]
fn test_retry_state() {
    let mut state = RetryState::new();
    let config = ErrorRecoveryConfig {
        max_retries: 3,
        initial_retry_delay: 100,
        max_retry_delay: 5_000,
        backoff_factor_tenths: 20,
    };

    assert!(state.should_retry(&config));
    state.record_attempt(
        MqttError::ConnectionError("test".to_string()),
        RecoverableError::NetworkError,
    );

    let delay1 = state.next_delay(&config);
    assert!(delay1 >= 100);
    assert!(delay1 <= 200);

    assert!(state.should_retry(&config));
    state.record_attempt(
        MqttError::ConnectionError("test".to_string()),
        RecoverableError::NetworkError,
    );

    let delay2 = state.next_delay(&config);
    assert!(delay2 > delay1);

    assert!(state.should_retry(&config));
    state.record_attempt(
        MqttError::ConnectionError("test".to_string()),
        RecoverableError::NetworkError,
    );

    assert!(!state.should_retry(&config));
}

#[test]
fn test_recoverable_error_classification() {
    let config = ErrorRecoveryConfig::default();

    assert!(is_recoverable(
        &MqttError::ConnectionError("Connection refused".to_string()),
        &config
    )
    .is_some());

    assert!(is_recoverable(&MqttError::Timeout, &config).is_some());

    assert!(is_recoverable(&MqttError::ProtocolError("test".to_string()), &config).is_none());

    let invalid_state = MqttError::InvalidState("test".to_string());
    assert!(is_recoverable(&invalid_state, &config).is_none());
}

#[test]
fn delays_stay_below_their_maximum() {
    let config = ErrorRecoveryConfig {
        max_retries: 50,
        initial_retry_delay: 100,
        max_retry_delay: 500,
        backoff_factor_tenths: 20,
    };
    let mut state = RetryState::new();
    for _ in 0..20 {
        state.record_attempt(MqttError::Timeout, RecoverableError::Timeout);
        assert!(state.next_delay(&config) <= 500);
    }
    assert_eq!(state.next_delay(&config), 500);
}

fn subscribe(filter: &str, identifier: Option<u32>) -> SubscribePacket {
    let mut properties = Properties::default();
    if let Some(id) = identifier {
        properties.subscription_identifiers = Arc::new(vec![id]);
    }
    SubscribePacket {
        packet_id: 0,
        filters: vec![TopicFilter {
            filter: filter.to_string(),
            options: SubscriptionOptions::default(),
        }],
        properties,
        protocol_version: 5,
    }
}

#[test]
fn subscribe_respects_server_capabilities() {
    let all = ServerCapabilities::default();
    assert!(all.check_subscribe(&subscribe("a/#", Some(1))).is_ok());
    assert!(all.check_subscribe(&subscribe("$share/g/a", None)).is_ok());

    let mut connack = ConnAckPacket::new(false, ReasonCode::Success);
    connack.properties.wildcard_subscription_available = Some(0);
    let no_wildcards = ServerCapabilities::from_connack(&connack);
    assert!(matches!(
        no_wildcards.check_subscribe(&subscribe("a/+", None)),
        Err(MqttError::WildcardSubscriptionsNotSupported)
    ));
    assert!(no_wildcards
        .check_subscribe(&subscribe("a/b", None))
        .is_ok());

    let mut connack = ConnAckPacket::new(false, ReasonCode::Success);
    connack.properties.shared_subscription_available = Some(0);
    let no_shared = ServerCapabilities::from_connack(&connack);
    assert!(matches!(
        no_shared.check_subscribe(&subscribe("$share/g/a", None)),
        Err(MqttError::SharedSubscriptionsNotSupported)
    ));

    let mut connack = ConnAckPacket::new(false, ReasonCode::Success);
    connack.properties.subscription_identifier_available = Some(0);
    let no_ids = ServerCapabilities::from_connack(&connack);
    assert!(matches!(
        no_ids.check_subscribe(&subscribe("a", Some(3))),
        Err(MqttError::SubscriptionIdentifiersNotSupported)
    ));
}

#[test]
fn subscribe_rejects_identifier_zero_and_invalid_filters() {
    let all = ServerCapabilities::default();
    assert!(all.check_subscribe(&subscribe("a", Some(0))).is_err());
    assert!(all.check_subscribe(&subscribe("a/#/b", None)).is_err());
    assert!(all.check_subscribe(&subscribe("$share/+/x", None)).is_err());
    match all.check_subscribe(&subscribe("a", Some(268_435_456))) {
        Err(MqttError::ProtocolError(text)) => assert_eq!(
            text,
            "Subscription Identifier 268435456 is outside 1..=268435455"
        ),
        other => panic!("unexpected {other:?}"),
    }
}

fn publish_with(properties: PublishProperties) -> PublishOptions {
    PublishOptions {
        properties,
        ..Default::default()
    }
}

#[test]
fn publish_validation() {
    let plain = PublishOptions::default();
    assert!(check_publish("a/b", &plain).is_ok());
    assert!(check_publish("a/+", &plain).is_err());
    assert!(check_publish("", &plain).is_err());
    assert!(check_publish(
        "",
        &publish_with(PublishProperties {
            topic_alias: Some(1),
            ..Default::default()
        })
    )
    .is_ok());
    assert!(check_publish(
        "a",
        &publish_with(PublishProperties {
            topic_alias: Some(0),
            ..Default::default()
        })
    )
    .is_err());
    assert!(check_publish(
        "a",
        &publish_with(PublishProperties {
            response_topic: Some("r/#".to_string()),
            ..Default::default()
        })
    )
    .is_err());
    assert!(check_publish(
        "a",
        &publish_with(PublishProperties {
            subscription_identifiers: Arc::new(vec![1]),
            ..Default::default()
        })
    )
    .is_err());
}

#[test]
fn topic_alias_bounds_and_mapping() {
    let mut aliases = TopicAliasManager::new(2);
    assert!(check_topic_alias(&aliases, "a", 2).is_ok());
    assert!(check_topic_alias(&aliases, "a", 3).is_err());
    assert!(check_topic_alias(&aliases, "", 1).is_err());
    aliases.register_alias(1, "a").unwrap();
    assert!(check_topic_alias(&aliases, "", 1).is_ok());
    assert!(check_topic_alias(&TopicAliasManager::new(0), "a", 1).is_err());
}

#[test]
fn unsubscribe_names_the_first_bad_filter() {
    let packet = UnsubscribePacket {
        packet_id: 0,
        filters: vec!["a".to_string(), "a/#/b".to_string(), "".to_string()],
        properties: Properties::default(),
        protocol_version: 5,
    };
    match check_unsubscribe(&packet) {
        Err(MqttError::InvalidTopicFilter(filter)) => assert_eq!(filter, "a/#/b"),
        other => panic!("unexpected {other:?}"),
    }
}

#[test]
fn sizes_on_the_wire() {
    let mut publish = PublishPacket::new("a/b".to_string(), b"hello".to_vec(), QoS::AtMostOnce);
    assert_eq!(publish_len(&publish), 2 + 2 + 3 + 1 + 5);
    publish.qos = QoS::AtLeastOnce;
    assert_eq!(publish_len(&publish), 2 + 2 + 3 + 2 + 1 + 5);
    publish.properties.topic_alias = Some(1);
    assert_eq!(publish_len(&publish), 2 + 2 + 3 + 2 + 1 + 3 + 5);
    publish.protocol_version = 4;
    assert_eq!(publish_len(&publish), 2 + 2 + 3 + 2 + 5);
    publish.payload = Arc::new(vec![0; 200]);
    assert_eq!(publish_len(&publish), 3 + 2 + 3 + 2 + 200);
    assert_eq!(subscribe_len(&subscribe("a/b", None)), 2 + 2 + 1 + 2 + 3 + 1);
    assert_eq!(
        subscribe_len(&subscribe("a/b", Some(200))),
        2 + 2 + 1 + 3 + 2 + 3 + 1
    );
    let unsubscribe = UnsubscribePacket {
        packet_id: 1,
        filters: vec!["a".to_string(), "bc".to_string()],
        properties: Properties::default(),
        protocol_version: 5,
    };
    assert_eq!(unsubscribe_len(&unsubscribe), 2 + 2 + 1 + 3 + 4);
}

#[test]
fn reservation_is_released_on_drop_and_blocks_duplicates() {
    let mut ids = OutboundIds::default();
    let first = ids.claim(7);
    assert!(first.is_some());
    assert!(ids.claim(7).is_none());
    ids.release(first.unwrap());
    assert!(ids.claim(7).is_some());
}

#[test]
fn quarantined_id_cannot_be_reserved_until_released() {
    let mut ids = OutboundIds::default();
    ids.quarantine(9);
    assert!(ids.claim(9).is_none());
    ids.release_quarantine();
    assert!(ids.claim(9).is_some());
}

#[test]
fn acknowledgement_settles_only_the_matching_qos() {
    let mut ledger = Ledger::new();
    let mut tracker = OutcomeTracker::default();
    let (completion, handle) = ledger.open();
    tracker.track(&mut ledger, 3, QoS::ExactlyOnce, completion);
    tracker.settle_puback(&mut ledger, 3, ReasonCode::Success);
    assert_eq!(ledger.try_outcome(handle), None);
    tracker.acknowledged(&mut ledger, 3, QoS::ExactlyOnce);
    assert_eq!(
        ledger.try_outcome(handle),
        Some(PublishOutcome::Delivered(Delivery::ExactlyOnce {
            packet_id: 3
        }))
    );
}

#[test]
fn refusal_after_resend_is_indeterminate() {
    let mut ledger = Ledger::new();
    let mut tracker = OutcomeTracker::default();
    let (completion, handle) = ledger.open();
    tracker.track(&mut ledger, 4, QoS::AtLeastOnce, completion);
    tracker.mark_resent(4);
    tracker.settle_puback(&mut ledger, 4, ReasonCode::NotAuthorized);
    assert_eq!(
        ledger.try_outcome(handle),
        Some(PublishOutcome::Indeterminate(
            IndeterminateReason::ResendRefused(ReasonCode::NotAuthorized)
        ))
    );
}

#[test]
fn tracking_an_occupied_id_keeps_the_existing_publish() {
    let mut ledger = Ledger::new();
    let mut tracker = OutcomeTracker::default();
    let (first, first_handle) = ledger.open();
    let (second, second_handle) = ledger.open();
    tracker.track(&mut ledger, 5, QoS::AtLeastOnce, first);
    tracker.track(&mut ledger, 5, QoS::AtLeastOnce, second);
    assert_eq!(
        ledger.try_outcome(second_handle),
        Some(PublishOutcome::Indeterminate(
            IndeterminateReason::Abandoned
        ))
    );
    tracker.settle_puback(&mut ledger, 5, ReasonCode::Success);
    assert_eq!(
        ledger.try_outcome(first_handle),
        Some(PublishOutcome::Delivered(Delivery::AtLeastOnce {
            packet_id: 5
        }))
    );
}

#[test]
fn dropped_completion_resolves_abandoned() {
    let mut ledger = Ledger::new();
    let (completion, handle) = ledger.open();
    assert_eq!(ledger.outcome(handle), None);
    ledger.dropped(completion);
    assert_eq!(
        ledger.outcome(handle),
        Some(PublishOutcome::Indeterminate(
            IndeterminateReason::Abandoned
        ))
    );
}

#[test]
fn acknowledgement_settled_before_loss_is_reported_as_sent() {
    let mut ledger = Ledger::new();
    let (completion, handle) = ledger.open();
    ledger.delivered(completion, Delivery::AtLeastOnce { packet_id: 6 });
    let outcome = ledger.outcome(handle).unwrap();
    assert!(matches!(
        settle_in_flight(handle, WaitEnd::Settled(outcome)),
        Ok(PublishResult::Sent(Delivery::AtLeastOnce { packet_id: 6 }))
    ));
    assert!(matches!(
        settle_in_flight(handle, WaitEnd::LinkEnded),
        Ok(PublishResult::Queued(_))
    ));
    assert!(matches!(
        settle_in_flight(handle, WaitEnd::TimedOut),
        Ok(PublishResult::Queued(_))
    ));
    let refused = PublishOutcome::Rejected(PublishRejection::Refused(ReasonCode::QuotaExceeded));
    assert!(matches!(
        settle_in_flight(handle, WaitEnd::Settled(refused)),
        Err(MqttError::PublishFailed(ReasonCode::QuotaExceeded))
    ));
}

#[test]
fn abandoning_settles_everything_in_flight() {
    let mut ledger = Ledger::new();
    let mut tracker = OutcomeTracker::new();
    let mut handles = Vec::new();
    for id in 1..=3u16 {
        let (completion, handle) = ledger.open();
        tracker.track(&mut ledger, id, QoS::AtLeastOnce, completion);
        handles.push(handle);
    }
    tracker.abandon_all(&mut ledger, IndeterminateReason::SessionLost);
    for handle in handles {
        assert_eq!(
            ledger.try_outcome(handle),
            Some(PublishOutcome::Indeterminate(
                IndeterminateReason::SessionLost
            ))
        );
    }
    assert!(tracker.take(1).is_none());
}

fn request(seq: Option<u64>, packet_id: u16) -> AckRequest {
    AckRequest {
        seq,
        packet_id,
        qos: QoS::AtLeastOnce,
        kind: AckKind::Ack,
    }
}

fn released_ids(order: &mut AckOrder, request: AckRequest) -> Vec<u16> {
    order
        .release(request)
        .iter()
        .map(|released| released.packet_id)
        .collect()
}

#[test]
fn ack_order_holds_later_acks_until_earlier_ones_resolve() {
    let mut order = AckOrder::default();
    let first = order.reserve();
    let second = order.reserve();
    let third = order.reserve();

    assert!(released_ids(&mut order, request(Some(third), 3)).is_empty());
    assert!(released_ids(&mut order, request(Some(second), 2)).is_empty());
    assert_eq!(
        released_ids(&mut order, request(Some(first), 1)),
        vec![1, 2, 3]
    );
    assert_eq!(released_ids(&mut order, request(None, 9)), vec![9]);

    let fourth = order.reserve();
    assert_eq!(released_ids(&mut order, request(Some(fourth), 4)), vec![4]);
}

#[test]
fn discarded_acks_and_stale_tokens_are_never_released() {
    let mut order = AckOrder::default();
    let held = order.reserve();
    let queued = order.reserve();
    assert!(released_ids(&mut order, request(Some(queued), 2)).is_empty());
    order.discard();
    assert!(released_ids(&mut order, request(Some(held), 1)).is_empty());
    let fresh = order.reserve();
    assert_eq!(released_ids(&mut order, request(Some(fresh), 3)), vec![3]);
}

#[test]
fn duplicate_wildcard_subscription_dispatches_to_a_single_callback() {
    let mut mgr = AckCallbackManager::new();
    let first = mgr.register("jobs/#");
    let second = mgr.register("jobs/#");
    let callback = mgr.find_one("jobs/build").unwrap();
    assert_ne!(
        callback, first,
        "re-registering a filter replaces the earlier callback, as it does for exact filters"
    );
    assert_eq!(callback, second);
    assert!(mgr.unregister("jobs/#"));
    assert!(mgr.find_one("jobs/build").is_none());
}

#[test]
fn token_decides_what_is_written() {
    let mut session = SessionState::new("c".to_string());
    let mut dispatcher = AckDispatcher::new();
    let ack = dispatcher.token(1, QoS::AtLeastOnce).ack();
    let work = AckDispatcher::handle(ack, &mut session).unwrap();
    assert!(
        matches!(work.packet, Packet::PubAck(p) if p.packet_id == 1 && p.reason_code == ReasonCode::Success)
    );
    let reject = dispatcher
        .token(2, QoS::ExactlyOnce)
        .reject(ReasonCode::Success);
    let work = AckDispatcher::handle(reject, &mut session).unwrap();
    assert!(
        matches!(work.packet, Packet::PubRec(p) if p.reason_code == ReasonCode::UnspecifiedError)
    );
    let nothing = dispatcher.token(0, QoS::AtMostOnce).ack();
    assert!(AckDispatcher::handle(nothing, &mut session).is_none());
    assert!(AckDispatcher::write(&session, 5, true));
    assert!(!AckDispatcher::write(&session, 5, false));
    session.server_maximum_packet_size = Some(4);
    assert!(!AckDispatcher::write(&session, 5, true));
    assert!(AckDispatcher::write(&session, 4, true));
}

fn queued(topic: &str, id: u16, ids: &mut OutboundIds) -> QueuedPublish {
    let mut publish = PublishPacket::new(topic.to_string(), Vec::new(), QoS::AtLeastOnce);
    publish.packet_id = Some(id);
    QueuedPublish::new(publish, ids.claim(id).unwrap(), None)
}

#[test]
fn offline_queue_keeps_its_order() {
    let mut ids = OutboundIds::new();
    let mut queue = OfflineQueue::new();
    queue.push_back(queued("b", 1, &mut ids));
    queue.push_front_in_order(vec![queued("a1", 2, &mut ids), queued("a2", 3, &mut ids)]);
    let mut topics = Vec::new();
    while let Some((serial, packet)) = queue.front() {
        topics.push(packet.topic_name);
        assert!(queue.take(serial).is_some());
        assert!(queue.take(serial).is_none());
    }
    assert_eq!(topics, ["a1", "a2", "b"]);
    assert!(queue.is_empty());
}

#[test]
fn policy_lowers_the_quality_of_service() {
    let policy = PublishPolicy {
        maximum_qos: Some(0),
        retain_available: false,
    };
    let mut publish = PublishPacket::new("t".to_string(), Vec::new(), QoS::ExactlyOnce);
    publish.packet_id = Some(4);
    assert!(matches!(
        policy.admits_unchanged(&publish),
        Err(MqttError::QoSNotSupported)
    ));
    let lowered = policy.conform(publish).unwrap();
    assert_eq!(lowered.qos, QoS::AtMostOnce);
    assert_eq!(lowered.packet_id, None);
    assert!(policy.admits_unchanged(&lowered).is_ok());
    let mut retained = lowered;
    retained.retain = true;
    assert!(matches!(
        policy.conform(retained),
        Err(MqttError::RetainNotSupported)
    ));
}

#[test]
fn incoming_alias_stands_for_the_topic_that_it_came_with() {
    let message = |topic: &str, alias: Option<u16>| {
        let mut publish = PublishPacket::new(topic.to_string(), vec![1], QoS::AtMostOnce);
        publish.properties.topic_alias = alias;
        publish
    };
    let mut aliases = TopicAliasManager::new(2);
    let first = with_incoming_topic(&mut aliases, message("a/b", Some(2))).unwrap();
    assert_eq!(first.topic_name, "a/b");
    let second = with_incoming_topic(&mut aliases, message("", Some(2))).unwrap();
    assert_eq!(second.topic_name, "a/b");
    let plain = with_incoming_topic(&mut aliases, message("c", None)).unwrap();
    assert_eq!(plain.topic_name, "c");
    assert!(matches!(
        with_incoming_topic(&mut aliases, message("", Some(1))),
        Err(MqttError::TopicAliasInvalid(1))
    ));
    assert!(matches!(
        with_incoming_topic(&mut aliases, message("d", Some(3))),
        Err(MqttError::TopicAliasInvalid(3))
    ));
    assert!(matches!(
        with_incoming_topic(&mut aliases, message("d", Some(0))),
        Err(MqttError::TopicAliasInvalid(0))
    ));
}
