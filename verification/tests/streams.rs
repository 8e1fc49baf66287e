use mqtt5::broker::delivery::{DeliveryLanes, Lane, Offer, OutboundRateState, RoutableMessage};
use mqtt5::broker::server_stream_manager::{
    ServerDeliveryStrategy, ServerStreamManager, StreamStep, FLOW_EXPIRE_INTERVAL,
    MAX_CACHED_STREAMS, STREAM_IDLE_TIMEOUT,
};
use mqtt5::broker::storage::file_backend::trim;
use mqtt5::broker::storage::{deadline_from, ChangeOnlyState};
use mqtt5::client::auth_handler::AuthResponse;
use mqtt5::client::direct::client::{ConnectOptions, DirectClientInner};
use mqtt5::client::direct::reader::packet_type_name;
use mqtt5::client::direct::subscribe::granted_qos;
use mqtt5::client::publish_outcome::{Delivery, PublishRejection};
use mqtt5::error::{MqttError, ReasonCode};
use mqtt5::packets::Packet;
use mqtt5::session::quic_flow::{FlowFlags, FlowId, FlowRegistry, FlowState};
use mqtt5::topic::{
    is_wildcard_filter, parse_shared_subscription, strip_shared_subscription_prefix,
    topic_matches_filter, validate_subscription_filter, validate_topic_name,
};
use mqtt5::types::{PublishPacket, QoS};
use std::sync::Arc;

fn looked_up(manager: &mut ServerStreamManager, topic: &str, now: u64) -> (Vec<FlowId>, FlowId) {
    let step = manager.write_publish(topic, QoS::AtLeastOnce, now).unwrap();
    let StreamStep::Topic { closed, stream } = step else {
        panic!("each topic has its stream");
    };
    let flow_id = match stream {
        Some(flow_id) => flow_id,
        None => {
            let opened = manager.open_topic_stream();
            assert!(opened.bidirectional);
            assert_eq!(opened.expire_interval, FLOW_EXPIRE_INTERVAL);
            manager.keep_topic_stream(topic, opened.flow_id, now);
            opened.flow_id
        }
    };
    (closed, flow_id)
}

#[test]
fn stream_of_a_topic_is_used_again() {
    let mut manager = ServerStreamManager::new(ServerDeliveryStrategy::PerTopic);
    let (_, first) = looked_up(&mut manager, "a", 0);
    assert!(first.is_server_initiated());
    let (_, second) = looked_up(&mut manager, "b", 0);
    assert_ne!(first, second);
    assert_eq!(looked_up(&mut manager, "a", 1).1, first);
    manager.close_all_streams();
    assert_ne!(looked_up(&mut manager, "a", 2).1, first);
}

#[test]
fn idle_streams_are_closed() {
    let mut manager = ServerStreamManager::new(ServerDeliveryStrategy::PerTopic);
    let (_, a) = looked_up(&mut manager, "a", 0);
    looked_up(&mut manager, "b", 10);
    let (closed, _) = looked_up(&mut manager, "b", STREAM_IDLE_TIMEOUT);
    assert!(closed.is_empty());
    let (closed, _) = looked_up(&mut manager, "b", STREAM_IDLE_TIMEOUT + 1);
    assert_eq!(closed, vec![a]);
}

#[test]
fn number_of_topic_streams_is_bounded() {
    let mut manager = ServerStreamManager::new(ServerDeliveryStrategy::PerTopic);
    let mut flows = Vec::new();
    for i in 0..MAX_CACHED_STREAMS {
        flows.push(looked_up(&mut manager, &format!("t/{i}"), 100 + i as u64).1);
    }
    looked_up(&mut manager, "t/0", 1_000);
    let (closed, _) = looked_up(&mut manager, "one/more", 1_001);
    assert_eq!(closed, vec![flows[1]]);
    assert_eq!(manager.topic_streams.len(), MAX_CACHED_STREAMS);
}

#[test]
fn strategy_decides_on_the_stream() {
    let manager = ServerStreamManager::new(ServerDeliveryStrategy::ControlOnly);
    let mut manager = manager.with_strategy(ServerDeliveryStrategy::PerPublish);
    let Ok(StreamStep::Own(first)) = manager.write_publish("a", QoS::AtMostOnce, 0) else {
        panic!("each message has its stream");
    };
    assert!(!first.bidirectional);
    let Ok(StreamStep::Own(second)) = manager.write_publish("a", QoS::ExactlyOnce, 0) else {
        panic!("each message has its stream");
    };
    assert!(second.bidirectional);
    assert_ne!(first.flow_id, second.flow_id);
    let mut manager = manager.with_strategy(ServerDeliveryStrategy::ControlOnly);
    assert!(matches!(
        manager.write_publish("a", QoS::AtMostOnce, 0),
        Err(MqttError::ConnectionError(_))
    ));
    let opened = manager.write_publish_to_flow(9, 0).unwrap();
    assert_eq!(opened.flow_id, FlowId(9));
    manager.keep_flow_stream(9, 0);
    assert!(manager.write_publish_to_flow(9, 5).is_none());
    assert!(manager.remove_flow_stream(9));
    assert!(!manager.remove_flow_stream(9));
}

#[test]
fn topics_match_their_filters() {
    let cases = [
        ("a/b", "a/b", true),
        ("a/b", "a/+", true),
        ("a/b", "a/#", true),
        ("a", "a/#", true),
        ("a/b/c", "a/+", false),
        ("a/b/c", "+/b/#", true),
        ("$SYS/x", "#", false),
        ("$SYS/x", "+/x", false),
        ("$SYS/x", "$SYS/#", true),
        ("a//b", "a/+/b", true),
    ];
    for (topic, filter, expected) in cases {
        assert_eq!(
            topic_matches_filter(topic, filter),
            expected,
            "{topic} {filter}"
        );
    }
    assert!(is_wildcard_filter("a/+"));
    assert!(is_wildcard_filter("#"));
    assert!(!is_wildcard_filter("a/b"));
}

#[test]
fn shared_filters_are_taken_apart() {
    assert_eq!(
        parse_shared_subscription("$share/g/a/b"),
        ("a/b".to_string(), Some("g".to_string()))
    );
    assert_eq!(parse_shared_subscription("a/b"), ("a/b".to_string(), None));
    assert_eq!(strip_shared_subscription_prefix("$share/g/a/#"), "a/#");
    assert_eq!(strip_shared_subscription_prefix("a/#"), "a/#");
    for good in ["a", "/", "+", "#", "a/+/b", "$share/g/a/#"] {
        assert!(validate_subscription_filter(good).is_ok(), "{good}");
    }
    for bad in ["", "a#", "#/a", "a+/b", "$share//a", "$share/g", "$share/g+/a", "a\0"] {
        assert!(
            matches!(
                validate_subscription_filter(bad),
                Err(MqttError::InvalidTopicFilter(_))
            ),
            "{bad}"
        );
    }
    assert!(validate_topic_name("a/b").is_ok());
    for bad in ["", "a/+", "#", "a\0b"] {
        assert!(matches!(
            validate_topic_name(bad),
            Err(MqttError::InvalidTopicName(_))
        ));
    }
    assert!(validate_topic_name(&"x".repeat(65_535)).is_ok());
    assert!(validate_topic_name(&"x".repeat(65_536)).is_err());
}

fn routable(topic: &str, qos: QoS) -> RoutableMessage {
    RoutableMessage {
        publish: PublishPacket::new(topic.to_string(), Vec::new(), qos),
        target_flow: None,
    }
}

#[test]
fn lanes_keep_their_order_and_their_capacity() {
    let mut lane = Lane::new(1);
    assert!(matches!(
        lane.try_send(routable("a", QoS::AtMostOnce)),
        Offer::Sent
    ));
    assert!(matches!(
        lane.try_send(routable("b", QoS::AtMostOnce)),
        Offer::Full(m) if m.publish.topic_name == "b"
    ));
    assert_eq!(lane.try_recv().unwrap().publish.topic_name, "a");
    lane.close();
    assert!(matches!(
        lane.try_send(routable("c", QoS::AtMostOnce)),
        Offer::Closed(_)
    ));
    let mut lanes = DeliveryLanes::channel(4);
    assert!(matches!(
        lanes.qos0.try_send(routable("zero", QoS::AtMostOnce)),
        Offer::Sent
    ));
    assert!(matches!(
        lanes.qos1.try_send(routable("one", QoS::AtLeastOnce)),
        Offer::Sent
    ));
    assert_eq!(lanes.try_recv().unwrap().publish.topic_name, "one");
    assert_eq!(lanes.try_recv().unwrap().publish.topic_name, "zero");
    assert!(lanes.try_recv().is_none());
}

#[test]
fn outbound_rate_is_counted_by_the_second() {
    let mut rate = OutboundRateState::new(0);
    assert!(rate.check_and_increment(2, 0));
    assert!(rate.check_and_increment(2, 500));
    assert!(!rate.check_and_increment(2, 999));
    assert!(rate.check_and_increment(2, 1_000));
    assert!(rate.check_and_increment(0, 1_000));
}

#[test]
fn repeated_payloads_are_not_delivered() {
    let mut state = ChangeOnlyState::new();
    let payload = Arc::new(b"1".to_vec());
    assert!(state.should_deliver("t", &payload));
    state.update("t", &payload);
    assert!(!state.should_deliver("t", &payload));
    assert!(state.should_deliver("t", &Arc::new(b"2".to_vec())));
    assert!(state.should_deliver("u", &payload));
}

#[test]
fn small_formulas() {
    assert_eq!(deadline_from(10, Some(2)), Some(2_010));
    assert_eq!(deadline_from(10, None), None);
    assert_eq!(deadline_from(u64::MAX, Some(1)), Some(u64::MAX));
    assert_eq!(trim(" 1\n"), "1");
    assert_eq!(granted_qos(ReasonCode::Success), Some(QoS::AtMostOnce));
    assert_eq!(granted_qos(ReasonCode::GrantedQoS2), Some(QoS::ExactlyOnce));
    assert_eq!(granted_qos(ReasonCode::NotAuthorized), None);
    assert_eq!(QoS::ExactlyOnce.min_of(QoS::AtLeastOnce), QoS::AtLeastOnce);
    assert_eq!(packet_type_name(&Packet::PingResp), "PINGRESP");
    let delivery = Delivery::of(QoS::ExactlyOnce, Some(3));
    assert_eq!(delivery.qos_used(), QoS::ExactlyOnce);
    assert_eq!(delivery.packet_id(), Some(3));
    assert_eq!(
        PublishRejection::from_error(&MqttError::PacketTooLarge { size: 2, max: 1 }),
        PublishRejection::PacketTooLarge
    );
    assert_eq!(
        PublishRejection::from_error(&MqttError::Timeout),
        PublishRejection::Unsendable
    );
    assert_eq!(
        MqttError::PacketTooLarge { size: 20, max: 10 }.describe(),
        "Packet too large: 20 bytes, at most 10"
    );
    assert_eq!(
        MqttError::ProtocolError("x".to_string()).describe(),
        "Protocol error: x"
    );
}

#[test]
fn challenges_are_answered() {
    let mut options = ConnectOptions::new("auth".to_string());
    options.properties.authentication_method = Some("SCRAM".to_string());
    let mut client = DirectClientInner::new(options);
    let answer = client
        .answer_challenge(Ok(AuthResponse::Continue(b"more".to_vec())))
        .unwrap()
        .unwrap();
    assert_eq!(answer.reason_code, ReasonCode::ContinueAuthentication);
    assert_eq!(
        answer.properties.authentication_data,
        Some(Arc::new(b"more".to_vec()))
    );
    assert!(matches!(
        client.answer_challenge(Ok(AuthResponse::Success)),
        Ok(None)
    ));
    assert!(matches!(
        client.answer_challenge(Ok(AuthResponse::Abort("no".to_string()))),
        Err(MqttError::AuthenticationFailed)
    ));
    assert!(matches!(
        client.reauthenticate(Some(Ok(None))),
        Err(MqttError::NotConnected)
    ));
    client.set_connected(true);
    assert!(matches!(
        client.reauthenticate(None),
        Err(MqttError::AuthenticationFailed)
    ));
    let again = client.reauthenticate(Some(Ok(None))).unwrap();
    assert_eq!(again.reason_code, ReasonCode::ReAuthenticate);
}

#[test]
fn flows_are_told_apart_by_their_side() {
    let mut flows = FlowRegistry::new(3);
    let client = flows
        .new_client_flow(FlowFlags::default(), Some(1), 0)
        .unwrap();
    let server = flows.new_server_flow(FlowFlags::default(), None, 0).unwrap();
    assert_eq!(flows.client_flows()[0].0, client);
    assert_eq!(flows.server_flows()[0].0, server);
    let other = FlowState::new_server_data(FlowId::server(40), FlowFlags::default(), None, 0);
    assert!(flows.register_flow(other));
    let refused = FlowState::new_server_data(FlowId::server(41), FlowFlags::default(), None, 0);
    assert!(!flows.register_flow(refused));
    assert!(!flows.get(client).unwrap().is_expired(0));
}

#[test]
fn flow_operations_need_a_quic_connection() {
    let mut client = DirectClientInner::new(ConnectOptions::new("quic".to_string()));
    assert!(matches!(
        client.discard_flow(true),
        Err(MqttError::NotConnected)
    ));
    client.set_connected(true);
    assert!(client.discard_flow(true).is_ok());
    assert!(client.migrate(true).is_ok());
    assert!(matches!(
        client.discard_flow(false),
        Err(MqttError::ConnectionError(_))
    ));
    assert!(matches!(
        client.migrate(false),
        Err(MqttError::ConnectionError(_))
    ));
}
