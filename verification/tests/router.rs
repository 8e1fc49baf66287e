use mqtt5::broker::delivery::DeliveryLanes;
use mqtt5::broker::router::{
    effective_qos, MessageRouter, Release, SubscribeOptions, Subscribed, Unsubscribed,
};
use mqtt5::broker::storage::client_queue::{QueueLimits, QueueRegistry};
use mqtt5::broker::storage::{ChangeOnlyState, RetainedMessage};
use mqtt5::error::MqttError;
use mqtt5::types::{ProtocolVersion, PublishPacket, QoS};
use std::sync::Arc;

fn options(qos: QoS, flow_id: Option<u64>) -> SubscribeOptions {
    SubscribeOptions {
        qos,
        subscription_id: None,
        no_local: false,
        retain_as_published: false,
        retain_handling: 0,
        protocol_version: ProtocolVersion::V5,
        change_only: false,
        flow_id,
    }
}

fn publish(topic: &str, payload: &[u8], qos: QoS) -> PublishPacket {
    PublishPacket::new(topic.to_string(), payload.to_vec(), qos)
}

fn register(router: &mut MessageRouter, client_id: &str, capacity: usize) {
    router.register_client(client_id.to_string(), DeliveryLanes::channel(capacity), 0);
}

fn subscribe(router: &mut MessageRouter, client_id: &str, filter: &str, qos: QoS) {
    router
        .subscribe(client_id.to_string(), filter.to_string(), options(qos, None))
        .unwrap();
}

fn received(router: &mut MessageRouter, client_id: &str) -> usize {
    let mut count = 0;
    while router.next_delivery(client_id).is_some() {
        count += 1;
    }
    count
}

#[test]
fn test_client_registration() {
    let mut router = MessageRouter::new();
    register(&mut router, "client1", 100);
    assert_eq!(router.client_count(), 1);

    router.unregister_client("client1");
    assert_eq!(router.client_count(), 0);
}

#[test]
fn test_subscription_management() {
    let mut router = MessageRouter::new();
    register(&mut router, "client1", 100);
    subscribe(&mut router, "client1", "test/+", QoS::AtLeastOnce);

    assert_eq!(router.topic_count(), 1);

    let removed = router.unsubscribe("client1", "test/+", None);
    assert!(removed);
    assert_eq!(router.topic_count(), 0);
}

#[test]
fn test_message_routing() {
    let mut router = MessageRouter::new();
    register(&mut router, "client1", 100);
    register(&mut router, "client2", 100);
    subscribe(&mut router, "client1", "test/+", QoS::AtLeastOnce);
    subscribe(&mut router, "client2", "test/data", QoS::ExactlyOnce);

    let message = publish("test/data", b"hello", QoS::ExactlyOnce);
    router.route_message(&message, None, 0);

    let rm1 = router.next_delivery("client1").unwrap();
    assert_eq!(rm1.publish.topic_name, "test/data");
    assert_eq!(rm1.publish.qos, QoS::AtLeastOnce);

    let rm2 = router.next_delivery("client2").unwrap();
    assert_eq!(rm2.publish.topic_name, "test/data");
    assert_eq!(rm2.publish.qos, QoS::ExactlyOnce);
}

#[test]
fn routed_publish_never_carries_the_publisher_packet_id() {
    let mut router = MessageRouter::new();
    register(&mut router, "sub", 100);
    subscribe(&mut router, "sub", "ids/#", QoS::AtLeastOnce);

    for publisher_packet_id in [7u16, 7, 9] {
        let mut message = publish("ids/a", b"x", QoS::AtLeastOnce);
        message.packet_id = Some(publisher_packet_id);
        router.route_message(&message, Some("pub"), 0);
        let delivered = router.next_delivery("sub").unwrap();
        assert_eq!(delivered.publish.packet_id, None);
    }
}

#[test]
fn test_retained_messages() {
    let mut router = MessageRouter::new();

    let mut message = publish("test/status", b"online", QoS::AtMostOnce);
    message.retain = true;
    router.route_message(&message, None, 0);

    assert_eq!(router.retained_count(), 1);

    let retained = router.get_retained_messages("test/+", 0);
    assert_eq!(retained.len(), 1);
    assert_eq!(retained[0].topic_name, "test/status");

    let mut delete = publish("test/status", b"", QoS::AtMostOnce);
    delete.retain = true;
    let outcome = router.route_message(&delete, None, 0);
    assert!(outcome.retained.unwrap().cleared);

    assert_eq!(router.retained_count(), 0);
}

#[test]
fn test_shared_subscription_round_robin() {
    let mut router = MessageRouter::new();
    for client in ["client1", "client2", "client3"] {
        register(&mut router, client, 100);
    }
    for client in ["client1", "client2", "client3"] {
        subscribe(&mut router, client, "$share/workers/test/data", QoS::AtMostOnce);
    }

    for i in 0..6 {
        let message = publish("test/data", format!("msg{i}").as_bytes(), QoS::AtMostOnce);
        router.route_message(&message, None, 0);
    }

    assert_eq!(received(&mut router, "client1"), 2);
    assert_eq!(received(&mut router, "client2"), 2);
    assert_eq!(received(&mut router, "client3"), 2);
}

#[test]
fn test_shared_and_regular_subscriptions() {
    let mut router = MessageRouter::new();
    for client in ["shared1", "shared2", "regular"] {
        register(&mut router, client, 100);
    }
    subscribe(&mut router, "shared1", "$share/group/test/+", QoS::AtMostOnce);
    subscribe(&mut router, "shared2", "$share/group/test/+", QoS::AtMostOnce);
    subscribe(&mut router, "regular", "test/+", QoS::AtMostOnce);

    let message = publish("test/data", b"hello", QoS::AtMostOnce);
    router.route_message(&message, None, 0);

    let regular_rm = router.next_delivery("regular").unwrap();
    assert_eq!(&regular_rm.publish.payload[..], b"hello");

    let shared1_received = router.next_delivery("shared1").is_some();
    let shared2_received = router.next_delivery("shared2").is_some();
    assert!(shared1_received ^ shared2_received);
}

#[test]
fn test_route_message_local_only_delivers_to_subscribers() {
    let mut router = MessageRouter::new();
    register(&mut router, "client1", 100);
    register(&mut router, "client2", 100);
    subscribe(&mut router, "client1", "test/+", QoS::AtLeastOnce);
    subscribe(&mut router, "client2", "test/data", QoS::ExactlyOnce);

    let message = publish("test/data", b"local-only", QoS::ExactlyOnce);
    let outcome = router.route_message_local_only(&message, None, 0);
    assert!(!outcome.forward);

    let rm1 = router.next_delivery("client1").unwrap();
    assert_eq!(rm1.publish.topic_name, "test/data");
    assert_eq!(&rm1.publish.payload[..], b"local-only");
    assert_eq!(rm1.publish.qos, QoS::AtLeastOnce);

    let rm2 = router.next_delivery("client2").unwrap();
    assert_eq!(rm2.publish.topic_name, "test/data");
    assert_eq!(&rm2.publish.payload[..], b"local-only");
    assert_eq!(rm2.publish.qos, QoS::ExactlyOnce);
}

fn echo_publish() -> PublishPacket {
    let mut message = publish("test/echo", b"hello", QoS::AtMostOnce);
    message.properties.user_properties =
        Arc::new(vec![("x-origin".to_string(), "client1".to_string())]);
    message
}

#[test]
fn test_echo_suppression_skips_matching_client() {
    let mut router = MessageRouter::new().with_echo_suppression_key("x-origin".to_string());
    register(&mut router, "client1", 100);
    register(&mut router, "client2", 100);
    subscribe(&mut router, "client1", "test/echo", QoS::AtMostOnce);
    subscribe(&mut router, "client2", "test/echo", QoS::AtMostOnce);

    router.route_message(&echo_publish(), None, 0);

    assert!(router.next_delivery("client1").is_none());

    let rm2 = router.next_delivery("client2").unwrap();
    assert_eq!(rm2.publish.topic_name, "test/echo");
}

#[test]
fn test_echo_suppression_disabled_delivers_all() {
    let mut router = MessageRouter::new();
    register(&mut router, "client1", 100);
    register(&mut router, "client2", 100);
    subscribe(&mut router, "client1", "test/echo", QoS::AtMostOnce);
    subscribe(&mut router, "client2", "test/echo", QoS::AtMostOnce);

    router.route_message(&echo_publish(), None, 0);

    assert!(router.next_delivery("client1").is_some());
    assert!(router.next_delivery("client2").is_some());
}

#[test]
fn test_route_message_local_only_stores_retained() {
    let mut router = MessageRouter::new();

    let mut message = publish("test/status", b"online", QoS::AtMostOnce);
    message.retain = true;

    router.route_message_local_only(&message, None, 0);

    assert_eq!(router.retained_count(), 1);
    let retained = router.get_retained_messages("test/status", 0);
    assert_eq!(retained.len(), 1);
    assert_eq!(&retained[0].payload[..], b"online");
}

#[test]
fn test_outbound_rate_qos0_dropped_when_exceeded() {
    let mut router = MessageRouter::new().with_max_outbound_rate(5);
    register(&mut router, "sub1", 100);
    subscribe(&mut router, "sub1", "test/rate", QoS::AtMostOnce);

    for i in 0..20u8 {
        let message = publish("test/rate", &[i], QoS::AtMostOnce);
        router.route_message(&message, None, 0);
    }

    let received = received(&mut router, "sub1");
    assert!(received <= 5, "expected at most 5 messages, got {received}");
    assert!(received >= 1, "expected at least 1 message, got {received}");
}

#[test]
fn test_outbound_rate_qos1_queued_when_exceeded() {
    let queues = QueueRegistry::new(QueueLimits::default(), false);
    let mut router = MessageRouter::with_storage(queues).with_max_outbound_rate(3);
    register(&mut router, "sub1", 100);
    subscribe(&mut router, "sub1", "test/rate", QoS::AtLeastOnce);

    for i in 0..10u8 {
        let message = publish("test/rate", &[i], QoS::AtLeastOnce);
        router.route_message(&message, None, 0);
    }

    let delivered = received(&mut router, "sub1");
    assert!(delivered <= 3, "expected at most 3 delivered, got {delivered}");

    let queued = router.queue("sub1").unwrap().peek_all(0);
    assert!(
        !queued.is_empty(),
        "expected queued messages for rate-limited QoS 1"
    );
    assert_eq!(
        delivered + queued.len(),
        10,
        "delivered + queued should equal total sent"
    );
}

#[test]
fn test_outbound_rate_zero_means_unlimited() {
    let mut router = MessageRouter::new().with_max_outbound_rate(0);
    register(&mut router, "sub1", 1000);
    subscribe(&mut router, "sub1", "test/rate", QoS::AtMostOnce);

    for i in 0..100u8 {
        let message = publish("test/rate", &[i], QoS::AtMostOnce);
        router.route_message(&message, None, 0);
    }

    assert_eq!(received(&mut router, "sub1"), 100);
}

#[test]
fn test_outbound_rate_cleanup_on_unregister() {
    let mut router = MessageRouter::new().with_max_outbound_rate(10);
    register(&mut router, "sub1", 100);
    assert!(router.has_outbound_rate("sub1"));

    router.unregister_client("sub1");
    assert!(!router.has_outbound_rate("sub1"));
}

#[test]
fn test_flow_bound_subscription_delivers_with_target_flow() {
    let mut router = MessageRouter::new();
    register(&mut router, "c1", 100);
    router
        .subscribe(
            "c1".to_string(),
            "sensor/#".to_string(),
            options(QoS::AtLeastOnce, Some(42)),
        )
        .unwrap();

    let message = publish("sensor/temp", b"25C", QoS::AtMostOnce);
    router.route_message(&message, Some("pub1"), 0);

    let routable = router.next_delivery("c1").unwrap();
    assert_eq!(routable.target_flow, Some(42));
    assert_eq!(routable.publish.topic_name, "sensor/temp");
}

#[test]
fn test_flow_and_control_subscriptions_coexist() {
    let mut router = MessageRouter::new();
    register(&mut router, "c1", 100);
    for flow_id in [None, Some(7)] {
        router
            .subscribe(
                "c1".to_string(),
                "data/#".to_string(),
                options(QoS::AtMostOnce, flow_id),
            )
            .unwrap();
    }

    let message = publish("data/x", b"val", QoS::AtMostOnce);
    router.route_message(&message, Some("pub1"), 0);

    let msg1 = router.next_delivery("c1").unwrap();
    let msg2 = router.next_delivery("c1").unwrap();
    let flows: Vec<Option<u64>> = vec![msg1.target_flow, msg2.target_flow];
    assert!(flows.contains(&None));
    assert!(flows.contains(&Some(7)));
}

#[test]
fn test_unsubscribe_by_flow_removes_only_flow_subs() {
    let mut router = MessageRouter::new();
    register(&mut router, "c1", 100);
    for (filter, flow_id) in [("topic/a", None), ("topic/a", Some(10)), ("topic/b", Some(10))] {
        router
            .subscribe(
                "c1".to_string(),
                filter.to_string(),
                options(QoS::AtMostOnce, flow_id),
            )
            .unwrap();
    }

    let removed = router.unsubscribe_by_flow(None, "c1", 10);
    assert_eq!(removed.len(), 2);
    assert!(removed.contains(&"topic/a".to_string()));
    assert!(removed.contains(&"topic/b".to_string()));

    let message = publish("topic/a", b"data", QoS::AtMostOnce);
    router.route_message(&message, Some("pub1"), 0);

    let routable = router.next_delivery("c1").unwrap();
    assert_eq!(routable.target_flow, None);
    assert!(router.next_delivery("c1").is_none());
}

#[test]
fn test_flow_dedup_same_topic_same_flow() {
    let mut router = MessageRouter::new();
    register(&mut router, "c1", 100);
    for qos in [QoS::AtMostOnce, QoS::AtLeastOnce] {
        router
            .subscribe(
                "c1".to_string(),
                "dup/test".to_string(),
                options(qos, Some(5)),
            )
            .unwrap();
    }

    let message = publish("dup/test", b"once", QoS::AtMostOnce);
    router.route_message(&message, Some("pub1"), 0);

    let routable = router.next_delivery("c1").unwrap();
    assert_eq!(routable.target_flow, Some(5));
    assert!(router.next_delivery("c1").is_none());
}

#[test]
fn no_local_subscription_skips_the_publisher() {
    let mut router = MessageRouter::new();
    register(&mut router, "c1", 10);
    let mut no_local = options(QoS::AtMostOnce, None);
    no_local.no_local = true;
    router
        .subscribe("c1".to_string(), "t".to_string(), no_local)
        .unwrap();
    router.route_message(&publish("t", b"own", QoS::AtMostOnce), Some("c1"), 0);
    assert!(router.next_delivery("c1").is_none());
    router.route_message(&publish("t", b"other", QoS::AtMostOnce), Some("c2"), 0);
    assert_eq!(
        &router.next_delivery("c1").unwrap().publish.payload[..],
        b"other"
    );
}

#[test]
fn unchanged_payload_is_delivered_once_to_a_change_only_subscription() {
    let mut router = MessageRouter::new();
    register(&mut router, "c1", 10);
    let mut change_only = options(QoS::AtMostOnce, None);
    change_only.change_only = true;
    router
        .subscribe("c1".to_string(), "t".to_string(), change_only)
        .unwrap();
    for payload in [&b"1"[..], b"1", b"2", b"2", b"1"] {
        router.route_message(&publish("t", payload, QoS::AtMostOnce), None, 0);
    }
    assert_eq!(received(&mut router, "c1"), 3);
    assert!(router.get_change_only_state("c1").is_some());
    router.remove_change_only_state("c1");
    assert!(router.get_change_only_state("c1").is_none());
    router.load_change_only_state("c1", ChangeOnlyState::new());
    router.route_message(&publish("t", b"1", QoS::AtMostOnce), None, 0);
    assert_eq!(received(&mut router, "c1"), 1);
}

#[test]
fn full_lane_waits_and_granted_room_delivers() {
    let mut router = MessageRouter::new();
    register(&mut router, "slow", 1);
    subscribe(&mut router, "slow", "t", QoS::AtLeastOnce);
    assert!(router
        .route_message(&publish("t", b"1", QoS::AtLeastOnce), None, 0)
        .progress
        .waiting
        .is_none());
    let progress = router
        .route_message(&publish("t", b"2", QoS::AtLeastOnce), None, 0)
        .progress;
    assert!(progress.rest.is_empty());
    assert!(router.next_delivery("slow").is_some());
    router.end_wait(progress.waiting.unwrap(), true, 0);
    assert_eq!(
        &router.next_delivery("slow").unwrap().publish.payload[..],
        b"2"
    );
}

#[test]
fn wait_that_ends_without_room_leaves_the_message_in_the_queue() {
    let mut router = MessageRouter::with_storage(QueueRegistry::new(QueueLimits::default(), false));
    register(&mut router, "slow", 1);
    subscribe(&mut router, "slow", "t", QoS::AtLeastOnce);
    router.route_message(&publish("t", b"1", QoS::AtLeastOnce), None, 0);
    let progress = router
        .route_message(&publish("t", b"2", QoS::AtLeastOnce), None, 0)
        .progress;
    router.end_wait(progress.waiting.unwrap(), false, 0);
    assert_eq!(router.queue("slow").unwrap().count(), 1);
}

#[test]
fn granted_room_is_used_though_the_client_has_a_backlog() {
    let mut router = MessageRouter::with_storage(QueueRegistry::new(QueueLimits::default(), false));
    register(&mut router, "slow", 1);
    subscribe(&mut router, "slow", "t", QoS::AtLeastOnce);
    router.route_message(&publish("t", b"1", QoS::AtLeastOnce), None, 0);
    let first = router
        .route_message(&publish("t", b"2", QoS::AtLeastOnce), None, 0)
        .progress;
    let second = router
        .route_message(&publish("t", b"3", QoS::AtLeastOnce), None, 0)
        .progress;
    router.end_wait(first.waiting.unwrap(), false, 0);
    assert!(router.next_delivery("slow").is_some());
    router.end_wait(second.waiting.unwrap(), true, 0);
    assert_eq!(
        &router.next_delivery("slow").unwrap().publish.payload[..],
        b"3"
    );
    assert_eq!(router.queue("slow").unwrap().count(), 1);
}

#[test]
fn rest_of_a_route_goes_on_when_the_wait_has_ended() {
    let mut router = MessageRouter::with_storage(QueueRegistry::new(QueueLimits::default(), false));
    register(&mut router, "slow", 1);
    subscribe(&mut router, "slow", "t", QoS::AtLeastOnce);
    router.route_message(&publish("t", b"1", QoS::AtLeastOnce), None, 0);
    subscribe(&mut router, "slow", "+", QoS::AtLeastOnce);
    register(&mut router, "fast", 4);
    subscribe(&mut router, "fast", "#", QoS::AtLeastOnce);
    let progress = router
        .route_message(&publish("t", b"2", QoS::AtLeastOnce), None, 0)
        .progress;
    assert_eq!(progress.rest.len(), 2);
    assert_eq!(received(&mut router, "fast"), 0);
    router.end_wait(progress.waiting.unwrap(), false, 0);
    let progress = router.continue_route(progress.rest, None, 0);
    assert!(progress.waiting.is_none());
    assert!(progress.rest.is_empty());
    assert_eq!(router.queue("slow").unwrap().count(), 2);
    assert_eq!(received(&mut router, "fast"), 1);
}

#[test]
fn message_for_an_ended_connection_is_queued() {
    let mut router = MessageRouter::with_storage(QueueRegistry::new(QueueLimits::default(), false));
    register(&mut router, "c", 1);
    subscribe(&mut router, "c", "t", QoS::AtLeastOnce);
    router.route_message(&publish("t", b"1", QoS::AtLeastOnce), None, 0);
    let progress = router
        .route_message(&publish("t", b"2", QoS::AtLeastOnce), None, 0)
        .progress;
    router.disconnect_client("c");
    register(&mut router, "c", 1);
    router.end_wait(progress.waiting.unwrap(), true, 0);
    assert_eq!(router.queue("c").unwrap().count(), 1);
    assert!(router.next_delivery("c").is_none());
}

#[test]
fn displaced_connection_no_longer_owns_the_client() {
    let mut router = MessageRouter::new();
    let first = router.register_session("c".to_string(), DeliveryLanes::channel(1), false, 0);
    assert!(first.notice.is_none());
    let second = router.register_session("c".to_string(), DeliveryLanes::channel(1), false, 0);
    let notice = second.notice.unwrap();
    assert_eq!(notice.generation, first.generation);
    assert!(!notice.discard);
    assert!(router.queue("c").unwrap().handoff());
    router.finish_takeover(notice);
    assert!(!router.queue("c").unwrap().handoff());
    assert_eq!(
        router.release_client("c", first.generation, true),
        Release::Displaced
    );
    assert!(router.is_connected("c"));
    assert!(matches!(
        router.subscribe_as(
            Some(first.generation),
            "c".to_string(),
            "t".to_string(),
            options(QoS::AtMostOnce, None)
        ),
        Ok(Subscribed::Fenced)
    ));
    assert!(matches!(
        router.subscribe_as(
            Some(second.generation),
            "c".to_string(),
            "t".to_string(),
            options(QoS::AtMostOnce, None)
        ),
        Ok(Subscribed::New)
    ));
    assert_eq!(
        router.unsubscribe_as(Some(first.generation), "c", "t", None),
        Unsubscribed::Fenced
    );
    assert_eq!(
        router.unsubscribe_as(Some(second.generation), "c", "t", None),
        Unsubscribed::Removed
    );
    assert_eq!(
        router.release_client("c", second.generation, true),
        Release::Owned
    );
    assert!(!router.is_connected("c"));
}

#[test]
fn clean_start_removes_earlier_subscriptions() {
    let mut router = MessageRouter::new();
    let first = router.register_session("c".to_string(), DeliveryLanes::channel(1), false, 0);
    subscribe(&mut router, "c", "t", QoS::AtMostOnce);
    router.release_client("c", first.generation, true);
    assert!(router.has_subscription("c", "t"));
    router.register_session("c".to_string(), DeliveryLanes::channel(1), true, 0);
    assert!(!router.has_subscription("c", "t"));
    assert_eq!(router.subscription_count_for_client("c"), 0);
}

#[test]
fn stale_subscriptions_are_cleaned_up() {
    let mut router = MessageRouter::with_storage(QueueRegistry::new(QueueLimits::default(), false));
    register(&mut router, "online", 1);
    subscribe(&mut router, "online", "t", QoS::AtMostOnce);
    subscribe(&mut router, "offline", "t", QoS::AtMostOnce);
    subscribe(&mut router, "gone", "t", QoS::AtMostOnce);
    let stale = router.cleanup_stale_subscriptions(&vec!["offline".to_string()]);
    assert_eq!(stale, vec!["gone".to_string()]);
    assert!(router.has_subscription("online", "t"));
    assert!(router.has_subscription("offline", "t"));
    assert!(!router.has_subscription("gone", "t"));
}

#[test]
fn retain_handling_above_two_is_a_protocol_error() {
    let mut router = MessageRouter::new();
    let mut bad = options(QoS::AtMostOnce, None);
    bad.retain_handling = 3;
    assert!(matches!(
        router.subscribe("c".to_string(), "t".to_string(), bad),
        Err(MqttError::ProtocolError(_))
    ));
}

#[test]
fn effective_quality_of_service_is_the_lower_one() {
    assert_eq!(
        effective_qos(QoS::ExactlyOnce, QoS::AtLeastOnce),
        QoS::AtLeastOnce
    );
    assert_eq!(
        effective_qos(QoS::AtMostOnce, QoS::ExactlyOnce),
        QoS::AtMostOnce
    );
    assert_eq!(
        effective_qos(QoS::ExactlyOnce, QoS::ExactlyOnce),
        QoS::ExactlyOnce
    );
}

fn retained_publish(topic: &str, payload: &[u8]) -> PublishPacket {
    let mut publish = PublishPacket::new(topic.to_string(), payload.to_vec(), QoS::AtMostOnce);
    publish.retain = true;
    publish
}

#[test]
fn retained_messages_are_loaded_and_replaced() {
    let mut router = MessageRouter::new();
    let stored = RetainedMessage::new(retained_publish("a", b"1"), 0);
    router.initialize(vec![("a".to_string(), stored)]);
    assert!(router.has_retained_message("a"));
    assert_eq!(router.get_retained_messages("#", 0).len(), 1);
    let outcome = router.route_message(&retained_publish("a", b"2"), None, 0);
    assert!(outcome.forward);
    assert!(!outcome.retained.unwrap().cleared);
    assert_eq!(&router.get_retained_messages("a", 0)[0].payload[..], b"2");
    let outcome = router.route_message_local_only(&retained_publish("a", b""), None, 0);
    assert!(!outcome.forward);
    assert!(outcome.retained.unwrap().cleared);
    assert!(!router.has_retained_message("a"));
}

#[test]
fn settings_can_be_changed_later() {
    let mut router = MessageRouter::new();
    router.update_echo_suppression_key(Some("origin".to_string()));
    router.register_client("c".to_string(), DeliveryLanes::channel(4), 0);
    router
        .subscribe("c".to_string(), "t".to_string(), options(QoS::AtMostOnce, None))
        .unwrap();
    let mut publish = PublishPacket::new("t".to_string(), b"x".to_vec(), QoS::AtMostOnce);
    publish.properties.user_properties =
        Arc::new(vec![("origin".to_string(), "c".to_string())]);
    router.route_message(&publish, None, 0);
    assert!(router.next_delivery("c").is_none());
    router.update_echo_suppression_key(None);
    router.route_message(&publish, None, 0);
    assert!(router.next_delivery("c").is_some());
    router.update_max_outbound_rate(1);
    router.route_message(&publish, None, 0);
    router.route_message(&publish, None, 0);
    assert!(router.next_delivery("c").is_some());
    assert!(router.next_delivery("c").is_none());
}

#[test]
fn displaced_handler_that_stopped_listening_gets_no_notice() {
    let mut router = MessageRouter::new();
    let first = router.register_client("c".to_string(), DeliveryLanes::channel(4), 0);
    router.stop_listening("c", first.generation);
    let second = router.register_client("c".to_string(), DeliveryLanes::channel(4), 0);
    assert!(second.notice.is_none());
    assert_eq!(second.cutoff, None);
    let third = router.register_client("c".to_string(), DeliveryLanes::channel(4), 0);
    assert_eq!(third.notice.unwrap().generation, second.generation);
    router.disconnect_client("c");
    assert!(!router.is_connected("c"));
}

#[test]
fn message_goes_to_each_matching_subscriber_and_no_other() {
    let mut router = MessageRouter::with_storage(QueueRegistry::new(QueueLimits::default(), false));
    for client_id in ["online", "offline", "other"] {
        register(&mut router, client_id, 4);
    }
    subscribe(&mut router, "online", "a/+", QoS::AtLeastOnce);
    subscribe(&mut router, "offline", "a/b", QoS::AtLeastOnce);
    subscribe(&mut router, "other", "c", QoS::AtLeastOnce);
    router.disconnect_client("offline");
    let outcome = router.route_message(&publish("a/b", b"1", QoS::AtLeastOnce), None, 0);
    assert!(outcome.progress.waiting.is_none());
    assert_eq!(received(&mut router, "online"), 1);
    assert_eq!(router.queue("offline").unwrap().count(), 1);
    assert_eq!(received(&mut router, "other"), 0);
    assert_eq!(router.queue("other").unwrap().count(), 0);
}

#[test]
fn displaced_connection_stays_fenced() {
    let mut router = MessageRouter::new();
    let first = router
        .register_session("c".to_string(), DeliveryLanes::channel(1), false, 0)
        .generation;
    for _ in 0..3 {
        router.register_session("c".to_string(), DeliveryLanes::channel(1), false, 0);
        assert!(!router.generation_is_current(Some(first), "c"));
    }
    router.disconnect_client("c");
    assert!(!router.generation_is_current(Some(first), "c"));
}
