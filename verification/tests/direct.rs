use mqtt5::client::connection::DisconnectReason;
use mqtt5::client::direct::acknowledged::{ping_millis, PublishStart, ResponseStep};
use mqtt5::client::direct::client::{ConnectOptions, DirectClientInner};
use mqtt5::client::direct::connect::{recover_flows, ConnectStep, HandshakeStep};
use mqtt5::client::direct::handlers::{IncomingStep, PublishStep};
use mqtt5::client::direct::outbound::PublishOptions;
use mqtt5::client::direct::publish::{
    publish_route, PublishRoute, ReadyPublish, StagedPublish, StreamStrategy, TransmitStep,
    Transmitted, SIZE_PROBE_PACKET_ID,
};
use mqtt5::client::direct::reader::{
    check_problem_information, is_error_disconnect, read_data_stream_packet, server_flow,
    stream_start, FlowHeader, FlowHeaderReader, FlowTypes, HeaderStep, PacketStep,
};
use mqtt5::client::direct::session_replay::{FlushStep, ReplayStep, SessionReplay, Written};
use mqtt5::client::direct::subscribe::{
    maybe_store_subscriptions, subscribe_on_flow, unsubscribe_on_flow, Answer,
    SubscriptionPersistence,
};
use mqtt5::client::direct::tracking::IdReservation;
use mqtt5::client::publish_outcome::{
    Delivery, IndeterminateReason, PublishHandle, PublishOutcome, PublishRejection,
};
use mqtt5::error::{MqttError, ReasonCode};
use mqtt5::packets::{
    AckPacket, ConnAckPacket, Packet, ReasonPacket, SubAckPacket, SubscribePacket,
    SubscriptionOptions, TopicFilter, UnsubAckPacket, UnsubscribePacket, WillMessage,
};
use mqtt5::session::flow_control::{AcquireEvent, AcquireStart, AcquireStep, Permit};
use mqtt5::session::quic_flow::{FlowFlags, FlowId};
use mqtt5::session::state::{OutboundReplay, OutboundStage};
use mqtt5::types::{Properties, PublishPacket, QoS};
use std::sync::Arc;

fn create_test_client() -> DirectClientInner {
    let mut options = ConnectOptions::new("test-client".to_string());
    options.clean_start = true;
    options.keep_alive = 60;
    DirectClientInner::new(options)
}

fn resuming_client(id: &str) -> DirectClientInner {
    let mut options = ConnectOptions::new(id.to_string());
    options.clean_start = false;
    DirectClientInner::new(options)
}

fn connack(session_present: bool) -> ConnAckPacket {
    ConnAckPacket::new(session_present, ReasonCode::Success)
}

fn receive_maximum_one(session_present: bool) -> ConnAckPacket {
    let mut packet = connack(session_present);
    packet.properties.receive_maximum = Some(1);
    packet
}

fn maximum_qos(level: u8) -> ConnAckPacket {
    let mut packet = connack(true);
    packet.properties.maximum_qos = Some(level);
    packet
}

fn connect_to(client: &mut DirectClientInner, connack: ConnAckPacket) -> Option<SessionReplay> {
    client.reset_connection_runtime();
    match client.connect(connack, 0) {
        ConnectStep::Open { items, slots, .. } => {
            let epoch = client.open_connection();
            slots.map(|slots| client.session_replay(items, slots, epoch))
        }
        other => panic!("the connection must open: {other:?}"),
    }
}

fn first_byte(packet: &PublishPacket) -> u8 {
    0x30 | u8::from(packet.dup) << 3 | packet.qos.as_u8() << 1 | u8::from(packet.retain)
}

fn replayed(client: &mut DirectClientInner, replay: &mut SessionReplay) -> Vec<u8> {
    let mut written = Vec::new();
    loop {
        match client.replay_session_state(replay, 0) {
            ReplayStep::Write(Packet::Publish(packet)) => written.push(first_byte(&packet)),
            ReplayStep::Write(_) => written.push(0x62),
            ReplayStep::Next => {}
            ReplayStep::AwaitSlot | ReplayStep::Stop => return written,
            ReplayStep::Done => break,
        }
    }
    loop {
        match client.flush_offline_queue(replay, 0) {
            FlushStep::Write(packet) => written.push(first_byte(&packet)),
            FlushStep::WriteDowngraded(packet, queued) => {
                written.push(first_byte(&packet));
                assert!(client.write_downgraded(queued, Written::Complete));
            }
            FlushStep::Next => {}
            FlushStep::AwaitSlot | FlushStep::Stop => return written,
            FlushStep::Done => break,
        }
    }
    client.session.flow.finish_replay(replay.slots);
    written
}

fn qos(level: QoS) -> PublishOptions {
    PublishOptions {
        qos: level,
        ..Default::default()
    }
}

fn staged(client: &mut DirectClientInner, topic: &str, level: QoS) -> ReadyPublish {
    match client.stage_publish(topic.to_string(), b"x".to_vec(), qos(level)) {
        Ok(StagedPublish::Ready(ready)) => ready,
        other => panic!("publish must stage while connected: {other:?}"),
    }
}

fn queued(client: &mut DirectClientInner, topic: &str, level: QoS) -> PublishHandle {
    match client.stage_publish(topic.to_string(), b"x".to_vec(), qos(level)) {
        Ok(StagedPublish::Queued(handle)) => handle,
        other => panic!("publish must queue while offline: {other:?}"),
    }
}

fn claim_quota(client: &mut DirectClientInner, ready: &ReadyPublish) -> Option<u64> {
    let packet_id = ready.packet.packet_id?;
    let number = client.session.flow.quota_number();
    assert!(matches!(
        client.session.flow.take_slot(number, packet_id, 0),
        Permit::Taken
    ));
    Some(number)
}

fn send_with_claim(
    client: &mut DirectClientInner,
    mut ready: ReadyPublish,
    mut claim: Option<u64>,
) -> (usize, u8, Transmitted) {
    let mut restages = 0;
    loop {
        match client.transmit_publish(ready, claim).unwrap() {
            TransmitStep::Write(out) => {
                let first = first_byte(&out.packet);
                return (restages, first, client.finish_transmit(&out, Ok(())).unwrap());
            }
            TransmitStep::Restaged(next) => {
                restages += 1;
                claim = claim_quota(client, &next);
                ready = next;
            }
        }
    }
}

fn unacked_packet_ids(client: &DirectClientInner) -> Vec<u16> {
    client
        .session
        .outbound_replay()
        .iter()
        .filter_map(|item| match item {
            OutboundReplay::Publish(publish) => publish.packet_id,
            OutboundReplay::PubRel(_) => None,
        })
        .collect()
}

fn topic_filter(filter: &str) -> TopicFilter {
    TopicFilter {
        filter: filter.to_string(),
        options: SubscriptionOptions {
            qos: QoS::AtLeastOnce,
            no_local: false,
            retain_as_published: false,
            retain_handling: 0,
        },
    }
}

fn subscribe_packet(filters: &[&str]) -> SubscribePacket {
    SubscribePacket {
        packet_id: 0,
        properties: Properties::default(),
        filters: filters.iter().map(|filter| topic_filter(filter)).collect(),
        protocol_version: 5,
    }
}

fn unsubscribe_packet(filters: &[&str]) -> UnsubscribePacket {
    UnsubscribePacket {
        packet_id: 0,
        properties: Properties::default(),
        filters: filters.iter().map(|filter| filter.to_string()).collect(),
        protocol_version: 5,
    }
}

#[test]
fn direct_test_client_creation() {
    let client = create_test_client();
    assert!(!client.is_connected());
}

#[test]
fn mod_test_client_creation() {
    let client = create_test_client();
    assert!(!client.is_connected());
    assert!(client.start_background_tasks(false, false).is_err());
}

#[test]
fn direct_test_connect_success() {
    let client = create_test_client();
    assert!(!client.is_connected());

    let connect_packet = client.build_connect_packet(None);
    assert_eq!(connect_packet.client_id, "test-client");
    assert_eq!(connect_packet.keep_alive, 60);
    assert!(connect_packet.clean_start);
}

#[test]
fn mod_test_connect_success() {
    let mut client = create_test_client();
    let connect_packet = client.build_connect_packet(None);
    assert_eq!(connect_packet.client_id, "test-client");
    assert_eq!(connect_packet.keep_alive, 60);
    assert!(connect_packet.clean_start);
    connect_to(&mut client, connack(false));
    assert!(client.is_connected());
}

#[test]
fn direct_test_publish_not_connected() {
    let mut client = create_test_client();
    client.set_queue_on_disconnect(false);
    let result = client.publish(
        "test/topic".to_string(),
        b"test payload".to_vec(),
        PublishOptions::default(),
        0,
    );
    assert!(matches!(result, Err(MqttError::NotConnected)));
}

#[test]
fn mod_test_publish_not_connected() {
    let mut client = create_test_client();
    let result = client.stage_publish(
        "test/topic".to_string(),
        b"test payload".to_vec(),
        PublishOptions::default(),
    );
    assert!(matches!(result, Err(MqttError::NotConnected)));
}

#[test]
fn test_check_publish_size_enforces_negotiated_limit() {
    let mut client = create_test_client();
    client.session.server_maximum_packet_size = Some(1024);
    let template = PublishPacket {
        topic_name: "test/flush".to_string(),
        payload: Arc::new(Vec::new()),
        qos: QoS::AtLeastOnce,
        retain: false,
        dup: true,
        packet_id: Some(SIZE_PROBE_PACKET_ID),
        properties: Properties::default(),
        protocol_version: 5,
        stream_id: None,
    };

    let within_limit = PublishPacket {
        payload: Arc::new(vec![0u8; 64]),
        ..template.clone()
    };
    assert!(client.check_publish_size(&within_limit).is_ok());

    let oversized = PublishPacket {
        payload: Arc::new(vec![0u8; 4096]),
        ..template
    };
    assert!(matches!(
        client.check_publish_size(&oversized),
        Err(MqttError::PacketTooLarge { .. })
    ));
}

#[test]
fn test_oversized_publish_rejected_at_enqueue_while_disconnected() {
    let mut client = create_test_client();
    client.set_queue_on_disconnect(true);
    client.session.server_maximum_packet_size = Some(1024);
    assert!(!client.is_connected());

    let oversized = client.stage_publish(
        "test/flush".to_string(),
        vec![0u8; 4096],
        qos(QoS::AtLeastOnce),
    );
    assert!(
        matches!(oversized, Err(MqttError::PacketTooLarge { .. })),
        "oversized publish must be rejected at enqueue time, not silently queued: {oversized:?}"
    );
    assert!(
        client.queued_messages.is_empty(),
        "a rejected publish must not be queued"
    );

    let within = client.stage_publish(
        "test/flush".to_string(),
        vec![0u8; 64],
        qos(QoS::AtLeastOnce),
    );
    let Ok(StagedPublish::Queued(handle)) = within else {
        panic!("within-limit publish must queue: {within:?}");
    };
    assert!(
        !client.queued_messages.is_empty(),
        "within-limit publish must be queued"
    );
    assert_eq!(
        client.ledger.try_outcome(handle),
        None,
        "a queued publish must not report an outcome before it is flushed"
    );
}

#[test]
fn direct_test_subscribe_not_connected() {
    let mut client = create_test_client();
    let result = client.subscribe_with_callback(subscribe_packet(&["test/+"]), 0, false);
    assert!(matches!(result, Err(MqttError::NotConnected)));
}

#[test]
fn mod_test_subscribe_not_connected() {
    let mut client = create_test_client();
    let result = client.subscribe_with_callback(subscribe_packet(&["test/+"]), 0, true);
    assert!(matches!(result, Err(MqttError::NotConnected)));
}

#[test]
fn test_subscribe_internal_can_skip_persisting_stored_subscriptions() {
    let mut stored = Vec::new();
    let filters = vec![topic_filter("test/topic")];

    maybe_store_subscriptions(
        &mut stored,
        &filters,
        None,
        7,
        SubscriptionPersistence::Skip,
    );
    assert!(stored.is_empty());

    maybe_store_subscriptions(
        &mut stored,
        &filters,
        None,
        7,
        SubscriptionPersistence::Persist,
    );
    assert_eq!(stored.len(), 1);
    assert_eq!(stored[0].topic_filter, "test/topic");
    assert_eq!(stored[0].callback_id, 7);
}

#[test]
fn direct_test_unsubscribe_not_connected() {
    let mut client = create_test_client();
    let result = client.unsubscribe(unsubscribe_packet(&["test/+"]), false);
    assert!(matches!(result, Err(MqttError::NotConnected)));
}

#[test]
fn mod_test_unsubscribe_not_connected() {
    let mut client = create_test_client();
    let result = client.unsubscribe(unsubscribe_packet(&["test/+"]), true);
    assert!(matches!(result, Err(MqttError::NotConnected)));
}

#[test]
fn direct_test_disconnect_not_connected() {
    let mut client = create_test_client();
    assert!(matches!(client.disconnect(), Err(MqttError::NotConnected)));
}

#[test]
fn mod_test_disconnect_not_connected() {
    let mut client = create_test_client();
    assert!(matches!(
        client.disconnect_with_packet(false),
        Err(MqttError::NotConnected)
    ));
}

#[test]
fn direct_test_packet_id_generation() {
    let mut client = create_test_client();
    let id1 = client.generator.next();
    let id2 = client.generator.next();
    let id3 = client.generator.next();
    assert_eq!(id1, 1);
    assert_eq!(id2, 2);
    assert_eq!(id3, 3);
}

#[test]
fn mod_test_packet_id_generation() {
    let mut client = create_test_client();
    let id1 = client.allocate_packet_id().unwrap().packet_id();
    let id2 = client.allocate_packet_id().unwrap().packet_id();
    let id3 = client.allocate_packet_id().unwrap().packet_id();
    assert_eq!(id1, 1);
    assert_eq!(id2, 2);
    assert_eq!(id3, 3);
}

fn will_client() -> DirectClientInner {
    let mut options = ConnectOptions::new("test-client".to_string());
    options.clean_start = true;
    options.keep_alive = 60;
    let mut properties = Properties::default();
    properties.will_delay_interval = Some(5);
    options.will = Some(WillMessage {
        topic: "test/will".to_string(),
        payload: Arc::new(b"offline".to_vec()),
        qos: QoS::AtLeastOnce,
        retain: true,
        properties,
    });
    DirectClientInner::new(options)
}

#[test]
fn direct_test_connect_packet_with_will() {
    let connect_packet = will_client().build_connect_packet(None);
    assert!(connect_packet.will.is_some());
    let will = connect_packet.will.unwrap();
    assert_eq!(will.topic, "test/will");
    assert_eq!(&will.payload[..], b"offline");
    assert_eq!(will.qos, QoS::AtLeastOnce);
    assert!(will.retain);
}

#[test]
fn mod_test_connect_packet_with_will() {
    let connect_packet = will_client().build_connect_packet(None);
    assert_eq!(connect_packet.will_properties.will_delay_interval, Some(5));
    let will = connect_packet.will.unwrap();
    assert_eq!(will.topic, "test/will");
    assert_eq!(&will.payload[..], b"offline");
    assert_eq!(will.qos, QoS::AtLeastOnce);
    assert!(will.retain);
}

fn credentials_client() -> DirectClientInner {
    let mut options = ConnectOptions::new("test-client".to_string());
    options.clean_start = true;
    options.keep_alive = 60;
    options.username = Some("user123".to_string());
    options.password = Some(Arc::new(b"pass123".to_vec()));
    DirectClientInner::new(options)
}

#[test]
fn direct_test_connect_packet_with_auth() {
    let connect_packet = credentials_client().build_connect_packet(None);
    assert_eq!(connect_packet.username, Some("user123".to_string()));
    assert_eq!(connect_packet.password, Some(Arc::new(b"pass123".to_vec())));
}

#[test]
fn mod_test_connect_packet_with_auth() {
    let connect_packet = credentials_client().build_connect_packet(Some(Ok(None)));
    assert_eq!(connect_packet.username, Some("user123".to_string()));
    assert_eq!(connect_packet.password, Some(Arc::new(b"pass123".to_vec())));
}

#[test]
fn direct_test_session_state_sharing() {
    let client = create_test_client();
    assert_eq!(client.session.client_id, "test-client");
}

#[test]
fn mod_test_session_state_sharing() {
    let mut client = create_test_client();
    assert_eq!(client.session.client_id, "test-client");
    client.session.store_pubrel(1);
    assert_eq!(client.session.client_id, "test-client");
}

#[test]
fn stale_quota_claim_does_not_exceed_receive_maximum_after_reconnect() {
    let mut client = resuming_client("stale-quota");
    connect_to(&mut client, receive_maximum_one(false));
    let b = staged(&mut client, "t/b", QoS::AtLeastOnce);
    let stale_claim = claim_quota(&mut client, &b);

    connect_to(&mut client, receive_maximum_one(true));

    assert_eq!(send_with_claim(&mut client, b, stale_claim).0, 1);
    assert_eq!(client.session.flow.in_flight_count(), 1);

    let c = staged(&mut client, "t/c", QoS::AtLeastOnce);
    let number = client.session.flow.quota_number();
    assert!(
        matches!(
            client
                .session
                .flow
                .take_slot(number, c.packet.packet_id.unwrap(), 0),
            Permit::Empty
        ),
        "client exceeded server Receive Maximum 1 on the new connection"
    );
}

#[test]
fn publish_waiting_across_reconnect_conforms_to_new_connection() {
    let mut client = resuming_client("reconform");
    connect_to(&mut client, receive_maximum_one(false));

    let a = staged(&mut client, "t/a", QoS::AtLeastOnce);
    let a_claim = claim_quota(&mut client, &a);
    assert_eq!(send_with_claim(&mut client, a, a_claim).0, 0);

    let b = staged(&mut client, "t/b", QoS::ExactlyOnce);
    let b_id = b.packet.packet_id.unwrap();
    let AcquireStart::Wait { quota, .. } = client.session.flow.begin_acquire() else {
        panic!("b must wait for Receive Maximum 1");
    };
    assert!(!client.session.flow.can_send());

    let mut replay = connect_to(&mut client, maximum_qos(1)).unwrap();
    assert!(matches!(
        client
            .session
            .flow
            .acquire_shared_send_quota(quota, AcquireEvent::Closed, b_id, 0),
        AcquireStep::Again
    ));
    assert_eq!(
        replayed(&mut client, &mut replay),
        vec![0x3A],
        "the replayed QoS 1 publish goes first"
    );
    let (restages, first, _) = send_with_claim(&mut client, b, None);
    assert_eq!(restages, 1);
    assert_eq!(first, 0x32, "b is downgraded to the new Maximum QoS 1");
}

#[test]
fn stale_flush_task_does_not_write_after_reconnect() {
    let mut client = resuming_client("stale-flush");
    connect_to(&mut client, connack(false));
    client.set_connected(false);
    for topic in ["t/a", "t/b"] {
        queued(&mut client, topic, QoS::AtLeastOnce);
    }

    let mut stale = connect_to(&mut client, receive_maximum_one(true)).unwrap();
    assert_eq!(
        replayed(&mut client, &mut stale).len(),
        1,
        "setup: a flushed, b waits for quota"
    );
    let a = unacked_packet_ids(&client)[0];
    client.session.flow.acknowledge(a).unwrap();

    connect_to(&mut client, connack(true));
    assert!(
        matches!(client.flush_offline_queue(&stale, 0), FlushStep::Stop),
        "the flush task of the replaced connection wrote after the reconnect"
    );
}

#[test]
fn abandoned_qos2_replay_id_is_quarantined_until_session_is_lost() {
    let mut client = resuming_client("quarantine");
    connect_to(&mut client, connack(false));
    client.set_connected(false);
    let handle = queued(&mut client, "t/two", QoS::ExactlyOnce);

    let mut replay = connect_to(&mut client, connack(true)).unwrap();
    assert_eq!(replayed(&mut client, &mut replay), vec![0x34]);
    let abandoned = unacked_packet_ids(&client)[0];

    let mut replay = connect_to(&mut client, maximum_qos(1)).unwrap();
    assert!(
        replayed(&mut client, &mut replay).is_empty(),
        "QoS 2 replay after Maximum QoS 1"
    );
    assert!(unacked_packet_ids(&client).is_empty());
    assert_eq!(
        client.ledger.try_outcome(handle),
        Some(PublishOutcome::Indeterminate(
            IndeterminateReason::ReplayNotConforming
        ))
    );

    let mut handed_out = false;
    for _ in 0..u16::MAX {
        let reservation = client.allocate_packet_id().unwrap();
        handed_out |= reservation.packet_id() == abandoned;
        client.outbound_ids.release(reservation);
    }
    assert!(
        !handed_out,
        "a quarantined QoS 2 identifier was reallocated"
    );

    connect_to(&mut client, connack(false));
    let mut released = false;
    for _ in 0..u16::MAX {
        let reservation = client.allocate_packet_id().unwrap();
        released |= reservation.packet_id() == abandoned;
        client.outbound_ids.release(reservation);
    }
    assert!(released, "Session Present 0 must release the quarantine");
}

fn ack_processed_while_disconnecting(
    level: QoS,
    acks: fn(u16) -> Vec<Packet>,
) -> Option<PublishOutcome> {
    let mut client = resuming_client("ack-abort");
    connect_to(&mut client, connack(false));
    client.set_connected(false);
    let handle = queued(&mut client, "t/a", level);
    let mut replay = connect_to(&mut client, connack(true)).unwrap();
    assert_eq!(replayed(&mut client, &mut replay).len(), 1);
    let id = unacked_packet_ids(&client)[0];
    for ack in acks(id) {
        match client.process_packet(ack, true).unwrap() {
            PacketStep::Done => {}
            PacketStep::Incoming(Packet::PubRec(ack)) => {
                let release = client.handle_pubrec_outgoing(ack.packet_id);
                assert_eq!(release.packet_id, id);
                client.finish_pubrec(id, Ok(())).unwrap();
            }
            PacketStep::Incoming(Packet::PubComp(ack)) => {
                client.handle_pubcomp_outgoing(ack.packet_id);
            }
            other => panic!("unexpected {other:?}"),
        }
    }
    client.disconnect().unwrap();
    connect_to(&mut client, connack(true));
    client.ledger.try_outcome(handle)
}

#[test]
fn puback_processed_while_disconnecting_settles_the_handle() {
    assert!(matches!(
        ack_processed_while_disconnecting(QoS::AtLeastOnce, |id| vec![Packet::PubAck(
            AckPacket::new(id, ReasonCode::Success)
        )]),
        Some(PublishOutcome::Delivered(Delivery::AtLeastOnce { .. }))
    ));
}

#[test]
fn refused_pubrec_processed_while_disconnecting_settles_the_handle() {
    assert_eq!(
        ack_processed_while_disconnecting(QoS::ExactlyOnce, |id| vec![Packet::PubRec(
            AckPacket::new(id, ReasonCode::UnspecifiedError)
        )]),
        Some(PublishOutcome::Rejected(PublishRejection::Refused(
            ReasonCode::UnspecifiedError
        )))
    );
}

#[test]
fn pubcomp_processed_while_disconnecting_settles_the_handle() {
    assert!(matches!(
        ack_processed_while_disconnecting(QoS::ExactlyOnce, |id| vec![
            Packet::PubRec(AckPacket::new(id, ReasonCode::Success)),
            Packet::PubComp(AckPacket::new(id, ReasonCode::Success)),
        ]),
        Some(PublishOutcome::Delivered(Delivery::ExactlyOnce { .. }))
    ));
}

#[test]
fn publish_staged_before_reconnect_is_restaged_even_with_a_current_quota_claim() {
    let mut client = resuming_client("epoch-only");
    connect_to(&mut client, connack(false));
    let ready = staged(&mut client, "t/e", QoS::ExactlyOnce);

    connect_to(&mut client, maximum_qos(1));
    let current_claim = claim_quota(&mut client, &ready);
    let (restages, first, _) = send_with_claim(&mut client, ready, current_claim);
    assert_eq!(restages, 1);
    assert_eq!(
        first, 0x32,
        "a publish staged on the previous connection must be conformed to the new Maximum QoS 1"
    );
}

#[test]
fn downgraded_message_is_requeued_when_the_connection_ends_before_it_is_written() {
    let mut client = resuming_client("downgrade-requeue");
    connect_to(&mut client, connack(false));
    client.set_connected(false);
    let handle = queued(&mut client, "t/one", QoS::AtLeastOnce);

    let mut replay = connect_to(&mut client, maximum_qos(0)).unwrap();
    assert!(matches!(
        client.replay_session_state(&mut replay, 0),
        ReplayStep::Done
    ));
    let FlushStep::WriteDowngraded(packet, message) = client.flush_offline_queue(&replay, 0)
    else {
        panic!("the message is downgraded");
    };
    assert_eq!(first_byte(&packet), 0x30);
    assert!(!client.write_downgraded(message, Written::NotAttempted));

    let mut replay = connect_to(&mut client, connack(true)).unwrap();
    assert_eq!(
        replayed(&mut client, &mut replay),
        vec![0x32],
        "the message that never reached the wire is re-queued and sent on the next connection"
    );
    assert_eq!(client.ledger.try_outcome(handle), None);
}

#[test]
fn failed_downgraded_write_has_an_unknown_outcome() {
    let mut client = resuming_client("downgrade-lost");
    client.set_queue_on_disconnect(true);
    let handle = queued(&mut client, "t/one", QoS::AtLeastOnce);
    client.options.resume_existing_session = true;
    let replay = connect_to(&mut client, maximum_qos(0)).unwrap();
    let FlushStep::WriteDowngraded(_, message) = client.flush_offline_queue(&replay, 0) else {
        panic!("the message is downgraded");
    };
    assert!(!client.write_downgraded(message, Written::Failed));
    assert_eq!(
        client.ledger.try_outcome(handle),
        Some(PublishOutcome::Indeterminate(
            IndeterminateReason::ConnectionLost
        ))
    );
}

#[test]
fn stored_publish_whose_write_fails_is_returned_detached() {
    let mut client = resuming_client("detached");
    connect_to(&mut client, connack(false));
    let ready = staged(&mut client, "t/d", QoS::AtLeastOnce);
    let packet_id = ready.packet.packet_id.unwrap();
    let claim = claim_quota(&mut client, &ready);
    let Ok(TransmitStep::Write(out)) = client.transmit_publish(ready, claim) else {
        panic!("the packet is written");
    };
    let failed = Err(MqttError::ConnectionError("closed".to_string()));
    let Ok(Transmitted::Detached(handle)) = client.finish_transmit(&out, failed) else {
        panic!("a stored publish whose write failed must come back as a pending handle");
    };
    assert_eq!(client.ledger.try_outcome(handle), None);
    assert_eq!(unacked_packet_ids(&client), vec![packet_id]);
}

#[test]
fn disconnect_while_already_disconnected_closes_send_quota() {
    let mut client = resuming_client("disconnect-quota");
    connect_to(&mut client, receive_maximum_one(false));
    let first = staged(&mut client, "t/1", QoS::AtLeastOnce);
    let claim = claim_quota(&mut client, &first);
    send_with_claim(&mut client, first, claim);
    let AcquireStart::Wait { quota, .. } = client.session.flow.begin_acquire() else {
        panic!("setup: the send quota is exhausted");
    };
    assert!(matches!(
        client.session.flow.take_permit(quota),
        Permit::Empty
    ));

    client.set_connected(false);
    assert!(matches!(client.disconnect(), Err(MqttError::NotConnected)));
    assert!(matches!(
        client
            .session
            .flow
            .acquire_shared_send_quota(quota, AcquireEvent::Closed, 4242, 0),
        AcquireStep::Done(Err(MqttError::NotConnected))
    ));
}

fn mismatched_acknowledgement(level: QoS, ack: fn(u16) -> Packet) -> (Option<ReasonCode>, bool) {
    let mut client = resuming_client("ack-mismatch");
    connect_to(&mut client, connack(false));
    let ready = staged(&mut client, "t/m", level);
    let packet_id = ready.packet.packet_id.unwrap();
    let claim = claim_quota(&mut client, &ready);
    send_with_claim(&mut client, ready, claim);
    let error = client.process_packet(ack(packet_id), true).unwrap_err();
    let epoch = client.connection_epoch;
    let closing = client.packet_reader_failed(epoch, &error);
    (
        closing.disconnect,
        unacked_packet_ids(&client).contains(&packet_id),
    )
}

#[test]
fn puback_for_qos2_publish_is_a_protocol_error() {
    let (disconnect, still_held) = mismatched_acknowledgement(QoS::ExactlyOnce, |id| {
        Packet::PubAck(AckPacket::new(id, ReasonCode::Success))
    });
    assert_eq!(disconnect, Some(ReasonCode::ProtocolError));
    assert!(
        still_held,
        "a mismatched PUBACK must not release the QoS 2 state"
    );
}

#[test]
fn pubcomp_for_qos1_publish_is_a_protocol_error() {
    let (disconnect, still_held) = mismatched_acknowledgement(QoS::AtLeastOnce, |id| {
        Packet::PubComp(AckPacket::new(id, ReasonCode::Success))
    });
    assert_eq!(disconnect, Some(ReasonCode::ProtocolError));
    assert!(
        still_held,
        "a mismatched PUBCOMP must not release the QoS 1 state"
    );
}

#[test]
fn refused_pubrec_after_pubrel_is_a_protocol_error() {
    let mut client = resuming_client("pubrec-after-pubrel");
    connect_to(&mut client, connack(false));
    let ready = staged(&mut client, "t/r", QoS::ExactlyOnce);
    let packet_id = ready.packet.packet_id.unwrap();
    let claim = claim_quota(&mut client, &ready);
    send_with_claim(&mut client, ready, claim);
    client.handle_pubrec_outgoing(packet_id);
    client.finish_pubrec(packet_id, Ok(())).unwrap();

    let refusal = Packet::PubRec(AckPacket::new(packet_id, ReasonCode::UnspecifiedError));
    let error = client.process_packet(refusal, true).unwrap_err();
    let epoch = client.connection_epoch;
    assert_eq!(
        client.packet_reader_failed(epoch, &error).disconnect,
        Some(ReasonCode::ProtocolError),
        "an error PUBREC for an identifier already released with PUBREL is a protocol error"
    );
    assert_eq!(
        client.session.outbound_stage(packet_id),
        Some(OutboundStage::AwaitingPubComp),
        "the PUBREL state must be left untouched"
    );
}

#[test]
fn refused_pubrec_that_was_not_applied_keeps_the_publish_unsettled() {
    let mut client = resuming_client("pubrec-abort");
    connect_to(&mut client, connack(false));
    let ready = staged(&mut client, "t/a", QoS::ExactlyOnce);
    let claim = claim_quota(&mut client, &ready);
    let (_, _, Transmitted::InFlight(handle)) = send_with_claim(&mut client, ready, claim) else {
        panic!("live publish must be in flight");
    };
    client.disconnect().unwrap();
    let mut replay = connect_to(&mut client, connack(true)).unwrap();
    assert_eq!(client.ledger.try_outcome(handle), None);
    assert_eq!(replayed(&mut client, &mut replay), vec![0x3C]);
}

#[test]
fn packet_id_allocation_does_not_scan_the_offline_queue() {
    let mut client = resuming_client("offline");
    let mut held: Vec<IdReservation> = (1..u16::MAX)
        .filter_map(|packet_id| client.outbound_ids.claim(packet_id))
        .collect();
    assert_eq!(held.len(), usize::from(u16::MAX - 1));

    let last = client.allocate_packet_id();
    let exhausted = client.allocate_packet_id();
    assert_eq!(
        last.as_ref().ok().map(IdReservation::packet_id),
        Some(u16::MAX)
    );
    assert!(matches!(exhausted, Err(MqttError::PacketIdExhausted)));

    let first = held.remove(0);
    client.outbound_ids.release(first);
    assert_eq!(
        client.allocate_packet_id().ok().map(|r| r.packet_id()),
        Some(1)
    );
}

#[test]
fn lost_session_is_sent_anew_with_its_identifiers() {
    let mut client = resuming_client("lost");
    connect_to(&mut client, connack(false));
    let ready = staged(&mut client, "t/1", QoS::AtLeastOnce);
    let id = ready.packet.packet_id.unwrap();
    let claim = claim_quota(&mut client, &ready);
    let (_, _, Transmitted::InFlight(handle)) = send_with_claim(&mut client, ready, claim) else {
        panic!("live publish must be in flight");
    };
    let mut replay = connect_to(&mut client, connack(false)).unwrap();
    assert!(unacked_packet_ids(&client).is_empty());
    assert_eq!(replayed(&mut client, &mut replay), vec![0x32]);
    assert_eq!(unacked_packet_ids(&client), vec![id]);
    assert_eq!(client.ledger.try_outcome(handle), None);
}

#[test]
fn refused_connection_names_its_reason() {
    let mut client = resuming_client("refused");
    let mut moved = ConnAckPacket::new(false, ReasonCode::ServerMoved);
    moved.properties.server_reference = Some("other.example".to_string());
    assert!(matches!(
        client.connect(moved, 0),
        ConnectStep::Fail(MqttError::ConnectionRefused(ReasonCode::ServerMoved))
    ));
    assert_eq!(client.server_redirect.as_deref(), Some("other.example"));
    assert!(matches!(
        client.connect(ConnAckPacket::new(false, ReasonCode::NotAuthorized), 0),
        ConnectStep::Fail(MqttError::ConnectionRefused(ReasonCode::NotAuthorized))
    ));
    assert!(matches!(
        client.connect(connack(true), 0),
        ConnectStep::Reject {
            disconnect: ReasonPacket {
                reason_code: ReasonCode::ProtocolError,
                ..
            },
            error: MqttError::ProtocolError(_)
        }
    ));
    let mut none = connack(false);
    none.properties.receive_maximum = Some(0);
    assert!(matches!(
        client.connect(none, 0),
        ConnectStep::Fail(MqttError::ProtocolError(_))
    ));
}

#[test]
fn connack_is_taken_over() {
    let mut client = resuming_client("");
    let mut packet = connack(false);
    packet.properties.assigned_client_identifier = Some("assigned".to_string());
    packet.properties.server_keep_alive = Some(30);
    packet.properties.maximum_packet_size = Some(64);
    packet.properties.topic_alias_maximum = Some(3);
    packet.properties.retain_available = Some(0);
    connect_to(&mut client, packet);
    assert_eq!(client.session.client_id, "assigned");
    assert_eq!(client.negotiated_keep_alive(), 30);
    assert_eq!(client.session.server_maximum_packet_size, Some(64));
    assert!(!client.policy.retain_available);
    assert!(matches!(
        client.stage_publish(
            "t".to_string(),
            Vec::new(),
            PublishOptions {
                retain: true,
                ..Default::default()
            }
        ),
        Err(MqttError::RetainNotSupported)
    ));
    assert!(matches!(
        client.stage_publish("t".to_string(), vec![0; 100], qos(QoS::AtMostOnce)),
        Err(MqttError::PacketTooLarge { .. })
    ));
    assert_eq!(
        client
            .start_background_tasks(true, false)
            .unwrap()
            .keepalive,
        Some(30)
    );
}

#[test]
fn handshake_goes_on_until_connack() {
    let mut options = ConnectOptions::new("auth".to_string());
    options.properties.authentication_method = Some("PLAIN".to_string());
    let client = DirectClientInner::new(options);
    let mut challenge = ReasonPacket {
        reason_code: ReasonCode::ContinueAuthentication,
        properties: Properties::default(),
    };
    challenge.properties.authentication_method = Some("PLAIN".to_string());
    assert!(matches!(
        client.wait_for_connack(Packet::Auth(challenge), true),
        Ok(HandshakeStep::Challenge { method, data: None }) if method == "PLAIN"
    ));
    assert!(matches!(
        client.wait_for_connack(Packet::ConnAck(connack(false)), true),
        Ok(HandshakeStep::Answered(_))
    ));
    assert!(client.wait_for_connack(Packet::PingResp, true).is_err());
}

#[test]
fn subscription_is_granted_and_given_up() {
    let mut client = resuming_client("sub");
    connect_to(&mut client, connack(false));
    let packet = client
        .subscribe_with_callback(subscribe_packet(&["a/+", "b"]), 4, true)
        .unwrap();
    assert_ne!(packet.packet_id, 0);
    let suback = client
        .wait_for_suback(
            packet.packet_id,
            Answer::Came(SubAckPacket {
                packet_id: packet.packet_id,
                reason_codes: vec![ReasonCode::GrantedQoS1, ReasonCode::NotAuthorized],
                properties: Properties::default(),
            }),
        )
        .unwrap();
    let granted = client.finish_subscribe(&packet, &suback);
    assert!(matches!(
        granted,
        Err(MqttError::SubscriptionDenied(ReasonCode::NotAuthorized))
    ));
    let unsubscribe = client
        .unsubscribe(unsubscribe_packet(&["a/+"]), true)
        .unwrap();
    client
        .finish_unsubscribe(
            &unsubscribe,
            Answer::Came(UnsubAckPacket {
                packet_id: unsubscribe.packet_id,
                reason_codes: vec![ReasonCode::Success],
                properties: Properties::default(),
            }),
        )
        .unwrap();
    assert!(client
        .stored_subscriptions
        .iter()
        .all(|stored| stored.topic_filter != "a/+"));
    assert!(matches!(
        client.wait_for_suback(9, Answer::TimedOut),
        Err(MqttError::Timeout)
    ));
}

#[test]
fn acknowledged_publish_waits_for_its_answer() {
    let mut client = resuming_client("older");
    connect_to(&mut client, connack(false));
    let Ok(PublishStart::Send { packet, wait: true }) =
        client.publish("t".to_string(), b"x".to_vec(), qos(QoS::AtLeastOnce), 0)
    else {
        panic!("the packet is sent");
    };
    let id = packet.packet_id.unwrap();
    let answer = Packet::PubAck(AckPacket::new(id, ReasonCode::Success));
    assert!(client.session.is_outbound(id));
    match client.packet_reader_task_with_responses(answer) {
        ResponseStep::Published {
            packet_id,
            reason_code,
        } => assert_eq!((packet_id, reason_code), (id, ReasonCode::Success)),
        other => panic!("unexpected {other:?}"),
    }
    assert!(!client.session.is_outbound(id));
    assert!(client
        .wait_for_acknowledgment(
            QoS::AtLeastOnce,
            Some(id),
            Answer::Came(ReasonCode::Success)
        )
        .is_ok());
    assert!(client
        .wait_for_acknowledgment(
            QoS::AtLeastOnce,
            Some(id),
            Answer::Came(ReasonCode::QuotaExceeded)
        )
        .is_err());
}

#[test]
fn publish_fails_as_it_says() {
    let mut client = resuming_client("errors");
    let mut answer = connack(false);
    answer.properties.receive_maximum = Some(1);
    connect_to(&mut client, answer);
    assert!(matches!(
        client.publish("a/#".to_string(), Vec::new(), qos(QoS::AtMostOnce), 0),
        Err(MqttError::InvalidTopicName(_))
    ));
    assert!(matches!(
        client.publish(String::new(), Vec::new(), qos(QoS::AtMostOnce), 0),
        Err(MqttError::InvalidTopicName(_))
    ));
    let Ok(PublishStart::Send { packet, .. }) =
        client.publish("t".to_string(), b"1".to_vec(), qos(QoS::AtLeastOnce), 0)
    else {
        panic!("the packet is sent");
    };
    assert!(matches!(
        client.publish("t".to_string(), b"2".to_vec(), qos(QoS::AtLeastOnce), 0),
        Err(MqttError::FlowControlExceeded)
    ));
    let id = packet.packet_id.unwrap();
    let answer = Packet::PubAck(AckPacket::new(id, ReasonCode::Success));
    client.packet_reader_task_with_responses(answer);
    let Ok(PublishStart::Send { packet, .. }) =
        client.publish("t".to_string(), b"3".to_vec(), qos(QoS::AtLeastOnce), 0)
    else {
        panic!("the packet is sent");
    };
    assert_ne!(packet.packet_id, Some(id));
}

#[test]
fn publish_fails_when_every_identifier_is_taken() {
    let mut client = create_test_client();
    client.set_queue_on_disconnect(true);
    for _ in 0..65_535 {
        assert!(client.allocate_packet_id().is_ok());
    }
    assert!(matches!(
        client.publish("t".to_string(), Vec::new(), qos(QoS::AtLeastOnce), 0),
        Err(MqttError::PacketIdExhausted)
    ));
}

#[test]
fn permit_of_an_earlier_connection_stays_void() {
    let mut client = resuming_client("stale");
    connect_to(&mut client, connack(false));
    let first = client.session.flow.quota_number();
    assert_eq!(client.session.flow.take_permit(first), Permit::Taken);
    for _ in 0..3 {
        connect_to(&mut client, connack(true));
        assert_ne!(client.session.flow.quota_number(), first);
        assert!(!client.session.flow.claim_send_quota(first, 9, 0));
    }
}

#[test]
fn publishes_have_handles_of_their_own() {
    let mut client = resuming_client("handles");
    let mut handles = Vec::new();
    for _ in 0..3 {
        let Ok(StagedPublish::Queued(handle)) =
            client.stage_publish("t".to_string(), b"x".to_vec(), qos(QoS::AtLeastOnce))
        else {
            panic!("the message is queued");
        };
        assert!(!handles.contains(&handle));
        handles.push(handle);
    }
}

#[test]
fn pings_come_before_the_keep_alive_ends() {
    assert_eq!(ping_millis(60), 45_000);
    for secs in [1, 2, 10, 65_535] {
        assert!(ping_millis(secs) < secs * 1_000);
    }
}

#[test]
fn datagrams_need_a_connection_that_takes_them() {
    assert!(DirectClientInner::datagrams_available(true, Some(1200)));
    assert!(!DirectClientInner::datagrams_available(false, Some(1200)));
    assert!(!DirectClientInner::datagrams_available(true, None));
    assert_eq!(DirectClientInner::max_datagram_size(true, Some(1200)), Some(1200));
    assert_eq!(DirectClientInner::max_datagram_size(false, Some(1200)), None);
    assert!(DirectClientInner::send_datagram(true, true).is_ok());
    assert!(DirectClientInner::send_datagram(false, true).is_err());
    assert!(DirectClientInner::send_datagram(true, false).is_err());
    let mut publish = PublishPacket::new("t".to_string(), Vec::new(), QoS::AtMostOnce);
    assert!(DirectClientInner::send_publish_as_datagram(&publish, true, true).is_ok());
    assert_eq!(
        publish_route(&publish, Some(1200), Some(StreamStrategy::DataPerTopic)),
        PublishRoute::Datagram
    );
    publish.qos = QoS::AtLeastOnce;
    assert!(DirectClientInner::send_publish_as_datagram(&publish, true, true).is_err());
    assert_eq!(
        publish_route(&publish, Some(1200), Some(StreamStrategy::DataPerTopic)),
        PublishRoute::TopicStream
    );
    assert_eq!(publish_route(&publish, None, None), PublishRoute::Control);
    assert!(DirectClientInner::send_packet(true).is_ok());
    assert!(matches!(DirectClientInner::send_packet(false), Err(MqttError::NotConnected)));
    assert!(subscribe_on_flow(
        &subscribe_packet(&["a"]),
        Some(StreamStrategy::DataPerSubscription)
    ));
}

#[test]
fn unasked_problem_information_is_refused() {
    let mut ack = AckPacket::new(1, ReasonCode::Success);
    assert!(check_problem_information(&Packet::PubAck(ack), false).is_ok());
    ack = AckPacket::new(1, ReasonCode::Success);
    ack.properties.reason_string = Some("because".to_string());
    let packet = Packet::PubAck(ack);
    assert!(check_problem_information(&packet, true).is_ok());
    assert!(matches!(
        check_problem_information(&packet, false),
        Err(MqttError::ProtocolError(_))
    ));
}

#[test]
fn server_disconnect_ends_the_reader() {
    let mut client = resuming_client("closing");
    connect_to(&mut client, connack(false));
    let packet = Packet::Disconnect(ReasonPacket {
        reason_code: ReasonCode::ServerShuttingDown,
        properties: Properties::default(),
    });
    assert!(is_error_disconnect(&packet));
    let error = MqttError::ServerDisconnect(ReasonCode::ServerShuttingDown);
    let epoch = client.connection_epoch;
    let closing = client.packet_reader_failed(epoch, &error);
    assert_eq!(closing.disconnect, None);
    assert_eq!(
        closing.reason,
        DisconnectReason::ServerDisconnect(ReasonCode::ServerShuttingDown)
    );
}

#[test]
fn flow_header_is_read_or_left_alone() {
    let types = FlowTypes {
        control: 0x11,
        client_data: 0x12,
        server_data: 0x13,
    };
    let (mut reader, start) = FlowHeaderReader::new(types);
    assert!(matches!(start, HeaderStep::Read(n) if n >= 1));
    let HeaderStep::NoHeader(result) = reader.try_read_server_flow_header(Some(vec![0x30])) else {
        panic!("a packet is no header");
    };
    assert_eq!(result.leftover, vec![0x30]);
    assert_eq!(result.flow_id, None);

    let (mut reader, _) = FlowHeaderReader::new(types);
    let HeaderStep::Read(more) = reader.try_read_server_flow_header(Some(vec![0x13])) else {
        panic!("the header goes on");
    };
    assert_eq!(more, 31);
    let HeaderStep::Decode(bytes) = reader.try_read_server_flow_header(Some(vec![7; 31])) else {
        panic!("the header is complete");
    };
    assert_eq!(bytes.len(), 32);

    let flags = FlowFlags::default();
    let id = FlowId::server(1);
    let read = server_flow(
        FlowHeader::ServerData {
            flow_id: id,
            expire_interval: 9,
            flags,
        },
        vec![1, 2],
    );
    assert_eq!(read.flow_id, Some(id));
    assert_eq!(read.leftover, vec![1, 2]);
    assert_eq!(
        recover_flows(&vec![(id, FlowFlags { clean: 1, ..flags })], true),
        vec![(id, FlowFlags { clean: 0, ..flags })]
    );
    assert!(recover_flows(&vec![(id, flags)], false).is_empty());
}

#[test]
fn data_stream_fails_the_connection_only_for_its_own_faults() {
    let mut client = resuming_client("streams");
    connect_to(&mut client, connack(false));
    assert!(client.is_queue_on_disconnect());
    let epoch = client.connection_epoch;
    assert!(client
        .end_data_stream(epoch, &MqttError::ConnectionClosedByPeer)
        .is_none());
    let closing = client
        .end_data_stream(epoch, &MqttError::MalformedPacket("x".to_string()))
        .unwrap();
    assert_eq!(closing.disconnect, Some(ReasonCode::MalformedPacket));
    let packet = unsubscribe_packet(&["a"]);
    let strategy = Some(StreamStrategy::DataPerTopic);
    assert!(unsubscribe_on_flow(&packet, strategy, true));
    assert!(!unsubscribe_on_flow(&packet, strategy, false));
    assert!(!unsubscribe_on_flow(
        &packet,
        Some(StreamStrategy::ControlOnly),
        true
    ));
}

#[test]
fn packets_of_a_stream_carry_its_flow() {
    let mut client = resuming_client("stream");
    connect_to(&mut client, connack(false));
    let flow = FlowId::server(3);
    let publish = PublishPacket::new("t".to_string(), b"x".to_vec(), QoS::AtMostOnce);
    let step = client.take_stream_packet(Packet::Publish(publish), Some(flow), None, 0);
    assert!(matches!(
        step,
        Ok(IncomingStep::Publish(PublishStep::Dispatch(p))) if p.stream_id == Some(flow.raw())
    ));
    let ready = staged(&mut client, "t/a", QoS::AtLeastOnce);
    let id = ready.packet.packet_id.unwrap();
    let claim = claim_quota(&mut client, &ready);
    send_with_claim(&mut client, ready, claim);
    let ack = Packet::PubAck(AckPacket::new(id, ReasonCode::Success));
    assert!(matches!(
        client.take_stream_packet(ack, Some(flow), None, 0),
        Ok(IncomingStep::Done)
    ));
    assert!(unacked_packet_ids(&client).is_empty());

    let result = server_flow(
        FlowHeader::Control {
            flow_id: flow,
            flags: FlowFlags::default(),
        },
        vec![9],
    );
    assert_eq!(stream_start(Ok(result)), (Some(flow), vec![9]));
    assert_eq!(stream_start(Err(MqttError::Timeout)), (None, Vec::new()));
    assert!(read_data_stream_packet(Ok(Packet::PingResp), true).is_none());
    assert!(read_data_stream_packet(Ok(Packet::PingResp), false).is_some());
    assert!(read_data_stream_packet(Err(MqttError::Timeout), true).is_some());
}

#[test]
fn messages_are_sent_again_in_the_order_in_which_they_were_sent() {
    let mut client = resuming_client("order");
    connect_to(&mut client, connack(false));
    let mut ids = Vec::new();
    for topic in ["a", "b", "c"] {
        let ready = staged(&mut client, topic, QoS::AtLeastOnce);
        ids.push(ready.packet.packet_id.unwrap());
        let claim = claim_quota(&mut client, &ready);
        send_with_claim(&mut client, ready, claim);
    }
    assert_eq!(unacked_packet_ids(&client), ids);
    let answer = Packet::PubAck(AckPacket::new(ids[0], ReasonCode::Success));
    client.process_packet(answer, true).unwrap();
    let replay = connect_to(&mut client, connack(true)).unwrap();
    let topics: Vec<String> = replay
        .items
        .iter()
        .map(|item| match item {
            OutboundReplay::Publish(publish) => publish.topic_name.clone(),
            OutboundReplay::PubRel(_) => String::new(),
        })
        .collect();
    assert_eq!(topics, ["b", "c"]);
}
