use mqtt5::error::MqttError;
use mqtt5::session::flow_control::{
    AcquireEvent, AcquireStart, AcquireStep, FlowControlConfig, FlowControlManager, Permit,
    MAX_PERMITS,
};
use mqtt5::session::quic_flow::{
    FlowFlags, FlowId, FlowIdGenerator, FlowRegistry, FlowState, FlowType,
};
use mqtt5::session::state::{AckResolution, OutboundReplay, OutboundStage, SessionState};
use mqtt5::session::topic_alias::TopicAliasManager;
use mqtt5::types::{PublishPacket, QoS};

#[test]
fn test_flow_state_new_control() {
    let state = FlowState::new_control(0);
    assert_eq!(state.flow_type, FlowType::Control);
    assert_eq!(state.id, FlowId::control());
    assert!(state.subscriptions.is_empty());
}

#[test]
fn test_flow_state_new_client_data() {
    let id = FlowId::client(1);
    let flags = FlowFlags::default();
    let state = FlowState::new_client_data(id, flags, Some(60_000), 0);

    assert_eq!(state.flow_type, FlowType::ClientData);
    assert_eq!(state.id, id);
    assert_eq!(state.expire_interval, Some(60_000));
}

#[test]
fn test_flow_state_subscriptions() {
    let mut state = FlowState::new_control(0);

    state.add_subscription("test/topic".to_string());
    assert!(state.subscriptions.contains(&"test/topic".to_string()));

    state.add_subscription("test/topic".to_string());
    assert_eq!(state.subscriptions.len(), 1);

    state.remove_subscription("test/topic");
    assert!(state.subscriptions.is_empty());
}

#[test]
fn test_flow_state_topic_aliases() {
    let mut state = FlowState::new_control(0);

    state.set_topic_alias(1, "test/topic".to_string());
    assert_eq!(state.get_topic_alias(1), Some(&"test/topic".to_string()));
    assert_eq!(state.get_topic_alias(2), None);
}

#[test]
fn test_flow_state_pending_packet_ids() {
    let mut state = FlowState::new_control(0);

    state.add_pending_packet_id(1);
    state.add_pending_packet_id(2);
    state.add_pending_packet_id(1);
    assert_eq!(state.pending_packet_ids.len(), 2);

    state.remove_pending_packet_id(1);
    assert_eq!(state.pending_packet_ids.len(), 1);
    assert!(state.pending_packet_ids.contains(&2));
}

#[test]
fn test_flow_registry_new_flows() {
    let mut registry = FlowRegistry::new(10);

    let id1 = registry.new_client_flow(FlowFlags::default(), None, 0);
    assert!(id1.is_some());
    let id1 = id1.unwrap();
    assert!(id1.is_client_initiated());

    let id2 = registry.new_server_flow(FlowFlags::default(), None, 0);
    assert!(id2.is_some());
    let id2 = id2.unwrap();
    assert!(id2.is_server_initiated());

    assert_eq!(registry.len(), 2);
}

#[test]
fn test_flow_registry_max_flows() {
    let mut registry = FlowRegistry::new(2);

    registry.new_client_flow(FlowFlags::default(), None, 0);
    registry.new_client_flow(FlowFlags::default(), None, 0);
    let id3 = registry.new_client_flow(FlowFlags::default(), None, 0);
    assert!(id3.is_none());
}

#[test]
fn test_flow_registry_get_and_remove() {
    let mut registry = FlowRegistry::new(10);

    let id = registry
        .new_client_flow(FlowFlags::default(), None, 0)
        .unwrap();
    assert!(registry.contains(id));
    assert!(registry.get(id).is_some());

    let removed = registry.remove(id);
    assert!(removed.is_some());
    assert!(!registry.contains(id));
}

#[test]
fn test_flow_registry_touch() {
    let mut registry = FlowRegistry::new(10);
    let id = registry
        .new_client_flow(FlowFlags::default(), None, 5)
        .unwrap();

    let initial_time = registry.get(id).unwrap().last_activity;
    registry.touch(id, 15);
    let new_time = registry.get(id).unwrap().last_activity;

    assert!(new_time > initial_time);
}

#[test]
fn test_flow_registry_flows_for_subscription() {
    let mut registry = FlowRegistry::new(10);

    let id1 = registry
        .new_client_flow(FlowFlags::default(), None, 0)
        .unwrap();
    let id2 = registry
        .new_client_flow(FlowFlags::default(), None, 0)
        .unwrap();

    registry
        .get_mut(id1)
        .unwrap()
        .add_subscription("test/#".to_string());
    registry
        .get_mut(id2)
        .unwrap()
        .add_subscription("other/#".to_string());

    let flows = registry.flows_for_subscription("test/#");
    assert_eq!(flows.len(), 1);
    assert!(flows.contains(&id1));
}

#[test]
fn expired_flows_leave_the_registry() {
    let mut registry = FlowRegistry::new(10);
    let short = registry
        .new_client_flow(FlowFlags::default(), Some(1_000), 0)
        .unwrap();
    let kept = registry
        .new_server_flow(FlowFlags::default(), None, 0)
        .unwrap();
    assert!(registry.expire_flows(1_000).is_empty());
    assert_eq!(registry.expire_flows(1_001), vec![short]);
    assert!(registry.contains(kept));
    assert!(!registry.contains(short));
}

#[test]
fn flow_numbers_tell_the_sides_apart() {
    let mut ids = FlowIdGenerator::new();
    let client = ids.next_client();
    let server = ids.next_server();
    assert_eq!(client.raw(), 2);
    assert_eq!(server.raw(), 3);
    assert!(client.is_client_initiated() && !client.is_server_initiated());
    assert!(server.is_server_initiated() && !server.is_client_initiated());
    assert_ne!(ids.next_client(), client);
}

#[test]
fn test_flow_control_basic() {
    let mut fc = FlowControlManager::new(3);

    assert!(fc.can_send());

    fc.register_send(1, 0).unwrap();
    fc.register_send(2, 0).unwrap();
    fc.register_send(3, 0).unwrap();

    assert_eq!(fc.in_flight_count(), 3);
    assert!(!fc.can_send());

    assert!(matches!(
        fc.register_send(4, 0),
        Err(MqttError::FlowControlExceeded)
    ));

    fc.acknowledge(2).unwrap();
    assert_eq!(fc.in_flight_count(), 2);
    assert!(fc.can_send());
    assert!(matches!(
        fc.acknowledge(2),
        Err(MqttError::PacketIdNotFound(2))
    ));
}

#[test]
fn test_flow_control_unlimited() {
    let mut fc = FlowControlManager::new(0);

    assert!(fc.can_send());

    fc.register_send(1, 0).unwrap();
    fc.register_send(2, 0).unwrap();

    assert_eq!(fc.in_flight_count(), 0);
    assert_eq!(fc.available_permits(), MAX_PERMITS);
    assert!(matches!(fc.begin_acquire(), AcquireStart::Unlimited));
}

#[test]
fn test_flow_control_expired() {
    let mut fc = FlowControlManager::new(5);

    fc.register_send(1, 0).unwrap();
    fc.register_send(2, 0).unwrap();

    fc.register_send(3, 10).unwrap();

    let expired = fc.get_expired(5, 10);
    assert_eq!(expired.len(), 2);
    assert!(expired.contains(&1));
    assert!(expired.contains(&2));
    assert!(!expired.contains(&3));
}

#[test]
fn reset_for_connection_reclaims_quota_held_by_the_previous_connection() {
    let mut flow = FlowControlManager::new(1);
    assert!(matches!(flow.acquire_send_quota(1, false, 0), Some(Ok(()))));
    assert!(!flow.can_send());

    let replay = flow.reset_for_connection(1, &[], false, 0);
    assert!(replay.is_none());
    assert_eq!(flow.in_flight_count(), 0);
    let AcquireStart::Wait { quota, timeout } = flow.begin_acquire() else {
        panic!("a limited quota has to be waited for");
    };
    assert_eq!(timeout, None);
    assert_eq!(flow.take_permit(quota), Permit::Taken);
    assert!(matches!(
        flow.acquire_shared_send_quota(quota, AcquireEvent::Permit, 2, 0),
        AcquireStep::Done(Ok(()))
    ));
    assert_eq!(flow.in_flight_count(), 1);
}

#[test]
fn replay_slots_take_released_quota_until_replay_finishes() {
    let mut flow = FlowControlManager::new(10);
    let slots = flow.reset_for_connection(1, &[], true, 0).unwrap();
    assert_eq!(flow.available_permits(), 0);

    assert_eq!(flow.take_permit(slots), Permit::Taken);
    assert_eq!(flow.take_permit(slots), Permit::Empty);
    assert!(flow.claim_send_quota(slots, 7, 0));
    flow.acknowledge(7).unwrap();
    assert_eq!(flow.available_permits(), 0);

    flow.finish_replay(slots);
    assert_eq!(flow.take_permit(slots), Permit::Closed);
    assert_eq!(flow.available_permits(), 1);
}

#[test]
fn retained_in_flight_above_receive_maximum_is_repaid_before_quota_returns() {
    let mut flow = FlowControlManager::new(10);
    flow.reset_for_connection(1, &[1, 2], false, 0);
    assert_eq!(flow.available_permits(), 0);

    flow.acknowledge(1).unwrap();
    assert_eq!(flow.available_permits(), 0);
    flow.acknowledge(2).unwrap();
    assert_eq!(flow.available_permits(), 1);
}

#[test]
fn stale_permit_from_a_reset_quota_is_not_claimed() {
    let mut flow = FlowControlManager::new(2);
    let stale = flow.quota_number();
    flow.reset_for_connection(2, &[], false, 0);
    assert_eq!(flow.take_permit(stale), Permit::Closed);
    assert!(!flow.claim_send_quota(stale, 1, 0));
}

#[test]
fn closed_send_quota_fails_waiting_publishers() {
    let mut flow = FlowControlManager::new(1);
    let quota = flow.quota_number();
    assert_eq!(flow.take_permit(quota), Permit::Taken);
    assert!(matches!(
        flow.acquire_shared_send_quota(quota, AcquireEvent::Permit, 1, 0),
        AcquireStep::Done(Ok(()))
    ));
    assert_eq!(flow.take_permit(quota), Permit::Empty);
    flow.close_send_quota();
    assert_eq!(flow.take_permit(quota), Permit::Closed);
    assert!(matches!(
        flow.acquire_shared_send_quota(quota, AcquireEvent::Closed, 2, 0),
        AcquireStep::Done(Err(MqttError::NotConnected))
    ));
}

#[test]
fn waiting_publisher_begins_again_on_a_new_quota() {
    let mut flow = FlowControlManager::new(1);
    let stale = flow.quota_number();
    flow.reset_for_connection(1, &[], false, 0);
    assert!(matches!(
        flow.acquire_shared_send_quota(stale, AcquireEvent::Closed, 1, 0),
        AcquireStep::Again
    ));
    assert!(matches!(
        flow.acquire_shared_send_quota(stale, AcquireEvent::TimedOut, 1, 0),
        AcquireStep::Done(Err(MqttError::FlowControlExceeded))
    ));
}

#[test]
fn duplicate_inbound_packet_id_is_not_counted_twice() {
    let mut fc = FlowControlManager::new(10);
    fc.set_inbound_receive_maximum(1);
    fc.register_inbound_publish(1, 0).unwrap();
    fc.register_inbound_publish(1, 0).unwrap();
    assert_eq!(fc.inbound_in_flight_count(), 1);
    assert!(matches!(
        fc.register_inbound_publish(2, 0),
        Err(MqttError::ReceiveMaximumExceeded)
    ));
    fc.clear_inbound();
    fc.register_inbound_publish(2, 0).unwrap();
}

#[test]
fn flow_control_settings_and_statistics() {
    let config = FlowControlConfig {
        in_flight_timeout: 100,
        backpressure_timeout: Some(7),
    };
    let mut flow = FlowControlManager::with_config(2, config);
    assert_eq!(*flow.config(), config);
    flow.register_send(4, 50).unwrap();
    let stats = flow.get_stats();
    assert_eq!(stats.receive_maximum, 2);
    assert_eq!(stats.in_flight_count, 1);
    assert_eq!(stats.available_quota, 1);
    assert_eq!(stats.pending_requests, 0);
    assert_eq!(stats.oldest_in_flight, Some(50));
    assert!(flow.cleanup_expired(150).is_empty());
    assert_eq!(flow.cleanup_expired(151), vec![4]);
    assert_eq!(flow.in_flight_count(), 0);
    flow.set_receive_maximum(5);
    assert_eq!(flow.receive_maximum(), 5);
    assert_eq!(flow.available_permits(), 5);
    assert!(matches!(
        flow.begin_acquire(),
        AcquireStart::Wait { timeout: Some(7), .. }
    ));
}

#[test]
fn test_topic_alias_basic() {
    let mut ta = TopicAliasManager::new(10);

    let alias1 = ta.get_or_create_alias("topic/1").unwrap();
    assert_eq!(alias1, 1);

    let alias2 = ta.get_or_create_alias("topic/2").unwrap();
    assert_eq!(alias2, 2);

    let alias1_again = ta.get_or_create_alias("topic/1").unwrap();
    assert_eq!(alias1_again, 1);

    assert_eq!(ta.get_topic(1), Some("topic/1"));
    assert_eq!(ta.get_alias("topic/1"), Some(1));
}

#[test]
fn test_topic_alias_register() {
    let mut ta = TopicAliasManager::new(5);

    ta.register_alias(3, "remote/topic").unwrap();
    assert_eq!(ta.get_topic(3), Some("remote/topic"));

    assert!(ta.register_alias(0, "topic").is_err());
    assert!(ta.register_alias(6, "topic").is_err());

    ta.register_alias(3, "new/topic").unwrap();
    assert_eq!(ta.get_topic(3), Some("new/topic"));
    assert!(ta.get_alias("remote/topic").is_none());
}

#[test]
fn test_topic_alias_limit() {
    let mut ta = TopicAliasManager::new(2);

    let alias1 = ta.get_or_create_alias("topic/1");
    let alias2 = ta.get_or_create_alias("topic/2");
    let alias3 = ta.get_or_create_alias("topic/3");

    assert!(alias1.is_some());
    assert!(alias2.is_some());
    assert!(alias3.is_none());
}

#[test]
fn test_topic_alias_clear() {
    let mut ta = TopicAliasManager::new(10);

    let _ = ta.get_or_create_alias("topic/1");
    let _ = ta.get_or_create_alias("topic/2");
    ta.register_alias(5, "topic/5").unwrap();

    ta.clear();

    assert!(ta.get_topic(1).is_none());
    assert!(ta.get_topic(5).is_none());
    assert!(ta.get_alias("topic/1").is_none());
}

fn message(packet_id: u16, qos: QoS) -> PublishPacket {
    let mut publish = PublishPacket::new("t".to_string(), b"payload".to_vec(), qos);
    publish.packet_id = Some(packet_id);
    publish
}

#[test]
fn outbound_exchanges_go_through_their_stages() {
    let mut session = SessionState::new("client".to_string());
    assert_eq!(session.outbound_stage(1), None);
    session.store_unacked_publish(1, message(1, QoS::ExactlyOnce));
    session.store_unacked_publish(2, message(2, QoS::AtLeastOnce));
    assert_eq!(session.outbound_stage(1), Some(OutboundStage::AwaitingPubRec));
    assert_eq!(session.outbound_stage(2), Some(OutboundStage::AwaitingPubAck));
    session.complete_pubrec(1);
    session.store_pubrel(1);
    assert_eq!(session.outbound_stage(1), Some(OutboundStage::AwaitingPubComp));
    let replay = session.outbound_replay();
    assert_eq!(replay.len(), 2);
    assert!(replay
        .iter()
        .any(|item| matches!(item, OutboundReplay::PubRel(1))));
    assert!(replay
        .iter()
        .any(|item| matches!(item, OutboundReplay::Publish(p) if p.packet_id == Some(2))));
    session.remove_unacked_publish(1);
    assert!(session.is_outbound(1));
    session.complete_outbound(1);
    assert!(!session.is_outbound(1));
    session.discard_outbound_state();
    assert!(session.outbound_replay().is_empty());
}

#[test]
fn inbound_exchanges_are_remembered_until_they_are_cleared() {
    let mut session = SessionState::new("client".to_string());
    assert!(session.mark_pubrec_pending(9));
    assert!(!session.mark_pubrec_pending(9));
    assert!(session.mark_delivered(9));
    assert!(!session.mark_delivered(9));
    session.set_resolution(9, AckResolution::Acked);
    assert_eq!(session.get_resolution(9), AckResolution::Acked);
    session.clear_inbound_state(9);
    assert!(!session.has_pubrec(9));
    assert!(!session.is_delivered(9));
    assert_eq!(session.get_resolution(9), AckResolution::Unresolved);
    session.mark_pubrec_sent(65535);
    assert!(session.has_pubrec(65535));
    session.clear_all_inbound_state();
    assert!(!session.has_pubrec(65535));
}

#[test]
fn packets_over_the_servers_maximum_are_refused() {
    let mut session = SessionState::new("client".to_string());
    assert!(session.check_packet_size(1_000_000).is_ok());
    session.server_maximum_packet_size = Some(10);
    assert!(session.check_packet_size(10).is_ok());
    assert!(matches!(
        session.check_packet_size(11),
        Err(MqttError::PacketTooLarge { size: 11, max: 10 })
    ));
}
