use mqtt5::client::direct::ack::{AckCallbackManager, AckDispatcher, AckRequest, AckToken};
use mqtt5::client::direct::client::{ConnectOptions, DirectClientInner};
use mqtt5::client::direct::handlers::{IncomingStep, PublishStep};
use mqtt5::error::{MqttError, ReasonCode};
use mqtt5::packets::{AckPacket, Packet};
use mqtt5::session::state::AckResolution;
use mqtt5::types::{PublishPacket, QoS};

const TOPIC: &str = "sensors/temp";

fn client() -> DirectClientInner {
    DirectClientInner::new(ConnectOptions::new("test-client".to_string()))
}

fn qos2_publish(packet_id: u16) -> PublishPacket {
    let mut publish = PublishPacket::new(TOPIC.to_string(), b"payload".to_vec(), QoS::ExactlyOnce);
    publish.packet_id = Some(packet_id);
    publish
}

/// Handles a message whose acknowledgement is written, and tells whether it is delivered.
fn delivered(client: &mut DirectClientInner, publish: PublishPacket) -> bool {
    let id = publish.packet_id.unwrap();
    let step = client
        .handle_publish_with_ack(publish, None, None, 0)
        .expect("the publish must be handled");
    let PublishStep::Acknowledge {
        ack,
        publish,
        receipt,
    } = step
    else {
        panic!("the message is acknowledged at once");
    };
    assert!(matches!(ack, Packet::PubRec(p) if p.packet_id == id));
    client
        .finish_publish(id, publish, receipt, Ok(()))
        .unwrap()
        .is_some()
}

#[test]
fn duplicate_qos2_publish_is_delivered_once_and_pubrec_resent() {
    let mut client = client();
    assert!(delivered(&mut client, qos2_publish(1)));
    let mut duplicate = qos2_publish(1);
    duplicate.dup = true;
    assert!(
        !delivered(&mut client, duplicate),
        "a redelivered QoS2 packet_id must reach the application exactly once"
    );
}

#[test]
fn distinct_qos2_packet_ids_are_each_delivered() {
    let mut client = client();
    assert!(delivered(&mut client, qos2_publish(1)));
    assert!(
        delivered(&mut client, qos2_publish(2)),
        "the duplicate guard must not suppress distinct packet ids"
    );
}

#[test]
fn outbound_pubrel_does_not_mask_an_inbound_packet_id() {
    let mut client = client();
    client.session.store_pubrel(1);
    assert!(
        delivered(&mut client, qos2_publish(1)),
        "inbound and outbound packet ids are independent namespaces; an outbound PUBREL for \
         id 1 must not make an inbound PUBLISH id 1 look like a duplicate"
    );
}

#[test]
fn qos2_packet_id_is_deliverable_again_after_the_handshake_completes() {
    let mut client = client();
    assert!(delivered(&mut client, qos2_publish(1)));
    client.session.remove_pubrec(1);
    assert!(
        delivered(&mut client, qos2_publish(1)),
        "once PUBCOMP completes the packet id is released and a reuse is a new message"
    );
}

fn ack_setup() -> AckCallbackManager {
    let mut callbacks = AckCallbackManager::new();
    callbacks.register(TOPIC);
    callbacks
}

fn deferred(client: &mut DirectClientInner, callbacks: &AckCallbackManager) -> Option<AckToken> {
    match client
        .handle_publish_with_ack(qos2_publish(1), None, Some(callbacks), 0)
        .expect("deferred QoS2 publish must be handled")
    {
        PublishStep::Deferred { token, .. } => Some(token),
        PublishStep::Ignore | PublishStep::Resend(_) => None,
        other => panic!("nothing is written before the token is resolved: {other:?}"),
    }
}

/// Writes what a resolved token asks for.
fn written(client: &mut DirectClientInner, request: AckRequest) -> Vec<Packet> {
    let mut packets = Vec::new();
    for request in client.ack_dispatcher.release(request) {
        if let Some(work) = AckDispatcher::handle(request, &mut client.session) {
            packets.push(work.packet);
        }
    }
    packets
}

#[test]
fn deferred_qos2_withholds_pubrec_until_the_token_is_acked() {
    let mut client = client();
    let callbacks = ack_setup();
    let token = deferred(&mut client, &callbacks).expect("callback must receive a token");
    assert_eq!(token.packet_id(), 1);
    assert_eq!(token.qos(), QoS::ExactlyOnce);

    let packets = written(&mut client, token.ack());
    assert!(
        matches!(&packets[..], [Packet::PubRec(p)] if p.reason_code == ReasonCode::Success),
        "PUBREC must be written only after the token is acked"
    );
    assert!(client.session.has_pubrec(1));
}

#[test]
fn deferred_qos2_token_drop_emits_a_reason_coded_pubrec() {
    let mut client = client();
    let callbacks = ack_setup();
    let token = deferred(&mut client, &callbacks).unwrap();
    let packets = written(&mut client, token.abandon());
    assert!(
        matches!(&packets[..], [Packet::PubRec(p)] if p.reason_code != ReasonCode::Success),
        "dropping a token must emit a (reason-coded) PUBREC so the handshake never wedges"
    );
}

#[test]
fn deferred_qos2_reused_packet_id_after_completion_is_delivered_again() {
    let mut client = client();
    let callbacks = ack_setup();
    let token = deferred(&mut client, &callbacks).expect("first delivery");
    assert_eq!(written(&mut client, token.ack()).len(), 1);
    assert!(client.session.has_pubrec(1));

    let complete = client.handle_pubrel(1);
    assert_eq!(complete.packet_id, 1);
    client.finish_pubrel(1, Ok(())).unwrap();

    assert!(
        deferred(&mut client, &callbacks).is_some(),
        "a message reusing a packet id whose handshake already completed must be \
         delivered, not suppressed as a duplicate"
    );
}

#[test]
fn deferred_qos2_reused_packet_id_after_reject_is_delivered_again() {
    let mut client = client();
    let callbacks = ack_setup();
    let token = deferred(&mut client, &callbacks).expect("first delivery");
    assert!(
        deferred(&mut client, &callbacks).is_none(),
        "a duplicate is not delivered while the first delivery is open"
    );
    let packets = written(&mut client, token.reject(ReasonCode::UnspecifiedError));
    assert!(matches!(packets[0], Packet::PubRec(_)));
    assert!(!client.session.is_delivered(1));

    assert!(
        deferred(&mut client, &callbacks).is_some(),
        "a message reusing a packet id whose exchange was rejected must be delivered, \
         not suppressed and re-rejected"
    );
}

#[test]
fn deferred_qos2_pubrel_clears_dedup_without_pubrec() {
    let mut client = client();
    assert!(client.session.mark_delivered(1));
    assert!(!client.session.has_pubrec(1));

    let complete = client.handle_pubrel(1);
    assert_eq!(complete.packet_id, 1);
    client.finish_pubrel(1, Ok(())).unwrap();
    assert!(
        !client.session.is_delivered(1),
        "a PUBREL must clear the dedup guard even without a recorded PUBREC"
    );
}

#[test]
fn deferred_qos2_reject_with_success_reason_still_clears_state() {
    let mut client = client();
    let callbacks = ack_setup();
    let token = deferred(&mut client, &callbacks).expect("first delivery");
    let packets = written(&mut client, token.reject(ReasonCode::Success));
    assert!(matches!(packets[0], Packet::PubRec(_)));
    assert!(!client.session.is_delivered(1));
    assert_eq!(
        client.session.get_resolution(1),
        AckResolution::Unresolved,
        "reject(Success) must clear state (reject path), not record an Acked resolution"
    );
}

#[test]
fn packets_without_a_writer_are_dispatched_unacknowledged() {
    let client = client();
    assert!(matches!(
        client.handle_incoming_packet_no_writer(Packet::PingResp, None),
        Ok(IncomingStep::Pong) | Ok(IncomingStep::Done)
    ));
    let publish = PublishPacket::new(TOPIC.to_string(), Vec::new(), QoS::AtMostOnce);
    assert!(matches!(
        client.handle_incoming_packet_no_writer(Packet::Publish(publish), None),
        Ok(IncomingStep::Publish(PublishStep::Dispatch(_)))
    ));
}

#[test]
fn incoming_packets_are_sorted() {
    let mut client = client();
    assert!(matches!(
        client.handle_incoming_packet_with_writer(
            Packet::PubRel(AckPacket::new(3, ReasonCode::Success)),
            None,
            None,
            0
        ),
        Ok(IncomingStep::Complete(p)) if p.packet_id == 3
    ));
    assert!(matches!(
        client.handle_incoming_packet_with_writer(
            Packet::PubRec(AckPacket::new(3, ReasonCode::Success)),
            None,
            None,
            0
        ),
        Ok(IncomingStep::Release(p)) if p.packet_id == 3
    ));
    let mut without_id = PublishPacket::new(TOPIC.to_string(), Vec::new(), QoS::AtLeastOnce);
    without_id.packet_id = None;
    assert!(client
        .handle_incoming_packet_with_writer(Packet::Publish(without_id), None, None, 0)
        .is_ok());
}

#[test]
fn more_messages_than_announced_are_an_error() {
    let mut client = client();
    client.session.flow.set_inbound_receive_maximum(1);
    assert!(client
        .handle_publish_with_ack(qos2_publish(1), None, None, 0)
        .is_ok());
    assert!(matches!(
        client.handle_publish_with_ack(qos2_publish(2), None, None, 0),
        Err(MqttError::ReceiveMaximumExceeded)
    ));
}
