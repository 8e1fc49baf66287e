use mqtt5::broker::storage::client_queue::{
    ClientQueue, QueueLimits, QueueOp, QueueRegistry, SEQ_FLOOR,
};
use mqtt5::broker::storage::file_backend::{
    after_rename, check_storage_version, retained_topic, Cached, RenameOutcome, SessionCache,
    WriteStep, STORAGE_VERSION,
};
use mqtt5::broker::storage::file_names::{
    filename_to_topic, inflight_file_stem, parse_queue_file_stem, queue_file_stem, temp_extension,
    topic_to_filename, QueueFileName,
};
use mqtt5::broker::storage::memory_backend::MemoryBackend;
use mqtt5::broker::storage::queue_scan::{load_queue, scan_queues, Keyed, ScannedEntry};
use mqtt5::broker::storage::sessions::{
    ClientSession, SessionManager, SessionStore, StoredSubscription,
};
use mqtt5::broker::storage::write_behind::{QueueWriter, WriterEvent};
use mqtt5::broker::storage::{InflightDirection, InflightMessage, QueuedMessage, RetainedMessage};
use mqtt5::error::{MqttError, Result};
use mqtt5::text_map::TextMap;
use mqtt5::types::{ProtocolVersion, PublishPacket, QoS};
use std::sync::Arc;

fn message(client: &str, tag: &str) -> QueuedMessage {
    QueuedMessage::new(
        PublishPacket::new(
            format!("t/{tag}"),
            tag.as_bytes().to_vec(),
            QoS::AtLeastOnce,
        ),
        client.to_string(),
        QoS::AtLeastOnce,
        None,
        1_000,
    )
}

fn registry(limits: QueueLimits) -> QueueRegistry {
    QueueRegistry::new(limits, false)
}

fn queue(registry: &mut QueueRegistry) -> &mut ClientQueue {
    registry.queue_mut("c").unwrap()
}

fn topics(messages: &[QueuedMessage]) -> Vec<&str> {
    messages.iter().map(|m| m.topic.as_str()).collect()
}

#[test]
fn take_returns_front_first_and_keeps_count_exact() {
    let mut registry = registry(QueueLimits::default());
    registry.handle("c");
    for tag in ["a", "b", "c"] {
        registry.push("c", message("c", tag));
    }
    let queue = queue(&mut registry);
    assert_eq!(queue.count(), 3);
    assert!(queue.behind());

    let first = queue.take(2, 1_000);
    assert_eq!(topics(&first), ["t/a", "t/b"]);
    assert_eq!(queue.count(), 1);

    let rest = queue.take(10, 1_000);
    assert_eq!(rest.len(), 1);
    assert_eq!(rest[0].topic, "t/c");
    assert_eq!(queue.count(), 0);
    assert!(
        queue.behind(),
        "a batch taken but not yet sent keeps the client behind"
    );
    queue.finish_drain();
    assert!(!queue.behind());
    assert!(queue.take(1, 1_000).is_empty());
    assert!(!queue.behind(), "an empty take does not start a drain");
}

#[test]
fn requeue_front_goes_ahead_of_existing_entries_in_order() {
    let mut registry = registry(QueueLimits::default());
    registry.handle("c");
    registry.push("c", message("c", "later"));
    registry.requeue_front("c", vec![message("c", "old1"), message("c", "old2")]);
    let queue = queue(&mut registry);
    assert_eq!(queue.count(), 3);
    let taken = queue.take(3, 1_000);
    assert_eq!(topics(&taken), ["t/old1", "t/old2", "t/later"]);
}

#[test]
fn clear_with_cutoff_keeps_messages_queued_after_the_cutoff() {
    let mut registry = registry(QueueLimits::default());
    registry.handle("c");
    registry.push("c", message("c", "before1"));
    registry.push("c", message("c", "before2"));
    let cutoff = registry.next_seq();
    registry.push("c", message("c", "after"));
    let queue = queue(&mut registry);
    assert_eq!(queue.clear(Some(cutoff)), 2);
    assert_eq!(queue.count(), 1);
    assert_eq!(queue.take(5, 1_000)[0].topic, "t/after");
}

#[test]
fn push_drops_oldest_when_the_message_limit_is_exceeded() {
    let mut registry = registry(QueueLimits {
        max_messages: 2,
        max_bytes: usize::MAX,
    });
    registry.handle("c");
    registry.push("c", message("c", "one"));
    registry.push("c", message("c", "two"));
    let outcome = registry.push("c", message("c", "three"));
    assert_eq!(outcome.dropped_oldest, 1);
    let queue = queue(&mut registry);
    assert_eq!(queue.count(), 2);
    let taken = queue.take(5, 1_000);
    assert_eq!(topics(&taken), ["t/two", "t/three"]);
}

#[test]
fn purge_expired_removes_only_expired_entries() {
    let mut registry = registry(QueueLimits::default());
    registry.handle("c");
    let mut expired = message("c", "expired");
    expired.expires_at = Some(0);
    registry.push("c", expired);
    registry.push("c", message("c", "live"));
    let queue = queue(&mut registry);
    assert_eq!(queue.purge_expired(1_000), 1);
    assert_eq!(queue.count(), 1);
    assert_eq!(queue.take(5, 1_000)[0].topic, "t/live");
}

#[test]
fn take_skips_expired_entries_and_reports_them_as_absent() {
    let mut registry = registry(QueueLimits::default());
    registry.handle("c");
    let mut expired = message("c", "expired");
    expired.expires_at = Some(0);
    registry.push("c", expired);
    let queue = queue(&mut registry);
    assert_eq!(queue.count(), 1);
    assert!(queue.take(1, 1_000).is_empty());
    assert_eq!(queue.count(), 0);
}

#[test]
fn registry_pins_entries_while_a_handle_is_held() {
    let mut registry = registry(QueueLimits::default());
    let held = registry.handle("c");
    assert_eq!(registry.evict_idle(), 0);
    let again = registry.handle("c");
    assert_eq!(held.client_id, again.client_id);
    assert_eq!(registry.handles(), vec!["c".to_string()]);
    registry.release(again);
    assert_eq!(registry.evict_idle(), 0);
    registry.release(held);
    assert_eq!(registry.evict_idle(), 1);
}

#[test]
fn work_of_an_evicted_queue_is_still_handed_over() {
    let mut registry = QueueRegistry::new(QueueLimits::default(), true);
    registry.push("c", message("c", "m1"));
    queue(&mut registry).take(1, 1_000);
    assert_eq!(registry.evict_idle(), 1);
    assert!(registry.queue("c").is_none());
    let left = registry.drain_left_work();
    assert_eq!(left.len(), 2, "the write and the deletion of the message");
    assert!(registry.drain_left_work().is_empty());
    let mut writer = QueueWriter::new();
    for op in left {
        writer.apply(op);
    }
    assert!(writer.queue.drain().iter().all(|(_, row)| row.is_none()));
}

#[test]
fn notify_stores_a_permit_for_a_later_waiter() {
    let mut registry = registry(QueueLimits::default());
    registry.handle("c");
    let queue = queue(&mut registry);
    queue.notify();
    assert!(
        queue.notified(),
        "stored permit must wake the first waiter"
    );
    assert!(!queue.notified());
}

#[test]
fn handoff_ends_with_the_last_open_one() {
    let mut registry = registry(QueueLimits::default());
    registry.handle("c");
    let queue = queue(&mut registry);
    queue.begin_handoff();
    queue.begin_handoff();
    assert_eq!(queue.handoffs(), 2);
    assert!(queue.behind());
    queue.end_handoff();
    assert!(queue.handoff());
    queue.end_handoff();
    assert!(!queue.handoff());
    assert!(queue.handoff_quiesced());
    assert!(!queue.behind());
}

#[test]
fn take_before_the_writer_persists_still_returns_the_message() {
    let mut registry = QueueRegistry::new(QueueLimits::default(), true);
    registry.handle("c");
    registry.push("c", message("c", "m1"));
    let queue = queue(&mut registry);
    let taken = queue.take(1, 1_000);
    assert_eq!(topics(&taken), ["t/m1"]);
    assert_eq!(queue.count(), 0);
    let mut writer = QueueWriter::new();
    for op in queue.drain_work() {
        writer.step(WriterEvent::Op(op));
    }
    assert!(writer.step(WriterEvent::Flush).write_out);
    assert!(
        writer.queue.drain().iter().all(|(_, row)| row.is_none()),
        "a taken message must leave no file behind"
    );
}

#[test]
fn writer_removes_a_file_that_it_has_written() {
    let mut registry = QueueRegistry::new(QueueLimits::default(), true);
    registry.handle("c");
    registry.push("c", message("c", "m1"));
    let mut writer = QueueWriter::new();
    for op in queue(&mut registry).drain_work() {
        writer.apply(op);
    }
    let written = writer.queue.drain();
    assert_eq!(written.len(), 1);
    for (key, row) in written {
        assert!(row.is_some());
        writer.queue.note_written(key);
    }
    queue(&mut registry).take(1, 1_000);
    for op in queue(&mut registry).drain_work() {
        writer.apply(op);
    }
    let removed = writer.queue.drain();
    assert_eq!(removed.len(), 1);
    assert!(removed[0].1.is_none());
    let stop = writer.step(WriterEvent::Closed);
    assert!(stop.stop && stop.write_out);
}

#[test]
fn inflight_messages_of_a_client_are_removed_together() {
    let mut writer = QueueWriter::new();
    for packet_id in [1u16, 2] {
        writer.step(WriterEvent::Op(QueueOp::StoreInflight(Box::new(inflight(
            "c", packet_id, None,
        )))));
    }
    let step = writer.step(WriterEvent::Op(QueueOp::RemoveAllInflight {
        client_id: "c".to_string(),
    }));
    assert_eq!(step.remove_directory, Some("c".to_string()));
    assert!(!step.write_out && !step.stop);
    assert!(writer.inflight.drain().is_empty());
}

fn scanned(tag: &str, stem: &str, seq: u64) -> Keyed<ScannedEntry> {
    Keyed {
        major: seq,
        minor: 0,
        item: ScannedEntry {
            path: format!("{stem}.json"),
            message: Some(message("c", tag)),
        },
    }
}

#[test]
fn restart_rebuilds_count_and_order_from_disk() {
    let mut registry = registry(QueueLimits::default());
    let files = vec![
        scanned("e", "e", SEQ_FLOOR + 4),
        scanned("r1", "r1", SEQ_FLOOR - 2),
        scanned("c", "c", SEQ_FLOOR + 2),
        scanned("r2", "r2", SEQ_FLOOR - 1),
        scanned("d", "d", SEQ_FLOOR + 3),
    ];
    let highest = load_queue(&mut registry, "c", files);
    assert_eq!(highest, SEQ_FLOOR + 4);
    registry.seed_seq(highest);
    assert_eq!(queue(&mut registry).count(), 5);
    let entries = queue(&mut registry).snapshot(1_000);
    let paths: Vec<&str> = entries
        .iter()
        .map(|e| e.path.as_ref().unwrap().as_str())
        .collect();
    assert_eq!(paths, ["r1.json", "r2.json", "c.json", "d.json", "e.json"]);
    registry.push("c", message("c", "after"));
    assert!(registry.next_seq() > SEQ_FLOOR + 4);
}

#[test]
fn restart_accounts_scanned_bytes_by_payload_not_file_size() {
    let limits = QueueLimits {
        max_messages: 1000,
        max_bytes: 4000,
    };
    let mut registry = registry(limits);
    let big = |tag: &str| {
        QueuedMessage::new(
            PublishPacket::new(format!("q/{tag}"), vec![b'x'; 200], QoS::AtLeastOnce),
            "c".to_string(),
            QoS::AtLeastOnce,
            None,
            1_000,
        )
    };
    let files = ["a", "b", "c", "d", "e"]
        .iter()
        .enumerate()
        .map(|(i, tag)| Keyed {
            major: i as u64,
            minor: 0,
            item: ScannedEntry {
                path: format!("{tag}.json"),
                message: Some(big(tag)),
            },
        })
        .collect();
    load_queue(&mut registry, "c", files);
    assert_eq!(
        queue(&mut registry).count(),
        5,
        "restart must not evict a within-cap backlog"
    );
    registry.push("c", big("f"));
    assert_eq!(
        queue(&mut registry).count(),
        6,
        "one more within-cap push evicts nothing"
    );
}

#[test]
fn legacy_queue_files_are_migrated_and_ordered_first() {
    let stems: Vec<String> = vec![
        "1700000000000_2".to_string(),
        queue_file_stem(SEQ_FLOOR + 1),
        "1700000000000_0".to_string(),
        "notes".to_string(),
        "1700000000000_1".to_string(),
    ];
    let plan = scan_queues(&stems);
    assert_eq!(plan.named.len(), 1);
    assert_eq!(plan.named[0].file, 1);
    let order: Vec<usize> = plan.renames.iter().map(|r| r.file).collect();
    assert_eq!(order, [2, 4, 0]);
    assert!(plan.renames.iter().all(|r| r.seq < plan.named[0].seq));
    for pair in plan.renames.windows(2) {
        assert!(pair[0].seq < pair[1].seq);
    }
    assert!(plan
        .renames
        .iter()
        .all(|r| !queue_file_stem(r.seq).contains('_')));
}

#[test]
fn unreadable_queue_file_is_skipped() {
    let mut registry = registry(QueueLimits::default());
    let files = vec![
        Keyed {
            major: 1,
            minor: 0,
            item: ScannedEntry {
                path: "bad.json".to_string(),
                message: None,
            },
        },
        scanned("good", "good", 2),
    ];
    assert_eq!(load_queue(&mut registry, "c", files), 2);
    assert_eq!(queue(&mut registry).count(), 1);
}

#[test]
fn counter_rises_above_an_unreadable_file() {
    let mut registry = registry(QueueLimits::default());
    let files = vec![
        scanned("good", "good", SEQ_FLOOR + 1),
        Keyed {
            major: SEQ_FLOOR + 7,
            minor: 0,
            item: ScannedEntry {
                path: "bad.json".to_string(),
                message: None,
            },
        },
    ];
    let highest = load_queue(&mut registry, "c", files);
    assert_eq!(highest, SEQ_FLOOR + 7);
    registry.seed_seq(highest);
    assert_eq!(registry.next_seq(), SEQ_FLOOR + 8);
    assert_eq!(queue(&mut registry).count(), 1);
}

#[test]
fn unreadable_entries_use_up_none_of_the_limit() {
    let mut registry = registry(QueueLimits::default());
    let files = vec![scanned("f1", "f1", 1), scanned("f2", "f2", 2)];
    load_queue(&mut registry, "c", files);
    registry.push("c", message("c", "live"));
    let queue = queue(&mut registry);
    assert!(queue.take(1, 1_000).is_empty());
    assert_eq!(queue.count(), 3, "an entry in a file is neither dropped nor deleted");
    assert!(!queue.draining());

    let (seq, path) = queue.unread_front(1_000).unwrap();
    assert_eq!((seq, path.as_str()), (1, "f1.json"));
    queue.supply(seq, None);
    assert_eq!(queue.count(), 2);
    let (seq, path) = queue.unread_front(1_000).unwrap();
    assert_eq!((seq, path.as_str()), (2, "f2.json"));
    queue.supply(7, None);
    assert_eq!(queue.count(), 2, "another entry than the oldest is not supplied");
    queue.supply(seq, Some(message("c", "f2")));
    assert!(queue.unread_front(1_000).is_none());

    let first = queue.take(1, 1_000);
    assert_eq!(topics(&first), ["t/f2"]);
    queue.finish_drain();
    assert_eq!(topics(&queue.take(1, 1_000)), ["t/live"]);
    assert!(queue.take(1, 1_000).is_empty());
    assert_eq!(queue.count(), 0);
}

#[test]
fn taken_messages_go_back_in_order() {
    let mut registry = registry(QueueLimits::default());
    for tag in ["a", "b", "c"] {
        registry.push("c", message("c", tag));
    }
    let taken = queue(&mut registry).take(2, 1_000);
    registry.requeue_front("c", taken);
    let back = queue(&mut registry).take(3, 1_000);
    assert_eq!(topics(&back), ["t/a", "t/b", "t/c"]);
}

#[test]
fn file_names_give_topics_back() {
    for topic in ["good/topic", "a_b", "50%", "+/#", "plain", "$SYS/x", ""] {
        let name = topic_to_filename(topic);
        assert_eq!(filename_to_topic(&name), topic);
        assert!(!name.contains('/') && !name.contains('#') && !name.contains('+'));
    }
    assert_ne!(topic_to_filename("a/b"), topic_to_filename("a_b"));
    assert_eq!(
        retained_topic(&topic_to_filename("a/b"), "a/+"),
        Some("a/b".to_string())
    );
    assert_eq!(retained_topic(&topic_to_filename("a/b"), "b/+"), None);
}

#[test]
fn queue_file_names_sort_as_their_numbers() {
    let low = queue_file_stem(9);
    let high = queue_file_stem(10);
    assert!(low < high);
    assert_eq!(
        parse_queue_file_stem(&high),
        Some(QueueFileName::Sequence(10))
    );
    assert_eq!(
        parse_queue_file_stem("12_3"),
        Some(QueueFileName::Legacy { ts: 12, seq: 3 })
    );
    assert_eq!(parse_queue_file_stem("12_3_4"), None);
    assert_eq!(parse_queue_file_stem("x"), None);
    assert_ne!(
        inflight_file_stem(7, InflightDirection::Inbound),
        inflight_file_stem(7, InflightDirection::Outbound)
    );
    assert_ne!(temp_extension(1, 2), temp_extension(1, 3));
    assert_ne!(temp_extension(1, 2), temp_extension(2, 2));
}

#[test]
fn storage_version_is_checked() {
    assert!(check_storage_version(&format!(" {STORAGE_VERSION}\n"), "/data").is_ok());
    match check_storage_version("0", "/data") {
        Err(MqttError::Configuration(text)) => {
            assert!(text.starts_with("Storage version mismatch: found version 0"));
            assert!(text.contains("/data"));
        }
        other => panic!("unexpected {other:?}"),
    }
}

#[test]
fn vanished_directory_is_retried_once() {
    assert_eq!(after_rename(0, RenameOutcome::Done), WriteStep::Finish);
    assert_eq!(after_rename(0, RenameOutcome::Missing), WriteStep::Retry);
    assert_eq!(after_rename(1, RenameOutcome::Missing), WriteStep::Fail);
    assert_eq!(after_rename(0, RenameOutcome::Failed), WriteStep::Fail);
}

#[test]
fn session_cache_remembers_what_was_not_written() {
    let mut cache = SessionCache::new();
    cache.store(ClientSession::new("a".to_string(), true, None, 0));
    cache.store(ClientSession::new("b".to_string(), true, None, 0));
    assert_eq!(cache.to_flush().len(), 2);
    match cache.finish_flush(vec![("a".to_string(), true), ("b".to_string(), false)]) {
        Err(MqttError::Io(text)) => assert_eq!(text, "failed to persist 1 sessions"),
        other => panic!("unexpected {other:?}"),
    }
    assert_eq!(cache.to_flush(), vec!["b".to_string()]);
    assert!(matches!(cache.lookup("a", 0), Cached::Hit(s) if s.client_id == "a"));
    cache.remove("a");
    assert!(matches!(cache.lookup("a", 0), Cached::Unknown));
    assert!(cache.finish_flush(vec![("b".to_string(), true)]).is_ok());
    assert!(cache.to_flush().is_empty());
    assert!(cache.session("b").is_some());
}

fn retained(topic: &str, expiry: Option<u32>) -> RetainedMessage {
    let mut packet = PublishPacket::new(topic.to_string(), b"keep me".to_vec(), QoS::AtMostOnce);
    packet.retain = true;
    packet.properties.message_expiry_interval = expiry;
    RetainedMessage::new(packet, 0)
}

fn inflight(client: &str, packet_id: u16, expires_at: Option<u64>) -> InflightMessage {
    InflightMessage {
        client_id: client.to_string(),
        packet_id,
        direction: InflightDirection::Outbound,
        topic: "t".to_string(),
        payload: Arc::new(b"p".to_vec()),
        qos: QoS::AtLeastOnce,
        retain: false,
        expires_at,
    }
}

#[test]
fn memory_backend_keeps_and_expires() {
    let mut backend = MemoryBackend::new();
    backend.store_retained_message("a/b", retained("a/b", None));
    backend.store_retained_message("a/c", retained("a/c", Some(1)));
    assert_eq!(backend.get_retained_messages("a/+", 1_000).len(), 2);
    assert_eq!(backend.get_retained_messages("a/+", 1_001).len(), 1);
    assert!(backend.get_retained_message("a/c", 1_001).is_none());
    backend.remove_retained_message("a/b");
    assert!(backend.get_retained_message("a/b", 0).is_none());

    backend.store_inflight_message(inflight("c", 1, Some(500)));
    backend.store_inflight_message(inflight("c", 2, None));
    backend.store_inflight_message(inflight("d", 1, None));
    assert_eq!(backend.get_inflight_messages("c", 500).len(), 2);
    assert_eq!(backend.get_inflight_messages("c", 501).len(), 1);
    backend.remove_inflight_message("c", 2, InflightDirection::Inbound);
    assert_eq!(backend.get_inflight_messages("c", 0).len(), 2);
    backend.remove_inflight_message("c", 2, InflightDirection::Outbound);
    assert_eq!(backend.get_inflight_messages("c", 0).len(), 1);
    backend.remove_all_inflight_messages("c");
    assert!(backend.get_inflight_messages("c", 0).is_empty());
    assert_eq!(backend.get_inflight_messages("d", 0).len(), 1);

    backend.queue_message(message("c", "x"));
    assert_eq!(topics(&backend.get_queued_messages("c", 1_000)), ["t/x"]);
    backend.remove_queued_messages("c");
    assert!(backend.get_queued_messages("c", 1_000).is_empty());
    backend.cleanup_expired(10_000);
}

#[test]
fn session_manager_resumes_or_begins_anew() {
    let mut manager = SessionManager::new(MemoryBackend::new());
    manager.get_or_create_session("c", false, Some(60), 0).unwrap();
    let subscription = StoredSubscription {
        qos: QoS::AtLeastOnce,
        no_local: false,
        retain_as_published: false,
        retain_handling: 0,
        subscription_id: None,
        protocol_version: ProtocolVersion::V5,
        change_only: false,
    };
    manager.add_subscription("c", "t", subscription, 1);
    assert_eq!(manager.get_subscriptions("c", 1).len(), 1);
    let resumed = manager.get_or_create_session("c", false, Some(60), 2).unwrap();
    assert_eq!(resumed.subscriptions.len(), 1);
    manager.remove_subscription("c", "t", 3);
    assert_eq!(manager.get_subscriptions("c", 3).len(), 0);
    manager.add_subscription("c", "t", subscription, 4);
    let fresh = manager.get_or_create_session("c", true, Some(60), 5).unwrap();
    assert_eq!(fresh.subscriptions.len(), 0);
    manager.remove_session("c").unwrap();
    assert_eq!(manager.get_subscriptions("c", 6).len(), 0);
}

struct KeepingStore {
    kept: Vec<ClientSession>,
}

impl SessionStore for KeepingStore {
    fn store_session(&mut self, session: ClientSession) {
        self.kept.retain(|s| s.client_id != session.client_id);
        self.kept.push(session);
    }

    fn get_session(&mut self, client_id: &str, _now: u64) -> Option<ClientSession> {
        self.kept.iter().find(|s| s.client_id == client_id).cloned()
    }

    fn remove_session(&mut self, _client_id: &str) -> Result<()> {
        Err(MqttError::Io("disk is read-only".to_string()))
    }
}

#[test]
fn clean_start_fails_where_the_session_cannot_be_removed() {
    let mut manager = SessionManager::new(KeepingStore { kept: Vec::new() });
    manager
        .get_or_create_session("c", false, Some(60), 0)
        .unwrap();
    assert!(matches!(
        manager.get_or_create_session("c", true, Some(60), 1),
        Err(MqttError::Io(_))
    ));
    assert!(matches!(manager.remove_session("c"), Err(MqttError::Io(_))));
    let kept = manager
        .get_or_create_session("c", false, Some(60), 2)
        .unwrap();
    assert_eq!(kept.created_at, 0);
    assert_eq!(kept.last_seen, 2);
}

#[test]
fn subscriptions_of_a_session_are_replaced_as_a_whole() {
    let mut manager = SessionManager::new(MemoryBackend::new());
    manager.get_or_create_session("c", false, None, 0).unwrap();
    let kept = StoredSubscription {
        qos: QoS::AtLeastOnce,
        no_local: false,
        retain_as_published: false,
        retain_handling: 0,
        subscription_id: None,
        protocol_version: ProtocolVersion::V5,
        change_only: false,
    };
    manager.add_subscription("c", "old", kept, 0);
    let mut subscriptions = TextMap::new();
    subscriptions.insert("new".to_string(), kept);
    manager.update_subscriptions("c", subscriptions, 1);
    manager.touch_session("c", 2);
    let stored = manager.get_subscriptions("c", 2);
    assert_eq!(stored.len(), 1);
    assert!(stored.contains_key("new"));
}
