//! Storage that lives in memory only.

use super::client_queue::{PushOutcome, QueueHandle, QueueLimits, QueueRegistry};
use super::row_map::{Row, RowKey, RowMap};
use super::sessions::{ClientSession, SessionStore, Sessions};
use super::write_behind::inflight_key;
use super::{InflightDirection, InflightMessage, QueuedMessage, RetainedMessage};
use crate::error::{MqttError, Result};
use crate::text::{owned, same_text};
use crate::text_map::TextMap;
use crate::topic::topic_matches_filter;
use vstd::prelude::*;

verus! {

/// Retained messages, sessions, queues and in-flight messages, all in memory.
#[derive(Debug)]
pub struct MemoryBackend {
    retained: TextMap<RetainedMessage>,
    sessions: TextMap<ClientSession>,
    queues: QueueRegistry,
    inflight: RowMap<InflightMessage>,
}

/// The retained messages that have not expired.
pub open spec fn live_retained(
    map: Map<Seq<char>, RetainedMessage>,
    now: u64,
) -> Map<Seq<char>, RetainedMessage> {
    Map::new(
        |k: Seq<char>|
            map.contains_key(k) && !crate::broker::storage::past(map[k].expires_at, now),
        |k: Seq<char>| map[k],
    )
}

/// The sessions that have not expired.
pub open spec fn live_sessions(map: Sessions, now: u64) -> Sessions {
    Map::new(|k: Seq<char>| map.contains_key(k) && !map[k].expired(now), |k: Seq<char>| map[k])
}

/// The in-flight messages that have not expired.
pub open spec fn live_inflight(
    map: Map<Row, InflightMessage>,
    now: u64,
) -> Map<Row, InflightMessage> {
    Map::new(
        |k: Row| map.contains_key(k) && !crate::broker::storage::past(map[k].expires_at, now),
        |k: Row| map[k],
    )
}

/// Of a list of retained messages by topic, those that match a filter and have not expired, in
/// order.
pub open spec fn matching_retained(
    list: Seq<(Seq<char>, RetainedMessage)>,
    topic_filter: Seq<char>,
    now: u64,
) -> Seq<(Seq<char>, RetainedMessage)>
    decreases list.len(),
{
    if list.len() == 0 {
        Seq::empty()
    } else {
        let rest = matching_retained(list.drop_last(), topic_filter, now);
        let last = list.last();
        if crate::topic::topic_matches(last.0, topic_filter) && !crate::broker::storage::past(
            last.1.expires_at,
            now,
        ) {
            rest.push(last)
        } else {
            rest
        }
    }
}

/// Of a list of in-flight messages by row, those of a client that have not expired, in order.
pub open spec fn client_inflight(
    list: Seq<(RowKey, InflightMessage)>,
    client_id: Seq<char>,
    now: u64,
) -> Seq<InflightMessage>
    decreases list.len(),
{
    if list.len() == 0 {
        Seq::empty()
    } else {
        let rest = client_inflight(list.drop_last(), client_id, now);
        let last = list.last();
        if last.0@.0 == client_id && !crate::broker::storage::past(last.1.expires_at, now) {
            rest.push(last.1)
        } else {
            rest
        }
    }
}

/// Whether a topic has a retained message that a lookup by filter gives.
pub open spec fn retained_for(
    retained: Map<Seq<char>, RetainedMessage>,
    topic_filter: Seq<char>,
    now: u64,
    topic: Seq<char>,
) -> bool {
    &&& retained.contains_key(topic)
    &&& crate::topic::topic_matches(topic, topic_filter)
    &&& !crate::broker::storage::past(retained[topic].expires_at, now)
}

impl MemoryBackend {
    /// The retained messages by topic.
    pub closed spec fn retained(&self) -> Map<Seq<char>, RetainedMessage> {
        self.retained@
    }

    /// The retained messages in the order in which their topics came.
    pub closed spec fn retained_list(&self) -> Seq<(Seq<char>, RetainedMessage)> {
        self.retained.listing()
    }

    /// The queues.
    pub closed spec fn queues(&self) -> QueueRegistry {
        self.queues
    }

    /// The in-flight messages by client and slot.
    pub closed spec fn inflight(&self) -> Map<Row, InflightMessage> {
        self.inflight@
    }

    /// The in-flight messages in order.
    pub closed spec fn inflight_list(&self) -> Seq<(RowKey, InflightMessage)> {
        self.inflight.listing()
    }

    /// The list of retained messages holds each topic once, with its message.
    pub proof fn lemma_retained_list(&self)
        requires
            self.valid(),
        ensures
            crate::text_map::distinct_keys(self.retained_list()),
            self.retained() == crate::text_map::as_map(self.retained_list()),
    {
    }

    /// The list of in-flight messages holds each row once, with its message.
    pub proof fn lemma_inflight_list(&self)
        requires
            self.valid(),
        ensures
            super::row_map::distinct_rows(self.inflight_list()),
            self.inflight() == super::row_map::rows_map(self.inflight_list()),
    {
        self.inflight.lemma_listing();
    }

    /// Only the sessions may differ.
    pub open spec fn same_but_sessions(&self, other: &MemoryBackend) -> bool {
        &&& self.retained() == other.retained()
        &&& self.retained_list() == other.retained_list()
        &&& self.queues() == other.queues()
        &&& self.inflight() == other.inflight()
        &&& self.inflight_list() == other.inflight_list()
    }

    /// Only the retained messages may differ.
    pub open spec fn same_but_retained(&self, other: &MemoryBackend) -> bool {
        &&& self.stored() == other.stored()
        &&& self.queues() == other.queues()
        &&& self.inflight() == other.inflight()
        &&& self.inflight_list() == other.inflight_list()
    }

    /// Only the queues may differ.
    pub open spec fn same_but_queues(&self, other: &MemoryBackend) -> bool {
        &&& self.retained() == other.retained()
        &&& self.retained_list() == other.retained_list()
        &&& self.stored() == other.stored()
        &&& self.inflight() == other.inflight()
        &&& self.inflight_list() == other.inflight_list()
    }

    /// Only the in-flight messages may differ.
    pub open spec fn same_but_inflight(&self, other: &MemoryBackend) -> bool {
        &&& self.retained() == other.retained()
        &&& self.retained_list() == other.retained_list()
        &&& self.stored() == other.stored()
        &&& self.queues() == other.queues()
    }

    /// A backend with the default bounds on queues.
    pub fn new() -> (r: Self)
        ensures
            r.valid(),
            r.is_empty(),
            r.queues().bounds() == (QueueLimits { max_messages: 10_000, max_bytes: 67_108_864 }),
    {
        MemoryBackend::with_queue_limits(QueueLimits::default())
    }

    /// Nothing is kept.
    pub open spec fn is_empty(&self) -> bool {
        &&& self.retained() == Map::<Seq<char>, RetainedMessage>::empty()
        &&& self.stored() == Map::<Seq<char>, ClientSession>::empty()
        &&& self.queues()@ == Map::<Seq<char>, super::client_queue::Registered>::empty()
        &&& !self.queues().persists()
        &&& self.queues().counter() == super::client_queue::SEQ_FLOOR
        &&& self.queues().left_work() == Seq::<super::client_queue::QueueOp>::empty()
        &&& self.inflight() == Map::<Row, InflightMessage>::empty()
    }

    /// A backend with bounds on queues.
    pub fn with_queue_limits(limits: QueueLimits) -> (r: Self)
        ensures
            r.valid(),
            r.is_empty(),
            r.queues().bounds() == limits,
    {
        MemoryBackend {
            retained: TextMap::new(),
            sessions: TextMap::new(),
            queues: QueueRegistry::new(limits, false),
            inflight: RowMap::new(),
        }
    }

    /// Keeps the retained message of a topic.
    pub fn store_retained_message(&mut self, topic: &str, message: RetainedMessage)
        requires
            old(self).valid(),
        ensures
            final(self).valid(),
            final(self).retained() == old(self).retained().insert(topic@, message),
            final(self).same_but_retained(old(self)),
    {
        let _ = self.retained.insert(owned(topic), message);
    }

    /// The retained message of a topic; an expired one is removed and counts as absent.
    pub fn get_retained_message(&mut self, topic: &str, now: u64) -> (r: Option<RetainedMessage>)
        requires
            old(self).valid(),
        ensures
            final(self).valid(),
            r == (if live_retained(old(self).retained(), now).contains_key(topic@) {
                Some(old(self).retained()[topic@])
            } else {
                None
            }),
            final(self).retained() == (if r is None {
                old(self).retained().remove(topic@)
            } else {
                old(self).retained()
            }),
            final(self).same_but_retained(old(self)),
    {
        let ghost before = self.retained@;
        let message = match self.retained.get(topic) {
            Some(message) => message.clone(),
            None => {
                assert(before.remove(topic@) =~= before);
                return None;
            },
        };
        if message.is_expired(now) {
            self.remove_retained_message(topic);
            return None;
        }
        Some(message)
    }

    /// Forgets the retained message of a topic.
    pub fn remove_retained_message(&mut self, topic: &str)
        requires
            old(self).valid(),
        ensures
            final(self).valid(),
            final(self).retained() == old(self).retained().remove(topic@),
            final(self).same_but_retained(old(self)),
    {
        let _ = self.retained.remove(topic);
    }

    /// The retained messages whose topics match a filter.
    pub fn get_retained_messages(&self, topic_filter: &str, now: u64) -> (r: Vec<
        (String, RetainedMessage),
    >)
        requires
            self.valid(),
        ensures
            r@.map_values(|e: (String, RetainedMessage)| (e.0@, e.1)) == matching_retained(
                self.retained_list(),
                topic_filter@,
                now,
            ),
            forall|topic: Seq<char>| #[trigger]
                retained_for(self.retained(), topic_filter@, now, topic) ==> r@.map_values(
                    |e: (String, RetainedMessage)| (e.0@, e.1),
                ).contains((topic, self.retained()[topic])),
    {
        proof {
            self.lemma_retained_list();
            assert forall|topic: Seq<char>| #[trigger]
                retained_for(self.retained(), topic_filter@, now, topic) implies matching_retained(
                self.retained_list(),
                topic_filter@,
                now,
            ).contains((topic, self.retained()[topic])) by {
                law_retained_message_is_found_once(*self, topic_filter@, now, topic);
            }
        }
        let ghost list = self.retained.listing();
        let ghost pair = |e: (String, RetainedMessage)| (e.0@, e.1);
        let n: usize = self.retained.len();
        let mut out: Vec<(String, RetainedMessage)> = Vec::new();
        let mut i: usize = 0;
        assert(list.take(0) =~= Seq::<(Seq<char>, RetainedMessage)>::empty());
        assert(out@.map_values(pair) =~= Seq::<(Seq<char>, RetainedMessage)>::empty());
        while i < n
            invariant
                i <= n,
                n == list.len(),
                list == self.retained.listing(),
                pair == (|e: (String, RetainedMessage)| (e.0@, e.1)),
                out@.map_values(pair) == matching_retained(
                    list.take(i as int),
                    topic_filter@,
                    now,
                ),
            decreases n - i,
        {
            assert(list.take(i + 1).drop_last() =~= list.take(i as int));
            assert(list.take(i + 1).last() == list[i as int]);
            let topic = self.retained.key_at(i);
            let message = self.retained.value_at(i);
            if topic_matches_filter(topic.as_str(), topic_filter) && !message.is_expired(now) {
                let ghost before = out@;
                let entry = (topic.clone(), message.clone());
                out.push(entry);
                assert(out@.map_values(pair) =~= before.map_values(pair).push(list[i as int]));
            }
            i = i + 1;
        }
        assert(list.take(list.len() as int) =~= list);
        out
    }

    /// A handle on the queue of a client, which is created on first touch.
    pub fn queue_handle(&mut self, client_id: &str) -> (r: QueueHandle)
        requires
            old(self).valid(),
        ensures
            final(self).valid(),
            final(self).same_but_queues(old(self)),
            r.client_id@ == client_id@,
            QueueRegistry::held(old(self).queues(), final(self).queues(), client_id@),
    {
        self.queues.handle(client_id)
    }

    /// Queues a message for its client.
    pub fn queue_message(&mut self, message: QueuedMessage) -> (r: PushOutcome)
        requires
            old(self).valid(),
        ensures
            final(self).valid(),
            final(self).same_but_queues(old(self)),
            QueueRegistry::pushed(
                old(self).queues(),
                final(self).queues(),
                message.client_id@,
                message,
                r,
            ),
    {
        let client_id = message.client_id.clone();
        self.queues.push(client_id.as_str(), message)
    }

    /// The messages that wait for a client.
    pub fn get_queued_messages(&self, client_id: &str, now: u64) -> (r: Vec<QueuedMessage>)
        requires
            self.valid(),
        ensures
            r@ == super::client_queue::delivered(
                super::client_queue::live(self.queues().entries_of(client_id@), now),
                now,
            ),
    {
        match self.queues.queue(client_id) {
            Some(queue) => queue.peek_all(now),
            None => Vec::new(),
        }
    }

    /// Drops the messages that wait for a client.
    pub fn remove_queued_messages(&mut self, client_id: &str)
        requires
            old(self).valid(),
        ensures
            final(self).valid(),
            final(self).same_but_queues(old(self)),
            final(self).queues().entries_of(client_id@) == super::client_queue::kept(
                old(self).queues().entries_of(client_id@),
                super::client_queue::DropRule::Below(None),
            ),
            final(self).queues().same_settings(&old(self).queues()),
            final(self).queues()@.remove(client_id@) == old(self).queues()@.remove(client_id@),
            final(self).queues()@.contains_key(client_id@) == old(self).queues()@.contains_key(
                client_id@,
            ),
            final(self).queues().control_of(client_id@) == old(self).queues().control_of(
                client_id@,
            ),
            final(self).queues().work_of(client_id@) == old(self).queues().work_of(client_id@),
            old(self).queues()@.contains_key(client_id@) ==> final(self).queues().fits(
                client_id@,
                final(self).queues()@[client_id@].queue(),
            ) && final(self).queues()@[client_id@].queue().id()
                == old(self).queues()@[client_id@].queue().id(),
    {
        let ghost before = self.queues;
        if let Some(queue) = self.queues.queue_mut(client_id) {
            let _ = queue.clear(None);
        }
        assert(self.queues@.remove(client_id@) =~= before@.remove(client_id@));
    }

    /// Keeps an in-flight message.
    pub fn store_inflight_message(&mut self, message: InflightMessage)
        requires
            old(self).valid(),
        ensures
            final(self).valid(),
            final(self).same_but_inflight(old(self)),
            final(self).inflight() == old(self).inflight().insert(
                (
                    message.client_id@,
                    super::write_behind::inflight_slot(message.packet_id, message.direction),
                ),
                message,
            ),
    {
        let key = inflight_key(message.client_id.clone(), message.packet_id, message.direction);
        self.inflight.insert(key, message);
    }

    /// The in-flight messages of a client.
    pub fn get_inflight_messages(&self, client_id: &str, now: u64) -> (r: Vec<InflightMessage>)
        requires
            self.valid(),
        ensures
            r@ == client_inflight(self.inflight_list(), client_id@, now),
            forall|slot: u64|
                #![trigger self.inflight()[(client_id@, slot)]]
                self.inflight().contains_key((client_id@, slot)) && !crate::broker::storage::past(
                    self.inflight()[(client_id@, slot)].expires_at,
                    now,
                ) ==> r@.contains(self.inflight()[(client_id@, slot)]),
    {
        proof {
            assert forall|slot: u64|
                #![trigger self.inflight()[(client_id@, slot)]]
                self.inflight().contains_key((client_id@, slot)) && !crate::broker::storage::past(
                    self.inflight()[(client_id@, slot)].expires_at,
                    now,
                ) implies client_inflight(self.inflight_list(), client_id@, now).contains(
                self.inflight()[(client_id@, slot)],
            ) by {
                law_inflight_message_is_found(*self, client_id@, now, slot);
            }
        }
        let ghost list = self.inflight.listing();
        let n: usize = self.inflight.len();
        let mut out: Vec<InflightMessage> = Vec::new();
        let mut i: usize = 0;
        assert(list.take(0) =~= Seq::<(RowKey, InflightMessage)>::empty());
        while i < n
            invariant
                i <= n,
                n == list.len(),
                list == self.inflight.listing(),
                out@ == client_inflight(list.take(i as int), client_id@, now),
            decreases n - i,
        {
            assert(list.take(i + 1).drop_last() =~= list.take(i as int));
            assert(list.take(i + 1).last() == list[i as int]);
            let message = self.inflight.value_at(i);
            if same_text(self.inflight.key_at(i).client_id.as_str(), client_id)
                && !message.is_expired(now) {
                out.push(message.clone());
            }
            i = i + 1;
        }
        assert(list.take(list.len() as int) =~= list);
        out
    }

    /// Forgets an in-flight message.
    pub fn remove_inflight_message(
        &mut self,
        client_id: &str,
        packet_id: u16,
        direction: InflightDirection,
    )
        requires
            old(self).valid(),
        ensures
            final(self).valid(),
            final(self).same_but_inflight(old(self)),
            final(self).inflight() == old(self).inflight().remove(
                (client_id@, super::write_behind::inflight_slot(packet_id, direction)),
            ),
    {
        let key = inflight_key(owned(client_id), packet_id, direction);
        let _ = self.inflight.remove(&key);
    }

    /// Forgets the in-flight messages of a client.
    pub fn remove_all_inflight_messages(&mut self, client_id: &str)
        requires
            old(self).valid(),
        ensures
            final(self).valid(),
            final(self).same_but_inflight(old(self)),
            final(self).inflight() == super::row_map::without_client(
                old(self).inflight(),
                client_id@,
            ),
    {
        self.inflight.remove_client(client_id);
    }

    fn expire_retained(&mut self, now: u64)
        requires
            old(self).valid(),
        ensures
            final(self).valid(),
            final(self).retained() == live_retained(old(self).retained(), now),
            final(self).same_but_retained(old(self)),
    {
        let ghost origin = *self;
        let ghost all = self.retained@;
        let mut i: usize = 0;
        while i < self.retained.len()
            invariant
                self.valid(),
                self.same_but_retained(&origin),
                all == origin.retained(),
                i <= self.retained.listing().len(),
                live_retained(self.retained@, now) == live_retained(all, now),
                forall|j: int|
                    0 <= j < i ==> !crate::broker::storage::past(
                        (#[trigger] self.retained.listing()[j]).1.expires_at,
                        now,
                    ),
            decreases self.retained.listing().len() - i,
        {
            proof {
                crate::text_map::lemma_as_map(self.retained.listing());
            }
            if self.retained.value_at(i).is_expired(now) {
                let ghost before = self.retained;
                let _ = self.retained.remove_at(i);
                proof {
                    let key = before.listing()[i as int].0;
                    assert(before@.contains_key(key));
                    assert(live_retained(self.retained@, now) =~= live_retained(before@, now));
                    assert forall|j: int| 0 <= j < i implies !crate::broker::storage::past(
                        (#[trigger] self.retained.listing()[j]).1.expires_at,
                        now,
                    ) by {
                        assert(self.retained.listing()[j] == before.listing()[j]);
                    }
                }
            } else {
                i = i + 1;
            }
        }
        proof {
            crate::text_map::lemma_as_map(self.retained.listing());
            assert forall|k: Seq<char>| #[trigger]
                self.retained@.contains_key(k) implies !crate::broker::storage::past(
                self.retained@[k].expires_at,
                now,
            ) by {
                let j = choose|j: int|
                    0 <= j < self.retained.listing().len() && (
                    #[trigger] self.retained.listing()[j]).0 == k;
            }
            assert(self.retained@ =~= live_retained(self.retained@, now));
        }
    }

    fn expire_sessions(&mut self, now: u64)
        requires
            old(self).valid(),
        ensures
            final(self).valid(),
            final(self).stored() == live_sessions(old(self).stored(), now),
            final(self).same_but_sessions(old(self)),
    {
        let ghost origin = *self;
        let ghost all = self.sessions@;
        let mut i: usize = 0;
        while i < self.sessions.len()
            invariant
                self.valid(),
                self.same_but_sessions(&origin),
                all == origin.stored(),
                i <= self.sessions.listing().len(),
                live_sessions(self.sessions@, now) == live_sessions(all, now),
                forall|j: int|
                    0 <= j < i ==> !(#[trigger] self.sessions.listing()[j]).1.expired(now),
            decreases self.sessions.listing().len() - i,
        {
            proof {
                crate::text_map::lemma_as_map(self.sessions.listing());
            }
            if self.sessions.value_at(i).is_expired(now) {
                let ghost before = self.sessions;
                let _ = self.sessions.remove_at(i);
                proof {
                    let key = before.listing()[i as int].0;
                    assert(before@.contains_key(key));
                    assert(live_sessions(self.sessions@, now) =~= live_sessions(before@, now));
                    assert forall|j: int| 0 <= j < i implies !(
                    #[trigger] self.sessions.listing()[j]).1.expired(now) by {
                        assert(self.sessions.listing()[j] == before.listing()[j]);
                    }
                }
            } else {
                i = i + 1;
            }
        }
        proof {
            crate::text_map::lemma_as_map(self.sessions.listing());
            assert forall|k: Seq<char>| #[trigger] self.sessions@.contains_key(
                k,
            ) implies !self.sessions@[k].expired(now) by {
                let j = choose|j: int|
                    0 <= j < self.sessions.listing().len() && (
                    #[trigger] self.sessions.listing()[j]).0 == k;
            }
            assert(self.sessions@ =~= live_sessions(self.sessions@, now));
        }
    }

    fn expire_inflight(&mut self, now: u64)
        requires
            old(self).valid(),
        ensures
            final(self).valid(),
            final(self).inflight() == live_inflight(old(self).inflight(), now),
            final(self).same_but_inflight(old(self)),
    {
        let ghost origin = *self;
        let rows = self.inflight.drain();
        let ghost all = rows@;
        assert(all.take(0) =~= Seq::<(RowKey, InflightMessage)>::empty());
        assert(self.inflight@ =~= live_inflight(
            super::row_map::rows_map(all.take(0)),
            now,
        ));
        for row in it: rows
            invariant
                it.seq() == all,
                super::row_map::distinct_rows(all),
                self.valid(),
                self.same_but_inflight(&origin),
                self.inflight@ == live_inflight(
                    super::row_map::rows_map(all.take(it.index() as int)),
                    now,
                ),
        {
            let ghost i = it.index() as int;
            let ghost before = self.inflight@;
            let ghost head = super::row_map::rows_map(all.take(i));
            proof {
                assert(all.take(i + 1).drop_last() =~= all.take(i));
                assert(all.take(i + 1).last() == row);
                assert forall|a: int, b: int|
                    #![trigger all.take(i)[a], all.take(i)[b]]
                    0 <= a < b < i implies all.take(i)[a].0@ != all.take(i)[b].0@ by {
                    assert(all[a].0@ != all[b].0@);
                }
                super::row_map::lemma_rows_map(all.take(i));
                assert(!head.contains_key(row.0@)) by {
                    if head.contains_key(row.0@) {
                        let j = choose|j: int|
                            0 <= j < i && (#[trigger] all.take(i)[j]).0@ == row.0@;
                        assert(all[j].0@ != all[i].0@);
                    }
                }
            }
            let ghost next = super::row_map::rows_map(all.take(i + 1));
            assert(next == head.insert(row.0@, row.1));
            if !row.1.is_expired(now) {
                self.inflight.insert(row.0, row.1);
                assert(self.inflight@ =~= live_inflight(next, now));
            } else {
                assert(self.inflight@ =~= live_inflight(next, now));
            }
        }
        assert(all.take(all.len() as int) =~= all);
    }

    /// Drops what has expired: retained messages, sessions, queued and in-flight messages; and the
    /// queues that are empty and that nobody holds.
    pub fn cleanup_expired(&mut self, now: u64)
        requires
            old(self).valid(),
        ensures
            final(self).valid(),
            final(self).retained() == live_retained(old(self).retained(), now),
            final(self).stored() == live_sessions(old(self).stored(), now),
            final(self).inflight() == live_inflight(old(self).inflight(), now),
            final(self).queues().same_settings(&old(self).queues()),
            forall|k: Seq<char>| #[trigger]
                final(self).queues()@.contains_key(k) <==> old(self).queues()@.contains_key(k) && !(
                old(self).queues()@[k].holders() == 0 && super::client_queue::live(
                    old(self).queues()@[k].queue().queued(),
                    now,
                ).len() == 0),
            forall|k: Seq<char>| #[trigger]
                final(self).queues()@.contains_key(k) ==> QueueRegistry::purged(
                    old(self).queues()@[k].queue(),
                    final(self).queues()@[k].queue(),
                    now,
                ) && final(self).queues()@[k].holders() == old(self).queues()@[k].holders(),
    {
        self.expire_retained(now);
        self.expire_sessions(now);
        let ghost before = self.queues;
        self.queues.purge_expired(now);
        let ghost middle = self.queues;
        let _ = self.queues.evict_idle();
        proof {
            assert forall|k: Seq<char>| #[trigger] before@.contains_key(k) <==> middle@.contains_key(
                k,
            ) by {
                assert(before@.dom().contains(k) == middle@.dom().contains(k));
            }
        }
        self.expire_inflight(now);
    }
}

impl Default for MemoryBackend {
    fn default() -> (r: Self)
        ensures
            r.valid(),
            r.is_empty(),
            r.queues().bounds() == (QueueLimits { max_messages: 10_000, max_bytes: 67_108_864 }),
    {
        MemoryBackend::new()
    }
}

impl SessionStore for MemoryBackend {
    closed spec fn stored(&self) -> Sessions {
        self.sessions@
    }

    closed spec fn valid(&self) -> bool {
        &&& self.retained.wf()
        &&& self.sessions.wf()
        &&& self.queues.wf()
        &&& !self.queues.persists()
        &&& self.inflight.wf()
        &&& forall|k: Seq<char>| #[trigger]
            self.sessions@.contains_key(k) ==> self.sessions@[k].wf()
                && self.sessions@[k].client_id@ == k
    }

    /// Every session can be removed.
    open spec fn refusal(&self, client_id: Seq<char>) -> Option<MqttError> {
        None
    }

    fn store_session(&mut self, session: ClientSession)
        ensures
            final(self).same_but_sessions(old(self)),
    {
        let client_id = session.client_id.clone();
        let _ = self.sessions.insert(client_id, session);
    }

    fn get_session(&mut self, client_id: &str, now: u64) -> (r: Option<ClientSession>)
        ensures
            final(self).same_but_sessions(old(self)),
    {
        let session = match self.sessions.get(client_id) {
            Some(session) => session.clone(),
            None => {
                return None;
            },
        };
        if session.is_expired(now) {
            let _ = self.sessions.remove(client_id);
            return None;
        }
        Some(session)
    }

    fn remove_session(&mut self, client_id: &str) -> (r: Result<()>)
        ensures
            final(self).same_but_sessions(old(self)),
    {
        let _ = self.sessions.remove(client_id);
        Ok(())
    }
}

/// A lookup by filter gives exactly the retained messages of the matching topics that have not
/// expired.
pub proof fn law_matching_retained_messages(
    list: Seq<(Seq<char>, RetainedMessage)>,
    topic_filter: Seq<char>,
    now: u64,
    entry: (Seq<char>, RetainedMessage),
)
    ensures
        matching_retained(list, topic_filter, now).contains(entry) <==> list.contains(entry)
            && crate::topic::topic_matches(entry.0, topic_filter) && !crate::broker::storage::past(
            entry.1.expires_at,
            now,
        ),
    decreases list.len(),
{
    if list.len() > 0 {
        let rest = list.drop_last();
        law_matching_retained_messages(rest, topic_filter, now, entry);
        let found = matching_retained(rest, topic_filter, now);
        assert(list =~= rest.push(list.last()));
        vstd::seq_lib::lemma_seq_contains_after_push(rest, list.last(), entry);
        vstd::seq_lib::lemma_seq_contains_after_push(found, list.last(), entry);
    }
}

/// Of a list that holds each topic once, a lookup by filter gives each topic at most once, and
/// exactly those whose messages match and have not expired.
pub proof fn law_lookup_gives_each_topic_once(
    list: Seq<(Seq<char>, RetainedMessage)>,
    topic_filter: Seq<char>,
    now: u64,
    topic: Seq<char>,
)
    requires
        crate::text_map::distinct_keys(list),
    ensures
        ({
            let found = matching_retained(list, topic_filter, now);
            let map = crate::text_map::as_map(list);
            &&& crate::text_map::distinct_keys(found)
            &&& crate::text_map::as_map(found).contains_key(topic) <==> retained_for(
                map,
                topic_filter,
                now,
                topic,
            )
            &&& retained_for(map, topic_filter, now, topic) ==> found.contains((topic, map[topic]))
        }),
{
    let found = matching_retained(list, topic_filter, now);
    let map = crate::text_map::as_map(list);
    lemma_lookup_keeps_order(list, topic_filter, now);
    assert forall|i: int, j: int|
        #![trigger found[i], found[j]]
        0 <= i < j < found.len() implies found[i].0 != found[j].0 by {
        let places = found_places(list, topic_filter, now);
        assert(places[i] < places[j]);
        assert(list[places[i]].0 != list[places[j]].0);
    }
    crate::text_map::lemma_as_map(list);
    crate::text_map::lemma_as_map(found);
    if crate::text_map::as_map(found).contains_key(topic) {
        let i = choose|i: int| 0 <= i < found.len() && (#[trigger] found[i]).0 == topic;
        law_matching_retained_messages(list, topic_filter, now, found[i]);
        let j = choose|j: int| 0 <= j < list.len() && list[j] == found[i];
        assert(map.contains_key(list[j].0));
    }
    if retained_for(map, topic_filter, now, topic) {
        let j = choose|j: int| 0 <= j < list.len() && (#[trigger] list[j]).0 == topic;
        assert(list[j] == (topic, map[topic]));
        law_matching_retained_messages(list, topic_filter, now, list[j]);
        let i = choose|i: int| 0 <= i < found.len() && found[i] == list[j];
        assert(found[i].0 == topic);
    }
}

/// The places of the entries that a lookup by filter gives.
spec fn found_places(
    list: Seq<(Seq<char>, RetainedMessage)>,
    topic_filter: Seq<char>,
    now: u64,
) -> Seq<int>
    decreases list.len(),
{
    if list.len() == 0 {
        Seq::empty()
    } else {
        let rest = found_places(list.drop_last(), topic_filter, now);
        let last = list.last();
        if crate::topic::topic_matches(last.0, topic_filter) && !crate::broker::storage::past(
            last.1.expires_at,
            now,
        ) {
            rest.push(list.len() - 1)
        } else {
            rest
        }
    }
}

proof fn lemma_lookup_keeps_order(
    list: Seq<(Seq<char>, RetainedMessage)>,
    topic_filter: Seq<char>,
    now: u64,
)
    ensures
        ({
            let found = matching_retained(list, topic_filter, now);
            let places = found_places(list, topic_filter, now);
            &&& places.len() == found.len()
            &&& forall|i: int|
                0 <= i < found.len() ==> 0 <= (#[trigger] places[i]) < list.len() && list[places[i]]
                    == found[i]
            &&& forall|i: int, j: int|
                #![trigger places[i], places[j]]
                0 <= i < j < found.len() ==> places[i] < places[j]
        }),
    decreases list.len(),
{
    if list.len() > 0 {
        let rest = list.drop_last();
        lemma_lookup_keeps_order(rest, topic_filter, now);
        let found = matching_retained(list, topic_filter, now);
        let places = found_places(list, topic_filter, now);
        let before = found_places(rest, topic_filter, now);
        assert forall|i: int| 0 <= i < found.len() implies 0 <= (#[trigger] places[i]) < list.len()
            && list[places[i]] == found[i] by {
            if i < before.len() {
                assert(places[i] == before[i]);
                assert(rest[before[i]] == list[before[i]]);
                assert(found[i] == matching_retained(rest, topic_filter, now)[i]);
            }
        }
        assert forall|i: int, j: int|
            #![trigger places[i], places[j]]
            0 <= i < j < found.len() implies places[i] < places[j] by {
            assert(places[i] == before[i]);
            if j < before.len() {
                assert(places[j] == before[j]);
            }
        }
    }
}

/// What a backend keeps as a retained message is read back: a lookup by a filter that matches the
/// topic gives the message exactly once, as long as it has not expired, and gives no other.
pub proof fn law_retained_message_is_found_once(
    backend: MemoryBackend,
    topic_filter: Seq<char>,
    now: u64,
    topic: Seq<char>,
)
    requires
        backend.valid(),
    ensures
        ({
            let found = matching_retained(backend.retained_list(), topic_filter, now);
            let kept = backend.retained();
            &&& crate::text_map::distinct_keys(found)
            &&& crate::text_map::as_map(found).contains_key(topic) <==> retained_for(
                kept,
                topic_filter,
                now,
                topic,
            )
            &&& retained_for(kept, topic_filter, now, topic) ==> found.contains(
                (topic, kept[topic]),
            )
        }),
{
    backend.lemma_retained_list();
    law_lookup_gives_each_topic_once(backend.retained_list(), topic_filter, now, topic);
}

/// An in-flight message that a backend keeps is read back among those of its client, as long as it
/// has not expired.
pub proof fn law_inflight_message_is_found(
    backend: MemoryBackend,
    client_id: Seq<char>,
    now: u64,
    slot: u64,
)
    requires
        backend.valid(),
        backend.inflight().contains_key((client_id, slot)),
        !crate::broker::storage::past(backend.inflight()[(client_id, slot)].expires_at, now),
    ensures
        client_inflight(backend.inflight_list(), client_id, now).contains(
            backend.inflight()[(client_id, slot)],
        ),
{
    let list = backend.inflight_list();
    let message = backend.inflight()[(client_id, slot)];
    backend.lemma_inflight_list();
    super::row_map::lemma_rows_map(list);
    let i = choose|i: int| 0 <= i < list.len() && (#[trigger] list[i]).0@ == (client_id, slot);
    assert(list[i].0@.0 == client_id && list[i].1 == message);
    law_inflight_messages_of_client(list, client_id, now, message);
}

/// As many in-flight messages of a client are read back as rows of the client are live: none comes
/// out twice.
pub proof fn law_inflight_messages_come_out_once(
    backend: MemoryBackend,
    client_id: Seq<char>,
    now: u64,
)
    requires
        backend.valid(),
    ensures
        client_inflight(backend.inflight_list(), client_id, now).len() == backend.inflight().dom().filter(
            |k: Row|
                k.0 == client_id && !crate::broker::storage::past(
                    backend.inflight()[k].expires_at,
                    now,
                ),
        ).len(),
{
    backend.lemma_inflight_list();
    lemma_client_inflight_count(backend.inflight_list(), client_id, now);
}

proof fn lemma_client_inflight_count(
    list: Seq<(RowKey, InflightMessage)>,
    client_id: Seq<char>,
    now: u64,
)
    requires
        super::row_map::distinct_rows(list),
    ensures
        ({
            let map = super::row_map::rows_map(list);
            let wanted = |k: Row|
                k.0 == client_id && !crate::broker::storage::past(map[k].expires_at, now);
            &&& map.dom().filter(wanted).finite()
            &&& client_inflight(list, client_id, now).len() == map.dom().filter(wanted).len()
        }),
    decreases list.len(),
{
    let map = super::row_map::rows_map(list);
    let wanted = |k: Row| k.0 == client_id && !crate::broker::storage::past(map[k].expires_at, now);
    if list.len() > 0 {
        let rest = list.drop_last();
        let key = list.last().0@;
        assert forall|i: int, j: int|
            #![trigger rest[i], rest[j]]
            0 <= i < j < rest.len() implies rest[i].0@ != rest[j].0@ by {
            assert(list[i].0@ != list[j].0@);
        }
        lemma_client_inflight_count(rest, client_id, now);
        super::row_map::lemma_rows_map(rest);
        let before = super::row_map::rows_map(rest);
        assert(!before.contains_key(key)) by {
            if before.contains_key(key) {
                let i = choose|i: int| 0 <= i < rest.len() && (#[trigger] rest[i]).0@ == key;
                assert(list[i].0@ != list[list.len() - 1].0@);
            }
        }
        let wanted_before = |k: Row|
            k.0 == client_id && !crate::broker::storage::past(before[k].expires_at, now);
        let old_set = before.dom().filter(wanted_before);
        let new_set = map.dom().filter(wanted);
        if wanted(key) {
            assert(new_set =~= old_set.insert(key));
        } else {
            assert(new_set =~= old_set);
        }
    } else {
        assert(map.dom().filter(wanted) =~= Set::<Row>::empty());
    }
}

/// The in-flight messages of a client are exactly those of its slots that have not expired.
pub proof fn law_inflight_messages_of_client(
    list: Seq<(RowKey, InflightMessage)>,
    client_id: Seq<char>,
    now: u64,
    message: InflightMessage,
)
    ensures
        client_inflight(list, client_id, now).contains(message) <==> exists|i: int|
            0 <= i < list.len() && (#[trigger] list[i]).0@.0 == client_id && list[i].1 == message
                && !crate::broker::storage::past(message.expires_at, now),
    decreases list.len(),
{
    if list.len() > 0 {
        let rest = list.drop_last();
        law_inflight_messages_of_client(rest, client_id, now, message);
        let found = client_inflight(rest, client_id, now);
        vstd::seq_lib::lemma_seq_contains_after_push(found, list.last().1, message);
        if client_inflight(list, client_id, now).contains(message) {
            if found.contains(message) {
                let i = choose|i: int|
                    0 <= i < rest.len() && (#[trigger] rest[i]).0@.0 == client_id && rest[i].1
                        == message && !crate::broker::storage::past(message.expires_at, now);
                assert(list[i] == rest[i]);
            } else {
                assert(list[list.len() - 1].1 == message);
            }
        }
        if exists|i: int|
            0 <= i < list.len() && (#[trigger] list[i]).0@.0 == client_id && list[i].1 == message
                && !crate::broker::storage::past(message.expires_at, now) {
            let i = choose|i: int|
                0 <= i < list.len() && (#[trigger] list[i]).0@.0 == client_id && list[i].1
                    == message && !crate::broker::storage::past(message.expires_at, now);
            if i < rest.len() {
                assert(rest[i] == list[i]);
            }
        }
    } else {
        assert(!client_inflight(list, client_id, now).contains(message));
    }
}

/// A cleanup keeps what has not expired and nothing else: messages until their deadline, sessions
/// for their expiry interval, and everything without one for good.
pub proof fn law_cleanup_keeps_what_has_not_expired(
    retained: Map<Seq<char>, RetainedMessage>,
    sessions: Sessions,
    inflight: Map<Row, InflightMessage>,
    key: Seq<char>,
    row: Row,
    now: u64,
)
    ensures
        live_retained(retained, now).contains_key(key) <==> retained.contains_key(key) && (
        retained[key].expires_at is None || now <= retained[key].expires_at->0),
        live_retained(retained, now).contains_key(key) ==> live_retained(retained, now)[key]
            == retained[key],
        live_sessions(sessions, now).contains_key(key) <==> sessions.contains_key(key) && (
        sessions[key].expiry_interval is None || now <= sessions[key].last_seen
            + sessions[key].expiry_interval->0 * 1000),
        live_sessions(sessions, now).contains_key(key) ==> live_sessions(sessions, now)[key]
            == sessions[key],
        live_inflight(inflight, now).contains_key(row) <==> inflight.contains_key(row) && (
        inflight[row].expires_at is None || now <= inflight[row].expires_at->0),
        live_inflight(inflight, now).contains_key(row) ==> live_inflight(inflight, now)[row]
            == inflight[row],
{
}

/// Of a list of retained messages a lookup gives those whose topic matches the filter and whose
/// deadline has not passed, in their order.
pub proof fn law_lookup_gives_matching_messages_in_order(
    list: Seq<(Seq<char>, RetainedMessage)>,
    topic_filter: Seq<char>,
    now: u64,
)
    ensures
        matching_retained(list, topic_filter, now) == list.filter(
            |e: (Seq<char>, RetainedMessage)|
                crate::topic::topic_matches(e.0, topic_filter) && (e.1.expires_at is None || now
                    <= e.1.expires_at->0),
        ),
    decreases list.len(),
{
    reveal(Seq::filter);
    if list.len() > 0 {
        law_lookup_gives_matching_messages_in_order(list.drop_last(), topic_filter, now);
    }
}

} // verus!
