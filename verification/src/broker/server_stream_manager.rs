//! The streams that a broker opens to a client on a QUIC connection.
//!
//! The streams themselves belong to the caller, who opens, writes and closes them; here each is
//! known by its flow. Time is a number of milliseconds on a clock that the caller reads.

use crate::error::{MqttError, Result};
use crate::id_map::IdMap;
use crate::session::quic_flow::{FlowFlags, FlowId, FlowIdGenerator};
use crate::text::owned;
use crate::text_map::TextMap;
use crate::types::QoS;
use vstd::prelude::*;

verus! {

/// How many streams of topics are kept.
pub const MAX_CACHED_STREAMS: usize = 100;

/// How long a stream of a topic is kept without use, in milliseconds.
pub const STREAM_IDLE_TIMEOUT: u64 = 300_000;

/// How long a flow is remembered after its stream is gone, in seconds.
pub const FLOW_EXPIRE_INTERVAL: u64 = 300;

/// Which streams carry the messages to a client.
#[derive(Debug, Clone, Copy, PartialEq, Eq, Structural)]
pub enum ServerDeliveryStrategy {
    ControlOnly,
    PerTopic,
    PerPublish,
}

/// A stream that is kept.
#[derive(Debug, Clone, Copy, PartialEq, Eq, Structural)]
pub struct ServerStreamInfo {
    pub flow_id: FlowId,
    pub last_used: u64,
}

/// A stream that is to be opened, and the header with which it begins.
#[derive(Debug, Clone, Copy, PartialEq, Eq, Structural)]
pub struct NewStream {
    pub flow_id: FlowId,
    /// Acknowledgements are read from it.
    pub bidirectional: bool,
    /// In seconds.
    pub expire_interval: u64,
    pub flags: FlowFlags,
}

/// How a message goes to a client.
#[derive(Debug)]
pub enum StreamStep {
    /// On the stream of its topic.
    Topic {
        /// The streams that are closed first.
        closed: Vec<FlowId>,
        /// The stream, if it is there; otherwise one is opened, see `open_topic_stream`.
        stream: Option<FlowId>,
    },
    /// On a stream of its own, which is closed after it.
    Own(NewStream),
}

/// Whether a stream has not been used for too long.
pub open spec fn idle(info: ServerStreamInfo, now: u64) -> bool {
    now - info.last_used > STREAM_IDLE_TIMEOUT
}

/// The streams that a broker keeps to a client.
#[derive(Debug)]
pub struct ServerStreamManager {
    pub strategy: ServerDeliveryStrategy,
    pub topic_streams: TextMap<ServerStreamInfo>,
    pub flow_streams: IdMap<ServerStreamInfo>,
    pub flow_id_generator: FlowIdGenerator,
}

/// The streams of topics that are still in use, of those that there were.
pub open spec fn in_use(
    before: Map<Seq<char>, ServerStreamInfo>,
    after: Map<Seq<char>, ServerStreamInfo>,
    now: u64,
) -> bool {
    &&& forall|k: Seq<char>| #[trigger]
        after.contains_key(k) <==> before.contains_key(k) && !idle(before[k], now)
    &&& forall|k: Seq<char>| #[trigger] after.contains_key(k) ==> after[k] == before[k]
}

/// The flows of the streams of some topics.
pub open spec fn flows_of(
    streams: Map<Seq<char>, ServerStreamInfo>,
    topics: Seq<Seq<char>>,
) -> Seq<FlowId> {
    topics.map_values(|k: Seq<char>| streams[k].flow_id)
}

/// The flows are those of the streams that were forgotten, each of them once.
pub open spec fn flows_of_forgotten(
    before: Map<Seq<char>, ServerStreamInfo>,
    after: Map<Seq<char>, ServerStreamInfo>,
    closed: Seq<FlowId>,
) -> bool {
    exists|topics: Seq<Seq<char>>|
        {
            &&& topics.no_duplicates()
            &&& closed == #[trigger] flows_of(before, topics)
            &&& forall|k: Seq<char>| #[trigger]
                topics.contains(k) <==> before.contains_key(k) && !after.contains_key(k)
        }
}

/// Of some streams one that was used the longest time ago.
pub open spec fn least_recent(streams: Map<Seq<char>, ServerStreamInfo>, topic: Seq<char>) -> bool {
    &&& streams.contains_key(topic)
    &&& forall|k: Seq<char>| #[trigger]
        streams.contains_key(k) ==> streams[topic].last_used <= streams[k].last_used
}

/// What a list contains when it has one entry more, and that it contains nothing twice.
proof fn lemma_one_more(topics: Seq<Seq<char>>, topic: Seq<char>)
    requires
        topics.no_duplicates(),
        !topics.contains(topic),
    ensures
        topics.push(topic).no_duplicates(),
        forall|k: Seq<char>| #[trigger]
            topics.push(topic).contains(k) <==> topics.contains(k) || k == topic,
{
    let more = topics.push(topic);
    assert forall|k: Seq<char>| #[trigger] more.contains(k) implies topics.contains(k) || k
        == topic by {
        let i = choose|i: int| 0 <= i < more.len() && more[i] == k;
        if i < topics.len() {
            assert(topics[i] == k);
        }
    }
    assert forall|k: Seq<char>| topics.contains(k) || k == topic implies #[trigger] more.contains(
        k,
    ) by {
        if k == topic {
            assert(more[topics.len() as int] == k);
        } else {
            let i = choose|i: int| 0 <= i < topics.len() && topics[i] == k;
            assert(more[i] == k);
        }
    }
    assert forall|i: int, j: int| 0 <= i < more.len() && 0 <= j < more.len() && i != j implies more[i]
        != more[j] by {
        if i == topics.len() {
            assert(topics.contains(topics[j]));
        } else if j == topics.len() {
            assert(topics.contains(topics[i]));
        }
    }
}

impl ServerStreamManager {
    /// No topic and no flow stands twice.
    pub open spec fn wf(&self) -> bool {
        self.topic_streams.wf() && self.flow_streams.wf()
    }

    /// There are no streams.
    pub fn new(strategy: ServerDeliveryStrategy) -> (r: Self)
        ensures
            r.wf(),
            r.strategy == strategy,
            r.topic_streams@ == Map::<Seq<char>, ServerStreamInfo>::empty(),
            r.flow_streams@ == Map::<u64, ServerStreamInfo>::empty(),
            r.flow_id_generator == (FlowIdGenerator { client: 1, server: 1 }),
    {
        ServerStreamManager {
            strategy,
            topic_streams: TextMap::new(),
            flow_streams: IdMap::new(),
            flow_id_generator: FlowIdGenerator::new(),
        }
    }

    /// The same with another strategy.
    pub fn with_strategy(self, strategy: ServerDeliveryStrategy) -> (r: Self)
        ensures
            r == (ServerStreamManager { strategy, ..self }),
    {
        let mut manager = self;
        manager.strategy = strategy;
        manager
    }

    /// Forgets the streams of topics that have not been used for too long; gives their flows.
    pub fn evict_idle_streams(&mut self, now: u64) -> (r: Vec<FlowId>)
        requires
            old(self).wf(),
        ensures
            final(self).wf(),
            in_use(old(self).topic_streams@, final(self).topic_streams@, now),
            flows_of_forgotten(old(self).topic_streams@, final(self).topic_streams@, r@),
            *final(self) == (ServerStreamManager {
                topic_streams: final(self).topic_streams,
                ..*old(self)
            }),
    {
        let ghost origin = *self;
        let ghost all = self.topic_streams@;
        let ghost mut topics: Seq<Seq<char>> = Seq::empty();
        let mut closed: Vec<FlowId> = Vec::new();
        let mut i: usize = 0;
        let mut n: usize = self.topic_streams.len();
        assert(closed@ =~= flows_of(all, topics));
        while i < n
            invariant
                self.wf(),
                i <= n,
                n == self.topic_streams.listing().len(),
                topics.no_duplicates(),
                closed@ == flows_of(all, topics),
                forall|k: Seq<char>| #[trigger]
                    topics.contains(k) <==> all.contains_key(k) && !self.topic_streams@.contains_key(k),
                all == origin.topic_streams@,
                forall|k: Seq<char>| #[trigger]
                    self.topic_streams@.contains_key(k) ==> all.contains_key(k)
                        && self.topic_streams@[k] == all[k],
                forall|k: Seq<char>| #[trigger]
                    all.contains_key(k) && !idle(all[k], now)
                        ==> self.topic_streams@.contains_key(k),
                forall|j: int|
                    0 <= j < i ==> !idle((#[trigger] self.topic_streams.listing()[j]).1, now),
                *self == (ServerStreamManager { topic_streams: self.topic_streams, ..origin }),
            decreases n - i,
        {
            let ghost list = self.topic_streams.listing();
            proof {
                crate::text_map::lemma_as_map(list);
                assert(self.topic_streams@.contains_key(list[i as int].0));
            }
            let info = *self.topic_streams.value_at(i);
            if now >= info.last_used && now - info.last_used > STREAM_IDLE_TIMEOUT {
                let ghost topic = list[i as int].0;
                let ghost before = topics;
                let ghost streams = self.topic_streams@;
                let _ = self.topic_streams.remove_at(i);
                closed.push(info.flow_id);
                n = self.topic_streams.len();
                proof {
                    assert(all[topic] == info);
                    topics = topics.push(topic);
                    assert(closed@ =~= flows_of(all, topics));
                    lemma_one_more(before, topic);
                    assert(self.topic_streams@ == streams.remove(topic));
                }
            } else {
                i = i + 1;
            }
        }
        proof {
            let list = self.topic_streams.listing();
            crate::text_map::lemma_as_map(list);
            assert forall|k: Seq<char>| #[trigger]
                self.topic_streams@.contains_key(k) implies !idle(all[k], now) by {
                let j = choose|j: int| 0 <= j < list.len() && (#[trigger] list[j]).0 == k;
                assert(!idle(list[j].1, now));
            }
        }
        closed
    }

    /// Forgets a stream of a topic that was used the longest time ago; gives its flow.
    pub fn evict_lru_stream(&mut self) -> (r: Option<FlowId>)
        requires
            old(self).wf(),
        ensures
            final(self).wf(),
            match r {
                None => old(self).topic_streams@.dom().len() == 0 && *final(self) == *old(self),
                Some(flow_id) => exists|k: Seq<char>| #[trigger]
                    least_recent(old(self).topic_streams@, k) && flow_id
                        == old(self).topic_streams@[k].flow_id && final(self).topic_streams@
                        == old(self).topic_streams@.remove(k),
            },
            *final(self) == (ServerStreamManager {
                topic_streams: final(self).topic_streams,
                ..*old(self)
            }),
    {
        let n: usize = self.topic_streams.len();
        if n == 0 {
            return None;
        }
        let ghost list = self.topic_streams.listing();
        proof {
            crate::text_map::lemma_as_map(list);
        }
        let mut oldest: usize = 0;
        let mut i: usize = 1;
        while i < n
            invariant
                *self == *old(self),
                list == self.topic_streams.listing(),
                n == list.len(),
                i <= n,
                oldest < i,
                forall|j: int|
                    0 <= j < i ==> list[oldest as int].1.last_used <= (
                    #[trigger] list[j]).1.last_used,
            decreases n - i,
        {
            if self.topic_streams.value_at(i).last_used < self.topic_streams.value_at(
                oldest,
            ).last_used {
                oldest = i;
            }
            i = i + 1;
        }
        proof {
            let topic = list[oldest as int].0;
            let streams = self.topic_streams@;
            assert forall|k: Seq<char>| #[trigger] streams.contains_key(k) implies streams[topic].last_used
                <= streams[k].last_used by {
                let j = choose|j: int| 0 <= j < list.len() && (#[trigger] list[j]).0 == k;
                assert(streams[list[j].0] == list[j].1);
            }
            assert(least_recent(streams, topic));
        }
        let (_, info) = self.topic_streams.remove_at(oldest);
        Some(info.flow_id)
    }

    /// Looks for the stream of a topic. Streams that were not used for too long are closed, and one
    /// more if the stream is not there and there are as many as are kept.
    pub fn write_on_topic_stream(&mut self, topic: &str, now: u64) -> (r: (
        Vec<FlowId>,
        Option<FlowId>,
    ))
        requires
            old(self).wf(),
        ensures
            final(self).wf(),
            ServerStreamManager::topic_looked_up(*old(self), *final(self), topic@, now, r.1),
            flows_of_forgotten(old(self).topic_streams@, final(self).topic_streams@, r.0@),
    {
        let ghost origin = *self;
        let mut closed = self.evict_idle_streams(now);
        let ghost fresh = *self;
        if let Some(info) = self.topic_streams.get_mut(topic) {
            info.last_used = now;
            let flow_id = info.flow_id;
            proof {
                let old_info = fresh.topic_streams@[topic@];
                assert(self.topic_streams@ == fresh.topic_streams@.insert(
                    topic@,
                    ServerStreamInfo { last_used: now, ..old_info },
                ));
                assert(in_use(origin.topic_streams@, fresh.topic_streams@, now));
            }
            return (closed, Some(flow_id));
        }
        let ghost topics = choose|topics: Seq<Seq<char>>|
            {
                &&& topics.no_duplicates()
                &&& closed@ == #[trigger] flows_of(origin.topic_streams@, topics)
                &&& forall|k: Seq<char>| #[trigger]
                    topics.contains(k) <==> origin.topic_streams@.contains_key(k)
                        && !fresh.topic_streams@.contains_key(k)
            };
        if self.topic_streams.len() >= MAX_CACHED_STREAMS {
            if let Some(flow_id) = self.evict_lru_stream() {
                closed.push(flow_id);
                proof {
                    let k = choose|k: Seq<char>| #[trigger]
                        least_recent(fresh.topic_streams@, k) && flow_id
                            == fresh.topic_streams@[k].flow_id && self.topic_streams@
                            == fresh.topic_streams@.remove(k);
                    lemma_one_more(topics, k);
                    assert(closed@ =~= flows_of(origin.topic_streams@, topics.push(k)));
                }
            }
        }
        assert(in_use(origin.topic_streams@, fresh.topic_streams@, now));
        (closed, None)
    }

    /// The stream of a topic was looked for.
    pub open spec fn topic_looked_up(
        before: ServerStreamManager,
        after: ServerStreamManager,
        topic: Seq<char>,
        now: u64,
        found: Option<FlowId>,
    ) -> bool {
        &&& exists|fresh: Map<Seq<char>, ServerStreamInfo>| #[trigger]
            in_use(before.topic_streams@, fresh, now) && {
                if fresh.contains_key(topic) {
                    &&& found == Some(fresh[topic].flow_id)
                    &&& after.topic_streams@ == fresh.insert(
                        topic,
                        ServerStreamInfo { last_used: now, ..fresh[topic] },
                    )
                } else {
                    &&& found is None
                    &&& if fresh.dom().len() >= MAX_CACHED_STREAMS {
                        exists|k: Seq<char>| #[trigger]
                            least_recent(fresh, k) && after.topic_streams@ == fresh.remove(k)
                    } else {
                        after.topic_streams@ == fresh
                    }
                }
            }
        &&& after == (ServerStreamManager { topic_streams: after.topic_streams, ..before })
    }

    fn new_stream(&mut self, bidirectional: bool) -> (r: NewStream)
        ensures
            r == (NewStream {
                flow_id: FlowId::of_server(old(self).flow_id_generator.server),
                bidirectional,
                expire_interval: FLOW_EXPIRE_INTERVAL,
                flags: FlowFlags::none(),
            }),
            *final(self) == (ServerStreamManager {
                flow_id_generator: FlowIdGenerator {
                    server: crate::session::quic_flow::after(old(self).flow_id_generator.server),
                    ..old(self).flow_id_generator
                },
                ..*old(self)
            }),
    {
        NewStream {
            flow_id: self.flow_id_generator.next_server(),
            bidirectional,
            expire_interval: FLOW_EXPIRE_INTERVAL,
            flags: FlowFlags::default(),
        }
    }

    /// The stream of a topic was opened: gives its flow and header. Acknowledgements are read from
    /// it.
    pub fn open_topic_stream(&mut self) -> (r: NewStream)
        requires
            old(self).wf(),
        ensures
            final(self).wf(),
            r == (NewStream {
                flow_id: FlowId::of_server(old(self).flow_id_generator.server),
                bidirectional: true,
                expire_interval: FLOW_EXPIRE_INTERVAL,
                flags: FlowFlags::none(),
            }),
            *final(self) == (ServerStreamManager {
                flow_id_generator: FlowIdGenerator {
                    server: crate::session::quic_flow::after(old(self).flow_id_generator.server),
                    ..old(self).flow_id_generator
                },
                ..*old(self)
            }),
    {
        self.new_stream(true)
    }

    /// A message was written on the new stream of a topic: the stream is kept.
    pub fn keep_topic_stream(&mut self, topic: &str, flow_id: FlowId, now: u64)
        requires
            old(self).wf(),
        ensures
            final(self).wf(),
            final(self).topic_streams@ == old(self).topic_streams@.insert(
                topic@,
                ServerStreamInfo { flow_id, last_used: now },
            ),
            *final(self) == (ServerStreamManager {
                topic_streams: final(self).topic_streams,
                ..*old(self)
            }),
    {
        let _ = self.topic_streams.insert(
            owned(topic),
            ServerStreamInfo { flow_id, last_used: now },
        );
    }

    /// A stream for one message. One that is not acknowledged goes one way.
    pub fn write_on_ephemeral_stream(&mut self, qos: QoS) -> (r: NewStream)
        requires
            old(self).wf(),
        ensures
            final(self).wf(),
            r == (NewStream {
                flow_id: FlowId::of_server(old(self).flow_id_generator.server),
                bidirectional: qos != QoS::AtMostOnce,
                expire_interval: FLOW_EXPIRE_INTERVAL,
                flags: FlowFlags::none(),
            }),
            *final(self) == (ServerStreamManager {
                flow_id_generator: FlowIdGenerator {
                    server: crate::session::quic_flow::after(old(self).flow_id_generator.server),
                    ..old(self).flow_id_generator
                },
                ..*old(self)
            }),
    {
        self.new_stream(qos != QoS::AtMostOnce)
    }

    /// How a message goes to the client.
    pub fn write_publish(&mut self, topic: &str, qos: QoS, now: u64) -> (r: Result<StreamStep>)
        requires
            old(self).wf(),
        ensures
            final(self).wf(),
            match old(self).strategy {
                ServerDeliveryStrategy::ControlOnly => {
                    &&& r matches Err(MqttError::ConnectionError(text)) && text@
                        == "control-only delivery: caller should write to control stream directly"@
                    &&& *final(self) == *old(self)
                },
                ServerDeliveryStrategy::PerTopic => {
                    &&& r matches Ok(StreamStep::Topic { closed, stream })
                        && ServerStreamManager::topic_looked_up(
                        *old(self),
                        *final(self),
                        topic@,
                        now,
                        stream,
                    ) && flows_of_forgotten(
                        old(self).topic_streams@,
                        final(self).topic_streams@,
                        closed@,
                    )
                },
                ServerDeliveryStrategy::PerPublish => {
                    &&& r == Ok::<StreamStep, MqttError>(
                        StreamStep::Own(
                            NewStream {
                                flow_id: FlowId::of_server(old(self).flow_id_generator.server),
                                bidirectional: qos != QoS::AtMostOnce,
                                expire_interval: FLOW_EXPIRE_INTERVAL,
                                flags: FlowFlags::none(),
                            },
                        ),
                    )
                    &&& *final(self) == (ServerStreamManager {
                        flow_id_generator: FlowIdGenerator {
                            server: crate::session::quic_flow::after(
                                old(self).flow_id_generator.server,
                            ),
                            ..old(self).flow_id_generator
                        },
                        ..*old(self)
                    })
                },
            },
    {
        match self.strategy {
            ServerDeliveryStrategy::ControlOnly => Err(
                MqttError::ConnectionError(
                    owned(
                        "control-only delivery: caller should write to control stream directly",
                    ),
                ),
            ),
            ServerDeliveryStrategy::PerTopic => {
                let (closed, stream) = self.write_on_topic_stream(topic, now);
                Ok(StreamStep::Topic { closed, stream })
            },
            ServerDeliveryStrategy::PerPublish => Ok(
                StreamStep::Own(self.write_on_ephemeral_stream(qos)),
            ),
        }
    }

    /// Looks for the stream of a flow: `None` says that it is there, and is in use now; otherwise
    /// the stream is given that is to be opened.
    pub fn write_publish_to_flow(&mut self, flow_id: u64, now: u64) -> (r: Option<NewStream>)
        requires
            old(self).wf(),
        ensures
            final(self).wf(),
            if old(self).flow_streams@.contains_key(flow_id) {
                &&& r is None
                &&& final(self).flow_streams@ == old(self).flow_streams@.insert(
                    flow_id,
                    ServerStreamInfo { last_used: now, ..old(self).flow_streams@[flow_id] },
                )
            } else {
                &&& r == Some(
                    NewStream {
                        flow_id: FlowId(flow_id),
                        bidirectional: true,
                        expire_interval: FLOW_EXPIRE_INTERVAL,
                        flags: FlowFlags::none(),
                    },
                )
                &&& final(self).flow_streams@ == old(self).flow_streams@
            },
            *final(self) == (ServerStreamManager {
                flow_streams: final(self).flow_streams,
                ..*old(self)
            }),
    {
        if let Some(info) = self.flow_streams.get_mut(flow_id) {
            info.last_used = now;
            return None;
        }
        Some(
            NewStream {
                flow_id: FlowId(flow_id),
                bidirectional: true,
                expire_interval: FLOW_EXPIRE_INTERVAL,
                flags: FlowFlags::default(),
            },
        )
    }

    /// A message was written on the new stream of a flow: the stream is kept.
    pub fn keep_flow_stream(&mut self, flow_id: u64, now: u64)
        requires
            old(self).wf(),
        ensures
            final(self).wf(),
            final(self).flow_streams@ == old(self).flow_streams@.insert(
                flow_id,
                ServerStreamInfo { flow_id: FlowId(flow_id), last_used: now },
            ),
            *final(self) == (ServerStreamManager {
                flow_streams: final(self).flow_streams,
                ..*old(self)
            }),
    {
        let _ = self.flow_streams.insert(
            flow_id,
            ServerStreamInfo { flow_id: FlowId(flow_id), last_used: now },
        );
    }

    /// Forgets the stream of a flow; `true` says that there was one, which is closed.
    pub fn remove_flow_stream(&mut self, flow_id: u64) -> (r: bool)
        requires
            old(self).wf(),
        ensures
            final(self).wf(),
            r == old(self).flow_streams@.contains_key(flow_id),
            final(self).flow_streams@ == old(self).flow_streams@.remove(flow_id),
            *final(self) == (ServerStreamManager {
                flow_streams: final(self).flow_streams,
                ..*old(self)
            }),
    {
        self.flow_streams.remove(flow_id).is_some()
    }

    /// Forgets all streams; they are closed.
    pub fn close_all_streams(&mut self)
        requires
            old(self).wf(),
        ensures
            final(self).wf(),
            final(self).topic_streams@ == Map::<Seq<char>, ServerStreamInfo>::empty(),
            final(self).flow_streams@ == Map::<u64, ServerStreamInfo>::empty(),
            *final(self) == (ServerStreamManager {
                topic_streams: final(self).topic_streams,
                flow_streams: final(self).flow_streams,
                ..*old(self)
            }),
    {
        self.topic_streams.clear();
        self.flow_streams.clear();
    }
}

/// Never more streams of topics are kept than the limit: looking one up leaves room for a new one.
pub proof fn law_streams_of_topics_are_bounded(
    before: ServerStreamManager,
    looked: ServerStreamManager,
    topic: Seq<char>,
    now: u64,
)
    requires
        before.wf(),
        before.topic_streams@.dom().len() <= MAX_CACHED_STREAMS,
        ServerStreamManager::topic_looked_up(before, looked, topic, now, None),
    ensures
        looked.topic_streams@.dom().len() < MAX_CACHED_STREAMS,
{
    crate::text_map::lemma_as_map(before.topic_streams.listing());
    let fresh = choose|fresh: Map<Seq<char>, ServerStreamInfo>| #[trigger]
        in_use(before.topic_streams@, fresh, now) && !fresh.contains_key(topic) && (
        if fresh.dom().len() >= MAX_CACHED_STREAMS {
            exists|k: Seq<char>| #[trigger]
                least_recent(fresh, k) && looked.topic_streams@ == fresh.remove(k)
        } else {
            looked.topic_streams@ == fresh
        });
    assert(fresh.dom().subset_of(before.topic_streams@.dom()));
    vstd::set_lib::lemma_len_subset(fresh.dom(), before.topic_streams@.dom());
}

/// A topic keeps its stream as long as no five minutes go by without a message: the next message goes
/// on the same stream, and the time is counted again.
pub proof fn law_topic_keeps_its_stream(
    before: ServerStreamManager,
    after: ServerStreamManager,
    topic: Seq<char>,
    now: u64,
    found: Option<FlowId>,
)
    requires
        ServerStreamManager::topic_looked_up(before, after, topic, now, found),
    ensures
        ({
            let streams = before.topic_streams@;
            let kept = streams.contains_key(topic) && now <= streams[topic].last_used + 300_000;
            &&& found is Some <==> kept
            &&& kept ==> found == Some(streams[topic].flow_id) && after.topic_streams@.contains_key(
                topic,
            ) && after.topic_streams@[topic].flow_id == streams[topic].flow_id
                && after.topic_streams@[topic].last_used == now
            &&& after.flow_streams == before.flow_streams
        }),
{
}

/// Looking for the stream of one topic takes no stream from another that is used and for which there is
/// room.
pub proof fn law_other_streams_stay(
    before: ServerStreamManager,
    after: ServerStreamManager,
    topic: Seq<char>,
    now: u64,
    found: Option<FlowId>,
    other: Seq<char>,
)
    requires
        before.wf(),
        ServerStreamManager::topic_looked_up(before, after, topic, now, found),
        other != topic,
        before.topic_streams@.dom().len() < 100,
    ensures
        after.topic_streams@.contains_key(other) <==> before.topic_streams@.contains_key(other)
            && now <= before.topic_streams@[other].last_used + 300_000,
        after.topic_streams@.contains_key(other) ==> after.topic_streams@[other]
            == before.topic_streams@[other],
{
    crate::text_map::lemma_as_map(before.topic_streams.listing());
    let fresh = choose|fresh: Map<Seq<char>, ServerStreamInfo>| #[trigger]
        in_use(before.topic_streams@, fresh, now) && {
            if fresh.contains_key(topic) {
                &&& found == Some(fresh[topic].flow_id)
                &&& after.topic_streams@ == fresh.insert(
                    topic,
                    ServerStreamInfo { last_used: now, ..fresh[topic] },
                )
            } else {
                &&& found is None
                &&& if fresh.dom().len() >= MAX_CACHED_STREAMS {
                    exists|k: Seq<char>| #[trigger]
                        least_recent(fresh, k) && after.topic_streams@ == fresh.remove(k)
                } else {
                    after.topic_streams@ == fresh
                }
            }
        };
    assert(fresh.dom().subset_of(before.topic_streams@.dom()));
    vstd::set_lib::lemma_len_subset(fresh.dom(), before.topic_streams@.dom());
}

} // verus!
