//! Flows: the independent streams of one QUIC connection.
//!
//! Time is a number of milliseconds on a clock that the caller reads; intervals are milliseconds.

use crate::id_map::IdMap;
use crate::text::same_text;
use vstd::prelude::*;

verus! {

/// The number of a flow. The flow with number zero carries control packets; even numbers belong
/// to flows that the client opened, odd numbers to those of the server.
#[derive(Debug, Clone, Copy, PartialEq, Eq, Structural)]
pub struct FlowId(pub u64);

impl FlowId {
    /// The control flow.
    pub fn control() -> (r: Self)
        ensures
            r == FlowId(0),
    {
        FlowId(0)
    }

    /// The number of the client's flow with a place in the order of its flows.
    pub open spec fn of_client(seq: u64) -> FlowId {
        FlowId(((seq * 2) % 0x1_0000_0000_0000_0000) as u64)
    }

    /// The number of the server's flow with a place in the order of its flows.
    pub open spec fn of_server(seq: u64) -> FlowId {
        FlowId(((seq * 2) % 0x1_0000_0000_0000_0000 + 1) as u64)
    }

    /// A flow of the client.
    pub fn client(seq: u64) -> (r: Self)
        ensures
            r == FlowId::of_client(seq),
    {
        FlowId(seq.wrapping_mul(2))
    }

    /// A flow of the server.
    pub fn server(seq: u64) -> (r: Self)
        ensures
            r == FlowId::of_server(seq),
    {
        let base: u64 = seq.wrapping_mul(2);
        assert((seq * 2) % 0x1_0000_0000_0000_0000 <= 0xFFFF_FFFF_FFFF_FFFE);
        FlowId(base + 1)
    }

    /// The number.
    pub fn raw(&self) -> (r: u64)
        ensures
            r == self.0,
    {
        self.0
    }

    /// Whether the client opened the flow.
    pub fn is_client_initiated(&self) -> (r: bool)
        ensures
            r == (self.0 % 2 == 0),
    {
        self.0 % 2 == 0
    }

    /// Whether the server opened the flow.
    pub fn is_server_initiated(&self) -> (r: bool)
        ensures
            r == (self.0 % 2 == 1),
    {
        self.0 % 2 == 1
    }
}

/// Numbers the flows of the two sides, from one.
#[derive(Debug, Clone, Copy, PartialEq, Eq, Structural)]
pub struct FlowIdGenerator {
    pub client: u64,
    pub server: u64,
}

/// The place after another, beginning again at zero after the last.
pub open spec fn after(seq: u64) -> u64 {
    ((seq + 1) % 0x1_0000_0000_0000_0000) as u64
}

impl FlowIdGenerator {
    /// Whether a number was given out before.
    pub open spec fn gave_out(self, id: FlowId) -> bool {
        ||| exists|seq: u64| 0 < seq < self.client && id == #[trigger] FlowId::of_client(seq)
        ||| exists|seq: u64| 0 < seq < self.server && id == #[trigger] FlowId::of_server(seq)
    }

    /// Whether neither side has opened all the flows that it can number.
    pub open spec fn below_wrap(self) -> bool {
        &&& 0 < self.client < 0x8000_0000_0000_0000
        &&& 0 < self.server < 0x8000_0000_0000_0000
    }

    /// No number was given out.
    pub fn new() -> (r: Self)
        ensures
            r == (FlowIdGenerator { client: 1, server: 1 }),
    {
        FlowIdGenerator { client: 1, server: 1 }
    }

    /// The next number for the client.
    pub fn next_client(&mut self) -> (r: FlowId)
        ensures
            r == FlowId::of_client(old(self).client),
            *final(self) == (FlowIdGenerator { client: after(old(self).client), ..*old(self) }),
    {
        let seq: u64 = self.client;
        self.client = seq.wrapping_add(1);
        FlowId::client(seq)
    }

    /// The next number for the server.
    pub fn next_server(&mut self) -> (r: FlowId)
        ensures
            r == FlowId::of_server(old(self).server),
            *final(self) == (FlowIdGenerator { server: after(old(self).server), ..*old(self) }),
    {
        let seq: u64 = self.server;
        self.server = seq.wrapping_add(1);
        FlowId::server(seq)
    }
}

/// What a flow asks of its peer.
#[derive(Debug, Clone, Copy, PartialEq, Eq, Structural)]
pub struct FlowFlags {
    pub clean: u8,
    pub abort_if_no_state: u8,
    pub err_tolerance: u8,
    pub persistent_qos: u8,
    pub persistent_topic_alias: u8,
    pub persistent_subscriptions: u8,
    pub optional_headers: u8,
}

impl FlowFlags {
    /// Nothing is asked.
    pub open spec fn none() -> FlowFlags {
        FlowFlags {
            clean: 0,
            abort_if_no_state: 0,
            err_tolerance: 0,
            persistent_qos: 0,
            persistent_topic_alias: 0,
            persistent_subscriptions: 0,
            optional_headers: 0,
        }
    }
}

impl Default for FlowFlags {
    fn default() -> (r: Self)
        ensures
            r == FlowFlags::none(),
    {
        FlowFlags {
            clean: 0,
            abort_if_no_state: 0,
            err_tolerance: 0,
            persistent_qos: 0,
            persistent_topic_alias: 0,
            persistent_subscriptions: 0,
            optional_headers: 0,
        }
    }
}

/// What a flow carries, and who opened it.
#[derive(Debug, Clone, Copy, PartialEq, Eq, Structural)]
pub enum FlowType {
    Control,
    ClientData,
    ServerData,
}

/// The state of a flow.
#[derive(Debug)]
pub struct FlowState {
    pub id: FlowId,
    pub flow_type: FlowType,
    pub flags: FlowFlags,
    pub expire_interval: Option<u64>,
    pub created_at: u64,
    pub last_activity: u64,
    pub subscriptions: Vec<String>,
    pub topic_aliases: IdMap<String>,
    pub pending_packet_ids: Vec<u16>,
}

impl FlowState {
    /// A flow as it is opened.
    pub open spec fn is_new(
        &self,
        id: FlowId,
        flow_type: FlowType,
        flags: FlowFlags,
        expire_interval: Option<u64>,
        now: u64,
    ) -> bool {
        &&& self.id == id
        &&& self.flow_type == flow_type
        &&& self.flags == flags
        &&& self.expire_interval == expire_interval
        &&& self.created_at == now
        &&& self.last_activity == now
        &&& self.subscriptions@ == Seq::<String>::empty()
        &&& self.topic_aliases@ == Map::<u64, String>::empty()
        &&& self.topic_aliases.wf()
        &&& self.pending_packet_ids@ == Seq::<u16>::empty()
    }

    /// No alias stands twice.
    pub open spec fn wf(&self) -> bool {
        self.topic_aliases.wf()
    }

    /// Whether nothing happened on the flow for longer than its expire interval.
    pub open spec fn expired(&self, now: u64) -> bool {
        self.expire_interval matches Some(interval) && now - self.last_activity > interval
    }

    /// Whether the flow carries a subscription.
    pub open spec fn carries(&self, topic_filter: Seq<char>) -> bool {
        exists|i: int|
            0 <= i < self.subscriptions@.len() && (#[trigger] self.subscriptions@[i])@
                == topic_filter
    }

    fn opened(
        id: FlowId,
        flow_type: FlowType,
        flags: FlowFlags,
        expire_interval: Option<u64>,
        now: u64,
    ) -> (r: Self)
        ensures
            r.is_new(id, flow_type, flags, expire_interval, now),
    {
        FlowState {
            id,
            flow_type,
            flags,
            expire_interval,
            created_at: now,
            last_activity: now,
            subscriptions: Vec::new(),
            topic_aliases: IdMap::new(),
            pending_packet_ids: Vec::new(),
        }
    }

    /// The control flow. It never expires.
    pub fn new_control(now: u64) -> (r: Self)
        ensures
            r.is_new(FlowId(0), FlowType::Control, FlowFlags::none(), None, now),
    {
        FlowState::opened(FlowId::control(), FlowType::Control, FlowFlags::default(), None, now)
    }

    /// A flow that the client opened.
    pub fn new_client_data(
        id: FlowId,
        flags: FlowFlags,
        expire_interval: Option<u64>,
        now: u64,
    ) -> (r: Self)
        ensures
            r.is_new(id, FlowType::ClientData, flags, expire_interval, now),
    {
        FlowState::opened(id, FlowType::ClientData, flags, expire_interval, now)
    }

    /// A flow that the server opened.
    pub fn new_server_data(
        id: FlowId,
        flags: FlowFlags,
        expire_interval: Option<u64>,
        now: u64,
    ) -> (r: Self)
        ensures
            r.is_new(id, FlowType::ServerData, flags, expire_interval, now),
    {
        FlowState::opened(id, FlowType::ServerData, flags, expire_interval, now)
    }

    /// Records that something happened on the flow.
    pub fn touch(&mut self, now: u64)
        ensures
            *final(self) == (FlowState { last_activity: now, ..*old(self) }),
    {
        self.last_activity = now;
    }

    /// Whether nothing happened on the flow for longer than its expire interval.
    pub fn is_expired(&self, now: u64) -> (r: bool)
        ensures
            r == self.expired(now),
    {
        match self.expire_interval {
            Some(interval) => now.saturating_sub(self.last_activity) > interval,
            None => false,
        }
    }

    fn has_subscription(&self, topic_filter: &str) -> (r: bool)
        ensures
            r == self.carries(topic_filter@),
    {
        let mut i: usize = 0;
        while i < self.subscriptions.len()
            invariant
                i <= self.subscriptions@.len(),
                forall|j: int| 0 <= j < i ==> (#[trigger] self.subscriptions@[j])@ != topic_filter@,
            decreases self.subscriptions@.len() - i,
        {
            if same_text(self.subscriptions[i].as_str(), topic_filter) {
                assert(self.subscriptions@[i as int]@ == topic_filter@);
                return true;
            }
            i = i + 1;
        }
        false
    }

    /// Puts a subscription on the flow, unless it is there.
    pub fn add_subscription(&mut self, topic_filter: String)
        ensures
            final(self).subscriptions@ == (if old(self).carries(topic_filter@) {
                old(self).subscriptions@
            } else {
                old(self).subscriptions@.push(topic_filter)
            }),
            *final(self) == (FlowState { subscriptions: final(self).subscriptions, ..*old(self) }),
    {
        if !self.has_subscription(topic_filter.as_str()) {
            self.subscriptions.push(topic_filter);
        }
    }

    /// Takes a subscription off the flow.
    pub fn remove_subscription(&mut self, topic_filter: &str)
        ensures
            final(self).subscriptions@ == old(self).subscriptions@.filter(
                |s: String| s@ != topic_filter@,
            ),
            *final(self) == (FlowState { subscriptions: final(self).subscriptions, ..*old(self) }),
    {
        let ghost all = self.subscriptions@;
        let ghost other = |s: String| s@ != topic_filter@;
        let mut kept: Vec<String> = Vec::new();
        let mut i: usize = 0;
        proof {
            reveal(Seq::filter);
        }
        assert(all.take(0) =~= Seq::<String>::empty());
        while i < self.subscriptions.len()
            invariant
                all == self.subscriptions@,
                i <= all.len(),
                other == (|s: String| s@ != topic_filter@),
                kept@ == all.take(i as int).filter(other),
            decreases all.len() - i,
        {
            proof {
                reveal(Seq::filter);
                assert(all.take(i + 1).drop_last() =~= all.take(i as int));
                assert(all.take(i + 1).last() == all[i as int]);
            }
            if !same_text(self.subscriptions[i].as_str(), topic_filter) {
                kept.push(self.subscriptions[i].clone());
            }
            i = i + 1;
        }
        assert(all.take(all.len() as int) =~= all);
        self.subscriptions = kept;
    }

    /// Gives a topic an alias.
    pub fn set_topic_alias(&mut self, alias: u16, topic: String)
        requires
            old(self).wf(),
        ensures
            final(self).wf(),
            final(self).topic_aliases@ == old(self).topic_aliases@.insert(alias as u64, topic),
            *final(self) == (FlowState { topic_aliases: final(self).topic_aliases, ..*old(self) }),
    {
        let _ = self.topic_aliases.insert(alias as u64, topic);
    }

    /// The topic of an alias.
    pub fn get_topic_alias(&self, alias: u16) -> (r: Option<&String>)
        requires
            self.wf(),
        ensures
            match r {
                Some(topic) => self.topic_aliases@.contains_key(alias as u64) && *topic
                    == self.topic_aliases@[alias as u64],
                None => !self.topic_aliases@.contains_key(alias as u64),
            },
    {
        self.topic_aliases.get(alias as u64)
    }

    fn is_pending(&self, packet_id: u16) -> (r: bool)
        ensures
            r == self.pending_packet_ids@.contains(packet_id),
    {
        let mut i: usize = 0;
        while i < self.pending_packet_ids.len()
            invariant
                i <= self.pending_packet_ids@.len(),
                forall|j: int| 0 <= j < i ==> self.pending_packet_ids@[j] != packet_id,
            decreases self.pending_packet_ids@.len() - i,
        {
            if self.pending_packet_ids[i] == packet_id {
                return true;
            }
            i = i + 1;
        }
        false
    }

    /// Records a packet that waits for its acknowledgement, unless it is recorded.
    pub fn add_pending_packet_id(&mut self, packet_id: u16)
        ensures
            final(self).pending_packet_ids@ == (if old(self).pending_packet_ids@.contains(
                packet_id,
            ) {
                old(self).pending_packet_ids@
            } else {
                old(self).pending_packet_ids@.push(packet_id)
            }),
            *final(self) == (FlowState {
                pending_packet_ids: final(self).pending_packet_ids,
                ..*old(self)
            }),
    {
        if !self.is_pending(packet_id) {
            self.pending_packet_ids.push(packet_id);
        }
    }

    /// Forgets a packet that waits for its acknowledgement.
    pub fn remove_pending_packet_id(&mut self, packet_id: u16)
        ensures
            final(self).pending_packet_ids@ == old(self).pending_packet_ids@.filter(
                |id: u16| id != packet_id,
            ),
            *final(self) == (FlowState {
                pending_packet_ids: final(self).pending_packet_ids,
                ..*old(self)
            }),
    {
        let ghost all = self.pending_packet_ids@;
        let ghost other = |id: u16| id != packet_id;
        let mut kept: Vec<u16> = Vec::new();
        let mut i: usize = 0;
        proof {
            reveal(Seq::filter);
        }
        assert(all.take(0) =~= Seq::<u16>::empty());
        while i < self.pending_packet_ids.len()
            invariant
                all == self.pending_packet_ids@,
                i <= all.len(),
                other == (|id: u16| id != packet_id),
                kept@ == all.take(i as int).filter(other),
            decreases all.len() - i,
        {
            proof {
                reveal(Seq::filter);
                assert(all.take(i + 1).drop_last() =~= all.take(i as int));
                assert(all.take(i + 1).last() == all[i as int]);
            }
            if self.pending_packet_ids[i] != packet_id {
                kept.push(self.pending_packet_ids[i]);
            }
            i = i + 1;
        }
        assert(all.take(all.len() as int) =~= all);
        self.pending_packet_ids = kept;
    }
}

/// The flows of a connection.
#[derive(Debug)]
pub struct FlowRegistry {
    flows: IdMap<FlowState>,
    id_generator: FlowIdGenerator,
    max_flows: usize,
}

/// The flows that have not expired.
pub open spec fn live_flows(flows: Map<u64, FlowState>, now: u64) -> Map<u64, FlowState> {
    Map::new(|k: u64| flows.contains_key(k) && !flows[k].expired(now), |k: u64| flows[k])
}

/// The flows that a list of references shows.
pub open spec fn seen(list: Seq<(FlowId, &FlowState)>) -> Seq<(FlowId, FlowState)> {
    list.map_values(|e: (FlowId, &FlowState)| (e.0, *e.1))
}

/// Of a list of flows, those of a type, in order.
pub open spec fn flows_of_type(list: Seq<(u64, FlowState)>, flow_type: FlowType) -> Seq<
    (FlowId, FlowState),
>
    decreases list.len(),
{
    if list.len() == 0 {
        Seq::empty()
    } else {
        let rest = flows_of_type(list.drop_last(), flow_type);
        if list.last().1.flow_type == flow_type {
            rest.push((FlowId(list.last().0), list.last().1))
        } else {
            rest
        }
    }
}

/// Of a list of flows, the numbers of those that carry a subscription, in order.
pub open spec fn flows_carrying(list: Seq<(u64, FlowState)>, topic_filter: Seq<char>) -> Seq<FlowId>
    decreases list.len(),
{
    if list.len() == 0 {
        Seq::empty()
    } else {
        let rest = flows_carrying(list.drop_last(), topic_filter);
        if list.last().1.carries(topic_filter) {
            rest.push(FlowId(list.last().0))
        } else {
            rest
        }
    }
}

/// Of a list of flows, the numbers of those that have expired, in order.
pub open spec fn expired_flows(list: Seq<(u64, FlowState)>, now: u64) -> Seq<FlowId>
    decreases list.len(),
{
    if list.len() == 0 {
        Seq::empty()
    } else {
        let rest = expired_flows(list.drop_last(), now);
        if list.last().1.expired(now) {
            rest.push(FlowId(list.last().0))
        } else {
            rest
        }
    }
}

impl View for FlowRegistry {
    type V = Map<u64, FlowState>;

    closed spec fn view(&self) -> Map<u64, FlowState> {
        self.flows@
    }
}

impl FlowRegistry {
    /// The flows in the order in which they came.
    pub closed spec fn listing(&self) -> Seq<(u64, FlowState)> {
        self.flows.listing()
    }

    /// The numbers that come next.
    pub closed spec fn numbers(&self) -> FlowIdGenerator {
        self.id_generator
    }

    /// How many flows there may be.
    pub closed spec fn capacity(&self) -> usize {
        self.max_flows
    }

    /// No flow stands twice, and there are no more flows than there may be.
    pub closed spec fn wf(&self) -> bool {
        &&& self.flows.wf()
        &&& self.flows@.dom().len() <= self.max_flows
    }

    /// The list holds each flow once, under its number, and no more flows than there may be.
    pub proof fn lemma_listing(&self)
        requires
            self.wf(),
        ensures
            crate::id_map::distinct_keys(self.listing()),
            self@ == crate::id_map::as_map(self.listing()),
            self@.dom().finite(),
            self@.dom().len() == self.listing().len(),
            self@.dom().len() <= self.capacity(),
    {
        crate::id_map::lemma_as_map(self.listing());
    }

    /// Whether there is no room for another flow.
    pub open spec fn full(&self) -> bool {
        self@.dom().len() >= self.capacity()
    }

    /// A registry for a number of flows.
    pub fn new(max_flows: usize) -> (r: Self)
        ensures
            r.wf(),
            r@ == Map::<u64, FlowState>::empty(),
            r.numbers() == (FlowIdGenerator { client: 1, server: 1 }),
            r.capacity() == max_flows,
    {
        FlowRegistry { flows: IdMap::new(), id_generator: FlowIdGenerator::new(), max_flows }
    }

    /// Opens a flow for the client, if there is room.
    pub fn new_client_flow(
        &mut self,
        flags: FlowFlags,
        expire_interval: Option<u64>,
        now: u64,
    ) -> (r: Option<FlowId>)
        requires
            old(self).wf(),
        ensures
            final(self).wf(),
            final(self).capacity() == old(self).capacity(),
            r == (if old(self).full() {
                None
            } else {
                Some(FlowId::of_client(old(self).numbers().client))
            }),
            match r {
                None => *final(self) == *old(self),
                Some(id) => {
                    &&& final(self).numbers() == (FlowIdGenerator {
                        client: after(old(self).numbers().client),
                        ..old(self).numbers()
                    })
                    &&& old(self).numbers().below_wrap() ==> !old(self).numbers().gave_out(id)
                        && final(self).numbers().gave_out(id)
                    &&& final(self)@ == old(self)@.insert(id.0, final(self)@[id.0])
                    &&& final(self)@[id.0].is_new(
                        id,
                        FlowType::ClientData,
                        flags,
                        expire_interval,
                        now,
                    )
                },
            },
    {
        if self.flows.len() >= self.max_flows {
            return None;
        }
        proof {
            if self.id_generator.below_wrap() {
                law_next_flow_number_is_new(self.id_generator);
            }
            crate::id_map::lemma_as_map(self.flows.listing());
        }
        let id = self.id_generator.next_client();
        let state = FlowState::new_client_data(id, flags, expire_interval, now);
        let _ = self.flows.insert(id.raw(), state);
        Some(id)
    }

    /// Opens a flow for the server, if there is room.
    pub fn new_server_flow(
        &mut self,
        flags: FlowFlags,
        expire_interval: Option<u64>,
        now: u64,
    ) -> (r: Option<FlowId>)
        requires
            old(self).wf(),
        ensures
            final(self).wf(),
            final(self).capacity() == old(self).capacity(),
            r == (if old(self).full() {
                None
            } else {
                Some(FlowId::of_server(old(self).numbers().server))
            }),
            match r {
                None => *final(self) == *old(self),
                Some(id) => {
                    &&& final(self).numbers() == (FlowIdGenerator {
                        server: after(old(self).numbers().server),
                        ..old(self).numbers()
                    })
                    &&& old(self).numbers().below_wrap() ==> !old(self).numbers().gave_out(id)
                        && final(self).numbers().gave_out(id)
                    &&& final(self)@ == old(self)@.insert(id.0, final(self)@[id.0])
                    &&& final(self)@[id.0].is_new(
                        id,
                        FlowType::ServerData,
                        flags,
                        expire_interval,
                        now,
                    )
                },
            },
    {
        if self.flows.len() >= self.max_flows {
            return None;
        }
        proof {
            if self.id_generator.below_wrap() {
                law_next_flow_number_is_new(self.id_generator);
            }
            crate::id_map::lemma_as_map(self.flows.listing());
        }
        let id = self.id_generator.next_server();
        let state = FlowState::new_server_data(id, flags, expire_interval, now);
        let _ = self.flows.insert(id.raw(), state);
        Some(id)
    }

    /// Takes a flow over, if there is room; `true` says that it was taken.
    pub fn register_flow(&mut self, state: FlowState) -> (r: bool)
        requires
            old(self).wf(),
        ensures
            final(self).wf(),
            final(self).capacity() == old(self).capacity(),
            final(self).numbers() == old(self).numbers(),
            r == !old(self).full(),
            r ==> final(self)@ == old(self)@.insert(state.id.0, state),
            !r ==> *final(self) == *old(self),
    {
        if self.flows.len() >= self.max_flows {
            return false;
        }
        proof {
            crate::id_map::lemma_as_map(self.flows.listing());
        }
        let _ = self.flows.insert(state.id.raw(), state);
        true
    }

    /// The state of a flow.
    pub fn get(&self, id: FlowId) -> (r: Option<&FlowState>)
        requires
            self.wf(),
        ensures
            match r {
                Some(state) => self@.contains_key(id.0) && *state == self@[id.0],
                None => !self@.contains_key(id.0),
            },
    {
        self.flows.get(id.raw())
    }

    /// The state of a flow, to be changed.
    pub fn get_mut(&mut self, id: FlowId) -> (r: Option<&mut FlowState>)
        requires
            old(self).wf(),
        ensures
            final(self).wf(),
            final(self).capacity() == old(self).capacity(),
            final(self).numbers() == old(self).numbers(),
            match r {
                Some(state) => old(self)@.contains_key(id.0) && *state == old(self)@[id.0]
                    && final(self)@ == old(self)@.insert(id.0, *final(state)),
                None => !old(self)@.contains_key(id.0) && *final(self) == *old(self),
            },
    {
        proof {
            crate::id_map::lemma_as_map(self.flows.listing());
        }
        self.flows.get_mut(id.raw())
    }

    /// Takes a flow out.
    pub fn remove(&mut self, id: FlowId) -> (r: Option<FlowState>)
        requires
            old(self).wf(),
        ensures
            final(self).wf(),
            final(self).capacity() == old(self).capacity(),
            final(self).numbers() == old(self).numbers(),
            final(self)@ == old(self)@.remove(id.0),
            match r {
                Some(state) => old(self)@.contains_key(id.0) && state == old(self)@[id.0],
                None => !old(self)@.contains_key(id.0),
            },
    {
        proof {
            crate::id_map::lemma_as_map(self.flows.listing());
        }
        self.flows.remove(id.raw())
    }

    /// Whether a flow is registered.
    pub fn contains(&self, id: FlowId) -> (r: bool)
        requires
            self.wf(),
        ensures
            r == self@.contains_key(id.0),
    {
        self.flows.contains_key(id.raw())
    }

    /// Records that something happened on a flow.
    pub fn touch(&mut self, id: FlowId, now: u64)
        requires
            old(self).wf(),
        ensures
            final(self).wf(),
            final(self).capacity() == old(self).capacity(),
            final(self).numbers() == old(self).numbers(),
            final(self)@ == (if old(self)@.contains_key(id.0) {
                old(self)@.insert(
                    id.0,
                    (FlowState { last_activity: now, ..old(self)@[id.0] }),
                )
            } else {
                old(self)@
            }),
    {
        proof {
            crate::id_map::lemma_as_map(self.flows.listing());
        }
        if let Some(state) = self.flows.get_mut(id.raw()) {
            state.touch(now);
        }
    }

    /// Takes out the flows on which nothing happened for longer than their expire interval, and
    /// gives their numbers.
    pub fn expire_flows(&mut self, now: u64) -> (r: Vec<FlowId>)
        requires
            old(self).wf(),
        ensures
            final(self).wf(),
            final(self).capacity() == old(self).capacity(),
            final(self).numbers() == old(self).numbers(),
            final(self)@ == live_flows(old(self)@, now),
            r@ == expired_flows(old(self).listing(), now),
            r@.no_duplicates(),
            forall|id: FlowId| #[trigger]
                r@.contains(id) <==> old(self)@.contains_key(id.0) && old(self)@[id.0].expired(now),
            old(self)@.dom().len() == final(self)@.dom().len() + r@.len(),
    {
        let ghost origin = *self;
        let ghost list = self.flows.listing();
        let mut expired: Vec<FlowId> = Vec::new();
        let n: usize = self.flows.len();
        let mut i: usize = 0;
        assert(list.take(0) =~= Seq::<(u64, FlowState)>::empty());
        while i < n
            invariant
                i <= n,
                n == list.len(),
                self.flows.listing() == list,
                expired@ == expired_flows(list.take(i as int), now),
            decreases n - i,
        {
            assert(list.take(i + 1).drop_last() =~= list.take(i as int));
            assert(list.take(i + 1).last() == list[i as int]);
            if self.flows.value_at(i).is_expired(now) {
                expired.push(FlowId(self.flows.key_at(i)));
            }
            i = i + 1;
        }
        assert(list.take(list.len() as int) =~= list);
        let mut j: usize = 0;
        while j < expired.len()
            invariant
                j <= expired@.len(),
                self.wf(),
                origin.wf(),
                self.capacity() == origin.capacity(),
                self.numbers() == origin.numbers(),
                forall|k: u64| #[trigger]
                    self.flows@.contains_key(k) <==> origin@.contains_key(k) && !(exists|m: int|
                        0 <= m < j && (#[trigger] expired@[m]).0 == k),
                forall|k: u64| #[trigger]
                    self.flows@.contains_key(k) ==> self.flows@[k] == origin@[k],
            decreases expired@.len() - j,
        {
            let ghost before = self.flows@;
            proof {
                crate::id_map::lemma_as_map(self.flows.listing());
            }
            let _ = self.flows.remove(expired[j].raw());
            proof {
                assert forall|k: u64| #[trigger] self.flows@.contains_key(k) <==> origin@.contains_key(
                    k,
                ) && !(exists|m: int| 0 <= m < j + 1 && (#[trigger] expired@[m]).0 == k) by {
                    if origin@.contains_key(k) && !before.contains_key(k) {
                        let m = choose|m: int| 0 <= m < j && (#[trigger] expired@[m]).0 == k;
                        assert(0 <= m < j + 1 && expired@[m].0 == k);
                    }
                    if k == expired@[j as int].0 {
                        assert(0 <= j < j + 1 && expired@[j as int].0 == k);
                    }
                }
            }
            j = j + 1;
        }
        proof {
            crate::id_map::lemma_as_map(list);
            assert forall|k: u64| #[trigger] origin@.contains_key(k) implies origin@[k].expired(now)
                == (exists|m: int| 0 <= m < expired@.len() && (#[trigger] expired@[m]).0 == k) by {
                law_expired_flows(list, now, k);
                let i = choose|i: int| 0 <= i < list.len() && (#[trigger] list[i]).0 == k;
                assert(origin@[list[i].0] == list[i].1);
                if exists|m: int| 0 <= m < expired@.len() && (#[trigger] expired@[m]).0 == k {
                    let m = choose|m: int| 0 <= m < expired@.len() && (#[trigger] expired@[m]).0 == k;
                    assert(expired@[m] == FlowId(k));
                    assert(expired@.contains(FlowId(k)));
                    let x = choose|x: int|
                        0 <= x < list.len() && (#[trigger] list[x]).0 == k && list[x].1.expired(now);
                    if x < i {
                        assert(list[x].0 != list[i].0);
                    }
                    if i < x {
                        assert(list[i].0 != list[x].0);
                    }
                }
                if origin@[k].expired(now) {
                    assert(expired@.contains(FlowId(k)));
                    let m = choose|m: int| 0 <= m < expired@.len() && expired@[m] == FlowId(k);
                    assert(expired@[m].0 == k);
                }
            }
            assert(self.flows@ =~= live_flows(origin@, now));
            law_expired_flows_come_out_once(origin, now);
        }
        expired
    }

    /// The number of flows.
    pub fn len(&self) -> (r: usize)
        requires
            self.wf(),
        ensures
            r == self@.dom().len(),
    {
        self.flows.len()
    }

    /// Whether there are no flows.
    pub fn is_empty(&self) -> (r: bool)
        requires
            self.wf(),
        ensures
            r == (self@.dom().len() == 0),
    {
        self.flows.len() == 0
    }

    /// The flows in the order in which they came.
    pub fn iter(&self) -> (r: Vec<(FlowId, &FlowState)>)
        requires
            self.wf(),
        ensures
            r@.len() == self.listing().len(),
            r@.len() == self@.dom().len(),
            forall|i: int|
                0 <= i < r@.len() ==> (#[trigger] r@[i]).0.0 == self.listing()[i].0 && *r@[i].1
                    == self.listing()[i].1,
    {
        proof {
            self.lemma_listing();
        }
        let n: usize = self.flows.len();
        let mut out: Vec<(FlowId, &FlowState)> = Vec::new();
        let mut i: usize = 0;
        while i < n
            invariant
                i <= n,
                n == self.flows.listing().len(),
                out@.len() == i,
                forall|j: int|
                    0 <= j < i ==> (#[trigger] out@[j]).0.0 == self.flows.listing()[j].0
                        && *out@[j].1 == self.flows.listing()[j].1,
            decreases n - i,
        {
            out.push((FlowId(self.flows.key_at(i)), self.flows.value_at(i)));
            i = i + 1;
        }
        out
    }

    fn flows_with_type(&self, flow_type: FlowType) -> (r: Vec<(FlowId, &FlowState)>)
        requires
            self.wf(),
        ensures
            seen(r@) == flows_of_type(self.listing(), flow_type),
    {
        let ghost list = self.flows.listing();
        let n: usize = self.flows.len();
        let mut out: Vec<(FlowId, &FlowState)> = Vec::new();
        let mut i: usize = 0;
        assert(list.take(0) =~= Seq::<(u64, FlowState)>::empty());
        assert(seen(out@) =~= Seq::<(FlowId, FlowState)>::empty());
        while i < n
            invariant
                i <= n,
                n == list.len(),
                self.flows.listing() == list,
                seen(out@) == flows_of_type(list.take(i as int), flow_type),
            decreases n - i,
        {
            assert(list.take(i + 1).drop_last() =~= list.take(i as int));
            assert(list.take(i + 1).last() == list[i as int]);
            if self.flows.value_at(i).flow_type == flow_type {
                let ghost before = out@;
                out.push((FlowId(self.flows.key_at(i)), self.flows.value_at(i)));
                assert(seen(out@) =~= seen(before).push((FlowId(list[i as int].0), list[i as int].1)));
            }
            i = i + 1;
        }
        assert(list.take(list.len() as int) =~= list);
        out
    }

    /// The flows that the client opened.
    pub fn client_flows(&self) -> (r: Vec<(FlowId, &FlowState)>)
        requires
            self.wf(),
        ensures
            seen(r@) == flows_of_type(self.listing(), FlowType::ClientData),
            forall|id: FlowId, state: FlowState| #[trigger]
                seen(r@).contains((id, state)) <==> self@.contains_key(id.0) && self@[id.0] == state
                    && state.flow_type == FlowType::ClientData,
    {
        proof {
            law_flows_of_a_type(*self, FlowType::ClientData);
        }
        self.flows_with_type(FlowType::ClientData)
    }

    /// The flows that the server opened.
    pub fn server_flows(&self) -> (r: Vec<(FlowId, &FlowState)>)
        requires
            self.wf(),
        ensures
            seen(r@) == flows_of_type(self.listing(), FlowType::ServerData),
            forall|id: FlowId, state: FlowState| #[trigger]
                seen(r@).contains((id, state)) <==> self@.contains_key(id.0) && self@[id.0] == state
                    && state.flow_type == FlowType::ServerData,
    {
        proof {
            law_flows_of_a_type(*self, FlowType::ServerData);
        }
        self.flows_with_type(FlowType::ServerData)
    }

    /// Takes every flow out.
    pub fn clear(&mut self)
        ensures
            final(self).wf(),
            final(self)@ == Map::<u64, FlowState>::empty(),
            final(self).capacity() == old(self).capacity(),
            final(self).numbers() == old(self).numbers(),
    {
        self.flows.clear();
    }

    /// The flows that carry a subscription.
    pub fn flows_for_subscription(&self, topic_filter: &str) -> (r: Vec<FlowId>)
        requires
            self.wf(),
        ensures
            r@ == flows_carrying(self.listing(), topic_filter@),
            r@.no_duplicates(),
            forall|id: FlowId| #[trigger]
                r@.contains(id) <==> self@.contains_key(id.0) && self@[id.0].carries(topic_filter@),
    {
        proof {
            law_flows_for_a_subscription(*self, topic_filter@);
        }
        let ghost list = self.flows.listing();
        let n: usize = self.flows.len();
        let mut out: Vec<FlowId> = Vec::new();
        let mut i: usize = 0;
        assert(list.take(0) =~= Seq::<(u64, FlowState)>::empty());
        while i < n
            invariant
                i <= n,
                n == list.len(),
                self.flows.listing() == list,
                out@ == flows_carrying(list.take(i as int), topic_filter@),
            decreases n - i,
        {
            assert(list.take(i + 1).drop_last() =~= list.take(i as int));
            assert(list.take(i + 1).last() == list[i as int]);
            if self.flows.value_at(i).has_subscription(topic_filter) {
                out.push(FlowId(self.flows.key_at(i)));
            }
            i = i + 1;
        }
        assert(list.take(list.len() as int) =~= list);
        out
    }
}

impl Default for FlowRegistry {
    fn default() -> (r: Self)
        ensures
            r.wf(),
            r@ == Map::<u64, FlowState>::empty(),
            r.capacity() == 256,
            r.numbers() == (FlowIdGenerator { client: 1, server: 1 }),
    {
        FlowRegistry::new(256)
    }
}

/// The listed numbers of expired flows are exactly those of the flows that have expired.
pub proof fn law_expired_flows(list: Seq<(u64, FlowState)>, now: u64, k: u64)
    ensures
        expired_flows(list, now).contains(FlowId(k)) <==> exists|i: int|
            0 <= i < list.len() && (#[trigger] list[i]).0 == k && list[i].1.expired(now),
    decreases list.len(),
{
    if list.len() > 0 {
        let rest = list.drop_last();
        law_expired_flows(rest, now, k);
        let found = expired_flows(rest, now);
        vstd::seq_lib::lemma_seq_contains_after_push(found, FlowId(list.last().0), FlowId(k));
        if exists|i: int|
            0 <= i < list.len() && (#[trigger] list[i]).0 == k && list[i].1.expired(now) {
            let i = choose|i: int|
                0 <= i < list.len() && (#[trigger] list[i]).0 == k && list[i].1.expired(now);
            if i < rest.len() {
                assert(rest[i] == list[i]);
            }
        }
        if found.contains(FlowId(k)) {
            let i = choose|i: int|
                0 <= i < rest.len() && (#[trigger] rest[i]).0 == k && rest[i].1.expired(now);
            assert(list[i] == rest[i]);
        }
        if list.last().0 == k && list.last().1.expired(now) {
            assert(list[list.len() - 1].0 == k);
        }
    } else {
        assert(!expired_flows(list, now).contains(FlowId(k)));
    }
}

/// Which flows a selection takes, by their places in the list.
spec fn chosen_places(list: Seq<(u64, FlowState)>, wanted: spec_fn(FlowState) -> bool) -> Seq<int>
    decreases list.len(),
{
    if list.len() == 0 {
        Seq::empty()
    } else {
        let rest = chosen_places(list.drop_last(), wanted);
        if wanted(list.last().1) {
            rest.push(list.len() - 1)
        } else {
            rest
        }
    }
}

proof fn lemma_chosen_places(list: Seq<(u64, FlowState)>, wanted: spec_fn(FlowState) -> bool)
    requires
        crate::id_map::distinct_keys(list),
    ensures
        ({
            let places = chosen_places(list, wanted);
            let map = crate::id_map::as_map(list);
            &&& forall|i: int|
                0 <= i < places.len() ==> 0 <= (#[trigger] places[i]) < list.len() && wanted(
                    list[places[i]].1,
                )
            &&& forall|i: int, j: int|
                #![trigger places[i], places[j]]
                0 <= i < j < places.len() ==> places[i] < places[j]
            &&& forall|m: int|
                0 <= m < list.len() && wanted((#[trigger] list[m]).1) ==> places.contains(m)
            &&& map.dom().filter(|k: u64| wanted(map[k])).finite()
            &&& places.len() == map.dom().filter(|k: u64| wanted(map[k])).len()
        }),
    decreases list.len(),
{
    let places = chosen_places(list, wanted);
    let map = crate::id_map::as_map(list);
    let keys = map.dom().filter(|k: u64| wanted(map[k]));
    if list.len() > 0 {
        let rest = list.drop_last();
        let key = list.last().0;
        assert forall|i: int, j: int|
            #![trigger rest[i], rest[j]]
            0 <= i < j < rest.len() implies rest[i].0 != rest[j].0 by {
            assert(list[i].0 != list[j].0);
        }
        lemma_chosen_places(rest, wanted);
        crate::id_map::lemma_as_map(rest);
        let before = chosen_places(rest, wanted);
        let less = crate::id_map::as_map(rest);
        let old_keys = less.dom().filter(|k: u64| wanted(less[k]));
        assert(!less.contains_key(key)) by {
            if less.contains_key(key) {
                let i = choose|i: int| 0 <= i < rest.len() && (#[trigger] rest[i]).0 == key;
                assert(list[i].0 != list[list.len() - 1].0);
            }
        }
        if wanted(list.last().1) {
            assert(keys =~= old_keys.insert(key));
        } else {
            assert(keys =~= old_keys);
        }
        assert forall|i: int| 0 <= i < places.len() implies 0 <= (#[trigger] places[i]) < list.len()
            && wanted(list[places[i]].1) by {
            if i < before.len() {
                assert(places[i] == before[i]);
                assert(rest[before[i]] == list[before[i]]);
            }
        }
        assert forall|i: int, j: int|
            #![trigger places[i], places[j]]
            0 <= i < j < places.len() implies places[i] < places[j] by {
            assert(places[i] == before[i]);
            if j < before.len() {
                assert(places[j] == before[j]);
            }
        }
        assert forall|m: int|
            0 <= m < list.len() && wanted((#[trigger] list[m]).1) implies places.contains(m) by {
            if m < rest.len() {
                assert(rest[m] == list[m]);
                let i = choose|i: int| 0 <= i < before.len() && before[i] == m;
                assert(places[i] == m);
            } else {
                assert(places[places.len() - 1] == m);
            }
        }
    } else {
        assert(keys =~= Set::<u64>::empty());
    }
}

proof fn lemma_chosen_numbers(
    list: Seq<(u64, FlowState)>,
    wanted: spec_fn(FlowState) -> bool,
    numbers: Seq<FlowId>,
)
    requires
        crate::id_map::distinct_keys(list),
        numbers.len() == chosen_places(list, wanted).len(),
        forall|i: int|
            0 <= i < numbers.len() ==> (#[trigger] numbers[i]).0 == list[chosen_places(
                list,
                wanted,
            )[i]].0,
    ensures
        numbers.no_duplicates(),
        ({
            let map = crate::id_map::as_map(list);
            forall|id: FlowId| #[trigger]
                numbers.contains(id) <==> map.contains_key(id.0) && wanted(map[id.0])
        }),
{
    let places = chosen_places(list, wanted);
    let map = crate::id_map::as_map(list);
    lemma_chosen_places(list, wanted);
    crate::id_map::lemma_as_map(list);
    assert forall|i: int, j: int|
        0 <= i < numbers.len() && 0 <= j < numbers.len() && i != j implies numbers[i]
        != numbers[j] by {
        if i < j {
            assert(places[i] < places[j]);
            assert(list[places[i]].0 != list[places[j]].0);
        } else {
            assert(places[j] < places[i]);
            assert(list[places[j]].0 != list[places[i]].0);
        }
    }
    assert forall|id: FlowId| #[trigger] numbers.contains(id) <==> map.contains_key(id.0) && wanted(
        map[id.0],
    ) by {
        if numbers.contains(id) {
            let i = choose|i: int| 0 <= i < numbers.len() && numbers[i] == id;
            assert(map[list[places[i]].0] == list[places[i]].1);
        }
        if map.contains_key(id.0) && wanted(map[id.0]) {
            let m = choose|m: int| 0 <= m < list.len() && (#[trigger] list[m]).0 == id.0;
            assert(map[list[m].0] == list[m].1);
            assert(places.contains(m));
            let i = choose|i: int| 0 <= i < places.len() && places[i] == m;
            assert(numbers[i] == id);
        }
    }
}

proof fn lemma_expired_places(list: Seq<(u64, FlowState)>, now: u64)
    ensures
        ({
            let places = chosen_places(list, |s: FlowState| s.expired(now));
            let numbers = expired_flows(list, now);
            &&& numbers.len() == places.len()
            &&& forall|i: int|
                0 <= i < numbers.len() ==> (#[trigger] numbers[i]).0 == list[places[i]].0
                    && places[i] < list.len() && 0 <= places[i]
        }),
    decreases list.len(),
{
    if list.len() > 0 {
        let rest = list.drop_last();
        lemma_expired_places(rest, now);
        let wanted = |s: FlowState| s.expired(now);
        let before = chosen_places(rest, wanted);
        let places = chosen_places(list, wanted);
        let numbers = expired_flows(list, now);
        assert forall|i: int| 0 <= i < numbers.len() implies (#[trigger] numbers[i]).0
            == list[places[i]].0 && places[i] < list.len() && 0 <= places[i] by {
            if i < before.len() {
                assert(numbers[i] == expired_flows(rest, now)[i]);
                assert(places[i] == before[i]);
                assert(rest[before[i]] == list[before[i]]);
            }
        }
    }
}

proof fn lemma_carrying_places(list: Seq<(u64, FlowState)>, topic_filter: Seq<char>)
    ensures
        ({
            let places = chosen_places(list, |s: FlowState| s.carries(topic_filter));
            let numbers = flows_carrying(list, topic_filter);
            &&& numbers.len() == places.len()
            &&& forall|i: int|
                0 <= i < numbers.len() ==> (#[trigger] numbers[i]).0 == list[places[i]].0
                    && places[i] < list.len() && 0 <= places[i]
        }),
    decreases list.len(),
{
    if list.len() > 0 {
        let rest = list.drop_last();
        lemma_carrying_places(rest, topic_filter);
        let wanted = |s: FlowState| s.carries(topic_filter);
        let before = chosen_places(rest, wanted);
        let places = chosen_places(list, wanted);
        let numbers = flows_carrying(list, topic_filter);
        assert forall|i: int| 0 <= i < numbers.len() implies (#[trigger] numbers[i]).0
            == list[places[i]].0 && places[i] < list.len() && 0 <= places[i] by {
            if i < before.len() {
                assert(numbers[i] == flows_carrying(rest, topic_filter)[i]);
                assert(places[i] == before[i]);
                assert(rest[before[i]] == list[before[i]]);
            }
        }
    }
}

proof fn lemma_type_places(list: Seq<(u64, FlowState)>, flow_type: FlowType)
    ensures
        ({
            let places = chosen_places(list, |s: FlowState| s.flow_type == flow_type);
            let flows = flows_of_type(list, flow_type);
            &&& flows.len() == places.len()
            &&& forall|i: int|
                0 <= i < flows.len() ==> (#[trigger] flows[i]).0.0 == list[places[i]].0
                    && flows[i].1 == list[places[i]].1 && places[i] < list.len() && 0 <= places[i]
        }),
    decreases list.len(),
{
    if list.len() > 0 {
        let rest = list.drop_last();
        lemma_type_places(rest, flow_type);
        let wanted = |s: FlowState| s.flow_type == flow_type;
        let before = chosen_places(rest, wanted);
        let places = chosen_places(list, wanted);
        let flows = flows_of_type(list, flow_type);
        assert forall|i: int| 0 <= i < flows.len() implies (#[trigger] flows[i]).0.0
            == list[places[i]].0 && flows[i].1 == list[places[i]].1 && places[i] < list.len() && 0
            <= places[i] by {
            if i < before.len() {
                assert(flows[i] == flows_of_type(rest, flow_type)[i]);
                assert(places[i] == before[i]);
                assert(rest[before[i]] == list[before[i]]);
            }
        }
    }
}

/// The numbers that come out when flows expire are those of the expired flows, each once; the
/// others stay, so that no flow is lost.
pub proof fn law_expired_flows_come_out_once(registry: FlowRegistry, now: u64)
    requires
        registry.wf(),
    ensures
        ({
            let numbers = expired_flows(registry.listing(), now);
            &&& numbers.no_duplicates()
            &&& forall|id: FlowId| #[trigger]
                numbers.contains(id) <==> registry@.contains_key(id.0) && registry@[id.0].expired(
                    now,
                )
            &&& live_flows(registry@, now).dom().len() + numbers.len() == registry@.dom().len()
        }),
{
    let list = registry.listing();
    let map = registry@;
    let wanted = |s: FlowState| s.expired(now);
    registry.lemma_listing();
    lemma_expired_places(list, now);
    lemma_chosen_numbers(list, wanted, expired_flows(list, now));
    lemma_chosen_places(list, wanted);
    let gone = map.dom().filter(|k: u64| wanted(map[k]));
    let kept = live_flows(map, now).dom();
    assert(kept =~= map.dom().difference(gone));
    vstd::set_lib::lemma_set_disjoint_lens(kept, gone);
    assert(kept + gone =~= map.dom());
}

/// The flows that carry a subscription are found by exactly its text, each once.
pub proof fn law_flows_for_a_subscription(registry: FlowRegistry, topic_filter: Seq<char>)
    requires
        registry.wf(),
    ensures
        ({
            let numbers = flows_carrying(registry.listing(), topic_filter);
            &&& numbers.no_duplicates()
            &&& forall|id: FlowId| #[trigger]
                numbers.contains(id) <==> registry@.contains_key(id.0) && registry@[id.0].carries(
                    topic_filter,
                )
        }),
{
    let list = registry.listing();
    registry.lemma_listing();
    lemma_carrying_places(list, topic_filter);
    lemma_chosen_numbers(
        list,
        |s: FlowState| s.carries(topic_filter),
        flows_carrying(list, topic_filter),
    );
}

/// A look at the flows of a type shows exactly them, each once.
pub proof fn law_flows_of_a_type(registry: FlowRegistry, flow_type: FlowType)
    requires
        registry.wf(),
    ensures
        ({
            let flows = flows_of_type(registry.listing(), flow_type);
            &&& forall|i: int, j: int|
                #![trigger flows[i], flows[j]]
                0 <= i < j < flows.len() ==> flows[i].0 != flows[j].0
            &&& forall|id: FlowId, state: FlowState| #[trigger]
                flows.contains((id, state)) <==> registry@.contains_key(id.0) && registry@[id.0]
                    == state && state.flow_type == flow_type
        }),
{
    let list = registry.listing();
    let map = registry@;
    let wanted = |s: FlowState| s.flow_type == flow_type;
    let flows = flows_of_type(list, flow_type);
    let places = chosen_places(list, wanted);
    registry.lemma_listing();
    lemma_type_places(list, flow_type);
    lemma_chosen_places(list, wanted);
    crate::id_map::lemma_as_map(list);
    assert forall|i: int, j: int|
        #![trigger flows[i], flows[j]]
        0 <= i < j < flows.len() implies flows[i].0 != flows[j].0 by {
        assert(places[i] < places[j]);
        assert(list[places[i]].0 != list[places[j]].0);
    }
    assert forall|id: FlowId, state: FlowState| #[trigger]
        flows.contains((id, state)) <==> map.contains_key(id.0) && map[id.0] == state
        && state.flow_type == flow_type by {
        if flows.contains((id, state)) {
            let i = choose|i: int| 0 <= i < flows.len() && flows[i] == (id, state);
            assert(map[list[places[i]].0] == list[places[i]].1);
        }
        if map.contains_key(id.0) && map[id.0] == state && state.flow_type == flow_type {
            let m = choose|m: int| 0 <= m < list.len() && (#[trigger] list[m]).0 == id.0;
            assert(map[list[m].0] == list[m].1);
            assert(places.contains(m));
            let i = choose|i: int| 0 <= i < places.len() && places[i] == m;
            assert(flows[i] == (id, state));
        }
    }
}

/// Every flow is a control flow, one of the client or one of the server, and counts once: the
/// three looks have no number in common, and together they show as many flows as there are. There
/// are never more than the registry has room for.
pub proof fn law_flows_are_counted_once(registry: FlowRegistry)
    requires
        registry.wf(),
    ensures
        ({
            let list = registry.listing();
            let control = flows_of_type(list, FlowType::Control);
            let client = flows_of_type(list, FlowType::ClientData);
            let server = flows_of_type(list, FlowType::ServerData);
            &&& control.len() + client.len() + server.len() == registry@.dom().len()
            &&& registry@.dom().len() == list.len()
            &&& registry@.dom().len() <= registry.capacity()
            &&& forall|i: int, j: int|
                #![trigger client[i], server[j]]
                0 <= i < client.len() && 0 <= j < server.len() ==> client[i].0 != server[j].0
        }),
{
    let list = registry.listing();
    registry.lemma_listing();
    law_flows_of_a_type(registry, FlowType::ClientData);
    law_flows_of_a_type(registry, FlowType::ServerData);
    lemma_type_counts(list);
    let client = flows_of_type(list, FlowType::ClientData);
    let server = flows_of_type(list, FlowType::ServerData);
    assert forall|i: int, j: int|
        #![trigger client[i], server[j]]
        0 <= i < client.len() && 0 <= j < server.len() implies client[i].0 != server[j].0 by {
        assert(client.contains((client[i].0, client[i].1)));
        assert(server.contains((server[j].0, server[j].1)));
    }
}

proof fn lemma_type_counts(list: Seq<(u64, FlowState)>)
    ensures
        flows_of_type(list, FlowType::Control).len() + flows_of_type(
            list,
            FlowType::ClientData,
        ).len() + flows_of_type(list, FlowType::ServerData).len() == list.len(),
    decreases list.len(),
{
    if list.len() > 0 {
        lemma_type_counts(list.drop_last());
    }
}

/// The next number of either side was never given out before, and is given out once it is taken;
/// what was given out before stays so.
pub proof fn law_next_flow_number_is_new(numbers: FlowIdGenerator)
    requires
        numbers.below_wrap(),
    ensures
        ({
            let id = FlowId::of_client(numbers.client);
            let next = FlowIdGenerator { client: after(numbers.client), ..numbers };
            &&& !numbers.gave_out(id)
            &&& next.gave_out(id)
            &&& forall|other: FlowId| numbers.gave_out(other) ==> #[trigger] next.gave_out(other)
        }),
        ({
            let id = FlowId::of_server(numbers.server);
            let next = FlowIdGenerator { server: after(numbers.server), ..numbers };
            &&& !numbers.gave_out(id)
            &&& next.gave_out(id)
            &&& forall|other: FlowId| numbers.gave_out(other) ==> #[trigger] next.gave_out(other)
        }),
{
    assert(FlowId::of_client(numbers.client) == FlowId::of_client(numbers.client));
    assert(FlowId::of_server(numbers.server) == FlowId::of_server(numbers.server));
}

/// The number that was given out between two states of the numbering, if any.
pub open spec fn given_between(before: FlowIdGenerator, later: FlowIdGenerator) -> Option<FlowId> {
    if later == (FlowIdGenerator { client: after(before.client), ..before }) {
        Some(FlowId::of_client(before.client))
    } else if later == (FlowIdGenerator { server: after(before.server), ..before }) {
        Some(FlowId::of_server(before.server))
    } else {
        None
    }
}

/// The states that the numbering of a registry went through: from the first one on, each step
/// gave out a number or changed nothing.
pub open spec fn numbering_history(history: Seq<FlowIdGenerator>) -> bool {
    &&& history.len() > 0
    &&& history[0] == (FlowIdGenerator { client: 1, server: 1 })
    &&& forall|i: int| 0 <= i < history.len() - 1 ==> #[trigger] numbering_step(history, i)
}

/// Whether a step of a history gave out a number or changed nothing.
pub open spec fn numbering_step(history: Seq<FlowIdGenerator>, i: int) -> bool {
    history[i + 1] == history[i] || given_between(history[i], history[i + 1]) is Some
}

/// A number is never given out a second time, whichever flows were opened, taken over or removed
/// in between, as long as neither side has opened all the flows that it can number.
pub proof fn law_flow_number_is_never_given_out_again(
    history: Seq<FlowIdGenerator>,
    i: int,
    j: int,
)
    requires
        numbering_history(history),
        forall|k: int| 0 <= k < history.len() ==> (#[trigger] history[k]).below_wrap(),
        0 <= i < j < history.len() - 1,
        given_between(history[i], history[i + 1]) is Some,
        given_between(history[j], history[j + 1]) is Some,
    ensures
        given_between(history[i], history[i + 1]) != given_between(history[j], history[j + 1]),
{
    let early = history[i];
    let late = history[j];
    assert(early.below_wrap() && late.below_wrap() && history[i + 1].below_wrap());
    lemma_numbering_grows(history, i + 1, j);
    if early.client != late.client {
        law_flow_numbers_are_distinct(early.client, late.client);
    }
    if early.server != late.server {
        law_flow_numbers_are_distinct(early.server, late.server);
    }
    law_flow_numbers_are_separate(early.client, late.server);
    law_flow_numbers_are_separate(late.client, early.server);
}

proof fn lemma_numbering_grows(history: Seq<FlowIdGenerator>, i: int, j: int)
    requires
        numbering_history(history),
        forall|k: int| 0 <= k < history.len() ==> (#[trigger] history[k]).below_wrap(),
        0 <= i <= j < history.len(),
    ensures
        history[i].client <= history[j].client,
        history[i].server <= history[j].server,
    decreases j - i,
{
    if i < j {
        lemma_numbering_grows(history, i, j - 1);
        assert(history[j - 1].below_wrap());
        assert(numbering_step(history, j - 1));
    }
}

/// The flows of client and server never share a number, and none has that of the control flow,
/// as long as neither side has opened all the flows that it can number.
pub proof fn law_flow_numbers_are_separate(client: u64, server: u64)
    requires
        0 < client < 0x8000_0000_0000_0000,
        0 < server < 0x8000_0000_0000_0000,
    ensures
        FlowId::of_client(client) != FlowId::of_server(server),
        FlowId::of_client(client) != FlowId(0),
        FlowId::of_server(server) != FlowId(0),
        FlowId::of_client(client).0 % 2 == 0,
        FlowId::of_server(server).0 % 2 == 1,
{
}

/// Two flows that a side opened have two numbers, as long as it has not opened all the flows that
/// it can number.
pub proof fn law_flow_numbers_are_distinct(a: u64, b: u64)
    requires
        a < 0x8000_0000_0000_0000,
        b < 0x8000_0000_0000_0000,
        a != b,
    ensures
        FlowId::of_client(a) != FlowId::of_client(b),
        FlowId::of_server(a) != FlowId::of_server(b),
{
}

/// A registry never grows beyond its capacity: opening a flow in one that is not full leaves it
/// within it.
pub proof fn law_capacity_is_kept(flows: Map<u64, FlowState>, capacity: nat, k: u64, state: FlowState)
    requires
        flows.dom().finite(),
        flows.dom().len() < capacity,
    ensures
        flows.insert(k, state).dom().len() <= capacity,
{
}

/// A flow expires once more time than its interval has gone by without activity; one without an
/// interval never does.
pub proof fn law_flow_lives_for_its_interval(flow: FlowState, now: u64)
    ensures
        flow.expire_interval is None ==> !flow.expired(now),
        flow.expire_interval matches Some(interval) ==> (flow.expired(now) <==> now
            > flow.last_activity + interval),
{
}

/// The flows of a client have the even numbers and those of a server the odd ones, both in order.
pub proof fn law_flow_numbers_follow_each_other(seq: u64)
    requires
        seq < 0x7FFF_FFFF_FFFF_FFFF,
    ensures
        FlowId::of_client(seq).0 == seq + seq,
        FlowId::of_server(seq).0 == FlowId::of_client(seq).0 + 1,
        FlowId::of_client(after(seq)).0 == FlowId::of_client(seq).0 + 2,
        FlowId::of_server(after(seq)).0 == FlowId::of_server(seq).0 + 2,
{
}

/// A flow carries the subscriptions that were put on it, and no others.
pub proof fn law_flow_carries_its_subscriptions(
    before: FlowState,
    later: FlowState,
    topic_filter: String,
    other: Seq<char>,
)
    requires
        later.subscriptions@ == before.subscriptions@.push(topic_filter),
    ensures
        later.carries(topic_filter@),
        later.carries(other) <==> before.carries(other) || other == topic_filter@,
        before.subscriptions@.len() == 0 ==> !before.carries(other),
{
    let list = later.subscriptions@;
    assert(list[list.len() - 1]@ == topic_filter@);
    if before.carries(other) {
        let i = choose|i: int|
            0 <= i < before.subscriptions@.len() && (#[trigger] before.subscriptions@[i])@ == other;
        assert(list[i]@ == other);
    }
    if later.carries(other) && other != topic_filter@ {
        let i = choose|i: int| 0 <= i < list.len() && (#[trigger] list[i])@ == other;
        assert(before.subscriptions@[i]@ == other);
    }
}

/// A flow that has not expired stays when the expired ones are removed.
pub proof fn law_living_flow_stays(flows: Map<u64, FlowState>, now: u64, k: u64)
    ensures
        live_flows(flows, now).contains_key(k) <==> flows.contains_key(k) && (
        flows[k].expire_interval is None || now <= flows[k].last_activity
            + flows[k].expire_interval->0),
        live_flows(flows, now).contains_key(k) ==> live_flows(flows, now)[k] == flows[k],
{
}

/// A registry is full once it holds as many flows as it may.
pub proof fn law_full_registry(registry: FlowRegistry)
    requires
        registry.wf(),
    ensures
        registry.full() <==> registry@.dom().len() == registry.capacity(),
{
}

} // verus!
