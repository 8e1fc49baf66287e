//! The message router: registration of connections, subscriptions, retained messages and the
//! delivery of published messages.

use crate::broker::delivery::{DeliveryLanes, Lane, Offer, OutboundRateState, RoutableMessage};
use crate::broker::planning::{self, Choice, PlanEnv, PlanState};
use crate::broker::storage::client_queue::{
    self, ClientQueue, QueueEntry, QueueHandle, QueueLimits, QueueOp, QueueRegistry,
};
use crate::broker::storage::{memory_backend, ChangeOnlyState, QueuedMessage, RetainedMessage};
use crate::broker::subscriptions::{
    self, holds_name, Removal, Subscription, SubscriptionTable,
};
use crate::error::{MqttError, Result};
use crate::text::{decimal_text, joined, same_text, share};
use crate::text_map::TextMap;
use crate::topic::{parse_shared_subscription, topic_matches_filter};
use crate::types::{copy_text, Bytes, ProtocolVersion, PublishPacket, QoS};
use std::sync::Arc;
use vstd::prelude::*;

verus! {

/// Upper bound, in milliseconds, on how long one publish may wait for slow subscribers' delivery
/// lanes.
pub const ROUTE_BUDGET_MAX: u64 = 2000;

/// Information about a connected client.
#[derive(Debug)]
pub struct ClientInfo {
    /// Number of the registration that serves the client.
    pub generation: u64,
    /// The lanes to the client's handler.
    pub lanes: DeliveryLanes,
    /// Whether the handler still listens for a takeover.
    pub listening: bool,
}

/// A message on its way to one subscriber. One for a connected client is for the connection that
/// the client has when the plan is made.
#[derive(Debug)]
pub enum DeliveryPlan {
    Online { client_id: String, generation: u64, message: PublishPacket, target_flow: Option<u64> },
    Behind { client_id: String, message: PublishPacket, target_flow: Option<u64> },
}

/// Message router for the broker.
#[derive(Debug)]
pub struct MessageRouter {
    table: SubscriptionTable,
    retained: TextMap<RetainedMessage>,
    clients: TextMap<ClientInfo>,
    persistent: bool,
    turns: TextMap<usize>,
    change_only: TextMap<ChangeOnlyState>,
    echo_key: Option<String>,
    rates: TextMap<OutboundRateState>,
    max_rate: u32,
    queues: QueueRegistry,
    generation: u64,
}

/// The characters of an optional name.
pub open spec fn name_of(name: Option<&str>) -> Option<Seq<char>> {
    match name {
        Some(s) => Some(s@),
        None => None,
    }
}

/// Whether a plan carries out a choice.
pub open spec fn plan_is(
    plan: DeliveryPlan,
    choice: Choice,
    publish: PublishPacket,
    clients: Map<Seq<char>, ClientInfo>,
) -> bool {
    match (plan, choice) {
        (
            DeliveryPlan::Online { client_id, generation, message, target_flow },
            Choice::Online(sub, qos),
        ) => client_id == sub.client_id && generation == clients[client_id@].generation
            && target_flow == sub.flow_id && planning::is_prepared(
            message,
            publish,
            sub,
            qos,
        ),
        (
            DeliveryPlan::Behind { client_id, message, target_flow },
            Choice::Behind(sub, qos),
        ) => client_id == sub.client_id && target_flow == sub.flow_id && planning::is_prepared(
            message,
            publish,
            sub,
            qos,
        ),
        (
            DeliveryPlan::Behind { client_id, message, target_flow },
            Choice::Forward(sub),
        ) => client_id == sub.client_id && target_flow == sub.flow_id && message == PublishPacket {
            qos: sub.qos,
            ..publish
        },
        _ => false,
    }
}

/// Whether plans carry out choices, one each, in order.
pub open spec fn plans_are(
    plans: Seq<DeliveryPlan>,
    choices: Seq<Choice>,
    publish: PublishPacket,
    clients: Map<Seq<char>, ClientInfo>,
) -> bool {
    &&& plans.len() == choices.len()
    &&& forall|i: int|
        #![trigger plans[i]]
        0 <= i < plans.len() ==> plan_is(plans[i], choices[i], publish, clients)
}

/// A message that waits for room in a client's gated lane until the publish runs out of time.
#[derive(Debug)]
pub struct Waiting {
    pub client_id: String,
    pub generation: u64,
    pub message: RoutableMessage,
}

/// What a retained publish did to the message of its topic.
#[derive(Debug)]
pub struct RetainedSetEvent {
    pub topic: String,
    pub payload: Bytes,
    pub qos: QoS,
    pub cleared: bool,
}

/// How far the plans for a message were carried out.
#[derive(Debug)]
pub struct RouteProgress {
    /// A delivery that waits for room. When its wait has ended, the rest is carried out.
    pub waiting: Option<Waiting>,
    /// The plans that come after it, in order.
    pub rest: Vec<DeliveryPlan>,
}

/// What is left to do after a message was routed.
#[derive(Debug)]
pub struct RouteOutcome {
    pub progress: RouteProgress,
    /// The change to the retained message of the topic, to be stored and announced.
    pub retained: Option<RetainedSetEvent>,
    /// Whether the message goes to the bridges too.
    pub forward: bool,
}

/// The message that is queued for a client that cannot take it now.
pub open spec fn queued_form(
    client_id: String,
    message: PublishPacket,
    target_flow: Option<u64>,
    now: u64,
) -> QueuedMessage {
    QueuedMessage {
        target_flow,
        ..QueuedMessage::of(message, client_id, message.qos, None, now)
    }
}

/// The queues after a message was queued behind a client's backlog and its handler was woken.
pub open spec fn queued_behind(
    before: QueueRegistry,
    after: QueueRegistry,
    client_id: String,
    message: PublishPacket,
    target_flow: Option<u64>,
    now: u64,
) -> bool {
    let id = client_id@;
    &&& after.bounds() == before.bounds()
    &&& after.persists() == before.persists()
    &&& after.left_work() == before.left_work()
    &&& after.counter() == (if before.counter() < u64::MAX {
        before.counter() + 1
    } else {
        0
    })
    &&& after@ == before@.insert(id, after@[id])
    &&& after@[id].queue().holds_pushed(
        before.entries_of(id),
        before.work_of(id),
        before.counter(),
        queued_form(client_id, message, target_flow, now),
    )
    &&& after.control_of(id) == (client_queue::Control {
        wake_stored: true,
        ..before.control_of(id)
    })
    &&& after.fits(id, after@[id].queue())
    &&& before@.contains_key(id) ==> after@[id].queue().id() == before@[id].queue().id()
}

/// A lane after one more message, or as it was.
pub open spec fn lane_grew(before: Lane, after: Lane, message: RoutableMessage) -> bool {
    &&& after.messages() == before.messages().push(message)
    &&& after.room() == before.room()
    &&& after.shut() == before.shut()
}

/// Whether a lane takes one more message.
pub open spec fn lane_open(lane: Lane) -> bool {
    !lane.shut() && lane.messages().len() < lane.room()
}

/// The clients after a message went into one lane of one of them.
pub open spec fn lane_took(
    before: Map<Seq<char>, ClientInfo>,
    after: Map<Seq<char>, ClientInfo>,
    id: Seq<char>,
    gated: bool,
    message: RoutableMessage,
) -> bool {
    &&& after.dom() == before.dom()
    &&& forall|c: Seq<char>| c != id ==> #[trigger] after[c] == before[c]
    &&& after[id].generation == before[id].generation
    &&& after[id].listening == before[id].listening
    &&& if gated {
        &&& lane_grew(before[id].lanes.qos1, after[id].lanes.qos1, message)
        &&& after[id].lanes.qos0 == before[id].lanes.qos0
    } else {
        &&& lane_grew(before[id].lanes.qos0, after[id].lanes.qos0, message)
        &&& after[id].lanes.qos1 == before[id].lanes.qos1
    }
}

/// How a plan is carried out.
pub enum Way {
    /// The message goes into the ungated lane.
    Ungated,
    /// The message goes into the gated lane.
    Gated,
    /// The message goes to the client's queue.
    Queue,
    /// The message waits for room in the gated lane.
    Wait,
    /// The message is dropped.
    Drop,
}

/// Whether a client has the connection with a number.
pub open spec fn has_connection(
    clients: Map<Seq<char>, ClientInfo>,
    client_id: Seq<char>,
    generation: u64,
) -> bool {
    clients.contains_key(client_id) && clients[client_id].generation == generation
}

/// How a message for a connected client is carried out: quality of service 0 goes to its lane or is
/// dropped; the others are queued behind a backlog, a closed lane or a connection that is gone, and
/// wait for room in a full lane, unless the client waits for itself.
pub open spec fn way_online(
    router: MessageRouter,
    client_id: Seq<char>,
    generation: u64,
    qos: QoS,
    publisher: Option<Seq<char>>,
) -> Way {
    let here = has_connection(router.clients(), client_id, generation);
    let lanes = router.clients()[client_id].lanes;
    if qos == QoS::AtMostOnce {
        if here && lane_open(lanes.qos0) {
            Way::Ungated
        } else {
            Way::Drop
        }
    } else if !here || router.queues()@[client_id].queue().lags() || lanes.qos1.shut() {
        Way::Queue
    } else if lane_open(lanes.qos1) {
        Way::Gated
    } else if publisher == Some(client_id) {
        Way::Queue
    } else {
        Way::Wait
    }
}

/// The way of a plan.
pub open spec fn way(router: MessageRouter, plan: DeliveryPlan, publisher: Option<Seq<char>>) -> Way {
    match plan {
        DeliveryPlan::Behind { .. } => Way::Queue,
        DeliveryPlan::Online { client_id, generation, message, .. } => way_online(
            router,
            client_id@,
            generation,
            message.qos,
            publisher,
        ),
    }
}

/// The client, the message and the flow of a plan.
pub open spec fn parts(plan: DeliveryPlan) -> (String, PublishPacket, Option<u64>) {
    match plan {
        DeliveryPlan::Behind { client_id, message, target_flow } => (client_id, message, target_flow),
        DeliveryPlan::Online { client_id, message, target_flow, .. } => (
            client_id,
            message,
            target_flow,
        ),
    }
}

/// What carrying out a plan does.
pub open spec fn carried_out(
    before: MessageRouter,
    plan: DeliveryPlan,
    publisher: Option<Seq<char>>,
    now: u64,
    after: MessageRouter,
    waiting: Option<Waiting>,
) -> bool {
    let (client_id, message, target_flow) = parts(plan);
    let routable = RoutableMessage { publish: message, target_flow };
    &&& after.same_but_deliveries(&before)
    &&& match way(before, plan, publisher) {
        Way::Drop => {
            &&& waiting is None
            &&& after.clients() == before.clients()
            &&& after.queues() == before.queues()
        },
        Way::Ungated => {
            &&& waiting is None
            &&& after.queues() == before.queues()
            &&& lane_took(before.clients(), after.clients(), client_id@, false, routable)
        },
        Way::Gated => {
            &&& waiting is None
            &&& after.queues() == before.queues()
            &&& lane_took(before.clients(), after.clients(), client_id@, true, routable)
        },
        Way::Queue => {
            &&& waiting is None
            &&& after.clients() == before.clients()
            &&& queued_behind(
                before.queues(),
                after.queues(),
                client_id,
                message,
                target_flow,
                now,
            )
        },
        Way::Wait => {
            &&& waiting matches Some(w) && w == (Waiting {
                client_id,
                generation: w.generation,
                message: routable,
            }) && has_connection(before.clients(), client_id@, w.generation)
            &&& after.clients() == before.clients()
            &&& after.queues() == before.queues()
        },
    }
}

/// The retained messages after a publish with the retain flag: an empty payload removes the
/// message of the topic, any other replaces it.
pub open spec fn retained_after(
    before: Map<Seq<char>, RetainedMessage>,
    publish: PublishPacket,
    now: u64,
) -> Map<Seq<char>, RetainedMessage> {
    if !publish.retain {
        before
    } else if publish.payload@.len() == 0 {
        before.remove(publish.topic_name@)
    } else {
        before.insert(publish.topic_name@, RetainedMessage::of(publish, now))
    }
}

/// The event that a retained publish gives.
pub open spec fn retained_event(publish: PublishPacket) -> RetainedSetEvent {
    RetainedSetEvent {
        topic: publish.topic_name,
        payload: publish.payload,
        qos: publish.qos,
        cleared: publish.payload@.len() == 0,
    }
}

/// The plans for a message: the retained message is updated, and a plan is made for every
/// subscriber. Nothing is delivered yet.
pub open spec fn planned(
    before: MessageRouter,
    publish: PublishPacket,
    publisher: Option<Seq<char>>,
    now: u64,
    plans: Seq<DeliveryPlan>,
    after: MessageRouter,
) -> bool {
    let all = planning::plan_all(
        before.plan_env(publish, publisher, now),
        before.plan_state(),
        before.table().matches(publish.topic_name@),
    );
    &&& plans_are(plans, all.0, publish, before.clients())
    &&& after.plan_state() == all.1
    &&& after.retained() == retained_after(before.retained(), publish, now)
    &&& after.table() == before.table()
    &&& after.clients() == before.clients()
    &&& after.queues() == before.queues()
    &&& after.same_settings(&before)
}

/// Carrying plans out, one after the other, up to the first that has to wait: `steps` are the
/// states of the router from the beginning on.
pub open spec fn advanced(
    plans: Seq<DeliveryPlan>,
    publisher: Option<Seq<char>>,
    now: u64,
    steps: Seq<MessageRouter>,
    progress: RouteProgress,
) -> bool {
    let n = plans.len() - progress.rest@.len();
    &&& 0 <= n
    &&& steps.len() == n + 1
    &&& progress.rest@ == plans.skip(n)
    &&& forall|i: int|
        #![trigger plans[i]]
        0 <= i < n ==> carried_out(
            steps[i],
            plans[i],
            publisher,
            now,
            steps[i + 1],
            if i == n - 1 {
                progress.waiting
            } else {
                None
            },
        )
    &&& match progress.waiting {
        Some(_) => n > 0,
        None => progress.rest@.len() == 0,
    }
}

/// Delivered to the handler that a newer connection with the same client id displaces.
///
/// The displaced handler hands its unfinished deliveries back to the session queue (or drops
/// them when `discard` is set), then the new handler may start delivering.
#[derive(Debug)]
pub struct TakeoverNotice {
    pub client_id: String,
    pub generation: u64,
    pub discard: bool,
}

/// What a handler learns when it registers its connection.
#[derive(Debug)]
pub struct Registration {
    pub generation: u64,
    /// The notice for the displaced handler; the new one waits until that has released the
    /// session.
    pub notice: Option<TakeoverNotice>,
    /// The first queue sequence number that a clean start must keep.
    pub cutoff: Option<u64>,
}

/// Whether the releasing handler still owned the router entry.
#[derive(Debug, Clone, Copy, PartialEq, Eq, Structural)]
pub enum Release {
    Owned,
    Displaced,
}

/// Outcome of a generation-fenced subscribe.
#[derive(Debug, Clone, Copy, PartialEq, Eq, Structural)]
pub enum Subscribed {
    New,
    Updated,
    Fenced,
}

/// Outcome of a generation-fenced unsubscribe.
#[derive(Debug, Clone, Copy, PartialEq, Eq, Structural)]
pub enum Unsubscribed {
    Removed,
    Absent,
    Fenced,
}

/// The queues after a connection took over a client: its queue is held, and where a handler was
/// displaced a hand-off has begun. A hand-off whose handler no longer listens ends at once.
pub open spec fn queue_taken_over(
    before: QueueRegistry,
    after: QueueRegistry,
    id: Seq<char>,
    displaced: bool,
    listening: bool,
) -> bool {
    let queue = after@[id].queue();
    let control = before.control_of(id);
    let begun: int = if control.open_handoffs < usize::MAX {
        control.open_handoffs + 1
    } else {
        0
    };
    &&& after.same_settings(&before)
    &&& after@ == before@.insert(id, after@[id])
    &&& queue.queued() == before.entries_of(id)
    &&& queue.work() == before.work_of(id)
    &&& after.fits(id, queue)
    &&& before@.contains_key(id) ==> queue.id() == before@[id].queue().id()
    &&& after.control_of(id) == (if displaced && listening {
        client_queue::Control {
            open_handoffs: begun as usize,
            ..client_queue::held_for_a_while(control)
        }
    } else if displaced {
        client_queue::Control {
            open_handoffs: if begun > 0 {
                (begun - 1) as usize
            } else {
                0
            },
            quiesced_stored: control.quiesced_stored || begun == 1,
            ..client_queue::held_for_a_while(control)
        }
    } else {
        client_queue::Control { holders: client_queue::one_more(control.holders), ..control }
    })
}

/// Whether a handler's registration is the current one of its client; a caller without a
/// registration is never fenced.
pub open spec fn is_current(
    clients: Map<Seq<char>, ClientInfo>,
    generation: Option<u64>,
    client_id: Seq<char>,
) -> bool {
    match generation {
        None => true,
        Some(g) => clients.contains_key(client_id) && clients[client_id].generation == g,
    }
}

/// The message of the error that an invalid retain handling gives.
pub open spec fn retain_handling_message(value: u8) -> Seq<char> {
    "Invalid retain_handling value: "@ + crate::text::decimal(value as nat)
        + " (must be 0, 1, or 2)"@
}

/// The queues after a client's entry is gone: the entry's hold on the queue is given back, and
/// nothing else changes.
pub open spec fn queue_let_go(
    before: QueueRegistry,
    after: QueueRegistry,
    id: Seq<char>,
    held: bool,
) -> bool {
    if held && before@.contains_key(id) {
        &&& after.same_settings(&before)
        &&& after@ == before@.insert(id, after@[id])
        &&& after@[id].queue() == before@[id].queue()
        &&& after@[id].holders() == (if before@[id].holders() > 0 {
            before@[id].holders() - 1
        } else {
            0
        })
    } else {
        after == before
    }
}

/// How a client subscribes.
#[derive(Debug, Clone, Copy)]
pub struct SubscribeOptions {
    pub qos: QoS,
    pub subscription_id: Option<u32>,
    pub no_local: bool,
    pub retain_as_published: bool,
    pub retain_handling: u8,
    pub protocol_version: ProtocolVersion,
    pub change_only: bool,
    pub flow_id: Option<u64>,
}

/// The retained messages of a list whose topics match a filter and that have not expired, as a new
/// subscriber gets them.
pub open spec fn publications(
    list: Seq<(Seq<char>, RetainedMessage)>,
    filter: Seq<char>,
    now: u64,
) -> Seq<PublishPacket>
    decreases list.len(),
{
    if list.len() == 0 {
        Seq::empty()
    } else {
        let before = publications(list.drop_last(), filter, now);
        if crate::topic::topic_matches(list.last().0, filter) && !crate::broker::storage::past(
            list.last().1.expires_at,
            now,
        ) {
            before.push(list.last().1.publication())
        } else {
            before
        }
    }
}

/// The retained messages after stored ones were taken over.
pub open spec fn loaded(
    before: Map<Seq<char>, RetainedMessage>,
    stored: Seq<(String, RetainedMessage)>,
) -> Map<Seq<char>, RetainedMessage>
    decreases stored.len(),
{
    if stored.len() == 0 {
        before
    } else {
        loaded(before, stored.drop_last()).insert(stored.last().0@, stored.last().1)
    }
}

/// A client that has subscriptions, is not connected and has no live session.
pub open spec fn is_stale(
    router: MessageRouter,
    live_sessions: Seq<String>,
    client_id: Seq<char>,
) -> bool {
    &&& exists|f: Seq<char>| #[trigger] subscriptions::subscribes(router.table().row(f), client_id)
    &&& !router.clients().contains_key(client_id)
    &&& !(router.persistent() && subscriptions::names(live_sessions, client_id))
}

/// Whether a registry keeps a client's queue when it drops the idle ones.
pub open spec fn survives_eviction(queues: QueueRegistry, client_id: Seq<char>) -> bool {
    &&& queues@.contains_key(client_id)
    &&& !client_queue::is_idle(queues@[client_id])
}

/// The work of a client's queue that is left once the idle queues in memory are dropped; what a
/// dropped queue had collected stays behind in the registry.
pub open spec fn work_kept(router: MessageRouter, client_id: Seq<char>) -> Option<Seq<QueueOp>> {
    if router.persistent() || survives_eviction(router.queues(), client_id) {
        router.queues().work_of(client_id)
    } else if router.queues().persists() {
        Some(Seq::empty())
    } else {
        None
    }
}

/// The state of a client's queue beside its entries and its work once the idle queues in memory are
/// dropped; a queue that was dropped begins anew.
pub open spec fn control_kept(router: MessageRouter, client_id: Seq<char>) -> client_queue::Control {
    if router.persistent() || survives_eviction(router.queues(), client_id) {
        router.queues().control_of(client_id)
    } else {
        client_queue::untouched()
    }
}

/// What a client's queue is after everything in it was cleared.
pub open spec fn queue_emptied(
    entries: Seq<QueueEntry>,
    work: Option<Seq<QueueOp>>,
    queue: ClientQueue,
) -> bool {
    &&& queue.queued() == Seq::<QueueEntry>::empty()
    &&& queue.work() == ClientQueue::more_work(
        work,
        client_queue::deletions(queue.id(), client_queue::seqs(entries)),
    )
}

fn is_client(name: Option<&str>, client_id: &str) -> (r: bool)
    ensures
        r == (name_of(name) == Some(client_id@)),
{
    match name {
        Some(s) => same_text(s, client_id),
        None => false,
    }
}

/// The value of the first user property with this key.
fn user_property_value<'a>(properties: &'a Vec<(String, String)>, key: &str) -> (r: Option<
    &'a String,
>)
    ensures
        match r {
            Some(v) => planning::first_value(properties@, key@) == Some(v@),
            None => planning::first_value(properties@, key@) is None,
        },
{
    let mut i: usize = 0;
    assert(properties@.skip(0) =~= properties@);
    while i < properties.len()
        invariant
            i <= properties@.len(),
            planning::first_value(properties@, key@) == planning::first_value(
                properties@.skip(i as int),
                key@,
            ),
        decreases properties@.len() - i,
    {
        if same_text(properties[i].0.as_str(), key) {
            return Some(&properties[i].1);
        }
        assert(properties@.skip(i as int).drop_first() =~= properties@.skip(i + 1));
        i = i + 1;
    }
    None
}

/// The quality of service that a subscriber gets a message with: the lower of the two.
pub fn effective_qos(publish_qos: QoS, sub_qos: QoS) -> (r: QoS)
    ensures
        r == publish_qos.lower(sub_qos),
{
    match (publish_qos, sub_qos) {
        (QoS::AtMostOnce, _) | (_, QoS::AtMostOnce) => QoS::AtMostOnce,
        (QoS::ExactlyOnce, QoS::ExactlyOnce) => QoS::ExactlyOnce,
        _ => QoS::AtLeastOnce,
    }
}

/// The message as one subscriber gets it.
pub fn prepare_message(publish: &PublishPacket, sub: &Subscription, qos: QoS) -> (r: PublishPacket)
    ensures
        planning::is_prepared(r, *publish, *sub, qos),
{
    let mut message = publish.clone();
    message.packet_id = None;
    message.qos = qos;
    message.dup = false;
    message.protocol_version = sub.protocol_version.as_u8();
    if !sub.retain_as_published {
        message.retain = false;
    }
    if let Some(id) = sub.subscription_id {
        let mut ids: Vec<u32> = Vec::new();
        ids.push(id);
        assert(ids@ =~= seq![id]);
        message.properties.subscription_identifiers = Arc::new(ids);
    }
    message
}

impl MessageRouter {
    /// Who is subscribed to what.
    pub closed spec fn table(&self) -> SubscriptionTable {
        self.table
    }

    /// The retained messages by topic.
    pub closed spec fn retained(&self) -> Map<Seq<char>, RetainedMessage> {
        self.retained@
    }

    /// The retained messages in the order in which their topics came.
    pub closed spec fn retained_list(&self) -> Seq<(Seq<char>, RetainedMessage)> {
        self.retained.listing()
    }

    /// The connected clients.
    pub closed spec fn clients(&self) -> Map<Seq<char>, ClientInfo> {
        self.clients@
    }

    /// Whether messages for absent clients are kept.
    pub closed spec fn persistent(&self) -> bool {
        self.persistent
    }

    /// The key of the user property that names the origin of a message.
    pub closed spec fn echo_key(&self) -> Option<Seq<char>> {
        match self.echo_key {
            Some(key) => Some(key@),
            None => None,
        }
    }

    /// How many messages a client is sent in a second at most; 0 means that there is no limit.
    pub closed spec fn max_rate(&self) -> u32 {
        self.max_rate
    }

    /// The queues of the clients.
    pub closed spec fn queues(&self) -> QueueRegistry {
        self.queues
    }

    /// The number of the latest registration.
    pub closed spec fn latest_generation(&self) -> u64 {
        self.generation
    }

    /// The state that planning changes.
    pub closed spec fn plan_state(&self) -> PlanState {
        PlanState {
            rates: self.rates@,
            turns: self.turns@,
            seen: self.change_only@.map_values(|s: ChangeOnlyState| s@),
        }
    }

    /// What planning reads for a message.
    pub open spec fn plan_env(
        &self,
        publish: PublishPacket,
        publisher: Option<Seq<char>>,
        now: u64,
    ) -> PlanEnv {
        PlanEnv {
            online: self.clients().dom(),
            behind: Set::new(
                |c: Seq<char>| self.queues()@.contains_key(c) && self.queues()@[c].queue().lags(),
            ),
            persistent: self.persistent(),
            echo_key: self.echo_key(),
            max_rate: self.max_rate(),
            now,
            publisher,
            publish,
        }
    }

    /// Every part is well formed, every connected client holds a queue, and no connection has a
    /// number that is still to come.
    pub closed spec fn wf(&self) -> bool {
        &&& self.table.wf()
        &&& self.retained.wf()
        &&& self.clients.wf()
        &&& self.turns.wf()
        &&& self.change_only.wf()
        &&& forall|c: Seq<char>| #[trigger]
            self.change_only@.contains_key(c) ==> self.change_only@[c].wf()
        &&& self.rates.wf()
        &&& self.queues.wf()
        &&& forall|c: Seq<char>| #[trigger]
            self.clients@.contains_key(c) ==> self.queues@.contains_key(c)
                && self.queues@[c].holders() > 0 && self.clients@[c].generation <= self.generation
    }

    /// Between two states no number of a connection was given out again: a client has the
    /// connection that it had, or a newer one.
    pub open spec fn generations_go_on(before: MessageRouter, after: MessageRouter) -> bool {
        &&& before.latest_generation() <= after.latest_generation()
        &&& forall|c: Seq<char>| #[trigger]
            after.clients().contains_key(c) ==> has_connection(
                before.clients(),
                c,
                after.clients()[c].generation,
            ) || after.clients()[c].generation > before.latest_generation()
    }

    /// The table of subscriptions is well formed.
    pub proof fn lemma_table(&self)
        requires
            self.wf(),
        ensures
            self.table().wf(),
    {
    }

    /// Everything but the planning state is the same.
    pub open spec fn same_but_plan_state(&self, other: &MessageRouter) -> bool {
        &&& self.table() == other.table()
        &&& self.retained() == other.retained()
        &&& self.retained_list() == other.retained_list()
        &&& self.clients() == other.clients()
        &&& self.persistent() == other.persistent()
        &&& self.echo_key() == other.echo_key()
        &&& self.max_rate() == other.max_rate()
        &&& self.queues() == other.queues()
        &&& self.latest_generation() == other.latest_generation()
    }

    /// The settings and the number of the latest registration are the same.
    pub open spec fn same_settings(&self, other: &MessageRouter) -> bool {
        &&& self.persistent() == other.persistent()
        &&& self.echo_key() == other.echo_key()
        &&& self.max_rate() == other.max_rate()
        &&& self.latest_generation() == other.latest_generation()
    }

    /// Everything but the lanes and the queues is the same.
    pub open spec fn same_but_deliveries(&self, other: &MessageRouter) -> bool {
        &&& self.table() == other.table()
        &&& self.retained() == other.retained()
        &&& self.retained_list() == other.retained_list()
        &&& self.persistent() == other.persistent()
        &&& self.echo_key() == other.echo_key()
        &&& self.max_rate() == other.max_rate()
        &&& self.latest_generation() == other.latest_generation()
        &&& self.plan_state() == other.plan_state()
    }

    /// A router without clients, subscriptions or messages. `persistent` says whether messages
    /// for absent clients are kept.
    pub fn with_queues(persistent: bool, queues: QueueRegistry) -> (r: Self)
        requires
            queues.wf(),
        ensures
            r.wf(),
            forall|f: Seq<char>| #[trigger]
                r.table().row(f) == Seq::<Subscription>::empty(),
            r.table().filters() == 0,
            r.retained() == Map::<Seq<char>, RetainedMessage>::empty(),
            r.clients() == Map::<Seq<char>, ClientInfo>::empty(),
            r.persistent() == persistent,
            r.echo_key() is None,
            r.max_rate() == 0,
            r.queues() == queues,
            r.latest_generation() == 0,
            r.plan_state().rates == Map::<Seq<char>, OutboundRateState>::empty(),
            r.plan_state().turns == Map::<Seq<char>, usize>::empty(),
            r.plan_state().seen == Map::<Seq<char>, Map<Seq<char>, Seq<u8>>>::empty(),
    {
        let r = MessageRouter {
            table: SubscriptionTable::new(),
            retained: TextMap::new(),
            clients: TextMap::new(),
            persistent,
            turns: TextMap::new(),
            change_only: TextMap::new(),
            echo_key: None,
            rates: TextMap::new(),
            max_rate: 0,
            queues,
            generation: 0,
        };
        assert(r.plan_state().seen =~= Map::<Seq<char>, Map<Seq<char>, Seq<u8>>>::empty());
        r
    }

    /// A router that keeps nothing for absent clients; its queues live in memory.
    pub fn new() -> (r: Self)
        ensures
            r.wf(),
            forall|f: Seq<char>| #[trigger]
                r.table().row(f) == Seq::<Subscription>::empty(),
            r.table().filters() == 0,
            r.retained() == Map::<Seq<char>, RetainedMessage>::empty(),
            r.clients() == Map::<Seq<char>, ClientInfo>::empty(),
            !r.persistent(),
            r.echo_key() is None,
            r.max_rate() == 0,
            r.queues()@ == Map::<Seq<char>, client_queue::Registered>::empty(),
            r.queues().counter() == client_queue::SEQ_FLOOR,
            r.queues().bounds().max_messages == 10_000,
            r.queues().bounds().max_bytes == 64 * 1024 * 1024,
            !r.queues().persists(),
            r.queues().left_work() == Seq::<QueueOp>::empty(),
            r.latest_generation() == 0,
            r.plan_state().rates == Map::<Seq<char>, OutboundRateState>::empty(),
            r.plan_state().turns == Map::<Seq<char>, usize>::empty(),
            r.plan_state().seen == Map::<Seq<char>, Map<Seq<char>, Seq<u8>>>::empty(),
    {
        MessageRouter::with_queues(false, QueueRegistry::new(QueueLimits::default(), false))
    }

    /// A router that queues messages for absent clients in these queues.
    pub fn with_storage(queues: QueueRegistry) -> (r: Self)
        requires
            queues.wf(),
        ensures
            r.wf(),
            forall|f: Seq<char>| #[trigger]
                r.table().row(f) == Seq::<Subscription>::empty(),
            r.table().filters() == 0,
            r.retained() == Map::<Seq<char>, RetainedMessage>::empty(),
            r.clients() == Map::<Seq<char>, ClientInfo>::empty(),
            r.persistent(),
            r.echo_key() is None,
            r.max_rate() == 0,
            r.queues() == queues,
            r.latest_generation() == 0,
            r.plan_state().rates == Map::<Seq<char>, OutboundRateState>::empty(),
            r.plan_state().turns == Map::<Seq<char>, usize>::empty(),
            r.plan_state().seen == Map::<Seq<char>, Map<Seq<char>, Seq<u8>>>::empty(),
    {
        MessageRouter::with_queues(true, queues)
    }

    /// Everything but the settings is the same.
    pub open spec fn same_but_settings(&self, other: &MessageRouter) -> bool {
        &&& self.table() == other.table()
        &&& self.retained() == other.retained()
        &&& self.retained_list() == other.retained_list()
        &&& self.clients() == other.clients()
        &&& self.persistent() == other.persistent()
        &&& self.queues() == other.queues()
        &&& self.latest_generation() == other.latest_generation()
        &&& self.plan_state() == other.plan_state()
    }

    /// Suppresses echoes: a message whose user property with this key names a subscriber is not
    /// sent to it.
    pub fn with_echo_suppression_key(self, key: String) -> (r: Self)
        requires
            self.wf(),
        ensures
            r.wf(),
            r.same_but_settings(&self),
            r.max_rate() == self.max_rate(),
            r.echo_key() == Some(key@),
    {
        let mut router = self;
        router.echo_key = Some(key);
        router
    }

    /// Replaces the key of the echo suppression.
    pub fn update_echo_suppression_key(&mut self, key: Option<String>)
        requires
            old(self).wf(),
        ensures
            final(self).wf(),
            final(self).same_but_settings(old(self)),
            final(self).max_rate() == old(self).max_rate(),
            final(self).echo_key() == (match key {
                Some(k) => Some(k@),
                None => None,
            }),
    {
        self.echo_key = key;
    }

    /// Limits how many messages a client is sent in a second.
    pub fn with_max_outbound_rate(self, rate: u32) -> (r: Self)
        requires
            self.wf(),
        ensures
            r.wf(),
            r.same_but_settings(&self),
            r.max_rate() == rate,
            r.echo_key() == self.echo_key(),
    {
        let mut router = self;
        router.max_rate = rate;
        router
    }

    /// Replaces the limit on how many messages a client is sent in a second.
    pub fn update_max_outbound_rate(&mut self, rate: u32)
        requires
            old(self).wf(),
        ensures
            final(self).wf(),
            final(self).same_but_settings(old(self)),
            final(self).max_rate() == rate,
            final(self).echo_key() == old(self).echo_key(),
    {
        self.max_rate = rate;
    }

    /// Registers a connection that resumes (or starts) a session without a clean start.
    pub fn register_client(
        &mut self,
        client_id: String,
        lanes: DeliveryLanes,
        now: u64,
    ) -> (r: Registration)
        requires
            old(self).wf(),
            old(self).latest_generation() < u64::MAX,
        ensures
            final(self).wf(),
            final(self).registered(old(self), client_id, lanes, false, now, r),
    {
        self.register_session(client_id, lanes, false, now)
    }

    /// What registering a connection does.
    pub open spec fn registered(
        &self,
        before: &MessageRouter,
        client_id: String,
        lanes: DeliveryLanes,
        clean_start: bool,
        now: u64,
        r: Registration,
    ) -> bool {
        let id = client_id@;
        let displaced = before.clients().contains_key(id);
        let listening = displaced && before.clients()[id].listening;
        let st = before.plan_state();
        &&& r.generation == before.latest_generation() + 1
        &&& r.cutoff == (if listening {
            Some(before.queues().counter())
        } else {
            None
        })
        &&& match r.notice {
            Some(notice) => listening && notice == TakeoverNotice {
                client_id,
                generation: before.clients()[id].generation,
                discard: clean_start,
            },
            None => !listening,
        }
        &&& self.latest_generation() == r.generation
        &&& self.clients() == before.clients().insert(
            id,
            ClientInfo { generation: r.generation, lanes, listening: true },
        )
        &&& forall|f: Seq<char>| #[trigger]
            self.table().row(f) == (if clean_start {
                subscriptions::without_client(before.table().row(f), id)
            } else {
                before.table().row(f)
            })
        &&& if clean_start {
            self.table().owned(id) == 0
        } else {
            self.table() == before.table()
        }
        &&& self.plan_state().rates == st.rates.insert(
            id,
            OutboundRateState { count: 0, window_start: now },
        )
        &&& self.plan_state().turns == st.turns
        &&& self.plan_state().seen == (if clean_start {
            st.seen.remove(id)
        } else {
            st.seen
        })
        &&& queue_taken_over(before.queues(), self.queues(), id, displaced, listening)
        &&& self.retained() == before.retained()
        &&& self.retained_list() == before.retained_list()
        &&& self.persistent() == before.persistent()
        &&& self.echo_key() == before.echo_key()
        &&& self.max_rate() == before.max_rate()
    }

    /// Registers a connection, displacing any live handler for the same client id.
    ///
    /// While a displaced handler is still handing its deliveries back, the queue's hand-off
    /// count keeps routers queueing behind it. `cutoff` is the first queue sequence number a clean
    /// start must keep. A clean start also drops every subscription the client id still holds.
    pub fn register_session(
        &mut self,
        client_id: String,
        lanes: DeliveryLanes,
        clean_start: bool,
        now: u64,
    ) -> (r: Registration)
        requires
            old(self).wf(),
            old(self).latest_generation() < u64::MAX,
        ensures
            final(self).wf(),
            final(self).registered(old(self), client_id, lanes, clean_start, now, r),
    {
        let ghost origin = *self;
        let ghost id = client_id@;
        if clean_start {
            self.table.strip_client(client_id.as_str());
        }
        self.generation = self.generation + 1;
        let generation: u64 = self.generation;
        let cutoff: u64 = self.queues.next_seq();
        let hold = self.queues.handle(client_id.as_str());
        let ghost held = self.queues;
        let mut notice: Option<TakeoverNotice> = None;
        if let Some(displaced) = self.clients.remove(client_id.as_str()) {
            if let Some(queue) = self.queues.queue_mut(client_id.as_str()) {
                queue.begin_handoff();
                if !displaced.listening {
                    queue.end_handoff();
                }
            }
            if displaced.listening {
                notice = Some(
                    TakeoverNotice {
                        client_id: client_id.clone(),
                        generation: displaced.generation,
                        discard: clean_start,
                    },
                );
            }
            let ghost shared = self.queues;
            self.queues.release(hold);
            proof {
                assert(self.queues@ =~= origin.queues@.insert(id, self.queues@[id]));
            }
        }
        let cutoff = if notice.is_some() {
            Some(cutoff)
        } else {
            None
        };
        let _ = self.clients.insert(
            client_id.clone(),
            ClientInfo { generation, lanes, listening: true },
        );
        proof {
            assert(self.clients@ =~= origin.clients@.insert(
                id,
                ClientInfo { generation, lanes, listening: true },
            ));
        }
        if clean_start {
            let _ = self.change_only.remove(client_id.as_str());
            assert(self.plan_state().seen =~= origin.plan_state().seen.remove(id));
        }
        let _ = self.rates.insert(client_id.clone(), OutboundRateState::new(now));
        Registration { generation, notice, cutoff }
    }

    /// A hold on the client's queue, which is created on first touch.
    pub fn queue_handle(&mut self, client_id: &str) -> (r: QueueHandle)
        requires
            old(self).wf(),
        ensures
            final(self).wf(),
            final(self).same_but_deliveries(old(self)),
            final(self).clients() == old(self).clients(),
            r.client_id@ == client_id@,
            queue_taken_over(old(self).queues(), final(self).queues(), client_id@, false, false),
    {
        self.queues.handle(client_id)
    }

    /// The client's queue, if there is one.
    pub fn queue(&self, client_id: &str) -> (r: Option<&ClientQueue>)
        requires
            self.wf(),
        ensures
            match r {
                Some(q) => self.queues()@.contains_key(client_id@) && *q
                    == self.queues()@[client_id@].queue() && q.wf(),
                None => !self.queues()@.contains_key(client_id@),
            },
    {
        self.queues.queue(client_id)
    }

    /// The client's queue for changes that keep it a queue of this client.
    pub fn queue_mut(&mut self, client_id: &str) -> (r: Option<&mut ClientQueue>)
        requires
            old(self).wf(),
        ensures
            match r {
                Some(q) => {
                    &&& old(self).queues()@.contains_key(client_id@)
                    &&& *q == old(self).queues()@[client_id@].queue()
                    &&& q.wf()
                    &&& old(self).queues().fits(client_id@, *q)
                    &&& final(self).same_but_deliveries(old(self))
                    &&& final(self).clients() == old(self).clients()
                    &&& final(self).queues().same_settings(&old(self).queues())
                    &&& final(self).queues()@ == old(self).queues()@.insert(
                        client_id@,
                        final(self).queues()@[client_id@],
                    )
                    &&& final(self).queues()@[client_id@].queue() == *final(q)
                    &&& final(self).queues()@[client_id@].holders()
                        == old(self).queues()@[client_id@].holders()
                    &&& old(self).queues().fits(client_id@, *final(q)) ==> final(self).wf()
                },
                None => !old(self).queues()@.contains_key(client_id@) && *final(self)
                    == *old(self),
            },
    {
        self.queues.queue_mut(client_id)
    }

    /// Puts messages that were not delivered back at the front of a client's queue.
    pub fn requeue_front(&mut self, client_id: &str, messages: Vec<QueuedMessage>)
        requires
            old(self).wf(),
        ensures
            final(self).wf(),
            final(self).same_but_deliveries(old(self)),
            final(self).clients() == old(self).clients(),
            final(self).queues().same_settings(&old(self).queues()),
            final(self).queues()@ == old(self).queues()@.insert(
                client_id@,
                final(self).queues()@[client_id@],
            ),
            final(self).queues()@[client_id@].queue().holds_requeued(
                old(self).queues().entries_of(client_id@),
                old(self).queues().work_of(client_id@),
                old(self).queues().counter(),
                messages@,
            ),
            final(self).queues().control_of(client_id@) == old(self).queues().control_of(
                client_id@,
            ),
            final(self).queues().fits(client_id@, final(self).queues()@[client_id@].queue()),
            old(self).queues()@.contains_key(client_id@)
                ==> final(self).queues()@[client_id@].queue().id()
                == old(self).queues()@[client_id@].queue().id(),
    {
        self.queues.requeue_front(client_id, messages);
    }

    /// Takes a client's entry out and gives up its hold on the queue.
    fn drop_client(&mut self, client_id: &str)
        requires
            old(self).wf(),
        ensures
            final(self).wf(),
            final(self).clients() == old(self).clients().remove(client_id@),
            final(self).table() == old(self).table(),
            final(self).plan_state() == old(self).plan_state(),
            final(self).retained() == old(self).retained(),
            final(self).retained_list() == old(self).retained_list(),
            final(self).same_settings(old(self)),
            queue_let_go(
                old(self).queues(),
                final(self).queues(),
                client_id@,
                old(self).clients().contains_key(client_id@),
            ),
    {
        let ghost origin = *self;
        if self.clients.remove(client_id).is_some() {
            self.queues.release(QueueHandle { client_id: client_id.to_owned() });
        }
        proof {
            assert(self.clients@ =~= origin.clients@.remove(client_id@));
        }
    }

    /// What the end of a client's connection does: its entry, its hold on the queue and its rate
    /// window are gone; its subscriptions stay where the session is preserved.
    pub open spec fn parted(
        &self,
        before: &MessageRouter,
        client_id: Seq<char>,
        preserve_session: bool,
    ) -> bool {
        &&& self.clients() == before.clients().remove(client_id)
        &&& forall|f: Seq<char>| #[trigger]
            self.table().row(f) == (if preserve_session {
                before.table().row(f)
            } else {
                subscriptions::without_client(before.table().row(f), client_id)
            })
        &&& if preserve_session {
            self.table() == before.table()
        } else {
            self.table().owned(client_id) == 0
        }
        &&& self.plan_state().rates == before.plan_state().rates.remove(client_id)
        &&& self.plan_state().turns == before.plan_state().turns
        &&& self.plan_state().seen == before.plan_state().seen
        &&& self.retained() == before.retained()
        &&& self.retained_list() == before.retained_list()
        &&& self.same_settings(before)
        &&& queue_let_go(
            before.queues(),
            self.queues(),
            client_id,
            before.clients().contains_key(client_id),
        )
    }

    /// Removes the handler's router entry if it still owns it; a displaced handler's entry
    /// already belongs to its successor and is left alone.
    pub fn release_client(
        &mut self,
        client_id: &str,
        generation: u64,
        preserve_session: bool,
    ) -> (r: Release)
        requires
            old(self).wf(),
        ensures
            final(self).wf(),
            r == (if old(self).clients().contains_key(client_id@)
                && old(self).clients()[client_id@].generation != generation {
                Release::Displaced
            } else {
                Release::Owned
            }),
            match r {
                Release::Displaced => *final(self) == *old(self),
                Release::Owned => final(self).parted(old(self), client_id@, preserve_session),
            },
    {
        if let Some(info) = self.clients.get(client_id) {
            if info.generation != generation {
                return Release::Displaced;
            }
        }
        self.part(client_id, preserve_session);
        Release::Owned
    }

    fn part(&mut self, client_id: &str, preserve_session: bool)
        requires
            old(self).wf(),
        ensures
            final(self).wf(),
            final(self).parted(old(self), client_id@, preserve_session),
    {
        let ghost origin = *self;
        self.drop_client(client_id);
        let _ = self.rates.remove(client_id);
        if !preserve_session {
            self.table.strip_client(client_id);
        }
    }

    /// Whether a connection can be registered: the numbers of connections are not used up.
    pub fn takes_connections(&self) -> (r: bool)
        ensures
            r == (self.latest_generation() < u64::MAX),
    {
        self.generation < u64::MAX
    }

    /// Whether a client is connected.
    pub fn is_connected(&self, client_id: &str) -> (r: bool)
        requires
            self.wf(),
        ensures
            r == self.clients().contains_key(client_id@),
    {
        self.clients.contains_key(client_id)
    }

    /// Ends a client's connection and keeps its subscriptions.
    pub fn disconnect_client(&mut self, client_id: &str)
        requires
            old(self).wf(),
        ensures
            final(self).wf(),
            final(self).parted(old(self), client_id@, true),
    {
        self.part(client_id, true);
    }

    /// Ends a client's connection and drops its subscriptions.
    pub fn unregister_client(&mut self, client_id: &str)
        requires
            old(self).wf(),
        ensures
            final(self).wf(),
            final(self).parted(old(self), client_id@, false),
    {
        self.part(client_id, false);
    }

    /// The handler with this registration no longer listens for a takeover.
    pub fn stop_listening(&mut self, client_id: &str, generation: u64)
        requires
            old(self).wf(),
        ensures
            final(self).wf(),
            final(self).same_but_deliveries(old(self)),
            final(self).queues() == old(self).queues(),
            ({
                let clients = old(self).clients();
                if clients.contains_key(client_id@) && clients[client_id@].generation == generation {
                    final(self).clients() == clients.insert(
                        client_id@,
                        ClientInfo { listening: false, ..clients[client_id@] },
                    )
                } else {
                    final(self).clients() == clients
                }
            }),
    {
        let ghost origin = *self;
        if let Some(info) = self.clients.get_mut(client_id) {
            if info.generation == generation {
                info.listening = false;
            }
        }
        proof {
            if origin.clients@.contains_key(client_id@) && origin.clients@[client_id@].generation
                != generation {
                assert(self.clients@ =~= origin.clients@);
            }
        }
    }

    /// A displaced handler has handed its deliveries back, or is gone.
    pub fn finish_takeover(&mut self, notice: TakeoverNotice)
        requires
            old(self).wf(),
        ensures
            final(self).wf(),
            final(self).same_but_deliveries(old(self)),
            final(self).clients() == old(self).clients(),
            ({
                let id = notice.client_id@;
                let before = old(self).queues();
                let after = final(self).queues();
                if before@.contains_key(id) {
                    let open = before@[id].queue().open_handoffs();
                    &&& after.same_settings(&before)
                    &&& after@ == before@.insert(id, after@[id])
                    &&& after@[id].holders() == before@[id].holders()
                    &&& after@[id].queue().same_contents(&before@[id].queue())
                    &&& after@[id].queue().unfinished_batch()
                        == before@[id].queue().unfinished_batch()
                    &&& after@[id].queue().wake_stored() == before@[id].queue().wake_stored()
                    &&& after@[id].queue().open_handoffs() == (if open > 0 {
                        open - 1
                    } else {
                        0
                    })
                    &&& after@[id].queue().quiesced_stored() == (
                    before@[id].queue().quiesced_stored() || open == 1)
                } else {
                    after == before
                }
            }),
    {
        let ghost origin = *self;
        if let Some(queue) = self.queues.queue_mut(notice.client_id.as_str()) {
            queue.end_handoff();
        }
    }

    /// Whether the messages to a client are counted against the rate.
    pub fn has_outbound_rate(&self, client_id: &str) -> (r: bool)
        requires
            self.wf(),
        ensures
            r == self.plan_state().rates.contains_key(client_id@),
    {
        self.rates.contains_key(client_id)
    }

    /// Takes the next message from a client's lanes, the gated lane first.
    pub fn next_delivery(&mut self, client_id: &str) -> (r: Option<RoutableMessage>)
        requires
            old(self).wf(),
        ensures
            final(self).wf(),
            final(self).same_but_deliveries(old(self)),
            final(self).queues() == old(self).queues(),
            final(self).clients().dom() == old(self).clients().dom(),
            forall|c: Seq<char>|
                c != client_id@ ==> #[trigger] final(self).clients()[c] == old(self).clients()[c],
            !old(self).clients().contains_key(client_id@) ==> r is None,
            old(self).clients().contains_key(client_id@) ==> {
                let info = old(self).clients()[client_id@];
                let before = info.lanes;
                let after = final(self).clients()[client_id@].lanes;
                &&& final(self).clients()[client_id@] == (ClientInfo { lanes: after, ..info })
                &&& after.qos1.room() == before.qos1.room()
                &&& after.qos0.room() == before.qos0.room()
                &&& after.qos1.shut() == before.qos1.shut()
                &&& after.qos0.shut() == before.qos0.shut()
                &&& if before.qos1.messages().len() > 0 {
                    &&& r == Some(before.qos1.messages()[0])
                    &&& after.qos1.messages() == before.qos1.messages().drop_first()
                    &&& after.qos0.messages() == before.qos0.messages()
                } else if before.qos0.messages().len() > 0 {
                    &&& r == Some(before.qos0.messages()[0])
                    &&& after.qos1.messages() == before.qos1.messages()
                    &&& after.qos0.messages() == before.qos0.messages().drop_first()
                } else {
                    &&& r is None
                    &&& after.qos1.messages() == before.qos1.messages()
                    &&& after.qos0.messages() == before.qos0.messages()
                }
            },
    {
        let ghost origin = *self;
        let r = match self.clients.get_mut(client_id) {
            Some(info) => info.lanes.try_recv(),
            None => None,
        };
        proof {
            assert(self.clients@.dom() =~= origin.clients@.dom());
        }
        r
    }

    /// Whether a handler's registration is the current one of its client.
    pub fn generation_is_current(&self, generation: Option<u64>, client_id: &str) -> (r: bool)
        requires
            self.wf(),
        ensures
            r == is_current(self.clients(), generation, client_id@),
    {
        match generation {
            None => true,
            Some(generation) => match self.clients.get(client_id) {
                Some(info) => info.generation == generation,
                None => false,
            },
        }
    }

    /// Everything but the subscriptions and the turns of share groups is the same.
    pub open spec fn same_but_subscriptions(&self, other: &MessageRouter) -> bool {
        &&& self.retained() == other.retained()
        &&& self.retained_list() == other.retained_list()
        &&& self.clients() == other.clients()
        &&& self.queues() == other.queues()
        &&& self.same_settings(other)
        &&& self.plan_state().rates == other.plan_state().rates
        &&& self.plan_state().seen == other.plan_state().seen
    }

    /// What adding a subscription does: a displaced handler changes nothing; otherwise the
    /// subscription replaces the one of the same client and flow or is added, and a share group
    /// that is new gets its turn counter.
    pub open spec fn subscribed_as(
        &self,
        before: &MessageRouter,
        generation: Option<u64>,
        topic_filter: Seq<char>,
        sub: Subscription,
        r: Subscribed,
    ) -> bool {
        let id = sub.client_id@;
        let actual = crate::topic::unshared(topic_filter);
        let row = before.table().row(actual);
        let turns = before.plan_state().turns;
        if !is_current(before.clients(), generation, id) {
            r == Subscribed::Fenced && *self == *before
        } else {
            &&& r == (if subscriptions::slot(row, id, sub.flow_id) == row.len() {
                Subscribed::New
            } else {
                Subscribed::Updated
            })
            &&& forall|f: Seq<char>| #[trigger]
                self.table().row(f) == (if f == actual {
                    subscriptions::put(before.table().row(f), sub)
                } else {
                    before.table().row(f)
                })
            &&& self.plan_state().turns == (match crate::topic::share_group(topic_filter) {
                Some(group) => if turns.contains_key(group) {
                    turns
                } else {
                    turns.insert(group, 0)
                },
                None => turns,
            })
            &&& self.same_but_subscriptions(before)
        }
    }

    /// Whether a subscription is the one that these arguments describe.
    pub open spec fn describes(
        sub: Subscription,
        client_id: String,
        topic_filter: Seq<char>,
        options: SubscribeOptions,
    ) -> bool {
        &&& sub.client_id == client_id
        &&& sub.qos == options.qos
        &&& sub.subscription_id == options.subscription_id
        &&& match sub.share_group {
            Some(group) => crate::topic::share_group(topic_filter) == Some(group@),
            None => crate::topic::share_group(topic_filter) is None,
        }
        &&& sub.no_local == options.no_local
        &&& sub.retain_as_published == options.retain_as_published
        &&& sub.retain_handling == options.retain_handling
        &&& sub.protocol_version == options.protocol_version
        &&& sub.change_only == options.change_only
        &&& sub.flow_id == options.flow_id
    }

    /// Adds a subscription on behalf of the handler holding `generation`; a handler whose
    /// registration has been displaced gets `Fenced` and changes nothing. A retain handling above
    /// 2 is refused.
    pub fn subscribe_as(
        &mut self,
        generation: Option<u64>,
        client_id: String,
        topic_filter: String,
        options: SubscribeOptions,
    ) -> (r: Result<Subscribed>)
        requires
            old(self).wf(),
        ensures
            final(self).wf(),
            match r {
                Ok(outcome) => options.retain_handling <= 2 && exists|sub: Subscription|
                    MessageRouter::describes(sub, client_id, topic_filter@, options)
                        && #[trigger] final(self).subscribed_as(
                        old(self),
                        generation,
                        topic_filter@,
                        sub,
                        outcome,
                    ),
                Err(e) => {
                    &&& options.retain_handling > 2
                    &&& *final(self) == *old(self)
                    &&& e matches MqttError::ProtocolError(message)
                    &&& message@ == retain_handling_message(options.retain_handling)
                },
            },
    {
        if options.retain_handling > 2 {
            let number = decimal_text(options.retain_handling as u64);
            return Err(
                MqttError::ProtocolError(
                    joined(
                        "Invalid retain_handling value: ",
                        number.as_str(),
                        " (must be 0, 1, or 2)",
                    ),
                ),
            );
        }
        let ghost origin = *self;
        let (actual_filter, group) = parse_shared_subscription(topic_filter.as_str());
        let sub = Subscription {
            client_id: client_id.clone(),
            qos: options.qos,
            subscription_id: options.subscription_id,
            share_group: copy_text(&group),
            no_local: options.no_local,
            retain_as_published: options.retain_as_published,
            retain_handling: options.retain_handling,
            protocol_version: options.protocol_version,
            change_only: options.change_only,
            flow_id: options.flow_id,
        };
        let ghost added = sub;
        if !self.generation_is_current(generation, client_id.as_str()) {
            assert(self.subscribed_as(
                &origin,
                generation,
                topic_filter@,
                added,
                Subscribed::Fenced,
            ));
            return Ok(Subscribed::Fenced);
        }
        let new = self.table.add(actual_filter.as_str(), sub);
        let outcome = if new {
            Subscribed::New
        } else {
            Subscribed::Updated
        };
        if let Some(group) = group {
            if !self.turns.contains_key(group.as_str()) {
                let _ = self.turns.insert(group, 0);
            }
        }
        assert(self.subscribed_as(&origin, generation, topic_filter@, added, outcome));
        Ok(outcome)
    }

    /// Adds a subscription for a client. Returns whether it is new.
    pub fn subscribe(
        &mut self,
        client_id: String,
        topic_filter: String,
        options: SubscribeOptions,
    ) -> (r: Result<bool>)
        requires
            old(self).wf(),
        ensures
            final(self).wf(),
            match r {
                Ok(new) => options.retain_handling <= 2 && exists|sub: Subscription, outcome: Subscribed|
                    MessageRouter::describes(sub, client_id, topic_filter@, options)
                        && #[trigger] final(self).subscribed_as(
                        old(self),
                        None,
                        topic_filter@,
                        sub,
                        outcome,
                    ) && new == (outcome == Subscribed::New),
                Err(e) => {
                    &&& options.retain_handling > 2
                    &&& *final(self) == *old(self)
                    &&& e matches MqttError::ProtocolError(message)
                    &&& message@ == retain_handling_message(options.retain_handling)
                },
            },
    {
        match self.subscribe_as(None, client_id, topic_filter, options) {
            Ok(outcome) => Ok(outcome == Subscribed::New),
            Err(e) => Err(e),
        }
    }

    /// Removes a subscription on behalf of the handler holding `generation`; a displaced
    /// handler gets `Fenced` and changes nothing.
    pub fn unsubscribe_as(
        &mut self,
        generation: Option<u64>,
        client_id: &str,
        topic_filter: &str,
        flow_id: Option<u64>,
    ) -> (r: Unsubscribed)
        requires
            old(self).wf(),
        ensures
            final(self).wf(),
            final(self).unsubscribed_as(
                old(self),
                generation,
                client_id@,
                topic_filter@,
                flow_id,
                r,
            ),
    {
        let (actual_filter, _) = parse_shared_subscription(topic_filter);
        if !self.generation_is_current(generation, client_id) {
            return Unsubscribed::Fenced;
        }
        if self.table.remove(actual_filter.as_str(), client_id, flow_id) {
            Unsubscribed::Removed
        } else {
            Unsubscribed::Absent
        }
    }

    /// What removing a subscription does.
    pub open spec fn unsubscribed_as(
        &self,
        before: &MessageRouter,
        generation: Option<u64>,
        client_id: Seq<char>,
        topic_filter: Seq<char>,
        flow_id: Option<u64>,
        r: Unsubscribed,
    ) -> bool {
        let actual = crate::topic::unshared(topic_filter);
        let rest = subscriptions::without_slot(before.table().row(actual), client_id, flow_id);
        if !is_current(before.clients(), generation, client_id) {
            r == Unsubscribed::Fenced && *self == *before
        } else {
            &&& r == (if rest.len() < before.table().row(actual).len() {
                Unsubscribed::Removed
            } else {
                Unsubscribed::Absent
            })
            &&& forall|f: Seq<char>| #[trigger]
                self.table().row(f) == (if f == actual {
                    rest
                } else {
                    before.table().row(f)
                })
            &&& self.plan_state().turns == before.plan_state().turns
            &&& self.same_but_subscriptions(before)
        }
    }

    /// Removes a client's subscription. Returns whether there was one.
    pub fn unsubscribe(
        &mut self,
        client_id: &str,
        topic_filter: &str,
        flow_id: Option<u64>,
    ) -> (r: bool)
        requires
            old(self).wf(),
        ensures
            final(self).wf(),
            final(self).unsubscribed_as(
                old(self),
                None,
                client_id@,
                topic_filter@,
                flow_id,
                if r {
                    Unsubscribed::Removed
                } else {
                    Unsubscribed::Absent
                },
            ),
    {
        self.unsubscribe_as(None, client_id, topic_filter, flow_id) == Unsubscribed::Removed
    }

    /// Removes every subscription the handler holding `generation` bound to `flow_id`;
    /// a displaced handler removes nothing. Returns the filters that lost a subscription.
    pub fn unsubscribe_by_flow(
        &mut self,
        generation: Option<u64>,
        client_id: &str,
        flow_id: u64,
    ) -> (r: Vec<String>)
        requires
            old(self).wf(),
        ensures
            final(self).wf(),
            !is_current(old(self).clients(), generation, client_id@) ==> r@.len() == 0
                && *final(self) == *old(self),
            is_current(old(self).clients(), generation, client_id@) ==> {
                &&& forall|f: Seq<char>| #[trigger]
                    final(self).table().row(f) == subscriptions::without_slot(
                        old(self).table().row(f),
                        client_id@,
                        Some(flow_id),
                    )
                &&& forall|f: Seq<char>| #[trigger]
                    subscriptions::texts(r@).contains(f) <==> final(self).table().row(f).len()
                        < old(self).table().row(f).len()
                &&& subscriptions::texts(r@).no_duplicates()
                &&& final(self).plan_state().turns == old(self).plan_state().turns
                &&& final(self).same_but_subscriptions(old(self))
            },
    {
        if !self.generation_is_current(generation, client_id) {
            return Vec::new();
        }
        self.table.strip_flow(client_id, flow_id)
    }

    /// The number of connected clients.
    pub fn client_count(&self) -> (r: usize)
        requires
            self.wf(),
        ensures
            r == self.clients().dom().len(),
    {
        self.clients.len()
    }

    /// The number of filters that are subscribed to.
    pub fn topic_count(&self) -> (r: usize)
        requires
            self.wf(),
        ensures
            r == (if self.table().filters() <= usize::MAX {
                self.table().filters() as int
            } else {
                usize::MAX as int
            }),
    {
        self.table.filter_count()
    }

    /// The number of retained messages.
    pub fn retained_count(&self) -> (r: usize)
        requires
            self.wf(),
        ensures
            r == self.retained().dom().len(),
    {
        self.retained.len()
    }

    /// The number of a client's subscriptions.
    pub fn subscription_count_for_client(&self, client_id: &str) -> (r: usize)
        requires
            self.wf(),
        ensures
            r == (if self.table().owned(client_id@) <= usize::MAX {
                self.table().owned(client_id@) as int
            } else {
                usize::MAX as int
            }),
    {
        self.table.count_for(client_id)
    }

    /// Whether a client is subscribed to a filter, on whatever flow.
    pub fn has_subscription(&self, client_id: &str, topic_filter: &str) -> (r: bool)
        requires
            self.wf(),
        ensures
            r == subscriptions::subscribes(
                self.table().row(crate::topic::unshared(topic_filter@)),
                client_id@,
            ),
    {
        let (actual_filter, _) = parse_shared_subscription(topic_filter);
        self.table.has(actual_filter.as_str(), client_id)
    }

    /// Whether a topic has a retained message.
    pub fn has_retained_message(&self, topic: &str) -> (r: bool)
        requires
            self.wf(),
        ensures
            r == self.retained().contains_key(topic@),
    {
        self.retained.contains_key(topic)
    }

    /// The list of retained messages holds each topic once, with its message.
    pub proof fn lemma_retained_list(&self)
        requires
            self.wf(),
        ensures
            crate::text_map::distinct_keys(self.retained_list()),
            self.retained() == crate::text_map::as_map(self.retained_list()),
    {
    }

    /// The retained messages that a new subscriber to a filter gets, in the order in which their
    /// topics came.
    pub fn get_retained_messages(&self, topic_filter: &str, now: u64) -> (r: Vec<PublishPacket>)
        requires
            self.wf(),
        ensures
            r@ == publications(self.retained_list(), topic_filter@, now),
            forall|topic: Seq<char>| #[trigger]
                memory_backend::retained_for(self.retained(), topic_filter@, now, topic)
                    ==> r@.contains(self.retained()[topic].publication()),
    {
        proof {
            assert forall|topic: Seq<char>| #[trigger]
                memory_backend::retained_for(
                    self.retained(),
                    topic_filter@,
                    now,
                    topic,
                ) implies publications(self.retained_list(), topic_filter@, now).contains(
                self.retained()[topic].publication(),
            ) by {
                law_retained_message_is_read_back(*self, topic_filter@, now, topic);
                let found = memory_backend::matching_retained(
                    self.retained_list(),
                    topic_filter@,
                    now,
                );
                let i = choose|i: int|
                    0 <= i < found.len() && found[i] == (topic, self.retained()[topic]);
                assert(publications(self.retained_list(), topic_filter@, now)[i]
                    == found[i].1.publication());
            }
        }
        let ghost list = self.retained.listing();
        let n: usize = self.retained.len();
        let mut out: Vec<PublishPacket> = Vec::new();
        let mut i: usize = 0;
        assert(list.take(0) =~= Seq::<(Seq<char>, RetainedMessage)>::empty());
        while i < n
            invariant
                i <= n,
                n == list.len(),
                list == self.retained.listing(),
                out@ == publications(list.take(i as int), topic_filter@, now),
            decreases n - i,
        {
            assert(list.take(i + 1).drop_last() =~= list.take(i as int));
            assert(list.take(i + 1).last() == list[i as int]);
            let message = self.retained.value_at(i);
            if topic_matches_filter(self.retained.key_at(i).as_str(), topic_filter)
                && !message.is_expired(now) {
                out.push(message.to_publish_packet());
            }
            i = i + 1;
        }
        assert(list.take(list.len() as int) =~= list);
        out
    }

    /// Takes over retained messages that were stored; each replaces the one of its topic.
    pub fn initialize(&mut self, stored: Vec<(String, RetainedMessage)>)
        requires
            old(self).wf(),
        ensures
            final(self).wf(),
            final(self).retained() == loaded(old(self).retained(), stored@),
            final(self).table() == old(self).table(),
            final(self).clients() == old(self).clients(),
            final(self).queues() == old(self).queues(),
            final(self).plan_state() == old(self).plan_state(),
            final(self).same_settings(old(self)),
    {
        let ghost origin = *self;
        let ghost all = stored@;
        let ghost mut n: int = 0;
        assert(all.take(0) =~= Seq::<(String, RetainedMessage)>::empty());
        for entry in it: stored
            invariant
                it.seq() == all,
                self.wf(),
                self.retained() == loaded(origin.retained(), all.take(it.index() as int)),
                self.table() == origin.table(),
                self.clients() == origin.clients(),
                self.queues() == origin.queues(),
                self.plan_state() == origin.plan_state(),
                self.same_settings(&origin),
        {
            assert(all.take(it.index() + 1).drop_last() =~= all.take(it.index() as int));
            assert(all.take(it.index() + 1).last() == entry);
            let (topic, message) = entry;
            let _ = self.retained.insert(topic, message);
        }
        assert(all.take(all.len() as int) =~= all);
    }

    /// Takes over a stored change-only state of a client.
    pub fn load_change_only_state(&mut self, client_id: &str, state: ChangeOnlyState)
        requires
            old(self).wf(),
            state.wf(),
        ensures
            final(self).wf(),
            final(self).same_but_plan_state(old(self)),
            final(self).plan_state().rates == old(self).plan_state().rates,
            final(self).plan_state().turns == old(self).plan_state().turns,
            final(self).plan_state().seen == old(self).plan_state().seen.insert(
                client_id@,
                state@,
            ),
    {
        let ghost seen = self.plan_state().seen;
        let _ = self.change_only.insert(client_id.to_owned(), state);
        assert(self.plan_state().seen =~= seen.insert(client_id@, state@));
    }

    /// The change-only state of a client.
    pub fn get_change_only_state(&self, client_id: &str) -> (r: Option<&ChangeOnlyState>)
        requires
            self.wf(),
        ensures
            match r {
                Some(state) => self.plan_state().seen.contains_key(client_id@) && state@
                    == self.plan_state().seen[client_id@],
                None => !self.plan_state().seen.contains_key(client_id@),
            },
    {
        self.change_only.get(client_id)
    }

    /// Forgets the change-only state of a client.
    pub fn remove_change_only_state(&mut self, client_id: &str)
        requires
            old(self).wf(),
        ensures
            final(self).wf(),
            final(self).same_but_plan_state(old(self)),
            final(self).plan_state().rates == old(self).plan_state().rates,
            final(self).plan_state().turns == old(self).plan_state().turns,
            final(self).plan_state().seen == old(self).plan_state().seen.remove(client_id@),
    {
        let ghost seen = self.plan_state().seen;
        let _ = self.change_only.remove(client_id);
        assert(self.plan_state().seen =~= seen.remove(client_id@));
    }

    /// Clears a client's queue, which is created on first touch.
    fn clear_queue(&mut self, client_id: &str)
        requires
            old(self).wf(),
        ensures
            final(self).wf(),
            final(self).same_but_deliveries(old(self)),
            final(self).clients() == old(self).clients(),
            final(self).queues().same_settings(&old(self).queues()),
            final(self).queues()@ == old(self).queues()@.insert(
                client_id@,
                final(self).queues()@[client_id@],
            ),
            queue_emptied(
                old(self).queues().entries_of(client_id@),
                old(self).queues().work_of(client_id@),
                final(self).queues()@[client_id@].queue(),
            ),
            final(self).queues().control_of(client_id@) == client_queue::held_for_a_while(
                old(self).queues().control_of(client_id@),
            ),
    {
        let ghost origin = self.queues;
        let hold = self.queues.handle(client_id);
        let ghost held = self.queues;
        if let Some(queue) = self.queues.queue_mut(client_id) {
            proof {
                client_queue::law_clear_removes_everything(queue.queued());
            }
            let _ = queue.clear(None);
        }
        let ghost cleared = self.queues;
        self.queues.release(hold);
        proof {
            assert(self.queues@ =~= origin@.insert(client_id@, self.queues@[client_id@]));
            assert forall|c: Seq<char>| #[trigger] self.clients@.contains_key(c) implies
                self.queues@.contains_key(c) && self.queues@[c].holders() > 0 by {
                assert(origin@.contains_key(c) && origin@[c].holders() > 0);
            }
        }
    }

    /// Drops the subscriptions, the change-only states and the queued messages of clients that
    /// are not connected and have no live session; `live_sessions` names the clients whose stored
    /// sessions have not expired. Idle queues in memory are dropped too. Returns the clients that
    /// were cleaned up.
    pub fn cleanup_stale_subscriptions(&mut self, live_sessions: &Vec<String>) -> (stale: Vec<String>)
        requires
            old(self).wf(),
        ensures
            final(self).wf(),
            forall|c: Seq<char>| #[trigger]
                subscriptions::names(stale@, c) <==> is_stale(*old(self), live_sessions@, c),
            forall|f: Seq<char>| #[trigger]
                final(self).table().row(f) == subscriptions::left(
                    old(self).table().row(f),
                    Removal { clients: stale, flow: None },
                ),
            final(self).plan_state().rates == old(self).plan_state().rates,
            final(self).plan_state().turns == old(self).plan_state().turns,
            forall|c: Seq<char>| #[trigger]
                final(self).plan_state().seen.contains_key(c)
                    <==> old(self).plan_state().seen.contains_key(c) && !subscriptions::names(
                    stale@,
                    c,
                ),
            forall|c: Seq<char>| #[trigger]
                final(self).plan_state().seen.contains_key(c) ==> final(self).plan_state().seen[c]
                    == old(self).plan_state().seen[c],
            final(self).queues().same_counter(&old(self).queues()),
            final(self).queues().left_work() == (if old(self).persistent() {
                old(self).queues().left_work()
            } else {
                old(self).queues().left_work() + client_queue::idle_work(
                    old(self).queues().listed(),
                )
            }),
            forall|c: Seq<char>|
                #![trigger final(self).queues()@.contains_key(c)]
                !subscriptions::names(stale@, c) ==> {
                    &&& final(self).queues()@.contains_key(c) <==> (if old(self).persistent() {
                        old(self).queues()@.contains_key(c)
                    } else {
                        survives_eviction(old(self).queues(), c)
                    })
                    &&& final(self).queues()@.contains_key(c) ==> final(self).queues()@[c]
                        == old(self).queues()@[c]
                },
            forall|c: Seq<char>| #[trigger]
                subscriptions::names(stale@, c) ==> final(self).queues()@.contains_key(c)
                    && queue_emptied(
                    old(self).queues().entries_of(c),
                    work_kept(*old(self), c),
                    final(self).queues()@[c].queue(),
                ) && final(self).queues().control_of(c) == client_queue::held_for_a_while(
                    control_kept(*old(self), c),
                ),
            subscriptions::texts(stale@).no_duplicates(),
            final(self).clients() == old(self).clients(),
            final(self).retained() == old(self).retained(),
            final(self).retained_list() == old(self).retained_list(),
            final(self).same_settings(old(self)),
    {
        let ghost origin = *self;
        if !self.persistent {
            let _ = self.queues.evict_idle();
        }
        let ghost swept = self.queues;
        proof {
            assert forall|c: Seq<char>|
                #![trigger swept.entries_of(c)]
                swept.entries_of(c) == origin.queues().entries_of(c) && swept.work_of(c)
                    == work_kept(origin, c) && swept.control_of(c) == control_kept(origin, c) by {
                if !origin.persistent() && origin.queues()@.contains_key(c) {
                    assert(swept@.contains_key(c) <==> survives_eviction(origin.queues(), c));
                    if !survives_eviction(origin.queues(), c) {
                        assert(origin.queues().entries_of(c) =~= Seq::<QueueEntry>::empty());
                    }
                }
            }
        }
        let subscribed = self.table.subscribers();
        assert(origin.table() == self.table);
        let mut stale: Vec<String> = Vec::new();
        let mut i: usize = 0;
        while i < subscribed.len()
            invariant
                i <= subscribed@.len(),
                self.wf(),
                self.clients() == origin.clients(),
                self.persistent() == origin.persistent(),
                forall|c: Seq<char>| #[trigger]
                    subscriptions::names(subscribed@, c) <==> exists|f: Seq<char>| #[trigger]
                        subscriptions::subscribes(origin.table().row(f), c),
                forall|c: Seq<char>| #[trigger]
                    subscriptions::names(stale@, c) ==> is_stale(origin, live_sessions@, c),
                forall|j: int|
                    0 <= j < i && is_stale(origin, live_sessions@, (#[trigger] subscribed@[j])@)
                        ==> subscriptions::names(stale@, subscribed@[j]@),
                forall|a: int, b: int|
                    #![trigger subscribed@[a], subscribed@[b]]
                    0 <= a < b < subscribed@.len() ==> subscribed@[a]@ != subscribed@[b]@,
                forall|a: int|
                    0 <= a < stale@.len() ==> exists|k: int|
                        0 <= k < i && (#[trigger] subscribed@[k])@ == (#[trigger] stale@[a])@,
                forall|a: int, b: int|
                    #![trigger stale@[a], stale@[b]]
                    0 <= a < b < stale@.len() ==> stale@[a]@ != stale@[b]@,
            decreases subscribed@.len() - i,
        {
            let id = &subscribed[i];
            assert(subscriptions::names(subscribed@, subscribed@[i as int]@));
            let connected = self.clients.contains_key(id.as_str());
            let has_session = self.persistent && holds_name(live_sessions, id.as_str());
            if !connected && !has_session {
                let ghost before = stale@;
                stale.push(id.clone());
                proof {
                    assert(stale@[stale@.len() - 1]@ == id@);
                    assert forall|a: int| 0 <= a < stale@.len() implies exists|k: int|
                        0 <= k < i + 1 && (#[trigger] subscribed@[k])@ == (
                        #[trigger] stale@[a])@ by {
                        if a < before.len() {
                            assert(before[a] == stale@[a]);
                            let k = choose|k: int|
                                0 <= k < i && (#[trigger] subscribed@[k])@ == before[a]@;
                            assert(subscribed@[k]@ == stale@[a]@);
                        } else {
                            assert(subscribed@[i as int]@ == stale@[a]@);
                        }
                    }
                    assert forall|a: int, b: int|
                        #![trigger stale@[a], stale@[b]]
                        0 <= a < b < stale@.len() implies stale@[a]@ != stale@[b]@ by {
                        assert(before[a] == stale@[a]);
                        if b < before.len() {
                            assert(before[b] == stale@[b]);
                        } else {
                            let k = choose|k: int|
                                0 <= k < i && (#[trigger] subscribed@[k])@ == before[a]@;
                            assert(subscribed@[k]@ != subscribed@[i as int]@);
                        }
                    }
                    assert forall|c: Seq<char>| #[trigger] subscriptions::names(stale@, c) implies is_stale(
                        origin,
                        live_sessions@,
                        c,
                    ) by {
                        let a = choose|a: int| 0 <= a < stale@.len() && (#[trigger] stale@[a])@ == c;
                        if a < before.len() {
                            assert(before[a]@ == c);
                            assert(subscriptions::names(before, c));
                        }
                    }
                    assert forall|j: int|
                        0 <= j < i + 1 && is_stale(
                            origin,
                            live_sessions@,
                            (#[trigger] subscribed@[j])@,
                        ) implies subscriptions::names(stale@, subscribed@[j]@) by {
                        if j < i {
                            let a = choose|a: int|
                                0 <= a < before.len() && (#[trigger] before[a])@ == subscribed@[j]@;
                            assert(stale@[a]@ == subscribed@[j]@);
                        }
                    }
                }
            }
            i = i + 1;
        }
        proof {
            assert forall|c: Seq<char>| is_stale(origin, live_sessions@, c) implies #[trigger] subscriptions::names(
                stale@,
                c,
            ) by {
                assert(subscriptions::names(subscribed@, c));
                let j = choose|j: int|
                    0 <= j < subscribed@.len() && (#[trigger] subscribed@[j])@ == c;
                assert(subscriptions::names(stale@, subscribed@[j]@));
            }
        }
        let removal = Removal { clients: stale, flow: None };
        let _ = self.table.remove_everywhere(&removal);
        let stale = removal.clients;
        let ghost table = self.table;
        let mut j: usize = 0;
        while j < stale.len()
            invariant
                j <= stale@.len(),
                self.wf(),
                self.table == table,
                self.clients() == origin.clients(),
                self.retained() == origin.retained(),
                self.retained_list() == origin.retained_list(),
                self.same_settings(&origin),
                self.plan_state().rates == origin.plan_state().rates,
                self.plan_state().turns == origin.plan_state().turns,
                self.queues().same_settings(&swept),
                forall|c: Seq<char>| #[trigger]
                    self.plan_state().seen.contains_key(c) <==> origin.plan_state().seen.contains_key(
                        c,
                    ) && !subscriptions::names(stale@.take(j as int), c),
                forall|c: Seq<char>| #[trigger]
                    self.plan_state().seen.contains_key(c) ==> self.plan_state().seen[c]
                        == origin.plan_state().seen[c],
                forall|c: Seq<char>|
                    #![trigger self.queues()@.contains_key(c)]
                    !subscriptions::names(stale@.take(j as int), c) ==> {
                        &&& self.queues()@.contains_key(c) <==> swept@.contains_key(c)
                        &&& self.queues()@.contains_key(c) ==> self.queues()@[c] == swept@[c]
                    },
                forall|c: Seq<char>| #[trigger]
                    subscriptions::names(stale@.take(j as int), c) ==> self.queues()@.contains_key(c)
                        && queue_emptied(
                        swept.entries_of(c),
                        swept.work_of(c),
                        self.queues()@[c].queue(),
                    ) && self.queues().control_of(c) == client_queue::held_for_a_while(
                        swept.control_of(c),
                    ),
                forall|a: int, b: int|
                    #![trigger stale@[a], stale@[b]]
                    0 <= a < b < stale@.len() ==> stale@[a]@ != stale@[b]@,
            decreases stale@.len() - j,
        {
            let ghost before = *self;
            let ghost id = stale@[j as int]@;
            self.remove_change_only_state(stale[j].as_str());
            self.clear_queue(stale[j].as_str());
            proof {
                assert(!subscriptions::names(stale@.take(j as int), id)) by {
                    if subscriptions::names(stale@.take(j as int), id) {
                        let a = choose|a: int|
                            0 <= a < j && (#[trigger] stale@.take(j as int)[a])@ == id;
                        assert(stale@[a]@ != stale@[j as int]@);
                    }
                }
                assert(before.queues()@.contains_key(id) <==> swept@.contains_key(id));
                assert(before.queues().entries_of(id) == swept.entries_of(id));
                assert(before.queues().work_of(id) == swept.work_of(id));
                assert(before.queues().control_of(id) == swept.control_of(id));
                assert forall|c: Seq<char>| #[trigger]
                    subscriptions::names(stale@.take(j + 1), c) implies self.queues()@.contains_key(c)
                    && queue_emptied(
                    swept.entries_of(c),
                    swept.work_of(c),
                    self.queues()@[c].queue(),
                ) && self.queues().control_of(c) == client_queue::held_for_a_while(
                    swept.control_of(c),
                ) by {
                    lemma_names_take(stale@, j as int, c);
                    if c != id {
                        assert(subscriptions::names(stale@.take(j as int), c));
                        assert(before.queues()@[c] == self.queues()@[c]);
                        assert(before.queues().control_of(c) == self.queues().control_of(c));
                    }
                }
                assert forall|c: Seq<char>|
                    #![trigger self.queues()@.contains_key(c)]
                    !subscriptions::names(stale@.take(j + 1), c) implies {
                    &&& self.queues()@.contains_key(c) <==> swept@.contains_key(c)
                    &&& self.queues()@.contains_key(c) ==> self.queues()@[c] == swept@[c]
                } by {
                    lemma_names_take(stale@, j as int, c);
                    assert(before.queues()@.contains_key(c) == self.queues()@.contains_key(c));
                }
                assert forall|c: Seq<char>| #[trigger]
                    self.plan_state().seen.contains_key(c) <==> origin.plan_state().seen.contains_key(
                    c,
                ) && !subscriptions::names(stale@.take(j + 1), c) by {
                    assert(before.plan_state().seen.contains_key(c)
                        <==> origin.plan_state().seen.contains_key(c) && !subscriptions::names(
                        stale@.take(j as int),
                        c,
                    ));
                    lemma_names_take(stale@, j as int, c);
                }
                assert forall|c: Seq<char>| #[trigger]
                    self.plan_state().seen.contains_key(c) implies self.plan_state().seen[c]
                    == origin.plan_state().seen[c] by {
                    assert(before.plan_state().seen.contains_key(c));
                }
            }
            j = j + 1;
        }
        proof {
            assert(stale@.take(stale@.len() as int) =~= stale@);
            assert forall|c: Seq<char>| #[trigger] subscriptions::names(stale@, c) implies {
                &&& self.queues()@.contains_key(c)
                &&& queue_emptied(
                    origin.queues().entries_of(c),
                    work_kept(origin, c),
                    self.queues()@[c].queue(),
                )
                &&& self.queues().control_of(c) == client_queue::held_for_a_while(
                    control_kept(origin, c),
                )
            } by {
                assert(swept.entries_of(c) == origin.queues().entries_of(c));
            }
        }
        stale
    }

    /// Decides how a message goes to one subscriber and counts it against the subscriber's rate.
    fn plan_delivery(
        &mut self,
        sub: &Subscription,
        publish: &PublishPacket,
        publisher: Option<&str>,
        now: u64,
    ) -> (r: Option<DeliveryPlan>)
        requires
            old(self).wf(),
        ensures
            final(self).wf(),
            final(self).same_but_plan_state(old(self)),
            ({
                let env = old(self).plan_env(*publish, name_of(publisher), now);
                let st = old(self).plan_state();
                &&& final(self).plan_state() == planning::step(env, st, *sub)
                &&& match r {
                    Some(plan) => planning::decide(env, st, *sub) matches Some(choice) && plan_is(
                        plan,
                        choice,
                        *publish,
                        old(self).clients(),
                    ),
                    None => planning::decide(env, st, *sub) is None,
                }
            }),
    {
        let ghost env = self.plan_env(*publish, name_of(publisher), now);
        let ghost st = self.plan_state();
        let ghost id = sub.client_id@;
        if sub.no_local && is_client(publisher, sub.client_id.as_str()) {
            assert(planning::is_local(env, *sub));
            return None;
        }
        if let Some(key) = &self.echo_key {
            if let Some(origin) = user_property_value(
                &publish.properties.user_properties,
                key.as_str(),
            ) {
                if same_text(origin.as_str(), sub.client_id.as_str()) {
                    assert(planning::is_echo(env, *sub));
                    return None;
                }
            }
        }
        assert(!planning::is_echo(env, *sub));
        if sub.change_only {
            if let Some(state) = self.change_only.get(sub.client_id.as_str()) {
                assert(self.change_only@.contains_key(id));
                if !state.should_deliver(publish.topic_name.as_str(), &publish.payload) {
                    assert(planning::is_unchanged(env, st, *sub));
                    return None;
                }
            }
        }
        assert(!planning::is_skipped(env, st, *sub));
        if self.max_rate > 0 {
            let max_rate: u32 = self.max_rate;
            let ghost before = *self;
            let admitted = match self.rates.get_mut(sub.client_id.as_str()) {
                Some(state) => state.check_and_increment(max_rate, now),
                None => true,
            };
            proof {
                assert(self.plan_state().seen =~= st.seen);
                if st.rates.contains_key(id) {
                    assert(self.rates@ =~= st.rates.insert(id, st.rates[id].next(max_rate, now)));
                }
            }
            if !admitted {
                assert(planning::is_over_rate(env, st, *sub));
                let qos = effective_qos(publish.qos, sub.qos);
                if qos == QoS::AtMostOnce || !self.persistent {
                    return None;
                }
                return Some(
                    DeliveryPlan::Behind {
                        client_id: sub.client_id.clone(),
                        message: prepare_message(publish, sub, qos),
                        target_flow: sub.flow_id,
                    },
                );
            }
        }
        assert(!planning::is_over_rate(env, st, *sub));
        let connection: Option<u64> = match self.clients.get(sub.client_id.as_str()) {
            Some(info) => Some(info.generation),
            None => None,
        };
        if let Some(generation) = connection {
            let qos = effective_qos(publish.qos, sub.qos);
            let message = prepare_message(publish, sub, qos);
            if sub.change_only {
                self.remember_payload(sub.client_id.as_str(), publish);
            }
            return Some(
                DeliveryPlan::Online {
                    client_id: sub.client_id.clone(),
                    generation,
                    message,
                    target_flow: sub.flow_id,
                },
            );
        }
        if sub.qos == QoS::AtMostOnce {
            return None;
        }
        if !self.persistent {
            return None;
        }
        Some(
            DeliveryPlan::Behind {
                client_id: sub.client_id.clone(),
                message: prepare_message(publish, sub, sub.qos),
                target_flow: sub.flow_id,
            },
        )
    }

    /// Records that a change-only subscriber was sent a payload.
    fn remember_payload(&mut self, client_id: &str, publish: &PublishPacket)
        requires
            old(self).wf(),
        ensures
            final(self).wf(),
            final(self).same_but_plan_state(old(self)),
            final(self).plan_state().rates == old(self).plan_state().rates,
            final(self).plan_state().turns == old(self).plan_state().turns,
            ({
                let seen = old(self).plan_state().seen;
                let before = if seen.contains_key(client_id@) {
                    seen[client_id@]
                } else {
                    Map::empty()
                };
                final(self).plan_state().seen == seen.insert(
                    client_id@,
                    before.insert(publish.topic_name@, publish.payload@),
                )
            }),
    {
        let ghost seen = self.plan_state().seen;
        let ghost origin = self.change_only@;
        if !self.change_only.contains_key(client_id) {
            let _ = self.change_only.insert(client_id.to_owned(), ChangeOnlyState::new());
        }
        let ghost middle = self.change_only@;
        assert(middle.contains_key(client_id@) && middle[client_id@].wf());
        if let Some(state) = self.change_only.get_mut(client_id) {
            state.update(publish.topic_name.as_str(), &publish.payload);
        }
        proof {
            let before = if seen.contains_key(client_id@) {
                seen[client_id@]
            } else {
                Map::empty()
            };
            assert(self.plan_state().seen =~= seen.insert(
                client_id@,
                before.insert(publish.topic_name@, publish.payload@),
            ));
        }
    }

    /// Decides how a message goes to each of the subscribers, one after the other.
    fn plan_regular(
        &mut self,
        subs: &Vec<Subscription>,
        publish: &PublishPacket,
        publisher: Option<&str>,
        now: u64,
    ) -> (plans: Vec<DeliveryPlan>)
        requires
            old(self).wf(),
        ensures
            final(self).wf(),
            final(self).same_but_plan_state(old(self)),
            ({
                let env = old(self).plan_env(*publish, name_of(publisher), now);
                let all = planning::plan_each(env, old(self).plan_state(), subs@);
                &&& final(self).plan_state() == all.1
                &&& plans_are(plans@, all.0, *publish, old(self).clients())
            }),
    {
        let ghost origin = *self;
        let ghost env = self.plan_env(*publish, name_of(publisher), now);
        let mut plans: Vec<DeliveryPlan> = Vec::new();
        let mut i: usize = 0;
        assert(subs@.take(0) =~= Seq::<Subscription>::empty());
        while i < subs.len()
            invariant
                i <= subs@.len(),
                self.wf(),
                self.same_but_plan_state(&origin),
                env == origin.plan_env(*publish, name_of(publisher), now),
                self.plan_state() == planning::plan_each(
                    env,
                    origin.plan_state(),
                    subs@.take(i as int),
                ).1,
                plans_are(
                    plans@,
                    planning::plan_each(env, origin.plan_state(), subs@.take(i as int)).0,
                    *publish,
                    origin.clients(),
                ),
            decreases subs@.len() - i,
        {
            proof {
                assert(self.plan_env(*publish, name_of(publisher), now) == env);
                assert(subs@.take(i + 1).drop_last() =~= subs@.take(i as int));
                assert(subs@.take(i + 1).last() == subs@[i as int]);
            }
            if let Some(plan) = self.plan_delivery(&subs[i], publish, publisher, now) {
                plans.push(plan);
            }
            i = i + 1;
        }
        assert(subs@.take(subs@.len() as int) =~= subs@);
        plans
    }

    /// Decides which member of a share group a message goes to.
    fn plan_share_group(
        &mut self,
        group: &str,
        subs: &Vec<Subscription>,
        publish: &PublishPacket,
        publisher: Option<&str>,
        now: u64,
    ) -> (r: Option<DeliveryPlan>)
        requires
            old(self).wf(),
        ensures
            final(self).wf(),
            final(self).same_but_plan_state(old(self)),
            ({
                let env = old(self).plan_env(*publish, name_of(publisher), now);
                let one = planning::plan_group(env, old(self).plan_state(), group@, subs@);
                &&& final(self).plan_state() == one.1
                &&& match r {
                    Some(plan) => one.0 matches Some(choice) && plan_is(
                        plan,
                        choice,
                        *publish,
                        old(self).clients(),
                    ),
                    None => one.0 is None,
                }
            }),
    {
        let ghost origin = *self;
        let ghost env = self.plan_env(*publish, name_of(publisher), now);
        let online = self.online_members(subs, Ghost(env));
        proof {
            planning::lemma_online_of(env, subs@);
        }
        if online.len() > 0 {
            let count: usize = match self.turns.get(group) {
                Some(count) => *count,
                None => {
                    return None;
                },
            };
            let start: usize = count % online.len();
            let chosen: usize = self.pick_member(&online, start, Ghost(env));
            proof {
                planning::lemma_turn(env, online@, start as int, 0);
            }
            let _ = self.turns.insert(group.to_owned(), count.wrapping_add(1));
            proof {
                let st = origin.plan_state();
                let next = PlanState {
                    turns: st.turns.insert(
                        group@,
                        if count < usize::MAX {
                            (count + 1) as usize
                        } else {
                            0
                        },
                    ),
                    ..st
                };
                assert(self.plan_state().turns =~= next.turns);
                assert(self.plan_state() == next);
                assert(self.plan_env(*publish, name_of(publisher), now) == env);
            }
            return self.plan_delivery(&online[chosen], publish, publisher, now);
        }
        if subs.len() > 0 {
            let sub = &subs[0];
            if self.persistent && sub.qos != QoS::AtMostOnce {
                let mut message = publish.clone();
                message.qos = sub.qos;
                return Some(
                    DeliveryPlan::Behind {
                        client_id: sub.client_id.clone(),
                        message,
                        target_flow: sub.flow_id,
                    },
                );
            }
        }
        None
    }

    /// The members of a share group that are connected.
    fn online_members(&self, subs: &Vec<Subscription>, env: Ghost<PlanEnv>) -> (r: Vec<Subscription>)
        requires
            self.wf(),
            env@.online == self.clients().dom(),
        ensures
            r@ == planning::online_of(env@, subs@),
    {
        let mut out: Vec<Subscription> = Vec::new();
        let mut i: usize = 0;
        assert(subs@.take(0) =~= Seq::<Subscription>::empty());
        while i < subs.len()
            invariant
                i <= subs@.len(),
                self.wf(),
                env@.online == self.clients().dom(),
                out@ == planning::online_of(env@, subs@.take(i as int)),
            decreases subs@.len() - i,
        {
            assert(subs@.take(i + 1).drop_last() =~= subs@.take(i as int));
            if self.clients.contains_key(subs[i].client_id.as_str()) {
                out.push(subs[i].clone());
            }
            i = i + 1;
        }
        assert(subs@.take(subs@.len() as int) =~= subs@);
        out
    }

    /// The first member from `start` on that is not behind, or the one at `start`.
    fn pick_member(&self, online: &Vec<Subscription>, start: usize, env: Ghost<PlanEnv>) -> (r: usize)
        requires
            self.wf(),
            start < online@.len(),
            env@.behind == Set::new(
                |c: Seq<char>| self.queues()@.contains_key(c) && self.queues()@[c].queue().lags(),
            ),
        ensures
            r == planning::turn(env@, online@, start as int, 0),
    {
        let n: usize = online.len();
        let mut offset: usize = 0;
        while offset < n
            invariant
                self.wf(),
                offset <= n,
                n == online@.len(),
                start < n,
                env@.behind == Set::new(
                    |c: Seq<char>|
                        self.queues()@.contains_key(c) && self.queues()@[c].queue().lags(),
                ),
                planning::turn(env@, online@, start as int, 0) == planning::turn(
                    env@,
                    online@,
                    start as int,
                    offset as int,
                ),
            decreases n - offset,
        {
            let at: usize = if offset < n - start {
                start + offset
            } else {
                offset - (n - start)
            };
            proof {
                if offset < n - start {
                    vstd::arithmetic::div_mod::lemma_small_mod((start + offset) as nat, n as nat);
                } else {
                    vstd::arithmetic::div_mod::lemma_small_mod(
                        (start + offset - n) as nat,
                        n as nat,
                    );
                    vstd::arithmetic::div_mod::lemma_mod_sub_multiples_vanish(
                        (start + offset) as int,
                        n as int,
                    );
                }
                assert((start + offset) % n as int == at);
            }
            let behind = match self.queues.queue(online[at].client_id.as_str()) {
                Some(queue) => queue.behind(),
                None => false,
            };
            if !behind {
                return at;
            }
            offset = offset + 1;
        }
        start
    }

    /// Decides how a message goes to every matching subscriber.
    fn plan_matching(
        &mut self,
        publish: &PublishPacket,
        publisher: Option<&str>,
        now: u64,
    ) -> (plans: Vec<DeliveryPlan>)
        requires
            old(self).wf(),
        ensures
            final(self).wf(),
            final(self).same_but_plan_state(old(self)),
            ({
                let env = old(self).plan_env(*publish, name_of(publisher), now);
                let all = planning::plan_all(
                    env,
                    old(self).plan_state(),
                    old(self).table().matches(publish.topic_name@),
                );
                &&& final(self).plan_state() == all.1
                &&& plans_are(plans@, all.0, *publish, old(self).clients())
            }),
    {
        let ghost origin = *self;
        let ghost env = self.plan_env(*publish, name_of(publisher), now);
        let matching = self.table.matching(publish.topic_name.as_str());
        let group_names = group_names_of(&matching);
        let mut plans: Vec<DeliveryPlan> = Vec::new();
        let ghost listed = subscriptions::texts(group_names@);
        let mut i: usize = 0;
        assert(listed.take(0) =~= Seq::<Seq<char>>::empty());
        while i < group_names.len()
            invariant
                i <= group_names@.len(),
                listed == subscriptions::texts(group_names@),
                self.wf(),
                self.same_but_plan_state(&origin),
                env == origin.plan_env(*publish, name_of(publisher), now),
                self.plan_state() == planning::plan_groups(
                    env,
                    origin.plan_state(),
                    listed.take(i as int),
                    matching@,
                ).1,
                plans_are(
                    plans@,
                    planning::plan_groups(
                        env,
                        origin.plan_state(),
                        listed.take(i as int),
                        matching@,
                    ).0,
                    *publish,
                    origin.clients(),
                ),
            decreases group_names@.len() - i,
        {
            let own = members_of(&matching, group_names[i].as_str());
            proof {
                assert(self.plan_env(*publish, name_of(publisher), now) == env);
                assert(listed.take(i + 1).drop_last() =~= listed.take(i as int));
                assert(listed.take(i + 1).last() == group_names@[i as int]@);
            }
            if let Some(plan) = self.plan_share_group(
                group_names[i].as_str(),
                &own,
                publish,
                publisher,
                now,
            ) {
                plans.push(plan);
            }
            i = i + 1;
        }
        assert(listed.take(listed.len() as int) =~= listed);
        let ghost shared = plans@;
        let alone = regular_of(&matching);
        assert(self.plan_env(*publish, name_of(publisher), now) == env);
        let mut rest = self.plan_regular(&alone, publish, publisher, now);
        let ghost others = rest@;
        plans.append(&mut rest);
        assert(plans@ =~= shared + others);
        plans
    }

    /// Queues a message behind a client's backlog and wakes the client's handler.
    fn queue_behind(
        &mut self,
        client_id: String,
        message: PublishPacket,
        target_flow: Option<u64>,
        now: u64,
    )
        requires
            old(self).wf(),
        ensures
            final(self).wf(),
            final(self).same_but_deliveries(old(self)),
            final(self).clients() == old(self).clients(),
            queued_behind(
                old(self).queues(),
                final(self).queues(),
                client_id,
                message,
                target_flow,
                now,
            ),
    {
        let ghost origin = *self;
        let qos = message.qos;
        let queued = QueuedMessage::new(message, client_id.clone(), qos, None, now).with_target_flow(
            target_flow,
        );
        let _ = self.queues.push(client_id.as_str(), queued);
        let ghost middle = self.queues;
        if let Some(queue) = self.queues.queue_mut(client_id.as_str()) {
            queue.notify();
        }
        proof {
            assert(self.queues@ =~= origin.queues@.insert(
                client_id@,
                self.queues@[client_id@],
            ));
        }
    }

    /// Carries out a plan. A message that has to wait for room in a full lane is handed back.
    pub fn execute_plan(
        &mut self,
        plan: DeliveryPlan,
        publisher: Option<&str>,
        now: u64,
    ) -> (waiting: Option<Waiting>)
        requires
            old(self).wf(),
        ensures
            final(self).wf(),
            carried_out(*old(self), plan, name_of(publisher), now, *final(self), waiting),
    {
        let ghost origin = *self;
        match plan {
            DeliveryPlan::Behind { client_id, message, target_flow } => {
                self.queue_behind(client_id, message, target_flow, now);
                None
            },
            DeliveryPlan::Online { client_id, generation, message, target_flow } => {
                let ghost id = client_id@;
                let routable = RoutableMessage { publish: message, target_flow };
                let here = match self.clients.get(client_id.as_str()) {
                    Some(info) => info.generation == generation,
                    None => false,
                };
                if routable.publish.qos == QoS::AtMostOnce {
                    if here {
                        if let Some(info) = self.clients.get_mut(client_id.as_str()) {
                            let _ = info.lanes.qos0.try_send(routable);
                        }
                    }
                    proof {
                        assert(self.clients@.dom() =~= origin.clients@.dom());
                        if origin.clients@.contains_key(id) && !lane_open(
                            origin.clients@[id].lanes.qos0,
                        ) {
                            assert(self.clients@ =~= origin.clients@);
                        }
                    }
                    return None;
                }
                let behind = match self.queues.queue(client_id.as_str()) {
                    Some(queue) => queue.behind(),
                    None => false,
                };
                if behind || !here {
                    self.queue_behind(client_id, routable.publish, routable.target_flow, now);
                    return None;
                }
                let offer = match self.clients.get_mut(client_id.as_str()) {
                    Some(info) => info.lanes.qos1.try_send(routable),
                    None => Offer::Closed(routable),
                };
                match offer {
                    Offer::Sent => {
                        assert(self.clients@.dom() =~= origin.clients@.dom());
                        None
                    },
                    Offer::Closed(back) => {
                        assert(self.clients@ =~= origin.clients@);
                        self.queue_behind(client_id, back.publish, back.target_flow, now);
                        None
                    },
                    Offer::Full(back) => {
                        assert(self.clients@ =~= origin.clients@);
                        if is_client(publisher, client_id.as_str()) {
                            self.queue_behind(client_id, back.publish, back.target_flow, now);
                            return None;
                        }
                        Some(Waiting { client_id, generation, message: back })
                    },
                }
            },
        }
    }

    /// Ends the wait of a message for room in a lane: `granted` says that the lane has room now
    /// and takes it. A message that was not granted room, or whose connection is gone, is queued.
    pub fn end_wait(&mut self, waiting: Waiting, granted: bool, now: u64)
        requires
            old(self).wf(),
        ensures
            final(self).wf(),
            final(self).same_but_deliveries(old(self)),
            ({
                let id = waiting.client_id@;
                let message = waiting.message;
                if granted && has_connection(old(self).clients(), id, waiting.generation)
                    && lane_open(old(self).clients()[id].lanes.qos1) {
                    &&& final(self).queues() == old(self).queues()
                    &&& lane_took(old(self).clients(), final(self).clients(), id, true, message)
                } else {
                    &&& final(self).clients() == old(self).clients()
                    &&& queued_behind(
                        old(self).queues(),
                        final(self).queues(),
                        waiting.client_id,
                        message.publish,
                        message.target_flow,
                        now,
                    )
                }
            }),
    {
        let ghost origin = *self;
        let Waiting { client_id, generation, message } = waiting;
        let here = match self.clients.get(client_id.as_str()) {
            Some(info) => info.generation == generation,
            None => false,
        };
        let offer = if granted && here {
            match self.clients.get_mut(client_id.as_str()) {
                Some(info) => info.lanes.qos1.try_send(message),
                None => Offer::Closed(message),
            }
        } else {
            Offer::Closed(message)
        };
        match offer {
            Offer::Sent => {
                assert(self.clients@.dom() =~= origin.clients@.dom());
            },
            Offer::Full(back) | Offer::Closed(back) => {
                assert(self.clients@ =~= origin.clients@);
                self.queue_behind(client_id, back.publish, back.target_flow, now);
            },
        }
    }

    /// Updates the retained message of the topic.
    fn handle_retain_storage(&mut self, publish: &PublishPacket, now: u64) -> (r: RetainedSetEvent)
        requires
            old(self).wf(),
            publish.retain,
        ensures
            final(self).wf(),
            final(self).retained() == retained_after(old(self).retained(), *publish, now),
            final(self).table() == old(self).table(),
            final(self).clients() == old(self).clients(),
            final(self).queues() == old(self).queues(),
            final(self).plan_state() == old(self).plan_state(),
            final(self).same_settings(old(self)),
            r == retained_event(*publish),
    {
        let cleared = publish.payload.len() == 0;
        if cleared {
            let _ = self.retained.remove(publish.topic_name.as_str());
        } else {
            let message = RetainedMessage::new(publish.clone(), now);
            let _ = self.retained.insert(publish.topic_name.clone(), message);
        }
        RetainedSetEvent {
            topic: publish.topic_name.clone(),
            payload: share(&publish.payload),
            qos: publish.qos,
            cleared,
        }
    }

    fn route_message_internal(
        &mut self,
        publish: &PublishPacket,
        publisher: Option<&str>,
        forward: bool,
        now: u64,
    ) -> (r: RouteOutcome)
        requires
            old(self).wf(),
        ensures
            final(self).wf(),
            r.forward == forward,
            r.retained == (if publish.retain {
                Some(retained_event(*publish))
            } else {
                None
            }),
            exists|plans: Seq<DeliveryPlan>, steps: Seq<MessageRouter>|
                #![trigger advanced(plans, name_of(publisher), now, steps, r.progress)]
                planned(*old(self), *publish, name_of(publisher), now, plans, steps[0])
                    && advanced(plans, name_of(publisher), now, steps, r.progress) && steps.last()
                    == *final(self),
    {
        let ghost origin = *self;
        let retained = if publish.retain {
            Some(self.handle_retain_storage(publish, now))
        } else {
            None
        };
        proof {
            assert(self.plan_env(*publish, name_of(publisher), now) == origin.plan_env(
                *publish,
                name_of(publisher),
                now,
            ));
        }
        let plans = self.plan_matching(publish, publisher, now);
        let ghost all = plans@;
        assert(planned(origin, *publish, name_of(publisher), now, all, *self));
        let progress = self.continue_route(plans, publisher, now);
        RouteOutcome { progress, retained, forward }
    }

    /// Carries out the plans for a message that are left, one after the other, up to the first that
    /// has to wait for room. Whether a later message to a client finds a backlog is known only when
    /// the wait for an earlier one has ended.
    pub fn continue_route(
        &mut self,
        plans: Vec<DeliveryPlan>,
        publisher: Option<&str>,
        now: u64,
    ) -> (r: RouteProgress)
        requires
            old(self).wf(),
        ensures
            final(self).wf(),
            exists|steps: Seq<MessageRouter>| #[trigger]
                advanced(plans@, name_of(publisher), now, steps, r) && steps[0] == *old(self)
                    && steps.last() == *final(self),
    {
        let ghost all = plans@;
        let ghost mut steps: Seq<MessageRouter> = seq![*self];
        let mut waiting: Option<Waiting> = None;
        let mut rest: Vec<DeliveryPlan> = Vec::new();
        for plan in it: plans
            invariant
                it.seq() == all,
                self.wf(),
                rest@.len() <= it.index(),
                steps.len() == it.index() - rest@.len() + 1,
                steps[0] == *old(self),
                steps.last() == *self,
                rest@ == all.subrange(it.index() - rest@.len(), it.index() as int),
                waiting is None ==> rest@.len() == 0,
                waiting is Some ==> steps.len() > 1,
                forall|i: int|
                    #![trigger all[i]]
                    0 <= i < steps.len() - 1 ==> carried_out(
                        steps[i],
                        all[i],
                        name_of(publisher),
                        now,
                        steps[i + 1],
                        if i == steps.len() - 2 {
                            waiting
                        } else {
                            None
                        },
                    ),
        {
            if waiting.is_some() {
                rest.push(plan);
                assert(rest@ =~= all.subrange(
                    it.index() + 1 - rest@.len(),
                    it.index() + 1,
                ));
            } else {
                let ghost before = *self;
                let ghost n = steps.len() - 1;
                waiting = self.execute_plan(plan, publisher, now);
                proof {
                    let longer = steps.push(*self);
                    assert forall|j: int|
                        #![trigger all[j]]
                        0 <= j < n + 1 implies carried_out(
                        longer[j],
                        all[j],
                        name_of(publisher),
                        now,
                        longer[j + 1],
                        if j == n {
                            waiting
                        } else {
                            None
                        },
                    ) by {
                        if j < n {
                            assert(longer[j] == steps[j] && longer[j + 1] == steps[j + 1]);
                        } else {
                            assert(longer[j] == before);
                        }
                    }
                    steps = longer;
                    assert(rest@ =~= all.subrange(it.index() + 1, it.index() + 1));
                }
            }
        }
        let progress = RouteProgress { waiting, rest };
        proof {
            let n = all.len() - rest@.len();
            assert(rest@ =~= all.skip(n));
            assert(advanced(all, name_of(publisher), now, steps, progress));
        }
        progress
    }

    /// Routes a publish message to all matching subscribers; it goes to the bridges too.
    pub fn route_message(
        &mut self,
        publish: &PublishPacket,
        publisher: Option<&str>,
        now: u64,
    ) -> (r: RouteOutcome)
        requires
            old(self).wf(),
        ensures
            final(self).wf(),
            r.forward,
            r.retained == (if publish.retain {
                Some(retained_event(*publish))
            } else {
                None
            }),
            exists|plans: Seq<DeliveryPlan>, steps: Seq<MessageRouter>|
                #![trigger advanced(plans, name_of(publisher), now, steps, r.progress)]
                planned(*old(self), *publish, name_of(publisher), now, plans, steps[0])
                    && advanced(plans, name_of(publisher), now, steps, r.progress) && steps.last()
                    == *final(self),
    {
        self.route_message_internal(publish, publisher, true, now)
    }

    /// Routes a publish message to local subscribers only, without forwarding to bridges.
    ///
    /// Used by bridge connections to prevent message loops when receiving messages
    /// from remote brokers.
    pub fn route_message_local_only(
        &mut self,
        publish: &PublishPacket,
        publisher: Option<&str>,
        now: u64,
    ) -> (r: RouteOutcome)
        requires
            old(self).wf(),
        ensures
            final(self).wf(),
            !r.forward,
            r.retained == (if publish.retain {
                Some(retained_event(*publish))
            } else {
                None
            }),
            exists|plans: Seq<DeliveryPlan>, steps: Seq<MessageRouter>|
                #![trigger advanced(plans, name_of(publisher), now, steps, r.progress)]
                planned(*old(self), *publish, name_of(publisher), now, plans, steps[0])
                    && advanced(plans, name_of(publisher), now, steps, r.progress) && steps.last()
                    == *final(self),
    {
        self.route_message_internal(publish, publisher, false, now)
    }
}

/// The share groups among subscriptions, in the order in which they first appear.
fn group_names_of(subs: &Vec<Subscription>) -> (r: Vec<String>)
    ensures
        subscriptions::texts(r@) == planning::groups(subs@),
{
    let mut out: Vec<String> = Vec::new();
    let mut i: usize = 0;
    assert(subs@.take(0) =~= Seq::<Subscription>::empty());
    assert(subscriptions::texts(out@) =~= Seq::<Seq<char>>::empty());
    while i < subs.len()
        invariant
            i <= subs@.len(),
            subscriptions::texts(out@) == planning::groups(subs@.take(i as int)),
        decreases subs@.len() - i,
    {
        assert(subs@.take(i + 1).drop_last() =~= subs@.take(i as int));
        if let Some(name) = &subs[i].share_group {
            let ghost before = out@;
            proof {
                assert(subscriptions::texts(before).contains(name@) <==> subscriptions::names(
                    before,
                    name@,
                )) by {
                    if subscriptions::texts(before).contains(name@) {
                        let k = choose|k: int|
                            0 <= k < subscriptions::texts(before).len()
                                && subscriptions::texts(before)[k] == name@;
                        assert(before[k]@ == name@);
                    }
                    if subscriptions::names(before, name@) {
                        let k = choose|k: int|
                            0 <= k < before.len() && (#[trigger] before[k])@ == name@;
                        assert(subscriptions::texts(before)[k] == name@);
                    }
                }
            }
            if !holds_name(&out, name.as_str()) {
                out.push(name.clone());
                assert(subscriptions::texts(out@) =~= subscriptions::texts(before).push(name@));
            }
        }
        i = i + 1;
    }
    assert(subs@.take(subs@.len() as int) =~= subs@);
    out
}

/// The members of a share group, in order.
fn members_of(subs: &Vec<Subscription>, group: &str) -> (r: Vec<Subscription>)
    ensures
        r@ == planning::members(subs@, group@),
{
    let mut out: Vec<Subscription> = Vec::new();
    let mut i: usize = 0;
    assert(subs@.take(0) =~= Seq::<Subscription>::empty());
    while i < subs.len()
        invariant
            i <= subs@.len(),
            out@ == planning::members(subs@.take(i as int), group@),
        decreases subs@.len() - i,
    {
        assert(subs@.take(i + 1).drop_last() =~= subs@.take(i as int));
        let belongs = match &subs[i].share_group {
            Some(name) => same_text(name.as_str(), group),
            None => false,
        };
        assert(belongs == planning::in_group(subs@[i as int], group@));
        if belongs {
            out.push(subs[i].clone());
        }
        i = i + 1;
    }
    assert(subs@.take(subs@.len() as int) =~= subs@);
    out
}

/// The subscriptions that do not share, in order.
fn regular_of(subs: &Vec<Subscription>) -> (r: Vec<Subscription>)
    ensures
        r@ == planning::regular(subs@),
{
    let mut out: Vec<Subscription> = Vec::new();
    let mut i: usize = 0;
    assert(subs@.take(0) =~= Seq::<Subscription>::empty());
    while i < subs.len()
        invariant
            i <= subs@.len(),
            out@ == planning::regular(subs@.take(i as int)),
        decreases subs@.len() - i,
    {
        assert(subs@.take(i + 1).drop_last() =~= subs@.take(i as int));
        if subs[i].share_group.is_none() {
            out.push(subs[i].clone());
        }
        i = i + 1;
    }
    assert(subs@.take(subs@.len() as int) =~= subs@);
    out
}

proof fn lemma_names_take(list: Seq<String>, j: int, c: Seq<char>)
    requires
        0 <= j < list.len(),
    ensures
        subscriptions::names(list.take(j + 1), c) <==> list[j]@ == c
            || subscriptions::names(list.take(j), c),
{
    if subscriptions::names(list.take(j + 1), c) {
        let a = choose|a: int|
            0 <= a < list.take(j + 1).len() && (#[trigger] list.take(j + 1)[a])@ == c;
        if a < j {
            assert(list.take(j)[a]@ == c);
        }
    }
    if subscriptions::names(list.take(j), c) {
        let a = choose|a: int| 0 <= a < list.take(j).len() && (#[trigger] list.take(j)[a])@ == c;
        assert(list.take(j + 1)[a]@ == c);
    }
    if list[j]@ == c {
        assert(list.take(j + 1)[j]@ == c);
    }
}

/// A message is in the gated lane of a connected client.
pub open spec fn in_gated_lane(
    router: MessageRouter,
    client_id: Seq<char>,
    message: RoutableMessage,
) -> bool {
    &&& router.clients().contains_key(client_id)
    &&& router.clients()[client_id].lanes.qos1.messages().contains(message)
}

proof fn lemma_lanes_keep(
    plans: Seq<DeliveryPlan>,
    publisher: Option<Seq<char>>,
    now: u64,
    steps: Seq<MessageRouter>,
    progress: RouteProgress,
    i: int,
    client_id: Seq<char>,
    message: RoutableMessage,
)
    requires
        advanced(plans, publisher, now, steps, progress),
        0 <= i < steps.len(),
        in_gated_lane(steps[i], client_id, message),
    ensures
        in_gated_lane(steps.last(), client_id, message),
    decreases steps.len() - i,
{
    if i + 1 < steps.len() {
        let plan = plans[i];
        let (id, sent, target_flow) = parts(plan);
        let routable = RoutableMessage { publish: sent, target_flow };
        let lane = steps[i].clients()[client_id].lanes.qos1.messages();
        vstd::seq_lib::lemma_seq_contains_after_push(lane, routable, message);
        assert(steps[i + 1].clients().contains_key(client_id));
        assert(in_gated_lane(steps[i + 1], client_id, message));
        lemma_lanes_keep(plans, publisher, now, steps, progress, i + 1, client_id, message);
    }
}

/// What became of a message for a subscriber when it was routed: it is in the gated lane of the
/// client, it waits for room there, it went to the client's queue, or it comes after one that waits.
pub open spec fn is_under_way(
    plans: Seq<DeliveryPlan>,
    steps: Seq<MessageRouter>,
    progress: RouteProgress,
    i: int,
    now: u64,
) -> bool {
    let (client_id, message, target_flow) = parts(plans[i]);
    let routable = RoutableMessage { publish: message, target_flow };
    let n = plans.len() - progress.rest@.len();
    if i >= n {
        progress.rest@[i - n] == plans[i]
    } else {
        ||| in_gated_lane(steps.last(), client_id@, routable)
        ||| progress.waiting matches Some(w) && w.client_id == client_id && w.message == routable
        ||| queued_behind(
            steps[i].queues(),
            steps[i + 1].queues(),
            client_id,
            message,
            target_flow,
            now,
        )
    }
}

/// Of the plans for a message with a quality of service above 0 none is lost: what was carried out
/// is under way, and what was not is left to do.
pub proof fn law_no_plan_is_lost(
    plans: Seq<DeliveryPlan>,
    publisher: Option<Seq<char>>,
    now: u64,
    steps: Seq<MessageRouter>,
    progress: RouteProgress,
    i: int,
)
    requires
        advanced(plans, publisher, now, steps, progress),
        0 <= i < plans.len(),
        parts(plans[i]).1.qos != QoS::AtMostOnce,
    ensures
        is_under_way(plans, steps, progress, i, now),
{
    let n = plans.len() - progress.rest@.len();
    let plan = plans[i];
    let (client_id, message, target_flow) = parts(plan);
    let routable = RoutableMessage { publish: message, target_flow };
    if i < n {
        let waiting = if i == n - 1 {
            progress.waiting
        } else {
            None
        };
        assert(carried_out(steps[i], plan, publisher, now, steps[i + 1], waiting));
        if way(steps[i], plan, publisher) is Gated {
            let lane = steps[i].clients()[client_id@].lanes.qos1.messages();
            vstd::seq_lib::lemma_seq_contains_after_push(lane, routable, routable);
            assert(in_gated_lane(steps[i + 1], client_id@, routable));
            lemma_lanes_keep(
                plans,
                publisher,
                now,
                steps,
                progress,
                i + 1,
                client_id@,
                routable,
            );
        }
    }
}

/// Carrying out what is left comes to an end: each time fewer plans are left.
pub proof fn law_routing_comes_to_an_end(
    plans: Seq<DeliveryPlan>,
    publisher: Option<Seq<char>>,
    now: u64,
    steps: Seq<MessageRouter>,
    progress: RouteProgress,
)
    requires
        advanced(plans, publisher, now, steps, progress),
        plans.len() > 0,
    ensures
        progress.rest@.len() < plans.len(),
{
}

/// A message that is routed reaches every matching subscriber that is owed it: there is a plan for
/// the subscriber, and where the message has a quality of service above 0 it is not lost.
pub proof fn law_routed_message_reaches_its_subscribers(
    before: MessageRouter,
    publish: PublishPacket,
    publisher: Option<Seq<char>>,
    now: u64,
    plans: Seq<DeliveryPlan>,
    steps: Seq<MessageRouter>,
    progress: RouteProgress,
    sub: Subscription,
)
    requires
        planned(before, publish, publisher, now, plans, steps[0]),
        advanced(plans, publisher, now, steps, progress),
        before.table().matches(publish.topic_name@).contains(sub),
        planning::is_owed(before.plan_env(publish, publisher, now), sub),
    ensures
        exists|i: int|
            0 <= i < plans.len() && {
                &&& parts(#[trigger] plans[i]).0 == sub.client_id
                &&& parts(plans[i]).1.topic_name == publish.topic_name
                &&& parts(plans[i]).1.payload == publish.payload
                &&& parts(plans[i]).2 == sub.flow_id
                &&& parts(plans[i]).1.qos != QoS::AtMostOnce ==> is_under_way(
                    plans,
                    steps,
                    progress,
                    i,
                    now,
                )
            },
{
    let env = before.plan_env(publish, publisher, now);
    let subs = before.table().matches(publish.topic_name@);
    let choices = planning::plan_all(env, before.plan_state(), subs).0;
    planning::law_message_goes_to_matching_subscribers(env, before.plan_state(), subs, sub);
    let i = choose|i: int|
        0 <= i < choices.len() && planning::subscriber(#[trigger] choices[i]) == sub;
    assert(plan_is(plans[i], choices[i], publish, before.clients()));
    if parts(plans[i]).1.qos != QoS::AtMostOnce {
        law_no_plan_is_lost(plans, publisher, now, steps, progress, i);
    }
}

/// No message goes to a client without a subscription that matches its topic.
pub proof fn law_message_reaches_subscribers_only(
    before: MessageRouter,
    publish: PublishPacket,
    publisher: Option<Seq<char>>,
    now: u64,
    plans: Seq<DeliveryPlan>,
    after: MessageRouter,
    i: int,
)
    requires
        planned(before, publish, publisher, now, plans, after),
        0 <= i < plans.len(),
    ensures
        exists|sub: Subscription| #[trigger]
            before.table().matches(publish.topic_name@).contains(sub) && sub.client_id == parts(
                plans[i],
            ).0,
{
    let env = before.plan_env(publish, publisher, now);
    let subs = before.table().matches(publish.topic_name@);
    let choices = planning::plan_all(env, before.plan_state(), subs).0;
    let sub = planning::subscriber(choices[i]);
    assert(plan_is(plans[i], choices[i], publish, before.clients()));
    assert(planning::is_chosen(choices, sub));
    planning::law_message_goes_to_matching_subscribers(env, before.plan_state(), subs, sub);
    assert(subs.contains(sub));
}

/// Messages to one client keep their order: one that comes while the client has a backlog goes
/// behind it.
pub proof fn law_message_goes_behind_the_backlog(
    router: MessageRouter,
    plan: DeliveryPlan,
    publisher: Option<Seq<char>>,
)
    requires
        router.queues()@[parts(plan).0@].queue().lags(),
        parts(plan).1.qos != QoS::AtMostOnce,
    ensures
        way(router, plan, publisher) is Queue,
{
}

/// Whatever a publisher's packet identifier was, no subscriber sees it: a message that goes to a
/// lane carries none, and neither does one that is queued.
pub proof fn law_deliveries_carry_no_identifier_of_the_publisher(
    plan: DeliveryPlan,
    choice: Choice,
    publish: PublishPacket,
    clients: Map<Seq<char>, ClientInfo>,
    now: u64,
)
    requires
        plan_is(plan, choice, publish, clients),
    ensures
        plan is Online ==> parts(plan).1.packet_id is None,
        queued_form(parts(plan).0, parts(plan).1, parts(plan).2, now).packet_id is None,
{
}

/// A registration displaces every earlier connection of the client: their handlers are fenced.
pub proof fn law_registration_fences_earlier_connections(
    before: MessageRouter,
    after: MessageRouter,
    client_id: String,
    lanes: DeliveryLanes,
    clean_start: bool,
    now: u64,
    r: Registration,
    generation: u64,
)
    requires
        before.wf(),
        after.registered(&before, client_id, lanes, clean_start, now, r),
        generation <= before.latest_generation(),
    ensures
        !is_current(after.clients(), Some(generation), client_id@),
        is_current(after.clients(), Some(r.generation), client_id@),
        MessageRouter::generations_go_on(before, after),
{
}

/// A connection that is no longer the current one of its client never is again, so that its handler
/// stays fenced.
pub proof fn law_ended_connection_stays_fenced(
    history: Seq<MessageRouter>,
    i: int,
    j: int,
    client_id: Seq<char>,
    generation: u64,
)
    requires
        forall|k: int|
            #![trigger history[k]]
            0 <= k < history.len() - 1 ==> MessageRouter::generations_go_on(
                history[k],
                history[k + 1],
            ),
        0 <= i <= j < history.len(),
        generation <= history[i].latest_generation(),
        !is_current(history[i].clients(), Some(generation), client_id),
    ensures
        generation <= history[j].latest_generation(),
        !is_current(history[j].clients(), Some(generation), client_id),
    decreases j - i,
{
    if i < j {
        law_ended_connection_stays_fenced(history, i, j - 1, client_id, generation);
        assert(MessageRouter::generations_go_on(history[j - 1], history[j - 1 + 1]));
    }
}

/// Delivering messages and ending connections gives no connection a number of its own.
pub proof fn law_deliveries_keep_the_connections(before: MessageRouter, after: MessageRouter)
    requires
        after.latest_generation() == before.latest_generation(),
        forall|c: Seq<char>| #[trigger]
            after.clients().contains_key(c) ==> before.clients().contains_key(c)
                && after.clients()[c].generation == before.clients()[c].generation,
    ensures
        MessageRouter::generations_go_on(before, after),
{
}

/// What a router retains is read back: a new subscriber whose filter matches the topic gets the
/// message exactly once, as long as it has not expired, and gets nothing else. Entry by entry, the
/// messages that come out are those of the topics found.
pub proof fn law_retained_message_is_read_back(
    router: MessageRouter,
    topic_filter: Seq<char>,
    now: u64,
    topic: Seq<char>,
)
    requires
        router.wf(),
    ensures
        ({
            let found = memory_backend::matching_retained(
                router.retained_list(),
                topic_filter,
                now,
            );
            let out = publications(router.retained_list(), topic_filter, now);
            let kept = router.retained();
            &&& out == found.map_values(|e: (Seq<char>, RetainedMessage)| e.1.publication())
            &&& crate::text_map::distinct_keys(found)
            &&& crate::text_map::as_map(found).contains_key(topic) <==> memory_backend::retained_for(
                kept,
                topic_filter,
                now,
                topic,
            )
            &&& memory_backend::retained_for(kept, topic_filter, now, topic) ==> found.contains(
                (topic, kept[topic]),
            )
        }),
{
    router.lemma_retained_list();
    memory_backend::law_lookup_gives_each_topic_once(
        router.retained_list(),
        topic_filter,
        now,
        topic,
    );
    lemma_publications(router.retained_list(), topic_filter, now);
}

proof fn lemma_publications(
    list: Seq<(Seq<char>, RetainedMessage)>,
    topic_filter: Seq<char>,
    now: u64,
)
    ensures
        publications(list, topic_filter, now) == memory_backend::matching_retained(
            list,
            topic_filter,
            now,
        ).map_values(|e: (Seq<char>, RetainedMessage)| e.1.publication()),
    decreases list.len(),
{
    let found = memory_backend::matching_retained(list, topic_filter, now);
    if list.len() > 0 {
        lemma_publications(list.drop_last(), topic_filter, now);
    }
    assert(publications(list, topic_filter, now) =~= found.map_values(
        |e: (Seq<char>, RetainedMessage)| e.1.publication(),
    ));
}

/// After a publish with the retain flag the topic has a retained message exactly where the payload
/// is not empty, and it is that publish; other topics keep theirs.
pub proof fn law_retained_message_is_the_last_publish(
    before: Map<Seq<char>, RetainedMessage>,
    publish: PublishPacket,
    now: u64,
    other: Seq<char>,
)
    requires
        publish.retain,
        other != publish.topic_name@,
    ensures
        ({
            let after = retained_after(before, publish, now);
            &&& after.contains_key(publish.topic_name@) <==> publish.payload@.len() > 0
            &&& after.contains_key(publish.topic_name@) ==> after[publish.topic_name@].packet
                == publish
            &&& after.contains_key(other) == before.contains_key(other)
            &&& after.contains_key(other) ==> after[other] == before[other]
        }),
{
}

/// A client that has subscribed gets the messages on every topic that its filter matches, in the name
/// of its group where it named one, and the group has its turns from then on. A handler that was
/// displaced changes nothing.
pub proof fn law_subscribed_client_is_matched(
    before: MessageRouter,
    after: MessageRouter,
    generation: Option<u64>,
    client_id: String,
    topic_filter: Seq<char>,
    options: SubscribeOptions,
    sub: Subscription,
    r: Subscribed,
    topic: Seq<char>,
)
    requires
        before.wf(),
        after.wf(),
        MessageRouter::describes(sub, client_id, topic_filter, options),
        after.subscribed_as(&before, generation, topic_filter, sub, r),
        !crate::topic::has_wildcard(topic),
        crate::topic::topic_matches(topic, crate::topic::unshared(topic_filter)),
    ensures
        sub.client_id == client_id,
        sub.qos == options.qos,
        sub.no_local == options.no_local,
        sub.retain_as_published == options.retain_as_published,
        sub.retain_handling == options.retain_handling,
        sub.subscription_id == options.subscription_id,
        sub.flow_id == options.flow_id,
        sub.change_only == options.change_only,
        sub.protocol_version == options.protocol_version,
        is_current(before.clients(), generation, client_id@) ==> {
            &&& after.table().matches(topic).contains(sub)
            &&& crate::topic::share_group(topic_filter) matches Some(group) ==> (
            sub.share_group is Some && sub.share_group->0@ == group
                && after.plan_state().turns.contains_key(group))
            &&& crate::topic::share_group(topic_filter) is None ==> sub.share_group is None
            &&& r == Subscribed::New || r == Subscribed::Updated
        },
        !is_current(before.clients(), generation, client_id@) ==> after == before && r
            == Subscribed::Fenced,
{
    before.lemma_table();
    after.lemma_table();
    if is_current(before.clients(), generation, client_id@) {
        let actual = crate::topic::unshared(topic_filter);
        let row = before.table().row(actual);
        before.table().lemma_lists();
        assert(subscriptions::one_per_slot(row));
        let other = Subscription {
            flow_id: Some(
                if sub.flow_id == Some(0u64) {
                    1u64
                } else {
                    0u64
                },
            ),
            ..sub
        };
        subscriptions::law_subscription_is_in_its_row(row, sub, other);
        assert(after.table().row(actual).contains(sub));
        subscriptions::law_message_reaches_matching_filters(after.table(), topic, sub);
    }
}

/// A client that has unsubscribed from a filter is not in its row any more, and everybody else is as
/// before.
pub proof fn law_unsubscribed_client_is_gone(
    before: MessageRouter,
    after: MessageRouter,
    generation: Option<u64>,
    client_id: Seq<char>,
    topic_filter: Seq<char>,
    flow_id: Option<u64>,
    r: Unsubscribed,
    filter: Seq<char>,
)
    requires
        after.unsubscribed_as(&before, generation, client_id, topic_filter, flow_id, r),
        is_current(before.clients(), generation, client_id),
        filter != crate::topic::unshared(topic_filter),
    ensures
        ({
            let actual = crate::topic::unshared(topic_filter);
            &&& after.table().row(actual) == before.table().row(actual).filter(
                |s: Subscription| s.client_id@ != client_id || s.flow_id != flow_id,
            )
            &&& after.table().row(filter) == before.table().row(filter)
            &&& r == Unsubscribed::Removed <==> after.table().row(actual).len()
                < before.table().row(actual).len()
        }),
{
    let actual = crate::topic::unshared(topic_filter);
    let nothing = Removal { clients: arbitrary(), flow: None };
    subscriptions::law_removing_leaves_the_others(
        before.table().row(actual),
        client_id,
        flow_id,
        nothing,
    );
}

/// A connection that begins anew has no subscription of an earlier one; one that does not keeps them
/// all. The same holds of a connection that ends and of its session.
pub proof fn law_session_keeps_its_subscriptions(
    before: MessageRouter,
    after: MessageRouter,
    client_id: String,
    lanes: DeliveryLanes,
    clean_start: bool,
    now: u64,
    r: Registration,
    filter: Seq<char>,
)
    requires
        after.registered(&before, client_id, lanes, clean_start, now, r),
    ensures
        ({
            let id = client_id@;
            after.table().row(filter) == (if clean_start {
                before.table().row(filter).filter(|s: Subscription| s.client_id@ != id)
            } else {
                before.table().row(filter)
            })
        }),
        after.clients().contains_key(client_id@),
        after.clients()[client_id@].lanes == lanes,
        r.generation > before.latest_generation(),
{
    let nothing = Removal { clients: arbitrary(), flow: None };
    subscriptions::law_removing_leaves_the_others(
        before.table().row(filter),
        client_id@,
        None,
        nothing,
    );
}

/// A connection that ends takes its subscriptions with it unless its session is kept, and the client
/// is not connected any more; other clients are.
pub proof fn law_parting_client_leaves_its_session(
    before: MessageRouter,
    after: MessageRouter,
    client_id: Seq<char>,
    preserve_session: bool,
    filter: Seq<char>,
    other: Seq<char>,
)
    requires
        after.parted(&before, client_id, preserve_session),
        other != client_id,
    ensures
        after.table().row(filter) == (if preserve_session {
            before.table().row(filter)
        } else {
            before.table().row(filter).filter(|s: Subscription| s.client_id@ != client_id)
        }),
        !after.clients().contains_key(client_id),
        after.clients().contains_key(other) == before.clients().contains_key(other),
        before.clients().contains_key(other) ==> after.clients()[other] == before.clients()[other],
        after.queues().entries_of(client_id) == before.queues().entries_of(client_id),
{
    let nothing = Removal { clients: arbitrary(), flow: None };
    subscriptions::law_removing_leaves_the_others(
        before.table().row(filter),
        client_id,
        None,
        nothing,
    );
}

/// While a displaced connection has not handed its deliveries back, messages for the client are
/// queued, so that they do not overtake what is handed back.
pub proof fn law_messages_wait_for_the_hand_off(
    before: MessageRouter,
    after: MessageRouter,
    client_id: String,
    lanes: DeliveryLanes,
    clean_start: bool,
    now: u64,
    r: Registration,
    plan: DeliveryPlan,
    publisher: Option<Seq<char>>,
)
    requires
        after.registered(&before, client_id, lanes, clean_start, now, r),
        before.clients().contains_key(client_id@),
        before.clients()[client_id@].listening,
        before.queues().control_of(client_id@).open_handoffs < usize::MAX,
        parts(plan).0@ == client_id@,
        parts(plan).1.qos != QoS::AtMostOnce,
    ensures
        way(after, plan, publisher) is Queue,
        r.notice is Some && r.notice->0.client_id == client_id && r.notice->0.generation
            == before.clients()[client_id@].generation,
{
}

/// What becomes of a message for a connected client: with quality of service 0 it goes into its lane,
/// or is dropped where the lane is full. With a higher one it is never dropped: it goes into its lane
/// where there is room and no backlog, waits for room where there is none, unless the client waits
/// for itself, and is queued otherwise.
pub proof fn law_way_of_a_message(
    router: MessageRouter,
    client_id: String,
    generation: u64,
    message: PublishPacket,
    target_flow: Option<u64>,
    publisher: Option<Seq<char>>,
)
    requires
        router.clients().contains_key(client_id@),
        router.clients()[client_id@].generation == generation,
    ensures
        ({
            let lanes = router.clients()[client_id@].lanes;
            let queue = router.queues()@[client_id@].queue();
            let taken = way(
                router,
                DeliveryPlan::Online { client_id, generation, message, target_flow },
                publisher,
            );
            let backlog = queue.queued().len() > 0 || queue.unfinished_batch()
                || queue.open_handoffs() > 0;
            if message.qos == QoS::AtMostOnce {
                if !lanes.qos0.shut() && lanes.qos0.messages().len() < lanes.qos0.room() {
                    taken is Ungated
                } else {
                    taken is Drop
                }
            } else if backlog || lanes.qos1.shut() {
                taken is Queue
            } else if lanes.qos1.messages().len() < lanes.qos1.room() {
                taken is Gated
            } else if publisher == Some(client_id@) {
                taken is Queue
            } else {
                taken is Wait
            }
        }),
        way(router, DeliveryPlan::Behind { client_id, message, target_flow }, publisher) is Queue,
{
}

/// A message that is carried out along its way arrives: it is the last in its lane, or it is the last
/// in the queue as long as that is within its limits, with its topic, payload and flow. No other
/// client's lane or queue changes.
pub proof fn law_message_arrives(
    before: MessageRouter,
    plan: DeliveryPlan,
    publisher: Option<Seq<char>>,
    now: u64,
    after: MessageRouter,
    waiting: Option<Waiting>,
    other: Seq<char>,
)
    requires
        carried_out(before, plan, publisher, now, after, waiting),
        other != parts(plan).0@,
    ensures
        ({
            let id = parts(plan).0@;
            let message = parts(plan).1;
            let lanes = after.clients()[id].lanes;
            let entries = after.queues().entries_of(id);
            let earlier = before.queues().entries_of(id);
            let entry = QueueEntry::of(
                before.queues().counter(),
                queued_form(parts(plan).0, message, parts(plan).2, now),
            );
            &&& way(before, plan, publisher) is Ungated ==> lanes.qos0.messages().len() > 0
                && lanes.qos0.messages().last().publish == message
                && lanes.qos0.messages().last().target_flow == parts(plan).2
                && lanes.qos0.messages().drop_last() == before.clients()[id].lanes.qos0.messages()
            &&& way(before, plan, publisher) is Gated ==> lanes.qos1.messages().len() > 0
                && lanes.qos1.messages().last().publish == message
                && lanes.qos1.messages().last().target_flow == parts(plan).2
                && lanes.qos1.messages().drop_last() == before.clients()[id].lanes.qos1.messages()
            &&& way(before, plan, publisher) is Queue && earlier.len() + 1
                <= before.queues().bounds().max_messages && client_queue::total_bytes(
                earlier.push(entry),
            ) <= before.queues().bounds().max_bytes ==> entries.len() == earlier.len() + 1
                && entries.drop_last() == earlier && entries.last().body is Some
                && entries.last().body->0.topic == message.topic_name
                && entries.last().body->0.payload == message.payload
                && entries.last().body->0.qos == message.qos
                && entries.last().body->0.retain == message.retain
                && entries.last().body->0.message_expiry_interval
                == message.properties.message_expiry_interval
                && entries.last().body->0.queued_at == now
                && entries.last().body->0.target_flow == parts(plan).2
            &&& way(before, plan, publisher) is Wait ==> waiting is Some
                && waiting->0.client_id@ == id && waiting->0.message.publish == message
            &&& after.clients()[other] == before.clients()[other]
            &&& after.queues().entries_of(other) == before.queues().entries_of(other)
        }),
{
    let id = parts(plan).0@;
    let message = parts(plan).1;
    let routable = RoutableMessage { publish: message, target_flow: parts(plan).2 };
    let earlier = before.queues().entries_of(id);
    let entry = QueueEntry::of(
        before.queues().counter(),
        queued_form(parts(plan).0, message, parts(plan).2, now),
    );
    match way(before, plan, publisher) {
        Way::Queue => {
            let all = earlier.push(entry);
            client_queue::law_queue_stays_within_its_limits(all, before.queues().bounds());
            assert(all.skip(0) =~= all);
            assert(all.drop_last() =~= earlier);
        },
        Way::Ungated => {
            assert(after.clients()[id].lanes.qos0.messages().drop_last()
                =~= before.clients()[id].lanes.qos0.messages());
        },
        Way::Gated => {
            assert(after.clients()[id].lanes.qos1.messages().drop_last()
                =~= before.clients()[id].lanes.qos1.messages());
        },
        _ => {},
    }
}

/// The plan for a subscriber is for its client and flow and carries the topic and the payload of what
/// was published. A message for a share group none of whose members is connected is queued as it was
/// published, with the quality of service of the member's subscription.
pub proof fn law_plan_carries_what_was_published(
    plan: DeliveryPlan,
    choice: Choice,
    publish: PublishPacket,
    clients: Map<Seq<char>, ClientInfo>,
)
    requires
        plan_is(plan, choice, publish, clients),
    ensures
        parts(plan).0 == planning::subscriber(choice).client_id,
        parts(plan).1.topic_name == publish.topic_name,
        parts(plan).1.payload == publish.payload,
        parts(plan).2 == planning::subscriber(choice).flow_id,
        choice is Online <==> plan is Online,
        choice matches Choice::Forward(sub) ==> parts(plan).1.qos == sub.qos && parts(
            plan,
        ).1.properties == publish.properties,
        choice matches Choice::Online(_, qos) ==> parts(plan).1.qos == qos,
        choice matches Choice::Behind(_, qos) ==> parts(plan).1.qos == qos,
{
}

/// A share group gets each message that is routed: where messages are kept and the subscriptions of
/// its members want acknowledged ones, exactly one plan is made for the group. It is for the
/// connection of a member where one is connected, and otherwise queues the message for a member.
pub proof fn law_routed_message_reaches_each_share_group(
    before: MessageRouter,
    publish: PublishPacket,
    publisher: Option<Seq<char>>,
    now: u64,
    plans: Seq<DeliveryPlan>,
    after: MessageRouter,
    group: Seq<char>,
    any_online: bool,
)
    requires
        planned(before, publish, publisher, now, plans, after),
        before.persistent(),
        before.max_rate() == 0,
        ({
            let subs = before.table().matches(publish.topic_name@);
            let env = before.plan_env(publish, publisher, now);
            &&& exists|k: int| 0 <= k < subs.len() && planning::shares_in(#[trigger] subs[k], group)
            &&& any_online <==> exists|k: int|
                0 <= k < subs.len() && planning::shares_in(#[trigger] subs[k], group)
                    && before.clients().contains_key(subs[k].client_id@)
            &&& any_online ==> before.plan_state().turns.contains_key(group)
            &&& forall|k: int|
                0 <= k < subs.len() && planning::shares_in(#[trigger] subs[k], group)
                    ==> planning::is_welcome(env, subs[k]) && !subs[k].change_only && subs[k].qos
                    != QoS::AtMostOnce
        }),
    ensures
        exists|i: int, sub: Subscription|
            0 <= i < plans.len() && #[trigger] before.table().matches(
                publish.topic_name@,
            ).contains(sub) && planning::shares_in(sub, group) && parts(#[trigger] plans[i]).0
                == sub.client_id && parts(plans[i]).1.topic_name == publish.topic_name && parts(
                plans[i],
            ).1.payload == publish.payload && (if any_online {
                plans[i] is Online && before.clients().contains_key(sub.client_id@)
            } else {
                plans[i] is Behind
            }),
{
    let env = before.plan_env(publish, publisher, now);
    let st = before.plan_state();
    let subs = before.table().matches(publish.topic_name@);
    assert forall|c: Seq<char>| #[trigger] env.online.contains(c)
        <==> before.clients().contains_key(c) by {}
    planning::law_share_group_gets_each_message(env, st, subs, group, any_online);
    let c = planning::plan_all(env, st, subs).0;
    let i = choose|i: int|
        0 <= i < c.len() && planning::shares_in(planning::subscriber(#[trigger] c[i]), group)
            && subs.contains(planning::subscriber(c[i])) && planning::serves_group(
            env,
            c[i],
            any_online,
        );
    assert(plan_is(plans[i], c[i], publish, before.clients()));
    assert(subs.contains(planning::subscriber(c[i])));
}

/// Retained messages that were stored are all taken over, the last of several for a topic, and a topic
/// for which none was stored keeps its own.
pub proof fn law_stored_messages_are_taken_over(
    before: Map<Seq<char>, RetainedMessage>,
    stored: Seq<(String, RetainedMessage)>,
    i: int,
    topic: Seq<char>,
)
    requires
        0 <= i < stored.len(),
        forall|j: int| i < j < stored.len() ==> (#[trigger] stored[j]).0@ != stored[i].0@,
    ensures
        loaded(before, stored).contains_key(stored[i].0@),
        loaded(before, stored)[stored[i].0@] == stored[i].1,
        (forall|j: int| 0 <= j < stored.len() ==> (#[trigger] stored[j]).0@ != topic) ==> loaded(
            before,
            stored,
        ).contains_key(topic) == before.contains_key(topic) && (before.contains_key(topic)
            ==> loaded(before, stored)[topic] == before[topic]),
    decreases stored.len(),
{
    let init = stored.drop_last();
    if i < init.len() {
        assert forall|j: int| i < j < init.len() implies (#[trigger] init[j]).0@ != init[i].0@ by {
            assert(init[j] == stored[j]);
        }
        law_stored_messages_are_taken_over(before, init, i, topic);
        assert(stored[stored.len() - 1].0@ != stored[i].0@);
        assert(init[i] == stored[i]);
    } else if init.len() > 0 {
        lemma_loaded_others(before, init, topic);
    }
    if forall|j: int| 0 <= j < stored.len() ==> (#[trigger] stored[j]).0@ != topic {
        assert forall|j: int| 0 <= j < init.len() implies (#[trigger] init[j]).0@ != topic by {
            assert(init[j] == stored[j]);
        }
        lemma_loaded_others(before, init, topic);
        assert(stored[stored.len() - 1].0@ != topic);
    }
}

proof fn lemma_loaded_others(
    before: Map<Seq<char>, RetainedMessage>,
    stored: Seq<(String, RetainedMessage)>,
    topic: Seq<char>,
)
    ensures
        (forall|j: int| 0 <= j < stored.len() ==> (#[trigger] stored[j]).0@ != topic) ==> loaded(
            before,
            stored,
        ).contains_key(topic) == before.contains_key(topic) && (before.contains_key(topic)
            ==> loaded(before, stored)[topic] == before[topic]),
    decreases stored.len(),
{
    if stored.len() > 0 && forall|j: int|
        0 <= j < stored.len() ==> (#[trigger] stored[j]).0@ != topic {
        let init = stored.drop_last();
        assert forall|j: int| 0 <= j < init.len() implies (#[trigger] init[j]).0@ != topic by {
            assert(init[j] == stored[j]);
        }
        lemma_loaded_others(before, init, topic);
        assert(stored[stored.len() - 1].0@ != topic);
    }
}

/// Only a client without a connection and without a live session is stale, and where sessions are not
/// kept every client with subscriptions but without a connection is.
pub proof fn law_stale_clients(
    router: MessageRouter,
    live_sessions: Seq<String>,
    client_id: Seq<char>,
    filter: Seq<char>,
)
    ensures
        is_stale(router, live_sessions, client_id) ==> !router.clients().contains_key(client_id)
            && exists|f: Seq<char>, i: int|
            0 <= i < router.table().row(f).len() && (#[trigger] router.table().row(
                f,
            )[i]).client_id@ == client_id,
        is_stale(router, live_sessions, client_id) && router.persistent() ==> forall|i: int|
            0 <= i < live_sessions.len() ==> (#[trigger] live_sessions[i])@ != client_id,
        (exists|i: int|
            0 <= i < router.table().row(filter).len() && (#[trigger] router.table().row(
                filter,
            )[i]).client_id@ == client_id) && !router.clients().contains_key(client_id) && (
        !router.persistent() || forall|i: int|
            0 <= i < live_sessions.len() ==> (#[trigger] live_sessions[i])@ != client_id)
            ==> is_stale(router, live_sessions, client_id),
{
    if is_stale(router, live_sessions, client_id) {
        let f = choose|f: Seq<char>| #[trigger]
            subscriptions::subscribes(router.table().row(f), client_id);
        let i = choose|i: int|
            0 <= i < router.table().row(f).len() && (#[trigger] router.table().row(
                f,
            )[i]).client_id@ == client_id;
        assert(router.table().row(f)[i].client_id@ == client_id);
        if router.persistent() {
            assert forall|k: int| 0 <= k < live_sessions.len() implies (
            #[trigger] live_sessions[k])@ != client_id by {
                if live_sessions[k]@ == client_id {
                    assert(subscriptions::names(live_sessions, client_id));
                }
            }
        }
    }
    if exists|i: int|
        0 <= i < router.table().row(filter).len() && (#[trigger] router.table().row(
            filter,
        )[i]).client_id@ == client_id {
        assert(subscriptions::subscribes(router.table().row(filter), client_id));
    }
}

/// An idle queue in memory may go, any other stays: nothing that is queued for a client, and no work
/// that is still to be done, is lost with it.
pub proof fn law_busy_queue_survives(router: MessageRouter, client_id: Seq<char>)
    requires
        router.queues()@.contains_key(client_id),
    ensures
        router.queues()@[client_id].queue().queued().len() > 0 ==> survives_eviction(
            router.queues(),
            client_id,
        ),
        router.queues()@[client_id].holders() > 0 ==> survives_eviction(
            router.queues(),
            client_id,
        ),
        survives_eviction(router.queues(), client_id) ==> work_kept(router, client_id)
            == router.queues()@[client_id].queue().work() && control_kept(router, client_id)
            == router.queues().control_of(client_id),
        router.persistent() ==> work_kept(router, client_id)
            == router.queues()@[client_id].queue().work(),
{
}

/// A queue that is cleared is empty, and the file of every message that was in it is to be deleted.
pub proof fn law_cleared_queue_is_empty(
    entries: Seq<QueueEntry>,
    work: Seq<QueueOp>,
    queue: ClientQueue,
    i: int,
)
    requires
        queue_emptied(entries, Some(work), queue),
        0 <= i < entries.len(),
    ensures
        queue.queued().len() == 0,
        queue.work() is Some,
        queue.work()->0.len() == work.len() + entries.len(),
        queue.work()->0.take(work.len() as int) == work,
        queue.work()->0[work.len() + i] == (QueueOp::Delete {
            client_id: queue.id(),
            seq: entries[i].seq,
        }),
{
    assert(queue.work()->0.take(work.len() as int) =~= work);
}

/// The event of a retained publish tells its topic and payload, and that an empty payload clears.
pub proof fn law_retained_event_tells_the_publish(publish: PublishPacket)
    ensures
        retained_event(publish).topic == publish.topic_name,
        retained_event(publish).payload == publish.payload,
        retained_event(publish).qos == publish.qos,
        retained_event(publish).cleared <==> publish.payload@.len() == 0,
{
}

/// Planning sees the broker as it is: the clients that are connected, those with a backlog, and the
/// limits that are set.
pub proof fn law_planning_sees_the_broker(
    router: MessageRouter,
    publish: PublishPacket,
    publisher: Option<Seq<char>>,
    now: u64,
    client_id: Seq<char>,
)
    ensures
        ({
            let env = router.plan_env(publish, publisher, now);
            &&& env.online.contains(client_id) <==> router.clients().contains_key(client_id)
            &&& env.behind.contains(client_id) <==> router.queues()@.contains_key(client_id) && (
            router.queues()@[client_id].queue().queued().len() > 0
                || router.queues()@[client_id].queue().unfinished_batch()
                || router.queues()@[client_id].queue().open_handoffs() > 0)
            &&& env.persistent == router.persistent()
            &&& env.max_rate == router.max_rate()
            &&& env.now == now
            &&& env.publisher == publisher
            &&& env.publish == publish
        }),
{
    let env = router.plan_env(publish, publisher, now);
    if router.queues()@.contains_key(client_id) {
        client_queue::law_backlog(router.queues()@[client_id].queue());
    }
    assert(env.online.contains(client_id) <==> router.clients().contains_key(client_id));
}

/// A client whose connection has ended begins with a new rate window, and without a session it has no
/// subscription left; retained messages and the turns of share groups stay.
pub proof fn law_parting_client_is_forgotten(
    before: MessageRouter,
    after: MessageRouter,
    client_id: Seq<char>,
    preserve_session: bool,
    other: Seq<char>,
)
    requires
        after.parted(&before, client_id, preserve_session),
        other != client_id,
    ensures
        !after.plan_state().rates.contains_key(client_id),
        after.plan_state().rates.contains_key(other) == before.plan_state().rates.contains_key(
            other,
        ),
        !preserve_session ==> after.table().owned(client_id) == 0,
        preserve_session ==> after.table().owned(client_id) == before.table().owned(client_id),
        after.plan_state().turns == before.plan_state().turns,
        after.retained() == before.retained(),
{
}

/// A message that is planned for counts for the messages after it: the rates, the turns and the payloads
/// seen last are those that planning leaves. A retained message takes the place of the one before, and
/// nothing else of the broker changes.
pub proof fn law_planned_message_counts(
    before: MessageRouter,
    publish: PublishPacket,
    publisher: Option<Seq<char>>,
    now: u64,
    plans: Seq<DeliveryPlan>,
    after: MessageRouter,
    topic: Seq<char>,
)
    requires
        planned(before, publish, publisher, now, plans, after),
        topic != publish.topic_name@,
    ensures
        ({
            let all = planning::plan_all(
                before.plan_env(publish, publisher, now),
                before.plan_state(),
                before.table().matches(publish.topic_name@),
            );
            &&& plans.len() == all.0.len()
            &&& after.plan_state() == all.1
        }),
        publish.retain && publish.payload@.len() > 0 ==> after.retained().contains_key(
            publish.topic_name@,
        ) && after.retained()[publish.topic_name@].packet == publish,
        publish.retain && publish.payload@.len() == 0 ==> !after.retained().contains_key(
            publish.topic_name@,
        ),
        !publish.retain ==> after.retained() == before.retained(),
        after.retained().contains_key(topic) == before.retained().contains_key(topic),
        after.table() == before.table(),
        after.clients() == before.clients(),
        after.queues() == before.queues(),
{
}

} // verus!
