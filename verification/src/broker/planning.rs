//! Which subscribers a message goes to, and by which way.
//!
//! The rules stand here as mathematics; the router carries them out.

use crate::broker::delivery::OutboundRateState;
use crate::broker::subscriptions::Subscription;
use crate::types::{Properties, PublishPacket, QoS};
use vstd::prelude::*;

verus! {

/// How a message goes to a subscriber.
pub enum Choice {
    /// To the delivery lanes of a connected client.
    Online(Subscription, QoS),
    /// To the client's queue.
    Behind(Subscription, QoS),
    /// To the queue of the first member of a share group that is wholly offline, as published.
    Forward(Subscription),
}

/// What planning reads and does not change.
pub struct PlanEnv {
    pub online: Set<Seq<char>>,
    pub behind: Set<Seq<char>>,
    pub persistent: bool,
    pub echo_key: Option<Seq<char>>,
    pub max_rate: u32,
    pub now: u64,
    pub publisher: Option<Seq<char>>,
    pub publish: PublishPacket,
}

/// What planning changes: the rate windows, the turns of the share groups and the payloads that
/// change-only subscribers saw last.
pub struct PlanState {
    pub rates: Map<Seq<char>, OutboundRateState>,
    pub turns: Map<Seq<char>, usize>,
    pub seen: Map<Seq<char>, Map<Seq<char>, Seq<u8>>>,
}

/// The value of the first user property with this key.
pub open spec fn first_value(properties: Seq<(String, String)>, key: Seq<char>) -> Option<Seq<char>>
    decreases properties.len(),
{
    if properties.len() == 0 {
        None
    } else if properties[0].0@ == key {
        Some(properties[0].1@)
    } else {
        first_value(properties.drop_first(), key)
    }
}

/// The client published the message itself and does not want to hear it.
pub open spec fn is_local(env: PlanEnv, sub: Subscription) -> bool {
    sub.no_local && env.publisher == Some(sub.client_id@)
}

/// The message carries the client's name as its origin.
pub open spec fn is_echo(env: PlanEnv, sub: Subscription) -> bool {
    env.echo_key matches Some(key) && first_value(env.publish.properties.user_properties@, key)
        == Some(sub.client_id@)
}

/// The subscription wants changes only and the payload is the one the client saw last.
pub open spec fn is_unchanged(env: PlanEnv, st: PlanState, sub: Subscription) -> bool {
    let topic = env.publish.topic_name@;
    let id = sub.client_id@;
    &&& sub.change_only
    &&& st.seen.contains_key(id)
    &&& st.seen[id].contains_key(topic)
    &&& st.seen[id][topic] == env.publish.payload@
}

/// The message is not for this subscriber at all.
pub open spec fn is_skipped(env: PlanEnv, st: PlanState, sub: Subscription) -> bool {
    is_local(env, sub) || is_echo(env, sub) || is_unchanged(env, st, sub)
}

/// The client has had as many messages as its rate allows.
pub open spec fn is_over_rate(env: PlanEnv, st: PlanState, sub: Subscription) -> bool {
    let id = sub.client_id@;
    &&& env.max_rate > 0
    &&& st.rates.contains_key(id)
    &&& !st.rates[id].admits(env.max_rate, env.now)
}

/// What becomes of the message for one subscriber.
pub open spec fn decide(env: PlanEnv, st: PlanState, sub: Subscription) -> Option<Choice> {
    let qos = env.publish.qos.lower(sub.qos);
    if is_skipped(env, st, sub) {
        None
    } else if is_over_rate(env, st, sub) {
        if qos == QoS::AtMostOnce || !env.persistent {
            None
        } else {
            Some(Choice::Behind(sub, qos))
        }
    } else if env.online.contains(sub.client_id@) {
        Some(Choice::Online(sub, qos))
    } else if sub.qos == QoS::AtMostOnce || !env.persistent {
        None
    } else {
        Some(Choice::Behind(sub, sub.qos))
    }
}

/// What the state is afterwards.
pub open spec fn step(env: PlanEnv, st: PlanState, sub: Subscription) -> PlanState {
    let id = sub.client_id@;
    if is_skipped(env, st, sub) {
        st
    } else {
        let rates = if env.max_rate > 0 && st.rates.contains_key(id) {
            st.rates.insert(id, st.rates[id].next(env.max_rate, env.now))
        } else {
            st.rates
        };
        let seen = if sub.change_only && !is_over_rate(env, st, sub) && env.online.contains(id) {
            let before = if st.seen.contains_key(id) {
                st.seen[id]
            } else {
                Map::empty()
            };
            st.seen.insert(id, before.insert(env.publish.topic_name@, env.publish.payload@))
        } else {
            st.seen
        };
        PlanState { rates, turns: st.turns, seen }
    }
}

/// The choices for a list of subscribers, one after the other, and the state afterwards.
pub open spec fn plan_each(env: PlanEnv, st: PlanState, subs: Seq<Subscription>) -> (
    Seq<Choice>,
    PlanState,
)
    decreases subs.len(),
{
    if subs.len() == 0 {
        (Seq::empty(), st)
    } else {
        let before = plan_each(env, st, subs.drop_last());
        let choices = match decide(env, before.1, subs.last()) {
            Some(choice) => before.0.push(choice),
            None => before.0,
        };
        (choices, step(env, before.1, subs.last()))
    }
}

/// The subscriptions that do not share, in order.
pub open spec fn regular(subs: Seq<Subscription>) -> Seq<Subscription>
    decreases subs.len(),
{
    if subs.len() == 0 {
        Seq::empty()
    } else if subs.last().share_group is None {
        regular(subs.drop_last()).push(subs.last())
    } else {
        regular(subs.drop_last())
    }
}

/// Whether a subscription belongs to a share group.
pub open spec fn in_group(sub: Subscription, group: Seq<char>) -> bool {
    sub.share_group matches Some(name) && name@ == group
}

/// The members of a share group, in order.
pub open spec fn members(subs: Seq<Subscription>, group: Seq<char>) -> Seq<Subscription>
    decreases subs.len(),
{
    if subs.len() == 0 {
        Seq::empty()
    } else if in_group(subs.last(), group) {
        members(subs.drop_last(), group).push(subs.last())
    } else {
        members(subs.drop_last(), group)
    }
}

/// The share groups among subscriptions, in the order in which they first appear.
pub open spec fn groups(subs: Seq<Subscription>) -> Seq<Seq<char>>
    decreases subs.len(),
{
    if subs.len() == 0 {
        Seq::empty()
    } else {
        let before = groups(subs.drop_last());
        match subs.last().share_group {
            Some(name) => if before.contains(name@) {
                before
            } else {
                before.push(name@)
            },
            None => before,
        }
    }
}

/// The members of a group that are connected, in order.
pub open spec fn online_of(env: PlanEnv, subs: Seq<Subscription>) -> Seq<Subscription>
    decreases subs.len(),
{
    if subs.len() == 0 {
        Seq::empty()
    } else if env.online.contains(subs.last().client_id@) {
        online_of(env, subs.drop_last()).push(subs.last())
    } else {
        online_of(env, subs.drop_last())
    }
}

/// The member whose turn it is, counted from `start` on: the first that is not behind, or the one
/// at `start` where all are.
pub open spec fn turn(env: PlanEnv, online: Seq<Subscription>, start: int, offset: int) -> int
    decreases online.len() - offset,
{
    if offset >= online.len() || offset < 0 {
        start
    } else {
        let at = (start + offset) % online.len() as int;
        if env.behind.contains(online[at].client_id@) {
            turn(env, online, start, offset + 1)
        } else {
            at
        }
    }
}

/// The choice for one share group and the state afterwards.
pub open spec fn plan_group(
    env: PlanEnv,
    st: PlanState,
    group: Seq<char>,
    subs: Seq<Subscription>,
) -> (Option<Choice>, PlanState) {
    let online = online_of(env, subs);
    if online.len() > 0 {
        if st.turns.contains_key(group) {
            let count = st.turns[group];
            let next = PlanState {
                turns: st.turns.insert(
                    group,
                    if count < usize::MAX {
                        (count + 1) as usize
                    } else {
                        0
                    },
                ),
                ..st
            };
            let sub = online[turn(env, online, count as int % online.len() as int, 0)];
            (decide(env, next, sub), step(env, next, sub))
        } else {
            (None, st)
        }
    } else if subs.len() > 0 && env.persistent && subs[0].qos != QoS::AtMostOnce {
        (Some(Choice::Forward(subs[0])), st)
    } else {
        (None, st)
    }
}

/// The choices for the share groups, one after the other, and the state afterwards.
pub open spec fn plan_groups(
    env: PlanEnv,
    st: PlanState,
    names: Seq<Seq<char>>,
    subs: Seq<Subscription>,
) -> (Seq<Choice>, PlanState)
    decreases names.len(),
{
    if names.len() == 0 {
        (Seq::empty(), st)
    } else {
        let before = plan_groups(env, st, names.drop_last(), subs);
        let one = plan_group(env, before.1, names.last(), members(subs, names.last()));
        match one.0 {
            Some(choice) => (before.0.push(choice), one.1),
            None => (before.0, one.1),
        }
    }
}

/// The choices for all matching subscriptions, and the state afterwards: one subscriber of each
/// share group, then every subscriber that does not share.
pub open spec fn plan_all(env: PlanEnv, st: PlanState, subs: Seq<Subscription>) -> (
    Seq<Choice>,
    PlanState,
) {
    let shared = plan_groups(env, st, groups(subs), subs);
    let rest = plan_each(env, shared.1, regular(subs));
    (shared.0 + rest.0, rest.1)
}

/// The subscription that a choice is for.
pub open spec fn subscriber(choice: Choice) -> Subscription {
    match choice {
        Choice::Online(sub, _) => sub,
        Choice::Behind(sub, _) => sub,
        Choice::Forward(sub) => sub,
    }
}

/// The message as one subscriber gets it: no identifier of the publisher, not a duplicate, the
/// retain flag only where the subscriber asked to keep it, the subscriber's version and
/// subscription identifier.
pub open spec fn is_prepared(
    message: PublishPacket,
    publish: PublishPacket,
    sub: Subscription,
    qos: QoS,
) -> bool {
    &&& message.topic_name == publish.topic_name
    &&& message.payload == publish.payload
    &&& message.packet_id is None
    &&& message.qos == qos
    &&& !message.dup
    &&& message.protocol_version == sub.protocol_version.number()
    &&& message.retain == (publish.retain && sub.retain_as_published)
    &&& match sub.subscription_id {
        Some(id) => {
            &&& message.properties.subscription_identifiers@ == seq![id]
            &&& message.properties == Properties {
                subscription_identifiers: message.properties.subscription_identifiers,
                ..publish.properties
            }
        },
        None => message.properties == publish.properties,
    }
}

/// A message is never sent back to the client that published it where that client's subscription
/// is marked No Local.
pub proof fn law_no_local_is_never_delivered(env: PlanEnv, st: PlanState, sub: Subscription)
    requires
        sub.no_local,
        env.publisher == Some(sub.client_id@),
    ensures
        decide(env, st, sub) is None,
        step(env, st, sub) == st,
{
}

/// A message whose origin property names the subscriber is never sent to it.
pub proof fn law_echo_is_suppressed(
    env: PlanEnv,
    st: PlanState,
    sub: Subscription,
    key: Seq<char>,
)
    requires
        env.echo_key == Some(key),
        first_value(env.publish.properties.user_properties@, key) == Some(sub.client_id@),
    ensures
        decide(env, st, sub) is None,
        step(env, st, sub) == st,
{
}

/// A connected subscriber gets a message with the lower of the two qualities of service; nothing
/// with quality of service 0 is ever queued; nothing is queued without storage.
pub proof fn law_quality_of_service_of_a_delivery(env: PlanEnv, st: PlanState, sub: Subscription)
    ensures
        decide(env, st, sub) matches Some(Choice::Online(s, qos)) ==> s == sub && qos
            == env.publish.qos.lower(sub.qos) && env.online.contains(sub.client_id@),
        decide(env, st, sub) matches Some(Choice::Behind(s, qos)) ==> s == sub && qos
            != QoS::AtMostOnce && env.persistent && qos == (if env.online.contains(
            sub.client_id@,
        ) || st.rates.contains_key(sub.client_id@) && env.max_rate > 0
            && !st.rates[sub.client_id@].admits(env.max_rate, env.now) {
            env.publish.qos.lower(sub.qos)
        } else {
            sub.qos
        }),
        !(decide(env, st, sub) matches Some(Choice::Forward(_))),
{
}

/// A change-only subscriber that was just sent a payload on a topic is not sent the same payload
/// again.
pub proof fn law_unchanged_payload_is_not_repeated(env: PlanEnv, st: PlanState, sub: Subscription)
    requires
        sub.change_only,
        decide(env, st, sub) matches Some(Choice::Online(_, _)),
    ensures
        decide(env, step(env, st, sub), sub) is None,
{
}

/// Every member of a group is a subscription of the list that belongs to the group.
pub proof fn lemma_members(subs: Seq<Subscription>, group: Seq<char>)
    ensures
        forall|i: int|
            0 <= i < members(subs, group).len() ==> subs.contains(
                #[trigger] members(subs, group)[i],
            ) && in_group(members(subs, group)[i], group),
    decreases subs.len(),
{
    if subs.len() > 0 {
        let init = subs.drop_last();
        lemma_members(init, group);
        let all = members(subs, group);
        let before = members(init, group);
        assert forall|i: int| 0 <= i < all.len() implies subs.contains(#[trigger] all[i])
            && in_group(all[i], group) by {
            if i < before.len() {
                assert(all[i] == before[i]);
                let k = choose|k: int| 0 <= k < init.len() && init[k] == before[i];
                assert(subs[k] == all[i]);
            } else {
                assert(subs[subs.len() - 1] == all[i]);
            }
        }
    }
}

/// Connected members are members, and they are connected.
pub proof fn lemma_online_of(env: PlanEnv, subs: Seq<Subscription>)
    ensures
        online_of(env, subs).len() <= subs.len(),
        forall|i: int|
            0 <= i < online_of(env, subs).len() ==> subs.contains(
                #[trigger] online_of(env, subs)[i],
            ) && env.online.contains(online_of(env, subs)[i].client_id@),
    decreases subs.len(),
{
    if subs.len() > 0 {
        let init = subs.drop_last();
        lemma_online_of(env, init);
        let all = online_of(env, subs);
        let before = online_of(env, init);
        assert forall|i: int| 0 <= i < all.len() implies subs.contains(#[trigger] all[i])
            && env.online.contains(all[i].client_id@) by {
            if i < before.len() {
                assert(all[i] == before[i]);
                let k = choose|k: int| 0 <= k < init.len() && init[k] == before[i];
                assert(subs[k] == all[i]);
            } else {
                assert(subs[subs.len() - 1] == all[i]);
            }
        }
    }
}

/// The turn is a place in the list.
pub proof fn lemma_turn(env: PlanEnv, online: Seq<Subscription>, start: int, offset: int)
    requires
        0 <= start < online.len(),
        0 <= offset,
    ensures
        0 <= turn(env, online, start, offset) < online.len(),
    decreases online.len() - offset,
{
    if offset < online.len() {
        lemma_turn(env, online, start, offset + 1);
    }
}

/// A share group gives at most one choice, and it is for one of its own members.
pub proof fn law_share_group_delivers_to_one_member(
    env: PlanEnv,
    st: PlanState,
    group: Seq<char>,
    subs: Seq<Subscription>,
)
    ensures
        plan_group(env, st, group, members(subs, group)).0 matches Some(choice) ==> {
            &&& in_group(subscriber(choice), group)
            &&& subs.contains(subscriber(choice))
        },
{
    let own = members(subs, group);
    let online = online_of(env, own);
    lemma_members(subs, group);
    lemma_online_of(env, own);
    if online.len() > 0 {
        if st.turns.contains_key(group) {
            let start = st.turns[group] as int % online.len() as int;
            lemma_turn(env, online, start, 0);
            let sub = online[turn(env, online, start, 0)];
            let k = choose|k: int| 0 <= k < own.len() && own[k] == sub;
            assert(own[k] == sub);
            assert(in_group(sub, group));
        }
    } else if own.len() > 0 {
        assert(subs.contains(own[0]));
    }
}

/// Where all connected members keep up, a share group serves them in turn: consecutive messages
/// go to consecutive members.
pub proof fn law_share_group_takes_turns(env: PlanEnv, online: Seq<Subscription>, count: usize)
    requires
        online.len() > 0,
        forall|i: int|
            0 <= i < online.len() ==> !env.behind.contains((#[trigger] online[i]).client_id@),
    ensures
        turn(env, online, count as int % online.len() as int, 0) == count as int
            % online.len() as int,
{
    let n = online.len() as int;
    let start = count as int % n;
    assert(0 <= start < n);
    assert((start + 0) % n == start) by {
        vstd::arithmetic::div_mod::lemma_small_mod(start as nat, n as nat);
    }
}

/// Whether a subscriber that does not share is owed a message, whoever else gets it: it is neither
/// the publisher's own nor an echo, the subscription is not for changes only, and the client is
/// connected or the message can be kept for it. A limit on the rate puts off only what can be kept.
pub open spec fn is_owed(env: PlanEnv, sub: Subscription) -> bool {
    &&& sub.share_group is None
    &&& !(sub.no_local && env.publisher == Some(sub.client_id@))
    &&& !(env.echo_key is Some && first_value(
        env.publish.properties.user_properties@,
        env.echo_key->0,
    ) == Some(sub.client_id@))
    &&& !sub.change_only
    &&& if env.max_rate == 0 {
        env.online.contains(sub.client_id@) || (env.persistent && sub.qos != QoS::AtMostOnce)
    } else {
        env.persistent && env.publish.qos.lower(sub.qos) != QoS::AtMostOnce
    }
}

proof fn lemma_regular(subs: Seq<Subscription>, sub: Subscription)
    ensures
        regular(subs).contains(sub) <==> subs.contains(sub) && sub.share_group is None,
    decreases subs.len(),
{
    if subs.len() > 0 {
        let rest = subs.drop_last();
        lemma_regular(rest, sub);
        assert(subs =~= rest.push(subs.last()));
        vstd::seq_lib::lemma_seq_contains_after_push(rest, subs.last(), sub);
        vstd::seq_lib::lemma_seq_contains_after_push(regular(rest), subs.last(), sub);
    }
}

/// A choice for the subscription is among the choices.
pub open spec fn is_chosen(choices: Seq<Choice>, sub: Subscription) -> bool {
    exists|i: int| 0 <= i < choices.len() && subscriber(#[trigger] choices[i]) == sub
}

proof fn lemma_plan_each(env: PlanEnv, st: PlanState, subs: Seq<Subscription>, sub: Subscription)
    ensures
        is_chosen(plan_each(env, st, subs).0, sub) ==> subs.contains(sub),
        subs.contains(sub) && is_owed(env, sub) ==> is_chosen(plan_each(env, st, subs).0, sub),
    decreases subs.len(),
{
    if subs.len() > 0 {
        let rest = subs.drop_last();
        lemma_plan_each(env, st, rest, sub);
        assert(subs =~= rest.push(subs.last()));
        vstd::seq_lib::lemma_seq_contains_after_push(rest, subs.last(), sub);
        let before = plan_each(env, st, rest);
        let after = plan_each(env, st, subs);
        if is_chosen(after.0, sub) {
            let i = choose|i: int| 0 <= i < after.0.len() && subscriber(#[trigger] after.0[i]) == sub;
            if i < before.0.len() {
                assert(subscriber(before.0[i]) == sub);
            }
        }
        if is_chosen(before.0, sub) {
            let i = choose|i: int|
                0 <= i < before.0.len() && subscriber(#[trigger] before.0[i]) == sub;
            assert(subscriber(after.0[i]) == sub);
        } else if subs.last() == sub && is_owed(env, sub) {
            assert(decide(env, before.1, sub) is Some);
            assert(subscriber(after.0[before.0.len() as int]) == sub);
        }
    }
}

proof fn lemma_plan_groups(
    env: PlanEnv,
    st: PlanState,
    names: Seq<Seq<char>>,
    subs: Seq<Subscription>,
    sub: Subscription,
)
    ensures
        is_chosen(plan_groups(env, st, names, subs).0, sub) ==> subs.contains(sub),
    decreases names.len(),
{
    if names.len() > 0 {
        lemma_plan_groups(env, st, names.drop_last(), subs, sub);
        let before = plan_groups(env, st, names.drop_last(), subs);
        let after = plan_groups(env, st, names, subs);
        law_share_group_delivers_to_one_member(env, before.1, names.last(), subs);
        if is_chosen(after.0, sub) {
            let i = choose|i: int| 0 <= i < after.0.len() && subscriber(#[trigger] after.0[i]) == sub;
            if i < before.0.len() {
                assert(subscriber(before.0[i]) == sub);
            }
        }
    }
}

/// A message goes to every matching subscriber that is owed it, and to matching subscribers only.
pub proof fn law_message_goes_to_matching_subscribers(
    env: PlanEnv,
    st: PlanState,
    subs: Seq<Subscription>,
    sub: Subscription,
)
    ensures
        is_chosen(plan_all(env, st, subs).0, sub) ==> subs.contains(sub),
        subs.contains(sub) && is_owed(env, sub) ==> is_chosen(plan_all(env, st, subs).0, sub),
{
    let shared = plan_groups(env, st, groups(subs), subs);
    let rest = plan_each(env, shared.1, regular(subs));
    let all = shared.0 + rest.0;
    lemma_plan_groups(env, st, groups(subs), subs, sub);
    lemma_plan_each(env, shared.1, regular(subs), sub);
    lemma_regular(subs, sub);
    if is_chosen(all, sub) {
        let i = choose|i: int| 0 <= i < all.len() && subscriber(#[trigger] all[i]) == sub;
        if i < shared.0.len() {
            assert(subscriber(shared.0[i]) == sub);
        } else {
            assert(subscriber(rest.0[i - shared.0.len()]) == sub);
        }
    }
    if is_chosen(rest.0, sub) {
        let i = choose|i: int| 0 <= i < rest.0.len() && subscriber(#[trigger] rest.0[i]) == sub;
        assert(subscriber(all[i + shared.0.len()]) == sub);
    }
}

/// The value of a user property is that of the first one with its key.
pub proof fn law_first_user_property_counts(
    properties: Seq<(String, String)>,
    key: Seq<char>,
    i: int,
)
    requires
        0 <= i <= properties.len(),
        forall|j: int| 0 <= j < i ==> (#[trigger] properties[j]).0@ != key,
    ensures
        i < properties.len() && properties[i].0@ == key ==> first_value(properties, key) == Some(
            properties[i].1@,
        ),
        i == properties.len() ==> first_value(properties, key) is None,
    decreases properties.len(),
{
    if i > 0 {
        assert(properties[0].0@ != key);
        let rest = properties.drop_first();
        assert forall|j: int| 0 <= j < i - 1 implies (#[trigger] rest[j]).0@ != key by {
            assert(rest[j] == properties[j + 1]);
        }
        law_first_user_property_counts(rest, key, i - 1);
        if i < properties.len() {
            assert(rest[i - 1] == properties[i]);
        }
    }
}

/// Whether nothing about a subscription itself keeps a message from it: the subscriber did not
/// publish it, or wants to hear itself, and it does not carry the subscriber's name as its origin.
pub open spec fn is_welcome(env: PlanEnv, sub: Subscription) -> bool {
    &&& !(sub.no_local && env.publisher == Some(sub.client_id@))
    &&& !(env.echo_key is Some && first_value(
        env.publish.properties.user_properties@,
        env.echo_key->0,
    ) == Some(sub.client_id@))
}

/// A connected subscriber gets every message that is welcome, if its rate allows it; a subscription
/// to changes only gets it unless its payload is the one that the client was sent last on the topic.
pub proof fn law_connected_subscriber_gets_the_message(
    env: PlanEnv,
    st: PlanState,
    sub: Subscription,
)
    requires
        is_welcome(env, sub),
        env.online.contains(sub.client_id@),
        env.max_rate == 0 || !st.rates.contains_key(sub.client_id@)
            || st.rates[sub.client_id@].count < env.max_rate,
    ensures
        ({
            let id = sub.client_id@;
            let topic = env.publish.topic_name@;
            let known = st.seen.contains_key(id) && st.seen[id].contains_key(topic)
                && st.seen[id][topic] == env.publish.payload@;
            let after = step(env, st, sub);
            if sub.change_only && known {
                decide(env, st, sub) is None && after == st
            } else {
                &&& decide(env, st, sub) == Some(
                    Choice::Online(sub, env.publish.qos.lower(sub.qos)),
                )
                &&& sub.change_only ==> after.seen.contains_key(id)
                    && after.seen[id].contains_key(topic) && after.seen[id][topic]
                    == env.publish.payload@
                &&& !sub.change_only ==> after.seen == st.seen
                &&& forall|other: Seq<char>|
                    other != topic && st.seen.contains_key(id) && st.seen[id].contains_key(other)
                        ==> after.seen.contains_key(id) && #[trigger] after.seen[id].contains_key(
                        other,
                    ) && after.seen[id][other] == st.seen[id][other]
            }
        }),
{
}

/// A subscriber that has had as many messages as its rate allows within the second gets no more of
/// them at once: what can be kept for it is queued, and the rest is dropped.
pub proof fn law_rate_holds_messages_back(env: PlanEnv, st: PlanState, sub: Subscription)
    requires
        is_welcome(env, sub),
        !sub.change_only,
        env.max_rate > 0,
        st.rates.contains_key(sub.client_id@),
        st.rates[sub.client_id@].count >= env.max_rate,
        st.rates[sub.client_id@].window_start <= env.now,
        env.now < st.rates[sub.client_id@].window_start + 1000,
    ensures
        decide(env, st, sub) == (if env.persistent && env.publish.qos != QoS::AtMostOnce && sub.qos
            != QoS::AtMostOnce {
            Some(Choice::Behind(sub, env.publish.qos.lower(sub.qos)))
        } else {
            None
        }),
{
}

/// Each message that a subscriber is sent counts against its rate, and nothing else does.
pub proof fn law_messages_count_against_the_rate(
    env: PlanEnv,
    st: PlanState,
    sub: Subscription,
    other: Seq<char>,
)
    requires
        st.rates.contains_key(sub.client_id@),
        st.rates[sub.client_id@].window_start <= env.now,
        env.now < st.rates[sub.client_id@].window_start + 1000,
        other != sub.client_id@,
    ensures
        ({
            let after = step(env, st, sub);
            let id = sub.client_id@;
            &&& after.rates.contains_key(id)
            &&& env.max_rate > 0 && decide(env, st, sub) is Some && decide(env, st, sub)->0 is Online
                ==> after.rates[id].count == st.rates[id].count + 1
            &&& decide(env, st, sub) is None && is_local(env, sub) ==> after.rates == st.rates
            &&& after.rates.contains_key(other) == st.rates.contains_key(other)
            &&& st.rates.contains_key(other) ==> after.rates[other] == st.rates[other]
            &&& after.turns == st.turns
        }),
{
}

/// A subscriber that is not connected has what is welcome kept for it, with the quality of service
/// of its subscription, if messages are kept and the subscription wants acknowledged ones.
pub proof fn law_absent_subscriber_has_messages_kept(
    env: PlanEnv,
    st: PlanState,
    sub: Subscription,
)
    requires
        is_welcome(env, sub),
        !sub.change_only,
        !env.online.contains(sub.client_id@),
        env.max_rate == 0 || !st.rates.contains_key(sub.client_id@),
    ensures
        decide(env, st, sub) == (if env.persistent && sub.qos != QoS::AtMostOnce {
            Some(Choice::Behind(sub, sub.qos))
        } else {
            None
        }),
{
}

/// A subscriber gets a message as it was published, but for what belongs to its own subscription and
/// connection: the quality of service, the version and the subscription identifier. The identifier
/// of the publisher and the duplicate flag are not passed on, the retain flag only where the
/// subscriber asked to keep it.
pub proof fn law_message_is_passed_on_as_published(
    message: PublishPacket,
    publish: PublishPacket,
    sub: Subscription,
    qos: QoS,
)
    requires
        is_prepared(message, publish, sub, qos),
    ensures
        message.topic_name == publish.topic_name,
        message.payload == publish.payload,
        message.qos == qos,
        message.packet_id is None,
        !message.dup,
        message.retain ==> publish.retain && sub.retain_as_published,
        publish.retain && sub.retain_as_published ==> message.retain,
        message.protocol_version == sub.protocol_version.number(),
        message.properties.message_expiry_interval == publish.properties.message_expiry_interval,
        message.properties.content_type == publish.properties.content_type,
        message.properties.response_topic == publish.properties.response_topic,
        message.properties.correlation_data == publish.properties.correlation_data,
        message.properties.user_properties == publish.properties.user_properties,
        message.properties.payload_format_indicator == publish.properties.payload_format_indicator,
        sub.subscription_id matches Some(id) ==> message.properties.subscription_identifiers@.len()
            == 1 && message.properties.subscription_identifiers@[0] == id,
{
}

/// The name of the group that a subscription shares.
pub open spec fn shares_in(sub: Subscription, group: Seq<char>) -> bool {
    sub.share_group is Some && sub.share_group->0@ == group
}

proof fn lemma_groups(subs: Seq<Subscription>, group: Seq<char>)
    ensures
        groups(subs).no_duplicates(),
        groups(subs).contains(group) <==> exists|k: int|
            0 <= k < subs.len() && shares_in(#[trigger] subs[k], group),
    decreases subs.len(),
{
    if subs.len() > 0 {
        let init = subs.drop_last();
        lemma_groups(init, group);
        let before = groups(init);
        let last = subs.last();
        if last.share_group is Some {
            let name = last.share_group->0@;
            vstd::seq_lib::lemma_seq_contains_after_push(before, name, group);
            if !before.contains(name) {
                let after = before.push(name);
                assert forall|i: int, j: int|
                    0 <= i < after.len() && 0 <= j < after.len() && i != j implies after[i]
                    != after[j] by {
                    if i == before.len() {
                        assert(before.contains(before[j]));
                    } else if j == before.len() {
                        assert(before.contains(before[i]));
                    }
                }
            }
        }
        if exists|k: int| 0 <= k < subs.len() && shares_in(#[trigger] subs[k], group) {
            let k = choose|k: int| 0 <= k < subs.len() && shares_in(#[trigger] subs[k], group);
            if k < init.len() {
                assert(shares_in(init[k], group));
            }
        }
        if exists|k: int| 0 <= k < init.len() && shares_in(#[trigger] init[k], group) {
            let k = choose|k: int| 0 <= k < init.len() && shares_in(#[trigger] init[k], group);
            assert(shares_in(subs[k], group));
        }
        if shares_in(last, group) {
            assert(shares_in(subs[subs.len() - 1], group));
        }
    }
}

proof fn lemma_has_members(subs: Seq<Subscription>, group: Seq<char>, k: int)
    requires
        0 <= k < subs.len(),
        shares_in(subs[k], group),
    ensures
        members(subs, group).contains(subs[k]),
    decreases subs.len(),
{
    let init = subs.drop_last();
    let before = members(init, group);
    if k < init.len() {
        lemma_has_members(init, group, k);
        vstd::seq_lib::lemma_seq_contains_after_push(before, subs.last(), subs[k]);
    } else {
        vstd::seq_lib::lemma_seq_contains_after_push(before, subs.last(), subs[k]);
    }
}

proof fn lemma_online_is_filter(env: PlanEnv, subs: Seq<Subscription>)
    ensures
        online_of(env, subs) == subs.filter(|s: Subscription| env.online.contains(s.client_id@)),
    decreases subs.len(),
{
    reveal(Seq::filter);
    if subs.len() > 0 {
        lemma_online_is_filter(env, subs.drop_last());
    }
}

proof fn lemma_some_online(env: PlanEnv, subs: Seq<Subscription>, k: int)
    requires
        0 <= k < subs.len(),
        env.online.contains(subs[k].client_id@),
    ensures
        online_of(env, subs).len() > 0,
    decreases subs.len(),
{
    if k < subs.len() - 1 {
        lemma_some_online(env, subs.drop_last(), k);
    }
}

/// Whether a choice is one of a share group for a message: for a queue where no member is
/// connected, and for the connection of a member where one is.
pub open spec fn serves_group(env: PlanEnv, choice: Choice, any_online: bool) -> bool {
    if any_online {
        choice is Online && env.online.contains(subscriber(choice).client_id@)
    } else {
        choice is Forward || choice is Behind
    }
}

proof fn lemma_plan_group(
    env: PlanEnv,
    st: PlanState,
    group: Seq<char>,
    own: Seq<Subscription>,
    any_online: bool,
)
    requires
        own.len() > 0,
        env.persistent,
        env.max_rate == 0,
        any_online <==> exists|k: int|
            0 <= k < own.len() && env.online.contains((#[trigger] own[k]).client_id@),
        any_online ==> st.turns.contains_key(group),
        forall|k: int|
            0 <= k < own.len() ==> is_welcome(env, #[trigger] own[k]) && !own[k].change_only
                && own[k].qos != QoS::AtMostOnce,
    ensures
        ({
            let one = plan_group(env, st, group, own);
            &&& one.0 is Some
            &&& own.contains(subscriber(one.0->0))
            &&& serves_group(env, one.0->0, any_online)
        }),
{
    let online = online_of(env, own);
    lemma_online_of(env, own);
    if any_online {
        let k = choose|k: int|
            0 <= k < own.len() && env.online.contains((#[trigger] own[k]).client_id@);
        lemma_some_online(env, own, k);
        let start = st.turns[group] as int % online.len() as int;
        lemma_turn(env, online, start, 0);
        let sub = online[turn(env, online, start, 0)];
        assert(own.contains(sub));
        let j = choose|j: int| 0 <= j < own.len() && own[j] == sub;
        assert(is_welcome(env, own[j]));
    } else {
        if online.len() > 0 {
            assert(own.contains(online[0]));
            let j = choose|j: int| 0 <= j < own.len() && own[j] == online[0];
            assert(env.online.contains(own[j].client_id@));
        }
        assert(own[0].qos != QoS::AtMostOnce);
        assert(own.contains(own[0]));
    }
}

proof fn lemma_turns_stay(
    env: PlanEnv,
    st: PlanState,
    names: Seq<Seq<char>>,
    subs: Seq<Subscription>,
    group: Seq<char>,
)
    ensures
        plan_groups(env, st, names, subs).1.turns.contains_key(group) == st.turns.contains_key(
            group,
        ),
    decreases names.len(),
{
    if names.len() > 0 {
        lemma_turns_stay(env, st, names.drop_last(), subs, group);
    }
}

proof fn lemma_choices_of_groups(
    env: PlanEnv,
    st: PlanState,
    names: Seq<Seq<char>>,
    subs: Seq<Subscription>,
)
    requires
        names.no_duplicates(),
    ensures
        ({
            let c = plan_groups(env, st, names, subs).0;
            &&& forall|i: int|
                0 <= i < c.len() ==> subscriber(#[trigger] c[i]).share_group is Some
                    && names.contains(subscriber(c[i]).share_group->0@)
            &&& forall|i: int, j: int|
                #![trigger c[i], c[j]]
                0 <= i < j < c.len() ==> subscriber(c[i]).share_group->0@ != subscriber(
                    c[j],
                ).share_group->0@
        }),
    decreases names.len(),
{
    if names.len() > 0 {
        let init = names.drop_last();
        assert(init.no_duplicates());
        lemma_choices_of_groups(env, st, init, subs);
        let before = plan_groups(env, st, init, subs);
        let c = plan_groups(env, st, names, subs).0;
        law_share_group_delivers_to_one_member(env, before.1, names.last(), subs);
        assert forall|i: int| 0 <= i < c.len() implies subscriber(#[trigger] c[i]).share_group
            is Some && names.contains(subscriber(c[i]).share_group->0@) by {
            if i < before.0.len() {
                assert(c[i] == before.0[i]);
                let name = subscriber(before.0[i]).share_group->0@;
                let k = choose|k: int| 0 <= k < init.len() && init[k] == name;
                assert(names[k] == name);
            } else {
                assert(names[names.len() - 1] == names.last());
            }
        }
        assert forall|i: int, j: int|
            #![trigger c[i], c[j]]
            0 <= i < j < c.len() implies subscriber(c[i]).share_group->0@ != subscriber(
            c[j],
        ).share_group->0@ by {
            if j < before.0.len() {
                assert(c[i] == before.0[i] && c[j] == before.0[j]);
            } else {
                assert(c[i] == before.0[i]);
                let name = subscriber(before.0[i]).share_group->0@;
                let k = choose|k: int| 0 <= k < init.len() && init[k] == name;
                assert(names[k] != names[names.len() - 1]);
            }
        }
    }
}

proof fn lemma_group_is_served(
    env: PlanEnv,
    st: PlanState,
    names: Seq<Seq<char>>,
    subs: Seq<Subscription>,
    group: Seq<char>,
    any_online: bool,
)
    requires
        names.contains(group),
        names.no_duplicates(),
        env.persistent,
        env.max_rate == 0,
        exists|k: int| 0 <= k < subs.len() && shares_in(#[trigger] subs[k], group),
        any_online <==> exists|k: int|
            0 <= k < subs.len() && shares_in(#[trigger] subs[k], group) && env.online.contains(
                subs[k].client_id@,
            ),
        any_online ==> st.turns.contains_key(group),
        forall|k: int|
            0 <= k < subs.len() && shares_in(#[trigger] subs[k], group) ==> is_welcome(env, subs[k])
                && !subs[k].change_only && subs[k].qos != QoS::AtMostOnce,
    ensures
        ({
            let c = plan_groups(env, st, names, subs).0;
            exists|i: int|
                0 <= i < c.len() && shares_in(subscriber(#[trigger] c[i]), group) && subs.contains(
                    subscriber(c[i]),
                ) && serves_group(env, c[i], any_online)
        }),
    decreases names.len(),
{
    let init = names.drop_last();
    let before = plan_groups(env, st, init, subs);
    let c = plan_groups(env, st, names, subs).0;
    if names.last() == group {
        let own = members(subs, group);
        lemma_members(subs, group);
        lemma_turns_stay(env, st, init, subs, group);
        let k = choose|k: int| 0 <= k < subs.len() && shares_in(#[trigger] subs[k], group);
        lemma_has_members(subs, group, k);
        assert forall|j: int| 0 <= j < own.len() implies is_welcome(env, #[trigger] own[j])
            && !own[j].change_only && own[j].qos != QoS::AtMostOnce by {
            assert(subs.contains(own[j]));
            let m = choose|m: int| 0 <= m < subs.len() && subs[m] == own[j];
            assert(shares_in(subs[m], group));
        }
        assert(any_online <==> exists|j: int|
            0 <= j < own.len() && env.online.contains((#[trigger] own[j]).client_id@)) by {
            if any_online {
                let m = choose|m: int|
                    0 <= m < subs.len() && shares_in(#[trigger] subs[m], group)
                        && env.online.contains(subs[m].client_id@);
                lemma_has_members(subs, group, m);
                let j = choose|j: int| 0 <= j < own.len() && own[j] == subs[m];
                assert(env.online.contains(own[j].client_id@));
            }
            if exists|j: int|
                0 <= j < own.len() && env.online.contains((#[trigger] own[j]).client_id@) {
                let j = choose|j: int|
                    0 <= j < own.len() && env.online.contains((#[trigger] own[j]).client_id@);
                assert(subs.contains(own[j]));
                let m = choose|m: int| 0 <= m < subs.len() && subs[m] == own[j];
                assert(shares_in(subs[m], group));
            }
        }
        lemma_plan_group(env, before.1, group, own, any_online);
        let one = plan_group(env, before.1, group, own);
        let i = before.0.len() as int;
        assert(c[i] == one.0->0);
        let j = choose|j: int| 0 <= j < own.len() && own[j] == subscriber(c[i]);
        assert(subs.contains(own[j]));
        assert(shares_in(subscriber(c[i]), group));
    } else {
        let m = choose|m: int| 0 <= m < names.len() && names[m] == group;
        assert(init[m] == group);
        assert(init.no_duplicates());
        lemma_group_is_served(env, st, init, subs, group, any_online);
        let i = choose|i: int|
            0 <= i < before.0.len() && shares_in(subscriber(#[trigger] before.0[i]), group)
                && subs.contains(subscriber(before.0[i])) && serves_group(
                env,
                before.0[i],
                any_online,
            );
        assert(c[i] == before.0[i]);
    }
}

/// No share group gets a message twice: among the choices for a message there is never more than one
/// for the same group.
pub proof fn law_share_group_never_gets_a_message_twice(
    env: PlanEnv,
    st: PlanState,
    subs: Seq<Subscription>,
    group: Seq<char>,
    i: int,
    j: int,
)
    requires
        0 <= i < j < plan_all(env, st, subs).0.len(),
        shares_in(subscriber(plan_all(env, st, subs).0[i]), group),
    ensures
        !shares_in(subscriber(plan_all(env, st, subs).0[j]), group),
{
    let shared = plan_groups(env, st, groups(subs), subs);
    let rest = plan_each(env, shared.1, regular(subs));
    let all = plan_all(env, st, subs).0;
    lemma_groups(subs, group);
    lemma_choices_of_groups(env, st, groups(subs), subs);
    if j >= shared.0.len() {
        let sub = subscriber(all[j]);
        assert(rest.0[j - shared.0.len()] == all[j]);
        assert(is_chosen(rest.0, sub));
        lemma_plan_each(env, shared.1, regular(subs), sub);
        lemma_regular(subs, sub);
    } else {
        assert(all[i] == shared.0[i] && all[j] == shared.0[j]);
    }
}

/// A share group gets each message: where messages are kept and the subscriptions of its members
/// want acknowledged ones, there is exactly one choice for the group. It is for the connection of a
/// member where one is connected, and for the queue of a member where none is.
pub proof fn law_share_group_gets_each_message(
    env: PlanEnv,
    st: PlanState,
    subs: Seq<Subscription>,
    group: Seq<char>,
    any_online: bool,
)
    requires
        env.persistent,
        env.max_rate == 0,
        exists|k: int| 0 <= k < subs.len() && shares_in(#[trigger] subs[k], group),
        any_online <==> exists|k: int|
            0 <= k < subs.len() && shares_in(#[trigger] subs[k], group) && env.online.contains(
                subs[k].client_id@,
            ),
        any_online ==> st.turns.contains_key(group),
        forall|k: int|
            0 <= k < subs.len() && shares_in(#[trigger] subs[k], group) ==> is_welcome(env, subs[k])
                && !subs[k].change_only && subs[k].qos != QoS::AtMostOnce,
    ensures
        ({
            let c = plan_all(env, st, subs).0;
            exists|i: int|
                0 <= i < c.len() && shares_in(subscriber(#[trigger] c[i]), group) && subs.contains(
                    subscriber(c[i]),
                ) && serves_group(env, c[i], any_online) && forall|j: int|
                    0 <= j < c.len() && shares_in(subscriber(#[trigger] c[j]), group) ==> j == i
        }),
{
    let names = groups(subs);
    lemma_groups(subs, group);
    lemma_group_is_served(env, st, names, subs, group, any_online);
    let shared = plan_groups(env, st, names, subs);
    let c = plan_all(env, st, subs).0;
    let i = choose|i: int|
        0 <= i < shared.0.len() && shares_in(subscriber(#[trigger] shared.0[i]), group)
            && subs.contains(subscriber(shared.0[i])) && serves_group(env, shared.0[i], any_online);
    assert(c[i] == shared.0[i]);
    assert forall|j: int|
        0 <= j < c.len() && shares_in(subscriber(#[trigger] c[j]), group) implies j == i by {
        if j < i {
            law_share_group_never_gets_a_message_twice(env, st, subs, group, j, i);
        } else if j > i {
            law_share_group_never_gets_a_message_twice(env, st, subs, group, i, j);
        }
    }
}

/// The members of a share group take turns: of two messages that follow each other the second goes
/// to the connected member behind the one that got the first, and after the last to the first.
pub proof fn law_consecutive_messages_go_to_consecutive_members(
    env: PlanEnv,
    st: PlanState,
    group: Seq<char>,
    subs: Seq<Subscription>,
)
    requires
        st.turns.contains_key(group),
        st.turns[group] < usize::MAX,
        env.max_rate == 0,
        subs.filter(|s: Subscription| env.online.contains(s.client_id@)).len() > 0,
        forall|i: int|
            0 <= i < subs.len() ==> is_welcome(env, #[trigger] subs[i]) && !subs[i].change_only
                && !env.behind.contains(subs[i].client_id@),
    ensures
        ({
            let online = subs.filter(|s: Subscription| env.online.contains(s.client_id@));
            let first = plan_group(env, st, group, subs);
            let second = plan_group(env, first.1, group, subs);
            &&& first.0 is Some && second.0 is Some
            &&& exists|p: int|
                0 <= p < online.len() && subscriber(first.0->0) == #[trigger] online[p]
                    && subscriber(second.0->0) == online[if p + 1 < online.len() {
                    p + 1
                } else {
                    0
                }]
        }),
{
    let online = online_of(env, subs);
    lemma_online_is_filter(env, subs);
    lemma_online_of(env, subs);
    let n = online.len() as int;
    let count = st.turns[group];
    assert forall|i: int| 0 <= i < online.len() implies !env.behind.contains(
        (#[trigger] online[i]).client_id@,
    ) && is_welcome(env, online[i]) && !online[i].change_only && env.online.contains(
        online[i].client_id@,
    ) by {
        assert(subs.contains(online[i]));
        let k = choose|k: int| 0 <= k < subs.len() && subs[k] == online[i];
        assert(is_welcome(env, subs[k]));
    }
    law_share_group_takes_turns(env, online, count);
    law_share_group_takes_turns(env, online, (count + 1) as usize);
    let p = count as int % n;
    let q = (count + 1) % n;
    assert(q == if p + 1 < n {
        p + 1
    } else {
        0
    }) by (nonlinear_arith)
        requires
            n > 0,
            p == count as int % n,
            q == (count + 1) % n,
    {
    }
    assert(is_welcome(env, online[p]));
    assert(is_welcome(env, online[q]));
    let first = plan_group(env, st, group, subs);
    assert(subscriber(first.0->0) == online[p]);
    assert(first.1.turns[group] == count + 1);
}

proof fn lemma_turn_keeps_up(
    env: PlanEnv,
    online: Seq<Subscription>,
    start: int,
    offset: int,
    k: int,
)
    requires
        0 <= start < online.len(),
        0 <= offset <= k < online.len(),
        !env.behind.contains(online[(start + k) % online.len() as int].client_id@),
    ensures
        0 <= turn(env, online, start, offset) < online.len(),
        !env.behind.contains(online[turn(env, online, start, offset)].client_id@),
    decreases k - offset,
{
    lemma_turn(env, online, start, offset);
    let at = (start + offset) % online.len() as int;
    if env.behind.contains(online[at].client_id@) {
        lemma_turn_keeps_up(env, online, start, offset + 1, k);
    }
}

/// A member of a share group that has fallen behind is passed over as long as a connected member has
/// not.
pub proof fn law_member_that_keeps_up_is_served(
    env: PlanEnv,
    st: PlanState,
    group: Seq<char>,
    subs: Seq<Subscription>,
    i: int,
)
    requires
        st.turns.contains_key(group),
        0 <= i < subs.len(),
        env.online.contains(subs[i].client_id@),
        !env.behind.contains(subs[i].client_id@),
    ensures
        plan_group(env, st, group, subs).0 matches Some(choice) ==> !env.behind.contains(
            subscriber(choice).client_id@,
        ),
{
    let online = online_of(env, subs);
    lemma_online_of(env, subs);
    lemma_some_online(env, subs, i);
    lemma_online_holds(env, subs, i);
    let n = online.len() as int;
    let start = st.turns[group] as int % n;
    let p = choose|p: int| 0 <= p < online.len() && online[p] == subs[i];
    let k = if p >= start {
        p - start
    } else {
        p - start + n
    };
    assert((start + k) % n == p) by {
        if p >= start {
            vstd::arithmetic::div_mod::lemma_small_mod(p as nat, n as nat);
        } else {
            assert(start + k == p + n);
            vstd::arithmetic::div_mod::lemma_mod_add_multiples_vanish(p, n);
            vstd::arithmetic::div_mod::lemma_small_mod(p as nat, n as nat);
        }
    }
    lemma_turn_keeps_up(env, online, start, 0, k);
}

proof fn lemma_online_holds(env: PlanEnv, subs: Seq<Subscription>, i: int)
    requires
        0 <= i < subs.len(),
        env.online.contains(subs[i].client_id@),
    ensures
        online_of(env, subs).contains(subs[i]),
    decreases subs.len(),
{
    let init = subs.drop_last();
    let before = online_of(env, init);
    if i < init.len() {
        lemma_online_holds(env, init, i);
    }
    vstd::seq_lib::lemma_seq_contains_after_push(before, subs.last(), subs[i]);
}

} // verus!
