//! What becomes of the exchanges of a session that the server no longer has.

use crate::client::direct::client::DirectClientInner;
use crate::client::direct::replay::QueuedPublish;
use crate::client::direct::tracking::Awaited;
use crate::client::publish_outcome::{
    Completion, Delivery, IndeterminateReason, Progress, PublishOutcome,
};
use crate::session::state::OutboundReplay;
use crate::types::{PublishPacket, QoS};
use vstd::prelude::*;

verus! {

/// A message that is queued once more, with its identifier and the publish that it belongs to.
pub struct Requeued {
    pub packet: PublishPacket,
    pub id: u16,
    pub publish: Option<u64>,
}

/// How far the exchanges of a lost session are settled.
pub struct LostSession {
    /// The publishes that wait for an acknowledgement.
    pub waiting: Map<u64, Awaited>,
    pub reserved: Set<u16>,
    pub progress: Map<u64, Progress>,
    /// The messages that are queued once more, in order.
    pub resend: Seq<Requeued>,
}

/// Why the outcome of a publish is unknown when its session is lost: the client had asked for the
/// session, or had not.
pub open spec fn loss_reason(clean_start: bool) -> IndeterminateReason {
    if clean_start {
        IndeterminateReason::SessionDiscarded
    } else {
        IndeterminateReason::SessionLost
    }
}

impl LostSession {
    /// Settles one exchange. A message whose release is outstanding is in the hands of the server.
    /// A QoS 1 message is queued once more if the client had asked for the session and its
    /// identifier is free. The outcome of any other message is unknown.
    pub open spec fn step(self, item: OutboundReplay, clean_start: bool) -> LostSession {
        match item {
            OutboundReplay::PubRel(id) => LostSession {
                waiting: self.waiting.remove(id as u64),
                progress: if self.waiting.contains_key(id as u64) {
                    crate::client::publish_outcome::Ledger::settled(
                        self.progress,
                        self.waiting[id as u64].subject(),
                        PublishOutcome::Delivered(Delivery::ExactlyOnce { packet_id: id }),
                    )
                } else {
                    self.progress
                },
                ..self
            },
            OutboundReplay::Publish(publish) => match publish.packet_id {
                None => self,
                Some(id) => {
                    let awaited = if self.waiting.contains_key(id as u64) {
                        Some(self.waiting[id as u64].subject())
                    } else {
                        None
                    };
                    if publish.qos == QoS::AtLeastOnce && !clean_start && !self.reserved.contains(
                        id,
                    ) {
                        LostSession {
                            waiting: self.waiting.remove(id as u64),
                            reserved: self.reserved.insert(id),
                            resend: self.resend.push(
                                Requeued {
                                    packet: PublishPacket { dup: false, ..publish },
                                    id,
                                    publish: awaited,
                                },
                            ),
                            ..self
                        }
                    } else {
                        LostSession {
                            waiting: self.waiting.remove(id as u64),
                            progress: match awaited {
                                Some(subject) => crate::client::publish_outcome::Ledger::settled(
                                    self.progress,
                                    subject,
                                    PublishOutcome::Indeterminate(loss_reason(clean_start)),
                                ),
                                None => self.progress,
                            },
                            ..self
                        }
                    }
                },
            },
        }
    }

    /// Settles exchanges one after the other.
    pub open spec fn steps(self, items: Seq<OutboundReplay>, clean_start: bool) -> LostSession
        decreases items.len(),
    {
        if items.len() == 0 {
            self
        } else {
            self.steps(items.drop_last(), clean_start).step(items.last(), clean_start)
        }
    }
}

/// Whether a queued message is one that is queued once more. It counts as sent before.
pub open spec fn queued_as(queued: QueuedPublish, r: Requeued) -> bool {
    &&& queued.packet == r.packet
    &&& queued.reservation matches Some(reservation) && reservation.id() == r.id
    &&& match r.publish {
        Some(publish) => queued.completion matches Some(completion) && completion.subject()
            == publish && completion.was_resent(),
        None => queued.completion is None,
    }
}

fn marked_resent(completion: Option<Completion>) -> (r: Option<Completion>)
    ensures
        match completion {
            Some(c) => r matches Some(marked) && marked.subject() == c.subject()
                && marked.was_resent(),
            None => r is None,
        },
{
    match completion {
        Some(c) => {
            let mut marked = c;
            marked.mark_resent();
            Some(marked)
        },
        None => None,
    }
}

impl DirectClientInner {
    /// Where the exchanges stand before any is settled.
    pub open spec fn losing(&self) -> LostSession {
        LostSession {
            waiting: self.publish_outcomes@,
            reserved: self.outbound_ids.reserved(),
            progress: self.ledger@,
            resend: Seq::empty(),
        }
    }

    /// The exchanges of a lost session were settled, and the messages that are sent once more
    /// stand before the others. What waits for an acknowledgement after that has an unknown
    /// outcome too.
    pub open spec fn requeued(
        before: DirectClientInner,
        after: DirectClientInner,
        items: Seq<OutboundReplay>,
    ) -> bool {
        let lost = before.losing().steps(items, before.options.clean_start);
        let n = lost.resend.len() as int;
        &&& after.outbound_ids.quarantined() == Set::<u16>::empty()
        &&& after.outbound_ids.reserved() == lost.reserved
        &&& after.publish_outcomes@ == Map::<u64, Awaited>::empty()
        &&& exists|rest: Seq<(u64, Awaited)>|
            crate::id_map::distinct_keys(rest) && #[trigger] crate::id_map::as_map(rest)
                == lost.waiting && after.ledger@ == crate::client::direct::tracking::all_settled(
                lost.progress,
                rest,
                PublishOutcome::Indeterminate(loss_reason(before.options.clean_start)),
            )
        &&& after.ledger.upcoming() == before.ledger.upcoming()
        &&& after.queued_messages@.len() == n + before.queued_messages@.len()
        &&& after.queued_messages@.skip(n) == before.queued_messages@
        &&& forall|i: int|
            0 <= i < n ==> queued_as(#[trigger] after.queued_messages@[i], lost.resend[i])
                && after.queued_messages@[i].serial == crate::client::direct::replay::serial_after(
                before.queued_messages.last_serial(),
                n - i,
            )
        &&& after.queued_messages.last_serial() == crate::client::direct::replay::serial_after(
            before.queued_messages.last_serial(),
            n,
        )
        &&& after == (DirectClientInner {
            outbound_ids: after.outbound_ids,
            publish_outcomes: after.publish_outcomes,
            ledger: after.ledger,
            queued_messages: after.queued_messages,
            ..before
        })
    }

    /// Settles the exchanges of a session that the server no longer has.
    pub fn requeue_lost_session(&mut self, unacknowledged: Vec<OutboundReplay>)
        requires
            old(self).wf(),
        ensures
            final(self).wf(),
            DirectClientInner::requeued(*old(self), *final(self), unacknowledged@),
    {
        let ghost origin = *self;
        let ghost items = unacknowledged@;
        let clean_start = self.options.clean_start;
        let lost = if clean_start {
            IndeterminateReason::SessionDiscarded
        } else {
            IndeterminateReason::SessionLost
        };
        self.outbound_ids.release_quarantine();
        let mut resend: Vec<QueuedPublish> = Vec::new();
        assert(items.take(0) =~= Seq::<OutboundReplay>::empty());
        for item in it: unacknowledged
            invariant
                it.seq() == items,
                self.wf(),
                clean_start == origin.options.clean_start,
                lost == loss_reason(clean_start),
                self.outbound_ids.quarantined() == Set::<u16>::empty(),
                ({
                    let done = origin.losing().steps(items.take(it.index() as int), clean_start);
                    &&& self.publish_outcomes@ == done.waiting
                    &&& self.outbound_ids.reserved() == done.reserved
                    &&& self.ledger@ == done.progress
                    &&& resend@.len() == done.resend.len()
                    &&& forall|i: int|
                        0 <= i < resend@.len() ==> queued_as(#[trigger] resend@[i], done.resend[i])
                }),
                self.ledger.upcoming() == origin.ledger.upcoming(),
                *self == (DirectClientInner {
                    outbound_ids: self.outbound_ids,
                    publish_outcomes: self.publish_outcomes,
                    ledger: self.ledger,
                    ..origin
                }),
        {
            let ghost done = origin.losing().steps(items.take(it.index() as int), clean_start);
            assert(items.take(it.index() + 1).drop_last() =~= items.take(it.index() as int));
            assert(items.take(it.index() + 1).last() == item);
            match item {
                OutboundReplay::PubRel(packet_id) => {
                    if let Some(completion) = self.publish_outcomes.take(packet_id) {
                        self.ledger.delivered(completion, Delivery::ExactlyOnce { packet_id });
                    }
                },
                OutboundReplay::Publish(publish) => {
                    if let Some(packet_id) = publish.packet_id {
                        let completion = self.publish_outcomes.take(packet_id);
                        let reservation = if publish.qos == QoS::AtLeastOnce && !clean_start {
                            self.outbound_ids.claim(packet_id)
                        } else {
                            None
                        };
                        match reservation {
                            Some(reserved) => {
                                let mut packet = publish;
                                packet.dup = false;
                                resend.push(
                                    QueuedPublish::new(packet, reserved, marked_resent(completion)),
                                );
                            },
                            None => {
                                if let Some(completion) = completion {
                                    self.ledger.indeterminate(completion, lost);
                                }
                            },
                        }
                    }
                },
            }
        }
        assert(items.take(items.len() as int) =~= items);
        let ghost tracker = self.publish_outcomes;
        proof {
            tracker.lemma_listing();
            assert(crate::id_map::as_map(tracker.listing()) == origin.losing().steps(
                items,
                clean_start,
            ).waiting);
        }
        self.publish_outcomes.abandon_all(&mut self.ledger, lost);
        let ghost sent = resend@;
        self.queued_messages.push_front_in_order(resend);
        proof {
            let n = sent.len() as int;
            assert(self.queued_messages@.skip(n) =~= origin.queued_messages@);
        }
    }
}

/// Whether a publish is queued once more.
pub open spec fn resent(resend: Seq<Requeued>, publish: u64) -> bool {
    exists|i: int| 0 <= i < resend.len() && (#[trigger] resend[i]).publish == Some(publish)
}

/// Whether a publish has an outcome.
pub open spec fn has_outcome(progress: Map<u64, Progress>, publish: u64) -> bool {
    exists|o: PublishOutcome| #[trigger] progress.contains_pair(publish, Progress::Settled(o))
}

proof fn lemma_steps(start: LostSession, items: Seq<OutboundReplay>, clean_start: bool)
    ensures
        forall|k: u64| #[trigger]
            start.waiting.contains_key(k) ==> {
                let end = start.steps(items, clean_start);
                ||| end.waiting.contains_key(k) && end.waiting[k] == start.waiting[k]
                ||| has_outcome(end.progress, start.waiting[k].subject())
                ||| resent(end.resend, start.waiting[k].subject())
            },
        forall|k: u64| #[trigger]
            start.steps(items, clean_start).waiting.contains_key(k) ==> start.waiting.contains_key(
                k,
            ) && start.steps(items, clean_start).waiting[k] == start.waiting[k],
    decreases items.len(),
{
    if items.len() > 0 {
        let before = start.steps(items.drop_last(), clean_start);
        let end = start.steps(items, clean_start);
        lemma_steps(start, items.drop_last(), clean_start);
        assert forall|k: u64| #[trigger] start.waiting.contains_key(k) implies {
            ||| end.waiting.contains_key(k) && end.waiting[k] == start.waiting[k]
            ||| has_outcome(end.progress, start.waiting[k].subject())
            ||| resent(end.resend, start.waiting[k].subject())
        } by {
            let subject = start.waiting[k].subject();
            if before.waiting.contains_key(k) && before.waiting[k] == start.waiting[k] {
                if !end.waiting.contains_key(k) {
                    if end.resend.len() > before.resend.len() {
                        assert(end.resend[before.resend.len() as int].publish == Some(subject));
                    } else {
                        let o = end.progress[subject]->Settled_0;
                        assert(end.progress.contains_pair(subject, Progress::Settled(o)));
                    }
                }
            } else if has_outcome(before.progress, subject) {
                let o = choose|o: PublishOutcome| #[trigger]
                    before.progress.contains_pair(subject, Progress::Settled(o));
                let p = end.progress[subject]->Settled_0;
                assert(end.progress.contains_pair(subject, Progress::Settled(p)));
            } else {
                let i = choose|i: int|
                    0 <= i < before.resend.len() && (#[trigger] before.resend[i]).publish == Some(
                        subject,
                    );
                assert(end.resend[i] == before.resend[i]);
            }
        }
    }
}

/// A lost session leaves no publish behind: each that waited for an acknowledgement has an outcome
/// or is queued once more.
pub proof fn law_lost_session_leaves_no_publish_behind(
    before: DirectClientInner,
    after: DirectClientInner,
    items: Seq<OutboundReplay>,
    id: u64,
)
    requires
        DirectClientInner::requeued(before, after, items),
        before.publish_outcomes@.contains_key(id),
    ensures
        ({
            let publish = before.publish_outcomes@[id].subject();
            ||| has_outcome(after.ledger@, publish)
            ||| exists|i: int|
                0 <= i < after.queued_messages@.len() && ((
                #[trigger] after.queued_messages@[i]).completion matches Some(completion)
                    && completion.subject() == publish)
        }),
{
    let clean_start = before.options.clean_start;
    let lost = before.losing().steps(items, clean_start);
    let publish = before.publish_outcomes@[id].subject();
    let outcome = PublishOutcome::Indeterminate(loss_reason(clean_start));
    lemma_steps(before.losing(), items, clean_start);
    let rest = choose|rest: Seq<(u64, Awaited)>|
        crate::id_map::distinct_keys(rest) && #[trigger] crate::id_map::as_map(rest)
            == lost.waiting && after.ledger@ == crate::client::direct::tracking::all_settled(
            lost.progress,
            rest,
            outcome,
        );
    crate::client::direct::tracking::lemma_all_settled(lost.progress, rest, outcome);
    assert(before.losing().waiting.contains_key(id));
    if resent(lost.resend, publish) {
        let i = choose|i: int|
            0 <= i < lost.resend.len() && (#[trigger] lost.resend[i]).publish == Some(publish);
        assert(queued_as(after.queued_messages@[i], lost.resend[i]));
    } else if has_outcome(lost.progress, publish) {
        let o = choose|o: PublishOutcome| #[trigger]
            lost.progress.contains_pair(publish, Progress::Settled(o));
        assert(lost.progress.contains_pair(publish, Progress::Settled(o)));
    } else {
        crate::id_map::lemma_as_map(rest);
        assert(crate::id_map::as_map(rest).contains_key(id));
        let j = choose|j: int| 0 <= j < rest.len() && (#[trigger] rest[j]).0 == id;
        assert(after.ledger@.contains_pair(rest[j].1.subject(), Progress::Settled(outcome)));
    }
}

/// A message that is queued once more is as it was, but it is a new one to the server, and its
/// identifier stays reserved for it.
pub proof fn law_requeued_message_keeps_its_identifier(
    start: LostSession,
    items: Seq<OutboundReplay>,
    clean_start: bool,
    i: int,
)
    requires
        start.resend.len() == 0,
        0 <= i < start.steps(items, clean_start).resend.len(),
    ensures
        ({
            let end = start.steps(items, clean_start);
            &&& !clean_start
            &&& end.resend[i].packet.packet_id == Some(end.resend[i].id)
            &&& end.resend[i].packet.qos == QoS::AtLeastOnce
            &&& !end.resend[i].packet.dup
            &&& end.reserved.contains(end.resend[i].id)
        }),
    decreases items.len(),
{
    if items.len() > 0 {
        let before = start.steps(items.drop_last(), clean_start);
        if i < before.resend.len() {
            law_requeued_message_keeps_its_identifier(start, items.drop_last(), clean_start, i);
        }
    }
}

/// What becomes of an exchange when its session is lost: a message that was released was delivered, a
/// QoS 1 message is queued once more as it was, unless the client wanted a new session or its
/// identifier is taken, and of any other the outcome is unknown. Nothing is forgotten.
pub proof fn law_lost_exchange(
    lost: LostSession,
    publish: PublishPacket,
    clean_start: bool,
    id: u16,
)
    requires
        publish.packet_id == Some(id),
        publish.qos != QoS::AtMostOnce,
        lost.waiting.contains_key(id as u64),
    ensures
        ({
            let subject = lost.waiting[id as u64].subject();
            let sent = lost.step(OutboundReplay::Publish(publish), clean_start);
            let released = lost.step(OutboundReplay::PubRel(id), clean_start);
            let unknown = PublishOutcome::Indeterminate(
                if clean_start {
                    IndeterminateReason::SessionDiscarded
                } else {
                    IndeterminateReason::SessionLost
                },
            );
            &&& crate::client::publish_outcome::Ledger::awaited(released.progress, subject) == Some(
                PublishOutcome::Delivered(Delivery::ExactlyOnce { packet_id: id }),
            )
            &&& released.resend == lost.resend
            &&& !sent.waiting.contains_key(id as u64)
            &&& !released.waiting.contains_key(id as u64)
            &&& if publish.qos == QoS::AtLeastOnce && !clean_start && !lost.reserved.contains(id) {
                &&& sent.resend.len() == lost.resend.len() + 1
                &&& sent.resend.drop_last() == lost.resend
                &&& sent.resend.last().packet == (PublishPacket { dup: false, ..publish })
                &&& sent.resend.last().id == id
                &&& sent.resend.last().publish == Some(subject)
                &&& sent.reserved.contains(id)
                &&& sent.progress == lost.progress
            } else {
                &&& sent.resend == lost.resend
                &&& crate::client::publish_outcome::Ledger::awaited(sent.progress, subject) == Some(
                    unknown,
                )
            }
        }),
{
    let sent = lost.step(OutboundReplay::Publish(publish), clean_start);
    if publish.qos == QoS::AtLeastOnce && !clean_start && !lost.reserved.contains(id) {
        assert(sent.resend.drop_last() =~= lost.resend);
    }
}

/// A message that is queued once more is the one that was sent, keeps its identifier, and whoever
/// published it learns that it may come twice.
pub proof fn law_message_that_is_queued_once_more(queued: QueuedPublish, r: Requeued)
    requires
        queued_as(queued, r),
    ensures
        queued.packet == r.packet,
        queued.reservation is Some,
        queued.reservation->0.id() == r.id,
        r.publish is Some <==> queued.completion is Some,
        r.publish matches Some(publish) ==> queued.completion->0.subject() == publish
            && queued.completion->0.was_resent(),
{
}

} // verus!
