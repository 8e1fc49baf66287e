//! Packet identifiers in use, and the publishes that wait for an acknowledgement.

use crate::client::publish_outcome::{
    Completion, Delivery, IndeterminateReason, Ledger, Progress, PublishOutcome, PublishRejection,
};
use crate::error::ReasonCode;
use crate::id_map::IdMap;
use crate::packet_ids::PacketIdSet;
use crate::types::QoS;
use vstd::prelude::*;

verus! {

/// The identifiers that new packets must not get: those that are reserved for a packet that is
/// being made, and those of exchanges that were given up while the server may still hold them.
#[derive(Debug)]
pub struct OutboundIds {
    reserved: PacketIdSet,
    quarantined: PacketIdSet,
}

/// An identifier that is reserved until it is given back.
#[derive(Debug)]
pub struct IdReservation {
    packet_id: u16,
}

impl IdReservation {
    /// The reserved identifier.
    pub closed spec fn id(&self) -> u16 {
        self.packet_id
    }

    /// The reserved identifier.
    pub fn packet_id(&self) -> (r: u16)
        ensures
            r == self.id(),
    {
        self.packet_id
    }
}

impl OutboundIds {
    /// The reserved identifiers.
    pub closed spec fn reserved(&self) -> Set<u16> {
        self.reserved@
    }

    /// The identifiers of exchanges that were given up.
    pub closed spec fn quarantined(&self) -> Set<u16> {
        self.quarantined@
    }

    /// The sets are in order.
    pub closed spec fn wf(&self) -> bool {
        self.reserved.wf() && self.quarantined.wf()
    }

    /// Whether a new packet must not get the identifier.
    pub open spec fn held(&self, packet_id: u16) -> bool {
        self.reserved().contains(packet_id) || self.quarantined().contains(packet_id)
    }

    /// No identifier is in use.
    pub fn new() -> (r: Self)
        ensures
            r.wf(),
            r.reserved() == Set::<u16>::empty(),
            r.quarantined() == Set::<u16>::empty(),
    {
        OutboundIds { reserved: PacketIdSet::new(), quarantined: PacketIdSet::new() }
    }

    /// Whether a new packet must not get the identifier.
    pub fn holds(&self, packet_id: u16) -> (r: bool)
        requires
            self.wf(),
        ensures
            r == self.held(packet_id),
    {
        self.reserved.contains(packet_id) || self.quarantined.contains(packet_id)
    }

    /// Keeps an identifier from new packets until the session is lost.
    pub fn quarantine(&mut self, packet_id: u16)
        requires
            old(self).wf(),
        ensures
            final(self).wf(),
            final(self).reserved() == old(self).reserved(),
            final(self).quarantined() == old(self).quarantined().insert(packet_id),
    {
        self.quarantined.insert(packet_id);
    }

    /// The session is lost: the identifiers of exchanges that were given up are free.
    pub fn release_quarantine(&mut self)
        requires
            old(self).wf(),
        ensures
            final(self).wf(),
            final(self).reserved() == old(self).reserved(),
            final(self).quarantined() == Set::<u16>::empty(),
    {
        self.quarantined.clear();
    }

    /// Reserves an identifier, unless it is held.
    pub fn claim(&mut self, packet_id: u16) -> (r: Option<IdReservation>)
        requires
            old(self).wf(),
        ensures
            final(self).wf(),
            final(self).quarantined() == old(self).quarantined(),
            match r {
                Some(reservation) => {
                    &&& !old(self).held(packet_id)
                    &&& reservation.id() == packet_id
                    &&& final(self).reserved() == old(self).reserved().insert(packet_id)
                },
                None => old(self).held(packet_id) && final(self).reserved()
                    == old(self).reserved(),
            },
    {
        if self.holds(packet_id) {
            return None;
        }
        self.reserved.insert(packet_id);
        Some(IdReservation { packet_id })
    }

    /// Gives a reserved identifier back.
    pub fn release(&mut self, reservation: IdReservation)
        requires
            old(self).wf(),
        ensures
            final(self).wf(),
            final(self).quarantined() == old(self).quarantined(),
            final(self).reserved() == old(self).reserved().remove(reservation.id()),
    {
        self.reserved.remove(reservation.packet_id);
    }
}

impl Default for OutboundIds {
    fn default() -> (r: Self)
        ensures
            r.wf(),
            r.reserved() == Set::<u16>::empty(),
            r.quarantined() == Set::<u16>::empty(),
    {
        OutboundIds::new()
    }
}

/// A publish that waits for its acknowledgement.
#[derive(Debug)]
pub struct Awaited {
    qos: QoS,
    completion: Completion,
}

impl Awaited {
    /// The quality of service with which it was sent.
    pub closed spec fn level(&self) -> QoS {
        self.qos
    }

    /// The publish.
    pub closed spec fn subject(&self) -> u64 {
        self.completion.subject()
    }

    /// Whether it has been sent more than once.
    pub closed spec fn was_resent(&self) -> bool {
        self.completion.was_resent()
    }
}

/// The publishes that wait for an acknowledgement, by packet identifier.
#[derive(Debug)]
pub struct OutcomeTracker {
    in_flight: IdMap<Awaited>,
}

impl View for OutcomeTracker {
    type V = Map<u64, Awaited>;

    closed spec fn view(&self) -> Map<u64, Awaited> {
        self.in_flight@
    }
}

/// Where the publishes of a list stand after each got the same outcome.
pub open spec fn all_settled(
    progress: Map<u64, Progress>,
    list: Seq<(u64, Awaited)>,
    outcome: PublishOutcome,
) -> Map<u64, Progress>
    decreases list.len(),
{
    if list.len() == 0 {
        progress
    } else {
        Ledger::settled(
            all_settled(progress, list.drop_last(), outcome),
            list.last().1.subject(),
            outcome,
        )
    }
}

/// Every publish of the list has the outcome, and no other publish is pending that was not.
pub proof fn lemma_all_settled(
    progress: Map<u64, Progress>,
    list: Seq<(u64, Awaited)>,
    outcome: PublishOutcome,
)
    ensures
        forall|j: int|
            0 <= j < list.len() ==> all_settled(progress, list, outcome).contains_pair(
                (#[trigger] list[j]).1.subject(),
                Progress::Settled(outcome),
            ),
        forall|s: u64, o: PublishOutcome| #[trigger]
            progress.contains_pair(s, Progress::Settled(o)) ==> exists|p: PublishOutcome| #[trigger]
                all_settled(progress, list, outcome).contains_pair(s, Progress::Settled(p)),
    decreases list.len(),
{
    if list.len() > 0 {
        let rest = list.drop_last();
        lemma_all_settled(progress, rest, outcome);
        let before = all_settled(progress, rest, outcome);
        let after = all_settled(progress, list, outcome);
        assert forall|j: int| 0 <= j < list.len() implies after.contains_pair(
            (#[trigger] list[j]).1.subject(),
            Progress::Settled(outcome),
        ) by {
            if j < rest.len() {
                assert(rest[j] == list[j]);
            }
        }
        assert forall|s: u64, o: PublishOutcome| #[trigger]
            progress.contains_pair(s, Progress::Settled(o)) implies exists|p: PublishOutcome|
         #[trigger] after.contains_pair(s, Progress::Settled(p)) by {
            let p = choose|p: PublishOutcome| #[trigger]
                before.contains_pair(s, Progress::Settled(p));
            if s == list.last().1.subject() {
                assert(after.contains_pair(s, Progress::Settled(outcome)));
            } else {
                assert(after.contains_pair(s, Progress::Settled(p)));
            }
        }
    } else {
        assert forall|s: u64, o: PublishOutcome| #[trigger]
            progress.contains_pair(s, Progress::Settled(o)) implies exists|p: PublishOutcome|
         #[trigger] all_settled(progress, list, outcome).contains_pair(
            s,
            Progress::Settled(p),
        ) by {
            assert(all_settled(progress, list, outcome).contains_pair(s, Progress::Settled(o)));
        }
    }
}

impl OutcomeTracker {
    /// No identifier stands twice.
    pub closed spec fn wf(&self) -> bool {
        self.in_flight.wf()
    }

    /// The publishes in order.
    pub closed spec fn listing(&self) -> Seq<(u64, Awaited)> {
        self.in_flight.listing()
    }

    /// The list holds each publish once, under its identifier.
    pub proof fn lemma_listing(&self)
        requires
            self.wf(),
        ensures
            crate::id_map::distinct_keys(self.listing()),
            self@ == crate::id_map::as_map(self.listing()),
    {
    }

    /// Whether an identifier belongs to a publish of a quality of service.
    pub open spec fn tracks(&self, packet_id: u16, qos: QoS) -> bool {
        self@.contains_key(packet_id as u64) && self@[packet_id as u64].level() == qos
    }

    /// Nothing waits.
    pub fn new() -> (r: Self)
        ensures
            r.wf(),
            r@ == Map::<u64, Awaited>::empty(),
    {
        OutcomeTracker { in_flight: IdMap::new() }
    }

    /// Tracks a publish under its identifier. Where the identifier already tracks one, that one
    /// stays and the new one is abandoned.
    pub fn track(
        &mut self,
        ledger: &mut Ledger,
        packet_id: u16,
        qos: QoS,
        completion: Completion,
    )
        requires
            old(self).wf(),
            old(ledger).wf(),
        ensures
            final(self).wf(),
            final(ledger).wf(),
            final(ledger).upcoming() == old(ledger).upcoming(),
            if old(self)@.contains_key(packet_id as u64) {
                &&& *final(self) == *old(self)
                &&& final(ledger)@ == Ledger::settled(
                    old(ledger)@,
                    completion.subject(),
                    PublishOutcome::Indeterminate(IndeterminateReason::Abandoned),
                )
            } else {
                &&& *final(ledger) == *old(ledger)
                &&& final(self)@.contains_key(packet_id as u64)
                &&& final(self)@ == old(self)@.insert(
                    packet_id as u64,
                    final(self)@[packet_id as u64],
                )
                &&& final(self)@[packet_id as u64].level() == qos
                &&& final(self)@[packet_id as u64].subject() == completion.subject()
                &&& final(self)@[packet_id as u64].was_resent() == completion.was_resent()
            },
    {
        if self.in_flight.contains_key(packet_id as u64) {
            ledger.indeterminate(completion, IndeterminateReason::Abandoned);
        } else {
            let _ = self.in_flight.insert(packet_id as u64, Awaited { qos, completion });
        }
    }

    /// Stops tracking an identifier.
    pub fn take(&mut self, packet_id: u16) -> (r: Option<Completion>)
        requires
            old(self).wf(),
        ensures
            final(self).wf(),
            final(self)@ == old(self)@.remove(packet_id as u64),
            match r {
                Some(completion) => {
                    &&& old(self)@.contains_key(packet_id as u64)
                    &&& completion.subject() == old(self)@[packet_id as u64].subject()
                    &&& completion.was_resent() == old(self)@[packet_id as u64].was_resent()
                },
                None => !old(self)@.contains_key(packet_id as u64),
            },
    {
        match self.in_flight.remove(packet_id as u64) {
            Some(entry) => Some(entry.completion),
            None => None,
        }
    }

    /// Records that the publish of an identifier is sent once more.
    pub fn mark_resent(&mut self, packet_id: u16)
        requires
            old(self).wf(),
        ensures
            final(self).wf(),
            if old(self)@.contains_key(packet_id as u64) {
                &&& final(self)@ == old(self)@.insert(
                    packet_id as u64,
                    final(self)@[packet_id as u64],
                )
                &&& final(self)@[packet_id as u64].was_resent()
                &&& final(self)@[packet_id as u64].level() == old(self)@[packet_id as u64].level()
                &&& final(self)@[packet_id as u64].subject()
                    == old(self)@[packet_id as u64].subject()
            } else {
                *final(self) == *old(self)
            },
    {
        if let Some(entry) = self.in_flight.get_mut(packet_id as u64) {
            entry.completion.mark_resent();
        }
    }

    fn take_matching(&mut self, packet_id: u16, qos: QoS) -> (r: Option<Completion>)
        requires
            old(self).wf(),
        ensures
            final(self).wf(),
            match r {
                Some(completion) => {
                    &&& old(self).tracks(packet_id, qos)
                    &&& completion.subject() == old(self)@[packet_id as u64].subject()
                    &&& completion.was_resent() == old(self)@[packet_id as u64].was_resent()
                    &&& final(self)@ == old(self)@.remove(packet_id as u64)
                },
                None => !old(self).tracks(packet_id, qos) && *final(self) == *old(self),
            },
    {
        let matching = match self.in_flight.get(packet_id as u64) {
            Some(entry) => entry.qos == qos,
            None => false,
        };
        if matching {
            self.take(packet_id)
        } else {
            None
        }
    }

    /// The exchange of an identifier is complete: its publish was delivered. An acknowledgement
    /// for another quality of service settles nothing.
    pub fn acknowledged(&mut self, ledger: &mut Ledger, packet_id: u16, qos: QoS)
        requires
            old(self).wf(),
            old(ledger).wf(),
        ensures
            final(self).wf(),
            final(ledger).wf(),
            final(ledger).upcoming() == old(ledger).upcoming(),
            if old(self).tracks(packet_id, qos) {
                &&& final(self)@ == old(self)@.remove(packet_id as u64)
                &&& final(ledger)@ == Ledger::settled(
                    old(ledger)@,
                    old(self)@[packet_id as u64].subject(),
                    PublishOutcome::Delivered(Delivery::with(qos, Some(packet_id))),
                )
            } else {
                *final(self) == *old(self) && *final(ledger) == *old(ledger)
            },
    {
        if let Some(completion) = self.take_matching(packet_id, qos) {
            ledger.delivered(completion, Delivery::of(qos, Some(packet_id)));
        }
    }

    /// The server refused the publish of an identifier.
    pub fn refused(
        &mut self,
        ledger: &mut Ledger,
        packet_id: u16,
        qos: QoS,
        reason_code: ReasonCode,
    )
        requires
            old(self).wf(),
            old(ledger).wf(),
        ensures
            final(self).wf(),
            final(ledger).wf(),
            final(ledger).upcoming() == old(ledger).upcoming(),
            if old(self).tracks(packet_id, qos) {
                &&& final(self)@ == old(self)@.remove(packet_id as u64)
                &&& final(ledger)@ == Ledger::settled(
                    old(ledger)@,
                    old(self)@[packet_id as u64].subject(),
                    crate::client::publish_outcome::rejection_outcome(
                        old(self)@[packet_id as u64].was_resent(),
                        PublishRejection::Refused(reason_code),
                    ),
                )
            } else {
                *final(self) == *old(self) && *final(ledger) == *old(ledger)
            },
    {
        if let Some(completion) = self.take_matching(packet_id, qos) {
            ledger.rejected(completion, PublishRejection::Refused(reason_code));
        }
    }

    /// The outcome that a PUBACK brings.
    pub open spec fn puback_outcome(resent: bool, packet_id: u16, reason_code: ReasonCode) -> PublishOutcome {
        if reason_code.error() {
            crate::client::publish_outcome::rejection_outcome(
                resent,
                PublishRejection::Refused(reason_code),
            )
        } else {
            PublishOutcome::Delivered(Delivery::AtLeastOnce { packet_id })
        }
    }

    /// A PUBACK settles the QoS 1 publish of its identifier.
    pub fn settle_puback(&mut self, ledger: &mut Ledger, packet_id: u16, reason_code: ReasonCode)
        requires
            old(self).wf(),
            old(ledger).wf(),
        ensures
            final(self).wf(),
            final(ledger).wf(),
            final(ledger).upcoming() == old(ledger).upcoming(),
            if old(self).tracks(packet_id, QoS::AtLeastOnce) {
                &&& final(self)@ == old(self)@.remove(packet_id as u64)
                &&& final(ledger)@ == Ledger::settled(
                    old(ledger)@,
                    old(self)@[packet_id as u64].subject(),
                    OutcomeTracker::puback_outcome(
                        old(self)@[packet_id as u64].was_resent(),
                        packet_id,
                        reason_code,
                    ),
                )
            } else {
                *final(self) == *old(self) && *final(ledger) == *old(ledger)
            },
    {
        if reason_code.is_error() {
            self.refused(ledger, packet_id, QoS::AtLeastOnce, reason_code);
        } else {
            self.acknowledged(ledger, packet_id, QoS::AtLeastOnce);
        }
    }

    /// Settles every publish that waits, with one reason.
    pub fn abandon_all(&mut self, ledger: &mut Ledger, reason: IndeterminateReason)
        requires
            old(self).wf(),
            old(ledger).wf(),
        ensures
            final(self).wf(),
            final(ledger).wf(),
            final(ledger).upcoming() == old(ledger).upcoming(),
            final(self)@ == Map::<u64, Awaited>::empty(),
            final(ledger)@ == all_settled(
                old(ledger)@,
                old(self).listing(),
                PublishOutcome::Indeterminate(reason),
            ),
    {
        let ghost origin = *ledger;
        let ghost outcome = PublishOutcome::Indeterminate(reason);
        let drained = self.in_flight.drain();
        let ghost list = drained@;
        assert(list.take(0) =~= Seq::<(u64, Awaited)>::empty());
        for entry in it: drained
            invariant
                it.seq() == list,
                ledger.wf(),
                ledger.upcoming() == origin.upcoming(),
                outcome == PublishOutcome::Indeterminate(reason),
                ledger@ == all_settled(origin@, list.take(it.index() as int), outcome),
        {
            assert(list.take(it.index() + 1).drop_last() =~= list.take(it.index() as int));
            assert(list.take(it.index() + 1).last() == entry);
            ledger.indeterminate(entry.1.completion, reason);
        }
        assert(list.take(list.len() as int) =~= list);
    }
}

impl Default for OutcomeTracker {
    fn default() -> (r: Self)
        ensures
            r.wf(),
            r@ == Map::<u64, Awaited>::empty(),
    {
        OutcomeTracker::new()
    }
}

/// A reserved identifier is held until it is given back; then it is free, unless it is in
/// quarantine.
pub proof fn law_reservation_is_exclusive(
    before: OutboundIds,
    claimed: OutboundIds,
    released: OutboundIds,
    packet_id: u16,
)
    requires
        claimed.reserved() == before.reserved().insert(packet_id),
        claimed.quarantined() == before.quarantined(),
        released.reserved() == claimed.reserved().remove(packet_id),
        released.quarantined() == claimed.quarantined(),
    ensures
        claimed.held(packet_id),
        released.held(packet_id) <==> before.quarantined().contains(packet_id),
{
}

/// A PUBACK that reports no failure delivers the message at least once under its identifier; one that
/// does refuses it, with its code.
pub proof fn law_puback_tells_the_outcome(resent: bool, packet_id: u16, reason_code: ReasonCode)
    ensures
        reason_code.byte() < 0x80 ==> OutcomeTracker::puback_outcome(resent, packet_id, reason_code)
            == PublishOutcome::Delivered(Delivery::AtLeastOnce { packet_id }),
        reason_code.byte() >= 0x80 && !resent ==> OutcomeTracker::puback_outcome(
            resent,
            packet_id,
            reason_code,
        ) == PublishOutcome::Rejected(PublishRejection::Refused(reason_code)),
        reason_code.byte() >= 0x80 && resent ==> OutcomeTracker::puback_outcome(
            resent,
            packet_id,
            reason_code,
        ) == PublishOutcome::Indeterminate(IndeterminateReason::ResendRefused(reason_code)),
{
}

} // verus!
