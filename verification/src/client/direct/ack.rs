//! Acknowledgements that the application gives itself.
//!
//! A message that the application acknowledges comes with a token. Acknowledgements leave in the
//! order in which their messages came, whatever the order in which the tokens are resolved.

use crate::error::ReasonCode;
use crate::packets::{AckPacket, Packet};
use crate::session::state::{AckResolution, SessionState};
use crate::text::{owned, same_text};
use crate::text_map::TextMap;
use crate::topic::{is_wildcard_filter, strip_shared_subscription_prefix, topic_matches_filter};
use crate::types::QoS;
use vstd::prelude::*;

verus! {

/// What an acknowledgement says.
#[derive(Debug)]
pub enum AckKind {
    /// The message was processed.
    Ack,
    /// The message could not be processed.
    Reject(ReasonCode),
    /// The token was dropped without a decision.
    DropAuto,
    /// A packet that waits for its turn among the acknowledgements.
    Automatic { packet: Packet, release_inbound: bool },
}

/// An acknowledgement that is to be sent.
#[derive(Debug)]
pub struct AckRequest {
    pub seq: Option<u64>,
    pub packet_id: u16,
    pub qos: QoS,
    pub kind: AckKind,
}

/// The order of acknowledgements: a place for each that is outstanding, from the oldest on.
#[derive(Debug)]
pub struct AckOrder {
    head: u64,
    slots: Vec<Option<AckRequest>>,
}

/// How many places at the start are filled.
pub open spec fn filled(slots: Seq<Option<AckRequest>>) -> nat
    decreases slots.len(),
{
    if slots.len() > 0 && slots[0] is Some {
        1 + filled(slots.drop_first())
    } else {
        0
    }
}

proof fn lemma_filled(slots: Seq<Option<AckRequest>>)
    ensures
        filled(slots) <= slots.len(),
        forall|i: int| 0 <= i < filled(slots) ==> (#[trigger] slots[i]) is Some,
        filled(slots) < slots.len() ==> slots[filled(slots) as int] is None,
    decreases slots.len(),
{
    if slots.len() > 0 && slots[0] is Some {
        let rest = slots.drop_first();
        lemma_filled(rest);
        assert forall|i: int| 0 <= i < filled(slots) implies (#[trigger] slots[i]) is Some by {
            if i > 0 {
                assert(rest[i - 1] == slots[i]);
            }
        }
    }
}

impl AckOrder {
    /// The number of the oldest outstanding place.
    pub closed spec fn first(&self) -> u64 {
        self.head
    }

    /// The outstanding places.
    pub closed spec fn places(&self) -> Seq<Option<AckRequest>> {
        self.slots@
    }

    /// How many places were taken over the order's whole life.
    pub open spec fn taken(&self) -> int {
        self.first() + self.places().len()
    }

    /// A filled place holds the acknowledgement with the place's number, and the numbers fit.
    closed spec fn numbered(&self) -> bool {
        &&& self.head + self.slots@.len() <= u64::MAX
        &&& forall|i: int|
            0 <= i < self.slots@.len() ==> ((#[trigger] self.slots@[i]) matches Some(request)
                ==> request.seq == Some((self.head + i) as u64))
    }

    /// Every filled place holds the acknowledgement with its number, and the oldest outstanding
    /// place is not filled.
    pub closed spec fn wf(&self) -> bool {
        &&& self.numbered()
        &&& self.slots@.len() > 0 ==> self.slots@[0] is None
    }

    /// The oldest outstanding place is open: what is filled waits for it.
    pub proof fn lemma_oldest_place(&self)
        requires
            self.wf(),
        ensures
            self.places().len() > 0 ==> self.places()[0] is None,
            filled(self.places()) == 0,
    {
    }

    /// Nothing is outstanding.
    pub fn new() -> (r: Self)
        ensures
            r.wf(),
            r.first() == 0,
            r.places() == Seq::<Option<AckRequest>>::empty(),
    {
        AckOrder { head: 0, slots: Vec::new() }
    }

    /// Takes the next place.
    pub fn reserve(&mut self) -> (r: u64)
        requires
            old(self).wf(),
            old(self).first() + old(self).places().len() < u64::MAX,
        ensures
            final(self).wf(),
            r == old(self).taken(),
            final(self).taken() == old(self).taken() + 1,
            final(self).first() == old(self).first(),
            final(self).places() == old(self).places().push(None),
    {
        let seq: u64 = self.head + self.slots.len() as u64;
        self.slots.push(None);
        seq
    }

    /// Gives up every outstanding place.
    pub fn discard(&mut self)
        requires
            old(self).wf(),
        ensures
            final(self).wf(),
            final(self).taken() == old(self).taken(),
            final(self).first() == old(self).first() + old(self).places().len(),
            final(self).places() == Seq::<Option<AckRequest>>::empty(),
    {
        self.head = self.head + self.slots.len() as u64;
        self.slots.clear();
    }

    /// Whether an acknowledgement belongs to an outstanding place.
    pub open spec fn awaits(&self, seq: Option<u64>) -> bool {
        seq matches Some(s) && self.first() <= s < self.first() + self.places().len()
    }

    /// Takes an acknowledgement and gives those that may leave, in order. One whose place was given
    /// up never leaves; one without a place leaves at once; any other leaves when those before it
    /// have.
    pub fn release(&mut self, request: AckRequest) -> (r: Vec<AckRequest>)
        requires
            old(self).wf(),
        ensures
            final(self).wf(),
            final(self).taken() == old(self).taken(),
            if request.seq is Some && request.seq->0 < old(self).first() {
                &&& r@ == Seq::<AckRequest>::empty()
                &&& *final(self) == *old(self)
            } else if !old(self).awaits(request.seq) {
                &&& r@ == seq![request]
                &&& *final(self) == *old(self)
            } else {
                let places = old(self).places().update(
                    request.seq->0 - old(self).first(),
                    Some(request),
                );
                &&& r@.len() == filled(places)
                &&& forall|i: int|
                    0 <= i < r@.len() ==> places[i] == Some(#[trigger] r@[i]) && r@[i].seq == Some(
                        (old(self).first() + i) as u64,
                    )
                &&& final(self).first() == old(self).first() + r@.len()
                &&& final(self).places() == places.skip(r@.len() as int)
            },
    {
        let mut out: Vec<AckRequest> = Vec::new();
        let index: usize = match request.seq {
            Some(seq) => {
                if seq < self.head {
                    return out;
                }
                let offset: u64 = seq - self.head;
                if offset >= self.slots.len() as u64 {
                    out.push(request);
                    assert(out@ =~= seq![request]);
                    return out;
                }
                offset as usize
            },
            None => {
                out.push(request);
                assert(out@ =~= seq![request]);
                return out;
            },
        };
        let ghost places = self.slots@.update(index as int, Some(request));
        let ghost start = self.head;
        self.slots.set(index, Some(request));
        assert(places.skip(0) =~= places);
        while self.slots.len() > 0 && self.slots[0].is_some()
            invariant
                self.numbered(),
                out@.len() <= places.len(),
                self.head == start + out@.len(),
                self.slots@ == places.skip(out@.len() as int),
                filled(places) == out@.len() + filled(self.slots@),
                forall|i: int|
                    0 <= i < places.len() ==> ((#[trigger] places[i]) matches Some(q) ==> q.seq
                        == Some((start + i) as u64)),
                forall|i: int| 0 <= i < out@.len() ==> places[i] == Some(#[trigger] out@[i]),
            decreases self.slots@.len(),
        {
            let ghost n = out@.len() as int;
            let ghost before = self.slots@;
            assert(before[0] == places[n]);
            if let Some(next) = self.slots.remove(0) {
                out.push(next);
                self.head = self.head + 1;
                proof {
                    assert(self.slots@ =~= before.drop_first());
                    assert(self.slots@ =~= places.skip(n + 1));
                    assert forall|i: int| 0 <= i < self.slots@.len() implies ((
                    #[trigger] self.slots@[i]) matches Some(q) ==> q.seq == Some(
                        (self.head + i) as u64,
                    )) by {
                        assert(self.slots@[i] == places[n + 1 + i]);
                    }
                }
            }
        }
        assert(filled(self.slots@) == 0);
        out
    }
}

impl Default for AckOrder {
    fn default() -> (r: Self)
        ensures
            r.wf(),
            r.first() == 0,
            r.places() == Seq::<Option<AckRequest>>::empty(),
    {
        AckOrder::new()
    }
}

/// Places leave one after another and none twice: what has left lies before what is outstanding.
pub proof fn law_acknowledgements_leave_in_order(
    before: AckOrder,
    released: Seq<AckRequest>,
    after: AckOrder,
)
    requires
        after.first() == before.first() + released.len(),
        forall|i: int|
            0 <= i < released.len() ==> (#[trigger] released[i]).seq == Some(
                (before.first() + i) as u64,
            ),
    ensures
        forall|i: int, j: int|
            #![trigger released[i], released[j]]
            0 <= i < j < released.len() ==> released[i].seq->0 < released[j].seq->0,
        forall|i: int| 0 <= i < released.len() ==> (#[trigger] released[i]).seq->0 < after.first(),
{
}

/// An acknowledgement waits exactly as long as one before it is missing: what stays outstanding
/// begins with a place that is not filled.
pub proof fn law_oldest_outstanding_place_is_open(places: Seq<Option<AckRequest>>)
    ensures
        filled(places) <= places.len(),
        filled(places) < places.len() ==> places.skip(filled(places) as int)[0] is None,
{
    lemma_filled(places);
}

/// An acknowledgement whose place is outstanding and not filled lets something leave exactly when
/// its place is the oldest; then the longest run of filled places leaves, from this one up to the
/// next that is not filled.
pub proof fn law_release_gives_the_longest_run(order: AckOrder, request: AckRequest)
    requires
        order.wf(),
        order.awaits(request.seq),
        order.places()[request.seq->0 - order.first()] is None,
    ensures
        ({
            let places = order.places().update(request.seq->0 - order.first(), Some(request));
            let run = filled(places) as int;
            &&& run > 0 <==> request.seq->0 == order.first()
            &&& run <= places.len()
            &&& forall|i: int| 0 <= i < run ==> (#[trigger] places[i]) is Some
            &&& run < places.len() ==> places[run] is None
        }),
{
    let places = order.places().update(request.seq->0 - order.first(), Some(request));
    order.lemma_oldest_place();
    lemma_filled(places);
}

/// The states that an order of acknowledgements went through: from the first one on, each step
/// took a place or took none.
pub open spec fn order_history(history: Seq<AckOrder>) -> bool {
    &&& history.len() > 0
    &&& history[0].taken() == 0
    &&& forall|i: int| 0 <= i < history.len() - 1 ==> #[trigger] order_step(history, i)
}

/// Whether a step of a history took a place or took none.
pub open spec fn order_step(history: Seq<AckOrder>, i: int) -> bool {
    takes_place(history, i) || history[i + 1].taken() == history[i].taken()
}

/// Whether a step of a history took a place.
pub open spec fn takes_place(history: Seq<AckOrder>, i: int) -> bool {
    history[i + 1].taken() == history[i].taken() + 1
}

/// How many of the first steps of a history took a place.
pub open spec fn places_taken(history: Seq<AckOrder>, n: nat) -> nat
    decreases n,
{
    if n == 0 {
        0
    } else {
        places_taken(history, (n - 1) as nat) + (if takes_place(history, n - 1) {
            1nat
        } else {
            0
        })
    }
}

/// The places of an order are numbered one after the other over its whole life, across releases
/// and discards: the number of a new place is how many were taken before.
pub proof fn law_places_are_counted(history: Seq<AckOrder>, n: nat)
    requires
        order_history(history),
        n < history.len(),
    ensures
        history[n as int].taken() == places_taken(history, n),
    decreases n,
{
    if n > 0 {
        law_places_are_counted(history, (n - 1) as nat);
        assert(order_step(history, n - 1));
    }
}

/// No number of a place is given out twice.
pub proof fn law_place_is_never_given_out_again(history: Seq<AckOrder>, i: int, j: int)
    requires
        order_history(history),
        0 <= i < j < history.len() - 1,
        takes_place(history, i),
        takes_place(history, j),
    ensures
        history[i].taken() < history[j].taken(),
{
    lemma_taken_grows(history, i + 1, j);
}

proof fn lemma_taken_grows(history: Seq<AckOrder>, i: int, j: int)
    requires
        order_history(history),
        0 <= i <= j < history.len(),
    ensures
        history[i].taken() <= history[j].taken(),
    decreases j - i,
{
    if i < j {
        lemma_taken_grows(history, i, j - 1);
        assert(order_step(history, j - 1));
    }
}

/// The right to acknowledge one message, once. Whoever holds it keeps the message's place in the
/// receive window.
#[derive(Debug)]
pub struct AckToken {
    seq: Option<u64>,
    packet_id: u16,
    qos: QoS,
}

/// The reason code that a rejection carries: one that is no error, or that an acknowledgement of a
/// PUBLISH may not carry, becomes an unspecified error.
pub open spec fn rejection_code(reason: ReasonCode) -> ReasonCode {
    if reason.error() && reason.publish_ack() {
        reason
    } else {
        ReasonCode::UnspecifiedError
    }
}

impl AckToken {
    /// The place of the acknowledgement.
    pub closed spec fn place(&self) -> Option<u64> {
        self.seq
    }

    /// The identifier of the message.
    pub closed spec fn id(&self) -> u16 {
        self.packet_id
    }

    /// The quality of service of the message.
    pub closed spec fn level(&self) -> QoS {
        self.qos
    }

    /// The identifier of the message.
    pub fn packet_id(&self) -> (r: u16)
        ensures
            r == self.id(),
    {
        self.packet_id
    }

    /// The quality of service of the message.
    pub fn qos(&self) -> (r: QoS)
        ensures
            r == self.level(),
    {
        self.qos
    }

    /// Acknowledges the message after durable processing.
    pub fn ack(self) -> (r: AckRequest)
        ensures
            r == (AckRequest {
                seq: self.place(),
                packet_id: self.id(),
                qos: self.level(),
                kind: AckKind::Ack,
            }),
    {
        AckRequest { seq: self.seq, packet_id: self.packet_id, qos: self.qos, kind: AckKind::Ack }
    }

    /// Rejects the message after failing to process it.
    pub fn reject(self, reason: ReasonCode) -> (r: AckRequest)
        ensures
            r == (AckRequest {
                seq: self.place(),
                packet_id: self.id(),
                qos: self.level(),
                kind: AckKind::Reject(rejection_code(reason)),
            }),
    {
        let code = if reason.is_error() && reason.is_valid_publish_ack() {
            reason
        } else {
            ReasonCode::UnspecifiedError
        };
        AckRequest {
            seq: self.seq,
            packet_id: self.packet_id,
            qos: self.qos,
            kind: AckKind::Reject(code),
        }
    }

    /// The token goes without a decision: the message is acknowledged as abandoned, so that the
    /// window never wedges.
    pub fn abandon(self) -> (r: AckRequest)
        ensures
            r == (AckRequest {
                seq: self.place(),
                packet_id: self.id(),
                qos: self.level(),
                kind: AckKind::DropAuto,
            }),
    {
        AckRequest {
            seq: self.seq,
            packet_id: self.packet_id,
            qos: self.qos,
            kind: AckKind::DropAuto,
        }
    }
}

/// A rejection never reads as an acknowledgement.
pub proof fn law_rejection_is_an_error(reason: ReasonCode)
    ensures
        rejection_code(reason).error(),
        rejection_code(reason).publish_ack(),
{
}

/// What is written for an acknowledgement.
#[derive(Debug)]
pub struct AckWork {
    pub packet: Packet,
    /// The message whose place in the receive window is free once the packet is written.
    pub release_inbound: Option<u16>,
}

/// The reason code of a decision.
pub open spec fn decision_code(kind: AckKind) -> ReasonCode {
    match kind {
        AckKind::Reject(reason) => reason,
        AckKind::DropAuto => ReasonCode::UnspecifiedError,
        _ => ReasonCode::Success,
    }
}

/// Sends acknowledgements in order.
#[derive(Debug)]
pub struct AckDispatcher {
    order: AckOrder,
}

impl AckDispatcher {
    /// The order of acknowledgements.
    pub closed spec fn ranks(&self) -> AckOrder {
        self.order
    }

    /// The order is in order.
    pub closed spec fn wf(&self) -> bool {
        self.order.wf()
    }

    /// Nothing is outstanding.
    pub fn new() -> (r: Self)
        ensures
            r.wf(),
            r.ranks().first() == 0,
            r.ranks().places() == Seq::<Option<AckRequest>>::empty(),
    {
        AckDispatcher { order: AckOrder::new() }
    }

    /// Whether one more place can be numbered.
    pub fn has_room(&self) -> (r: bool)
        requires
            self.wf(),
        ensures
            r == (self.ranks().first() + self.ranks().places().len() < u64::MAX),
    {
        self.order.head < u64::MAX - self.order.slots.len() as u64
    }

    fn reserve(&mut self, qos: QoS) -> (r: Option<u64>)
        requires
            old(self).wf(),
            old(self).ranks().first() + old(self).ranks().places().len() < u64::MAX,
        ensures
            final(self).wf(),
            if qos == QoS::AtMostOnce {
                &&& r is None
                &&& *final(self) == *old(self)
            } else {
                &&& r == Some(
                    (old(self).ranks().first() + old(self).ranks().places().len()) as u64,
                )
                &&& final(self).ranks().first() == old(self).ranks().first()
                &&& final(self).ranks().places() == old(self).ranks().places().push(None)
            },
    {
        if qos == QoS::AtMostOnce {
            None
        } else {
            Some(self.order.reserve())
        }
    }

    /// The token for a message that is handed to the application. A QoS 0 message takes no place.
    pub fn token(&mut self, packet_id: u16, qos: QoS) -> (r: AckToken)
        requires
            old(self).wf(),
            old(self).ranks().first() + old(self).ranks().places().len() < u64::MAX,
        ensures
            final(self).wf(),
            r.id() == packet_id,
            r.level() == qos,
            if qos == QoS::AtMostOnce {
                &&& r.place() is None
                &&& *final(self) == *old(self)
            } else {
                &&& r.place() == Some(
                    (old(self).ranks().first() + old(self).ranks().places().len()) as u64,
                )
                &&& final(self).ranks().first() == old(self).ranks().first()
                &&& final(self).ranks().places() == old(self).ranks().places().push(None)
            },
    {
        let seq = self.reserve(qos);
        AckToken { seq, packet_id, qos }
    }

    /// An acknowledgement without a token, in its turn.
    pub fn enqueue(&mut self, packet_id: u16, qos: QoS, kind: AckKind) -> (r: AckRequest)
        requires
            old(self).wf(),
            old(self).ranks().first() + old(self).ranks().places().len() < u64::MAX,
        ensures
            final(self).wf(),
            r.packet_id == packet_id,
            r.qos == qos,
            r.kind == kind,
            if qos == QoS::AtMostOnce {
                &&& r.seq is None
                &&& *final(self) == *old(self)
            } else {
                &&& r.seq == Some(
                    (old(self).ranks().first() + old(self).ranks().places().len()) as u64,
                )
                &&& final(self).ranks().first() == old(self).ranks().first()
                &&& final(self).ranks().places() == old(self).ranks().places().push(None)
            },
    {
        let seq = self.reserve(qos);
        AckRequest { seq, packet_id, qos, kind }
    }

    /// Gives up what is outstanding.
    pub fn discard_pending(&mut self)
        requires
            old(self).wf(),
        ensures
            final(self).wf(),
            final(self).ranks().first() == old(self).ranks().first()
                + old(self).ranks().places().len(),
            final(self).ranks().places() == Seq::<Option<AckRequest>>::empty(),
    {
        self.order.discard();
    }

    /// Takes an acknowledgement and gives those that may leave, in order.
    pub fn release(&mut self, request: AckRequest) -> (r: Vec<AckRequest>)
        requires
            old(self).wf(),
        ensures
            final(self).wf(),
            if request.seq is Some && request.seq->0 < old(self).ranks().first() {
                &&& r@ == Seq::<AckRequest>::empty()
                &&& *final(self) == *old(self)
            } else if !old(self).ranks().awaits(request.seq) {
                &&& r@ == seq![request]
                &&& *final(self) == *old(self)
            } else {
                let places = old(self).ranks().places().update(
                    request.seq->0 - old(self).ranks().first(),
                    Some(request),
                );
                &&& r@.len() == filled(places)
                &&& forall|i: int|
                    0 <= i < r@.len() ==> places[i] == Some(#[trigger] r@[i]) && r@[i].seq == Some(
                        (old(self).ranks().first() + i) as u64,
                    )
                &&& final(self).ranks().first() == old(self).ranks().first() + r@.len()
                &&& final(self).ranks().places() == places.skip(r@.len() as int)
            },
    {
        self.order.release(request)
    }

    /// Applies one acknowledgement: records it in the session and gives the packet to write.
    ///
    /// The session is updated before the packet is written, so a packet identifier that the server
    /// uses again after it got the packet is not taken for a duplicate. After an error
    /// acknowledgement a later message with the same identifier is a new one.
    pub fn handle(request: AckRequest, session: &mut SessionState) -> (r: Option<AckWork>)
        requires
            old(session).wf(),
        ensures
            final(session).wf(),
            match request.kind {
                AckKind::Automatic { packet, release_inbound } => {
                    &&& *final(session) == *old(session)
                    &&& r matches Some(work) && work.packet == packet && work.release_inbound
                        == (if release_inbound {
                        Some(request.packet_id)
                    } else {
                        None
                    })
                },
                _ => match request.qos {
                    QoS::AtMostOnce => r is None && *final(session) == *old(session),
                    QoS::AtLeastOnce => {
                        &&& r matches Some(work) && work.release_inbound is None && (
                        work.packet matches Packet::PubAck(p) && p.plain(
                            request.packet_id,
                            decision_code(request.kind),
                        ))
                        &&& AckDispatcher::forgotten(
                            *old(session),
                            *final(session),
                            request.packet_id,
                        )
                    },
                    QoS::ExactlyOnce => {
                        &&& r matches Some(work) && work.release_inbound is None && (
                        work.packet matches Packet::PubRec(p) && p.plain(
                            request.packet_id,
                            decision_code(request.kind),
                        ))
                        &&& if decision_code(request.kind) == ReasonCode::Success {
                            &&& final(session).pubrecs@ == old(session).pubrecs@.insert(
                                request.packet_id,
                            )
                            &&& final(session).acked@ == old(session).acked@.insert(
                                request.packet_id,
                            )
                            &&& *final(session) == (SessionState {
                                pubrecs: final(session).pubrecs,
                                acked: final(session).acked,
                                ..*old(session)
                            })
                        } else {
                            AckDispatcher::forgotten(
                                *old(session),
                                *final(session),
                                request.packet_id,
                            )
                        }
                    },
                },
            },
    {
        let reason = match request.kind {
            AckKind::Ack => ReasonCode::Success,
            AckKind::Reject(reason) => reason,
            AckKind::DropAuto => ReasonCode::UnspecifiedError,
            AckKind::Automatic { packet, release_inbound } => {
                let release = if release_inbound {
                    Some(request.packet_id)
                } else {
                    None
                };
                return Some(AckWork { packet, release_inbound: release });
            },
        };
        let packet_id: u16 = request.packet_id;
        let packet = match request.qos {
            QoS::AtMostOnce => {
                return None;
            },
            QoS::AtLeastOnce => Packet::PubAck(AckPacket::new(packet_id, reason)),
            QoS::ExactlyOnce => Packet::PubRec(AckPacket::new(packet_id, reason)),
        };
        if request.qos == QoS::ExactlyOnce && reason == ReasonCode::Success {
            session.mark_pubrec_sent(packet_id);
            session.set_resolution(packet_id, AckResolution::Acked);
        } else {
            session.flow.acknowledge_inbound(packet_id);
            session.clear_inbound_state(packet_id);
        }
        Some(AckWork { packet, release_inbound: None })
    }

    /// Whether an acknowledgement of some length is written: there is a connection, and the server
    /// takes packets of that length. One that is not written was recorded, and is sent again when
    /// its message comes again.
    pub fn write(session: &SessionState, length: u64, has_writer: bool) -> (r: bool)
        ensures
            r == (has_writer && match session.server_maximum_packet_size {
                Some(maximum) => length <= maximum,
                None => true,
            }),
    {
        has_writer && session.check_packet_size(length).is_ok()
    }

    /// An inbound exchange is forgotten, and its place in the receive window is free.
    pub open spec fn forgotten(before: SessionState, after: SessionState, packet_id: u16) -> bool {
        &&& after.pubrecs@ == before.pubrecs@.remove(packet_id)
        &&& after.delivered@ == before.delivered@.remove(packet_id)
        &&& after.acked@ == before.acked@.remove(packet_id)
        &&& after.flow.received() == before.flow.received().remove(packet_id as u64)
        &&& after.flow.same_outbound(&before.flow)
        &&& after.flow.inbound_maximum() == before.flow.inbound_maximum()
        &&& after == (SessionState {
            pubrecs: after.pubrecs,
            delivered: after.delivered,
            acked: after.acked,
            flow: after.flow,
            ..before
        })
    }
}

impl Default for AckDispatcher {
    fn default() -> (r: Self)
        ensures
            r.wf(),
            r.ranks().first() == 0,
            r.ranks().places() == Seq::<Option<AckRequest>>::empty(),
    {
        AckDispatcher::new()
    }
}

/// A callback for messages that the application acknowledges.
#[derive(Debug)]
pub struct AckCallbackEntry {
    pub callback: u64,
    pub topic_filter: String,
}

/// The callbacks for messages that the application acknowledges. A message goes to exactly one of
/// them: its token has a single owner.
#[derive(Debug)]
pub struct AckCallbackManager {
    exact: TextMap<AckCallbackEntry>,
    wildcard: Vec<AckCallbackEntry>,
    next_id: u64,
}

/// The first callback of a list whose filter matches a topic.
pub open spec fn first_match(list: Seq<AckCallbackEntry>, topic: Seq<char>) -> Option<u64>
    decreases list.len(),
{
    if list.len() == 0 {
        None
    } else if crate::topic::topic_matches(topic, crate::topic::unshared(list[0].topic_filter@)) {
        Some(list[0].callback)
    } else {
        first_match(list.drop_first(), topic)
    }
}

/// The callbacks for other filters.
pub open spec fn others(list: Seq<AckCallbackEntry>, topic_filter: Seq<char>) -> Seq<
    AckCallbackEntry,
> {
    list.filter(|e: AckCallbackEntry| e.topic_filter@ != topic_filter)
}

impl AckCallbackManager {
    /// The callbacks for topics, by topic.
    pub closed spec fn by_topic(&self) -> Map<Seq<char>, AckCallbackEntry> {
        self.exact@
    }

    /// The callbacks for filters with wildcards, in order.
    pub closed spec fn by_filter(&self) -> Seq<AckCallbackEntry> {
        self.wildcard@
    }

    /// The number of the callback that comes next.
    pub closed spec fn upcoming(&self) -> u64 {
        self.next_id
    }

    /// No topic stands twice.
    pub closed spec fn wf(&self) -> bool {
        self.exact.wf()
    }

    /// There are no callbacks.
    pub fn new() -> (r: Self)
        ensures
            r.wf(),
            r.by_topic() == Map::<Seq<char>, AckCallbackEntry>::empty(),
            r.by_filter() == Seq::<AckCallbackEntry>::empty(),
            r.upcoming() == 1,
    {
        AckCallbackManager { exact: TextMap::new(), wildcard: Vec::new(), next_id: 1 }
    }

    fn drop_filter(&mut self, topic_filter: &str) -> (r: bool)
        requires
            old(self).wf(),
        ensures
            final(self).wf(),
            final(self).by_topic() == old(self).by_topic(),
            final(self).by_filter() == others(old(self).by_filter(), topic_filter@),
            final(self).upcoming() == old(self).upcoming(),
            r == (others(old(self).by_filter(), topic_filter@).len()
                < old(self).by_filter().len()),
    {
        let ghost all = self.wildcard@;
        let ghost other = |e: AckCallbackEntry| e.topic_filter@ != topic_filter@;
        let before: usize = self.wildcard.len();
        let mut taken: Vec<AckCallbackEntry> = Vec::new();
        std::mem::swap(&mut taken, &mut self.wildcard);
        let mut kept: Vec<AckCallbackEntry> = Vec::new();
        proof {
            reveal(Seq::filter);
        }
        assert(all.take(0) =~= Seq::<AckCallbackEntry>::empty());
        for entry in it: taken
            invariant
                it.seq() == all,
                other == (|e: AckCallbackEntry| e.topic_filter@ != topic_filter@),
                kept@ == all.take(it.index() as int).filter(other),
        {
            proof {
                reveal(Seq::filter);
                assert(all.take(it.index() + 1).drop_last() =~= all.take(it.index() as int));
                assert(all.take(it.index() + 1).last() == entry);
            }
            if !same_text(entry.topic_filter.as_str(), topic_filter) {
                kept.push(entry);
            }
        }
        assert(all.take(all.len() as int) =~= all);
        let fewer = kept.len() < before;
        self.wildcard = kept;
        fewer
    }

    /// Registers a callback for a filter and gives its number. One for the same filter is replaced.
    pub fn register(&mut self, topic_filter: &str) -> (r: u64)
        requires
            old(self).wf(),
        ensures
            final(self).wf(),
            r == old(self).upcoming(),
            final(self).upcoming() == (old(self).upcoming() + 1) % 0x1_0000_0000_0000_0000,
            ({
                let actual = crate::topic::unshared(topic_filter@);
                if crate::topic::has_wildcard(actual) {
                    let list = final(self).by_filter();
                    &&& list.len() > 0
                    &&& list.drop_last() == others(old(self).by_filter(), topic_filter@)
                    &&& list.last().callback == r
                    &&& list.last().topic_filter@ == topic_filter@
                    &&& final(self).by_topic() == old(self).by_topic()
                } else {
                    &&& final(self).by_filter() == old(self).by_filter()
                    &&& final(self).by_topic().contains_key(actual)
                    &&& final(self).by_topic() == old(self).by_topic().insert(
                        actual,
                        final(self).by_topic()[actual],
                    )
                    &&& final(self).by_topic()[actual].callback == r
                    &&& final(self).by_topic()[actual].topic_filter@ == topic_filter@
                }
            }),
    {
        let id: u64 = self.next_id;
        self.next_id = id.wrapping_add(1);
        let entry = AckCallbackEntry { callback: id, topic_filter: owned(topic_filter) };
        let actual = strip_shared_subscription_prefix(topic_filter);
        if is_wildcard_filter(actual.as_str()) {
            let _ = self.drop_filter(topic_filter);
            let ghost before = self.wildcard@;
            self.wildcard.push(entry);
            assert(self.wildcard@.drop_last() =~= before);
        } else {
            let _ = self.exact.insert(actual, entry);
        }
        id
    }

    /// Removes the callbacks for a filter; `true` says that there were any.
    pub fn unregister(&mut self, topic_filter: &str) -> (r: bool)
        requires
            old(self).wf(),
        ensures
            final(self).wf(),
            final(self).upcoming() == old(self).upcoming(),
            final(self).by_topic() == old(self).by_topic().remove(
                crate::topic::unshared(topic_filter@),
            ),
            final(self).by_filter() == others(old(self).by_filter(), topic_filter@),
            r == (old(self).by_topic().contains_key(crate::topic::unshared(topic_filter@)) || others(
                old(self).by_filter(),
                topic_filter@,
            ).len() < old(self).by_filter().len()),
    {
        let actual = strip_shared_subscription_prefix(topic_filter);
        let removed_exact = self.exact.remove(actual.as_str()).is_some();
        let removed_wildcard = self.drop_filter(topic_filter);
        removed_exact || removed_wildcard
    }

    /// The one callback for a topic: the one for the topic itself, or else the first whose filter
    /// matches it.
    pub fn find_one(&self, topic: &str) -> (r: Option<u64>)
        requires
            self.wf(),
        ensures
            r == (if self.by_topic().contains_key(topic@) {
                Some(self.by_topic()[topic@].callback)
            } else {
                first_match(self.by_filter(), topic@)
            }),
    {
        if let Some(entry) = self.exact.get(topic) {
            return Some(entry.callback);
        }
        let ghost list = self.wildcard@;
        let mut i: usize = 0;
        assert(list.skip(0) =~= list);
        while i < self.wildcard.len()
            invariant
                list == self.wildcard@,
                i <= list.len(),
                !self.by_topic().contains_key(topic@),
                first_match(list.skip(i as int), topic@) == first_match(list, topic@),
            decreases list.len() - i,
        {
            assert(list.skip(i as int).drop_first() =~= list.skip(i + 1));
            assert(list.skip(i as int)[0] == list[i as int]);
            let filter = strip_shared_subscription_prefix(self.wildcard[i].topic_filter.as_str());
            if topic_matches_filter(topic, filter.as_str()) {
                return Some(self.wildcard[i].callback);
            }
            i = i + 1;
        }
        assert(list.skip(list.len() as int).len() == 0);
        None
    }
}

/// A rejection carries the reason that was given, if an acknowledgement may carry it and it is an error;
/// otherwise an unspecified error. An acknowledgement succeeds, and one that was forgotten fails.
pub proof fn law_decision_is_told(reason: ReasonCode)
    ensures
        reason.error() && reason.publish_ack() ==> rejection_code(reason) == reason,
        !(reason.error() && reason.publish_ack()) ==> rejection_code(reason)
            == ReasonCode::UnspecifiedError,
        decision_code(AckKind::Ack) == ReasonCode::Success,
        decision_code(AckKind::Reject(reason)) == reason,
        decision_code(AckKind::DropAuto).error(),
{
}

/// Of the callbacks with a wildcard, the first registered one whose filter matches gets the message.
pub proof fn law_first_matching_callback_gets_the_message(
    list: Seq<AckCallbackEntry>,
    topic: Seq<char>,
    i: int,
)
    requires
        0 <= i < list.len(),
        crate::topic::topic_matches(topic, crate::topic::unshared(list[i].topic_filter@)),
        forall|j: int|
            0 <= j < i ==> !crate::topic::topic_matches(
                topic,
                crate::topic::unshared((#[trigger] list[j]).topic_filter@),
            ),
    ensures
        first_match(list, topic) == Some(list[i].callback),
    decreases i,
{
    if i > 0 {
        let rest = list.drop_first();
        assert(!crate::topic::topic_matches(
            topic,
            crate::topic::unshared(list[0].topic_filter@),
        ));
        assert forall|j: int| 0 <= j < i - 1 implies !crate::topic::topic_matches(
            topic,
            crate::topic::unshared((#[trigger] rest[j]).topic_filter@),
        ) by {
            assert(rest[j] == list[j + 1]);
        }
        law_first_matching_callback_gets_the_message(rest, topic, i - 1);
    }
}

/// An exchange that is over is forgotten in every respect, and no other is.
pub proof fn law_exchange_that_is_over_is_forgotten(
    before: SessionState,
    after: SessionState,
    packet_id: u16,
    other: u16,
)
    requires
        AckDispatcher::forgotten(before, after, packet_id),
        other != packet_id,
    ensures
        !after.pubrecs@.contains(packet_id),
        !after.delivered@.contains(packet_id),
        !after.acked@.contains(packet_id),
        !after.flow.received().contains_key(packet_id as u64),
        after.pubrecs@.contains(other) == before.pubrecs@.contains(other),
        after.delivered@.contains(other) == before.delivered@.contains(other),
        after.flow.received().contains_key(other as u64) == before.flow.received().contains_key(
            other as u64,
        ),
        after.outbound == before.outbound,
{
}

} // verus!
