//! How a publish ends.

use crate::error::{MqttError, ReasonCode, Result};
use crate::id_map::IdMap;
use crate::types::QoS;
use vstd::prelude::*;

verus! {

/// How long, in milliseconds, a publish waits for its acknowledgement before the caller is told
/// that it stays in flight.
pub const ACKNOWLEDGEMENT_WAIT: u64 = 10_000;

/// How a publish reached the server.
///
/// QoS 0 has no acknowledgement, so a message that went out at QoS 0 (requested, or downgraded to
/// the server's maximum) is `Unconfirmed`: it was written to the connection, but the server never
/// confirms receipt.
#[derive(Debug, Clone, Copy, PartialEq, Eq, Structural)]
pub enum Delivery {
    /// Written at QoS 0. Receipt is not confirmed by the server.
    Unconfirmed,
    /// Sent at QoS 1 and acknowledged with a successful PUBACK.
    AtLeastOnce { packet_id: u16 },
    /// Sent at QoS 2 and completed with PUBCOMP.
    ExactlyOnce { packet_id: u16 },
}

impl Delivery {
    /// The delivery of a message that was sent with a quality of service and an identifier.
    pub open spec fn with(qos: QoS, packet_id: Option<u16>) -> Delivery {
        match (qos, packet_id) {
            (QoS::AtLeastOnce, Some(packet_id)) => Delivery::AtLeastOnce { packet_id },
            (QoS::ExactlyOnce, Some(packet_id)) => Delivery::ExactlyOnce { packet_id },
            _ => Delivery::Unconfirmed,
        }
    }

    /// The delivery of a message that was sent with a quality of service and an identifier.
    pub fn of(qos: QoS, packet_id: Option<u16>) -> (r: Self)
        ensures
            r == Delivery::with(qos, packet_id),
    {
        match (qos, packet_id) {
            (QoS::AtLeastOnce, Some(packet_id)) => Delivery::AtLeastOnce { packet_id },
            (QoS::ExactlyOnce, Some(packet_id)) => Delivery::ExactlyOnce { packet_id },
            _ => Delivery::Unconfirmed,
        }
    }

    /// The quality of service with which the message was actually sent. It is lower than the
    /// requested one when the server's maximum forced a downgrade.
    pub fn qos_used(self) -> (r: QoS)
        ensures
            r == match self {
                Delivery::Unconfirmed => QoS::AtMostOnce,
                Delivery::AtLeastOnce { .. } => QoS::AtLeastOnce,
                Delivery::ExactlyOnce { .. } => QoS::ExactlyOnce,
            },
    {
        match self {
            Delivery::Unconfirmed => QoS::AtMostOnce,
            Delivery::AtLeastOnce { .. } => QoS::AtLeastOnce,
            Delivery::ExactlyOnce { .. } => QoS::ExactlyOnce,
        }
    }

    /// The packet identifier of an acknowledged delivery.
    pub open spec fn identifier(self) -> Option<u16> {
        match self {
            Delivery::Unconfirmed => None,
            Delivery::AtLeastOnce { packet_id } => Some(packet_id),
            Delivery::ExactlyOnce { packet_id } => Some(packet_id),
        }
    }

    /// The packet identifier of an acknowledged delivery.
    pub fn packet_id(self) -> (r: Option<u16>)
        ensures
            r == self.identifier(),
    {
        match self {
            Delivery::Unconfirmed => None,
            Delivery::AtLeastOnce { packet_id } => Some(packet_id),
            Delivery::ExactlyOnce { packet_id } => Some(packet_id),
        }
    }
}

/// Why a publish was definitely not delivered.
#[derive(Debug, Clone, Copy, PartialEq, Eq, Structural)]
pub enum PublishRejection {
    /// The message is retained but the server does not retain messages.
    RetainNotSupported,
    /// The encoded PUBLISH exceeds the server's maximum packet size.
    PacketTooLarge,
    /// The server does not support the requested quality of service.
    QoSNotSupported,
    /// The server refused the message with this reason code in PUBACK or PUBREC.
    Refused(ReasonCode),
    /// The client could not encode or record the message.
    Unsendable,
}

impl PublishRejection {
    /// The rejection that an error stands for.
    pub open spec fn of_error(error: MqttError) -> PublishRejection {
        match error {
            MqttError::RetainNotSupported => PublishRejection::RetainNotSupported,
            MqttError::PacketTooLarge { .. } => PublishRejection::PacketTooLarge,
            MqttError::QoSNotSupported => PublishRejection::QoSNotSupported,
            MqttError::PublishFailed(reason_code) => PublishRejection::Refused(reason_code),
            _ => PublishRejection::Unsendable,
        }
    }

    /// The rejection that an error stands for.
    pub fn from_error(error: &MqttError) -> (r: Self)
        ensures
            r == PublishRejection::of_error(*error),
    {
        match error {
            MqttError::RetainNotSupported => PublishRejection::RetainNotSupported,
            MqttError::PacketTooLarge { .. } => PublishRejection::PacketTooLarge,
            MqttError::QoSNotSupported => PublishRejection::QoSNotSupported,
            MqttError::PublishFailed(reason_code) => PublishRejection::Refused(*reason_code),
            _ => PublishRejection::Unsendable,
        }
    }
}

/// Why the delivery of a publish cannot be determined: it may or may not have reached the server.
#[derive(Debug, Clone, Copy, PartialEq, Eq, Structural)]
pub enum IndeterminateReason {
    /// The client asked to resume its session but the server did not, while a QoS 2 exchange was
    /// unacknowledged. Unacknowledged QoS 1 messages are sent again instead.
    SessionLost,
    /// The client connected with a clean start and discarded its session state while the exchange
    /// was unacknowledged.
    SessionDiscarded,
    /// A message that had already been sent no longer conforms to the capabilities of the new
    /// connection, so it was not sent again.
    ReplayNotConforming,
    /// A message that had already been sent was refused when it was sent again.
    ResendRefused(ReasonCode),
    /// The connection failed while a message downgraded to QoS 0 was being written.
    ConnectionLost,
    /// The client went away before the publish settled.
    Abandoned,
}

/// Final outcome of a publish.
#[derive(Debug, Clone, Copy, PartialEq, Eq, Structural)]
pub enum PublishOutcome {
    /// The message reached the server.
    Delivered(Delivery),
    /// The message was definitely not delivered.
    Rejected(PublishRejection),
    /// The message may have been delivered.
    Indeterminate(IndeterminateReason),
}

/// Where a publish stands.
#[derive(Debug, Clone, Copy, PartialEq, Eq, Structural)]
pub enum Progress {
    /// It has not settled.
    Pending,
    /// It has settled.
    Settled(PublishOutcome),
    /// Whoever could settle it is gone.
    Dropped,
}

/// The pending outcome of a publish. It belongs to the publish itself, never to a packet
/// identifier, so the reuse of identifiers cannot settle the wrong publish.
#[derive(Debug, Clone, Copy, PartialEq, Eq, Structural)]
pub struct PublishHandle {
    pub publish: u64,
}

/// The right to settle a publish, once.
#[derive(Debug)]
pub struct Completion {
    publish: u64,
    resent: bool,
}

impl Completion {
    /// The publish that is settled.
    pub closed spec fn subject(&self) -> u64 {
        self.publish
    }

    /// Whether the message has been sent more than once.
    pub closed spec fn was_resent(&self) -> bool {
        self.resent
    }

    /// Records that the message is sent once more.
    pub fn mark_resent(&mut self)
        ensures
            final(self).subject() == old(self).subject(),
            final(self).was_resent(),
    {
        self.resent = true;
    }
}

/// The outcome of a publish that was rejected: one that has been sent before may have arrived
/// then.
pub open spec fn rejection_outcome(resent: bool, rejection: PublishRejection) -> PublishOutcome {
    if !resent {
        PublishOutcome::Rejected(rejection)
    } else {
        match rejection {
            PublishRejection::Refused(reason_code) => PublishOutcome::Indeterminate(
                IndeterminateReason::ResendRefused(reason_code),
            ),
            _ => PublishOutcome::Indeterminate(IndeterminateReason::ReplayNotConforming),
        }
    }
}

/// The publishes of a client and where they stand.
#[derive(Debug)]
pub struct Ledger {
    progress: IdMap<Progress>,
    next: u64,
}

impl View for Ledger {
    type V = Map<u64, Progress>;

    closed spec fn view(&self) -> Map<u64, Progress> {
        self.progress@
    }
}

impl Ledger {
    /// The number of the publish that comes next.
    pub closed spec fn upcoming(&self) -> u64 {
        self.next
    }

    /// No publish stands twice.
    pub closed spec fn wf(&self) -> bool {
        self.progress.wf()
    }

    /// The ledger after a publish has settled.
    pub open spec fn settled(before: Map<u64, Progress>, publish: u64, outcome: PublishOutcome) -> Map<
        u64,
        Progress,
    > {
        before.insert(publish, Progress::Settled(outcome))
    }

    /// A publish began, and it has a number of its own; or none did.
    pub open spec fn begun(before: Ledger, after: Ledger, handle: Option<PublishHandle>) -> bool {
        match handle {
            Some(handle) => {
                &&& handle.publish == before.upcoming()
                &&& after.upcoming() == (before.upcoming() + 1) % 0x1_0000_0000_0000_0000
            },
            None => after.upcoming() == before.upcoming(),
        }
    }

    /// A ledger without publishes.
    pub fn new() -> (r: Self)
        ensures
            r.wf(),
            r@ == Map::<u64, Progress>::empty(),
            r.upcoming() == 0,
    {
        Ledger { progress: IdMap::new(), next: 0 }
    }

    /// Begins a publish that will settle.
    pub fn open(&mut self) -> (r: (Completion, PublishHandle))
        requires
            old(self).wf(),
        ensures
            final(self).wf(),
            final(self)@ == old(self)@.insert(old(self).upcoming(), Progress::Pending),
            final(self).upcoming() == (old(self).upcoming() + 1) % 0x1_0000_0000_0000_0000,
            r.0.subject() == old(self).upcoming(),
            !r.0.was_resent(),
            r.1.publish == old(self).upcoming(),
    {
        let publish: u64 = self.next;
        self.next = publish.wrapping_add(1);
        let _ = self.progress.insert(publish, Progress::Pending);
        (Completion { publish, resent: false }, PublishHandle { publish })
    }

    /// A handle on a publish that has settled from the start.
    pub fn resolved(&mut self, outcome: PublishOutcome) -> (r: PublishHandle)
        requires
            old(self).wf(),
        ensures
            final(self).wf(),
            r.publish == old(self).upcoming(),
            final(self)@ == Ledger::settled(old(self)@, old(self).upcoming(), outcome),
            final(self).upcoming() == (old(self).upcoming() + 1) % 0x1_0000_0000_0000_0000,
    {
        let publish: u64 = self.next;
        self.next = publish.wrapping_add(1);
        let _ = self.progress.insert(publish, Progress::Settled(outcome));
        PublishHandle { publish }
    }

    /// Settles a publish.
    pub fn settle(&mut self, completion: Completion, outcome: PublishOutcome)
        requires
            old(self).wf(),
        ensures
            final(self).wf(),
            final(self)@ == Ledger::settled(old(self)@, completion.subject(), outcome),
            final(self).upcoming() == old(self).upcoming(),
    {
        let _ = self.progress.insert(completion.publish, Progress::Settled(outcome));
    }

    /// Settles a publish that reached the server.
    pub fn delivered(&mut self, completion: Completion, delivery: Delivery)
        requires
            old(self).wf(),
        ensures
            final(self).wf(),
            final(self)@ == Ledger::settled(
                old(self)@,
                completion.subject(),
                PublishOutcome::Delivered(delivery),
            ),
            final(self).upcoming() == old(self).upcoming(),
    {
        self.settle(completion, PublishOutcome::Delivered(delivery));
    }

    /// Settles a publish that was rejected.
    pub fn rejected(&mut self, completion: Completion, rejection: PublishRejection)
        requires
            old(self).wf(),
        ensures
            final(self).wf(),
            final(self)@ == Ledger::settled(
                old(self)@,
                completion.subject(),
                rejection_outcome(completion.was_resent(), rejection),
            ),
            final(self).upcoming() == old(self).upcoming(),
    {
        let outcome = if !completion.resent {
            PublishOutcome::Rejected(rejection)
        } else {
            match rejection {
                PublishRejection::Refused(reason_code) => PublishOutcome::Indeterminate(
                    IndeterminateReason::ResendRefused(reason_code),
                ),
                _ => PublishOutcome::Indeterminate(IndeterminateReason::ReplayNotConforming),
            }
        };
        self.settle(completion, outcome);
    }

    /// Settles a publish of which it is not known whether it reached the server.
    pub fn indeterminate(&mut self, completion: Completion, reason: IndeterminateReason)
        requires
            old(self).wf(),
        ensures
            final(self).wf(),
            final(self)@ == Ledger::settled(
                old(self)@,
                completion.subject(),
                PublishOutcome::Indeterminate(reason),
            ),
            final(self).upcoming() == old(self).upcoming(),
    {
        self.settle(completion, PublishOutcome::Indeterminate(reason));
    }

    /// Gives up the right to settle a publish.
    pub fn dropped(&mut self, completion: Completion)
        requires
            old(self).wf(),
        ensures
            final(self).wf(),
            final(self)@ == old(self)@.insert(completion.subject(), Progress::Dropped),
            final(self).upcoming() == old(self).upcoming(),
    {
        let _ = self.progress.insert(completion.publish, Progress::Dropped);
    }

    /// The outcome if the publish has already settled.
    pub fn try_outcome(&self, handle: PublishHandle) -> (r: Option<PublishOutcome>)
        requires
            self.wf(),
        ensures
            r == (if self@.contains_key(handle.publish) {
                match self@[handle.publish] {
                    Progress::Settled(outcome) => Some(outcome),
                    _ => None,
                }
            } else {
                None
            }),
    {
        match self.progress.get(handle.publish) {
            Some(Progress::Settled(outcome)) => Some(*outcome),
            _ => None,
        }
    }

    /// What waiting for a publish ends with: its outcome, or that it was abandoned. `None` while
    /// it has to be waited for.
    pub open spec fn awaited(progress: Map<u64, Progress>, publish: u64) -> Option<PublishOutcome> {
        if progress.contains_key(publish) {
            match progress[publish] {
                Progress::Pending => None,
                Progress::Settled(outcome) => Some(outcome),
                Progress::Dropped => Some(
                    PublishOutcome::Indeterminate(IndeterminateReason::Abandoned),
                ),
            }
        } else {
            Some(PublishOutcome::Indeterminate(IndeterminateReason::Abandoned))
        }
    }

    /// What waiting for a publish ends with; `None` while it has to be waited for.
    pub fn outcome(&self, handle: PublishHandle) -> (r: Option<PublishOutcome>)
        requires
            self.wf(),
        ensures
            r == Ledger::awaited(self@, handle.publish),
    {
        match self.progress.get(handle.publish) {
            Some(Progress::Pending) => None,
            Some(Progress::Settled(outcome)) => Some(*outcome),
            Some(Progress::Dropped) => Some(
                PublishOutcome::Indeterminate(IndeterminateReason::Abandoned),
            ),
            None => Some(PublishOutcome::Indeterminate(IndeterminateReason::Abandoned)),
        }
    }

}

/// Result of a publish call.
///
/// A publish on a live connection normally settles before the call returns. `Queued` means that
/// it has not settled yet, and its handle yields the eventual outcome.
#[derive(Debug, Clone, Copy, PartialEq, Eq, Structural)]
pub enum PublishResult {
    /// Sent on the live connection.
    Sent(Delivery),
    /// Queued offline, or in flight across a connection loss; the handle settles later.
    Queued(PublishHandle),
}

impl PublishResult {
    /// The packet identifier of a publish acknowledged on the live connection.
    pub fn packet_id(&self) -> (r: Option<u16>)
        ensures
            r == match *self {
                PublishResult::Sent(delivery) => delivery.identifier(),
                PublishResult::Queued(_) => None,
            },
    {
        match self {
            PublishResult::Sent(delivery) => delivery.packet_id(),
            PublishResult::Queued(_) => None,
        }
    }

    /// The final outcome of either kind of publish; `None` while it has to be waited for.
    pub fn outcome(&self, ledger: &Ledger) -> (r: Option<PublishOutcome>)
        requires
            ledger.wf(),
        ensures
            r == match *self {
                PublishResult::Sent(delivery) => Some(PublishOutcome::Delivered(delivery)),
                PublishResult::Queued(handle) => Ledger::awaited(ledger@, handle.publish),
            },
    {
        match self {
            PublishResult::Sent(delivery) => Some(PublishOutcome::Delivered(*delivery)),
            PublishResult::Queued(handle) => ledger.outcome(*handle),
        }
    }
}

/// What ends the wait for the acknowledgement of a publish in flight.
#[derive(Debug, Clone, Copy, PartialEq, Eq, Structural)]
pub enum WaitEnd {
    /// The publish has settled.
    Settled(PublishOutcome),
    /// The connection has ended.
    LinkEnded,
    /// The acknowledgement did not come in time.
    TimedOut,
}

/// What the caller of a publish in flight is told. Only a refusal is an error: in every other case
/// the publish stays in flight with the session.
pub fn settle_in_flight(handle: PublishHandle, end: WaitEnd) -> (r: Result<PublishResult>)
    ensures
        match end {
            WaitEnd::Settled(PublishOutcome::Delivered(delivery)) => r == Ok::<_, MqttError>(
                PublishResult::Sent(delivery),
            ),
            WaitEnd::Settled(PublishOutcome::Rejected(PublishRejection::Refused(reason_code))) => r
                == Err::<PublishResult, MqttError>(MqttError::PublishFailed(reason_code)),
            _ => r == Ok::<_, MqttError>(PublishResult::Queued(handle)),
        },
{
    match end {
        WaitEnd::Settled(PublishOutcome::Delivered(delivery)) => Ok(PublishResult::Sent(delivery)),
        WaitEnd::Settled(PublishOutcome::Rejected(PublishRejection::Refused(reason_code))) => Err(
            MqttError::PublishFailed(reason_code),
        ),
        _ => Ok(PublishResult::Queued(handle)),
    }
}

/// A publish that settled once is found with that outcome, whatever other publishes do.
pub proof fn law_outcome_belongs_to_the_publish(
    progress: Map<u64, Progress>,
    publish: u64,
    outcome: PublishOutcome,
    other: u64,
    other_outcome: PublishOutcome,
)
    requires
        publish != other,
    ensures
        Ledger::awaited(
            Ledger::settled(Ledger::settled(progress, publish, outcome), other, other_outcome),
            publish,
        ) == Some(outcome),
{
}

proof fn lemma_numbers_rise(
    history: Seq<Ledger>,
    handles: Seq<Option<PublishHandle>>,
    i: int,
    j: int,
)
    requires
        history.len() == handles.len() + 1,
        forall|k: int|
            #![trigger handles[k]]
            0 <= k < handles.len() ==> Ledger::begun(history[k], history[k + 1], handles[k])
                && history[k].upcoming() < u64::MAX,
        0 <= i <= j < history.len(),
    ensures
        history[i].upcoming() <= history[j].upcoming(),
    decreases j - i,
{
    if i < j {
        lemma_numbers_rise(history, handles, i, j - 1);
        assert(Ledger::begun(history[j - 1], history[j - 1 + 1], handles[j - 1]));
    }
}

/// As long as the numbers last, no two publishes share a handle, whatever happens in between: no
/// publish is told the outcome of another.
pub proof fn law_publishes_never_share_a_handle(
    history: Seq<Ledger>,
    handles: Seq<Option<PublishHandle>>,
    i: int,
    j: int,
)
    requires
        history.len() == handles.len() + 1,
        forall|k: int|
            #![trigger handles[k]]
            0 <= k < handles.len() ==> Ledger::begun(history[k], history[k + 1], handles[k])
                && history[k].upcoming() < u64::MAX,
        0 <= i < j < handles.len(),
        handles[i] is Some,
        handles[j] is Some,
    ensures
        handles[i]->0.publish < handles[j]->0.publish,
        handles[i]->0 != handles[j]->0,
{
    lemma_numbers_rise(history, handles, i + 1, j);
    assert(Ledger::begun(history[i], history[i + 1], handles[i]));
    assert(Ledger::begun(history[j], history[j + 1], handles[j]));
}

/// A message that was sent more than once is never reported as definitely not delivered.
pub proof fn law_resent_message_is_never_certainly_rejected(rejection: PublishRejection)
    ensures
        rejection_outcome(true, rejection) is Indeterminate,
{
}

/// A delivery tells with which quality of service and under which identifier a message was sent: one
/// that is acknowledged has its identifier, and any other is unconfirmed.
pub proof fn law_delivery_tells_how_a_message_was_sent(qos: QoS, packet_id: u16)
    ensures
        Delivery::with(QoS::AtMostOnce, Some(packet_id)) is Unconfirmed,
        Delivery::with(qos, None) is Unconfirmed,
        Delivery::with(qos, Some(packet_id)) is AtLeastOnce <==> qos == QoS::AtLeastOnce,
        Delivery::with(qos, Some(packet_id)) is ExactlyOnce <==> qos == QoS::ExactlyOnce,
        Delivery::with(qos, Some(packet_id)).identifier() == (if qos == QoS::AtMostOnce {
            None
        } else {
            Some(packet_id)
        }),
{
}

/// A rejection keeps its reason: a message that was sent once was rejected, for that reason, and of
/// one that was sent before it is only known why it was not taken the second time.
pub proof fn law_rejection_keeps_its_reason(rejection: PublishRejection, code: ReasonCode)
    ensures
        rejection_outcome(false, rejection) == PublishOutcome::Rejected(rejection),
        rejection_outcome(true, PublishRejection::Refused(code)) == PublishOutcome::Indeterminate(
            IndeterminateReason::ResendRefused(code),
        ),
        !(rejection is Refused) ==> rejection_outcome(true, rejection)
            == PublishOutcome::Indeterminate(IndeterminateReason::ReplayNotConforming),
{
}

/// An error is reported as what it is: what the server refused with its code, and what it does not
/// take as that.
pub proof fn law_error_is_reported_as_what_it_is(error: MqttError)
    ensures
        PublishRejection::of_error(error) is RetainNotSupported <==> error is RetainNotSupported,
        PublishRejection::of_error(error) is PacketTooLarge <==> error is PacketTooLarge,
        PublishRejection::of_error(error) is QoSNotSupported <==> error is QoSNotSupported,
        error matches MqttError::PublishFailed(code) ==> PublishRejection::of_error(error)
            == PublishRejection::Refused(code),
        PublishRejection::of_error(error) is Refused ==> error is PublishFailed,
{
}

/// A publish is waited for until it settles, and then has the outcome with which it settled; one that
/// nobody can settle any more has an unknown one. Other publishes are not touched.
pub proof fn law_publish_is_waited_for_until_it_settles(
    progress: Map<u64, Progress>,
    publish: u64,
    outcome: PublishOutcome,
    other: u64,
)
    requires
        other != publish,
    ensures
        Ledger::awaited(progress.insert(publish, Progress::Pending), publish) is None,
        Ledger::awaited(Ledger::settled(progress, publish, outcome), publish) == Some(outcome),
        Ledger::awaited(progress.insert(publish, Progress::Dropped), publish) == Some(
            PublishOutcome::Indeterminate(IndeterminateReason::Abandoned),
        ),
        Ledger::awaited(Ledger::settled(progress, publish, outcome), other) == Ledger::awaited(
            progress,
            other,
        ),
{
}

} // verus!
