//! How many messages may be in flight in each direction.
//!
//! A permit is taken for each message that is sent and comes back with its acknowledgement. Who
//! waits for a permit does so outside and asks again; a quota has a number, by which a permit that
//! was taken from an earlier one is recognised.
//!
//! Time is a number of milliseconds on a clock that the caller reads; intervals are milliseconds.

use crate::error::{MqttError, Result};
use crate::id_map::IdMap;
use vstd::prelude::*;

verus! {

/// The most permits that a quota can have.
pub const MAX_PERMITS: usize = usize::MAX / 8;

/// A number of permits that can be taken and given back.
#[derive(Debug, Clone, Copy, PartialEq, Eq, Structural)]
pub struct Quota {
    pub number: u64,
    pub permits: usize,
    pub closed: bool,
}

/// Limits on waiting.
#[derive(Debug, Clone, Copy, PartialEq, Eq, Structural)]
pub struct FlowControlConfig {
    /// How long a message may be in flight.
    pub in_flight_timeout: u64,
    /// How long a publish may wait for a permit; without it, as long as it takes.
    pub backpressure_timeout: Option<u64>,
}

impl Default for FlowControlConfig {
    fn default() -> (r: Self)
        ensures
            r == (FlowControlConfig { in_flight_timeout: 60_000, backpressure_timeout: None }),
    {
        FlowControlConfig { in_flight_timeout: 60_000, backpressure_timeout: None }
    }
}

/// What is in flight.
#[derive(Debug, Clone, Copy, PartialEq, Eq, Structural)]
pub struct FlowControlStats {
    pub receive_maximum: u16,
    pub in_flight_count: usize,
    pub available_quota: usize,
    /// Requests that wait in a queue of their own. Publishers wait on the quota itself, so there
    /// are none.
    pub pending_requests: usize,
    pub oldest_in_flight: Option<u64>,
}

/// What asking a quota for a permit gives.
#[derive(Debug, Clone, Copy, PartialEq, Eq, Structural)]
pub enum Permit {
    Taken,
    Empty,
    Closed,
}

/// How acquiring a permit begins.
#[derive(Debug, Clone, Copy, PartialEq, Eq, Structural)]
pub enum AcquireStart {
    /// There is no limit.
    Unlimited,
    /// A permit of the quota with this number is needed within the time, if there is one.
    Wait { quota: u64, timeout: Option<u64> },
}

/// What happened to a publish that waits for a permit.
#[derive(Debug, Clone, Copy, PartialEq, Eq, Structural)]
pub enum AcquireEvent {
    Permit,
    Closed,
    TimedOut,
}

/// Where a publish that waited for a permit stands.
#[derive(Debug)]
pub enum AcquireStep {
    /// It may be sent, or has failed.
    Done(Result<()>),
    /// It begins again: the quota was replaced.
    Again,
}

/// Of a list of messages in flight, those that were sent longer ago than a time, in order.
pub open spec fn overdue(list: Seq<(u64, u64)>, timeout: u64, now: u64) -> Seq<u16>
    decreases list.len(),
{
    if list.len() == 0 {
        Seq::empty()
    } else {
        let rest = overdue(list.drop_last(), timeout, now);
        if now - list.last().1 > timeout {
            rest.push(list.last().0 as u16)
        } else {
            rest
        }
    }
}

/// The identifiers in a list, all sent at one moment.
pub open spec fn sent_at(ids: Seq<u16>, now: u64) -> Map<u64, u64>
    decreases ids.len(),
{
    if ids.len() == 0 {
        Map::empty()
    } else {
        sent_at(ids.drop_last(), now).insert(ids.last() as u64, now)
    }
}

/// The list of the messages in flight when the identifiers in a list are all sent at one moment.
pub open spec fn listed_at(ids: Seq<u16>, now: u64) -> Seq<(u64, u64)>
    decreases ids.len(),
{
    if ids.len() == 0 {
        Seq::empty()
    } else {
        crate::id_map::placed(listed_at(ids.drop_last(), now), ids.last() as u64, now)
    }
}

/// The list of the messages in flight without those in a list; the others keep their order.
pub open spec fn unlisted(list: Seq<(u64, u64)>, ids: Seq<u16>) -> Seq<(u64, u64)>
    decreases ids.len(),
{
    if ids.len() == 0 {
        list
    } else {
        crate::id_map::without_key(unlisted(list, ids.drop_last()), ids.last() as u64)
    }
}

/// The messages in flight without those in a list.
pub open spec fn without(in_flight: Map<u64, u64>, ids: Seq<u16>) -> Map<u64, u64>
    decreases ids.len(),
{
    if ids.len() == 0 {
        in_flight
    } else {
        without(in_flight, ids.drop_last()).remove(ids.last() as u64)
    }
}

/// The earliest of the moments in a list.
pub open spec fn earliest(list: Seq<(u64, u64)>) -> Option<u64>
    decreases list.len(),
{
    if list.len() == 0 {
        None
    } else {
        match earliest(list.drop_last()) {
            None => Some(list.last().1),
            Some(t) => if list.last().1 < t {
                Some(list.last().1)
            } else {
                Some(t)
            },
        }
    }
}

/// How many permits are left of a receive maximum when some messages are in flight.
pub open spec fn room(receive_maximum: u16, held: nat) -> int {
    if receive_maximum == 0 {
        MAX_PERMITS as int
    } else if receive_maximum > held {
        receive_maximum - held
    } else {
        0
    }
}

/// How many acknowledgements have to come before a permit does, when more messages are in flight
/// than the receive maximum allows.
pub open spec fn debt_of(receive_maximum: u16, held: nat) -> int {
    if receive_maximum != 0 && held > receive_maximum {
        held - receive_maximum
    } else {
        0
    }
}

/// Counts the messages in flight in each direction.
#[derive(Debug)]
pub struct FlowControlManager {
    receive_maximum: u16,
    in_flight: IdMap<u64>,
    quota: Quota,
    replay_slots: Option<Quota>,
    next_number: u64,
    quota_debt: usize,
    config: FlowControlConfig,
    inbound_receive_maximum: u16,
    inbound_in_flight: IdMap<u64>,
}

impl FlowControlManager {
    /// How many messages the peer takes at a time; zero for no limit.
    pub closed spec fn maximum(&self) -> u16 {
        self.receive_maximum
    }

    /// The messages in flight to the peer, with the moments at which they were sent.
    pub closed spec fn sent(&self) -> Map<u64, u64> {
        self.in_flight@
    }

    /// The messages in flight to the peer, in order.
    pub closed spec fn sent_list(&self) -> Seq<(u64, u64)> {
        self.in_flight.listing()
    }

    /// The quota for new messages.
    pub closed spec fn main_quota(&self) -> Quota {
        self.quota
    }

    /// The quota for messages that are sent again, while that goes on.
    pub closed spec fn replay_quota(&self) -> Option<Quota> {
        self.replay_slots
    }

    /// The number of the quota that comes next.
    pub closed spec fn next_quota(&self) -> u64 {
        self.next_number
    }

    /// How many acknowledgements have to come before a permit does.
    pub closed spec fn debt(&self) -> usize {
        self.quota_debt
    }

    /// The limits on waiting.
    pub closed spec fn settings(&self) -> FlowControlConfig {
        self.config
    }

    /// How many messages of the peer are taken at a time; zero for no limit.
    pub closed spec fn inbound_maximum(&self) -> u16 {
        self.inbound_receive_maximum
    }

    /// The messages in flight from the peer.
    pub closed spec fn received(&self) -> Map<u64, u64> {
        self.inbound_in_flight@
    }

    /// No identifier stands twice, and every one is an identifier.
    pub closed spec fn wf(&self) -> bool {
        &&& self.in_flight.wf()
        &&& self.inbound_in_flight.wf()
        &&& forall|k: u64| #[trigger] self.in_flight@.contains_key(k) ==> k <= u16::MAX
        &&& self.quota.permits <= MAX_PERMITS
        &&& self.replay_slots matches Some(q) ==> q.permits <= MAX_PERMITS
    }

    /// The list of messages to the peer holds each identifier once, with its moment; the messages in
    /// flight in either direction are finitely many.
    pub proof fn lemma_lists(&self)
        requires
            self.wf(),
        ensures
            crate::id_map::distinct_keys(self.sent_list()),
            self.sent() == crate::id_map::as_map(self.sent_list()),
            forall|k: u64| #[trigger] self.sent().contains_key(k) ==> k <= u16::MAX,
            self.sent().dom().finite(),
            self.sent().dom().len() == self.sent_list().len(),
            self.received().dom().finite(),
    {
        crate::id_map::lemma_as_map(self.sent_list());
        crate::id_map::lemma_as_map(self.inbound_in_flight.listing());
    }

    /// Nothing but the messages from the peer may differ.
    pub open spec fn same_outbound(&self, other: &FlowControlManager) -> bool {
        &&& self.maximum() == other.maximum()
        &&& self.sent() == other.sent()
        &&& self.sent_list() == other.sent_list()
        &&& self.main_quota() == other.main_quota()
        &&& self.replay_quota() == other.replay_quota()
        &&& self.next_quota() == other.next_quota()
        &&& self.debt() == other.debt()
        &&& self.settings() == other.settings()
    }

    /// The settings and the messages from the peer are the same.
    pub open spec fn same_inbound(&self, other: &FlowControlManager) -> bool {
        &&& self.settings() == other.settings()
        &&& self.inbound_maximum() == other.inbound_maximum()
        &&& self.received() == other.received()
    }

    /// Nothing but the permits and the messages to the peer may differ.
    pub open spec fn same_setup(&self, other: &FlowControlManager) -> bool {
        &&& self.maximum() == other.maximum()
        &&& self.next_quota() == other.next_quota()
        &&& self.main_quota().number == other.main_quota().number
        &&& self.main_quota().closed == other.main_quota().closed
        &&& self.replay_quota() is Some <==> other.replay_quota() is Some
        &&& self.replay_quota() is Some ==> self.replay_quota()->0.number
            == other.replay_quota()->0.number && self.replay_quota()->0.closed
            == other.replay_quota()->0.closed
        &&& self.same_inbound(other)
    }

    /// Permits that can be taken and messages in flight, less the permits that are owed. It equals
    /// the receive maximum as long as every permit that was taken belongs to a message in flight.
    pub open spec fn balance(&self) -> int {
        self.main_quota().permits + (match self.replay_quota() {
            Some(q) => q.permits as int,
            None => 0,
        }) + self.sent().dom().len() - self.debt()
    }

    /// Whether a number is that of a quota in use.
    pub open spec fn in_use(&self, quota: u64) -> bool {
        ||| quota == self.main_quota().number
        ||| (self.replay_quota() matches Some(q) && q.number == quota)
    }

    /// The quotas in use have numbers of their own, and those that come next have others. It holds
    /// until the numbers have been used up.
    pub open spec fn numbered(&self) -> bool {
        &&& self.main_quota().number < self.next_quota()
        &&& self.replay_quota() matches Some(q) ==> q.number < self.next_quota() && q.number
            != self.main_quota().number
    }

    /// Between two states no number was given out again: a quota that had come to its end before
    /// is not in use.
    pub open spec fn numbers_go_on(before: FlowControlManager, after: FlowControlManager) -> bool {
        &&& before.next_quota() <= after.next_quota()
        &&& after.numbered()
        &&& forall|q: u64|
            q < before.next_quota() && #[trigger] after.in_use(q) ==> before.in_use(q)
    }

    /// A manager with the default limits on waiting.
    pub fn new(receive_maximum: u16) -> (r: Self)
        ensures
            r.wf(),
            r.is_new(
                receive_maximum,
                (FlowControlConfig { in_flight_timeout: 60_000, backpressure_timeout: None }),
            ),
    {
        FlowControlManager::with_config(receive_maximum, FlowControlConfig::default())
    }

    /// Nothing is in flight.
    pub open spec fn is_new(&self, receive_maximum: u16, config: FlowControlConfig) -> bool {
        &&& self.maximum() == receive_maximum
        &&& self.settings() == config
        &&& self.sent() == Map::<u64, u64>::empty()
        &&& self.sent_list() == Seq::<(u64, u64)>::empty()
        &&& self.received() == Map::<u64, u64>::empty()
        &&& self.main_quota() == (Quota {
            number: 0,
            permits: room(receive_maximum, 0) as usize,
            closed: false,
        })
        &&& self.replay_quota() is None
        &&& self.next_quota() == 1
        &&& self.debt() == 0
        &&& self.inbound_maximum() == 65535
    }

    /// A manager with limits on waiting.
    pub fn with_config(receive_maximum: u16, config: FlowControlConfig) -> (r: Self)
        ensures
            r.wf(),
            r.is_new(receive_maximum, config),
    {
        let permits: usize = if receive_maximum == 0 {
            MAX_PERMITS
        } else {
            receive_maximum as usize
        };
        FlowControlManager {
            receive_maximum,
            in_flight: IdMap::new(),
            quota: Quota { number: 0, permits, closed: false },
            replay_slots: None,
            next_number: 1,
            quota_debt: 0,
            config,
            inbound_receive_maximum: 65535,
            inbound_in_flight: IdMap::new(),
        }
    }

    /// Sets how many messages of the peer are taken at a time.
    pub fn set_inbound_receive_maximum(&mut self, value: u16)
        requires
            old(self).wf(),
        ensures
            final(self).wf(),
            final(self).same_outbound(old(self)),
            final(self).inbound_maximum() == value,
            final(self).received() == old(self).received(),
    {
        self.inbound_receive_maximum = value;
    }

    /// How many messages of the peer are taken at a time.
    pub fn inbound_receive_maximum(&self) -> (r: u16)
        ensures
            r == self.inbound_maximum(),
    {
        self.inbound_receive_maximum
    }

    /// Takes a message of the peer in. One that is sent again counts once; one too many is refused.
    pub fn register_inbound_publish(&mut self, packet_id: u16, now: u64) -> (r: Result<()>)
        requires
            old(self).wf(),
        ensures
            final(self).wf(),
            final(self).same_outbound(old(self)),
            final(self).inbound_maximum() == old(self).inbound_maximum(),
            ({
                let limit = old(self).inbound_maximum();
                let known = old(self).received().contains_key(packet_id as u64);
                let full = old(self).received().dom().len() >= limit;
                &&& r is Err <==> limit != 0 && !known && full
                &&& r matches Err(e) ==> e == MqttError::ReceiveMaximumExceeded && *final(self)
                    == *old(self)
                &&& final(self).received() == (if limit == 0 || known || full {
                    old(self).received()
                } else {
                    old(self).received().insert(packet_id as u64, now)
                })
            }),
    {
        if self.inbound_receive_maximum == 0 {
            return Ok(());
        }
        if self.inbound_in_flight.contains_key(packet_id as u64) {
            return Ok(());
        }
        if self.inbound_in_flight.len() >= self.inbound_receive_maximum as usize {
            return Err(MqttError::ReceiveMaximumExceeded);
        }
        let _ = self.inbound_in_flight.insert(packet_id as u64, now);
        Ok(())
    }

    /// A message of the peer is done.
    pub fn acknowledge_inbound(&mut self, packet_id: u16)
        requires
            old(self).wf(),
        ensures
            final(self).wf(),
            final(self).same_outbound(old(self)),
            final(self).inbound_maximum() == old(self).inbound_maximum(),
            final(self).received() == old(self).received().remove(packet_id as u64),
    {
        let _ = self.inbound_in_flight.remove(packet_id as u64);
    }

    /// The number of messages in flight from the peer.
    pub fn inbound_in_flight_count(&self) -> (r: usize)
        requires
            self.wf(),
        ensures
            r == self.received().dom().len(),
    {
        self.inbound_in_flight.len()
    }

    /// Forgets the messages in flight from the peer.
    pub fn clear_inbound(&mut self)
        requires
            old(self).wf(),
        ensures
            final(self).wf(),
            final(self).same_outbound(old(self)),
            final(self).inbound_maximum() == old(self).inbound_maximum(),
            final(self).received() == Map::<u64, u64>::empty(),
    {
        self.inbound_in_flight.clear();
    }

    fn new_quota(&mut self, permits: usize) -> (r: Quota)
        requires
            old(self).wf(),
        ensures
            final(self).wf(),
            r == (Quota { number: old(self).next_quota(), permits, closed: false }),
            final(self).next_quota() == (old(self).next_quota() + 1) % 0x1_0000_0000_0000_0000,
            final(self).maximum() == old(self).maximum(),
            final(self).sent() == old(self).sent(),
            final(self).sent_list() == old(self).sent_list(),
            final(self).main_quota() == old(self).main_quota(),
            final(self).replay_quota() == old(self).replay_quota(),
            final(self).debt() == old(self).debt(),
            final(self).same_inbound(old(self)),
    {
        let number: u64 = self.next_number;
        self.next_number = number.wrapping_add(1);
        Quota { number, permits, closed: false }
    }

    /// Begins a connection. The messages that are still in flight keep their places: they count
    /// against the receive maximum, and those above it have to be acknowledged before a permit
    /// comes back. While messages are sent again, only that takes permits. The number of the quota
    /// for it is returned. The quotas of the connection are new, so that a permit of an earlier one
    /// is void.
    pub fn reset_for_connection(
        &mut self,
        receive_maximum: u16,
        retained_in_flight: &[u16],
        replay: bool,
        now: u64,
    ) -> (r: Option<u64>)
        requires
            old(self).wf(),
        ensures
            final(self).wf(),
            final(self).same_inbound(old(self)),
            final(self).maximum() == receive_maximum,
            final(self).sent() == sent_at(retained_in_flight@, now),
            final(self).sent_list() == listed_at(retained_in_flight@, now),
            final(self).next_quota() == (old(self).next_quota() + (if replay {
                2int
            } else {
                1int
            })) % 0x1_0000_0000_0000_0000,
            ({
                let held = final(self).sent().dom().len();
                let capacity = room(receive_maximum, held) as usize;
                &&& final(self).debt() == debt_of(receive_maximum, held)
                &&& !final(self).main_quota().closed
                &&& final(self).main_quota().permits == (if replay {
                    0
                } else {
                    capacity
                })
                &&& final(self).main_quota().number == old(self).next_quota()
                &&& match final(self).replay_quota() {
                    Some(q) => replay && q == (Quota {
                        number: ((old(self).next_quota() + 1) % 0x1_0000_0000_0000_0000) as u64,
                        permits: capacity,
                        closed: false,
                    }) && r == Some(q.number),
                    None => !replay && r is None,
                }
            }),
            receive_maximum > 0 ==> final(self).balance() == receive_maximum,
            old(self).next_quota() < u64::MAX ==> forall|q: u64|
                q < old(self).next_quota() ==> !#[trigger] final(self).in_use(q),
            old(self).next_quota() < u64::MAX && old(self).numbered() ==> forall|q: u64| #[trigger]
                old(self).in_use(q) ==> !final(self).in_use(q),
            old(self).next_quota() < u64::MAX - 1 ==> FlowControlManager::numbers_go_on(
                *old(self),
                *final(self),
            ),
    {
        let ghost ids = retained_in_flight@;
        self.in_flight.clear();
        let mut i: usize = 0;
        assert(ids.take(0) =~= Seq::<u16>::empty());
        let ghost origin = *self;
        while i < retained_in_flight.len()
            invariant
                i <= ids.len(),
                ids == retained_in_flight@,
                self.wf(),
                self.in_flight@ == sent_at(ids.take(i as int), now),
                self.in_flight.listing() == listed_at(ids.take(i as int), now),
                self.same_inbound(&origin),
                self.next_quota() == origin.next_quota(),
            decreases ids.len() - i,
        {
            assert(ids.take(i + 1).drop_last() =~= ids.take(i as int));
            let _ = self.in_flight.insert(retained_in_flight[i] as u64, now);
            i = i + 1;
        }
        assert(ids.take(ids.len() as int) =~= ids);
        let held: usize = self.in_flight.len();
        let maximum: usize = receive_maximum as usize;
        self.receive_maximum = receive_maximum;
        let capacity: usize = if receive_maximum == 0 {
            MAX_PERMITS
        } else {
            maximum.saturating_sub(held)
        };
        self.quota_debt = if receive_maximum == 0 {
            0
        } else {
            held.saturating_sub(maximum)
        };
        let main: usize = if replay {
            0
        } else {
            capacity
        };
        self.quota = self.new_quota(main);
        if replay {
            let slots = self.new_quota(capacity);
            self.replay_slots = Some(slots);
            Some(slots.number)
        } else {
            self.replay_slots = None;
            None
        }
    }

    /// The messages that had to be sent again are sent: what is left of their quota goes to the
    /// quota for new messages. A quota of an earlier connection changes nothing.
    pub fn finish_replay(&mut self, slots: u64)
        requires
            old(self).wf(),
            old(self).replay_quota() matches Some(q) ==> q.number != slots
                || old(self).main_quota().permits + q.permits <= MAX_PERMITS,
        ensures
            final(self).wf(),
            final(self).maximum() == old(self).maximum(),
            final(self).sent() == old(self).sent(),
            final(self).sent_list() == old(self).sent_list(),
            final(self).debt() == old(self).debt(),
            final(self).next_quota() == old(self).next_quota(),
            final(self).same_inbound(old(self)),
            final(self).balance() == old(self).balance(),
            match old(self).replay_quota() {
                Some(q) if q.number == slots => {
                    &&& final(self).replay_quota() is None
                    &&& final(self).main_quota() == (Quota {
                        permits: (old(self).main_quota().permits + q.permits) as usize,
                        ..old(self).main_quota()
                    })
                },
                _ => *final(self) == *old(self),
            },
            old(self).numbered() ==> FlowControlManager::numbers_go_on(*old(self), *final(self)),
    {
        if let Some(quota) = self.replay_slots {
            if quota.number == slots {
                self.replay_slots = None;
                self.quota.permits = self.quota.permits + quota.permits;
            }
        }
    }

    /// Takes a permit from a quota. One that is no longer in use is closed.
    pub fn take_permit(&mut self, quota: u64) -> (r: Permit)
        requires
            old(self).wf(),
        ensures
            final(self).wf(),
            final(self).same_setup(old(self)),
            final(self).sent() == old(self).sent(),
            final(self).sent_list() == old(self).sent_list(),
            final(self).debt() == old(self).debt(),
            r == old(self).permit_of(quota),
            r is Taken ==> final(self).balance() == old(self).balance() - 1,
            r is Taken ==> FlowControlManager::permit_gone(*old(self), *final(self), quota),
            r !is Taken ==> *final(self) == *old(self),
    {
        if quota == self.quota.number {
            if self.quota.closed {
                return Permit::Closed;
            }
            if self.quota.permits == 0 {
                return Permit::Empty;
            }
            self.quota.permits = self.quota.permits - 1;
            return Permit::Taken;
        }
        if let Some(slots) = self.replay_slots {
            if slots.number == quota {
                if slots.closed {
                    return Permit::Closed;
                }
                if slots.permits == 0 {
                    return Permit::Empty;
                }
                self.replay_slots = Some(
                    Quota { number: slots.number, permits: slots.permits - 1, closed: false },
                );
                return Permit::Taken;
            }
        }
        Permit::Closed
    }

    /// Uses a permit that was taken from a quota for a message. A permit of a quota that is no
    /// longer in use is void.
    pub fn claim_send_quota(&mut self, quota: u64, packet_id: u16, now: u64) -> (r: bool)
        requires
            old(self).wf(),
        ensures
            final(self).wf(),
            final(self).same_setup(old(self)),
            final(self).main_quota() == old(self).main_quota(),
            final(self).replay_quota() == old(self).replay_quota(),
            final(self).debt() == old(self).debt(),
            r == old(self).in_use(quota),
            r ==> FlowControlManager::sent_once_more(*old(self), *final(self), packet_id, now),
            !r ==> *final(self) == *old(self),
            r && !old(self).sent().contains_key(packet_id as u64) ==> final(self).balance()
                == old(self).balance() + 1,
    {
        let current = quota == self.quota.number || match self.replay_slots {
            Some(slots) => slots.number == quota,
            None => false,
        };
        if current {
            let ghost before = self.in_flight;
            let _ = self.in_flight.insert(packet_id as u64, now);
            proof {
                crate::id_map::lemma_as_map(before.listing());
            }
        }
        current
    }

    /// What asking a quota for a permit gives.
    pub open spec fn permit_of(&self, quota: u64) -> Permit {
        let asked = if quota == self.main_quota().number {
            Some(self.main_quota())
        } else if self.in_use(quota) {
            self.replay_quota()
        } else {
            None
        };
        match asked {
            None => Permit::Closed,
            Some(q) => if q.closed {
                Permit::Closed
            } else if q.permits == 0 {
                Permit::Empty
            } else {
                Permit::Taken
            },
        }
    }

    /// The quota that was asked has a permit less, and the other one has as many as before.
    pub open spec fn permit_gone(
        before: FlowControlManager,
        after: FlowControlManager,
        quota: u64,
    ) -> bool {
        if quota == before.main_quota().number {
            &&& after.main_quota() == (Quota {
                permits: (before.main_quota().permits - 1) as usize,
                ..before.main_quota()
            })
            &&& after.replay_quota() == before.replay_quota()
        } else {
            &&& after.main_quota() == before.main_quota()
            &&& after.replay_quota() == Some(
                Quota {
                    permits: (before.replay_quota()->0.permits - 1) as usize,
                    ..before.replay_quota()->0
                },
            )
        }
    }

    /// A message is in flight from a moment on.
    pub open spec fn sent_once_more(
        before: FlowControlManager,
        after: FlowControlManager,
        packet_id: u16,
        now: u64,
    ) -> bool {
        &&& after.sent() == before.sent().insert(packet_id as u64, now)
        &&& after.sent_list() == crate::id_map::placed(before.sent_list(), packet_id as u64, now)
    }

    /// A message has a permit of the quota that was asked.
    pub open spec fn slot_taken(
        before: FlowControlManager,
        after: FlowControlManager,
        quota: u64,
        packet_id: u16,
        now: u64,
    ) -> bool {
        &&& after.same_setup(&before)
        &&& after.debt() == before.debt()
        &&& FlowControlManager::permit_gone(before, after, quota)
        &&& FlowControlManager::sent_once_more(before, after, packet_id, now)
        &&& !before.sent().contains_key(packet_id as u64) ==> after.balance() == before.balance()
    }

    /// Takes a permit from a quota for a message.
    pub fn take_slot(&mut self, quota: u64, packet_id: u16, now: u64) -> (r: Permit)
        requires
            old(self).wf(),
        ensures
            final(self).wf(),
            r == old(self).permit_of(quota),
            r is Taken ==> FlowControlManager::slot_taken(
                *old(self),
                *final(self),
                quota,
                packet_id,
                now,
            ),
            r !is Taken ==> *final(self) == *old(self),
    {
        let permit = self.take_permit(quota);
        if permit == Permit::Taken {
            let _ = self.claim_send_quota(quota, packet_id, now);
        }
        permit
    }

    /// The number of the quota for new messages.
    pub fn quota_number(&self) -> (r: u64)
        ensures
            r == self.main_quota().number,
    {
        self.quota.number
    }

    /// Begins to acquire a permit for a new message.
    pub fn begin_acquire(&self) -> (r: AcquireStart)
        ensures
            r == (if self.maximum() == 0 {
                AcquireStart::Unlimited
            } else {
                AcquireStart::Wait {
                    quota: self.main_quota().number,
                    timeout: self.settings().backpressure_timeout,
                }
            }),
    {
        if self.receive_maximum == 0 {
            AcquireStart::Unlimited
        } else {
            AcquireStart::Wait {
                quota: self.quota.number,
                timeout: self.config.backpressure_timeout,
            }
        }
    }

    /// Goes on with a publish that waited for a permit of a quota: it has one, its time is over, or
    /// the quota was closed. If the quota was replaced meanwhile, the publish begins again.
    pub fn acquire_shared_send_quota(
        &mut self,
        quota: u64,
        event: AcquireEvent,
        packet_id: u16,
        now: u64,
    ) -> (r: AcquireStep)
        requires
            old(self).wf(),
        ensures
            final(self).wf(),
            final(self).same_setup(old(self)),
            final(self).main_quota() == old(self).main_quota(),
            final(self).replay_quota() == old(self).replay_quota(),
            final(self).debt() == old(self).debt(),
            if event is Permit && old(self).in_use(quota) {
                FlowControlManager::sent_once_more(*old(self), *final(self), packet_id, now)
            } else {
                *final(self) == *old(self)
            },
            match event {
                AcquireEvent::Permit => if old(self).in_use(quota) {
                    r == AcquireStep::Done(Ok(()))
                } else {
                    r is Again
                },
                AcquireEvent::TimedOut => r == AcquireStep::Done(
                    Err(MqttError::FlowControlExceeded),
                ),
                AcquireEvent::Closed => if quota == old(self).main_quota().number {
                    r == AcquireStep::Done(Err(MqttError::NotConnected))
                } else {
                    r is Again
                },
            },
    {
        match event {
            AcquireEvent::Permit => {
                if self.claim_send_quota(quota, packet_id, now) {
                    AcquireStep::Done(Ok(()))
                } else {
                    AcquireStep::Again
                }
            },
            AcquireEvent::TimedOut => AcquireStep::Done(Err(MqttError::FlowControlExceeded)),
            AcquireEvent::Closed => {
                if quota == self.quota.number {
                    AcquireStep::Done(Err(MqttError::NotConnected))
                } else {
                    AcquireStep::Again
                }
            },
        }
    }

    /// Closes the quotas: who waits for a permit fails, and nothing is sent again any more.
    pub fn close_send_quota(&mut self)
        requires
            old(self).wf(),
        ensures
            final(self).wf(),
            final(self).maximum() == old(self).maximum(),
            final(self).sent() == old(self).sent(),
            final(self).sent_list() == old(self).sent_list(),
            final(self).main_quota() == (Quota { closed: true, ..old(self).main_quota() }),
            final(self).replay_quota() is None,
            final(self).debt() == old(self).debt(),
            final(self).next_quota() == old(self).next_quota(),
            final(self).same_inbound(old(self)),
            old(self).numbered() ==> FlowControlManager::numbers_go_on(*old(self), *final(self)),
    {
        self.quota.closed = true;
        self.replay_slots = None;
    }

    /// Whether a new message can be sent.
    pub fn can_send(&self) -> (r: bool)
        ensures
            r == (self.maximum() == 0 || self.main_quota().permits > 0),
    {
        if self.receive_maximum == 0 {
            return true;
        }
        self.quota.permits > 0
    }

    /// Whether a permit for a new message can be had at once: there is no limit, or the quota has one.
    pub open spec fn admits(&self) -> bool {
        self.maximum() == 0 || !self.main_quota().closed && self.main_quota().permits > 0
    }

    /// A new message has a permit, and is in flight; without a limit nothing is counted.
    pub open spec fn acquired(
        before: FlowControlManager,
        after: FlowControlManager,
        packet_id: u16,
        now: u64,
    ) -> bool {
        if before.maximum() == 0 {
            after == before
        } else {
            &&& after.same_setup(&before)
            &&& after.debt() == before.debt()
            &&& FlowControlManager::permit_gone(before, after, before.main_quota().number)
            &&& FlowControlManager::sent_once_more(before, after, packet_id, now)
        }
    }

    /// Takes a permit for a message, if there is one.
    pub fn try_acquire_send_quota(&mut self, packet_id: u16, now: u64) -> (r: Result<()>)
        requires
            old(self).wf(),
        ensures
            final(self).wf(),
            final(self).same_setup(old(self)),
            final(self).debt() == old(self).debt(),
            final(self).replay_quota() == old(self).replay_quota(),
            r is Ok <==> old(self).admits(),
            r matches Err(e) ==> e == MqttError::FlowControlExceeded && *final(self) == *old(self),
            r is Ok ==> FlowControlManager::acquired(*old(self), *final(self), packet_id, now),
            !old(self).sent().contains_key(packet_id as u64) ==> final(self).balance()
                == old(self).balance(),
    {
        if self.receive_maximum == 0 {
            return Ok(());
        }
        if self.quota.closed || self.quota.permits == 0 {
            return Err(MqttError::FlowControlExceeded);
        }
        let ghost before = self.in_flight;
        proof {
            crate::id_map::lemma_as_map(before.listing());
        }
        let _ = self.in_flight.insert(packet_id as u64, now);
        self.quota.permits = self.quota.permits - 1;
        Ok(())
    }

    /// Takes a permit for a message, once there is one; `None` asks to wait. The wait ends without
    /// a permit when the quota is closed, or when its time is over.
    pub fn acquire_send_quota(&mut self, packet_id: u16, timed_out: bool, now: u64) -> (r: Option<
        Result<()>,
    >)
        requires
            old(self).wf(),
        ensures
            final(self).wf(),
            final(self).same_setup(old(self)),
            final(self).debt() == old(self).debt(),
            final(self).replay_quota() == old(self).replay_quota(),
            ({
                let quota = old(self).main_quota();
                let granted = old(self).admits();
                &&& r is None <==> !granted && !quota.closed && !timed_out
                &&& r matches Some(o) ==> (o is Ok <==> granted)
                &&& r matches Some(Err(e)) ==> e == MqttError::FlowControlExceeded
                &&& if granted {
                    FlowControlManager::acquired(*old(self), *final(self), packet_id, now)
                } else {
                    *final(self) == *old(self)
                }
            }),
    {
        if self.receive_maximum != 0 && !self.quota.closed && self.quota.permits == 0 {
            if timed_out {
                return Some(Err(MqttError::FlowControlExceeded));
            }
            return None;
        }
        Some(self.try_acquire_send_quota(packet_id, now))
    }

    /// Takes a permit for a message, if there is one.
    pub fn register_send(&mut self, packet_id: u16, now: u64) -> (r: Result<()>)
        requires
            old(self).wf(),
        ensures
            final(self).wf(),
            final(self).same_setup(old(self)),
            final(self).debt() == old(self).debt(),
            final(self).replay_quota() == old(self).replay_quota(),
            r is Ok <==> old(self).admits(),
            r matches Err(e) ==> e == MqttError::FlowControlExceeded && *final(self) == *old(self),
            r is Ok ==> FlowControlManager::acquired(*old(self), *final(self), packet_id, now),
    {
        self.try_acquire_send_quota(packet_id, now)
    }

    /// The quota to which a permit comes back: the one for messages that are sent again, while that
    /// goes on.
    pub open spec fn refilled(&self) -> Quota {
        match self.replay_quota() {
            Some(q) => q,
            None => self.main_quota(),
        }
    }

    /// A message is no longer in flight, and its permit pays a debt, or comes back to the quota for
    /// messages that are sent again, while that goes on, or else to the one for new messages.
    pub open spec fn permit_returned(
        before: FlowControlManager,
        after: FlowControlManager,
        packet_id: u16,
    ) -> bool {
        &&& after.same_setup(&before)
        &&& after.sent() == before.sent().remove(packet_id as u64)
        &&& after.sent_list() == crate::id_map::without_key(before.sent_list(), packet_id as u64)
        &&& if before.debt() > 0 {
            &&& after.debt() == before.debt() - 1
            &&& after.main_quota() == before.main_quota()
            &&& after.replay_quota() == before.replay_quota()
        } else {
            &&& after.debt() == 0
            &&& after.refilled() == (Quota {
                permits: (before.refilled().permits + 1) as usize,
                ..before.refilled()
            })
            &&& before.replay_quota() is Some ==> after.main_quota() == before.main_quota()
        }
    }

    /// Whether a permit can come back: there is no limit, or the quota is not full.
    pub open spec fn can_refill(&self) -> bool {
        self.maximum() == 0 || self.refilled().permits < MAX_PERMITS
    }

    /// Whether a permit can come back.
    pub fn takes_back(&self) -> (r: bool)
        ensures
            r == self.can_refill(),
    {
        if self.receive_maximum == 0 {
            return true;
        }
        match &self.replay_slots {
            Some(slots) => slots.permits < MAX_PERMITS,
            None => self.quota.permits < MAX_PERMITS,
        }
    }

    /// A message was acknowledged: its permit comes back, or pays a debt.
    pub fn acknowledge(&mut self, packet_id: u16) -> (r: Result<()>)
        requires
            old(self).wf(),
            old(self).can_refill(),
        ensures
            final(self).wf(),
            final(self).same_setup(old(self)),
            r is Err <==> old(self).maximum() > 0 && !old(self).sent().contains_key(
                packet_id as u64,
            ),
            r matches Err(e) ==> e == MqttError::PacketIdNotFound(packet_id),
            old(self).maximum() == 0 || r is Err ==> *final(self) == *old(self),
            old(self).maximum() > 0 && r is Ok ==> FlowControlManager::permit_returned(
                *old(self),
                *final(self),
                packet_id,
            ),
            final(self).balance() == old(self).balance(),
    {
        if self.receive_maximum > 0 {
            let ghost before = self.in_flight;
            proof {
                crate::id_map::lemma_as_map(before.listing());
            }
            if !self.in_flight.contains_key(packet_id as u64) {
                return Err(MqttError::PacketIdNotFound(packet_id));
            }
            let _ = self.in_flight.remove(packet_id as u64);
            if self.quota_debt > 0 {
                self.quota_debt = self.quota_debt - 1;
            } else {
                match self.replay_slots {
                    Some(slots) => {
                        self.replay_slots = Some(
                            Quota {
                                number: slots.number,
                                permits: slots.permits + 1,
                                closed: slots.closed,
                            },
                        );
                    },
                    None => {
                        self.quota.permits = self.quota.permits + 1;
                    },
                }
            }
        }
        Ok(())
    }

    /// The number of messages in flight.
    pub fn in_flight_count(&self) -> (r: usize)
        requires
            self.wf(),
        ensures
            r == self.sent().dom().len(),
    {
        self.in_flight.len()
    }

    /// How many messages the peer takes at a time.
    pub fn receive_maximum(&self) -> (r: u16)
        ensures
            r == self.maximum(),
    {
        self.receive_maximum
    }

    /// Changes how many messages the peer takes at a time. The permits are those that the messages
    /// in flight leave. A closed quota does not lose permits.
    pub fn set_receive_maximum(&mut self, value: u16)
        requires
            old(self).wf(),
        ensures
            final(self).wf(),
            final(self).maximum() == value,
            final(self).sent() == old(self).sent(),
            final(self).sent_list() == old(self).sent_list(),
            final(self).replay_quota() == old(self).replay_quota(),
            final(self).debt() == old(self).debt(),
            final(self).same_inbound(old(self)),
            ({
                let quota = old(self).main_quota();
                let target = room(value, old(self).sent().dom().len()) as usize;
                if value != 0 && old(self).maximum() == 0 {
                    &&& final(self).main_quota() == (Quota {
                        number: old(self).next_quota(),
                        permits: target,
                        closed: false,
                    })
                    &&& final(self).next_quota() == (old(self).next_quota() + 1)
                        % 0x1_0000_0000_0000_0000
                } else {
                    &&& final(self).main_quota() == (Quota {
                        permits: if quota.closed && target < quota.permits {
                            quota.permits
                        } else {
                            target
                        },
                        ..quota
                    })
                    &&& final(self).next_quota() == old(self).next_quota()
                }
            }),
            old(self).numbered() && old(self).next_quota() < u64::MAX
                ==> FlowControlManager::numbers_go_on(*old(self), *final(self)),
    {
        let old_value: u16 = self.receive_maximum;
        self.receive_maximum = value;
        let held: usize = self.in_flight.len();
        if value == 0 {
            if self.quota.permits < MAX_PERMITS {
                self.quota.permits = MAX_PERMITS;
            }
        } else {
            let target: usize = (value as usize).saturating_sub(held);
            if old_value == 0 {
                self.quota = self.new_quota(target);
            } else if target > self.quota.permits || !self.quota.closed {
                self.quota.permits = target;
            }
        }
    }

    /// Forgets what is in flight in both directions.
    pub fn clear(&mut self)
        requires
            old(self).wf(),
        ensures
            final(self).wf(),
            final(self).sent() == Map::<u64, u64>::empty(),
            final(self).sent_list() == Seq::<(u64, u64)>::empty(),
            final(self).received() == Map::<u64, u64>::empty(),
            final(self).maximum() == old(self).maximum(),
            final(self).main_quota() == old(self).main_quota(),
            final(self).replay_quota() == old(self).replay_quota(),
            final(self).next_quota() == old(self).next_quota(),
            final(self).debt() == old(self).debt(),
            final(self).settings() == old(self).settings(),
            final(self).inbound_maximum() == old(self).inbound_maximum(),
    {
        self.in_flight.clear();
        self.inbound_in_flight.clear();
    }

    /// The messages that were sent longer ago than a time, in order.
    pub fn get_expired(&self, timeout: u64, now: u64) -> (r: Vec<u16>)
        requires
            self.wf(),
        ensures
            r@ == overdue(self.sent_list(), timeout, now),
            r@.no_duplicates(),
            forall|id: u16| #[trigger]
                r@.contains(id) <==> self.sent().contains_key(id as u64) && now
                    - self.sent()[id as u64] > timeout,
    {
        proof {
            law_overdue_messages_of_a_manager(*self, timeout, now);
        }
        let ghost list = self.in_flight.listing();
        let n: usize = self.in_flight.len();
        let mut out: Vec<u16> = Vec::new();
        let mut i: usize = 0;
        assert(list.take(0) =~= Seq::<(u64, u64)>::empty());
        while i < n
            invariant
                i <= n,
                n == list.len(),
                list == self.in_flight.listing(),
                out@ == overdue(list.take(i as int), timeout, now),
            decreases n - i,
        {
            assert(list.take(i + 1).drop_last() =~= list.take(i as int));
            assert(list.take(i + 1).last() == list[i as int]);
            if now.saturating_sub(*self.in_flight.value_at(i)) > timeout {
                out.push(self.in_flight.key_at(i) as u16);
            }
            i = i + 1;
        }
        assert(list.take(list.len() as int) =~= list);
        out
    }

    /// What is in flight to the peer.
    pub fn get_stats(&self) -> (r: FlowControlStats)
        requires
            self.wf(),
        ensures
            r.receive_maximum == self.maximum(),
            r.in_flight_count == self.sent().dom().len(),
            r.available_quota == self.main_quota().permits,
            r.pending_requests == 0,
            r.oldest_in_flight == earliest(self.sent_list()),
            match r.oldest_in_flight {
                Some(t) => {
                    &&& exists|k: u64| #[trigger] self.sent().contains_key(k) && self.sent()[k] == t
                    &&& forall|k: u64| #[trigger]
                        self.sent().contains_key(k) ==> t <= self.sent()[k]
                },
                None => self.sent() == Map::<u64, u64>::empty(),
            },
    {
        proof {
            law_earliest_message(*self);
        }
        let ghost list = self.in_flight.listing();
        let n: usize = self.in_flight.len();
        let mut oldest: Option<u64> = None;
        let mut i: usize = 0;
        assert(list.take(0) =~= Seq::<(u64, u64)>::empty());
        while i < n
            invariant
                i <= n,
                n == list.len(),
                list == self.in_flight.listing(),
                oldest == earliest(list.take(i as int)),
            decreases n - i,
        {
            assert(list.take(i + 1).drop_last() =~= list.take(i as int));
            assert(list.take(i + 1).last() == list[i as int]);
            let at: u64 = *self.in_flight.value_at(i);
            oldest = match oldest {
                None => Some(at),
                Some(t) => if at < t {
                    Some(at)
                } else {
                    Some(t)
                },
            };
            i = i + 1;
        }
        assert(list.take(list.len() as int) =~= list);
        FlowControlStats {
            receive_maximum: self.receive_maximum,
            in_flight_count: n,
            available_quota: self.quota.permits,
            pending_requests: 0,
            oldest_in_flight: oldest,
        }
    }

    /// Gives up the messages that have been in flight for too long: their permits come back.
    pub fn cleanup_expired(&mut self, now: u64) -> (r: Vec<u16>)
        requires
            old(self).wf(),
            old(self).main_quota().permits + old(self).sent().dom().len() <= MAX_PERMITS
                || old(self).maximum() == 0,
        ensures
            final(self).wf(),
            final(self).same_setup(old(self)),
            final(self).replay_quota() == old(self).replay_quota(),
            final(self).debt() == old(self).debt(),
            r@ == overdue(old(self).sent_list(), old(self).settings().in_flight_timeout, now),
            r@.no_duplicates(),
            forall|id: u16| #[trigger]
                r@.contains(id) <==> old(self).sent().contains_key(id as u64) && now
                    - old(self).sent()[id as u64] > old(self).settings().in_flight_timeout,
            final(self).sent() == without(old(self).sent(), r@),
            final(self).sent_list() == unlisted(old(self).sent_list(), r@),
            final(self).main_quota() == (Quota {
                permits: if old(self).maximum() > 0 {
                    (old(self).main_quota().permits + old(self).sent().dom().len()
                        - final(self).sent().dom().len()) as usize
                } else {
                    old(self).main_quota().permits
                },
                ..old(self).main_quota()
            }),
            old(self).maximum() > 0 ==> final(self).balance() == old(self).balance(),
    {
        let ghost origin = *self;
        let before: usize = self.in_flight.len();
        let expired = self.get_expired(self.config.in_flight_timeout, now);
        let ghost ids = expired@;
        let mut i: usize = 0;
        assert(ids.take(0) =~= Seq::<u16>::empty());
        while i < expired.len()
            invariant
                i <= ids.len(),
                ids == expired@,
                self.wf(),
                self.same_setup(&origin),
                self.main_quota() == origin.main_quota(),
                self.replay_quota() == origin.replay_quota(),
                self.debt() == origin.debt(),
                self.in_flight@ == without(origin.sent(), ids.take(i as int)),
                self.in_flight.listing() == unlisted(origin.sent_list(), ids.take(i as int)),
                self.in_flight.listing().len() <= before,
            decreases ids.len() - i,
        {
            assert(ids.take(i + 1).drop_last() =~= ids.take(i as int));
            let ghost middle = self.in_flight;
            proof {
                crate::id_map::lemma_as_map(middle.listing());
            }
            let _ = self.in_flight.remove(expired[i] as u64);
            proof {
                crate::id_map::lemma_as_map(self.in_flight.listing());
            }
            i = i + 1;
        }
        assert(ids.take(ids.len() as int) =~= ids);
        if self.receive_maximum > 0 {
            let released: usize = before - self.in_flight.len();
            self.quota.permits = self.quota.permits + released;
        }
        expired
    }

    /// The limits on waiting.
    pub fn config(&self) -> (r: &FlowControlConfig)
        ensures
            *r == self.settings(),
    {
        &self.config
    }

    /// The permits that can be taken for new messages.
    pub fn available_permits(&self) -> (r: usize)
        ensures
            r == self.main_quota().permits,
    {
        self.quota.permits
    }
}

/// While nothing but permits and messages change, the quotas keep their numbers.
pub proof fn law_quotas_keep_their_numbers(before: FlowControlManager, after: FlowControlManager)
    requires
        before.numbered(),
        after.same_setup(&before),
    ensures
        FlowControlManager::numbers_go_on(before, after),
{
}

/// A permit of a quota that has come to its end stays void, whatever happens afterwards: no later
/// quota has its number.
pub proof fn law_permit_of_an_ended_quota_stays_void(
    history: Seq<FlowControlManager>,
    i: int,
    j: int,
    quota: u64,
)
    requires
        forall|k: int|
            #![trigger history[k]]
            0 <= k < history.len() - 1 ==> FlowControlManager::numbers_go_on(
                history[k],
                history[k + 1],
            ),
        0 <= i <= j < history.len(),
        quota < history[i].next_quota(),
        !history[i].in_use(quota),
    ensures
        quota < history[j].next_quota(),
        !history[j].in_use(quota),
    decreases j - i,
{
    if i < j {
        let before = history[j - 1];
        law_permit_of_an_ended_quota_stays_void(history, i, j - 1, quota);
        assert(FlowControlManager::numbers_go_on(before, history[j - 1 + 1]));
    }
}

/// As long as every permit that was taken belongs to a message in flight, no more messages are in
/// flight than the receive maximum allows, apart from those that the permits still owed cover.
pub proof fn law_receive_maximum_bounds_the_messages_in_flight(manager: FlowControlManager)
    requires
        manager.balance() == manager.maximum(),
    ensures
        manager.sent().dom().len() <= manager.maximum() + manager.debt(),
{
}

/// The overdue messages of a manager are those in flight that were sent longer ago than the time,
/// each once.
pub proof fn law_overdue_messages_of_a_manager(
    manager: FlowControlManager,
    timeout: u64,
    now: u64,
)
    requires
        manager.wf(),
    ensures
        ({
            let ids = overdue(manager.sent_list(), timeout, now);
            &&& ids.no_duplicates()
            &&& forall|id: u16| #[trigger]
                ids.contains(id) <==> manager.sent().contains_key(id as u64) && now
                    - manager.sent()[id as u64] > timeout
        }),
{
    let list = manager.sent_list();
    let map = manager.sent();
    let ids = overdue(list, timeout, now);
    manager.lemma_lists();
    crate::id_map::lemma_as_map(list);
    assert forall|i: int| 0 <= i < list.len() implies (#[trigger] list[i]).0 <= u16::MAX by {
        assert(map.contains_key(list[i].0));
    }
    lemma_overdue_distinct(list, timeout, now);
    assert forall|id: u16| #[trigger] ids.contains(id) <==> map.contains_key(id as u64) && now
        - map[id as u64] > timeout by {
        law_overdue_messages(list, timeout, now, id);
        if ids.contains(id) {
            let i = choose|i: int|
                0 <= i < list.len() && (#[trigger] list[i]).0 == id && now - list[i].1 > timeout;
            assert(map[list[i].0] == list[i].1);
        }
        if map.contains_key(id as u64) && now - map[id as u64] > timeout {
            let i = choose|i: int| 0 <= i < list.len() && (#[trigger] list[i]).0 == id as u64;
            assert(map[list[i].0] == list[i].1);
        }
    }
}

proof fn lemma_overdue_distinct(list: Seq<(u64, u64)>, timeout: u64, now: u64)
    requires
        crate::id_map::distinct_keys(list),
        forall|i: int| 0 <= i < list.len() ==> (#[trigger] list[i]).0 <= u16::MAX,
    ensures
        overdue(list, timeout, now).no_duplicates(),
    decreases list.len(),
{
    if list.len() > 0 {
        let rest = list.drop_last();
        assert forall|i: int, j: int|
            #![trigger rest[i], rest[j]]
            0 <= i < j < rest.len() implies rest[i].0 != rest[j].0 by {
            assert(list[i].0 != list[j].0);
        }
        assert forall|i: int| 0 <= i < rest.len() implies (#[trigger] rest[i]).0 <= u16::MAX by {
            assert(rest[i] == list[i]);
        }
        lemma_overdue_distinct(rest, timeout, now);
        let before = overdue(rest, timeout, now);
        let after = overdue(list, timeout, now);
        let id = list.last().0 as u16;
        assert(list[list.len() - 1].0 <= u16::MAX);
        law_overdue_messages(rest, timeout, now, id);
        assert(!before.contains(id)) by {
            if before.contains(id) {
                let i = choose|i: int|
                    0 <= i < rest.len() && (#[trigger] rest[i]).0 == id && now - rest[i].1 > timeout;
                assert(list[i].0 != list[list.len() - 1].0);
            }
        }
        assert forall|i: int, j: int|
            0 <= i < after.len() && 0 <= j < after.len() && i != j implies after[i] != after[j] by {
            if i < before.len() {
                assert(before.contains(before[i]));
            }
            if j < before.len() {
                assert(before.contains(before[j]));
            }
        }
    }
}

/// The earliest moment is that of a message in flight, and no message in flight was sent before.
pub proof fn law_earliest_message(manager: FlowControlManager)
    requires
        manager.wf(),
    ensures
        match earliest(manager.sent_list()) {
            Some(t) => {
                &&& exists|k: u64| #[trigger]
                    manager.sent().contains_key(k) && manager.sent()[k] == t
                &&& forall|k: u64| #[trigger]
                    manager.sent().contains_key(k) ==> t <= manager.sent()[k]
            },
            None => manager.sent() == Map::<u64, u64>::empty(),
        },
{
    let list = manager.sent_list();
    let map = manager.sent();
    manager.lemma_lists();
    crate::id_map::lemma_as_map(list);
    lemma_earliest(list);
    match earliest(list) {
        Some(t) => {
            let i = choose|i: int| 0 <= i < list.len() && (#[trigger] list[i]).1 == t;
            assert(map.contains_key(list[i].0) && map[list[i].0] == t);
            assert forall|k: u64| #[trigger] map.contains_key(k) implies t <= map[k] by {
                let j = choose|j: int| 0 <= j < list.len() && (#[trigger] list[j]).0 == k;
                assert(map[list[j].0] == list[j].1);
            }
        },
        None => {
            assert(map =~= Map::<u64, u64>::empty());
        },
    }
}

proof fn lemma_earliest(list: Seq<(u64, u64)>)
    ensures
        match earliest(list) {
            Some(t) => {
                &&& exists|i: int| 0 <= i < list.len() && (#[trigger] list[i]).1 == t
                &&& forall|i: int| 0 <= i < list.len() ==> t <= (#[trigger] list[i]).1
            },
            None => list.len() == 0,
        },
    decreases list.len(),
{
    if list.len() > 0 {
        let rest = list.drop_last();
        lemma_earliest(rest);
        let t = earliest(list)->0;
        assert(list[list.len() - 1] == list.last());
        if earliest(rest) == Some(t) {
            let i = choose|i: int| 0 <= i < rest.len() && (#[trigger] rest[i]).1 == t;
            assert(list[i].1 == t);
        }
        assert forall|i: int| 0 <= i < list.len() implies t <= (#[trigger] list[i]).1 by {
            if i < rest.len() {
                assert(rest[i] == list[i]);
            }
        }
    }
}

/// A message of the peer that is new counts as one more in flight, and its acknowledgement as one
/// less.
pub proof fn law_inbound_messages_are_counted(
    manager: FlowControlManager,
    packet_id: u16,
    now: u64,
)
    requires
        manager.wf(),
    ensures
        !manager.received().contains_key(packet_id as u64) ==> manager.received().insert(
            packet_id as u64,
            now,
        ).dom().len() == manager.received().dom().len() + 1,
        manager.received().contains_key(packet_id as u64) ==> manager.received().remove(
            packet_id as u64,
        ).dom().len() == manager.received().dom().len() - 1,
{
    manager.lemma_lists();
}

/// An overdue message is one that is in flight and was sent longer ago than the time.
pub proof fn law_overdue_messages(list: Seq<(u64, u64)>, timeout: u64, now: u64, id: u16)
    requires
        forall|i: int| 0 <= i < list.len() ==> (#[trigger] list[i]).0 <= u16::MAX,
    ensures
        overdue(list, timeout, now).contains(id) <==> exists|i: int|
            0 <= i < list.len() && (#[trigger] list[i]).0 == id && now - list[i].1 > timeout,
    decreases list.len(),
{
    if list.len() > 0 {
        let rest = list.drop_last();
        law_overdue_messages(rest, timeout, now, id);
        let found = overdue(rest, timeout, now);
        vstd::seq_lib::lemma_seq_contains_after_push(found, list.last().0 as u16, id);
        assert(list[list.len() - 1].0 <= u16::MAX);
        if exists|i: int|
            0 <= i < list.len() && (#[trigger] list[i]).0 == id && now - list[i].1 > timeout {
            let i = choose|i: int|
                0 <= i < list.len() && (#[trigger] list[i]).0 == id && now - list[i].1 > timeout;
            if i < rest.len() {
                assert(rest[i] == list[i]);
            }
        }
        if found.contains(id) {
            let i = choose|i: int|
                0 <= i < rest.len() && (#[trigger] rest[i]).0 == id && now - rest[i].1 > timeout;
            assert(list[i] == rest[i]);
        }
    } else {
        assert(!overdue(list, timeout, now).contains(id));
    }
}

/// What is in flight and what may still be sent make up the receive maximum; where more is in flight
/// than that, nothing may be sent and the rest is owed. A maximum of zero means that there is none.
pub proof fn law_room_makes_up_the_receive_maximum(receive_maximum: u16, held: nat)
    ensures
        receive_maximum > 0 ==> held + room(receive_maximum, held) == receive_maximum + debt_of(
            receive_maximum,
            held,
        ),
        room(receive_maximum, held) >= 0,
        debt_of(receive_maximum, held) >= 0,
        debt_of(receive_maximum, held) == 0 || room(receive_maximum, held) == 0,
        receive_maximum == 0 ==> room(receive_maximum, held) == usize::MAX / 8 && debt_of(
            receive_maximum,
            held,
        ) == 0,
{
}

/// A permit is to be had as long as the quota is in use, is not closed and is not used up.
pub proof fn law_permits(manager: FlowControlManager, quota: u64)
    requires
        manager.numbered(),
    ensures
        ({
            let main = manager.main_quota();
            let held_back = manager.replay_quota();
            let permit = manager.permit_of(quota);
            &&& quota == main.number ==> (permit is Taken <==> !main.closed && main.permits > 0)
            &&& quota == main.number ==> (permit is Empty <==> !main.closed && main.permits == 0)
            &&& held_back matches Some(q) ==> (quota == q.number ==> (permit is Taken <==> !q.closed
                && q.permits > 0))
            &&& held_back matches Some(q) ==> (quota == q.number ==> (permit is Empty <==> !q.closed
                && q.permits == 0))
            &&& quota >= manager.next_quota() ==> permit is Closed
            &&& manager.admits() <==> manager.maximum() == 0 || manager.permit_of(
                main.number,
            ) is Taken
        }),
{
}

/// A message that is sent takes one slot and is in flight from that moment; its acknowledgement gives
/// the slot back, and all is as it was.
pub proof fn law_slot_is_given_back(
    before: FlowControlManager,
    sent: FlowControlManager,
    after: FlowControlManager,
    packet_id: u16,
    now: u64,
)
    requires
        before.maximum() > 0,
        before.admits(),
        before.replay_quota() is None,
        before.debt() == 0,
        !before.sent().contains_key(packet_id as u64),
        FlowControlManager::acquired(before, sent, packet_id, now),
        FlowControlManager::permit_returned(sent, after, packet_id),
    ensures
        sent.sent().contains_key(packet_id as u64),
        sent.sent()[packet_id as u64] == now,
        sent.main_quota().permits == before.main_quota().permits - 1,
        sent.maximum() == before.maximum(),
        after.main_quota() == before.main_quota(),
        after.sent() == before.sent(),
        after.debt() == 0,
{
    assert(after.sent() =~= before.sent());
}

/// While more is in flight than may be, an acknowledgement pays off what is owed before a slot is free
/// again.
pub proof fn law_debt_is_paid_first(
    before: FlowControlManager,
    after: FlowControlManager,
    packet_id: u16,
)
    requires
        before.debt() > 0,
        FlowControlManager::permit_returned(before, after, packet_id),
    ensures
        after.debt() == before.debt() - 1,
        after.main_quota() == before.main_quota(),
        !after.sent().contains_key(packet_id as u64),
{
}

/// The messages in flight at the start of a connection are those named, each sent at that moment;
/// taking some back leaves the others.
pub proof fn law_messages_named(
    in_flight: Map<u64, u64>,
    ids: Seq<u16>,
    now: u64,
    id: u16,
)
    ensures
        sent_at(ids, now).contains_key(id as u64) <==> ids.contains(id),
        sent_at(ids, now).contains_key(id as u64) ==> sent_at(ids, now)[id as u64] == now,
        without(in_flight, ids).contains_key(id as u64) <==> in_flight.contains_key(id as u64)
            && !ids.contains(id),
        without(in_flight, ids).contains_key(id as u64) ==> without(in_flight, ids)[id as u64]
            == in_flight[id as u64],
    decreases ids.len(),
{
    if ids.len() > 0 {
        let rest = ids.drop_last();
        law_messages_named(in_flight, rest, now, id);
        assert(rest.push(ids.last()) =~= ids);
        vstd::seq_lib::lemma_seq_contains_after_push(rest, ids.last(), id);
    }
}

/// A permit is taken from the quota that was asked and from no other.
pub proof fn law_permit_comes_from_its_quota(
    before: FlowControlManager,
    after: FlowControlManager,
    quota: u64,
    packet_id: u16,
    now: u64,
)
    requires
        before.numbered(),
        before.permit_of(quota) is Taken,
        FlowControlManager::slot_taken(before, after, quota, packet_id, now),
    ensures
        quota == before.main_quota().number ==> after.main_quota().permits
            == before.main_quota().permits - 1 && after.replay_quota() == before.replay_quota(),
        quota != before.main_quota().number ==> after.main_quota() == before.main_quota()
            && after.replay_quota() is Some && after.replay_quota()->0.permits
            == before.replay_quota()->0.permits - 1,
        after.sent().contains_key(packet_id as u64),
        after.sent()[packet_id as u64] == now,
        after.maximum() == before.maximum(),
{
}

} // verus!
