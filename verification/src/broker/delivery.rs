//! The two lanes of a client's connection, and the rate at which it is sent messages.

use crate::types::PublishPacket;
use std::collections::VecDeque;
use vstd::prelude::*;

verus! {

/// A message on its way to a client, bound to a flow of the client or to none.
#[derive(Debug)]
pub struct RoutableMessage {
    pub publish: PublishPacket,
    pub target_flow: Option<u64>,
}

/// What became of a message that was offered to a lane.
#[derive(Debug)]
pub enum Offer {
    Sent,
    Full(RoutableMessage),
    Closed(RoutableMessage),
}

/// A bounded lane from the router to the handler of a connection.
#[derive(Debug)]
pub struct Lane {
    waiting: VecDeque<RoutableMessage>,
    capacity: usize,
    closed: bool,
}

impl Lane {
    /// The messages that wait for the handler, oldest first.
    pub closed spec fn messages(&self) -> Seq<RoutableMessage> {
        self.waiting@
    }

    /// How many messages may wait.
    pub closed spec fn room(&self) -> usize {
        self.capacity
    }

    /// Whether the handler has stopped reading.
    pub closed spec fn shut(&self) -> bool {
        self.closed
    }

    /// An open lane without messages.
    pub fn new(capacity: usize) -> (r: Self)
        ensures
            r.messages() == Seq::<RoutableMessage>::empty(),
            r.room() == capacity,
            !r.shut(),
    {
        Lane { waiting: VecDeque::new(), capacity, closed: false }
    }

    /// Offers a message without waiting: a closed lane and a full one hand it back.
    pub fn try_send(&mut self, message: RoutableMessage) -> (r: Offer)
        ensures
            final(self).room() == old(self).room(),
            final(self).shut() == old(self).shut(),
            match r {
                Offer::Sent => !old(self).shut() && old(self).messages().len() < old(self).room()
                    && final(self).messages() == old(self).messages().push(message),
                Offer::Full(back) => !old(self).shut() && old(self).messages().len()
                    >= old(self).room() && back == message && *final(self) == *old(self),
                Offer::Closed(back) => old(self).shut() && back == message && *final(self)
                    == *old(self),
            },
    {
        if self.closed {
            return Offer::Closed(message);
        }
        if self.waiting.len() >= self.capacity {
            return Offer::Full(message);
        }
        self.waiting.push_back(message);
        Offer::Sent
    }

    /// Takes the oldest message.
    pub fn try_recv(&mut self) -> (r: Option<RoutableMessage>)
        ensures
            final(self).room() == old(self).room(),
            final(self).shut() == old(self).shut(),
            match r {
                Some(message) => old(self).messages().len() > 0 && message == old(self).messages()[0]
                    && final(self).messages() == old(self).messages().drop_first(),
                None => old(self).messages().len() == 0 && final(self).messages()
                    == old(self).messages(),
            },
    {
        let ghost before = self.waiting@;
        let r = self.waiting.pop_front();
        proof {
            if before.len() > 0 {
                assert(self.waiting@ =~= before.drop_first());
            }
        }
        r
    }

    /// The handler stops reading.
    pub fn close(&mut self)
        ensures
            final(self).shut(),
            final(self).room() == old(self).room(),
            final(self).messages() == old(self).messages(),
    {
        self.closed = true;
    }
}

/// One client's two delivery lanes: acknowledged messages wait in the gated lane, the others in
/// the ungated one.
#[derive(Debug)]
pub struct DeliveryLanes {
    pub qos1: Lane,
    pub qos0: Lane,
}

impl DeliveryLanes {
    /// Creates both lanes with the given capacity each.
    pub fn channel(capacity: usize) -> (r: Self)
        ensures
            r.qos1.messages() == Seq::<RoutableMessage>::empty(),
            r.qos0.messages() == Seq::<RoutableMessage>::empty(),
            r.qos1.room() == capacity,
            r.qos0.room() == capacity,
            !r.qos1.shut(),
            !r.qos0.shut(),
    {
        DeliveryLanes { qos1: Lane::new(capacity), qos0: Lane::new(capacity) }
    }

    /// Takes the next message from the gated lane, then the ungated lane, without waiting.
    pub fn try_recv(&mut self) -> (r: Option<RoutableMessage>)
        ensures
            final(self).qos1.room() == old(self).qos1.room(),
            final(self).qos0.room() == old(self).qos0.room(),
            final(self).qos1.shut() == old(self).qos1.shut(),
            final(self).qos0.shut() == old(self).qos0.shut(),
            old(self).qos1.messages().len() > 0 ==> {
                &&& r == Some(old(self).qos1.messages()[0])
                &&& final(self).qos1.messages() == old(self).qos1.messages().drop_first()
                &&& final(self).qos0.messages() == old(self).qos0.messages()
            },
            old(self).qos1.messages().len() == 0 ==> {
                &&& final(self).qos1.messages() == old(self).qos1.messages()
                &&& if old(self).qos0.messages().len() > 0 {
                    &&& r == Some(old(self).qos0.messages()[0])
                    &&& final(self).qos0.messages() == old(self).qos0.messages().drop_first()
                } else {
                    &&& r is None
                    &&& final(self).qos0.messages() == old(self).qos0.messages()
                }
            },
    {
        match self.qos1.try_recv() {
            Some(message) => Some(message),
            None => self.qos0.try_recv(),
        }
    }
}

/// How many messages a client was sent in the current window of one second.
#[derive(Debug, Clone, Copy)]
pub struct OutboundRateState {
    pub count: u32,
    pub window_start: u64,
}

impl OutboundRateState {
    /// A window that starts now.
    pub fn new(now: u64) -> (r: Self)
        ensures
            r == (OutboundRateState { count: 0, window_start: now }),
    {
        OutboundRateState { count: 0, window_start: now }
    }

    /// Whether the window is over: a second or more has passed.
    pub open spec fn over(self, now: u64) -> bool {
        now >= self.window_start && now - self.window_start >= 1000
    }

    /// Whether one more message is within the rate; 0 means that there is no limit.
    pub open spec fn admits(self, max_rate: u32, now: u64) -> bool {
        max_rate == 0 || self.over(now) || self.count < max_rate
    }

    /// The state after one more message was asked for.
    pub open spec fn next(self, max_rate: u32, now: u64) -> OutboundRateState {
        if max_rate == 0 {
            self
        } else if self.over(now) {
            OutboundRateState { count: 1, window_start: now }
        } else if self.count < max_rate {
            OutboundRateState { count: (self.count + 1) as u32, window_start: self.window_start }
        } else {
            self
        }
    }

    /// Asks for one more message: counts it where it is within the rate.
    pub fn check_and_increment(&mut self, max_rate: u32, now: u64) -> (r: bool)
        ensures
            r == old(self).admits(max_rate, now),
            *final(self) == old(self).next(max_rate, now),
    {
        if max_rate == 0 {
            return true;
        }
        if now.saturating_sub(self.window_start) >= 1000 {
            self.window_start = now;
            self.count = 1;
            return true;
        }
        if self.count >= max_rate {
            return false;
        }
        self.count = self.count + 1;
        true
    }
}

/// Within one window no more messages are admitted than the rate allows: the count never rises
/// above it.
pub proof fn law_rate_bounds_the_window(state: OutboundRateState, max_rate: u32, now: u64)
    requires
        max_rate > 0,
        state.count <= max_rate,
    ensures
        state.next(max_rate, now).count <= max_rate,
        state.admits(max_rate, now) && !state.over(now) ==> state.next(max_rate, now).count
            == state.count + 1,
        !state.admits(max_rate, now) ==> state.next(max_rate, now) == state && state.count
            == max_rate,
{
}

/// A window of the rate lasts a second: within it as many messages are admitted as the rate allows,
/// each of them counted, and after it a new window begins with the message that comes then. Without
/// a rate everything is admitted.
pub proof fn law_window_lasts_a_second(state: OutboundRateState, max_rate: u32, now: u64)
    requires
        state.window_start <= now,
    ensures
        max_rate == 0 ==> state.admits(max_rate, now),
        max_rate > 0 && now < state.window_start + 1000 ==> {
            &&& state.admits(max_rate, now) <==> state.count < max_rate
            &&& state.next(max_rate, now).window_start == state.window_start
            &&& state.next(max_rate, now).count == (if state.count < max_rate {
                state.count + 1
            } else {
                state.count as int
            })
        },
        max_rate > 0 && now >= state.window_start + 1000 ==> {
            &&& state.admits(max_rate, now)
            &&& state.next(max_rate, now).window_start == now
            &&& state.next(max_rate, now).count == 1
        },
{
}

} // verus!
