//! The send queue: serializes messages to one destination endpoint so at
//! most one is in flight, queuing the rest in submission order.
//!
//! A send while idle transmits at once; a send while waiting joins the
//! FIFO backlog.  When the in-flight message's reply arrives, its event is
//! completed and the head of the backlog goes on the wire, so replies are
//! consumed strictly in the order the sends were issued — the hardware
//! only ever carries one message of this queue.  Dropping a waiting queue
//! signals its waiter instead of leaving it suspended.  The cooperative
//! thread manager is an explicit event table here: `notify` files a
//! payload under an event, `fetch` claims it.

use vstd::prelude::*;

use crate::err::Error;
use crate::kobj::TileId;

verus! {

/// A wakeup token: completing a send notifies its event.
pub type Event = u64;

/// The explicit cooperative thread manager: events that were notified,
/// with the reply payload each carries.
#[derive(Debug)]
pub struct ThreadMng {
    /// Notified events and their payloads, oldest first.
    pub notified: Vec<(Event, Vec<u64>)>,
}

impl ThreadMng {
    /// An event table with nothing notified.
    pub fn new() -> (r: ThreadMng)
        ensures
            r.notified@.len() == 0,
    {
        ThreadMng { notified: Vec::new() }
    }

    /// Files `payload` under `event`, waking whoever waits for it.
    pub fn notify(&mut self, event: Event, payload: Vec<u64>)
        ensures
            final(self).notified@ == old(self).notified@.push((event, payload)),
    {
        self.notified.push((event, payload));
    }

    /// Claims the payload filed under `event`, if any.
    pub fn fetch(&mut self, event: Event) -> (r: Option<Vec<u64>>)
        ensures
            match r {
                Option::Some(p) => exists|i: int|
                    {
                        &&& 0 <= i < old(self).notified@.len()
                        &&& #[trigger] old(self).notified@[i].0 == event
                        &&& old(self).notified@[i].1 == p
                        &&& final(self).notified@ == old(self).notified@.remove(i)
                    },
                Option::None => {
                    &&& forall|i: int|
                        0 <= i < old(self).notified@.len() ==> (#[trigger] old(
                            self,
                        ).notified@[i]).0 != event
                    &&& *final(self) == *old(self)
                },
            },
    {
        let mut i: usize = 0;
        while i < self.notified.len()
            invariant
                i <= self.notified@.len(),
                *self == *old(self),
                forall|j: int| 0 <= j < i ==> (#[trigger] self.notified@[j]).0 != event,
            decreases self.notified@.len() - i,
        {
            if self.notified[i].0 == event {
                let (_e, p) = self.notified.remove(i);
                return Some(p);
            }
            i += 1;
        }
        None
    }
}

/// One queued message awaiting its turn on the wire.
#[derive(Clone, Debug)]
pub struct Entry {
    /// The identifier whose event completes this message.
    pub id: u64,
    /// The message words.
    pub msg: Vec<u64>,
}

impl Entry {
    /// A backlog entry.
    pub fn new(id: u64, msg: Vec<u64>) -> (r: Entry)
        ensures
            r.id == id,
            r.msg == msg,
    {
        Entry { id, msg }
    }
}

/// Whether a queue is free to transmit.
#[derive(Clone, Copy, Debug, PartialEq, Eq, Structural)]
pub enum QState {
    Idle,
    Waiting,
}

/// A send queue towards one destination endpoint.
#[derive(Debug)]
pub struct SendQueue {
    /// Label identifying this queue on replies.
    pub sid: u64,
    /// The tile the queue sends to.
    pub tile: TileId,
    /// The backlog, oldest first.
    pub queue: Vec<Entry>,
    /// Event of the in-flight message while waiting.
    pub cur_event: Event,
    /// Whether a message is in flight.
    pub state: QState,
    /// Next fresh message identifier.
    pub next_id: u64,
    /// The wire log: everything transmitted, in order.
    pub sent: Vec<Entry>,
}

impl SendQueue {
    /// While the queue is idle nothing is backed up; a send while idle
    /// goes straight to the wire.
    pub open spec fn inv(self) -> bool {
        self.state == QState::Idle ==> self.queue@.len() == 0
    }

    /// A fresh, idle queue.
    pub fn new(sid: u64, tile: TileId) -> (r: SendQueue)
        ensures
            r.sid == sid,
            r.tile == tile,
            r.queue@.len() == 0,
            r.state == QState::Idle,
            r.sent@.len() == 0,
            r.next_id == 0,
    {
        SendQueue {
            sid,
            tile,
            queue: Vec::new(),
            cur_event: 0,
            state: QState::Idle,
            next_id: 0,
            sent: Vec::new(),
        }
    }

    /// Submits a message: transmits at once when idle, otherwise appends
    /// it to the backlog; either way the returned event completes exactly
    /// this message.
    pub fn send(&mut self, msg: Vec<u64>) -> (r: Result<Event, Error>)
        requires
            old(self).next_id < u64::MAX,
            old(self).inv(),
        ensures
            final(self).inv(),
            final(self).sid == old(self).sid,
            final(self).tile == old(self).tile,
            final(self).next_id == old(self).next_id + 1,
            match r {
                Result::Ok(ev) => {
                    &&& ev == old(self).next_id
                    &&& final(self).state == QState::Waiting
                    &&& (old(self).state == QState::Idle ==> {
                        &&& final(self).sent@ == old(self).sent@.push(Entry { id: ev, msg })
                        &&& final(self).queue == old(self).queue
                        &&& final(self).cur_event == ev
                    })
                    &&& (old(self).state == QState::Waiting ==> {
                        &&& final(self).queue@ == old(self).queue@.push(Entry { id: ev, msg })
                        &&& final(self).sent == old(self).sent
                        &&& final(self).cur_event == old(self).cur_event
                    })
                },
                Result::Err(_) => false,
            },
    {
        let id = self.next_id;
        self.next_id = self.next_id + 1;
        if self.state == QState::Idle {
            self.cur_event = id;
            self.state = QState::Waiting;
            self.sent.push(Entry { id, msg });
        } else {
            self.queue.push(Entry { id, msg });
        }
        Ok(id)
    }

    /// Takes the reply for the in-flight message: completes its event
    /// with the reply payload, then puts the backlog's head on the wire.
    /// The reply always belongs to the oldest uncompleted send, because
    /// only one message is ever in flight.
    pub fn received_reply(&mut self, thread_mng: &mut ThreadMng, reply: Vec<u64>)
        requires
            old(self).state == QState::Waiting,
        ensures
            final(self).inv(),
            final(self).sid == old(self).sid,
            final(self).tile == old(self).tile,
            final(self).next_id == old(self).next_id,
            final(thread_mng).notified@ == old(thread_mng).notified@.push(
                (old(self).cur_event, reply),
            ),
            old(self).queue@.len() == 0 ==> {
                &&& final(self).state == QState::Idle
                &&& final(self).queue@.len() == 0
                &&& final(self).sent == old(self).sent
            },
            old(self).queue@.len() > 0 ==> {
                &&& final(self).state == QState::Waiting
                &&& final(self).cur_event == old(self).queue@[0].id
                &&& final(self).queue@ == old(self).queue@.subrange(
                    1,
                    old(self).queue@.len() as int,
                )
                &&& final(self).sent@ == old(self).sent@.push(old(self).queue@[0])
            },
    {
        thread_mng.notify(self.cur_event, reply);
        self.state = QState::Idle;
        if self.queue.len() > 0 {
            let e = self.queue.remove(0);
            self.cur_event = e.id;
            self.state = QState::Waiting;
            self.sent.push(e);
            proof {
                assert(self.queue@ =~= old(self).queue@.subrange(
                    1,
                    old(self).queue@.len() as int,
                ));
                assert(self.sent@ =~= old(self).sent@.push(old(self).queue@[0]));
            }
        }
    }

    /// Abandons the queue: a suspended waiter is woken with an empty
    /// reply instead of being leaked, and the backlog is dropped.
    pub fn shut_down(&mut self, thread_mng: &mut ThreadMng)
        ensures
            final(self).inv(),
            final(self).state == QState::Idle,
            final(self).queue@.len() == 0,
            old(self).state == QState::Waiting ==> {
                &&& final(thread_mng).notified@.len() == old(thread_mng).notified@.len() + 1
                &&& forall|i: int|
                    0 <= i < old(thread_mng).notified@.len() ==> final(thread_mng).notified@[i]
                        == old(thread_mng).notified@[i]
                &&& final(thread_mng).notified@.last().0 == old(self).cur_event
                &&& final(thread_mng).notified@.last().1@.len() == 0
            },
            old(self).state == QState::Idle ==> *final(thread_mng) == *old(thread_mng),
    {
        if self.state == QState::Waiting {
            thread_mng.notify(self.cur_event, Vec::new());
        }
        self.state = QState::Idle;
        self.queue = Vec::new();
    }
}

} // verus!
