//! The bus that carries messages from the publishers to every subscriber.
//!
//! Each subscriber has a backlog of its own, which holds at most as many
//! messages as the bus has capacity. A publisher never waits: where a backlog
//! is full, its oldest message makes room and is counted as dropped, and the
//! subscriber is told of the count before it receives what follows.

use vstd::prelude::*;
use std::collections::VecDeque;
use crate::messages::{Delivery, Message};

verus! {

/// What one subscriber has: its backlog and the count of what it lost.
struct Subscriber {
    active: bool,
    dropped: u64,
    queue: VecDeque<Message>,
}

/// What one subscriber has, as a mathematical value.
pub ghost struct Backlog {
    /// Whether the subscriber still listens.
    pub active: bool,
    /// The number of messages dropped from the backlog since the subscriber
    /// was last told; the count stops at `u64::MAX`.
    pub dropped: u64,
    /// The messages that wait to be received, the oldest first.
    pub pending: Seq<Message>,
}

/// One more, as far as a `u64` can count.
pub open spec fn one_more(count: u64) -> u64 {
    if count < u64::MAX {
        (count + 1) as u64
    } else {
        count
    }
}

/// How a published message changes one backlog. A subscriber that no longer
/// listens gets nothing. A listening one gets a copy of the message at the
/// end of its backlog; where the backlog was full, its oldest message is
/// dropped and counted. A bus without capacity keeps no message and counts
/// each as dropped.
pub open spec fn published_to(before: Backlog, after: Backlog, message: Message, capacity: usize) -> bool {
    if !before.active {
        after == before
    } else if capacity == 0 {
        after == (Backlog { dropped: one_more(before.dropped), ..before })
    } else {
        &&& after.active
        &&& exists|copy: Message| #[trigger]
            cloned(message, copy) && after.pending == (if before.pending.len() >= capacity {
                before.pending.skip(1)
            } else {
                before.pending
            }).push(copy)
        &&& after.dropped == (if before.pending.len() >= capacity {
            one_more(before.dropped)
        } else {
            before.dropped
        })
    }
}

/// How a run of published messages changes one backlog that is not received
/// from meanwhile: each message changes it in turn.
pub open spec fn published_all(
    before: Backlog,
    after: Backlog,
    messages: Seq<Message>,
    capacity: usize,
) -> bool
    decreases messages.len(),
{
    if messages.len() == 0 {
        after == before
    } else {
        exists|middle: Backlog|
            published_all(before, middle, messages.drop_last(), capacity) && #[trigger] published_to(
                middle,
                after,
                messages.last(),
                capacity,
            )
    }
}

/// The number of messages that a backlog keeps of `count` published ones.
pub open spec fn kept_of(count: nat, capacity: usize) -> nat {
    if count < capacity {
        count
    } else {
        capacity as nat
    }
}

/// A subscriber that receives nothing while messages are published loses
/// the oldest and no others: its backlog, empty before, holds copies of the
/// newest messages in the order of publication, as many as the capacity
/// allows, and the count of the dropped is the number of all the others.
pub proof fn lemma_slow_subscriber(
    before: Backlog,
    after: Backlog,
    messages: Seq<Message>,
    capacity: usize,
)
    requires
        before.active,
        before.dropped == 0,
        before.pending.len() == 0,
        capacity > 0,
        messages.len() <= u64::MAX,
        published_all(before, after, messages, capacity),
    ensures
        after.active,
        after.pending.len() == kept_of(messages.len(), capacity),
        after.dropped == messages.len() - kept_of(messages.len(), capacity),
        forall|k: int|
            0 <= k < after.pending.len() ==> cloned(
                messages[messages.len() - after.pending.len() + k],
                #[trigger] after.pending[k],
            ),
    decreases messages.len(),
{
    if messages.len() > 0 {
        let earlier = messages.drop_last();
        let middle = choose|middle: Backlog|
            published_all(before, middle, earlier, capacity) && #[trigger] published_to(
                middle,
                after,
                messages.last(),
                capacity,
            );
        lemma_slow_subscriber(before, middle, earlier, capacity);
        let kept = if middle.pending.len() >= capacity {
            middle.pending.skip(1)
        } else {
            middle.pending
        };
        let copy = choose|copy: Message| #[trigger]
            cloned(messages.last(), copy) && after.pending == kept.push(copy);
        assert forall|k: int| 0 <= k < after.pending.len() implies cloned(
            messages[messages.len() - after.pending.len() + k],
            #[trigger] after.pending[k],
        ) by {
            if k < kept.len() {
                if middle.pending.len() >= capacity {
                    assert(after.pending[k] == middle.pending[k + 1]);
                    assert(earlier[earlier.len() - middle.pending.len() + (k + 1)]
                        == messages[messages.len() - after.pending.len() + k]);
                } else {
                    assert(after.pending[k] == middle.pending[k]);
                    assert(earlier[earlier.len() - middle.pending.len() + k]
                        == messages[messages.len() - after.pending.len() + k]);
                }
            } else {
                assert(after.pending[k] == copy);
            }
        }
    }
}

/// What a subscriber receives from its backlog: first the count of what was
/// dropped, if anything was; else the oldest pending message; else, on a
/// closed bus, the news that it is closed; else nothing yet.
pub open spec fn received_from(before: Backlog, closed: bool) -> (Option<Delivery>, Backlog) {
    if !before.active {
        (None, before)
    } else if before.dropped > 0 {
        (Some(Delivery::Lagged(before.dropped)), Backlog { dropped: 0, ..before })
    } else if before.pending.len() > 0 {
        (
            Some(Delivery::Message(before.pending[0])),
            Backlog { pending: before.pending.skip(1), ..before },
        )
    } else if closed {
        (Some(Delivery::Closed), before)
    } else {
        (None, before)
    }
}

/// The number of listening subscribers among the first `upto`.
pub open spec fn listeners(backlogs: Seq<Backlog>, upto: int) -> nat
    decreases upto,
{
    if upto <= 0 {
        0
    } else if backlogs[upto - 1].active {
        listeners(backlogs, upto - 1) + 1
    } else {
        listeners(backlogs, upto - 1)
    }
}

/// The bus.
pub struct Bus {
    capacity: usize,
    closed: bool,
    subscribers: Vec<Subscriber>,
}

impl Subscriber {
    spec fn backlog(self) -> Backlog {
        Backlog { active: self.active, dropped: self.dropped, pending: self.queue@ }
    }
}

impl Bus {
    #[verifier::type_invariant]
    spec fn within_capacity(self) -> bool {
        forall|i: int|
            0 <= i < self.subscribers@.len() ==> (#[trigger] self.subscribers@[i]).queue@.len()
                <= self.capacity
    }

    /// The number of messages that a backlog holds at most.
    pub closed spec fn capacity(self) -> usize {
        self.capacity
    }

    /// Whether the bus is closed.
    pub closed spec fn is_closed(self) -> bool {
        self.closed
    }

    /// The backlogs of the subscribers, each at the position that `subscribe`
    /// returned for it.
    pub closed spec fn backlogs(self) -> Seq<Backlog> {
        self.subscribers@.map_values(|s: Subscriber| s.backlog())
    }

    /// A bus without a subscriber whose backlogs will hold `capacity`
    /// messages each.
    pub fn new(capacity: usize) -> (bus: Self)
        ensures
            bus.capacity() == capacity,
            !bus.is_closed(),
            bus.backlogs() == Seq::<Backlog>::empty(),
    {
        let bus = Bus { capacity, closed: false, subscribers: Vec::new() };
        proof {
            assert(bus.backlogs() =~= Seq::<Backlog>::empty());
        }
        bus
    }

    /// Adds a subscriber with an empty backlog and returns its position. The
    /// subscriber receives what is published from now on.
    pub fn subscribe(&mut self) -> (id: usize)
        ensures
            final(self).capacity() == old(self).capacity(),
            final(self).is_closed() == old(self).is_closed(),
            id == old(self).backlogs().len(),
            final(self).backlogs() == old(self).backlogs().push(
                Backlog { active: true, dropped: 0, pending: Seq::empty() },
            ),
    {
        proof {
            use_type_invariant(&*self);
        }
        let mut subscribers: Vec<Subscriber> = Vec::new();
        std::mem::swap(&mut self.subscribers, &mut subscribers);
        let id = subscribers.len();
        subscribers.push(Subscriber { active: true, dropped: 0, queue: VecDeque::new() });
        self.subscribers = subscribers;
        proof {
            assert(self.backlogs() =~= old(self).backlogs().push(
                Backlog { active: true, dropped: 0, pending: Seq::empty() },
            ));
        }
        id
    }

    /// Ends the subscription at position `id`: its backlog is emptied and it
    /// gets nothing more. Positions of other subscribers stay as they are.
    pub fn unsubscribe(&mut self, id: usize)
        ensures
            final(self).capacity() == old(self).capacity(),
            final(self).is_closed() == old(self).is_closed(),
            id >= old(self).backlogs().len() ==> final(self).backlogs() == old(self).backlogs(),
            id < old(self).backlogs().len() ==> final(self).backlogs() == old(
                self,
            ).backlogs().update(
                id as int,
                Backlog { active: false, dropped: 0, pending: Seq::empty() },
            ),
    {
        proof {
            use_type_invariant(&*self);
        }
        if id >= self.subscribers.len() {
            return ;
        }
        let mut subscribers: Vec<Subscriber> = Vec::new();
        std::mem::swap(&mut self.subscribers, &mut subscribers);
        subscribers.set(id, Subscriber { active: false, dropped: 0, queue: VecDeque::new() });
        self.subscribers = subscribers;
        proof {
            assert(self.backlogs() =~= old(self).backlogs().update(
                id as int,
                Backlog { active: false, dropped: 0, pending: Seq::empty() },
            ));
        }
    }

    /// Closes the bus: nothing more is published, and a subscriber that has
    /// received all of its backlog is told so.
    pub fn close(&mut self)
        ensures
            final(self).capacity() == old(self).capacity(),
            final(self).is_closed(),
            final(self).backlogs() == old(self).backlogs(),
    {
        proof {
            use_type_invariant(&*self);
        }
        self.closed = true;
    }

    /// Publishes a message to every listening subscriber and returns their
    /// number. The publisher never waits, and publishing to no subscriber is
    /// no failure. On a closed bus nothing is published.
    pub fn publish(&mut self, message: Message) -> (receivers: usize)
        ensures
            final(self).capacity() == old(self).capacity(),
            final(self).is_closed() == old(self).is_closed(),
            final(self).backlogs().len() == old(self).backlogs().len(),
            old(self).is_closed() ==> receivers == 0 && final(self).backlogs() == old(
                self,
            ).backlogs(),
            !old(self).is_closed() ==> receivers == listeners(
                old(self).backlogs(),
                old(self).backlogs().len() as int,
            ) && forall|i: int|
                0 <= i < old(self).backlogs().len() ==> published_to(
                    old(self).backlogs()[i],
                    #[trigger] final(self).backlogs()[i],
                    message,
                    old(self).capacity(),
                ),
    {
        proof {
            use_type_invariant(&*self);
        }
        if self.closed {
            return 0;
        }
        let capacity = self.capacity;
        let ghost before = self.subscribers@;
        let mut subscribers: Vec<Subscriber> = Vec::new();
        std::mem::swap(&mut self.subscribers, &mut subscribers);
        let mut receivers: usize = 0;
        let mut i: usize = 0;
        while i < subscribers.len()
            invariant
                i <= subscribers@.len(),
                subscribers@.len() == before.len(),
                receivers <= i,
                receivers == listeners(before.map_values(|s: Subscriber| s.backlog()), i as int),
                forall|j: int|
                    0 <= j < subscribers@.len() ==> (#[trigger] subscribers@[j]).queue@.len()
                        <= capacity,
                forall|j: int| i <= j < subscribers@.len() ==> subscribers@[j] == before[j],
                forall|j: int|
                    0 <= j < i ==> published_to(
                        before[j].backlog(),
                        (#[trigger] subscribers@[j]).backlog(),
                        message,
                        capacity,
                    ),
            decreases subscribers@.len() - i,
        {
            let mut subscriber = Subscriber { active: false, dropped: 0, queue: VecDeque::new() };
            std::mem::swap(&mut subscribers[i], &mut subscriber);
            assert(subscriber == before[i as int]);
            if subscriber.active {
                receivers += 1;
                if capacity == 0 {
                    subscriber.dropped = subscriber.dropped.saturating_add(1);
                } else {
                    if subscriber.queue.len() >= capacity {
                        subscriber.queue.pop_front();
                        subscriber.dropped = subscriber.dropped.saturating_add(1);
                    }
                    let copy = message.clone();
                    let ghost kept = subscriber.queue@;
                    subscriber.queue.push_back(copy);
                    proof {
                        assert(kept =~= (if before[i as int].queue@.len() >= capacity {
                            before[i as int].queue@.skip(1)
                        } else {
                            before[i as int].queue@
                        }));
                        assert(cloned(message, copy) && subscriber.queue@ == kept.push(copy));
                    }
                }
            }
            std::mem::swap(&mut subscribers[i], &mut subscriber);
            i += 1;
        }
        self.subscribers = subscribers;
        proof {
            assert forall|j: int| 0 <= j < old(self).backlogs().len() implies published_to(
                old(self).backlogs()[j],
                #[trigger] self.backlogs()[j],
                message,
                old(self).capacity(),
            ) by {
                assert(self.backlogs()[j] == self.subscribers@[j].backlog());
            }
        }
        receivers
    }

    /// What the subscriber at position `id` receives next, if anything: the
    /// count of what its backlog dropped, or its oldest pending message, or
    /// the news that the bus is closed. A position without a listening
    /// subscriber receives nothing.
    pub fn receive(&mut self, id: usize) -> (delivery: Option<Delivery>)
        ensures
            final(self).capacity() == old(self).capacity(),
            final(self).is_closed() == old(self).is_closed(),
            id >= old(self).backlogs().len() ==> delivery is None && final(self).backlogs() == old(
                self,
            ).backlogs(),
            id < old(self).backlogs().len() ==> delivery == received_from(
                old(self).backlogs()[id as int],
                old(self).is_closed(),
            ).0 && final(self).backlogs() == old(self).backlogs().update(
                id as int,
                received_from(old(self).backlogs()[id as int], old(self).is_closed()).1,
            ),
    {
        proof {
            use_type_invariant(&*self);
        }
        if id >= self.subscribers.len() {
            return None;
        }
        let closed = self.closed;
        let ghost before = self.subscribers@;
        let mut subscribers: Vec<Subscriber> = Vec::new();
        std::mem::swap(&mut self.subscribers, &mut subscribers);
        let mut subscriber = Subscriber { active: false, dropped: 0, queue: VecDeque::new() };
        std::mem::swap(&mut subscribers[id], &mut subscriber);
        let delivery = if !subscriber.active {
            None
        } else if subscriber.dropped > 0 {
            let dropped = subscriber.dropped;
            subscriber.dropped = 0;
            Some(Delivery::Lagged(dropped))
        } else {
            match subscriber.queue.pop_front() {
                Some(message) => {
                    proof {
                        assert(subscriber.queue@ =~= before[id as int].queue@.skip(1));
                    }
                    Some(Delivery::Message(message))
                },
                None => if closed {
                    Some(Delivery::Closed)
                } else {
                    None
                },
            }
        };
        std::mem::swap(&mut subscribers[id], &mut subscriber);
        self.subscribers = subscribers;
        proof {
            assert(self.backlogs() =~= old(self).backlogs().update(
                id as int,
                received_from(old(self).backlogs()[id as int], old(self).is_closed()).1,
            ));
        }
        delivery
    }
}

} // verus!
