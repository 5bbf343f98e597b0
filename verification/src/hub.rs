//! Publish/subscribe fan-out with one bounded queue per subscriber.
use std::collections::VecDeque;
use vstd::prelude::*;
use vstd::string::*;

use crate::counting::{bumped, capped_sum};
use crate::error::ClientError;
use crate::event::EventSubscriptionError;

verus! {

/// What happens to an event for a subscriber whose queue is full.
#[derive(Debug, Clone, Copy, PartialEq, Eq, Structural)]
pub enum SubscriberOverflow {
    /// Leave the queue as it is and discard the new event.
    DropNewest,
    /// Discard the oldest queued event and enqueue the new one.
    DropOldest,
    /// Disconnect the subscriber and clear its queue.
    Disconnect,
}

/// Size and overflow policy of one subscriber's queue.
#[derive(Debug, Clone, Copy, PartialEq, Eq, Structural)]
pub struct SubscriberConfig {
    /// Largest number of queued events. Must be greater than zero.
    pub capacity: usize,
    pub overflow: SubscriberOverflow,
}

impl Default for SubscriberConfig {
    fn default() -> (result: SubscriberConfig)
        ensures
            result.capacity == 1024,
            result.overflow == SubscriberOverflow::DropNewest,
    {
        SubscriberConfig { capacity: 1024, overflow: SubscriberOverflow::DropNewest }
    }
}

/// One subscriber, as contracts speak of it.
pub ghost struct SubscriberView<E> {
    pub config: SubscriberConfig,
    pub queue: Seq<E>,
    /// Whether published events still reach it.
    pub connected: bool,
    /// How many events a drop policy discarded; it stops at `u64::MAX`.
    pub dropped: u64,
}

impl<E> SubscriberView<E> {
    /// The subscriber after `event` was published to it.
    pub open spec fn offered(self, event: E) -> SubscriberView<E> {
        if !self.connected {
            self
        } else if self.queue.len() < self.config.capacity {
            SubscriberView { queue: self.queue.push(event), ..self }
        } else {
            match self.config.overflow {
                SubscriberOverflow::DropNewest => SubscriberView {
                    dropped: bumped(self.dropped),
                    ..self
                },
                SubscriberOverflow::DropOldest => SubscriberView {
                    queue: self.queue.drop_first().push(event),
                    dropped: bumped(self.dropped),
                    ..self
                },
                SubscriberOverflow::Disconnect => SubscriberView {
                    queue: Seq::empty(),
                    connected: false,
                    ..self
                },
            }
        }
    }

    /// The subscriber after `events` were published to it, in order.
    pub open spec fn offered_all(self, events: Seq<E>) -> SubscriberView<E>
        decreases events.len(),
    {
        if events.len() == 0 {
            self
        } else {
            self.offered_all(events.drop_last()).offered(events.last())
        }
    }

    /// A new subscriber, with an empty queue of its own.
    pub open spec fn fresh(config: SubscriberConfig) -> SubscriberView<E> {
        SubscriberView { config, queue: Seq::empty(), connected: true, dropped: 0 }
    }

    /// The subscriber after the hub let go of it. What it has queued stays.
    pub open spec fn disconnected(self) -> SubscriberView<E> {
        SubscriberView { connected: false, ..self }
    }

    /// What receiving without waiting gives: the oldest queued event, else
    /// nothing, or an error once no more can come.
    pub open spec fn next(self) -> Result<Option<E>, EventSubscriptionError> {
        if self.queue.len() > 0 {
            Ok(Some(self.queue[0]))
        } else if !self.connected {
            Err(EventSubscriptionError::Disconnected)
        } else {
            Ok(None)
        }
    }

    /// The subscriber after receiving without waiting.
    pub open spec fn advanced(self) -> SubscriberView<E> {
        if self.queue.len() > 0 {
            SubscriberView { queue: self.queue.drop_first(), ..self }
        } else {
            self
        }
    }

    /// Everything that receiving gives until it fails or would wait.
    pub open spec fn drained(self) -> Seq<E>
        decreases self.queue.len(),
    {
        if self.queue.len() > 0 {
            seq![self.queue[0]] + self.advanced().drained()
        } else {
            Seq::empty()
        }
    }

    /// The queue never holds more than its capacity, which is not zero.
    pub open spec fn bounded(self) -> bool {
        0 < self.config.capacity && self.queue.len() <= self.config.capacity
    }
}

#[derive(Debug)]
struct Subscriber<E> {
    id: u64,
    config: SubscriberConfig,
    queue: VecDeque<E>,
    connected: bool,
    dropped: u64,
}

impl<E> Subscriber<E> {
    spec fn view(&self) -> SubscriberView<E> {
        SubscriberView {
            config: self.config,
            queue: self.queue@,
            connected: self.connected,
            dropped: self.dropped,
        }
    }

    /// Takes in one event and tells whether the subscriber stays connected.
    fn publish(&mut self, event: E) -> (result: bool)
        requires
            old(self).view().bounded(),
        ensures
            final(self).id == old(self).id,
            final(self).view() == old(self).view().offered(event),
            final(self).view().bounded(),
            result == final(self).connected,
    {
        if !self.connected {
            return false;
        }
        if self.queue.len() < self.config.capacity {
            self.queue.push_back(event);
            return true;
        }
        match self.config.overflow {
            SubscriberOverflow::DropNewest => {
                self.dropped = self.dropped.saturating_add(1);
                true
            },
            SubscriberOverflow::DropOldest => {
                let _ = self.queue.pop_front();
                self.queue.push_back(event);
                self.dropped = self.dropped.saturating_add(1);
                true
            },
            SubscriberOverflow::Disconnect => {
                self.queue.clear();
                self.connected = false;
                false
            },
        }
    }

    fn disconnect(&mut self)
        ensures
            final(self).id == old(self).id,
            final(self).view() == old(self).view().disconnected(),
    {
        self.connected = false;
    }
}

/// Handle of one subscriber. The queue itself lives in the hub.
#[must_use]
#[derive(Debug)]
pub struct EventSubscription {
    id: u64,
}

/// Fan-out of events to subscribers. Each subscriber gets its own copy.
#[derive(Debug)]
pub struct EventHub<E> {
    next_id: u64,
    subscribers: Vec<Subscriber<E>>,
}

/// `after` is the subscriber `before` with a copy of `event` published to it.
pub open spec fn delivered<E: Clone>(
    before: SubscriberView<E>,
    after: SubscriberView<E>,
    event: E,
) -> bool {
    exists|copy: E|
        vstd::pervasive::cloned(event, copy) && after == #[trigger] before.offered(copy)
}

/// The copy with which `after` came of `before`.
spec fn delivered_copy<E: Clone>(
    before: SubscriberView<E>,
    after: SubscriberView<E>,
    event: E,
) -> E {
    choose|copy: E|
        vstd::pervasive::cloned(event, copy) && after == #[trigger] before.offered(copy)
}

/// Everything that `copies` holds is a copy of `event`.
pub open spec fn copied<E: Clone>(copies: Map<u64, E>, event: E) -> bool {
    forall|id: u64| #[trigger]
        copies.contains_key(id) ==> vstd::pervasive::cloned(event, copies[id])
}

/// Something that happens to a hub.
#[allow(inconsistent_fields)]
pub ghost enum HubStep<E> {
    /// An event is published. Each subscriber is offered its own copy.
    Publish { copies: Map<u64, E> },
    Subscribe { config: SubscriberConfig },
    DisconnectAll,
    /// The subscriber with this number receives without waiting.
    Receive { id: u64 },
    /// The subscriber with this number is dropped.
    Unsubscribe { id: u64 },
}

/// A hub, as its laws speak of it.
pub ghost struct HubView<E> {
    /// The subscribers that were not dropped, by the number of their handle.
    pub subscribers: Map<u64, SubscriberView<E>>,
    /// Number of the next handle.
    pub next: u64,
}

impl<E> HubView<E> {
    pub open spec fn stepped(self, step: HubStep<E>) -> HubView<E> {
        match step {
            HubStep::Publish { copies } => HubView {
                subscribers: Map::new(
                    |id: u64| self.subscribers.contains_key(id),
                    |id: u64| self.subscribers[id].offered(copies[id]),
                ),
                ..self
            },
            HubStep::Subscribe { config } => if config.capacity == 0 || self.next == u64::MAX {
                self
            } else {
                HubView {
                    subscribers: self.subscribers.insert(self.next, SubscriberView::fresh(config)),
                    next: (self.next + 1) as u64,
                }
            },
            HubStep::DisconnectAll => HubView {
                subscribers: self.subscribers.map_values(
                    |subscriber: SubscriberView<E>| subscriber.disconnected(),
                ),
                ..self
            },
            HubStep::Receive { id } => if self.subscribers.contains_key(id) {
                HubView {
                    subscribers: self.subscribers.insert(id, self.subscribers[id].advanced()),
                    ..self
                }
            } else {
                self
            },
            HubStep::Unsubscribe { id } => HubView {
                subscribers: self.subscribers.remove(id),
                ..self
            },
        }
    }

    /// The hub after `steps`, in order.
    pub open spec fn ran(self, steps: Seq<HubStep<E>>) -> HubView<E>
        decreases steps.len(),
    {
        if steps.len() == 0 {
            self
        } else {
            self.ran(steps.drop_last()).stepped(steps.last())
        }
    }

    /// How many subscribers published events still reach.
    pub open spec fn connected_count(self) -> nat {
        self.subscribers.dom().filter(|id: u64| self.subscribers[id].connected).len()
    }

    /// No handle is numbered beyond the next one.
    pub open spec fn numbered(self) -> bool {
        forall|id: u64| #[trigger] self.subscribers.contains_key(id) ==> id < self.next
    }
}

/// `after` came of `before` when `event` was published: every subscriber was
/// offered a copy of it.
pub open spec fn is_publication<E: Clone>(
    before: HubView<E>,
    after: HubView<E>,
    event: E,
) -> bool {
    exists|copies: Map<u64, E>| #[trigger]
        copied(copies, event) && copies.dom() == before.subscribers.dom() && after
            == before.stepped(HubStep::Publish { copies })
}

spec fn listed<E>(subscribers: Seq<Subscriber<E>>, id: u64) -> bool {
    exists|i: int| 0 <= i < subscribers.len() && (#[trigger] subscribers[i]).id == id
}

spec fn place<E>(subscribers: Seq<Subscriber<E>>, id: u64) -> int {
    choose|i: int| 0 <= i < subscribers.len() && (#[trigger] subscribers[i]).id == id
}

impl EventSubscription {
    pub closed spec fn id(&self) -> u64 {
        self.id
    }
}

impl<E> EventHub<E> {
    /// The subscribers that were not dropped, by the number of their handle.
    pub closed spec fn view(&self) -> Map<u64, SubscriberView<E>> {
        Map::new(
            |id: u64| listed(self.subscribers@, id),
            |id: u64| self.subscribers@[place(self.subscribers@, id)].view(),
        )
    }

    /// The hub as a whole.
    pub open spec fn state(&self) -> HubView<E> {
        HubView { subscribers: self.view(), next: self.next() }
    }

    /// Number of the next handle.
    pub closed spec fn next(&self) -> u64 {
        self.next_id
    }

    /// Handles are numbered apart and below the next number, and every queue
    /// is within its bound.
    pub closed spec fn wf(&self) -> bool {
        &&& forall|i: int, j: int|
            0 <= i < j < self.subscribers@.len() ==> (#[trigger] self.subscribers@[i]).id < (
            #[trigger] self.subscribers@[j]).id
        &&& forall|i: int|
            0 <= i < self.subscribers@.len() ==> (#[trigger] self.subscribers@[i]).id
                < self.next_id && self.subscribers@[i].view().bounded()
    }

    /// In a well-formed hub no queue exceeds its capacity and no handle is
    /// numbered beyond the next one.
    pub proof fn lemma_wf(&self, id: u64)
        requires
            self.wf(),
            self.view().contains_key(id),
        ensures
            id < self.next(),
            self.view()[id].bounded(),
    {
        assert(listed(self.subscribers@, id));
        let i = place(self.subscribers@, id);
        assert(self.subscribers@[i].id == id);
    }

    proof fn lemma_place(&self, i: int)
        requires
            self.wf(),
            0 <= i < self.subscribers@.len(),
        ensures
            self.view().contains_key(self.subscribers@[i].id),
            self.view()[self.subscribers@[i].id] == self.subscribers@[i].view(),
            place(self.subscribers@, self.subscribers@[i].id) == i,
    {
        let id = self.subscribers@[i].id;
        assert(listed(self.subscribers@, id));
        let j = place(self.subscribers@, id);
        assert(self.subscribers@[j].id == id);
        if i < j {
            assert(self.subscribers@[i].id < self.subscribers@[j].id);
        } else if j < i {
            assert(self.subscribers@[j].id < self.subscribers@[i].id);
        }
    }

    /// A hub without subscribers.
    pub fn new() -> (result: EventHub<E>)
        ensures
            result.wf(),
            result.view() == Map::<u64, SubscriberView<E>>::empty(),
            result.next() == 1,
    {
        let result = EventHub { next_id: 1, subscribers: Vec::new() };
        assert(result.view() =~= Map::<u64, SubscriberView<E>>::empty());
        result
    }

    fn find(&self, id: u64) -> (result: Option<usize>)
        requires
            self.wf(),
        ensures
            match result {
                Some(i) => {
                    &&& i < self.subscribers@.len()
                    &&& self.subscribers@[i as int].id == id
                    &&& self.view().contains_key(id)
                    &&& self.view()[id] == self.subscribers@[i as int].view()
                },
                None => !self.view().contains_key(id),
            },
    {
        let mut i: usize = 0;
        while i < self.subscribers.len()
            invariant
                self.wf(),
                i <= self.subscribers@.len(),
                forall|j: int| 0 <= j < i ==> (#[trigger] self.subscribers@[j]).id != id,
            decreases self.subscribers@.len() - i,
        {
            if self.subscribers[i].id == id {
                proof {
                    self.lemma_place(i as int);
                }
                return Some(i);
            }
            i += 1;
        }
        None
    }

    /// Registers a subscriber with an empty queue of its own. A capacity of
    /// zero is refused. Earlier events are not replayed.
    pub fn subscribe(&mut self, config: SubscriberConfig) -> (result: Result<
        EventSubscription,
        ClientError,
    >)
        requires
            old(self).wf(),
            old(self).next() < u64::MAX,
        ensures
            final(self).wf(),
            config.capacity > 0 ==> {
                &&& result matches Ok(subscription) && subscription.id() == old(self).next()
                &&& !old(self).view().contains_key(old(self).next())
                &&& final(self).next() == old(self).next() + 1
                &&& final(self).view() == old(self).view().insert(
                    old(self).next(),
                    SubscriberView::fresh(config),
                )
            },
            final(self).state() == old(self).state().stepped(HubStep::Subscribe { config }),
            config.capacity == 0 ==> {
                &&& result matches Err(ClientError::InvalidConfig { reason }) && reason@
                    == "subscriber capacity must be greater than zero"@
                &&& final(self).view() == old(self).view()
                &&& final(self).next() == old(self).next()
            },
    {
        if config.capacity == 0 {
            return Err(
                ClientError::InvalidConfig {
                    reason: String::from_str("subscriber capacity must be greater than zero"),
                },
            );
        }
        let id: u64 = self.next_id;
        assert(!self.view().contains_key(id)) by {
            if self.view().contains_key(id) {
                self.lemma_wf(id);
            }
        }
        self.next_id = id + 1;
        self.subscribers.push(
            Subscriber { id, config, queue: VecDeque::new(), connected: true, dropped: 0 },
        );
        proof {
            let grown = self.subscribers@;
            let before = old(self).subscribers@;
            assert forall|key: u64| self.view().contains_key(key) <==> old(
                self,
            ).view().contains_key(key) || key == id by {
                if listed(before, key) {
                    assert(grown[place(before, key)].id == key);
                }
                if listed(grown, key) && key != id {
                    assert(before[place(grown, key)].id == key);
                }
                assert(grown[before.len() as int].id == id);
            }
            self.lemma_place(before.len() as int);
            assert forall|key: u64| old(self).view().contains_key(key) implies self.view()[key]
                == old(self).view()[key] by {
                let i = place(before, key);
                assert(before[i].id == key);
                assert(grown[i] == before[i]);
                self.lemma_place(i);
                old(self).lemma_place(i);
            }
            assert(self.view() =~= old(self).view().insert(
                id,
                SubscriberView { config, queue: Seq::empty(), connected: true, dropped: 0 },
            ));
        }
        Ok(EventSubscription { id })
    }

    /// Lets go of every subscriber. What they have queued can still be received.
    pub fn disconnect_all(&mut self)
        requires
            old(self).wf(),
        ensures
            final(self).wf(),
            final(self).next() == old(self).next(),
            final(self).view() == old(self).view().map_values(
                |subscriber: SubscriberView<E>| subscriber.disconnected(),
            ),
            final(self).state() == old(self).state().stepped(HubStep::DisconnectAll),
            final(self).state().connected_count() == 0,
    {
        let mut i: usize = 0;
        while i < self.subscribers.len()
            invariant
                self.wf(),
                old(self).wf(),
                i <= self.subscribers@.len(),
                self.next_id == old(self).next_id,
                self.subscribers@.len() == old(self).subscribers@.len(),
                forall|j: int|
                    0 <= j < self.subscribers@.len() ==> (#[trigger] self.subscribers@[j]).id
                        == old(self).subscribers@[j].id && self.subscribers@[j].view() == (if j
                        < i {
                        old(self).subscribers@[j].view().disconnected()
                    } else {
                        old(self).subscribers@[j].view()
                    }),
            decreases self.subscribers@.len() - i,
        {
            let ghost before = self.subscribers@;
            self.subscribers[i].disconnect();
            assert(forall|j: int|
                0 <= j < before.len() && j != i ==> #[trigger] self.subscribers@[j] == before[j]);
            i += 1;
        }
        proof {
            lemma_pointwise(*old(self), *self);
            lemma_none_connected(old(self).state());
            assert forall|key: u64| old(self).view().contains_key(key) implies self.view()[key]
                == old(self).view()[key].disconnected() by {
                let j = place(old(self).subscribers@, key);
                assert(old(self).subscribers@[j].id == key);
                assert(self.subscribers@[j].id == key);
                self.lemma_place(j);
                old(self).lemma_place(j);
            }
            assert(self.view() =~= old(self).view().map_values(
                |subscriber: SubscriberView<E>| subscriber.disconnected(),
            ));
        }
    }

    /// Drops a subscriber together with what it has queued.
    pub fn unsubscribe(&mut self, subscription: EventSubscription)
        requires
            old(self).wf(),
        ensures
            final(self).wf(),
            final(self).next() == old(self).next(),
            final(self).view() == old(self).view().remove(subscription.id()),
            final(self).state() == old(self).state().stepped(
                HubStep::Unsubscribe { id: subscription.id() },
            ),
    {
        let id: u64 = subscription.id;
        match self.find(id) {
            Some(at) => {
                let _ = self.subscribers.remove(at);
                proof {
                    let before = old(self).subscribers@;
                    let rest = self.subscribers@;
                    assert forall|key: u64| self.view().contains_key(key) <==> old(
                        self,
                    ).view().contains_key(key) && key != id by {
                        if listed(before, key) && key != id {
                            let i = place(before, key);
                            assert(rest[if i < at { i } else { i - 1 }].id == key);
                        }
                        if listed(rest, key) {
                            let i = place(rest, key);
                            let j = if i < at { i } else { i + 1 };
                            assert(before[j].id == key);
                            assert(before[at as int].id == id);
                        }
                    }
                    assert forall|key: u64| self.view().contains_key(key) implies self.view()[key]
                        == old(self).view()[key] by {
                        let i = place(rest, key);
                        assert(rest[i].id == key);
                        self.lemma_place(i);
                        let j = if i < at { i } else { i + 1 };
                        assert(rest[i] == before[j]);
                        old(self).lemma_place(j);
                    }
                    assert(self.view() =~= old(self).view().remove(id));
                }
            },
            None => {
                assert(self.view().remove(id) =~= self.view());
            },
        }
    }

    /// How many subscribers published events still reach.
    pub fn subscriber_count(&self) -> (result: usize)
        requires
            self.wf(),
        ensures
            result == self.state().connected_count(),
    {
        let ghost all = self.view();
        let ghost reached = Set::<u64>::empty();
        let mut count: usize = 0;
        let mut i: usize = 0;
        while i < self.subscribers.len()
            invariant
                self.wf(),
                all == self.view(),
                i <= self.subscribers@.len(),
                count <= i,
                reached.finite(),
                reached.len() == count,
                forall|id: u64|
                    reached.contains(id) <==> exists|j: int|
                        0 <= j < i && (#[trigger] self.subscribers@[j]).id == id
                            && self.subscribers@[j].connected,
            decreases self.subscribers@.len() - i,
        {
            proof {
                self.lemma_place(i as int);
            }
            if self.subscribers[i].connected {
                proof {
                    let id = self.subscribers@[i as int].id;
                    assert(!reached.contains(id)) by {
                        if reached.contains(id) {
                            let j = choose|j: int|
                                0 <= j < i && (#[trigger] self.subscribers@[j]).id == id
                                    && self.subscribers@[j].connected;
                            assert(self.subscribers@[j].id < self.subscribers@[i as int].id);
                        }
                    }
                    reached = reached.insert(id);
                }
                count += 1;
            }
            i += 1;
        }
        proof {
            let wanted = all.dom().filter(|id: u64| all[id].connected);
            assert forall|id: u64| wanted.contains(id) <==> reached.contains(id) by {
                if wanted.contains(id) {
                    let j = place(self.subscribers@, id);
                    assert(self.subscribers@[j].id == id);
                    self.lemma_place(j);
                }
                if reached.contains(id) {
                    let j = choose|j: int|
                        0 <= j < i && (#[trigger] self.subscribers@[j]).id == id
                            && self.subscribers@[j].connected;
                    self.lemma_place(j);
                }
            }
            assert(wanted =~= reached);
        }
        count
    }

    /// Number of the next handle.
    pub fn next_id(&self) -> (result: u64)
        ensures
            result == self.next(),
    {
        self.next_id
    }
}

proof fn lemma_pointwise<E>(before: EventHub<E>, after: EventHub<E>)
    requires
        before.wf(),
        after.wf(),
        before.subscribers@.len() == after.subscribers@.len(),
        forall|j: int|
            0 <= j < after.subscribers@.len() ==> (#[trigger] after.subscribers@[j]).id
                == before.subscribers@[j].id,
    ensures
        forall|key: u64| after.view().contains_key(key) <==> before.view().contains_key(key),
{
    assert forall|key: u64| after.view().contains_key(key) <==> before.view().contains_key(key) by {
        if listed(before.subscribers@, key) {
            assert(after.subscribers@[place(before.subscribers@, key)].id == key);
        }
        if listed(after.subscribers@, key) {
            assert(before.subscribers@[place(after.subscribers@, key)].id == key);
        }
    }
}

impl<E: Clone> EventHub<E> {
    /// Publishes a copy of `event` to every connected subscriber. A full queue
    /// is handled by its own policy and does not affect other subscribers.
    pub fn publish(&mut self, event: E)
        requires
            old(self).wf(),
        ensures
            final(self).wf(),
            final(self).next() == old(self).next(),
            final(self).view().dom() == old(self).view().dom(),
            forall|id: u64| #[trigger]
                old(self).view().contains_key(id) ==> delivered(
                    old(self).view()[id],
                    final(self).view()[id],
                    event,
                ),
            is_publication(old(self).state(), final(self).state(), event),
    {
        let mut i: usize = 0;
        while i < self.subscribers.len()
            invariant
                self.wf(),
                old(self).wf(),
                i <= self.subscribers@.len(),
                self.next_id == old(self).next_id,
                self.subscribers@.len() == old(self).subscribers@.len(),
                forall|j: int|
                    0 <= j < self.subscribers@.len() ==> (#[trigger] self.subscribers@[j]).id
                        == old(self).subscribers@[j].id,
                forall|j: int|
                    0 <= j < i ==> delivered(
                        old(self).subscribers@[j].view(),
                        (#[trigger] self.subscribers@[j]).view(),
                        event,
                    ),
                forall|j: int|
                    i <= j < self.subscribers@.len() ==> #[trigger] self.subscribers@[j] == old(
                        self,
                    ).subscribers@[j],
            decreases self.subscribers@.len() - i,
        {
            let ghost before = self.subscribers@;
            let copy = event.clone();
            let _ = self.subscribers[i].publish(copy);
            proof {
                assert(forall|j: int|
                    0 <= j < before.len() && j != i ==> #[trigger] self.subscribers@[j]
                        == before[j]);
                assert(self.subscribers@[i as int].view() == old(
                    self,
                ).subscribers@[i as int].view().offered(copy));
            }
            i += 1;
        }
        proof {
            lemma_pointwise(*old(self), *self);
            assert(self.view().dom() =~= old(self).view().dom());
            assert forall|id: u64| #[trigger] old(self).view().contains_key(id) implies delivered(
                old(self).view()[id],
                self.view()[id],
                event,
            ) by {
                let j = place(old(self).subscribers@, id);
                assert(old(self).subscribers@[j].id == id);
                assert(self.subscribers@[j].id == id);
                self.lemma_place(j);
                old(self).lemma_place(j);
            }
            let copies = Map::<u64, E>::new(
                |id: u64| old(self).view().contains_key(id),
                |id: u64| delivered_copy(old(self).view()[id], self.view()[id], event),
            );
            assert forall|id: u64| #[trigger] copies.contains_key(id) implies
                vstd::pervasive::cloned(event, copies[id]) && self.view()[id] == old(
                self,
            ).view()[id].offered(copies[id]) by {
                assert(delivered(old(self).view()[id], self.view()[id], event));
            }
            assert(copies.dom() =~= old(self).view().dom());
            assert(self.view() =~= old(self).state().stepped(
                HubStep::Publish { copies },
            ).subscribers);
            assert(copied(copies, event));
        }
    }
}

impl EventSubscription {
    /// Receives one queued event without waiting. A handle that the hub does
    /// not know is disconnected.
    pub fn try_recv<E>(&self, hub: &mut EventHub<E>) -> (result: Result<
        Option<E>,
        EventSubscriptionError,
    >)
        requires
            old(hub).wf(),
        ensures
            final(hub).wf(),
            final(hub).next() == old(hub).next(),
            final(hub).state() == old(hub).state().stepped(HubStep::Receive { id: self.id() }),
            old(hub).view().contains_key(self.id()) ==> {
                &&& result == old(hub).view()[self.id()].next()
                &&& final(hub).view() == old(hub).view().insert(
                    self.id(),
                    old(hub).view()[self.id()].advanced(),
                )
            },
            !old(hub).view().contains_key(self.id()) ==> {
                &&& result == Err::<Option<E>, _>(EventSubscriptionError::Disconnected)
                &&& final(hub).view() == old(hub).view()
            },
    {
        match hub.find(self.id) {
            Some(at) => {
                let event = hub.subscribers[at].queue.pop_front();
                proof {
                    let before = old(hub).subscribers@;
                    let after = hub.subscribers@;
                    assert(forall|j: int|
                        0 <= j < before.len() && j != at ==> #[trigger] after[j] == before[j]);
                    assert(after[at as int].view() == before[at as int].view().advanced());
                    lemma_pointwise(*old(hub), *hub);
                    assert forall|key: u64| old(hub).view().contains_key(key) && key
                        != self.id implies hub.view()[key] == old(hub).view()[key] by {
                        let j = place(before, key);
                        assert(before[j].id == key);
                        assert(after[j].id == key);
                        hub.lemma_place(j);
                        old(hub).lemma_place(j);
                    }
                    hub.lemma_place(at as int);
                    assert(hub.view() =~= old(hub).view().insert(
                        self.id,
                        old(hub).view()[self.id].advanced(),
                    ));
                }
                match event {
                    Some(event) => Ok(Some(event)),
                    None => {
                        if !hub.subscribers[at].connected {
                            Err(EventSubscriptionError::Disconnected)
                        } else {
                            Ok(None)
                        }
                    },
                }
            },
            None => Err(EventSubscriptionError::Disconnected),
        }
    }

    /// Whether receiving gives an event or an error at once. Otherwise a
    /// receiver has to wait until something is published or disconnected.
    pub fn is_ready<E>(&self, hub: &EventHub<E>) -> (result: bool)
        requires
            hub.wf(),
        ensures
            result == !(hub.view().contains_key(self.id()) && hub.view()[self.id()].next() == Ok::<
                Option<E>,
                EventSubscriptionError,
            >(None)),
    {
        match hub.find(self.id) {
            Some(at) => hub.subscribers[at].queue.len() > 0 || !hub.subscribers[at].connected,
            None => true,
        }
    }

    /// Receives the next event, or fails once the subscription is disconnected
    /// and its queue is empty. It is called when there is nothing to wait for.
    pub fn recv<E>(&self, hub: &mut EventHub<E>) -> (result: Result<E, EventSubscriptionError>)
        requires
            old(hub).wf(),
            !(old(hub).view().contains_key(self.id()) && old(hub).view()[self.id()].next() == Ok::<
                Option<E>,
                EventSubscriptionError,
            >(None)),
        ensures
            final(hub).wf(),
            final(hub).next() == old(hub).next(),
            final(hub).state() == old(hub).state().stepped(HubStep::Receive { id: self.id() }),
            old(hub).view().contains_key(self.id()) ==> {
                &&& match old(hub).view()[self.id()].next() {
                    Ok(Some(event)) => result == Ok::<E, EventSubscriptionError>(event),
                    _ => result == Err::<E, _>(EventSubscriptionError::Disconnected),
                }
                &&& final(hub).view() == old(hub).view().insert(
                    self.id(),
                    old(hub).view()[self.id()].advanced(),
                )
            },
            !old(hub).view().contains_key(self.id()) ==> {
                &&& result == Err::<E, _>(EventSubscriptionError::Disconnected)
                &&& final(hub).view() == old(hub).view()
            },
    {
        match self.try_recv(hub) {
            Ok(Some(event)) => Ok(event),
            Ok(None) => Err(EventSubscriptionError::Disconnected),
            Err(error) => Err(error),
        }
    }

    /// How many events the queue's drop policy has discarded.
    pub fn dropped_events<E>(&self, hub: &EventHub<E>) -> (result: u64)
        requires
            hub.wf(),
        ensures
            result == (if hub.view().contains_key(self.id()) {
                hub.view()[self.id()].dropped
            } else {
                0
            }),
    {
        match hub.find(self.id) {
            Some(at) => hub.subscribers[at].dropped,
            None => 0,
        }
    }
}

/// Publishing keeps every queue within its bound, whatever the policy.
pub proof fn law_queues_stay_bounded<E>(subscriber: SubscriberView<E>, event: E)
    requires
        subscriber.bounded(),
    ensures
        subscriber.offered(event).bounded(),
        subscriber.disconnected().bounded(),
        subscriber.advanced().bounded(),
        subscriber.offered(event).config == subscriber.config,
{
}

/// After a disconnect, receiving hands out exactly what was queued, in order,
/// and then fails.
pub proof fn law_disconnect_keeps_queue<E>(subscriber: SubscriberView<E>)
    ensures
        subscriber.disconnected().drained() == subscriber.queue,
        subscriber.queue.len() == 0 ==> subscriber.disconnected().next() == Err::<Option<E>, _>(
            EventSubscriptionError::Disconnected,
        ),
        subscriber.queue.len() > 0 ==> subscriber.disconnected().advanced()
            == subscriber.advanced().disconnected(),
    decreases subscriber.queue.len(),
{
    if subscriber.queue.len() > 0 {
        law_disconnect_keeps_queue(subscriber.advanced());
        assert(seq![subscriber.queue[0]] + subscriber.queue.drop_first() =~= subscriber.queue);
    }
}

/// A disconnected subscriber stays disconnected and receives no further event.
pub proof fn law_disconnect_is_final<E>(subscriber: SubscriberView<E>, event: E)
    requires
        !subscriber.connected,
    ensures
        subscriber.offered(event) == subscriber,
        !subscriber.advanced().connected,
{
}

/// A subscriber with room for all events holds exactly what was published, in
/// order.
pub proof fn law_events_arrive_in_order<E>(subscriber: SubscriberView<E>, events: Seq<E>)
    requires
        subscriber.connected,
        subscriber.queue.len() + events.len() <= subscriber.config.capacity,
    ensures
        subscriber.offered_all(events) == (SubscriberView {
            queue: subscriber.queue + events,
            ..subscriber
        }),
    decreases events.len(),
{
    if events.len() == 0 {
        assert(subscriber.queue + events =~= subscriber.queue);
    } else {
        law_events_arrive_in_order(subscriber, events.drop_last());
        assert((subscriber.queue + events.drop_last()).push(events.last()) =~= subscriber.queue
            + events);
    }
}

/// A full queue that drops the newest keeps what came first, and one that
/// drops the oldest keeps what came last.
pub proof fn law_overflow_keeps_one_end<E>(subscriber: SubscriberView<E>, events: Seq<E>)
    requires
        subscriber.bounded(),
        subscriber.connected,
    ensures
        ({
            let all = subscriber.queue + events;
            let capacity = subscriber.config.capacity as int;
            let kept = if all.len() <= capacity {
                all.len() as int
            } else {
                capacity
            };
            let after = subscriber.offered_all(events);
            &&& subscriber.config.overflow == SubscriberOverflow::DropNewest ==> after.queue
                == all.take(kept)
            &&& subscriber.config.overflow == SubscriberOverflow::DropOldest ==> after.queue
                == all.skip(all.len() - kept)
            &&& subscriber.config.overflow != SubscriberOverflow::Disconnect ==> after.connected
            &&& after.config == subscriber.config
        }),
    decreases events.len(),
{
    let all = subscriber.queue + events;
    if events.len() == 0 {
        assert(all =~= subscriber.queue);
        assert(all.take(all.len() as int) =~= all);
        assert(all.skip(0) =~= all);
    } else {
        let rest = events.drop_last();
        law_overflow_keeps_one_end(subscriber, rest);
        let before = subscriber.queue + rest;
        assert(all =~= before.push(events.last()));
        let capacity = subscriber.config.capacity as int;
        let after = subscriber.offered_all(events);
        if all.len() <= capacity {
            assert(before.take(before.len() as int) =~= before);
            assert(before.skip(0) =~= before);
            assert(all.take(all.len() as int) =~= all);
            assert(all.skip(0) =~= all);
        } else {
            if subscriber.config.overflow == SubscriberOverflow::DropNewest {
                assert(all.take(capacity) =~= before.take(capacity));
            }
            if subscriber.config.overflow == SubscriberOverflow::DropOldest {
                let held = if before.len() <= capacity {
                    before.len() as int
                } else {
                    capacity
                };
                assert(before.skip(before.len() - held).drop_first().push(events.last())
                    =~= all.skip(all.len() - capacity));
            }
        }
    }
}

/// How often the subscriber with number `id` receives among `steps`.
pub open spec fn receives<E>(steps: Seq<HubStep<E>>, id: u64) -> nat
    decreases steps.len(),
{
    if steps.len() == 0 {
        0
    } else {
        receives(steps.drop_last(), id) + if steps.last() == (HubStep::<E>::Receive { id }) {
            1nat
        } else {
            0
        }
    }
}

/// No step of `steps` drops the subscriber with number `id`.
pub open spec fn keeps_handle<E>(steps: Seq<HubStep<E>>, id: u64) -> bool {
    forall|i: int| 0 <= i < steps.len() ==> #[trigger] steps[i] != (HubStep::<E>::Unsubscribe { id })
}

/// The steps that publish the copies listed.
pub open spec fn publications<E>(copies: Seq<Map<u64, E>>) -> Seq<HubStep<E>> {
    copies.map_values(|copies: Map<u64, E>| HubStep::Publish { copies })
}

/// After all subscribers were disconnected, whatever is published, subscribed,
/// received, dropped or disconnected again:
/// - right away, no subscriber counts as connected;
/// - a former subscription that is kept stays disconnected and keeps exactly
///   its queue, of which each receive takes the oldest event; once it is empty
///   receiving fails for good;
/// - a later subscription is connected, starts empty and is offered every
///   event that is then published.
pub proof fn law_disconnect_all_lasts<E>(
    hub: HubView<E>,
    steps: Seq<HubStep<E>>,
    id: u64,
    config: SubscriberConfig,
    copies: Seq<Map<u64, E>>,
)
    requires
        hub.numbered(),
    ensures
        ({
            let disconnected = hub.stepped(HubStep::DisconnectAll);
            let after = disconnected.ran(steps);
            &&& disconnected.connected_count() == 0
            &&& hub.subscribers.contains_key(id) && keeps_handle(steps, id) ==> {
                let queue = hub.subscribers[id].queue;
                let received = receives(steps, id);
                let former = after.subscribers[id];
                &&& after.subscribers.contains_key(id)
                &&& former == (SubscriberView {
                    queue: if received <= queue.len() {
                        queue.skip(received as int)
                    } else {
                        Seq::empty()
                    },
                    connected: false,
                    ..hub.subscribers[id]
                })
                &&& former.next() == (if received < queue.len() {
                    Ok::<Option<E>, EventSubscriptionError>(Some(queue[received as int]))
                } else {
                    Err(EventSubscriptionError::Disconnected)
                })
            }
            &&& config.capacity > 0 && after.next < u64::MAX ==> {
                let joined = after.stepped(HubStep::Subscribe { config });
                &&& joined.subscribers.contains_key(after.next)
                &&& joined.subscribers[after.next] == SubscriberView::<E>::fresh(config)
                &&& joined.ran(publications(copies)).subscribers[after.next]
                    == SubscriberView::<E>::fresh(config).offered_all(
                    copies.map_values(|copies: Map<u64, E>| copies[after.next]),
                )
            }
        }),
{
    let disconnected = hub.stepped(HubStep::DisconnectAll);
    let after = disconnected.ran(steps);
    lemma_none_connected(hub);
    if hub.subscribers.contains_key(id) && keeps_handle(steps, id) {
        lemma_former_subscriber(hub, steps, id);
    }
    if config.capacity > 0 && after.next < u64::MAX {
        lemma_publications_reach(after.stepped(HubStep::Subscribe { config }), copies, after.next);
    }
}

proof fn lemma_none_connected<E>(hub: HubView<E>)
    ensures
        hub.stepped(HubStep::DisconnectAll).connected_count() == 0,
{
    let disconnected = hub.stepped(HubStep::DisconnectAll);
    let reached = disconnected.subscribers.dom().filter(
        |id: u64| disconnected.subscribers[id].connected,
    );
    assert(reached =~= Set::<u64>::empty());
}

proof fn lemma_former_subscriber<E>(hub: HubView<E>, steps: Seq<HubStep<E>>, id: u64)
    requires
        hub.numbered(),
        hub.subscribers.contains_key(id),
        keeps_handle(steps, id),
    ensures
        ({
            let after = hub.stepped(HubStep::DisconnectAll).ran(steps);
            let queue = hub.subscribers[id].queue;
            let received = receives(steps, id);
            &&& after.subscribers.contains_key(id)
            &&& id < after.next
            &&& after.subscribers[id] == (SubscriberView {
                queue: if received <= queue.len() {
                    queue.skip(received as int)
                } else {
                    Seq::empty()
                },
                connected: false,
                ..hub.subscribers[id]
            })
        }),
    decreases steps.len(),
{
    let queue = hub.subscribers[id].queue;
    if steps.len() == 0 {
        assert(queue.skip(0) =~= queue);
    } else {
        let rest = steps.drop_last();
        assert forall|i: int| 0 <= i < rest.len() implies #[trigger] rest[i] != (HubStep::<
            E,
        >::Unsubscribe { id }) by {
            assert(steps[i] == rest[i]);
        }
        lemma_former_subscriber(hub, rest, id);
        assert(steps[steps.len() - 1] == steps.last());
        let received = receives(rest, id);
        if received < queue.len() {
            assert(queue.skip(received as int).drop_first() =~= queue.skip(received as int + 1));
        } else if received == queue.len() {
            assert(queue.skip(received as int) =~= Seq::<E>::empty());
        }
    }
}

proof fn lemma_publications_reach<E>(hub: HubView<E>, copies: Seq<Map<u64, E>>, id: u64)
    requires
        hub.subscribers.contains_key(id),
    ensures
        ({
            let after = hub.ran(publications(copies));
            &&& after.subscribers.contains_key(id)
            &&& after.subscribers[id] == hub.subscribers[id].offered_all(
                copies.map_values(|copies: Map<u64, E>| copies[id]),
            )
        }),
    decreases copies.len(),
{
    if copies.len() > 0 {
        let rest = copies.drop_last();
        lemma_publications_reach(hub, rest, id);
        assert(publications(copies).drop_last() =~= publications(rest));
        let mine = copies.map_values(|copies: Map<u64, E>| copies[id]);
        assert(mine.drop_last() =~= rest.map_values(|copies: Map<u64, E>| copies[id]));
    }
}

/// Every event that a queue's drop policy discards is counted, and no other is.
pub proof fn law_dropped_events_are_counted<E>(subscriber: SubscriberView<E>, events: Seq<E>)
    requires
        subscriber.bounded(),
        subscriber.connected,
        subscriber.config.overflow != SubscriberOverflow::Disconnect,
    ensures
        ({
            let all = subscriber.queue.len() + events.len();
            let after = subscriber.offered_all(events);
            &&& after.queue.len() == (if all <= subscriber.config.capacity {
                all
            } else {
                subscriber.config.capacity as nat
            })
            &&& after.dropped == capped_sum(
                subscriber.dropped,
                (all - after.queue.len()) as nat,
            )
            &&& after.connected
        }),
    decreases events.len(),
{
    if events.len() > 0 {
        law_dropped_events_are_counted(subscriber, events.drop_last());
        law_overflow_keeps_one_end(subscriber, events.drop_last());
    }
}

/// A queue that is to disconnect does so with the first event it has no room
/// for, and hands out nothing that it held. Until then it drops nothing.
pub proof fn law_full_queue_disconnects<E>(subscriber: SubscriberView<E>, event: E)
    requires
        subscriber.bounded(),
        subscriber.connected,
        subscriber.config.overflow == SubscriberOverflow::Disconnect,
    ensures
        ({
            let after = subscriber.offered(event);
            let full = subscriber.queue.len() == subscriber.config.capacity;
            &&& after.connected <==> !full
            &&& full ==> after.queue.len() == 0 && after.next() == Err::<Option<E>, _>(
                EventSubscriptionError::Disconnected,
            )
            &&& !full ==> after.queue == subscriber.queue.push(event)
            &&& after.dropped == subscriber.dropped
        }),
{
}

/// Receiving takes the oldest event that is queued, and nothing else. With none
/// queued it would wait, or fails where no more can come.
pub proof fn law_receive_takes_the_oldest<E>(subscriber: SubscriberView<E>, event: E, rest: Seq<E>)
    ensures
        subscriber.queue == seq![event] + rest ==> subscriber.next() == Ok::<
            Option<E>,
            EventSubscriptionError,
        >(Some(event)) && subscriber.advanced() == (SubscriberView { queue: rest, ..subscriber }),
        subscriber.queue.len() == 0 && subscriber.connected ==> subscriber.next() == Ok::<
            Option<E>,
            EventSubscriptionError,
        >(None) && subscriber.advanced() == subscriber,
        subscriber.queue.len() == 0 && !subscriber.connected ==> subscriber.next() == Err::<
            Option<E>,
            EventSubscriptionError,
        >(EventSubscriptionError::Disconnected) && subscriber.advanced() == subscriber,
{
    if subscriber.queue == seq![event] + rest {
        assert(subscriber.queue.drop_first() =~= rest);
    }
}

/// Each step touches what it is about and nothing else. A subscription adds one
/// queue, empty and connected, where it is to hold anything. A publication
/// offers every queue its copy. A receipt moves one queue on, and its handle's
/// end takes one away. A disconnection ends all and takes nothing from them.
pub proof fn law_steps_touch_what_they_are_about<E>(
    hub: HubView<E>,
    config: SubscriberConfig,
    copies: Map<u64, E>,
    id: u64,
    other: u64,
)
    requires
        hub.numbered(),
    ensures
        ({
            let after = hub.stepped(HubStep::<E>::Subscribe { config });
            let taken = config.capacity > 0 && hub.next < u64::MAX;
            &&& !taken ==> after == hub
            &&& taken ==> {
                &&& after.next == hub.next + 1
                &&& !hub.subscribers.contains_key(hub.next)
                &&& after.subscribers.contains_key(hub.next)
                &&& after.subscribers[hub.next].config == config
                &&& after.subscribers[hub.next].queue.len() == 0
                &&& after.subscribers[hub.next].connected
                &&& after.subscribers[hub.next].dropped == 0
                &&& other != hub.next ==> after.subscribers.contains_key(other)
                    == hub.subscribers.contains_key(other) && after.subscribers[other]
                    == hub.subscribers[other]
            }
        }),
        ({
            let after = hub.stepped(HubStep::Publish { copies });
            &&& after.next == hub.next
            &&& after.subscribers.contains_key(id) == hub.subscribers.contains_key(id)
            &&& hub.subscribers.contains_key(id) ==> after.subscribers[id]
                == hub.subscribers[id].offered(copies[id])
        }),
        ({
            let after = hub.stepped(HubStep::<E>::Receive { id });
            &&& after.next == hub.next
            &&& after.subscribers.contains_key(other) == hub.subscribers.contains_key(other)
            &&& other != id && hub.subscribers.contains_key(other) ==> after.subscribers[other]
                == hub.subscribers[other]
            &&& hub.subscribers.contains_key(id) && hub.subscribers[id].queue.len() > 0
                ==> after.subscribers[id] == (SubscriberView {
                queue: hub.subscribers[id].queue.drop_first(),
                ..hub.subscribers[id]
            })
            &&& hub.subscribers.contains_key(id) && hub.subscribers[id].queue.len() == 0
                ==> after.subscribers[id] == hub.subscribers[id]
        }),
        ({
            let after = hub.stepped(HubStep::<E>::Unsubscribe { id });
            &&& after.next == hub.next
            &&& !after.subscribers.contains_key(id)
            &&& other != id ==> after.subscribers.contains_key(other)
                == hub.subscribers.contains_key(other)
            &&& other != id && hub.subscribers.contains_key(other) ==> after.subscribers[other]
                == hub.subscribers[other]
        }),
        ({
            let after = hub.stepped(HubStep::<E>::DisconnectAll);
            &&& after.next == hub.next
            &&& after.subscribers.contains_key(id) == hub.subscribers.contains_key(id)
            &&& hub.subscribers.contains_key(id) ==> after.subscribers[id] == (SubscriberView {
                connected: false,
                ..hub.subscribers[id]
            })
        }),
{
    if hub.subscribers.contains_key(hub.next) {
        assert(hub.next < hub.next);
    }
}

} // verus!
