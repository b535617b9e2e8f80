//! The event bus: per-topic broadcast with bounded buffering.
//!
//! Three independent topics fan mutation events out to any number of
//! subscribers.  Each topic keeps the last `TOPIC_CAPACITY` published
//! updates in a ring; a subscriber holds a cursor into the topic's
//! (ghost) publish history and receives every update published after it
//! subscribed, in publish order, as long as it keeps pace.  A
//! subscriber that falls further behind than the buffer observes a gap:
//! the topic drops its oldest buffered update rather than block the
//! publisher.  That loss is a deliberate backpressure choice, not an
//! oversight.
//!
//! Filtering is subscriber-side: every subscriber of a topic sees the
//! whole stream and a `Subscription` projects out the updates of one
//! retro, discarding the rest.

use vstd::prelude::*;

use crate::events::{SubscriptionUpdate, SubscriptionUpdateV};
use crate::model::Id;

verus! {

/// How many updates a topic buffers for its slowest subscriber.
pub const TOPIC_CAPACITY: usize = 100;

/// One broadcast topic.  The full publish history exists only as a
/// ghost; the buffer holds its retained tail.
pub struct Topic {
    buffer: Vec<SubscriptionUpdate>,
    first: u64,
    history: Ghost<Seq<SubscriptionUpdateV>>,
}

/// What one poll of a subscriber yields.
pub enum Poll {
    /// The next update, in publish order.
    Event(SubscriptionUpdate),
    /// The subscriber fell behind the buffer and missed updates; its
    /// cursor jumped forward to the oldest retained update.
    Lagged,
    /// Nothing published beyond the cursor yet.
    Empty,
}

impl Topic {
    /// Everything ever published on this topic, in order.
    pub closed spec fn history(self) -> Seq<SubscriptionUpdateV> {
        self.history@
    }

    /// The position of the oldest update still buffered; everything
    /// before it has been dropped.
    pub closed spec fn oldest(self) -> int {
        self.first as int
    }

    /// Invariant: the buffer is the retained tail of the history.
    pub closed spec fn wf(self) -> bool {
        &&& self.first as int + self.buffer@.len() == self.history@.len()
        &&& self.buffer@.len() <= TOPIC_CAPACITY
        &&& self.history@.len() <= u64::MAX
        &&& forall|k: int|
            0 <= k < self.buffer@.len() ==> #[trigger] self.buffer@[k]@ == self.history@[
                self.first as int + k]
    }

    /// A fresh topic with nothing published.
    pub fn new() -> (res: Topic)
        ensures
            res.wf(),
            res.history() == Seq::<SubscriptionUpdateV>::empty(),
            res.oldest() == 0,
    {
        let res = Topic { buffer: Vec::new(), first: 0, history: Ghost(Seq::empty()) };
        proof {
            assert(res.history@ =~= Seq::<SubscriptionUpdateV>::empty());
        }
        res
    }

    /// Publish one update: it is appended to the history, and when the
    /// buffer is full the oldest retained update is dropped so that the
    /// publisher never blocks.
    pub fn publish(&mut self, update: SubscriptionUpdate)
        requires
            old(self).wf(),
            old(self).history().len() < u64::MAX,
        ensures
            final(self).wf(),
            final(self).history() == old(self).history().push(update@),
            final(self).oldest() == if old(self).history().len() - old(self).oldest()
                == TOPIC_CAPACITY {
                old(self).oldest() + 1
            } else {
                old(self).oldest()
            },
            final(self).oldest() <= final(self).history().len(),
    {
        if self.buffer.len() == TOPIC_CAPACITY {
            self.buffer.remove(0);
            proof {
                old(self).buffer@.remove_ensures(0);
            }
            self.first = self.first + 1;
        }
        let ghost h = self.history@;
        self.buffer.push(update);
        proof {
            self.history@ = h.push(update@);
        }
    }

    /// A topic retains at most `TOPIC_CAPACITY` updates: a subscriber
    /// whose cursor stays within that window of the newest update never
    /// observes a gap.
    pub proof fn lemma_retention(self)
        requires
            self.wf(),
        ensures
            0 <= self.oldest() <= self.history().len(),
            self.history().len() - self.oldest() <= TOPIC_CAPACITY,
    {
    }

    /// Register a subscriber; it will see exactly the updates published
    /// from this moment on.
    pub fn subscribe(&self) -> (res: Subscriber)
        requires
            self.wf(),
        ensures
            res.cursor() == self.history().len(),
    {
        let cursor = self.first + self.buffer.len() as u64;
        Subscriber { cursor }
    }
}

/// A subscriber's position in a topic's history.
pub struct Subscriber {
    cursor: u64,
}

impl Subscriber {
    /// The position of the next update this subscriber will see.
    pub closed spec fn cursor(self) -> int {
        self.cursor as int
    }

    /// Receive the next update of the topic, report a gap after
    /// falling behind the buffer, or report that nothing is pending.
    pub fn poll(&mut self, topic: &Topic) -> (res: Poll)
        requires
            topic.wf(),
            old(self).cursor() <= topic.history().len(),
        ensures
            final(self).cursor() <= topic.history().len(),
            match res {
                Poll::Event(u) => {
                    &&& topic.oldest() <= old(self).cursor() < topic.history().len()
                    &&& u@ == topic.history()[old(self).cursor()]
                    &&& final(self).cursor() == old(self).cursor() + 1
                },
                Poll::Lagged => {
                    &&& old(self).cursor() < topic.oldest()
                    &&& final(self).cursor() == topic.oldest()
                },
                Poll::Empty => {
                    &&& *final(self) == *old(self)
                    &&& old(self).cursor() == topic.history().len()
                },
            },
    {
        if self.cursor < topic.first {
            self.cursor = topic.first;
            return Poll::Lagged;
        }
        let idx = self.cursor - topic.first;
        if idx == topic.buffer.len() as u64 {
            return Poll::Empty;
        }
        let u = topic.buffer[idx as usize].clone();
        self.cursor = self.cursor + 1;
        Poll::Event(u)
    }
}

/// A subscriber that projects one retro's updates out of a topic.
pub struct Subscription {
    subscriber: Subscriber,
    retro_id: Id,
}

impl Subscription {
    /// The position of the next update this subscription will examine.
    pub closed spec fn cursor(self) -> int {
        self.subscriber.cursor()
    }

    /// The retro whose updates this subscription delivers.
    pub closed spec fn retro_id(self) -> Id {
        self.retro_id
    }

    /// Drain the topic up to the next update of this subscription's
    /// retro.  An update of another retro is never delivered; updates
    /// dropped by the topic before the cursor caught up are silently
    /// skipped.
    pub fn poll(&mut self, topic: &Topic) -> (res: Option<SubscriptionUpdate>)
        requires
            topic.wf(),
            old(self).cursor() <= topic.history().len(),
        ensures
            final(self).retro_id() == old(self).retro_id(),
            final(self).cursor() <= topic.history().len(),
            res matches Some(u) ==> {
                &&& u@.retro_id() == old(self).retro_id()
                &&& exists|k: int|
                    {
                        &&& old(self).cursor() <= k < topic.history().len()
                        &&& u@ == topic.history()[k]
                        &&& final(self).cursor() == k + 1
                    }
            },
            res is None ==> final(self).cursor() == topic.history().len(),
            forall|k: int|
                old(self).cursor() <= k < final(self).cursor() - 1 && k >= topic.oldest()
                    ==> (#[trigger] topic.history()[k]).retro_id() != old(self).retro_id(),
            res is None ==> forall|k: int|
                old(self).cursor() <= k < final(self).cursor() && k >= topic.oldest()
                    ==> (#[trigger] topic.history()[k]).retro_id() != old(self).retro_id(),
    {
        loop
            invariant
                topic.wf(),
                self.cursor() <= topic.history().len(),
                self.retro_id == old(self).retro_id(),
                old(self).cursor() <= self.cursor(),
                forall|k: int|
                    old(self).cursor() <= k < self.cursor() && k >= topic.oldest()
                        ==> (#[trigger] topic.history()[k]).retro_id() != old(self).retro_id(),
            decreases topic.history().len() - self.cursor(),
        {
            let polled = self.subscriber.poll(topic);
            match polled {
                Poll::Empty => {
                    return None;
                },
                Poll::Lagged => {},
                Poll::Event(u) => {
                    if u.retro_id() == self.retro_id {
                        return Some(u);
                    }
                },
            }
        }
    }
}

/// The three topics of the service: card additions (also carrying card
/// edits and vote changes), participant-list changes, and step changes.
pub struct EventBus {
    pub card_additions: Topic,
    pub user_updates: Topic,
    pub step_updates: Topic,
}

impl EventBus {
    /// Invariant: all three topics are internally consistent.
    pub open spec fn wf(self) -> bool {
        &&& self.card_additions.wf()
        &&& self.user_updates.wf()
        &&& self.step_updates.wf()
    }

    /// A fresh bus with empty topics.
    pub fn new() -> (res: EventBus)
        ensures
            res.wf(),
            res.card_additions.history() == Seq::<SubscriptionUpdateV>::empty(),
            res.user_updates.history() == Seq::<SubscriptionUpdateV>::empty(),
            res.step_updates.history() == Seq::<SubscriptionUpdateV>::empty(),
    {
        EventBus { card_additions: Topic::new(), user_updates: Topic::new(), step_updates: Topic::new() }
    }

    /// Subscribe to the card updates of one retro.
    pub fn card_added(&self, retro_id: Id) -> (res: Subscription)
        requires
            self.wf(),
        ensures
            res.retro_id() == retro_id,
            res.cursor() == self.card_additions.history().len(),
    {
        Subscription { subscriber: self.card_additions.subscribe(), retro_id }
    }

    /// Subscribe to the participant-list updates of one retro.
    pub fn user_list_updated(&self, retro_id: Id) -> (res: Subscription)
        requires
            self.wf(),
        ensures
            res.retro_id() == retro_id,
            res.cursor() == self.user_updates.history().len(),
    {
        Subscription { subscriber: self.user_updates.subscribe(), retro_id }
    }

    /// Subscribe to the step updates of one retro.
    pub fn step_update(&self, retro_id: Id) -> (res: Subscription)
        requires
            self.wf(),
        ensures
            res.retro_id() == retro_id,
            res.cursor() == self.step_updates.history().len(),
    {
        Subscription { subscriber: self.step_updates.subscribe(), retro_id }
    }
}

} // verus!
