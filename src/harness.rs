use crate::clock::Clock;
use crate::item::WorkItem;
use crate::queue::{ConcurrentQueue, PopOutcome};
use std::sync::atomic::{AtomicU64, Ordering};
use vstd::prelude::*;

verus! {

/// The shape of one run.
#[derive(Clone, Copy, Debug, PartialEq, Eq, Structural)]
pub struct Config {
    pub producer_count: u32,
    pub consumer_count: u32,
    pub items_per_producer: u64,
}

impl Config {
    /// How many items the run makes, if the count fits in a `u64`.
    pub fn total_items(&self) -> (r: Option<u64>)
        ensures
            self.producer_count * self.items_per_producer <= u64::MAX ==> r == Some(
                (self.producer_count * self.items_per_producer) as u64,
            ),
            self.producer_count * self.items_per_producer > u64::MAX ==> r.is_none(),
    {
        (self.producer_count as u64).checked_mul(self.items_per_producer)
    }

    /// How many units meet at the start barrier: every producer and consumer.
    pub fn party_count(&self) -> (r: u64)
        ensures
            r == self.producer_count + self.consumer_count,
    {
        self.producer_count as u64 + self.consumer_count as u64
    }
}

/// Nanoseconds from `start` to `end`, zero if the clock reads earlier.
pub fn elapsed_between(start: u64, end: u64) -> (r: u64)
    ensures
        r == (if end < start { 0 } else { end - start }),
{
    end.saturating_sub(start)
}

/// The item that a producer makes at position `seq` of its burst, at time
/// `now`: unclaimed, so its consumer is the producer and its latency zero.
pub open spec fn burst_item(producer_id: u64, seq: int, now: u64) -> WorkItem {
    WorkItem {
        producer_id,
        consumer_id: producer_id,
        sequence_number: seq as i64,
        enqueue_nanos: now,
        latency_nanos: 0,
    }
}

/// `t` is the item at position `seq` of `producer_id`'s burst, made at some
/// time: unclaimed, so its consumer is the producer and its latency zero.
pub open spec fn is_burst_item(t: WorkItem, producer_id: u64, seq: int) -> bool {
    &&& t.producer_id == producer_id
    &&& t.consumer_id == producer_id
    &&& t.sequence_number == seq
    &&& t.latency_nanos == 0
}

/// One producer's burst: which item comes next, and how many it makes.
pub struct ProducerBurst {
    pub producer_id: u64,
    pub next: u64,
    pub len: u64,
}

impl ProducerBurst {
    pub open spec fn wf(&self) -> bool {
        self.next <= self.len <= i64::MAX
    }

    /// A burst of `len` items made by `producer_id`, none made yet.
    pub fn new(producer_id: u64, len: u64) -> (r: ProducerBurst)
        requires
            len <= i64::MAX,
        ensures
            r.producer_id == producer_id,
            r.next == 0,
            r.len == len,
            r.wf(),
    {
        ProducerBurst { producer_id, next: 0, len }
    }

    /// The burst's next item, stamped `now_nanos`, with sequence number
    /// `next`; `None`, with nothing changed, once all `len` were made.
    pub fn next_item(&mut self, now_nanos: u64) -> (r: Option<WorkItem>)
        requires
            old(self).wf(),
        ensures
            final(self).producer_id == old(self).producer_id,
            final(self).len == old(self).len,
            final(self).wf(),
            old(self).next < old(self).len ==> r == Some(
                burst_item(old(self).producer_id, old(self).next as int, now_nanos),
            ) && final(self).next == old(self).next + 1,
            old(self).next >= old(self).len ==> r.is_none() && *final(self) == *old(self),
    {
        if self.next < self.len {
            let item = WorkItem::new(self.producer_id, self.next as i64, now_nanos);
            self.next = self.next + 1;
            Some(item)
        } else {
            None
        }
    }
}

/// One producer's burst: pushes `items_per_producer` items made by
/// `producer_id`, with sequence numbers `0, 1, ...` in that order, each
/// stamped with the clock when it is made. Returns the burst's duration in
/// nanoseconds, and, as a ghost record, the items handed to the queue in the
/// order they were pushed.
pub fn run_producer(
    queue: &ConcurrentQueue,
    clock: &Clock,
    producer_id: u64,
    items_per_producer: u64,
) -> (r: (u64, Ghost<Seq<WorkItem>>))
    requires
        items_per_producer <= i64::MAX,
    ensures
        r.1@.len() == items_per_producer,
        forall|i: int|
            0 <= i < r.1@.len() ==> is_burst_item(#[trigger] r.1@[i], producer_id, i),
        forall|i: int, j: int|
            0 <= i < j < r.1@.len() ==> #[trigger] r.1@[i].sequence_number
                < #[trigger] r.1@[j].sequence_number,
{
    let start = clock.now_nanos();
    let mut burst = ProducerBurst::new(producer_id, items_per_producer);
    let ghost mut pushed: Seq<WorkItem> = Seq::empty();
    loop
        invariant
            burst.wf(),
            burst.producer_id == producer_id,
            burst.len == items_per_producer,
            pushed.len() == burst.next,
            forall|i: int|
                0 <= i < pushed.len() ==> is_burst_item(#[trigger] pushed[i], producer_id, i),
        ensures
            pushed.len() == items_per_producer,
            forall|i: int|
                0 <= i < pushed.len() ==> is_burst_item(#[trigger] pushed[i], producer_id, i),
        decreases burst.len - burst.next,
    {
        let now = clock.now_nanos();
        match burst.next_item(now) {
            Some(item) => {
                proof {
                    pushed = pushed.push(item);
                }
                queue.push(item);
            },
            None => {
                break ;
            },
        }
    }
    assert forall|i: int, j: int|
        0 <= i < j < pushed.len() implies #[trigger] pushed[i].sequence_number
            < #[trigger] pushed[j].sequence_number by {
        assert(is_burst_item(pushed[i], producer_id, i));
        assert(is_burst_item(pushed[j], producer_id, j));
    }
    (elapsed_between(start, clock.now_nanos()), Ghost(pushed))
}

/// A consumer's own state: who it is, how many items the run makes, and the
/// items it has claimed so far.
pub struct Consumer {
    pub id: u64,
    pub total: u64,
    pub claimed: Vec<WorkItem>,
}

impl Consumer {
    /// Every claimed item carries this consumer's identity and a latency that
    /// is not negative.
    pub open spec fn wf(&self) -> bool {
        forall|i: int|
            0 <= i < self.claimed@.len() ==> {
                &&& #[trigger] self.claimed@[i].consumer_id == self.id
                &&& self.claimed@[i].latency_nanos >= 0
            }
    }

    /// A consumer that has claimed nothing yet.
    pub fn new(id: u64, total: u64) -> (r: Consumer)
        ensures
            r.id == id,
            r.total == total,
            r.claimed@ == Seq::<WorkItem>::empty(),
            r.wf(),
    {
        Consumer { id, total, claimed: Vec::new() }
    }

    /// Whether to keep polling, given how many items the whole run has
    /// claimed: the run is over exactly when that count reaches the total.
    pub fn should_continue(&self, completed: u64) -> (r: bool)
        ensures
            r == (completed != self.total),
    {
        completed != self.total
    }

    /// Records `item` as claimed by this consumer at time `now_nanos`.
    pub fn accept(&mut self, item: WorkItem, now_nanos: u64)
        requires
            old(self).wf(),
        ensures
            final(self).id == old(self).id,
            final(self).total == old(self).total,
            final(self).claimed@ == old(self).claimed@.push(
                item.claimed_spec(old(self).id, now_nanos),
            ),
            final(self).wf(),
    {
        let stamped = item.claim(self.id, now_nanos);
        self.claimed.push(stamped);
    }

    /// What taking `outcome` at time `now_nanos` leaves in the list of
    /// claimed items `claimed`.
    pub open spec fn after_take(&self, outcome: PopOutcome, now_nanos: u64) -> Seq<WorkItem> {
        match outcome {
            PopOutcome::Claimed(t) => self.claimed@.push(t.claimed_spec(self.id, now_nanos)),
            _ => self.claimed@,
        }
    }

    /// Acts on what one attempt to take an item gave: a claimed item is
    /// stamped at `now_nanos` and kept; an empty or contended queue leaves
    /// everything as it was.
    pub fn take(&mut self, outcome: PopOutcome, now_nanos: u64)
        requires
            old(self).wf(),
        ensures
            final(self).id == old(self).id,
            final(self).total == old(self).total,
            final(self).wf(),
            final(self).claimed@ == old(self).after_take(outcome, now_nanos),
    {
        match outcome {
            PopOutcome::Claimed(t) => self.accept(t, now_nanos),
            _ => {},
        }
    }

    /// One round of the consumer's poll loop, given the value `completed`
    /// just read from the shared completion counter: when it equals the
    /// total, stops (returning `false`) without touching the queue; else tries
    /// once to take an item, counts a claimed one on `counter`, and hands the
    /// outcome to `take`. Returns `true` while the loop should go on. Which
    /// outcome comes depends on the other threads.
    pub fn poll_once(
        &mut self,
        completed: u64,
        queue: &ConcurrentQueue,
        counter: &AtomicU64,
        clock: &Clock,
    ) -> (r: bool)
        requires
            old(self).wf(),
        ensures
            r == (completed != old(self).total),
            final(self).id == old(self).id,
            final(self).total == old(self).total,
            final(self).wf(),
            !r ==> final(self).claimed@ == old(self).claimed@,
            r ==> exists|outcome: PopOutcome, now: u64|
                final(self).claimed@ == #[trigger] old(self).after_take(outcome, now),
    {
        if !self.should_continue(completed) {
            return false;
        }
        let outcome = queue.try_pop();
        let now: u64 = match outcome {
            PopOutcome::Claimed(_) => {
                counter.fetch_add(1, Ordering::AcqRel);
                clock.now_nanos()
            },
            _ => 0,
        };
        self.take(outcome, now);
        true
    }
}

} // verus!
