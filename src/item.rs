use vstd::prelude::*;

verus! {

/// The largest latency that an item can record.
pub const MAX_LATENCY: u64 = 0x7fff_ffff_ffff_ffff;

/// One unit of work: made by a producer, claimed by exactly one consumer.
#[derive(Clone, Copy, Debug, PartialEq, Eq, Structural)]
pub struct WorkItem {
    /// The producer that made the item.
    pub producer_id: u64,
    /// The consumer that claimed the item; the producer until it is claimed.
    pub consumer_id: u64,
    /// Position of the item in its producer's burst, counted from zero.
    pub sequence_number: i64,
    /// When the item was made, in nanoseconds on the run's clock.
    pub enqueue_nanos: u64,
    /// Time between making and claiming, in nanoseconds; zero until claimed.
    pub latency_nanos: i64,
}

/// Latency of an item made at `enqueue` and claimed at `now`: the elapsed
/// time, capped at `i64::MAX`, and zero if the clock reads earlier.
pub open spec fn latency_between(enqueue: u64, now: u64) -> int {
    if now < enqueue {
        0
    } else if now - enqueue > MAX_LATENCY {
        MAX_LATENCY as int
    } else {
        now - enqueue
    }
}

impl WorkItem {
    /// The identity of an item: its producer and its sequence number.
    pub open spec fn key(self) -> (u64, i64) {
        (self.producer_id, self.sequence_number)
    }

    /// `self` as claimed by `consumer_id` at time `now`.
    pub open spec fn claimed_spec(self, consumer_id: u64, now: u64) -> WorkItem {
        WorkItem {
            consumer_id,
            latency_nanos: latency_between(self.enqueue_nanos, now) as i64,
            ..self
        }
    }

    /// A fresh, unclaimed item.
    pub fn new(producer_id: u64, sequence_number: i64, enqueue_nanos: u64) -> (r: WorkItem)
        ensures
            r.producer_id == producer_id,
            r.consumer_id == producer_id,
            r.sequence_number == sequence_number,
            r.enqueue_nanos == enqueue_nanos,
            r.latency_nanos == 0,
    {
        WorkItem {
            producer_id,
            consumer_id: producer_id,
            sequence_number,
            enqueue_nanos,
            latency_nanos: 0,
        }
    }

    /// Stamps the item as claimed by `consumer_id` at time `now_nanos`.
    pub fn claim(self, consumer_id: u64, now_nanos: u64) -> (r: WorkItem)
        ensures
            r == self.claimed_spec(consumer_id, now_nanos),
            r.key() == self.key(),
            r.consumer_id == consumer_id,
            r.latency_nanos >= 0,
    {
        let latency: u64 = if now_nanos < self.enqueue_nanos {
            0
        } else if now_nanos - self.enqueue_nanos > MAX_LATENCY {
            MAX_LATENCY
        } else {
            now_nanos - self.enqueue_nanos
        };
        WorkItem { consumer_id, latency_nanos: latency as i64, ..self }
    }
}

/// A claimed item's latency is the time between making and claiming it,
/// whenever the clock did not go back and the gap fits in an `i64`; and it
/// is never negative.
pub proof fn lemma_latency_is_gap(t: WorkItem, consumer_id: u64, now: u64)
    ensures
        t.claimed_spec(consumer_id, now).latency_nanos >= 0,
        t.enqueue_nanos <= now && now - t.enqueue_nanos <= MAX_LATENCY ==> t.claimed_spec(
            consumer_id,
            now,
        ).latency_nanos == now - t.enqueue_nanos,
{
}

} // verus!
