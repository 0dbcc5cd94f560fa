use crate::item::WorkItem;
use crossbeam::deque::{Injector, Steal};
use vstd::prelude::*;

verus! {

/// crossbeam's `Injector`, the lock-free unbounded queue, held opaque.
#[verifier::external_type_specification]
#[verifier::external_body]
#[verifier::reject_recursive_types(T)]
pub struct ExInjector<T>(Injector<T>);

/// crossbeam's `Steal`, the outcome of one steal: its variants as declared.
#[verifier::external_type_specification]
#[verifier::reject_recursive_types(T)]
pub struct ExSteal<T>(Steal<T>);

/// Relies on crossbeam's `Injector::new`: an empty unbounded queue.
pub assume_specification<T>[ Injector::<T>::new ]() -> Injector<T>;

/// Relies on crossbeam's `Injector::push`: appends the task; it never fails.
pub assume_specification<T>[ Injector::<T>::push ](q: &Injector<T>, task: T);

/// Relies on crossbeam's `Injector::steal`: takes one task, reports the queue
/// empty, or asks for a retry when it lost a race; which of them comes depends
/// on the other threads.
pub assume_specification<T>[ Injector::<T>::steal ](q: &Injector<T>) -> Steal<T>;

/// What one attempt to take an item gave.
#[derive(Clone, Copy, Debug, PartialEq, Eq, Structural)]
pub enum PopOutcome {
    /// An item, now owned by the caller alone.
    Claimed(WorkItem),
    /// No item was available.
    Empty,
    /// The attempt lost a race with another thread; trying again is allowed.
    Contended,
}

/// The outcome that a steal result stands for.
pub open spec fn outcome_of(s: Steal<WorkItem>) -> PopOutcome {
    match s {
        Steal::Success(t) => PopOutcome::Claimed(t),
        Steal::Empty => PopOutcome::Empty,
        Steal::Retry => PopOutcome::Contended,
    }
}

impl PopOutcome {
    /// The outcome that crossbeam's steal result `s` stands for: a stolen
    /// task is claimed, an empty queue is empty, a lost race is contention.
    pub fn from_steal(s: Steal<WorkItem>) -> (r: PopOutcome)
        ensures
            r == outcome_of(s),
    {
        match s {
            Steal::Success(t) => PopOutcome::Claimed(t),
            Steal::Empty => PopOutcome::Empty,
            Steal::Retry => PopOutcome::Contended,
        }
    }

    /// The item, if one was taken.
    pub fn item(self) -> (r: Option<WorkItem>)
        ensures
            r == (match self {
                PopOutcome::Claimed(t) => Some(t),
                _ => None,
            }),
    {
        match self {
            PopOutcome::Claimed(t) => Some(t),
            _ => None,
        }
    }
}

/// The shared unbounded queue that all producers push into and all
/// consumers take from, without a lock held by the caller.
pub struct ConcurrentQueue {
    inner: Injector<WorkItem>,
}

impl ConcurrentQueue {
    /// An empty queue.
    pub fn new() -> (r: ConcurrentQueue) {
        ConcurrentQueue { inner: Injector::new() }
    }

    /// Inserts an item; never blocks and never fails.
    pub fn push(&self, item: WorkItem) {
        self.inner.push(item)
    }

    /// Tries once to take an item, without blocking.
    /// Which outcome comes depends on the other threads.
    pub fn try_pop(&self) -> (r: PopOutcome) {
        PopOutcome::from_steal(self.inner.steal())
    }
}

} // verus!
