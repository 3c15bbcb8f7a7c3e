//! Bounded channel: one ring buffer shared by a sender and a receiver.
//!
//! A channel of capacity `n` holds up to `n` values: its ring buffer has
//! `n + 1` slots, one of which always stays free. The ring lives behind a
//! lock whose invariant keeps it well formed at that size; each handle
//! forwards to it.
//!
//! Each call takes that lock, which spins until it is free. The queue is
//! not lock-free here: its two ends share one verified lock rather than a
//! pair of atomic indices, because proving such an index protocol needs
//! ghost permissions that this crate does not use.
use std::sync::Arc;
use vstd::prelude::*;
use vstd::rwlock::{RwLock, RwLockPredicate};

use crate::inner_spsc::BoundedSpsc;

verus! {

/// Relies on `Arc::clone`: the clone is another handle to the same allocation.
#[verifier::external_body]
pub(crate) fn share<T>(a: &Arc<T>) -> (r: Arc<T>)
    ensures
        *r == **a,
{
    Arc::clone(a)
}

/// What the lock keeps true of the shared bounded queue.
pub struct BoundedQueueInv {
    pub capacity: usize,
}

impl<T> RwLockPredicate<BoundedSpsc<T>> for BoundedQueueInv {
    open spec fn inv(self, q: BoundedSpsc<T>) -> bool {
        q.wf() && q.cap() == self.capacity + 1
    }
}

type SharedQueue<T> = Arc<RwLock<BoundedSpsc<T>, BoundedQueueInv>>;

/// Entry point that splits a bounded channel into its two halves.
pub struct BoundedSpscChannel;

impl BoundedSpscChannel {
    /// Creates a bounded channel that holds at most `capacity` values, and
    /// returns its sender and receiver.
    pub fn split<T>(capacity: usize) -> (r: (Sender<T>, Receiver<T>))
        requires
            0 < capacity < usize::MAX,
        ensures
            r.0.capacity_spec() == capacity,
            r.1.capacity_spec() == capacity,
            r.0.queue_id() == r.1.queue_id(),
    {
        let inner = BoundedSpsc::new(capacity + 1);
        let lock = RwLock::new(inner, Ghost(BoundedQueueInv { capacity }));
        let sender = Sender { inner: Arc::new(lock) };
        let receiver = Receiver { inner: share(&sender.inner) };
        (sender, receiver)
    }
}

/// The sending half of a bounded channel.
pub struct Sender<T> {
    inner: SharedQueue<T>,
}

/// The receiving half of a bounded channel.
pub struct Receiver<T> {
    inner: SharedQueue<T>,
}

impl<T> Sender<T> {
    /// The number of values the channel can hold.
    pub closed spec fn capacity_spec(&self) -> nat {
        self.inner.pred().capacity as nat
    }

    /// Identifies the shared queue.
    pub closed spec fn queue_id(&self) -> RwLock<BoundedSpsc<T>, BoundedQueueInv> {
        *self.inner
    }

    /// Pushes `value` into the channel, or hands it back unchanged when the
    /// channel is full.
    pub fn send(&self, value: T) -> (r: Result<(), T>)
        ensures
            r matches Err(v) ==> v == value,
    {
        let (mut q, handle) = self.inner.acquire_write();
        let r = q.push(value);
        handle.release_write(q);
        r
    }

    /// Whether the channel held `capacity` values when observed.
    pub fn is_full(&self) -> (r: bool) {
        let (q, handle) = self.inner.acquire_write();
        let r = q.is_full();
        handle.release_write(q);
        r
    }

    /// The number of values the channel can hold.
    pub fn capacity(&self) -> (r: usize)
        ensures
            r == self.capacity_spec(),
    {
        let (q, handle) = self.inner.acquire_write();
        let r = q.capacity() - 1;
        handle.release_write(q);
        r
    }

    /// Whether the channel held no value when observed.
    pub fn is_empty(&self) -> (r: bool) {
        let (q, handle) = self.inner.acquire_write();
        let r = q.is_empty();
        handle.release_write(q);
        r
    }
}

impl<T> Receiver<T> {
    /// The number of values the channel can hold.
    pub closed spec fn capacity_spec(&self) -> nat {
        self.inner.pred().capacity as nat
    }

    /// Identifies the shared queue.
    pub closed spec fn queue_id(&self) -> RwLock<BoundedSpsc<T>, BoundedQueueInv> {
        *self.inner
    }

    /// Takes the oldest value out of the channel, or returns `None` when it
    /// is empty.
    pub fn recv(&self) -> (r: Option<T>) {
        let (mut q, handle) = self.inner.acquire_write();
        let r = q.pop();
        handle.release_write(q);
        r
    }

    /// Whether the channel held `capacity` values when observed.
    pub fn is_full(&self) -> (r: bool) {
        let (q, handle) = self.inner.acquire_write();
        let r = q.is_full();
        handle.release_write(q);
        r
    }

    /// The number of values the channel can hold.
    pub fn capacity(&self) -> (r: usize)
        ensures
            r == self.capacity_spec(),
    {
        let (q, handle) = self.inner.acquire_write();
        let r = q.capacity() - 1;
        handle.release_write(q);
        r
    }

    /// Whether the channel held no value when observed.
    pub fn is_empty(&self) -> (r: bool) {
        let (q, handle) = self.inner.acquire_write();
        let r = q.is_empty();
        handle.release_write(q);
        r
    }
}

} // verus!
