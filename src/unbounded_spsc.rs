//! Unbounded channel: one segment chain shared by a single sender and a
//! single receiver.
//!
//! Neither handle can be cloned or copied, so each end has exactly one
//! instance for the life of the channel.
//!
//! The chain lives behind a lock whose invariant keeps it well formed.
//! Each call takes that lock, which spins until it is free. The queue is
//! not lock-free here: its two ends share one verified lock rather than a
//! pair of atomic indices, because proving such an index protocol needs
//! ghost permissions that this crate does not use.
use std::sync::Arc;
use vstd::prelude::*;
use vstd::rwlock::{RwLock, RwLockPredicate};

use crate::bounded_spsc::share;
use crate::raw_spsc::RawSpsc;

verus! {

/// What the lock keeps true of the shared segment chain.
pub struct ChainInv;

impl<T> RwLockPredicate<RawSpsc<T>> for ChainInv {
    open spec fn inv(self, q: RawSpsc<T>) -> bool {
        q.wf()
    }
}

type SharedChain<T> = Arc<RwLock<RawSpsc<T>, ChainInv>>;

/// Entry point that splits an unbounded channel into its two halves.
pub struct UnboundSpscChannel;

/// The sending half of an unbounded channel; the only one there is.
pub struct Sender<T> {
    inner: SharedChain<T>,
}

/// The receiving half of an unbounded channel; the only one there is.
pub struct Receiver<T> {
    inner: SharedChain<T>,
}

impl<T> Sender<T> {
    /// Identifies the shared queue.
    pub closed spec fn queue_id(&self) -> RwLock<RawSpsc<T>, ChainInv> {
        *self.inner
    }

    /// Appends `value` to the channel. Never fails.
    pub fn send(&self, value: T) {
        let (mut q, handle) = self.inner.acquire_write();
        q.push(value);
        handle.release_write(q);
    }
}

impl<T> Receiver<T> {
    /// Identifies the shared queue.
    pub closed spec fn queue_id(&self) -> RwLock<RawSpsc<T>, ChainInv> {
        *self.inner
    }

    /// Takes the oldest value out of the channel, or returns `None` when it
    /// is empty.
    pub fn recv(&self) -> (r: Option<T>) {
        let (mut q, handle) = self.inner.acquire_write();
        let r = q.pop();
        handle.release_write(q);
        r
    }
}

impl UnboundSpscChannel {
    /// Creates an unbounded channel and returns its only sender and its only
    /// receiver.
    pub fn split<T>() -> (r: (Sender<T>, Receiver<T>))
        ensures
            r.0.queue_id() == r.1.queue_id(),
    {
        let lock = RwLock::new(RawSpsc::new(), Ghost(ChainInv));
        let inner = Arc::new(lock);
        let sender = Sender { inner: share(&inner) };
        let receiver = Receiver { inner };
        (sender, receiver)
    }
}

} // verus!
