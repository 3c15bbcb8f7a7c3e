//! Single-producer single-consumer queues: a bounded ring buffer and an
//! unbounded chain of fixed-size ring segments, each with a channel facade
//! that splits the shared queue into a sender and a receiver.
pub mod fifo;
pub mod inner_spsc;
pub mod raw_spsc;
pub mod bounded_spsc;
pub mod unbounded_spsc;
