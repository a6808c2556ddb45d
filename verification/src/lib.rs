//! Circular buffers, each proved to behave as a bounded first-in first-out
//! queue.
//!
//! - `buffer::RingBuffer`: standard circular buffer.
//! - `spsc::Shared`: the ring of a single-producer single-consumer pair.
//! - `power2::Power2Buffer`: ring of power-of-two capacity, indexed by mask.
//! - `iter::RingIter`: walks a `RingBuffer` from oldest to newest.
//! - `window::SlidingWindow`: the most recent values of a stream.
pub mod model;
pub mod buffer;
pub mod iter;
pub mod power2;
pub mod spsc;
pub mod window;

pub use buffer::RingBuffer;
