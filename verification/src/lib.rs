//! A bounded broadcast ring buffer: producers append into a fixed,
//! power-of-two sized circular array and every reader scans the same slots
//! from its own cursor. A read does not consume; a reader that falls more
//! than one capacity behind is silently handed newer values.
//!
//! The containers of [`ringbuffer`] are plain values: a handle does not
//! borrow its container, every operation takes the container it acts on.
//! Their contracts are stated over the ghost state of [`protocol`] and
//! [`finish`]. [`run`] describes the protocol step by step, with the puts of
//! several writers overlapping, and [`steps`] holds the decisions that the
//! protocol takes on the values of its counters, for whoever keeps those
//! counters elsewhere.

pub mod index;
pub mod tally;
pub mod protocol;
pub mod run;
pub mod finish;
pub mod steps;
pub mod valuebox;
pub mod ringbuffer;
pub mod laws;

pub use ringbuffer::{MPRingBuffer, RBContainer, RBReader, RBWriter, RBWriterClonable, SPRingBuffer};
