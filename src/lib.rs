//! Acquisition core of a sampling oscilloscope: the wire codec for the
//! 6-byte sample frames, a streaming decoder with single-byte resync, an
//! append-only chunked store with constant-time lookup, and the latency
//! tracker that times a falling edge against a threshold crossing.
pub mod frame;
pub mod decoder;
pub mod block;
pub mod store;
pub mod tracker;
pub mod timer;
