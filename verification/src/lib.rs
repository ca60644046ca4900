//! Verified core of a blocking client over a streaming, typed function
//! transport.
//!
//! The crate models the pieces of such a client that are pure logic and
//! proves them correct: a closed, totally ordered value model with
//! canonical sets, maps and objects; lossless, deterministic marshalling
//! between that model and a dynamic host value space; the three-way
//! outcome of a remote function call; the slot discipline of live
//! subscription cursors; and the interrupt race run by the blocking
//! execution bridge.
//!
//! The asynchronous transport itself, and the runtime that drives it, live
//! outside this crate; they exchange plain values with the functions here.

pub mod bridge;
pub mod canon;
pub mod host;
pub mod marshal;
pub mod numeric;
pub mod order;
pub mod outcome;
pub mod subscription;
pub mod textfmt;
pub mod value;
