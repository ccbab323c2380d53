//! Runtime core of a wearable-device kernel: a loader that accepts a streamed
//! native-code application image, verifies its integrity, and manages its
//! execution lifecycle; and a framing engine that parses an interleaved byte
//! stream into typed messages held in a bounded round-robin pool.

pub mod application_manager;
pub mod msgmgr;
