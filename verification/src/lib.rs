//! Peer-to-peer blockchain synchronization protocol: wire message codec and
//! peer-session orchestration logic.
//!
//! The codec turns untrusted recursive length-prefixed records into typed
//! protocol messages and back; the session module decides, per scheduling
//! turn, which peer-management actions a node must take.

pub use crate::message::{DecodeError, ETHMessage};

pub mod codec;
pub mod item;
pub mod laws;
pub mod message;
pub mod numbers;
pub mod session;
pub mod wire;
