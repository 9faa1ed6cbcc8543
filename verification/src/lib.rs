//! A verified session manager for a streaming transport.
//!
//! Clients open a long-lived event stream, receive an `endpoint` frame
//! naming where to post requests, and get responses multiplexed back over
//! the stream. The registry tracks every live session with its bounded
//! FIFO delivery queue; the inbound handler bridges posted requests to
//! the addressed session; the reaper model evicts idle sessions. The
//! shell around sockets, timers and persistence supplies clock readings
//! and the router's answers as plain values, so everything that decides
//! is stated in contracts and proved.

pub mod alist;
pub mod cache;
pub mod frames;
pub mod handler;
pub mod laws;
pub mod registry;
pub mod text;

use vstd::prelude::*;

verus! {

/// Maximum number of frames a session's delivery queue may hold before
/// further frames are dropped.
pub const QUEUE_CAPACITY: usize = 64;

/// Seconds a session may stay idle before the reaper evicts it.
pub const SESSION_TIMEOUT_SECS: u64 = 300;

/// Seconds between two reaper scans.
pub const REAPER_INTERVAL_SECS: u64 = 60;

/// Seconds between two keepalive frames on an otherwise quiet stream.
pub const KEEPALIVE_INTERVAL_SECS: u64 = 15;

} // verus!
