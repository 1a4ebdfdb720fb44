//! An in-memory event broadcast hub: producers publish text events, and the
//! hub fans each event out, in publish order, to every registered
//! subscriber's bounded delivery queue.

use vstd::prelude::*;

pub mod hub;
pub mod producer;
pub mod stream;

verus! {

/// Default capacity of a subscriber's delivery queue.
pub const DEFAULT_QUEUE_CAPACITY: usize = 10;

/// Default interval, in milliseconds, at which the periodic ticker publishes.
pub const DEFAULT_TICK_MILLIS: u64 = 1000;

/// Default idle interval, in seconds, after which a keep-alive is emitted.
pub const DEFAULT_KEEP_ALIVE_SECS: u64 = 600;

} // verus!
