//! Heartbeat monitoring: devices send beats, the registry tracks each
//! device's liveness, the detector decides when one is overdue, and the
//! aggregator sums fleet-wide totals. The request handlers in `api` decide
//! each HTTP call from plain values; transport and clocks live outside.
use vstd::prelude::*;

pub mod api;
pub mod context;
pub mod detector;
pub mod model;
pub mod order;
pub mod registry;
pub mod stats;

verus! {

} // verus!
