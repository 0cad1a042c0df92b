//! Core of a service-downtime benchmarker: it models the health of a fixed
//! set of network targets polled on a timer, detects health-state
//! transitions per target, accumulates contiguous failure windows, and
//! aggregates them into a final downtime report.  Everything here works on
//! plain values (booleans, timestamps, strings); the polling itself, the
//! timer, signal handling and rendering live with the surrounding program.

pub mod monitor;
pub mod probe;
pub mod report;
pub mod target;
pub mod tracker;
pub mod validate;
