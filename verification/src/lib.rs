//! Verified core of a multi-segment HTTP file downloader.
//!
//! A resource is fetched as N concurrent byte-range requests, each worker
//! appending its range to a part file; the parts are then merged, in segment
//! order, into the final artifact.  Download lifecycle state is recorded in a
//! small relational store model, and live progress is aggregated into
//! snapshots whose quantity fields are monotone from the observer's view.
//!
//! This crate holds the planning, accounting and bookkeeping logic with
//! machine-checked contracts; the surrounding process (HTTP, filesystem,
//! database file, UI) drives it from outside.

use vstd::prelude::*;

pub mod api;
pub mod engine;
pub mod errors;
pub mod highwater;
pub mod host;
pub mod merge;
pub mod naming;
pub mod plan;
pub mod progress;
pub mod store;
pub mod text;
pub mod worker;

verus! {

/// Diagnostic probe for the command-line front end: a fixed value.
pub fn test() -> (r: u32)
    ensures
        r == 3,
{
    3
}

} // verus!
