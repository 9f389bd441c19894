//! Controller for an incremental-computation pipeline.
//!
//! A long-running circuit evaluates a dataflow program over weighted
//! multisets (Z-sets) step by step.  This crate provides the controller
//! around such a circuit: it validates and registers named input/output
//! endpoints against the circuit's catalog, turns raw bytes arriving on
//! input endpoints into weighted insert/delete operations, coordinates
//! when the shared circuit advances a step, consolidates and re-serializes
//! circuit output for each output endpoint, and classifies failures so
//! that one broken record or one disconnected transport does not take
//! down the whole pipeline.

use vstd::prelude::*;

pub mod api;
pub mod circuit;
pub mod controller;
pub mod decollection;
pub mod error;
pub mod hashing;
pub mod json;
pub mod value;
pub mod zset;

verus! {

/// States of a pipeline as a whole, from construction to teardown.
///
/// Transitions are monotonic except `Running` <-> `Paused`:
/// `Initializing -> Running <-> Paused -> Terminating -> Terminated`.
#[derive(Clone, Copy, Debug, PartialEq, Eq, Structural)]
pub enum PipelineState {
    Initializing,
    Running,
    Paused,
    Terminating,
    Terminated,
}

} // verus!
