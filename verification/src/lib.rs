//! Core of a local model-runner CLI.
//!
//! Two subsystems, verified end to end:
//! - a parser and semantic builder that turn a declarative "Modelfile"
//!   document into a typed configuration object ([`modelfile`]), and
//! - a model-lifecycle orchestrator that tracks which named models are
//!   running, persists that registry as a JSON snapshot, reconciles it
//!   against process liveness, and drives the background daemon through
//!   start/stop transitions ([`model_state`], [`snapshot`], [`lifecycle`]).
//!
//! File and network access stay outside the library: callers hand in file
//! contents, probe results and response statuses as plain values, and the
//! library answers with the exact state changes and actions to perform.

pub mod text;
pub mod grammar;
pub mod modelfile;
pub mod model_state;
pub mod json;
pub mod snapshot;
pub mod lifecycle;
pub mod paths;
