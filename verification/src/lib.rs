//! Retention sweeps for a binary-artifact registry.
//!
//! The crate derives a comparable canonical version from each component's raw
//! version string, total-orders canonical versions by semantic-version
//! precedence, decides which components fall below a cutoff version, and
//! drives the authenticate / search / delete protocol of a sweep as a state
//! machine whose every transition is specified.

pub mod order;
pub mod policy;
pub mod sweep;
pub mod version;
