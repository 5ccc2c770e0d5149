//! A single-registration hospital registry.
//!
//! An opaque caller identity may register itself at most once with a
//! bounded-length name and location. The registry owns a keyed store of
//! records, enforces the length bound before any mutation, rejects a second
//! registration for the same identity, and appends a notification to its
//! event log on every successful registration.

pub mod laws;
pub mod registry;
