//! Privilege-resolution core of a process-injection daemon: detection of the
//! active root-granting backend from the textual output of its tools,
//! classification of the reported protocol version, and fail-closed per-uid
//! privilege queries against a persisted permission table.
//!
//! All decisions are made over plain byte strings and integers; reading files
//! and spawning the backend's binaries is left to the surrounding program,
//! which hands the observed outputs in and gets plain answers back.

pub mod apatch;
pub mod config;
pub mod text;
