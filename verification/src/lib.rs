//! Verified core of a command-line task tracker.
//!
//! The crate keeps an ordered list of tasks (completion flag, free-text
//! description, optional due and completion timestamps) and persists it in a
//! human-readable, line-oriented text format. The store offers
//! index-addressed mutation with explicit out-of-bounds errors; the codec
//! serializes the store to text and reads it back, tolerating malformed
//! lines and reconciling inconsistent completion data.

pub mod clock;
pub mod commands;
pub mod codec;
pub mod datetime;
pub mod task;
pub mod textutil;
