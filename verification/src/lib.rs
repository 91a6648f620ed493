//! Event-camera feature tracking core.
//!
//! Converts a stream of pixel-brightness-change events into tracked visual
//! features: a per-pixel timestamp surface is maintained for each polarity,
//! new events are classified as corners by an arc test over a ring of
//! neighbouring timestamps, and accepted corners are matched against the
//! registry of currently tracked features, which forgets features that have
//! not been refreshed within a configured window.

pub mod event;
pub mod surface;
pub mod detector;
pub mod tracker;
pub mod pipeline;
