//! A small task-tracking library: an in-memory task store with
//! monotonically increasing identifiers, a canonical JSON codec for the
//! persisted store, the line-oriented command-line output, the modal
//! state machine behind the full-screen terminal interface, and a
//! second, UUID-keyed task model.

pub mod cli;
pub mod codec;
pub mod config;
pub mod manager;
pub mod render;
pub mod task;
pub mod tui;
