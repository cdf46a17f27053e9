//! Persisted application state for a small project/notes tracker.
//!
//! The crate covers the part of the application with real invariants:
//! the typed state model with its total defaults, a permissive,
//! default-filling JSON codec for it, the load/save decision logic of
//! the persistence gateway, and the planner that turns a requested
//! window mode into a sequence of idempotent window operations.
//! The GUI shell around it only performs I/O and window-system calls
//! with plain values handed to and from this library.

pub mod codec;
pub mod json;
pub mod legacy;
pub mod model;
pub mod store;
pub mod text;
pub mod window;
