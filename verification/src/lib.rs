//! Core of a todo application: named collections of tasks, a completion
//! filter with a live view over the active collection, and a JSON
//! persistence gateway for the whole store.
//!
//! `model` holds the persisted data, `filter` the visibility policy,
//! `live` the per-window state that keeps a filtered view bound to the
//! active collection, and `codec` with `persist` the on-disk format and
//! its reader and writer. `myenum` and `utils` carry the sidebar
//! categories and small helpers around them.

pub mod codec;
pub mod filter;
pub mod live;
pub mod model;
pub mod myenum;
pub mod persist;
pub mod utils;
