//! In-process cache of an accessibility tree.
//!
//! An accessibility bus exposes a live forest of UI objects owned by running
//! applications. Reading that data over the bus on every keystroke is too
//! slow, so this crate mirrors the tree in memory: a two-level keyed store,
//! a request/response protocol that serializes all mutation through a single
//! writer, event-driven mutation handlers that keep the mirror consistent
//! with upstream change notifications, and a driver abstraction that isolates
//! the bus I/O needed to populate the cache on miss.

pub mod cache;
pub mod choice;
pub mod codec;
pub mod driver;
pub mod error;
pub mod events;
pub mod extractors;
pub mod handlers;
pub mod item;
pub mod key;
pub mod laws;
pub mod protocol;
pub mod relations;
pub mod roles;
pub mod service_set;
pub mod settings;
pub mod speech;
pub mod store;
pub mod subtree;
pub mod types;
