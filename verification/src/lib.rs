//! An in-process publish/subscribe registry: named events, ordered listeners,
//! call-limited and one-shot subscriptions, removal by id, and the bookkeeping
//! of both emission strategies.

pub mod event_emitter;
pub mod identity;
pub mod laws;
pub mod listener;
pub mod registry;

pub use event_emitter::EventEmitter;
pub use listener::{Handler, Job, Listener};
pub use registry::{Channel, Entry, Registry};
