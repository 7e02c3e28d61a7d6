//! A client-side message queue engine with delay and visibility-timeout
//! semantics over a shared key-value store.
//!
//! The crate verifies the protocol core: the state a namespace of queues
//! goes through under send / receive / pop / delete / change-visibility,
//! the message identifier scheme, and the key layout shared with other
//! clients of the same store.

pub mod assoc;
pub mod engine;
pub mod errors;
pub mod ids;
pub mod keys;
pub mod laws;
pub mod scripts;
pub mod types;

pub use engine::Engine;
pub use errors::RsmqError;
pub use types::{Message, QueueAttributes};
