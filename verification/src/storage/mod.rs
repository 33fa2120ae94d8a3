//! The local store: history, blobs and the queue of events to be delivered.

pub mod blob;
pub mod cleanup;
pub mod error;
pub mod outbox;
pub mod paths;
pub mod repo;
pub mod schema;
pub mod store;
