//! Synchronisation between devices: formats, routes, peers and transfers.

pub mod archive;
pub mod cert;
pub mod codec;
pub mod error;
pub mod file_stream;
pub mod hub_client;
pub mod lan;
pub mod lan_item;
pub mod pairing;
pub mod payload;
pub mod protocol;
pub mod router;
pub mod session;
pub mod transport;
pub mod tree_reader;
pub mod webdav;
