//! Verified core of a cross-device clipboard, capture and hub desktop.

pub mod base64codec;
pub mod bytes;
pub mod clock;
pub mod content;
pub mod desktop;
pub mod digest;
pub mod hexcodec;
pub mod order;
pub mod path;
pub mod platform;
pub mod plugin;
pub mod storage;
pub mod sync;
pub mod table;
pub mod text;
