//! The messages that devices and the hub exchange.

use vstd::prelude::*;

use crate::content::{ContentId, DeviceId};
use crate::sync::error::{protocol, SyncError, SyncErrorView};

verus! {

/// The version of the protocol.
pub const PROTOCOL_VERSION: u32 = 1;

/// A message with its sender.
#[derive(Debug)]
pub struct Envelope {
    pub protocol_version: u32,
    pub message_id: String,
    pub request_id: Option<String>,
    pub device_id: DeviceId,
    pub timestamp_ms: i64,
    pub body: MessageBody,
}

/// What a message says.
#[derive(Debug)]
pub enum MessageBody {
    Hello(Hello),
    DeviceState(DeviceState),
    ItemOffer(ItemOffer),
    ItemReady(ItemReady),
    ItemAck(ItemAck),
    ItemDelete(ItemDelete),
    LanItem(LanItem),
    LanCandidates(LanCandidates),
    SyncCursor(SyncCursor),
    Ping { nonce: u64 },
    Pong { nonce: u64 },
}

/// A device introduces itself.
#[derive(Debug)]
pub struct Hello {
    pub protocol_version: u32,
    pub identity_public_key: Vec<u8>,
    pub capabilities: Vec<String>,
}

/// How a device stands.
#[derive(Debug)]
pub struct DeviceState {
    pub device_id: DeviceId,
    pub last_seen_at_ms: i64,
    pub revoked: bool,
}

/// An item is offered.
#[derive(Debug)]
pub struct ItemOffer {
    pub item_id: ContentId,
    pub kind: String,
    pub logical_size: u64,
    pub payload_size: u64,
    pub dedup_tag: Vec<u8>,
    pub flags: u32,
}

/// The contents of an item can be fetched.
#[derive(Debug)]
pub struct ItemReady {
    pub item_id: ContentId,
    pub blob_id: String,
}

/// An item was taken, or not.
#[derive(Debug)]
pub struct ItemAck {
    pub item_id: ContentId,
    pub accepted: bool,
    pub reason: Option<String>,
}

/// An item was removed.
#[derive(Debug)]
pub struct ItemDelete {
    pub item_id: ContentId,
}

/// An item sent straight over the local network; its contents follow.
#[derive(Debug)]
pub struct LanItem {
    pub offer: ItemOffer,
    pub metadata_json: String,
    pub payload_len: u64,
}

/// Where a device can be reached on the local network.
#[derive(Debug)]
pub struct LanCandidates {
    pub endpoints: Vec<String>,
    pub fingerprint_hex: Option<String>,
}

/// How far a device has read.
#[derive(Debug)]
pub struct SyncCursor {
    pub scope: String,
    pub cursor: String,
}

impl Envelope {
    /// A message from a device. `message_id` is fresh and `now_ms` is the time.
    pub fn new(device_id: DeviceId, body: MessageBody, message_id: String, now_ms: i64) -> (r:
        Envelope)
        ensures
            r == (Envelope {
                protocol_version: PROTOCOL_VERSION,
                message_id,
                request_id: None,
                device_id,
                timestamp_ms: now_ms,
                body,
            }),
    {
        Envelope {
            protocol_version: PROTOCOL_VERSION,
            message_id,
            request_id: None,
            device_id,
            timestamp_ms: now_ms,
            body,
        }
    }
}

} // verus!
