//! Items sent straight to a device on the local network.

use vstd::prelude::*;

use crate::bytes::{be_bytes, be_value, push_all, push_be};
use crate::content::DeviceId;
use crate::sync::codec::{framed, write_envelope, MAX_FRAME};
use crate::sync::error::{protocol, SyncError, SyncErrorView};
use crate::sync::protocol::{Envelope, ItemAck, LanItem, MessageBody};

verus! {

/// The most bytes of contents taken from a device on the local network.
pub const MAX_LAN_PAYLOAD: u64 = 536870912;

/// An item on its way: the frame of the message, the length of the contents as
/// eight big-endian bytes, and the contents.
pub open spec fn item_on_wire(message: Seq<u8>, payload: Seq<u8>) -> Seq<u8> {
    framed(message) + be_bytes(payload.len(), 8) + payload
}

/// An item on its way, from its serialised message and its contents.
pub fn send_lan_item(message: &[u8], payload: &[u8]) -> (r: Result<Vec<u8>, SyncError>)
    ensures
        match r {
            Ok(b) => message@.len() <= MAX_FRAME && b@ == item_on_wire(message@, payload@),
            Err(e) => message@.len() > MAX_FRAME && e@ == SyncErrorView::Protocol(
                "frame too large"@,
            ),
        },
{
    let mut out = match write_envelope(message) {
        Ok(b) => b,
        Err(e) => return Err(e),
    };
    push_be(&mut out, payload.len() as u64, 8);
    push_all(&mut out, payload);
    Ok(out)
}

/// What the answer to an item sent over the local network says: whether the
/// item was taken.
pub fn send_lan_item_outcome(answer: &MessageBody) -> (r: Result<bool, SyncError>)
    ensures
        match *answer {
            MessageBody::ItemAck(ack) => r == Ok::<bool, SyncError>(ack.accepted),
            _ => r matches Err(e) && e@ == SyncErrorView::Protocol("expected ITEM_ACK"@),
        },
{
    match answer {
        MessageBody::ItemAck(ack) => Ok(ack.accepted),
        _ => Err(protocol("expected ITEM_ACK")),
    }
}

/// The item that a message from the local network carries, and its sender.
pub fn recv_lan_item(env: Envelope) -> (r: Result<(DeviceId, LanItem), SyncError>)
    ensures
        match env.body {
            MessageBody::LanItem(item) => r == Ok::<(DeviceId, LanItem), SyncError>(
                (env.device_id, item),
            ),
            _ => r matches Err(e) && e@ == SyncErrorView::Protocol("expected LAN_ITEM"@),
        },
{
    let from = env.device_id;
    match env.body {
        MessageBody::LanItem(item) => Ok((from, item)),
        _ => Err(protocol("expected LAN_ITEM")),
    }
}

/// The length of the contents that follow an item, if it is not too large.
pub fn check_lan_payload(len: u64) -> (r: Result<u64, SyncError>)
    ensures
        match r {
            Ok(n) => n == len && len <= MAX_LAN_PAYLOAD,
            Err(e) => len > MAX_LAN_PAYLOAD && e@ == SyncErrorView::Protocol(
                "lan payload too large"@,
            ),
        },
{
    if len > MAX_LAN_PAYLOAD {
        Err(protocol("lan payload too large"))
    } else {
        Ok(len)
    }
}

/// The answer that an item was taken.
pub fn lan_item_ack(item: &LanItem) -> (r: MessageBody)
    ensures
        r == MessageBody::ItemAck(
            (ItemAck { item_id: item.offer.item_id, accepted: true, reason: None }),
        ),
{
    MessageBody::ItemAck(ItemAck { item_id: item.offer.item_id, accepted: true, reason: None })
}

/// An item on its way can be taken apart: the length of its contents and the
/// contents follow the frame of its message.
pub proof fn item_received_as_sent(message: Seq<u8>, payload: Seq<u8>)
    requires
        message.len() <= MAX_FRAME,
        payload.len() <= MAX_LAN_PAYLOAD,
    ensures
        item_on_wire(message, payload).len() == 12 + message.len() + payload.len(),
        be_value(item_on_wire(message, payload).take(4)) == message.len(),
        item_on_wire(message, payload).subrange(4, 4 + message.len() as int) == message,
        be_value(
            item_on_wire(message, payload).subrange(
                4 + message.len() as int,
                12 + message.len() as int,
            ),
        ) == payload.len(),
        item_on_wire(message, payload).skip(12 + message.len() as int) == payload,
{
    let b = item_on_wire(message, payload);
    let n = message.len() as int;
    crate::bytes::lemma_pow256();
    crate::bytes::be_round_trip(message.len(), 4);
    crate::bytes::be_round_trip(payload.len(), 8);
    assert(b.take(4) =~= be_bytes(message.len(), 4));
    assert(b.subrange(4, 4 + n) =~= message);
    assert(b.subrange(4 + n, 12 + n) =~= be_bytes(payload.len(), 8));
    assert(b.skip(12 + n) =~= payload);
}

/// An item with a message of up to a mebibyte and contents of up to 512 mebibytes can be
/// sent and taken apart again.
pub proof fn items_up_to_the_limit_pass(message: Seq<u8>, payload: Seq<u8>)
    requires
        message.len() <= 1024 * 1024,
        payload.len() <= 512 * 1024 * 1024,
    ensures
        message.len() <= MAX_FRAME,
        payload.len() <= MAX_LAN_PAYLOAD,
        item_on_wire(message, payload).subrange(4, 4 + message.len() as int) == message,
        item_on_wire(message, payload).skip(12 + message.len() as int) == payload,
{
    item_received_as_sent(message, payload);
}


/// An item is sent, `r`, just if its message has no more than a mebibyte, and message and
/// contents are in it whole. Contents are received, `c`, up to 512 mebibytes.
pub proof fn items_are_sent_whole(
    message: &[u8],
    payload: &[u8],
    r: Result<Vec<u8>, SyncError>,
    c: Result<u64, SyncError>,
    len: u64,
)
    requires
        call_ensures(send_lan_item, (message, payload), r),
        call_ensures(check_lan_payload, (len,), c),
    ensures
        r is Ok <==> message@.len() <= 1024 * 1024,
        r is Ok && payload@.len() <= 512 * 1024 * 1024 ==> {
            &&& r->Ok_0@.len() == 12 + message@.len() + payload@.len()
            &&& be_value(r->Ok_0@.take(4)) == message@.len()
            &&& r->Ok_0@.subrange(4, 4 + message@.len() as int) == message@
            &&& be_value(
                r->Ok_0@.subrange(4 + message@.len() as int, 12 + message@.len() as int),
            ) == payload@.len()
            &&& r->Ok_0@.skip(12 + message@.len() as int) == payload@
        },
        c is Ok <==> len <= 512 * 1024 * 1024,
        c is Ok ==> c->Ok_0 == len,
{
    if r is Ok && payload@.len() <= 512 * 1024 * 1024 {
        item_received_as_sent(message@, payload@);
    }
}

/// An item that arrived is answered with its own identity and as accepted, and the sender
/// takes that answer, and no other, for a success. Only items are taken for items.
pub proof fn items_are_acknowledged(
    env: Envelope,
    got: Result<(DeviceId, LanItem), SyncError>,
    item: LanItem,
    ack: MessageBody,
    ok: Result<bool, SyncError>,
    answer: MessageBody,
    other: Result<bool, SyncError>,
)
    requires
        call_ensures(recv_lan_item, (env,), got),
        call_ensures(lan_item_ack, (&item,), ack),
        call_ensures(send_lan_item_outcome, (&ack,), ok),
        call_ensures(send_lan_item_outcome, (&answer,), other),
    ensures
        got is Ok <==> env.body is LanItem,
        got is Ok ==> got->Ok_0.0 == env.device_id && got->Ok_0.1 == env.body->LanItem_0,
        ack is ItemAck && ack->ItemAck_0.item_id == item.offer.item_id,
        ok == Ok::<bool, SyncError>(true),
        other is Ok <==> answer is ItemAck,
        other is Ok ==> other->Ok_0 == answer->ItemAck_0.accepted,
{
}


} // verus!
