//! A synchronisation session: what may be offered, and over which route.

use vstd::prelude::*;

use crate::content::{ContentKind, DeviceId};
use crate::sync::error::{SyncError, SyncErrorView};
use crate::sync::lan::{lan_timeout, LAN_TIMEOUT_MS};
use crate::sync::protocol::{Envelope, ItemOffer, MessageBody, PROTOCOL_VERSION};
use crate::sync::router::select_route;
use crate::sync::transport::Route;

verus! {

/// What a session knows of its surroundings.
#[derive(Debug)]
pub struct SyncSession {
    pub local_device: DeviceId,
    pub lan_ready: bool,
    pub hub_ready: bool,
}

impl SyncSession {
    /// The route of the session.
    pub fn route(&self) -> (r: Option<Route>)
        ensures
            r == (if self.lan_ready {
                Some(Route::LanDirect)
            } else if self.hub_ready {
                Some(Route::HubRelay)
            } else {
                None
            }),
    {
        select_route(self.lan_ready, self.hub_ready)
    }

    /// Whether an item may be offered, from the reading of its kind and, where
    /// that could be read, the verdict of the policy.
    pub fn may_offer(
        &self,
        kind: Result<ContentKind, String>,
        verdict: Result<(), String>,
    ) -> (r: Result<(), SyncError>)
        ensures
            match (kind, verdict) {
                (Err(m), _) => r matches Err(e) && e@ == SyncErrorView::Protocol(m@),
                (Ok(_), Err(m)) => r matches Err(e) && e@ == SyncErrorView::Failed(m@),
                (Ok(_), Ok(_)) => r is Ok,
            },
    {
        match kind {
            Err(m) => Err(SyncError::Protocol(m)),
            Ok(_) => match verdict {
                Ok(_) => Ok(()),
                Err(m) => Err(SyncError::Failed(m)),
            },
        }
    }

    /// The message that offers an item.
    pub fn offer_envelope(&self, offer: ItemOffer, message_id: String, now_ms: i64) -> (r: Envelope)
        ensures
            r == (Envelope {
                protocol_version: PROTOCOL_VERSION,
                message_id,
                request_id: None,
                device_id: self.local_device,
                timestamp_ms: now_ms,
                body: MessageBody::ItemOffer(offer),
            }),
    {
        Envelope::new(self.local_device, MessageBody::ItemOffer(offer), message_id, now_ms)
    }
}

/// How long a connection may take, in milliseconds.
pub fn connect_timeout() -> (r: u64)
    ensures
        r == LAN_TIMEOUT_MS,
{
    lan_timeout()
}

/// Items go directly if the other device is reached on the local network, through the hub
/// if only that is reached, and else not at all.
pub proof fn the_local_network_comes_first(s: SyncSession, r: Option<Route>, direct: Option<Route>)
    requires
        call_ensures(SyncSession::route, (&s,), r),
        call_ensures(crate::sync::router::select_route, (s.lan_ready, s.hub_ready), direct),
    ensures
        r == Some(Route::LanDirect) <==> s.lan_ready,
        r == Some(Route::HubRelay) <==> !s.lan_ready && s.hub_ready,
        r is None <==> !s.lan_ready && !s.hub_ready,
        direct == r,
{
}

/// An item is offered just if its kind is known and it may leave, and under the name of
/// this device.
pub proof fn items_that_may_leave_are_offered(
    s: SyncSession,
    kind: Result<ContentKind, String>,
    verdict: Result<(), String>,
    r: Result<(), SyncError>,
    offer: ItemOffer,
    message_id: String,
    now_ms: i64,
    e: Envelope,
    t: u64,
)
    requires
        call_ensures(SyncSession::may_offer, (&s, kind, verdict), r),
        call_ensures(SyncSession::offer_envelope, (&s, offer, message_id, now_ms), e),
        call_ensures(connect_timeout, (), t),
    ensures
        r is Ok <==> kind is Ok && verdict is Ok,
        e.device_id == s.local_device && e.timestamp_ms == now_ms && e.message_id == message_id,
        e.body == MessageBody::ItemOffer(offer) && e.protocol_version == 1 && e.request_id is None,
        t == 800,
{
}


} // verus!
