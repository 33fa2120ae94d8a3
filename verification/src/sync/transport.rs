//! The two ways to reach another device, and how a transfer can fail.

use vstd::prelude::*;

use crate::sync::error::{error_text, SyncError};

verus! {

/// Why a transport could not deliver an envelope.
#[derive(Debug)]
pub enum TransportError {
    NotConnected,
    Handshake,
    Timeout,
    Failed(String),
}

impl TransportError {
    /// The transport error that stands for a synchronisation error. Errors of
    /// kinds that transports do not tell apart keep their message.
    pub fn from_sync(err: SyncError) -> (r: TransportError)
        ensures
            match err {
                SyncError::NotConnected => r is NotConnected,
                SyncError::Timeout => r is Timeout,
                SyncError::Handshake(_) => r is Handshake,
                _ => r matches TransportError::Failed(s) && s@ == error_text(err@),
            },
    {
        match err {
            SyncError::NotConnected => TransportError::NotConnected,
            SyncError::Timeout => TransportError::Timeout,
            SyncError::Handshake(_) => TransportError::Handshake,
            other => TransportError::Failed(other.message()),
        }
    }
}

/// A route to another device: straight over the local network, or relayed by
/// the hub.
#[derive(Clone, Copy, Debug, PartialEq, Eq, Structural)]
pub enum Route {
    LanDirect,
    HubRelay,
}

/// What went wrong with a connection is told apart: that there is none, that it took too
/// long, that it was refused, and everything else by its text.
pub proof fn failures_are_told_apart(err: SyncError, r: TransportError)
    requires
        call_ensures(TransportError::from_sync, (err,), r),
    ensures
        r is NotConnected <==> err is NotConnected,
        r is Timeout <==> err is Timeout,
        r is Handshake <==> err is Handshake,
        r is Failed ==> r->Failed_0@ == error_text(err@),
{
}


} // verus!
