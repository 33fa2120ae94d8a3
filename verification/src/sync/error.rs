//! Errors of the synchronisation layer.

use vstd::prelude::*;

verus! {

/// Why a synchronisation step failed.
#[derive(Debug)]
pub enum SyncError {
    NotConnected,
    Handshake(String),
    Timeout,
    Protocol(String),
    Tls(String),
    Io(String),
    Failed(String),
}

/// A [`SyncError`] with its text as a character sequence.
pub enum SyncErrorView {
    NotConnected,
    Handshake(Seq<char>),
    Timeout,
    Protocol(Seq<char>),
    Tls(Seq<char>),
    Io(Seq<char>),
    Failed(Seq<char>),
}

impl View for SyncError {
    type V = SyncErrorView;

    open spec fn view(&self) -> SyncErrorView {
        match *self {
            SyncError::NotConnected => SyncErrorView::NotConnected,
            SyncError::Handshake(s) => SyncErrorView::Handshake(s@),
            SyncError::Timeout => SyncErrorView::Timeout,
            SyncError::Protocol(s) => SyncErrorView::Protocol(s@),
            SyncError::Tls(s) => SyncErrorView::Tls(s@),
            SyncError::Io(s) => SyncErrorView::Io(s@),
            SyncError::Failed(s) => SyncErrorView::Failed(s@),
        }
    }
}

/// The message shown for an error.
pub open spec fn error_text(e: SyncErrorView) -> Seq<char> {
    match e {
        SyncErrorView::NotConnected => "not connected"@,
        SyncErrorView::Handshake(s) => "handshake failed: "@ + s,
        SyncErrorView::Timeout => "timeout"@,
        SyncErrorView::Protocol(s) => "protocol: "@ + s,
        SyncErrorView::Tls(s) => "tls: "@ + s,
        SyncErrorView::Io(s) => "io: "@ + s,
        SyncErrorView::Failed(s) => s,
    }
}

impl SyncError {
    /// The message shown for this error.
    pub fn message(&self) -> (r: String)
        ensures
            r@ == error_text(self@),
    {
        match self {
            SyncError::NotConnected => "not connected".to_owned(),
            SyncError::Handshake(s) => prefixed("handshake failed: ", s.as_str()),
            SyncError::Timeout => "timeout".to_owned(),
            SyncError::Protocol(s) => prefixed("protocol: ", s.as_str()),
            SyncError::Tls(s) => prefixed("tls: ", s.as_str()),
            SyncError::Io(s) => prefixed("io: ", s.as_str()),
            SyncError::Failed(s) => s.clone(),
        }
    }
}

fn prefixed(head: &str, tail: &str) -> (r: String)
    ensures
        r@ == head@ + tail@,
{
    let mut out = head.to_owned();
    out.push_str(tail);
    out
}

/// A protocol error with the given text.
pub fn protocol(text: &str) -> (r: SyncError)
    ensures
        r@ == SyncErrorView::Protocol(text@),
{
    SyncError::Protocol(text.to_owned())
}

/// A plain failure with the given text.
pub fn failed(text: &str) -> (r: SyncError)
    ensures
        r@ == SyncErrorView::Failed(text@),
{
    SyncError::Failed(text.to_owned())
}

/// The text of an error tells what it holds, behind the name of its kind where it has
/// one.
pub proof fn error_texts_tell_what_happened(s: Seq<char>)
    ensures
        error_text(SyncErrorView::Failed(s)) == s,
        error_text(SyncErrorView::Protocol(s)) == "protocol: "@ + s,
        error_text(SyncErrorView::Tls(s)) == "tls: "@ + s,
        error_text(SyncErrorView::Io(s)) == "io: "@ + s,
        error_text(SyncErrorView::Handshake(s)) == "handshake failed: "@ + s,
        error_text(SyncErrorView::NotConnected) == "not connected"@,
        error_text(SyncErrorView::Timeout) == "timeout"@,
{
}


} // verus!
