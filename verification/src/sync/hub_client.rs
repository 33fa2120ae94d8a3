//! Requests to the hub: addresses and what answers mean.

use vstd::prelude::*;

use crate::content::DeviceId;
use crate::sync::error::{SyncError, SyncErrorView};
use crate::text::{
    decimal, occurs_at, push_decimal, replace, replaced, replacement_goes_from_the_left, text_of, trim_end_char, trim_end_matching,
};

verus! {

/// The hub that a device talks to.
#[derive(Debug)]
pub struct HubClient {
    pub base: String,
    pub token: Option<String>,
    /// The fingerprint that the hub's certificate must have, in hexadecimal, if one
    /// is noted.
    pub pin: Option<String>,
}

/// The session that pairing gives.
#[derive(Debug)]
pub struct SessionResponse {
    pub token: String,
    pub account_id: u128,
    pub device_id: DeviceId,
    pub avk_wrapped_hex: Option<String>,
}

/// A device as the hub knows it.
#[derive(Debug)]
pub struct DeviceDto {
    pub id: DeviceId,
    pub name: String,
    pub platform: String,
    pub last_seen_at_ms: i64,
    pub revoked: bool,
    pub cert_fingerprint: Option<String>,
}

/// An item as the hub keeps it.
#[derive(Debug)]
pub struct HistoryDto {
    pub id: String,
    pub origin_device_id: DeviceId,
    pub kind: String,
    pub created_at_ms: i64,
    pub logical_size: u64,
    pub payload_size: u64,
    pub dedup_tag: String,
    pub flags: u32,
    pub encrypted_metadata: String,
    pub blob_id: Option<String>,
}

/// The absolute address that `url` makes of a base with a path and a query
/// pair, or the message of its error.
pub uninterp spec fn url_with(
    base: Seq<char>,
    path: Seq<char>,
    key: Seq<char>,
    value: Seq<char>,
) -> Result<Seq<char>, Seq<char>>;

/// `url`'s `Url::parse`, `set_path` and `append_pair` on the query: the address
/// with that path and that pair, by its name. The parts are short enough for
/// the crate's 32-bit positions.
#[verifier::external_body]
pub(crate) fn build_url(base: &str, path: &str, key: &str, value: &str) -> (r: Result<
    String,
    String,
>)
    requires
        base@.len() <= 0x800_0000,
        path@.len() <= 0x1000,
        key@.len() <= 0x1000,
        value@.len() <= 0x800_0000,
    ensures
        match r {
            Ok(s) => url_with(base@, path@, key@, value@) == Ok::<Seq<char>, Seq<char>>(s@),
            Err(m) => url_with(base@, path@, key@, value@) == Err::<Seq<char>, Seq<char>>(m@),
        },
{
    let mut url = reqwest::Url::parse(base).map_err(|e| e.to_string())?;
    url.set_path(path);
    url.query_pairs_mut().append_pair(key, value);
    Ok(url.to_string())
}

/// A base address with the schemes of web sockets.
pub open spec fn socket_base(base: Seq<char>) -> Seq<char> {
    replaced(replaced(base, "https://"@, "wss://"@), "http://"@, "ws://"@)
}

impl HubClient {
    /// A client for the hub at an address. Separators at its end do not count.
    pub fn new(base: &str) -> (r: HubClient)
        ensures
            r.base@ == trim_end_char(base@, '/'),
            r.token is None,
            r.pin is None,
    {
        HubClient { base: trim_end_matching(base, '/'), token: None, pin: None }
    }

    /// A client for the hub at an address, which must show the certificate with a
    /// fingerprint if one is noted.
    pub fn with_pin(base: &str, pin: Option<&str>) -> (r: HubClient)
        ensures
            r.base@ == trim_end_char(base@, '/'),
            r.token is None,
            text_of(r.pin) == (match pin {
                Some(p) => Some(p@),
                None => None,
            }),
    {
        let pin = match pin {
            Some(p) => Some(p.to_owned()),
            None => None,
        };
        HubClient { base: trim_end_matching(base, '/'), token: None, pin }
    }

    /// The client with a token.
    pub fn with_token(self, token: String) -> (r: HubClient)
        ensures
            r.base == self.base,
            r.token == Some(token),
            r.pin == self.pin,
    {
        HubClient { base: self.base, token: Some(token), pin: self.pin }
    }

    /// The address of a path at the hub.
    pub fn url(&self, path: &str) -> (r: String)
        ensures
            r@ == self.base@ + path@,
    {
        let mut out = self.base.clone();
        out.push_str(path);
        out
    }

    /// The address of the device's control connection, which needs a token.
    pub fn connect_ws(&self) -> (r: Result<String, SyncError>)
        requires
            socket_base(self.base@).len() <= 0x800_0000,
            self.token is Some ==> self.token->0@.len() <= 0x800_0000,
        ensures
            match self.token {
                None => r matches Err(e) && e@ == SyncErrorView::NotConnected,
                Some(token) => match url_with(
                    socket_base(self.base@),
                    "/ws/v1/device"@,
                    "token"@,
                    token@,
                ) {
                    Ok(u) => r matches Ok(s) && s@ == u,
                    Err(m) => r matches Err(e) && e@ == SyncErrorView::Failed(m),
                },
            },
    {
        let token = match &self.token {
            Some(token) => token,
            None => return Err(SyncError::NotConnected),
        };
        proof {
            reveal_strlit("https://");
            reveal_strlit("http://");
            reveal_strlit("/ws/v1/device");
            reveal_strlit("token");
        }
        let secure = replace(self.base.as_str(), "https://", "wss://");
        let base = replace(secure.as_str(), "http://", "ws://");
        match build_url(base.as_str(), "/ws/v1/device", "token", token.as_str()) {
            Ok(url) => Ok(url),
            Err(m) => Err(SyncError::Failed(m)),
        }
    }
}

/// The path of a listing of the hub's history.
pub fn history_path(cursor: Option<&str>, limit: u32) -> (r: String)
    ensures
        r@ == "/api/v1/history?limit="@ + decimal(limit as nat) + (match cursor {
            Some(c) => "&cursor="@ + c@,
            None => Seq::empty(),
        }),
{
    let mut path = "/api/v1/history?limit=".to_owned();
    push_decimal(&mut path, limit as u128);
    if let Some(c) = cursor {
        path.push_str("&cursor=");
        path.push_str(c);
        assert(path@ =~= "/api/v1/history?limit="@ + decimal(limit as nat) + ("&cursor="@ + c@));
    } else {
        assert(path@ =~= "/api/v1/history?limit="@ + decimal(limit as nat) + Seq::<char>::empty());
    }
    path
}

/// The path of one item in the hub's history.
pub fn history_item_path(id: &str) -> (r: String)
    ensures
        r@ == "/api/v1/history/"@ + id@,
{
    let mut path = "/api/v1/history/".to_owned();
    path.push_str(id);
    path
}

/// The path of one device at the hub.
pub fn device_path(id: &str) -> (r: String)
    ensures
        r@ == "/api/v1/devices/"@ + id@,
{
    let mut path = "/api/v1/devices/".to_owned();
    path.push_str(id);
    path
}

/// The path of one chunk of a blob at the hub.
pub fn chunk_path(blob_id: &str, index: u32) -> (r: String)
    ensures
        r@ == "/api/v1/blobs/"@ + blob_id@ + "/chunks/"@ + decimal(index as nat),
{
    let mut path = "/api/v1/blobs/".to_owned();
    path.push_str(blob_id);
    path.push_str("/chunks/");
    push_decimal(&mut path, index as u128);
    path
}

/// The path that commits a blob at the hub.
pub fn commit_path(blob_id: &str) -> (r: String)
    ensures
        r@ == "/api/v1/blobs/"@ + blob_id@ + "/commit"@,
{
    let mut path = "/api/v1/blobs/".to_owned();
    path.push_str(blob_id);
    path.push_str("/commit");
    path
}

/// What the status of an answer without contents means. `status_text` is the
/// status as it is shown.
pub fn empty_outcome(status: u16, status_text: &str) -> (r: Result<(), SyncError>)
    ensures
        match r {
            Ok(_) => 200 <= status < 300,
            Err(e) => !(200 <= status < 300) && e@ == SyncErrorView::Failed(status_text@),
        },
{
    if 200 <= status && status < 300 {
        Ok(())
    } else {
        Err(SyncError::Failed(status_text.to_owned()))
    }
}

/// What the status of an answer with contents means. The path is told where it
/// is a failure.
pub fn json_outcome(status: u16, status_text: &str, path: &str) -> (r: Result<(), SyncError>)
    ensures
        match r {
            Ok(_) => 200 <= status < 300,
            Err(e) => {
                &&& !(200 <= status < 300)
                &&& e@ == SyncErrorView::Failed(status_text@ + " "@ + path@)
            },
        },
{
    if 200 <= status && status < 300 {
        Ok(())
    } else {
        let mut text = status_text.to_owned();
        text.push_str(" ");
        text.push_str(path);
        Err(SyncError::Failed(text))
    }
}

/// What came over the control connection.
#[derive(Debug)]
pub enum ControlFrame {
    Text,
    Close,
    End,
    Failed(String),
    Other,
}

/// What to do with what came over the control connection: whether there is a
/// message to be read.
pub fn recv_control(frame: ControlFrame) -> (r: Result<bool, SyncError>)
    ensures
        match frame {
            ControlFrame::Text => r == Ok::<bool, SyncError>(true),
            ControlFrame::Failed(m) => r matches Err(e) && e@ == SyncErrorView::Failed(m@),
            _ => r == Ok::<bool, SyncError>(false),
        },
{
    match frame {
        ControlFrame::Text => Ok(true),
        ControlFrame::Failed(m) => Err(SyncError::Failed(m)),
        _ => Ok(false),
    }
}

/// The control connection goes to the hub itself: a secure address stays secure, and
/// everything behind the scheme is as it was.
pub proof fn control_connection_goes_to_the_hub(rest: Seq<char>)
    requires
        forall|j: int| !(#[trigger] occurs_at(rest, "://"@, j)),
    ensures
        socket_base("https://"@ + rest) == "wss://"@ + rest,
        socket_base("http://"@ + rest) == "ws://"@ + rest,
{
    reveal_strlit("https://");
    reveal_strlit("http://");
    reveal_strlit("wss://");
    reveal_strlit("ws://");
    reveal_strlit("://");
    let secure = "https://"@;
    let plain = "http://"@;
    assert(secure.len() == 8 && plain.len() == 7 && "wss://"@.len() == 6 && "ws://"@.len() == 5);
    lemma_no_scheme(rest, secure, "wss://"@, 5);
    lemma_no_scheme(rest, plain, "ws://"@, 4);
    let a = secure + rest;
    assert(a.subrange(0, 8) =~= secure);
    assert(a.skip(8) =~= rest);
    assert(replaced(a, secure, "wss://"@) == "wss://"@ + rest);
    let w = "wss://"@ + rest;
    assert forall|j: int| 0 <= j < w.len() implies !(#[trigger] occurs_at(w, plain, j)) by {
        if occurs_at(w, plain, j) {
            assert(w.subrange(j, j + 7)[0] == plain[0]);
            assert(w[j] == 'h');
            assert(j >= 6);
            assert(occurs_at(rest, "://"@, j - 6 + 4)) by {
                assert(rest.subrange(j - 2, j + 1) =~= "://"@) by {
                    assert(w.subrange(j, j + 7)[4] == plain[4]);
                    assert(w.subrange(j, j + 7)[5] == plain[5]);
                    assert(w.subrange(j, j + 7)[6] == plain[6]);
                }
            }
        }
    }
    replacement_goes_from_the_left(w, plain, "ws://"@, w.len() as int);
    assert(w.take(w.len() as int) + Seq::<char>::empty() =~= w);
    let p = plain + rest;
    assert forall|j: int| 0 <= j < p.len() implies !(#[trigger] occurs_at(p, secure, j)) by {
        if occurs_at(p, secure, j) {
            assert(p.subrange(j, j + 8)[0] == secure[0]);
            assert(p.subrange(j, j + 8)[4] == secure[4]);
            assert(p.subrange(j, j + 8)[5] == secure[5]);
            assert(p.subrange(j, j + 8)[6] == secure[6]);
            assert(p.subrange(j, j + 8)[7] == secure[7]);
            assert(p[j] == 'h' && p[j + 4] == 's');
            assert(j == 0 || j >= 7);
            if j >= 7 {
                assert(rest.subrange(j - 2, j + 1) =~= "://"@);
                assert(occurs_at(rest, "://"@, j - 2));
            }
        }
    }
    replacement_goes_from_the_left(p, secure, "wss://"@, p.len() as int);
    assert(p.take(p.len() as int) + Seq::<char>::empty() =~= p);
    assert(p.subrange(0, 7) =~= plain);
    assert(p.skip(7) =~= rest);
}

proof fn lemma_no_scheme(rest: Seq<char>, scheme: Seq<char>, to: Seq<char>, colon: int)
    requires
        forall|j: int| !(#[trigger] occurs_at(rest, "://"@, j)),
        0 <= colon,
        colon + 3 == scheme.len(),
        scheme[colon] == ':' && scheme[colon + 1] == '/' && scheme[colon + 2] == '/',
    ensures
        replaced(rest, scheme, to) == rest,
{
    reveal_strlit("://");
    assert forall|j: int| 0 <= j < rest.len() implies !(#[trigger] occurs_at(rest, scheme, j)) by {
        if occurs_at(rest, scheme, j) {
            let w = rest.subrange(j, j + scheme.len());
            assert(w[colon] == ':' && w[colon + 1] == '/' && w[colon + 2] == '/');
            assert(rest.subrange(j + colon, j + colon + 3) =~= "://"@);
            assert(occurs_at(rest, "://"@, j + colon));
        }
    }
    replacement_goes_from_the_left(rest, scheme, to, rest.len() as int);
    assert(rest.take(rest.len() as int) + Seq::<char>::empty() =~= rest);
}


/// A client asks at the address of its hub without the separators at its end, with the
/// token and the certificate that it was given.
pub proof fn clients_ask_their_hub(
    base: &str,
    pin: Option<&str>,
    c: HubClient,
    token: String,
    t: HubClient,
    path: &str,
    u: String,
    i: int,
)
    requires
        call_ensures(HubClient::with_pin, (base, pin), c),
        call_ensures(HubClient::with_token, (c, token), t),
        call_ensures(HubClient::url, (&t, path), u),
    ensures
        c.base@.is_prefix_of(base@),
        c.base@.len() <= i < base@.len() ==> base@[i] == '/',
        c.base@.len() > 0 ==> c.base@.last() != '/',
        c.token is None,
        (c.pin is Some) == (pin is Some),
        pin is Some ==> c.pin->0@ == pin->0@,
        t.base == c.base && t.pin == c.pin && t.token == Some(token),
        c.base@.is_prefix_of(u@) && path@.is_suffix_of(u@) && u@.len() == c.base@.len()
            + path@.len(),
{
    crate::text::trimming_takes_the_character_alone(base@, '/');
}

/// The paths at the hub name what they are for, whatever it is: two items, devices, blobs
/// or chunks have different paths.
pub proof fn paths_name_what_they_are_for(
    a: &str,
    b: &str,
    i: u32,
    j: u32,
    ha: String,
    hb: String,
    da: String,
    db: String,
    ci: String,
    cj: String,
    ma: String,
    mb: String,
)
    requires
        call_ensures(history_item_path, (a,), ha),
        call_ensures(history_item_path, (b,), hb),
        call_ensures(device_path, (a,), da),
        call_ensures(device_path, (b,), db),
        call_ensures(chunk_path, (a, i), ci),
        call_ensures(chunk_path, (a, j), cj),
        call_ensures(commit_path, (a,), ma),
        call_ensures(commit_path, (b,), mb),
    ensures
        ha@ == hb@ ==> a@ == b@,
        da@ == db@ ==> a@ == b@,
        ci@ == cj@ ==> i == j,
        ma@ == mb@ ==> a@ == b@,
        "/api/v1/history/"@.is_prefix_of(ha@),
        "/api/v1/devices/"@.is_prefix_of(da@),
        "/api/v1/blobs/"@.is_prefix_of(ci@) && "/api/v1/blobs/"@.is_prefix_of(ma@),
{
    let h = "/api/v1/history/"@;
    let d = "/api/v1/devices/"@;
    let c = "/api/v1/blobs/"@ + a@ + "/chunks/"@;
    let m = "/api/v1/blobs/"@;
    let e = "/commit"@;
    assert(ha@.skip(h.len() as int) =~= a@ && hb@.skip(h.len() as int) =~= b@);
    assert(da@.skip(d.len() as int) =~= a@ && db@.skip(d.len() as int) =~= b@);
    assert(ci@.skip(c.len() as int) =~= decimal(i as nat));
    assert(cj@.skip(c.len() as int) =~= decimal(j as nat));
    assert(ma@.subrange(m.len() as int, ma@.len() - e.len()) =~= a@);
    assert(mb@.subrange(m.len() as int, mb@.len() - e.len()) =~= b@);
    crate::text::integers_read_back(i as int, decimal(i as nat));
    crate::text::integers_read_back(j as int, decimal(j as nat));
}

/// A page of the history is asked for with its length and behind its cursor: pages of
/// different lengths or behind different cursors have different paths.
pub proof fn pages_are_asked_for_by_length(
    limit: u32,
    other: u32,
    cursor: &str,
    cursor2: &str,
    p: String,
    q: String,
    c: String,
    d: String,
)
    requires
        call_ensures(history_path, (None::<&str>, limit), p),
        call_ensures(history_path, (None::<&str>, other), q),
        call_ensures(history_path, (Some(cursor), limit), c),
        call_ensures(history_path, (Some(cursor2), limit), d),
    ensures
        p@ == q@ ==> limit == other,
        c@ == d@ ==> cursor@ == cursor2@,
        cursor@.is_suffix_of(c@) && p@.is_prefix_of(c@),
        "/api/v1/history?limit="@.is_prefix_of(p@),
{
    let h = "/api/v1/history?limit="@;
    assert(p@.skip(h.len() as int) =~= decimal(limit as nat));
    assert(q@.skip(h.len() as int) =~= decimal(other as nat));
    crate::text::integers_read_back(limit as int, decimal(limit as nat));
    crate::text::integers_read_back(other as int, decimal(other as nat));
    let k = h + decimal(limit as nat) + "&cursor="@;
    assert(c@ =~= k + cursor@);
    assert(d@ =~= k + cursor2@);
    assert(c@.skip(k.len() as int) =~= cursor@);
    assert(d@.skip(k.len() as int) =~= cursor2@);
}

/// The hub's answers are good just if their status is from 200 to 299, and of the control
/// connection just texts are messages.
pub proof fn answers_of_the_hub_are_judged(
    status: u16,
    text: &str,
    path: &str,
    e: Result<(), SyncError>,
    j: Result<(), SyncError>,
    frame: ControlFrame,
    c: Result<bool, SyncError>,
)
    requires
        call_ensures(empty_outcome, (status, text), e),
        call_ensures(json_outcome, (status, text, path), j),
        call_ensures(recv_control, (frame,), c),
    ensures
        e is Ok <==> 200 <= status <= 299,
        j is Ok <==> e is Ok,
        c is Err <==> frame is Failed,
        c is Ok ==> (c->Ok_0 <==> frame is Text),
{
}


} // verus!
