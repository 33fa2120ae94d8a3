//! What the window asks for and what it is shown.

use vstd::prelude::*;

use crate::content::{ContentId, ContentItem, ContentKind};
use crate::desktop::settings::SyncSettings;
use crate::platform::hardening::Platform;
use crate::platform::identity::LocalIdentity;
use crate::plugin::ids::{action_name, ActionKey};
use crate::storage::repo::HistoryQuery;
use crate::sync::hub_client::HubClient;
use crate::text::{
    chars_of, copy_text, find, find_from, parse_i64, signed_value, string_of_range, text_of,
    trim_end_char,
};

verus! {

/// How many items the window lists unless it asks for another number.
pub const DEFAULT_LIST_LIMIT: u32 = 80;

/// Why the window's wish was not met.
#[derive(Debug)]
pub enum CmdError {
    Any(String),
}

impl CmdError {
    /// The message shown.
    pub open spec fn text(&self) -> Seq<char> {
        match *self {
            CmdError::Any(s) => s@,
        }
    }

    /// The message shown.
    pub fn message(&self) -> (r: &str)
        ensures
            r@ == self.text(),
    {
        match self {
            CmdError::Any(s) => s.as_str(),
        }
    }
}

fn refuse(text: &str) -> (r: CmdError)
    ensures
        r.text() == text@,
{
    CmdError::Any(text.to_owned())
}

/// The cursor that a text holds: a time and the text of an identity, with a colon
/// between them.
pub open spec fn cursor_of(raw: Seq<char>) -> Option<(int, Seq<char>)> {
    match find_from(raw, seq![':'], 0) {
        None => None,
        Some(i) => match signed_value(raw.take(i)) {
            Some(ms) => if i64::MIN <= ms <= i64::MAX {
                Some((ms, raw.skip(i + 1)))
            } else {
                None
            },
            None => None,
        },
    }
}

/// The cursor that a text holds.
pub fn parse_cursor(raw: &str) -> (r: Result<(i64, String), CmdError>)
    ensures
        match cursor_of(raw@) {
            Some((ms, id)) => r matches Ok((t, s)) && t == ms && s@ == id,
            None => r matches Err(e) && e.text() == "invalid history cursor"@,
        },
{
    let cs = chars_of(raw);
    let colon: Vec<char> = vec![':'];
    assert(colon@ =~= seq![':']);
    match find(cs.as_slice(), colon.as_slice(), 0) {
        None => Err(refuse("invalid history cursor")),
        Some(i) => {
            let head = string_of_range(cs.as_slice(), 0, i);
            let tail = string_of_range(cs.as_slice(), i + 1, cs.len());
            assert(head@ =~= raw@.take(i as int));
            assert(tail@ =~= raw@.skip(i + 1));
            match parse_i64(head.as_str()) {
                Some(ms) => Ok((ms, tail)),
                None => Err(refuse("invalid history cursor")),
            }
        },
    }
}

/// The query that a wish of the window stands for. `cursor` is the time and the
/// identity from which the listing goes on, or that the identity could not be
/// read.
pub fn list_history(
    kind: Option<ContentKind>,
    favorite_only: bool,
    query: Option<String>,
    limit: Option<u32>,
    cursor: Option<(i64, Option<ContentId>)>,
    granted: bool,
) -> (r: Result<HistoryQuery, CmdError>)
    ensures
        if (cursor matches Some(c) && c.1 is None) {
            r matches Err(e) && e.text() == "invalid history cursor"@
        } else if !granted {
            r matches Err(e) && e.text() == "history query grant denied"@
        } else {
            r == Ok::<HistoryQuery, CmdError>(
                (HistoryQuery {
                    kind,
                    favorite_only,
                    query,
                    limit: match limit {
                        Some(n) => n,
                        None => DEFAULT_LIST_LIMIT,
                    },
                    before_ms: match cursor {
                        Some(c) => Some(c.0),
                        None => None,
                    },
                    before_id: match cursor {
                        Some(c) => c.1,
                        None => None,
                    },
                }),
            )
        },
{
    let (before_ms, before_id): (Option<i64>, Option<ContentId>) = match cursor {
        Some((ms, Some(id))) => (Some(ms), Some(id)),
        Some((_, None)) => return Err(refuse("invalid history cursor")),
        None => (None, None),
    };
    if !granted {
        return Err(refuse("history query grant denied"));
    }
    Ok(
        HistoryQuery {
            kind,
            favorite_only,
            query,
            limit: match limit {
                Some(n) => n,
                None => DEFAULT_LIST_LIMIT,
            },
            before_ms,
            before_id,
        },
    )
}

/// An item as it is shown.
#[derive(Debug)]
pub struct HistoryItemDto {
    pub id: String,
    pub kind: String,
    pub created_at_ms: i64,
    pub preview: Option<String>,
    pub favorite: bool,
    pub source_app: Option<String>,
    pub logical_size: u64,
    pub image_width: Option<u32>,
    pub image_height: Option<u32>,
    pub file_count: Option<u64>,
}

/// An item as it is shown, with the texts of its identity and kind.
pub fn to_dto(item: &ContentItem, id: String, kind: String) -> (r: HistoryItemDto)
    ensures
        r.id == id,
        r.kind == kind,
        r.created_at_ms == item.created_at_ms,
        text_of(r.preview) == text_of(item.metadata.text_preview),
        r.favorite == item.flags.favorite,
        text_of(r.source_app) == text_of(item.metadata.source_app),
        r.logical_size == item.logical_size,
        r.image_width == (match item.metadata.image {
            Some(i) => Some(i.width),
            None => None,
        }),
        r.image_height == (match item.metadata.image {
            Some(i) => Some(i.height),
            None => None,
        }),
        r.file_count == (match item.metadata.files {
            Some(f) => Some(f.file_count),
            None => None,
        }),
{
    HistoryItemDto {
        id,
        kind,
        created_at_ms: item.created_at_ms,
        preview: copy_text(&item.metadata.text_preview),
        favorite: item.flags.favorite,
        source_app: copy_text(&item.metadata.source_app),
        logical_size: item.logical_size,
        image_width: match &item.metadata.image {
            Some(i) => Some(i.width),
            None => None,
        },
        image_height: match &item.metadata.image {
            Some(i) => Some(i.height),
            None => None,
        },
        file_count: match &item.metadata.files {
            Some(f) => Some(f.file_count),
            None => None,
        },
    }
}

/// This device as it is shown.
#[derive(Debug)]
pub struct IdentityDto {
    pub device_id: String,
    pub account_id: String,
    pub device_name: String,
}

/// Whether the screen may be captured, as it is shown.
#[derive(Debug)]
pub struct CapturePermissionDto {
    pub granted: bool,
    pub process_name: String,
    pub bundle_id: String,
    pub settings_available: bool,
    pub restart_recommended_after_grant: bool,
}

/// Whether the screen may be captured: a Mac is asked, elsewhere it always may.
pub fn capture_permission_status(
    platform: Platform,
    mac_granted: bool,
    exe_name: Option<String>,
) -> (r: CapturePermissionDto)
    ensures
        r.granted == (platform != Platform::MacOs || mac_granted),
        r.process_name@ == (match exe_name {
            Some(n) => n@,
            None => "Asterism"@,
        }),
        r.bundle_id@ == "dev.asterism.desktop"@,
        r.settings_available == (platform == Platform::MacOs),
        r.restart_recommended_after_grant == (platform == Platform::MacOs),
{
    let mac = platform == Platform::MacOs;
    CapturePermissionDto {
        granted: !mac || mac_granted,
        process_name: match exe_name {
            Some(n) => n,
            None => "Asterism".to_owned(),
        },
        bundle_id: "dev.asterism.desktop".to_owned(),
        settings_available: mac,
        restart_recommended_after_grant: mac,
    }
}

/// An action as it is shown.
#[derive(Debug)]
pub struct ActionDescriptorDto {
    pub id: String,
    pub title: String,
}

/// The actions as they are shown, by their keys and titles, in order.
pub fn list_actions(actions: &[(ActionKey, &str)]) -> (r: Vec<ActionDescriptorDto>)
    ensures
        r@.len() == actions@.len(),
        forall|i: int|
            0 <= i < r@.len() ==> (#[trigger] r@[i]).id@ == action_name(actions@[i].0)
                && r@[i].title@ == actions@[i].1@,
{
    let mut out: Vec<ActionDescriptorDto> = Vec::new();
    let mut i: usize = 0;
    while i < actions.len()
        invariant
            i <= actions@.len(),
            out@.len() == i,
            forall|j: int|
                0 <= j < out@.len() ==> (#[trigger] out@[j]).id@ == action_name(actions@[j].0)
                    && out@[j].title@ == actions@[j].1@,
        decreases actions@.len() - i,
    {
        let (key, title) = actions[i];
        out.push(
            ActionDescriptorDto { id: key.as_str().to_owned(), title: title.to_owned() },
        );
        i += 1;
    }
    out
}

/// This device as it is shown, with the texts of its identities.
pub fn get_identity(identity: &LocalIdentity, device_id: String, account_id: String) -> (r: IdentityDto)
    ensures
        r.device_id == device_id,
        r.account_id == account_id,
        r.device_name@ == identity.device_name@,
{
    IdentityDto { device_id, account_id, device_name: identity.device_name.clone() }
}

/// What publishing the account's key to a new device needs, or why it cannot be
/// done: a client for the hub that is set, with the token and the certificate that
/// are noted, and the salt of a code that was made before.
pub fn publish_pairing_avk(settings: &SyncSettings) -> (r: Result<(HubClient, String), CmdError>)
    ensures
        match (settings.hub_url, settings.token, settings.pending_pair_salt) {
            (None, _, _) => r matches Err(e) && e.text() == "no hub"@,
            (Some(_), None, _) => r matches Err(e) && e.text() == "no token"@,
            (Some(_), Some(_), None) => r matches Err(e) && e.text()
                == "generate a pairing code first"@,
            (Some(u), Some(t), Some(s)) => {
                &&& r matches Ok((client, salt))
                &&& client.base@ == trim_end_char(u@, '/')
                &&& (client.token matches Some(ct) && ct@ == t@)
                &&& text_of(client.pin) == text_of(settings.hub_cert_sha256)
                &&& salt@ == s@
            },
        },
{
    let url = match &settings.hub_url {
        Some(u) => u,
        None => return Err(refuse("no hub")),
    };
    let token = match &settings.token {
        Some(t) => t,
        None => return Err(refuse("no token")),
    };
    let salt = match &settings.pending_pair_salt {
        Some(s) => s,
        None => return Err(refuse("generate a pairing code first")),
    };
    let pin = match &settings.hub_cert_sha256 {
        Some(p) => Some(p.as_str()),
        None => None,
    };
    Ok((HubClient::with_pin(url.as_str(), pin).with_token(token.clone()), salt.clone()))
}

/// Whether the devices at the hub can be asked for: this device must have a
/// token.
pub fn hub_devices(settings: &SyncSettings) -> (r: Result<(), CmdError>)
    ensures
        match settings.token {
            Some(_) => r is Ok,
            None => r matches Err(e) && e.text() == "no token"@,
        },
{
    if settings.token.is_none() {
        Err(refuse("no token"))
    } else {
        Ok(())
    }
}

/// A position in a history that was written down, `raw`, is read as what it was: the time
/// and the identity, each as it stood.
pub proof fn cursors_read_back(
    dto: crate::sync::hub_client::HistoryDto,
    raw: String,
    text: &str,
    r: Result<(i64, String), CmdError>,
)
    requires
        call_ensures(crate::desktop::transfer::cursor_after, (&dto,), raw),
        text@ == raw@,
        call_ensures(parse_cursor, (text,), r),
    ensures
        r is Ok,
        r->Ok_0.0 == dto.created_at_ms,
        r->Ok_0.1@ == dto.id@,
{
    let n = dto.created_at_ms as int;
    let head = crate::text::decimal_int(n);
    reveal_strlit(":");
    assert(":"@ =~= seq![':']);
    crate::text::integers_read_back(n, head);
    crate::text::search_finds_the_first(raw@, seq![':'], 0);
    assert(raw@.subrange(head.len() as int, head.len() as int + 1) =~= seq![':']);
    let i = find_from(raw@, seq![':'], 0)->0;
    assert(raw@.subrange(i, i + 1)[0] == ':');
    assert(raw@[i] == ':');
    if i < head.len() {
        assert(head[i] == ':');
    }
    assert(raw@.take(i) =~= head);
    assert(raw@.skip(i + 1) =~= dto.id@);
}

/// A cursor is read just if it has a colon with a number before the first one, and what
/// stands behind that colon is kept as it is.
pub proof fn cursors_have_a_colon(raw: &str, r: Result<(i64, String), CmdError>, i: int)
    requires
        call_ensures(parse_cursor, (raw,), r),
        0 <= i < raw@.len(),
        raw@[i] == ':',
        forall|j: int| 0 <= j < i ==> #[trigger] raw@[j] != ':',
    ensures
        r is Ok <==> signed_value(raw@.take(i)) is Some && i64::MIN <= signed_value(raw@.take(i))->0
            <= i64::MAX,
        r is Ok ==> r->Ok_0.1@ == raw@.skip(i + 1) && r->Ok_0.0 == signed_value(raw@.take(i))->0,
{
    crate::text::search_finds_the_first(raw@, seq![':'], 0);
    assert(raw@.subrange(i, i + 1) =~= seq![':']);
    let k = find_from(raw@, seq![':'], 0)->0;
    assert(raw@.subrange(k, k + 1)[0] == ':');
    assert(raw@[k] == ':');
}

/// A wish for a part of the history becomes the query that it describes: every condition
/// is passed on, the length is the one that was asked for, or eighty, and the listing
/// goes on from the cursor. It is refused just if it is not granted or its cursor cannot
/// be read.
pub proof fn wishes_become_queries(
    kind: Option<ContentKind>,
    favorite_only: bool,
    query: Option<String>,
    limit: Option<u32>,
    cursor: Option<(i64, Option<ContentId>)>,
    granted: bool,
    r: Result<HistoryQuery, CmdError>,
)
    requires
        call_ensures(list_history, (kind, favorite_only, query, limit, cursor, granted), r),
    ensures
        r is Ok <==> granted && (cursor is None || (cursor->0).1 is Some),
        r is Ok ==> {
            let q = r->Ok_0;
            &&& q.kind == kind
            &&& q.favorite_only == favorite_only
            &&& q.query == query
            &&& limit is Some ==> q.limit == limit->0
            &&& limit is None ==> q.limit == 80
            &&& cursor is None ==> q.before_ms is None && q.before_id is None
            &&& cursor is Some ==> q.before_ms == Some((cursor->0).0) && q.before_id == (cursor->0).1
        },
{
}

/// An item is shown with its own time, text, marks and sizes.
pub proof fn items_are_shown_as_they_are(
    item: ContentItem,
    id: String,
    kind: String,
    r: HistoryItemDto,
)
    requires
        call_ensures(to_dto, (&item, id, kind), r),
    ensures
        r.id == id && r.kind == kind,
        r.created_at_ms == item.created_at_ms && r.logical_size == item.logical_size,
        r.favorite <==> item.flags.favorite,
        (r.preview is Some) == (item.metadata.text_preview is Some),
        r.preview is Some ==> r.preview->0@ == item.metadata.text_preview->0@,
        (r.source_app is Some) == (item.metadata.source_app is Some),
        r.source_app is Some ==> r.source_app->0@ == item.metadata.source_app->0@,
        (r.image_width is Some) == (item.metadata.image is Some),
        (r.image_height is Some) == (item.metadata.image is Some),
        item.metadata.image matches Some(i) ==> r.image_width == Some(i.width) && r.image_height
            == Some(i.height),
        (r.file_count is Some) == (item.metadata.files is Some),
        item.metadata.files matches Some(f) ==> r.file_count == Some(f.file_count),
{
}

/// Only a Mac can refuse captures, and only there are there settings for it.
pub proof fn only_a_mac_refuses_captures(
    platform: Platform,
    mac_granted: bool,
    exe_name: Option<String>,
    r: CapturePermissionDto,
)
    requires
        call_ensures(capture_permission_status, (platform, mac_granted, exe_name), r),
    ensures
        !r.granted <==> platform == Platform::MacOs && !mac_granted,
        r.settings_available <==> platform == Platform::MacOs,
        r.restart_recommended_after_grant <==> r.settings_available,
        exe_name is Some ==> r.process_name@ == exe_name->0@,
        exe_name is None ==> r.process_name@ == "Asterism"@,
        r.bundle_id@ == "dev.asterism.desktop"@,
{
}

/// Every action is shown, in order and with its title.
pub proof fn all_actions_are_shown(
    actions: &[(ActionKey, &str)],
    r: Vec<ActionDescriptorDto>,
    i: int,
)
    requires
        call_ensures(list_actions, (actions,), r),
    ensures
        r@.len() == actions@.len(),
        0 <= i < actions@.len() ==> r@[i].title@ == actions@[i].1@ && r@[i].id@ == action_name(
            actions@[i].0,
        ),
{
}

/// This device is shown by its own name.
pub proof fn this_device_is_shown(
    identity: LocalIdentity,
    device_id: String,
    account_id: String,
    r: IdentityDto,
)
    requires
        call_ensures(get_identity, (&identity, device_id, account_id), r),
    ensures
        r.device_id == device_id,
        r.account_id == account_id,
        r.device_name@ == identity.device_name@,
{
}

/// The account's key is published just if hub, token and code are there, and with just
/// these; the devices at the hub are asked for just with a token.
pub proof fn hub_commands_need_their_settings(
    settings: SyncSettings,
    r: Result<(HubClient, String), CmdError>,
    d: Result<(), CmdError>,
)
    requires
        call_ensures(publish_pairing_avk, (&settings,), r),
        call_ensures(hub_devices, (&settings,), d),
    ensures
        r is Ok <==> settings.hub_url is Some && settings.token is Some
            && settings.pending_pair_salt is Some,
        r is Ok ==> {
            &&& r->Ok_0.1@ == settings.pending_pair_salt->0@
            &&& r->Ok_0.0.token is Some && r->Ok_0.0.token->0@ == settings.token->0@
            &&& (r->Ok_0.0.pin is Some) == (settings.hub_cert_sha256 is Some)
            &&& r->Ok_0.0.pin is Some ==> r->Ok_0.0.pin->0@ == settings.hub_cert_sha256->0@
            &&& r->Ok_0.0.base@.is_prefix_of(settings.hub_url->0@)
        },
        d is Ok <==> settings.token is Some,
{
    if r is Ok {
        crate::text::trimming_takes_the_character_alone(settings.hub_url->0@, '/');
    }
}


} // verus!
