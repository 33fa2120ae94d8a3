//! Grants: what a caller may do for now, as far as its permissions go.
//!
//! Times are in milliseconds of a clock that only moves forward.

use vstd::prelude::*;

use crate::content::{ContentId, ContentKind};
use crate::plugin::ids::KernelManifest;
use crate::text::{contains_text, texts};

verus! {

/// How long a grant to read is valid, in milliseconds.
pub const GRANT_TTL_MS: u64 = 60000;

/// The most bytes that a grant to read covers unless more is needed.
pub const READ_LIMIT: u64 = 67108864;

/// The most bytes that a grant covers for a moving picture.
pub const MEDIA_LIMIT: u64 = 2147483648;

/// The right to read one item, up to a size and for a time.
#[derive(Clone, Copy, Debug, PartialEq, Eq, Structural)]
pub struct ContentReadGrant {
    content_id: ContentId,
    max_bytes: u64,
    expires_at_ms: u64,
}

/// What a [`ContentReadGrant`] covers.
pub struct ReadGrantView {
    pub content_id: ContentId,
    pub max_bytes: u64,
    pub expires_at_ms: u64,
}

impl View for ContentReadGrant {
    type V = ReadGrantView;

    closed spec fn view(&self) -> ReadGrantView {
        ReadGrantView {
            content_id: self.content_id,
            max_bytes: self.max_bytes,
            expires_at_ms: self.expires_at_ms,
        }
    }
}

/// The end of a grant that is issued now.
pub open spec fn expiry(now_ms: u64) -> u64 {
    if now_ms + GRANT_TTL_MS > u64::MAX {
        u64::MAX
    } else {
        (now_ms + GRANT_TTL_MS) as u64
    }
}

/// What a grant to read an item covers that is issued now.
pub open spec fn read_grant(id: ContentId, max_bytes: u64, now_ms: u64) -> ReadGrantView {
    ReadGrantView { content_id: id, max_bytes, expires_at_ms: expiry(now_ms) }
}

impl ContentReadGrant {
    fn issue(content_id: ContentId, max_bytes: u64, now_ms: u64) -> (r: ContentReadGrant)
        ensures
            r@ == read_grant(content_id, max_bytes, now_ms),
    {
        ContentReadGrant { content_id, max_bytes, expires_at_ms: now_ms.saturating_add(60000) }
    }

    /// The item that may be read.
    pub fn content_id(&self) -> (r: ContentId)
        ensures
            r == self@.content_id,
    {
        self.content_id
    }

    /// How many bytes may be read.
    pub fn max_bytes(&self) -> (r: u64)
        ensures
            r == self@.max_bytes,
    {
        self.max_bytes
    }

    /// Whether an item may be read at a time.
    pub fn is_valid(&self, id: ContentId, now_ms: u64) -> (r: bool)
        ensures
            r == (self@.content_id == id && now_ms < self@.expires_at_ms),
    {
        self.content_id == id && now_ms < self.expires_at_ms
    }
}

/// The right to change one item.
#[derive(Clone, Copy, Debug, PartialEq, Eq, Structural)]
pub struct ContentCommandGrant {
    content_id: ContentId,
    favorite: bool,
    delete: bool,
}

/// What a [`ContentCommandGrant`] covers.
pub struct CommandGrantView {
    pub content_id: ContentId,
    pub favorite: bool,
    pub delete: bool,
}

impl View for ContentCommandGrant {
    type V = CommandGrantView;

    closed spec fn view(&self) -> CommandGrantView {
        CommandGrantView {
            content_id: self.content_id,
            favorite: self.favorite,
            delete: self.delete,
        }
    }
}

impl ContentCommandGrant {
    /// The item that may be changed.
    pub fn content_id(&self) -> (r: ContentId)
        ensures
            r == self@.content_id,
    {
        self.content_id
    }

    /// Whether it may be made a favorite.
    pub fn favorite(&self) -> (r: bool)
        ensures
            r == self@.favorite,
    {
        self.favorite
    }

    /// Whether it may be removed.
    pub fn delete(&self) -> (r: bool)
        ensures
            r == self@.delete,
    {
        self.delete
    }
}

/// The right to list the history.
#[derive(Clone, Copy, Debug)]
pub struct HistoryQueryGrant {
    private: (),
}

/// The right to write to the place that the user chose.
#[derive(Debug)]
pub struct SelectedPathGrant {
    path: String,
}

impl View for SelectedPathGrant {
    type V = Seq<char>;

    closed spec fn view(&self) -> Seq<char> {
        self.path@
    }
}

impl SelectedPathGrant {
    /// The place that the user chose.
    pub fn path(&self) -> (r: &str)
        ensures
            r@ == self@,
    {
        self.path.as_str()
    }
}

/// The permissions of the program itself.
pub open spec fn host_permissions() -> Seq<Seq<char>> {
    seq![
        "content.read"@,
        "content.favorite"@,
        "content.delete"@,
        "clipboard.write"@,
        "clipboard.read"@,
        "history.query"@,
        "capture.screen"@,
        "filesystem.write.selected"@,
        "credential.account"@,
        "storage.domain"@,
    ]
}

/// An item that a plugin was handed.
#[derive(Clone, Copy, Debug, PartialEq, Eq, Structural)]
pub struct ContentHandle {
    pub id: ContentId,
}

/// The permissions that a plugin declared, as they were bound when it was mounted.
#[derive(Debug)]
pub struct DeclaredPermissions {
    names: Vec<String>,
}

impl View for DeclaredPermissions {
    type V = Seq<Seq<char>>;

    closed spec fn view(&self) -> Seq<Seq<char>> {
        texts(self.names@)
    }
}

impl DeclaredPermissions {
    /// Binds what a plugin declares to the kernel.
    pub fn of_mounted(manifest: KernelManifest) -> (r: DeclaredPermissions)
        ensures
            r@ == texts(manifest.permissions@),
    {
        DeclaredPermissions { names: manifest.permissions }
    }
}

/// Issues grants, as far as the permissions of its holder go.
#[derive(Debug)]
pub struct PermissionBroker {
    permissions: Vec<String>,
    host: bool,
}

/// The most bytes that a grant covers for a kind of item.
pub open spec fn byte_limit(kind: ContentKind) -> u64 {
    match kind {
        ContentKind::Files => u64::MAX,
        ContentKind::Gif => MEDIA_LIMIT,
        ContentKind::Video => MEDIA_LIMIT,
        _ => READ_LIMIT,
    }
}

impl PermissionBroker {
    /// Whether the holder has a permission. The program itself has all.
    pub open spec fn permits(&self, permission: Seq<char>) -> bool {
        self.of_host() || self.declared().contains(permission)
    }

    /// Whether the holder is the program itself.
    pub closed spec fn of_host(&self) -> bool {
        self.host
    }

    /// The permissions that the holder declared.
    pub closed spec fn declared(&self) -> Seq<Seq<char>> {
        texts(self.permissions@)
    }

    /// The broker of the program itself.
    pub fn host() -> (r: PermissionBroker)
        ensures
            r.of_host(),
            r.declared() == host_permissions(),
    {
        let mut permissions: Vec<String> = Vec::new();
        permissions.push("content.read".to_owned());
        permissions.push("content.favorite".to_owned());
        permissions.push("content.delete".to_owned());
        permissions.push("clipboard.write".to_owned());
        permissions.push("clipboard.read".to_owned());
        permissions.push("history.query".to_owned());
        permissions.push("capture.screen".to_owned());
        permissions.push("filesystem.write.selected".to_owned());
        permissions.push("credential.account".to_owned());
        permissions.push("storage.domain".to_owned());
        assert(texts(permissions@) =~= host_permissions());
        PermissionBroker { permissions, host: true }
    }

    /// The broker of a plugin, with the permissions that it declared when it was
    /// mounted.
    pub fn for_declared(permissions: DeclaredPermissions) -> (r: PermissionBroker)
        ensures
            !r.of_host(),
            r.declared() == permissions@,
    {
        PermissionBroker { permissions: permissions.names, host: false }
    }

    /// The broker of a plugin with some permissions.
    pub fn for_plugin(permissions: &[&str]) -> (r: PermissionBroker)
        ensures
            !r.of_host(),
            r.declared() == permissions@.map_values(|s: &str| s@),
    {
        let mut out: Vec<String> = Vec::new();
        let mut i: usize = 0;
        let ghost goal = permissions@.map_values(|s: &str| s@);
        assert(texts(out@) =~= goal.take(0));
        while i < permissions.len()
            invariant
                i <= permissions@.len(),
                goal == permissions@.map_values(|s: &str| s@),
                texts(out@) == goal.take(i as int),
            decreases permissions@.len() - i,
        {
            let ghost before = texts(out@);
            out.push(permissions[i].to_owned());
            assert(texts(out@) =~= before.push(permissions@[i as int]@));
            assert(goal.take(i + 1) =~= goal.take(i as int).push(goal[i as int]));
            i += 1;
        }
        assert(goal.take(i as int) =~= goal);
        PermissionBroker { permissions: out, host: false }
    }

    /// Whether this is the broker of the program itself.
    pub fn is_host(&self) -> (r: bool)
        ensures
            r == self.of_host(),
    {
        self.host
    }

    /// Whether the holder has a permission.
    pub fn allows(&self, permission: &str) -> (r: bool)
        ensures
            r == self.permits(permission@),
    {
        self.host || contains_text(self.permissions.as_slice(), permission)
    }

    /// The most bytes that a grant covers for a kind of item.
    pub fn max_bytes_for(kind: ContentKind) -> (r: u64)
        ensures
            r == byte_limit(kind),
    {
        match kind {
            ContentKind::Files => u64::MAX,
            ContentKind::Gif => MEDIA_LIMIT,
            ContentKind::Video => MEDIA_LIMIT,
            _ => READ_LIMIT,
        }
    }

    /// The right to read an item.
    pub fn grant_read(&self, id: ContentId, now_ms: u64) -> (r: Option<ContentReadGrant>)
        ensures
            match r {
                Some(g) => (self.permits("content.read"@)) && g@ == read_grant(id, READ_LIMIT, now_ms),
                None => !(self.permits("content.read"@)),
            },
    {
        if self.allows("content.read") {
            Some(ContentReadGrant::issue(id, READ_LIMIT, now_ms))
        } else {
            None
        }
    }

    /// The right to read the item that a plugin was handed.
    pub fn grant_read_handle(&self, handle: ContentHandle, now_ms: u64) -> (r: Option<
        ContentReadGrant,
    >)
        ensures
            match r {
                Some(g) => (self.permits("content.read"@)) && g@ == read_grant(handle.id, READ_LIMIT, now_ms),
                None => !(self.permits("content.read"@)),
            },
    {
        self.grant_read(handle.id, now_ms)
    }

    /// The right to list the history.
    pub fn grant_history(&self) -> (r: Option<HistoryQueryGrant>)
        ensures
            (r is Some) == self.permits("history.query"@),
    {
        if self.allows("history.query") {
            Some(HistoryQueryGrant { private: () })
        } else {
            None
        }
    }

    /// The right to read an item in order to copy it.
    pub fn grant_copy(&self, id: ContentId, kind: ContentKind, now_ms: u64) -> (r: Option<
        ContentReadGrant,
    >)
        ensures
            match r {
                Some(g) => (self.permits("clipboard.write"@) || self.permits("content.read"@)) && g@ == read_grant(id, byte_limit(kind), now_ms),
                None => !(self.permits("clipboard.write"@) || self.permits("content.read"@)),
            },
    {
        if !self.allows("clipboard.write") && !self.allows("content.read") {
            return None;
        }
        Some(ContentReadGrant::issue(id, PermissionBroker::max_bytes_for(kind), now_ms))
    }

    /// The right to read an item in order to save it.
    pub fn grant_save(&self, id: ContentId, kind: ContentKind, now_ms: u64) -> (r: Option<
        ContentReadGrant,
    >)
        ensures
            match r {
                Some(g) => (self.permits("content.read"@) && self.permits("filesystem.write.selected"@)) && g@ == read_grant(id, byte_limit(kind), now_ms),
                None => !(self.permits("content.read"@) && self.permits("filesystem.write.selected"@)),
            },
    {
        if !self.allows("content.read") || !self.allows("filesystem.write.selected") {
            return None;
        }
        Some(ContentReadGrant::issue(id, PermissionBroker::max_bytes_for(kind), now_ms))
    }

    /// The right to read an item of any size, which the program alone has.
    pub fn grant_host_transfer(&self, id: ContentId, now_ms: u64) -> (r: Option<ContentReadGrant>)
        ensures
            match r {
                Some(g) => self.of_host() && g@ == read_grant(id, u64::MAX, now_ms),
                None => !self.of_host(),
            },
    {
        if self.host {
            Some(ContentReadGrant::issue(id, u64::MAX, now_ms))
        } else {
            None
        }
    }

    /// The right to write to the place that the user chose.
    pub fn grant_write_selected(&self, path: String) -> (r: Option<SelectedPathGrant>)
        ensures
            match r {
                Some(g) => self.permits("filesystem.write.selected"@) && g@ == path@,
                None => !self.permits("filesystem.write.selected"@),
            },
    {
        if self.allows("filesystem.write.selected") {
            Some(SelectedPathGrant { path })
        } else {
            None
        }
    }

    /// The right to change an item. Each change asked for needs its permission,
    /// and some change must be asked for.
    pub fn grant_command(&self, id: ContentId, favorite: bool, delete: bool) -> (r: Option<
        ContentCommandGrant,
    >)
        ensures
            (r is Some) == ((favorite || delete) && (favorite ==> self.permits(
                "content.favorite"@,
            )) && (delete ==> self.permits("content.delete"@))),
            r matches Some(g) ==> g@ == (CommandGrantView { content_id: id, favorite, delete }),
    {
        if favorite && !self.allows("content.favorite") {
            return None;
        }
        if delete && !self.allows("content.delete") {
            return None;
        }
        if !favorite && !delete {
            return None;
        }
        Some(ContentCommandGrant { content_id: id, favorite, delete })
    }
}

/// A grant to read, `g`, is good for its item alone and for a minute from when it was
/// issued; it covers 64 MiB, or, for copying and saving, two gibibytes of moving pictures
/// and files of any size.
pub proof fn grants_hold_for_a_minute(
    broker: PermissionBroker,
    id: ContentId,
    kind: ContentKind,
    now_ms: u64,
    read: Option<ContentReadGrant>,
    copy: Option<ContentReadGrant>,
    save: Option<ContentReadGrant>,
    whole: Option<ContentReadGrant>,
    other: ContentId,
    at_ms: u64,
    g: ContentReadGrant,
    valid: bool,
    covers: u64,
)
    requires
        call_ensures(PermissionBroker::grant_read, (&broker, id, now_ms), read),
        call_ensures(PermissionBroker::grant_copy, (&broker, id, kind, now_ms), copy),
        call_ensures(PermissionBroker::grant_save, (&broker, id, kind, now_ms), save),
        call_ensures(PermissionBroker::grant_host_transfer, (&broker, id, now_ms), whole),
        read == Some(g) || copy == Some(g) || save == Some(g) || whole == Some(g),
        call_ensures(ContentReadGrant::is_valid, (&g, other, at_ms), valid),
        call_ensures(ContentReadGrant::max_bytes, (&g,), covers),
    ensures
        now_ms + 60_000 <= u64::MAX ==> (valid <==> other == id && at_ms < now_ms + 60_000),
        now_ms + 60_000 > u64::MAX ==> (valid <==> other == id && at_ms < u64::MAX),
        covers >= 64 * 1024 * 1024,
        read == Some(g) ==> covers == 64 * 1024 * 1024,
        whole == Some(g) ==> covers == u64::MAX,
        copy == Some(g) || save == Some(g) ==> {
            &&& kind == ContentKind::Files ==> covers == u64::MAX
            &&& kind == ContentKind::Gif || kind == ContentKind::Video ==> covers == 2 * 1024 * 1024
                * 1024
            &&& kind != ContentKind::Files && kind != ContentKind::Gif && kind != ContentKind::Video
                ==> covers == 64 * 1024 * 1024
        },
{
}

/// The program itself is granted whatever it asks for.
pub proof fn the_program_is_granted_everything(
    broker: PermissionBroker,
    permission: &str,
    allowed: bool,
    id: ContentId,
    kind: ContentKind,
    now_ms: u64,
    read: Option<ContentReadGrant>,
    copy: Option<ContentReadGrant>,
    save: Option<ContentReadGrant>,
    whole: Option<ContentReadGrant>,
    history: Option<HistoryQueryGrant>,
    path: String,
    write: Option<SelectedPathGrant>,
    favorite: bool,
    delete: bool,
    command: Option<ContentCommandGrant>,
)
    requires
        call_ensures(PermissionBroker::host, (), broker),
        call_ensures(PermissionBroker::allows, (&broker, permission), allowed),
        call_ensures(PermissionBroker::grant_read, (&broker, id, now_ms), read),
        call_ensures(PermissionBroker::grant_copy, (&broker, id, kind, now_ms), copy),
        call_ensures(PermissionBroker::grant_save, (&broker, id, kind, now_ms), save),
        call_ensures(PermissionBroker::grant_host_transfer, (&broker, id, now_ms), whole),
        call_ensures(PermissionBroker::grant_history, (&broker,), history),
        call_ensures(PermissionBroker::grant_write_selected, (&broker, path), write),
        call_ensures(PermissionBroker::grant_command, (&broker, id, favorite, delete), command),
    ensures
        allowed,
        read is Some && copy is Some && save is Some && whole is Some && history is Some,
        write is Some && write->0@ == path@,
        command is Some <==> favorite || delete,
        command is Some ==> command->0@.content_id == id && command->0@.favorite == favorite
            && command->0@.delete == delete,
        broker.declared().len() == 10,
{
}

/// A plugin is granted what it has the permissions for, and nothing else: it never reads
/// items of any size.
pub proof fn plugins_are_granted_what_they_declared(
    permissions: &[&str],
    broker: PermissionBroker,
    permission: &str,
    allowed: bool,
    id: ContentId,
    kind: ContentKind,
    now_ms: u64,
    read: Option<ContentReadGrant>,
    copy: Option<ContentReadGrant>,
    save: Option<ContentReadGrant>,
    whole: Option<ContentReadGrant>,
    history: Option<HistoryQueryGrant>,
    path: String,
    write: Option<SelectedPathGrant>,
    favorite: bool,
    delete: bool,
    command: Option<ContentCommandGrant>,
)
    requires
        call_ensures(PermissionBroker::for_plugin, (permissions,), broker),
        call_ensures(PermissionBroker::allows, (&broker, permission), allowed),
        call_ensures(PermissionBroker::grant_read, (&broker, id, now_ms), read),
        call_ensures(PermissionBroker::grant_copy, (&broker, id, kind, now_ms), copy),
        call_ensures(PermissionBroker::grant_save, (&broker, id, kind, now_ms), save),
        call_ensures(PermissionBroker::grant_host_transfer, (&broker, id, now_ms), whole),
        call_ensures(PermissionBroker::grant_history, (&broker,), history),
        call_ensures(PermissionBroker::grant_write_selected, (&broker, path), write),
        call_ensures(PermissionBroker::grant_command, (&broker, id, favorite, delete), command),
    ensures
        ({
            let has = |p: Seq<char>|
                exists|i: int| 0 <= i < permissions@.len() && (#[trigger] permissions@[i])@ == p;
            &&& allowed <==> has(permission@)
            &&& read is Some <==> has("content.read"@)
            &&& copy is Some <==> has("content.read"@) || has("clipboard.write"@)
            &&& save is Some <==> has("content.read"@) && has("filesystem.write.selected"@)
            &&& whole is None
            &&& history is Some <==> has("history.query"@)
            &&& write is Some <==> has("filesystem.write.selected"@)
            &&& command is Some <==> (favorite || delete) && (favorite ==> has(
                "content.favorite"@,
            )) && (delete ==> has("content.delete"@))
        }),
{
    lemma_declared(permissions@, broker.declared(), permission@);
    lemma_declared(permissions@, broker.declared(), "content.read"@);
    lemma_declared(permissions@, broker.declared(), "clipboard.write"@);
    lemma_declared(permissions@, broker.declared(), "filesystem.write.selected"@);
    lemma_declared(permissions@, broker.declared(), "history.query"@);
    lemma_declared(permissions@, broker.declared(), "content.favorite"@);
    lemma_declared(permissions@, broker.declared(), "content.delete"@);
}

proof fn lemma_declared(permissions: Seq<&str>, names: Seq<Seq<char>>, p: Seq<char>)
    requires
        names == permissions.map_values(|s: &str| s@),
    ensures
        names.contains(p) <==> exists|i: int|
            0 <= i < permissions.len() && (#[trigger] permissions[i])@ == p,
{
    if names.contains(p) {
        let i = choose|i: int| 0 <= i < names.len() && names[i] == p;
        assert(permissions[i]@ == p);
    }
    if exists|i: int| 0 <= i < permissions.len() && (#[trigger] permissions[i])@ == p {
        let i = choose|i: int| 0 <= i < permissions.len() && (#[trigger] permissions[i])@ == p;
        assert(names[i] == p);
    }
}

/// What a mounted plugin declares is what it is granted by.
pub proof fn declarations_are_bound(
    manifest: KernelManifest,
    declared: DeclaredPermissions,
    broker: PermissionBroker,
    host: bool,
    permission: &str,
    allowed: bool,
)
    requires
        call_ensures(DeclaredPermissions::of_mounted, (manifest,), declared),
        call_ensures(PermissionBroker::for_declared, (declared,), broker),
        call_ensures(PermissionBroker::is_host, (&broker,), host),
        call_ensures(PermissionBroker::allows, (&broker, permission), allowed),
    ensures
        !host,
        allowed <==> exists|i: int|
            0 <= i < manifest.permissions@.len() && (#[trigger] manifest.permissions@[i])@
                == permission@,
{
    let names = broker.declared();
    if allowed {
        let i = choose|i: int| 0 <= i < names.len() && names[i] == permission@;
        assert(manifest.permissions@[i]@ == permission@);
    }
    if exists|i: int|
        0 <= i < manifest.permissions@.len() && (#[trigger] manifest.permissions@[i])@
            == permission@ {
        let i = choose|i: int|
            0 <= i < manifest.permissions@.len() && (#[trigger] manifest.permissions@[i])@
                == permission@;
        assert(names[i] == permission@);
    }
}


/// What a grant covers can be asked of it, and a handle is granted like its item.
pub proof fn grants_tell_what_they_cover(
    broker: PermissionBroker,
    handle: ContentHandle,
    now_ms: u64,
    r: Option<ContentReadGrant>,
    direct: Option<ContentReadGrant>,
    kind: ContentKind,
    most: u64,
    g: ContentCommandGrant,
    favorite: bool,
    delete: bool,
    command: Option<ContentCommandGrant>,
)
    requires
        call_ensures(PermissionBroker::grant_read_handle, (&broker, handle, now_ms), r),
        call_ensures(PermissionBroker::grant_read, (&broker, handle.id, now_ms), direct),
        call_ensures(PermissionBroker::max_bytes_for, (kind,), most),
        call_ensures(ContentCommandGrant::favorite, (&g,), favorite),
        call_ensures(ContentCommandGrant::delete, (&g,), delete),
        call_ensures(
            PermissionBroker::grant_command,
            (&broker, handle.id, favorite, delete),
            command,
        ),
    ensures
        (r is Some) == (direct is Some),
        r is Some ==> r->0@ == direct->0@,
        kind == ContentKind::Files <==> most == u64::MAX,
        kind == ContentKind::Gif || kind == ContentKind::Video <==> most == 2 * 1024 * 1024 * 1024,
        kind == ContentKind::Text ==> most == 64 * 1024 * 1024,
        favorite == g@.favorite && delete == g@.delete,
        command is Some ==> command->0@.favorite == g@.favorite && command->0@.delete == g@.delete,
{
}


} // verus!
