//! The actions on items.

use vstd::prelude::*;

use crate::content::{ContentItem, PayloadRef};
use crate::path::joined_path;
use crate::platform::paths::AppPaths;
use crate::plugin::action::ActionError;
use crate::plugin::grant::{
    byte_limit, read_grant, CommandGrantView, ContentCommandGrant, ContentReadGrant,
    PermissionBroker,
};

verus! {

/// The grant under which an item is copied: none if items of its kind cannot be
/// copied or the plugin may not.
pub fn copy_action(item: &ContentItem, supported: bool, broker: &PermissionBroker, now_ms: u64) -> (r:
    Result<ContentReadGrant, ActionError>)
    ensures
        if supported && (broker.permits("clipboard.write"@) || broker.permits("content.read"@)) {
            r matches Ok(g) && g@ == read_grant(item.id, byte_limit(item.kind), now_ms)
        } else {
            r matches Err(ActionError::Unsupported)
        },
{
    if !supported {
        return Err(ActionError::Unsupported);
    }
    match broker.grant_copy(item.id, item.kind, now_ms) {
        Some(g) => Ok(g),
        None => Err(ActionError::Unsupported),
    }
}

/// The grant under which an item is made a favorite or not, and which of the
/// two: the other of what it is.
pub fn favorite_action(item: &ContentItem, broker: &PermissionBroker) -> (r: Result<
    (ContentCommandGrant, bool),
    ActionError,
>)
    ensures
        if broker.permits("content.favorite"@) {
            r matches Ok((g, next)) && g@ == (CommandGrantView {
                content_id: item.id,
                favorite: true,
                delete: false,
            }) && next == !item.flags.favorite
        } else {
            r matches Err(ActionError::Unsupported)
        },
{
    match broker.grant_command(item.id, true, false) {
        Some(g) => Ok((g, !item.flags.favorite)),
        None => Err(ActionError::Unsupported),
    }
}

/// The grant under which an item is removed.
pub fn delete_action(item: &ContentItem, broker: &PermissionBroker) -> (r: Result<
    ContentCommandGrant,
    ActionError,
>)
    ensures
        if broker.permits("content.delete"@) {
            r matches Ok(g) && g@ == (CommandGrantView {
                content_id: item.id,
                favorite: false,
                delete: true,
            })
        } else {
            r matches Err(ActionError::Unsupported)
        },
{
    match broker.grant_command(item.id, false, true) {
        Some(g) => Ok(g),
        None => Err(ActionError::Unsupported),
    }
}

/// What saving an item writes.
#[derive(Debug)]
pub enum SavePlan {
    /// The bytes that the item holds.
    Inline,
    /// The bytes of a blob.
    Blob(String),
    /// The files of a directory, if it is there.
    CopyDir(String),
}

/// What saving an item writes.
pub fn save_action(item: &ContentItem, supported: bool, paths: &AppPaths, id: &str) -> (r: Result<
    SavePlan,
    ActionError,
>)
    ensures
        if !supported {
            r matches Err(ActionError::Unsupported)
        } else {
            match item.payload_ref {
                PayloadRef::Inline(_) => r matches Ok(SavePlan::Inline),
                PayloadRef::Blob(b) => r matches Ok(SavePlan::Blob(h)) && h@ == b.hex@,
                PayloadRef::FileManifest(_) => r matches Ok(SavePlan::CopyDir(d)) && d@
                    == joined_path(joined_path(paths.cache_dir@, "items"@), id@),
            }
        },
{
    if !supported {
        return Err(ActionError::Unsupported);
    }
    match &item.payload_ref {
        PayloadRef::Inline(_) => Ok(SavePlan::Inline),
        PayloadRef::Blob(b) => Ok(SavePlan::Blob(b.hex.clone())),
        PayloadRef::FileManifest(_) => Ok(SavePlan::CopyDir(paths.item_cache(id))),
    }
}

/// Sending an item is not an action of its own.
pub fn send_action() -> (r: ActionError)
    ensures
        r matches ActionError::Failed(m) && m@ == "send uses sync session"@,
{
    ActionError::Failed("send uses sync session".to_owned())
}

/// Whether a wish about an item's mark needs the action that turns it over.
pub fn needs_toggle(item: &ContentItem, wanted: bool) -> (r: bool)
    ensures
        r == (item.flags.favorite != wanted),
{
    item.flags.favorite != wanted
}

/// The program itself may do every action: copy and save each item whole if its kind is
/// supported, and turn over its mark and remove it in any case.
pub proof fn the_program_may_do_every_action(
    item: ContentItem,
    supported: bool,
    broker: PermissionBroker,
    now_ms: u64,
    copy: Result<ContentReadGrant, ActionError>,
    favorite: Result<(ContentCommandGrant, bool), ActionError>,
    delete: Result<ContentCommandGrant, ActionError>,
)
    requires
        call_ensures(PermissionBroker::host, (), broker),
        call_ensures(copy_action, (&item, supported, &broker, now_ms), copy),
        call_ensures(favorite_action, (&item, &broker), favorite),
        call_ensures(delete_action, (&item, &broker), delete),
    ensures
        copy is Ok <==> supported,
        copy is Ok ==> copy->Ok_0@.content_id == item.id,
        favorite is Ok && favorite->Ok_0.0@.content_id == item.id && favorite->Ok_0.0@.favorite
            && !favorite->Ok_0.0@.delete,
        favorite->Ok_0.1 <==> !item.flags.favorite,
        delete is Ok && delete->Ok_0@.content_id == item.id && delete->Ok_0@.delete
            && !delete->Ok_0@.favorite,
{
}

/// A plugin may do what its grants allow, and nothing else.
pub proof fn actions_need_their_grants(
    item: ContentItem,
    broker: PermissionBroker,
    now_ms: u64,
    copy: Result<ContentReadGrant, ActionError>,
    copy_grant: Option<ContentReadGrant>,
    favorite: Result<(ContentCommandGrant, bool), ActionError>,
    favorite_grant: Option<ContentCommandGrant>,
    delete: Result<ContentCommandGrant, ActionError>,
    delete_grant: Option<ContentCommandGrant>,
)
    requires
        call_ensures(copy_action, (&item, true, &broker, now_ms), copy),
        call_ensures(PermissionBroker::grant_copy, (&broker, item.id, item.kind, now_ms), copy_grant),
        call_ensures(favorite_action, (&item, &broker), favorite),
        call_ensures(PermissionBroker::grant_command, (&broker, item.id, true, false), favorite_grant),
        call_ensures(delete_action, (&item, &broker), delete),
        call_ensures(PermissionBroker::grant_command, (&broker, item.id, false, true), delete_grant),
    ensures
        copy is Ok <==> copy_grant is Some,
        copy is Ok ==> copy->Ok_0@ == copy_grant->0@,
        favorite is Ok <==> favorite_grant is Some,
        delete is Ok <==> delete_grant is Some,
{
}

/// Saving writes the item's own contents, whichever they are.
pub proof fn contents_are_saved(
    item: ContentItem,
    supported: bool,
    paths: AppPaths,
    id: &str,
    r: Result<SavePlan, ActionError>,
    dir: String,
)
    requires
        call_ensures(save_action, (&item, supported, &paths, id), r),
        call_ensures(AppPaths::item_cache, (&paths, id), dir),
    ensures
        r is Ok <==> supported,
        r matches Ok(p) ==> {
            &&& p is Inline <==> item.payload_ref is Inline
            &&& p is Blob <==> item.payload_ref is Blob
            &&& p is CopyDir <==> item.payload_ref is FileManifest
            &&& p is Blob ==> p->Blob_0@ == item.payload_ref->Blob_0.hex@
            &&& p is CopyDir ==> p->CopyDir_0@ == dir@
        },
{
}

/// A mark is turned over just if it is not yet what is wanted, and is then.
pub proof fn marks_become_what_is_wanted(
    item: ContentItem,
    wanted: bool,
    broker: PermissionBroker,
    needed: bool,
    r: Result<(ContentCommandGrant, bool), ActionError>,
)
    requires
        call_ensures(needs_toggle, (&item, wanted), needed),
        call_ensures(favorite_action, (&item, &broker), r),
    ensures
        !needed <==> item.flags.favorite == wanted,
        needed && r is Ok ==> r->Ok_0.1 == wanted,
{
}


} // verus!
