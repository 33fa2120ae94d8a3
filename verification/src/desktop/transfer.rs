//! Moving items between this device and others: what is stored of an item that
//! arrives, what is told of one that leaves, and what is tried again.

use vstd::prelude::*;

use crate::bytes::be_bytes;
use crate::content::{
    bytes_of_id, tag_from, tag_of, ContentId, ContentItem, ContentKind, DeviceId, PayloadRef,
};
use crate::desktop::clipboard::{cache_dir_of, item_files_dir};
use crate::hexcodec;
use crate::path::{join_path, joined_path};
use crate::platform::paths::AppPaths;
use crate::sync::hub_client::HistoryDto;
use crate::sync::protocol::{ItemOffer, ItemReady};
use crate::text::{
    contains_text, copy_range, decimal_int, push_signed, same_text, text_of, texts,
};

verus! {

/// The most bytes that travel within the message about an item.
pub const SMALL_PAYLOAD: usize = 262144;

/// The most parts of contents that were sent without being counted.
pub const MAX_UNCOUNTED_PARTS: u32 = 512;

/// An item that arrived, beside its contents and what is known of them.
#[derive(Debug)]
pub struct RemoteItemSpec {
    pub id: ContentId,
    pub origin: DeviceId,
    pub kind: ContentKind,
    pub flags: u32,
    pub tag: [u8; 32],
    pub from_lan: bool,
    pub created_at_ms: Option<i64>,
    pub logical_size: Option<u64>,
    pub payload_size: Option<u64>,
}

/// The kind of an item whose kind was read or could not be: text.
pub open spec fn kind_or_text(kind: Option<ContentKind>) -> ContentKind {
    match kind {
        Some(k) => k,
        None => ContentKind::Text,
    }
}

/// What is stored of an item that a device near by sent: nothing if it is here
/// already. `kind` is what the name of its kind was read as.
pub fn apply_lan(offer: &ItemOffer, from: DeviceId, kind: Option<ContentKind>, held: bool) -> (r:
    Option<RemoteItemSpec>)
    ensures
        held ==> r is None,
        !held ==> {
            &&& r matches Some(s)
            &&& s.id == offer.item_id
            &&& s.origin == from
            &&& s.kind == kind_or_text(kind)
            &&& s.flags == offer.flags
            &&& s.tag@ == tag_from(offer.dedup_tag@)
            &&& s.from_lan
            &&& s.created_at_ms is None
            &&& s.logical_size == Some(offer.logical_size)
            &&& s.payload_size == Some(offer.payload_size)
        },
{
    if held {
        return None;
    }
    let kind = match kind {
        Some(k) => k,
        None => ContentKind::Text,
    };
    Some(
        RemoteItemSpec {
            id: offer.item_id,
            origin: from,
            kind,
            flags: offer.flags,
            tag: tag_of(offer.dedup_tag.as_slice()),
            from_lan: true,
            created_at_ms: None,
            logical_size: Some(offer.logical_size),
            payload_size: Some(offer.payload_size),
        },
    )
}

/// The bytes of a tag as the hub keeps it: none if they cannot be read.
pub open spec fn hex_or_nothing(s: Seq<char>) -> Seq<u8> {
    if hexcodec::is_hex(s) {
        hexcodec::hex_bytes(s)
    } else {
        Seq::empty()
    }
}

/// What is stored of an item that the hub keeps.
pub fn remote_spec(dto: &HistoryDto, id: ContentId, kind: Option<ContentKind>) -> (r: RemoteItemSpec)
    ensures
        r.id == id,
        r.origin == dto.origin_device_id,
        r.kind == kind_or_text(kind),
        r.flags == dto.flags,
        r.tag@ == tag_from(hex_or_nothing(dto.dedup_tag@)),
        !r.from_lan,
        r.created_at_ms == Some(dto.created_at_ms),
        r.logical_size == Some(dto.logical_size),
        r.payload_size == Some(dto.payload_size),
{
    let tag: [u8; 32] = match hexcodec::decode(dto.dedup_tag.as_str()) {
        Ok(b) => tag_of(b.as_slice()),
        Err(_) => {
            let none: Vec<u8> = Vec::new();
            tag_of(none.as_slice())
        },
    };
    let kind = match kind {
        Some(k) => k,
        None => ContentKind::Text,
    };
    RemoteItemSpec {
        id,
        origin: dto.origin_device_id,
        kind,
        flags: dto.flags,
        tag,
        from_lan: false,
        created_at_ms: Some(dto.created_at_ms),
        logical_size: Some(dto.logical_size),
        payload_size: Some(dto.payload_size),
    }
}

/// Where the contents of an item at the hub come from.
#[derive(Clone, Copy, Debug, PartialEq, Eq, Structural)]
pub enum RemoteSource {
    /// From the message itself.
    Message,
    /// From a counted number of chunks, into a file.
    ChunksToFile,
    /// From a counted number of chunks, into memory.
    ChunksToMemory,
    /// From parts that were not counted.
    UncountedParts,
    /// From nowhere.
    Nowhere,
}

/// Where the contents of an item at the hub come from. Files are not held in
/// memory.
pub fn apply_remote_source(in_message: bool, has_blob: bool, chunks: u32, kind: ContentKind) -> (r:
    RemoteSource)
    ensures
        r == (if in_message {
            RemoteSource::Message
        } else if !has_blob {
            RemoteSource::Nowhere
        } else if chunks == 0 {
            RemoteSource::UncountedParts
        } else if kind == ContentKind::Files {
            RemoteSource::ChunksToFile
        } else {
            RemoteSource::ChunksToMemory
        }),
{
    if in_message {
        RemoteSource::Message
    } else if !has_blob {
        RemoteSource::Nowhere
    } else if chunks == 0 {
        RemoteSource::UncountedParts
    } else {
        match kind {
            ContentKind::Files => RemoteSource::ChunksToFile,
            _ => RemoteSource::ChunksToMemory,
        }
    }
}

/// Whether another part is asked for, after `asked` parts of which the last was
/// given or not.
pub fn uncounted_part_next(asked: u32, last_given: bool) -> (r: bool)
    ensures
        r == (asked < MAX_UNCOUNTED_PARTS && (asked == 0 || last_given)),
{
    asked < MAX_UNCOUNTED_PARTS && (asked == 0 || last_given)
}

/// What is said of an item whose contents could not be had.
pub fn missing_payload(id: &str) -> (r: String)
    ensures
        r@ == "remote item "@ + id@ + " missing payload"@,
{
    let mut m = "remote item ".to_owned();
    m.push_str(id);
    m.push_str(" missing payload");
    m
}

/// What is done with the bytes of an item that arrived.
#[derive(Clone, Copy, Debug, PartialEq, Eq, Structural)]
pub enum PersistStep {
    StoreBytes,
    UnpackBundle,
    StoreManifest,
    /// The bytes are a tree of files without a manifest.
    UnpackTree,
}

/// What is done with the bytes of an item that arrived. `unpacked` tells whether
/// they were a bundle, once that was tried.
pub fn persist_item_step(kind: ContentKind, unpacked: Option<bool>) -> (r: PersistStep)
    ensures
        r == (if kind != ContentKind::Files {
            PersistStep::StoreBytes
        } else {
            match unpacked {
                None => PersistStep::UnpackBundle,
                Some(true) => PersistStep::StoreManifest,
                Some(false) => PersistStep::UnpackTree,
            }
        }),
{
    match kind {
        ContentKind::Files => match unpacked {
            None => PersistStep::UnpackBundle,
            Some(done) => if done {
                PersistStep::StoreManifest
            } else {
                PersistStep::UnpackTree
            },
        },
        _ => PersistStep::StoreBytes,
    }
}

/// Whether an item is among those to be tried again.
pub open spec fn has_failed(failed: Seq<HistoryDto>, id: Seq<char>) -> bool {
    exists|i: int| 0 <= i < failed.len() && (#[trigger] failed[i]).id@ == id
}

/// Whether no item is twice among those to be tried again.
pub open spec fn failed_once(failed: Seq<HistoryDto>) -> bool {
    forall|i: int, j: int|
        0 <= i < j < failed.len() ==> (#[trigger] failed[i]).id@ != (#[trigger] failed[j]).id@
}

/// The items to be tried again, with one more.
pub open spec fn with_failed(failed: Seq<HistoryDto>, dto: HistoryDto) -> Seq<HistoryDto> {
    if has_failed(failed, dto.id@) {
        failed
    } else {
        failed.push(dto)
    }
}

/// Keeps an item to be tried again, unless it is kept already.
pub fn remember_failed(failed: &mut Vec<HistoryDto>, dto: HistoryDto)
    ensures
        final(failed)@ == with_failed(old(failed)@, dto),
        failed_once(old(failed)@) ==> failed_once(final(failed)@),
{
    let mut i: usize = 0;
    while i < failed.len()
        invariant
            i <= failed@.len(),
            failed@ == old(failed)@,
            forall|j: int| 0 <= j < i ==> (#[trigger] failed@[j]).id@ != dto.id@,
        decreases failed@.len() - i,
    {
        if same_text(failed[i].id.as_str(), dto.id.as_str()) {
            return;
        }
        i += 1;
    }
    failed.push(dto);
}

/// How taking over an item from the hub ended.
#[derive(Clone, Copy, Debug, PartialEq, Eq, Structural)]
pub enum RemoteOutcome {
    /// It is new here.
    Stored,
    /// It was here already.
    Known,
    Failed,
}

/// What follows taking over an item from the hub.
#[derive(Clone, Copy, Debug, PartialEq, Eq, Structural)]
pub enum PullStep {
    /// The window is told.
    TellWindow,
    /// The items to be tried again are written down.
    SaveFailed,
    /// The position in the hub's history is written down.
    SaveCursor,
}

/// The position in the hub's history behind an item.
pub open spec fn cursor_behind(created_at_ms: int, id: Seq<char>) -> Seq<char> {
    decimal_int(created_at_ms) + ":"@ + id
}

/// The position in the hub's history behind an item.
pub fn cursor_after(dto: &HistoryDto) -> (r: String)
    ensures
        r@ == cursor_behind(dto.created_at_ms as int, dto.id@),
{
    let mut out = String::new();
    push_signed(&mut out, dto.created_at_ms);
    out.push_str(":");
    out.push_str(dto.id.as_str());
    assert(out@ =~= cursor_behind(dto.created_at_ms as int, dto.id@));
    out
}

/// What follows taking over an item, in order.
pub open spec fn steps_after(outcome: RemoteOutcome) -> Seq<PullStep> {
    match outcome {
        RemoteOutcome::Stored => seq![PullStep::TellWindow, PullStep::SaveCursor],
        RemoteOutcome::Known => seq![PullStep::SaveCursor],
        RemoteOutcome::Failed => seq![PullStep::SaveFailed, PullStep::SaveCursor],
    }
}

/// The items to be tried again after an item was taken over or not.
pub open spec fn failed_after(
    failed: Seq<HistoryDto>,
    dto: HistoryDto,
    outcome: RemoteOutcome,
) -> Seq<HistoryDto> {
    if outcome == RemoteOutcome::Failed {
        with_failed(failed, dto)
    } else {
        failed
    }
}

/// Notes an item of the hub's history that was taken over or not, and moves on
/// behind it. One that failed is kept, and written down before the position is,
/// so that it is not skipped for good.
pub fn pull_hub_item(
    failed: &mut Vec<HistoryDto>,
    cursor: &mut Option<String>,
    dto: HistoryDto,
    outcome: RemoteOutcome,
) -> (r: Vec<PullStep>)
    ensures
        r@ == steps_after(outcome),
        final(failed)@ == failed_after(old(failed)@, dto, outcome),
        *final(cursor) matches Some(c) && c@ == cursor_behind(dto.created_at_ms as int, dto.id@),
{
    *cursor = Some(cursor_after(&dto));
    let steps: Vec<PullStep> = match outcome {
        RemoteOutcome::Stored => vec![PullStep::TellWindow, PullStep::SaveCursor],
        RemoteOutcome::Known => vec![PullStep::SaveCursor],
        RemoteOutcome::Failed => {
            remember_failed(failed, dto);
            vec![PullStep::SaveFailed, PullStep::SaveCursor]
        },
    };
    assert(steps@ =~= steps_after(outcome));
    steps
}

/// Notes an item that was tried again.
pub fn retry_remote(failed: &mut Vec<HistoryDto>, dto: HistoryDto, outcome: RemoteOutcome)
    ensures
        final(failed)@ == failed_after(old(failed)@, dto, outcome),
{
    if let RemoteOutcome::Failed = outcome {
        remember_failed(failed, dto);
    }
}

/// The items to be tried again after a page of the hub's history.
pub open spec fn failed_after_page(
    failed: Seq<HistoryDto>,
    page: Seq<(HistoryDto, RemoteOutcome)>,
) -> Seq<HistoryDto>
    decreases page.len(),
{
    if page.len() == 0 {
        failed
    } else {
        failed_after(
            failed_after_page(failed, page.drop_last()),
            page.last().0,
            page.last().1,
        )
    }
}

/// An item that could not be taken over is tried again, whatever else is on its
/// page, and nothing that was to be tried again is forgotten.
pub proof fn failed_items_are_kept(
    failed: Seq<HistoryDto>,
    page: Seq<(HistoryDto, RemoteOutcome)>,
    id: Seq<char>,
)
    requires
        has_failed(failed, id) || exists|i: int|
            0 <= i < page.len() && (#[trigger] page[i]).1 == RemoteOutcome::Failed && page[i].0.id@
                == id,
    ensures
        has_failed(failed_after_page(failed, page), id),
    decreases page.len(),
{
    if page.len() > 0 {
        let rest = page.drop_last();
        let before = failed_after_page(failed, rest);
        let after = failed_after_page(failed, page);
        if page.last().1 == RemoteOutcome::Failed && page.last().0.id@ == id {
            if !has_failed(before, id) {
                assert(after[before.len() as int].id@ == id);
            }
        } else {
            assert(has_failed(failed, id) || exists|i: int|
                0 <= i < rest.len() && (#[trigger] rest[i]).1 == RemoteOutcome::Failed
                    && rest[i].0.id@ == id) by {
                if !has_failed(failed, id) {
                    let i = choose|i: int|
                        0 <= i < page.len() && (#[trigger] page[i]).1 == RemoteOutcome::Failed
                            && page[i].0.id@ == id;
                    assert(rest[i] == page[i]);
                }
            }
            failed_items_are_kept(failed, rest, id);
            let k = choose|k: int| 0 <= k < before.len() && (#[trigger] before[k]).id@ == id;
            assert(after[k] == before[k]);
        }
    }
}

/// Whether the newest item from the hub goes to the clipboard: only if that is
/// wanted, and not if it came from this device.
pub fn pull_to_clipboard(auto_receive: bool, newest_origin: Option<DeviceId>, own: DeviceId) -> (r:
    bool)
    ensures
        r == (auto_receive && newest_origin is Some && newest_origin->0 != own),
{
    match newest_origin {
        Some(origin) => auto_receive && origin != own,
        None => false,
    }
}

/// An item's identity as the hub writes it.
pub open spec fn hub_name(id: ContentId) -> Seq<char> {
    hexcodec::hex_text(be_bytes(id.raw as nat, 16))
}

/// An item's identity as the hub writes it.
pub fn hub_id(id: ContentId) -> (r: String)
    ensures
        r@ == hub_name(id),
{
    hexcodec::encode(bytes_of_id(id.raw).as_slice())
}

/// Keeps an item to be deleted at the hub, unless it is kept already.
pub fn remember_tombstone(ids: &mut Vec<String>, id: ContentId)
    ensures
        texts(final(ids)@) == (if texts(old(ids)@).contains(hub_name(id)) {
            texts(old(ids)@)
        } else {
            texts(old(ids)@).push(hub_name(id))
        }),
{
    let hex_id = hub_id(id);
    if !contains_text(ids.as_slice(), hex_id.as_str()) {
        let ghost before = ids@;
        ids.push(hex_id);
        assert(texts(ids@) =~= texts(before).push(hub_name(id)));
    }
}

/// The items still to be deleted, of some whose deletion was tried.
pub open spec fn undeleted(tried: Seq<(String, bool)>) -> Seq<String>
    decreases tried.len(),
{
    if tried.len() == 0 {
        Seq::empty()
    } else {
        let before = undeleted(tried.drop_last());
        if tried.last().1 {
            before
        } else {
            before.push(tried.last().0)
        }
    }
}

/// The items still to be deleted, in order, of some that were deleted at the hub
/// or not.
pub fn tombstones_left(tried: Vec<(String, bool)>) -> (r: Vec<String>)
    ensures
        r@ == undeleted(tried@),
{
    let ghost all = tried@;
    let mut rest = tried;
    let mut out: Vec<String> = Vec::new();
    assert(all.take(0) =~= Seq::<(String, bool)>::empty());
    let ghost mut done: int = 0;
    while rest.len() > 0
        invariant
            0 <= done <= all.len(),
            rest@ == all.skip(done),
            out@ == undeleted(all.take(done)),
        decreases rest@.len(),
    {
        assert(all.take(done + 1).drop_last() =~= all.take(done));
        assert(all.take(done + 1).last() == all[done]);
        assert(all.skip(done)[0] == all[done]);
        let (id, deleted) = rest.remove(0);
        assert(rest@ =~= all.skip(done + 1));
        if !deleted {
            out.push(id);
        }
        proof {
            done = done + 1;
        }
    }
    assert(all.take(done) =~= all);
    out
}

/// How deleting at the hub ended: well, if nothing is left.
pub fn flush_tombstones_outcome(left: &[String], events_failed: bool) -> (r: Result<(), String>)
    ensures
        match r {
            Ok(_) => left@.len() == 0 && !events_failed,
            Err(m) => (left@.len() > 0 || events_failed) && m@ == "hub still has pending deletes"@,
        },
{
    if left.len() > 0 || events_failed {
        Err("hub still has pending deletes".to_owned())
    } else {
        Ok(())
    }
}

/// The contents of an item that leaves: in memory, or in a file at a path.
#[derive(Debug)]
pub enum PayloadSource {
    Bytes(Vec<u8>),
    StagedFile(String),
}

impl PayloadSource {
    /// The contents, if they are small enough to travel within the message.
    pub fn small_bytes(&self) -> (r: Option<&[u8]>)
        ensures
            match *self {
                PayloadSource::Bytes(b) => if b@.len() <= SMALL_PAYLOAD {
                    r is Some && r->0@ == b@
                } else {
                    r is None
                },
                PayloadSource::StagedFile(_) => r is None,
            },
    {
        match self {
            PayloadSource::Bytes(b) => if b.len() <= SMALL_PAYLOAD {
                Some(b.as_slice())
            } else {
                None
            },
            PayloadSource::StagedFile(_) => None,
        }
    }
}

/// The number of the chunk after one, which must fit its field.
pub fn upload_next_chunk(index: u32) -> (r: Result<u32, String>)
    ensures
        match r {
            Ok(n) => n == index + 1,
            Err(m) => index == u32::MAX && m@ == "blob has too many chunks"@,
        },
{
    match index.checked_add(1) {
        Some(n) => Ok(n),
        None => Err("blob has too many chunks".to_owned()),
    }
}

/// How the contents of an item that leaves are to be had.
#[derive(Debug)]
pub enum PayloadPlan {
    /// They are these bytes.
    Bytes(Vec<u8>),
    /// They are the blob of that name.
    Blob(String),
    /// They are the files in a directory, to be bundled into a file.
    Bundle { cache: String, staged: String },
}

/// The directory for files that are being put together.
pub open spec fn staging_path(cache_dir: Seq<char>) -> Seq<char> {
    joined_path(cache_dir, "sync-staging"@)
}

/// The directory for files that are being put together.
pub fn staging_dir(paths: &AppPaths) -> (r: String)
    ensures
        r@ == staging_path(paths.cache_dir@),
{
    join_path(paths.cache_dir.as_str(), "sync-staging")
}

/// The file that an item from the hub is put together in.
pub fn download_path(paths: &AppPaths, id: &str) -> (r: String)
    ensures
        r@ == joined_path(staging_path(paths.cache_dir@), id@ + ".download"@),
{
    let mut name = id.to_owned();
    name.push_str(".download");
    join_path(staging_dir(paths).as_str(), name.as_str())
}

/// How the contents of an item that leaves are to be had. `id` is its identity
/// as text, and `cached` tells whether its directory of files is there. An item
/// whose files are gone is not sent without them.
pub fn load_payload(item: &ContentItem, paths: &AppPaths, id: &str, cached: bool) -> (r: Result<
    PayloadPlan,
    String,
>)
    ensures
        match item.payload_ref {
            PayloadRef::Inline(bytes) => r matches Ok(PayloadPlan::Bytes(b)) && b@ == bytes@,
            PayloadRef::Blob(blob) => r matches Ok(PayloadPlan::Blob(b)) && b@ == blob.hex@,
            PayloadRef::FileManifest(_) => if cached {
                &&& r matches Ok(PayloadPlan::Bundle { cache, staged })
                &&& cache@ == cache_dir_of(
                    text_of(item.metadata.local_cache_rel),
                    paths.cache_dir@,
                    id@,
                )
                &&& staged@ == joined_path(staging_path(paths.cache_dir@), id@ + ".asb"@)
            } else {
                r matches Err(m) && m@ == "file cache missing for "@ + id@
                    + "; not publishing metadata-only item"@
            },
        },
{
    match &item.payload_ref {
        PayloadRef::Inline(bytes) => {
            let b = copy_range(bytes.as_slice(), 0, bytes.len());
            assert(b@ =~= bytes@);
            Ok(PayloadPlan::Bytes(b))
        },
        PayloadRef::Blob(blob) => Ok(PayloadPlan::Blob(blob.hex.clone())),
        PayloadRef::FileManifest(_) => if cached {
            let mut name = id.to_owned();
            name.push_str(".asb");
            Ok(
                PayloadPlan::Bundle {
                    cache: item_files_dir(item, paths, id),
                    staged: join_path(staging_dir(paths).as_str(), name.as_str()),
                },
            )
        } else {
            let mut m = "file cache missing for ".to_owned();
            m.push_str(id);
            m.push_str("; not publishing metadata-only item");
            Err(m)
        },
    }
}

/// An item as the hub is to keep it. `kind` is the name of its kind, `flags` are
/// its marks as a number, and `sealed` is its encrypted package.
pub fn publish_dto(
    item: &ContentItem,
    own: DeviceId,
    kind: String,
    flags: u32,
    sealed: String,
    blob_id: Option<String>,
) -> (r: HistoryDto)
    ensures
        r.id@ == hub_name(item.id),
        r.origin_device_id == own,
        r.kind == kind,
        r.created_at_ms == item.created_at_ms,
        r.logical_size == item.logical_size,
        r.payload_size == item.payload_size,
        r.dedup_tag@ == hexcodec::hex_text(item.dedup_tag@),
        r.flags == flags,
        r.encrypted_metadata == sealed,
        r.blob_id == blob_id,
{
    HistoryDto {
        id: hub_id(item.id),
        origin_device_id: own,
        kind,
        created_at_ms: item.created_at_ms,
        logical_size: item.logical_size,
        payload_size: item.payload_size,
        dedup_tag: hexcodec::encode(item.dedup_tag.as_slice()),
        flags,
        encrypted_metadata: sealed,
        blob_id,
    }
}

/// An item as it is offered to other devices, with `payload_size` bytes.
pub fn item_offer(item: &ContentItem, kind: String, flags: u32, payload_size: u64) -> (r: ItemOffer)
    ensures
        r.item_id == item.id,
        r.kind == kind,
        r.logical_size == item.logical_size,
        r.payload_size == payload_size,
        r.dedup_tag@ == item.dedup_tag@,
        r.flags == flags,
{
    let tag = copy_range(item.dedup_tag.as_slice(), 0, 32);
    assert(tag@ =~= item.dedup_tag@);
    ItemOffer {
        item_id: item.id,
        kind,
        logical_size: item.logical_size,
        payload_size,
        dedup_tag: tag,
        flags,
    }
}

/// The notice that the contents of an item can be fetched: only if they did not
/// travel within the message.
pub fn ready_notice(id: ContentId, blob_id: &Option<String>) -> (r: Option<ItemReady>)
    ensures
        match *blob_id {
            Some(b) => r matches Some(n) && n.item_id == id && n.blob_id@ == b@,
            None => r is None,
        },
{
    match blob_id {
        Some(b) => Some(ItemReady { item_id: id, blob_id: b.clone() }),
        None => None,
    }
}

/// The tag of an item is the same after it went through the hub.
pub proof fn tag_survives_hub(tag: Seq<u8>)
    requires
        tag.len() == 32,
    ensures
        tag_from(hex_or_nothing(hexcodec::hex_text(tag))) == tag,
{
    hexcodec::decode_restores_encode(tag);
}

/// An item from a device near by is stored just if it is not here yet, as it was offered
/// and with the device as its origin.
pub proof fn offered_items_are_stored_once(
    offer: ItemOffer,
    from: DeviceId,
    kind: Option<ContentKind>,
    held: bool,
    r: Option<RemoteItemSpec>,
)
    requires
        call_ensures(apply_lan, (&offer, from, kind, held), r),
    ensures
        r is Some <==> !held,
        r is Some ==> {
            let s = r->0;
            &&& s.id == offer.item_id && s.origin == from && s.flags == offer.flags
            &&& kind is Some ==> s.kind == kind->0
            &&& kind is None ==> s.kind == ContentKind::Text
            &&& offer.dedup_tag@.len() == 32 ==> s.tag@ == offer.dedup_tag@
            &&& s.from_lan && s.created_at_ms is None
            &&& s.logical_size == Some(offer.logical_size) && s.payload_size == Some(
                offer.payload_size,
            )
        },
{
}

/// An item that one device publishes at the hub, `dto`, is stored by another, `r`, with
/// the same time, sizes, tag and marks, and with the device that published it as its
/// origin.
pub proof fn published_items_arrive(
    item: ContentItem,
    own: DeviceId,
    name: String,
    flags: u32,
    sealed: String,
    blob_id: Option<String>,
    dto: HistoryDto,
    id: ContentId,
    kind: ContentKind,
    r: RemoteItemSpec,
)
    requires
        call_ensures(publish_dto, (&item, own, name, flags, sealed, blob_id), dto),
        call_ensures(remote_spec, (&dto, id, Some(kind)), r),
    ensures
        dto.kind == name,
        dto.encrypted_metadata == sealed,
        dto.blob_id == blob_id,
        dto.id@.len() == 32,
        r.id == id,
        r.origin == own,
        r.kind == kind,
        r.flags == flags,
        r.tag@ == item.dedup_tag@,
        !r.from_lan,
        r.created_at_ms == Some(item.created_at_ms),
        r.logical_size == Some(item.logical_size),
        r.payload_size == Some(item.payload_size),
{
    tag_survives_hub(item.dedup_tag@);
    crate::storage::repo::lemma_id_bound();
    crate::bytes::be_round_trip(item.id.raw as nat, 16);
}

/// No two items have the same name at the hub.
pub proof fn names_at_the_hub_differ(a: ContentId, b: ContentId, x: String, y: String)
    requires
        call_ensures(hub_id, (a,), x),
        call_ensures(hub_id, (b,), y),
        a != b,
    ensures
        x@ != y@,
{
    crate::storage::repo::lemma_id_bound();
    crate::bytes::be_round_trip(a.raw as nat, 16);
    crate::bytes::be_round_trip(b.raw as nat, 16);
    hexcodec::decode_restores_encode(be_bytes(a.raw as nat, 16));
    hexcodec::decode_restores_encode(be_bytes(b.raw as nat, 16));
}

/// Contents that are not in the message are fetched just if there are any at the hub:
/// part by part if nobody counted the parts, and otherwise into a file just for files.
pub proof fn contents_are_fetched_where_they_are(
    in_message: bool,
    has_blob: bool,
    chunks: u32,
    kind: ContentKind,
    r: RemoteSource,
)
    requires
        call_ensures(apply_remote_source, (in_message, has_blob, chunks, kind), r),
    ensures
        r == RemoteSource::Message <==> in_message,
        r == RemoteSource::Nowhere <==> !in_message && !has_blob,
        r == RemoteSource::UncountedParts <==> !in_message && has_blob && chunks == 0,
        r == RemoteSource::ChunksToFile <==> !in_message && has_blob && chunks > 0 && kind
            == ContentKind::Files,
        r == RemoteSource::ChunksToMemory <==> !in_message && has_blob && chunks > 0 && kind
            != ContentKind::Files,
{
}

/// Parts that nobody counted are asked for, `r`, until one is not given, 512 at most.
pub proof fn parts_are_asked_for_until_one_is_missing(asked: u32, last_given: bool, r: bool)
    requires
        call_ensures(uncounted_part_next, (asked, last_given), r),
    ensures
        asked == 0 ==> r,
        0 < asked < 512 ==> r == last_given,
        asked >= 512 ==> !r,
{
}

/// Only files are unpacked: as a bundle at first, and as a bare tree only if they are no
/// bundle.
pub proof fn only_files_are_unpacked(kind: ContentKind, unpacked: Option<bool>, r: PersistStep)
    requires
        call_ensures(persist_item_step, (kind, unpacked), r),
    ensures
        r == PersistStep::StoreBytes <==> kind != ContentKind::Files,
        kind == ContentKind::Files ==> {
            &&& r == PersistStep::UnpackBundle <==> unpacked is None
            &&& r == PersistStep::StoreManifest <==> unpacked == Some(true)
            &&& r == PersistStep::UnpackTree <==> unpacked == Some(false)
        },
{
}

/// Taking over an item from the hub, with the steps `r` afterwards: an item that failed,
/// and no other, joins those to be tried again, behind them and once, and is written down
/// before the position is; the position is written down last in any case; and the window
/// is told just of a new item. The items that waited keep their places.
pub proof fn hub_items_are_noted(
    failed: &mut Vec<HistoryDto>,
    cursor: &mut Option<String>,
    dto: HistoryDto,
    outcome: RemoteOutcome,
    r: Vec<PullStep>,
    k: int,
)
    requires
        call_ensures(pull_hub_item, (failed, cursor, dto, outcome), r),
    ensures
        r@.len() >= 1 && r@.last() == PullStep::SaveCursor,
        r@.no_duplicates(),
        r@.contains(PullStep::TellWindow) <==> outcome == RemoteOutcome::Stored,
        r@.contains(PullStep::SaveFailed) <==> outcome == RemoteOutcome::Failed,
        old(failed)@.is_prefix_of(final(failed)@),
        outcome != RemoteOutcome::Failed ==> final(failed)@ == old(failed)@,
        outcome == RemoteOutcome::Failed ==> exists|i: int|
            0 <= i < final(failed)@.len() && (#[trigger] final(failed)@[i]).id@ == dto.id@,
        final(failed)@.len() > old(failed)@.len() <==> outcome == RemoteOutcome::Failed && forall|
            i: int,
        |
            0 <= i < old(failed)@.len() ==> (#[trigger] old(failed)@[i]).id@ != dto.id@,
        final(failed)@.len() > old(failed)@.len() ==> final(failed)@.len() == old(failed)@.len() + 1
            && final(failed)@.last() == dto,
        *final(cursor) is Some,
{
    let s = steps_after(outcome);
    match outcome {
        RemoteOutcome::Stored => {
            assert(s[0] == PullStep::TellWindow);
        },
        RemoteOutcome::Known => {},
        RemoteOutcome::Failed => {
            assert(s[0] == PullStep::SaveFailed);
            let was = old(failed)@;
            let is = final(failed)@;
            if has_failed(was, dto.id@) {
                let i = choose|i: int| 0 <= i < was.len() && (#[trigger] was[i]).id@ == dto.id@;
                assert(is[i].id@ == dto.id@);
            } else {
                assert(is.last() == dto);
            }
        },
    }
}

/// An item that is tried again, too, is kept just if it failed again.
pub proof fn items_tried_again_are_noted(
    failed: &mut Vec<HistoryDto>,
    dto: HistoryDto,
    outcome: RemoteOutcome,
    r: (),
)
    requires
        call_ensures(retry_remote, (failed, dto, outcome), r),
    ensures
        old(failed)@.is_prefix_of(final(failed)@),
        outcome != RemoteOutcome::Failed ==> final(failed)@ == old(failed)@,
        outcome == RemoteOutcome::Failed ==> exists|i: int|
            0 <= i < final(failed)@.len() && (#[trigger] final(failed)@[i]).id@ == dto.id@,
        final(failed)@.len() <= old(failed)@.len() + 1,
{
    if outcome == RemoteOutcome::Failed {
        let was = old(failed)@;
        let is = final(failed)@;
        if has_failed(was, dto.id@) {
            let i = choose|i: int| 0 <= i < was.len() && (#[trigger] was[i]).id@ == dto.id@;
            assert(is[i].id@ == dto.id@);
        } else {
            assert(is.last() == dto);
        }
    }
}

/// The newest item goes to the clipboard just if that is wanted and another device made
/// it.
pub proof fn items_of_others_go_to_the_clipboard(
    auto_receive: bool,
    newest: Option<DeviceId>,
    own: DeviceId,
    r: bool,
)
    requires
        call_ensures(pull_to_clipboard, (auto_receive, newest, own), r),
    ensures
        r <==> auto_receive && newest is Some && newest != Some(own),
{
}

/// A deleted item is kept to be deleted at the hub, behind those that are kept already,
/// which stay.
pub proof fn deletions_are_remembered(ids: &mut Vec<String>, id: ContentId, name: String, r: ())
    requires
        call_ensures(remember_tombstone, (ids, id), r),
        call_ensures(hub_id, (id,), name),
    ensures
        texts(final(ids)@).contains(name@),
        texts(old(ids)@).is_prefix_of(texts(final(ids)@)),
        texts(old(ids)@).contains(name@) ==> texts(final(ids)@) == texts(old(ids)@),
        !texts(old(ids)@).contains(name@) ==> final(ids)@.len() == old(ids)@.len() + 1,
        texts(old(ids)@).no_duplicates() ==> texts(final(ids)@).no_duplicates(),
{
    let was = texts(old(ids)@);
    let is = texts(final(ids)@);
    if !was.contains(name@) {
        assert(is[was.len() as int] == name@);
    }
}

/// What could not be deleted at the hub is left to be deleted, in order, and nothing
/// else.
pub proof fn undeleted_items_are_left(tried: Vec<(String, bool)>, r: Vec<String>)
    requires
        call_ensures(tombstones_left, (tried,), r),
    ensures
        r@ == tried@.filter(|t: (String, bool)| !t.1).map_values(|t: (String, bool)| t.0),
{
    lemma_undeleted(tried@);
}

proof fn lemma_undeleted(tried: Seq<(String, bool)>)
    ensures
        undeleted(tried) == tried.filter(|t: (String, bool)| !t.1).map_values(
            |t: (String, bool)| t.0,
        ),
    decreases tried.len(),
{
    reveal(Seq::filter);
    let f = |t: (String, bool)| !t.1;
    let g = |t: (String, bool)| t.0;
    if tried.len() > 0 {
        lemma_undeleted(tried.drop_last());
        let before = tried.drop_last().filter(f);
        if !tried.last().1 {
            assert(before.push(tried.last()).map_values(g) =~= before.map_values(g).push(
                tried.last().0,
            ));
        }
    } else {
        assert(tried.filter(f).map_values(g) =~= Seq::<String>::empty());
    }
}

/// Deleting at the hub ended well just if nothing is left to be deleted and no event
/// failed.
pub proof fn leftovers_are_a_failure(left: &[String], events_failed: bool, r: Result<(), String>)
    requires
        call_ensures(flush_tombstones_outcome, (left, events_failed), r),
    ensures
        r is Ok <==> left@ == Seq::<String>::empty() && !events_failed,
{
    if left@.len() == 0 {
        assert(left@ =~= Seq::<String>::empty());
    }
}

/// Contents travel within the message, whole, just if they are in memory and of at most
/// 256 KiB; and the notice `n` that they can be fetched goes out just if they are at the
/// hub instead.
pub proof fn small_payloads_travel_in_the_message(
    source: PayloadSource,
    r: Option<&[u8]>,
    id: ContentId,
    blob_id: Option<String>,
    n: Option<ItemReady>,
)
    requires
        call_ensures(PayloadSource::small_bytes, (&source,), r),
        call_ensures(ready_notice, (id, &blob_id), n),
    ensures
        r is Some <==> source is Bytes && source->Bytes_0@.len() <= 256 * 1024,
        r is Some ==> r->0@ == source->Bytes_0@,
        n is Some <==> blob_id is Some,
        n is Some ==> n->0.item_id == id && n->0.blob_id@ == blob_id->0@,
{
}

/// The chunks of a blob are numbered one by one, as far as numbers go.
pub proof fn chunks_are_numbered_one_by_one(index: u32, r: Result<u32, String>)
    requires
        call_ensures(upload_next_chunk, (index,), r),
    ensures
        r is Ok <==> index < 0xffff_ffff,
        r is Ok ==> r->Ok_0 == index + 1,
{
}

/// An item leaves with its own contents: its bytes, its blob, or the files in its
/// directory, without which it does not leave.
pub proof fn items_leave_with_their_contents(
    item: ContentItem,
    paths: AppPaths,
    id: &str,
    cached: bool,
    r: Result<PayloadPlan, String>,
    dir: String,
)
    requires
        call_ensures(load_payload, (&item, &paths, id, cached), r),
        call_ensures(item_files_dir, (&item, &paths, id), dir),
    ensures
        r is Ok <==> !(item.payload_ref is FileManifest) || cached,
        item.payload_ref matches PayloadRef::Inline(b) ==> r->Ok_0 is Bytes && r->Ok_0->Bytes_0@
            == b@,
        item.payload_ref matches PayloadRef::Blob(b) ==> r->Ok_0 is Blob && r->Ok_0->Blob_0@
            == b.hex@,
        item.payload_ref is FileManifest && cached ==> r->Ok_0 is Bundle && r->Ok_0->cache@ == dir@,
{
}

/// An item is offered with its identity, sizes, tag and marks.
pub proof fn offers_describe_the_item(
    item: ContentItem,
    kind: String,
    flags: u32,
    payload_size: u64,
    offer: ItemOffer,
    from: DeviceId,
    known: ContentKind,
    r: Option<RemoteItemSpec>,
)
    requires
        call_ensures(item_offer, (&item, kind, flags, payload_size), offer),
        call_ensures(apply_lan, (&offer, from, Some(known), false), r),
    ensures
        offer.kind == kind,
        r is Some,
        r->0.id == item.id,
        r->0.origin == from,
        r->0.kind == known,
        r->0.flags == flags,
        r->0.tag@ == item.dedup_tag@,
        r->0.logical_size == Some(item.logical_size),
        r->0.payload_size == Some(payload_size),
{
}


} // verus!
