//! Items on their way to and from the clipboard.

use vstd::prelude::*;
use vstd::utf8::{decode_utf8, valid_utf8};

use crate::content::{ContentFlags, ContentId, ContentItem, ContentKind, ManifestId, PayloadRef};
use crate::path::{join_path, joined_path};
use crate::platform::paths::AppPaths;
use crate::plugin::grant::ContentReadGrant;
use crate::sync::webdav::{lossy_text, utf8_lossy};
use crate::text::{copy_text, same_text, text_of, texts};

verus! {

/// Where the bytes of an item are to be had from.
#[derive(Debug)]
pub enum BytesSource {
    /// The item holds them.
    Inline,
    /// They are in a blob.
    Blob(String),
}

/// How an item goes to the clipboard.
#[derive(Debug)]
pub enum ClipboardPlan {
    /// As text.
    Text { bytes: BytesSource },
    /// As a picture of a size.
    Image { bytes: BytesSource, width: u32, height: u32 },
    /// As a file that is written to a directory first.
    MediaFile { bytes: BytesSource, dir: String, name: String },
    /// As the files in a directory.
    Files { dir: String },
}

/// What files on the clipboard belong to.
#[derive(Debug)]
pub enum FilesManifest {
    /// They are one file, of a name and a size.
    Single { name: String, size: u64 },
    /// They are those of a manifest in the store.
    Kept(ManifestId),
}

/// What goes to the clipboard, with the tag by which the watcher knows it again,
/// its marks and the program it comes from.
#[derive(Debug)]
pub enum NormalizedContent {
    Text { text: String, dedup_tag: [u8; 32], flags: ContentFlags, source_app: Option<String> },
    Image {
        png: Vec<u8>,
        width: u32,
        height: u32,
        dedup_tag: [u8; 32],
        flags: ContentFlags,
        source_app: Option<String>,
    },
    Files {
        paths: Vec<String>,
        manifest: FilesManifest,
        dedup_tag: [u8; 32],
        flags: ContentFlags,
        source_app: Option<String>,
    },
}

/// The file name of an item that is a moving picture or a video.
pub open spec fn clip_name(kind: ContentKind, mime_hint: Option<Seq<char>>) -> Seq<char> {
    if kind is Gif {
        "clip.gif"@
    } else if mime_hint == Some("video/x-msvideo"@) {
        "clip.avi"@
    } else {
        "clip.mp4"@
    }
}

/// The directory with the cached files of an item: the one that the item names,
/// or the one of its identity.
pub open spec fn cache_dir_of(
    local_cache_rel: Option<Seq<char>>,
    cache_dir: Seq<char>,
    id: Seq<char>,
) -> Seq<char> {
    let items = joined_path(cache_dir, "items"@);
    match local_cache_rel {
        Some(rel) => joined_path(items, rel),
        None => joined_path(items, id),
    }
}

/// Whether the bytes of an item come from a place.
pub open spec fn is_source(p: PayloadRef, b: BytesSource) -> bool {
    match p {
        PayloadRef::Inline(_) => b is Inline,
        PayloadRef::Blob(id) => b matches BytesSource::Blob(h) && h@ == id.hex@,
        PayloadRef::FileManifest(_) => false,
    }
}

/// Why an item cannot go to the clipboard, if it cannot. `kind_text` is the name
/// of its kind.
pub open spec fn copy_refusal(
    item: ContentItem,
    grant: ContentReadGrant,
    now_ms: u64,
    kind_text: Seq<char>,
) -> Option<Seq<char>> {
    if !(grant@.content_id == item.id && now_ms < grant@.expires_at_ms) {
        Some("content read grant invalid"@)
    } else if !(item.kind is Files) && item.payload_size > grant@.max_bytes {
        Some("content exceeds grant max_bytes"@)
    } else {
        match item.kind {
            ContentKind::Text => if item.payload_ref is FileManifest {
                Some("text item has file payload"@)
            } else {
                None
            },
            ContentKind::Files => None,
            ContentKind::Other(_) => Some("cannot copy kind "@ + kind_text),
            _ => if item.payload_ref is FileManifest {
                Some("expected blob payload"@)
            } else {
                None
            },
        }
    }
}

/// Whether a plan is the way in which an item goes to the clipboard.
pub open spec fn is_plan(item: ContentItem, cache_dir: Seq<char>, id: Seq<char>, plan: ClipboardPlan) -> bool {
    match item.kind {
        ContentKind::Text => plan matches ClipboardPlan::Text { bytes } && is_source(
            item.payload_ref,
            bytes,
        ),
        ContentKind::Image | ContentKind::Screenshot => {
            &&& plan matches ClipboardPlan::Image { bytes, width, height }
            &&& is_source(item.payload_ref, bytes)
            &&& match item.metadata.image {
                Some(i) => width == i.width && height == i.height,
                None => width == 0 && height == 0,
            }
        },
        ContentKind::Gif | ContentKind::Video => {
            &&& plan matches ClipboardPlan::MediaFile { bytes, dir, name }
            &&& is_source(item.payload_ref, bytes)
            &&& dir@ == joined_path(joined_path(cache_dir, "items"@), id)
            &&& name@ == clip_name(item.kind, text_of(item.metadata.mime_hint))
        },
        ContentKind::Files => plan matches ClipboardPlan::Files { dir } && dir@ == cache_dir_of(
            text_of(item.metadata.local_cache_rel),
            cache_dir,
            id,
        ),
        ContentKind::Other(_) => false,
    }
}

/// Where the bytes of an item are to be had from, if it is not files.
pub fn load_bytes(item: &ContentItem) -> (r: Result<BytesSource, String>)
    ensures
        match r {
            Ok(b) => is_source(item.payload_ref, b),
            Err(m) => item.payload_ref is FileManifest && m@ == "expected blob payload"@,
        },
{
    match &item.payload_ref {
        PayloadRef::Inline(_) => Ok(BytesSource::Inline),
        PayloadRef::Blob(b) => Ok(BytesSource::Blob(b.hex.clone())),
        PayloadRef::FileManifest(_) => Err("expected blob payload".to_owned()),
    }
}

/// The directory with the cached files of an item.
pub fn item_files_dir(item: &ContentItem, paths: &AppPaths, id: &str) -> (r: String)
    ensures
        r@ == cache_dir_of(text_of(item.metadata.local_cache_rel), paths.cache_dir@, id@),
{
    match &item.metadata.local_cache_rel {
        Some(rel) => {
            let items = join_path(paths.cache_dir.as_str(), "items");
            join_path(items.as_str(), rel.as_str())
        },
        None => paths.item_cache(id),
    }
}

/// How an item goes to the clipboard, under a grant to read it. `id` is the
/// identity of the item as text, and `kind_text` the name of its kind.
pub fn item_to_clipboard(
    item: &ContentItem,
    paths: &AppPaths,
    grant: &ContentReadGrant,
    now_ms: u64,
    id: &str,
    kind_text: &str,
) -> (r: Result<ClipboardPlan, String>)
    ensures
        match r {
            Ok(plan) => {
                &&& copy_refusal(*item, *grant, now_ms, kind_text@) is None
                &&& is_plan(*item, paths.cache_dir@, id@, plan)
            },
            Err(m) => copy_refusal(*item, *grant, now_ms, kind_text@) == Some(m@),
        },
{
    if !grant.is_valid(item.id, now_ms) {
        return Err("content read grant invalid".to_owned());
    }
    let is_files = match item.kind {
        ContentKind::Files => true,
        _ => false,
    };
    if !is_files && item.payload_size > grant.max_bytes() {
        return Err("content exceeds grant max_bytes".to_owned());
    }
    match item.kind {
        ContentKind::Text => match load_bytes(item) {
            Ok(bytes) => Ok(ClipboardPlan::Text { bytes }),
            Err(_) => Err("text item has file payload".to_owned()),
        },
        ContentKind::Image | ContentKind::Screenshot => match load_bytes(item) {
            Ok(bytes) => {
                let (width, height): (u32, u32) = match &item.metadata.image {
                    Some(i) => (i.width, i.height),
                    None => (0, 0),
                };
                Ok(ClipboardPlan::Image { bytes, width, height })
            },
            Err(m) => Err(m),
        },
        ContentKind::Gif | ContentKind::Video => match load_bytes(item) {
            Ok(bytes) => {
                let dir = paths.item_cache(id);
                let is_gif = match item.kind {
                    ContentKind::Gif => true,
                    _ => false,
                };
                let is_avi = match &item.metadata.mime_hint {
                    Some(m) => same_text(m.as_str(), "video/x-msvideo"),
                    None => false,
                };
                let name = if is_gif {
                    "clip.gif".to_owned()
                } else if is_avi {
                    "clip.avi".to_owned()
                } else {
                    "clip.mp4".to_owned()
                };
                Ok(ClipboardPlan::MediaFile { bytes, dir, name })
            },
            Err(m) => Err(m),
        },
        ContentKind::Files => Ok(ClipboardPlan::Files { dir: item_files_dir(item, paths, id) }),
        ContentKind::Other(_) => {
            let mut m = "cannot copy kind ".to_owned();
            m.push_str(kind_text);
            Err(m)
        },
    }
}

/// The manifest of an item that is files, once the files in its directory were
/// counted.
pub fn files_manifest(item: &ContentItem, file_count: usize) -> (r: Result<ManifestId, String>)
    ensures
        if file_count == 0 {
            r matches Err(m) && m@ == "cached files missing"@
        } else {
            match item.payload_ref {
                PayloadRef::FileManifest(id) => r == Ok::<ManifestId, String>(id),
                _ => r matches Err(m) && m@ == "files item missing manifest"@,
            }
        },
{
    if file_count == 0 {
        return Err("cached files missing".to_owned());
    }
    match &item.payload_ref {
        PayloadRef::FileManifest(id) => Ok(*id),
        _ => Err("files item missing manifest".to_owned()),
    }
}

/// The text of bytes that go to the clipboard as text. Valid UTF-8 is taken as it
/// is.
pub fn clipboard_text(bytes: &[u8]) -> (r: String)
    ensures
        r@ == utf8_lossy(bytes@),
        valid_utf8(bytes@) ==> r@ == decode_utf8(bytes@),
{
    lossy_text(bytes)
}

/// What goes to the clipboard of an item that is text: the text of its bytes with
/// the item's marks and source, under the tag that was made of that text.
pub fn text_content(item: &ContentItem, bytes: &[u8], dedup_tag: [u8; 32]) -> (r: NormalizedContent)
    ensures
        r matches NormalizedContent::Text { text, dedup_tag: tag, flags, source_app } && {
            &&& text@ == utf8_lossy(bytes@)
            &&& (valid_utf8(bytes@) ==> text@ == decode_utf8(bytes@))
            &&& tag == dedup_tag
            &&& flags == item.flags
            &&& text_of(source_app) == text_of(item.metadata.source_app)
        },
{
    NormalizedContent::Text {
        text: clipboard_text(bytes),
        dedup_tag,
        flags: item.flags,
        source_app: copy_text(&item.metadata.source_app),
    }
}

/// What goes to the clipboard of an item that is a picture: the picture in the
/// size that the item names, with the item's marks and source, under the tag that
/// was made of it.
pub fn image_content(item: &ContentItem, png: Vec<u8>, dedup_tag: [u8; 32]) -> (r:
    NormalizedContent)
    ensures
        r matches NormalizedContent::Image {
            png: picture,
            width,
            height,
            dedup_tag: tag,
            flags,
            source_app,
        } && {
            &&& picture == png
            &&& match item.metadata.image {
                Some(i) => width == i.width && height == i.height,
                None => width == 0 && height == 0,
            }
            &&& tag == dedup_tag
            &&& flags == item.flags
            &&& text_of(source_app) == text_of(item.metadata.source_app)
        },
{
    let (width, height): (u32, u32) = match &item.metadata.image {
        Some(i) => (i.width, i.height),
        None => (0, 0),
    };
    NormalizedContent::Image {
        png,
        width,
        height,
        dedup_tag,
        flags: item.flags,
        source_app: copy_text(&item.metadata.source_app),
    }
}

/// What goes to the clipboard of an item that is a moving picture or a video, once
/// its bytes were written to a file: that one file, marked as not from here.
pub fn media_content(
    item: &ContentItem,
    dir: &str,
    name: &str,
    size: u64,
    dedup_tag: [u8; 32],
) -> (r: NormalizedContent)
    ensures
        r matches NormalizedContent::Files { paths, manifest, dedup_tag: tag, flags, source_app } && {
            &&& texts(paths@) == seq![joined_path(dir@, name@)]
            &&& (manifest matches FilesManifest::Single { name: file, size: length } && file@
                == name@ && length == size)
            &&& tag == dedup_tag
            &&& flags == (ContentFlags { from_remote: true, ..item.flags })
            &&& text_of(source_app) == text_of(item.metadata.source_app)
        },
{
    let mut paths: Vec<String> = Vec::new();
    paths.push(join_path(dir, name));
    assert(texts(paths@) =~= seq![joined_path(dir@, name@)]);
    NormalizedContent::Files {
        paths,
        manifest: FilesManifest::Single { name: name.to_owned(), size },
        dedup_tag,
        flags: ContentFlags { from_remote: true, ..item.flags },
        source_app: copy_text(&item.metadata.source_app),
    }
}

/// What goes to the clipboard of an item that is files: those in its directory,
/// marked as not from here.
pub fn files_content(item: &ContentItem, paths: Vec<String>, dedup_tag: [u8; 32]) -> (r: Result<
    NormalizedContent,
    String,
>)
    ensures
        match r {
            Ok(content) => {
                &&& paths@.len() > 0
                &&& (item.payload_ref matches PayloadRef::FileManifest(id) && {
                    &&& content matches NormalizedContent::Files {
                        paths: files,
                        manifest,
                        dedup_tag: tag,
                        flags,
                        source_app,
                    }
                    &&& files == paths
                    &&& manifest == FilesManifest::Kept(id)
                    &&& tag == dedup_tag
                    &&& flags == (ContentFlags { from_remote: true, ..item.flags })
                    &&& text_of(source_app) == text_of(item.metadata.source_app)
                })
            },
            Err(m) => if paths@.len() == 0 {
                m@ == "cached files missing"@
            } else {
                !(item.payload_ref is FileManifest) && m@ == "files item missing manifest"@
            },
        },
{
    match files_manifest(item, paths.len()) {
        Ok(id) => Ok(
            NormalizedContent::Files {
                paths,
                manifest: FilesManifest::Kept(id),
                dedup_tag,
                flags: ContentFlags { from_remote: true, ..item.flags },
                source_app: copy_text(&item.metadata.source_app),
            },
        ),
        Err(m) => Err(m),
    }
}

/// The cached files that must stay while an item is on the clipboard.
pub fn cache_pin_of(item: &ContentItem, id: &str) -> (r: Option<String>)
    ensures
        text_of(r) == (match item.metadata.local_cache_rel {
            Some(rel) => Some(rel@),
            None => if item.kind is Gif || item.kind is Video {
                Some(id@)
            } else {
                None
            },
        }),
{
    match &item.metadata.local_cache_rel {
        Some(rel) => Some(rel.clone()),
        None => match item.kind {
            ContentKind::Gif | ContentKind::Video => Some(id.to_owned()),
            _ => None,
        },
    }
}

/// The recovery key on its way to the clipboard: sensitive, and never to leave
/// this device.
fn recovery_flags() -> (r: ContentFlags)
    ensures
        r.sensitive,
        !r.remote_allowed,
        r == (ContentFlags {
            favorite: false,
            sensitive: true,
            local_only: false,
            transient: false,
            remote_allowed: false,
            from_remote: false,
            rest: 0,
        }),
{
    let mut flags = ContentFlags::empty();
    flags.sensitive = true;
    flags
}

/// The name under which the recovery key goes to the clipboard.
fn recovery_source() -> (r: &'static str)
    ensures
        r@ == "asterism.settings"@,
{
    "asterism.settings"
}

/// The recovery key as it goes to the clipboard, with the tag that was made of it:
/// sensitive, so that it enters no history, and not to leave this device.
pub fn recovery_clipboard_content(text: String, dedup_tag: [u8; 32]) -> (r: (
    NormalizedContent,
    [u8; 32],
))
    ensures
        r.1 == dedup_tag,
        r.0 matches NormalizedContent::Text { text: key, dedup_tag: tag, flags, source_app } && {
            &&& key == text
            &&& tag == dedup_tag
            &&& flags.sensitive
            &&& !flags.remote_allowed
            &&& flags == (ContentFlags {
                favorite: false,
                sensitive: true,
                local_only: false,
                transient: false,
                remote_allowed: false,
                from_remote: false,
                rest: 0,
            })
            &&& text_of(source_app) == Some("asterism.settings"@)
        },
{
    let content = NormalizedContent::Text {
        text,
        dedup_tag,
        flags: recovery_flags(),
        source_app: Some(recovery_source().to_owned()),
    };
    (content, dedup_tag)
}

/// What the clipboard watcher saw.
#[derive(Debug)]
pub enum ClipboardEvent {
    Captured { has_files: bool, has_image: bool },
    Ignored,
    Error,
}

/// What to do with what the watcher saw.
#[derive(Clone, Copy, Debug, PartialEq, Eq, Structural)]
pub enum WatcherStep {
    /// Hand it to the worker that copies files.
    QueueFiles,
    /// Keep it at once.
    Submit(ContentKind),
    /// Note the error.
    Warn,
    Nothing,
}

/// What a capture is taken for.
pub open spec fn captured_kind(has_files: bool, has_image: bool) -> ContentKind {
    if has_files {
        ContentKind::Files
    } else if has_image {
        ContentKind::Image
    } else {
        ContentKind::Text
    }
}

/// What a capture is taken for: files before pictures before text.
pub fn kind_hint(has_files: bool, has_image: bool) -> (r: ContentKind)
    ensures
        r == captured_kind(has_files, has_image),
{
    if has_files {
        ContentKind::Files
    } else if has_image {
        ContentKind::Image
    } else {
        ContentKind::Text
    }
}

/// What to do with what the watcher saw. Files go to a worker, since copying
/// them takes long.
pub fn watcher_step(event: &ClipboardEvent) -> (r: WatcherStep)
    ensures
        r == (match *event {
            ClipboardEvent::Captured { has_files, has_image } => if has_files {
                WatcherStep::QueueFiles
            } else {
                WatcherStep::Submit(captured_kind(has_files, has_image))
            },
            ClipboardEvent::Ignored => WatcherStep::Nothing,
            ClipboardEvent::Error => WatcherStep::Warn,
        }),
{
    match event {
        ClipboardEvent::Captured { has_files, has_image } => if *has_files {
            WatcherStep::QueueFiles
        } else {
            WatcherStep::Submit(kind_hint(*has_files, *has_image))
        },
        ClipboardEvent::Ignored => WatcherStep::Nothing,
        ClipboardEvent::Error => WatcherStep::Warn,
    }
}

/// How taking something into the history ended.
#[derive(Clone, Copy, Debug, PartialEq, Eq, Structural)]
pub enum IngestionOutcome {
    Committed(ContentId),
    Ignored,
    RejectedPolicy,
}

/// The item that a capture of the screen became. One that was not taken is an
/// error.
pub fn ingest_image_outcome(outcome: IngestionOutcome) -> (r: Result<ContentId, String>)
    ensures
        match outcome {
            IngestionOutcome::Committed(id) => r == Ok::<ContentId, String>(id),
            IngestionOutcome::Ignored => r matches Err(m) && m@
                == "capture ignored as duplicate source event"@,
            IngestionOutcome::RejectedPolicy => r matches Err(m) && m@
                == "capture rejected by policy"@,
        },
{
    match outcome {
        IngestionOutcome::Committed(id) => Ok(id),
        IngestionOutcome::Ignored => Err("capture ignored as duplicate source event".to_owned()),
        IngestionOutcome::RejectedPolicy => Err("capture rejected by policy".to_owned()),
    }
}

/// What follows when a capture of the clipboard was taken: the devices are told
/// and the window is refreshed, and copied files must stay.
#[derive(Clone, Copy, Debug, PartialEq, Eq, Structural)]
pub struct SubmitEffects {
    pub announce: bool,
    pub pin: Option<ContentId>,
}

/// What follows when a capture of the clipboard was taken or not.
pub fn submit_capture(outcome: IngestionOutcome, has_files: bool) -> (r: SubmitEffects)
    ensures
        r == (match outcome {
            IngestionOutcome::Committed(id) => (SubmitEffects {
                announce: true,
                pin: if has_files {
                    Some(id)
                } else {
                    None
                },
            }),
            _ => (SubmitEffects { announce: false, pin: None }),
        }),
{
    match outcome {
        IngestionOutcome::Committed(id) => SubmitEffects {
            announce: true,
            pin: if has_files {
                Some(id)
            } else {
                None
            },
        },
        _ => SubmitEffects { announce: false, pin: None },
    }
}

/// An item goes to the clipboard just if a grant for it is in force that covers its size,
/// which is not asked of files, if its kind has a place there, and if its contents are of
/// its kind; and then in the form of its kind, with its own contents.
pub proof fn granted_items_go_to_the_clipboard(
    item: ContentItem,
    paths: AppPaths,
    grant: ContentReadGrant,
    now_ms: u64,
    id: &str,
    kind_text: &str,
    r: Result<ClipboardPlan, String>,
    valid: bool,
    covers: u64,
)
    requires
        call_ensures(item_to_clipboard, (&item, &paths, &grant, now_ms, id, kind_text), r),
        call_ensures(ContentReadGrant::is_valid, (&grant, item.id, now_ms), valid),
        call_ensures(ContentReadGrant::max_bytes, (&grant,), covers),
    ensures
        r is Ok <==> {
            &&& valid
            &&& item.kind is Files || item.payload_size <= covers
            &&& !(item.kind is Other)
            &&& item.kind is Files || !(item.payload_ref is FileManifest)
        },
        r is Ok ==> {
            let plan = r->Ok_0;
            &&& plan is Text <==> item.kind is Text
            &&& plan is Image <==> item.kind is Image || item.kind is Screenshot
            &&& plan is MediaFile <==> item.kind is Gif || item.kind is Video
            &&& plan is Files <==> item.kind is Files
            &&& plan matches ClipboardPlan::Image { bytes, width, height } ==> {
                &&& item.metadata.image is Some ==> width == item.metadata.image->0.width && height
                    == item.metadata.image->0.height
                &&& item.metadata.image is None ==> width == 0 && height == 0
            }
        },
        r matches Ok(ClipboardPlan::MediaFile { bytes, dir, name }) ==> {
            &&& name@ == "clip.gif"@ <==> item.kind is Gif
            &&& name@ == "clip.avi"@ <==> item.kind is Video && item.metadata.mime_hint is Some
                && item.metadata.mime_hint->0@ == "video/x-msvideo"@
            &&& name@ == "clip.gif"@ || name@ == "clip.avi"@ || name@ == "clip.mp4"@
        },
{
    reveal_strlit("clip.gif");
    reveal_strlit("clip.avi");
    reveal_strlit("clip.mp4");
    assert("clip.gif"@[5] == 'g' && "clip.avi"@[5] == 'a' && "clip.mp4"@[5] == 'm');
}

/// The bytes that go to the clipboard are those of the item: the ones it holds, or its
/// blob.
pub proof fn contents_of_the_item_are_used(
    item: ContentItem,
    paths: AppPaths,
    grant: ContentReadGrant,
    now_ms: u64,
    id: &str,
    kind_text: &str,
    plan: ClipboardPlan,
    source: Result<BytesSource, String>,
)
    requires
        call_ensures(
            item_to_clipboard,
            (&item, &paths, &grant, now_ms, id, kind_text),
            Ok::<ClipboardPlan, String>(plan),
        ),
        call_ensures(load_bytes, (&item,), source),
    ensures
        source is Ok <==> !(item.payload_ref is FileManifest),
        source is Ok ==> {
            &&& source->Ok_0 is Inline <==> item.payload_ref is Inline
            &&& item.payload_ref matches PayloadRef::Blob(b) ==> source->Ok_0->Blob_0@ == b.hex@
        },
        plan matches ClipboardPlan::Text { bytes } ==> {
            &&& bytes is Inline <==> item.payload_ref is Inline
            &&& item.payload_ref matches PayloadRef::Blob(b) ==> bytes->Blob_0@ == b.hex@
        },
        plan matches ClipboardPlan::Image { bytes, width, height } ==> {
            &&& bytes is Inline <==> item.payload_ref is Inline
            &&& item.payload_ref matches PayloadRef::Blob(b) ==> bytes->Blob_0@ == b.hex@
        },
        plan matches ClipboardPlan::MediaFile { bytes, dir, name } ==> {
            &&& bytes is Inline <==> item.payload_ref is Inline
            &&& item.payload_ref matches PayloadRef::Blob(b) ==> bytes->Blob_0@ == b.hex@
        },
{
}

/// The files of an item are in the directory that it names, or else in that of its
/// identity, each inside the directory for items.
pub proof fn files_are_in_the_cache(item: ContentItem, paths: AppPaths, id: &str, r: String)
    requires
        call_ensures(item_files_dir, (&item, &paths, id), r),
        paths.cache_dir@.len() > 0,
    ensures
        ({
            let name = if item.metadata.local_cache_rel is Some {
                item.metadata.local_cache_rel->0@
            } else {
                id@
            };
            name.len() == 0 || name[0] != '/' ==> {
                &&& paths.cache_dir@.is_prefix_of(r@)
                &&& name.is_suffix_of(r@)
                &&& r@[r@.len() - name.len() - 1] == '/'
            }
        }),
{
    let items = joined_path(paths.cache_dir@, "items"@);
    reveal_strlit("items");
    assert("items"@.len() == 5);
    let name = if item.metadata.local_cache_rel is Some {
        item.metadata.local_cache_rel->0@
    } else {
        id@
    };
    crate::path::joined_path_is_inside(paths.cache_dir@, "items"@);
    crate::path::joined_path_is_inside(items, name);
    if name.len() == 0 || name[0] != '/' {
        assert forall|i: int| 0 <= i < paths.cache_dir@.len() implies r@[i]
            == paths.cache_dir@[i] by {
            assert(r@.take(items.len() as int)[i] == items[i]);
            assert(items.take(paths.cache_dir@.len() as int)[i] == paths.cache_dir@[i]);
        }
    }
}

/// What goes to the clipboard keeps the marks and the source of the item, but that files
/// are marked as not from here; text and pictures keep their contents, and files their
/// paths.
pub proof fn contents_keep_marks_and_source(
    item: ContentItem,
    bytes: &[u8],
    png: Vec<u8>,
    dir: &str,
    name: &str,
    size: u64,
    files: Vec<String>,
    tag: [u8; 32],
    text: NormalizedContent,
    image: NormalizedContent,
    media: NormalizedContent,
    kept: Result<NormalizedContent, String>,
)
    requires
        call_ensures(text_content, (&item, bytes, tag), text),
        call_ensures(image_content, (&item, png, tag), image),
        call_ensures(media_content, (&item, dir, name, size, tag), media),
        call_ensures(files_content, (&item, files, tag), kept),
    ensures
        text matches NormalizedContent::Text { text, dedup_tag, flags, source_app } && dedup_tag
            == tag && flags == item.flags && (valid_utf8(bytes@) ==> text@ == decode_utf8(bytes@))
            && text_of(source_app) == text_of(item.metadata.source_app),
        image is Image && image->png == png && image->Image_dedup_tag == tag && image->Image_flags
            == item.flags,
        item.metadata.image is Some ==> image->width == item.metadata.image->0.width && image->height
            == item.metadata.image->0.height,
        text_of(image->Image_source_app) == text_of(item.metadata.source_app),
        media is Files && media->paths@.len() == 1 && media->Files_dedup_tag == tag,
        media->manifest is Single && media->manifest->name@ == name@ && media->manifest->size == size,
        media->Files_flags.from_remote && media->Files_flags.favorite == item.flags.favorite
            && media->Files_flags.sensitive == item.flags.sensitive
            && media->Files_flags.remote_allowed == item.flags.remote_allowed,
        kept is Ok <==> files@.len() > 0 && item.payload_ref is FileManifest,
        kept matches Ok(k) ==> k is Files && k->paths == files && k->manifest is Kept
            && k->manifest->Kept_0 == item.payload_ref->FileManifest_0 && k->Files_dedup_tag == tag
            && k->Files_flags.from_remote && k->Files_flags.sensitive == item.flags.sensitive,
{
    assert(texts(media->paths@).len() == 1);
}

/// The directory that an item names stays while the item is on the clipboard; of moving
/// pictures and videos that name none, the one of the identity does.
pub proof fn cached_files_stay(item: ContentItem, id: &str, r: Option<String>)
    requires
        call_ensures(cache_pin_of, (&item, id), r),
    ensures
        item.metadata.local_cache_rel matches Some(rel) ==> r is Some && r->0@ == rel@,
        item.metadata.local_cache_rel is None && (item.kind is Gif || item.kind is Video)
            ==> r is Some && r->0@ == id@,
        item.metadata.local_cache_rel is None && !(item.kind is Gif || item.kind is Video)
            ==> r is None,
{
}

/// The recovery key goes to the clipboard as it is, and enters neither the history nor
/// another device.
pub proof fn recovery_keys_stay_secret(
    text: String,
    tag: [u8; 32],
    r: (NormalizedContent, [u8; 32]),
)
    requires
        call_ensures(recovery_clipboard_content, (text, tag), r),
    ensures
        r.1 == tag,
        r.0 is Text && r.0->text == text && r.0->Text_dedup_tag == tag,
        r.0->Text_flags.sensitive && !r.0->Text_flags.remote_allowed,
        !crate::content::flags_allow_history(r.0->Text_flags),
        !crate::content::flags_allow_remote(r.0->Text_flags),
{
}

/// What the watcher saw is kept: files by the worker, and pictures and texts at once, as
/// what they are.
pub proof fn seen_things_are_kept(
    has_files: bool,
    has_image: bool,
    event: ClipboardEvent,
    r: WatcherStep,
    kind: ContentKind,
)
    requires
        call_ensures(watcher_step, (&event,), r),
        call_ensures(kind_hint, (has_files, has_image), kind),
    ensures
        event == (ClipboardEvent::Captured { has_files, has_image }) ==> {
            &&& r == WatcherStep::QueueFiles <==> has_files
            &&& r == WatcherStep::Submit(ContentKind::Image) <==> !has_files && has_image
            &&& r == WatcherStep::Submit(ContentKind::Text) <==> !has_files && !has_image
        },
        event is Ignored <==> r == WatcherStep::Nothing,
        event is Error <==> r == WatcherStep::Warn,
        kind == ContentKind::Files <==> has_files,
        kind == ContentKind::Image <==> has_image && !has_files,
        kind == ContentKind::Text <==> !has_image && !has_files,
{
}

/// What was taken into the history is announced, and nothing else is; copied files stay.
pub proof fn taken_things_are_announced(
    outcome: IngestionOutcome,
    has_files: bool,
    r: SubmitEffects,
    image: Result<ContentId, String>,
)
    requires
        call_ensures(submit_capture, (outcome, has_files), r),
        call_ensures(ingest_image_outcome, (outcome,), image),
    ensures
        r.announce <==> outcome is Committed,
        r.pin is Some <==> outcome is Committed && has_files,
        r.pin is Some ==> r.pin->0 == outcome->Committed_0,
        image is Ok <==> outcome is Committed,
        image is Ok ==> image->Ok_0 == outcome->Committed_0,
{
}


} // verus!
