//! The items that the history holds and that devices exchange.

use vstd::prelude::*;

use crate::text::{copy_text, text_of};

verus! {

/// The identity of an item.
#[derive(Clone, Copy, Debug, PartialEq, Eq, Structural, Hash)]
pub struct ContentId {
    pub raw: u128,
}

/// The identity of a device.
#[derive(Clone, Copy, Debug, PartialEq, Eq, Structural, Hash)]
pub struct DeviceId {
    pub raw: u128,
}

/// The identity of a file manifest.
#[derive(Clone, Copy, Debug, PartialEq, Eq, Structural, Hash)]
pub struct ManifestId {
    pub raw: u128,
}

/// The identity of a stored blob: the hexadecimal digest of its bytes.
#[derive(Debug)]
pub struct BlobId {
    pub hex: String,
}

/// What an item is. Kinds without a rule of their own are told apart by number.
#[derive(Clone, Copy, Debug, PartialEq, Eq, Structural)]
pub enum ContentKind {
    Text,
    Image,
    Screenshot,
    Gif,
    Video,
    Files,
    Other(u32),
}

/// How far an item has been synchronised.
#[derive(Clone, Copy, Debug, PartialEq, Eq, Structural)]
pub enum ContentStatus {
    Local,
    Uploading,
    Failed,
    SyncedToHub,
    Other(u32),
}

/// The marks on an item. `rest` holds marks without a rule here.
#[derive(Clone, Copy, Debug, PartialEq, Eq, Structural)]
pub struct ContentFlags {
    pub favorite: bool,
    pub sensitive: bool,
    pub local_only: bool,
    pub transient: bool,
    pub remote_allowed: bool,
    pub from_remote: bool,
    pub rest: u32,
}

/// Where the contents of an item are.
#[derive(Debug)]
pub enum PayloadRef {
    Inline(Vec<u8>),
    Blob(BlobId),
    FileManifest(ManifestId),
}

/// The size of a picture, in pixels.
#[derive(Clone, Copy, Debug, PartialEq, Eq, Structural)]
pub struct ImageInfo {
    pub width: u32,
    pub height: u32,
}

/// The files of an item.
#[derive(Debug)]
pub struct FilesInfo {
    pub root_name: String,
    pub file_count: u64,
}

/// What is known of an item beside its contents.
#[derive(Debug)]
pub struct ItemMetadata {
    pub text_preview: Option<String>,
    pub source_app: Option<String>,
    pub image: Option<ImageInfo>,
    pub files: Option<FilesInfo>,
    pub mime_hint: Option<String>,
    pub local_cache_rel: Option<String>,
}

impl Default for ItemMetadata {
    fn default() -> (r: Self)
        ensures
            r.text_preview is None,
            r.source_app is None,
            r.image is None,
            r.files is None,
            r.mime_hint is None,
            r.local_cache_rel is None,
    {
        ItemMetadata {
            text_preview: None,
            source_app: None,
            image: None,
            files: None,
            mime_hint: None,
            local_cache_rel: None,
        }
    }
}

/// An item of the history.
#[derive(Debug)]
pub struct ContentItem {
    pub id: ContentId,
    pub origin_device_id: DeviceId,
    pub kind: ContentKind,
    pub created_at_ms: i64,
    pub logical_size: u64,
    pub payload_size: u64,
    pub dedup_tag: [u8; 32],
    pub flags: ContentFlags,
    pub status: ContentStatus,
    pub metadata: ItemMetadata,
    pub payload_ref: PayloadRef,
}

impl ContentFlags {
    /// No marks at all.
    pub fn empty() -> (r: ContentFlags)
        ensures
            r == (ContentFlags {
                favorite: false,
                sensitive: false,
                local_only: false,
                transient: false,
                remote_allowed: false,
                from_remote: false,
                rest: 0,
            }),
    {
        ContentFlags {
            favorite: false,
            sensitive: false,
            local_only: false,
            transient: false,
            remote_allowed: false,
            from_remote: false,
            rest: 0,
        }
    }
}

/// Whether marks allow an item into the history.
pub open spec fn flags_allow_history(flags: ContentFlags) -> bool {
    !flags.sensitive && !flags.transient
}

/// Whether marks allow an item to leave the device.
pub open spec fn flags_allow_remote(flags: ContentFlags) -> bool {
    flags.remote_allowed && !flags.sensitive && !flags.local_only && !flags.transient
}

/// The blob that an item's contents are in, if they are in one.
pub open spec fn blob_of(item: ContentItem) -> Option<Seq<char>> {
    match item.payload_ref {
        PayloadRef::Blob(b) => Some(b.hex@),
        _ => None,
    }
}

impl ContentItem {
    /// Whether the item may enter the history: sensitive and transient items
    /// may not.
    pub fn may_enter_history(&self) -> (r: bool)
        ensures
            r == flags_allow_history(self.flags),
    {
        !self.flags.sensitive && !self.flags.transient
    }

    /// Whether the item may leave this device.
    pub fn may_sync_remote(&self) -> (r: bool)
        ensures
            r == flags_allow_remote(self.flags),
    {
        self.flags.remote_allowed && !self.flags.sensitive && !self.flags.local_only
            && !self.flags.transient
    }
}

/// The tag that tells equal items: the bytes that were sent if they are 32, and
/// zeros otherwise.
pub open spec fn tag_from(sent: Seq<u8>) -> Seq<u8> {
    if sent.len() == 32 {
        sent
    } else {
        Seq::new(32, |i: int| 0u8)
    }
}

/// The tag that tells equal items, from the bytes that were sent.
pub fn tag_of(sent: &[u8]) -> (r: [u8; 32])
    ensures
        r@ == tag_from(sent@),
{
    let mut out = [0u8; 32];
    if sent.len() == 32 {
        let mut i: usize = 0;
        while i < 32
            invariant
                i <= 32,
                sent@.len() == 32,
                forall|j: int| 0 <= j < i ==> out@[j] == sent@[j],
            decreases 32 - i,
        {
            out[i] = sent[i];
            i += 1;
        }
    }
    assert(out@ =~= tag_from(sent@));
    out
}

impl ItemMetadata {
    /// Whether two items have the same metadata.
    pub open spec fn same(&self, other: &ItemMetadata) -> bool {
        &&& text_of(self.text_preview) == text_of(other.text_preview)
        &&& text_of(self.source_app) == text_of(other.source_app)
        &&& self.image == other.image
        &&& (match (self.files, other.files) {
            (Some(a), Some(b)) => a.root_name@ == b.root_name@ && a.file_count == b.file_count,
            (None, None) => true,
            _ => false,
        })
        &&& text_of(self.mime_hint) == text_of(other.mime_hint)
        &&& text_of(self.local_cache_rel) == text_of(other.local_cache_rel)
    }

    /// A copy.
    pub fn copy(&self) -> (r: ItemMetadata)
        ensures
            r.same(self),
    {
        ItemMetadata {
            text_preview: copy_text(&self.text_preview),
            source_app: copy_text(&self.source_app),
            image: self.image,
            files: match &self.files {
                Some(f) => Some(
                    FilesInfo { root_name: f.root_name.clone(), file_count: f.file_count },
                ),
                None => None,
            },
            mime_hint: copy_text(&self.mime_hint),
            local_cache_rel: copy_text(&self.local_cache_rel),
        }
    }
}

/// The identity that sixteen bytes hold, most significant byte first.
pub fn id_of_bytes(b: &[u8]) -> (r: u128)
    requires
        b@.len() == 16,
    ensures
        r == crate::bytes::be_value(b@),
{
    let high: u64 = crate::bytes::read_be(b, 0, 8);
    let low: u64 = crate::bytes::read_be(b, 8, 8);
    proof {
        lemma_be_split(b@, 8);
        crate::bytes::lemma_pow256();
        assert(b@.subrange(0, 8) =~= b@.take(8));
        assert(b@.subrange(8, 16) =~= b@.skip(8));
    }
    (high as u128) * 0x1_0000_0000_0000_0000u128 + (low as u128)
}

/// A byte sequence's value by its first bytes and the rest.
pub proof fn lemma_be_split(b: Seq<u8>, k: int)
    requires
        0 <= k <= b.len(),
    ensures
        crate::bytes::be_value(b) == crate::bytes::be_value(b.take(k)) * crate::bytes::pow256(
            (b.len() - k) as nat,
        ) + crate::bytes::be_value(b.skip(k)),
    decreases b.len() - k,
{
    if k == b.len() {
        assert(b.take(k) =~= b);
        assert(b.skip(k) =~= Seq::<u8>::empty());
        assert(crate::bytes::pow256(0) == 1);
        let v = crate::bytes::be_value(b);
        assert(v * 1 == v) by (nonlinear_arith);
    } else {
        let shorter = b.drop_last();
        lemma_be_split(shorter, k);
        assert(shorter.take(k) =~= b.take(k));
        assert(b.skip(k).drop_last() =~= shorter.skip(k));
        assert(b.skip(k).last() == b.last());
        let p = crate::bytes::pow256((shorter.len() - k) as nat);
        let v = crate::bytes::be_value(b.take(k));
        assert(crate::bytes::pow256((b.len() - k) as nat) == 256 * p);
        assert(256 * (v * p) == v * (256 * p)) by (nonlinear_arith);
        let low = crate::bytes::be_value(shorter.skip(k));
        assert(crate::bytes::be_value(b) == 256 * (v * p + low) + b.last() as nat);
        assert(crate::bytes::be_value(b.skip(k)) == 256 * low + b.last() as nat);
    }
}

/// The sixteen bytes of an identity, most significant byte first.
pub fn bytes_of_id(raw: u128) -> (r: Vec<u8>)
    ensures
        r@ == crate::bytes::be_bytes(raw as nat, 16),
{
    let mut out: Vec<u8> = Vec::new();
    push_be128(&mut out, raw, 16);
    assert(out@ =~= crate::bytes::be_bytes(raw as nat, 16));
    out
}

fn push_be128(out: &mut Vec<u8>, n: u128, k: usize)
    ensures
        final(out)@ == old(out)@ + crate::bytes::be_bytes(n as nat, k as nat),
    decreases k,
{
    if k > 0 {
        push_be128(out, n / 256, k - 1);
        out.push((n % 256) as u8);
    }
    assert(final(out)@ =~= old(out)@ + crate::bytes::be_bytes(n as nat, k as nat));
}

/// Only items that are neither sensitive nor transient enter the history, and only
/// those of them leave the device that are marked to be allowed to and not to be kept
/// here. No other mark keeps an item back.
pub proof fn marks_decide(flags: ContentFlags)
    ensures
        flags_allow_history(flags) <==> !(flags.sensitive || flags.transient),
        flags_allow_remote(flags) <==> flags.remote_allowed && !(flags.sensitive || flags.local_only
            || flags.transient),
        flags_allow_remote(flags) ==> flags_allow_history(flags),
{
}

/// The blob of an item is the one that its contents are in; contents that are held
/// otherwise are in none.
pub proof fn blob_is_that_of_the_contents(item: ContentItem)
    ensures
        item.payload_ref matches PayloadRef::Blob(b) ==> blob_of(item) == Some(b.hex@),
        item.payload_ref is Inline ==> blob_of(item) is None,
        item.payload_ref is FileManifest ==> blob_of(item) is None,
{
}

/// A tag of thirty-two bytes is taken as it was sent, whatever bytes it has; anything
/// else becomes thirty-two zeros.
pub proof fn tags_are_kept(sent: Seq<u8>)
    ensures
        tag_from(sent).len() == 32,
        sent.len() == 32 ==> tag_from(sent) == sent,
        sent.len() != 32 ==> forall|i: int| 0 <= i < 32 ==> #[trigger] tag_from(sent)[i] == 0,
{
}

/// A copy of metadata has every field of the original.
pub proof fn copied_metadata_is_the_same(a: ItemMetadata, b: ItemMetadata)
    requires
        a.same(&b),
    ensures
        text_of(a.text_preview) == text_of(b.text_preview),
        text_of(a.source_app) == text_of(b.source_app),
        a.image == b.image,
        (a.files is Some) == (b.files is Some),
        a.files is Some ==> a.files->0.root_name@ == b.files->0.root_name@ && a.files->0.file_count
            == b.files->0.file_count,
        text_of(a.mime_hint) == text_of(b.mime_hint),
        text_of(a.local_cache_rel) == text_of(b.local_cache_rel),
{
}


/// An item is kept in the history unless it is sensitive or transient, and may leave this
/// device just if that is allowed and it is neither of these nor marked to stay.
pub proof fn marks_decide_on_items(item: ContentItem, history: bool, remote: bool)
    requires
        call_ensures(ContentItem::may_enter_history, (&item,), history),
        call_ensures(ContentItem::may_sync_remote, (&item,), remote),
    ensures
        history <==> !item.flags.sensitive && !item.flags.transient,
        remote <==> item.flags.remote_allowed && !item.flags.sensitive && !item.flags.local_only
            && !item.flags.transient,
{
}

/// An identity is read back from its bytes.
pub proof fn identities_are_read_back(raw: u128, b: Vec<u8>, bytes: &[u8], r: u128)
    requires
        call_ensures(bytes_of_id, (raw,), b),
        bytes@ == b@,
        bytes@.len() == 16,
        call_ensures(id_of_bytes, (bytes,), r),
    ensures
        r == raw,
{
    crate::storage::repo::lemma_id_bound();
    crate::bytes::be_round_trip(raw as nat, 16);
}


} // verus!
