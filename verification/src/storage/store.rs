//! The tables of the local store and what each operation does to them.
//!
//! An operation either changes all the tables it concerns or none.

use vstd::prelude::*;

use crate::content::{
    blob_of, flags_allow_history, BlobId, ContentFlags, ContentId, ContentItem, ContentKind,
    ContentStatus, ManifestId, PayloadRef,
};
use crate::storage::error::{StorageError, StorageErrorView};
use crate::storage::outbox::{
    acked, ack_counts, available_rows, awaits, committed_event, deleted_event, delivery_rows,
    due_rows, first_n, lemma_nothing_due, lemma_row_with, lemma_unacked, page_limit, retried,
    row_with, unacked, Consumer, EventType, Outbox, OutboxEvent,
};
use crate::storage::repo::{
    awaits_sync, distinct_ids, history_page_leaves_nothing_out,
    history_page_shows_what_was_asked_for, is_listed, is_page, list_history, list_pending_sync,
    pointees, HistoryQuery,
};
use crate::table::{
    distinct_keys, lemma_rows_map, lemma_rows_push, lemma_rows_remove, lemma_rows_update, rows_map,
};
use crate::text::{same_text, texts};

verus! {

/// The manifest of an item that consists of files.
#[derive(Debug)]
pub struct ManifestRow {
    pub id: ManifestId,
    pub content_id: ContentId,
    pub manifest_json: String,
}

/// How often a blob is used, and since when it has not been.
#[derive(Debug)]
pub struct BlobRefRow {
    pub blob: String,
    pub ref_count: u64,
    pub created_at_ms: i64,
    pub last_released_at_ms: Option<i64>,
}

/// A value kept under a name.
#[derive(Debug)]
pub struct CursorRow {
    pub scope: String,
    pub cursor: String,
    pub updated_at_ms: i64,
}

/// The use of a blob as mathematical values.
pub struct BlobUse {
    pub count: nat,
    pub created_at_ms: i64,
    pub released_at_ms: Option<i64>,
}

/// The rows of blob uses, keyed by blob.
pub open spec fn use_rows(refs: Seq<BlobRefRow>) -> Seq<(Seq<char>, BlobUse)> {
    refs.map_values(
        |r: BlobRefRow|
            (
                r.blob@,
                BlobUse {
                    count: r.ref_count as nat,
                    created_at_ms: r.created_at_ms,
                    released_at_ms: r.last_released_at_ms,
                },
            ),
    )
}

/// The rows of named values, keyed by name.
pub open spec fn cursor_rows(rows: Seq<CursorRow>) -> Seq<(Seq<char>, (Seq<char>, i64))> {
    rows.map_values(|r: CursorRow| (r.scope@, (r.cursor@, r.updated_at_ms)))
}

/// How many items have their contents in a blob.
pub open spec fn uses(items: Seq<ContentItem>, blob: Seq<char>) -> nat
    decreases items.len(),
{
    if items.len() == 0 {
        0
    } else {
        uses(items.drop_last(), blob) + if blob_of(items.last()) == Some(blob) {
            1nat
        } else {
            0nat
        }
    }
}

/// Where the item with an identity stands, if there is one.
pub open spec fn position(items: Seq<ContentItem>, id: ContentId) -> Option<int>
    decreases items.len(),
{
    if items.len() == 0 {
        None
    } else if items.last().id == id {
        Some(items.len() - 1)
    } else {
        position(items.drop_last(), id)
    }
}

/// The use of blobs after one more item uses a blob.
pub open spec fn bumped(
    m: Map<Seq<char>, BlobUse>,
    blob: Seq<char>,
    created_at_ms: i64,
) -> Map<Seq<char>, BlobUse> {
    if m.dom().contains(blob) {
        m.insert(blob, BlobUse { count: m[blob].count + 1, ..m[blob] })
    } else {
        m.insert(blob, BlobUse { count: 1, created_at_ms, released_at_ms: None })
    }
}

/// The use of blobs after an item has stopped using a blob.
pub open spec fn released(
    m: Map<Seq<char>, BlobUse>,
    blob: Seq<char>,
    now_ms: i64,
) -> Map<Seq<char>, BlobUse> {
    m.insert(
        blob,
        BlobUse {
            count: if m[blob].count > 0 {
                (m[blob].count - 1) as nat
            } else {
                0
            },
            released_at_ms: Some(now_ms),
            ..m[blob]
        },
    )
}

/// The use of blobs after a blob was stored that no item uses yet.
pub open spec fn reserved(
    m: Map<Seq<char>, BlobUse>,
    blob: Seq<char>,
    now_ms: i64,
) -> Map<Seq<char>, BlobUse> {
    if !m.dom().contains(blob) {
        m.insert(
            blob,
            BlobUse { count: 0, created_at_ms: now_ms, released_at_ms: Some(now_ms) },
        )
    } else if m[blob].count == 0 {
        m.insert(blob, BlobUse { released_at_ms: Some(now_ms), ..m[blob] })
    } else {
        m
    }
}

/// Whether no item uses a blob and the last one stopped doing so by a time.
pub open spec fn is_garbage(u: BlobUse, released_before_ms: i64) -> bool {
    u.count == 0 && u.released_at_ms is Some && u.released_at_ms->0 <= released_before_ms
}

/// The manifests that are not of an item.
pub open spec fn manifests_without(ms: Seq<ManifestRow>, id: ContentId) -> Seq<ManifestRow>
    decreases ms.len(),
{
    if ms.len() == 0 {
        Seq::empty()
    } else if ms.last().content_id == id {
        manifests_without(ms.drop_last(), id)
    } else {
        manifests_without(ms.drop_last(), id).push(ms.last())
    }
}

/// Whether a manifest identity is in use.
pub open spec fn has_manifest(ms: Seq<ManifestRow>, id: ManifestId) -> bool {
    exists|i: int| 0 <= i < ms.len() && (#[trigger] ms[i]).id == id
}

/// The tables of the local store.
#[derive(Debug)]
pub struct Store {
    pub items: Vec<ContentItem>,
    pub manifests: Vec<ManifestRow>,
    pub blob_refs: Vec<BlobRefRow>,
    pub cursors: Vec<CursorRow>,
    pub outbox: Outbox,
}

/// Whether the use of blobs is what the items say: each blob is counted as often
/// as items use it, each blob in use is counted, and a blob that is not in use
/// has a time since which it is not.
pub open spec fn counts_uses(items: Seq<ContentItem>, m: Map<Seq<char>, BlobUse>) -> bool {
    &&& forall|b: Seq<char>| #[trigger]
        m.dom().contains(b) ==> m[b].count == uses(items, b) && (m[b].count == 0
            ==> m[b].released_at_ms is Some)
    &&& forall|i: int|
        0 <= i < items.len() && blob_of(#[trigger] items[i]) is Some ==> m.dom().contains(
            blob_of(items[i])->0,
        )
}

impl Store {
    /// The use of blobs, by blob.
    pub open spec fn blob_uses(&self) -> Map<Seq<char>, BlobUse> {
        rows_map(use_rows(self.blob_refs@))
    }

    /// The named values, by name.
    pub open spec fn values(&self) -> Map<Seq<char>, (Seq<char>, i64)> {
        rows_map(cursor_rows(self.cursors@))
    }

    /// The tables are consistent: identities are unique, no item is sensitive or
    /// transient, and blobs are counted as they are used.
    pub open spec fn wf(&self) -> bool {
        &&& distinct_ids(self.items@)
        &&& forall|i: int| 0 <= i < self.items@.len() ==> flags_allow_history(
            (#[trigger] self.items@[i]).flags,
        )
        &&& distinct_keys(use_rows(self.blob_refs@))
        &&& counts_uses(self.items@, self.blob_uses())
        &&& distinct_keys(cursor_rows(self.cursors@))
        &&& self.outbox.wf()
    }

    /// An empty store, whose first event will have the number one.
    pub fn new() -> (r: Store)
        ensures
            r.wf(),
            r.items@.len() == 0,
            r.manifests@.len() == 0,
            r.blob_refs@.len() == 0,
            r.blob_uses() == Map::<Seq<char>, BlobUse>::empty(),
            r.cursors@.len() == 0,
            r.values() == Map::<Seq<char>, (Seq<char>, i64)>::empty(),
            r.outbox.rows@.len() == 0,
            r.outbox.deliveries@.len() == 0,
            r.outbox.last_id == 0,
    {
        Store {
            items: Vec::new(),
            manifests: Vec::new(),
            blob_refs: Vec::new(),
            cursors: Vec::new(),
            outbox: Outbox::new(),
        }
    }

    fn find(&self, id: ContentId) -> (r: Option<usize>)
        ensures
            match r {
                Some(i) => position(self.items@, id) == Some(i as int) && i < self.items@.len()
                    && self.items@[i as int].id == id,
                None => position(self.items@, id) is None,
            },
    {
        let mut i: usize = self.items.len();
        assert(self.items@.take(i as int) =~= self.items@);
        while i > 0
            invariant
                i <= self.items@.len(),
                position(self.items@, id) == position(self.items@.take(i as int), id),
            decreases i,
        {
            proof {
                assert(self.items@.take(i as int).drop_last() =~= self.items@.take(i - 1));
                assert(self.items@.take(i as int).last() == self.items@[i - 1]);
            }
            if self.items[i - 1].id == id {
                return Some(i - 1);
            }
            i -= 1;
        }
        None
    }

    /// The item with an identity.
    pub fn get(&self, id: ContentId) -> (r: Result<&ContentItem, StorageError>)
        ensures
            match r {
                Ok(item) => position(self.items@, id) is Some && *item == self.items@[position(
                    self.items@,
                    id,
                )->0] && item.id == id,
                Err(e) => position(self.items@, id) is None && e@ == StorageErrorView::NotFound,
            },
    {
        match self.find(id) {
            Some(i) => Ok(&self.items[i]),
            None => Err(StorageError::NotFound),
        }
    }

    /// Whether there is an item with an identity.
    pub fn contains(&self, id: ContentId) -> (r: bool)
        ensures
            r == (position(self.items@, id) is Some),
    {
        self.find(id).is_some()
    }

    /// The newest items that a query asks for.
    pub fn history(&self, q: &HistoryQuery, hits: &[ContentId]) -> (r: Vec<&ContentItem>)
        requires
            self.wf(),
        ensures
            is_page(
                self.items@,
                |item: ContentItem| is_listed(item, *q, hits@),
                true,
                page_limit(q.limit),
                pointees(r@),
            ),
    {
        list_history(&self.items, q, hits)
    }

    /// The oldest items that wait to be sent to other devices.
    pub fn pending_sync(&self, limit: u32) -> (r: Vec<&ContentItem>)
        requires
            self.wf(),
        ensures
            is_page(
                self.items@,
                |item: ContentItem| awaits_sync(item),
                false,
                page_limit(limit),
                pointees(r@),
            ),
    {
        list_pending_sync(&self.items, limit)
    }

    fn find_use(&self, blob: &str) -> (r: Option<usize>)
        requires
            distinct_keys(use_rows(self.blob_refs@)),
        ensures
            match r {
                Some(i) => {
                    &&& i < self.blob_refs@.len()
                    &&& self.blob_refs@[i as int].blob@ == blob@
                    &&& self.blob_uses().dom().contains(blob@)
                    &&& self.blob_uses()[blob@] == use_rows(self.blob_refs@)[i as int].1
                },
                None => !self.blob_uses().dom().contains(blob@),
            },
    {
        let ghost rows = use_rows(self.blob_refs@);
        proof {
            lemma_rows_map(rows);
        }
        let mut i: usize = 0;
        while i < self.blob_refs.len()
            invariant
                i <= self.blob_refs@.len(),
                rows == use_rows(self.blob_refs@),
                distinct_keys(rows),
                forall|j: int| 0 <= j < i ==> (#[trigger] rows[j]).0 != blob@,
            decreases self.blob_refs@.len() - i,
        {
            if same_text(self.blob_refs[i].blob.as_str(), blob) {
                proof {
                    lemma_rows_map(rows);
                    assert(rows[i as int].0 == blob@);
                }
                return Some(i);
            }
            assert(rows[i as int].0 == self.blob_refs@[i as int].blob@);
            i += 1;
        }
        None
    }

    fn find_value(&self, scope: &str) -> (r: Option<usize>)
        requires
            distinct_keys(cursor_rows(self.cursors@)),
        ensures
            match r {
                Some(i) => {
                    &&& i < self.cursors@.len()
                    &&& self.cursors@[i as int].scope@ == scope@
                    &&& self.values().dom().contains(scope@)
                    &&& self.values()[scope@] == cursor_rows(self.cursors@)[i as int].1
                },
                None => !self.values().dom().contains(scope@),
            },
    {
        let ghost rows = cursor_rows(self.cursors@);
        proof {
            lemma_rows_map(rows);
        }
        let mut i: usize = 0;
        while i < self.cursors.len()
            invariant
                i <= self.cursors@.len(),
                rows == cursor_rows(self.cursors@),
                distinct_keys(rows),
                forall|j: int| 0 <= j < i ==> (#[trigger] rows[j]).0 != scope@,
            decreases self.cursors@.len() - i,
        {
            if same_text(self.cursors[i].scope.as_str(), scope) {
                proof {
                    lemma_rows_map(rows);
                    assert(rows[i as int].0 == scope@);
                }
                return Some(i);
            }
            assert(rows[i as int].0 == self.cursors@[i as int].scope@);
            i += 1;
        }
        None
    }

    /// The value kept under a name.
    pub fn kv_get(&self, scope: &str) -> (r: Option<String>)
        requires
            self.wf(),
        ensures
            match r {
                Some(v) => self.values().dom().contains(scope@) && v@ == self.values()[scope@].0,
                None => !self.values().dom().contains(scope@),
            },
    {
        match self.find_value(scope) {
            Some(i) => Some(self.cursors[i].cursor.clone()),
            None => None,
        }
    }

    /// Keeps a value under a name.
    pub fn kv_set(&mut self, scope: &str, value: &str, now_ms: i64)
        requires
            old(self).wf(),
        ensures
            final(self).wf(),
            final(self).values() == old(self).values().insert(scope@, (value@, now_ms)),
            final(self).items == old(self).items,
            final(self).manifests == old(self).manifests,
            final(self).blob_refs == old(self).blob_refs,
            final(self).outbox == old(self).outbox,
    {
        let ghost rows = cursor_rows(self.cursors@);
        match self.find_value(scope) {
            Some(i) => {
                let row = CursorRow {
                    scope: scope.to_owned(),
                    cursor: value.to_owned(),
                    updated_at_ms: now_ms,
                };
                proof {
                    lemma_rows_update(rows, i as int, (value@, now_ms));
                }
                self.cursors.set(i, row);
                assert(cursor_rows(self.cursors@) =~= rows.update(
                    i as int,
                    (rows[i as int].0, (value@, now_ms)),
                ));
            },
            None => {
                let row = CursorRow {
                    scope: scope.to_owned(),
                    cursor: value.to_owned(),
                    updated_at_ms: now_ms,
                };
                proof {
                    lemma_rows_push(rows, scope@, (value@, now_ms));
                }
                self.cursors.push(row);
                assert(cursor_rows(self.cursors@) =~= rows.push((scope@, (value@, now_ms))));
            },
        }
    }

    /// The hub's place in its history up to which this device has read.
    pub fn hub_cursor(&self) -> (r: Option<String>)
        requires
            self.wf(),
        ensures
            match r {
                Some(v) => self.values().dom().contains("hub"@) && v@ == self.values()["hub"@].0,
                None => !self.values().dom().contains("hub"@),
            },
    {
        self.kv_get("hub")
    }

    /// Keeps the hub's place up to which this device has read.
    pub fn set_hub_cursor(&mut self, cursor: &str, now_ms: i64)
        requires
            old(self).wf(),
        ensures
            final(self).wf(),
            final(self).values() == old(self).values().insert("hub"@, (cursor@, now_ms)),
            final(self).items == old(self).items,
            final(self).manifests == old(self).manifests,
            final(self).blob_refs == old(self).blob_refs,
            final(self).outbox == old(self).outbox,
    {
        self.kv_set("hub", cursor, now_ms)
    }
}

proof fn lemma_uses_bound(items: Seq<ContentItem>, blob: Seq<char>)
    ensures
        uses(items, blob) <= items.len(),
    decreases items.len(),
{
    if items.len() > 0 {
        lemma_uses_bound(items.drop_last(), blob);
    }
}

proof fn lemma_uses_update(items: Seq<ContentItem>, i: int, item: ContentItem, blob: Seq<char>)
    requires
        0 <= i < items.len(),
        blob_of(item) == blob_of(items[i]),
    ensures
        uses(items.update(i, item), blob) == uses(items, blob),
    decreases items.len(),
{
    let next = items.update(i, item);
    if i == items.len() - 1 {
        assert(next.drop_last() =~= items.drop_last());
    } else {
        lemma_uses_update(items.drop_last(), i, item, blob);
        assert(next.drop_last() =~= items.drop_last().update(i, item));
    }
}

proof fn lemma_uses_remove(items: Seq<ContentItem>, i: int, blob: Seq<char>)
    requires
        0 <= i < items.len(),
    ensures
        uses(items, blob) == uses(items.remove(i), blob) + if blob_of(items[i]) == Some(blob) {
            1nat
        } else {
            0nat
        },
    decreases items.len(),
{
    let next = items.remove(i);
    if i == items.len() - 1 {
        assert(next =~= items.drop_last());
    } else {
        lemma_uses_remove(items.drop_last(), i, blob);
        assert(next.drop_last() =~= items.drop_last().remove(i));
        assert(next.last() == items.last());
    }
}

/// An item that uses a blob is counted.
proof fn lemma_uses_positive(items: Seq<ContentItem>, i: int, blob: Seq<char>)
    requires
        0 <= i < items.len(),
        blob_of(items[i]) == Some(blob),
    ensures
        uses(items, blob) >= 1,
{
    lemma_uses_remove(items, i, blob);
}

/// The position of an identity, if no two items share one.
pub proof fn lemma_position(items: Seq<ContentItem>, id: ContentId)
    ensures
        match position(items, id) {
            Some(i) => 0 <= i < items.len() && items[i].id == id,
            None => forall|i: int| 0 <= i < items.len() ==> (#[trigger] items[i]).id != id,
        },
    decreases items.len(),
{
    if items.len() > 0 && items.last().id != id {
        lemma_position(items.drop_last(), id);
        assert forall|i: int| position(items, id) is None && 0 <= i < items.len() implies (
        #[trigger] items[i]).id != id by {
            if i < items.len() - 1 {
                assert(items.drop_last()[i] == items[i]);
            }
        }
    }
}

/// A manifest that comes with a new item.
#[derive(Debug)]
pub struct NewManifest {
    pub id: ManifestId,
    pub manifest_json: String,
}

/// Why an item is not added, if it is not.
pub open spec fn insert_refusal(
    s: Store,
    item: ContentItem,
    manifest: Option<NewManifest>,
    event_id: u128,
) -> Option<StorageErrorView> {
    if !flags_allow_history(item.flags) {
        Some(
            StorageErrorView::PolicyRejected("sensitive or transient items must not enter history"@),
        )
    } else if position(s.items@, item.id) is Some {
        Some(StorageErrorView::Sqlite("UNIQUE constraint failed: content_items.id"@))
    } else if manifest is Some && has_manifest(s.manifests@, manifest->0.id) {
        Some(StorageErrorView::Sqlite("UNIQUE constraint failed: file_manifests.id"@))
    } else if s.outbox.has_event_id(event_id) {
        Some(StorageErrorView::Sqlite("UNIQUE constraint failed: domain_outbox.event_id"@))
    } else if s.outbox.last_id == i64::MAX || s.items@.len() >= u64::MAX {
        Some(StorageErrorView::Sqlite("database or disk is full"@))
    } else {
        None
    }
}

/// What adding an item does to the tables: the item comes last, its manifest is
/// kept, its blob is used once more, and one event tells of it.
pub open spec fn inserted(
    before: Store,
    after: Store,
    item: ContentItem,
    manifest: Option<NewManifest>,
    event_id: u128,
    now_ms: i64,
) -> bool {
    &&& after.items@ == before.items@.push(item)
    &&& after.manifests@ == (match manifest {
        Some(m) => before.manifests@.push(
            ManifestRow { id: m.id, content_id: item.id, manifest_json: m.manifest_json },
        ),
        None => before.manifests@,
    })
    &&& after.blob_uses() == (match blob_of(item) {
        Some(b) => bumped(before.blob_uses(), b, item.created_at_ms),
        None => before.blob_uses(),
    })
    &&& after.cursors == before.cursors
    &&& after.outbox.rows@ == before.outbox.rows@.push(
        committed_event(item, event_id, (before.outbox.last_id + 1) as i64, now_ms),
    )
    &&& after.outbox.last_id == before.outbox.last_id + 1
    &&& after.outbox.deliveries@ == before.outbox.deliveries@
}

/// What removing an item does to the tables: the item and its manifests go, its
/// blob is used once less from now on, and one event tells of it.
pub open spec fn removed(
    before: Store,
    after: Store,
    id: ContentId,
    event_id: u128,
    now_ms: i64,
) -> bool {
    let i = position(before.items@, id)->0;
    &&& after.items@ == before.items@.remove(i)
    &&& after.manifests@ == manifests_without(before.manifests@, id)
    &&& after.blob_uses() == (match blob_of(before.items@[i]) {
        Some(b) => released(before.blob_uses(), b, now_ms),
        None => before.blob_uses(),
    })
    &&& after.cursors == before.cursors
    &&& after.outbox.rows@ == before.outbox.rows@.push(
        deleted_event(id, event_id, (before.outbox.last_id + 1) as i64, now_ms),
    )
    &&& after.outbox.last_id == before.outbox.last_id + 1
    &&& after.outbox.deliveries@ == before.outbox.deliveries@
}

/// Why an item is not removed, if it is not.
pub open spec fn delete_refusal(s: Store, id: ContentId, event_id: u128) -> Option<
    StorageErrorView,
> {
    if position(s.items@, id) is None {
        Some(StorageErrorView::NotFound)
    } else if s.outbox.has_event_id(event_id) {
        Some(StorageErrorView::Sqlite("UNIQUE constraint failed: domain_outbox.event_id"@))
    } else if s.outbox.last_id == i64::MAX {
        Some(StorageErrorView::Sqlite("database or disk is full"@))
    } else {
        None
    }
}

impl Store {
    fn contains_manifest(&self, id: ManifestId) -> (r: bool)
        ensures
            r == has_manifest(self.manifests@, id),
    {
        let mut i: usize = 0;
        while i < self.manifests.len()
            invariant
                i <= self.manifests@.len(),
                forall|j: int| 0 <= j < i ==> (#[trigger] self.manifests@[j]).id != id,
            decreases self.manifests@.len() - i,
        {
            if self.manifests[i].id == id {
                assert(self.manifests@[i as int].id == id);
                return true;
            }
            i += 1;
        }
        false
    }

    /// Counts one more use of a blob.
    fn bump_blob_ref(&mut self, blob: &str, created_at_ms: i64)
        requires
            distinct_keys(use_rows(old(self).blob_refs@)),
            old(self).blob_uses().dom().contains(blob@) ==> old(self).blob_uses()[blob@].count
                < u64::MAX,
        ensures
            distinct_keys(use_rows(final(self).blob_refs@)),
            final(self).blob_uses() == bumped(old(self).blob_uses(), blob@, created_at_ms),
            final(self).items == old(self).items,
            final(self).manifests == old(self).manifests,
            final(self).cursors == old(self).cursors,
            final(self).outbox == old(self).outbox,
    {
        let ghost rows = use_rows(self.blob_refs@);
        match self.find_use(blob) {
            Some(i) => {
                let row = BlobRefRow {
                    blob: blob.to_owned(),
                    ref_count: self.blob_refs[i].ref_count + 1,
                    created_at_ms: self.blob_refs[i].created_at_ms,
                    last_released_at_ms: self.blob_refs[i].last_released_at_ms,
                };
                let ghost next = BlobUse { count: rows[i as int].1.count + 1, ..rows[i as int].1 };
                proof {
                    lemma_rows_update(rows, i as int, next);
                }
                self.blob_refs.set(i, row);
                assert(use_rows(self.blob_refs@) =~= rows.update(i as int, (blob@, next)));
            },
            None => {
                let row = BlobRefRow {
                    blob: blob.to_owned(),
                    ref_count: 1,
                    created_at_ms,
                    last_released_at_ms: None,
                };
                let ghost next = BlobUse { count: 1, created_at_ms, released_at_ms: None };
                proof {
                    lemma_rows_push(rows, blob@, next);
                }
                self.blob_refs.push(row);
                assert(use_rows(self.blob_refs@) =~= rows.push((blob@, next)));
            },
        }
    }

    /// Counts one use of a blob less.
    fn release_blob_ref(&mut self, blob: &str, now_ms: i64)
        requires
            distinct_keys(use_rows(old(self).blob_refs@)),
            old(self).blob_uses().dom().contains(blob@),
        ensures
            distinct_keys(use_rows(final(self).blob_refs@)),
            final(self).blob_uses() == released(old(self).blob_uses(), blob@, now_ms),
            final(self).items == old(self).items,
            final(self).manifests == old(self).manifests,
            final(self).cursors == old(self).cursors,
            final(self).outbox == old(self).outbox,
    {
        let ghost rows = use_rows(self.blob_refs@);
        if let Some(i) = self.find_use(blob) {
            let count: u64 = self.blob_refs[i].ref_count;
            let row = BlobRefRow {
                blob: blob.to_owned(),
                ref_count: if count > 0 {
                    count - 1
                } else {
                    0
                },
                created_at_ms: self.blob_refs[i].created_at_ms,
                last_released_at_ms: Some(now_ms),
            };
            let ghost next = BlobUse {
                count: if count > 0 {
                    (count - 1) as nat
                } else {
                    0
                },
                released_at_ms: Some(now_ms),
                ..rows[i as int].1
            };
            proof {
                lemma_rows_update(rows, i as int, next);
            }
            self.blob_refs.set(i, row);
            assert(use_rows(self.blob_refs@) =~= rows.update(i as int, (blob@, next)));
        }
    }

    /// Adds an item, with its manifest if it has one. An item that must not be
    /// kept, or that is there already, changes nothing.
    pub fn insert(
        &mut self,
        item: ContentItem,
        manifest: Option<NewManifest>,
        event_id: u128,
        now_ms: i64,
    ) -> (r: Result<ContentId, StorageError>)
        requires
            old(self).wf(),
        ensures
            final(self).wf(),
            match r {
                Ok(id) => {
                    &&& id == item.id
                    &&& insert_refusal(*old(self), item, manifest, event_id) is None
                    &&& inserted(*old(self), *final(self), item, manifest, event_id, now_ms)
                },
                Err(e) => {
                    &&& insert_refusal(*old(self), item, manifest, event_id) == Some(e@)
                    &&& *final(self) == *old(self)
                },
            },
    {
        if !item.may_enter_history() {
            return Err(
                StorageError::PolicyRejected(
                    "sensitive or transient items must not enter history".to_owned(),
                ),
            );
        }
        if self.contains(item.id) {
            return Err(StorageError::Sqlite("UNIQUE constraint failed: content_items.id".to_owned()));
        }
        if let Some(m) = &manifest {
            if self.contains_manifest(m.id) {
                return Err(StorageError::Sqlite("UNIQUE constraint failed: file_manifests.id".to_owned()));
            }
        }
        if self.outbox.contains_event_id(event_id) {
            return Err(StorageError::Sqlite("UNIQUE constraint failed: domain_outbox.event_id".to_owned()));
        }
        if self.outbox.last_id == i64::MAX || self.items.len() as u64 == u64::MAX {
            return Err(StorageError::Sqlite("database or disk is full".to_owned()));
        }
        let ghost before = *self;
        let ghost items = self.items@;
        let id = item.id;
        if let PayloadRef::Blob(b) = &item.payload_ref {
            proof {
                lemma_uses_bound(items, b.hex@);
            }
            self.bump_blob_ref(b.hex.as_str(), item.created_at_ms);
        }
        if let Some(m) = manifest {
            self.manifests.push(
                ManifestRow { id: m.id, content_id: id, manifest_json: m.manifest_json },
            );
        }
        let ghost new_item = item;
        self.outbox.enqueue_committed(&item, event_id, now_ms);
        self.items.push(item);
        proof {
            lemma_position(items, id);
            lemma_insert_keeps(before, *self, new_item);
        }
        Ok(id)
    }
}

/// Adding an item that no other shares its identity with keeps the tables
/// consistent.
proof fn lemma_insert_keeps(before: Store, after: Store, item: ContentItem)
    requires
        before.wf(),
        after.items@ == before.items@.push(item),
        flags_allow_history(item.flags),
        forall|i: int| 0 <= i < before.items@.len() ==> (#[trigger] before.items@[i]).id != item.id,
        after.blob_uses() == (match blob_of(item) {
            Some(b) => bumped(before.blob_uses(), b, item.created_at_ms),
            None => before.blob_uses(),
        }),
    ensures
        distinct_ids(after.items@),
        forall|i: int| 0 <= i < after.items@.len() ==> flags_allow_history(
            (#[trigger] after.items@[i]).flags,
        ),
        counts_uses(after.items@, after.blob_uses()),
{
    let old_items = before.items@;
    let items = after.items@;
    let m0 = before.blob_uses();
    let m = after.blob_uses();
    assert(items.drop_last() =~= old_items);
    assert forall|i: int, j: int| 0 <= i < j < items.len() implies (#[trigger] items[i]).id != (
    #[trigger] items[j]).id by {
        assert(items[i] == old_items[i]);
        if j < old_items.len() {
            assert(items[j] == old_items[j]);
        }
    }
    assert forall|i: int| 0 <= i < items.len() implies flags_allow_history(
        (#[trigger] items[i]).flags,
    ) by {
        if i < old_items.len() {
            assert(items[i] == old_items[i]);
        }
    }
    assert forall|b: Seq<char>| #[trigger] m.dom().contains(b) implies m[b].count == uses(items, b)
        && (m[b].count == 0 ==> m[b].released_at_ms is Some) by {
        if m0.dom().contains(b) {
            assert(m0[b].count == uses(old_items, b));
        } else {
            lemma_absent_unused(old_items, m0, b);
        }
    }
    assert forall|i: int| 0 <= i < items.len() && blob_of(#[trigger] items[i]) is Some implies
        m.dom().contains(blob_of(items[i])->0) by {
        if i < old_items.len() {
            assert(items[i] == old_items[i]);
            assert(m0.dom().contains(blob_of(old_items[i])->0));
        }
    }
}

/// A blob that is not counted is not used.
proof fn lemma_absent_unused(items: Seq<ContentItem>, m: Map<Seq<char>, BlobUse>, b: Seq<char>)
    requires
        forall|i: int|
            0 <= i < items.len() && blob_of(#[trigger] items[i]) is Some ==> m.dom().contains(
                blob_of(items[i])->0,
            ),
        !m.dom().contains(b),
    ensures
        uses(items, b) == 0,
    decreases items.len(),
{
    if items.len() > 0 {
        let shorter = items.drop_last();
        assert forall|i: int| 0 <= i < shorter.len() && blob_of(#[trigger] shorter[i]) is Some implies
            m.dom().contains(blob_of(shorter[i])->0) by {
            assert(shorter[i] == items[i]);
        }
        lemma_absent_unused(shorter, m, b);
        let last = items[items.len() - 1];
        assert(blob_of(last) is Some ==> m.dom().contains(blob_of(last)->0));
    }
}

/// Removing an item keeps the tables consistent.
proof fn lemma_delete_keeps(before: Store, after: Store, i: int, now_ms: i64)
    requires
        before.wf(),
        0 <= i < before.items@.len(),
        after.items@ == before.items@.remove(i),
        after.blob_uses() == (match blob_of(before.items@[i]) {
            Some(b) => released(before.blob_uses(), b, now_ms),
            None => before.blob_uses(),
        }),
    ensures
        distinct_ids(after.items@),
        forall|k: int| 0 <= k < after.items@.len() ==> flags_allow_history(
            (#[trigger] after.items@[k]).flags,
        ),
        counts_uses(after.items@, after.blob_uses()),
{
    let old_items = before.items@;
    let items = after.items@;
    let m0 = before.blob_uses();
    let m = after.blob_uses();
    assert forall|a: int, b: int| 0 <= a < b < items.len() implies (#[trigger] items[a]).id != (
    #[trigger] items[b]).id by {
        let a0 = if a < i { a } else { a + 1 };
        let b0 = if b < i { b } else { b + 1 };
        assert(items[a] == old_items[a0] && items[b] == old_items[b0]);
    }
    assert forall|k: int| 0 <= k < items.len() implies flags_allow_history(
        (#[trigger] items[k]).flags,
    ) by {
        let k0 = if k < i { k } else { k + 1 };
        assert(items[k] == old_items[k0]);
    }
    if blob_of(old_items[i]) is Some {
        let b = blob_of(old_items[i])->0;
        assert(m0.dom().contains(b));
        lemma_uses_positive(old_items, i, b);
    }
    assert forall|b: Seq<char>| #[trigger] m.dom().contains(b) implies m[b].count == uses(items, b)
        && (m[b].count == 0 ==> m[b].released_at_ms is Some) by {
        assert(m0.dom().contains(b));
        lemma_uses_remove(old_items, i, b);
    }
    assert forall|k: int| 0 <= k < items.len() && blob_of(#[trigger] items[k]) is Some implies
        m.dom().contains(blob_of(items[k])->0) by {
        let k0 = if k < i { k } else { k + 1 };
        assert(items[k] == old_items[k0]);
        assert(m0.dom().contains(blob_of(old_items[k0])->0));
    }
}

/// Changing an item without changing its identity, its contents or its
/// sensitivity keeps the tables consistent.
proof fn lemma_update_keeps(items: Seq<ContentItem>, i: int, item: ContentItem, m: Map<Seq<char>, BlobUse>)
    requires
        0 <= i < items.len(),
        distinct_ids(items),
        counts_uses(items, m),
        item.id == items[i].id,
        blob_of(item) == blob_of(items[i]),
    ensures
        distinct_ids(items.update(i, item)),
        counts_uses(items.update(i, item), m),
{
    let next = items.update(i, item);
    assert forall|a: int, b: int| 0 <= a < b < next.len() implies (#[trigger] next[a]).id != (
    #[trigger] next[b]).id by {
        assert(next[a].id == items[a].id && next[b].id == items[b].id);
    }
    assert forall|b: Seq<char>| #[trigger] m.dom().contains(b) implies m[b].count == uses(next, b)
        && (m[b].count == 0 ==> m[b].released_at_ms is Some) by {
        lemma_uses_update(items, i, item, b);
    }
    assert forall|k: int| 0 <= k < next.len() && blob_of(#[trigger] next[k]) is Some implies
        m.dom().contains(blob_of(next[k])->0) by {
        assert(blob_of(next[k]) == blob_of(items[k]));
        assert(m.dom().contains(blob_of(items[k])->0));
    }
}

/// An item with another mark of being a favorite.
pub open spec fn with_favorite(item: ContentItem, favorite: bool) -> ContentItem {
    ContentItem { flags: ContentFlags { favorite, ..item.flags }, ..item }
}

/// An item with another status.
pub open spec fn with_status(item: ContentItem, status: ContentStatus) -> ContentItem {
    ContentItem { status, ..item }
}

/// Whether only the item table changed.
pub open spec fn only_items_changed(before: Store, after: Store) -> bool {
    &&& after.manifests == before.manifests
    &&& after.blob_refs == before.blob_refs
    &&& after.cursors == before.cursors
    &&& after.outbox == before.outbox
}

/// Whether only the table of blob uses changed.
pub open spec fn only_uses_changed(before: Store, after: Store) -> bool {
    &&& after.items == before.items
    &&& after.manifests == before.manifests
    &&& after.cursors == before.cursors
    &&& after.outbox == before.outbox
}

/// Whether only the queue of events changed.
pub open spec fn only_outbox_changed(before: Store, after: Store) -> bool {
    &&& after.items == before.items
    &&& after.manifests == before.manifests
    &&& after.blob_refs == before.blob_refs
    &&& after.cursors == before.cursors
}

impl Store {
    /// Removes the manifests of an item.
    fn drop_manifests(&mut self, id: ContentId)
        ensures
            final(self).manifests@ == manifests_without(old(self).manifests@, id),
            final(self).items == old(self).items,
            final(self).blob_refs == old(self).blob_refs,
            final(self).cursors == old(self).cursors,
            final(self).outbox == old(self).outbox,
    {
        let ghost all = self.manifests@;
        let mut i: usize = 0;
        let mut seen: usize = 0;
        let n: usize = self.manifests.len();
        assert(all.take(0).len() == 0);
        assert(all =~= manifests_without(all.take(0), id) + all.skip(0));
        while seen < n
            invariant
                i <= seen <= n == all.len(),
                i == manifests_without(all.take(seen as int), id).len(),
                self.manifests@ == manifests_without(all.take(seen as int), id) + all.skip(
                    seen as int,
                ),
                self.items == old(self).items,
                self.blob_refs == old(self).blob_refs,
                self.cursors == old(self).cursors,
                self.outbox == old(self).outbox,
            decreases n - seen,
        {
            let ghost kept = manifests_without(all.take(seen as int), id);
            proof {
                assert(all.take(seen + 1).drop_last() =~= all.take(seen as int));
                assert(all.take(seen + 1).last() == all[seen as int]);
                assert(self.manifests@[i as int] == all[seen as int]);
            }
            if self.manifests[i].content_id == id {
                let _ = self.manifests.remove(i);
                assert(self.manifests@ =~= kept + all.skip(seen + 1));
            } else {
                assert(self.manifests@ =~= kept.push(all[seen as int]) + all.skip(seen + 1));
                i += 1;
            }
            seen += 1;
        }
        assert(all.take(n as int) =~= all);
        assert(self.manifests@ =~= manifests_without(all, id));
    }

    /// Removes an item and its manifests. Gives the blob that it used.
    pub fn delete(&mut self, id: ContentId, event_id: u128, now_ms: i64) -> (r: Result<
        Option<BlobId>,
        StorageError,
    >)
        requires
            old(self).wf(),
        ensures
            final(self).wf(),
            match r {
                Ok(blob) => {
                    &&& delete_refusal(*old(self), id, event_id) is None
                    &&& removed(*old(self), *final(self), id, event_id, now_ms)
                    &&& (match blob {
                        Some(b) => Some(b.hex@),
                        None => None,
                    }) == blob_of(old(self).items@[position(old(self).items@, id)->0])
                },
                Err(e) => {
                    &&& delete_refusal(*old(self), id, event_id) == Some(e@)
                    &&& *final(self) == *old(self)
                },
            },
    {
        let i = match self.find(id) {
            Some(i) => i,
            None => return Err(StorageError::NotFound),
        };
        if self.outbox.contains_event_id(event_id) {
            return Err(StorageError::Sqlite("UNIQUE constraint failed: domain_outbox.event_id".to_owned()));
        }
        if self.outbox.last_id == i64::MAX {
            return Err(StorageError::Sqlite("database or disk is full".to_owned()));
        }
        let ghost before = *self;
        let item = self.items.remove(i);
        let ghost gone = item;
        let blob = match item.payload_ref {
            PayloadRef::Blob(b) => {
                proof {
                    assert(blob_of(before.items@[i as int]) == Some(b.hex@));
                    assert(before.blob_uses().dom().contains(b.hex@));
                }
                self.release_blob_ref(b.hex.as_str(), now_ms);
                Some(b)
            },
            _ => None,
        };
        self.drop_manifests(id);
        self.outbox.enqueue_deleted(id, event_id, now_ms);
        proof {
            lemma_delete_keeps(before, *self, i as int, now_ms);
        }
        Ok(blob)
    }

    /// Marks an item as a favorite or takes the mark away.
    pub fn set_favorite(&mut self, id: ContentId, favorite: bool) -> (r: Result<(), StorageError>)
        requires
            old(self).wf(),
        ensures
            final(self).wf(),
            match r {
                Ok(_) => {
                    let i = position(old(self).items@, id);
                    &&& i is Some
                    &&& final(self).items@ == old(self).items@.update(
                        i->0,
                        with_favorite(old(self).items@[i->0], favorite),
                    )
                    &&& only_items_changed(*old(self), *final(self))
                },
                Err(e) => {
                    &&& position(old(self).items@, id) is None
                    &&& e@ == StorageErrorView::NotFound
                    &&& *final(self) == *old(self)
                },
            },
    {
        match self.find(id) {
            None => Err(StorageError::NotFound),
            Some(i) => {
                proof {
                    lemma_update_keeps(
                        self.items@,
                        i as int,
                        with_favorite(self.items@[i as int], favorite),
                        self.blob_uses(),
                    );
                }
                self.items[i].flags.favorite = favorite;
                assert(self.items@ =~= old(self).items@.update(
                    i as int,
                    with_favorite(old(self).items@[i as int], favorite),
                ));
                Ok(())
            },
        }
    }

    /// Gives an item another status.
    pub fn set_status(&mut self, id: ContentId, status: ContentStatus) -> (r: Result<
        (),
        StorageError,
    >)
        requires
            old(self).wf(),
        ensures
            final(self).wf(),
            match r {
                Ok(_) => {
                    let i = position(old(self).items@, id);
                    &&& i is Some
                    &&& final(self).items@ == old(self).items@.update(
                        i->0,
                        with_status(old(self).items@[i->0], status),
                    )
                    &&& only_items_changed(*old(self), *final(self))
                },
                Err(e) => {
                    &&& position(old(self).items@, id) is None
                    &&& e@ == StorageErrorView::NotFound
                    &&& *final(self) == *old(self)
                },
            },
    {
        match self.find(id) {
            None => Err(StorageError::NotFound),
            Some(i) => {
                proof {
                    lemma_update_keeps(
                        self.items@,
                        i as int,
                        with_status(self.items@[i as int], status),
                        self.blob_uses(),
                    );
                }
                self.items[i].status = status;
                assert(self.items@ =~= old(self).items@.update(
                    i as int,
                    with_status(old(self).items@[i as int], status),
                ));
                Ok(())
            },
        }
    }

    /// Notes a blob that was stored before any item uses it.
    pub fn put_blob(&mut self, blob: &str, now_ms: i64)
        requires
            old(self).wf(),
        ensures
            final(self).wf(),
            only_uses_changed(*old(self), *final(self)),
            final(self).blob_uses() == reserved(old(self).blob_uses(), blob@, now_ms),
    {
        let ghost rows = use_rows(self.blob_refs@);
        let ghost before = *self;
        match self.find_use(blob) {
            Some(i) => if self.blob_refs[i].ref_count == 0 {
                let row = BlobRefRow {
                    blob: blob.to_owned(),
                    ref_count: 0,
                    created_at_ms: self.blob_refs[i].created_at_ms,
                    last_released_at_ms: Some(now_ms),
                };
                let ghost next = BlobUse { released_at_ms: Some(now_ms), ..rows[i as int].1 };
                proof {
                    lemma_rows_update(rows, i as int, next);
                }
                self.blob_refs.set(i, row);
                assert(use_rows(self.blob_refs@) =~= rows.update(i as int, (blob@, next)));
            },
            None => {
                let row = BlobRefRow {
                    blob: blob.to_owned(),
                    ref_count: 0,
                    created_at_ms: now_ms,
                    last_released_at_ms: Some(now_ms),
                };
                let ghost next = BlobUse {
                    count: 0,
                    created_at_ms: now_ms,
                    released_at_ms: Some(now_ms),
                };
                proof {
                    lemma_rows_push(rows, blob@, next);
                    lemma_absent_unused(self.items@, self.blob_uses(), blob@);
                }
                self.blob_refs.push(row);
                assert(use_rows(self.blob_refs@) =~= rows.push((blob@, next)));
            },
        }
        assert(counts_uses(self.items@, self.blob_uses())) by {
            let m0 = before.blob_uses();
            let m = self.blob_uses();
            assert forall|b: Seq<char>| #[trigger] m.dom().contains(b) implies m[b].count == uses(
                self.items@,
                b,
            ) && (m[b].count == 0 ==> m[b].released_at_ms is Some) by {
                if b != blob@ {
                    assert(m0.dom().contains(b));
                } else if m0.dom().contains(b) {
                    assert(m0[b].count == uses(self.items@, b));
                }
            }
            assert forall|k: int|
                0 <= k < self.items@.len() && blob_of(#[trigger] self.items@[k]) is Some implies
                m.dom().contains(blob_of(self.items@[k])->0) by {
                assert(m0.dom().contains(blob_of(self.items@[k])->0));
            }
        }
    }

    /// Forgets the blobs that no item has used since a time, and gives their
    /// names so that their files can be removed.
    pub fn gc_blobs(&mut self, released_before_ms: i64) -> (r: Vec<String>)
        requires
            old(self).wf(),
        ensures
            final(self).wf(),
            only_uses_changed(*old(self), *final(self)),
            forall|b: Seq<char>| #[trigger]
                texts(r@).contains(b) <==> old(self).blob_uses().dom().contains(b) && is_garbage(
                    old(self).blob_uses()[b],
                    released_before_ms,
                ),
            forall|b: Seq<char>| #[trigger]
                final(self).blob_uses().dom().contains(b) <==> old(self).blob_uses().dom().contains(
                    b,
                ) && !is_garbage(old(self).blob_uses()[b], released_before_ms),
            forall|b: Seq<char>|
                final(self).blob_uses().dom().contains(b) ==> #[trigger] final(self).blob_uses()[b]
                    == old(self).blob_uses()[b],
            r@.len() + final(self).blob_refs@.len() == old(self).blob_refs@.len(),
    {
        let ghost before = *self;
        let ghost m0 = self.blob_uses();
        let mut out: Vec<String> = Vec::new();
        let mut i: usize = 0;
        assert(texts(out@) =~= Seq::<Seq<char>>::empty());
        while i < self.blob_refs.len()
            invariant
                i <= self.blob_refs@.len(),
                m0 == before.blob_uses(),
                self.items == before.items,
                self.manifests == before.manifests,
                self.cursors == before.cursors,
                self.outbox == before.outbox,
                distinct_keys(use_rows(self.blob_refs@)),
                out@.len() + self.blob_refs@.len() == before.blob_refs@.len(),
                forall|b: Seq<char>| #[trigger]
                    texts(out@).contains(b) ==> m0.dom().contains(b) && is_garbage(
                        m0[b],
                        released_before_ms,
                    ),
                forall|b: Seq<char>| #[trigger]
                    m0.dom().contains(b) <==> self.blob_uses().dom().contains(b) || texts(
                        out@,
                    ).contains(b),
                forall|b: Seq<char>| #[trigger]
                    self.blob_uses().dom().contains(b) ==> self.blob_uses()[b] == m0[b] && !texts(
                        out@,
                    ).contains(b),
                forall|j: int|
                    0 <= j < i ==> !is_garbage(
                        (#[trigger] use_rows(self.blob_refs@)[j]).1,
                        released_before_ms,
                    ),
            decreases self.blob_refs@.len() - i,
        {
            let ghost rows = use_rows(self.blob_refs@);
            let ghost m = self.blob_uses();
            proof {
                lemma_rows_map(rows);
                assert(m.dom().contains(rows[i as int].0));
            }
            let unused = self.blob_refs[i].ref_count == 0 && (
            match self.blob_refs[i].last_released_at_ms {
                Some(ms) => ms <= released_before_ms,
                None => false,
            });
            assert(unused == is_garbage(rows[i as int].1, released_before_ms));
            if unused {
                let ghost old_out = texts(out@);
                let row = self.blob_refs.remove(i);
                let ghost name = row.blob@;
                out.push(row.blob);
                proof {
                    lemma_rows_remove(rows, i as int);
                    assert(use_rows(self.blob_refs@) =~= rows.remove(i as int));
                    assert(texts(out@) =~= old_out.push(name));
                    assert forall|b: Seq<char>| #[trigger] texts(out@).contains(b)
                        <==> old_out.contains(b) || b == name by {
                        if old_out.contains(b) {
                            let k = choose|k: int| 0 <= k < old_out.len() && old_out[k] == b;
                            assert(texts(out@)[k] == b);
                        }
                        assert(texts(out@)[old_out.len() as int] == name);
                        if texts(out@).contains(b) {
                            let k = choose|k: int|
                                0 <= k < texts(out@).len() && texts(out@)[k] == b;
                            if k < old_out.len() {
                                assert(old_out[k] == b);
                            }
                        }
                    }
                    assert forall|j: int| 0 <= j < i implies !is_garbage(
                        (#[trigger] use_rows(self.blob_refs@)[j]).1,
                        released_before_ms,
                    ) by {
                        assert(use_rows(self.blob_refs@)[j] == rows[j]);
                    }
                }
            } else {
                i += 1;
            }
        }
        proof {
            let rows = use_rows(self.blob_refs@);
            lemma_rows_map(rows);
            assert forall|b: Seq<char>| #[trigger] self.blob_uses().dom().contains(b) implies
                !is_garbage(m0[b], released_before_ms) by {
                let k = choose|k: int| 0 <= k < rows.len() && (#[trigger] rows[k]).0 == b;
                assert(self.blob_uses()[rows[k].0] == rows[k].1);
            }
            let m = self.blob_uses();
            assert forall|k: int|
                0 <= k < self.items@.len() && blob_of(#[trigger] self.items@[k]) is Some implies
                m.dom().contains(blob_of(self.items@[k])->0) by {
                let b = blob_of(self.items@[k])->0;
                assert(m0.dom().contains(b));
                lemma_uses_positive(self.items@, k, b);
                if texts(out@).contains(b) {
                    assert(is_garbage(m0[b], released_before_ms));
                }
            }
            assert forall|b: Seq<char>| #[trigger] m.dom().contains(b) implies m[b].count == uses(
                self.items@,
                b,
            ) && (m[b].count == 0 ==> m[b].released_at_ms is Some) by {
                assert(m0.dom().contains(b));
            }
            assert(counts_uses(self.items@, m));
        }
        out
    }
}

/// Whether a new event about an item is refused, and why.
pub open spec fn enqueue_refusal(s: Store, event_id: u128) -> Option<StorageErrorView> {
    if s.outbox.has_event_id(event_id) {
        Some(StorageErrorView::Sqlite("UNIQUE constraint failed: domain_outbox.event_id"@))
    } else if s.outbox.last_id == i64::MAX {
        Some(StorageErrorView::Sqlite("database or disk is full"@))
    } else {
        None
    }
}

impl Store {
    /// Makes sure that the hub will be told of an item: adds an event unless one
    /// is still to be dealt with.
    pub fn ensure_committed(&mut self, item: &ContentItem, event_id: u128, now_ms: i64) -> (r:
        Result<(), StorageError>)
        requires
            old(self).wf(),
        ensures
            final(self).wf(),
            only_outbox_changed(*old(self), *final(self)),
            ({
                let waiting = unacked(
                    old(self).outbox.rows@,
                    old(self).outbox.delivered(),
                    EventType::Committed,
                    item.id,
                    Consumer::Hub,
                );
                match r {
                    Ok(_) => if waiting is Some {
                        *final(self) == *old(self)
                    } else {
                        &&& enqueue_refusal(*old(self), event_id) is None
                        &&& final(self).outbox.rows@ == old(self).outbox.rows@.push(
                            committed_event(
                                *item,
                                event_id,
                                (old(self).outbox.last_id + 1) as i64,
                                now_ms,
                            ),
                        )
                        &&& final(self).outbox.last_id == old(self).outbox.last_id + 1
                        &&& final(self).outbox.deliveries@ == old(self).outbox.deliveries@
                    },
                    Err(e) => {
                        &&& waiting is None
                        &&& enqueue_refusal(*old(self), event_id) == Some(e@)
                        &&& *final(self) == *old(self)
                    },
                }
            }),
    {
        if self.outbox.latest_unacked(EventType::Committed, item.id, Consumer::Hub).is_some() {
            return Ok(());
        }
        if self.outbox.contains_event_id(event_id) {
            return Err(StorageError::Sqlite("UNIQUE constraint failed: domain_outbox.event_id".to_owned()));
        }
        if self.outbox.last_id == i64::MAX {
            return Err(StorageError::Sqlite("database or disk is full".to_owned()));
        }
        self.outbox.enqueue_committed(item, event_id, now_ms);
        Ok(())
    }

    /// The first events that are available at a time, whoever they are for.
    pub fn pending_outbox(&self, limit: u32, now_ms: i64) -> (r: Vec<OutboxEvent>)
        ensures
            r@ == first_n(available_rows(self.outbox.rows@, None, now_ms), page_limit(limit)),
    {
        self.outbox.pending(None, limit, now_ms)
    }

    /// The first events of a type to be delivered to a consumer at a time.
    pub fn pending_outbox_for(
        &self,
        event_type: EventType,
        consumer: Consumer,
        limit: u32,
        now_ms: i64,
    ) -> (r: Vec<OutboxEvent>)
        requires
            self.wf(),
        ensures
            r@ == first_n(
                due_rows(self.outbox.rows@, self.outbox.delivered(), event_type, consumer, now_ms),
                page_limit(limit),
            ),
    {
        self.outbox.pending_for(event_type, consumer, limit, now_ms)
    }

    /// Notes that the hub has been told of an event.
    pub fn ack_outbox(&mut self, id: i64, now_ms: i64) -> (r: bool)
        requires
            old(self).wf(),
        ensures
            final(self).wf(),
            only_outbox_changed(*old(self), *final(self)),
            acknowledged(old(self).outbox, final(self).outbox, id, Consumer::Hub, now_ms, r),
    {
        self.ack_outbox_consumer(id, Consumer::Hub, now_ms)
    }

    /// Notes that a consumer has dealt with an event. Tells whether it had not
    /// done so before.
    pub fn ack_outbox_consumer(&mut self, id: i64, consumer: Consumer, now_ms: i64) -> (r: bool)
        requires
            old(self).wf(),
        ensures
            final(self).wf(),
            only_outbox_changed(*old(self), *final(self)),
            acknowledged(old(self).outbox, final(self).outbox, id, consumer, now_ms, r),
    {
        self.outbox.ack_consumer(id, consumer, now_ms)
    }

    /// Puts telling the hub of an event off by a delay.
    pub fn retry_outbox(&mut self, id: i64, delay_ms: i64, now_ms: i64)
        requires
            old(self).wf(),
        ensures
            final(self).wf(),
            only_outbox_changed(*old(self), *final(self)),
            postponed(old(self).outbox, final(self).outbox, id, Consumer::Hub, delay_ms, now_ms),
    {
        self.retry_outbox_consumer(id, Consumer::Hub, delay_ms, now_ms)
    }

    /// Puts the delivery of an event to a consumer off by a delay. A negative
    /// delay is none.
    pub fn retry_outbox_consumer(&mut self, id: i64, consumer: Consumer, delay_ms: i64, now_ms: i64)
        requires
            old(self).wf(),
        ensures
            final(self).wf(),
            only_outbox_changed(*old(self), *final(self)),
            postponed(old(self).outbox, final(self).outbox, id, consumer, delay_ms, now_ms),
    {
        let delay: i64 = if delay_ms > 0 {
            delay_ms
        } else {
            0
        };
        let available_at: i64 = match now_ms.checked_add(delay) {
            Some(t) => t,
            None => i64::MAX,
        };
        self.outbox.retry_consumer(id, consumer, available_at);
    }
}

/// What an acknowledgement does to the queue.
pub open spec fn acknowledged(
    before: Outbox,
    after: Outbox,
    id: i64,
    consumer: Consumer,
    now_ms: i64,
    counted: bool,
) -> bool {
    &&& counted == ack_counts(before.rows@, before.delivered(), id, consumer)
    &&& after.rows@ == before.rows@
    &&& after.last_id == before.last_id
    &&& after.delivered() == acked(before.rows@, before.delivered(), id, consumer, now_ms)
}

/// The time after a delay that is not negative, or the last time there is.
pub open spec fn after_delay(now_ms: i64, delay_ms: i64) -> i64 {
    let delay = if delay_ms > 0 {
        delay_ms as int
    } else {
        0
    };
    if now_ms + delay > i64::MAX {
        i64::MAX
    } else {
        (now_ms + delay) as i64
    }
}

/// What putting a delivery off does to the queue.
pub open spec fn postponed(
    before: Outbox,
    after: Outbox,
    id: i64,
    consumer: Consumer,
    delay_ms: i64,
    now_ms: i64,
) -> bool {
    &&& after.rows@ == before.rows@
    &&& after.last_id == before.last_id
    &&& after.delivered() == retried(
        before.rows@,
        before.delivered(),
        id,
        consumer,
        after_delay(now_ms, delay_ms),
    )
}

/// The time before which a blob must have been released to be collected, given
/// the grace that unused blobs have. A grace too long to count is the longest.
pub fn gc_threshold(now_ms: i64, grace_ms: u128) -> (r: i64)
    ensures
        ({
            let grace = if grace_ms > i64::MAX {
                i64::MAX as int
            } else {
                grace_ms as int
            };
            r == (if now_ms - grace < i64::MIN {
                i64::MIN as int
            } else {
                now_ms - grace
            })
        }),
{
    let grace: i64 = if grace_ms > i64::MAX as u128 {
        i64::MAX
    } else {
        grace_ms as i64
    };
    match now_ms.checked_sub(grace) {
        Some(t) => t,
        None => i64::MIN,
    }
}

/// A change to the store, as the writer takes it.
#[derive(Debug)]
pub enum WriteOp {
    Insert { item: ContentItem, manifest: Option<NewManifest>, event_id: u128 },
    Favorite { id: ContentId, favorite: bool },
    Status { id: ContentId, status: ContentStatus },
    Delete { id: ContentId, event_id: u128 },
    GcBlobs { released_before_ms: i64 },
    PutBlob { blob: String },
    SetCursor { scope: String, cursor: String },
    EnsureCommitted { item: ContentItem, event_id: u128 },
    AckOutbox { number: i64, consumer: Consumer },
    RetryOutbox { number: i64, consumer: Consumer, delay_ms: i64 },
}

/// What the writer answers to a change.
#[derive(Debug)]
pub enum WriteReply {
    Inserted(Result<ContentId, StorageError>),
    Done(Result<(), StorageError>),
    Deleted(Result<Option<BlobId>, StorageError>),
    Collected(Vec<String>),
    Acked(bool),
}

/// Whether a reply and the tables after a change are what the change asks for.
pub open spec fn applied(before: Store, after: Store, op: WriteOp, now_ms: i64, reply: WriteReply) -> bool {
    match op {
        WriteOp::Insert { item, manifest, event_id } => reply matches WriteReply::Inserted(r)
            && match r {
            Ok(id) => id == item.id && insert_refusal(before, item, manifest, event_id) is None
                && inserted(before, after, item, manifest, event_id, now_ms),
            Err(e) => insert_refusal(before, item, manifest, event_id) == Some(e@) && after
                == before,
        },
        WriteOp::Favorite { id, favorite } => reply matches WriteReply::Done(r) && match r {
            Ok(_) => position(before.items@, id) is Some && after.items@ == before.items@.update(
                position(before.items@, id)->0,
                with_favorite(before.items@[position(before.items@, id)->0], favorite),
            ) && only_items_changed(before, after),
            Err(e) => position(before.items@, id) is None && e@ == StorageErrorView::NotFound
                && after == before,
        },
        WriteOp::Status { id, status } => reply matches WriteReply::Done(r) && match r {
            Ok(_) => position(before.items@, id) is Some && after.items@ == before.items@.update(
                position(before.items@, id)->0,
                with_status(before.items@[position(before.items@, id)->0], status),
            ) && only_items_changed(before, after),
            Err(e) => position(before.items@, id) is None && e@ == StorageErrorView::NotFound
                && after == before,
        },
        WriteOp::Delete { id, event_id } => reply matches WriteReply::Deleted(r) && match r {
            Ok(blob) => {
                &&& delete_refusal(before, id, event_id) is None
                &&& removed(before, after, id, event_id, now_ms)
                &&& (match blob {
                    Some(b) => Some(b.hex@),
                    None => None,
                }) == blob_of(before.items@[position(before.items@, id)->0])
            },
            Err(e) => delete_refusal(before, id, event_id) == Some(e@) && after == before,
        },
        WriteOp::GcBlobs { released_before_ms } => {
            &&& reply matches WriteReply::Collected(names)
            &&& only_uses_changed(before, after)
            &&& forall|b: Seq<char>| #[trigger]
                texts(names@).contains(b) <==> before.blob_uses().dom().contains(b) && is_garbage(
                    before.blob_uses()[b],
                    released_before_ms,
                )
            &&& forall|b: Seq<char>| #[trigger]
                after.blob_uses().dom().contains(b) <==> before.blob_uses().dom().contains(b)
                    && !is_garbage(before.blob_uses()[b], released_before_ms)
            &&& forall|b: Seq<char>|
                after.blob_uses().dom().contains(b) ==> #[trigger] after.blob_uses()[b]
                    == before.blob_uses()[b]
            &&& names@.len() + after.blob_refs@.len() == before.blob_refs@.len()
        },
        WriteOp::PutBlob { blob } => {
            &&& reply matches WriteReply::Done(r)
            &&& r is Ok
            &&& only_uses_changed(before, after)
            &&& after.blob_uses() == reserved(before.blob_uses(), blob@, now_ms)
        },
        WriteOp::SetCursor { scope, cursor } => {
            &&& reply matches WriteReply::Done(r)
            &&& r is Ok
            &&& after.values() == before.values().insert(scope@, (cursor@, now_ms))
            &&& after.items == before.items
            &&& after.manifests == before.manifests
            &&& after.blob_refs == before.blob_refs
            &&& after.outbox == before.outbox
        },
        WriteOp::EnsureCommitted { item, event_id } => {
            let waiting = unacked(
                before.outbox.rows@,
                before.outbox.delivered(),
                EventType::Committed,
                item.id,
                Consumer::Hub,
            );
            &&& reply matches WriteReply::Done(r)
            &&& match r {
                Ok(_) => if waiting is Some {
                    after == before
                } else {
                    &&& enqueue_refusal(before, event_id) is None
                    &&& only_outbox_changed(before, after)
                    &&& after.outbox.rows@ == before.outbox.rows@.push(
                        committed_event(
                            item,
                            event_id,
                            (before.outbox.last_id + 1) as i64,
                            now_ms,
                        ),
                    )
                    &&& after.outbox.last_id == before.outbox.last_id + 1
                    &&& after.outbox.deliveries@ == before.outbox.deliveries@
                },
                Err(e) => {
                    &&& waiting is None
                    &&& enqueue_refusal(before, event_id) == Some(e@)
                    &&& after == before
                },
            }
        },
        WriteOp::AckOutbox { number, consumer } => {
            &&& reply matches WriteReply::Acked(counted)
            &&& only_outbox_changed(before, after)
            &&& acknowledged(before.outbox, after.outbox, number, consumer, now_ms, counted)
        },
        WriteOp::RetryOutbox { number, consumer, delay_ms } => {
            &&& reply matches WriteReply::Done(r)
            &&& r is Ok
            &&& only_outbox_changed(before, after)
            &&& postponed(before.outbox, after.outbox, number, consumer, delay_ms, now_ms)
        },
    }
}

impl Store {
    /// Makes one change. The tables stay consistent whatever is asked.
    pub fn apply(&mut self, op: WriteOp, now_ms: i64) -> (r: WriteReply)
        requires
            old(self).wf(),
        ensures
            final(self).wf(),
            applied(*old(self), *final(self), op, now_ms, r),
    {
        match op {
            WriteOp::Insert { item, manifest, event_id } => WriteReply::Inserted(
                self.insert(item, manifest, event_id, now_ms),
            ),
            WriteOp::Favorite { id, favorite } => WriteReply::Done(self.set_favorite(id, favorite)),
            WriteOp::Status { id, status } => WriteReply::Done(self.set_status(id, status)),
            WriteOp::Delete { id, event_id } => WriteReply::Deleted(
                self.delete(id, event_id, now_ms),
            ),
            WriteOp::GcBlobs { released_before_ms } => WriteReply::Collected(
                self.gc_blobs(released_before_ms),
            ),
            WriteOp::PutBlob { blob } => {
                self.put_blob(blob.as_str(), now_ms);
                WriteReply::Done(Ok(()))
            },
            WriteOp::SetCursor { scope, cursor } => {
                self.kv_set(scope.as_str(), cursor.as_str(), now_ms);
                WriteReply::Done(Ok(()))
            },
            WriteOp::EnsureCommitted { item, event_id } => WriteReply::Done(
                self.ensure_committed(&item, event_id, now_ms),
            ),
            WriteOp::AckOutbox { number, consumer } => WriteReply::Acked(
                self.ack_outbox_consumer(number, consumer, now_ms),
            ),
            WriteOp::RetryOutbox { number, consumer, delay_ms } => {
                self.retry_outbox_consumer(number, consumer, delay_ms, now_ms);
                WriteReply::Done(Ok(()))
            },
        }
    }

    /// The manifest with an identity, as it was kept.
    pub fn load_manifest(&self, id: ManifestId) -> (r: Result<String, StorageError>)
        ensures
            match r {
                Ok(json) => exists|i: int|
                    {
                        &&& 0 <= i < self.manifests@.len()
                        &&& (#[trigger] self.manifests@[i]).id == id
                        &&& self.manifests@[i].manifest_json@ == json@
                        &&& !has_manifest(self.manifests@.take(i), id)
                    },
                Err(e) => !has_manifest(self.manifests@, id) && e@ == StorageErrorView::NotFound,
            },
    {
        let mut i: usize = 0;
        while i < self.manifests.len()
            invariant
                i <= self.manifests@.len(),
                forall|j: int| 0 <= j < i ==> (#[trigger] self.manifests@[j]).id != id,
            decreases self.manifests@.len() - i,
        {
            if self.manifests[i].id == id {
                assert(!has_manifest(self.manifests@.take(i as int), id));
                return Ok(self.manifests[i].manifest_json.clone());
            }
            i += 1;
        }
        Err(StorageError::NotFound)
    }
}

/// The directories of cached files that items name, in the order of the items.
pub open spec fn named_caches(items: Seq<ContentItem>) -> Seq<Seq<char>>
    decreases items.len(),
{
    if items.len() == 0 {
        Seq::empty()
    } else {
        match items.last().metadata.local_cache_rel {
            Some(rel) => named_caches(items.drop_last()).push(rel@),
            None => named_caches(items.drop_last()),
        }
    }
}

impl Store {
    /// The directories of cached files that must stay: those that items name.
    pub fn cache_pins(&self) -> (r: Vec<String>)
        ensures
            texts(r@) == named_caches(self.items@),
    {
        let mut out: Vec<String> = Vec::new();
        let mut i: usize = 0;
        assert(texts(out@) =~= named_caches(self.items@.take(0)));
        while i < self.items.len()
            invariant
                i <= self.items@.len(),
                texts(out@) == named_caches(self.items@.take(i as int)),
            decreases self.items@.len() - i,
        {
            let ghost before = texts(out@);
            proof {
                assert(self.items@.take(i + 1).drop_last() =~= self.items@.take(i as int));
                assert(self.items@.take(i + 1).last() == self.items@[i as int]);
            }
            if let Some(rel) = &self.items[i].metadata.local_cache_rel {
                out.push(rel.clone());
                assert(texts(out@) =~= before.push(rel@));
            }
            i += 1;
        }
        assert(self.items@.take(i as int) =~= self.items@);
        out
    }
}

/// What was added can be read back, and what was removed cannot.
pub proof fn reads_follow_writes(
    before: Store,
    mid: Store,
    after: Store,
    item: ContentItem,
    manifest: Option<NewManifest>,
    first_event: u128,
    second_event: u128,
    now_ms: i64,
    later_ms: i64,
)
    requires
        before.wf(),
        insert_refusal(before, item, manifest, first_event) is None,
        inserted(before, mid, item, manifest, first_event, now_ms),
        removed(mid, after, item.id, second_event, later_ms),
    ensures
        position(mid.items@, item.id) is Some,
        mid.items@[position(mid.items@, item.id)->0] == item,
        position(after.items@, item.id) is None,
        after.items@ == before.items@,
{
    lemma_position(before.items@, item.id);
    assert(mid.items@.last() == item);
    assert(after.items@ =~= before.items@);
}

/// An item that the hub has been told of and that is announced again is to be
/// told to the hub once more: by exactly one event, with a number of its own.
/// Announcing it once more before the hub has dealt with that event adds none.
pub proof fn reannounced_exactly_once(
    start: Store,
    before: Store,
    after: Store,
    again: Store,
    item: ContentItem,
    first: i64,
    event_id: u128,
    other_event: u128,
    ack_ms: i64,
    now_ms: i64,
    later_ms: i64,
    ack_reply: WriteReply,
    reply: WriteReply,
    again_reply: WriteReply,
)
    requires
        start.wf(),
        before.wf(),
        row_with(start.outbox.rows@, first) is Some,
        forall|i: int|
            0 <= i < start.outbox.rows@.len() && awaits(
                #[trigger] start.outbox.rows@[i],
                start.outbox.delivered(),
                EventType::Committed,
                item.id,
                Consumer::Hub,
            ) ==> start.outbox.rows@[i].id == first,
        applied(
            start,
            before,
            WriteOp::AckOutbox { number: first, consumer: Consumer::Hub },
            ack_ms,
            ack_reply,
        ),
        enqueue_refusal(before, event_id) is None,
        applied(before, after, WriteOp::EnsureCommitted { item, event_id }, now_ms, reply),
        applied(
            after,
            again,
            WriteOp::EnsureCommitted { item, event_id: other_event },
            later_ms,
            again_reply,
        ),
    ensures
        reply matches WriteReply::Done(r) && r is Ok,
        forall|i: int|
            0 <= i < before.outbox.rows@.len() ==> (#[trigger] before.outbox.rows@[i]).id
                != before.outbox.last_id + 1,
        forall|t: i64|
            now_ms <= t ==> #[trigger] due_rows(
                after.outbox.rows@,
                after.outbox.delivered(),
                EventType::Committed,
                Consumer::Hub,
                t,
            ) == due_rows(
                before.outbox.rows@,
                before.outbox.delivered(),
                EventType::Committed,
                Consumer::Hub,
                t,
            ).push(committed_event(item, event_id, (before.outbox.last_id + 1) as i64, now_ms)),
        forall|t: i64, j: int|
            0 <= j < due_rows(
                before.outbox.rows@,
                before.outbox.delivered(),
                EventType::Committed,
                Consumer::Hub,
                t,
            ).len() ==> (#[trigger] due_rows(
                before.outbox.rows@,
                before.outbox.delivered(),
                EventType::Committed,
                Consumer::Hub,
                t,
            )[j]).aggregate_id != item.id,
        again_reply matches WriteReply::Done(r) && r is Ok,
        again == after,
{
    let rows = before.outbox.rows@;
    let ds = before.outbox.delivered();
    let event = committed_event(item, event_id, (before.outbox.last_id + 1) as i64, now_ms);
    assert forall|i: int| 0 <= i < rows.len() implies !awaits(
        #[trigger] rows[i],
        ds,
        EventType::Committed,
        item.id,
        Consumer::Hub,
    ) by {
        lemma_row_with(start.outbox.rows@, i);
        if awaits(
            start.outbox.rows@[i],
            start.outbox.delivered(),
            EventType::Committed,
            item.id,
            Consumer::Hub,
        ) {
            assert(rows[i].id == first);
        }
    }
    lemma_unacked(rows, ds, EventType::Committed, item.id, Consumer::Hub);
    assert(!ds.dom().contains((event_id, Consumer::Hub))) by {
        let table = delivery_rows(before.outbox.deliveries@);
        lemma_rows_map(table);
        if ds.dom().contains((event_id, Consumer::Hub)) {
            let k = choose|k: int|
                0 <= k < table.len() && (#[trigger] table[k]).0 == (event_id, Consumer::Hub);
            assert(before.outbox.has_event_id(before.outbox.deliveries@[k].event_id));
        }
    }
    assert(after.outbox.rows@.last() == event);
    assert(after.outbox.rows@.drop_last() =~= rows);
    assert(awaits(event, ds, EventType::Committed, item.id, Consumer::Hub));
    assert forall|t: i64, j: int|
        0 <= j < due_rows(rows, ds, EventType::Committed, Consumer::Hub, t).len() implies (
    #[trigger] due_rows(rows, ds, EventType::Committed, Consumer::Hub, t)[j]).aggregate_id
        != item.id by {
        lemma_nothing_due(rows, ds, EventType::Committed, item.id, Consumer::Hub, t);
    }
}

/// A blob that an item uses is never garbage, whatever time has passed.
pub proof fn used_blobs_are_kept(s: Store, i: int, released_before_ms: i64)
    requires
        s.wf(),
        0 <= i < s.items@.len(),
        blob_of(s.items@[i]) is Some,
    ensures
        s.blob_uses().dom().contains(blob_of(s.items@[i])->0),
        !is_garbage(s.blob_uses()[blob_of(s.items@[i])->0], released_before_ms),
{
    let b = blob_of(s.items@[i])->0;
    assert(s.blob_uses().dom().contains(b));
    lemma_uses_positive(s.items@, i, b);
}

/// A blob that was stored is not garbage until its grace has passed, though no
/// item uses it yet; then it is, unless it is used.
pub proof fn stored_blob_has_grace(
    m: Map<Seq<char>, BlobUse>,
    blob: Seq<char>,
    now_ms: i64,
    released_before_ms: i64,
)
    ensures
        ({
            let after = reserved(m, blob, now_ms);
            &&& after.dom().contains(blob)
            &&& is_garbage(after[blob], released_before_ms) <==> after[blob].count == 0 && now_ms
                <= released_before_ms
        }),
{
}

/// How many items have their contents in a blob.
fn count_uses(items: &Vec<ContentItem>, blob: &str) -> (r: usize)
    ensures
        r == uses(items@, blob@),
{
    let mut n: usize = 0;
    let mut i: usize = 0;
    assert(items@.take(0).len() == 0);
    while i < items.len()
        invariant
            i <= items@.len(),
            n <= i,
            n == uses(items@.take(i as int), blob@),
        decreases items@.len() - i,
    {
        proof {
            assert(items@.take(i + 1).drop_last() =~= items@.take(i as int));
            assert(items@.take(i + 1).last() == items@[i as int]);
        }
        if let PayloadRef::Blob(b) = &items[i].payload_ref {
            if same_text(b.hex.as_str(), blob) {
                n += 1;
            }
        }
        i += 1;
    }
    assert(items@.take(i as int) =~= items@);
    n
}

impl Store {
    fn items_consistent(&self) -> (r: bool)
        ensures
            r == (distinct_ids(self.items@) && forall|i: int|
                0 <= i < self.items@.len() ==> flags_allow_history(
                    (#[trigger] self.items@[i]).flags,
                )),
    {
        let mut ids: Vec<u128> = Vec::new();
        let mut i: usize = 0;
        while i < self.items.len()
            invariant
                i <= self.items@.len(),
                ids@.len() == i,
                forall|k: int| 0 <= k < i ==> #[trigger] ids@[k] == self.items@[k].id.raw,
                forall|k: int| 0 <= k < i ==> flags_allow_history((#[trigger] self.items@[k]).flags),
            decreases self.items@.len() - i,
        {
            if !self.items[i].may_enter_history() {
                assert(!flags_allow_history(self.items@[i as int].flags));
                return false;
            }
            ids.push(self.items[i].id.raw);
            i += 1;
        }
        let distinct = crate::storage::outbox::all_distinct(&ids);
        proof {
            if distinct {
                assert forall|a: int, b: int| 0 <= a < b < self.items@.len() implies (
                #[trigger] self.items@[a]).id != (#[trigger] self.items@[b]).id by {
                    assert(ids@[a] != ids@[b]);
                }
            } else {
                let (a, b) = choose|a: int, b: int|
                    0 <= a < ids@.len() && 0 <= b < ids@.len() && a != b && ids@[a] == ids@[b];
                if a < b {
                    assert(self.items@[a].id == self.items@[b].id);
                } else {
                    assert(self.items@[b].id == self.items@[a].id);
                }
            }
        }
        distinct
    }

    fn use_keys_distinct(&self) -> (r: bool)
        ensures
            r == distinct_keys(use_rows(self.blob_refs@)),
    {
        let ghost rows = use_rows(self.blob_refs@);
        let mut i: usize = 0;
        while i < self.blob_refs.len()
            invariant
                i <= self.blob_refs@.len(),
                rows == use_rows(self.blob_refs@),
                forall|a: int, b: int|
                    0 <= a < b < i ==> (#[trigger] rows[a]).0 != (#[trigger] rows[b]).0,
            decreases self.blob_refs@.len() - i,
        {
            let mut j: usize = 0;
            while j < i
                invariant
                    j <= i < self.blob_refs@.len(),
                    rows == use_rows(self.blob_refs@),
                    forall|a: int| 0 <= a < j ==> (#[trigger] rows[a]).0 != rows[i as int].0,
                decreases i - j,
            {
                if same_text(self.blob_refs[j].blob.as_str(), self.blob_refs[i].blob.as_str()) {
                    assert(rows[j as int].0 == rows[i as int].0);
                    return false;
                }
                assert(rows[j as int].0 != rows[i as int].0);
                j += 1;
            }
            i += 1;
        }
        true
    }

    fn value_keys_distinct(&self) -> (r: bool)
        ensures
            r == distinct_keys(cursor_rows(self.cursors@)),
    {
        let ghost rows = cursor_rows(self.cursors@);
        let mut i: usize = 0;
        while i < self.cursors.len()
            invariant
                i <= self.cursors@.len(),
                rows == cursor_rows(self.cursors@),
                forall|a: int, b: int|
                    0 <= a < b < i ==> (#[trigger] rows[a]).0 != (#[trigger] rows[b]).0,
            decreases self.cursors@.len() - i,
        {
            let mut j: usize = 0;
            while j < i
                invariant
                    j <= i < self.cursors@.len(),
                    rows == cursor_rows(self.cursors@),
                    forall|a: int| 0 <= a < j ==> (#[trigger] rows[a]).0 != rows[i as int].0,
                decreases i - j,
            {
                if same_text(self.cursors[j].scope.as_str(), self.cursors[i].scope.as_str()) {
                    assert(rows[j as int].0 == rows[i as int].0);
                    return false;
                }
                assert(rows[j as int].0 != rows[i as int].0);
                j += 1;
            }
            i += 1;
        }
        true
    }

    fn uses_consistent(&self) -> (r: bool)
        requires
            distinct_keys(use_rows(self.blob_refs@)),
        ensures
            r == counts_uses(self.items@, self.blob_uses()),
    {
        let ghost rows = use_rows(self.blob_refs@);
        let ghost m = self.blob_uses();
        proof {
            lemma_rows_map(rows);
        }
        let mut i: usize = 0;
        while i < self.blob_refs.len()
            invariant
                i <= self.blob_refs@.len(),
                rows == use_rows(self.blob_refs@),
                distinct_keys(rows),
                m == rows_map(rows),
                forall|k: int|
                    0 <= k < i ==> (#[trigger] rows[k]).1.count == uses(self.items@, rows[k].0) && (
                    rows[k].1.count == 0 ==> rows[k].1.released_at_ms is Some),
            decreases self.blob_refs@.len() - i,
        {
            let row = &self.blob_refs[i];
            let n: usize = count_uses(&self.items, row.blob.as_str());
            if row.ref_count != n as u64 || (row.ref_count == 0
                && row.last_released_at_ms.is_none()) {
                proof {
                    lemma_rows_map(rows);
                    assert(m[rows[i as int].0] == rows[i as int].1);
                    assert(m.dom().contains(rows[i as int].0));
                }
                return false;
            }
            assert(rows[i as int].1.count == uses(self.items@, rows[i as int].0));
            i += 1;
        }
        let mut k: usize = 0;
        while k < self.items.len()
            invariant
                k <= self.items@.len(),
                distinct_keys(use_rows(self.blob_refs@)),
                m == self.blob_uses(),
                forall|j: int|
                    0 <= j < k && blob_of(#[trigger] self.items@[j]) is Some ==> m.dom().contains(
                        blob_of(self.items@[j])->0,
                    ),
            decreases self.items@.len() - k,
        {
            if let PayloadRef::Blob(b) = &self.items[k].payload_ref {
                if self.find_use(b.hex.as_str()).is_none() {
                    assert(blob_of(self.items@[k as int]) == Some(b.hex@));
                    return false;
                }
            }
            k += 1;
        }
        proof {
            lemma_rows_map(rows);
            assert forall|b: Seq<char>| #[trigger] m.dom().contains(b) implies m[b].count == uses(
                self.items@,
                b,
            ) && (m[b].count == 0 ==> m[b].released_at_ms is Some) by {
                let j = choose|j: int| 0 <= j < rows.len() && (#[trigger] rows[j]).0 == b;
                assert(m[rows[j].0] == rows[j].1);
            }
        }
        true
    }

    /// Whether the tables are consistent. Tables that come from outside are to
    /// be tried before they are used.
    pub fn is_consistent(&self) -> (r: bool)
        ensures
            r == self.wf(),
    {
        self.items_consistent() && self.use_keys_distinct() && self.uses_consistent()
            && self.value_keys_distinct() && self.outbox.is_consistent()
    }
}

/// Storing an item that uses a blob counts one use more of it, and removing one counts
/// one less and notes when. Nothing changes for other blobs.
pub proof fn uses_are_counted_one_by_one(
    m: Map<Seq<char>, BlobUse>,
    blob: Seq<char>,
    time_ms: i64,
    other: Seq<char>,
)
    ensures
        ({
            let more = bumped(m, blob, time_ms);
            let less = released(m, blob, time_ms);
            let kept = reserved(m, blob, time_ms);
            let known = m.dom().contains(blob);
            &&& more.dom() == m.dom().insert(blob)
            &&& more[blob].count == (if known {
                m[blob].count + 1
            } else {
                1
            })
            &&& known ==> more[blob].created_at_ms == m[blob].created_at_ms
                && more[blob].released_at_ms == m[blob].released_at_ms
            &&& !known ==> more[blob].created_at_ms == time_ms && more[blob].released_at_ms is None
            &&& known && m[blob].count > 0 ==> less[blob].count + 1 == m[blob].count
            &&& known && m[blob].count == 0 ==> less[blob].count == 0
            &&& less[blob].released_at_ms == Some(time_ms)
            &&& known ==> less[blob].created_at_ms == m[blob].created_at_ms && less.dom()
                == m.dom()
            &&& kept.dom() == m.dom().insert(blob)
            &&& kept[blob].count == (if known {
                m[blob].count
            } else {
                0
            })
            &&& kept[blob].count == 0 ==> kept[blob].released_at_ms == Some(time_ms)
            &&& known && m[blob].count > 0 ==> kept == m
            &&& known ==> kept[blob].created_at_ms == m[blob].created_at_ms
            &&& other != blob && m.dom().contains(other) ==> {
                &&& more[other] == m[other]
                &&& less[other] == m[other]
                &&& kept[other] == m[other]
            }
        }),
{
    assert(bumped(m, blob, time_ms).dom() =~= m.dom().insert(blob));
    assert(reserved(m, blob, time_ms).dom() =~= m.dom().insert(blob));
    if m.dom().contains(blob) {
        assert(released(m, blob, time_ms).dom() =~= m.dom());
    }
}

/// A blob is garbage just if no item uses it and it was released by the time.
pub proof fn garbage_is_unused_and_old(u: BlobUse, released_before_ms: i64)
    ensures
        is_garbage(u, released_before_ms) <==> u.count == 0 && u.released_at_ms is Some
            && u.released_at_ms->0 <= released_before_ms,
{
}

/// A blob is used as often as there are items whose contents are in it.
pub proof fn uses_are_of_items(items: Seq<ContentItem>, blob: Seq<char>)
    ensures
        uses(items, blob) == items.filter(
            |i: ContentItem| i.payload_ref is Blob && i.payload_ref->Blob_0.hex@ == blob,
        ).len(),
    decreases items.len(),
{
    reveal(Seq::filter);
    if items.len() > 0 {
        uses_are_of_items(items.drop_last(), blob);
    }
}

/// The manifests of an item go with it, and no others do.
pub proof fn manifests_of_others_stay(ms: Seq<ManifestRow>, id: ContentId)
    ensures
        manifests_without(ms, id) == ms.filter(|m: ManifestRow| m.content_id != id),
    decreases ms.len(),
{
    reveal(Seq::filter);
    if ms.len() > 0 {
        manifests_of_others_stay(ms.drop_last(), id);
    }
}

/// An item is found under its identity wherever it stands, and only then.
pub proof fn items_are_found(items: Seq<ContentItem>, i: int)
    requires
        distinct_ids(items),
        0 <= i < items.len(),
    ensures
        position(items, items[i].id) == Some(i),
{
    lemma_position(items, items[i].id);
    let p = position(items, items[i].id)->0;
    if p < i {
        assert(items[p].id != items[i].id);
    } else if i < p {
        assert(items[i].id != items[p].id);
    }
}

/// An item is added just if it is neither sensitive nor transient, its identity, that
/// of its manifest and that of its event are new, and numbers are left. Nothing else of
/// it matters: neither its kind, its size nor its marks.
pub proof fn new_items_are_added(
    s: Store,
    item: ContentItem,
    manifest: Option<NewManifest>,
    event_id: u128,
)
    ensures
        insert_refusal(s, item, manifest, event_id) is None <==> {
            &&& !item.flags.sensitive
            &&& !item.flags.transient
            &&& forall|i: int| 0 <= i < s.items@.len() ==> (#[trigger] s.items@[i]).id != item.id
            &&& manifest is Some ==> forall|i: int|
                0 <= i < s.manifests@.len() ==> (#[trigger] s.manifests@[i]).id != manifest->0.id
            &&& forall|i: int|
                0 <= i < s.outbox.rows@.len() ==> (#[trigger] s.outbox.rows@[i]).event_id
                    != event_id
            &&& s.outbox.last_id < i64::MAX
            &&& s.items@.len() < u64::MAX
        },
        insert_refusal(s, item, manifest, event_id) is Some && !item.flags.sensitive
            && !item.flags.transient ==> insert_refusal(s, item, manifest, event_id)->0 is Sqlite,
        item.flags.sensitive || item.flags.transient ==> insert_refusal(
            s,
            item,
            manifest,
            event_id,
        )->0 is PolicyRejected,
{
    lemma_position(s.items@, item.id);
}

/// An item is removed just if it is there, the identity of its event is new and numbers
/// are left.
pub proof fn present_items_are_removed(s: Store, id: ContentId, event_id: u128)
    ensures
        delete_refusal(s, id, event_id) is None <==> {
            &&& exists|i: int| 0 <= i < s.items@.len() && (#[trigger] s.items@[i]).id == id
            &&& forall|i: int|
                0 <= i < s.outbox.rows@.len() ==> (#[trigger] s.outbox.rows@[i]).event_id
                    != event_id
            &&& s.outbox.last_id < i64::MAX
        },
        (forall|i: int| 0 <= i < s.items@.len() ==> (#[trigger] s.items@[i]).id != id)
            ==> delete_refusal(s, id, event_id) == Some(StorageErrorView::NotFound),
        enqueue_refusal(s, event_id) is None <==> {
            &&& forall|i: int|
                0 <= i < s.outbox.rows@.len() ==> (#[trigger] s.outbox.rows@[i]).event_id
                    != event_id
            &&& s.outbox.last_id < i64::MAX
        },
{
    lemma_position(s.items@, id);
    if let Some(i) = position(s.items@, id) {
        assert(s.items@[i].id == id);
    }
}

/// An item that was added is there, behind those that were, with its manifest, and one
/// event more tells everybody of it from now on. Its blob is used once more.
pub proof fn added_item_is_there(
    before: Store,
    after: Store,
    item: ContentItem,
    manifest: Option<NewManifest>,
    event_id: u128,
    now_ms: i64,
)
    requires
        inserted(before, after, item, manifest, event_id, now_ms),
        before.outbox.last_id < i64::MAX,
    ensures
        after.items@.len() == before.items@.len() + 1,
        after.items@.last() == item,
        after.items@.drop_last() == before.items@,
        manifest is None ==> after.manifests@ == before.manifests@,
        manifest matches Some(m) ==> {
            &&& after.manifests@.len() == before.manifests@.len() + 1
            &&& after.manifests@.drop_last() == before.manifests@
            &&& after.manifests@.last().id == m.id
            &&& after.manifests@.last().content_id == item.id
            &&& after.manifests@.last().manifest_json@ == m.manifest_json@
        },
        after.outbox.rows@.len() == before.outbox.rows@.len() + 1,
        after.outbox.rows@.drop_last() == before.outbox.rows@,
        ({
            let event = after.outbox.rows@.last();
            &&& event.event_type == EventType::Committed
            &&& event.aggregate_id == item.id
            &&& event.event_id == event_id
            &&& event.available_at_ms == now_ms
            &&& event.payload.from_remote == item.flags.from_remote
            &&& event.id == before.outbox.last_id + 1
            &&& event.id == after.outbox.last_id
        }),
        after.outbox.deliveries@ == before.outbox.deliveries@,
        after.cursors == before.cursors,
        item.payload_ref matches PayloadRef::Blob(b) ==> after.blob_uses() == bumped(
            before.blob_uses(),
            b.hex@,
            item.created_at_ms,
        ),
        !(item.payload_ref is Blob) ==> after.blob_uses() == before.blob_uses(),
{
    assert(after.items@.drop_last() =~= before.items@);
    assert(after.outbox.rows@.drop_last() =~= before.outbox.rows@);
    if manifest is Some {
        assert(after.manifests@.drop_last() =~= before.manifests@);
    }
}

/// An item that was removed is gone with its manifests and nothing else is, and one
/// event more tells everybody of it. Its blob is used once less.
pub proof fn removed_item_is_gone(
    before: Store,
    after: Store,
    id: ContentId,
    event_id: u128,
    now_ms: i64,
    i: int,
)
    requires
        removed(before, after, id, event_id, now_ms),
        distinct_ids(before.items@),
        0 <= i < before.items@.len(),
        before.items@[i].id == id,
        before.outbox.last_id < i64::MAX,
    ensures
        after.items@ == before.items@.remove(i),
        after.manifests@ == before.manifests@.filter(|m: ManifestRow| m.content_id != id),
        after.outbox.rows@.len() == before.outbox.rows@.len() + 1,
        after.outbox.rows@.drop_last() == before.outbox.rows@,
        ({
            let event = after.outbox.rows@.last();
            &&& event.event_type == EventType::Deleted
            &&& event.aggregate_id == id
            &&& event.event_id == event_id
            &&& event.available_at_ms == now_ms
            &&& event.id == before.outbox.last_id + 1
            &&& event.id == after.outbox.last_id
        }),
        after.outbox.deliveries@ == before.outbox.deliveries@,
        after.cursors == before.cursors,
        before.items@[i].payload_ref matches PayloadRef::Blob(b) ==> after.blob_uses() == released(
            before.blob_uses(),
            b.hex@,
            now_ms,
        ),
        !(before.items@[i].payload_ref is Blob) ==> after.blob_uses() == before.blob_uses(),
{
    items_are_found(before.items@, i);
    manifests_of_others_stay(before.manifests@, id);
    assert(after.outbox.rows@.drop_last() =~= before.outbox.rows@);
}

/// Marking an item as a favorite, or giving it a status, changes that of it and nothing
/// else.
pub proof fn marks_change_alone(item: ContentItem, favorite: bool, status: ContentStatus)
    ensures
        ({
            let marked = with_favorite(item, favorite);
            let moved = with_status(item, status);
            &&& marked.flags.favorite == favorite
            &&& marked.flags.sensitive == item.flags.sensitive
            &&& marked.flags.local_only == item.flags.local_only
            &&& marked.flags.transient == item.flags.transient
            &&& marked.flags.remote_allowed == item.flags.remote_allowed
            &&& marked.flags.from_remote == item.flags.from_remote
            &&& marked.flags.rest == item.flags.rest
            &&& marked.status == item.status
            &&& moved.status == status
            &&& moved.flags == item.flags
            &&& marked.id == item.id && moved.id == item.id
            &&& marked.origin_device_id == item.origin_device_id && moved.origin_device_id
                == item.origin_device_id
            &&& marked.kind == item.kind && moved.kind == item.kind
            &&& marked.created_at_ms == item.created_at_ms && moved.created_at_ms
                == item.created_at_ms
            &&& marked.logical_size == item.logical_size && moved.logical_size
                == item.logical_size
            &&& marked.payload_size == item.payload_size && moved.payload_size
                == item.payload_size
            &&& marked.dedup_tag == item.dedup_tag && moved.dedup_tag == item.dedup_tag
            &&& marked.metadata == item.metadata && moved.metadata == item.metadata
            &&& marked.payload_ref == item.payload_ref && moved.payload_ref == item.payload_ref
        }),
{
}

/// A delay ends that long from now, at once if it is not positive, and at the last time
/// there is if there is none so late.
pub proof fn delays_are_added(now_ms: i64, delay_ms: i64)
    ensures
        delay_ms <= 0 ==> after_delay(now_ms, delay_ms) == now_ms,
        delay_ms > 0 && now_ms + delay_ms <= i64::MAX ==> after_delay(now_ms, delay_ms) == now_ms
            + delay_ms,
        delay_ms > 0 && now_ms + delay_ms > i64::MAX ==> after_delay(now_ms, delay_ms)
            == i64::MAX,
{
}

/// No item in the history is sensitive or transient.
pub proof fn history_is_never_sensitive(s: Store, i: int)
    requires
        s.wf(),
        0 <= i < s.items@.len(),
    ensures
        !s.items@[i].flags.sensitive,
        !s.items@[i].flags.transient,
        forall|j: int| 0 <= j < s.items@.len() && j != i ==> (#[trigger] s.items@[j]).id
            != s.items@[i].id,
{
    assert(flags_allow_history(s.items@[i].flags));
}

/// The directories that must stay are those that items name, one for each, in order.
pub proof fn named_caches_are_those_of_items(items: Seq<ContentItem>)
    ensures
        named_caches(items) == items.filter(
            |i: ContentItem| i.metadata.local_cache_rel is Some,
        ).map_values(|i: ContentItem| i.metadata.local_cache_rel->0@),
    decreases items.len(),
{
    reveal(Seq::filter);
    let named = |i: ContentItem| i.metadata.local_cache_rel is Some;
    let dir = |i: ContentItem| i.metadata.local_cache_rel->0@;
    if items.len() == 0 {
        assert(items.filter(named).map_values(dir) =~= Seq::<Seq<char>>::empty());
    } else {
        named_caches_are_those_of_items(items.drop_last());
        let before = items.drop_last().filter(named);
        assert(before.push(items.last()).map_values(dir) =~= before.map_values(dir).push(
            dir(items.last()),
        ));
    }
}

/// What each change that the writer takes does, and what it answers: an item that may
/// be added or removed is, a mark or a status that is set is set on the item that was
/// named and on no other, a named value is kept, a blob is reserved, unused blobs that
/// are old enough are given and forgotten, and an acknowledgement or a delay is noted.
pub proof fn changes_do_what_they_ask_for(
    before: Store,
    after: Store,
    op: WriteOp,
    now_ms: i64,
    reply: WriteReply,
    i: int,
    j: int,
)
    requires
        before.wf(),
        applied(before, after, op, now_ms, reply),
    ensures
        op matches WriteOp::Insert { item, manifest, event_id } ==> {
            &&& reply is Inserted
            &&& reply->Inserted_0 is Ok <==> insert_refusal(before, item, manifest, event_id) is None
            &&& reply->Inserted_0 is Ok ==> reply->Inserted_0->Ok_0 == item.id && inserted(
                before,
                after,
                item,
                manifest,
                event_id,
                now_ms,
            )
            &&& reply->Inserted_0 is Err ==> after == before
        },
        op matches WriteOp::Favorite { id, favorite } ==> (0 <= i < before.items@.len() && id == before.items@[i].id ==> {
            &&& reply is Done && reply->Done_0 is Ok
            &&& after.items@.len() == before.items@.len()
            &&& after.items@[i] == with_favorite(before.items@[i], favorite)
            &&& 0 <= j < before.items@.len() && j != i ==> after.items@[j] == before.items@[j]
            &&& after.outbox == before.outbox && after.manifests == before.manifests
                && after.blob_refs == before.blob_refs && after.cursors == before.cursors
        }),
        op matches WriteOp::Status { id, status } ==> (0 <= i < before.items@.len() && id == before.items@[i].id ==> {
            &&& reply is Done && reply->Done_0 is Ok
            &&& after.items@.len() == before.items@.len()
            &&& after.items@[i] == with_status(before.items@[i], status)
            &&& 0 <= j < before.items@.len() && j != i ==> after.items@[j] == before.items@[j]
            &&& after.outbox == before.outbox && after.manifests == before.manifests
                && after.blob_refs == before.blob_refs && after.cursors == before.cursors
        }),
        op matches WriteOp::Delete { id, event_id } ==> (0 <= i < before.items@.len() && id == before.items@[i].id ==> {
            &&& reply is Deleted
            &&& reply->Deleted_0 is Ok <==> delete_refusal(before, id, event_id) is None
            &&& reply->Deleted_0 is Ok ==> removed(before, after, id, event_id, now_ms)
            &&& reply->Deleted_0 is Ok ==> (match reply->Deleted_0->Ok_0 {
                Some(b) => Some(b.hex@),
                None => None,
            }) == blob_of(before.items@[i])
            &&& reply->Deleted_0 is Err ==> after == before
        }),
        op matches WriteOp::SetCursor { scope, cursor } ==> {
            &&& reply is Done && reply->Done_0 is Ok
            &&& after.values().dom().contains(scope@)
            &&& after.values()[scope@].0 == cursor@
            &&& forall|k: Seq<char>|
                k != scope@ && before.values().dom().contains(k) ==> #[trigger] after.values()[k]
                    == before.values()[k]
            &&& after.items == before.items && after.outbox == before.outbox && after.manifests
                == before.manifests && after.blob_refs == before.blob_refs
        },
        op matches WriteOp::PutBlob { blob } ==> {
            &&& reply is Done && reply->Done_0 is Ok
            &&& after.blob_uses().dom().contains(blob@)
            &&& after.items == before.items && after.outbox == before.outbox && after.manifests
                == before.manifests && after.cursors == before.cursors
        },
        op matches WriteOp::GcBlobs { released_before_ms } ==> {
            &&& reply is Collected
            &&& forall|b: Seq<char>| #[trigger]
                texts(reply->Collected_0@).contains(b) <==> before.blob_uses().dom().contains(b)
                    && before.blob_uses()[b].count == 0
                    && before.blob_uses()[b].released_at_ms is Some
                    && before.blob_uses()[b].released_at_ms->0 <= released_before_ms
            &&& forall|b: Seq<char>| #[trigger]
                after.blob_uses().dom().contains(b) <==> before.blob_uses().dom().contains(b)
                    && !texts(reply->Collected_0@).contains(b)
            &&& after.items == before.items && after.outbox == before.outbox && after.manifests
                == before.manifests && after.cursors == before.cursors
        },
        op matches WriteOp::AckOutbox { number, consumer } ==> {
            &&& reply is Acked
            &&& reply->Acked_0 == ack_counts(
                before.outbox.rows@,
                before.outbox.delivered(),
                number,
                consumer,
            )
            &&& after.outbox.delivered() == acked(
                before.outbox.rows@,
                before.outbox.delivered(),
                number,
                consumer,
                now_ms,
            )
            &&& after.outbox.rows@ == before.outbox.rows@
            &&& after.items == before.items && after.manifests == before.manifests
                && after.blob_refs == before.blob_refs && after.cursors == before.cursors
        },
        op matches WriteOp::RetryOutbox { number, consumer, delay_ms } ==> {
            &&& reply is Done && reply->Done_0 is Ok
            &&& after.outbox.delivered() == retried(
                before.outbox.rows@,
                before.outbox.delivered(),
                number,
                consumer,
                after_delay(now_ms, delay_ms),
            )
            &&& after.outbox.rows@ == before.outbox.rows@
            &&& after.items == before.items && after.manifests == before.manifests
                && after.blob_refs == before.blob_refs && after.cursors == before.cursors
        },
{
    if 0 <= i < before.items@.len() {
        items_are_found(before.items@, i);
    }
}


/// An item is stored, `r`, just if it may be in the history, and it, its manifest and its
/// event are new. Then it is read back as it was given, `got`, with its manifest, and what
/// was there before is there still. If it is refused, nothing changes.
pub proof fn stored_items_are_read_back(
    s: &mut Store,
    item: ContentItem,
    manifest: Option<NewManifest>,
    event_id: u128,
    now_ms: i64,
    r: Result<ContentId, StorageError>,
    got: Result<&ContentItem, StorageError>,
    there: bool,
    i: int,
)
    requires
        old(s).wf(),
        call_ensures(Store::insert, (s, item, manifest, event_id, now_ms), r),
        call_ensures(Store::get, (&*final(s), item.id), got),
        call_ensures(Store::contains, (&*final(s), item.id), there),
    ensures
        r is Ok <==> {
            &&& !item.flags.sensitive && !item.flags.transient
            &&& forall|k: int|
                0 <= k < old(s).items@.len() ==> (#[trigger] old(s).items@[k]).id != item.id
            &&& manifest is Some ==> forall|k: int|
                0 <= k < old(s).manifests@.len() ==> (#[trigger] old(s).manifests@[k]).id
                    != manifest->0.id
            &&& forall|k: int|
                0 <= k < old(s).outbox.rows@.len() ==> (#[trigger] old(s).outbox.rows@[k]).event_id
                    != event_id
            &&& old(s).outbox.last_id < i64::MAX
            &&& old(s).items@.len() < u64::MAX
        },
        r is Err ==> *final(s) == *old(s),
        r is Ok ==> {
            &&& r->Ok_0 == item.id
            &&& there && got is Ok && *got->Ok_0 == item
            &&& final(s).items@.len() == old(s).items@.len() + 1
            &&& 0 <= i < old(s).items@.len() ==> final(s).items@[i] == old(s).items@[i]
            &&& final(s).outbox.rows@.len() == old(s).outbox.rows@.len() + 1
            &&& final(s).outbox.rows@.last().event_type == EventType::Committed
            &&& final(s).outbox.rows@.last().aggregate_id == item.id
            &&& final(s).outbox.rows@.last().event_id == event_id
            &&& final(s).outbox.rows@.last().available_at_ms == now_ms
        },
{
    new_items_are_added(*old(s), item, manifest, event_id);
    if r is Ok {
        added_item_is_there(*old(s), *final(s), item, manifest, event_id, now_ms);
        let n = old(s).items@.len() as int;
        assert(final(s).items@[n] == item);
        items_are_found(final(s).items@, n);
    }
}

/// An item is removed, `r`, just if it is there and its event is new. Then it is not found
/// any more, every other item is, and the blob that held its contents is told. If it is
/// not there, nothing changes.
pub proof fn removed_items_are_not_found(
    s: &mut Store,
    id: ContentId,
    event_id: u128,
    now_ms: i64,
    r: Result<Option<BlobId>, StorageError>,
    there: bool,
    other: ContentId,
    was: bool,
    is: bool,
    i: int,
)
    requires
        old(s).wf(),
        call_ensures(Store::delete, (s, id, event_id, now_ms), r),
        call_ensures(Store::contains, (&*final(s), id), there),
        other != id,
        call_ensures(Store::contains, (&*old(s), other), was),
        call_ensures(Store::contains, (&*final(s), other), is),
    ensures
        r is Ok <==> {
            &&& exists|k: int| 0 <= k < old(s).items@.len() && (#[trigger] old(s).items@[k]).id == id
            &&& forall|k: int|
                0 <= k < old(s).outbox.rows@.len() ==> (#[trigger] old(s).outbox.rows@[k]).event_id
                    != event_id
            &&& old(s).outbox.last_id < i64::MAX
        },
        r is Err ==> *final(s) == *old(s),
        r is Ok ==> !there,
        was == is,
        r is Ok && 0 <= i < old(s).items@.len() && old(s).items@[i].id == id ==> {
            &&& old(s).items@[i].payload_ref matches PayloadRef::Blob(b) ==> r->Ok_0 is Some
                && r->Ok_0->0.hex@ == b.hex@
            &&& !(old(s).items@[i].payload_ref is Blob) ==> r->Ok_0 is None
            &&& final(s).items@ == old(s).items@.remove(i)
            &&& final(s).manifests@ == old(s).manifests@.filter(
                |m: ManifestRow| m.content_id != id,
            )
            &&& final(s).outbox.rows@.last().event_type == EventType::Deleted
            &&& final(s).outbox.rows@.last().aggregate_id == id
        },
{
    present_items_are_removed(*old(s), id, event_id);
    lemma_position(old(s).items@, id);
    lemma_position(final(s).items@, id);
    lemma_position(old(s).items@, other);
    lemma_position(final(s).items@, other);
    let before = old(s).items@;
    let after = final(s).items@;
    if r is Ok {
        let p = position(before, id)->0;
        removed_item_is_gone(*old(s), *final(s), id, event_id, now_ms, p);
        if 0 <= i < before.len() && before[i].id == id {
            items_are_found(before, i);
            removed_item_is_gone(*old(s), *final(s), id, event_id, now_ms, i);
        }
        if there {
            let q = position(after, id)->0;
            let k = if q < p {
                q
            } else {
                q + 1
            };
            assert(before[k] == after[q]);
            items_are_found(before, k);
        }
        if was {
            let q = position(before, other)->0;
            let k = if q < p {
                q
            } else {
                q - 1
            };
            assert(after[k] == before[q]);
        }
        if is {
            let q = position(after, other)->0;
            let k = if q < p {
                q
            } else {
                q + 1
            };
            assert(before[k] == after[q]);
        }
    }
}

/// A mark or a status is set just if the item is there, on that item and nothing else of
/// it, and on no other item.
pub proof fn marks_are_set(
    s: &mut Store,
    id: ContentId,
    favorite: bool,
    r: Result<(), StorageError>,
    i: int,
)
    requires
        old(s).wf(),
        call_ensures(Store::set_favorite, (s, id, favorite), r),
        0 <= i < old(s).items@.len(),
    ensures
        r is Ok <==> exists|k: int|
            0 <= k < old(s).items@.len() && (#[trigger] old(s).items@[k]).id == id,
        r is Err ==> *final(s) == *old(s),
        final(s).items@.len() == old(s).items@.len(),
        old(s).items@[i].id != id ==> final(s).items@[i] == old(s).items@[i],
        old(s).items@[i].id == id ==> {
            let was = old(s).items@[i];
            let is = final(s).items@[i];
            &&& is.flags.favorite == favorite
            &&& is.flags == (ContentFlags { favorite, ..was.flags })
            &&& is == (ContentItem { flags: is.flags, ..was })
        },
        final(s).outbox == old(s).outbox && final(s).manifests == old(s).manifests
            && final(s).blob_refs == old(s).blob_refs && final(s).cursors == old(s).cursors,
{
    lemma_position(old(s).items@, id);
    if let Some(p) = position(old(s).items@, id) {
        assert(old(s).items@[p].id == id);
        items_are_found(old(s).items@, i);
    }
}

/// See [`marks_are_set`], of the status.
pub proof fn statuses_are_set(
    s: &mut Store,
    id: ContentId,
    status: ContentStatus,
    r: Result<(), StorageError>,
    i: int,
)
    requires
        old(s).wf(),
        call_ensures(Store::set_status, (s, id, status), r),
        0 <= i < old(s).items@.len(),
    ensures
        r is Ok <==> exists|k: int|
            0 <= k < old(s).items@.len() && (#[trigger] old(s).items@[k]).id == id,
        r is Err ==> *final(s) == *old(s),
        final(s).items@.len() == old(s).items@.len(),
        old(s).items@[i].id != id ==> final(s).items@[i] == old(s).items@[i],
        old(s).items@[i].id == id ==> {
            let was = old(s).items@[i];
            let is = final(s).items@[i];
            is.status == status && is == (ContentItem { status, ..was })
        },
        final(s).outbox == old(s).outbox && final(s).manifests == old(s).manifests
            && final(s).blob_refs == old(s).blob_refs && final(s).cursors == old(s).cursors,
{
    lemma_position(old(s).items@, id);
    if let Some(p) = position(old(s).items@, id) {
        assert(old(s).items@[p].id == id);
        items_are_found(old(s).items@, i);
    }
}

/// A value that was kept under a name is read under it, and other names keep theirs.
pub proof fn kept_values_are_read(
    s: &mut Store,
    scope: &str,
    value: &str,
    now_ms: i64,
    r: (),
    got: Option<String>,
    other: &str,
    was: Option<String>,
    is: Option<String>,
)
    requires
        old(s).wf(),
        call_ensures(Store::kv_set, (s, scope, value, now_ms), r),
        call_ensures(Store::kv_get, (&*final(s), scope), got),
        other@ != scope@,
        call_ensures(Store::kv_get, (&*old(s), other), was),
        call_ensures(Store::kv_get, (&*final(s), other), is),
    ensures
        got is Some && got->0@ == value@,
        (was is Some) == (is is Some),
        was is Some ==> was->0@ == is->0@,
        final(s).items == old(s).items && final(s).outbox == old(s).outbox,
{
}

/// The position in the hub's history that was kept is read back.
pub proof fn kept_positions_are_read(
    s: &mut Store,
    cursor: &str,
    now_ms: i64,
    r: (),
    got: Option<String>,
)
    requires
        old(s).wf(),
        call_ensures(Store::set_hub_cursor, (s, cursor, now_ms), r),
        call_ensures(Store::hub_cursor, (&*final(s),), got),
    ensures
        got is Some && got->0@ == cursor@,
        final(s).items == old(s).items && final(s).outbox == old(s).outbox,
{
}

/// What the uses of a blob are is what its row in the table says, and there is a row for
/// each blob that is known.
pub proof fn uses_are_in_the_table(s: Store, k: int, blob: Seq<char>)
    requires
        s.wf(),
        0 <= k < s.blob_refs@.len(),
    ensures
        ({
            let row = s.blob_refs@[k];
            &&& s.blob_uses().dom().contains(row.blob@)
            &&& s.blob_uses()[row.blob@].count == row.ref_count
            &&& s.blob_uses()[row.blob@].created_at_ms == row.created_at_ms
            &&& s.blob_uses()[row.blob@].released_at_ms == row.last_released_at_ms
            &&& row.ref_count == uses(s.items@, row.blob@)
        }),
        s.blob_uses().dom().contains(blob) <==> exists|i: int|
            0 <= i < s.blob_refs@.len() && (#[trigger] s.blob_refs@[i]).blob@ == blob,
{
    let rows = use_rows(s.blob_refs@);
    lemma_rows_map(rows);
    assert(rows[k].0 == s.blob_refs@[k].blob@);
    assert(rows_map(rows).dom().contains(rows[k].0));
    assert(rows_map(rows)[rows[k].0] == rows[k].1);
    if s.blob_uses().dom().contains(blob) {
        let i = choose|i: int| 0 <= i < rows.len() && (#[trigger] rows[i]).0 == blob;
        assert(s.blob_refs@[i].blob@ == blob);
    }
    if exists|i: int| 0 <= i < s.blob_refs@.len() && (#[trigger] s.blob_refs@[i]).blob@ == blob {
        let i = choose|i: int|
            0 <= i < s.blob_refs@.len() && (#[trigger] s.blob_refs@[i]).blob@ == blob;
        assert(rows[i].0 == blob);
    }
}

/// A blob that is put into the store is known from then on, and other blobs are as they
/// were.
pub proof fn put_blobs_are_known(s: &mut Store, blob: &str, now_ms: i64, r: (), other: Seq<char>)
    requires
        old(s).wf(),
        call_ensures(Store::put_blob, (s, blob, now_ms), r),
        other != blob@,
    ensures
        final(s).blob_uses().dom().contains(blob@),
        old(s).blob_uses().dom().contains(blob@) ==> final(s).blob_uses()[blob@].count == old(
            s,
        ).blob_uses()[blob@].count,
        !old(s).blob_uses().dom().contains(blob@) ==> final(s).blob_uses()[blob@].count == 0,
        final(s).blob_uses()[blob@].count == 0 ==> final(s).blob_uses()[blob@].released_at_ms
            == Some(now_ms),
        final(s).blob_uses().dom().contains(other) == old(s).blob_uses().dom().contains(other),
        old(s).blob_uses().dom().contains(other) ==> final(s).blob_uses()[other] == old(
            s,
        ).blob_uses()[other],
        final(s).items == old(s).items,
{
    uses_are_counted_one_by_one(old(s).blob_uses(), blob@, now_ms, other);
}

/// Just the blobs go that no item uses and that were released by the time that is given.
pub proof fn unused_blobs_go(s: &mut Store, before_ms: i64, r: Vec<String>, k: int)
    requires
        old(s).wf(),
        call_ensures(Store::gc_blobs, (s, before_ms), r),
        0 <= k < old(s).blob_refs@.len(),
    ensures
        ({
            let row = old(s).blob_refs@[k];
            &&& texts(r@).contains(row.blob@) <==> row.ref_count == 0
                && row.last_released_at_ms is Some && row.last_released_at_ms->0 <= before_ms
            &&& final(s).blob_uses().dom().contains(row.blob@) <==> !texts(r@).contains(row.blob@)
        }),
        final(s).items == old(s).items && final(s).outbox == old(s).outbox,
{
    uses_are_in_the_table(*old(s), k, old(s).blob_refs@[k].blob@);
}

/// The threshold for unused blobs lies the grace before now, as far as times go.
pub proof fn grace_is_subtracted(now_ms: i64, grace_ms: u128, r: i64)
    requires
        call_ensures(gc_threshold, (now_ms, grace_ms), r),
    ensures
        grace_ms <= i64::MAX && now_ms - grace_ms >= i64::MIN ==> r == now_ms - grace_ms,
        grace_ms > i64::MAX && now_ms >= 0 ==> r == now_ms - i64::MAX,
        r <= now_ms,
{
}

/// The history that is shown, `r`, are items of the store that were asked for, the newest
/// first.
pub proof fn history_is_shown(
    s: Store,
    q: HistoryQuery,
    hits: &[ContentId],
    r: Vec<&ContentItem>,
    i: int,
    k: int,
)
    requires
        s.wf(),
        call_ensures(Store::history, (&s, &q, hits), r),
        0 <= k < s.items@.len(),
    ensures
        ({
            let searched = q.query is Some && exists|c: int|
                0 <= c < q.query->0@.len() && !crate::text::is_white_space(
                    #[trigger] q.query->0@[c],
                );
            let meets = |item: ContentItem|
                {
                    &&& q.kind is None || q.kind == Some(item.kind)
                    &&& q.favorite_only ==> item.flags.favorite
                    &&& q.before_ms is None || item.created_at_ms < q.before_ms->0 || (
                    item.created_at_ms == q.before_ms->0 && q.before_id is Some && item.id.raw
                        < q.before_id->0.raw)
                    &&& searched ==> hits@.contains(item.id)
                };
            &&& 0 <= i < r@.len() ==> meets(*r@[i]) && s.items@.contains(*r@[i])
            &&& 0 <= i && i + 1 < r@.len() ==> crate::storage::repo::is_newer(*r@[i], *r@[i + 1])
            &&& 1 <= q.limit <= 200 ==> r@.len() <= q.limit
            &&& meets(s.items@[k]) ==> pointees(r@).contains(s.items@[k]) || (r@.len() >= 1
                && 0 <= i < r@.len() ==> crate::storage::repo::is_newer(*r@[i], s.items@[k]))
        }),
{
    let page = pointees(r@);
    if 0 <= i < r@.len() {
        assert(page[i] == *r@[i]);
        let j = if i + 1 < r@.len() {
            i + 1
        } else {
            i
        };
        assert(page[j] == *r@[j]);
        history_page_shows_what_was_asked_for(s.items@, q, hits@, page, i, j);
    }
    if page.len() > 0 {
        history_page_shows_what_was_asked_for(s.items@, q, hits@, page, 0, 0);
    }
    let searched = q.query is Some && exists|c: int|
        0 <= c < q.query->0@.len() && !crate::text::is_white_space(#[trigger] q.query->0@[c]);
    if (q.kind is None || q.kind == Some(s.items@[k].kind)) && (q.favorite_only
        ==> s.items@[k].flags.favorite) && (q.before_ms is None || s.items@[k].created_at_ms
        < q.before_ms->0 || (s.items@[k].created_at_ms == q.before_ms->0 && q.before_id is Some
        && s.items@[k].id.raw < q.before_id->0.raw)) && (searched ==> hits@.contains(
        s.items@[k].id,
    )) {
        history_page_leaves_nothing_out(s.items@, q, hits@, page, k);
    }
}

/// An item is announced again just if no event about it waits for the hub, and then by one
/// event more.
pub proof fn items_are_announced_again(
    s: &mut Store,
    item: ContentItem,
    event_id: u128,
    now_ms: i64,
    r: Result<(), StorageError>,
)
    requires
        old(s).wf(),
        call_ensures(Store::ensure_committed, (s, &item, event_id, now_ms), r),
        forall|k: int|
            0 <= k < old(s).outbox.rows@.len() ==> (#[trigger] old(s).outbox.rows@[k]).event_id
                != event_id,
        old(s).outbox.last_id < i64::MAX,
    ensures
        r is Ok,
        ({
            let ds = old(s).outbox.delivered();
            let waits = exists|k: int|
                {
                    &&& 0 <= k < old(s).outbox.rows@.len()
                    &&& (#[trigger] old(s).outbox.rows@[k]).event_type == EventType::Committed
                    &&& old(s).outbox.rows@[k].aggregate_id == item.id
                    &&& !(ds.dom().contains((old(s).outbox.rows@[k].event_id, Consumer::Hub)) && ds[(
                        old(s).outbox.rows@[k].event_id,
                        Consumer::Hub,
                    )].acked_at_ms is Some)
                };
            &&& waits ==> *final(s) == *old(s)
            &&& !waits ==> {
                &&& final(s).outbox.rows@.len() == old(s).outbox.rows@.len() + 1
                &&& final(s).outbox.rows@.drop_last() == old(s).outbox.rows@
                &&& final(s).outbox.rows@.last().event_type == EventType::Committed
                &&& final(s).outbox.rows@.last().aggregate_id == item.id
                &&& final(s).outbox.rows@.last().available_at_ms == now_ms
            }
        }),
        final(s).items == old(s).items,
{
    let rows = old(s).outbox.rows@;
    let ds = old(s).outbox.delivered();
    lemma_unacked(rows, ds, EventType::Committed, item.id, Consumer::Hub);
    present_items_are_removed(*old(s), item.id, event_id);
    if unacked(rows, ds, EventType::Committed, item.id, Consumer::Hub) is Some {
        let k = choose|k: int|
            0 <= k < rows.len() && awaits(
                #[trigger] rows[k],
                ds,
                EventType::Committed,
                item.id,
                Consumer::Hub,
            );
        assert(rows[k].event_type == EventType::Committed);
    } else {
        assert forall|k: int| 0 <= k < rows.len() implies !awaits(
            #[trigger] rows[k],
            ds,
            EventType::Committed,
            item.id,
            Consumer::Hub,
        ) by {}
        assert(final(s).outbox.rows@.drop_last() =~= rows);
    }
}

/// The events of the store are acknowledged, `r`, for the hub unless another consumer is
/// named, each once.
pub proof fn events_are_acknowledged(
    s: &mut Store,
    i: int,
    now_ms: i64,
    r: bool,
)
    requires
        old(s).wf(),
        0 <= i < old(s).outbox.rows@.len(),
        call_ensures(Store::ack_outbox, (s, old(s).outbox.rows@[i].id, now_ms), r),
    ensures
        ({
            let mine = (old(s).outbox.rows@[i].event_id, Consumer::Hub);
            let was = old(s).outbox.delivered();
            let is = final(s).outbox.delivered();
            &&& r <==> !(was.dom().contains(mine) && was[mine].acked_at_ms is Some)
            &&& is.dom().contains(mine) && is[mine].acked_at_ms is Some
        }),
        final(s).outbox.rows@ == old(s).outbox.rows@,
        final(s).items == old(s).items && final(s).manifests == old(s).manifests
            && final(s).blob_refs == old(s).blob_refs && final(s).cursors == old(s).cursors,
{
    crate::storage::outbox::acknowledgement_is_noted(
        old(s).outbox.rows@,
        old(s).outbox.delivered(),
        i,
        Consumer::Hub,
        now_ms,
    );
}

/// Events of the store are put off by the delay, for the consumer that is named.
pub proof fn events_of_the_store_are_put_off(
    s: &mut Store,
    i: int,
    consumer: Consumer,
    delay_ms: i64,
    now_ms: i64,
    r: (),
)
    requires
        old(s).wf(),
        0 <= i < old(s).outbox.rows@.len(),
        call_ensures(
            Store::retry_outbox_consumer,
            (s, old(s).outbox.rows@[i].id, consumer, delay_ms, now_ms),
            r,
        ),
        0 <= delay_ms,
        now_ms + delay_ms <= i64::MAX,
    ensures
        ({
            let mine = (old(s).outbox.rows@[i].event_id, consumer);
            let was = old(s).outbox.delivered();
            let is = final(s).outbox.delivered();
            &&& !(was.dom().contains(mine) && was[mine].acked_at_ms is Some) ==> is.dom().contains(
                mine,
            ) && is[mine].available_at_ms == now_ms + delay_ms && is[mine].acked_at_ms is None
            &&& was.dom().contains(mine) && was[mine].acked_at_ms is Some ==> is == was
        }),
        final(s).outbox.rows@ == old(s).outbox.rows@,
        final(s).items == old(s).items,
{
    crate::storage::outbox::putting_off_is_noted(
        old(s).outbox.rows@,
        old(s).outbox.delivered(),
        i,
        consumer,
        after_delay(now_ms, delay_ms),
    );
    delays_are_added(now_ms, delay_ms);
}

/// A manifest is found just if there is one with its identity, and is then the first such.
pub proof fn manifests_are_found(s: Store, id: ManifestId, r: Result<String, StorageError>, i: int)
    requires
        call_ensures(Store::load_manifest, (&s, id), r),
        0 <= i < s.manifests@.len(),
        s.manifests@[i].id == id,
        forall|j: int| 0 <= j < i ==> (#[trigger] s.manifests@[j]).id != id,
    ensures
        r is Ok,
        r->Ok_0@ == s.manifests@[i].manifest_json@,
{
    assert(has_manifest(s.manifests@, id));
    let k = choose|k: int|
        {
            &&& 0 <= k < s.manifests@.len()
            &&& (#[trigger] s.manifests@[k]).id == id
            &&& s.manifests@[k].manifest_json@ == r->Ok_0@
            &&& !has_manifest(s.manifests@.take(k), id)
        };
    if i < k {
        assert(s.manifests@.take(k)[i].id == id);
    }
}


/// What waits to be sent, `r`, are items of the store that have not reached the hub and may
/// leave this device, the oldest first, and each such item unless the page is full.
pub proof fn waiting_items_are_listed(s: Store, limit: u32, r: Vec<&ContentItem>, i: int, k: int)
    requires
        s.wf(),
        call_ensures(Store::pending_sync, (&s, limit), r),
        0 <= k < s.items@.len(),
    ensures
        ({
            let waits = |item: ContentItem|
                {
                    &&& item.status == ContentStatus::Local || item.status
                        == ContentStatus::Uploading || item.status == ContentStatus::Failed
                    &&& item.flags.remote_allowed && !item.flags.sensitive && !item.flags.local_only
                        && !item.flags.transient
                };
            &&& 0 <= i < r@.len() ==> s.items@.contains(*r@[i]) && waits(*r@[i])
            &&& waits(s.items@[k]) ==> pointees(r@).contains(s.items@[k]) || r@.len() == page_limit(
                limit,
            )
        }),
{
    let page = pointees(r@);
    if 0 <= i < r@.len() {
        assert(page[i] == *r@[i]);
    }
    crate::storage::repo::pending_page_holds_what_waits(s.items@, limit, page, i, k);
}

/// The events of the store that are due for a consumer are handed to it from the first on,
/// as many as it asked for; see [`crate::storage::outbox::consumers_get_what_is_due`].
pub proof fn events_are_handed_to_consumers(
    s: Store,
    event_type: EventType,
    consumer: Consumer,
    limit: u32,
    now_ms: i64,
    r: Vec<OutboxEvent>,
    k: int,
)
    requires
        s.wf(),
        call_ensures(Store::pending_outbox_for, (&s, event_type, consumer, limit, now_ms), r),
        0 <= k < s.outbox.rows@.len(),
    ensures
        1 <= limit <= 200 ==> r@.len() <= limit,
        ({
            let row = s.outbox.rows@[k];
            let ds = s.outbox.delivered();
            let key = (row.event_id, consumer);
            let due = row.event_type == event_type && if ds.dom().contains(key) {
                ds[key].acked_at_ms is None && ds[key].available_at_ms <= now_ms
            } else {
                row.available_at_ms <= now_ms
            };
            let handed = exists|i: int| 0 <= i < r@.len() && (#[trigger] r@[i]).id == row.id;
            &&& handed ==> due
            &&& due && 1 <= limit <= 200 ==> handed || r@.len() == limit
        }),
{
    let rows = s.outbox.rows@;
    let ds = s.outbox.delivered();
    let all = due_rows(rows, ds, event_type, consumer, now_ms);
    lemma_due_rows_are_rows(rows, ds, event_type, consumer, now_ms, k);
    if exists|i: int| 0 <= i < r@.len() && (#[trigger] r@[i]).id == rows[k].id {
        let i = choose|i: int| 0 <= i < r@.len() && (#[trigger] r@[i]).id == rows[k].id;
        assert(r@[i] == all[i]);
    }
    if exists|i: int| 0 <= i < all.len() && (#[trigger] all[i]).id == rows[k].id {
        let i = choose|i: int| 0 <= i < all.len() && (#[trigger] all[i]).id == rows[k].id;
        if i < r@.len() {
            assert(r@[i] == all[i]);
        }
    }
}

proof fn lemma_due_rows_are_rows(
    rows: Seq<OutboxEvent>,
    ds: Map<(u128, Consumer), crate::storage::outbox::Delivery>,
    event_type: EventType,
    consumer: Consumer,
    now_ms: i64,
    k: int,
)
    requires
        crate::storage::outbox::ordered_rows(rows),
        0 <= k < rows.len(),
    ensures
        ({
            let row = rows[k];
            let key = (row.event_id, consumer);
            let due = row.event_type == event_type && if ds.dom().contains(key) {
                ds[key].acked_at_ms is None && ds[key].available_at_ms <= now_ms
            } else {
                row.available_at_ms <= now_ms
            };
            let all = due_rows(rows, ds, event_type, consumer, now_ms);
            due <==> exists|i: int| 0 <= i < all.len() && (#[trigger] all[i]).id == row.id
        }),
    decreases rows.len(),
{
    let all = due_rows(rows, ds, event_type, consumer, now_ms);
    let shorter = rows.drop_last();
    let before = due_rows(shorter, ds, event_type, consumer, now_ms);
    let last = rows.len() - 1;
    assert(crate::storage::outbox::ordered_rows(shorter)) by {
        assert forall|a: int, b: int| 0 <= a < b < shorter.len() implies (#[trigger] shorter[a]).id
            < (#[trigger] shorter[b]).id && shorter[a].event_id != shorter[b].event_id by {
            assert(shorter[a] == rows[a] && shorter[b] == rows[b]);
        }
    }
    if k < last {
        assert(shorter[k] == rows[k]);
        assert(rows[k].id < rows[last].id);
        lemma_due_rows_are_rows(shorter, ds, event_type, consumer, now_ms, k);
        if exists|i: int| 0 <= i < before.len() && (#[trigger] before[i]).id == rows[k].id {
            let i = choose|i: int| 0 <= i < before.len() && (#[trigger] before[i]).id == rows[k].id;
            assert(all[i] == before[i]);
        }
        if exists|i: int| 0 <= i < all.len() && (#[trigger] all[i]).id == rows[k].id {
            let i = choose|i: int| 0 <= i < all.len() && (#[trigger] all[i]).id == rows[k].id;
            assert(i < before.len());
            assert(before[i] == all[i]);
        }
    } else {
        lemma_due_ids(shorter, ds, event_type, consumer, now_ms, rows[last].id);
        if all.len() > before.len() {
            assert(all[before.len() as int].id == rows[last].id);
        }
        if exists|i: int| 0 <= i < all.len() && (#[trigger] all[i]).id == rows[k].id {
            let i = choose|i: int| 0 <= i < all.len() && (#[trigger] all[i]).id == rows[k].id;
            if i < before.len() {
                assert(before[i] == all[i]);
            }
        }
    }
}

proof fn lemma_due_ids(
    rows: Seq<OutboxEvent>,
    ds: Map<(u128, Consumer), crate::storage::outbox::Delivery>,
    event_type: EventType,
    consumer: Consumer,
    now_ms: i64,
    id: i64,
)
    requires
        forall|j: int| 0 <= j < rows.len() ==> (#[trigger] rows[j]).id < id,
    ensures
        forall|i: int|
            0 <= i < due_rows(rows, ds, event_type, consumer, now_ms).len() ==> (
            #[trigger] due_rows(rows, ds, event_type, consumer, now_ms)[i]).id < id,
    decreases rows.len(),
{
    if rows.len() > 0 {
        let shorter = rows.drop_last();
        assert forall|j: int| 0 <= j < shorter.len() implies (#[trigger] shorter[j]).id < id by {
            assert(shorter[j] == rows[j]);
        }
        lemma_due_ids(shorter, ds, event_type, consumer, now_ms, id);
        assert(rows[rows.len() - 1].id < id);
    }
}


} // verus!
