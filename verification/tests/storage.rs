use asterism::content::{
    BlobId, ContentFlags, ContentId, ContentItem, ContentKind, ContentStatus, DeviceId, FilesInfo,
    ImageInfo, ItemMetadata, ManifestId, PayloadRef,
};
use asterism::desktop::transfer::{apply_lan, remember_tombstone};
use asterism::storage::blob::{remove_orphans, BlobFile, BlobStore};
use asterism::storage::cleanup::{evict_item_cache, CacheEntry};
use asterism::storage::error::StorageError;
use asterism::storage::outbox::{Consumer, EventType, Outbox, OutboxPayload};
use asterism::storage::paths::{blob_path, db_path, item_cache_dir};
use asterism::storage::repo::{
    escape_fts, escape_like, insert_item, map_item, HistoryQuery, TextSearch,
};
use asterism::storage::schema::{ensure_fts, schema_version, FtsStep, Tokenizer};
use asterism::storage::store::{gc_threshold, NewManifest, Store, WriteOp, WriteReply};
use asterism::sync::protocol::ItemOffer;

const NOW: i64 = 1_800_000_000_000;

fn flags() -> ContentFlags {
    let mut flags = ContentFlags::empty();
    flags.remote_allowed = true;
    flags
}

fn sample(raw: u128, text: &str) -> ContentItem {
    let bytes = text.as_bytes().to_vec();
    ContentItem {
        id: ContentId { raw },
        origin_device_id: DeviceId { raw: 1 },
        kind: ContentKind::Text,
        created_at_ms: 1_700_000_000_000,
        logical_size: bytes.len() as u64,
        payload_size: bytes.len() as u64,
        dedup_tag: *blake3::hash(text.as_bytes()).as_bytes(),
        flags: flags(),
        status: ContentStatus::Local,
        metadata: ItemMetadata { text_preview: Some(text.to_string()), ..ItemMetadata::default() },
        payload_ref: PayloadRef::Inline(bytes),
    }
}

fn query(limit: u32) -> HistoryQuery {
    HistoryQuery::recent(limit)
}

/// The items whose preview SQLite finds by a text search.
fn hits(store: &Store, q: &HistoryQuery) -> Vec<ContentId> {
    let conn = rusqlite::Connection::open_in_memory().unwrap();
    conn.execute_batch(
        "CREATE TABLE items (number INTEGER PRIMARY KEY, preview_text TEXT, file_names TEXT);
         CREATE VIRTUAL TABLE search USING fts5(preview_text, file_names, content='items',
             content_rowid='number', tokenize='trigram');
         CREATE TRIGGER fill AFTER INSERT ON items BEGIN
             INSERT INTO search(rowid, preview_text, file_names)
             VALUES (new.number, new.preview_text, new.file_names);
         END;",
    )
    .unwrap();
    for (number, item) in store.items.iter().enumerate() {
        let files = item.metadata.files.as_ref().map(|f| f.root_name.clone());
        conn.execute(
            "INSERT INTO items VALUES (?1, ?2, ?3)",
            (number as i64, &item.metadata.text_preview, files),
        )
        .unwrap();
    }
    let (sql, pattern) = match q.text_search() {
        TextSearch::All => return Vec::new(),
        TextSearch::Fts(p) => ("SELECT rowid FROM search WHERE search MATCH ?1", p),
        TextSearch::Like(p) => (
            "SELECT number FROM items WHERE preview_text LIKE ?1 ESCAPE '\\' OR file_names LIKE ?1 ESCAPE '\\'",
            p,
        ),
    };
    let mut stmt = conn.prepare(sql).unwrap();
    let rows = stmt.query_map([pattern], |row| row.get::<usize, i64>(0)).unwrap();
    rows.map(|n| store.items[n.unwrap() as usize].id).collect()
}

#[test]
fn insert_search_favorite_delete() {
    let mut store = Store::new();
    let id = store.insert(sample(10, "你好世界 hello asterism"), None, 1, NOW).unwrap();

    assert_eq!(store.get(id).unwrap().kind, ContentKind::Text);

    let short = HistoryQuery { query: Some("世界".into()), ..query(10) };
    assert!(matches!(short.text_search(), TextSearch::Like(_)));
    let found = hits(&store, &short);
    assert_eq!(store.history(&short, &found).len(), 1);
    let long = HistoryQuery { query: Some("asterism".into()), ..query(10) };
    assert!(matches!(long.text_search(), TextSearch::Fts(_)));
    let found = hits(&store, &long);
    assert_eq!(store.history(&long, &found).len(), 1);
    let absent = HistoryQuery { query: Some("nothing here".into()), ..query(10) };
    let found = hits(&store, &absent);
    assert_eq!(store.history(&absent, &found).len(), 0);

    store.set_favorite(id, true).unwrap();
    let favorites = HistoryQuery { favorite_only: true, ..query(10) };
    let fav = store.history(&favorites, &[]);
    assert_eq!(fav.len(), 1);
    assert!(fav[0].flags.favorite);

    store.delete(id, 2, NOW).unwrap();
    assert!(matches!(store.get(id), Err(StorageError::NotFound)));
}

#[test]
fn history_cursor_does_not_skip_equal_timestamps() {
    let mut store = Store::new();
    for (n, text) in ["one", "two", "three"].iter().enumerate() {
        store.insert(sample(20 + n as u128, text), None, n as u128, NOW).unwrap();
    }
    let first = store.history(&query(2), &[]);
    assert_eq!(first.len(), 2);
    let cursor = first.last().unwrap();
    let next = HistoryQuery {
        before_ms: Some(cursor.created_at_ms),
        before_id: Some(cursor.id),
        ..query(2)
    };
    let second = store.history(&next, &[]);
    assert_eq!(second.len(), 1);
    assert!(!first.iter().any(|item| item.id == second[0].id));
}

#[test]
fn history_is_newest_first_and_bounded() {
    let mut store = Store::new();
    for n in 0..60u128 {
        let mut item = sample(100 + n, "x");
        item.created_at_ms = n as i64;
        store.insert(item, None, n, NOW).unwrap();
    }
    let all = store.history(&query(0), &[]);
    assert_eq!(all.len(), 50);
    assert_eq!(all[0].created_at_ms, 59);
    assert_eq!(all[49].created_at_ms, 10);
    let older = HistoryQuery { before_ms: Some(3), ..query(1000) };
    assert_eq!(store.history(&older, &[]).len(), 3);
    let images = HistoryQuery { kind: Some(ContentKind::Image), ..query(10) };
    assert_eq!(store.history(&images, &[]).len(), 0);
}

#[test]
fn rejects_sensitive_history() {
    let mut store = Store::new();
    let mut item = sample(30, "secret");
    item.flags = ContentFlags::empty();
    item.flags.sensitive = true;
    assert!(matches!(store.insert(item, None, 1, NOW), Err(StorageError::PolicyRejected(_))));
    let mut item = sample(31, "passing");
    item.flags.transient = true;
    assert!(store.insert(item, None, 1, NOW).is_err());
    assert!(store.items.is_empty());
    assert!(store.outbox.rows.is_empty());
}

#[test]
fn an_item_is_not_inserted_twice() {
    let mut store = Store::new();
    store.insert(sample(30, "a"), None, 1, NOW).unwrap();
    assert!(matches!(
        store.insert(sample(30, "b"), None, 2, NOW),
        Err(StorageError::Sqlite(m)) if m == "UNIQUE constraint failed: content_items.id"
    ));
    assert_eq!(store.outbox.rows.len(), 1);
}

#[test]
fn pending_sync_survives_status_transitions() {
    let mut store = Store::new();
    let id = store.insert(sample(40, "retry me"), None, 1, NOW).unwrap();

    assert_eq!(store.pending_sync(10)[0].id, id);
    store.set_status(id, ContentStatus::Uploading).unwrap();
    assert_eq!(store.pending_sync(10)[0].status, ContentStatus::Uploading);
    store.set_status(id, ContentStatus::Failed).unwrap();
    assert_eq!(store.pending_sync(10)[0].status, ContentStatus::Failed);
    store.set_status(id, ContentStatus::SyncedToHub).unwrap();
    assert!(store.pending_sync(10).is_empty());
    assert!(matches!(
        store.set_status(ContentId { raw: 41 }, ContentStatus::Local),
        Err(StorageError::NotFound)
    ));
    assert!(matches!(
        store.set_favorite(ContentId { raw: 41 }, true),
        Err(StorageError::NotFound)
    ));
}

#[test]
fn blob_gc_removes_released_file_through_writer_queue() {
    let mut store = Store::new();
    let blob = BlobStore::blob_name(b"image bytes");
    assert!(matches!(
        store.apply(WriteOp::PutBlob { blob: blob.clone() }, NOW),
        WriteReply::Done(Ok(()))
    ));
    let mut item = sample(50, "image");
    item.kind = ContentKind::Image;
    item.payload_ref = PayloadRef::Blob(BlobId { hex: blob.clone() });
    let id = match store.apply(WriteOp::Insert { item, manifest: None, event_id: 1 }, NOW) {
        WriteReply::Inserted(Ok(id)) => id,
        _ => panic!("expected an item"),
    };

    match store.apply(WriteOp::Delete { id, event_id: 2 }, NOW) {
        WriteReply::Deleted(Ok(Some(released))) => assert_eq!(released.hex, blob),
        _ => panic!("expected a released blob"),
    }
    assert_eq!(store.blob_refs.len(), 1);
    let threshold = gc_threshold(NOW, 0);
    match store.apply(WriteOp::GcBlobs { released_before_ms: threshold }, NOW) {
        WriteReply::Collected(gone) => assert_eq!(gone, vec![blob]),
        _ => panic!("expected blobs"),
    }
    assert!(store.blob_refs.is_empty());
}

#[test]
fn put_blob_without_insert_observes_gc_grace() {
    let mut store = Store::new();
    let blob = BlobStore::blob_name(b"fresh reserved blob");
    store.put_blob(&blob, NOW);
    assert_eq!(store.gc_blobs(gc_threshold(NOW, 24 * 60 * 60 * 1000)).len(), 0);
    let files = [BlobFile { name: blob.clone(), age_ms: 0 }];
    assert_eq!(remove_orphans(&files, &[blob.clone()], 60 * 60 * 1000).len(), 0);
    assert_eq!(store.blob_refs[0].blob, blob);
}

#[test]
fn a_blob_in_use_is_never_collected() {
    let mut store = Store::new();
    store.put_blob("aa", 5);
    let mut item = sample(60, "picture");
    item.payload_ref = PayloadRef::Blob(BlobId { hex: "aa".into() });
    store.insert(item, None, 1, 6).unwrap();
    assert!(store.gc_blobs(i64::MAX).is_empty());
    let _ = store.delete(ContentId { raw: 60 }, 2, 7);
    assert!(store.gc_blobs(6).is_empty());
    assert_eq!(store.gc_blobs(7), vec!["aa".to_string()]);
}

#[test]
fn orphans_are_removed_once_old() {
    let files = [
        BlobFile { name: "kept".into(), age_ms: 9000 },
        BlobFile { name: "old".into(), age_ms: 9000 },
        BlobFile { name: "young".into(), age_ms: 10 },
    ];
    assert_eq!(remove_orphans(&files, &["kept".to_string()], 1000), vec![1]);
}

#[test]
fn repeated_same_text_inserts_are_distinct_history_items() {
    let mut store = Store::new();
    store.insert(sample(70, "same body"), None, 1, NOW).unwrap();
    store.insert(sample(71, "same body"), None, 2, NOW).unwrap();
    let listed = store.history(&query(10), &[]);
    assert_eq!(listed.len(), 2);
    assert!(listed.iter().any(|item| item.id == ContentId { raw: 70 }));
    assert!(listed.iter().any(|item| item.id == ContentId { raw: 71 }));
}

#[test]
fn insert_and_delete_enqueue_outbox_in_same_writer_tx() {
    let mut store = Store::new();
    let id = ContentId { raw: 80 };
    store.insert(sample(80, "outbox fact"), None, 1, NOW).unwrap();

    let pending = store.pending_outbox(10, NOW);
    assert_eq!(pending.len(), 1);
    assert_eq!(pending[0].event_type, EventType::Committed);
    assert_eq!(pending[0].aggregate_id, id);
    assert!(!pending[0].payload.from_remote);

    store.delete(id, 2, NOW).unwrap();
    assert!(matches!(store.get(id), Err(StorageError::NotFound)));
    let pending = store.pending_outbox(10, NOW);
    assert_eq!(pending.len(), 2);
    assert_eq!(pending[1].event_type, EventType::Deleted);
    assert!(store.ack_outbox(pending[0].id, NOW));
    assert!(!store.ack_outbox(pending[0].id, NOW));
}

#[test]
fn remote_insert_marks_outbox_from_remote() {
    let mut store = Store::new();
    let mut item = sample(90, "from peer");
    item.flags.from_remote = true;
    store.insert(item, None, 1, NOW).unwrap();
    let pending = store.pending_outbox(1, NOW);
    assert!(pending[0].payload.from_remote);
}

#[test]
fn deleted_events_do_not_block_committed_consumer() {
    let mut store = Store::new();
    for i in 0..60u128 {
        store.insert(sample(100 + i, &format!("del-{i}")), None, 2 * i, NOW).unwrap();
        store.delete(ContentId { raw: 100 + i }, 2 * i + 1, NOW).unwrap();
    }
    let live = ContentId { raw: 1000 };
    store.insert(sample(1000, "live"), None, 1000, NOW).unwrap();
    let lan = store.pending_outbox_for(EventType::Committed, Consumer::Lan, 200, NOW);
    assert!(lan.iter().all(|event| event.event_type == EventType::Committed));
    assert!(lan.iter().any(|event| event.aggregate_id == live));
    let deleted = store.pending_outbox_for(EventType::Deleted, Consumer::HubDelete, 50, NOW);
    assert_eq!(deleted.len(), 50);
    assert!(deleted.iter().all(|event| event.event_type == EventType::Deleted));
}

#[test]
fn ensure_committed_reenqueues_after_hub_ack() {
    let mut store = Store::new();
    store.insert(sample(110, "local waiting for hub"), None, 1, NOW).unwrap();
    let first = store.pending_outbox_for(EventType::Committed, Consumer::Hub, 10, NOW);
    assert_eq!(first.len(), 1);
    store.ack_outbox_consumer(first[0].id, Consumer::Hub, NOW);
    assert!(store.pending_outbox_for(EventType::Committed, Consumer::Hub, 10, NOW).is_empty());
    store.ensure_committed(&sample(110, "local waiting for hub"), 2, NOW).unwrap();
    let again = store.pending_outbox_for(EventType::Committed, Consumer::Hub, 10, NOW);
    assert_eq!(again.len(), 1);
    assert_ne!(again[0].id, first[0].id);
}

#[test]
fn announcing_again_adds_one_event_until_it_is_acked() {
    let mut store = Store::new();
    store.insert(sample(111, "told"), None, 1, NOW).unwrap();
    let item = || sample(111, "told");
    assert!(matches!(
        store.apply(WriteOp::EnsureCommitted { item: item(), event_id: 2 }, NOW),
        WriteReply::Done(Ok(()))
    ));
    assert_eq!(store.outbox.rows.len(), 1);
    let first = store.outbox.rows[0].id;
    assert!(matches!(
        store.apply(WriteOp::AckOutbox { number: first, consumer: Consumer::Hub }, NOW),
        WriteReply::Acked(true)
    ));
    for event_id in [3, 4] {
        store.apply(WriteOp::EnsureCommitted { item: item(), event_id }, NOW);
    }
    let due = store.pending_outbox_for(EventType::Committed, Consumer::Hub, 10, NOW);
    assert_eq!(due.len(), 1);
    assert_ne!(due[0].id, first);
    assert_eq!(due[0].event_id, 3);
    assert_eq!(store.outbox.last_id, 2);
    assert_eq!(store.outbox.deliveries.len(), 1);
}

#[test]
fn named_caches_stay() {
    let mut store = Store::new();
    store.insert(sample(113, "plain"), None, 1, NOW).unwrap();
    let mut cached = sample(114, "cached");
    cached.metadata.local_cache_rel = Some("c1".into());
    store.insert(cached, None, 2, NOW).unwrap();
    assert_eq!(store.cache_pins(), vec!["c1".to_string()]);
}

#[test]
fn deliveries_without_their_event_are_inconsistent() {
    let mut store = Store::new();
    store.insert(sample(112, "told"), None, 1, NOW).unwrap();
    store.ack_outbox(1, NOW);
    assert!(store.is_consistent());
    store.outbox.deliveries[0].event_id = 9;
    assert!(!store.is_consistent());
}

#[test]
fn lan_ack_does_not_complete_hub_consumer() {
    let mut store = Store::new();
    store.insert(sample(120, "dual consumer"), None, 1, NOW).unwrap();
    let lan = store.pending_outbox_for(EventType::Committed, Consumer::Lan, 10, NOW);
    assert_eq!(lan.len(), 1);
    assert!(store.ack_outbox_consumer(lan[0].id, Consumer::Lan, NOW));
    assert!(store.pending_outbox_for(EventType::Committed, Consumer::Lan, 10, NOW).is_empty());
    let hub = store.pending_outbox_for(EventType::Committed, Consumer::Hub, 10, NOW);
    assert_eq!(hub.len(), 1);
    assert_eq!(hub[0].id, lan[0].id);
}

/// The store that is made of the rows of another, as after a restart.
fn reopened(store: Store) -> Store {
    let again = Store {
        items: store.items.iter().map(|item| map_item(insert_item(item)).unwrap()).collect(),
        manifests: store.manifests,
        blob_refs: store.blob_refs,
        cursors: store.cursors,
        outbox: Outbox {
            rows: store.outbox.rows,
            deliveries: store.outbox.deliveries,
            last_id: store.outbox.last_id,
        },
    };
    assert!(again.is_consistent());
    again
}

#[test]
fn lan_ack_survives_reopen_without_acking_hub() {
    let mut store = Store::new();
    store.insert(sample(130, "crash after lan ack"), None, 1, NOW).unwrap();
    let lan = store.pending_outbox_for(EventType::Committed, Consumer::Lan, 10, NOW);
    store.ack_outbox_consumer(lan[0].id, Consumer::Lan, NOW);
    let store = reopened(store);
    assert!(store.pending_outbox_for(EventType::Committed, Consumer::Lan, 10, NOW).is_empty());
    let hub = store.pending_outbox_for(EventType::Committed, Consumer::Hub, 10, NOW);
    assert_eq!(hub.len(), 1);
    assert_eq!(hub[0].id, lan[0].id);
}

#[test]
fn unacked_outbox_survives_reopen() {
    let mut store = Store::new();
    store.insert(sample(140, "crash after commit"), None, 1, NOW).unwrap();
    let store = reopened(store);
    let pending = store.pending_outbox(10, NOW);
    assert_eq!(pending.len(), 1);
    assert_eq!(pending[0].aggregate_id, ContentId { raw: 140 });
    assert_eq!(pending[0].event_type, EventType::Committed);
}

#[test]
fn a_store_with_an_item_twice_is_not_consistent() {
    let mut store = Store::new();
    store.insert(sample(150, "a"), None, 1, NOW).unwrap();
    assert!(store.is_consistent());
    store.items.push(sample(150, "b"));
    assert!(!store.is_consistent());
}

#[test]
fn retried_delivery_waits_for_that_consumer_only() {
    let mut store = Store::new();
    store.insert(sample(160, "later"), None, 1, NOW).unwrap();
    let hub = store.pending_outbox_for(EventType::Committed, Consumer::Hub, 10, NOW);
    store.retry_outbox_consumer(hub[0].id, Consumer::Hub, 8000, NOW);
    assert!(store.pending_outbox_for(EventType::Committed, Consumer::Hub, 10, NOW + 7999).is_empty());
    assert_eq!(
        store.pending_outbox_for(EventType::Committed, Consumer::Hub, 10, NOW + 8000).len(),
        1
    );
    assert_eq!(store.pending_outbox_for(EventType::Committed, Consumer::Lan, 10, NOW).len(), 1);
}

#[test]
fn a_retried_event_waits() {
    let mut store = Store::new();
    store.insert(sample(161, "later"), None, 1, NOW).unwrap();
    let row = store.pending_outbox(10, NOW)[0].id;
    store.retry_outbox(row, 500, NOW);
    let hub = |store: &Store, now: i64| {
        store.pending_outbox_for(EventType::Committed, Consumer::Hub, 10, now).len()
    };
    assert_eq!(hub(&store, NOW + 499), 0);
    assert_eq!(hub(&store, NOW + 500), 1);
}

#[test]
fn names_on_the_wire_are_fixed() {
    assert_eq!(EventType::Committed.as_str(), "content.committed.v1");
    assert_eq!(EventType::Deleted.as_str(), "content.deleted.v1");
    assert_eq!(Consumer::Lan.as_str(), "asterism.sync.lan");
    assert_eq!(Consumer::Hub.as_str(), "asterism.sync.hub");
    assert_eq!(Consumer::HubDelete.as_str(), "asterism.sync.hub_delete");
}

#[test]
fn latest_unacked_is_forgotten_once_acked() {
    let mut outbox = Outbox::new();
    let id = ContentId { raw: 5 };
    let payload = OutboxPayload {
        aggregate_id: id,
        origin_device_id: None,
        kind: None,
        from_remote: false,
    };
    outbox.enqueue_deleted(id, 9, NOW);
    assert_eq!(outbox.rows[0].payload, payload);
    let row = outbox.latest_unacked(EventType::Deleted, id, Consumer::HubDelete).unwrap();
    assert!(outbox.contains_event_id(9));
    assert!(outbox.ack_consumer(row, Consumer::HubDelete, NOW));
    assert!(outbox.latest_unacked(EventType::Deleted, id, Consumer::HubDelete).is_none());
}

#[test]
fn cursors_are_kept_by_scope() {
    let mut store = Store::new();
    assert_eq!(store.hub_cursor(), None);
    store.set_hub_cursor("5:aa", NOW);
    store.kv_set("other", "x", NOW);
    store.kv_set("other", "y", NOW);
    assert_eq!(store.hub_cursor().as_deref(), Some("5:aa"));
    assert_eq!(store.kv_get("other").as_deref(), Some("y"));
    assert_eq!(store.kv_get("none"), None);
}

#[test]
fn manifest_is_found_by_its_identity() {
    let mut store = Store::new();
    let mut item = sample(170, "files");
    item.kind = ContentKind::Files;
    item.payload_ref = PayloadRef::FileManifest(ManifestId { raw: 3 });
    let manifest = NewManifest { id: ManifestId { raw: 3 }, manifest_json: "{}".to_string() };
    store.insert(item, Some(manifest), 1, NOW).unwrap();
    assert_eq!(store.load_manifest(ManifestId { raw: 3 }).unwrap(), "{}");
    assert!(matches!(store.load_manifest(ManifestId { raw: 4 }), Err(StorageError::NotFound)));
}

#[test]
fn persist_new_treats_existing_id_as_not_new() {
    let mut store = Store::new();
    let id = ContentId { raw: 180 };
    let offer = ItemOffer {
        item_id: id,
        kind: "TEXT".to_string(),
        logical_size: 1,
        payload_size: 1,
        dedup_tag: vec![2; 32],
        flags: 0,
    };
    let from = DeviceId { raw: 2 };
    let spec = apply_lan(&offer, from, Some(ContentKind::Text), store.contains(id)).unwrap();
    assert_eq!(spec.tag, [2; 32]);
    store.insert(sample(180, "x"), None, 1, NOW).unwrap();
    assert!(apply_lan(&offer, from, Some(ContentKind::Text), store.contains(id)).is_none());
}

#[test]
fn local_delete_writes_outbox_not_kv_tombstone() {
    let mut store = Store::new();
    let id = store.insert(sample(190, "x"), None, 1, NOW).unwrap();
    store.delete(id, 2, NOW).unwrap();
    assert_eq!(store.kv_get("hub_tombstones"), None);
    let types: Vec<EventType> =
        store.pending_outbox(10, NOW).into_iter().map(|event| event.event_type).collect();
    assert!(types.iter().any(|ty| *ty == EventType::Committed));
    assert!(types.iter().any(|ty| *ty == EventType::Deleted));
}

#[test]
fn tombstones_round_trip_and_dedup() {
    let mut store = Store::new();
    let id = ContentId { raw: 0x0102 };
    let mut ids: Vec<String> = Vec::new();
    remember_tombstone(&mut ids, id);
    remember_tombstone(&mut ids, id);
    store.kv_set("hub_tombstones", &serde_json::to_string(&ids).unwrap(), NOW);
    let raw = store.kv_get("hub_tombstones").unwrap();
    let listed: Vec<String> = serde_json::from_str(&raw).unwrap();
    assert_eq!(listed, vec!["00000000000000000000000000000102".to_string()]);
}

#[test]
fn row_gives_back_the_item() {
    let mut item = sample(200, "row");
    item.logical_size = u64::MAX;
    item.metadata.image = Some(ImageInfo { width: 3, height: 2 });
    item.metadata.files = Some(FilesInfo { root_name: "r".into(), file_count: 4 });
    let back = map_item(insert_item(&item)).unwrap();
    assert_eq!(back.id, item.id);
    assert_eq!(back.logical_size, u64::MAX);
    assert_eq!(back.dedup_tag, item.dedup_tag);
    assert_eq!(back.metadata.image, item.metadata.image);
    assert_eq!(back.metadata.files.unwrap().root_name, "r");
    match back.payload_ref {
        PayloadRef::Inline(b) => assert_eq!(b, b"row".to_vec()),
        _ => panic!("expected bytes"),
    }
    item.payload_ref = PayloadRef::FileManifest(ManifestId { raw: u128::MAX });
    match map_item(insert_item(&item)).unwrap().payload_ref {
        PayloadRef::FileManifest(m) => assert_eq!(m.raw, u128::MAX),
        _ => panic!("expected a manifest"),
    }
}

#[test]
fn faulty_rows_name_their_column() {
    let mut row = insert_item(&sample(210, "row"));
    row.id.pop();
    assert_eq!(map_item(row).unwrap_err().column, 0);
    let mut row = insert_item(&sample(210, "row"));
    row.device.clear();
    assert_eq!(map_item(row).unwrap_err().column, 1);
    let mut row = insert_item(&sample(210, "row"));
    row.kind = Err("unknown kind".into());
    let err = map_item(row).unwrap_err();
    assert_eq!((err.column, err.message.as_str()), (2, "unknown kind"));
    let mut row = insert_item(&sample(210, "row"));
    row.status = Err("unknown status".into());
    assert_eq!(map_item(row).unwrap_err().column, 8);
    let mut row = insert_item(&sample(210, "row"));
    row.metadata = Err("bad json".into());
    assert_eq!(map_item(row).unwrap_err().column, 9);
    let mut row = insert_item(&sample(210, "row"));
    row.payload_kind = "blob".into();
    assert_eq!(map_item(row).unwrap_err().column, 12);
    let mut row = insert_item(&sample(210, "row"));
    row.dedup.pop();
    assert_eq!(map_item(row).unwrap().dedup_tag, [0; 32]);
}

#[test]
fn search_texts_are_escaped() {
    assert_eq!(escape_fts("a\"b*c(d)"), "\"abcd\"");
    assert_eq!(escape_like("50%_\\x"), "50\\%\\_\\\\x");
    let blank = HistoryQuery { query: Some("  ".into()), ..query(10) };
    assert!(matches!(blank.text_search(), TextSearch::All));
    let short = HistoryQuery { query: Some(" a% ".into()), ..query(10) };
    match short.text_search() {
        TextSearch::Like(p) => assert_eq!(p, "%a\\%%"),
        _ => panic!("expected a pattern"),
    }
}

#[test]
fn cache_is_evicted_by_age_then_by_size() {
    let entry = |name: &str, modified_ns: u128, size: u64| CacheEntry {
        name: name.to_string(),
        modified_ns,
        size,
    };
    let entries = vec![
        entry("new", 90, 4),
        entry("old", 10, 4),
        entry("pinned", 5, 100),
        entry("middle", 50, 4),
    ];
    let done = evict_item_cache(entries, 100, 80, 6, &["pinned".to_string()]);
    assert_eq!(done.names, vec!["old".to_string(), "middle".to_string()]);
    assert_eq!(done.freed, 8);
}

#[test]
fn files_have_their_places() {
    assert_eq!(db_path("/d"), "/d/asterism.db");
    assert_eq!(item_cache_dir("/c", "id"), "/c/items/id");
    assert_eq!(blob_path("/d", "ab", "abcd"), "/d/blobs/ab/abcd");
    let blobs = BlobStore::open("/d".to_string());
    assert_eq!(blobs.root(), "/d");
    assert_eq!(blobs.blob_dir(), "/d/blobs");
    let name = BlobStore::blob_name(b"abc");
    assert_eq!(name, "6437b3ac38465133ffb63b75273a8db548c558465d79db03fd359c6cd5bd9d85");
}

#[test]
fn schema_steps_depend_on_the_index() {
    assert_eq!(schema_version(None), 0);
    assert_eq!(schema_version(Some("2")), 2);
    assert_eq!(schema_version(Some("x")), 0);
    assert!(ensure_fts(true, true, 0).is_none());
    assert!(matches!(ensure_fts(false, true, 0), Some(FtsStep::Create(Tokenizer::Trigram))));
    assert_eq!(Tokenizer::Unicode61.as_str(), "unicode61");
    assert_eq!(Tokenizer::Trigram.as_str(), "trigram");
}
