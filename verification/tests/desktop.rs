use asterism::content::{
    BlobId, ContentFlags, ContentId, ContentItem, ContentKind, ContentStatus, DeviceId, ImageInfo,
    ItemMetadata, ManifestId, PayloadRef,
};
use asterism::desktop::actions::{
    copy_action, delete_action, favorite_action, needs_toggle, save_action, send_action,
    SavePlan,
};
use asterism::desktop::capture::{
    clipboard_draft, image_draft, image_grant, screenshot_flags, select_recording_target,
    wait_for_recording_start, CaptureSession,
};
use asterism::desktop::clipboard::{
    cache_pin_of, clipboard_text, files_content, files_manifest, image_content,
    ingest_image_outcome, item_to_clipboard, load_bytes, media_content,
    recovery_clipboard_content, submit_capture, text_content, watcher_step, BytesSource,
    ClipboardEvent, ClipboardPlan, FilesManifest, IngestionOutcome, NormalizedContent, WatcherStep,
};
use asterism::desktop::commands::{
    capture_permission_status, get_identity, hub_devices, list_actions, list_history,
    parse_cursor, publish_pairing_avk, to_dto,
};
use asterism::desktop::engine::{
    accepts_lan_item, after_publish, cache_pins, consume_hub_outbox, consume_lan_outbox,
    exchange_candidates, get_lan_peers, host_read_grant, publish_one_status, push_lan_next,
    push_lan_target, refresh_trust, run_loop_steps, trust_peer, untrust_peer, EngineEvent,
    EngineStep, HubStep, ItemLookup, LanStep, PublishResult,
};
use asterism::desktop::hub::{
    bootstrap_hub_plan, bootstrap_hub_vault, hub_client_from_settings, note_pairing_code,
    persist_trusted_devices, set_hub_url, start_pairing_code, unwrap_pairing_avk_begin,
    unwrap_pairing_avk_end, BootstrapPlan, TrustedDeviceDto,
};
use asterism::desktop::overlay::{
    decode_header, encode_header, frame_len, overlay_answer, run_overlay_select, FrameHeader,
    OverlayRun,
};
use asterism::desktop::preview::{
    annotation_source, can_shrink, encode_preview_data_url, gif_data_url, load_bgra, png_data_url,
    preview_data_url, swap_red_blue, MAX_BLOCK, MAX_DEEP_BLOCK,
};
use asterism::desktop::recording::{
    audio_source, choose_encoder, gif_fps, must_ask_for_microphone, recording_deadline,
    recording_timestamp_us, scroll_frames, scroll_next, selection_of, video_fps,
    wait_until_recording_deadline, AudioSource, OverlayOutcome, RecordStep, Recorder,
    RecordingController, ScrollStep, VideoEncoder, WaitStep,
};
use asterism::desktop::settings::{save_sync_settings, AppSettings, ShortcutSettings, SyncSettings};
use asterism::desktop::shortcuts::{
    menu_step, register_shortcuts, toolbar_url, CaptureGate, MenuStep, ShortcutAction,
    ShortcutStep, WindowState,
};
use asterism::desktop::transfer::{
    apply_lan, apply_remote_source, cursor_after, download_path, flush_tombstones_outcome,
    item_offer, load_payload, missing_payload, persist_item_step, publish_dto, pull_hub_item,
    pull_to_clipboard, ready_notice, remember_failed, remote_spec, retry_remote, tombstones_left,
    uncounted_part_next, upload_next_chunk, PayloadPlan, PayloadSource, PersistStep, PullStep,
    RemoteOutcome, RemoteSource,
};
use asterism::platform::hardening::Platform;
use asterism::plugin::action::ActionError;
use asterism::platform::identity::LocalIdentity;
use asterism::platform::paths::AppPaths;
use asterism::platform::trust::TrustStore;
use asterism::plugin::grant::PermissionBroker;
use asterism::plugin::ids::ActionKey;
use asterism::storage::outbox::{EventType, OutboxEvent, OutboxPayload};
use asterism::sync::hub_client::{DeviceDto, HistoryDto};
use asterism::sync::lan::DiscoveredPeer;
use asterism::sync::protocol::{Envelope, ItemOffer, LanCandidates, MessageBody};

fn item(kind: ContentKind, payload_ref: PayloadRef) -> ContentItem {
    let mut flags = ContentFlags::empty();
    flags.remote_allowed = true;
    ContentItem {
        id: ContentId { raw: 7 },
        origin_device_id: DeviceId { raw: 1 },
        kind,
        created_at_ms: 5,
        logical_size: 3,
        payload_size: 3,
        dedup_tag: [2; 32],
        flags,
        status: ContentStatus::Local,
        metadata: ItemMetadata::default(),
        payload_ref,
    }
}

fn text() -> ContentItem {
    item(ContentKind::Text, PayloadRef::Inline(b"abc".to_vec()))
}

fn paths() -> AppPaths {
    AppPaths { data_dir: "/d".into(), cache_dir: "/c".into(), config_dir: "/f".into() }
}

fn png(width: u32, height: u32, pixel: [u8; 4]) -> Vec<u8> {
    let img = image::RgbaImage::from_pixel(width, height, image::Rgba(pixel));
    let mut out = Vec::new();
    image::DynamicImage::ImageRgba8(img)
        .write_to(&mut std::io::Cursor::new(&mut out), image::ImageFormat::Png)
        .unwrap();
    out
}

fn decode64(s: &str) -> Vec<u8> {
    base64::Engine::decode(&base64::engine::general_purpose::STANDARD, s).unwrap()
}

#[test]
fn preview_downscales_wide_png() {
    let url = encode_preview_data_url(&png(800, 200, [10, 20, 30, 255])).unwrap();
    let b64 = url.strip_prefix("data:image/png;base64,").expect("data url");
    let out = image::load_from_memory(&decode64(b64)).unwrap();
    assert!(out.width() <= 480);
    assert!(out.height() <= 480);
    assert!(out.width() > 0 && out.height() > 0);
}

#[test]
fn preview_keeps_small_pictures_and_gifs() {
    let url = encode_preview_data_url(&png(20, 10, [10, 20, 30, 255])).unwrap();
    let b64 = url.strip_prefix("data:image/png;base64,").expect("data url");
    let out = image::load_from_memory(&decode64(b64)).unwrap();
    assert_eq!((out.width(), out.height()), (20, 10));
    let url = encode_preview_data_url(b"GIF89a...").unwrap();
    let b64 = url.strip_prefix("data:image/gif;base64,").expect("data url");
    assert_eq!(decode64(b64), b"GIF89a...".to_vec());
    assert!(encode_preview_data_url(b"no picture").is_err());
    assert_eq!(png_data_url(b"a"), "data:image/png;base64,YQ==");
    assert_eq!(gif_data_url(&[0xfb, 0xff]), "data:image/gif;base64,+/8=");
}

#[test]
fn preview_of_a_very_long_picture_cannot_be_made() {
    let deep_limit = MAX_DEEP_BLOCK;
    assert!(can_shrink(31_199_000, 1, 480, 480, deep_limit));
    assert!(!can_shrink(31_458_240, 1, 480, 480, deep_limit));
    assert!(!can_shrink(1, 31_458_240, 480, 480, deep_limit));
    assert!(can_shrink(96_000, 96_000, 480, 480, deep_limit));
    assert!(!can_shrink(144_000, 447, 480, 480, deep_limit));
    assert!(can_shrink(144_000, 447, 480, 480, MAX_BLOCK));
    let encode = |img: image::DynamicImage| {
        let mut out = Vec::new();
        img.write_to(&mut std::io::Cursor::new(&mut out), image::ImageFormat::Png).unwrap();
        out
    };
    let deep = encode(image::DynamicImage::ImageLuma16(image::ImageBuffer::from_pixel(
        96_000,
        1,
        image::Luma([0xffff_u16]),
    )));
    let url = preview_data_url(&deep).unwrap().unwrap();
    let b64 = url.strip_prefix("data:image/png;base64,").expect("data url");
    let out = image::load_from_memory(&decode64(b64)).unwrap();
    assert_eq!((out.width(), out.height()), (480, 1));
    assert_eq!(out.to_luma16().get_pixel(3, 0).0, [0xffff]);
    let long = encode(image::DynamicImage::ImageLuma8(image::GrayImage::new(31_300_000, 1)));
    assert!(preview_data_url(&long).unwrap().is_ok());
    let long_and_deep = encode(image::DynamicImage::ImageLuma16(image::ImageBuffer::from_pixel(
        31_300_000,
        1,
        image::Luma([0xffff_u16]),
    )));
    assert!(preview_data_url(&long_and_deep).is_none());
    assert!(preview_data_url(b"GIF89a...").unwrap().is_ok());
    assert!(preview_data_url(b"no picture").unwrap().is_err());
}

#[test]
fn annotation_gets_size_and_bytes() {
    let picture = png(6, 4, [1, 2, 3, 255]);
    let source = annotation_source(&picture).unwrap();
    assert_eq!((source.width, source.height), (6, 4));
    let b64 = source.data_url.strip_prefix("data:image/png;base64,").expect("data url");
    assert_eq!(decode64(b64), picture);
    assert!(annotation_source(b"no picture").is_err());
}

#[test]
fn red_and_blue_are_swapped() {
    assert_eq!(swap_red_blue(&[1, 2, 3, 4, 5, 6, 7, 8]), vec![3, 2, 1, 4, 7, 6, 5, 8]);
    assert_eq!(load_bgra(&png(1, 2, [1, 2, 3, 255])).unwrap(), vec![3, 2, 1, 255, 3, 2, 1, 255]);
    assert!(load_bgra(b"no picture").is_err());
}

#[test]
fn recovery_clipboard_content_is_sensitive_and_never_remote_allowed() {
    let key = "a".repeat(64);
    let tag = *blake3::hash(key.as_bytes()).as_bytes();
    let (content, expected_tag) = recovery_clipboard_content(key, tag);
    let NormalizedContent::Text { text, dedup_tag, flags, source_app } = content else {
        panic!("recovery clipboard content must be text");
    };
    assert_eq!(text, "a".repeat(64));
    assert_eq!(dedup_tag, expected_tag);
    assert_eq!(dedup_tag, tag);
    assert!(flags.sensitive);
    assert!(!flags.remote_allowed);
    assert_eq!(source_app.as_deref(), Some("asterism.settings"));
}

#[test]
fn clipboard_contents_carry_marks_source_and_tag() {
    let mut note = item(ContentKind::Text, PayloadRef::Inline(b"hi".to_vec()));
    note.flags.remote_allowed = true;
    let tag = *blake3::hash(b"hi").as_bytes();
    match text_content(&note, b"hi", tag) {
        NormalizedContent::Text { text, dedup_tag, flags, source_app } => {
            assert_eq!(text, "hi");
            assert_eq!(dedup_tag, tag);
            assert_eq!(flags, note.flags);
            assert!(flags.remote_allowed && !flags.from_remote);
            assert_eq!(source_app, None);
        }
        _ => panic!("expected text"),
    }
    let mut picture = item(ContentKind::Image, PayloadRef::Inline(vec![9]));
    picture.metadata.image = Some(ImageInfo { width: 4, height: 3 });
    picture.metadata.source_app = Some("editor".into());
    match image_content(&picture, vec![9], tag) {
        NormalizedContent::Image { png, width, height, dedup_tag, source_app, .. } => {
            assert_eq!((png, width, height), (vec![9], 4, 3));
            assert_eq!(dedup_tag, tag);
            assert_eq!(source_app.as_deref(), Some("editor"));
        }
        _ => panic!("expected a picture"),
    }
    let gif = item(ContentKind::Gif, PayloadRef::Inline(vec![1]));
    match media_content(&gif, "/c/items/id7", "clip.gif", 1, tag) {
        NormalizedContent::Files { paths, manifest, flags, .. } => {
            assert_eq!(paths, vec!["/c/items/id7/clip.gif".to_string()]);
            assert!(matches!(
                manifest,
                FilesManifest::Single { name, size: 1 } if name == "clip.gif"
            ));
            assert!(flags.from_remote);
        }
        _ => panic!("expected files"),
    }
    let files = item(ContentKind::Files, PayloadRef::FileManifest(ManifestId { raw: 3 }));
    match files_content(&files, vec!["/c/a".into(), "/c/b".into()], tag).unwrap() {
        NormalizedContent::Files { paths, manifest, dedup_tag, flags, .. } => {
            assert_eq!(paths.len(), 2);
            assert!(matches!(manifest, FilesManifest::Kept(ManifestId { raw: 3 })));
            assert_eq!(dedup_tag, tag);
            assert!(flags.from_remote);
        }
        _ => panic!("expected files"),
    }
    assert_eq!(files_content(&files, Vec::new(), tag).unwrap_err(), "cached files missing");
    assert_eq!(
        files_content(&gif, vec!["/c/a".into()], tag).unwrap_err(),
        "files item missing manifest"
    );
}

fn header() -> FrameHeader {
    FrameHeader {
        width: 3,
        height: 2,
        origin_x: -1440,
        origin_y: 200,
        scale_bits: 2.0f64.to_bits(),
    }
}

#[test]
fn frame_header_roundtrip_preserves_geometry_and_scale() {
    let encoded = encode_header(&header());
    let h = decode_header(&encoded).unwrap();
    assert_eq!((h.width, h.height), (3, 2));
    assert_eq!((h.origin_x, h.origin_y), (-1440, 200));
    assert_eq!(f64::from_bits(h.scale_bits), 2.0);
}

#[test]
fn rejects_foreign_header() {
    let mut encoded = encode_header(&header());
    encoded[0] = b'X';
    assert!(decode_header(&encoded).is_err());
}

#[test]
fn frames_have_four_bytes_a_pixel() {
    assert_eq!(frame_len(3, 2).unwrap(), 24);
}

#[test]
fn overlay_reports() {
    let report = run_overlay_select(OverlayRun::Outcome(Ok("{}".into())));
    assert_eq!(report.stdout.as_deref(), Some("{}"));
    assert_eq!(report.code, 0);
    let report = run_overlay_select(OverlayRun::Failed("no display".into()));
    assert!(report.stderr.is_some());
    assert_ne!(report.code, 0);
    assert!(overlay_answer(false, b"", b"broken").is_err());
}

#[test]
fn recording_controller_allows_only_one_active_session() {
    let mut controller = RecordingController::default();
    let first = controller.begin().unwrap();
    assert!(controller.begin().is_err());
    assert!(controller.request_stop());
    assert!(controller.stop_requested(&first));
    controller.release(first);
    assert!(!controller.request_stop());
    assert!(controller.begin().is_ok());
}

#[test]
fn recorder_takes_a_frame_before_it_stops() {
    let mut recorder = Recorder::new(1_000, 10);
    match recorder.next(true, false) {
        RecordStep::Frame { deadline_us, timestamp_us } => {
            assert_eq!(deadline_us, 1_000);
            assert_eq!(timestamp_us, 0);
        }
        _ => panic!("expected a frame"),
    }
    recorder.advance();
    match recorder.next(false, false) {
        RecordStep::Frame { deadline_us, timestamp_us } => {
            assert_eq!(deadline_us, 101_000);
            assert_eq!(timestamp_us, 100_000);
        }
        _ => panic!("expected a frame"),
    }
    assert!(matches!(recorder.next(true, false), RecordStep::Finish));
    assert!(matches!(recorder.next(false, true), RecordStep::Cancel));
}

#[test]
fn recording_times() {
    assert_eq!(recording_timestamp_us(3, 0), 3_000_000);
    assert_eq!(recording_timestamp_us(1, 3), 333_333);
    assert_eq!(recording_deadline(5, 2, 2), 1_000_005);
    assert!(matches!(wait_until_recording_deadline(5, 5, false), WaitStep::Ready));
    assert!(matches!(wait_until_recording_deadline(0, 5_000, false), WaitStep::Sleep(5_000)));
    assert!(matches!(wait_until_recording_deadline(0, 50_000, false), WaitStep::Sleep(20_000)));
    assert!(matches!(wait_until_recording_deadline(0, 5, true), WaitStep::Cancel));
    assert_eq!((gif_fps(1), gif_fps(12), gif_fps(99)), (8, 12, 15));
    assert_eq!(video_fps(99, Platform::MacOs), 60);
    assert_eq!(video_fps(99, Platform::Windows), 30);
    assert_eq!(video_fps(1, Platform::Other), 10);
    assert_eq!((scroll_frames(1), scroll_frames(99)), (2, 40));
}

#[test]
fn scrolling_scrolls_between_frames() {
    assert!(matches!(
        scroll_next(0, 2, false, false),
        ScrollStep::Frame { scroll_first: false }
    ));
    assert!(matches!(scroll_next(1, 2, false, false), ScrollStep::Frame { scroll_first: true }));
    assert!(matches!(scroll_next(2, 2, false, false), ScrollStep::Finish));
    assert!(matches!(scroll_next(1, 2, false, true), ScrollStep::Finish));
    assert!(matches!(scroll_next(1, 2, true, false), ScrollStep::Cancel));
}

#[test]
fn sound_and_encoders() {
    assert!(matches!(audio_source(Some("mic")), AudioSource::Microphone));
    assert!(matches!(audio_source(Some("system")), AudioSource::System));
    assert!(matches!(audio_source(Some("both")), AudioSource::Both));
    assert!(matches!(audio_source(Some("none")), AudioSource::Silent));
    assert!(matches!(audio_source(None), AudioSource::Silent));
    assert!(must_ask_for_microphone(Platform::MacOs, AudioSource::Both, false));
    assert!(!must_ask_for_microphone(Platform::MacOs, AudioSource::System, false));
    assert!(!must_ask_for_microphone(Platform::Windows, AudioSource::Both, false));
    assert_eq!(choose_encoder(Platform::MacOs, false).mime(), "video/mp4");
    assert_eq!(choose_encoder(Platform::Windows, true).mime(), "video/mp4");
    assert_eq!(choose_encoder(Platform::Windows, false).mime(), "video/x-msvideo");
    assert!(matches!(choose_encoder(Platform::Other, true), VideoEncoder::MotionJpeg));
    assert_eq!(selection_of(OverlayOutcome::Pin(3)), Some(3));
    assert_eq!(selection_of(OverlayOutcome::<u8>::Cancel), None);
}

#[test]
fn recording_target_needs_monitor_and_choice() {
    let target =
        select_recording_target(false, Some("m"), Some(OverlayOutcome::Complete(1)), Some((4, 2)))
            .unwrap();
    assert_eq!((target.monitor, target.selection, target.width, target.height), ("m", 1, 4, 2));
    let err = |r: Result<_, String>| match r {
        Err(m) => m,
        Ok(asterism::desktop::capture::RecordingTarget::<&str, i32> { .. }) => String::new(),
    };
    assert_eq!(err(select_recording_target(true, None, None, None)), "cancelled");
    assert_eq!(err(select_recording_target(false, None, None, None)), "no monitor");
    assert_eq!(err(select_recording_target(false, Some("m"), None, None)), "cancelled");
    assert_eq!(
        err(select_recording_target(false, Some("m"), Some(OverlayOutcome::Complete(1)), None)),
        "empty selection"
    );
    assert_eq!(wait_for_recording_start(true).unwrap_err(), "cancelled");
    assert!(wait_for_recording_start(false).is_ok());
}

#[test]
fn capture_session_drop_removes_tracked_temp() {
    let mut session = CaptureSession::new(5);
    let dir = session.temp_dir(&paths());
    assert_eq!(dir, "/c/capture-sessions/5");
    session.track_temp("/c/other".to_string());
    assert_eq!(session.removals(), vec!["/c/other".to_string(), dir]);
}

#[test]
fn drafts_say_where_captures_come_from() {
    let draft = image_draft(
        "asterism.capture",
        DeviceId { raw: 1 },
        "e".to_string(),
        ContentKind::Gif,
        Some("image/gif".to_string()),
    );
    assert_eq!(draft.source_app.as_deref(), Some("asterism"));
    assert_eq!(draft.kind_override, Some(ContentKind::Gif));
    let seen = clipboard_draft(DeviceId { raw: 1 }, 42, ContentKind::Files, None);
    assert_eq!(seen.source_event_id, "42");
    assert_eq!(seen.producer_plugin_id, "asterism.clipboard");
    assert!(screenshot_flags().remote_allowed);
    let nobody = PermissionBroker::for_plugin(&[]);
    assert_eq!(
        image_grant(&nobody, ContentId { raw: 1 }, 0).unwrap_err(),
        "read grant denied"
    );
    assert!(image_grant(&PermissionBroker::host(), ContentId { raw: 1 }, 0).is_ok());
}

#[test]
fn items_go_to_the_clipboard_by_kind() {
    let grant = host_read_grant(ContentId { raw: 7 }, 0);
    let plan = |i: &ContentItem| item_to_clipboard(i, &paths(), &grant, 0, "id7", "kind");
    assert!(matches!(plan(&text()), Ok(ClipboardPlan::Text { bytes: BytesSource::Inline })));
    let mut picture =
        item(ContentKind::Screenshot, PayloadRef::Blob(BlobId { hex: "aa".into() }));
    picture.metadata.image = Some(ImageInfo { width: 4, height: 3 });
    match plan(&picture).unwrap() {
        ClipboardPlan::Image { bytes: BytesSource::Blob(b), width, height } => {
            assert_eq!((b.as_str(), width, height), ("aa", 4, 3));
        }
        _ => panic!("expected a picture"),
    }
    let mut video = item(ContentKind::Video, PayloadRef::Inline(vec![1]));
    match plan(&video).unwrap() {
        ClipboardPlan::MediaFile { dir, name, .. } => {
            assert_eq!((dir.as_str(), name.as_str()), ("/c/items/id7", "clip.mp4"));
        }
        _ => panic!("expected a file"),
    }
    video.metadata.mime_hint = Some("video/x-msvideo".into());
    assert!(matches!(
        plan(&video),
        Ok(ClipboardPlan::MediaFile { name, .. }) if name == "clip.avi"
    ));
    let gif = item(ContentKind::Gif, PayloadRef::Inline(vec![1]));
    assert!(matches!(
        plan(&gif),
        Ok(ClipboardPlan::MediaFile { name, .. }) if name == "clip.gif"
    ));
    let mut files =
        item(ContentKind::Files, PayloadRef::FileManifest(ManifestId { raw: 3 }));
    assert!(matches!(plan(&files), Ok(ClipboardPlan::Files { dir }) if dir == "/c/items/id7"));
    files.metadata.local_cache_rel = Some("rel".into());
    assert!(matches!(plan(&files), Ok(ClipboardPlan::Files { dir }) if dir == "/c/items/rel"));
    let other = item(ContentKind::Other(3), PayloadRef::Inline(vec![1]));
    assert_eq!(plan(&other).unwrap_err(), "cannot copy kind kind");
}

#[test]
fn clipboard_refuses_without_a_grant() {
    let grant = host_read_grant(ContentId { raw: 8 }, 0);
    assert_eq!(
        item_to_clipboard(&text(), &paths(), &grant, 0, "id", "TEXT").unwrap_err(),
        "content read grant invalid"
    );
    let mut big = text();
    big.payload_size = 64 * 1024 * 1024 + 1;
    let grant = PermissionBroker::host().grant_read(big.id, 0).unwrap();
    assert_eq!(
        item_to_clipboard(&big, &paths(), &grant, 0, "id", "TEXT").unwrap_err(),
        "content exceeds grant max_bytes"
    );
    let files = item(ContentKind::Text, PayloadRef::FileManifest(ManifestId { raw: 3 }));
    let grant = PermissionBroker::host().grant_read(files.id, 0).unwrap();
    assert_eq!(
        item_to_clipboard(&files, &paths(), &grant, 0, "id", "TEXT").unwrap_err(),
        "text item has file payload"
    );
    assert_eq!(load_bytes(&files).unwrap_err(), "expected blob payload");
    assert_eq!(files_manifest(&files, 0).unwrap_err(), "cached files missing");
    assert_eq!(files_manifest(&files, 1).unwrap(), ManifestId { raw: 3 });
    assert_eq!(files_manifest(&text(), 1).unwrap_err(), "files item missing manifest");
}

#[test]
fn clipboard_text_is_always_text() {
    assert_eq!(clipboard_text("grüß".as_bytes()), "grüß");
    assert_eq!(clipboard_text(&[0x61, 0xff]), "a\u{fffd}");
    assert_eq!(cache_pin_of(&text(), "id"), None);
    let gif = item(ContentKind::Gif, PayloadRef::Inline(vec![1]));
    assert_eq!(cache_pin_of(&gif, "id").as_deref(), Some("id"));
}

#[test]
fn watcher_hands_files_to_the_worker() {
    let files = ClipboardEvent::Captured { has_files: true, has_image: true };
    assert!(matches!(watcher_step(&files), WatcherStep::QueueFiles));
    let picture = ClipboardEvent::Captured { has_files: false, has_image: true };
    assert!(matches!(watcher_step(&picture), WatcherStep::Submit(ContentKind::Image)));
    assert!(matches!(watcher_step(&ClipboardEvent::Ignored), WatcherStep::Nothing));
    assert!(matches!(watcher_step(&ClipboardEvent::Error), WatcherStep::Warn));
    let id = ContentId { raw: 3 };
    assert_eq!(submit_capture(IngestionOutcome::Committed(id), true).pin, Some(id));
    assert!(!submit_capture(IngestionOutcome::Ignored, true).announce);
    assert_eq!(ingest_image_outcome(IngestionOutcome::Committed(id)).unwrap(), id);
    assert_eq!(
        ingest_image_outcome(IngestionOutcome::Ignored).unwrap_err(),
        "capture ignored as duplicate source event"
    );
    assert_eq!(
        ingest_image_outcome(IngestionOutcome::RejectedPolicy).unwrap_err(),
        "capture rejected by policy"
    );
}

#[test]
fn actions_need_permissions() {
    let host = PermissionBroker::host();
    let nobody = PermissionBroker::for_plugin(&[]);
    assert!(copy_action(&text(), true, &host, 0).is_ok());
    assert!(matches!(copy_action(&text(), false, &host, 0), Err(ActionError::Unsupported)));
    assert!(matches!(copy_action(&text(), true, &nobody, 0), Err(ActionError::Unsupported)));
    let (grant, next) = favorite_action(&text(), &host).unwrap();
    assert!(grant.favorite() && next);
    assert!(favorite_action(&text(), &nobody).is_err());
    assert!(delete_action(&text(), &host).unwrap().delete());
    assert!(delete_action(&text(), &nobody).is_err());
    assert!(matches!(save_action(&text(), true, &paths(), "id"), Ok(SavePlan::Inline)));
    let files = item(ContentKind::Files, PayloadRef::FileManifest(ManifestId { raw: 3 }));
    assert!(matches!(
        save_action(&files, true, &paths(), "id"),
        Ok(SavePlan::CopyDir(dir)) if dir == "/c/items/id"
    ));
    assert!(matches!(save_action(&text(), false, &paths(), "id"), Err(ActionError::Unsupported)));
    assert!(matches!(send_action(), ActionError::Failed(m) if m == "send uses sync session"));
    assert!(needs_toggle(&text(), true));
    assert!(!needs_toggle(&text(), false));
}

#[test]
fn cursor_texts_are_read() {
    let (ms, id) = parse_cursor("-5:ab:c").unwrap();
    assert_eq!((ms, id.as_str()), (-5, "ab:c"));
    assert!(parse_cursor("5").is_err());
    assert!(parse_cursor("x:ab").is_err());
    let q = list_history(None, true, Some("x".into()), None, None, true).unwrap();
    assert_eq!(q.limit, 80);
    assert!(q.favorite_only);
    assert!(list_history(None, false, None, None, None, false).is_err());
}

#[test]
fn items_are_shown() {
    let mut shown = text();
    shown.metadata.text_preview = Some("abc".into());
    shown.metadata.image = Some(ImageInfo { width: 4, height: 3 });
    let dto = to_dto(&shown, "id".into(), "TEXT".into());
    assert_eq!(dto.preview.as_deref(), Some("abc"));
    assert_eq!((dto.image_width, dto.image_height), (Some(4), Some(3)));
    assert!(!dto.favorite);
    let listed = list_actions(&[(ActionKey::Copy, "Copy"), (ActionKey::Save, "Save as")]);
    assert_eq!(listed[1].id, "asterism.history.save");
    assert_eq!(listed[1].title, "Save as");
    let me = LocalIdentity {
        device_id: DeviceId { raw: 1 },
        account_id: 2,
        device_name: "desk".into(),
    };
    let shown = get_identity(&me, "d".into(), "a".into());
    assert_eq!((shown.device_name.as_str(), shown.account_id.as_str()), ("desk", "a"));
    let status = capture_permission_status(Platform::MacOs, false, None);
    assert_eq!((status.process_name.as_str(), status.bundle_id.as_str()), ("Asterism", "dev.asterism.desktop"));
    assert!(!status.granted && status.settings_available);
    assert!(capture_permission_status(Platform::Windows, false, None).granted);
}

#[test]
fn hub_needs_settings() {
    let mut settings = SyncSettings::default();
    assert_eq!(hub_client_from_settings(&settings).unwrap_err(), "no hub");
    assert_eq!(start_pairing_code(&settings).unwrap_err(), "set hub url first");
    assert_eq!(publish_pairing_avk(&settings).unwrap_err().message(), "no hub");
    assert_eq!(hub_devices(&settings).unwrap_err().message(), "no token");
    assert!(!settings.has_hub());
    set_hub_url(&mut settings, "https://hub//");
    assert_eq!(settings.hub_url.as_deref(), Some("https://hub"));
    assert_eq!(start_pairing_code(&settings).unwrap_err(), "connect this device first");
    assert_eq!(publish_pairing_avk(&settings).unwrap_err().message(), "no token");
    assert!(!settings.hub_ready());
    settings.token = Some("t".into());
    assert!(settings.hub_ready());
    assert!(hub_devices(&settings).is_ok());
    assert_eq!(
        publish_pairing_avk(&settings).unwrap_err().message(),
        "generate a pairing code first"
    );
    let client = start_pairing_code(&settings).unwrap();
    assert_eq!((client.base.as_str(), client.token.as_deref()), ("https://hub", Some("t")));
    note_pairing_code(&mut settings, "CODE".into(), "aa".into());
    assert_eq!(settings.pending_pair_code.as_deref(), Some("CODE"));
    assert!(settings.pin_hub(Some("cc".into())));
    let (deposit, salt) = publish_pairing_avk(&settings).unwrap();
    assert_eq!((deposit.base.as_str(), deposit.token.as_deref()), ("https://hub", Some("t")));
    assert_eq!((deposit.pin.as_deref(), salt.as_str()), (Some("cc"), "aa"));
    assert_eq!(hub_client_from_settings(&settings).unwrap().token.as_deref(), Some("t"));
    assert_eq!(hub_client_from_settings(&settings).unwrap().pin.as_deref(), Some("cc"));
    assert_eq!(start_pairing_code(&settings).unwrap().pin.as_deref(), Some("cc"));
}

#[test]
fn a_pin_is_noted_once_and_survives_saving() {
    let mut settings = SyncSettings::default();
    assert!(settings.pin_hub(Some("p".into())));
    assert!(!settings.pin_hub(Some("q".into())));
    settings.pending_pair_salt = Some("s".into());
    settings.pending_pair_code = Some("c".into());
    let saved = save_sync_settings(SyncSettings::default(), settings);
    assert_eq!(saved.hub_cert_sha256.as_deref(), Some("p"));
    assert_eq!(saved.pending_pair_salt.as_deref(), Some("s"));
    assert_eq!(saved.pending_pair_code.as_deref(), Some("c"));
    assert_eq!(saved.lan_port, 47820);
    assert!(!saved.webdav_ready());
    assert_eq!(SyncSettings::path("/f"), "/f/sync.toml");
}

#[test]
fn joining_a_hub() {
    let code = bootstrap_hub_plan(Some(" abcd2345 ")).unwrap();
    assert!(matches!(code, BootstrapPlan::WithCode(c) if c == "ABCD2345"));
    let secret = bootstrap_hub_plan(Some(" long secret ")).unwrap();
    assert!(matches!(secret, BootstrapPlan::WithSecret(s) if s == "long secret"));
    let none = "first device needs the hub bootstrap secret; later devices need a pairing code";
    assert_eq!(bootstrap_hub_plan(Some("  ")).unwrap_err(), none);
    assert_eq!(bootstrap_hub_plan(None).unwrap_err(), none);
    let s = |t: &str| Some(t.to_string());
    assert_eq!(bootstrap_hub_vault(None, None, None).unwrap(), None);
    assert_eq!(
        bootstrap_hub_vault(s("w"), s("a"), s("b")).unwrap(),
        Some(("w".to_string(), "a".to_string()))
    );
    assert_eq!(
        bootstrap_hub_vault(s("w"), None, s("b")).unwrap(),
        Some(("w".to_string(), "b".to_string()))
    );
    assert_eq!(
        bootstrap_hub_vault(s("w"), None, None).unwrap_err(),
        "paired AVK wrap is missing KDF salt"
    );
    assert_eq!(unwrap_pairing_avk_begin("00ff").unwrap(), vec![0, 255]);
    assert_eq!(unwrap_pairing_avk_begin("0").unwrap_err(), "Odd number of digits");
    assert_eq!(unwrap_pairing_avk_end(&[3; 32]).unwrap(), [3; 32]);
    assert_eq!(unwrap_pairing_avk_end(&[3; 31]).unwrap_err(), "paired AVK must be 32 bytes");
}

#[test]
fn app_settings() {
    let settings = AppSettings::load(AppSettings::try_load(Some(Err("bad file".into()))));
    assert_eq!(
        AppSettings::try_load(Some(Err("bad file".into()))).unwrap_err(),
        "invalid app_settings.toml: bad file"
    );
    assert!(AppSettings::try_load(None).unwrap().close_to_tray);
    let changed = AppSettings { close_to_tray: false, ..AppSettings::default() };
    let loaded = AppSettings::load(AppSettings::try_load(Some(Ok(changed))));
    assert!(!loaded.close_to_tray && loaded.minimize_to_tray);
    assert_eq!(
        SyncSettings::try_load(Some(Err("bad file".into()))).unwrap_err(),
        "invalid sync.toml: bad file"
    );
    assert_eq!(SyncSettings::load(Err("bad file".into())).lan_port, 47820);
    assert_eq!(AppSettings::path("/f"), "/f/app_settings.toml");
    assert!(settings.close_to_tray && settings.minimize_to_tray && !settings.autostart);
    assert_eq!(settings.shortcuts.toggle_window, "Alt+V");
    assert_eq!(settings.shortcuts.capture_region, "Alt+A");
    assert_eq!(settings.shortcuts.capture_fullscreen, "Alt+S");
    assert_eq!(settings.shortcuts.record_gif, "Alt+G");
    assert_eq!(settings.shortcuts.record_video, "Alt+R");
    assert!(!settings.hides_on_close("other"));
    assert!(settings.hides_on_close("main"));
}

#[test]
fn shortcuts_are_gated() {
    let mut gate = CaptureGate::new();
    let hidden = Some(WindowState { visible: false, focused: false });
    assert!(matches!(
        gate.handle_shortcut_action(Some(ShortcutAction::ToggleWindow), hidden),
        ShortcutStep::ShowWindow
    ));
    let front = Some(WindowState { visible: true, focused: true });
    assert!(matches!(
        gate.handle_shortcut_action(Some(ShortcutAction::ToggleWindow), front),
        ShortcutStep::HideWindow
    ));
    assert!(matches!(
        gate.handle_shortcut_action(Some(ShortcutAction::CaptureRegion), None),
        ShortcutStep::CaptureRegion
    ));
    assert!(matches!(
        gate.handle_shortcut_action(Some(ShortcutAction::CaptureFullscreen), None),
        ShortcutStep::Nothing
    ));
    gate.capture_ended();
    assert!(matches!(
        gate.handle_shortcut_action(Some(ShortcutAction::CaptureFullscreen), None),
        ShortcutStep::CaptureFullscreen
    ));
    assert!(matches!(menu_step("quit"), MenuStep::Quit));
    assert!(matches!(menu_step("nothing"), MenuStep::Nothing));
    let keys = ShortcutSettings::default();
    let good = [None, None, None, None, None];
    assert!(register_shortcuts(&keys, &good).is_ok());
    let bad = [None, Some("taken".to_string()), None, None, None];
    assert!(register_shortcuts(&keys, &bad).is_err());
    assert!(toolbar_url("gif", 12).contains("gif"));
}

fn event(from_remote: bool) -> OutboxEvent {
    OutboxEvent {
        id: 1,
        event_id: 1,
        event_type: EventType::Committed,
        aggregate_id: ContentId { raw: 7 },
        payload: OutboxPayload {
            aggregate_id: ContentId { raw: 7 },
            origin_device_id: None,
            kind: None,
            from_remote,
        },
        created_at_ms: 0,
        available_at_ms: 0,
        attempts: 0,
    }
}

#[test]
fn engine_wakes_in_order() {
    assert_eq!(run_loop_steps(EngineEvent::DrainOutbox), vec![EngineStep::ConsumeOutbox]);
    let reload = run_loop_steps(EngineEvent::Reload);
    assert_eq!(reload.len(), 7);
    assert_eq!(reload[6], EngineStep::PullHub);
    assert_eq!(run_loop_steps(EngineEvent::Tick)[3], EngineStep::FlushDeletes);
    assert_eq!(run_loop_steps(EngineEvent::Maintenance)[3], EngineStep::EvictCache);
    assert_eq!(run_loop_steps(EngineEvent::Closed), vec![EngineStep::Stop]);
}

#[test]
fn outbox_events_are_judged() {
    let open = text();
    let mut private = text();
    private.flags.local_only = true;
    let found = ItemLookup::Found(&open);
    let kept = ItemLookup::Found(&private);
    assert_eq!(consume_lan_outbox(&event(true), &found, true), LanStep::Ack);
    assert_eq!(consume_lan_outbox(&event(false), &found, true), LanStep::PushThenAck);
    assert_eq!(consume_lan_outbox(&event(false), &found, false), LanStep::Ack);
    assert_eq!(consume_lan_outbox(&event(false), &kept, true), LanStep::Ack);
    assert_eq!(consume_lan_outbox(&event(false), &ItemLookup::Missing, true), LanStep::Ack);
    assert_eq!(
        consume_lan_outbox(&event(false), &ItemLookup::Failed, true),
        LanStep::Retry(5000)
    );
    assert_eq!(consume_hub_outbox(&event(true), &found, false, false), HubStep::Ack);
    assert_eq!(consume_hub_outbox(&event(false), &found, false, false), HubStep::Leave);
    assert_eq!(consume_hub_outbox(&event(false), &found, true, false), HubStep::Retry(8000));
    assert_eq!(consume_hub_outbox(&event(false), &found, true, true), HubStep::Publish);
    assert_eq!(consume_hub_outbox(&event(false), &kept, true, true), HubStep::Ack);
    assert_eq!(
        consume_hub_outbox(&event(false), &ItemLookup::Failed, true, true),
        HubStep::Retry(5000)
    );
    assert_eq!(after_publish(true), HubStep::Ack);
    assert_eq!(after_publish(false), HubStep::Retry(8000));
    assert_eq!(publish_one_status(PublishResult::Published), ContentStatus::SyncedToHub);
    assert_eq!(publish_one_status(PublishResult::NotReady), ContentStatus::Local);
    assert_eq!(publish_one_status(PublishResult::Failed), ContentStatus::Failed);
}

fn device(raw: u128, revoked: bool, fp: Option<String>) -> DeviceDto {
    DeviceDto {
        id: DeviceId { raw },
        name: "peer".into(),
        platform: "macos".into(),
        last_seen_at_ms: 0,
        revoked,
        cert_fingerprint: fp,
    }
}

#[test]
fn trust_follows_the_hub() {
    let own = DeviceId { raw: 1 };
    let mut trust = TrustStore::load(Vec::new());
    trust.add(DeviceId { raw: 2 }, "aa".repeat(32), "old".into());
    refresh_trust(
        &mut trust,
        vec![
            device(1, false, Some("11".repeat(32))),
            device(2, true, Some("aa".repeat(32))),
            device(3, false, Some("cc".repeat(32))),
            device(4, false, None),
        ],
        own,
    );
    assert_eq!(trust.peers().len(), 1);
    assert!(trust.is_trusted(DeviceId { raw: 3 }, &[0xcc; 32]));
    let more = vec![
        TrustedDeviceDto {
            device_id: DeviceId { raw: 5 },
            name: "n".into(),
            cert_fingerprint: Some("ee".repeat(32)),
        },
        TrustedDeviceDto { device_id: own, name: "me".into(), cert_fingerprint: None },
    ];
    persist_trusted_devices(&mut trust, more, own);
    assert!(accepts_lan_item(&trust, DeviceId { raw: 5 }, Some([0xee; 32])));
    assert!(!accepts_lan_item(&trust, DeviceId { raw: 5 }, None));
    assert!(!accepts_lan_item(&trust, DeviceId { raw: 5 }, Some([0xcc; 32])));
    let peer = DiscoveredPeer {
        device_id: DeviceId { raw: 5 },
        port: 1,
        fingerprint: Some([0xee; 32]),
        addresses: vec!["a:1".into()],
    };
    assert_eq!(push_lan_target(&trust, &peer), Some([0xee; 32]));
    let mut shown = get_lan_peers(vec![(peer, "0123456789".into())], &trust);
    let dto = shown.remove(0);
    assert_eq!(dto.name, "Peer-01234567");
    assert_eq!(dto.fingerprint, "ee".repeat(32));
    assert!(dto.is_trusted);
    assert!(untrust_peer(&mut trust, Ok(DeviceId { raw: 5 })).is_ok());
    assert!(!trust.contains_device(DeviceId { raw: 5 }));
    assert_eq!(untrust_peer(&mut trust, Err("bad id".into())).unwrap_err(), "bad id");
    assert!(trust_peer(&mut trust, Ok(DeviceId { raw: 6 }), "66".repeat(32), "n".into()).is_ok());
    assert!(trust.is_trusted(DeviceId { raw: 6 }, &[0x66; 32]));
    assert_eq!(push_lan_next(2, 1, false), Some(1));
    assert_eq!(push_lan_next(2, 1, true), None);
    assert_eq!(push_lan_next(2, 2, false), None);
}

#[test]
fn candidates_become_peers() {
    let env = Envelope::new(
        DeviceId { raw: 5 },
        MessageBody::LanCandidates(LanCandidates {
            endpoints: vec!["10.0.0.2:1".into()],
            fingerprint_hex: Some("ee".repeat(32)),
        }),
        "m".into(),
        0,
    );
    let peer = exchange_candidates(env, 9).unwrap();
    assert_eq!((peer.port, peer.fingerprint), (9, Some([0xee; 32])));
    let ping = Envelope::new(DeviceId { raw: 5 }, MessageBody::Ping { nonce: 1 }, "m".into(), 0);
    assert!(exchange_candidates(ping, 9).is_none());
    assert_eq!(cache_pins(vec!["a".into()], Some("a".into())).len(), 1);
    assert_eq!(cache_pins(vec!["a".into()], Some("b".into())).len(), 2);
    assert_eq!(host_read_grant(ContentId { raw: 7 }, 5).max_bytes(), u64::MAX);
    assert!(host_read_grant(ContentId { raw: 7 }, 5).is_valid(ContentId { raw: 7 }, 60_000));
}

fn history(id: &str) -> HistoryDto {
    HistoryDto {
        id: id.into(),
        origin_device_id: DeviceId { raw: 2 },
        kind: "TEXT".into(),
        created_at_ms: 1,
        logical_size: 1,
        payload_size: 1,
        dedup_tag: String::new(),
        flags: 0,
        encrypted_metadata: String::new(),
        blob_id: None,
    }
}

#[test]
fn remember_failed_dedups_by_item_id() {
    let mut failed = Vec::new();
    remember_failed(&mut failed, history("aa"));
    remember_failed(&mut failed, history("aa"));
    assert_eq!(failed.len(), 1);
}

#[test]
fn a_failed_item_is_saved_before_the_cursor() {
    let mut failed = Vec::new();
    let mut cursor = None;
    let steps = pull_hub_item(&mut failed, &mut cursor, history("aa"), RemoteOutcome::Failed);
    assert_eq!(steps, vec![PullStep::SaveFailed, PullStep::SaveCursor]);
    assert_eq!(cursor.as_deref(), Some("1:aa"));
    let steps = pull_hub_item(&mut failed, &mut cursor, history("bb"), RemoteOutcome::Stored);
    assert_eq!(steps, vec![PullStep::TellWindow, PullStep::SaveCursor]);
    assert_eq!(cursor.as_deref(), Some("1:bb"));
    assert_eq!(failed.len(), 1);
    let again = failed.pop().unwrap();
    retry_remote(&mut failed, again, RemoteOutcome::Known);
    assert!(failed.is_empty());
    let mut early = history("cc");
    early.created_at_ms = -3;
    assert_eq!(cursor_after(&early), "-3:cc");
    assert!(pull_to_clipboard(true, Some(DeviceId { raw: 2 }), DeviceId { raw: 1 }));
    assert!(!pull_to_clipboard(true, Some(DeviceId { raw: 1 }), DeviceId { raw: 1 }));
    assert!(!pull_to_clipboard(false, Some(DeviceId { raw: 2 }), DeviceId { raw: 1 }));
    assert!(!pull_to_clipboard(true, None, DeviceId { raw: 1 }));
}

#[test]
fn missing_file_cache_is_not_treated_as_empty_payload() {
    let files = item(ContentKind::Files, PayloadRef::FileManifest(ManifestId { raw: 3 }));
    assert_eq!(
        load_payload(&files, &paths(), "id", false).unwrap_err(),
        "file cache missing for id; not publishing metadata-only item"
    );
    match load_payload(&files, &paths(), "id", true).unwrap() {
        PayloadPlan::Bundle { cache, staged } => {
            assert_eq!(cache, "/c/items/id");
            assert_eq!(staged, "/c/sync-staging/id.asb");
        }
        _ => panic!("expected a bundle"),
    }
    assert!(matches!(
        load_payload(&text(), &paths(), "id", false),
        Ok(PayloadPlan::Bytes(b)) if b == b"abc"
    ));
    assert_eq!(download_path(&paths(), "aa"), "/c/sync-staging/aa.download");
}

#[test]
fn remote_items_are_described() {
    let mut dto = history("aa");
    dto.dedup_tag = "0a".repeat(32);
    let spec = remote_spec(&dto, ContentId { raw: 9 }, None);
    assert_eq!(spec.tag, [10; 32]);
    assert_eq!(spec.kind, ContentKind::Text);
    assert_eq!(spec.created_at_ms, Some(1));
    assert!(!spec.from_lan);
    dto.dedup_tag = "zz".into();
    assert_eq!(remote_spec(&dto, ContentId { raw: 9 }, None).tag, [0; 32]);
    let offer = ItemOffer {
        item_id: ContentId { raw: 9 },
        kind: "GIF".into(),
        logical_size: 4,
        payload_size: 5,
        dedup_tag: vec![1, 2],
        flags: 6,
    };
    let spec = apply_lan(&offer, DeviceId { raw: 3 }, Some(ContentKind::Gif), false).unwrap();
    assert_eq!((spec.kind, spec.flags, spec.tag), (ContentKind::Gif, 6, [0; 32]));
    assert_eq!(
        apply_remote_source(true, true, 1, ContentKind::Files),
        RemoteSource::Message
    );
    assert_eq!(
        apply_remote_source(false, true, 1, ContentKind::Files),
        RemoteSource::ChunksToFile
    );
    assert_eq!(
        apply_remote_source(false, true, 1, ContentKind::Text),
        RemoteSource::ChunksToMemory
    );
    assert_eq!(
        apply_remote_source(false, true, 0, ContentKind::Text),
        RemoteSource::UncountedParts
    );
    assert_eq!(
        apply_remote_source(false, false, 1, ContentKind::Text),
        RemoteSource::Nowhere
    );
    assert!(uncounted_part_next(0, false));
    assert!(uncounted_part_next(511, true));
    assert!(!uncounted_part_next(512, true));
    assert!(!uncounted_part_next(3, false));
    assert_eq!(missing_payload("aa"), "remote item aa missing payload");
    assert_eq!(persist_item_step(ContentKind::Text, None), PersistStep::StoreBytes);
    assert_eq!(persist_item_step(ContentKind::Files, None), PersistStep::UnpackBundle);
    assert_eq!(persist_item_step(ContentKind::Files, Some(true)), PersistStep::StoreManifest);
    assert_eq!(persist_item_step(ContentKind::Files, Some(false)), PersistStep::UnpackTree);
}

#[test]
fn items_are_published() {
    let dto = publish_dto(&text(), DeviceId { raw: 1 }, "TEXT".into(), 4, "sealed".into(), None);
    assert_eq!(dto.id, "00000000000000000000000000000007");
    assert_eq!(dto.dedup_tag, "02".repeat(32));
    assert_eq!(item_offer(&text(), "TEXT".into(), 4, 3).dedup_tag, vec![2; 32]);
    assert!(ready_notice(ContentId { raw: 7 }, &None).is_none());
    assert_eq!(
        ready_notice(ContentId { raw: 7 }, &Some("b".into())).unwrap().blob_id,
        "b"
    );
    assert!(PayloadSource::Bytes(vec![0; 256 * 1024]).small_bytes().is_some());
    assert!(PayloadSource::Bytes(vec![0; 256 * 1024 + 1]).small_bytes().is_none());
    assert!(PayloadSource::StagedFile("/x".into()).small_bytes().is_none());
    assert_eq!(upload_next_chunk(0).unwrap(), 1);
    assert_eq!(upload_next_chunk(u32::MAX).unwrap_err(), "blob has too many chunks");
}

#[test]
fn deletes_that_failed_stay() {
    let left = tombstones_left(vec![("a".into(), true), ("b".into(), false), ("c".into(), false)]);
    assert_eq!(left, vec!["b".to_string(), "c".to_string()]);
    assert_eq!(
        flush_tombstones_outcome(&left, false).unwrap_err(),
        "hub still has pending deletes"
    );
    assert!(flush_tombstones_outcome(&[], true).is_err());
    assert!(flush_tombstones_outcome(&[], false).is_ok());
}
