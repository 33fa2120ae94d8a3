use asterism::content::{ContentId, ContentKind, DeviceId};
use asterism::sync::archive::{
    admit_entry, check_bundle_head, check_copied, check_tree_tag, entry_header, entry_names,
    is_top, pack_file_bundle, pack_tree, read_u16, read_u32, read_u64, slash_name, take,
    unpack_file_bundle, unpack_tree,
    validate_manifest, walk_step, NodeKind, TreeEntry, TreeOp, TreeRoots, Unpacked, WalkStep,
};
use asterism::sync::cert::{
    client_config_pinned, fingerprint_of_der, fingerprint_text, key_and_certs, pick_key, server_config, verify_pinned,
    DeviceCert, SelfSigned,
};
use asterism::sync::codec::{
    read_envelope, recv_chunk_len, recv_chunks, send_chunks, write_envelope, MAX_FRAME,
};
use asterism::sync::error::SyncError;
use asterism::sync::file_stream::ResumableUploadPlanner;
use asterism::sync::hub_client::{
    chunk_path, commit_path, device_path, empty_outcome, history_item_path, history_path,
    json_outcome, recv_control, ControlFrame, HubClient,
};
use asterism::sync::lan::{
    announce, endpoint, endpoints, lan_timeout, mdns_name, parse_fp, parse_mdns_device,
    parse_port, service_type, share_cert_arc, short_id, IpText, MdnsRecord,
};
use asterism::sync::lan_item::{
    check_lan_payload, lan_item_ack, recv_lan_item, send_lan_item, send_lan_item_outcome,
};
use asterism::sync::pairing::{
    code_of, generate_code, generate_session_token, hash_code, hash_token, looks_like_pairing_code,
    normalize_code,
};
use asterism::sync::payload::{
    decode_blob_chunk, decode_package, decrypt_blob_chunks, encode_blob_chunk, encode_package,
    encrypt_blob_chunks, is_inline, pack, plaintext_hash, unpack_body, unpack_meta,
    BlobChunkDecryptor, BlobChunkEncryptor, EncryptedChunk,
    WrappedItemKey, BLOB_CHUNK_HEADER, CHUNK_SIZE, INLINE_LIMIT,
};
use asterism::sync::protocol::{
    Envelope, ItemAck, ItemOffer, LanItem, MessageBody, PROTOCOL_VERSION,
};
use asterism::sync::router::select_route;
use asterism::sync::session::{connect_timeout, SyncSession};
use asterism::sync::transport::{Route, TransportError};
use asterism::sync::tree_reader::{TreeReader, TreeWrite};
use asterism::sync::webdav::{
    decode_xml_entities, delete_outcome, extract_hrefs, get_outcome, list_names, list_outcome,
    mkcol_outcome, percent_decode, percent_encode_segment, put_outcome, test_connection_outcome,
    WebdavClient, WebdavConfig,
};

#[test]
fn prefers_lan() {
    assert_eq!(select_route(true, true), Some(Route::LanDirect));
    assert_eq!(select_route(false, true), Some(Route::HubRelay));
    assert_eq!(select_route(false, false), None);
}

#[test]
fn href_extraction_and_decoding() {
    let xml = r#"<?xml version="1.0" encoding="utf-8"?>
        <D:multistatus xmlns:D="DAV:">
            <D:response>
                <D:href>/dav/Asterism/</D:href>
            </D:response>
            <D:response>
                <D:href>/dav/Asterism/hello%20world%20&amp;%20notes.png</D:href>
            </D:response>
        </D:multistatus>"#;
    let hrefs = extract_hrefs(xml);
    assert_eq!(hrefs.len(), 2);
    let name = decode_xml_entities(&hrefs[1]);
    let unquoted = percent_decode(&name);
    assert_eq!(unquoted, "/dav/Asterism/hello world & notes.png");
}

#[test]
fn closing_tags_open_nothing() {
    let xml = "<d:href>/a</d:href><d:propstat>text<d:prop></d:prop></d:propstat><HREF> /b </HREF>";
    assert_eq!(extract_hrefs(xml), vec!["/a".to_string(), "/b".to_string()]);
}

#[test]
fn listing_leaves_out_the_folder_and_repetitions() {
    let xml = "<d:href>/dav/A/</d:href><D:HREF>/dav/A/x%20y.bin</D:HREF><href>/dav/A/sub/</href><d:href>/dav/A/x%20y.bin</d:href>";
    assert_eq!(list_names("/A/", xml), vec!["x y.bin".to_string(), "sub".to_string()]);
}

#[test]
fn config_url_normalization() {
    let cfg = WebdavConfig {
        enabled: true,
        url: "https://dav.example.com/dav/Asterism/".into(),
        username: Some("user".into()),
        password: Some("pass".into()),
    };
    let client = WebdavClient::new(&cfg).unwrap();
    assert_eq!(
        client.full_url("blobs/test item.bin"),
        "https://dav.example.com/dav/Asterism/blobs/test%20item.bin"
    );
    assert!(client.auth_header.is_some());
    assert_eq!(client.auth_header.as_deref(), Some("Basic dXNlcjpwYXNz"));
    assert_eq!(
        client.collection_url("blobs"),
        "https://dav.example.com/dav/Asterism/blobs/"
    );
    assert_eq!(client.full_url("/"), "https://dav.example.com/dav/Asterism");
}

#[test]
fn webdav_needs_an_address() {
    let cfg = WebdavConfig { enabled: true, url: " / ".into(), username: None, password: None };
    assert_eq!(WebdavClient::new(&cfg).unwrap_err().message(), "empty WebDAV url");
    let cfg = WebdavConfig {
        enabled: true,
        url: "http://h".into(),
        username: Some(String::new()),
        password: Some("p".into()),
    };
    assert!(WebdavClient::new(&cfg).unwrap().auth_header.is_none());
}

#[test]
fn percent_encoding_is_undone() {
    assert_eq!(percent_encode_segment("a b/ü~"), "a%20b%2F%C3%BC~");
    assert_eq!(percent_decode("a%20b%2F%C3%BC~"), "a b/ü~");
    assert_eq!(percent_decode("100%"), "100%");
    assert_eq!(percent_decode("%zz"), "%zz");
    assert_eq!(percent_decode("%+5"), "\u{5}");
    assert_eq!(percent_decode("%ff"), "\u{fffd}");
}

#[test]
fn webdav_answers_are_judged() {
    assert!(test_connection_outcome(207, "207 Multi-Status").is_ok());
    assert!(test_connection_outcome(405, "405 Method Not Allowed").is_ok());
    assert_eq!(
        test_connection_outcome(401, "401 Unauthorized").unwrap_err().message(),
        "WebDAV 认证失败，请检查用户名和密码"
    );
    assert_eq!(
        test_connection_outcome(500, "500 Internal Server Error").unwrap_err().message(),
        "WebDAV 状态码错误: 500 Internal Server Error"
    );
    assert!(mkcol_outcome("a", 405, "405 Method Not Allowed").is_ok());
    assert_eq!(
        mkcol_outcome("a", 409, "409 Conflict").unwrap_err().message(),
        "MKCOL a 失败: 409 Conflict"
    );
    assert!(put_outcome("a", 204, "204 No Content").is_ok());
    assert_eq!(
        put_outcome("a", 507, "507 Insufficient Storage").unwrap_err().message(),
        "PUT a 失败: 507 Insufficient Storage"
    );
    assert!(get_outcome("a", 200, "200 OK").unwrap());
    assert!(!get_outcome("a", 404, "404 Not Found").unwrap());
    assert_eq!(
        get_outcome("a", 500, "500 X").unwrap_err().message(),
        "GET a 失败: 500 X"
    );
    assert!(delete_outcome("a", 404, "404 Not Found").is_ok());
    assert_eq!(
        delete_outcome("a", 423, "423 Locked").unwrap_err().message(),
        "DELETE a 失败: 423 Locked"
    );
    assert!(!list_outcome("a", 404, "404 Not Found").unwrap());
    assert_eq!(
        list_outcome("a", 403, "403 Forbidden").unwrap_err().message(),
        "PROPFIND a 失败: 403 Forbidden"
    );
}

fn file(name: &str, data: &[u8]) -> TreeEntry {
    TreeEntry { name: name.to_string(), is_dir: false, data: data.to_vec() }
}

fn dir(name: &str) -> TreeEntry {
    TreeEntry { name: name.to_string(), is_dir: true, data: Vec::new() }
}

/// Unpacks with every name accepted as it is.
fn unpack_all(bytes: &[u8]) -> Unpacked {
    let clean: Vec<Result<String, String>> = entry_names(bytes).into_iter().map(Ok).collect();
    unpack_tree(bytes, &clean)
}

fn contents<'a>(bytes: &'a [u8], unpacked: &Unpacked, name: &str) -> Option<&'a [u8]> {
    unpacked.ops.iter().find_map(|op| match op {
        TreeOp::File(path, from, to) if path == name => Some(&bytes[*from..*to]),
        _ => None,
    })
}

#[test]
fn archive_roundtrip() {
    let packed =
        pack_tree(&[file("a.txt", b"hi"), dir("sub"), file("sub/b.txt", b"there")]).unwrap();
    let out = unpack_all(&packed);
    assert_eq!(contents(&packed, &out, "a.txt").unwrap(), b"hi");
    assert_eq!(contents(&packed, &out, "sub/b.txt").unwrap(), b"there");
    match out.outcome.unwrap() {
        TreeRoots::Named(names) => assert_eq!(names, vec!["a.txt".to_string(), "sub".to_string()]),
        TreeRoots::Dest => panic!("expected names"),
    }
}

#[test]
fn archive_bytes_are_fixed() {
    let packed = pack_tree(&[file("a\\b", b"hi")]).unwrap();
    let mut expected = b"ASF1".to_vec();
    expected.extend_from_slice(&1u32.to_le_bytes());
    expected.extend_from_slice(&3u16.to_le_bytes());
    expected.extend_from_slice(b"a/b");
    expected.push(0);
    expected.extend_from_slice(&2u64.to_le_bytes());
    expected.extend_from_slice(b"hi");
    assert_eq!(packed, expected);
    assert_eq!(slash_name("a\\b"), "a/b");
}

#[test]
fn empty_archive_gives_the_directory_itself() {
    let packed = pack_tree(&[]).unwrap();
    assert!(matches!(unpack_all(&packed).outcome, Ok(TreeRoots::Dest)));
}

#[test]
fn file_bundle_preserves_manifest_and_tree() {
    let manifest = br#"{"root_name":"a.txt","entries":[{"relative_path":"a.txt","size":2}]}"#;
    let packed = pack_file_bundle(manifest, &[file("a.txt", b"hi")]).unwrap();

    let archive = unpack_file_bundle(&packed).unwrap();
    let out = unpack_all(&packed[archive..]);

    assert_eq!(&packed[8..archive], manifest);
    assert_eq!(contents(&packed[archive..], &out, "a.txt").unwrap(), b"hi");
    match out.outcome.unwrap() {
        TreeRoots::Named(names) => assert_eq!(names, vec!["a.txt".to_string()]),
        TreeRoots::Dest => panic!("expected names"),
    }
}

#[test]
fn streaming_file_bundle_roundtrip() {
    let manifest = br#"{"root_name":"large.bin"}"#;
    let packed =
        pack_file_bundle(manifest, &[file("large.bin", &vec![0x7a; 2 * 1024 * 1024])]).unwrap();
    let head = check_bundle_head(&packed[..8]).unwrap();
    assert_eq!(head, manifest.len());
    let rest = &packed[8 + head..];
    assert!(check_tree_tag(&rest[..4]).is_ok());
    let out = unpack_all(rest);
    assert_eq!(contents(rest, &out, "large.bin").unwrap().len(), 2 * 1024 * 1024);
    assert_eq!(admit_entry(0, false, 2 * 1024 * 1024).unwrap(), 2 * 1024 * 1024);
    assert!(check_copied(2 * 1024 * 1024, 2 * 1024 * 1024).is_ok());
}

#[test]
fn archive_is_unpacked_while_it_is_read() {
    let mut reader = TreeReader::new(b"ASF1", 3).unwrap();
    assert!(matches!(
        reader.entry(true, 0, Ok("sub".into())).unwrap(),
        TreeWrite::Dir(rel) if rel == "sub"
    ));
    assert!(matches!(
        reader.entry(false, 5, Ok("sub/b.txt".into())).unwrap(),
        TreeWrite::File(rel, 5) if rel == "sub/b.txt"
    ));
    assert_eq!(reader.extracted, 5);
    assert_eq!(reader.entry(false, 1, Err("bad name".into())).unwrap_err().message(), "bad name");
    assert_eq!(
        reader.entry(true, 1, Ok("d".into())).unwrap_err().message(),
        "protocol: directory entry has payload"
    );
    assert_eq!(
        reader.entry(false, 500 * 1024 * 1024, Ok("f".into())).unwrap_err().message(),
        "file tree exceeds remote size limit"
    );
    assert!(reader.expects_entry());
    reader.entry(false, 0, Ok("top".into())).unwrap();
    assert!(!reader.expects_entry());
    match reader.finish() {
        TreeRoots::Named(names) => assert_eq!(names, vec!["sub".to_string(), "top".to_string()]),
        TreeRoots::Dest => panic!("expected names"),
    }
    assert!(TreeReader::new(b"ASB2", 0).is_err());
    assert!(matches!(TreeReader::new(b"ASF1", 0).unwrap().finish(), TreeRoots::Dest));
}

#[test]
fn unpack_rejects_truncated_archive() {
    let mut packed = b"ASF1".to_vec();
    packed.extend_from_slice(&1u32.to_le_bytes());
    packed.extend_from_slice(&10u16.to_le_bytes());
    packed.extend_from_slice(b"ab");
    assert!(unpack_all(&packed).outcome.is_err());
}

#[test]
fn archive_errors_tell_what_is_wrong() {
    assert_eq!(
        unpack_all(b"nope").outcome.unwrap_err().message(),
        "protocol: bad archive magic"
    );
    let packed = pack_tree(&[file("a", b"x")]).unwrap();
    let refused = unpack_tree(&packed, &[Err("path escapes".to_string())]);
    assert_eq!(refused.outcome.unwrap_err().message(), "path escapes");
    assert_eq!(
        unpack_all(&packed[..packed.len() - 1]).outcome.unwrap_err().message(),
        "protocol: truncated archive"
    );
    assert_eq!(
        unpack_file_bundle(b"ASB2\x05\0\0\0ab").unwrap_err().message(),
        "protocol: truncated file bundle manifest"
    );
    assert_eq!(
        unpack_file_bundle(b"ASF1\0\0\0\0").unwrap_err().message(),
        "protocol: bad file bundle magic"
    );
    assert_eq!(
        check_tree_tag(b"ASB2").unwrap_err().message(),
        "protocol: bad archive magic"
    );
    let mut head = b"ASB2".to_vec();
    head.extend_from_slice(&(4 * 1024 * 1024 + 1u32).to_le_bytes());
    assert_eq!(
        check_bundle_head(&head).unwrap_err().message(),
        "protocol: file manifest is too large"
    );
    assert_eq!(
        admit_entry(0, true, 1).unwrap_err().message(),
        "protocol: directory entry has payload"
    );
    assert_eq!(
        admit_entry(500 * 1024 * 1024, false, 1).unwrap_err().message(),
        "file tree exceeds remote size limit"
    );
    assert_eq!(
        check_copied(1, 2).unwrap_err().message(),
        "protocol: truncated archive payload"
    );
    assert_eq!(
        entry_header(&"x".repeat(65536), false, 0, 8).unwrap_err().message(),
        "protocol: archive path is too long"
    );
    assert_eq!(
        entry_header("a", false, 500 * 1024 * 1024 + 1, 8).unwrap_err().message(),
        "file tree exceeds remote size limit"
    );
    assert_eq!(
        validate_manifest(&[Ok("a".into())], &[Err("bad path".into())]).unwrap_err().message(),
        "bad path"
    );
    let bytes = [b'A', b'S', b'F', b'1', 1, 0, 0, 0, 1, 0, 0xff, 0, 0, 0, 0, 0, 0, 0, 0, 0];
    let message = unpack_all(&bytes).outcome.unwrap_err().message();
    assert_eq!(message, "protocol: invalid utf-8 sequence of 1 bytes from index 0");
}

#[test]
fn taking_moves_only_over_what_is_there() {
    let bytes = [1u8, 2, 3, 4];
    let mut at = 1usize;
    assert_eq!(take(&bytes, &mut at, 2).unwrap(), &[2, 3]);
    assert_eq!(at, 3);
    assert_eq!(
        take(&bytes, &mut at, 2).unwrap_err().message(),
        "protocol: truncated archive"
    );
    assert_eq!(at, 3);
    assert_eq!(take(&bytes, &mut at, 1).unwrap(), &[4]);
    assert_eq!(take(&bytes, &mut at, 0).unwrap(), &[] as &[u8]);
    at = 9;
    assert_eq!(
        take(&bytes, &mut at, 0).unwrap_err().message(),
        "protocol: truncated archive"
    );
    assert_eq!(
        take(&bytes, &mut at, usize::MAX).unwrap_err().message(),
        "protocol: archive offset overflow"
    );
    assert_eq!(at, 9);
}

#[test]
fn numbers_in_archives_are_little_endian() {
    assert_eq!(read_u16(&[1, 2]), 0x0201);
    assert_eq!(read_u32(&[1, 2, 3, 4]), 0x04030201);
    assert_eq!(read_u64(&[1, 0, 0, 0, 0, 0, 0, 2]), 0x0200000000000001);
}

#[test]
fn walking_a_tree_skips_links() {
    assert!(matches!(walk_step(NodeKind::Symlink, false), WalkStep::Skip));
    assert!(matches!(walk_step(NodeKind::Dir, true), WalkStep::Descend));
    assert!(matches!(walk_step(NodeKind::Dir, false), WalkStep::EmitDirAndDescend));
    assert!(matches!(walk_step(NodeKind::File, false), WalkStep::EmitFile));
    assert!(matches!(walk_step(NodeKind::Other, false), WalkStep::Skip));
    assert!(is_top("a.txt"));
    assert!(!is_top("a/b"));
}

#[test]
fn planner_computes_exact_chunks_and_missing_indices() {
    let planner = ResumableUploadPlanner::new(CHUNK_SIZE as u64 * 3 + 512);
    assert_eq!(planner.total_chunks, 4);

    let missing = planner.missing_chunks(&[0, 2]);
    assert_eq!(missing, vec![1, 3]);

    let missing_none = planner.missing_chunks(&[0, 1, 2, 3]);
    assert!(missing_none.is_empty());
}

#[test]
fn planner_handles_zero_length_file() {
    let planner = ResumableUploadPlanner::new(0);
    assert_eq!(planner.total_chunks, 1);
    assert_eq!(planner.missing_chunks(&[]), vec![0]);
}

#[test]
fn planner_gives_the_span_of_each_chunk() {
    let planner = ResumableUploadPlanner::new(CHUNK_SIZE as u64 * 3 + 512);
    assert_eq!(planner.chunk_span(0), (0, CHUNK_SIZE));
    assert_eq!(planner.chunk_span(3), (CHUNK_SIZE as u64 * 3, 512));
    assert_eq!(ResumableUploadPlanner::new(0).chunk_span(0), (0, 0));
    assert!(planner.plan_upload(true, &[]).is_none());
    assert_eq!(planner.plan_upload(false, &[1]).unwrap(), vec![0, 2, 3]);
}

#[test]
fn code_hash_is_case_insensitive() {
    let c = generate_code();
    assert_eq!(hash_code(&c), hash_code(&c.to_ascii_lowercase()));
    assert_eq!(c.len(), 8);
}

#[test]
fn code_hash_ignores_how_the_code_is_typed() {
    let digest = hash_code("AB3D5FGH");
    assert_eq!(hash_code("ab3d5fgh"), digest);
    assert_eq!(hash_code("aB3d5FgH"), digest);
    assert_eq!(hash_code(" \t\u{3000}ab3d5fgh\u{a0}\u{2009}\n"), digest);
    assert_ne!(hash_code("\u{200b}ab3d5fgh"), digest);
    assert_ne!(hash_code("ab3d 5fgh"), digest);
}

#[test]
fn codes_come_from_their_alphabet() {
    assert_eq!(code_of(&[0, 7, 8, 12, 23, 24, 31]), "AHJNZ29");
    assert!(generate_code().chars().all(|c| !"IO01".contains(c)));
}

#[test]
fn digests_are_exact() {
    // The SHA-256 digest of "abc".
    let abc = "ba7816bf8f01cfea414140de5dae2223b00361a396177a9cb410ff61f20015ad";
    assert_eq!(hex::encode(hash_token("abc")), abc);
    assert_eq!(hash_code(" abc "), hash_token("ABC"));
    assert_eq!(hex::encode(fingerprint_of_der(b"abc")), abc);
    let token = generate_session_token();
    assert_eq!(token.len(), 64);
    assert_ne!(token, generate_session_token());
    assert_eq!(normalize_code(" abcd2345\n"), "ABCD2345");
    assert!(looks_like_pairing_code("ABCD2345"));
    assert!(looks_like_pairing_code(" abcd2345 "));
    assert!(!looks_like_pairing_code("ABCD-345"));
    assert!(!looks_like_pairing_code("ABCD23456"));
}

fn wrapped() -> WrappedItemKey {
    WrappedItemKey { nonce: [3; 24], ciphertext: vec![4; 48] }
}

fn sealed(blob_id: [u8; 32], chunk_index: u32, plain: &[u8]) -> EncryptedChunk {
    let mut ciphertext = plain.to_vec();
    ciphertext.extend_from_slice(&[0; 16]);
    EncryptedChunk { blob_id, chunk_index, nonce: [5; 24], ciphertext }
}

fn unsealed(encoded: &[u8]) -> Result<Vec<u8>, String> {
    match decode_blob_chunk(encoded) {
        Ok((_, chunk)) => Ok(chunk.ciphertext[..chunk.ciphertext.len() - 16].to_vec()),
        Err(e) => Err(e.message()),
    }
}

fn sealed_blob(plaintext: &[u8]) -> Vec<Vec<u8>> {
    let id = *blake3::hash(plaintext).as_bytes();
    let encryptor = BlobChunkEncryptor::new(Ok(wrapped()), id).unwrap();
    let mut out = Vec::new();
    for (index, (from, to)) in encrypt_blob_chunks(plaintext.len()).unwrap().into_iter().enumerate()
    {
        let chunk = sealed(encryptor.blob_id, index as u32, &plaintext[from..to]);
        out.push(encryptor.encrypt(Ok(chunk)).unwrap());
    }
    out
}

#[test]
fn pack_roundtrip() {
    let meta = br#"{"k":1}"#.to_vec();
    let body = b"hello".to_vec();
    assert!(is_inline(Some(b"hello")));
    let pkg = pack(Ok(meta.clone()), Some(Ok(body.clone()))).unwrap();
    let serialised = serde_json::to_vec(&(&pkg.meta, &pkg.body, pkg.chunk_count)).unwrap();
    let hex = encode_package(&serialised);
    let back = decode_package(&hex).unwrap();
    let (m, b, count): (Vec<u8>, Option<Vec<u8>>, u32) = serde_json::from_slice(&back).unwrap();
    assert_eq!(m, meta);
    assert_eq!(b.unwrap(), body);
    assert_eq!(count, 0);
}

#[test]
fn packages_open_as_they_were_packed() {
    for len in [0, INLINE_LIMIT, INLINE_LIMIT + 1] {
        let payload = vec![7u8; len];
        let body = if is_inline(Some(&payload)) { Some(Ok(payload.clone())) } else { None };
        let pkg = pack(Ok(b"meta".to_vec()), body).unwrap();
        assert_eq!(unpack_meta(Ok(pkg.meta)).unwrap(), b"meta".to_vec());
        let opened = unpack_body(pkg.body.map(Ok)).unwrap();
        assert_eq!(opened, if len <= 262144 { Some(payload) } else { None });
    }
    assert!(!is_inline(None));
    assert_eq!(unpack_body(None).unwrap(), None);
}

#[test]
fn package_errors_are_handed_on() {
    let sealed: Result<Vec<u8>, String> = Err("no key".into());
    assert!(matches!(pack(sealed, None), Err(SyncError::Failed(m)) if m == "no key"));
    assert_eq!(
        decode_package("abc").unwrap_err().message(),
        "protocol: Odd number of digits"
    );
    assert_eq!(encode_package(&[0, 255]), "00ff");
    assert_eq!(unpack_meta(Ok(vec![1])).unwrap(), vec![1]);
    assert_eq!(unpack_meta(Err("no key".into())).unwrap_err().message(), "no key");
    assert!(unpack_body(None).unwrap().is_none());
    assert_eq!(unpack_body(Some(Ok(vec![2]))).unwrap(), Some(vec![2]));
    assert_eq!(unpack_body(Some(Err("no key".into()))).unwrap_err().message(), "no key");
    assert!(!is_inline(None));
    assert!(is_inline(Some(&vec![0; 256 * 1024])));
    assert!(!is_inline(Some(&vec![0; 256 * 1024 + 1])));
}

#[test]
fn multi_megabyte_blob_roundtrip_uses_bounded_chunks() {
    let plaintext = vec![0x5a; CHUNK_SIZE * 2 + 17];

    let chunks = sealed_blob(&plaintext);

    assert_eq!(chunks.len(), 3);
    assert!(chunks.iter().all(|chunk| chunk.len() <= CHUNK_SIZE + BLOB_CHUNK_HEADER + 16));
    let opened: Vec<Result<Vec<u8>, String>> = chunks.iter().map(|c| unsealed(c)).collect();
    assert_eq!(decrypt_blob_chunks(&chunks, opened, &[0; 32]).unwrap(), plaintext);
}

#[test]
fn blob_rejects_reordered_chunks() {
    let plaintext = vec![0x3c; CHUNK_SIZE + 1];
    let mut chunks = sealed_blob(&plaintext);
    chunks.swap(0, 1);

    let opened: Vec<Result<Vec<u8>, String>> = chunks.iter().map(|c| unsealed(c)).collect();
    assert_eq!(
        decrypt_blob_chunks(&chunks, opened, &[0; 32]).unwrap_err().message(),
        "protocol: blob chunk index is not contiguous"
    );
}

#[test]
fn chunk_errors_tell_what_is_wrong() {
    let encoded = encode_blob_chunk(&wrapped(), &sealed([1; 32], 0, b"x")).unwrap();
    assert_eq!(encoded.len(), BLOB_CHUNK_HEADER + 17);
    let (w, c) = decode_blob_chunk(&encoded).unwrap();
    assert_eq!(w.ciphertext, vec![4; 48]);
    assert_eq!(c.nonce, [5; 24]);
    assert_eq!(
        decode_blob_chunk(&encoded[..10]).unwrap_err().message(),
        "protocol: invalid encrypted blob chunk"
    );
    assert_eq!(
        decode_blob_chunk(&encoded[..encoded.len() - 1]).unwrap_err().message(),
        "protocol: encrypted blob chunk length mismatch"
    );
    let short = WrappedItemKey { nonce: [0; 24], ciphertext: vec![0; 47] };
    assert_eq!(
        encode_blob_chunk(&short, &sealed([1; 32], 0, b"x")).unwrap_err().message(),
        "protocol: unexpected wrapped item key length"
    );
    let other = encode_blob_chunk(&wrapped(), &sealed([2; 32], 1, b"y")).unwrap();
    let both = vec![encoded.clone(), other];
    let opened = vec![Ok(b"x".to_vec()), Ok(b"y".to_vec())];
    assert_eq!(
        decrypt_blob_chunks(&both, opened, &[1; 32]).unwrap_err().message(),
        "protocol: blob id changed between chunks"
    );
    let one = vec![encoded];
    assert_eq!(
        decrypt_blob_chunks(&one, vec![Ok(b"x".to_vec())], &[1; 32]).unwrap(),
        b"x".to_vec()
    );
    assert_eq!(
        decrypt_blob_chunks(&one, vec![Ok(b"x".to_vec())], &[9; 32]).unwrap_err().message(),
        "blob plaintext hash mismatch"
    );
    assert_eq!(
        decrypt_blob_chunks(&one, vec![Err("bad tag".into())], &[1; 32]).unwrap_err().message(),
        "bad tag"
    );
    assert_eq!(
        decrypt_blob_chunks(&[], Vec::new(), &[1; 32]).unwrap_err().message(),
        "protocol: encrypted blob has no chunks"
    );
    assert_eq!(plaintext_hash(b"abc"), *blake3::hash(b"abc").as_bytes());
    let mut decryptor = BlobChunkDecryptor::default();
    assert_eq!(decryptor.plaintext_hash(), *blake3::hash(b"").as_bytes());
    decryptor.decrypt_end(Ok(b"abc".to_vec())).unwrap();
    assert_eq!(decryptor.plaintext_hash(), *blake3::hash(b"abc").as_bytes());
    assert!(decryptor.finish(&[0; 32]).is_err());
}

#[test]
fn frames_carry_their_length() {
    let frame = write_envelope(b"abc").unwrap();
    assert_eq!(frame, vec![0, 0, 0, 3, b'a', b'b', b'c']);
    assert_eq!(read_envelope(&frame[..4]).unwrap(), 3);
    assert_eq!(
        write_envelope(&vec![0; MAX_FRAME + 1]).unwrap_err().message(),
        "protocol: frame too large"
    );
    assert_eq!(
        read_envelope(&[0, 0, 0, 0]).unwrap_err().message(),
        "protocol: invalid frame length 0"
    );
    assert_eq!(
        read_envelope(&[255, 255, 255, 255]).unwrap_err().message(),
        "protocol: invalid frame length 4294967295"
    );
}

#[test]
fn chunk_streams_are_read_back() {
    let chunks = vec![b"one".to_vec(), b"three".to_vec()];
    let stream = send_chunks(&chunks);
    assert_eq!(stream.len(), 4 + 3 + 4 + 5 + 4);
    assert_eq!(recv_chunks(&stream).unwrap(), chunks);
    assert_eq!(
        recv_chunks(&stream[..stream.len() - 1]).unwrap_err().message(),
        "io: unexpected end of file"
    );
    assert_eq!(recv_chunks(&[0, 0, 0, 2, 7]).unwrap_err().message(), "io: early eof");
    assert_eq!(
        recv_chunks(&[255, 255, 255, 255]).unwrap_err().message(),
        "protocol: chunk too large"
    );
    assert_eq!(recv_chunk_len(0).unwrap(), None);
    assert_eq!(recv_chunk_len(5).unwrap(), Some(5));
}

fn offer() -> ItemOffer {
    ItemOffer {
        item_id: ContentId { raw: 9 },
        kind: "TEXT".to_string(),
        logical_size: 1,
        payload_size: 1,
        dedup_tag: vec![1; 32],
        flags: 0,
    }
}

fn lan_item() -> LanItem {
    LanItem { offer: offer(), metadata_json: "{}".to_string(), payload_len: 1 }
}

#[test]
fn envelope_has_the_version_of_the_protocol() {
    let env =
        Envelope::new(DeviceId { raw: 1 }, MessageBody::Ping { nonce: 7 }, "m".to_string(), 5);
    assert_eq!(env.protocol_version, PROTOCOL_VERSION);
    assert_eq!(env.timestamp_ms, 5);
    assert!(env.request_id.is_none());
}

#[test]
fn lan_items_are_answered() {
    let wire = send_lan_item(b"{}", b"data").unwrap();
    assert_eq!(wire, b"\0\0\0\x02{}\0\0\0\0\0\0\0\x04data".to_vec());
    let env = Envelope::new(DeviceId { raw: 4 }, MessageBody::LanItem(lan_item()), "m".into(), 0);
    let (from, item) = recv_lan_item(env).unwrap();
    assert_eq!(from, DeviceId { raw: 4 });
    let ack = lan_item_ack(&item);
    assert!(send_lan_item_outcome(&ack).unwrap());
    let refused = MessageBody::ItemAck(ItemAck {
        item_id: ContentId { raw: 9 },
        accepted: false,
        reason: None,
    });
    assert!(!send_lan_item_outcome(&refused).unwrap());
    assert_eq!(
        send_lan_item_outcome(&MessageBody::Pong { nonce: 1 }).unwrap_err().message(),
        "protocol: expected ITEM_ACK"
    );
    let ping = Envelope::new(DeviceId { raw: 4 }, MessageBody::Ping { nonce: 1 }, "m".into(), 0);
    assert_eq!(recv_lan_item(ping).unwrap_err().message(), "protocol: expected LAN_ITEM");
    assert_eq!(check_lan_payload(512 * 1024 * 1024).unwrap(), 536870912);
    assert_eq!(
        check_lan_payload(512 * 1024 * 1024 + 1).unwrap_err().message(),
        "protocol: lan payload too large"
    );
}

#[test]
fn session_offers_what_policy_allows() {
    let session =
        SyncSession { local_device: DeviceId { raw: 1 }, lan_ready: false, hub_ready: true };
    assert_eq!(session.route(), Some(Route::HubRelay));
    assert!(session.may_offer(Ok(ContentKind::Text), Ok(())).is_ok());
    assert_eq!(
        session.may_offer(Err("unknown".into()), Ok(())).unwrap_err().message(),
        "protocol: unknown"
    );
    assert_eq!(
        session.may_offer(Ok(ContentKind::Text), Err("too large".into())).unwrap_err().message(),
        "too large"
    );
    let env = session.offer_envelope(offer(), "m".into(), 3);
    assert!(matches!(env.body, MessageBody::ItemOffer(_)));
    assert_eq!(connect_timeout(), lan_timeout());
}

#[test]
fn transport_errors_follow_sync_errors() {
    assert!(matches!(
        TransportError::from_sync(SyncError::NotConnected),
        TransportError::NotConnected
    ));
    assert!(matches!(
        TransportError::from_sync(SyncError::Handshake("x".into())),
        TransportError::Handshake
    ));
    assert!(matches!(TransportError::from_sync(SyncError::Timeout), TransportError::Timeout));
    match TransportError::from_sync(SyncError::Tls("bad".into())) {
        TransportError::Failed(m) => assert_eq!(m, "tls: bad"),
        _ => panic!("expected a failure"),
    }
}

#[test]
fn error_texts_are_fixed() {
    assert_eq!(SyncError::NotConnected.message(), "not connected");
    assert_eq!(SyncError::Handshake("x".into()).message(), "handshake failed: x");
    assert_eq!(SyncError::Timeout.message(), "timeout");
    assert_eq!(SyncError::Io("x".into()).message(), "io: x");
    assert_eq!(SyncError::Failed("x".into()).message(), "x");
}

#[test]
fn hub_addresses() {
    let client = HubClient::new("https://hub.example:8443//");
    assert_eq!(client.url("/api"), "https://hub.example:8443/api");
    assert!(matches!(client.connect_ws(), Err(SyncError::NotConnected)));
    let client = client.with_token("a b".to_string());
    assert_eq!(
        client.connect_ws().unwrap(),
        "wss://hub.example:8443/ws/v1/device?token=a+b"
    );
    assert_eq!(client.pin, None);
    let pinned = HubClient::with_pin("http://hub/", Some("ab")).with_token("t".to_string());
    assert_eq!((pinned.base.as_str(), pinned.pin.as_deref()), ("http://hub", Some("ab")));
    let plain = HubClient::new("http://hub/").with_token("t".to_string());
    assert_eq!(plain.connect_ws().unwrap(), "ws://hub/ws/v1/device?token=t");
    let bad = HubClient::new("no address").with_token("t".to_string());
    assert_eq!(bad.connect_ws().unwrap_err().message(), "relative URL without a base");
    assert_eq!(history_path(None, 50), "/api/v1/history?limit=50");
    assert_eq!(history_path(Some("5:aa"), 50), "/api/v1/history?limit=50&cursor=5:aa");
    assert_eq!(history_item_path("aa"), "/api/v1/history/aa");
    assert_eq!(device_path("dd"), "/api/v1/devices/dd");
    assert_eq!(chunk_path("b", 3), "/api/v1/blobs/b/chunks/3");
    assert_eq!(commit_path("b"), "/api/v1/blobs/b/commit");
}

#[test]
fn hub_answers_are_judged() {
    assert!(empty_outcome(204, "204 No Content").is_ok());
    assert_eq!(
        empty_outcome(404, "404 Not Found").unwrap_err().message(),
        "404 Not Found"
    );
    assert!(json_outcome(200, "200 OK", "/p").is_ok());
    assert_eq!(
        json_outcome(401, "401 Unauthorized", "/p").unwrap_err().message(),
        "401 Unauthorized /p"
    );
    assert!(recv_control(ControlFrame::Text).unwrap());
    assert!(!recv_control(ControlFrame::Close).unwrap());
    assert!(!recv_control(ControlFrame::End).unwrap());
    assert!(!recv_control(ControlFrame::Other).unwrap());
    assert_eq!(recv_control(ControlFrame::Failed("x".into())).unwrap_err().message(), "x");
}

#[test]
fn certificates_are_pinned() {
    let cert = DeviceCert::generate("desk").unwrap();
    assert!(cert.cert_pem.starts_with("-----BEGIN CERTIFICATE-----"));
    assert!(cert.key_pem.contains("PRIVATE KEY"));
    let ders: Vec<_> = rustls_pemfile::certs(&mut cert.cert_pem.as_bytes()).collect();
    let der = ders[0].as_ref().unwrap();
    assert_eq!(fingerprint_of_der(der.as_ref()), cert.fingerprint);
    let key = rcgen::KeyPair::from_pem(&cert.key_pem).unwrap();
    let public = key.public_key_raw();
    assert!(der.as_ref().windows(public.len()).any(|part| part == public));
    assert_eq!(cert.fingerprint_hex(), hex::encode(cert.fingerprint));
    assert_ne!(cert.fingerprint, DeviceCert::generate("desk").unwrap().fingerprint);
    let made = SelfSigned { der: b"abc".to_vec(), cert_pem: "c".into(), key_pem: "k".into() };
    let cert = DeviceCert::from_generated(Ok(made)).unwrap();
    assert!(verify_pinned(b"abc", &cert.fingerprint).is_ok());
    assert!(verify_pinned(b"abd", &cert.fingerprint).is_err());
    assert!(DeviceCert::from_generated(Err("no".into())).is_err());
    assert_eq!(pick_key(vec![vec![1], vec![2]]).unwrap(), vec![2]);
    assert_eq!(pick_key(Vec::new()).unwrap_err().message(), "tls: no key");
    assert_eq!(share_cert_arc(cert).cert_pem, "c");
}

#[test]
fn certificates_are_read_from_their_texts() {
    let cert = DeviceCert::generate("desk").unwrap();
    let (key, certs) = key_and_certs(&cert).unwrap();
    assert_eq!(certs.len(), 1);
    assert_eq!(fingerprint_of_der(&certs[0]), cert.fingerprint);
    assert_eq!(fingerprint_text(&certs[0]), cert.fingerprint_hex());
    let pair = rcgen::KeyPair::from_pem(&cert.key_pem).unwrap();
    assert_eq!(key, pair.serialize_der());
    let loaded = DeviceCert::from_pem(cert.cert_pem.clone(), cert.key_pem.clone()).unwrap();
    assert_eq!(loaded.fingerprint, cert.fingerprint);
    assert_eq!(loaded.key_pem, cert.key_pem);
    let served = server_config(&cert).unwrap();
    assert_eq!((served.key, served.certs), (key.clone(), certs.clone()));
    let client = client_config_pinned(cert.fingerprint, &cert).unwrap();
    assert!(client.verify_server_cert(&certs[0]).is_ok());
    assert!(client.verify_server_cert(b"other").is_err());
    assert_eq!((client.key, client.certs), (key.clone(), certs.clone()));
    let other = DeviceCert::generate("lamp").unwrap();
    let several = DeviceCert {
        cert_pem: format!("{}{}", other.cert_pem, cert.cert_pem),
        key_pem: format!("{}{}", other.key_pem, cert.key_pem),
        fingerprint: other.fingerprint,
    };
    let (last, both) = key_and_certs(&several).unwrap();
    assert_eq!(last, key);
    assert_eq!(both.len(), 2);
    let loaded = DeviceCert::from_pem(several.cert_pem.clone(), several.key_pem.clone()).unwrap();
    assert_eq!(loaded.fingerprint, other.fingerprint);
    let keyless = DeviceCert {
        cert_pem: cert.cert_pem.clone(),
        key_pem: cert.cert_pem.clone(),
        fingerprint: cert.fingerprint,
    };
    assert_eq!(key_and_certs(&keyless).unwrap_err().message(), "tls: no key");
    assert_eq!(
        DeviceCert::from_pem(cert.key_pem.clone(), String::new()).unwrap_err().message(),
        "tls: no certificate"
    );
    let broken = DeviceCert {
        cert_pem: "-----BEGIN CERTIFICATE-----\n".into(),
        key_pem: cert.key_pem.clone(),
        fingerprint: cert.fingerprint,
    };
    assert!(matches!(
        server_config(&broken),
        Err(SyncError::Tls(m)) if m.contains("section end")
    ));
    assert!(DeviceCert::from_pem(broken.cert_pem, broken.key_pem).is_err());
}

#[test]
fn announced_devices_are_understood() {
    let made = SelfSigned { der: b"abc".to_vec(), cert_pem: "c".into(), key_pem: "k".into() };
    let cert = DeviceCert::from_generated(Ok(made)).unwrap();
    let said = announce("0123456789", &cert, 47820);
    assert_eq!(said.instance, "01234567");
    assert_eq!(said.hostname, "0123456789.local.");
    assert_eq!(said.port, "47820");
    let record = MdnsRecord {
        device_id: Some(DeviceId { raw: 1 }),
        port: Some(said.port),
        fp: Some(said.fp),
        service_port: 1,
        addresses: vec![IpText::V4("10.0.0.2".into()), IpText::V6("fe80::1".into())],
    };
    let peer = parse_mdns_device(&record).unwrap();
    assert_eq!(peer.port, 47820);
    assert_eq!(peer.fingerprint, Some(cert.fingerprint));
    assert_eq!(
        peer.addresses,
        vec!["10.0.0.2:47820".to_string(), "[fe80::1]:47820".to_string()]
    );
    let unknown = MdnsRecord {
        device_id: None,
        port: None,
        fp: None,
        service_port: 1,
        addresses: Vec::new(),
    };
    assert!(parse_mdns_device(&unknown).is_none());
    assert_eq!(mdns_name(), "_asterism._tcp.local");
    assert_eq!(service_type(), "_asterism._tcp.local.");
}

#[test]
fn ports_and_fingerprints_are_read() {
    assert_eq!(parse_port("65535"), Some(65535));
    assert_eq!(parse_port("65536"), None);
    assert_eq!(parse_port(""), None);
    assert_eq!(parse_fp(&"0a".repeat(32)), Some([10; 32]));
    assert_eq!(parse_fp("0a"), None);
    assert_eq!(parse_fp(&"zz".repeat(32)), None);
    assert_eq!(short_id("abc"), "abc");
    assert_eq!(endpoint(&IpText::V4("1.2.3.4".into()), 5), "1.2.3.4:5");
    assert_eq!(endpoints(&[IpText::V6("::1".into())], 5), vec!["[::1]:5".to_string()]);
}
