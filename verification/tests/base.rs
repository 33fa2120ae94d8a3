use asterism::bytes::{push_all, push_be, push_le, read_be, read_le};
use asterism::clock::{epoch_ms, now_ms};
use asterism::content::{bytes_of_id, id_of_bytes, tag_of};
use asterism::desktop::preview::swap_red_blue;
use asterism::desktop::transfer::{publish_dto, remote_spec};
use asterism::content::{
    ContentFlags, ContentId, ContentItem, ContentKind, ContentStatus, DeviceId, ItemMetadata,
    PayloadRef,
};
use asterism::order::{in_order, sort_texts};
use asterism::path::join_path;
use asterism::text::{
    char_is_white_space,
    decimal_text, ends_with, find, join, parse_i64, replace, same_text, split, starts_with,
    to_lower, to_upper, trim, trim_end_matching, trim_start_matching,
};

#[test]
fn numbers_are_read_back() {
    let mut out = Vec::new();
    push_le(&mut out, 0x0102, 4);
    assert_eq!(out, vec![2, 1, 0, 0]);
    assert_eq!(read_le(&out, 0, 4), 0x0102);
    push_be(&mut out, 0x0102, 2);
    assert_eq!(&out[4..], &[1, 2]);
    assert_eq!(read_be(&out, 4, 2), 0x0102);
    push_all(&mut out, b"x");
    assert_eq!(out.len(), 7);
}

#[test]
fn identities_are_read_back() {
    let raw = 0x000102030405060708090a0b0c0d0e0fu128;
    let bytes = bytes_of_id(raw);
    assert_eq!(bytes, (0u8..16).collect::<Vec<u8>>());
    assert_eq!(id_of_bytes(&bytes), raw);
    assert_eq!(tag_of(&[1; 32]), [1; 32]);
    assert_eq!(tag_of(&[1; 31]), [0; 32]);
}

#[test]
fn swapping_twice_changes_nothing() {
    let rgba = vec![1, 2, 3, 4, 5, 6, 7, 8];
    assert_eq!(swap_red_blue(&swap_red_blue(&rgba)), rgba);
}

#[test]
fn a_tag_is_the_same_after_the_hub() {
    let item = ContentItem {
        id: ContentId { raw: 1 },
        origin_device_id: DeviceId { raw: 2 },
        kind: ContentKind::Text,
        created_at_ms: 3,
        logical_size: 4,
        payload_size: 5,
        dedup_tag: [0xa7; 32],
        flags: ContentFlags::empty(),
        status: ContentStatus::Local,
        metadata: ItemMetadata::default(),
        payload_ref: PayloadRef::Inline(Vec::new()),
    };
    let dto = publish_dto(&item, DeviceId { raw: 2 }, "TEXT".into(), 0, String::new(), None);
    let spec = remote_spec(&dto, item.id, Some(ContentKind::Text));
    assert_eq!(spec.tag, [0xa7; 32]);
    assert_eq!(spec.logical_size, Some(4));
    assert_eq!(spec.payload_size, Some(5));
}

#[test]
fn texts_are_handled() {
    assert_eq!(trim(" \t a b \n"), "a b");
    assert_eq!(trim("\u{3000}x\u{a0}"), "x");
    assert_eq!(trim_end_matching("a//", '/'), "a");
    assert_eq!(trim_start_matching("//a", '/'), "a");
    assert_eq!(replace("aXbX", "X", "YY"), "aYYbYY");
    assert_eq!(replace("aaa", "aa", "b"), "ba");
    assert_eq!(split("a//b", '/'), vec!["a".to_string(), String::new(), "b".to_string()]);
    assert_eq!(join(&["a".to_string(), "b".to_string()], "|"), "a|b");
    assert_eq!(to_lower("ÄbC"), "Äbc");
    assert_eq!(to_upper("äbC"), "äBC");
    assert!(starts_with("abc", "ab") && ends_with("abc", "bc") && same_text("a", "a"));
    assert_eq!(find(&['a', 'b', 'a'], &['a'], 1), Some(2));
    assert_eq!(decimal_text(u128::MAX), u128::MAX.to_string());
    assert_eq!(parse_i64("-9223372036854775808"), Some(i64::MIN));
    assert_eq!(parse_i64("+7"), Some(7));
    assert_eq!(parse_i64("9223372036854775808"), None);
    assert_eq!(parse_i64("-"), None);
}

#[test]
fn texts_are_ordered_by_their_bytes() {
    assert!(in_order("a", "b") && !in_order("b", "a") && in_order("a", "aa"));
    let sorted = sort_texts(vec!["b".to_string(), "ä".to_string(), "B".to_string()]);
    assert_eq!(sorted, vec!["B".to_string(), "b".to_string(), "ä".to_string()]);
}

#[test]
fn paths_are_joined() {
    assert_eq!(join_path("/a", "b"), "/a/b");
    assert_eq!(join_path("/a/", "b"), "/a/b");
    assert_eq!(join_path("/a", "/b"), "/b");
}

#[test]
fn the_clock_counts_from_the_epoch() {
    assert_eq!(epoch_ms(None), 0);
    assert_eq!(epoch_ms(Some(5)), 5);
    assert!(now_ms() > 1_600_000_000_000);
}

#[test]
fn white_space_is_what_unicode_calls_so() {
    for c in '\0'..=char::MAX {
        assert_eq!(char_is_white_space(c), c.is_whitespace());
    }
}
