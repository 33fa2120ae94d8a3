//! Backup to a WebDAV folder: addresses, requests' outcomes, and listings.

use vstd::prelude::*;
use vstd::utf8::{decode_utf8, encode_utf8, valid_utf8};

use crate::base64codec::{self, base64_of};
use crate::sync::error::{failed, SyncError, SyncErrorView};
use crate::text::{
    begins_with, chars_of, contains_text, find, find_from, finishes_with, joined, lowered, occurs_at, pieces, replace,
    replaced, same_text, split, string_of_range, text_of, texts, to_lower, trim, trim_end_char, trim_end_matching,
    trim_start_char, trim_start_matching, trimmed,
};

verus! {

/// How to reach the WebDAV folder.
#[derive(Debug)]
pub struct WebdavConfig {
    pub enabled: bool,
    pub url: String,
    pub username: Option<String>,
    pub password: Option<String>,
}

/// A configured WebDAV folder.
#[derive(Debug)]
pub struct WebdavClient {
    pub base_url: String,
    pub auth_header: Option<String>,
}

/// The text that `String::from_utf8_lossy` makes of some bytes.
pub uninterp spec fn utf8_lossy(bytes: Seq<u8>) -> Seq<char>;

/// `String::from_utf8_lossy`: the text of the bytes, by its name. Valid UTF-8
/// is taken as it is; what stands for invalid bytes is left to the name.
#[verifier::external_body]
pub(crate) fn lossy_text(bytes: &[u8]) -> (r: String)
    ensures
        r@ == utf8_lossy(bytes@),
        valid_utf8(bytes@) ==> r@ == decode_utf8(bytes@),
{
    String::from_utf8_lossy(bytes).into_owned()
}

/// A byte that stands for itself in a path segment.
pub open spec fn is_unreserved(b: u8) -> bool {
    ||| 0x61 <= b <= 0x7a
    ||| 0x41 <= b <= 0x5a
    ||| 0x30 <= b <= 0x39
    ||| b == 0x2d
    ||| b == 0x5f
    ||| b == 0x2e
    ||| b == 0x7e
}

/// The capital hexadecimal digit of a value below sixteen.
pub open spec fn capital_digit(n: int) -> char {
    if n < 10 {
        (48 + n) as char
    } else {
        (55 + n) as char
    }
}

/// How one byte is written in a path segment.
pub open spec fn percent_byte(b: u8) -> Seq<char> {
    if is_unreserved(b) {
        seq![b as char]
    } else {
        seq!['%', capital_digit(b as int / 16), capital_digit(b as int % 16)]
    }
}

/// How bytes are written in a path segment.
pub open spec fn percent_bytes(b: Seq<u8>) -> Seq<char>
    decreases b.len(),
{
    if b.len() == 0 {
        Seq::empty()
    } else {
        percent_byte(b[0]) + percent_bytes(b.skip(1))
    }
}

/// A path segment with all but the unreserved bytes written as `%XX`.
pub open spec fn percent_encoded(s: Seq<char>) -> Seq<char> {
    percent_bytes(encode_utf8(s))
}

/// A path segment with all but the unreserved bytes written as `%XX`.
pub fn percent_encode_segment(s: &str) -> (r: String)
    ensures
        r@ == percent_encoded(s@),
{
    let b = s.as_bytes();
    let mut out = String::new();
    let mut i: usize = 0;
    proof {
        assert(b@.skip(0) =~= b@);
        assert(percent_bytes(b@) =~= out@ + percent_bytes(b@.skip(0)));
    }
    while i < b.len()
        invariant
            i <= b@.len(),
            percent_bytes(b@) == out@ + percent_bytes(b@.skip(i as int)),
        decreases b@.len() - i,
    {
        let ghost before = out@;
        let c: u8 = b[i];
        if (0x61 <= c && c <= 0x7a) || (0x41 <= c && c <= 0x5a) || (0x30 <= c && c <= 0x39) || c
            == 0x2d || c == 0x5f || c == 0x2e || c == 0x7e {
            out.push(c as char);
        } else {
            out.push('%');
            out.push(capital(c / 16));
            out.push(capital(c % 16));
        }
        proof {
            assert(b@.skip(i as int).skip(1) =~= b@.skip(i + 1));
            assert(out@ =~= before + percent_byte(c));
            assert(percent_bytes(b@) =~= out@ + percent_bytes(b@.skip(i + 1)));
        }
        i += 1;
    }
    assert(percent_bytes(b@) =~= out@);
    out
}

fn capital(n: u8) -> (r: char)
    requires
        n < 16,
    ensures
        r == capital_digit(n as int),
{
    if n < 10 {
        (48u8 + n) as char
    } else {
        (55u8 + n) as char
    }
}

/// The value of a hexadecimal digit of either case.
pub open spec fn digit_of(b: u8) -> Option<int> {
    if 0x30 <= b <= 0x39 {
        Some(b - 0x30)
    } else if 0x61 <= b <= 0x66 {
        Some(b - 0x57)
    } else if 0x41 <= b <= 0x46 {
        Some(b - 0x37)
    } else {
        None
    }
}

/// The byte that two characters after a `%` write: two digits, or a plus sign
/// and a digit.
pub open spec fn escaped_byte(first: u8, second: u8) -> Option<u8> {
    match digit_of(second) {
        None => None,
        Some(low) => if first == 0x2b {
            Some(low as u8)
        } else {
            match digit_of(first) {
                Some(high) => Some((16 * high + low) as u8),
                None => None,
            }
        },
    }
}

/// The bytes that a text with escapes writes.
pub open spec fn unescaped(b: Seq<u8>) -> Seq<u8>
    decreases b.len(),
{
    if b.len() == 0 {
        Seq::empty()
    } else if b[0] == 0x25 && b.len() > 2 && escaped_byte(b[1], b[2]) is Some {
        seq![escaped_byte(b[1], b[2])->0] + unescaped(b.skip(3))
    } else {
        seq![b[0]] + unescaped(b.skip(1))
    }
}

/// The text that a text with escapes writes.
pub open spec fn percent_decoded(s: Seq<char>) -> Seq<char> {
    utf8_lossy(unescaped(encode_utf8(s)))
}

fn digit_value(b: u8) -> (r: Option<u8>)
    ensures
        match digit_of(b) {
            Some(v) => r == Some(v as u8) && v < 16,
            None => r is None,
        },
{
    if 0x30 <= b && b <= 0x39 {
        Some(b - 0x30)
    } else if 0x61 <= b && b <= 0x66 {
        Some(b - 0x57)
    } else if 0x41 <= b && b <= 0x46 {
        Some(b - 0x37)
    } else {
        None
    }
}

fn escape_value(first: u8, second: u8) -> (r: Option<u8>)
    ensures
        r == escaped_byte(first, second),
{
    match digit_value(second) {
        None => None,
        Some(low) => if first == 0x2b {
            Some(low)
        } else {
            match digit_value(first) {
                Some(high) => Some(16 * high + low),
                None => None,
            }
        },
    }
}

/// The bytes that a text with escapes writes.
pub fn percent_decode_bytes(s: &str) -> (r: Vec<u8>)
    ensures
        r@ == unescaped(encode_utf8(s@)),
{
    let b = s.as_bytes();
    let mut out: Vec<u8> = Vec::new();
    let mut i: usize = 0;
    proof {
        assert(b@.skip(0) =~= b@);
        assert(unescaped(b@) =~= out@ + unescaped(b@.skip(0)));
    }
    let n: usize = b.len();
    while i < n
        invariant
            i <= n == b@.len(),
            unescaped(b@) == out@ + unescaped(b@.skip(i as int)),
        decreases n - i,
    {
        let ghost rest = b@.skip(i as int);
        let ghost before = out@;
        if b[i] == 0x25 && n - i > 2 {
            if let Some(v) = escape_value(b[i + 1], b[i + 2]) {
                out.push(v);
                proof {
                    assert(rest[1] == b@[i + 1] && rest[2] == b@[i + 2]);
                    assert(rest.skip(3) =~= b@.skip(i + 3));
                    assert(before + (seq![v] + unescaped(b@.skip(i + 3))) =~= out@ + unescaped(
                        b@.skip(i + 3),
                    ));
                }
                i += 3;
                continue ;
            }
        }
        out.push(b[i]);
        proof {
            assert(rest[0] == b@[i as int]);
            if rest.len() > 2 {
                assert(rest[1] == b@[i + 1] && rest[2] == b@[i + 2]);
            }
            assert(rest.skip(1) =~= b@.skip(i + 1));
            assert(before + (seq![b@[i as int]] + unescaped(b@.skip(i + 1))) =~= out@ + unescaped(
                b@.skip(i + 1),
            ));
        }
        i += 1;
    }
    assert(unescaped(b@) =~= out@);
    out
}

/// The text that a text with escapes writes; invalid UTF-8 is replaced.
/// Decoding an encoded segment gives the segment back.
pub fn percent_decode(s: &str) -> (r: String)
    ensures
        r@ == percent_decoded(s@),
        valid_utf8(unescaped(encode_utf8(s@))) ==> r@ == decode_utf8(unescaped(encode_utf8(s@))),
        forall|t: Seq<char>| s@ == #[trigger] percent_encoded(t) ==> r@ == t,
{
    proof {
        assert forall|t: Seq<char>| s@ == #[trigger] percent_encoded(t) implies valid_utf8(
            unescaped(encode_utf8(s@)),
        ) && decode_utf8(unescaped(encode_utf8(s@))) == t by {
            percent_decode_restores_encode(t);
        }
    }
    let bytes = percent_decode_bytes(s);
    lossy_text(bytes.as_slice())
}

/// Decoding an encoded segment gives its bytes back.
proof fn lemma_unescape(b: Seq<u8>)
    ensures
        vstd::utf8::is_ascii_chars(percent_bytes(b)),
        unescaped(encode_utf8(percent_bytes(b))) == b,
    decreases b.len(),
{
    if b.len() > 0 {
        lemma_unescape(b.skip(1));
        let head = percent_byte(b[0]);
        let tail = percent_bytes(b.skip(1));
        let all = percent_bytes(b);
        assert(vstd::utf8::is_ascii_chars(head));
        assert(vstd::utf8::is_ascii_chars(all)) by {
            assert forall|i: int| 0 <= i < all.len() implies '\0' <= #[trigger] all[i] <= '\u{7f}' by {
                if i >= head.len() {
                    assert(all[i] == tail[i - head.len()]);
                } else {
                    assert(all[i] == head[i]);
                }
            }
        }
        vstd::utf8::is_ascii_chars_encode_utf8(all);
        vstd::utf8::is_ascii_chars_encode_utf8(tail);
        let wire = encode_utf8(all);
        let rest = encode_utf8(tail);
        assert(wire.skip(head.len() as int) =~= rest) by {
            assert forall|i: int| 0 <= i < rest.len() implies wire.skip(head.len() as int)[i]
                == rest[i] by {
                assert(all[head.len() + i] == tail[i]);
            }
        }
        assert(seq![b[0]] + b.skip(1) =~= b);
        assert(all[0] == head[0]);
        if !is_unreserved(b[0]) {
            assert(all[1] == head[1] && all[2] == head[2]);
            assert(escaped_byte(wire[1], wire[2]) == Some(b[0]));
        }
    } else {
        assert(encode_utf8(Seq::<char>::empty()) =~= Seq::<u8>::empty());
    }
}

/// Decoding an encoded path segment gives the segment back, byte for byte.
pub proof fn percent_decode_restores_encode(s: Seq<char>)
    ensures
        unescaped(encode_utf8(percent_encoded(s))) == encode_utf8(s),
        valid_utf8(unescaped(encode_utf8(percent_encoded(s)))),
        decode_utf8(unescaped(encode_utf8(percent_encoded(s)))) == s,
{
    lemma_unescape(encode_utf8(s));
    vstd::utf8::encode_utf8_valid_utf8(s);
    vstd::utf8::encode_utf8_decode_utf8(s);
}

/// The positions that a search finds are at or after its start.
pub proof fn lemma_find_at_or_after(s: Seq<char>, pat: Seq<char>, from: int)
    ensures
        find_from(s, pat, from) matches Some(i) ==> from <= i && i + pat.len() <= s.len() && 0 <= i,
    decreases s.len() + 1 - from,
{
    if 0 <= from && from + pat.len() <= s.len() && !crate::text::occurs_at(s, pat, from) {
        lemma_find_at_or_after(s, pat, from + 1);
    }
}

/// Whether the inside of a tag, in small letters, opens an `href` element. A tag
/// that begins with a slash closes one.
pub open spec fn opens_href(tag: Seq<char>) -> bool {
    tag == "href"@ || (finishes_with(tag, ":href"@) && !begins_with(tag, "/"@))
}

/// The contents of the `href` elements from `pos` on, without surrounding white
/// space; empty ones are left out.
pub open spec fn hrefs_from(xml: Seq<char>, pos: int) -> Seq<Seq<char>>
    decreases xml.len() - pos,
    via hrefs_from_decreases
{
    let low = lowered(xml);
    match find_from(low, "<"@, pos) {
        None => Seq::empty(),
        Some(open) => match find_from(low, ">"@, open) {
            None => Seq::empty(),
            Some(end) => if opens_href(low.subrange(open + 1, end)) {
                match find_from(low, "</"@, end + 1) {
                    None => hrefs_from(xml, end + 1),
                    Some(close) => {
                        let value = trimmed(xml.subrange(end + 1, close));
                        if value.len() == 0 {
                            hrefs_from(xml, close)
                        } else {
                            seq![value] + hrefs_from(xml, close)
                        }
                    },
                }
            } else {
                hrefs_from(xml, end + 1)
            },
        },
    }
}

#[via_fn]
proof fn hrefs_from_decreases(xml: Seq<char>, pos: int) {
    let low = lowered(xml);
    reveal_strlit("<");
    reveal_strlit(">");
    reveal_strlit("</");
    lemma_find_at_or_after(low, "<"@, pos);
    if let Some(open) = find_from(low, "<"@, pos) {
        lemma_find_at_or_after(low, ">"@, open);
        if let Some(end) = find_from(low, ">"@, open) {
            lemma_find_at_or_after(low, "</"@, end + 1);
        }
    }
}

/// The contents of the `href` elements of a listing.
pub fn extract_hrefs(xml: &str) -> (r: Vec<String>)
    ensures
        texts(r@) == hrefs_from(xml@, 0),
{
    let cs = chars_of(xml);
    let lower = to_lower(xml);
    let low = chars_of(lower.as_str());
    let lt = chars_of("<");
    let gt = chars_of(">");
    let closing = chars_of("</");
    let mut out: Vec<String> = Vec::new();
    let mut pos: usize = 0;
    proof {
        reveal_strlit("<");
        reveal_strlit(">");
        reveal_strlit("</");
        assert(texts(out@) + hrefs_from(xml@, 0) =~= hrefs_from(xml@, 0));
    }
    let n: usize = cs.len();
    loop
        invariant
            cs@ == xml@,
            low@ == lowered(xml@),
            n == cs@.len(),
            pos <= n,
            lt@ == "<"@,
            gt@ == ">"@,
            closing@ == "</"@,
            lt@.len() == 1,
            gt@.len() == 1,
            closing@.len() == 2,
            hrefs_from(xml@, 0) == texts(out@) + hrefs_from(xml@, pos as int),
        decreases n - pos,
    {
        let ghost before = texts(out@);
        let open = match find(low.as_slice(), lt.as_slice(), pos) {
            Some(i) => i,
            None => {
                assert(before + hrefs_from(xml@, pos as int) =~= before);
                return out;
            },
        };
        let end = match find(low.as_slice(), gt.as_slice(), open) {
            Some(i) => i,
            None => {
                assert(before + hrefs_from(xml@, pos as int) =~= before);
                return out;
            },
        };
        proof {
            reveal_strlit("<");
            reveal_strlit(">");
            lemma_found(low@, "<"@, pos as int);
            lemma_found(low@, ">"@, open as int);
            assert(low@[open as int] == '<') by {
                assert(low@.subrange(open as int, open + 1)[0] == "<"@[0]);
            }
            assert(low@[end as int] == '>') by {
                assert(low@.subrange(end as int, end + 1)[0] == ">"@[0]);
            }
            assert(open < end);
        }
        let tag = string_of_range(low.as_slice(), open + 1, end);
        if same_text(tag.as_str(), "href") || (crate::text::ends_with(tag.as_str(), ":href")
            && !crate::text::starts_with(tag.as_str(), "/")) {
            if let Some(close) = find(low.as_slice(), closing.as_slice(), end + 1) {
                let raw = string_of_range(cs.as_slice(), end + 1, close);
                let value = trim(raw.as_str());
                if !value.as_str().is_empty() {
                    let ghost v = value@;
                    out.push(value);
                    proof {
                        assert(texts(out@) =~= before.push(v));
                        assert(before + (seq![v] + hrefs_from(xml@, close as int)) =~= texts(out@)
                            + hrefs_from(xml@, close as int));
                    }
                }
                pos = close;
                continue ;
            }
        }
        pos = end + 1;
    }
}

/// What a search finds is an occurrence.
proof fn lemma_found(s: Seq<char>, pat: Seq<char>, from: int)
    ensures
        find_from(s, pat, from) matches Some(i) ==> crate::text::occurs_at(s, pat, i),
    decreases s.len() + 1 - from,
{
    if 0 <= from && from + pat.len() <= s.len() && !crate::text::occurs_at(s, pat, from) {
        lemma_found(s, pat, from + 1);
    }
}

/// A text with the five XML entities replaced, one after the other.
pub open spec fn entities_decoded(s: Seq<char>) -> Seq<char> {
    replaced(
        replaced(
            replaced(
                replaced(replaced(s, "&amp;"@, "&"@), "&lt;"@, "<"@),
                "&gt;"@,
                ">"@,
            ),
            "&quot;"@,
            "\""@,
        ),
        "&apos;"@,
        "'"@,
    )
}

/// A text with the five XML entities replaced, one after the other.
pub fn decode_xml_entities(s: &str) -> (r: String)
    ensures
        r@ == entities_decoded(s@),
{
    proof {
        reveal_strlit("&amp;");
        reveal_strlit("&lt;");
        reveal_strlit("&gt;");
        reveal_strlit("&quot;");
        reveal_strlit("&apos;");
    }
    let a = replace(s, "&amp;", "&");
    let b = replace(a.as_str(), "&lt;", "<");
    let c = replace(b.as_str(), "&gt;", ">");
    let d = replace(c.as_str(), "&quot;", "\"");
    replace(d.as_str(), "&apos;", "'")
}

/// The last piece of a path without its trailing separators.
pub open spec fn last_segment(s: Seq<char>) -> Seq<char> {
    pieces(trim_end_char(s, '/'), '/').last()
}

/// The last piece of a path without its trailing separators.
pub fn file_name(s: &str) -> (r: String)
    ensures
        r@ == last_segment(s@),
{
    let clean = trim_end_matching(s, '/');
    let mut parts = split(clean.as_str(), '/');
    let ghost all = parts@;
    proof {
        assert(texts(all).last() == all.last()@);
    }
    match parts.pop() {
        Some(last) => last,
        None => String::new(),
    }
}

/// The name that an `href` of a listing stands for.
pub open spec fn listed_name(href: Seq<char>) -> Seq<char> {
    last_segment(percent_decoded(entities_decoded(href)))
}

/// The names that the first entries of a listing give: each once, without the
/// listed folder itself and without empty names.
pub open spec fn names_listed(hrefs: Seq<Seq<char>>, folder: Seq<char>) -> Seq<Seq<char>>
    decreases hrefs.len(),
{
    if hrefs.len() == 0 {
        Seq::empty()
    } else {
        let before = names_listed(hrefs.drop_last(), folder);
        let name = listed_name(hrefs.last());
        if name.len() == 0 || name == folder || before.contains(name) {
            before
        } else {
            before.push(name)
        }
    }
}

/// A listing has no name twice, none that is empty, and not the folder itself.
pub proof fn listing_is_clean(hrefs: Seq<Seq<char>>, folder: Seq<char>)
    ensures
        names_listed(hrefs, folder).no_duplicates(),
        forall|i: int|
            0 <= i < names_listed(hrefs, folder).len() ==> (#[trigger] names_listed(
                hrefs,
                folder,
            )[i]).len() > 0 && names_listed(hrefs, folder)[i] != folder,
    decreases hrefs.len(),
{
    if hrefs.len() > 0 {
        let before = names_listed(hrefs.drop_last(), folder);
        listing_is_clean(hrefs.drop_last(), folder);
        let all = names_listed(hrefs, folder);
        assert forall|i: int, j: int| 0 <= i < all.len() && 0 <= j < all.len() && i != j implies all[i]
            != all[j] by {
            if i < before.len() && j < before.len() {
                assert(all[i] == before[i] && all[j] == before[j]);
            } else if i < before.len() {
                assert(before.contains(before[i]));
            } else {
                assert(before.contains(before[j]));
            }
        }
        assert forall|i: int| 0 <= i < all.len() implies (#[trigger] all[i]).len() > 0 && all[i]
            != folder by {
            if i < before.len() {
                assert(all[i] == before[i]);
            }
        }
    }
}

/// The names in a listing of the folder `path`.
pub fn list_names(path: &str, xml: &str) -> (r: Vec<String>)
    ensures
        texts(r@) == names_listed(
            hrefs_from(xml@, 0),
            last_segment(trim_start_char(path@, '/')),
        ),
{
    let relative = trim_start_matching(path, '/');
    let folder = file_name(relative.as_str());
    let hrefs = extract_hrefs(xml);
    let ghost all = texts(hrefs@);
    let mut out: Vec<String> = Vec::new();
    let mut i: usize = 0;
    assert(texts(out@) =~= names_listed(all.take(0), folder@));
    while i < hrefs.len()
        invariant
            i <= hrefs@.len(),
            all == texts(hrefs@),
            texts(out@) == names_listed(all.take(i as int), folder@),
        decreases hrefs@.len() - i,
    {
        proof {
            assert(all.take(i + 1).drop_last() =~= all.take(i as int));
            assert(all.take(i + 1).last() == hrefs@[i as int]@);
        }
        let decoded = decode_xml_entities(hrefs[i].as_str());
        let plain = percent_decode(decoded.as_str());
        let name = file_name(plain.as_str());
        if !name.as_str().is_empty() && !same_text(name.as_str(), folder.as_str()) && !contains_text(
            out.as_slice(),
            name.as_str(),
        ) {
            let ghost before = texts(out@);
            let ghost n = name@;
            out.push(name);
            assert(texts(out@) =~= before.push(n));
        }
        i += 1;
    }
    assert(all.take(i as int) =~= all);
    out
}

/// The address of the folder: the configured one without white space around it
/// and without one trailing separator.
pub open spec fn normal_url(url: Seq<char>) -> Seq<char> {
    let t = trimmed(url);
    if t.len() > 0 && t.last() == '/' {
        t.drop_last()
    } else {
        t
    }
}

/// The value of the authorization header, if a user name and a password are set.
pub open spec fn authorization(username: Option<Seq<char>>, password: Option<Seq<char>>) -> Option<
    Seq<char>,
> {
    if username is Some && password is Some && username->0.len() > 0 {
        Some("Basic "@ + base64_of(encode_utf8(username->0 + seq![':'] + password->0)))
    } else {
        None
    }
}

/// The address of a path in the folder at `base`.
pub open spec fn address(base: Seq<char>, path: Seq<char>) -> Seq<char> {
    let clean = trim_start_char(path, '/');
    if clean.len() == 0 {
        base
    } else {
        base + seq!['/'] + joined(
            pieces(clean, '/').map_values(|s: Seq<char>| percent_encoded(s)),
            "/"@,
        )
    }
}

/// An address with a separator at its end.
pub open spec fn as_collection(url: Seq<char>) -> Seq<char> {
    if url.len() > 0 && url.last() == '/' {
        url
    } else {
        url.push('/')
    }
}

impl WebdavClient {
    /// A client for a configured folder, which must have an address.
    pub fn new(config: &WebdavConfig) -> (r: Result<WebdavClient, SyncError>)
        ensures
            match r {
                Ok(c) => {
                    &&& normal_url(config.url@).len() > 0
                    &&& c.base_url@ == normal_url(config.url@)
                    &&& text_of(c.auth_header) == authorization(
                        text_of(config.username),
                        text_of(config.password),
                    )
                },
                Err(e) => {
                    &&& normal_url(config.url@).len() == 0
                    &&& e@ == SyncErrorView::Failed("empty WebDAV url"@)
                },
            },
    {
        let clean = trim(config.url.as_str());
        let cs = chars_of(clean.as_str());
        let mut n: usize = cs.len();
        if n > 0 && cs[n - 1] == '/' {
            n -= 1;
        }
        let base_url = string_of_range(cs.as_slice(), 0, n);
        proof {
            assert(base_url@ =~= normal_url(config.url@));
        }
        if n == 0 {
            return Err(failed("empty WebDAV url"));
        }
        let auth_header = match (&config.username, &config.password) {
            (Some(u), Some(p)) => if !u.as_str().is_empty() {
                let mut cred = u.clone();
                cred.push(':');
                cred.push_str(p.as_str());
                let mut value = "Basic ".to_owned();
                let encoded = base64codec::encode(cred.as_str().as_bytes());
                value.push_str(encoded.as_str());
                assert(cred@ =~= u@ + seq![':'] + p@);
                Some(value)
            } else {
                None
            },
            _ => None,
        };
        Ok(WebdavClient { base_url, auth_header })
    }

    /// The address of a path in the folder. Each segment is escaped.
    pub fn full_url(&self, path: &str) -> (r: String)
        ensures
            r@ == address(self.base_url@, path@),
    {
        let clean = trim_start_matching(path, '/');
        if clean.as_str().is_empty() {
            return self.base_url.clone();
        }
        let parts = split(clean.as_str(), '/');
        let mut encoded: Vec<String> = Vec::new();
        let mut i: usize = 0;
        let ghost goal = pieces(clean@, '/').map_values(|s: Seq<char>| percent_encoded(s));
        assert(texts(encoded@) =~= goal.take(0));
        while i < parts.len()
            invariant
                i <= parts@.len(),
                texts(parts@) == pieces(clean@, '/'),
                goal == pieces(clean@, '/').map_values(|s: Seq<char>| percent_encoded(s)),
                texts(encoded@) == goal.take(i as int),
            decreases parts@.len() - i,
        {
            let ghost before = texts(encoded@);
            let part = percent_encode_segment(parts[i].as_str());
            proof {
                assert(texts(parts@)[i as int] == parts@[i as int]@);
                assert(goal[i as int] == percent_encoded(parts@[i as int]@));
            }
            let ghost p = part@;
            encoded.push(part);
            proof {
                assert(texts(encoded@) =~= before.push(p));
                assert(goal.take(i + 1) =~= goal.take(i as int).push(goal[i as int]));
            }
            i += 1;
        }
        assert(goal.take(i as int) =~= goal);
        let mut out = self.base_url.clone();
        out.push('/');
        let tail = crate::text::join(encoded.as_slice(), "/");
        out.push_str(tail.as_str());
        assert(out@ =~= address(self.base_url@, path@));
        out
    }

    /// The address of a path in the folder, with a separator at its end.
    pub fn collection_url(&self, path: &str) -> (r: String)
        ensures
            r@ == as_collection(address(self.base_url@, path@)),
    {
        let mut url = self.full_url(path);
        let cs = chars_of(url.as_str());
        if cs.len() == 0 || cs[cs.len() - 1] != '/' {
            url.push('/');
        }
        url
    }
}

/// Whether an HTTP status is in the class of success.
pub open spec fn is_success(status: u16) -> bool {
    200 <= status < 300
}

/// The failure `<verb> <path> 失败: <status>`.
pub open spec fn request_failure(verb: Seq<char>, path: Seq<char>, status: Seq<char>) -> SyncErrorView {
    SyncErrorView::Failed(verb + " "@ + path + " 失败: "@ + status)
}

fn request_failed(verb: &str, path: &str, status: &str) -> (r: SyncError)
    ensures
        r@ == request_failure(verb@, path@, status@),
{
    let mut text = verb.to_owned();
    text.push_str(" ");
    text.push_str(path);
    text.push_str(" 失败: ");
    text.push_str(status);
    SyncError::Failed(text)
}

/// What the answer to a connection test means. `status_text` is the status as
/// it is shown.
pub fn test_connection_outcome(status: u16, status_text: &str) -> (r: Result<(), SyncError>)
    ensures
        match r {
            Ok(_) => is_success(status) || status == 405 || status == 404,
            Err(e) => if status == 401 || status == 403 {
                e@ == SyncErrorView::Failed("WebDAV 认证失败，请检查用户名和密码"@)
            } else {
                &&& !is_success(status) && status != 405 && status != 404
                &&& e@ == SyncErrorView::Failed("WebDAV 状态码错误: "@ + status_text@)
            },
        },
{
    if (200 <= status && status < 300) || status == 405 || status == 404 {
        Ok(())
    } else if status == 401 || status == 403 {
        Err(failed("WebDAV 认证失败，请检查用户名和密码"))
    } else {
        let mut text = "WebDAV 状态码错误: ".to_owned();
        text.push_str(status_text);
        Err(SyncError::Failed(text))
    }
}

/// What the answer to a request for a new folder means. A folder that exists
/// already is fine.
pub fn mkcol_outcome(path: &str, status: u16, status_text: &str) -> (r: Result<(), SyncError>)
    ensures
        match r {
            Ok(_) => is_success(status) || status == 405,
            Err(e) => {
                &&& !is_success(status) && status != 405
                &&& e@ == request_failure("MKCOL"@, path@, status_text@)
            },
        },
{
    if (200 <= status && status < 300) || status == 405 {
        Ok(())
    } else {
        Err(request_failed("MKCOL", path, status_text))
    }
}

/// What the answer to an upload means.
pub fn put_outcome(path: &str, status: u16, status_text: &str) -> (r: Result<(), SyncError>)
    ensures
        match r {
            Ok(_) => is_success(status),
            Err(e) => {
                &&& !is_success(status)
                &&& e@ == request_failure("PUT"@, path@, status_text@)
            },
        },
{
    if 200 <= status && status < 300 {
        Ok(())
    } else {
        Err(request_failed("PUT", path, status_text))
    }
}

/// What the answer to a download means: whether there is a file to be read.
pub fn get_outcome(path: &str, status: u16, status_text: &str) -> (r: Result<bool, SyncError>)
    ensures
        match r {
            Ok(found) => if found {
                is_success(status)
            } else {
                status == 404
            },
            Err(e) => {
                &&& !is_success(status) && status != 404
                &&& e@ == request_failure("GET"@, path@, status_text@)
            },
        },
{
    if status == 404 {
        Ok(false)
    } else if 200 <= status && status < 300 {
        Ok(true)
    } else {
        Err(request_failed("GET", path, status_text))
    }
}

/// What the answer to a removal means. What is not there is fine.
pub fn delete_outcome(path: &str, status: u16, status_text: &str) -> (r: Result<(), SyncError>)
    ensures
        match r {
            Ok(_) => is_success(status) || status == 404,
            Err(e) => {
                &&& !is_success(status) && status != 404
                &&& e@ == request_failure("DELETE"@, path@, status_text@)
            },
        },
{
    if (200 <= status && status < 300) || status == 404 {
        Ok(())
    } else {
        Err(request_failed("DELETE", path, status_text))
    }
}

/// What the answer to a request for a listing means: whether there is a listing
/// to be read. A folder that is not there has nothing in it.
pub fn list_outcome(path: &str, status: u16, status_text: &str) -> (r: Result<bool, SyncError>)
    ensures
        match r {
            Ok(found) => if found {
                is_success(status)
            } else {
                status == 404
            },
            Err(e) => {
                &&& !is_success(status) && status != 404
                &&& e@ == request_failure("PROPFIND"@, path@, status_text@)
            },
        },
{
    if status == 404 {
        Ok(false)
    } else if 200 <= status && status < 300 {
        Ok(true)
    } else {
        Err(request_failed("PROPFIND", path, status_text))
    }
}

/// A name is in a listing just if some entry of the answer stands for it, it is not
/// empty and it is not the folder itself. However many entries there are, none is left
/// out.
pub proof fn listing_is_complete(hrefs: Seq<Seq<char>>, folder: Seq<char>, name: Seq<char>)
    ensures
        names_listed(hrefs, folder).contains(name) <==> name.len() > 0 && name != folder && exists|
            k: int,
        |
            0 <= k < hrefs.len() && listed_name(#[trigger] hrefs[k]) == name,
    decreases hrefs.len(),
{
    if hrefs.len() > 0 {
        let shorter = hrefs.drop_last();
        let last = hrefs.len() - 1;
        listing_is_complete(shorter, folder, name);
        let before = names_listed(shorter, folder);
        let all = names_listed(hrefs, folder);
        let found = listed_name(hrefs[last]);
        assert forall|k: int| 0 <= k < last implies #[trigger] hrefs[k] == shorter[k] by {}
        if before.contains(name) {
            let i = choose|i: int| 0 <= i < before.len() && before[i] == name;
            assert(all[i] == name);
            let k = choose|k: int|
                0 <= k < shorter.len() && listed_name(#[trigger] shorter[k]) == name;
            assert(listed_name(hrefs[k]) == name);
        } else if all.contains(name) {
            let i = choose|i: int| 0 <= i < all.len() && all[i] == name;
            if i < before.len() {
                assert(before[i] == name);
            }
            assert(found == name);
        }
        if name.len() > 0 && name != folder && exists|k: int|
            0 <= k < hrefs.len() && listed_name(#[trigger] hrefs[k]) == name {
            let k = choose|k: int|
                0 <= k < hrefs.len() && listed_name(#[trigger] hrefs[k]) == name;
            if k < last {
                assert(listed_name(shorter[k]) == name);
            } else if !before.contains(name) {
                assert(all[before.len() as int] == name);
            }
        }
    }
}

/// Names stand in a listing in the order of the first entries that stand for them.
pub proof fn listing_is_in_order(hrefs: Seq<Seq<char>>, folder: Seq<char>, i: int, j: int) -> (k:
    int)
    requires
        0 <= i < j < names_listed(hrefs, folder).len(),
    ensures
        0 <= k < hrefs.len(),
        listed_name(hrefs[k]) == names_listed(hrefs, folder)[i],
        forall|m: int|
            0 <= m <= k ==> listed_name(#[trigger] hrefs[m]) != names_listed(hrefs, folder)[j],
    decreases hrefs.len(),
{
    let shorter = hrefs.drop_last();
    let before = names_listed(shorter, folder);
    let all = names_listed(hrefs, folder);
    assert forall|m: int| 0 <= m < shorter.len() implies #[trigger] hrefs[m] == shorter[m] by {}
    if j < before.len() {
        assert(all[i] == before[i] && all[j] == before[j]);
        let k = listing_is_in_order(shorter, folder, i, j);
        assert forall|m: int| 0 <= m <= k implies listed_name(#[trigger] hrefs[m]) != all[j] by {
            assert(listed_name(shorter[m]) != before[j]);
        }
        k
    } else {
        assert(all[i] == before[i]);
        assert(before.contains(before[i]));
        listing_is_complete(shorter, folder, before[i]);
        listing_is_complete(shorter, folder, all[j]);
        listing_is_clean(hrefs, folder);
        let k = choose|k: int|
            0 <= k < shorter.len() && listed_name(#[trigger] shorter[k]) == before[i];
        assert(listed_name(hrefs[k]) == all[i]);
        assert forall|m: int| 0 <= m <= k implies listed_name(#[trigger] hrefs[m]) != all[j] by {
            if listed_name(hrefs[m]) == all[j] {
                assert(listed_name(shorter[m]) == all[j]);
                assert(before.contains(all[j]));
            }
        }
        k
    }
}

/// The name that an address stands for holds no separator, and is what stands behind
/// the last one when separators at the end are left out.
pub proof fn last_segment_is_behind_the_last_separator(s: Seq<char>)
    ensures
        !last_segment(s).contains('/'),
        trim_end_char(s, '/') == last_segment(s) || finishes_with(
            trim_end_char(s, '/'),
            seq!['/'] + last_segment(s),
        ),
{
    let clean = trim_end_char(s, '/');
    let all = pieces(clean, '/');
    crate::text::pieces_make_the_text(clean, '/');
    crate::text::lemma_pieces_nonempty(clean, '/');
    assert(!all[all.len() - 1].contains('/'));
    if all.len() > 1 {
        let front = joined(all.drop_last(), seq!['/']);
        assert(clean =~= front + (seq!['/'] + all.last()));
        crate::text::prefix_and_suffix_are_parts(clean, seq!['/'] + all.last());
    }
}

/// An element that opens as `href` does, in letters of either case and under any
/// prefix, gives what stands in it without white space around it, unless that is
/// nothing, and the search goes on behind it.
pub proof fn href_elements_are_found(xml: Seq<char>, pos: int, open: int, end: int, close: int)
    requires
        0 <= pos <= open < end < close,
        close + 2 <= xml.len(),
        xml[open] == '<',
        forall|i: int| pos <= i < open ==> #[trigger] xml[i] != '<',
        xml[end] == '>',
        forall|i: int| open <= i < end ==> #[trigger] xml[i] != '>',
        xml[close] == '<' && xml[close + 1] == '/',
        forall|i: int| end < i < close ==> !(#[trigger] xml[i] == '<' && xml[i + 1] == '/'),
        lowered(xml.subrange(open + 1, end)) == "href"@ || (end - open > 6 && xml[open + 1] != '/'
            && lowered(xml.subrange(end - 5, end)) == ":href"@),
    ensures
        ({
            let value = trimmed(xml.subrange(end + 1, close));
            hrefs_from(xml, pos) == (if value.len() == 0 {
                Seq::empty()
            } else {
                seq![value]
            }) + hrefs_from(xml, close)
        }),
{
    let low = lowered(xml);
    reveal_strlit("<");
    reveal_strlit(">");
    reveal_strlit("</");
    reveal_strlit("/");
    reveal_strlit(":href");
    lemma_tag_found(xml, pos, open, end);
    lemma_closing_at(xml, close);
    assert forall|j: int| end + 1 <= j < close implies !(#[trigger] occurs_at(low, "</"@, j)) by {
        lemma_closing_at(xml, j);
        assert(!(xml[j] == '<' && xml[j + 1] == '/'));
    }
    lemma_first_at(low, "</"@, end + 1, close);
    let tag = low.subrange(open + 1, end);
    assert(tag =~= lowered(xml.subrange(open + 1, end)));
    if tag != "href"@ {
        assert(":href"@.len() == 5);
        let n = tag.len() - 5;
        assert(tag.subrange(n, n + 5) =~= lowered(xml.subrange(end - 5, end)));
        assert(tag[0] == low[open + 1]);
        assert(xml[open + 1] != '/' ==> low[open + 1] != '/');
        assert(tag.subrange(0, 1)[0] == tag[0]);
        assert("/"@[0] == '/');
    }
    let value = trimmed(xml.subrange(end + 1, close));
    if value.len() == 0 {
        assert(Seq::<Seq<char>>::empty() + hrefs_from(xml, close) =~= hrefs_from(xml, close));
    }
}

/// A tag that opens another element, or closes one, is passed over, and without a tag
/// nothing is found.
pub proof fn other_tags_are_passed_over(xml: Seq<char>, pos: int, open: int, end: int)
    requires
        0 <= pos <= open < end < xml.len(),
        xml[open] == '<',
        forall|i: int| pos <= i < open ==> #[trigger] xml[i] != '<',
        xml[end] == '>',
        forall|i: int| open <= i < end ==> #[trigger] xml[i] != '>',
        xml[open + 1] == '/' || !finishes_with(lowered(xml.subrange(open + 1, end)), "href"@),
    ensures
        hrefs_from(xml, pos) == hrefs_from(xml, end + 1),
{
    let low = lowered(xml);
    reveal_strlit("<");
    reveal_strlit(">");
    reveal_strlit("/");
    reveal_strlit("href");
    reveal_strlit(":href");
    lemma_tag_found(xml, pos, open, end);
    let tag = low.subrange(open + 1, end);
    assert(tag =~= lowered(xml.subrange(open + 1, end)));
    assert("href"@.len() == 4 && ":href"@.len() == 5 && "/"@.len() == 1);
    if xml[open + 1] == '/' {
        assert(low[open + 1] == '/');
        if tag.len() > 0 {
            assert(tag[0] == '/');
            assert(tag.subrange(0, 1) =~= "/"@);
            assert(begins_with(tag, "/"@));
            assert("href"@[0] == 'h');
        } else {
            assert(tag != "href"@);
            assert(!finishes_with(tag, ":href"@));
        }
    } else {
        if finishes_with(tag, ":href"@) {
            let n = tag.len() - 5;
            assert(tag.subrange(n + 1, n + 5) =~= "href"@) by {
                assert forall|i: int| 0 <= i < 4 implies tag.subrange(n + 1, n + 5)[i]
                    == "href"@[i] by {
                    assert(tag.subrange(n, n + 5)[i + 1] == ":href"@[i + 1]);
                }
            }
        }
        if tag == "href"@ {
            assert(tag.subrange(0, 4) =~= "href"@);
        }
    }
}

/// Where no tag begins, nothing is found.
pub proof fn text_without_tags_has_no_hrefs(xml: Seq<char>, pos: int)
    requires
        0 <= pos,
        forall|i: int| pos <= i < xml.len() ==> #[trigger] xml[i] != '<',
    ensures
        hrefs_from(xml, pos).len() == 0,
{
    let low = lowered(xml);
    reveal_strlit("<");
    crate::text::search_finds_the_first(low, "<"@, pos);
    if let Some(i) = find_from(low, "<"@, pos) {
        assert(low.subrange(i, i + 1)[0] == "<"@[0]);
        assert(low[i] == '<');
        assert(xml[i] == '<');
    }
}

proof fn lemma_first_at(s: Seq<char>, pat: Seq<char>, from: int, at: int)
    requires
        0 <= from <= at,
        occurs_at(s, pat, at),
        forall|j: int| from <= j < at ==> !(#[trigger] occurs_at(s, pat, j)),
    ensures
        find_from(s, pat, from) == Some(at),
    decreases at - from,
{
    if from < at {
        assert(!occurs_at(s, pat, from));
        lemma_first_at(s, pat, from + 1, at);
    }
}

proof fn lemma_tag_found(xml: Seq<char>, pos: int, open: int, end: int)
    requires
        0 <= pos <= open < end < xml.len(),
        xml[open] == '<',
        forall|i: int| pos <= i < open ==> #[trigger] xml[i] != '<',
        xml[end] == '>',
        forall|i: int| open <= i < end ==> #[trigger] xml[i] != '>',
    ensures
        find_from(lowered(xml), "<"@, pos) == Some(open),
        find_from(lowered(xml), ">"@, open) == Some(end),
{
    let low = lowered(xml);
    reveal_strlit("<");
    reveal_strlit(">");
    assert("<"@.len() == 1 && ">"@.len() == 1);
    assert("<"@[0] == '<' && ">"@[0] == '>');
    assert(low.subrange(open, open + 1) =~= "<"@);
    assert forall|j: int| pos <= j < open implies !(#[trigger] occurs_at(low, "<"@, j)) by {
        if occurs_at(low, "<"@, j) {
            assert(low.subrange(j, j + 1)[0] == '<');
            assert(xml[j] == '<');
        }
    }
    lemma_first_at(low, "<"@, pos, open);
    assert(low.subrange(end, end + 1) =~= ">"@);
    assert forall|j: int| open <= j < end implies !(#[trigger] occurs_at(low, ">"@, j)) by {
        if occurs_at(low, ">"@, j) {
            assert(low.subrange(j, j + 1)[0] == '>');
            assert(xml[j] == '>');
        }
    }
    lemma_first_at(low, ">"@, open, end);
}

proof fn lemma_closing_at(xml: Seq<char>, at: int)
    requires
        0 <= at,
        at + 2 <= xml.len(),
    ensures
        occurs_at(lowered(xml), "</"@, at) <==> xml[at] == '<' && xml[at + 1] == '/',
{
    let low = lowered(xml);
    reveal_strlit("</");
    assert("</"@.len() == 2 && "</"@[0] == '<' && "</"@[1] == '/');
    if occurs_at(low, "</"@, at) {
        assert(low.subrange(at, at + 2)[0] == '<');
        assert(low.subrange(at, at + 2)[1] == '/');
    }
    if xml[at] == '<' && xml[at + 1] == '/' {
        assert(low.subrange(at, at + 2) =~= "</"@);
    }
}

/// A path segment is written with letters, digits, `-`, `_`, `.`, `~` and escapes
/// alone; the bytes that may stand for themselves do, and no others.
pub proof fn encoded_segment_is_plain(b: Seq<u8>, i: int)
    requires
        0 <= i < percent_bytes(b).len(),
    ensures
        ({
            let c = percent_bytes(b)[i];
            ||| 'a' <= c <= 'z'
            ||| 'A' <= c <= 'Z'
            ||| '0' <= c <= '9'
            ||| c == '-' || c == '_' || c == '.' || c == '~' || c == '%'
        }),
    decreases b.len(),
{
    let head = percent_byte(b[0]);
    let all = percent_bytes(b);
    if i < head.len() {
        assert(all[i] == head[i]);
    } else {
        assert(all[i] == percent_bytes(b.skip(1))[i - head.len()]);
        encoded_segment_is_plain(b.skip(1), i - head.len());
    }
}

/// A segment of letters, digits, `-`, `_`, `.` and `~` is written as it is.
pub proof fn plain_segment_is_itself(b: Seq<u8>)
    requires
        forall|i: int|
            0 <= i < b.len() ==> {
                let c = #[trigger] b[i] as char;
                ||| 'a' <= c <= 'z'
                ||| 'A' <= c <= 'Z'
                ||| '0' <= c <= '9'
                ||| c == '-' || c == '_' || c == '.' || c == '~'
            },
    ensures
        percent_bytes(b) == b.map_values(|x: u8| x as char),
    decreases b.len(),
{
    if b.len() > 0 {
        let rest = b.skip(1);
        assert forall|i: int| 0 <= i < rest.len() implies {
            let c = #[trigger] rest[i] as char;
            ||| 'a' <= c <= 'z'
            ||| 'A' <= c <= 'Z'
            ||| '0' <= c <= '9'
            ||| c == '-' || c == '_' || c == '.' || c == '~'
        } by {
            assert(rest[i] == b[i + 1]);
        }
        plain_segment_is_itself(rest);
        let c = b[0] as char;
        assert(is_unreserved(b[0]));
    }
    assert(percent_bytes(b) =~= b.map_values(|x: u8| x as char));
}

/// Decoding leaves bytes without a percent sign as they are, and takes a percent sign
/// with two hexadecimal digits of either case for the byte that they write.
pub proof fn escapes_are_read(plain: Seq<u8>, value: u8, high: u8, low: u8, rest: Seq<u8>)
    requires
        forall|i: int| 0 <= i < plain.len() ==> #[trigger] plain[i] != 0x25,
        digit_of(high) is Some,
        digit_of(low) is Some,
        value == 16 * digit_of(high)->0 + digit_of(low)->0,
    ensures
        unescaped(plain) == plain,
        unescaped(plain + seq![0x25u8, high, low] + rest) == plain + seq![value] + unescaped(rest),
    decreases plain.len(),
{
    let escape = seq![0x25u8, high, low];
    let all = plain + escape + rest;
    if plain.len() == 0 {
        assert(all.skip(3) =~= rest);
        assert(all[0] == 0x25 && all[1] == high && all[2] == low);
        assert(unescaped(plain) =~= plain);
        assert(unescaped(all) =~= plain + seq![value] + unescaped(rest));
    } else {
        let tail = plain.skip(1);
        assert forall|i: int| 0 <= i < tail.len() implies #[trigger] tail[i] != 0x25 by {
            assert(tail[i] == plain[i + 1]);
        }
        escapes_are_read(tail, value, high, low, rest);
        assert(all.skip(1) =~= tail + escape + rest);
        assert(all[0] == plain[0]);
        assert(seq![plain[0]] + tail =~= plain);
        assert(unescaped(all) =~= plain + seq![value] + unescaped(rest));
    }
}

/// The sixteen hexadecimal digits of either case have the values from nothing to
/// fifteen, and no other byte is one.
pub proof fn digits_are_hexadecimal(b: u8)
    ensures
        digit_of(b) is Some <==> '0' <= b as char <= '9' || 'a' <= b as char <= 'f' || 'A'
            <= b as char <= 'F',
        '0' <= b as char <= '9' ==> digit_of(b)->0 == b - 48,
        'a' <= b as char <= 'f' ==> digit_of(b)->0 == b - 97 + 10,
        'A' <= b as char <= 'F' ==> digit_of(b)->0 == b - 65 + 10,
{
}

/// The address of a path is that of the folder and, behind a separator, as many
/// segments as the path has, each of which decodes to the one in its place. Separators
/// at the beginning of the path do not count.
pub proof fn address_leads_to_the_path(base: Seq<char>, path: Seq<char>)
    ensures
        ({
            let clean = trim_start_char(path, '/');
            let all = address(base, path);
            let segments = pieces(all.skip(base.len() as int + 1), '/');
            let parts = pieces(clean, '/');
            &&& clean.len() == 0 ==> all == base
            &&& clean.len() > 0 ==> {
                &&& all.len() > base.len()
                &&& all.take(base.len() as int) == base
                &&& all[base.len() as int] == '/'
                &&& segments.len() == parts.len()
                &&& forall|i: int|
                    0 <= i < parts.len() ==> unescaped(encode_utf8(#[trigger] segments[i]))
                        == encode_utf8(parts[i])
            }
        }),
{
    let clean = trim_start_char(path, '/');
    if clean.len() > 0 {
        let parts = pieces(clean, '/');
        let encoded = parts.map_values(|s: Seq<char>| percent_encoded(s));
        reveal_strlit("/");
        assert("/"@ =~= seq!['/']);
        crate::text::lemma_pieces_nonempty(clean, '/');
        assert forall|i: int| 0 <= i < encoded.len() implies !(#[trigger] encoded[i]).contains('/') by {
            if encoded[i].contains('/') {
                let k = choose|k: int| 0 <= k < encoded[i].len() && encoded[i][k] == '/';
                encoded_segment_is_plain(encode_utf8(parts[i]), k);
            }
        }
        crate::text::joined_parts_are_the_pieces(encoded, '/');
        let all = address(base, path);
        assert(all.skip(base.len() as int + 1) =~= joined(encoded, seq!['/']));
        assert(all.take(base.len() as int) =~= base);
        assert forall|i: int| 0 <= i < parts.len() implies unescaped(
            encode_utf8(#[trigger] encoded[i]),
        ) == encode_utf8(parts[i]) by {
            percent_decode_restores_encode(parts[i]);
        }
    }
}

/// The address of a collection is the address with one separator at its end.
pub proof fn collection_ends_with_a_separator(url: Seq<char>)
    ensures
        as_collection(url).last() == '/',
        url.len() > 0 && url.last() == '/' ==> as_collection(url) == url,
        url.len() == 0 || url.last() != '/' ==> as_collection(url) == url + seq!['/'],
{
    assert(url.push('/') =~= url + seq!['/']);
}

/// The address that is kept of a folder is the configured one without white space
/// around it and without one separator at its end.
pub proof fn kept_address_is_the_configured_one(url: Seq<char>)
    ensures
        trimmed(url).len() == 0 || trimmed(url).last() != '/' ==> normal_url(url) == trimmed(url),
        trimmed(url).len() > 0 && trimmed(url).last() == '/' ==> normal_url(url) + seq!['/']
            == trimmed(url),
{
    let t = trimmed(url);
    if t.len() > 0 && t.last() == '/' {
        assert(t.drop_last() + seq!['/'] =~= t);
    }
}

/// Requests carry the user name and the password, as base64 with a colon between
/// them, whenever both are set and the name is not empty, and nothing otherwise.
pub proof fn credentials_are_sent_when_set(username: Seq<char>, password: Seq<char>)
    ensures
        username.len() > 0 ==> authorization(Some(username), Some(password)) == Some(
            "Basic "@ + base64_of(encode_utf8(username + seq![':'] + password)),
        ),
        username.len() == 0 ==> authorization(Some(username), Some(password)) is None,
        authorization(None, Some(password)) is None,
        authorization(Some(username), None) is None,
        authorization(None, None) is None,
{
}

/// An answer is one of success just if its status is from 200 to 299.
pub proof fn success_is_from_200_to_299(status: u16)
    ensures
        is_success(status) <==> 200 <= status && status <= 299,
{
}

/// What a failed request is told with names the request, the path and the status.
pub proof fn failures_tell_what_failed(verb: Seq<char>, path: Seq<char>, status: Seq<char>)
    ensures
        request_failure(verb, path, status) is Failed,
        begins_with(request_failure(verb, path, status)->Failed_0, verb + " "@ + path),
        finishes_with(request_failure(verb, path, status)->Failed_0, status),
{
    let text = request_failure(verb, path, status)->Failed_0;
    let front = verb + " "@ + path;
    assert(text =~= front + (" 失败: "@ + status));
    assert(text =~= (front + " 失败: "@) + status);
    crate::text::prefix_and_suffix_are_parts(text, front);
    crate::text::prefix_and_suffix_are_parts(text, status);
}


/// How a character is written in XML.
pub open spec fn entity(c: char) -> Seq<char> {
    if c == '&' {
        seq!['&', 'a', 'm', 'p', ';']
    } else if c == '<' {
        seq!['&', 'l', 't', ';']
    } else if c == '>' {
        seq!['&', 'g', 't', ';']
    } else if c == '"' {
        seq!['&', 'q', 'u', 'o', 't', ';']
    } else if c == '\'' {
        seq!['&', 'a', 'p', 'o', 's', ';']
    } else {
        seq![c]
    }
}

/// How a text is written in XML.
pub open spec fn entities_written(s: Seq<char>) -> Seq<char>
    decreases s.len(),
{
    if s.len() == 0 {
        Seq::empty()
    } else {
        entity(s[0]) + entities_written(s.skip(1))
    }
}

/// The place of a character among those that have an entity, in the order in which
/// they are read.
spec fn entity_place(c: char) -> int {
    if c == '&' {
        1
    } else if c == '<' {
        2
    } else if c == '>' {
        3
    } else if c == '"' {
        4
    } else if c == '\'' {
        5
    } else {
        0
    }
}

spec fn placed(k: int) -> char {
    if k == 1 {
        '&'
    } else if k == 2 {
        '<'
    } else if k == 3 {
        '>'
    } else if k == 4 {
        '"'
    } else {
        '\''
    }
}

/// A written text in which the first `k` entities have been read.
spec fn half_read(s: Seq<char>, k: int) -> Seq<char>
    decreases s.len(),
{
    if s.len() == 0 {
        Seq::empty()
    } else {
        (if entity_place(s[0]) <= k {
            seq![s[0]]
        } else {
            entity(s[0])
        }) + half_read(s.skip(1), k)
    }
}

proof fn lemma_nothing_starts(s: Seq<char>, k: int, q: Seq<char>)
    requires
        0 <= k,
        !s.contains(';'),
        q.len() > 0,
        q.last() == ';',
        !q.contains('&'),
    ensures
        !begins_with(half_read(s, k), q),
    decreases s.len(),
{
    let w = half_read(s, k);
    if begins_with(w, q) && s.len() > 0 {
        assert(w.subrange(0, q.len() as int)[0] == q[0]);
        assert(q.contains(q[0]));
        assert(s.contains(s[0]));
        let rest = s.skip(1);
        assert(!rest.contains(';')) by {
            if rest.contains(';') {
                let i = choose|i: int| 0 <= i < rest.len() && rest[i] == ';';
                assert(s[i + 1] == ';');
            }
        }
        if entity_place(s[0]) <= k {
            assert(w[0] == s[0]);
            if q.len() > 1 {
                let tail = q.skip(1);
                assert(!tail.contains('&')) by {
                    if tail.contains('&') {
                        let i = choose|i: int| 0 <= i < tail.len() && tail[i] == '&';
                        assert(q[i + 1] == '&');
                    }
                }
                lemma_nothing_starts(rest, k, tail);
                assert(half_read(rest, k).subrange(0, tail.len() as int) =~= tail) by {
                    assert forall|i: int| 0 <= i < tail.len() implies half_read(rest, k)[i]
                        == tail[i] by {
                        assert(w.subrange(0, q.len() as int)[i + 1] == q[i + 1]);
                        assert(w[i + 1] == half_read(rest, k)[i]);
                    }
                }
            }
        } else {
            assert(w[0] == '&');
        }
    }
}

proof fn lemma_passed_over(e: Seq<char>, rest: Seq<char>, pat: Seq<char>, to: Seq<char>)
    requires
        pat.len() > 0,
        forall|i: int| 0 <= i < e.len() ==> !begins_with(#[trigger] (e + rest).skip(i), pat),
    ensures
        replaced(e + rest, pat, to) == e + replaced(rest, pat, to),
    decreases e.len(),
{
    if e.len() == 0 {
        assert(e + rest =~= rest);
        assert(e + replaced(rest, pat, to) =~= replaced(rest, pat, to));
    } else {
        let w = e + rest;
        let tail = e.skip(1);
        assert(w.skip(0) =~= w);
        assert(w.skip(1) =~= tail + rest);
        assert forall|i: int| 0 <= i < tail.len() implies !begins_with(
            #[trigger] (tail + rest).skip(i),
            pat,
        ) by {
            assert((tail + rest).skip(i) =~= w.skip(i + 1));
        }
        lemma_passed_over(tail, rest, pat, to);
        assert(seq![e[0]] + (tail + replaced(rest, pat, to)) =~= e + replaced(rest, pat, to));
    }
}

proof fn lemma_one_entity_read(s: Seq<char>, k: int)
    requires
        0 <= k < 5,
        !s.contains(';'),
    ensures
        replaced(half_read(s, k), entity(placed(k + 1)), seq![placed(k + 1)]) == half_read(s, k + 1),
    decreases s.len(),
{
    let pat = entity(placed(k + 1));
    let to = seq![placed(k + 1)];
    if s.len() > 0 {
        let c = s[0];
        let tail = s.skip(1);
        assert(s.contains(c));
        assert(!tail.contains(';')) by {
            if tail.contains(';') {
                let i = choose|i: int| 0 <= i < tail.len() && tail[i] == ';';
                assert(s[i + 1] == ';');
            }
        }
        lemma_one_entity_read(tail, k);
        let rest = half_read(tail, k);
        let head = if entity_place(c) <= k {
            seq![c]
        } else {
            entity(c)
        };
        let w = head + rest;
        if entity_place(c) == k + 1 {
            assert(w.subrange(0, pat.len() as int) =~= pat);
            assert(w.skip(pat.len() as int) =~= rest);
        } else {
            assert forall|i: int| 0 <= i < head.len() implies !begins_with(
                #[trigger] w.skip(i),
                pat,
            ) by {
                let x = w.skip(i);
                if begins_with(x, pat) {
                    assert(x.subrange(0, pat.len() as int)[0] == pat[0]);
                    assert(w[i] == head[i]);
                    assert(i == 0);
                    assert(x =~= w);
                    assert(x.subrange(0, pat.len() as int)[1] == pat[1]);
                    assert(x.subrange(0, pat.len() as int)[2] == pat[2]);
                    if head.len() == 1 {
                        let q = pat.skip(1);
                        assert(q.last() == ';');
                        assert(!q.contains('&'));
                        lemma_nothing_starts(tail, k, q);
                        assert(rest.subrange(0, q.len() as int) =~= q) by {
                            assert forall|j: int| 0 <= j < q.len() implies rest[j] == q[j] by {
                                assert(x.subrange(0, pat.len() as int)[j + 1] == pat[j + 1]);
                            }
                        }
                    } else {
                        assert(w[1] == head[1] && w[2] == head[2]);
                    }
                }
            }
            lemma_passed_over(head, rest, pat, to);
        }
    }
}

proof fn lemma_half_read_ends(s: Seq<char>)
    ensures
        half_read(s, 0) == entities_written(s),
        half_read(s, 5) == s,
    decreases s.len(),
{
    if s.len() > 0 {
        lemma_half_read_ends(s.skip(1));
        assert(seq![s[0]] + s.skip(1) =~= s);
    } else {
        assert(s =~= Seq::<char>::empty());
    }
}

/// A text that was written with entities is read back: each of the five characters
/// that have one comes back, and everything else is as it was. A text with a semicolon
/// may hold what looks like an entity itself.
pub proof fn entities_are_read_back(s: Seq<char>)
    requires
        !s.contains(';'),
    ensures
        entities_decoded(entities_written(s)) == s,
{
    reveal_strlit("&amp;");
    reveal_strlit("&lt;");
    reveal_strlit("&gt;");
    reveal_strlit("&quot;");
    reveal_strlit("&apos;");
    reveal_strlit("&");
    reveal_strlit("<");
    reveal_strlit(">");
    reveal_strlit("\"");
    reveal_strlit("'");
    assert("&amp;"@ =~= entity('&') && "&"@ =~= seq!['&']);
    assert("&lt;"@ =~= entity('<') && "<"@ =~= seq!['<']);
    assert("&gt;"@ =~= entity('>') && ">"@ =~= seq!['>']);
    assert("&quot;"@ =~= entity('"') && "\""@ =~= seq!['"']);
    assert("&apos;"@ =~= entity('\'') && "'"@ =~= seq!['\'']);
    lemma_half_read_ends(s);
    lemma_one_entity_read(s, 0);
    lemma_one_entity_read(s, 1);
    lemma_one_entity_read(s, 2);
    lemma_one_entity_read(s, 3);
    lemma_one_entity_read(s, 4);
}

proof fn lemma_replaced_without(s: Seq<char>, pat: Seq<char>, to: Seq<char>)
    requires
        pat.len() > 0,
        !s.contains(pat[0]),
    ensures
        replaced(s, pat, to) == s,
    decreases s.len(),
{
    if s.len() > 0 {
        let rest = s.skip(1);
        assert(!rest.contains(pat[0])) by {
            if rest.contains(pat[0]) {
                let i = choose|i: int| 0 <= i < rest.len() && rest[i] == pat[0];
                assert(s[i + 1] == pat[0]);
            }
        }
        lemma_replaced_without(rest, pat, to);
        assert(s.contains(s[0]));
        if begins_with(s, pat) {
            assert(s.subrange(0, pat.len() as int)[0] == pat[0]);
        }
        assert(seq![s[0]] + rest =~= s);
    } else {
        assert(s =~= Seq::<char>::empty());
    }
}

/// A text without an ampersand has no entities to be read.
pub proof fn text_without_entities_is_kept(s: Seq<char>)
    requires
        !s.contains('&'),
    ensures
        entities_decoded(s) == s,
{
    reveal_strlit("&amp;");
    reveal_strlit("&lt;");
    reveal_strlit("&gt;");
    reveal_strlit("&quot;");
    reveal_strlit("&apos;");
    lemma_replaced_without(s, "&amp;"@, "&"@);
    lemma_replaced_without(s, "&lt;"@, "<"@);
    lemma_replaced_without(s, "&gt;"@, ">"@);
    lemma_replaced_without(s, "&quot;"@, "\""@);
    lemma_replaced_without(s, "&apos;"@, "'"@);
}

proof fn lemma_encode_joins(a: Seq<char>, b: Seq<char>)
    ensures
        encode_utf8(a + b) == encode_utf8(a) + encode_utf8(b),
    decreases a.len(),
{
    if a.len() == 0 {
        assert(a + b =~= b);
        assert(encode_utf8(a) =~= Seq::<u8>::empty());
        assert(encode_utf8(a) + encode_utf8(b) =~= encode_utf8(b));
    } else {
        lemma_encode_joins(a.drop_first(), b);
        assert((a + b).drop_first() =~= a.drop_first() + b);
        assert((a + b)[0] == a[0]);
        let first = vstd::utf8::encode_scalar(a[0] as u32);
        assert(first + (encode_utf8(a.drop_first()) + encode_utf8(b)) =~= (first + encode_utf8(
            a.drop_first(),
        )) + encode_utf8(b));
    }
}

proof fn lemma_unescape_behind(plain: Seq<u8>, rest: Seq<u8>)
    requires
        forall|i: int| 0 <= i < plain.len() ==> #[trigger] plain[i] != 0x25,
    ensures
        unescaped(plain + rest) == plain + unescaped(rest),
    decreases plain.len(),
{
    if plain.len() == 0 {
        assert(plain + rest =~= rest);
        assert(plain + unescaped(rest) =~= unescaped(rest));
    } else {
        let tail = plain.skip(1);
        assert forall|i: int| 0 <= i < tail.len() implies #[trigger] tail[i] != 0x25 by {
            assert(tail[i] == plain[i + 1]);
        }
        lemma_unescape_behind(tail, rest);
        assert((plain + rest).skip(1) =~= tail + rest);
        assert((plain + rest)[0] == plain[0]);
        assert(seq![plain[0]] + (tail + unescaped(rest)) =~= plain + unescaped(rest));
    }
}

/// What was stored under a name is listed under that name, whatever characters the
/// name has but the separator: an entry for it in an answer stands for the name. That a
/// valid text is taken as it is where its bytes are read is what `lossy_text` says of
/// them.
pub proof fn stored_name_is_listed(base: Seq<char>, name: Seq<char>)
    requires
        base.len() > 0,
        base.last() == '/',
        forall|i: int|
            0 <= i < base.len() ==> '\0' <= #[trigger] base[i] <= '\u{7f}' && base[i] != '%'
                && base[i] != '&',
        name.len() > 0,
        !name.contains('/'),
        utf8_lossy(encode_utf8(base + name)) == base + name,
    ensures
        listed_name(base + percent_encoded(name)) == name,
{
    let written = percent_encoded(name);
    let href = base + written;
    assert(!href.contains('&')) by {
        if href.contains('&') {
            let i = choose|i: int| 0 <= i < href.len() && href[i] == '&';
            if i < base.len() {
                assert(base[i] == '&');
            } else {
                assert(written[i - base.len()] == '&');
                encoded_segment_is_plain(encode_utf8(name), i - base.len());
            }
        }
    }
    text_without_entities_is_kept(href);
    lemma_encode_joins(base, written);
    lemma_encode_joins(base, name);
    assert(vstd::utf8::is_ascii_chars(base));
    vstd::utf8::is_ascii_chars_encode_utf8(base);
    let plain = encode_utf8(base);
    assert forall|i: int| 0 <= i < plain.len() implies #[trigger] plain[i] != 0x25 by {
        assert(base[i] != '%');
    }
    lemma_unescape_behind(plain, encode_utf8(written));
    percent_decode_restores_encode(name);
    let all = base + name;
    assert(percent_decoded(href) == all);
    crate::text::trimming_takes_the_character_alone(all, '/');
    assert(all.last() == name.last());
    assert(name.contains(name.last()));
    assert(trim_end_char(all, '/') == all);
    let front = base.drop_last();
    assert(all =~= front + seq!['/'] + name);
    lemma_last_piece(front, name);
}

proof fn lemma_last_piece(front: Seq<char>, name: Seq<char>)
    requires
        !name.contains('/'),
    ensures
        pieces(front + seq!['/'] + name, '/').last() == name,
{
    let s = front + seq!['/'] + name;
    let parts = pieces(front, '/');
    crate::text::pieces_make_the_text(front, '/');
    crate::text::lemma_pieces_nonempty(front, '/');
    let all = parts.push(name);
    assert(all.drop_last() =~= parts);
    assert(joined(all, seq!['/']) =~= s);
    assert forall|i: int| 0 <= i < all.len() implies !(#[trigger] all[i]).contains('/') by {
        if i < parts.len() {
            assert(all[i] == parts[i]);
        }
    }
    crate::text::joined_parts_are_the_pieces(all, '/');
}


/// The names in a listing of a folder, `r`: each entry of the answer gives the name that
/// it stands for, unless that is empty or the folder's own, each name once and however
/// many there are.
pub proof fn every_entry_is_listed(path: &str, xml: &str, r: Vec<String>, name: Seq<char>)
    requires
        call_ensures(list_names, (path, xml), r),
    ensures
        texts(r@).contains(name) <==> name.len() > 0 && name != last_segment(
            trim_start_char(path@, '/'),
        ) && exists|k: int|
            0 <= k < hrefs_from(xml@, 0).len() && listed_name(
                #[trigger] hrefs_from(xml@, 0)[k],
            ) == name,
        texts(r@).no_duplicates(),
{
    let folder = last_segment(trim_start_char(path@, '/'));
    listing_is_complete(hrefs_from(xml@, 0), folder, name);
    listing_is_clean(hrefs_from(xml@, 0), folder);
}

/// What answers mean: a connection works, `test`, a folder was made, `made`, a file was
/// stored, `put`, or removed, `gone`, and a file or a listing is there, `found` and
/// `listed`, just if the status says so. What is there already was made, and what is not
/// there was removed.
pub proof fn answers_are_judged_by_status(
    path: &str,
    status: u16,
    text: &str,
    test: Result<(), SyncError>,
    made: Result<(), SyncError>,
    put: Result<(), SyncError>,
    gone: Result<(), SyncError>,
    found: Result<bool, SyncError>,
    listed: Result<bool, SyncError>,
)
    requires
        call_ensures(test_connection_outcome, (status, text), test),
        call_ensures(mkcol_outcome, (path, status, text), made),
        call_ensures(put_outcome, (path, status, text), put),
        call_ensures(delete_outcome, (path, status, text), gone),
        call_ensures(get_outcome, (path, status, text), found),
        call_ensures(list_outcome, (path, status, text), listed),
    ensures
        ({
            let good = 200 <= status && status <= 299;
            &&& test is Ok <==> good || status == 404 || status == 405
            &&& made is Ok <==> good || status == 405
            &&& put is Ok <==> good
            &&& gone is Ok <==> good || status == 404
            &&& found is Ok <==> good || status == 404
            &&& found is Ok ==> found->Ok_0 == good
            &&& listed is Ok <==> good || status == 404
            &&& listed is Ok ==> listed->Ok_0 == good
        }),
{
}

/// A folder is used, `r`, just if its address is not empty, at that address and with the
/// user name and the password that are set.
pub proof fn configured_folders_are_used(config: WebdavConfig, r: Result<WebdavClient, SyncError>)
    requires
        call_ensures(WebdavClient::new, (&config,), r),
    ensures
        r is Ok <==> normal_url(config.url@).len() > 0,
        r is Ok ==> r->Ok_0.base_url@ == normal_url(config.url@),
        r is Ok && config.username is Some && config.password is Some && config.username->0@.len()
            > 0 ==> text_of(r->Ok_0.auth_header) == Some(
            "Basic "@ + base64_of(
                encode_utf8(config.username->0@ + seq![':'] + config.password->0@),
            ),
        ),
        r is Ok && (config.username is None || config.password is None || config.username->0@.len()
            == 0) ==> r->Ok_0.auth_header is None,
{
}


/// A path is asked for at the address of the folder and the path, each part of it escaped;
/// as a folder, with a separator at the end.
pub proof fn paths_are_asked_for_in_the_folder(
    c: WebdavClient,
    path: &str,
    url: String,
    folder: String,
    i: int,
)
    requires
        call_ensures(WebdavClient::full_url, (&c, path), url),
        call_ensures(WebdavClient::collection_url, (&c, path), folder),
        exists|k: int| 0 <= k < path@.len() && #[trigger] path@[k] != '/',
    ensures
        c.base_url@.is_prefix_of(url@),
        url@.len() > c.base_url@.len() && url@[c.base_url@.len() as int] == '/',
        ({
            let segments = pieces(url@.skip(c.base_url@.len() as int + 1), '/');
            let parts = pieces(trim_start_char(path@, '/'), '/');
            &&& segments.len() == parts.len()
            &&& 0 <= i < parts.len() ==> unescaped(encode_utf8(segments[i])) == encode_utf8(
                parts[i],
            )
        }),
        folder@.last() == '/',
        folder@ == url@ || folder@ == url@ + seq!['/'],
{
    let k = choose|k: int| 0 <= k < path@.len() && #[trigger] path@[k] != '/';
    crate::text::trimming_takes_the_character_alone(path@, '/');
    assert(trim_start_char(path@, '/').len() > 0) by {
        if trim_start_char(path@, '/').len() == 0 {
            assert(path@[k] == '/');
        }
    }
    address_leads_to_the_path(c.base_url@, path@);
    collection_ends_with_a_separator(url@);
}

/// A name that was escaped reads back as it was, `d`.
pub proof fn escaped_names_read_back(name: &str, e: String, text: &str, d: String, b: Vec<u8>)
    requires
        call_ensures(percent_encode_segment, (name,), e),
        text@ == e@,
        call_ensures(percent_decode, (text,), d),
        call_ensures(percent_decode_bytes, (text,), b),
    ensures
        d@ == name@,
        b@ == encode_utf8(name@),
{
    percent_decode_restores_encode(name@);
}


} // verus!
