//! One-time codes and tokens that bring devices together.

use vstd::prelude::*;
use vstd::utf8::encode_utf8;

use crate::content::DeviceId;
use crate::digest::{sha256, sha256_of};
use crate::hexcodec;
use crate::text::{
    ascii_lower, ascii_upper, chars_of, is_alphanumeric, is_white_space, lowered, to_upper, trim, trim_back,
    trim_front, trimmed, uppered,
};

verus! {

/// The number of characters of a fresh code.
pub const CODE_LEN: usize = 8;

/// A code that another device can be paired with for a while.
#[derive(Debug)]
pub struct PairingOffer {
    pub code: String,
    pub expires_at_ms: i64,
    pub account_id: u128,
}

/// A device that answers a code.
#[derive(Debug)]
pub struct PairingFinish {
    pub code: String,
    pub device_id: DeviceId,
    pub device_name: String,
    pub platform: String,
    pub identity_public_key: Vec<u8>,
    pub cert_fingerprint: String,
}

/// The characters of codes: capitals and digits without those that look alike.
pub open spec fn code_alphabet() -> Seq<char> {
    "ABCDEFGHJKLMNPQRSTUVWXYZ23456789"@
}

/// `rand`'s `gen_range` on the thread's generator: some number below `n`.
/// Nothing is promised of which.
#[verifier::external_body]
pub(crate) fn random_below(n: usize) -> (r: usize)
    requires
        n > 0,
    ensures
        r < n,
{
    rand::Rng::gen_range(&mut rand::thread_rng(), 0..n)
}

/// `rand`'s `fill` on the thread's generator: thirty-two bytes. Nothing is
/// promised of what they are.
#[verifier::external_body]
pub(crate) fn random_bytes() -> (r: [u8; 32]) {
    let mut bytes = [0u8; 32];
    rand::Rng::fill(&mut rand::thread_rng(), &mut bytes);
    bytes
}

/// The code that some places in the code alphabet give.
pub open spec fn code_at(picks: Seq<usize>) -> Seq<char> {
    picks.map_values(|i: usize| code_alphabet()[i as int])
}

/// The code that some places in the code alphabet give.
pub fn code_of(picks: &[usize]) -> (r: String)
    requires
        forall|i: int| 0 <= i < picks@.len() ==> (#[trigger] picks@[i]) < 32,
    ensures
        r@ == code_at(picks@),
{
    let alphabet = chars_of("ABCDEFGHJKLMNPQRSTUVWXYZ23456789");
    proof {
        reveal_strlit("ABCDEFGHJKLMNPQRSTUVWXYZ23456789");
    }
    let mut out = String::new();
    let mut n: usize = 0;
    while n < picks.len()
        invariant
            n <= picks@.len(),
            alphabet@ == code_alphabet(),
            alphabet@.len() == 32,
            out@ == code_at(picks@.take(n as int)),
            forall|i: int| 0 <= i < picks@.len() ==> (#[trigger] picks@[i]) < 32,
        decreases picks@.len() - n,
    {
        let i: usize = picks[n];
        out.push(alphabet[i]);
        n += 1;
        assert(out@ =~= code_at(picks@.take(n as int)));
    }
    assert(picks@.take(n as int) =~= picks@);
    out
}

/// A fresh code: eight characters of the code alphabet.
pub fn generate_code() -> (r: String)
    ensures
        exists|picks: Seq<usize>|
            {
                &&& picks.len() == CODE_LEN
                &&& forall|i: int| 0 <= i < picks.len() ==> (#[trigger] picks[i]) < 32
                &&& r@ == #[trigger] code_at(picks)
            },
{
    let mut picks: Vec<usize> = Vec::new();
    while picks.len() < CODE_LEN
        invariant
            picks@.len() <= CODE_LEN,
            forall|i: int| 0 <= i < picks@.len() ==> (#[trigger] picks@[i]) < 32,
        decreases CODE_LEN - picks@.len(),
    {
        picks.push(random_below(32));
    }
    code_of(picks.as_slice())
}

/// A code without white space around it and in capitals, as it is digested.
pub open spec fn canonical_code(code: Seq<char>) -> Seq<char> {
    uppered(trimmed(code))
}

/// A code in its canonical form.
pub fn normalize_code(code: &str) -> (r: String)
    ensures
        r@ == canonical_code(code@),
{
    let clean = trim(code);
    to_upper(clean.as_str())
}

/// The digest that is kept of a code. It is the same in whatever case the code
/// is typed.
pub fn hash_code(code: &str) -> (r: [u8; 32])
    ensures
        r@ == sha256_of(encode_utf8(canonical_code(code@))),
{
    let canonical = normalize_code(code);
    sha256(canonical.as_str().as_bytes())
}

/// The digest that is kept of a token.
pub fn hash_token(token: &str) -> (r: [u8; 32])
    ensures
        r@ == sha256_of(encode_utf8(token@)),
{
    sha256(token.as_bytes())
}

/// A fresh token: the hexadecimal text of thirty-two bytes.
pub fn generate_session_token() -> (r: String)
    ensures
        exists|b: Seq<u8>| b.len() == 32 && r@ == #[trigger] hexcodec::hex_text(b),
{
    let bytes = random_bytes();
    assert(bytes@.len() == 32);
    hexcodec::encode(bytes.as_slice())
}

/// Two texts are the same but for the case of letters.
pub open spec fn alike(a: Seq<char>, b: Seq<char>) -> bool {
    uppered(a) == uppered(b)
}

proof fn lemma_alike_chars(a: Seq<char>, b: Seq<char>)
    requires
        alike(a, b),
    ensures
        a.len() == b.len(),
        forall|i: int|
            0 <= i < a.len() ==> ascii_upper(#[trigger] a[i]) == ascii_upper(b[i])
                && is_white_space(a[i]) == is_white_space(b[i]),
{
    assert(uppered(a).len() == a.len() && uppered(b).len() == b.len());
    assert forall|i: int| 0 <= i < a.len() implies ascii_upper(#[trigger] a[i]) == ascii_upper(b[i])
        && is_white_space(a[i]) == is_white_space(b[i]) by {
        assert(uppered(a)[i] == ascii_upper(a[i]));
        assert(uppered(b)[i] == ascii_upper(b[i]));
    }
}

proof fn lemma_alike_front(a: Seq<char>, b: Seq<char>)
    requires
        alike(a, b),
    ensures
        alike(trim_front(a), trim_front(b)),
    decreases a.len(),
{
    lemma_alike_chars(a, b);
    if a.len() > 0 && is_white_space(a[0]) {
        assert(uppered(a.skip(1)) =~= uppered(b.skip(1)));
        lemma_alike_front(a.skip(1), b.skip(1));
    }
}

proof fn lemma_alike_back(a: Seq<char>, b: Seq<char>)
    requires
        alike(a, b),
    ensures
        alike(trim_back(a), trim_back(b)),
    decreases a.len(),
{
    lemma_alike_chars(a, b);
    if a.len() > 0 && is_white_space(a.last()) {
        assert(uppered(a.drop_last()) =~= uppered(b.drop_last()));
        lemma_alike_back(a.drop_last(), b.drop_last());
    }
}

/// Codes that differ only in the case of letters have the same digest.
pub proof fn code_digest_ignores_case(a: Seq<char>, b: Seq<char>)
    requires
        alike(a, b),
    ensures
        canonical_code(a) == canonical_code(b),
{
    lemma_alike_front(a, b);
    lemma_alike_back(trim_front(a), trim_front(b));
}

proof fn lemma_trim_before(blank: Seq<char>, s: Seq<char>)
    requires
        forall|i: int| 0 <= i < blank.len() ==> is_white_space(#[trigger] blank[i]),
    ensures
        trim_front(blank + s) == trim_front(s),
    decreases blank.len(),
{
    if blank.len() == 0 {
        assert(blank + s =~= s);
    } else {
        assert((blank + s)[0] == blank[0]);
        assert((blank + s).skip(1) =~= blank.skip(1) + s);
        lemma_trim_before(blank.skip(1), s);
    }
}

proof fn lemma_trim_after(s: Seq<char>, blank: Seq<char>)
    requires
        forall|i: int| 0 <= i < blank.len() ==> is_white_space(#[trigger] blank[i]),
    ensures
        trim_back(s + blank) == trim_back(s),
    decreases blank.len(),
{
    if blank.len() == 0 {
        assert(s + blank =~= s);
    } else {
        assert((s + blank).last() == blank.last());
        assert((s + blank).drop_last() =~= s + blank.drop_last());
        lemma_trim_after(s, blank.drop_last());
    }
}

proof fn lemma_trimmed_after(s: Seq<char>, blank: Seq<char>)
    requires
        forall|i: int| 0 <= i < blank.len() ==> is_white_space(#[trigger] blank[i]),
    ensures
        trimmed(s + blank) == trimmed(s),
    decreases s.len(),
{
    if s.len() == 0 {
        lemma_trim_before(blank, s);
        assert(blank + s =~= s + blank);
    } else if is_white_space(s[0]) {
        assert((s + blank)[0] == s[0]);
        assert((s + blank).skip(1) =~= s.skip(1) + blank);
        lemma_trimmed_after(s.skip(1), blank);
    } else {
        assert((s + blank)[0] == s[0]);
        lemma_trim_after(s, blank);
    }
}

/// A code has the same digest typed in small letters or in capitals, and with
/// white space around it.
pub proof fn code_digest_ignores_form(before: Seq<char>, code: Seq<char>, after: Seq<char>)
    requires
        forall|i: int| 0 <= i < before.len() ==> is_white_space(#[trigger] before[i]),
        forall|i: int| 0 <= i < after.len() ==> is_white_space(#[trigger] after[i]),
    ensures
        canonical_code(before + code + after) == canonical_code(code),
        canonical_code(before + lowered(code) + after) == canonical_code(code),
        canonical_code(before + uppered(code) + after) == canonical_code(code),
{
    lemma_trim_before(before, code + after);
    lemma_trimmed_after(code, after);
    assert(before + code + after =~= before + (code + after));
    lemma_trim_before(before, lowered(code) + after);
    lemma_trimmed_after(lowered(code), after);
    assert(before + lowered(code) + after =~= before + (lowered(code) + after));
    lemma_trim_before(before, uppered(code) + after);
    lemma_trimmed_after(uppered(code), after);
    assert(before + uppered(code) + after =~= before + (uppered(code) + after));
    assert(alike(lowered(code), code)) by {
        assert(uppered(lowered(code)) =~= uppered(code));
    }
    assert(alike(uppered(code), code)) by {
        assert(uppered(uppered(code)) =~= uppered(code));
    }
    code_digest_ignores_case(lowered(code), code);
    code_digest_ignores_case(uppered(code), code);
}

/// Whether a text has the form of a pairing code of `code_len` characters.
pub open spec fn is_code_like(s: Seq<char>, code_len: nat) -> bool {
    s.len() == code_len && forall|i: int|
        0 <= i < s.len() ==> is_alphanumeric(#[trigger] s[i])
}

/// Whether what was typed is, in its canonical form, a pairing code rather than
/// another secret.
pub fn looks_like_pairing_code(code: &str) -> (r: bool)
    ensures
        r == is_code_like(canonical_code(code@), CODE_LEN as nat),
{
    let canonical = normalize_code(code);
    let cs = chars_of(canonical.as_str());
    if cs.len() != CODE_LEN {
        return false;
    }
    let mut i: usize = 0;
    while i < cs.len()
        invariant
            i <= cs@.len(),
            cs@ == canonical@,
            canonical@ == canonical_code(code@),
            forall|j: int| 0 <= j < i ==> is_alphanumeric(#[trigger] canonical@[j]),
        decreases cs@.len() - i,
    {
        let c = cs[i];
        if !(('a' <= c && c <= 'z') || ('A' <= c && c <= 'Z') || ('0' <= c && c <= '9')) {
            assert(!is_alphanumeric(canonical@[i as int]));
            return false;
        }
        i += 1;
    }
    true
}

/// Codes are made of thirty-two capitals and digits, all different, without those that
/// look alike.
pub proof fn code_characters_are_told_apart(i: int, j: int)
    requires
        0 <= i < j < 32,
    ensures
        code_alphabet().len() == 32,
        code_alphabet()[i] != code_alphabet()[j],
        'A' <= code_alphabet()[i] <= 'Z' || '2' <= code_alphabet()[i] <= '9',
        code_alphabet()[i] != 'I' && code_alphabet()[i] != 'O',
{
    reveal_strlit("ABCDEFGHJKLMNPQRSTUVWXYZ23456789");
}

/// Each place gives one character of a code, so that codes of different places differ.
pub proof fn codes_follow_their_places(a: Seq<usize>, b: Seq<usize>)
    requires
        forall|i: int| 0 <= i < a.len() ==> (#[trigger] a[i]) < 32,
        forall|i: int| 0 <= i < b.len() ==> (#[trigger] b[i]) < 32,
    ensures
        code_at(a).len() == a.len(),
        code_at(a) == code_at(b) ==> a == b,
{
    if code_at(a) == code_at(b) {
        assert(code_at(a).len() == code_at(b).len());
        assert forall|i: int| 0 <= i < a.len() implies a[i] == b[i] by {
            assert(code_at(a)[i] == code_at(b)[i]);
            if a[i] < b[i] {
                code_characters_are_told_apart(a[i] as int, b[i] as int);
            } else if b[i] < a[i] {
                code_characters_are_told_apart(b[i] as int, a[i] as int);
            }
        }
        assert(a =~= b);
    }
}

/// What is typed counts as a code just if it has eight letters or digits, whatever case
/// they have and whatever white space is around them.
pub proof fn codes_are_recognised(before: Seq<char>, code: Seq<char>, after: Seq<char>)
    requires
        forall|i: int| 0 <= i < before.len() ==> is_white_space(#[trigger] before[i]),
        forall|i: int| 0 <= i < after.len() ==> is_white_space(#[trigger] after[i]),
        code.len() == 8,
        forall|i: int|
            0 <= i < code.len() ==> ('a' <= #[trigger] code[i] <= 'z' || 'A' <= code[i] <= 'Z'
                || '0' <= code[i] <= '9'),
    ensures
        is_code_like(canonical_code(before + code + after), CODE_LEN as nat),
        canonical_code(before + code + after) == uppered(code),
{
    code_digest_ignores_form(before, code, after);
    let cut = crate::text::trimming_takes_white_space_alone(code);
    assert(!is_white_space(code[0]) && !is_white_space(code[7]));
    assert(cut.0 == 0 && cut.1 == 8);
    assert(trimmed(code) =~= code);
    let c = canonical_code(before + code + after);
    assert(c == uppered(code));
    assert forall|i: int| 0 <= i < c.len() implies is_alphanumeric(#[trigger] c[i]) by {
        assert('a' <= code[i] <= 'z' || 'A' <= code[i] <= 'Z' || '0' <= code[i] <= '9');
    }
}

/// What counts as a code has exactly eight characters, each a letter or a digit, and is
/// in capitals.
pub proof fn only_codes_are_recognised(typed: Seq<char>)
    requires
        is_code_like(canonical_code(typed), CODE_LEN as nat),
    ensures
        canonical_code(typed).len() == 8,
        forall|i: int|
            0 <= i < 8 ==> ('A' <= #[trigger] canonical_code(typed)[i] <= 'Z' || '0'
                <= canonical_code(typed)[i] <= '9'),
{
    let c = canonical_code(typed);
    assert forall|i: int| 0 <= i < 8 implies ('A' <= #[trigger] c[i] <= 'Z' || '0' <= c[i] <= '9') by {
        assert(is_alphanumeric(c[i]));
        assert(c[i] == ascii_upper(trimmed(typed)[i]));
    }
}


/// A new code has eight characters, each a capital letter or a digit and none of `I`, `O`,
/// `0` and `1`; and it is recognised as a code.
pub proof fn new_codes_are_codes(r: String, i: int, typed: &str, looks: bool)
    requires
        call_ensures(generate_code, (), r),
        typed@ == r@,
        call_ensures(looks_like_pairing_code, (typed,), looks),
    ensures
        r@.len() == 8,
        0 <= i < 8 ==> ('A' <= r@[i] <= 'Z' || '2' <= r@[i] <= '9') && r@[i] != 'I' && r@[i] != 'O',
        looks,
{
    let picks = choose|picks: Seq<usize>|
        {
            &&& picks.len() == CODE_LEN
            &&& forall|i: int| 0 <= i < picks.len() ==> (#[trigger] picks[i]) < 32
            &&& r@ == #[trigger] code_at(picks)
        };
    assert forall|j: int| 0 <= j < 8 implies ('A' <= #[trigger] r@[j] <= 'Z' || '2' <= r@[j] <= '9')
        && r@[j] != 'I' && r@[j] != 'O' by {
        assert(picks[j] < 32);
        lemma_code_character(picks[j] as int);
    }
    let none = Seq::<char>::empty();
    codes_are_recognised(none, r@, none);
    assert(none + r@ + none =~= r@);
}

proof fn lemma_code_character(k: int)
    requires
        0 <= k < 32,
    ensures
        ('A' <= code_alphabet()[k] <= 'Z' || '2' <= code_alphabet()[k] <= '9') && code_alphabet()[k]
            != 'I' && code_alphabet()[k] != 'O',
{
    reveal_strlit("ABCDEFGHJKLMNPQRSTUVWXYZ23456789");
    let s = "ABCDEFGHJKLMNPQRSTUVWXYZ23456789"@;
    assert(s.len() == 32);
    assert(s[0] == 'A' && s[1] == 'B' && s[2] == 'C' && s[3] == 'D' && s[4] == 'E' && s[5] == 'F'
        && s[6] == 'G' && s[7] == 'H');
    assert(s[8] == 'J' && s[9] == 'K' && s[10] == 'L' && s[11] == 'M' && s[12] == 'N' && s[13]
        == 'P' && s[14] == 'Q' && s[15] == 'R');
    assert(s[16] == 'S' && s[17] == 'T' && s[18] == 'U' && s[19] == 'V' && s[20] == 'W' && s[21]
        == 'X' && s[22] == 'Y' && s[23] == 'Z');
    assert(s[24] == '2' && s[25] == '3' && s[26] == '4' && s[27] == '5' && s[28] == '6' && s[29]
        == '7' && s[30] == '8' && s[31] == '9');
}

/// The digest of a code is that of its capitals, however it is typed; that of a token is
/// of the token as it is. A session token has sixty-four hexadecimal digits.
pub proof fn typed_codes_have_one_digest(
    before: Seq<char>,
    code: &str,
    after: Seq<char>,
    typed: &str,
    a: [u8; 32],
    b: [u8; 32],
    token: &str,
    t: [u8; 32],
    session: String,
)
    requires
        forall|i: int| 0 <= i < before.len() ==> is_white_space(#[trigger] before[i]),
        forall|i: int| 0 <= i < after.len() ==> is_white_space(#[trigger] after[i]),
        typed@ == before + code@ + after || typed@ == before + lowered(code@) + after,
        call_ensures(hash_code, (code,), a),
        call_ensures(hash_code, (typed,), b),
        call_ensures(hash_token, (token,), t),
        call_ensures(generate_session_token, (), session),
    ensures
        a@ == b@,
        t@ == sha256_of(encode_utf8(token@)),
        session@.len() == 64,
        hexcodec::is_hex(session@),
{
    code_digest_ignores_form(before, code@, after);
    let bytes = choose|b: Seq<u8>| b.len() == 32 && session@ == #[trigger] hexcodec::hex_text(b);
    hexcodec::decode_restores_encode(bytes);
}


} // verus!
