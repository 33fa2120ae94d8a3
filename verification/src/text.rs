//! Text as sequences of characters: the small string operations that the rest
//! of the library states its contracts with.

use vstd::prelude::*;

verus! {

/// `String::push`: appends one character.
pub assume_specification[ String::push ](s: &mut String, ch: char)
    ensures
        final(s)@ == old(s)@.push(ch),
;

/// `String::push_str`: appends all characters of `string`, in order.
pub assume_specification[ String::push_str ](s: &mut String, string: &str)
    ensures
        final(s)@ == old(s)@ + string@,
;

/// Whether a character is an ASCII letter or digit.
pub open spec fn is_alphanumeric(c: char) -> bool {
    'a' <= c <= 'z' || 'A' <= c <= 'Z' || '0' <= c <= '9'
}

/// Whether a character is white space: one of those that have the Unicode
/// property `White_Space`.
pub open spec fn is_white_space(c: char) -> bool {
    ||| '\u{9}' <= c <= '\u{d}'
    ||| c == ' '
    ||| c == '\u{85}'
    ||| c == '\u{a0}'
    ||| c == '\u{1680}'
    ||| '\u{2000}' <= c <= '\u{200a}'
    ||| c == '\u{2028}'
    ||| c == '\u{2029}'
    ||| c == '\u{202f}'
    ||| c == '\u{205f}'
    ||| c == '\u{3000}'
}

/// Whether a character is white space.
pub fn char_is_white_space(c: char) -> (b: bool)
    ensures
        b == is_white_space(c),
{
    ('\u{9}' <= c && c <= '\u{d}') || c == ' ' || c == '\u{85}' || c == '\u{a0}' || c == '\u{1680}'
        || ('\u{2000}' <= c && c <= '\u{200a}') || c == '\u{2028}' || c == '\u{2029}' || c
        == '\u{202f}' || c == '\u{205f}' || c == '\u{3000}'
}

/// An optional string as an optional character sequence.
pub open spec fn text_of(s: Option<String>) -> Option<Seq<char>> {
    match s {
        Some(t) => Some(t@),
        None => None,
    }
}

/// A copy of an optional string.
pub fn copy_text(s: &Option<String>) -> (r: Option<String>)
    ensures
        text_of(r) == text_of(*s),
{
    match s {
        Some(t) => Some(t.clone()),
        None => None,
    }
}

/// The character sequences of a sequence of strings.
pub open spec fn texts(v: Seq<String>) -> Seq<Seq<char>> {
    v.map_values(|s: String| s@)
}

/// The characters of a string, in order.
pub fn chars_of(s: &str) -> (r: Vec<char>)
    ensures
        r@ == s@,
{
    let mut out: Vec<char> = Vec::new();
    for c in it: s.chars()
        invariant
            it.seq() == s@,
            out@ == s@.take(it.index()),
    {
        proof {
            assert(s@.take(it.index()).push(c) =~= s@.take(it.index() + 1));
        }
        out.push(c);
    }
    assert(s@.take(s@.len() as int) =~= s@);
    out
}

/// The characters `from..to` of a slice as a string.
pub fn string_of_range(cs: &[char], from: usize, to: usize) -> (r: String)
    requires
        from <= to <= cs@.len(),
    ensures
        r@ == cs@.subrange(from as int, to as int),
{
    let mut out = String::new();
    let mut i: usize = from;
    while i < to
        invariant
            from <= i <= to <= cs@.len(),
            out@ == cs@.subrange(from as int, i as int),
        decreases to - i,
    {
        out.push(cs[i]);
        proof {
            assert(cs@.subrange(from as int, i as int).push(cs@[i as int])
                =~= cs@.subrange(from as int, i + 1));
        }
        i += 1;
    }
    out
}

/// Whether two byte slices are equal.
pub fn same_bytes(a: &[u8], b: &[u8]) -> (r: bool)
    ensures
        r == (a@ == b@),
{
    if a.len() != b.len() {
        return false;
    }
    let mut i: usize = 0;
    while i < a.len()
        invariant
            i <= a@.len() == b@.len(),
            forall|j: int| 0 <= j < i ==> a@[j] == b@[j],
        decreases a@.len() - i,
    {
        if a[i] != b[i] {
            return false;
        }
        i += 1;
    }
    assert(a@ =~= b@);
    true
}

/// Whether two strings have the same characters.
pub fn same_text(a: &str, b: &str) -> (r: bool)
    ensures
        r == (a@ == b@),
{
    proof {
        vstd::utf8::encode_utf8_decode_utf8(a@);
        vstd::utf8::encode_utf8_decode_utf8(b@);
    }
    same_bytes(a.as_bytes(), b.as_bytes())
}

/// A copy of the bytes `from..to` of a slice.
pub fn copy_range(b: &[u8], from: usize, to: usize) -> (r: Vec<u8>)
    requires
        from <= to <= b@.len(),
    ensures
        r@ == b@.subrange(from as int, to as int),
{
    let mut out: Vec<u8> = Vec::new();
    let mut i: usize = from;
    while i < to
        invariant
            from <= i <= to <= b@.len(),
            out@ == b@.subrange(from as int, i as int),
        decreases to - i,
    {
        out.push(b[i]);
        proof {
            assert(b@.subrange(from as int, i as int).push(b@[i as int])
                =~= b@.subrange(from as int, i + 1));
        }
        i += 1;
    }
    out
}

/// `s` without its leading white space.
pub open spec fn trim_front(s: Seq<char>) -> Seq<char>
    decreases s.len(),
{
    if s.len() > 0 && is_white_space(s[0]) {
        trim_front(s.skip(1))
    } else {
        s
    }
}

/// `s` without its trailing white space.
pub open spec fn trim_back(s: Seq<char>) -> Seq<char>
    decreases s.len(),
{
    if s.len() > 0 && is_white_space(s.last()) {
        trim_back(s.drop_last())
    } else {
        s
    }
}

/// `s` without leading and trailing white space.
pub open spec fn trimmed(s: Seq<char>) -> Seq<char> {
    trim_back(trim_front(s))
}

/// `s` without leading and trailing white space.
pub fn trim(s: &str) -> (r: String)
    ensures
        r@ == trimmed(s@),
{
    let cs = chars_of(s);
    let mut from: usize = 0;
    let mut to: usize = cs.len();
    proof {
        assert(s@.skip(0) =~= s@);
    }
    while from < cs.len() && char_is_white_space(cs[from])
        invariant
            from <= cs@.len(),
            cs@ == s@,
            trim_front(s@) == trim_front(s@.skip(from as int)),
        decreases cs@.len() - from,
    {
        proof {
            assert(s@.skip(from as int).skip(1) =~= s@.skip(from + 1));
        }
        from += 1;
    }
    proof {
        assert(trim_front(s@) == s@.skip(from as int));
        assert(s@.subrange(from as int, to as int) =~= s@.skip(from as int));
    }
    while from < to && char_is_white_space(cs[to - 1])
        invariant
            from <= to <= cs@.len(),
            cs@ == s@,
            trimmed(s@) == trim_back(s@.subrange(from as int, to as int)),
        decreases to - from,
    {
        proof {
            assert(s@.subrange(from as int, to as int).drop_last()
                =~= s@.subrange(from as int, to - 1));
        }
        to -= 1;
    }
    string_of_range(cs.as_slice(), from, to)
}

/// `s` without the trailing characters equal to `c`.
pub open spec fn trim_end_char(s: Seq<char>, c: char) -> Seq<char>
    decreases s.len(),
{
    if s.len() > 0 && s.last() == c {
        trim_end_char(s.drop_last(), c)
    } else {
        s
    }
}

/// `s` without the leading characters equal to `c`.
pub open spec fn trim_start_char(s: Seq<char>, c: char) -> Seq<char>
    decreases s.len(),
{
    if s.len() > 0 && s[0] == c {
        trim_start_char(s.skip(1), c)
    } else {
        s
    }
}

/// `s` without the trailing characters equal to `c`.
pub fn trim_end_matching(s: &str, c: char) -> (r: String)
    ensures
        r@ == trim_end_char(s@, c),
{
    let cs = chars_of(s);
    let mut to: usize = cs.len();
    proof {
        assert(s@.take(s@.len() as int) =~= s@);
    }
    while to > 0 && cs[to - 1] == c
        invariant
            to <= cs@.len(),
            cs@ == s@,
            trim_end_char(s@, c) == trim_end_char(s@.take(to as int), c),
        decreases to,
    {
        proof {
            assert(s@.take(to as int).drop_last() =~= s@.take(to - 1));
        }
        to -= 1;
    }
    assert(s@.subrange(0, to as int) =~= s@.take(to as int));
    string_of_range(cs.as_slice(), 0, to)
}

/// `s` without the leading characters equal to `c`.
pub fn trim_start_matching(s: &str, c: char) -> (r: String)
    ensures
        r@ == trim_start_char(s@, c),
{
    let cs = chars_of(s);
    let mut from: usize = 0;
    proof {
        assert(s@.skip(0) =~= s@);
    }
    while from < cs.len() && cs[from] == c
        invariant
            from <= cs@.len(),
            cs@ == s@,
            trim_start_char(s@, c) == trim_start_char(s@.skip(from as int), c),
        decreases cs@.len() - from,
    {
        proof {
            assert(s@.skip(from as int).skip(1) =~= s@.skip(from + 1));
        }
        from += 1;
    }
    assert(s@.subrange(from as int, s@.len() as int) =~= s@.skip(from as int));
    string_of_range(cs.as_slice(), from, cs.len())
}

/// Whether `pat` occurs in `s` at position `i`.
pub open spec fn occurs_at(s: Seq<char>, pat: Seq<char>, i: int) -> bool {
    0 <= i && i + pat.len() <= s.len() && s.subrange(i, i + pat.len()) == pat
}

/// Whether `s` begins with `pat`.
pub open spec fn begins_with(s: Seq<char>, pat: Seq<char>) -> bool {
    occurs_at(s, pat, 0)
}

/// Whether `s` ends with `pat`.
pub open spec fn finishes_with(s: Seq<char>, pat: Seq<char>) -> bool {
    occurs_at(s, pat, s.len() - pat.len())
}

/// Whether `pat` occurs in `cs` at position `i`.
pub fn occurs(cs: &[char], pat: &[char], i: usize) -> (r: bool)
    ensures
        r == occurs_at(cs@, pat@, i as int),
{
    if i > cs.len() || pat.len() > cs.len() - i {
        return false;
    }
    let n: usize = cs.len();
    let mut k: usize = 0;
    while k < pat.len()
        invariant
            k <= pat@.len(),
            i + pat@.len() <= cs@.len() == n,
            forall|j: int| 0 <= j < k ==> cs@[i + j] == pat@[j],
        decreases pat@.len() - k,
    {
        if cs[i + k] != pat[k] {
            proof {
                assert(cs@.subrange(i as int, i + pat@.len())[k as int] != pat@[k as int]);
            }
            return false;
        }
        k += 1;
    }
    assert(cs@.subrange(i as int, i + pat@.len()) =~= pat@);
    true
}

/// Whether `s` begins with `pat`.
pub fn starts_with(s: &str, pat: &str) -> (r: bool)
    ensures
        r == begins_with(s@, pat@),
{
    let cs = chars_of(s);
    let ps = chars_of(pat);
    occurs(cs.as_slice(), ps.as_slice(), 0)
}

/// Whether `s` ends with `pat`.
pub fn ends_with(s: &str, pat: &str) -> (r: bool)
    ensures
        r == finishes_with(s@, pat@),
{
    let cs = chars_of(s);
    let ps = chars_of(pat);
    if ps.len() > cs.len() {
        return false;
    }
    occurs(cs.as_slice(), ps.as_slice(), cs.len() - ps.len())
}

/// The first position at or after `from` at which `pat` occurs in `s`.
pub open spec fn find_from(s: Seq<char>, pat: Seq<char>, from: int) -> Option<int>
    decreases s.len() + 1 - from,
{
    if from < 0 || from + pat.len() > s.len() {
        None
    } else if occurs_at(s, pat, from) {
        Some(from)
    } else {
        find_from(s, pat, from + 1)
    }
}

/// The first position at or after `from` at which `pat` occurs in `cs`.
pub fn find(cs: &[char], pat: &[char], from: usize) -> (r: Option<usize>)
    ensures
        match r {
            Some(i) => find_from(cs@, pat@, from as int) == Some(i as int) && i + pat@.len()
                <= cs@.len() && from <= i,
            None => find_from(cs@, pat@, from as int) is None,
        },
{
    let mut i: usize = from;
    while i <= cs.len() && pat.len() <= cs.len() - i
        invariant
            from <= i,
            find_from(cs@, pat@, from as int) == find_from(cs@, pat@, i as int),
        decreases cs@.len() + 1 - i,
    {
        if occurs(cs, pat, i) {
            return Some(i);
        }
        if i == cs.len() {
            assert(find_from(cs@, pat@, i + 1) is None);
            return None;
        }
        i += 1;
    }
    None
}

/// Whether `c` is among the characters of `s`.
pub fn contains_char(s: &str, c: char) -> (r: bool)
    ensures
        r == s@.contains(c),
{
    let cs = chars_of(s);
    let mut i: usize = 0;
    while i < cs.len()
        invariant
            i <= cs@.len(),
            cs@ == s@,
            forall|j: int| 0 <= j < i ==> s@[j] != c,
        decreases cs@.len() - i,
    {
        if cs[i] == c {
            assert(s@[i as int] == c);
            return true;
        }
        i += 1;
    }
    false
}

/// Whether a text is among some.
pub fn contains_text(names: &[String], name: &str) -> (r: bool)
    ensures
        r == texts(names@).contains(name@),
{
    let mut i: usize = 0;
    while i < names.len()
        invariant
            i <= names@.len(),
            forall|j: int| 0 <= j < i ==> (#[trigger] texts(names@)[j]) != name@,
        decreases names@.len() - i,
    {
        if same_text(names[i].as_str(), name) {
            assert(texts(names@)[i as int] == name@);
            return true;
        }
        assert(texts(names@)[i as int] == names@[i as int]@);
        i += 1;
    }
    false
}

/// `s` with each occurrence of `pat`, from the left and without overlap,
/// replaced by `to`.
pub open spec fn replaced(s: Seq<char>, pat: Seq<char>, to: Seq<char>) -> Seq<char>
    decreases s.len(),
{
    if s.len() == 0 {
        Seq::empty()
    } else if pat.len() > 0 && begins_with(s, pat) {
        to + replaced(s.skip(pat.len() as int), pat, to)
    } else {
        seq![s[0]] + replaced(s.skip(1), pat, to)
    }
}

/// `s` with each occurrence of `pat` replaced by `to`.
pub fn replace(s: &str, pat: &str, to: &str) -> (r: String)
    requires
        pat@.len() > 0,
    ensures
        r@ == replaced(s@, pat@, to@),
{
    let cs = chars_of(s);
    let ps = chars_of(pat);
    let mut out = String::new();
    let mut i: usize = 0;
    proof {
        assert(s@.skip(0) =~= s@);
    }
    while i < cs.len()
        invariant
            i <= cs@.len(),
            cs@ == s@,
            ps@ == pat@,
            pat@.len() > 0,
            replaced(s@, pat@, to@) =~= out@ + replaced(s@.skip(i as int), pat@, to@),
        decreases cs@.len() - i,
    {
        let ghost rest = s@.skip(i as int);
        let ghost before = out@;
        if occurs(cs.as_slice(), ps.as_slice(), i) {
            proof {
                assert(rest.subrange(0, pat@.len() as int) =~= s@.subrange(
                    i as int,
                    i + pat@.len(),
                ));
                assert(rest.skip(pat@.len() as int) =~= s@.skip(i + pat@.len()));
            }
            out.push_str(to);
            i += ps.len();
        } else {
            proof {
                if begins_with(rest, pat@) {
                    assert(rest.subrange(0, pat@.len() as int) =~= s@.subrange(
                        i as int,
                        i + pat@.len(),
                    ));
                }
                assert(rest.skip(1) =~= s@.skip(i + 1));
            }
            out.push(cs[i]);
            i += 1;
        }
    }
    out
}

/// The pieces of `s` between the occurrences of `sep`.
pub open spec fn pieces(s: Seq<char>, sep: char) -> Seq<Seq<char>>
    decreases s.len(),
{
    if s.len() == 0 {
        seq![Seq::empty()]
    } else {
        let rest = pieces(s.skip(1), sep);
        if s[0] == sep {
            seq![Seq::empty()] + rest
        } else {
            rest.update(0, seq![s[0]] + rest[0])
        }
    }
}

/// There is always a first piece.
pub proof fn lemma_pieces_nonempty(s: Seq<char>, sep: char)
    ensures
        pieces(s, sep).len() >= 1,
    decreases s.len(),
{
    if s.len() > 0 {
        lemma_pieces_nonempty(s.skip(1), sep);
    }
}

/// The pieces of `s` between the occurrences of `sep`.
pub fn split(s: &str, sep: char) -> (r: Vec<String>)
    ensures
        texts(r@) == pieces(s@, sep),
        r@.len() >= 1,
{
    let cs = chars_of(s);
    let mut out: Vec<String> = Vec::new();
    let mut from: usize = 0;
    let mut i: usize = 0;
    proof {
        lemma_pieces_nonempty(s@, sep);
        assert(s@.skip(0) =~= s@);
        assert(s@.subrange(0, 0) + pieces(s@, sep)[0] =~= pieces(s@, sep)[0]);
        assert(pieces(s@, sep) =~= texts(out@) + pieces(s@.skip(0), sep).update(
            0,
            s@.subrange(0, 0) + pieces(s@.skip(0), sep)[0],
        ));
    }
    while i < cs.len()
        invariant
            from <= i <= cs@.len(),
            cs@ == s@,
            pieces(s@.skip(i as int), sep).len() >= 1,
            pieces(s@, sep) == texts(out@) + pieces(s@.skip(i as int), sep).update(
                0,
                s@.subrange(from as int, i as int) + pieces(s@.skip(i as int), sep)[0],
            ),
        decreases cs@.len() - i,
    {
        let ghost here = s@.skip(i as int);
        let ghost rest = pieces(s@.skip(i + 1), sep);
        proof {
            assert(here.skip(1) =~= s@.skip(i + 1));
            lemma_pieces_nonempty(s@.skip(i + 1), sep);
        }
        if cs[i] == sep {
            let piece = string_of_range(cs.as_slice(), from, i);
            let ghost before = out@;
            out.push(piece);
            proof {
                assert(texts(out@) =~= texts(before).push(piece@));
                assert(piece@ + Seq::<char>::empty() =~= piece@);
                assert(s@.subrange(i + 1, i + 1) + rest[0] =~= rest[0]);
                assert(texts(before) + (seq![Seq::<char>::empty()] + rest).update(0, piece@)
                    =~= texts(out@) + rest.update(0, rest[0]));
            }
            from = i + 1;
        } else {
            proof {
                let cur = s@.subrange(from as int, i as int);
                assert(cur + (seq![s@[i as int]] + rest[0]) =~= s@.subrange(from as int, i + 1)
                    + rest[0]);
                assert(rest.update(0, seq![s@[i as int]] + rest[0]).update(
                    0,
                    cur + (seq![s@[i as int]] + rest[0]),
                ) =~= rest.update(0, s@.subrange(from as int, i + 1) + rest[0]));
            }
        }
        i += 1;
    }
    let piece = string_of_range(cs.as_slice(), from, cs.len());
    let ghost before = out@;
    out.push(piece);
    proof {
        assert(s@.skip(i as int).len() == 0);
        assert(piece@ + Seq::<char>::empty() =~= piece@);
        assert(texts(out@) =~= texts(before).push(piece@));
        assert(texts(before) + seq![Seq::<char>::empty()].update(0, piece@) =~= texts(before).push(
            piece@,
        ));
    }
    out
}

/// The texts of `parts` with `sep` between neighbours.
pub open spec fn joined(parts: Seq<Seq<char>>, sep: Seq<char>) -> Seq<char>
    decreases parts.len(),
{
    if parts.len() == 0 {
        Seq::empty()
    } else if parts.len() == 1 {
        parts[0]
    } else {
        joined(parts.drop_last(), sep) + sep + parts.last()
    }
}

/// The texts of `parts` with `sep` between neighbours.
pub fn join(parts: &[String], sep: &str) -> (r: String)
    ensures
        r@ == joined(texts(parts@), sep@),
{
    let mut out = String::new();
    let mut i: usize = 0;
    while i < parts.len()
        invariant
            i <= parts@.len(),
            out@ == joined(texts(parts@).take(i as int), sep@),
        decreases parts@.len() - i,
    {
        let ghost done = texts(parts@).take(i + 1);
        proof {
            assert(done.drop_last() =~= texts(parts@).take(i as int));
        }
        if i > 0 {
            out.push_str(sep);
        }
        out.push_str(parts[i].as_str());
        proof {
            if i == 0 {
                assert(out@ =~= parts@[0]@);
            }
        }
        i += 1;
    }
    assert(texts(parts@).take(i as int) =~= texts(parts@));
    out
}

/// The decimal digit of a value below ten.
pub open spec fn digit(d: nat) -> char {
    (48 + d) as char
}

/// A natural number in decimal, without leading zeros.
pub open spec fn decimal(n: nat) -> Seq<char>
    decreases n,
{
    if n < 10 {
        seq![digit(n)]
    } else {
        decimal(n / 10).push(digit(n % 10))
    }
}

/// An integer in decimal, with a minus sign if it is negative.
pub open spec fn decimal_int(n: int) -> Seq<char> {
    if n < 0 {
        seq!['-'] + decimal((-n) as nat)
    } else {
        decimal(n as nat)
    }
}

/// Appends `n` in decimal to `out`.
pub fn push_decimal(out: &mut String, n: u128)
    ensures
        final(out)@ == old(out)@ + decimal(n as nat),
    decreases n,
{
    let d: u8 = (n % 10) as u8;
    if n >= 10 {
        push_decimal(out, n / 10);
        out.push((48u8 + d) as char);
    } else {
        out.push((48u8 + d) as char);
    }
}

/// Appends `n` in decimal, with its sign, to `out`.
pub fn push_signed(out: &mut String, n: i64)
    ensures
        final(out)@ == old(out)@ + decimal_int(n as int),
{
    if n < 0 {
        out.push('-');
        push_decimal(out, (-(n as i128)) as u128);
        assert(final(out)@ =~= old(out)@ + decimal_int(n as int));
    } else {
        push_decimal(out, n as u128);
    }
}

/// `n` in decimal.
pub fn decimal_text(n: u128) -> (r: String)
    ensures
        r@ == decimal(n as nat),
{
    let mut out = String::new();
    push_decimal(&mut out, n);
    assert(out@ =~= decimal(n as nat));
    out
}

/// Whether `c` is an ASCII decimal digit.
pub open spec fn is_digit(c: char) -> bool {
    '0' <= c <= '9'
}

/// The value of a run of decimal digits.
pub open spec fn digits_value(s: Seq<char>) -> nat
    decreases s.len(),
{
    if s.len() == 0 {
        0
    } else {
        digits_value(s.drop_last()) * 10 + (s.last() as nat - 48) as nat
    }
}

/// Whether every character of a text is a decimal digit.
pub open spec fn all_digits(s: Seq<char>) -> bool {
    forall|i: int| 0 <= i < s.len() ==> is_digit(#[trigger] s[i])
}

/// A text without the sign it may begin with.
pub open spec fn unsigned_part(s: Seq<char>) -> Seq<char> {
    if s.len() > 0 && (s[0] == '-' || s[0] == '+') {
        s.skip(1)
    } else {
        s
    }
}

/// The integer that a text of digits with an optional sign writes.
pub open spec fn signed_value(s: Seq<char>) -> Option<int> {
    let body = unsigned_part(s);
    if body.len() > 0 && all_digits(body) {
        if s[0] == '-' {
            Some(-(digits_value(body) as int))
        } else {
            Some(digits_value(body) as int)
        }
    } else {
        None
    }
}

proof fn lemma_digits_grow(s: Seq<char>, k: int)
    requires
        0 <= k <= s.len(),
    ensures
        digits_value(s.take(k)) <= digits_value(s),
    decreases s.len() - k,
{
    if k < s.len() {
        lemma_digits_grow(s, k + 1);
        assert(s.take(k + 1).drop_last() =~= s.take(k));
    } else {
        assert(s.take(k) =~= s);
    }
}

/// A number in decimal reads back as itself.
pub proof fn lemma_decimal_reads_back(n: nat)
    ensures
        decimal(n).len() > 0,
        decimal(n)[0] != '-',
        signed_value(decimal(n)) == Some(n as int),
    decreases n,
{
    lemma_decimal_digits(n);
    let s = decimal(n);
    assert(is_digit(s[0]));
    assert(unsigned_part(s) =~= s);
}

proof fn lemma_decimal_digits(n: nat)
    ensures
        decimal(n).len() > 0,
        all_digits(decimal(n)),
        digits_value(decimal(n)) == n,
    decreases n,
{
    let s = decimal(n);
    if n < 10 {
        assert(s.drop_last() =~= Seq::<char>::empty());
        assert(digits_value(Seq::<char>::empty()) == 0);
        assert(s.last() == digit(n));
    } else {
        lemma_decimal_digits(n / 10);
        assert(s.drop_last() =~= decimal(n / 10));
        assert(s.last() == digit(n % 10));
        assert forall|i: int| 0 <= i < s.len() implies is_digit(#[trigger] s[i]) by {
            if i < s.len() - 1 {
                assert(s[i] == decimal(n / 10)[i]);
            }
        }
    }
}

/// Reads a decimal integer that fits in 64 bits, as `str::parse` does.
pub fn parse_i64(s: &str) -> (r: Option<i64>)
    ensures
        match signed_value(s@) {
            Some(v) => if i64::MIN <= v <= i64::MAX {
                r is Some && r->0 == v
            } else {
                r is None
            },
            None => r is None,
        },
{
    let cs = chars_of(s);
    let mut from: usize = 0;
    let mut negative = false;
    if cs.len() > 0 && (cs[0] == '-' || cs[0] == '+') {
        negative = cs[0] == '-';
        from = 1;
    }
    let ghost body = unsigned_part(s@);
    proof {
        assert(s@.skip(0) =~= s@);
        assert(body =~= s@.skip(from as int));
    }
    if from == cs.len() {
        return None;
    }
    let mut acc: i128 = 0;
    let mut i: usize = from;
    let mut too_large = false;
    while i < cs.len()
        invariant
            from <= i <= cs@.len(),
            cs@ == s@,
            body == s@.skip(from as int),
            body == unsigned_part(s@),
            forall|j: int| 0 <= j < i - from ==> is_digit(#[trigger] body[j]),
            too_large ==> digits_value(body) > 0x8000_0000_0000_0000,
            !too_large ==> acc == digits_value(body.take(i - from)),
            0 <= acc <= 0x8000_0000_0000_0000,
        decreases cs@.len() - i,
    {
        let c = cs[i];
        proof {
            assert(body[i - from] == c);
        }
        if c < '0' || c > '9' {
            assert(!is_digit(body[i - from]));
            assert(!all_digits(body));
            return None;
        }
        proof {
            assert(body.take(i - from + 1).drop_last() =~= body.take(i - from));
        }
        if !too_large {
            let next: i128 = acc * 10 + (c as i128 - 48);
            if next > 0x8000_0000_0000_0000 {
                too_large = true;
                proof {
                    lemma_digits_grow(body, i - from + 1);
                }
            } else {
                acc = next;
            }
        }
        i += 1;
    }
    proof {
        assert(body.take(body.len() as int) =~= body);
    }
    if too_large {
        None
    } else if negative {
        Some((-acc) as i64)
    } else if acc == 0x8000_0000_0000_0000 {
        None
    } else {
        Some(acc as i64)
    }
}

/// A character with the ASCII capitals mapped to small letters.
pub open spec fn ascii_lower(c: char) -> char {
    if 'A' <= c <= 'Z' {
        (c as u32 + 32) as char
    } else {
        c
    }
}

/// A character with the ASCII small letters mapped to capitals.
pub open spec fn ascii_upper(c: char) -> char {
    if 'a' <= c <= 'z' {
        (c as u32 - 32) as char
    } else {
        c
    }
}

/// A text with the ASCII capitals mapped to small letters.
pub open spec fn lowered(s: Seq<char>) -> Seq<char> {
    s.map_values(|c: char| ascii_lower(c))
}

/// A text with the ASCII small letters mapped to capitals.
pub open spec fn uppered(s: Seq<char>) -> Seq<char> {
    s.map_values(|c: char| ascii_upper(c))
}

/// A character with the ASCII capitals mapped to small letters.
pub fn lower_char(c: char) -> (r: char)
    ensures
        r == ascii_lower(c),
{
    if 'A' <= c && c <= 'Z' {
        ((c as u32) as u8 + 32u8) as char
    } else {
        c
    }
}

/// A character with the ASCII small letters mapped to capitals.
pub fn upper_char(c: char) -> (r: char)
    ensures
        r == ascii_upper(c),
{
    if 'a' <= c && c <= 'z' {
        ((c as u32) as u8 - 32u8) as char
    } else {
        c
    }
}

/// A text with the ASCII capitals mapped to small letters.
pub fn to_lower(s: &str) -> (r: String)
    ensures
        r@ == lowered(s@),
{
    let mut out = String::new();
    for c in it: s.chars()
        invariant
            it.seq() == s@,
            out@ == lowered(s@).take(it.index()),
    {
        out.push(lower_char(c));
        proof {
            assert(lowered(s@).take(it.index()).push(ascii_lower(c)) =~= lowered(s@).take(
                it.index() + 1,
            ));
        }
    }
    assert(lowered(s@).take(s@.len() as int) =~= lowered(s@));
    out
}

/// A text with the ASCII small letters mapped to capitals.
pub fn to_upper(s: &str) -> (r: String)
    ensures
        r@ == uppered(s@),
{
    let mut out = String::new();
    for c in it: s.chars()
        invariant
            it.seq() == s@,
            out@ == uppered(s@).take(it.index()),
    {
        out.push(upper_char(c));
        proof {
            assert(uppered(s@).take(it.index()).push(ascii_upper(c)) =~= uppered(s@).take(
                it.index() + 1,
            ));
        }
    }
    assert(uppered(s@).take(s@.len() as int) =~= uppered(s@));
    out
}

proof fn lemma_trim_front_cut(s: Seq<char>) -> (a: int)
    ensures
        0 <= a <= s.len(),
        trim_front(s) == s.subrange(a, s.len() as int),
        forall|i: int| 0 <= i < a ==> is_white_space(#[trigger] s[i]),
        a < s.len() ==> !is_white_space(s[a]),
    decreases s.len(),
{
    if s.len() > 0 && is_white_space(s[0]) {
        let rest = s.skip(1);
        let b = lemma_trim_front_cut(rest);
        assert forall|i: int| 0 <= i < b + 1 implies is_white_space(#[trigger] s[i]) by {
            if i > 0 {
                assert(rest[i - 1] == s[i]);
            }
        }
        assert(rest.subrange(b, rest.len() as int) =~= s.subrange(b + 1, s.len() as int));
        b + 1
    } else {
        assert(s.subrange(0, s.len() as int) =~= s);
        0
    }
}

proof fn lemma_trim_back_cut(s: Seq<char>) -> (b: int)
    ensures
        0 <= b <= s.len(),
        trim_back(s) == s.subrange(0, b),
        forall|i: int| b <= i < s.len() ==> is_white_space(#[trigger] s[i]),
        b > 0 ==> !is_white_space(s[b - 1]),
    decreases s.len(),
{
    if s.len() > 0 && is_white_space(s.last()) {
        let rest = s.drop_last();
        let b = lemma_trim_back_cut(rest);
        assert forall|i: int| b <= i < s.len() implies is_white_space(#[trigger] s[i]) by {
            if i < rest.len() {
                assert(rest[i] == s[i]);
            }
        }
        assert(rest.subrange(0, b) =~= s.subrange(0, b));
        b
    } else {
        assert(s.subrange(0, s.len() as int) =~= s);
        s.len() as int
    }
}

/// Trimming takes white space away at the ends and nothing else: what is left is a
/// stretch of the text that neither begins nor ends with white space, with only white
/// space before and behind it.
pub proof fn trimming_takes_white_space_alone(s: Seq<char>) -> (cut: (int, int))
    ensures
        0 <= cut.0 <= cut.1 <= s.len(),
        trimmed(s) == s.subrange(cut.0, cut.1),
        forall|i: int| 0 <= i < cut.0 ==> is_white_space(#[trigger] s[i]),
        forall|i: int| cut.1 <= i < s.len() ==> is_white_space(#[trigger] s[i]),
        cut.0 < cut.1 ==> !is_white_space(s[cut.0]) && !is_white_space(s[cut.1 - 1]),
        trimmed(s).len() == 0 <==> forall|i: int|
            0 <= i < s.len() ==> is_white_space(#[trigger] s[i]),
{
    let a = lemma_trim_front_cut(s);
    let front = trim_front(s);
    let b = lemma_trim_back_cut(front);
    assert(front.subrange(0, b) =~= s.subrange(a, a + b));
    assert forall|i: int| a + b <= i < s.len() implies is_white_space(#[trigger] s[i]) by {
        assert(front[i - a] == s[i]);
    }
    if b > 0 {
        assert(front[0] == s[a]);
        assert(front[b - 1] == s[a + b - 1]);
    }
    (a, a + b)
}

/// Taking a character away at the end, or at the beginning, takes all of it there and
/// nothing else.
pub proof fn trimming_takes_the_character_alone(s: Seq<char>, c: char)
    ensures
        trim_end_char(s, c).len() <= s.len(),
        trim_end_char(s, c) == s.take(trim_end_char(s, c).len() as int),
        forall|i: int| trim_end_char(s, c).len() <= i < s.len() ==> #[trigger] s[i] == c,
        trim_end_char(s, c).len() > 0 ==> trim_end_char(s, c).last() != c,
        trim_start_char(s, c).len() <= s.len(),
        trim_start_char(s, c) == s.skip(s.len() - trim_start_char(s, c).len()),
        forall|i: int| 0 <= i < s.len() - trim_start_char(s, c).len() ==> #[trigger] s[i] == c,
        trim_start_char(s, c).len() > 0 ==> trim_start_char(s, c)[0] != c,
    decreases s.len(),
{
    assert(s.take(s.len() as int) =~= s);
    assert(s.skip(0) =~= s);
    if s.len() > 0 && s.last() == c {
        let rest = s.drop_last();
        trimming_takes_the_character_alone(rest, c);
        let n = trim_end_char(rest, c).len() as int;
        assert(rest.take(n) =~= s.take(n));
        assert forall|i: int| n <= i < s.len() implies #[trigger] s[i] == c by {
            if i < rest.len() {
                assert(rest[i] == s[i]);
            }
        }
    }
    if s.len() > 0 && s[0] == c {
        let rest = s.skip(1);
        trimming_takes_the_character_alone(rest, c);
        let n = trim_start_char(rest, c).len() as int;
        assert(rest.skip(rest.len() - n) =~= s.skip(s.len() - n));
        assert forall|i: int| 0 <= i < s.len() - n implies #[trigger] s[i] == c by {
            if i > 0 {
                assert(rest[i - 1] == s[i]);
            }
        }
    }
}

/// A text begins with a prefix just if it is the prefix and something behind it, and
/// ends with a suffix just if it is something and the suffix behind it.
pub proof fn prefix_and_suffix_are_parts(s: Seq<char>, pat: Seq<char>)
    ensures
        begins_with(s, pat) <==> exists|rest: Seq<char>| s == #[trigger] (pat + rest),
        finishes_with(s, pat) <==> exists|front: Seq<char>| s == #[trigger] (front + pat),
{
    if begins_with(s, pat) {
        assert(s =~= pat + s.skip(pat.len() as int)) by {
            assert forall|i: int| 0 <= i < pat.len() implies s[i] == pat[i] by {
                assert(s.subrange(0, pat.len() as int)[i] == pat[i]);
            }
        }
    }
    if exists|rest: Seq<char>| s == #[trigger] (pat + rest) {
        let rest = choose|rest: Seq<char>| s == #[trigger] (pat + rest);
        assert(s.subrange(0, pat.len() as int) =~= pat);
    }
    let n = s.len() - pat.len();
    if finishes_with(s, pat) {
        assert(s =~= s.take(n) + pat) by {
            assert forall|i: int| n <= i < s.len() implies s[i] == pat[i - n] by {
                assert(s.subrange(n, n + pat.len())[i - n] == pat[i - n]);
            }
        }
    }
    if exists|front: Seq<char>| s == #[trigger] (front + pat) {
        let front = choose|front: Seq<char>| s == #[trigger] (front + pat);
        assert(s.subrange(n, n + pat.len()) =~= pat);
    }
}

/// A search finds the first place at or behind its start at which the pattern stands,
/// and finds none only if there is none.
pub proof fn search_finds_the_first(s: Seq<char>, pat: Seq<char>, from: int)
    requires
        0 <= from,
    ensures
        match find_from(s, pat, from) {
            Some(i) => {
                &&& from <= i
                &&& i + pat.len() <= s.len()
                &&& s.subrange(i, i + pat.len()) == pat
                &&& forall|j: int|
                    from <= j < i ==> #[trigger] s.subrange(j, j + pat.len()) != pat
            },
            None => forall|j: int|
                from <= j && j + pat.len() <= s.len() ==> #[trigger] s.subrange(j, j + pat.len())
                    != pat,
        },
    decreases s.len() + 1 - from,
{
    if from + pat.len() <= s.len() && !occurs_at(s, pat, from) {
        search_finds_the_first(s, pat, from + 1);
    }
}

/// Replacing leaves a text as it is in which the pattern does not stand; otherwise the
/// first occurrence gives way and the rest is treated alike.
pub proof fn replacement_goes_from_the_left(
    s: Seq<char>,
    pat: Seq<char>,
    to: Seq<char>,
    i: int,
)
    requires
        pat.len() > 0,
        0 <= i <= s.len(),
        forall|j: int| 0 <= j < i ==> !(#[trigger] occurs_at(s, pat, j)),
        i < s.len() ==> i + pat.len() <= s.len() && s.subrange(i, i + pat.len()) == pat,
    ensures
        replaced(s, pat, to) == s.take(i) + (if i < s.len() {
            to + replaced(s.skip(i + pat.len()), pat, to)
        } else {
            Seq::empty()
        }),
    decreases s.len(),
{
    if s.len() == 0 {
        assert(s.take(0) + Seq::<char>::empty() =~= Seq::<char>::empty());
    } else if i == 0 {
        assert(occurs_at(s, pat, 0));
        assert(s.take(0) + (to + replaced(s.skip(pat.len() as int), pat, to)) =~= to + replaced(
            s.skip(pat.len() as int),
            pat,
            to,
        ));
    } else {
        let rest = s.skip(1);
        assert(!occurs_at(s, pat, 0));
        assert forall|j: int| 0 <= j < i - 1 implies !(#[trigger] occurs_at(rest, pat, j)) by {
            assert(!occurs_at(s, pat, j + 1));
            if occurs_at(rest, pat, j) {
                assert(rest.subrange(j, j + pat.len()) =~= s.subrange(j + 1, j + 1 + pat.len()));
            }
        }
        if i < s.len() {
            assert(rest.subrange(i - 1, i - 1 + pat.len()) =~= s.subrange(i, i + pat.len()));
            assert(rest.skip(i - 1 + pat.len()) =~= s.skip(i + pat.len()));
        }
        replacement_goes_from_the_left(rest, pat, to, i - 1);
        assert(seq![s[0]] + rest.take(i - 1) =~= s.take(i));
        if i < s.len() {
            let tail = to + replaced(s.skip(i + pat.len()), pat, to);
            assert(seq![s[0]] + (rest.take(i - 1) + tail) =~= s.take(i) + tail);
        } else {
            let none = Seq::<char>::empty();
            assert(seq![s[0]] + (rest.take(i - 1) + none) =~= s.take(i) + none);
        }
    }
}

proof fn lemma_joined_front(parts: Seq<Seq<char>>, sep: Seq<char>)
    requires
        parts.len() >= 2,
    ensures
        joined(parts, sep) == parts[0] + sep + joined(parts.skip(1), sep),
    decreases parts.len(),
{
    let rest = parts.skip(1);
    if parts.len() == 2 {
        assert(parts.drop_last() =~= seq![parts[0]]);
        assert(rest =~= seq![parts[1]]);
        assert(joined(parts.drop_last(), sep) == parts[0]);
        assert(joined(rest, sep) == parts[1]);
    } else {
        lemma_joined_front(parts.drop_last(), sep);
        assert(parts.drop_last().skip(1) =~= rest.drop_last());
        assert(rest.last() == parts.last());
        let inner = joined(rest.drop_last(), sep);
        assert((parts[0] + sep + inner) + sep + parts.last() =~= parts[0] + sep + (inner + sep
            + parts.last()));
    }
}

/// The pieces of a text hold no separator, and with a separator between neighbours
/// they are the text again: nothing is lost in splitting.
pub proof fn pieces_make_the_text(s: Seq<char>, sep: char)
    ensures
        joined(pieces(s, sep), seq![sep]) == s,
        forall|i: int|
            0 <= i < pieces(s, sep).len() ==> !(#[trigger] pieces(s, sep)[i]).contains(sep),
    decreases s.len(),
{
    let all = pieces(s, sep);
    if s.len() == 0 {
        assert(all[0] =~= Seq::<char>::empty());
        assert(joined(all, seq![sep]) =~= s);
    } else {
        let tail = s.skip(1);
        let rest = pieces(tail, sep);
        lemma_pieces_nonempty(tail, sep);
        pieces_make_the_text(tail, sep);
        if s[0] == sep {
            assert(all.skip(1) =~= rest);
            lemma_joined_front(all, seq![sep]);
            assert(joined(all, seq![sep]) =~= s);
        } else {
            let first = seq![s[0]] + rest[0];
            assert(all[0] == first);
            if rest.len() == 1 {
                assert(joined(all, seq![sep]) == first);
                assert(joined(rest, seq![sep]) == rest[0]);
                assert(first =~= s);
            } else {
                lemma_joined_front(all, seq![sep]);
                lemma_joined_front(rest, seq![sep]);
                assert(all.skip(1) =~= rest.skip(1));
                assert(joined(all, seq![sep]) =~= seq![s[0]] + joined(rest, seq![sep]));
                assert(seq![s[0]] + tail =~= s);
            }
            assert(!first.contains(sep)) by {
                assert(!rest[0].contains(sep));
                if first.contains(sep) {
                    let k = choose|k: int| 0 <= k < first.len() && first[k] == sep;
                    assert(rest[0][k - 1] == sep);
                }
            }
        }
        assert forall|i: int| 0 <= i < all.len() implies !(#[trigger] all[i]).contains(sep) by {
            if s[0] == sep {
                if i > 0 {
                    assert(all[i] == rest[i - 1]);
                }
            } else if i > 0 {
                assert(all[i] == rest[i]);
            }
        }
    }
}

/// A text has one piece more than it has separators.
pub proof fn pieces_are_counted(s: Seq<char>, sep: char)
    ensures
        pieces(s, sep).len() == s.filter(|c: char| c == sep).len() + 1,
    decreases s.len(),
{
    reveal(Seq::filter);
    if s.len() > 0 {
        pieces_are_counted(s.skip(1), sep);
        lemma_pieces_nonempty(s.skip(1), sep);
        let is_sep = |c: char| c == sep;
        assert(s =~= seq![s[0]] + s.skip(1));
        assert(seq![s[0]].drop_last() =~= Seq::<char>::empty());
        assert(Seq::<char>::empty().filter(is_sep).len() == 0);
        assert(seq![s[0]].last() == s[0]);
        assert(seq![s[0]].filter(is_sep) == if s[0] == sep {
            Seq::<char>::empty().filter(is_sep).push(s[0])
        } else {
            Seq::<char>::empty().filter(is_sep)
        });
        Seq::filter_distributes_over_add(seq![s[0]], s.skip(1), is_sep);
        assert(seq![s[0]].filter(is_sep).len() == if s[0] == sep {
            1int
        } else {
            0int
        });
    }
}

/// A text in small letters, or in capitals, has the same characters but for the
/// twenty-six letters of each case, which stand for one another in order.
pub proof fn case_changes_letters_alone(s: Seq<char>, i: int)
    requires
        0 <= i < s.len(),
    ensures
        lowered(s).len() == s.len(),
        uppered(s).len() == s.len(),
        ('A' <= s[i] <= 'Z') ==> 'a' <= lowered(s)[i] <= 'z' && lowered(s)[i] as int - 'a' as int
            == s[i] as int - 'A' as int,
        !('A' <= s[i] <= 'Z') ==> lowered(s)[i] == s[i],
        ('a' <= s[i] <= 'z') ==> 'A' <= uppered(s)[i] <= 'Z' && uppered(s)[i] as int - 'A' as int
            == s[i] as int - 'a' as int,
        !('a' <= s[i] <= 'z') ==> uppered(s)[i] == s[i],
{
}

/// An integer in decimal reads back as itself, and a plus sign before digits changes
/// nothing. Nothing else than digits behind at most one sign reads as a number.
pub proof fn integers_read_back(n: int, s: Seq<char>)
    ensures
        signed_value(decimal_int(n)) == Some(n),
        n >= 0 ==> signed_value(seq!['+'] + decimal(n as nat)) == Some(n),
        signed_value(s) is Some ==> {
            &&& s.len() > 0
            &&& '0' <= s.last() <= '9'
            &&& '0' <= s[0] <= '9' || s[0] == '-' || s[0] == '+'
            &&& forall|i: int| 1 <= i < s.len() ==> '0' <= #[trigger] s[i] <= '9'
        },
        s.len() > 0 && (forall|i: int| 0 <= i < s.len() ==> '0' <= #[trigger] s[i] <= '9')
            ==> signed_value(s) is Some && signed_value(s)->0 >= 0,
{
    let m = if n < 0 {
        (-n) as nat
    } else {
        n as nat
    };
    lemma_decimal_reads_back(m);
    lemma_decimal_digits(m);
    let minus = seq!['-'] + decimal(m);
    let plus = seq!['+'] + decimal(m);
    assert(minus.skip(1) =~= decimal(m));
    assert(plus.skip(1) =~= decimal(m));
    if s.len() > 0 && (forall|i: int| 0 <= i < s.len() ==> '0' <= #[trigger] s[i] <= '9') {
        assert('0' <= s[0] <= '9');
        assert(unsigned_part(s) == s);
        assert(all_digits(s));
    }
    if signed_value(s) is Some {
        let body = unsigned_part(s);
        let shift = s.len() - body.len();
        assert forall|i: int| shift <= i < s.len() implies '0' <= #[trigger] s[i] <= '9' by {
            assert(is_digit(body[i - shift]));
        }
    }
}

proof fn lemma_pieces_cut(a: Seq<char>, sep: char, b: Seq<char>)
    requires
        !a.contains(sep),
    ensures
        pieces(a + seq![sep] + b, sep) == seq![a] + pieces(b, sep),
    decreases a.len(),
{
    let s = a + seq![sep] + b;
    let rest = s.skip(1);
    if a.len() == 0 {
        assert(rest =~= b);
        assert(s[0] == sep);
        assert(a =~= Seq::<char>::empty());
    } else {
        let shorter = a.skip(1);
        assert(!shorter.contains(sep)) by {
            if shorter.contains(sep) {
                let k = choose|k: int| 0 <= k < shorter.len() && shorter[k] == sep;
                assert(a[k + 1] == sep);
            }
        }
        lemma_pieces_cut(shorter, sep, b);
        assert(rest =~= shorter + seq![sep] + b);
        assert(s[0] == a[0]);
        assert(a.contains(a[0]));
        assert(seq![a[0]] + shorter =~= a);
        assert(pieces(s, sep) =~= seq![a] + pieces(b, sep));
    }
}

proof fn lemma_one_piece(a: Seq<char>, sep: char)
    requires
        !a.contains(sep),
    ensures
        pieces(a, sep) == seq![a],
    decreases a.len(),
{
    if a.len() > 0 {
        let shorter = a.skip(1);
        assert(!shorter.contains(sep)) by {
            if shorter.contains(sep) {
                let k = choose|k: int| 0 <= k < shorter.len() && shorter[k] == sep;
                assert(a[k + 1] == sep);
            }
        }
        lemma_one_piece(shorter, sep);
        assert(a.contains(a[0]));
        assert(seq![a[0]] + shorter =~= a);
        assert(pieces(a, sep) =~= seq![a]);
    } else {
        assert(a =~= Seq::<char>::empty());
    }
}

/// Parts without separator that were joined by it are the pieces of the result.
pub proof fn joined_parts_are_the_pieces(parts: Seq<Seq<char>>, sep: char)
    requires
        parts.len() > 0,
        forall|i: int| 0 <= i < parts.len() ==> !(#[trigger] parts[i]).contains(sep),
    ensures
        pieces(joined(parts, seq![sep]), sep) == parts,
    decreases parts.len(),
{
    assert(!parts[0].contains(sep));
    if parts.len() == 1 {
        lemma_one_piece(parts[0], sep);
        assert(parts =~= seq![parts[0]]);
    } else {
        let rest = parts.skip(1);
        assert forall|i: int| 0 <= i < rest.len() implies !(#[trigger] rest[i]).contains(sep) by {
            assert(rest[i] == parts[i + 1]);
        }
        joined_parts_are_the_pieces(rest, sep);
        lemma_joined_front(parts, seq![sep]);
        lemma_pieces_cut(parts[0], sep, joined(rest, seq![sep]));
        assert(seq![parts[0]] + rest =~= parts);
    }
}


} // verus!
