//! File trees as one self-describing byte string.
//!
//! An archive is the tag `ASF1`, the number of entries as four bytes, and the
//! entries. An entry is the length of its name as two bytes, the name in
//! UTF-8, a flag byte (one for a directory), the size as eight bytes, and for a
//! file its contents. All numbers are little-endian. A bundle is the tag `ASB2`,
//! the length of a manifest as four bytes, the manifest, and an archive.

use vstd::prelude::*;
use vstd::utf8::{decode_utf8, encode_utf8, valid_utf8};

use crate::bytes::{le_bytes, le_value, push_all, push_le, read_le};
use crate::sync::error::{failed, protocol, SyncError, SyncErrorView};
use crate::text::{chars_of, copy_range, same_bytes};

verus! {

/// The most bytes that an archive sent to another device may hold.
pub const MAX_ARCHIVE_BYTES: u64 = 524288000;

/// The longest manifest accepted from a stream, in bytes.
pub const MAX_MANIFEST_BYTES: u64 = 4194304;

/// The tag at the start of an archive.
pub open spec fn tree_tag() -> Seq<u8> {
    seq![0x41u8, 0x53, 0x46, 0x31]
}

/// The tag at the start of a bundle.
pub open spec fn bundle_tag() -> Seq<u8> {
    seq![0x41u8, 0x53, 0x42, 0x32]
}

/// The message of the error that `core::str::from_utf8` gives for some bytes.
pub uninterp spec fn utf8_error_message(bytes: Seq<u8>) -> Seq<char>;

/// `core::str::from_utf8`: succeeds just on valid UTF-8, with the text whose
/// encoding the bytes are. The error is handed on as its message, by a name.
#[verifier::external_body]
pub(crate) fn utf8_text(bytes: &[u8]) -> (r: Result<&str, String>)
    ensures
        match r {
            Ok(s) => valid_utf8(bytes@) && encode_utf8(s@) == bytes@,
            Err(m) => !valid_utf8(bytes@) && m@ == utf8_error_message(bytes@),
        },
{
    core::str::from_utf8(bytes).map_err(|e| e.to_string())
}

/// One entry of a file tree, to be packed.
#[derive(Debug)]
pub struct TreeEntry {
    pub name: String,
    pub is_dir: bool,
    pub data: Vec<u8>,
}

/// A [`TreeEntry`] as mathematical values.
pub struct TreeEntryView {
    pub name: Seq<char>,
    pub is_dir: bool,
    pub data: Seq<u8>,
}

impl View for TreeEntry {
    type V = TreeEntryView;

    open spec fn view(&self) -> TreeEntryView {
        TreeEntryView { name: self.name@, is_dir: self.is_dir, data: self.data@ }
    }
}

/// The entries of a sequence as mathematical values.
pub open spec fn entry_views(es: Seq<TreeEntry>) -> Seq<TreeEntryView> {
    es.map_values(|e: TreeEntry| e@)
}

/// A file-system name with `/` for each `\\`.
pub open spec fn slashed(name: Seq<char>) -> Seq<char> {
    name.map_values(|c: char| if c == '\\' { '/' } else { c })
}

/// The bytes of an entry before its contents.
pub open spec fn head_bytes(name: Seq<u8>, is_dir: bool, size: nat) -> Seq<u8> {
    le_bytes(name.len(), 2) + name + seq![if is_dir { 1u8 } else { 0u8 }] + le_bytes(size, 8)
}

/// The head of an entry that follows `written` bytes, or why it cannot be
/// packed.
pub open spec fn checked_head(name: Seq<char>, is_dir: bool, size: nat, written: nat) -> Result<
    Seq<u8>,
    SyncErrorView,
> {
    let encoded = encode_utf8(slashed(name));
    if encoded.len() > 0xffff {
        Err(SyncErrorView::Protocol("archive path is too long"@))
    } else if is_dir {
        Ok(head_bytes(encoded, true, 0))
    } else if size > MAX_ARCHIVE_BYTES || written + 3 + encoded.len() + size > MAX_ARCHIVE_BYTES {
        Err(SyncErrorView::Failed("file tree exceeds remote size limit"@))
    } else {
        Ok(head_bytes(encoded, false, size))
    }
}

/// What follows the head of an entry.
pub open spec fn body_bytes(e: TreeEntryView) -> Seq<u8> {
    if e.is_dir {
        Seq::empty()
    } else {
        e.data
    }
}

/// The archive of `es`, with `count` as its number of entries.
pub open spec fn packed(es: Seq<TreeEntryView>, count: nat) -> Result<Seq<u8>, SyncErrorView>
    decreases es.len(),
{
    if es.len() == 0 {
        Ok(tree_tag() + le_bytes(count, 4))
    } else {
        match packed(es.drop_last(), count) {
            Err(e) => Err(e),
            Ok(b) => match checked_head(
                es.last().name,
                es.last().is_dir,
                es.last().data.len(),
                b.len(),
            ) {
                Err(e) => Err(e),
                Ok(head) => Ok(b + head + body_bytes(es.last())),
            },
        }
    }
}

/// A file-system name with `/` for each `\\`.
pub fn slash_name(name: &str) -> (r: String)
    ensures
        r@ == slashed(name@),
{
    let mut out = String::new();
    for c in it: name.chars()
        invariant
            it.seq() == name@,
            out@ == slashed(name@).take(it.index()),
    {
        out.push(if c == '\\' { '/' } else { c });
        proof {
            assert(out@ =~= slashed(name@).take(it.index() + 1));
        }
    }
    assert(slashed(name@).take(name@.len() as int) =~= slashed(name@));
    out
}

/// The tag and the number of entries, cut to four bytes.
pub fn tree_header(count: usize) -> (r: Vec<u8>)
    ensures
        r@ == tree_tag() + le_bytes(count as nat, 4),
{
    let mut out: Vec<u8> = vec![0x41u8, 0x53, 0x46, 0x31];
    assert(out@ =~= tree_tag());
    push_le(&mut out, count as u64, 4);
    out
}

/// The head of an entry that follows `written` bytes of an archive.
pub fn entry_header(name: &str, is_dir: bool, size: u64, written: u64) -> (r: Result<
    Vec<u8>,
    SyncError,
>)
    ensures
        match r {
            Ok(head) => checked_head(name@, is_dir, size as nat, written as nat) == Ok::<
                Seq<u8>,
                SyncErrorView,
            >(head@),
            Err(e) => checked_head(name@, is_dir, size as nat, written as nat) == Err::<
                Seq<u8>,
                SyncErrorView,
            >(e@),
        },
{
    let slashed_name = slash_name(name);
    let encoded = slashed_name.as_str().as_bytes();
    if encoded.len() > 0xffff {
        return Err(protocol("archive path is too long"));
    }
    if !is_dir {
        let total: u128 = written as u128 + 3 + encoded.len() as u128 + size as u128;
        if size > MAX_ARCHIVE_BYTES || total > MAX_ARCHIVE_BYTES as u128 {
            return Err(failed("file tree exceeds remote size limit"));
        }
    }
    let mut out: Vec<u8> = Vec::new();
    push_le(&mut out, encoded.len() as u64, 2);
    push_all(&mut out, encoded);
    out.push(if is_dir { 1u8 } else { 0u8 });
    push_le(&mut out, if is_dir { 0u64 } else { size }, 8);
    assert(out@ =~= head_bytes(encoded@, is_dir, if is_dir { 0 } else { size as nat }));
    Ok(out)
}

/// The archive of a file tree.
pub fn pack_tree(entries: &[TreeEntry]) -> (r: Result<Vec<u8>, SyncError>)
    ensures
        match r {
            Ok(b) => packed(entry_views(entries@), entries@.len()) == Ok::<Seq<u8>, SyncErrorView>(
                b@,
            ),
            Err(e) => packed(entry_views(entries@), entries@.len()) == Err::<
                Seq<u8>,
                SyncErrorView,
            >(e@),
        },
{
    let mut out = tree_header(entries.len());
    let ghost es = entry_views(entries@);
    let mut i: usize = 0;
    while i < entries.len()
        invariant
            i <= entries@.len(),
            es == entry_views(entries@),
            packed(es.take(i as int), es.len()) == Ok::<Seq<u8>, SyncErrorView>(out@),
        decreases entries@.len() - i,
    {
        let e = &entries[i];
        let ghost before = out@;
        proof {
            assert(es.take(i + 1).drop_last() =~= es.take(i as int));
            assert(es.take(i + 1).last() == e@);
        }
        let head = match entry_header(
            e.name.as_str(),
            e.is_dir,
            e.data.len() as u64,
            out.len() as u64,
        ) {
            Ok(head) => head,
            Err(err) => {
                proof {
                    lemma_packed_error(es, i + 1, es.len());
                }
                return Err(err);
            },
        };
        push_all(&mut out, head.as_slice());
        if !e.is_dir {
            push_all(&mut out, e.data.as_slice());
        }
        assert(out@ =~= before + head@ + body_bytes(e@));
        i += 1;
    }
    assert(es.take(i as int) =~= es);
    Ok(out)
}

proof fn lemma_packed_error(es: Seq<TreeEntryView>, k: int, count: nat)
    requires
        0 <= k <= es.len(),
        packed(es.take(k), count) is Err,
    ensures
        packed(es, count) == packed(es.take(k), count),
    decreases es.len() - k,
{
    if k < es.len() {
        assert(es.take(k + 1).drop_last() =~= es.take(k));
        lemma_packed_error(es, k + 1, count);
    } else {
        assert(es.take(k) =~= es);
    }
}

/// Where `n` bytes from `at` on end, in an archive of `len` bytes.
pub open spec fn taken(len: nat, at: int, n: int) -> Result<int, SyncErrorView> {
    if at + n > usize::MAX {
        Err(SyncErrorView::Protocol("archive offset overflow"@))
    } else if at + n > len {
        Err(SyncErrorView::Protocol("truncated archive"@))
    } else {
        Ok(at + n)
    }
}

/// The next `n` bytes from position `i` on, which moves behind them. If there are
/// not so many it stays.
pub fn take<'a>(bytes: &'a [u8], i: &mut usize, n: usize) -> (r: Result<&'a [u8], SyncError>)
    ensures
        r is Ok <==> *old(i) + n <= bytes@.len(),
        match r {
            Ok(s) => {
                &&& taken(bytes@.len(), *old(i) as int, n as int) == Ok::<int, SyncErrorView>(
                    *final(i) as int,
                )
                &&& s@ == bytes@.subrange(*old(i) as int, *old(i) + n)
                &&& *final(i) == *old(i) + n
            },
            Err(e) => {
                &&& taken(bytes@.len(), *old(i) as int, n as int) == Err::<int, SyncErrorView>(e@)
                &&& *final(i) == *old(i)
            },
        },
{
    let len: usize = bytes.len();
    let end: usize = match i.checked_add(n) {
        Some(end) => end,
        None => return Err(protocol("archive offset overflow")),
    };
    if end > len {
        return Err(protocol("truncated archive"));
    }
    let part = vstd::slice::slice_subrange(bytes, *i, end);
    *i = end;
    Ok(part)
}

/// The head of an entry that was read, and where its contents begin.
#[derive(Debug)]
pub struct EntryHead {
    pub name: String,
    pub is_dir: bool,
    pub size: u64,
    pub body: usize,
}

/// An [`EntryHead`] as mathematical values.
pub struct EntryHeadView {
    pub name: Seq<char>,
    pub is_dir: bool,
    pub size: u64,
    pub body: int,
}

impl View for EntryHead {
    type V = EntryHeadView;

    open spec fn view(&self) -> EntryHeadView {
        EntryHeadView {
            name: self.name@,
            is_dir: self.is_dir,
            size: self.size,
            body: self.body as int,
        }
    }
}

/// The name that some bytes hold.
pub open spec fn name_of(bytes: Seq<u8>) -> Result<Seq<char>, SyncErrorView> {
    if valid_utf8(bytes) {
        Ok(decode_utf8(bytes))
    } else {
        Err(SyncErrorView::Protocol(utf8_error_message(bytes)))
    }
}

/// The name that some bytes hold.
pub fn entry_name(bytes: &[u8]) -> (r: Result<String, SyncError>)
    ensures
        match r {
            Ok(name) => name_of(bytes@) == Ok::<Seq<char>, SyncErrorView>(name@),
            Err(e) => name_of(bytes@) == Err::<Seq<char>, SyncErrorView>(e@),
        },
{
    match utf8_text(bytes) {
        Ok(s) => {
            proof {
                vstd::utf8::encode_utf8_decode_utf8(s@);
            }
            Ok(s.to_owned())
        },
        Err(m) => Err(SyncError::Protocol(m)),
    }
}

/// The entry head at position `at` of an archive, or why there is none.
pub open spec fn head_at(b: Seq<u8>, at: int) -> Result<EntryHeadView, SyncErrorView> {
    match taken(b.len(), at, 2) {
        Err(e) => Err(e),
        Ok(p1) => match taken(b.len(), p1, le_value(b.subrange(at, p1)) as int) {
            Err(e) => Err(e),
            Ok(p2) => match name_of(b.subrange(p1, p2)) {
                Err(e) => Err(e),
                Ok(name) => match taken(b.len(), p2, 1) {
                    Err(e) => Err(e),
                    Ok(p3) => match taken(b.len(), p3, 8) {
                        Err(e) => Err(e),
                        Ok(p4) => Ok(
                            EntryHeadView {
                                name,
                                is_dir: b[p2] == 1,
                                size: le_value(b.subrange(p3, p4)) as u64,
                                body: p4,
                            },
                        ),
                    },
                },
            },
        },
    }
}

/// The entry head at position `at` of an archive.
pub fn next_entry(bytes: &[u8], at: usize) -> (r: Result<EntryHead, SyncError>)
    ensures
        match r {
            Ok(h) => head_at(bytes@, at as int) == Ok::<EntryHeadView, SyncErrorView>(h@) && at
                < h.body <= bytes@.len(),
            Err(e) => head_at(bytes@, at as int) == Err::<EntryHeadView, SyncErrorView>(e@),
        },
{
    let mut i: usize = at;
    let name_width = match take(bytes, &mut i, 2) {
        Ok(b) => b,
        Err(e) => return Err(e),
    };
    let name_len = read_le(name_width, 0, 2) as usize;
    proof {
        assert(name_width@.subrange(0, 2) =~= name_width@);
        crate::bytes::lemma_le_bound(name_width@);
        crate::bytes::lemma_pow256();
    }
    let name_bytes = match take(bytes, &mut i, name_len) {
        Ok(b) => b,
        Err(e) => return Err(e),
    };
    let name = match entry_name(name_bytes) {
        Ok(name) => name,
        Err(e) => return Err(e),
    };
    let flag = match take(bytes, &mut i, 1) {
        Ok(b) => b,
        Err(e) => return Err(e),
    };
    let size_bytes = match take(bytes, &mut i, 8) {
        Ok(b) => b,
        Err(e) => return Err(e),
    };
    let size = read_le(size_bytes, 0, 8);
    assert(size_bytes@.subrange(0, 8) =~= size_bytes@);
    Ok(EntryHead { name, is_dir: flag[0] == 1, size, body: i })
}

/// A step of unpacking an archive into a directory.
#[derive(Debug)]
pub enum TreeOp {
    /// Create the destination itself.
    Dest,
    /// Create a directory.
    Dir(String),
    /// Create the directory that holds a path.
    Parent(String),
    /// Write a file from a range of the archive, creating its directory.
    File(String, usize, usize),
}

/// A [`TreeOp`] as mathematical values.
pub enum TreeOpView {
    Dest,
    Dir(Seq<char>),
    Parent(Seq<char>),
    File(Seq<char>, int, int),
}

impl View for TreeOp {
    type V = TreeOpView;

    open spec fn view(&self) -> TreeOpView {
        match *self {
            TreeOp::Dest => TreeOpView::Dest,
            TreeOp::Dir(rel) => TreeOpView::Dir(rel@),
            TreeOp::Parent(rel) => TreeOpView::Parent(rel@),
            TreeOp::File(rel, from, to) => TreeOpView::File(rel@, from as int, to as int),
        }
    }
}

/// The steps of a sequence as mathematical values.
pub open spec fn op_views(ops: Seq<TreeOp>) -> Seq<TreeOpView> {
    ops.map_values(|op: TreeOp| op@)
}

/// The verdicts on entry names: the path to use, or why a name is refused.
pub open spec fn verdicts(v: Seq<Result<String, String>>) -> Seq<Result<Seq<char>, Seq<char>>> {
    v.map_values(
        |r: Result<String, String>|
            match r {
                Ok(s) => Ok::<Seq<char>, Seq<char>>(s@),
                Err(s) => Err::<Seq<char>, Seq<char>>(s@),
            },
    )
}

/// The names of the entries from `at` on, up to the first that cannot be read.
pub open spec fn names_from(b: Seq<u8>, at: int, left: nat) -> Seq<Seq<char>>
    decreases left,
{
    if left == 0 {
        Seq::empty()
    } else {
        match head_at(b, at) {
            Err(_) => Seq::empty(),
            Ok(h) => if h.is_dir {
                seq![h.name] + names_from(b, h.body, (left - 1) as nat)
            } else {
                match taken(b.len(), h.body, (h.size as usize) as int) {
                    Err(_) => seq![h.name],
                    Ok(end) => seq![h.name] + names_from(b, end, (left - 1) as nat),
                }
            },
        }
    }
}

/// The steps that unpack the entries from `at` on, with the verdicts on their
/// names, and the error that ends them.
pub open spec fn unpacked_from(
    b: Seq<u8>,
    clean: Seq<Result<Seq<char>, Seq<char>>>,
    at: int,
    left: nat,
) -> (Seq<TreeOpView>, Option<SyncErrorView>)
    decreases left,
{
    if left == 0 {
        (Seq::empty(), None)
    } else {
        match head_at(b, at) {
            Err(e) => (Seq::empty(), Some(e)),
            Ok(h) => match clean[0] {
                Err(m) => (Seq::empty(), Some(SyncErrorView::Failed(m))),
                Ok(rel) => if h.is_dir {
                    let rest = unpacked_from(b, clean.skip(1), h.body, (left - 1) as nat);
                    (seq![TreeOpView::Dir(rel)] + rest.0, rest.1)
                } else {
                    match taken(b.len(), h.body, (h.size as usize) as int) {
                        Err(e) => (seq![TreeOpView::Parent(rel)], Some(e)),
                        Ok(end) => {
                            let rest = unpacked_from(b, clean.skip(1), end, (left - 1) as nat);
                            (seq![TreeOpView::File(rel, h.body, end)] + rest.0, rest.1)
                        },
                    }
                },
            },
        }
    }
}

/// Whether bytes begin as an archive does.
pub open spec fn is_tree(b: Seq<u8>) -> bool {
    b.len() >= 8 && b.subrange(0, 4) == tree_tag()
}

/// The number of entries that an archive claims to hold.
pub open spec fn entry_count(b: Seq<u8>) -> nat {
    le_value(b.subrange(4, 8))
}

/// The names of the entries of an archive, as far as it can be read.
pub open spec fn names_in(b: Seq<u8>) -> Seq<Seq<char>> {
    if is_tree(b) {
        names_from(b, 8, entry_count(b))
    } else {
        Seq::empty()
    }
}

/// The paths without a separator among the steps, in order.
pub open spec fn top_paths(ops: Seq<TreeOpView>) -> Seq<Seq<char>>
    decreases ops.len(),
{
    if ops.len() == 0 {
        Seq::empty()
    } else {
        let before = top_paths(ops.drop_last());
        match ops.last() {
            TreeOpView::Dir(rel) => if rel.contains('/') {
                before
            } else {
                before.push(rel)
            },
            TreeOpView::File(rel, _, _) => if rel.contains('/') {
                before
            } else {
                before.push(rel)
            },
            _ => before,
        }
    }
}

/// The top-level paths that unpacking made; the destination itself if none.
#[derive(Debug)]
pub enum TreeRoots {
    Dest,
    Named(Vec<String>),
}

/// What unpacking an archive does, and how it ends.
#[derive(Debug)]
pub struct Unpacked {
    pub ops: Vec<TreeOp>,
    pub outcome: Result<TreeRoots, SyncError>,
}

/// What unpacking an archive does: the destination is created if the tag is
/// right, then the entries follow in order up to the first error.
pub open spec fn unpacked_ops(b: Seq<u8>, clean: Seq<Result<Seq<char>, Seq<char>>>) -> Seq<
    TreeOpView,
> {
    if is_tree(b) {
        seq![TreeOpView::Dest] + unpacked_from(b, clean, 8, entry_count(b)).0
    } else {
        Seq::empty()
    }
}

/// The error that unpacking an archive ends with, if any.
pub open spec fn unpack_error(b: Seq<u8>, clean: Seq<Result<Seq<char>, Seq<char>>>) -> Option<
    SyncErrorView,
> {
    if is_tree(b) {
        unpacked_from(b, clean, 8, entry_count(b)).1
    } else {
        Some(SyncErrorView::Protocol("bad archive magic"@))
    }
}

fn has_tree_tag(bytes: &[u8]) -> (r: bool)
    ensures
        r == is_tree(bytes@),
{
    if bytes.len() < 8 {
        return false;
    }
    let tag = copy_range(bytes, 0, 4);
    let expected: Vec<u8> = vec![0x41u8, 0x53, 0x46, 0x31];
    assert(expected@ =~= tree_tag());
    same_bytes(tag.as_slice(), expected.as_slice())
}

fn claimed_count(bytes: &[u8]) -> (r: u32)
    requires
        is_tree(bytes@),
    ensures
        r == entry_count(bytes@),
{
    proof {
        crate::bytes::lemma_le_bound(bytes@.subrange(4, 8));
        crate::bytes::lemma_pow256();
    }
    read_le(bytes, 4, 4) as u32
}

/// The names of the entries of an archive, as far as it can be read.
pub fn entry_names(bytes: &[u8]) -> (r: Vec<String>)
    ensures
        crate::text::texts(r@) == names_in(bytes@),
{
    let mut out: Vec<String> = Vec::new();
    if !has_tree_tag(bytes) {
        assert(crate::text::texts(out@) =~= Seq::<Seq<char>>::empty());
        return out;
    }
    let mut left: u32 = claimed_count(bytes);
    let mut at: usize = 8;
    assert(names_in(bytes@) =~= crate::text::texts(out@) + names_from(bytes@, 8, left as nat));
    while left > 0
        invariant
            8 <= at <= bytes@.len(),
            names_in(bytes@) == crate::text::texts(out@) + names_from(
                bytes@,
                at as int,
                left as nat,
            ),
        decreases left,
    {
        let ghost before = crate::text::texts(out@);
        let head = match next_entry(bytes, at) {
            Ok(h) => h,
            Err(_) => {
                assert(names_in(bytes@) =~= before);
                return out;
            },
        };
        let ghost name = head.name@;
        let body = head.body;
        let size: usize = #[verifier::truncate] (head.size as usize);
        let is_dir = head.is_dir;
        out.push(head.name);
        assert(crate::text::texts(out@) =~= before.push(name));
        if is_dir {
            at = body;
        } else {
            at = body;
            match take(bytes, &mut at, size) {
                Ok(_) => {},
                Err(_) => {
                    assert(names_in(bytes@) =~= crate::text::texts(out@));
                    return out;
                },
            }
        }
        assert(names_in(bytes@) =~= crate::text::texts(out@) + names_from(
            bytes@,
            at as int,
            (left - 1) as nat,
        ));
        left -= 1;
    }
    assert(names_in(bytes@) =~= crate::text::texts(out@));
    out
}

/// Plans the unpacking of an archive. `clean` holds, for each name that
/// [`entry_names`] gives, the path to use or why the name is refused.
pub fn unpack_tree(bytes: &[u8], clean: &[Result<String, String>]) -> (r: Unpacked)
    requires
        clean@.len() == names_in(bytes@).len(),
    ensures
        op_views(r.ops@) == unpacked_ops(bytes@, verdicts(clean@)),
        match r.outcome {
            Err(e) => unpack_error(bytes@, verdicts(clean@)) == Some(e@),
            Ok(roots) => {
                &&& unpack_error(bytes@, verdicts(clean@)) is None
                &&& match roots {
                    TreeRoots::Dest => top_paths(op_views(r.ops@)).len() == 0,
                    TreeRoots::Named(names) => names@.len() > 0 && crate::text::texts(names@)
                        == top_paths(op_views(r.ops@)),
                }
            },
        },
{
    let mut ops: Vec<TreeOp> = Vec::new();
    if !has_tree_tag(bytes) {
        assert(op_views(ops@) =~= Seq::<TreeOpView>::empty());
        return Unpacked { ops, outcome: Err(protocol("bad archive magic")) };
    }
    let ghost b = bytes@;
    let ghost vs = verdicts(clean@);
    let count: u32 = claimed_count(bytes);
    let ghost total = unpacked_from(b, vs, 8, count as nat);
    ops.push(TreeOp::Dest);
    let mut roots: Vec<String> = Vec::new();
    let mut at: usize = 8;
    let mut done: u32 = 0;
    proof {
        assert(op_views(ops@) =~= seq![TreeOpView::Dest]);
        assert(op_views(ops@).drop_last() =~= Seq::<TreeOpView>::empty());
        assert(crate::text::texts(roots@) =~= Seq::<Seq<char>>::empty());
        reveal_with_fuel(top_paths, 2);
        assert(vs.skip(0) =~= vs);
    }
    while done < count
        invariant
            b == bytes@,
            vs == verdicts(clean@),
            is_tree(b),
            count == entry_count(b),
            total == unpacked_from(b, vs, 8, count as nat),
            8 <= at <= b.len(),
            done <= count,
            clean@.len() == done + names_from(b, at as int, (count - done) as nat).len(),
            total.1 == unpacked_from(
                b,
                vs.skip(done as int),
                at as int,
                (count - done) as nat,
            ).1,
            seq![TreeOpView::Dest] + total.0 == op_views(ops@) + unpacked_from(
                b,
                vs.skip(done as int),
                at as int,
                (count - done) as nat,
            ).0,
            crate::text::texts(roots@) == top_paths(op_views(ops@)),
        decreases count - done,
    {
        let ghost before = op_views(ops@);
        let ghost rest_vs = vs.skip(done as int);
        let ghost here = unpacked_from(b, rest_vs, at as int, (count - done) as nat);
        let head = match next_entry(bytes, at) {
            Ok(h) => h,
            Err(e) => {
                assert(before + here.0 =~= before);
                return Unpacked { ops, outcome: Err(e) };
            },
        };
        proof {
            assert(names_from(b, at as int, (count - done) as nat).len() >= 1);
            assert(rest_vs.skip(1) =~= vs.skip(done + 1));
            assert(rest_vs[0] == vs[done as int]);
        }
        let rel = match &clean[done as usize] {
            Ok(rel) => rel.clone(),
            Err(m) => {
                assert(before + here.0 =~= before);
                return Unpacked { ops, outcome: Err(failed(m.as_str())) };
            },
        };
        let next: usize = if head.is_dir {
            head.body
        } else {
            let mut end: usize = head.body;
            match take(bytes, &mut end, #[verifier::truncate] (head.size as usize)) {
                Ok(_) => end,
                Err(e) => {
                    ops.push(TreeOp::Parent(rel));
                    proof {
                        assert(op_views(ops@) =~= before.push(TreeOpView::Parent(rel@)));
                        assert(op_views(ops@) =~= before + here.0);
                    }
                    return Unpacked { ops, outcome: Err(e) };
                },
            }
        };
        let top = !crate::text::contains_char(rel.as_str(), '/');
        let ghost old_roots = crate::text::texts(roots@);
        if top {
            roots.push(rel.clone());
            assert(crate::text::texts(roots@) =~= old_roots.push(rel@));
        }
        let ghost op = if head.is_dir {
            TreeOpView::Dir(rel@)
        } else {
            TreeOpView::File(rel@, head.body as int, next as int)
        };
        if head.is_dir {
            ops.push(TreeOp::Dir(rel));
        } else {
            ops.push(TreeOp::File(rel, head.body, next));
        }
        proof {
            let after = unpacked_from(b, vs.skip(done + 1), next as int, (count - done - 1) as nat);
            assert(op_views(ops@) =~= before.push(op));
            assert(op_views(ops@).drop_last() =~= before);
            assert(here.0 =~= seq![op] + after.0);
            assert(op_views(ops@) + after.0 =~= before + here.0);
        }
        at = next;
        done += 1;
    }
    assert(op_views(ops@) + Seq::<TreeOpView>::empty() =~= op_views(ops@));
    if roots.len() == 0 {
        Unpacked { ops, outcome: Ok(TreeRoots::Dest) }
    } else {
        Unpacked { ops, outcome: Ok(TreeRoots::Named(roots)) }
    }
}

/// Whether a step puts an entry back: a directory under its name, or a file
/// with its contents.
pub open spec fn restores(b: Seq<u8>, op: TreeOpView, e: TreeEntryView) -> bool {
    match op {
        TreeOpView::Dir(rel) => e.is_dir && rel == slashed(e.name),
        TreeOpView::File(rel, from, to) => {
            &&& !e.is_dir
            &&& rel == slashed(e.name)
            &&& 0 <= from <= to <= b.len()
            &&& b.subrange(from, to) == e.data
        },
        _ => false,
    }
}

proof fn lemma_head_read(b: Seq<u8>, at: int, name: Seq<char>, is_dir: bool, size: nat)
    requires
        0 <= at,
        encode_utf8(name).len() <= 0xffff,
        size <= u64::MAX,
        b.len() <= usize::MAX,
        at + head_bytes(encode_utf8(name), is_dir, size).len() <= b.len(),
        b.subrange(at, at + head_bytes(encode_utf8(name), is_dir, size).len()) == head_bytes(
            encode_utf8(name),
            is_dir,
            size,
        ),
    ensures
        head_at(b, at) == Ok::<EntryHeadView, SyncErrorView>(
            EntryHeadView {
                name,
                is_dir,
                size: size as u64,
                body: at + head_bytes(encode_utf8(name), is_dir, size).len(),
            },
        ),
{
    let nb = encode_utf8(name);
    let head = head_bytes(nb, is_dir, size);
    crate::bytes::lemma_pow256();
    crate::bytes::le_round_trip(nb.len(), 2);
    crate::bytes::le_round_trip(size, 8);
    vstd::utf8::encode_utf8_valid_utf8(name);
    vstd::utf8::encode_utf8_decode_utf8(name);
    let n = nb.len() as int;
    assert(head.len() == 11 + n);
    let p1 = at + 2;
    let p2 = p1 + nb.len();
    let p3 = p2 + 1;
    let p4 = p3 + 8;
    let w = b.subrange(at, at + head.len());
    assert(b.subrange(at, p1) =~= w.subrange(0, 2));
    assert(w.subrange(0, 2) =~= le_bytes(nb.len(), 2));
    assert(b.subrange(p1, p2) =~= w.subrange(2, 2 + n));
    assert(w.subrange(2, 2 + n) =~= nb);
    assert(b[p2] == w[2 + n]);
    assert(b.subrange(p3, p4) =~= w.subrange(3 + n, 11 + n));
    assert(w.subrange(3 + n, 11 + n) =~= le_bytes(size, 8));
}

/// The archive of the first `k` entries begins the archive of all.
proof fn lemma_packed_prefix(es: Seq<TreeEntryView>, k: int, count: nat)
    requires
        0 <= k <= es.len(),
        packed(es, count) is Ok,
    ensures
        packed(es.take(k), count) is Ok,
        packed(es.take(k), count)->Ok_0.len() <= packed(es, count)->Ok_0.len(),
        packed(es, count)->Ok_0.take(packed(es.take(k), count)->Ok_0.len() as int) == packed(
            es.take(k),
            count,
        )->Ok_0,
    decreases es.len(),
{
    if k == es.len() {
        assert(es.take(k) =~= es);
        let b = packed(es, count)->Ok_0;
        assert(b.take(b.len() as int) =~= b);
    } else {
        lemma_packed_prefix(es.drop_last(), k, count);
        assert(es.drop_last().take(k) =~= es.take(k));
        let shorter = packed(es.drop_last(), count)->Ok_0;
        let b = packed(es, count)->Ok_0;
        let bk = packed(es.take(k), count)->Ok_0;
        assert(b.take(bk.len() as int) =~= shorter.take(bk.len() as int));
    }
}

/// The names of entries as an archive holds them.
pub open spec fn stored_names(es: Seq<TreeEntryView>) -> Seq<Seq<char>> {
    es.map_values(|e: TreeEntryView| slashed(e.name))
}

/// The verdicts that accept each stored name as it is written.
pub open spec fn accept_all(es: Seq<TreeEntryView>) -> Seq<Result<Seq<char>, Seq<char>>> {
    es.map_values(|e: TreeEntryView| Ok::<Seq<char>, Seq<char>>(slashed(e.name)))
}

/// The length of the archive of the first `k` entries.
spec fn prefix_len(es: Seq<TreeEntryView>, k: int) -> int {
    packed(es.take(k), es.len())->Ok_0.len() as int
}

/// What stands in an archive at the place of entry `k`.
proof fn lemma_entry_at(es: Seq<TreeEntryView>, k: int)
    requires
        0 <= k < es.len(),
        packed(es, es.len()) is Ok,
        packed(es, es.len())->Ok_0.len() <= usize::MAX,
    ensures
        ({
            let b = packed(es, es.len())->Ok_0;
            let e = es[k];
            let next = prefix_len(es, k + 1);
            &&& head_at(b, prefix_len(es, k)) is Ok
            &&& ({
                let h = head_at(b, prefix_len(es, k))->Ok_0;
                &&& h.name == slashed(e.name)
                &&& h.is_dir == e.is_dir
                &&& e.is_dir ==> h.body == next
                &&& !e.is_dir ==> {
                    &&& taken(b.len(), h.body, (h.size as usize) as int) == Ok::<
                        int,
                        SyncErrorView,
                    >(next)
                    &&& 0 <= h.body <= next <= b.len()
                    &&& b.subrange(h.body, next) == e.data
                }
            })
        }),
{
    let n = es.len();
    let b = packed(es, n)->Ok_0;
    let e = es[k];
    lemma_packed_prefix(es, k, n);
    lemma_packed_prefix(es, k + 1, n);
    let bk = packed(es.take(k), n)->Ok_0;
    let next = packed(es.take(k + 1), n)->Ok_0;
    assert(es.take(k + 1).drop_last() =~= es.take(k));
    assert(es.take(k + 1).last() == e);
    let nb = encode_utf8(slashed(e.name));
    let size: nat = if e.is_dir {
        0
    } else {
        e.data.len()
    };
    let head = head_bytes(nb, e.is_dir, size);
    assert(next == bk + head + body_bytes(e));
    let at = bk.len() as int;
    let w = b.take(next.len() as int);
    assert(b.subrange(at, at + head.len()) =~= w.subrange(at, at + head.len()));
    assert(w.subrange(at, at + head.len()) =~= head);
    lemma_head_read(b, at, slashed(e.name), e.is_dir, size);
    let body = at + head.len();
    if !e.is_dir {
        assert(b.subrange(body, next.len() as int) =~= w.subrange(body, next.len() as int));
        assert(w.subrange(body, next.len() as int) =~= e.data);
    }
}

proof fn lemma_unpack_rest(es: Seq<TreeEntryView>, k: int)
    requires
        0 <= k <= es.len(),
        packed(es, es.len()) is Ok,
        packed(es, es.len())->Ok_0.len() <= usize::MAX,
    ensures
        ({
            let b = packed(es, es.len())->Ok_0;
            let left = (es.len() - k) as nat;
            let rest = unpacked_from(b, accept_all(es).skip(k), prefix_len(es, k), left);
            &&& rest.1 is None
            &&& rest.0.len() == left
            &&& forall|j: int| 0 <= j < left ==> restores(b, #[trigger] rest.0[j], es[k + j])
            &&& names_from(b, prefix_len(es, k), left) == stored_names(es).skip(k)
        }),
    decreases es.len() - k,
{
    let n = es.len();
    let b = packed(es, n)->Ok_0;
    let clean = accept_all(es);
    if k == n {
        assert(stored_names(es).skip(k) =~= Seq::<Seq<char>>::empty());
    } else {
        let e = es[k];
        lemma_entry_at(es, k);
        lemma_unpack_rest(es, k + 1);
        let at = prefix_len(es, k);
        let next = prefix_len(es, k + 1);
        let h = head_at(b, at)->Ok_0;
        assert(clean.skip(k).skip(1) =~= clean.skip(k + 1));
        assert(clean.skip(k)[0] == Ok::<Seq<char>, Seq<char>>(slashed(e.name)));
        let after = unpacked_from(b, clean.skip(k + 1), next, (n - k - 1) as nat);
        let here = unpacked_from(b, clean.skip(k), at, (n - k) as nat);
        let op = if e.is_dir {
            TreeOpView::Dir(slashed(e.name))
        } else {
            TreeOpView::File(slashed(e.name), h.body, next)
        };
        assert(here.0 == seq![op] + after.0);
        assert(here.1 == after.1);
        assert(restores(b, op, e));
        assert forall|j: int| 0 <= j < n - k implies restores(b, #[trigger] here.0[j], es[k + j]) by {
            if j > 0 {
                assert(here.0[j] == after.0[j - 1]);
                assert(es[k + j] == es[(k + 1) + (j - 1)]);
            }
        }
        assert(stored_names(es).skip(k) =~= seq![slashed(e.name)] + stored_names(es).skip(k + 1));
    }
}

/// Unpacking gives back what was packed: if every name is accepted as it is
/// written, the steps create the destination and then put back each entry, in
/// order, and no error ends them.
pub proof fn unpack_restores_pack(es: Seq<TreeEntryView>)
    requires
        es.len() <= u32::MAX,
        packed(es, es.len()) is Ok,
        packed(es, es.len())->Ok_0.len() <= usize::MAX,
    ensures
        ({
            let b = packed(es, es.len())->Ok_0;
            let ops = unpacked_ops(b, accept_all(es));
            &&& names_in(b) == stored_names(es)
            &&& unpack_error(b, accept_all(es)) is None
            &&& ops.len() == es.len() + 1
            &&& ops[0] is Dest
            &&& forall|j: int| 1 <= j <= es.len() ==> restores(b, #[trigger] ops[j], es[j - 1])
        }),
{
    let n = es.len();
    let b = packed(es, n)->Ok_0;
    let clean = accept_all(es);
    lemma_packed_prefix(es, 0, n);
    lemma_unpack_rest(es, 0);
    let start = packed(es.take(0), n)->Ok_0;
    crate::bytes::lemma_pow256();
    crate::bytes::le_round_trip(n, 4);
    assert(start =~= tree_tag() + le_bytes(n, 4));
    assert(b.take(8).subrange(0, 4) =~= tree_tag());
    assert(b.subrange(0, 4) =~= b.take(8).subrange(0, 4));
    assert(b.take(8).subrange(4, 8) =~= le_bytes(n, 4));
    assert(b.subrange(4, 8) =~= b.take(8).subrange(4, 8));
    assert(clean.skip(0) =~= clean);
    assert(stored_names(es).skip(0) =~= stored_names(es));
    let rest = unpacked_from(b, clean, 8, n);
    let ops = unpacked_ops(b, clean);
    assert forall|j: int| 1 <= j <= n implies restores(b, #[trigger] ops[j], es[j - 1]) by {
        assert(ops[j] == rest.0[j - 1]);
        assert(es[0 + (j - 1)] == es[j - 1]);
    }
}

/// A stored name has as many characters as the name itself, which are the same but
/// for backslashes: those are slashes.
pub proof fn stored_name_differs_in_slashes_alone(name: Seq<char>)
    ensures
        slashed(name).len() == name.len(),
        forall|i: int|
            0 <= i < name.len() ==> #[trigger] slashed(name)[i] == (if name[i] == '\\' {
                '/'
            } else {
                name[i]
            }),
{
}

/// An entry is packed just if its name, with slashes, has at most 65535 bytes and, if
/// it is a file, the bytes before it with its name and its contents keep within 500
/// MiB. Its head is eleven bytes longer than its name. Only what is too large for
/// that is refused for its size.
pub proof fn entry_is_packed_within_limits(
    name: Seq<char>,
    is_dir: bool,
    size: nat,
    written: nat,
)
    ensures
        ({
            let n = encode_utf8(slashed(name)).len();
            let r = checked_head(name, is_dir, size, written);
            let fits = is_dir || written + 3 + n + size <= 500 * 1024 * 1024;
            &&& r is Ok <==> n <= 65535 && fits
            &&& r is Ok ==> r->Ok_0.len() == n + 11
            &&& n > 65535 ==> r == Err::<Seq<u8>, SyncErrorView>(
                SyncErrorView::Protocol("archive path is too long"@),
            )
            &&& n <= 65535 && !fits ==> r == Err::<Seq<u8>, SyncErrorView>(
                SyncErrorView::Failed("file tree exceeds remote size limit"@),
            )
        }),
{
    let n = encode_utf8(slashed(name)).len();
    crate::bytes::lemma_le_len(n, 2);
    crate::bytes::lemma_le_len(size, 8);
    crate::bytes::lemma_le_len(0, 8);
}

/// The bytes that an archive of some entries takes: eight for the archive, and for
/// each entry eleven with its name and, if it is a file, its contents.
pub open spec fn archive_size(es: Seq<TreeEntryView>) -> nat
    decreases es.len(),
{
    if es.len() == 0 {
        8
    } else {
        let e = es.last();
        archive_size(es.drop_last()) + 11 + encode_utf8(slashed(e.name)).len() + (if e.is_dir {
            0
        } else {
            e.data.len()
        })
    }
}

/// Whether a file tree is too large to be packed at one of its files: the archive of
/// what comes before it, with its name and its contents, exceeds 500 MiB.
pub open spec fn exceeds_at(es: Seq<TreeEntryView>, i: int) -> bool {
    !es[i].is_dir && archive_size(es.take(i)) + 3 + encode_utf8(slashed(es[i].name)).len()
        + es[i].data.len() > 500 * 1024 * 1024
}

/// A file tree is packed just if no name is too long and it is too large at none of
/// its files, and the archive then has exactly the bytes that its entries take. In
/// particular every tree whose archive keeps within 500 MiB is packed, however its
/// bytes are spread over files.
pub proof fn trees_within_the_limit_are_packed(es: Seq<TreeEntryView>, count: nat)
    ensures
        packed(es, count) is Ok <==> forall|i: int|
            #![trigger es[i]]
            0 <= i < es.len() ==> encode_utf8(slashed(es[i].name)).len() <= 65535 && !exceeds_at(
                es,
                i,
            ),
        packed(es, count) is Ok ==> packed(es, count)->Ok_0.len() == archive_size(es),
        archive_size(es) <= 500 * 1024 * 1024 && (forall|i: int|
            0 <= i < es.len() ==> encode_utf8(slashed((#[trigger] es[i]).name)).len() <= 65535)
            ==> packed(es, count) is Ok,
        packed(es, count) == Err::<Seq<u8>, SyncErrorView>(
            SyncErrorView::Failed("file tree exceeds remote size limit"@),
        ) ==> exists|i: int| 0 <= i < es.len() && #[trigger] exceeds_at(es, i),
    decreases es.len(),
{
    crate::bytes::lemma_le_len(count, 4);
    if es.len() == 0 {
        assert(tree_tag().len() == 4);
    } else {
        let shorter = es.drop_last();
        let last = es.len() - 1;
        let e = es[last];
        trees_within_the_limit_are_packed(shorter, count);
        entry_is_packed_within_limits(
            e.name,
            e.is_dir,
            e.data.len(),
            archive_size(shorter),
        );
        assert(es.take(last) =~= shorter);
        assert forall|i: int| 0 <= i < last implies exceeds_at(es, i) == #[trigger] exceeds_at(
            shorter,
            i,
        ) by {
            assert(es.take(i) =~= shorter.take(i));
            assert(es[i] == shorter[i]);
        }
        assert forall|i: int| 0 <= i < last implies #[trigger] es[i] == shorter[i] by {}
        if packed(shorter, count) is Ok {
            assert forall|i: int| 0 <= i < last implies encode_utf8(
                slashed((#[trigger] es[i]).name),
            ).len() <= 65535 && !exceeds_at(es, i) by {
                assert(shorter[i] == es[i]);
                assert(!exceeds_at(shorter, i));
            }
            if packed(es, count) is Err {
                assert(encode_utf8(slashed(es[last].name)).len() > 65535 || exceeds_at(es, last));
            }
        } else {
            let i = choose|i: int|
                #![trigger shorter[i]]
                0 <= i < shorter.len() && !(encode_utf8(slashed(shorter[i].name)).len() <= 65535
                    && !exceeds_at(shorter, i));
            assert(es[i] == shorter[i]);
            assert(exceeds_at(es, i) == exceeds_at(shorter, i));
            if packed(shorter, count) == Err::<Seq<u8>, SyncErrorView>(
                SyncErrorView::Failed("file tree exceeds remote size limit"@),
            ) {
                let k = choose|k: int| 0 <= k < shorter.len() && #[trigger] exceeds_at(shorter, k);
                assert(exceeds_at(es, k));
            }
            if archive_size(es) <= 500 * 1024 * 1024 {
                lemma_prefix_within(es, i);
            }
        }
    }
}

/// The archive up to and with an entry is no longer than the whole.
proof fn lemma_prefix_within(es: Seq<TreeEntryView>, i: int)
    requires
        0 <= i < es.len(),
    ensures
        archive_size(es.take(i)) + 11 + encode_utf8(slashed(es[i].name)).len() + (if es[i].is_dir {
            0
        } else {
            es[i].data.len()
        }) <= archive_size(es),
    decreases es.len(),
{
    if i == es.len() - 1 {
        assert(es.take(i) =~= es.drop_last());
    } else {
        lemma_prefix_within(es.drop_last(), i);
        assert(es.take(i) =~= es.drop_last().take(i));
        assert(es.drop_last()[i] == es[i]);
    }
}

/// A bundle is made just if its manifest fits into four bytes of length and its file
/// tree is packed.
pub proof fn bundles_of_packed_trees_are_made(manifest: Seq<u8>, es: Seq<TreeEntryView>)
    ensures
        bundled(manifest, es) is Ok <==> manifest.len() <= 0xffff_ffff && packed(
            es,
            es.len(),
        ) is Ok,
        bundled(manifest, es) is Ok ==> bundled(manifest, es)->Ok_0.len() == 8 + manifest.len()
            + packed(es, es.len())->Ok_0.len(),
        manifest.len() <= 0xffff_ffff && packed(es, es.len()) is Err ==> bundled(manifest, es)
            == packed(es, es.len()),
{
    crate::bytes::lemma_le_len(manifest.len(), 4);
    assert(bundle_tag().len() == 4);
}

/// Whether a step puts an entry back at a path.
pub open spec fn puts_back(
    b: Seq<u8>,
    op: TreeOpView,
    rel: Seq<char>,
    e: TreeEntryView,
) -> bool {
    match op {
        TreeOpView::Dir(path) => e.is_dir && path == rel,
        TreeOpView::File(path, from, to) => {
            &&& !e.is_dir
            &&& path == rel
            &&& 0 <= from <= to <= b.len()
            &&& b.subrange(from, to) == e.data
        },
        _ => false,
    }
}

proof fn lemma_unpack_checked(
    es: Seq<TreeEntryView>,
    clean: Seq<Result<Seq<char>, Seq<char>>>,
    i: int,
    k: int,
)
    requires
        0 <= i <= k <= es.len() == clean.len(),
        packed(es, es.len()) is Ok,
        packed(es, es.len())->Ok_0.len() <= usize::MAX,
        forall|j: int| 0 <= j < k ==> (#[trigger] clean[j]) is Ok,
        k < es.len() ==> clean[k] is Err,
    ensures
        ({
            let b = packed(es, es.len())->Ok_0;
            let rest = unpacked_from(b, clean.skip(i), prefix_len(es, i), (es.len() - i) as nat);
            &&& rest.0.len() == k - i
            &&& rest.1 == (if k < es.len() {
                Some(SyncErrorView::Failed(clean[k]->Err_0))
            } else {
                None
            })
            &&& forall|j: int|
                0 <= j < k - i ==> puts_back(
                    b,
                    #[trigger] rest.0[j],
                    clean[i + j]->Ok_0,
                    es[i + j],
                )
        }),
    decreases es.len() - i,
{
    let n = es.len();
    let b = packed(es, n)->Ok_0;
    if i < n {
        let e = es[i];
        lemma_entry_at(es, i);
        let at = prefix_len(es, i);
        let next = prefix_len(es, i + 1);
        let h = head_at(b, at)->Ok_0;
        assert(clean.skip(i)[0] == clean[i]);
        assert(clean.skip(i).skip(1) =~= clean.skip(i + 1));
        if i < k {
            lemma_unpack_checked(es, clean, i + 1, k);
            let rel = clean[i]->Ok_0;
            let after = unpacked_from(b, clean.skip(i + 1), next, (n - i - 1) as nat);
            let here = unpacked_from(b, clean.skip(i), at, (n - i) as nat);
            let op = if e.is_dir {
                TreeOpView::Dir(rel)
            } else {
                TreeOpView::File(rel, h.body, next)
            };
            assert(here.0 == seq![op] + after.0);
            assert forall|j: int| 0 <= j < k - i implies puts_back(
                b,
                #[trigger] here.0[j],
                clean[i + j]->Ok_0,
                es[i + j],
            ) by {
                if j > 0 {
                    assert(here.0[j] == after.0[j - 1]);
                    assert(es[i + j] == es[(i + 1) + (j - 1)]);
                    assert(clean[i + j] == clean[(i + 1) + (j - 1)]);
                }
            }
        }
    }
}

/// Unpacking what was packed puts every entry back at the path that its name was
/// accepted as, with its contents, up to the first name that is refused. That refusal
/// is the error; without one there is none.
pub proof fn unpack_puts_entries_at_accepted_paths(
    es: Seq<TreeEntryView>,
    clean: Seq<Result<Seq<char>, Seq<char>>>,
    k: int,
)
    requires
        es.len() <= u32::MAX,
        packed(es, es.len()) is Ok,
        packed(es, es.len())->Ok_0.len() <= usize::MAX,
        0 <= k <= es.len() == clean.len(),
        forall|j: int| 0 <= j < k ==> (#[trigger] clean[j]) is Ok,
        k < es.len() ==> clean[k] is Err,
    ensures
        ({
            let b = packed(es, es.len())->Ok_0;
            let ops = unpacked_ops(b, clean);
            &&& ops.len() == k + 1
            &&& ops[0] is Dest
            &&& forall|j: int|
                1 <= j <= k ==> puts_back(b, #[trigger] ops[j], clean[j - 1]->Ok_0, es[j - 1])
            &&& unpack_error(b, clean) == (if k < es.len() {
                Some(SyncErrorView::Failed(clean[k]->Err_0))
            } else {
                None
            })
        }),
{
    let n = es.len();
    let b = packed(es, n)->Ok_0;
    unpack_restores_pack(es);
    lemma_packed_prefix(es, 0, n);
    crate::bytes::lemma_pow256();
    crate::bytes::le_round_trip(n, 4);
    assert(packed(es.take(0), n)->Ok_0 =~= tree_tag() + le_bytes(n, 4));
    assert(b.take(8).subrange(0, 4) =~= tree_tag());
    assert(b.subrange(0, 4) =~= b.take(8).subrange(0, 4));
    assert(b.take(8).subrange(4, 8) =~= le_bytes(n, 4));
    assert(b.subrange(4, 8) =~= b.take(8).subrange(4, 8));
    lemma_unpack_checked(es, clean, 0, k);
    assert(clean.skip(0) =~= clean);
    let rest = unpacked_from(b, clean, 8, n);
    let ops = unpacked_ops(b, clean);
    assert forall|j: int| 1 <= j <= k implies puts_back(
        b,
        #[trigger] ops[j],
        clean[j - 1]->Ok_0,
        es[j - 1],
    ) by {
        assert(ops[j] == rest.0[j - 1]);
        assert(es[0 + (j - 1)] == es[j - 1]);
        assert(clean[0 + (j - 1)] == clean[j - 1]);
    }
}

/// What was made at the top are the paths without a separator of the directories and
/// files that the steps make, each of them and no others.
pub proof fn top_paths_are_those_without_separator(ops: Seq<TreeOpView>, rel: Seq<char>)
    ensures
        top_paths(ops).contains(rel) <==> !rel.contains('/') && exists|i: int|
            0 <= i < ops.len() && (#[trigger] ops[i] == TreeOpView::Dir(rel) || (ops[i] is File
                && ops[i]->File_0 == rel)),
    decreases ops.len(),
{
    if ops.len() > 0 {
        let shorter = ops.drop_last();
        top_paths_are_those_without_separator(shorter, rel);
        let before = top_paths(shorter);
        let all = top_paths(ops);
        let last = ops.len() - 1;
        assert(ops[last] == ops.last());
        assert forall|i: int| 0 <= i < last implies #[trigger] ops[i] == shorter[i] by {}
        if before.contains(rel) {
            let k = choose|k: int| 0 <= k < before.len() && before[k] == rel;
            assert(all[k] == rel);
            let i = choose|i: int|
                0 <= i < shorter.len() && (#[trigger] shorter[i] == TreeOpView::Dir(rel) || (
                shorter[i] is File && shorter[i]->File_0 == rel));
            assert(ops[i] == shorter[i]);
        } else if all.contains(rel) {
            let k = choose|k: int| 0 <= k < all.len() && all[k] == rel;
            if k < before.len() {
                assert(before[k] == rel);
            }
        }
        if !rel.contains('/') && (ops.last() == TreeOpView::Dir(rel) || (ops.last() is File
            && ops.last()->File_0 == rel)) {
            assert(all[before.len() as int] == rel);
        }
        if !rel.contains('/') && exists|i: int|
            0 <= i < ops.len() && (#[trigger] ops[i] == TreeOpView::Dir(rel) || (ops[i] is File
                && ops[i]->File_0 == rel)) {
            let i = choose|i: int|
                0 <= i < ops.len() && (#[trigger] ops[i] == TreeOpView::Dir(rel) || (ops[i] is File
                    && ops[i]->File_0 == rel));
            if i < last {
                assert(shorter[i] == ops[i]);
            }
        }
    }
}

/// Checks the tag at the start of an archive that is read from a stream.
pub fn check_tree_tag(tag: &[u8]) -> (r: Result<(), SyncError>)
    ensures
        match r {
            Ok(_) => tag@ == tree_tag(),
            Err(e) => tag@ != tree_tag() && e@ == SyncErrorView::Protocol("bad archive magic"@),
        },
{
    let expected: Vec<u8> = vec![0x41u8, 0x53, 0x46, 0x31];
    assert(expected@ =~= tree_tag());
    if same_bytes(tag, expected.as_slice()) {
        Ok(())
    } else {
        Err(protocol("bad archive magic"))
    }
}

/// A two-byte number from a stream.
pub fn read_u16(b: &[u8]) -> (r: u16)
    requires
        b@.len() == 2,
    ensures
        r == le_value(b@),
{
    proof {
        crate::bytes::lemma_le_bound(b@);
        crate::bytes::lemma_pow256();
        assert(b@.subrange(0, 2) =~= b@);
    }
    read_le(b, 0, 2) as u16
}

/// A four-byte number from a stream.
pub fn read_u32(b: &[u8]) -> (r: u32)
    requires
        b@.len() == 4,
    ensures
        r == le_value(b@),
{
    proof {
        crate::bytes::lemma_le_bound(b@);
        crate::bytes::lemma_pow256();
        assert(b@.subrange(0, 4) =~= b@);
    }
    read_le(b, 0, 4) as u32
}

/// An eight-byte number from a stream.
pub fn read_u64(b: &[u8]) -> (r: u64)
    requires
        b@.len() == 8,
    ensures
        r == le_value(b@),
{
    assert(b@.subrange(0, 8) =~= b@);
    read_le(b, 0, 8)
}

/// Admits an entry that is read from a stream, after files of `extracted`
/// bytes: a directory must be empty, and the files together must stay within
/// the limit. Gives the new total.
pub fn admit_entry(extracted: u64, is_dir: bool, size: u64) -> (r: Result<u64, SyncError>)
    ensures
        match r {
            Ok(total) => if is_dir {
                size == 0 && total == extracted
            } else {
                total == extracted + size && total <= MAX_ARCHIVE_BYTES
            },
            Err(e) => if is_dir {
                size != 0 && e@ == SyncErrorView::Protocol("directory entry has payload"@)
            } else {
                extracted + size > MAX_ARCHIVE_BYTES && e@ == SyncErrorView::Failed(
                    "file tree exceeds remote size limit"@,
                )
            },
        },
{
    if is_dir {
        if size != 0 {
            return Err(protocol("directory entry has payload"));
        }
        return Ok(extracted);
    }
    match extracted.checked_add(size) {
        Some(total) => if total <= MAX_ARCHIVE_BYTES {
            Ok(total)
        } else {
            Err(failed("file tree exceeds remote size limit"))
        },
        None => Err(failed("file tree exceeds remote size limit")),
    }
}

/// Checks that the contents of a file came whole from a stream.
pub fn check_copied(copied: u64, size: u64) -> (r: Result<(), SyncError>)
    ensures
        match r {
            Ok(_) => copied == size,
            Err(e) => copied != size && e@ == SyncErrorView::Protocol(
                "truncated archive payload"@,
            ),
        },
{
    if copied != size {
        Err(protocol("truncated archive payload"))
    } else {
        Ok(())
    }
}

/// Whether a path is at the top of the tree.
pub fn is_top(rel: &str) -> (r: bool)
    ensures
        r == !rel@.contains('/'),
{
    !crate::text::contains_char(rel, '/')
}

/// The bytes of a bundle before its archive.
pub open spec fn bundle_head(manifest: Seq<u8>) -> Seq<u8> {
    bundle_tag() + le_bytes(manifest.len(), 4) + manifest
}

/// The bytes of a bundle before its archive, for a manifest that fits.
pub fn bundle_header(manifest: &[u8]) -> (r: Result<Vec<u8>, SyncError>)
    ensures
        match r {
            Ok(b) => manifest@.len() <= u32::MAX && b@ == bundle_head(manifest@),
            Err(e) => manifest@.len() > u32::MAX && e@ == SyncErrorView::Protocol(
                "file manifest is too large"@,
            ),
        },
{
    if manifest.len() as u64 > 0xffff_ffff {
        return Err(protocol("file manifest is too large"));
    }
    let mut out: Vec<u8> = vec![0x41u8, 0x53, 0x42, 0x32];
    assert(out@ =~= bundle_tag());
    push_le(&mut out, manifest.len() as u64, 4);
    push_all(&mut out, manifest);
    Ok(out)
}

/// The bundle of a manifest and a file tree, or why it cannot be made.
pub open spec fn bundled(manifest: Seq<u8>, es: Seq<TreeEntryView>) -> Result<
    Seq<u8>,
    SyncErrorView,
> {
    if manifest.len() > u32::MAX {
        Err(SyncErrorView::Protocol("file manifest is too large"@))
    } else {
        match packed(es, es.len()) {
            Ok(b) => Ok(bundle_head(manifest) + b),
            Err(e) => Err(e),
        }
    }
}

/// The bundle of a manifest, already encoded, and a file tree.
pub fn pack_file_bundle(manifest: &[u8], entries: &[TreeEntry]) -> (r: Result<Vec<u8>, SyncError>)
    ensures
        match r {
            Ok(b) => bundled(manifest@, entry_views(entries@)) == Ok::<Seq<u8>, SyncErrorView>(b@),
            Err(e) => bundled(manifest@, entry_views(entries@)) == Err::<Seq<u8>, SyncErrorView>(
                e@,
            ),
        },
{
    let mut out = match bundle_header(manifest) {
        Ok(head) => head,
        Err(e) => return Err(e),
    };
    match pack_tree(entries) {
        Ok(tree) => {
            push_all(&mut out, tree.as_slice());
            Ok(out)
        },
        Err(e) => Err(e),
    }
}

/// Where the archive of a bundle begins, or why the bundle is refused.
pub open spec fn archive_start(b: Seq<u8>) -> Result<int, SyncErrorView> {
    if b.len() < 8 || b.subrange(0, 4) != bundle_tag() {
        Err(SyncErrorView::Protocol("bad file bundle magic"@))
    } else if 8 + le_value(b.subrange(4, 8)) > b.len() {
        Err(SyncErrorView::Protocol("truncated file bundle manifest"@))
    } else {
        Ok(8 + le_value(b.subrange(4, 8)) as int)
    }
}

/// Where the archive of a bundle begins. The manifest is what stands between
/// the first eight bytes and that place.
pub fn unpack_file_bundle(bytes: &[u8]) -> (r: Result<usize, SyncError>)
    ensures
        match r {
            Ok(at) => archive_start(bytes@) == Ok::<int, SyncErrorView>(at as int) && 8 <= at
                <= bytes@.len(),
            Err(e) => archive_start(bytes@) == Err::<int, SyncErrorView>(e@),
        },
{
    if bytes.len() < 8 {
        return Err(protocol("bad file bundle magic"));
    }
    let tag = copy_range(bytes, 0, 4);
    let expected: Vec<u8> = vec![0x41u8, 0x53, 0x42, 0x32];
    assert(expected@ =~= bundle_tag());
    if !same_bytes(tag.as_slice(), expected.as_slice()) {
        return Err(protocol("bad file bundle magic"));
    }
    let len: u64 = read_le(bytes, 4, 4);
    if len > bytes.len() as u64 - 8 {
        return Err(protocol("truncated file bundle manifest"));
    }
    Ok(8 + len as usize)
}

/// A bundle gives back the manifest and the archive it was made of.
pub proof fn unbundle_restores_bundle(manifest: Seq<u8>, es: Seq<TreeEntryView>)
    requires
        bundled(manifest, es) is Ok,
    ensures
        ({
            let b = bundled(manifest, es)->Ok_0;
            &&& archive_start(b) == Ok::<int, SyncErrorView>(8 + manifest.len() as int)
            &&& b.subrange(8, 8 + manifest.len() as int) == manifest
            &&& packed(es, es.len()) == Ok::<Seq<u8>, SyncErrorView>(
                b.skip(8 + manifest.len() as int),
            )
        }),
{
    let b = bundled(manifest, es)->Ok_0;
    let tree = packed(es, es.len())->Ok_0;
    crate::bytes::lemma_pow256();
    crate::bytes::le_round_trip(manifest.len(), 4);
    assert(b.subrange(0, 4) =~= bundle_tag());
    assert(b.subrange(4, 8) =~= le_bytes(manifest.len(), 4));
    assert(b.subrange(8, 8 + manifest.len() as int) =~= manifest);
    assert(b.skip(8 + manifest.len() as int) =~= tree);
}

/// Checks the tag and the manifest length of a bundle that is read from a
/// stream.
pub fn check_bundle_head(head: &[u8]) -> (r: Result<usize, SyncError>)
    requires
        head@.len() == 8,
    ensures
        match r {
            Ok(len) => {
                &&& head@.subrange(0, 4) == bundle_tag()
                &&& len == le_value(head@.subrange(4, 8))
                &&& len <= MAX_MANIFEST_BYTES
            },
            Err(e) => if head@.subrange(0, 4) != bundle_tag() {
                e@ == SyncErrorView::Protocol("bad file bundle magic"@)
            } else {
                &&& le_value(head@.subrange(4, 8)) > MAX_MANIFEST_BYTES
                &&& e@ == SyncErrorView::Protocol("file manifest is too large"@)
            },
        },
{
    let tag = copy_range(head, 0, 4);
    let expected: Vec<u8> = vec![0x41u8, 0x53, 0x42, 0x32];
    assert(expected@ =~= bundle_tag());
    if !same_bytes(tag.as_slice(), expected.as_slice()) {
        return Err(protocol("bad file bundle magic"));
    }
    let len: u64 = read_le(head, 4, 4);
    if len > MAX_MANIFEST_BYTES {
        return Err(protocol("file manifest is too large"));
    }
    Ok(len as usize)
}

/// The first refusal among verdicts on manifest paths.
pub open spec fn first_refusal(v: Seq<Result<String, String>>) -> Option<Seq<char>>
    decreases v.len(),
{
    if v.len() == 0 {
        None
    } else {
        match v[0] {
            Err(m) => Some(m@),
            Ok(_) => first_refusal(v.skip(1)),
        }
    }
}

/// The paths of a manifest are refused for the first that is, and only then.
pub proof fn first_refusal_counts(v: Seq<Result<String, String>>, k: int)
    requires
        0 <= k <= v.len(),
        forall|j: int| 0 <= j < k ==> (#[trigger] v[j]) is Ok,
        k < v.len() ==> v[k] is Err,
    ensures
        first_refusal(v) == (if k < v.len() {
            Some(v[k]->Err_0@)
        } else {
            None
        }),
    decreases v.len(),
{
    if k > 0 {
        let rest = v.skip(1);
        assert(v[0] is Ok);
        assert forall|j: int| 0 <= j < k - 1 implies (#[trigger] rest[j]) is Ok by {
            assert(rest[j] == v[j + 1]);
        }
        first_refusal_counts(rest, k - 1);
    }
}

/// Checks the verdicts on the paths of a manifest: those of its entries first,
/// then those of what it does not support. The first refusal is the error.
pub fn validate_manifest(
    entries: &[Result<String, String>],
    unsupported: &[Result<String, String>],
) -> (r: Result<(), SyncError>)
    ensures
        match first_refusal(entries@ + unsupported@) {
            Some(m) => r matches Err(e) && e@ == SyncErrorView::Failed(m),
            None => r is Ok,
        },
{
    let mut i: usize = 0;
    let ghost all = entries@ + unsupported@;
    assert(all.skip(0) =~= all);
    while i < entries.len()
        invariant
            i <= entries@.len(),
            all == entries@ + unsupported@,
            first_refusal(all) == first_refusal(all.skip(i as int)),
        decreases entries@.len() - i,
    {
        if let Err(m) = &entries[i] {
            return Err(failed(m.as_str()));
        }
        assert(all.skip(i as int).skip(1) =~= all.skip(i + 1));
        i += 1;
    }
    let n: usize = entries.len();
    let mut j: usize = 0;
    while j < unsupported.len()
        invariant
            j <= unsupported@.len(),
            n == entries@.len(),
            all == entries@ + unsupported@,
            first_refusal(all) == first_refusal(all.skip(n + j)),
        decreases unsupported@.len() - j,
    {
        if let Err(m) = &unsupported[j] {
            return Err(failed(m.as_str()));
        }
        assert(all.skip(n + j).skip(1) =~= all.skip(n + j + 1));
        j += 1;
    }
    Ok(())
}

/// What stands at a place of the file system.
#[derive(Clone, Copy, Debug, PartialEq, Eq, Structural)]
pub enum NodeKind {
    Symlink,
    Dir,
    File,
    Other,
}

/// What a walk over a file tree does at a node.
#[derive(Clone, Copy, Debug, PartialEq, Eq, Structural)]
pub enum WalkStep {
    Skip,
    Descend,
    EmitDirAndDescend,
    EmitFile,
}

/// The step at a node: links are never followed, the starting directory is
/// only entered, a directory below it is an entry and entered, a file is an
/// entry.
pub fn walk_step(node: NodeKind, at_start: bool) -> (r: WalkStep)
    ensures
        r == (match node {
            NodeKind::Symlink => WalkStep::Skip,
            NodeKind::Dir => if at_start {
                WalkStep::Descend
            } else {
                WalkStep::EmitDirAndDescend
            },
            NodeKind::File => WalkStep::EmitFile,
            NodeKind::Other => WalkStep::Skip,
        }),
{
    match node {
        NodeKind::Symlink => WalkStep::Skip,
        NodeKind::Dir => if at_start {
            WalkStep::Descend
        } else {
            WalkStep::EmitDirAndDescend
        },
        NodeKind::File => WalkStep::EmitFile,
        NodeKind::Other => WalkStep::Skip,
    }
}

/// A file tree is packed, `r`, whenever no name is too long and the archive keeps within
/// 500 MiB, with files of whatever sizes, and then the archive has the bytes that the
/// entries take. A bundle, `bundle`, is made under the same conditions, if the length of
/// its manifest fits into four bytes.
pub proof fn trees_are_packed(
    entries: &[TreeEntry],
    r: Result<Vec<u8>, SyncError>,
    manifest: &[u8],
    bundle: Result<Vec<u8>, SyncError>,
)
    requires
        call_ensures(pack_tree, (entries,), r),
        call_ensures(pack_file_bundle, (manifest, entries), bundle),
        forall|i: int|
            0 <= i < entries@.len() ==> encode_utf8(slashed((#[trigger] entries@[i]).name@)).len()
                <= 65535,
        archive_size(entry_views(entries@)) <= 500 * 1024 * 1024,
    ensures
        r is Ok && r->Ok_0@.len() == archive_size(entry_views(entries@)),
        manifest@.len() <= 0xffff_ffff ==> {
            &&& bundle is Ok
            &&& bundle->Ok_0@.subrange(8, 8 + manifest@.len() as int) == manifest@
            &&& bundle->Ok_0@.skip(8 + manifest@.len() as int) == r->Ok_0@
        },
{
    let es = entry_views(entries@);
    assert forall|i: int| 0 <= i < es.len() implies encode_utf8(
        slashed((#[trigger] es[i]).name),
    ).len() <= 65535 by {
        assert(entries@[i].name@ == es[i].name);
    }
    trees_within_the_limit_are_packed(es, es.len());
    bundles_of_packed_trees_are_made(manifest@, es);
    if manifest@.len() <= 0xffff_ffff {
        unbundle_restores_bundle(manifest@, es);
    }
}

/// A file tree that was packed, `b`, is unpacked whole, `u`, on any device that accepts
/// its names: every directory and every file comes back at the path that was accepted for
/// it, in order and with its contents.
pub proof fn packed_trees_come_back(
    entries: &[TreeEntry],
    b: Vec<u8>,
    bytes: &[u8],
    clean: &[Result<String, String>],
    u: Unpacked,
    j: int,
)
    requires
        call_ensures(pack_tree, (entries,), Ok::<Vec<u8>, SyncError>(b)),
        bytes@ == b@,
        b@.len() <= usize::MAX,
        entries@.len() <= u32::MAX,
        clean@.len() == entries@.len(),
        forall|i: int| 0 <= i < clean@.len() ==> (#[trigger] clean@[i]) is Ok,
        call_ensures(unpack_tree, (bytes, clean), u),
        0 <= j < entries@.len(),
    ensures
        u.outcome is Ok,
        u.ops@.len() == entries@.len() + 1,
        u.ops@[0] is Dest,
        entries@[j].is_dir ==> u.ops@[j + 1] is Dir && u.ops@[j + 1]->Dir_0@ == clean@[j]->Ok_0@,
        !entries@[j].is_dir ==> {
            &&& u.ops@[j + 1] is File
            &&& u.ops@[j + 1]->File_0@ == clean@[j]->Ok_0@
            &&& u.ops@[j + 1]->File_1 <= u.ops@[j + 1]->File_2 <= bytes@.len()
            &&& bytes@.subrange(u.ops@[j + 1]->File_1 as int, u.ops@[j + 1]->File_2 as int)
                == entries@[j].data@
        },
{
    let es = entry_views(entries@);
    let vs = verdicts(clean@);
    assert forall|i: int| 0 <= i < vs.len() implies (#[trigger] vs[i]) is Ok by {
        assert(clean@[i] is Ok);
    }
    assert(clean@[j] is Ok);
    unpack_puts_entries_at_accepted_paths(es, vs, es.len() as int);
    let ops = op_views(u.ops@);
    assert(ops.len() == u.ops@.len());
    assert(ops[0] == u.ops@[0]@);
    assert(ops[j + 1] == u.ops@[j + 1]@);
    assert(puts_back(bytes@, ops[j + 1], vs[j]->Ok_0, es[j]));
}

/// An entry gets a head, `r`, just if its name fits and, for a file, what was written
/// before it, its name and its contents keep within 500 MiB.
pub proof fn entries_get_heads(
    name: &str,
    is_dir: bool,
    size: u64,
    written: u64,
    r: Result<Vec<u8>, SyncError>,
)
    requires
        call_ensures(entry_header, (name, is_dir, size, written), r),
    ensures
        r is Ok <==> encode_utf8(slashed(name@)).len() <= 65535 && (is_dir || written + 3
            + encode_utf8(slashed(name@)).len() + size <= 500 * 1024 * 1024),
        r is Ok ==> r->Ok_0@.len() == 11 + encode_utf8(slashed(name@)).len(),
{
    entry_is_packed_within_limits(name@, is_dir, size as nat, written as nat);
}

/// An entry that is read from a stream is admitted, `r`, just if it is an empty
/// directory, or a file with which the files so far keep within 500 MiB; and its contents
/// are taken, `copied_r`, just if they are whole.
pub proof fn streamed_entries_are_admitted(
    extracted: u64,
    is_dir: bool,
    size: u64,
    r: Result<u64, SyncError>,
    copied: u64,
    copied_r: Result<(), SyncError>,
)
    requires
        call_ensures(admit_entry, (extracted, is_dir, size), r),
        call_ensures(check_copied, (copied, size), copied_r),
    ensures
        is_dir ==> (r is Ok <==> size == 0),
        !is_dir ==> (r is Ok <==> extracted + size <= 500 * 1024 * 1024),
        r is Ok ==> r->Ok_0 == extracted + size,
        copied_r is Ok <==> copied == size,
{
}

/// Of a file tree everything is packed but links and what is neither file nor directory:
/// directories are entered, and each but the first is an entry of its own.
pub proof fn walks_reach_everything(node: NodeKind, at_start: bool, r: WalkStep)
    requires
        call_ensures(walk_step, (node, at_start), r),
    ensures
        r == WalkStep::Skip <==> node == NodeKind::Symlink || node == NodeKind::Other,
        r == WalkStep::EmitFile <==> node == NodeKind::File,
        r == WalkStep::EmitDirAndDescend <==> node == NodeKind::Dir && !at_start,
        r == WalkStep::Descend <==> node == NodeKind::Dir && at_start,
{
}

/// A manifest is valid, `r`, just if none of its paths is refused, neither those of its
/// entries nor those of what it does not support.
pub proof fn manifests_with_good_paths_are_valid(
    entries: &[Result<String, String>],
    unsupported: &[Result<String, String>],
    r: Result<(), SyncError>,
)
    requires
        call_ensures(validate_manifest, (entries, unsupported), r),
    ensures
        r is Ok <==> (forall|i: int| 0 <= i < entries@.len() ==> (#[trigger] entries@[i]) is Ok) && (
        forall|i: int| 0 <= i < unsupported@.len() ==> (#[trigger] unsupported@[i]) is Ok),
{
    let all = entries@ + unsupported@;
    lemma_refusal_is_of_some(all);
    if forall|i: int| 0 <= i < all.len() ==> (#[trigger] all[i]) is Ok {
        assert forall|i: int| 0 <= i < entries@.len() implies (#[trigger] entries@[i]) is Ok by {
            assert(all[i] == entries@[i]);
        }
        assert forall|i: int| 0 <= i < unsupported@.len() implies (
        #[trigger] unsupported@[i]) is Ok by {
            assert(all[entries@.len() + i] == unsupported@[i]);
        }
    } else {
        let k = choose|k: int| 0 <= k < all.len() && !((#[trigger] all[k]) is Ok);
        if k < entries@.len() {
            assert(entries@[k] == all[k]);
        } else {
            assert(unsupported@[k - entries@.len()] == all[k]);
        }
    }
}

proof fn lemma_refusal_is_of_some(v: Seq<Result<String, String>>)
    ensures
        first_refusal(v) is None <==> forall|i: int| 0 <= i < v.len() ==> (#[trigger] v[i]) is Ok,
    decreases v.len(),
{
    if v.len() > 0 {
        let rest = v.skip(1);
        lemma_refusal_is_of_some(rest);
        assert forall|i: int| 0 <= i < rest.len() implies #[trigger] rest[i] == v[i + 1] by {}
        if v[0] is Ok {
            if forall|i: int| 0 <= i < rest.len() ==> (#[trigger] rest[i]) is Ok {
                assert forall|i: int| 0 <= i < v.len() implies (#[trigger] v[i]) is Ok by {
                    if i > 0 {
                        assert(rest[i - 1] == v[i]);
                    }
                }
            } else {
                let k = choose|k: int| 0 <= k < rest.len() && !((#[trigger] rest[k]) is Ok);
                assert(v[k + 1] == rest[k]);
            }
        }
    }
}

/// A bundle is opened, `r`, where its archive begins, just if it begins as bundles do and
/// holds all of its manifest. Of a stream the length of the manifest is taken, `head_r`,
/// up to four mebibytes.
pub proof fn bundles_are_opened(
    bytes: &[u8],
    r: Result<usize, SyncError>,
    head: &[u8],
    head_r: Result<usize, SyncError>,
)
    requires
        call_ensures(unpack_file_bundle, (bytes,), r),
        head@.len() == 8,
        call_ensures(check_bundle_head, (head,), head_r),
    ensures
        r is Ok <==> bytes@.len() >= 8 && bytes@.subrange(0, 4) == seq![0x41u8, 0x53, 0x42, 0x32]
            && 8 + le_value(bytes@.subrange(4, 8)) <= bytes@.len(),
        r is Ok ==> r->Ok_0 == 8 + le_value(bytes@.subrange(4, 8)),
        head_r is Ok <==> head@.subrange(0, 4) == seq![0x41u8, 0x53, 0x42, 0x32] && le_value(
            head@.subrange(4, 8),
        ) <= 4 * 1024 * 1024,
        head_r is Ok ==> head_r->Ok_0 == le_value(head@.subrange(4, 8)),
{
}


/// Whatever an archive holds, unpacking it creates nothing but the destination and then,
/// entry by entry, what stands at an accepted path, and writes to files only bytes of the
/// archive. It ends well just if it has come to the last entry that the archive claims.
pub proof fn unpacking_keeps_to_the_accepted_paths(
    bytes: &[u8],
    clean: &[Result<String, String>],
    u: Unpacked,
    i: int,
)
    requires
        clean@.len() == names_in(bytes@).len(),
        call_ensures(unpack_tree, (bytes, clean), u),
    ensures
        u.ops@.len() > 0 <==> bytes@.len() >= 8 && bytes@[0] == 0x41 && bytes@[1] == 0x53 && bytes@[2]
            == 0x46 && bytes@[3] == 0x31,
        u.ops@.len() > 0 ==> u.ops@[0] is Dest,
        u.ops@.len() == 0 ==> u.outcome is Err,
        u.ops@.len() > 0 ==> u.ops@.len() <= 1 + le_value(bytes@.subrange(4, 8)),
        u.outcome is Ok ==> u.ops@.len() == 1 + le_value(bytes@.subrange(4, 8)),
        0 < i < u.ops@.len() ==> {
            let op = u.ops@[i];
            &&& !(op is Dest)
            &&& op is Dir || op is File ==> i - 1 < clean@.len() && clean@[i - 1] is Ok
            &&& op matches TreeOp::Dir(rel) ==> rel@ == clean@[i - 1]->Ok_0@
            &&& op matches TreeOp::File(rel, from, to) ==> rel@ == clean@[i - 1]->Ok_0@ && 8 < from
                <= to <= bytes@.len()
            &&& op is Parent ==> i == u.ops@.len() - 1 && u.outcome is Err
        },
        forall|k: int|
            0 <= k < clean@.len() && (#[trigger] clean@[k]) is Err ==> u.outcome is Err,
{
    let b = bytes@;
    let vs = verdicts(clean@);
    let ops = op_views(u.ops@);
    assert(ops.len() == u.ops@.len());
    assert(tree_tag().len() == 4);
    if b.len() >= 8 {
        let tag = b.subrange(0, 4);
        assert(tag[0] == b[0] && tag[1] == b[1] && tag[2] == b[2] && tag[3] == b[3]);
        if b[0] == 0x41 && b[1] == 0x53 && b[2] == 0x46 && b[3] == 0x31 {
            assert(tag =~= tree_tag());
        }
        if is_tree(b) {
            lemma_unpacked(b, vs, 8, entry_count(b));
            assert(ops[0] == u.ops@[0]@);
            if 0 < i < u.ops@.len() {
                assert(ops[i] == u.ops@[i]@);
                assert(ops[i] == unpacked_from(b, vs, 8, entry_count(b)).0[i - 1]);
            }
            assert forall|k: int| 0 <= k < clean@.len() && (#[trigger] clean@[k]) is Err implies u.outcome is Err by {
                assert(vs[k] is Err);
            }
        }
    }
    if !is_tree(b) {
        assert(names_in(b).len() == 0);
    }
}

proof fn lemma_unpacked(
    b: Seq<u8>,
    clean: Seq<Result<Seq<char>, Seq<char>>>,
    at: int,
    left: nat,
)
    requires
        0 <= at <= b.len(),
        clean.len() == names_from(b, at, left).len(),
    ensures
        ({
            let (ops, err) = unpacked_from(b, clean, at, left);
            &&& ops.len() <= left
            &&& err is None ==> ops.len() == left && clean.len() == left
            &&& forall|j: int|
                0 <= j < ops.len() ==> match #[trigger] ops[j] {
                    TreeOpView::Dest => false,
                    TreeOpView::Dir(rel) => j < clean.len() && clean[j] == Ok::<
                        Seq<char>,
                        Seq<char>,
                    >(rel),
                    TreeOpView::File(rel, from, to) => j < clean.len() && clean[j] == Ok::<
                        Seq<char>,
                        Seq<char>,
                    >(rel) && at < from <= to <= b.len(),
                    TreeOpView::Parent(_) => j == ops.len() - 1 && err is Some,
                }
            &&& forall|k: int| 0 <= k < clean.len() && (#[trigger] clean[k]) is Err ==> err is Some
        }),
    decreases left,
{
    if left > 0 {
        if let Ok(h) = head_at(b, at) {
            let names = names_from(b, at, left);
            assert(names.len() >= 1);
            let rest = clean.skip(1);
            let next = if h.is_dir {
                Some(h.body)
            } else {
                match taken(b.len(), h.body, (h.size as usize) as int) {
                    Ok(end) => Some(end),
                    Err(_) => None,
                }
            };
            if clean[0] is Ok && next is Some {
                lemma_unpacked(b, rest, next->0, (left - 1) as nat);
                let tail = unpacked_from(b, rest, next->0, (left - 1) as nat);
                let (ops, err) = unpacked_from(b, clean, at, left);
                assert forall|j: int| 0 <= j < ops.len() implies match #[trigger] ops[j] {
                    TreeOpView::Dest => false,
                    TreeOpView::Dir(rel) => j < clean.len() && clean[j] == Ok::<
                        Seq<char>,
                        Seq<char>,
                    >(rel),
                    TreeOpView::File(rel, from, to) => j < clean.len() && clean[j] == Ok::<
                        Seq<char>,
                        Seq<char>,
                    >(rel) && at < from <= to <= b.len(),
                    TreeOpView::Parent(_) => j == ops.len() - 1 && err is Some,
                } by {
                    if j > 0 {
                        assert(ops[j] == tail.0[j - 1]);
                        if j - 1 < rest.len() {
                            assert(rest[j - 1] == clean[j]);
                        }
                    }
                }
                assert forall|k: int| 0 <= k < clean.len() && (
                #[trigger] clean[k]) is Err implies err is Some by {
                    if k > 0 {
                        assert(rest[k - 1] == clean[k]);
                    }
                }
            }
        }
    }
}

/// The head of an archive tells how many entries follow; the head of a bundle tells how
/// long its manifest is, which must fit into four bytes. Paths without separator are the
/// ones that stand at the top.
pub proof fn heads_tell_what_follows(
    count: usize,
    head: Vec<u8>,
    manifest: &[u8],
    b: Result<Vec<u8>, SyncError>,
    rel: &str,
    top: bool,
    tag: &[u8],
    t: Result<(), SyncError>,
)
    requires
        call_ensures(tree_header, (count,), head),
        call_ensures(bundle_header, (manifest,), b),
        call_ensures(is_top, (rel,), top),
        call_ensures(check_tree_tag, (tag,), t),
    ensures
        head@.len() == 8,
        head@.subrange(0, 4) == seq![0x41u8, 0x53, 0x46, 0x31],
        count <= 0xffff_ffff ==> le_value(head@.subrange(4, 8)) == count,
        b is Ok <==> manifest@.len() <= 0xffff_ffff,
        top <==> forall|i: int| 0 <= i < rel@.len() ==> #[trigger] rel@[i] != '/',
        t is Ok <==> tag@ == seq![0x41u8, 0x53, 0x46, 0x31],
{
    crate::bytes::lemma_pow256();
    crate::bytes::lemma_le_len(count as nat, 4);
    if count <= 0xffff_ffff {
        crate::bytes::le_round_trip(count as nat, 4);
    }
    assert(head@.subrange(0, 4) =~= seq![0x41u8, 0x53, 0x46, 0x31]);
    assert(head@.subrange(4, 8) =~= le_bytes(count as nat, 4));
    assert(tree_tag() =~= seq![0x41u8, 0x53, 0x46, 0x31]);
    if !top {
        let i = choose|i: int| 0 <= i < rel@.len() && rel@[i] == '/';
        assert(rel@[i] == '/');
    }
}


} // verus!
