//! Unpacking an archive while it is read, without holding it in memory.

use vstd::prelude::*;

use crate::sync::archive::{
    admit_entry, check_tree_tag, checked_head, is_top, packed, slashed, tree_tag, TreeEntryView,
    TreeRoots, MAX_ARCHIVE_BYTES,
};
use crate::sync::error::{SyncError, SyncErrorView};
use crate::text::texts;

verus! {

/// An archive that is being read: how many entries are left, how many bytes of
/// files there were so far, and the top-level paths that were made.
#[derive(Debug)]
pub struct TreeReader {
    pub left: u32,
    pub extracted: u64,
    pub roots: Vec<String>,
}

/// A [`TreeReader`] as mathematical values.
#[verifier::ext_equal]
pub struct TreeReaderView {
    pub left: nat,
    pub extracted: nat,
    pub roots: Seq<Seq<char>>,
}

impl View for TreeReader {
    type V = TreeReaderView;

    open spec fn view(&self) -> TreeReaderView {
        TreeReaderView {
            left: self.left as nat,
            extracted: self.extracted as nat,
            roots: texts(self.roots@),
        }
    }
}

/// What is made of an entry: a directory, or a file of so many bytes.
#[derive(Debug)]
pub enum TreeWrite {
    Dir(String),
    File(String, u64),
}

/// A reader after one more entry, or why the entry is refused. `clean` is the
/// verdict on its name.
pub open spec fn after_entry(
    v: TreeReaderView,
    is_dir: bool,
    size: nat,
    clean: Result<Seq<char>, Seq<char>>,
) -> Result<TreeReaderView, SyncErrorView> {
    match clean {
        Err(m) => Err(SyncErrorView::Failed(m)),
        Ok(rel) => if is_dir && size != 0 {
            Err(SyncErrorView::Protocol("directory entry has payload"@))
        } else if !is_dir && v.extracted + size > MAX_ARCHIVE_BYTES {
            Err(SyncErrorView::Failed("file tree exceeds remote size limit"@))
        } else {
            Ok(
                TreeReaderView {
                    left: (v.left - 1) as nat,
                    extracted: if is_dir {
                        v.extracted
                    } else {
                        v.extracted + size
                    },
                    roots: if rel.contains('/') {
                        v.roots
                    } else {
                        v.roots.push(rel)
                    },
                },
            )
        },
    }
}

impl TreeReader {
    /// Begins with the tag of an archive and the number of its entries.
    pub fn new(tag: &[u8], count: u32) -> (r: Result<TreeReader, SyncError>)
        ensures
            match r {
                Ok(t) => {
                    &&& tag@ == tree_tag()
                    &&& t@ == (TreeReaderView {
                        left: count as nat,
                        extracted: 0,
                        roots: Seq::empty(),
                    })
                },
                Err(e) => tag@ != tree_tag() && e@ == SyncErrorView::Protocol("bad archive magic"@),
            },
    {
        match check_tree_tag(tag) {
            Ok(_) => {
                let reader = TreeReader { left: count, extracted: 0, roots: Vec::new() };
                assert(texts(reader.roots@) =~= Seq::<Seq<char>>::empty());
                Ok(reader)
            },
            Err(e) => Err(e),
        }
    }

    /// Whether another entry follows.
    pub fn expects_entry(&self) -> (r: bool)
        ensures
            r == (self@.left > 0),
    {
        self.left > 0
    }

    /// Takes the head of an entry and says what to make of it. A refused entry
    /// changes nothing.
    pub fn entry(&mut self, is_dir: bool, size: u64, clean: Result<String, String>) -> (r: Result<
        TreeWrite,
        SyncError,
    >)
        requires
            old(self)@.left > 0,
        ensures
            match after_entry(
                old(self)@,
                is_dir,
                size as nat,
                match clean {
                    Ok(rel) => Ok(rel@),
                    Err(m) => Err(m@),
                },
            ) {
                Ok(next) => {
                    &&& final(self)@ == next
                    &&& r == Ok::<TreeWrite, SyncError>(
                        if is_dir {
                            TreeWrite::Dir(clean->Ok_0)
                        } else {
                            TreeWrite::File(clean->Ok_0, size)
                        },
                    )
                },
                Err(e) => *final(self) == *old(self) && r is Err && r->Err_0@ == e,
            },
    {
        let rel = match clean {
            Ok(rel) => rel,
            Err(m) => return Err(SyncError::Failed(m)),
        };
        let total: u64 = match admit_entry(self.extracted, is_dir, size) {
            Ok(total) => total,
            Err(e) => return Err(e),
        };
        self.left = self.left - 1;
        self.extracted = total;
        if is_top(rel.as_str()) {
            let ghost before = texts(self.roots@);
            self.roots.push(rel.clone());
            assert(texts(self.roots@) =~= before.push(rel@));
        }
        if is_dir {
            Ok(TreeWrite::Dir(rel))
        } else {
            Ok(TreeWrite::File(rel, size))
        }
    }

    /// The top-level paths that were made; the destination itself if none.
    pub fn finish(self) -> (r: TreeRoots)
        ensures
            match r {
                TreeRoots::Dest => self.roots@.len() == 0,
                TreeRoots::Named(names) => names == self.roots && names@.len() > 0,
            },
    {
        if self.roots.len() == 0 {
            TreeRoots::Dest
        } else {
            TreeRoots::Named(self.roots)
        }
    }
}

/// An entry that is read from a stream is taken just if its name was accepted and, if
/// it is a directory, it has no contents, or if it is a file, the files so far with
/// it keep within 500 MiB. It is then counted, and noted if its path is at the top.
pub proof fn entries_are_taken_within_limits(
    v: TreeReaderView,
    is_dir: bool,
    size: nat,
    clean: Result<Seq<char>, Seq<char>>,
)
    requires
        v.left > 0,
    ensures
        ({
            let r = after_entry(v, is_dir, size, clean);
            &&& r is Ok <==> clean is Ok && (if is_dir {
                size == 0
            } else {
                v.extracted + size <= 500 * 1024 * 1024
            })
            &&& clean is Err ==> r->Err_0 == SyncErrorView::Failed(clean->Err_0)
            &&& r is Ok ==> {
                &&& r->Ok_0.left + 1 == v.left
                &&& r->Ok_0.extracted == v.extracted + size
                &&& clean->Ok_0.contains('/') ==> r->Ok_0.roots == v.roots
                &&& !clean->Ok_0.contains('/') ==> r->Ok_0.roots == v.roots.push(clean->Ok_0)
            }
        }),
{
}

/// A reader after the first `n` of some entries, with every name accepted.
pub open spec fn after_entries(es: Seq<TreeEntryView>, n: nat) -> Result<
    TreeReaderView,
    SyncErrorView,
>
    decreases n,
{
    if n == 0 {
        Ok(TreeReaderView { left: es.len(), extracted: 0, roots: Seq::empty() })
    } else {
        let e = es[n - 1];
        match after_entries(es, (n - 1) as nat) {
            Err(err) => Err(err),
            Ok(v) => after_entry(
                v,
                e.is_dir,
                if e.is_dir {
                    0
                } else {
                    e.data.len()
                },
                Ok(slashed(e.name)),
            ),
        }
    }
}

/// An archive that could be packed is read to its end: no entry is refused for
/// its size, and the bytes of its files are counted.
pub proof fn packed_archive_is_admitted(es: Seq<TreeEntryView>)
    requires
        packed(es, es.len()) is Ok,
    ensures
        after_entries(es, es.len()) is Ok,
        after_entries(es, es.len())->Ok_0.left == 0,
        after_entries(es, es.len())->Ok_0.extracted <= packed(es, es.len())->Ok_0.len(),
{
    lemma_admitted(es, es.len());
    assert(es.take(es.len() as int) =~= es);
}

proof fn lemma_admitted(es: Seq<TreeEntryView>, n: nat)
    requires
        n <= es.len(),
        packed(es, es.len()) is Ok,
    ensures
        packed(es.take(n as int), es.len()) is Ok,
        after_entries(es, n) is Ok,
        after_entries(es, n)->Ok_0.left == es.len() - n,
        after_entries(es, n)->Ok_0.extracted <= packed(es.take(n as int), es.len())->Ok_0.len(),
    decreases n,
{
    lemma_prefix_packed(es, n as int, es.len());
    if n > 0 {
        let i = (n - 1) as nat;
        lemma_admitted(es, i);
        let before = es.take(i as int);
        let now = es.take(n as int);
        assert(now.drop_last() =~= before);
        assert(now.last() == es[i as int]);
        let e = es[i as int];
        let b = packed(before, es.len())->Ok_0;
        assert(checked_head(e.name, e.is_dir, e.data.len(), b.len()) is Ok);
    }
}

proof fn lemma_prefix_packed(es: Seq<TreeEntryView>, k: int, count: nat)
    requires
        0 <= k <= es.len(),
        packed(es, count) is Ok,
    ensures
        packed(es.take(k), count) is Ok,
    decreases es.len() - k,
{
    if k < es.len() {
        lemma_prefix_packed(es, k + 1, count);
        assert(es.take(k + 1).drop_last() =~= es.take(k));
    } else {
        assert(es.take(k) =~= es);
    }
}

/// An archive that is read from a stream is begun, `r`, just if it has the tag of
/// archives, with as many entries as it claims. An entry, `w`, becomes a directory or a
/// file of its size at the path that its name was accepted as.
pub proof fn streamed_trees_are_written(
    tag: &[u8],
    count: u32,
    r: Result<TreeReader, SyncError>,
    reader: &mut TreeReader,
    is_dir: bool,
    size: u64,
    rel: String,
    w: Result<TreeWrite, SyncError>,
)
    requires
        call_ensures(TreeReader::new, (tag, count), r),
        old(reader)@.left > 0,
        call_ensures(
            TreeReader::entry,
            (reader, is_dir, size, Ok::<String, String>(rel)),
            w,
        ),
    ensures
        r is Ok <==> tag@ == seq![0x41u8, 0x53, 0x46, 0x31],
        r is Ok ==> r->Ok_0@.left == count && r->Ok_0@.extracted == 0 && r->Ok_0@.roots.len() == 0,
        w is Ok <==> (is_dir && size == 0) || (!is_dir && old(reader)@.extracted + size <= 500 * 1024
            * 1024),
        w is Ok && is_dir ==> w == Ok::<TreeWrite, SyncError>(TreeWrite::Dir(rel)),
        w is Ok && !is_dir ==> w == Ok::<TreeWrite, SyncError>(TreeWrite::File(rel, size)),
        w is Ok ==> final(reader)@.left + 1 == old(reader)@.left,
        w is Err ==> *final(reader) == *old(reader),
{
    assert(tree_tag() =~= seq![0x41u8, 0x53, 0x46, 0x31]);
}


/// An archive from a stream is read until it has no entries left, and gives what it put at
/// the top, or the destination if that is nothing.
pub proof fn streams_are_read_to_the_end(reader: TreeReader, more: bool, r: TreeRoots)
    requires
        call_ensures(TreeReader::expects_entry, (&reader,), more),
        call_ensures(TreeReader::finish, (reader,), r),
    ensures
        more <==> reader@.left != 0,
        r is Named <==> reader@.roots.len() > 0,
        r matches TreeRoots::Named(names) ==> crate::text::texts(names@) == reader@.roots,
{
}


} // verus!
