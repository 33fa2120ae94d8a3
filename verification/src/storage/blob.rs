//! Blobs as files named by the digest of their bytes.

use vstd::prelude::*;

use crate::digest::{blake3_bytes, blake3_of};
use crate::hexcodec;
use crate::path::{join_path, joined_path};
use crate::text::{contains_text, ends_with, finishes_with, texts};

verus! {

/// The directory of the blobs.
#[derive(Debug)]
pub struct BlobStore {
    pub root: String,
}

impl BlobStore {
    /// The store in a directory.
    pub fn open(root: String) -> (r: BlobStore)
        ensures
            r.root == root,
    {
        BlobStore { root }
    }

    /// The directory that holds the store.
    pub fn root(&self) -> (r: &str)
        ensures
            r@ == self.root@,
    {
        self.root.as_str()
    }

    /// The directory with the blob files.
    pub fn blob_dir(&self) -> (r: String)
        ensures
            r@ == joined_path(self.root@, "blobs"@),
    {
        join_path(self.root.as_str(), "blobs")
    }

    /// The name of the blob with some bytes. Equal bytes have one name.
    pub fn blob_name(bytes: &[u8]) -> (r: String)
        ensures
            r@ == hexcodec::hex_text(blake3_of(bytes@)),
    {
        let digest = blake3_bytes(bytes);
        hexcodec::encode(digest.as_slice())
    }
}

/// A file in the directory of the blobs.
#[derive(Debug)]
pub struct BlobFile {
    pub name: String,
    pub age_ms: u64,
}

/// Whether a file is a blob that nothing refers to: not an unfinished write,
/// not known, and old enough not to be on its way to being known.
pub open spec fn is_orphan(file: BlobFile, referenced: Seq<Seq<char>>, min_age_ms: u64) -> bool {
    &&& !finishes_with(file.name@, ".tmp"@)
    &&& !referenced.contains(file.name@)
    &&& file.age_ms >= min_age_ms
}

/// The places of the orphans among some files.
pub open spec fn orphan_places(
    files: Seq<BlobFile>,
    referenced: Seq<Seq<char>>,
    min_age_ms: u64,
) -> Seq<usize>
    decreases files.len(),
{
    if files.len() == 0 {
        Seq::empty()
    } else {
        let before = orphan_places(files.drop_last(), referenced, min_age_ms);
        if is_orphan(files.last(), referenced, min_age_ms) {
            before.push((files.len() - 1) as usize)
        } else {
            before
        }
    }
}

/// The places of the files that are blobs without a reference.
pub fn remove_orphans(files: &[BlobFile], referenced: &[String], min_age_ms: u64) -> (r: Vec<usize>)
    ensures
        r@ == orphan_places(files@, texts(referenced@), min_age_ms),
{
    let mut out: Vec<usize> = Vec::new();
    let mut i: usize = 0;
    assert(files@.take(0).len() == 0);
    while i < files.len()
        invariant
            i <= files@.len(),
            out@ == orphan_places(files@.take(i as int), texts(referenced@), min_age_ms),
        decreases files@.len() - i,
    {
        proof {
            assert(files@.take(i + 1).drop_last() =~= files@.take(i as int));
            assert(files@.take(i + 1).last() == files@[i as int]);
        }
        let f = &files[i];
        if !ends_with(f.name.as_str(), ".tmp") && f.age_ms >= min_age_ms && !contains_text(
            referenced,
            f.name.as_str(),
        ) {
            out.push(i);
        }
        i += 1;
    }
    assert(files@.take(i as int) =~= files@);
    out
}

/// The files to be removed are all those that nothing refers to, are old enough and are
/// no unfinished writes, each once and in order.
pub proof fn orphans_are_all_found(
    files: Seq<BlobFile>,
    referenced: Seq<Seq<char>>,
    min_age_ms: u64,
    i: int,
)
    requires
        files.len() <= usize::MAX,
        0 <= i < files.len(),
    ensures
        orphan_places(files, referenced, min_age_ms).contains(i as usize) <==> {
            &&& !referenced.contains(files[i].name@)
            &&& files[i].age_ms >= min_age_ms
            &&& !finishes_with(files[i].name@, ".tmp"@)
        },
        forall|a: int, b: int|
            0 <= a < b < orphan_places(files, referenced, min_age_ms).len() ==> (
            #[trigger] orphan_places(files, referenced, min_age_ms)[a]) < (
            #[trigger] orphan_places(files, referenced, min_age_ms)[b]),
        forall|a: int|
            0 <= a < orphan_places(files, referenced, min_age_ms).len() ==> (
            #[trigger] orphan_places(files, referenced, min_age_ms)[a]) < files.len(),
    decreases files.len(),
{
    let all = orphan_places(files, referenced, min_age_ms);
    let last = files.len() - 1;
    let shorter = files.drop_last();
    let before = orphan_places(shorter, referenced, min_age_ms);
    assert(shorter.len() == 0 ==> before.len() == 0);
    if i < last {
        orphans_are_all_found(shorter, referenced, min_age_ms, i);
        assert(shorter[i] == files[i]);
        if before.contains(i as usize) {
            let k = choose|k: int| 0 <= k < before.len() && before[k] == i as usize;
            assert(all[k] == i as usize);
        }
        if all.contains(i as usize) {
            let k = choose|k: int| 0 <= k < all.len() && all[k] == i as usize;
            assert(before[k] == i as usize);
        }
    } else {
        if shorter.len() > 0 {
            orphans_are_all_found(shorter, referenced, min_age_ms, 0);
        }
        if is_orphan(files.last(), referenced, min_age_ms) {
            assert(all[before.len() as int] == last as usize);
        } else if all.contains(i as usize) {
            let k = choose|k: int| 0 <= k < all.len() && all[k] == i as usize;
            assert(before[k] < shorter.len());
        }
    }
}


/// Blobs go by the digest of their bytes, in sixty-four digits, and are kept in a directory
/// inside that of the store.
pub proof fn blobs_are_named_by_their_bytes(
    root: String,
    store: BlobStore,
    dir: String,
    bytes: &[u8],
    name: String,
)
    requires
        call_ensures(BlobStore::open, (root,), store),
        call_ensures(BlobStore::blob_dir, (&store,), dir),
        call_ensures(BlobStore::blob_name, (bytes,), name),
        root@.len() > 0,
    ensures
        root@.is_prefix_of(dir@) && "blobs"@.is_suffix_of(dir@),
        name@.len() == 2 * blake3_of(bytes@).len(),
        hexcodec::hex_bytes(name@) == blake3_of(bytes@),
{
    reveal_strlit("blobs");
    assert("blobs"@.len() == 5 && "blobs"@[0] == 'b');
    crate::path::joined_path_is_inside(root@, "blobs"@);
    hexcodec::decode_restores_encode(blake3_of(bytes@));
}

/// The files to be removed, `r`, are the places of just those that nothing refers to, that
/// are old enough and that are no unfinished writes.
pub proof fn orphans_are_removed(
    files: &[BlobFile],
    referenced: &[String],
    min_age_ms: u64,
    r: Vec<usize>,
    i: int,
)
    requires
        call_ensures(remove_orphans, (files, referenced, min_age_ms), r),
        0 <= i < files@.len() <= usize::MAX,
    ensures
        r@.contains(i as usize) <==> !".tmp"@.is_suffix_of(files@[i].name@) && !texts(
            referenced@,
        ).contains(files@[i].name@) && files@[i].age_ms >= min_age_ms,
{
    orphans_are_all_found(files@, texts(referenced@), min_age_ms, i);
}


} // verus!
