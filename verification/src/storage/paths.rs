//! Where the store keeps its files.

use vstd::prelude::*;

use crate::path::{join_path, joined_path};

verus! {

/// The file of a blob, in the directory of its shard.
pub fn blob_path(root: &str, shard: &str, blob: &str) -> (r: String)
    ensures
        r@ == joined_path(joined_path(joined_path(root@, "blobs"@), shard@), blob@),
{
    let blobs = join_path(root, "blobs");
    let dir = join_path(blobs.as_str(), shard);
    join_path(dir.as_str(), blob)
}

/// The directory with the cached files of an item.
pub fn item_cache_dir(cache_root: &str, id: &str) -> (r: String)
    ensures
        r@ == joined_path(joined_path(cache_root@, "items"@), id@),
{
    let items = join_path(cache_root, "items");
    join_path(items.as_str(), id)
}

/// The database file.
pub fn db_path(data_root: &str) -> (r: String)
    ensures
        r@ == joined_path(data_root@, "asterism.db"@),
{
    join_path(data_root, "asterism.db")
}

/// The files of the store are inside its directories: each blob in its shard, each item's
/// files by its identity, and the database by its own name.
pub proof fn files_are_inside_the_store(
    root: &str,
    shard: &str,
    blob: &str,
    p: String,
    id: &str,
    c: String,
    d: String,
)
    requires
        call_ensures(blob_path, (root, shard, blob), p),
        call_ensures(item_cache_dir, (root, id), c),
        call_ensures(db_path, (root,), d),
        root@.len() > 0,
        shard@.len() > 0 && shard@[0] != '/',
        blob@.len() > 0 && blob@[0] != '/',
        id@.len() > 0 && id@[0] != '/',
    ensures
        root@.is_prefix_of(p@) && blob@.is_suffix_of(p@),
        p@[p@.len() - blob@.len() - 1] == '/',
        root@.is_prefix_of(c@) && id@.is_suffix_of(c@),
        c@[c@.len() - id@.len() - 1] == '/',
        root@.is_prefix_of(d@) && "asterism.db"@.is_suffix_of(d@),
{
    reveal_strlit("blobs");
    reveal_strlit("items");
    reveal_strlit("asterism.db");
    assert("blobs"@.len() == 5 && "blobs"@[0] == 'b');
    assert("items"@.len() == 5 && "items"@[0] == 'i');
    assert("asterism.db"@.len() == 11 && "asterism.db"@[0] == 'a');
    let blobs = joined_path(root@, "blobs"@);
    let dir = joined_path(blobs, shard@);
    let items = joined_path(root@, "items"@);
    crate::path::joined_path_is_inside(root@, "blobs"@);
    crate::path::joined_path_is_inside(blobs, shard@);
    crate::path::joined_path_is_inside(dir, blob@);
    crate::path::joined_path_is_inside(root@, "items"@);
    crate::path::joined_path_is_inside(items, id@);
    crate::path::joined_path_is_inside(root@, "asterism.db"@);
    assert forall|i: int| 0 <= i < root@.len() implies p@[i] == root@[i] && c@[i] == root@[i] by {
        assert(blobs.take(root@.len() as int)[i] == root@[i]);
        assert(dir.take(blobs.len() as int)[i] == blobs[i]);
        assert(p@.take(dir.len() as int)[i] == dir[i]);
        assert(items.take(root@.len() as int)[i] == root@[i]);
        assert(c@.take(items.len() as int)[i] == items[i]);
    }
}


} // verus!
