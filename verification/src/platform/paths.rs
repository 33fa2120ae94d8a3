//! Where the program keeps its files.

use vstd::prelude::*;

use crate::path::{join_path, joined_path};
use crate::text::texts;

verus! {

/// The directories of the program.
#[derive(Debug)]
pub struct AppPaths {
    pub data_dir: String,
    pub cache_dir: String,
    pub config_dir: String,
}

/// The directories that the system has for the program.
#[derive(Debug)]
pub struct SystemDirs {
    pub data_local_dir: String,
    pub cache_dir: String,
    pub cache_parent: Option<String>,
    pub config_dir: String,
}

impl AppPaths {
    /// The directories of the program: those of the system, with the cache named
    /// by the bundle on a Mac, or else places under the directory for temporary
    /// files.
    pub fn detect(dirs: Option<SystemDirs>, macos: bool, temp_dir: &str) -> (r: AppPaths)
        ensures
            match dirs {
                Some(d) => {
                    &&& r.data_dir == d.data_local_dir
                    &&& r.config_dir == d.config_dir
                    &&& if macos && d.cache_parent is Some {
                        r.cache_dir@ == joined_path(d.cache_parent->0@, "dev.asterism.desktop"@)
                    } else {
                        r.cache_dir == d.cache_dir
                    }
                },
                None => {
                    let fallback = joined_path(temp_dir@, "asterism"@);
                    &&& r.data_dir@ == fallback
                    &&& r.cache_dir@ == joined_path(fallback, "cache"@)
                    &&& r.config_dir@ == joined_path(fallback, "config"@)
                },
            },
    {
        match dirs {
            Some(d) => {
                let cache_dir = match d.cache_parent {
                    Some(p) => if macos {
                        join_path(p.as_str(), "dev.asterism.desktop")
                    } else {
                        d.cache_dir
                    },
                    None => d.cache_dir,
                };
                AppPaths { data_dir: d.data_local_dir, cache_dir, config_dir: d.config_dir }
            },
            None => {
                let fallback = join_path(temp_dir, "asterism");
                let cache_dir = join_path(fallback.as_str(), "cache");
                let config_dir = join_path(fallback.as_str(), "config");
                AppPaths { data_dir: fallback, cache_dir, config_dir }
            },
        }
    }

    /// The directories that must be there.
    pub fn ensure(&self) -> (r: Vec<String>)
        ensures
            texts(r@) == seq![
                self.data_dir@,
                joined_path(self.cache_dir@, "items"@),
                self.config_dir@,
            ],
    {
        let mut out: Vec<String> = Vec::new();
        out.push(self.data_dir.clone());
        out.push(join_path(self.cache_dir.as_str(), "items"));
        out.push(self.config_dir.clone());
        assert(texts(out@) =~= seq![
            self.data_dir@,
            joined_path(self.cache_dir@, "items"@),
            self.config_dir@,
        ]);
        out
    }

    /// The directory with the cached files of an item.
    pub fn item_cache(&self, item_id: &str) -> (r: String)
        ensures
            r@ == joined_path(joined_path(self.cache_dir@, "items"@), item_id@),
    {
        crate::storage::paths::item_cache_dir(self.cache_dir.as_str(), item_id)
    }
}

/// The program keeps its files where the system wants them, on a Mac with the cache under
/// the name of its bundle; without such places it keeps them in one directory among the
/// temporary files. All of these directories are made.
pub proof fn files_have_their_directories(
    dirs: Option<SystemDirs>,
    macos: bool,
    temp: &str,
    r: AppPaths,
    made: Vec<String>,
)
    requires
        call_ensures(AppPaths::detect, (dirs, macos, temp), r),
        call_ensures(AppPaths::ensure, (&r,), made),
        temp@.len() > 0,
    ensures
        dirs matches Some(d) ==> r.data_dir@ == d.data_local_dir@ && r.config_dir@ == d.config_dir@,
        dirs matches Some(d) ==> (!macos || d.cache_parent is None ==> r.cache_dir@ == d.cache_dir@),
        dirs matches Some(d) ==> (macos && d.cache_parent is Some && d.cache_parent->0@.len() > 0
            ==> d.cache_parent->0@.is_prefix_of(r.cache_dir@) && "dev.asterism.desktop"@.is_suffix_of(
            r.cache_dir@,
        )),
        dirs is None ==> {
            &&& temp@.is_prefix_of(r.data_dir@)
            &&& r.data_dir@.is_prefix_of(r.cache_dir@)
            &&& r.data_dir@.is_prefix_of(r.config_dir@)
            &&& r.cache_dir@ != r.config_dir@
        },
        texts(made@).contains(r.data_dir@) && texts(made@).contains(r.config_dir@),
        texts(made@).contains(joined_path(r.cache_dir@, "items"@)),
{
    reveal_strlit("asterism");
    reveal_strlit("cache");
    reveal_strlit("config");
    reveal_strlit("dev.asterism.desktop");
    assert("asterism"@.len() == 8 && "asterism"@[0] == 'a');
    assert("cache"@.len() == 5 && "cache"@[0] == 'c');
    assert("config"@.len() == 6 && "config"@[0] == 'c');
    assert("dev.asterism.desktop"@.len() == 20 && "dev.asterism.desktop"@[0] == 'd');
    crate::path::joined_path_is_inside(temp@, "asterism"@);
    crate::path::joined_path_is_inside(r.data_dir@, "cache"@);
    crate::path::joined_path_is_inside(r.data_dir@, "config"@);
    if let Some(d) = dirs {
        if let Some(p) = d.cache_parent {
            crate::path::joined_path_is_inside(p@, "dev.asterism.desktop"@);
        }
    }
    assert(texts(made@)[0] == r.data_dir@);
    assert(texts(made@)[1] == joined_path(r.cache_dir@, "items"@));
    assert(texts(made@)[2] == r.config_dir@);
}


} // verus!
