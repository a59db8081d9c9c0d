//! Where the store's snapshot lives.

use vstd::prelude::*;
use crate::strings::{ends_with, str_ends_with};

verus! {

/// The directory of the store's snapshot.
#[derive(Debug, Clone)]
pub struct CacheManager {
    pub cache_dir: String,
}

/// The snapshot's file name.
pub open spec fn snapshot_name() -> Seq<char> {
    seq!['c', 'a', 'l', 'e', 'n', 'd', 'a', 'r', '_', 'd', 'a', 't', 'a', '.', 'j', 's', 'o', 'n']
}

/// A relative file name joined to a directory with `/`, as a path join does
/// (no separator is added after an empty directory or one that ends in `/`).
pub open spec fn joined_path(dir: Seq<char>, name: Seq<char>) -> Seq<char> {
    if dir.len() == 0 || ends_with(dir, seq!['/']) {
        dir + name
    } else {
        dir + seq!['/'] + name
    }
}

impl CacheManager {
    /// A manager for snapshots kept in `cache_dir`.
    pub fn new_with_path(cache_dir: String) -> (r: CacheManager)
        ensures
            r.cache_dir@ == cache_dir@,
    {
        CacheManager { cache_dir }
    }

    /// The directory of the snapshot.
    pub fn cache_directory(&self) -> (r: &String)
        ensures
            r@ == self.cache_dir@,
    {
        &self.cache_dir
    }

    /// The path of the snapshot file.
    pub fn cache_file_path(&self) -> (r: String)
        ensures
            r@ == joined_path(self.cache_dir@, snapshot_name()),
    {
        proof {
            reveal_strlit("calendar_data.json");
            reveal_strlit("/");
        }
        assert("calendar_data.json"@ =~= snapshot_name());
        assert("/"@ =~= seq!['/']);
        let mut p = self.cache_dir.clone();
        if p.unicode_len() != 0 && !str_ends_with(p.as_str(), "/") {
            p.append("/");
        }
        p.append("calendar_data.json");
        p
    }
}

} // verus!
