//! Where the on-disk cache keeps its entries: one file per key at
//! `<root>/<key[0]>/<key[1]>/<key>`, two levels of prefix directories so
//! that no single directory grows too large.
use vstd::prelude::*;
use crate::paths::{join_path, path_join};
use crate::text::{chars_of, slice_chars, string_of};

verus! {

/// A cache of compiled outputs kept under a root directory.
pub struct DiskCache {
    pub root: String,
}

/// The path of the entry for `key` under `root`.
pub open spec fn entry_path(root: Seq<char>, key: Seq<char>) -> Seq<char> {
    path_join(path_join(path_join(root, key.subrange(0, 1)), key.subrange(1, 2)), key)
}

impl DiskCache {
    /// A cache rooted at `root` (the directory is not created here).
    pub fn with_root(root: String) -> (r: DiskCache)
        ensures
            r.root@ == root@,
    {
        DiskCache { root }
    }

    /// The path of the entry for `key`. The key's first two characters
    /// name the shard directories, so they must be single-byte characters.
    pub fn path_for(&self, key: &str) -> (r: String)
        requires
            key@.len() >= 2,
            (key@[0] as int) < 128,
            (key@[1] as int) < 128,
        ensures
            r@ == entry_path(self.root@, key@),
    {
        let k = chars_of(key);
        let root = chars_of(self.root.as_str());
        let a = slice_chars(k.as_slice(), 0, 1);
        let b = slice_chars(k.as_slice(), 1, 2);
        let p1 = join_path(root.as_slice(), a.as_slice());
        let p2 = join_path(p1.as_slice(), b.as_slice());
        let p3 = join_path(p2.as_slice(), k.as_slice());
        string_of(p3.as_slice())
    }
}

} // verus!
