//! The incremental build: a record extracted earlier is reused for a path
//! whose modification time has not changed since. This saves work; it is a
//! heuristic, not a guarantee that the file is unchanged.

use vstd::prelude::*;
use crate::track::{TrackInfo, TrackView};

verus! {

/// A record kept from an earlier build.
pub struct CacheEntry {
    /// Modification time of the file when the record was extracted.
    pub modified: u64,
    pub track: TrackInfo,
}

pub ghost struct CacheEntryView {
    pub modified: u64,
    pub track: TrackView,
}

impl View for CacheEntry {
    type V = CacheEntryView;

    open spec fn view(&self) -> CacheEntryView {
        CacheEntryView { modified: self.modified, track: self.track@ }
    }
}

impl DeepView for CacheEntry {
    type V = CacheEntryView;

    open spec fn deep_view(&self) -> CacheEntryView {
        self@
    }
}

/// Whether no entry before position `n` is for `path`.
pub open spec fn unseen_before(cache: Seq<CacheEntryView>, path: Seq<char>, n: int) -> bool {
    forall|k: int| 0 <= k < n ==> (#[trigger] cache[k]).track.filename != path
}

/// The position of the entry that can be reused for a file: the first
/// entry for its path, provided that its modification time is the file's.
pub open spec fn reusable(cache: Seq<CacheEntryView>, path: Seq<char>, modified: u64, at: int) -> bool {
    &&& 0 <= at < cache.len()
    &&& cache[at].track.filename == path
    &&& cache[at].modified == modified
    &&& unseen_before(cache, path, at)
}

/// Whether a file has to be extracted again: its path is not cached, or
/// cached with another modification time.
pub open spec fn needs_extraction(cache: Seq<CacheEntryView>, path: Seq<char>, modified: u64) -> bool {
    forall|at: int| !reusable(cache, path, modified, at)
}

/// Looks a file up in the cache. Returns the position of the entry to
/// reuse, or `None` if the file has to be extracted.
pub fn find_cached(cache: &Vec<CacheEntry>, path: &String, modified: u64) -> (r: Option<usize>)
    ensures
        match r {
            Some(at) => reusable(cache.deep_view(), path@, modified, at as int),
            None => needs_extraction(cache.deep_view(), path@, modified),
        },
{
    let mut i: usize = 0;
    while i < cache.len()
        invariant
            i <= cache.len(),
            unseen_before(cache.deep_view(), path@, i as int),
        decreases cache.len() - i,
    {
        if cache[i].track.filename == *path {
            if cache[i].modified == modified {
                return Some(i);
            } else {
                assert forall|at: int| !reusable(cache.deep_view(), path@, modified, at) by {
                    if reusable(cache.deep_view(), path@, modified, at) {
                        if at < i {
                            assert(cache.deep_view()[at].track.filename != path@);
                        } else if at > i {
                            assert(cache.deep_view()[i as int].track.filename != path@);
                        }
                    }
                }
                return None;
            }
        }
        i += 1;
    }
    assert forall|at: int| !reusable(cache.deep_view(), path@, modified, at) by {
        if reusable(cache.deep_view(), path@, modified, at) {
            assert(cache.deep_view()[at].track.filename != path@);
        }
    }
    None
}

} // verus!
