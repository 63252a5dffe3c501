//! The index: the records of one build, in the order in which they were
//! inserted. A record's position is its song id. The index is filled
//! through an [`IndexBuilder`] and read-only once committed.

use vstd::prelude::*;
use crate::filter::{DatabaseMeta, MetaView};
use crate::seq_lemmas::{lemma_filter_take_step, lemma_filter_take_zero};
use crate::track::{meta_of, SampleView, TrackInfo, TrackView};

verus! {

/// An index under construction.
pub struct IndexBuilder {
    tracks: Vec<TrackInfo>,
}

/// A committed index.
pub struct Index {
    tracks: Vec<TrackInfo>,
}

impl View for IndexBuilder {
    type V = Seq<TrackView>;

    closed spec fn view(&self) -> Seq<TrackView> {
        self.tracks.deep_view()
    }
}

impl View for Index {
    type V = Seq<TrackView>;

    closed spec fn view(&self) -> Seq<TrackView> {
        self.tracks.deep_view()
    }
}

impl IndexBuilder {
    /// Starts a build with an empty index.
    pub fn new() -> (r: IndexBuilder)
        ensures
            r@ == Seq::<TrackView>::empty(),
    {
        let r = IndexBuilder { tracks: Vec::new() };
        assert(r@ =~= Seq::<TrackView>::empty());
        r
    }

    /// Appends a record and returns its song id.
    pub fn insert(&mut self, track: TrackInfo) -> (song_id: usize)
        ensures
            final(self)@ == old(self)@.push(track@),
            song_id == old(self)@.len(),
    {
        let song_id = self.tracks.len();
        self.tracks.push(track);
        assert(self@ =~= old(self)@.push(track@));
        song_id
    }

    /// Ends the build. The records can no longer change.
    pub fn commit(self) -> (r: Index)
        ensures
            r@ == self@,
    {
        Index { tracks: self.tracks }
    }
}

/// The records with the given whole-file digest, in index order.
pub open spec fn exact_matches(digest: Seq<char>, tracks: Seq<TrackView>) -> Seq<TrackView> {
    tracks.filter(|t: TrackView| t.sha256_hash == digest)
}

/// The records with the given pattern digest, in index order. The sentinel
/// `0` matches nothing.
pub open spec fn pattern_matches(pattern: u64, tracks: Seq<TrackView>) -> Seq<TrackView> {
    if pattern == 0 {
        Seq::empty()
    } else {
        tracks.filter(|t: TrackView| t.pattern_hash == pattern)
    }
}

/// The query's view of each of the given records.
pub open spec fn metas_of(tracks: Seq<TrackView>) -> Seq<MetaView> {
    tracks.map_values(|t: TrackView| meta_of(t))
}

impl Index {
    /// Number of records.
    pub fn len(&self) -> (n: usize)
        ensures
            n == self@.len(),
    {
        self.tracks.len()
    }

    /// The record with the given song id.
    pub fn track(&self, song_id: usize) -> (t: &TrackInfo)
        requires
            song_id < self@.len(),
        ensures
            t@ == self@[song_id as int],
    {
        &self.tracks[song_id]
    }

    /// The sample texts of the record with the given song id, in sample
    /// order; nothing for an id that the index does not hold.
    pub fn get_samples_from_song_id(&self, song_id: usize) -> (r: Vec<String>)
        ensures
            r.deep_view() == if song_id < self@.len() {
                self@[song_id as int].samples.map_values(|s: SampleView| s.text)
            } else {
                Seq::empty()
            },
    {
        if song_id < self.tracks.len() {
            self.tracks[song_id].to_meta().samples
        } else {
            let none: Vec<String> = Vec::new();
            assert(none.deep_view() =~= Seq::<Seq<char>>::empty());
            none
        }
    }

    /// The records whose whole-file digest equals that of `info`.
    pub fn get_files_from_sha_hash(&self, info: &TrackInfo) -> (r: Vec<DatabaseMeta>)
        ensures
            r.deep_view() == metas_of(exact_matches(info@.sha256_hash, self@)),
    {
        let mut entries: Vec<DatabaseMeta> = Vec::new();
        let ghost pred = |t: TrackView| t.sha256_hash == info@.sha256_hash;
        let mut i: usize = 0;
        proof {
            lemma_filter_take_zero(self@, pred);
            assert(entries.deep_view() =~= metas_of(self@.take(0).filter(pred)));
        }
        while i < self.tracks.len()
            invariant
                i <= self.tracks.len(),
                pred == |t: TrackView| t.sha256_hash == info@.sha256_hash,
                entries.deep_view() == metas_of(self@.take(i as int).filter(pred)),
            decreases self.tracks.len() - i,
        {
            let ghost before = entries.deep_view();
            proof {
                lemma_filter_take_step(self@, i as int, pred);
            }
            if self.tracks[i].sha256_hash == info.sha256_hash {
                entries.push(self.tracks[i].to_meta());
                assert(entries.deep_view() =~= before.push(meta_of(self@[i as int])));
                assert(metas_of(self@.take(i as int).filter(pred).push(self@[i as int]))
                    =~= before.push(meta_of(self@[i as int])));
            }
            i += 1;
        }
        assert(self@.take(i as int) =~= self@);
        entries
    }

    /// The records whose pattern digest equals that of `info`; none when
    /// `info` has no pattern digest.
    pub fn get_files_from_pattern_hash(&self, info: &TrackInfo) -> (r: Vec<DatabaseMeta>)
        ensures
            r.deep_view() == metas_of(pattern_matches(info@.pattern_hash, self@)),
    {
        let mut entries: Vec<DatabaseMeta> = Vec::new();
        if info.pattern_hash == 0 {
            assert(entries.deep_view() =~= metas_of(Seq::<TrackView>::empty()));
            return entries;
        }
        let ghost pred = |t: TrackView| t.pattern_hash == info@.pattern_hash;
        let mut i: usize = 0;
        proof {
            lemma_filter_take_zero(self@, pred);
            assert(entries.deep_view() =~= metas_of(self@.take(0).filter(pred)));
        }
        while i < self.tracks.len()
            invariant
                i <= self.tracks.len(),
                pred == |t: TrackView| t.pattern_hash == info@.pattern_hash,
                entries.deep_view() == metas_of(self@.take(i as int).filter(pred)),
            decreases self.tracks.len() - i,
        {
            let ghost before = entries.deep_view();
            proof {
                lemma_filter_take_step(self@, i as int, pred);
            }
            if self.tracks[i].pattern_hash == info.pattern_hash {
                entries.push(self.tracks[i].to_meta());
                assert(entries.deep_view() =~= before.push(meta_of(self@[i as int])));
                assert(metas_of(self@.take(i as int).filter(pred).push(self@[i as int]))
                    =~= before.push(meta_of(self@[i as int])));
            }
            i += 1;
        }
        assert(self@.take(i as int) =~= self@);
        entries
    }
}

} // verus!
