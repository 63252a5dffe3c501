//! Sample-level matching: for each sample of a query track, the indexed
//! samples with the same payload digest, whichever track they belong to.

use vstd::prelude::*;
use crate::index::Index;
use crate::order::{arranged, lemma_stable_order, sorted_positions, stable_order};
use crate::track::{SampleInfo, SampleView, TrackInfo, TrackView};

verus! {

/// An indexed sample that shares its payload with a query sample.
pub struct MatchingSampleData {
    /// Path of the track that holds the sample.
    pub filename: String,
    pub text: String,
    pub sample_id: u32,
}

/// One sample of the query with the indexed samples that match it.
pub struct TopSampleData {
    pub query_sample_id: u32,
    pub text: String,
    pub matching_samples: Vec<MatchingSampleData>,
}

pub ghost struct MatchingSampleView {
    pub filename: Seq<char>,
    pub text: Seq<char>,
    pub sample_id: u32,
}

pub ghost struct TopSampleView {
    pub query_sample_id: u32,
    pub text: Seq<char>,
    pub matching_samples: Seq<MatchingSampleView>,
}

impl View for MatchingSampleData {
    type V = MatchingSampleView;

    open spec fn view(&self) -> MatchingSampleView {
        MatchingSampleView { filename: self.filename@, text: self.text@, sample_id: self.sample_id }
    }
}

impl DeepView for MatchingSampleData {
    type V = MatchingSampleView;

    open spec fn deep_view(&self) -> MatchingSampleView {
        self@
    }
}

impl View for TopSampleData {
    type V = TopSampleView;

    open spec fn view(&self) -> TopSampleView {
        TopSampleView {
            query_sample_id: self.query_sample_id,
            text: self.text@,
            matching_samples: self.matching_samples.deep_view(),
        }
    }
}

impl DeepView for TopSampleData {
    type V = TopSampleView;

    open spec fn deep_view(&self) -> TopSampleView {
        self@
    }
}

/// How a sample of the track at `filename` is reported.
pub open spec fn hit_of(filename: Seq<char>, s: SampleView) -> MatchingSampleView {
    MatchingSampleView { filename, text: s.text, sample_id: s.sample_id }
}

/// The samples of one track whose payload digest is `digest`, in sample
/// order.
pub open spec fn hits_in_track(digest: Seq<char>, filename: Seq<char>, samples: Seq<SampleView>) -> Seq<
    MatchingSampleView,
>
    decreases samples.len(),
{
    if samples.len() == 0 {
        Seq::empty()
    } else {
        let rest = hits_in_track(digest, filename, samples.drop_last());
        if samples.last().sha256_hash == Some(digest) {
            rest.push(hit_of(filename, samples.last()))
        } else {
            rest
        }
    }
}

/// All indexed samples whose payload digest is `digest`, track by track in
/// index order.
pub open spec fn sample_hits(digest: Seq<char>, tracks: Seq<TrackView>) -> Seq<MatchingSampleView>
    decreases tracks.len(),
{
    if tracks.len() == 0 {
        Seq::empty()
    } else {
        sample_hits(digest, tracks.drop_last()) + hits_in_track(
            digest,
            tracks.last().filename,
            tracks.last().samples,
        )
    }
}

/// The texts of a list of hits.
pub open spec fn hit_texts(hits: Seq<MatchingSampleView>) -> Seq<Seq<char>> {
    hits.map_values(|h: MatchingSampleView| h.text)
}

/// The matches of one query sample: the hits for its digest by descending
/// text, hits with equal text in index order. A sample without a payload
/// digest matches nothing.
pub open spec fn sample_matches(digest: Option<Seq<char>>, tracks: Seq<TrackView>) -> Seq<
    MatchingSampleView,
> {
    match digest {
        Some(d) => {
            let hits = sample_hits(d, tracks);
            arranged(hits, stable_order(hit_texts(hits), true))
        },
        None => Seq::empty(),
    }
}

/// The report on one query sample.
pub open spec fn top_sample_of(s: SampleView, tracks: Seq<TrackView>) -> TopSampleView {
    TopSampleView {
        query_sample_id: s.sample_id,
        text: s.text,
        matching_samples: sample_matches(s.sha256_hash, tracks),
    }
}

/// The report on a query track: one entry per sample, in sample order.
pub open spec fn sample_report(q: TrackView, tracks: Seq<TrackView>) -> Seq<TopSampleView> {
    q.samples.map_values(|s: SampleView| top_sample_of(s, tracks))
}

/// Every hit is a sample of an indexed track, and its digest is the one
/// asked for.
pub proof fn lemma_sample_hits_sound(digest: Seq<char>, tracks: Seq<TrackView>, k: int)
    requires
        0 <= k < sample_hits(digest, tracks).len(),
    ensures
        exists|i: int, j: int|
            0 <= i < tracks.len() && 0 <= j < tracks[i].samples.len() && (
            #[trigger] tracks[i].samples[j]).sha256_hash == Some(digest) && sample_hits(
                digest,
                tracks,
            )[k] == hit_of(tracks[i].filename, tracks[i].samples[j]),
    decreases tracks.len(),
{
    let rest = sample_hits(digest, tracks.drop_last());
    if k < rest.len() {
        lemma_sample_hits_sound(digest, tracks.drop_last(), k);
        let (i, j) = choose|i: int, j: int|
            0 <= i < tracks.drop_last().len() && 0 <= j < tracks.drop_last()[i].samples.len() && (
            #[trigger] tracks.drop_last()[i].samples[j]).sha256_hash == Some(digest) && rest[k]
                == hit_of(tracks.drop_last()[i].filename, tracks.drop_last()[i].samples[j]);
        assert(tracks[i].samples[j].sha256_hash == Some(digest));
    } else {
        let t = tracks.last();
        lemma_hits_in_track_sound(digest, t.filename, t.samples, k - rest.len());
        let j = choose|j: int|
            0 <= j < t.samples.len() && (#[trigger] t.samples[j]).sha256_hash == Some(digest)
                && hits_in_track(digest, t.filename, t.samples)[k - rest.len()] == hit_of(
                t.filename,
                t.samples[j],
            );
        assert(tracks[tracks.len() - 1].samples[j].sha256_hash == Some(digest));
    }
}

proof fn lemma_hits_in_track_sound(
    digest: Seq<char>,
    filename: Seq<char>,
    samples: Seq<SampleView>,
    k: int,
)
    requires
        0 <= k < hits_in_track(digest, filename, samples).len(),
    ensures
        exists|j: int|
            0 <= j < samples.len() && (#[trigger] samples[j]).sha256_hash == Some(digest)
                && hits_in_track(digest, filename, samples)[k] == hit_of(filename, samples[j]),
    decreases samples.len(),
{
    let rest = hits_in_track(digest, filename, samples.drop_last());
    if k < rest.len() {
        lemma_hits_in_track_sound(digest, filename, samples.drop_last(), k);
        let j = choose|j: int|
            0 <= j < samples.drop_last().len() && (
            #[trigger] samples.drop_last()[j]).sha256_hash == Some(digest) && rest[k] == hit_of(
                filename,
                samples.drop_last()[j],
            );
        assert(samples[j].sha256_hash == Some(digest));
    } else {
        assert(samples[samples.len() - 1].sha256_hash == Some(digest));
    }
}

fn has_digest(sample: &SampleInfo, digest: &String) -> (b: bool)
    ensures
        b == (sample@.sha256_hash == Some(digest@)),
{
    match &sample.sha256_hash {
        Some(h) => *h == *digest,
        None => false,
    }
}

/// Collects the indexed samples with the given payload digest.
pub fn find_samples(digest: &String, index: &Index) -> (r: Vec<MatchingSampleData>)
    ensures
        r.deep_view() == sample_hits(digest@, index@),
{
    let ghost tracks = index@;
    let mut found: Vec<MatchingSampleData> = Vec::new();
    let n = index.len();
    let mut i: usize = 0;
    assert(found.deep_view() =~= sample_hits(digest@, tracks.take(0)));
    while i < n
        invariant
            i <= n,
            n == tracks.len(),
            tracks == index@,
            found.deep_view() == sample_hits(digest@, tracks.take(i as int)),
        decreases n - i,
    {
        let track = index.track(i);
        let ghost done = found.deep_view();
        let ghost name = track@.filename;
        let ghost samples = track@.samples;
        let mut j: usize = 0;
        assert(found.deep_view() =~= done + hits_in_track(digest@, name, samples.take(0)));
        while j < track.samples.len()
            invariant
                j <= track.samples.len(),
                name == track@.filename,
                samples == track@.samples,
                found.deep_view() == done + hits_in_track(digest@, name, samples.take(j as int)),
            decreases track.samples.len() - j,
        {
            let sample = &track.samples[j];
            let ghost before = found.deep_view();
            proof {
                assert(samples.take(j as int + 1).drop_last() =~= samples.take(j as int));
                assert(samples.take(j as int + 1).last() == sample@);
            }
            if has_digest(sample, digest) {
                found.push(
                    MatchingSampleData {
                        filename: track.filename.clone(),
                        text: sample.text.clone(),
                        sample_id: sample.sample_id,
                    },
                );
                assert(found.deep_view() =~= before.push(hit_of(name, sample@)));
            }
            assert(found.deep_view() =~= done + hits_in_track(
                digest@,
                name,
                samples.take(j as int + 1),
            ));
            j += 1;
        }
        proof {
            assert(samples.take(j as int) =~= samples);
            assert(tracks.take(i as int + 1).drop_last() =~= tracks.take(i as int));
            assert(tracks.take(i as int + 1).last() == track@);
        }
        i += 1;
    }
    assert(tracks.take(i as int) =~= tracks);
    found
}

/// The matches of one query sample, ordered as they are reported.
pub fn match_sample(sample: &SampleInfo, index: &Index) -> (r: Vec<MatchingSampleData>)
    ensures
        r.deep_view() == sample_matches(sample@.sha256_hash, index@),
{
    let mut out: Vec<MatchingSampleData> = Vec::new();
    match &sample.sha256_hash {
        None => {
            assert(out.deep_view() =~= Seq::<MatchingSampleView>::empty());
        },
        Some(digest) => {
            let hits = find_samples(digest, index);
            let mut keys: Vec<String> = Vec::new();
            let mut i: usize = 0;
            while i < hits.len()
                invariant
                    i <= hits.len(),
                    keys.len() == i,
                    forall|k: int| 0 <= k < i ==> keys[k]@ == hits[k].text@,
                decreases hits.len() - i,
            {
                keys.push(hits[i].text.clone());
                i += 1;
            }
            let ghost all = hits.deep_view();
            proof {
                assert(keys.deep_view() =~= hit_texts(all));
                lemma_stable_order(hit_texts(all), true);
            }
            let order = sorted_positions(&keys, true);
            let mut k: usize = 0;
            while k < order.len()
                invariant
                    k <= order.len(),
                    all == hits.deep_view(),
                    order@ == stable_order(hit_texts(all), true),
                    order.len() == all.len(),
                    forall|p: usize| order@.contains(p) <==> (p as int) < all.len(),
                    out.len() == k,
                    forall|m: int| 0 <= m < k ==> (#[trigger] out[m])@ == all[order[m] as int],
                decreases order.len() - k,
            {
                let p = order[k];
                assert(order@.contains(p));
                let hit = &hits[p];
                out.push(
                    MatchingSampleData {
                        filename: hit.filename.clone(),
                        text: hit.text.clone(),
                        sample_id: hit.sample_id,
                    },
                );
                k += 1;
            }
            assert(out.deep_view() =~= sample_matches(sample@.sha256_hash, index@));
        },
    }
    out
}

/// For each sample of the query, in order, the indexed samples with the
/// same payload.
pub fn match_samples(query: &TrackInfo, index: &Index) -> (r: Vec<TopSampleData>)
    ensures
        r.deep_view() == sample_report(query@, index@),
{
    let mut report: Vec<TopSampleData> = Vec::new();
    let mut i: usize = 0;
    while i < query.samples.len()
        invariant
            i <= query.samples.len(),
            report.len() == i,
            forall|k: int|
                0 <= k < i ==> (#[trigger] report[k])@ == top_sample_of(query.samples[k]@, index@),
        decreases query.samples.len() - i,
    {
        let sample = &query.samples[i];
        report.push(
            TopSampleData {
                query_sample_id: sample.sample_id,
                text: sample.text.clone(),
                matching_samples: match_sample(sample, index),
            },
        );
        i += 1;
    }
    assert(report.deep_view() =~= sample_report(query@, index@));
    report
}

} // verus!
