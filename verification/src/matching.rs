//! The match engine: which records of the index a query track matches, on
//! which tier, and which indexed samples share a payload with the query's.

use vstd::prelude::*;
use crate::filter::{DatabaseMeta, Filters, MetaView};
use crate::index::Index;
use crate::order::{arranged, lemma_stable_order, sorted_positions, stable_order};
use crate::seq_lemmas::{lemma_filter_take_step, lemma_filter_take_zero};
use crate::text::lex_lt;
use crate::track::{meta_of, TrackInfo, TrackView};

verus! {

/// The tier, or tiers, on which a candidate matches the query.
#[derive(Debug, Clone, Copy, PartialEq, Eq, Structural)]
pub enum Tier {
    /// The whole-file digests are equal, the pattern digests are not.
    ExactOnly,
    /// The pattern digests are equal, the whole-file digests are not.
    PatternOnly,
    /// Both digests are equal.
    Both,
}

/// One candidate of a match.
pub struct FoundEntry {
    /// The candidate's position in the index.
    pub song_id: usize,
    pub meta: DatabaseMeta,
    pub tier: Tier,
}

pub ghost struct FoundView {
    pub song_id: int,
    pub meta: MetaView,
    pub tier: Tier,
}

impl View for FoundEntry {
    type V = FoundView;

    open spec fn view(&self) -> FoundView {
        FoundView { song_id: self.song_id as int, meta: self.meta@, tier: self.tier }
    }
}

impl DeepView for FoundEntry {
    type V = FoundView;

    open spec fn deep_view(&self) -> FoundView {
        self@
    }
}

/// Whether the record matches the query on the exact tier.
pub open spec fn exact_tier(q: TrackView, t: TrackView) -> bool {
    t.sha256_hash == q.sha256_hash
}

/// Whether the record matches the query on the pattern tier. A query
/// without a pattern digest matches nothing there.
pub open spec fn pattern_tier(q: TrackView, t: TrackView) -> bool {
    q.pattern_hash != 0 && t.pattern_hash == q.pattern_hash
}

/// The tag of a record with respect to a query, if it matches at all.
pub open spec fn classify(q: TrackView, t: TrackView) -> Option<Tier> {
    if exact_tier(q, t) && pattern_tier(q, t) {
        Some(Tier::Both)
    } else if exact_tier(q, t) {
        Some(Tier::ExactOnly)
    } else if pattern_tier(q, t) {
        Some(Tier::PatternOnly)
    } else {
        None
    }
}

/// The candidate that the record at `song_id` gives.
pub open spec fn found_at(tracks: Seq<TrackView>, song_id: int, tier: Tier) -> FoundView {
    FoundView { song_id, meta: meta_of(tracks[song_id]), tier }
}

/// The union of the two tiers' candidates, tagged, in index order.
pub open spec fn candidates(q: TrackView, tracks: Seq<TrackView>) -> Seq<FoundView>
    decreases tracks.len(),
{
    if tracks.len() == 0 {
        Seq::empty()
    } else {
        let rest = candidates(q, tracks.drop_last());
        match classify(q, tracks.last()) {
            Some(tier) => rest.push(found_at(tracks, tracks.len() - 1, tier)),
            None => rest,
        }
    }
}

/// The paths of a list of candidates.
pub open spec fn found_paths(found: Seq<FoundView>) -> Seq<Seq<char>> {
    found.map_values(|f: FoundView| f.meta.filename)
}

/// The answer to a query: its candidates by ascending path, candidates
/// with the same path in index order.
pub open spec fn matches_of(q: TrackView, tracks: Seq<TrackView>) -> Seq<FoundView> {
    let found = candidates(q, tracks);
    arranged(found, stable_order(found_paths(found), false))
}

/// Every candidate stands for a record of the index that matches the
/// query on the tier it is tagged with.
pub proof fn lemma_candidates_sound(q: TrackView, tracks: Seq<TrackView>, k: int)
    requires
        0 <= k < candidates(q, tracks).len(),
    ensures
        0 <= candidates(q, tracks)[k].song_id < tracks.len(),
        candidates(q, tracks)[k] == found_at(
            tracks,
            candidates(q, tracks)[k].song_id,
            candidates(q, tracks)[k].tier,
        ),
        classify(q, tracks[candidates(q, tracks)[k].song_id]) == Some(candidates(q, tracks)[k].tier),
        candidates(q, tracks).len() <= tracks.len(),
    decreases tracks.len(),
{
    if tracks.len() > 0 {
        let rest = candidates(q, tracks.drop_last());
        if k < rest.len() {
            lemma_candidates_sound(q, tracks.drop_last(), k);
        } else if rest.len() > 0 {
            lemma_candidates_sound(q, tracks.drop_last(), 0);
        }
    }
}

/// Every record that matches the query on some tier is among the
/// candidates.
pub proof fn lemma_candidates_complete(q: TrackView, tracks: Seq<TrackView>, song_id: int)
    requires
        0 <= song_id < tracks.len(),
        classify(q, tracks[song_id]) is Some,
    ensures
        candidates(q, tracks).contains(
            found_at(tracks, song_id, classify(q, tracks[song_id])->0),
        ),
    decreases tracks.len(),
{
    let rest = candidates(q, tracks.drop_last());
    let all = candidates(q, tracks);
    if song_id == tracks.len() - 1 {
        assert(all.last() == found_at(tracks, song_id, classify(q, tracks[song_id])->0));
    } else {
        lemma_candidates_complete(q, tracks.drop_last(), song_id);
        let f = found_at(tracks.drop_last(), song_id, classify(q, tracks[song_id])->0);
        let k = choose|k: int| 0 <= k < rest.len() && rest[k] == f;
        assert(all[k] == f);
    }
}

/// The answer holds exactly the candidates: each once, sorted by path.
pub proof fn lemma_matches_are_candidates(q: TrackView, tracks: Seq<TrackView>)
    requires
        tracks.len() <= usize::MAX,
    ensures
        matches_of(q, tracks).len() == candidates(q, tracks).len(),
        forall|f: FoundView| matches_of(q, tracks).contains(f) <==> candidates(q, tracks).contains(f),
        forall|i: int, j: int|
            0 <= i < j < matches_of(q, tracks).len() ==> !lex_lt(
                (#[trigger] matches_of(q, tracks)[j]).meta.filename,
                (#[trigger] matches_of(q, tracks)[i]).meta.filename,
            ),
{
    let found = candidates(q, tracks);
    let keys = found_paths(found);
    let order = stable_order(keys, false);
    let out = matches_of(q, tracks);
    if found.len() > 0 {
        lemma_candidates_sound(q, tracks, 0);
    }
    lemma_stable_order(keys, false);
    assert forall|f: FoundView| out.contains(f) <==> found.contains(f) by {
        if out.contains(f) {
            let i = choose|i: int| 0 <= i < out.len() && out[i] == f;
            assert(order.contains(order[i]));
            assert(found[order[i] as int] == f);
        }
        if found.contains(f) {
            let p = choose|p: int| 0 <= p < found.len() && found[p] == f;
            assert(order.contains(p as usize));
            let i = choose|i: int| 0 <= i < order.len() && order[i] == p as usize;
            assert(out[i] == f);
        }
    }
    assert forall|i: int, j: int| 0 <= i < j < out.len() implies !lex_lt(
        (#[trigger] out[j]).meta.filename,
        (#[trigger] out[i]).meta.filename,
    ) by {
        let (x, y) = (order[i], order[j]);
        assert(order.contains(x) && order.contains(y));
        assert(keys[x as int] == out[i].meta.filename);
        assert(keys[y as int] == out[j].meta.filename);
    }
}

/// No candidate is tagged `Both` unless both of its digests equal the
/// query's, and a query without a pattern digest matches on the exact tier
/// only.
pub proof fn lemma_match_tiers(q: TrackView, tracks: Seq<TrackView>, k: int)
    requires
        tracks.len() <= usize::MAX,
        0 <= k < matches_of(q, tracks).len(),
    ensures
        ({
            let f = matches_of(q, tracks)[k];
            let t = tracks[f.song_id];
            &&& 0 <= f.song_id < tracks.len()
            &&& f.meta == meta_of(t)
            &&& f.tier == Tier::Both <==> t.sha256_hash == q.sha256_hash && q.pattern_hash != 0
                && t.pattern_hash == q.pattern_hash
            &&& f.tier == Tier::ExactOnly <==> t.sha256_hash == q.sha256_hash && !(q.pattern_hash
                != 0 && t.pattern_hash == q.pattern_hash)
            &&& f.tier == Tier::PatternOnly <==> t.sha256_hash != q.sha256_hash && q.pattern_hash
                != 0 && t.pattern_hash == q.pattern_hash
            &&& q.pattern_hash == 0 ==> f.tier == Tier::ExactOnly
        }),
{
    let found = candidates(q, tracks);
    let f = matches_of(q, tracks)[k];
    lemma_matches_are_candidates(q, tracks);
    assert(matches_of(q, tracks).contains(f));
    let p = choose|p: int| 0 <= p < found.len() && found[p] == f;
    lemma_candidates_sound(q, tracks, p);
}

fn classify_track(query: &TrackInfo, track: &TrackInfo) -> (r: Option<Tier>)
    ensures
        r == classify(query@, track@),
{
    let exact = track.sha256_hash == query.sha256_hash;
    let pattern = query.pattern_hash != 0 && track.pattern_hash == query.pattern_hash;
    if exact && pattern {
        Some(Tier::Both)
    } else if exact {
        Some(Tier::ExactOnly)
    } else if pattern {
        Some(Tier::PatternOnly)
    } else {
        None
    }
}

/// Looks the query up on both tiers and returns the tagged candidates by
/// ascending path. The pattern tier is consulted only if the query has a
/// pattern digest.
pub fn match_track(query: &TrackInfo, index: &Index) -> (r: Vec<FoundEntry>)
    ensures
        r.deep_view() == matches_of(query@, index@),
        forall|k: int|
            0 <= k < r.len() ==> {
                let t = index@[(#[trigger] r[k]).song_id as int];
                &&& r[k].song_id < index@.len()
                &&& r[k].tier == Tier::Both ==> t.sha256_hash == query@.sha256_hash
                    && t.pattern_hash == query@.pattern_hash
                &&& query@.pattern_hash == 0 ==> r[k].tier == Tier::ExactOnly
            },
{
    let ghost tracks = index@;
    let ghost q = query@;
    let mut hits: Vec<usize> = Vec::new();
    let mut tiers: Vec<Tier> = Vec::new();
    let mut keys: Vec<String> = Vec::new();
    let n = index.len();
    let mut i: usize = 0;
    while i < n
        invariant
            i <= n,
            n == tracks.len(),
            tracks == index@,
            q == query@,
            hits.len() == candidates(q, tracks.take(i as int)).len(),
            tiers.len() == hits.len(),
            keys.len() == hits.len(),
            forall|k: int|
                0 <= k < hits.len() ==> hits[k] < i && #[trigger] candidates(
                    q,
                    tracks.take(i as int),
                )[k] == found_at(tracks, hits[k] as int, tiers[k]) && keys[k]@
                    == tracks[hits[k] as int].filename,
        decreases n - i,
    {
        let track = index.track(i);
        let ghost prefix = tracks.take(i as int);
        let ghost next = tracks.take(i as int + 1);
        proof {
            assert(next.drop_last() =~= prefix);
            assert(next.last() == tracks[i as int]);
        }
        match classify_track(query, track) {
            Some(tier) => {
                hits.push(i);
                tiers.push(tier);
                keys.push(track.filename.clone());
                assert(found_at(next, i as int, tier) == found_at(tracks, i as int, tier));
            },
            None => {},
        }
        i += 1;
    }
    assert(tracks.take(i as int) =~= tracks);
    let ghost found = candidates(q, tracks);
    proof {
        assert(keys.deep_view() =~= found_paths(found));
        lemma_stable_order(found_paths(found), false);
    }
    let order = sorted_positions(&keys, false);
    let mut out: Vec<FoundEntry> = Vec::new();
    let mut k: usize = 0;
    while k < order.len()
        invariant
            k <= order.len(),
            tracks == index@,
            order@ == stable_order(found_paths(found), false),
            order.len() == found.len(),
            hits.len() == found.len(),
            tiers.len() == found.len(),
            forall|p: usize| order@.contains(p) <==> (p as int) < found.len(),
            forall|p: int|
                0 <= p < found.len() ==> hits[p] < tracks.len() && #[trigger] found[p] == found_at(
                    tracks,
                    hits[p] as int,
                    tiers[p],
                ),
            out.len() == k,
            forall|m: int| 0 <= m < k ==> (#[trigger] out[m])@ == found[order[m] as int],
        decreases order.len() - k,
    {
        let p = order[k];
        assert(order@.contains(p));
        assert(found[p as int] == found_at(tracks, hits[p as int] as int, tiers[p as int]));
        let song_id = hits[p];
        out.push(FoundEntry { song_id, meta: index.track(song_id).to_meta(), tier: tiers[p] });
        k += 1;
    }
    assert(out.deep_view() =~= matches_of(q, tracks));
    proof {
        assert forall|m: int| 0 <= m < out.len() implies {
            let t = tracks[(#[trigger] out[m]).song_id as int];
            &&& out[m].song_id < tracks.len()
            &&& out[m].tier == Tier::Both ==> t.sha256_hash == q.sha256_hash && t.pattern_hash
                == q.pattern_hash
            &&& q.pattern_hash == 0 ==> out[m].tier == Tier::ExactOnly
        } by {
            assert(out.deep_view()[m] == out[m]@);
            lemma_match_tiers(q, tracks, m);
        }
    }
    out
}

/// What a list of candidates looks like to the filter pipeline.
pub open spec fn found_metas(found: Seq<FoundView>) -> Seq<MetaView> {
    found.map_values(|f: FoundView| f.meta)
}

/// The candidates that the filter pipeline leaves of an answer: those that
/// pass the structural predicate if the group as a whole survives the
/// gates, and none otherwise. Tags and order are kept.
pub open spec fn filtered_found(filters: Filters, found: Seq<FoundView>, minimum_count: int) -> Seq<
    FoundView,
> {
    if filters.filtered(found_metas(found), minimum_count).len() == 0 {
        Seq::empty()
    } else {
        found.filter(|f: FoundView| filters.retains(f.meta.filename))
    }
}

/// Runs the filter pipeline over the candidates of an answer.
pub fn filter_matches(filters: &Filters, found: &Vec<FoundEntry>, skip_level: usize) -> (r: Vec<
    FoundEntry,
>)
    ensures
        r.deep_view() == filtered_found(*filters, found.deep_view(), skip_level as int),
        found_metas(r.deep_view()) == filters.filtered(
            found_metas(found.deep_view()),
            skip_level as int,
        ),
{
    let ghost all = found.deep_view();
    let ghost pred = |f: FoundView| filters.retains(f.meta.filename);
    let ghost meta_pred = |m: MetaView| filters.retains(m.filename);
    let mut metas: Vec<DatabaseMeta> = Vec::new();
    let mut i: usize = 0;
    while i < found.len()
        invariant
            i <= found.len(),
            metas.len() == i,
            forall|k: int| 0 <= k < i ==> (#[trigger] metas[k])@ == found[k].meta@,
        decreases found.len() - i,
    {
        metas.push(found[i].meta.duplicate());
        i += 1;
    }
    assert(metas.deep_view() =~= found_metas(all));
    let verdict = filters.apply_filter(&metas, skip_level);
    let mut out: Vec<FoundEntry> = Vec::new();
    if verdict.len() == 0 {
        assert(out.deep_view() =~= Seq::<FoundView>::empty());
        assert(verdict.deep_view() =~= Seq::<MetaView>::empty());
        assert(found_metas(out.deep_view()) =~= Seq::<MetaView>::empty());
        return out;
    }
    let mut k: usize = 0;
    proof {
        lemma_filter_take_zero(all, pred);
        lemma_filter_take_zero(found_metas(all), meta_pred);
        assert(out.deep_view() =~= all.take(0).filter(pred));
        assert(found_metas(out.deep_view()) =~= found_metas(all).take(0).filter(meta_pred));
    }
    while k < found.len()
        invariant
            k <= found.len(),
            all == found.deep_view(),
            pred == |f: FoundView| filters.retains(f.meta.filename),
            meta_pred == |m: MetaView| filters.retains(m.filename),
            out.deep_view() == all.take(k as int).filter(pred),
            found_metas(out.deep_view()) == found_metas(all).take(k as int).filter(meta_pred),
        decreases found.len() - k,
    {
        let ghost before = out.deep_view();
        proof {
            lemma_filter_take_step(all, k as int, pred);
            lemma_filter_take_step(found_metas(all), k as int, meta_pred);
        }
        let entry = &found[k];
        if filters.passes(entry.meta.filename.as_str()) {
            out.push(
                FoundEntry {
                    song_id: entry.song_id,
                    meta: entry.meta.duplicate(),
                    tier: entry.tier,
                },
            );
            assert(out.deep_view() =~= before.push(all[k as int]));
            assert(found_metas(out.deep_view()) =~= found_metas(before).push(all[k as int].meta));
        }
        k += 1;
    }
    assert(all.take(k as int) =~= all);
    assert(found_metas(all).take(k as int) =~= found_metas(all));
    out
}

} // verus!
