//! The duplicate enumerator: the clusters of indexed records that share an
//! identity value, filtered and in a fixed order.

use vstd::prelude::*;
use crate::filter::{DatabaseMeta, Filters, MetaView};
use crate::index::{metas_of, Index};
use crate::order::{arranged, lemma_stable_order, sorted_positions, stable_order};
use crate::seq_lemmas::{lemma_filter_take_step, lemma_filter_take_zero};
use crate::text::lex_lt;
use crate::track::{meta_of, TrackInfo, TrackView};

verus! {

/// The identity by which records are grouped into clusters.
#[derive(Debug, Clone, Copy, PartialEq, Eq, Structural)]
pub enum Identity {
    /// The digest of the whole file.
    WholeFile,
    /// The pattern digest. Records without one belong to no cluster.
    Pattern,
}

/// Whether `b` has the identity value of `a`.
pub open spec fn same_identity(identity: Identity, a: TrackView, b: TrackView) -> bool {
    match identity {
        Identity::WholeFile => a.sha256_hash == b.sha256_hash,
        Identity::Pattern => a.pattern_hash != 0 && a.pattern_hash == b.pattern_hash,
    }
}

/// The records that share the identity value of the record at `song_id`,
/// in index order.
pub open spec fn cluster_members(identity: Identity, tracks: Seq<TrackView>, song_id: int) -> Seq<
    TrackView,
> {
    tracks.filter(|t: TrackView| same_identity(identity, tracks[song_id], t))
}

/// Whether the record at `song_id` is the first of a cluster.
pub open spec fn leads(identity: Identity, tracks: Seq<TrackView>, song_id: int) -> bool {
    &&& same_identity(identity, tracks[song_id], tracks[song_id])
    &&& forall|j: int| 0 <= j < song_id ==> !same_identity(identity, #[trigger] tracks[j], tracks[song_id])
}

/// The paths of a group.
pub open spec fn meta_paths(group: Seq<MetaView>) -> Seq<Seq<char>> {
    group.map_values(|m: MetaView| m.filename)
}

/// A group by ascending path, members with the same path in their
/// given order.
pub open spec fn sorted_metas(group: Seq<MetaView>) -> Seq<MetaView> {
    arranged(group, stable_order(meta_paths(group), false))
}

/// The cluster that the record at `song_id` leads, if it leads one that is
/// large enough and survives the filter pipeline.
pub open spec fn cluster_at(
    filters: Filters,
    identity: Identity,
    tracks: Seq<TrackView>,
    minimum_cluster_size: int,
    song_id: int,
) -> Option<Seq<MetaView>> {
    let group = metas_of(cluster_members(identity, tracks, song_id));
    let kept = filters.filtered(group, minimum_cluster_size);
    if leads(identity, tracks, song_id) && group.len() >= minimum_cluster_size && kept.len() > 0 {
        Some(sorted_metas(kept))
    } else {
        None
    }
}

/// The clusters led by the first `n` records, in the order of their
/// leaders.
pub open spec fn clusters_upto(
    filters: Filters,
    identity: Identity,
    tracks: Seq<TrackView>,
    minimum_cluster_size: int,
    n: int,
) -> Seq<Seq<MetaView>>
    decreases n,
{
    if n <= 0 {
        Seq::empty()
    } else {
        let rest = clusters_upto(filters, identity, tracks, minimum_cluster_size, n - 1);
        match cluster_at(filters, identity, tracks, minimum_cluster_size, n - 1) {
            Some(c) => rest.push(c),
            None => rest,
        }
    }
}

/// The path of each cluster's first member.
pub open spec fn first_paths(clusters: Seq<Seq<MetaView>>) -> Seq<Seq<char>> {
    clusters.map_values(|c: Seq<MetaView>| c[0].filename)
}

/// The duplicate clusters of an index: each sorted by path, and the
/// clusters by the path of their first member.
pub open spec fn dupes_of(
    filters: Filters,
    identity: Identity,
    tracks: Seq<TrackView>,
    minimum_cluster_size: int,
) -> Seq<Seq<MetaView>> {
    let found = clusters_upto(filters, identity, tracks, minimum_cluster_size, tracks.len() as int);
    arranged(found, stable_order(first_paths(found), false))
}

/// The view of a list of clusters.
pub open spec fn clusters_view(clusters: Seq<Vec<DatabaseMeta>>) -> Seq<Seq<MetaView>> {
    clusters.map_values(|c: Vec<DatabaseMeta>| c.deep_view())
}

fn has_same_identity(identity: Identity, a: &TrackInfo, b: &TrackInfo) -> (r: bool)
    ensures
        r == same_identity(identity, a@, b@),
{
    match identity {
        Identity::WholeFile => a.sha256_hash == b.sha256_hash,
        Identity::Pattern => a.pattern_hash != 0 && a.pattern_hash == b.pattern_hash,
    }
}

/// Whether the record at `song_id` is the first with its identity value.
pub fn is_leader(index: &Index, identity: Identity, song_id: usize) -> (r: bool)
    requires
        song_id < index@.len(),
    ensures
        r == leads(identity, index@, song_id as int),
{
    let track = index.track(song_id);
    if !has_same_identity(identity, track, track) {
        return false;
    }
    let mut j: usize = 0;
    while j < song_id
        invariant
            j <= song_id,
            song_id < index@.len(),
            track@ == index@[song_id as int],
            forall|k: int| 0 <= k < j ==> !same_identity(identity, #[trigger] index@[k], track@),
        decreases song_id - j,
    {
        if has_same_identity(identity, index.track(j), track) {
            return false;
        }
        j += 1;
    }
    true
}

/// The records that share the identity value of the record at `song_id`,
/// as a query sees them.
pub fn cluster_of(index: &Index, identity: Identity, song_id: usize) -> (r: Vec<DatabaseMeta>)
    requires
        song_id < index@.len(),
    ensures
        r.deep_view() == metas_of(cluster_members(identity, index@, song_id as int)),
{
    let ghost tracks = index@;
    let ghost pred = |t: TrackView| same_identity(identity, tracks[song_id as int], t);
    let track = index.track(song_id);
    let mut group: Vec<DatabaseMeta> = Vec::new();
    let n = index.len();
    let mut i: usize = 0;
    proof {
        lemma_filter_take_zero(tracks, pred);
        assert(group.deep_view() =~= metas_of(tracks.take(0).filter(pred)));
    }
    while i < n
        invariant
            i <= n,
            n == tracks.len(),
            tracks == index@,
            song_id < tracks.len(),
            track@ == tracks[song_id as int],
            pred == |t: TrackView| same_identity(identity, tracks[song_id as int], t),
            group.deep_view() == metas_of(tracks.take(i as int).filter(pred)),
        decreases n - i,
    {
        let ghost before = group.deep_view();
        proof {
            lemma_filter_take_step(tracks, i as int, pred);
        }
        let other = index.track(i);
        if has_same_identity(identity, track, other) {
            group.push(other.to_meta());
            assert(group.deep_view() =~= before.push(meta_of(tracks[i as int])));
            assert(metas_of(tracks.take(i as int).filter(pred).push(tracks[i as int]))
                =~= before.push(meta_of(tracks[i as int])));
        }
        i += 1;
    }
    assert(tracks.take(i as int) =~= tracks);
    group
}

/// Sorts a group by path.
pub fn sort_by_filename(group: &Vec<DatabaseMeta>) -> (r: Vec<DatabaseMeta>)
    ensures
        r.deep_view() == sorted_metas(group.deep_view()),
{
    let ghost all = group.deep_view();
    let mut keys: Vec<String> = Vec::new();
    let mut i: usize = 0;
    while i < group.len()
        invariant
            i <= group.len(),
            keys.len() == i,
            forall|k: int| 0 <= k < i ==> keys[k]@ == group[k].filename@,
        decreases group.len() - i,
    {
        keys.push(group[i].filename.clone());
        i += 1;
    }
    proof {
        assert(keys.deep_view() =~= meta_paths(all));
        lemma_stable_order(meta_paths(all), false);
    }
    let order = sorted_positions(&keys, false);
    let mut out: Vec<DatabaseMeta> = Vec::new();
    let mut k: usize = 0;
    while k < order.len()
        invariant
            k <= order.len(),
            all == group.deep_view(),
            order@ == stable_order(meta_paths(all), false),
            order.len() == all.len(),
            forall|p: usize| order@.contains(p) <==> (p as int) < all.len(),
            out.len() == k,
            forall|m: int| 0 <= m < k ==> (#[trigger] out[m])@ == all[order[m] as int],
        decreases order.len() - k,
    {
        let p = order[k];
        assert(order@.contains(p));
        out.push(group[p].duplicate());
        k += 1;
    }
    assert(out.deep_view() =~= sorted_metas(all));
    out
}

/// The cluster that the record at `song_id` contributes to the
/// enumeration, if any.
pub fn cluster_for(
    index: &Index,
    filters: &Filters,
    identity: Identity,
    minimum_cluster_size: usize,
    song_id: usize,
) -> (r: Option<Vec<DatabaseMeta>>)
    requires
        song_id < index@.len(),
    ensures
        (match r {
            Some(c) => Some(c.deep_view()),
            None => None,
        }) == cluster_at(*filters, identity, index@, minimum_cluster_size as int, song_id as int),
{
    if !is_leader(index, identity, song_id) {
        return None;
    }
    let group = cluster_of(index, identity, song_id);
    if group.len() < minimum_cluster_size {
        return None;
    }
    let kept = filters.apply_filter(&group, minimum_cluster_size);
    if kept.len() == 0 {
        return None;
    }
    Some(sort_by_filename(&kept))
}

fn copy_group(group: &Vec<DatabaseMeta>) -> (r: Vec<DatabaseMeta>)
    ensures
        r.deep_view() == group.deep_view(),
{
    let mut out: Vec<DatabaseMeta> = Vec::new();
    let mut i: usize = 0;
    while i < group.len()
        invariant
            i <= group.len(),
            out.len() == i,
            forall|k: int| 0 <= k < i ==> (#[trigger] out[k])@ == group[k]@,
        decreases group.len() - i,
    {
        out.push(group[i].duplicate());
        i += 1;
    }
    assert(out.deep_view() =~= group.deep_view());
    out
}

/// Sorts clusters, none of them empty, by the path of their first member.
pub fn sort_clusters(found: &Vec<Vec<DatabaseMeta>>) -> (r: Vec<Vec<DatabaseMeta>>)
    requires
        forall|k: int| 0 <= k < found.len() ==> (#[trigger] found[k]).len() > 0,
    ensures
        clusters_view(r@) == arranged(
            clusters_view(found@),
            stable_order(first_paths(clusters_view(found@)), false),
        ),
{
    let ghost all = clusters_view(found@);
    let mut keys: Vec<String> = Vec::new();
    let mut i: usize = 0;
    while i < found.len()
        invariant
            i <= found.len(),
            keys.len() == i,
            forall|k: int| 0 <= k < found.len() ==> (#[trigger] found[k]).len() > 0,
            forall|k: int| 0 <= k < i ==> keys[k]@ == found[k][0].filename@,
        decreases found.len() - i,
    {
        keys.push(found[i][0].filename.clone());
        i += 1;
    }
    proof {
        assert forall|k: int| 0 <= k < all.len() implies keys.deep_view()[k] == first_paths(
            all,
        )[k] by {
            assert(all[k] == found[k].deep_view());
            assert(found[k].deep_view()[0] == found[k][0]@);
        }
        assert(keys.deep_view() =~= first_paths(all));
        lemma_stable_order(first_paths(all), false);
    }
    let order = sorted_positions(&keys, false);
    let mut out: Vec<Vec<DatabaseMeta>> = Vec::new();
    let mut k: usize = 0;
    while k < order.len()
        invariant
            k <= order.len(),
            all == clusters_view(found@),
            order@ == stable_order(first_paths(all), false),
            order.len() == all.len(),
            forall|p: usize| order@.contains(p) <==> (p as int) < all.len(),
            out.len() == k,
            forall|m: int| 0 <= m < k ==> (#[trigger] out[m]).deep_view() == all[order[m] as int],
        decreases order.len() - k,
    {
        let p = order[k];
        assert(order@.contains(p));
        out.push(copy_group(&found[p]));
        k += 1;
    }
    assert(clusters_view(out@) =~= arranged(all, order@));
    out
}

/// Enumerates the duplicate clusters of the index on one identity: every
/// maximal group of records with the same identity value that has at least
/// `minimum_cluster_size` members and survives the filter pipeline run with
/// that minimum count. Members are sorted by path and clusters by their
/// first member's path, so the outcome depends on nothing but the index
/// and the arguments.
pub fn get_dupes(
    index: &Index,
    filters: &Filters,
    identity: Identity,
    minimum_cluster_size: usize,
) -> (r: Vec<Vec<DatabaseMeta>>)
    ensures
        clusters_view(r@) == dupes_of(*filters, identity, index@, minimum_cluster_size as int),
{
    let ghost tracks = index@;
    let ghost m = minimum_cluster_size as int;
    let mut found: Vec<Vec<DatabaseMeta>> = Vec::new();
    let n = index.len();
    let mut i: usize = 0;
    assert(clusters_view(found@) =~= clusters_upto(*filters, identity, tracks, m, 0));
    while i < n
        invariant
            i <= n,
            n == tracks.len(),
            tracks == index@,
            m == minimum_cluster_size as int,
            clusters_view(found@) == clusters_upto(*filters, identity, tracks, m, i as int),
            forall|k: int| 0 <= k < found.len() ==> (#[trigger] found[k]).len() > 0,
        decreases n - i,
    {
        let ghost before = clusters_view(found@);
        match cluster_for(index, filters, identity, minimum_cluster_size, i) {
            Some(cluster) => {
                proof {
                    lemma_stable_order(
                        meta_paths(
                            filters.filtered(
                                metas_of(cluster_members(identity, tracks, i as int)),
                                m,
                            ),
                        ),
                        false,
                    );
                    assert(cluster.deep_view().len() == cluster.len());
                }
                let ghost c = cluster.deep_view();
                found.push(cluster);
                assert(clusters_view(found@) =~= before.push(c));
            },
            None => {},
        }
        i += 1;
    }
    sort_clusters(&found)
}

/// Every cluster of the enumeration is one that some record leads.
pub proof fn lemma_clusters_have_leaders(
    filters: Filters,
    identity: Identity,
    tracks: Seq<TrackView>,
    minimum_cluster_size: int,
    n: int,
    k: int,
)
    requires
        0 <= k < clusters_upto(filters, identity, tracks, minimum_cluster_size, n).len(),
    ensures
        exists|s: int|
            0 <= s < n && #[trigger] cluster_at(filters, identity, tracks, minimum_cluster_size, s)
                == Some(clusters_upto(filters, identity, tracks, minimum_cluster_size, n)[k]),
    decreases n,
{
    let rest = clusters_upto(filters, identity, tracks, minimum_cluster_size, n - 1);
    if k < rest.len() {
        lemma_clusters_have_leaders(filters, identity, tracks, minimum_cluster_size, n - 1, k);
        let s = choose|s: int|
            0 <= s < n - 1 && #[trigger] cluster_at(
                filters,
                identity,
                tracks,
                minimum_cluster_size,
                s,
            ) == Some(rest[k]);
        assert(cluster_at(filters, identity, tracks, minimum_cluster_size, s) == Some(
            clusters_upto(filters, identity, tracks, minimum_cluster_size, n)[k],
        ));
    } else {
        assert(cluster_at(filters, identity, tracks, minimum_cluster_size, n - 1) == Some(
            clusters_upto(filters, identity, tracks, minimum_cluster_size, n)[k],
        ));
    }
}

/// A cluster is never empty, never smaller than the minimum size, and
/// sorted by path.
pub proof fn lemma_cluster_shape(
    filters: Filters,
    identity: Identity,
    tracks: Seq<TrackView>,
    minimum_cluster_size: int,
    song_id: int,
)
    requires
        tracks.len() <= usize::MAX,
        cluster_at(filters, identity, tracks, minimum_cluster_size, song_id) is Some,
    ensures
        ({
            let c = cluster_at(filters, identity, tracks, minimum_cluster_size, song_id)->0;
            &&& c.len() >= 1
            &&& c.len() >= minimum_cluster_size
            &&& forall|i: int, j: int|
                0 <= i < j < c.len() ==> !lex_lt(
                    (#[trigger] c[j]).filename,
                    (#[trigger] c[i]).filename,
                )
        }),
{
    let group = metas_of(cluster_members(identity, tracks, song_id));
    let kept = filters.filtered(group, minimum_cluster_size);
    let c = sorted_metas(kept);
    let order = stable_order(meta_paths(kept), false);
    tracks.lemma_filter_len(|t: TrackView| same_identity(identity, tracks[song_id], t));
    group.lemma_filter_len(|x: MetaView| filters.retains(x.filename));
    lemma_stable_order(meta_paths(kept), false);
    assert forall|i: int, j: int| 0 <= i < j < c.len() implies !lex_lt(
        (#[trigger] c[j]).filename,
        (#[trigger] c[i]).filename,
    ) by {
        let (x, y) = (order[i], order[j]);
        assert(order.contains(x) && order.contains(y));
        assert(meta_paths(kept)[x as int] == c[i].filename);
        assert(meta_paths(kept)[y as int] == c[j].filename);
    }
}

/// The enumeration is in order: the first paths of its clusters never
/// decrease, and it holds exactly the clusters that the records lead.
pub proof fn lemma_dupes_sorted(
    filters: Filters,
    identity: Identity,
    tracks: Seq<TrackView>,
    minimum_cluster_size: int,
)
    requires
        tracks.len() <= usize::MAX,
    ensures
        ({
            let found = clusters_upto(
                filters,
                identity,
                tracks,
                minimum_cluster_size,
                tracks.len() as int,
            );
            let out = dupes_of(filters, identity, tracks, minimum_cluster_size);
            &&& out.len() == found.len()
            &&& forall|c: Seq<MetaView>| out.contains(c) <==> found.contains(c)
            &&& forall|i: int, j: int|
                0 <= i < j < out.len() ==> !lex_lt(
                    (#[trigger] out[j])[0].filename,
                    (#[trigger] out[i])[0].filename,
                )
        }),
{
    let found = clusters_upto(filters, identity, tracks, minimum_cluster_size, tracks.len() as int);
    let keys = first_paths(found);
    let order = stable_order(keys, false);
    let out = dupes_of(filters, identity, tracks, minimum_cluster_size);
    lemma_clusters_count(filters, identity, tracks, minimum_cluster_size, tracks.len() as int);
    lemma_stable_order(keys, false);
    assert forall|c: Seq<MetaView>| out.contains(c) <==> found.contains(c) by {
        if out.contains(c) {
            let i = choose|i: int| 0 <= i < out.len() && out[i] == c;
            assert(order.contains(order[i]));
            assert(found[order[i] as int] == c);
        }
        if found.contains(c) {
            let p = choose|p: int| 0 <= p < found.len() && found[p] == c;
            assert(order.contains(p as usize));
            let i = choose|i: int| 0 <= i < order.len() && order[i] == p as usize;
            assert(out[i] == c);
        }
    }
    assert forall|i: int, j: int| 0 <= i < j < out.len() implies !lex_lt(
        (#[trigger] out[j])[0].filename,
        (#[trigger] out[i])[0].filename,
    ) by {
        let (x, y) = (order[i], order[j]);
        assert(order.contains(x) && order.contains(y));
        assert(keys[x as int] == out[i][0].filename);
        assert(keys[y as int] == out[j][0].filename);
    }
}

/// The enumeration is stable: whatever two runs return for the same index
/// and the same arguments is the same list of clusters, in the same order.
pub proof fn lemma_enumeration_is_stable(
    filters: Filters,
    identity: Identity,
    tracks: Seq<TrackView>,
    minimum_cluster_size: int,
    first_run: Seq<Vec<DatabaseMeta>>,
    second_run: Seq<Vec<DatabaseMeta>>,
)
    requires
        clusters_view(first_run) == dupes_of(filters, identity, tracks, minimum_cluster_size),
        clusters_view(second_run) == dupes_of(filters, identity, tracks, minimum_cluster_size),
    ensures
        clusters_view(first_run) == clusters_view(second_run),
        first_run.len() == second_run.len(),
{
    assert(clusters_view(first_run).len() == first_run.len());
    assert(clusters_view(second_run).len() == second_run.len());
}

/// There are never more clusters than records.
pub proof fn lemma_clusters_count(
    filters: Filters,
    identity: Identity,
    tracks: Seq<TrackView>,
    minimum_cluster_size: int,
    n: int,
)
    requires
        0 <= n,
    ensures
        clusters_upto(filters, identity, tracks, minimum_cluster_size, n).len() <= n,
    decreases n,
{
    if n > 0 {
        lemma_clusters_count(filters, identity, tracks, minimum_cluster_size, n - 1);
    }
}

} // verus!
