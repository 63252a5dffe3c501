use modland_hash::dupes::{
    cluster_for, cluster_of, get_dupes, is_leader, sort_by_filename, sort_clusters, Identity,
};
use modland_hash::filter::{DatabaseMeta, FilterArgs, Filters};
use modland_hash::index::{Index, IndexBuilder};
use modland_hash::matching::{filter_matches, match_track, Tier};
use modland_hash::order::sorted_positions;
use modland_hash::sample_match::{find_samples, match_sample, match_samples};
use modland_hash::track::{get_track_info, AnalysedSample, Analysis, TrackInfo};

fn no_filters() -> Filters {
    Filters::new(&FilterArgs {
        include_paths: String::new(),
        include_file_extensions: String::new(),
        exclude_paths: String::new(),
        exclude_file_extensions: String::new(),
        include_sample_name: String::new(),
        search_filename: String::new(),
    })
    .unwrap()
}

fn analysis(hash: u64, samples: &[(&str, Option<&[u8]>)]) -> Analysis {
    Analysis {
        hash,
        samples: samples
            .iter()
            .enumerate()
            .map(|(i, (text, data))| AnalysedSample {
                sample_id: i as u32 + 1,
                data: data.map(|d| d.to_vec()),
                text: text.to_string(),
                length_bytes: data.map(|d| d.len() as u32).unwrap_or(0),
                length: data.map(|d| d.len() as u32).unwrap_or(0),
            })
            .collect(),
        instrument_names: vec!["lead".to_string()],
        channel_count: 4,
    }
}

fn track(path: &str, bytes: &[u8], a: Option<&Analysis>) -> TrackInfo {
    get_track_info(path, bytes, a)
}

fn index_of(tracks: Vec<TrackInfo>) -> Index {
    let mut builder = IndexBuilder::new();
    for (i, t) in tracks.into_iter().enumerate() {
        assert_eq!(builder.insert(t), i);
    }
    builder.commit()
}

fn paths(group: &[DatabaseMeta]) -> Vec<&str> {
    group.iter().map(|m| m.filename.as_str()).collect()
}

#[test]
fn identical_bytes_share_the_whole_file_digest() {
    let a = track("a/1", b"same bytes", None);
    let b = track("b/1", b"same bytes", Some(&analysis(7, &[])));
    let c = track("c/1", b"other bytes", None);
    assert_eq!(a.sha256_hash, b.sha256_hash);
    assert_ne!(a.sha256_hash, c.sha256_hash);
    assert_eq!(a.sha256_hash.len(), 64);
}

#[test]
fn exact_duplicates_form_one_sorted_cluster() {
    let index = index_of(vec![
        track("c/1", b"tune", None),
        track("x/9", b"another", None),
        track("a/1", b"tune", None),
        track("b/1", b"tune", None),
    ]);
    let clusters = get_dupes(&index, &no_filters(), Identity::WholeFile, 2);
    assert_eq!(clusters.len(), 1);
    assert_eq!(paths(&clusters[0]), vec!["a/1", "b/1", "c/1"]);
}

#[test]
fn clusters_are_ordered_by_first_member() {
    let index = index_of(vec![
        track("z/1", b"one", None),
        track("m/2", b"two", None),
        track("b/1", b"one", None),
        track("a/2", b"two", None),
        track("solo", b"three", None),
    ]);
    let clusters = get_dupes(&index, &no_filters(), Identity::WholeFile, 2);
    assert_eq!(clusters.len(), 2);
    assert_eq!(paths(&clusters[0]), vec!["a/2", "m/2"]);
    assert_eq!(paths(&clusters[1]), vec!["b/1", "z/1"]);
    let again = get_dupes(&index, &no_filters(), Identity::WholeFile, 2);
    assert_eq!(again.len(), 2);
    assert_eq!(paths(&again[0]), paths(&clusters[0]));
    assert_eq!(paths(&again[1]), paths(&clusters[1]));
    let all = get_dupes(&index, &no_filters(), Identity::WholeFile, 1);
    assert_eq!(all.len(), 3);
    assert_eq!(paths(&all[2]), vec!["solo"]);
}

#[test]
fn pattern_clusters_skip_the_sentinel() {
    let with = analysis(42, &[]);
    let index = index_of(vec![
        track("p/1.mod", b"v1", Some(&with)),
        track("p/2.mod", b"v2", Some(&with)),
        track("q/1.bin", b"v3", None),
        track("q/2.bin", b"v4", None),
    ]);
    let clusters = get_dupes(&index, &no_filters(), Identity::Pattern, 2);
    assert_eq!(clusters.len(), 1);
    assert_eq!(paths(&clusters[0]), vec!["p/1.mod", "p/2.mod"]);
    assert!(get_dupes(&index, &no_filters(), Identity::WholeFile, 2).is_empty());
}

#[test]
fn match_tags_each_candidate_with_its_tier() {
    let tune = analysis(99, &[]);
    let index = index_of(vec![
        track("pub/same.mod", b"bytes", Some(&tune)),
        track("pub/retagged.mod", b"bytes with other title", Some(&tune)),
        track("pub/exact.bin", b"bytes", None),
        track("pub/unrelated.mod", b"zzz", Some(&analysis(5, &[]))),
    ]);
    let query = track("query.mod", b"bytes", Some(&tune));
    let found = match_track(&query, &index);
    let got: Vec<(&str, Tier, usize)> =
        found.iter().map(|f| (f.meta.filename.as_str(), f.tier, f.song_id)).collect();
    assert_eq!(
        got,
        vec![
            ("pub/exact.bin", Tier::ExactOnly, 2),
            ("pub/retagged.mod", Tier::PatternOnly, 1),
            ("pub/same.mod", Tier::Both, 0),
        ]
    );
}

#[test]
fn unparsed_file_matches_on_the_exact_tier_only() {
    let index = index_of(vec![
        track("a.mod", b"payload", Some(&analysis(0, &[]))),
        track("b.mod", b"payload", None),
        track("c.mod", b"else", None),
    ]);
    let query = track("q", b"payload", None);
    assert_eq!(query.pattern_hash, 0);
    assert_eq!(query.sha256_hash.len(), 64);
    assert!(query.samples.is_empty());
    let found = match_track(&query, &index);
    assert_eq!(found.len(), 2);
    assert!(found.iter().all(|f| f.tier == Tier::ExactOnly));
    assert_eq!(found[0].meta.filename, "a.mod");
    assert_eq!(found[1].meta.filename, "b.mod");
}

#[test]
fn record_keeps_the_reported_pattern_digest() {
    let t = track("t", b"x", Some(&analysis(0x8000_0000_0000_0005, &[])));
    assert_eq!(t.pattern_hash, 0x8000_0000_0000_0005);
    let top_bit_only = track("s", b"x", Some(&analysis(0x8000_0000_0000_0000, &[])));
    assert_eq!(top_bit_only.pattern_hash, 0x8000_0000_0000_0000);
    assert_eq!(track("u", b"x", Some(&analysis(u64::MAX, &[]))).pattern_hash, u64::MAX);
    assert_eq!(track("v", b"x", Some(&analysis(0, &[]))).pattern_hash, 0);
}

#[test]
fn pattern_tier_compares_the_whole_digest() {
    let index = index_of(vec![
        track("low.mod", b"1", Some(&analysis(5, &[]))),
        track("high.mod", b"2", Some(&analysis(0x8000_0000_0000_0005, &[]))),
        track("other.mod", b"3", Some(&analysis(6, &[]))),
        track("top.mod", b"4", Some(&analysis(0x8000_0000_0000_0000, &[]))),
        track("none.mod", b"5", None),
        track("high2.mod", b"6", Some(&analysis(0x8000_0000_0000_0005, &[]))),
    ]);
    let tagged = |query: &TrackInfo| -> Vec<(String, Tier)> {
        match_track(query, &index).into_iter().map(|f| (f.meta.filename, f.tier)).collect()
    };

    let high = track("q", b"q", Some(&analysis(0x8000_0000_0000_0005, &[])));
    assert_eq!(
        tagged(&high),
        vec![
            ("high.mod".to_string(), Tier::PatternOnly),
            ("high2.mod".to_string(), Tier::PatternOnly)
        ]
    );
    assert_eq!(paths(&index.get_files_from_pattern_hash(&high)), vec!["high.mod", "high2.mod"]);

    let low = track("q", b"q", Some(&analysis(5, &[])));
    assert_eq!(tagged(&low), vec![("low.mod".to_string(), Tier::PatternOnly)]);

    let top = track("q", b"q", Some(&analysis(0x8000_0000_0000_0000, &[])));
    assert_eq!(tagged(&top), vec![("top.mod".to_string(), Tier::PatternOnly)]);
    assert_eq!(paths(&index.get_files_from_pattern_hash(&top)), vec!["top.mod"]);

    let clusters = get_dupes(&index, &no_filters(), Identity::Pattern, 2);
    assert_eq!(clusters.len(), 1);
    assert_eq!(paths(&clusters[0]), vec!["high.mod", "high2.mod"]);
}

#[test]
fn digests_that_differ_in_the_top_bit_are_not_both() {
    let index = index_of(vec![track("same bytes.mod", b"bytes", Some(&analysis(1, &[])))]);
    let query = track("q", b"bytes", Some(&analysis(0x8000_0000_0000_0001, &[])));
    let found = match_track(&query, &index);
    assert_eq!(found.len(), 1);
    assert_eq!(found[0].tier, Tier::ExactOnly);
    assert!(index.get_files_from_pattern_hash(&query).is_empty());
}

#[test]
fn samples_are_matched_by_payload() {
    let kick: &[u8] = b"kick";
    let snare: &[u8] = b"snare";
    let index = index_of(vec![
        track("one.mod", b"1", Some(&analysis(1, &[("alpha", Some(kick)), ("silent", None)]))),
        track("two.mod", b"2", Some(&analysis(2, &[("beta", Some(snare)), ("gamma", Some(kick))]))),
    ]);
    let query = track(
        "q.mod",
        b"q",
        Some(&analysis(3, &[("my kick", Some(kick)), ("empty", Some(b"")), ("none", None)])),
    );
    assert!(query.samples[1].sha256_hash.is_none());
    assert!(query.samples[2].sha256_hash.is_none());
    let report = match_samples(&query, &index);
    assert_eq!(report.len(), 3);
    assert_eq!(report[0].query_sample_id, 1);
    assert_eq!(report[0].text, "my kick");
    let hits: Vec<(&str, &str, u32)> = report[0]
        .matching_samples
        .iter()
        .map(|m| (m.filename.as_str(), m.text.as_str(), m.sample_id))
        .collect();
    assert_eq!(hits, vec![("two.mod", "gamma", 2), ("one.mod", "alpha", 1)]);
    assert!(report[1].matching_samples.is_empty());
    assert!(report[2].matching_samples.is_empty());
}

#[test]
fn lookups_follow_index_order() {
    let tune = analysis(11, &[("s1", None), ("s2", None)]);
    let index = index_of(vec![
        track("b", b"x", Some(&tune)),
        track("a", b"x", None),
        track("c", b"y", Some(&tune)),
    ]);
    let query = track("q", b"x", Some(&tune));
    assert_eq!(paths(&index.get_files_from_sha_hash(&query)), vec!["b", "a"]);
    assert_eq!(paths(&index.get_files_from_pattern_hash(&query)), vec!["b", "c"]);
    assert_eq!(index.get_samples_from_song_id(0), vec!["s1".to_string(), "s2".to_string()]);
    assert!(index.get_samples_from_song_id(1).is_empty());
    assert!(index.get_samples_from_song_id(7).is_empty());
    let plain = track("q", b"x", None);
    assert!(index.get_files_from_pattern_hash(&plain).is_empty());
    assert_eq!(index.len(), 3);
    assert_eq!(index.track(2).filename, "c");
}

#[test]
fn filter_keeps_tags_of_surviving_matches() {
    let tune = analysis(99, &[("Ripped from a game", None)]);
    let index = index_of(vec![
        track("pub/b.mod", b"bytes", Some(&tune)),
        track("pub/a.xm", b"other", Some(&tune)),
        track("fav/c.mod", b"bytes", None),
    ]);
    let query = track("q", b"bytes", Some(&tune));
    let found = match_track(&query, &index);
    assert_eq!(found.len(), 3);

    let mut a = FilterArgs {
        include_paths: "pub/".to_string(),
        include_file_extensions: String::new(),
        exclude_paths: String::new(),
        exclude_file_extensions: String::new(),
        include_sample_name: "ripped".to_string(),
        search_filename: String::new(),
    };
    let kept = filter_matches(&Filters::new(&a).unwrap(), &found, 1);
    let got: Vec<(&str, Tier)> = kept.iter().map(|f| (f.meta.filename.as_str(), f.tier)).collect();
    assert_eq!(got, vec![("pub/a.xm", Tier::PatternOnly), ("pub/b.mod", Tier::Both)]);
    assert!(filter_matches(&Filters::new(&a).unwrap(), &found, 3).is_empty());

    a.include_sample_name = "never there".to_string();
    assert!(filter_matches(&Filters::new(&a).unwrap(), &found, 1).is_empty());
}

#[test]
fn equal_paths_keep_index_order() {
    let index = index_of(vec![
        track("same", b"x", Some(&analysis(1, &[]))),
        track("same", b"x", None),
        track("a", b"x", None),
    ]);
    let found = match_track(&track("q", b"x", Some(&analysis(1, &[]))), &index);
    let got: Vec<(usize, Tier)> = found.iter().map(|f| (f.song_id, f.tier)).collect();
    assert_eq!(got, vec![(2, Tier::ExactOnly), (0, Tier::Both), (1, Tier::ExactOnly)]);
}

#[test]
fn paths_are_ordered_by_code_point() {
    let keys: Vec<String> =
        ["b", "a", "", "ab", "B", "a", "\u{e9}", "z"].iter().map(|s| s.to_string()).collect();
    assert_eq!(sorted_positions(&keys, false), vec![2, 4, 1, 5, 3, 0, 7, 6]);
    assert_eq!(sorted_positions(&keys, true), vec![6, 7, 0, 3, 1, 5, 4, 2]);
    assert!(sorted_positions(&Vec::new(), false).is_empty());
}

#[test]
fn filtered_clusters_respect_the_minimum_size() {
    let index = index_of(vec![
        track("keep/a.mod", b"x", None),
        track("drop/b.mod", b"x", None),
        track("keep/c.mod", b"x", None),
        track("keep/d.mod", b"y", None),
        track("drop/e.mod", b"y", None),
    ]);
    let filters = Filters::new(&FilterArgs {
        include_paths: String::new(),
        include_file_extensions: String::new(),
        exclude_paths: "drop/".to_string(),
        exclude_file_extensions: String::new(),
        include_sample_name: String::new(),
        search_filename: String::new(),
    })
    .unwrap();
    let clusters = get_dupes(&index, &filters, Identity::WholeFile, 2);
    assert_eq!(clusters.len(), 1);
    assert_eq!(paths(&clusters[0]), vec!["keep/a.mod", "keep/c.mod"]);
    assert!(get_dupes(&index, &filters, Identity::WholeFile, 3).is_empty());
    assert!(get_dupes(&index_of(Vec::new()), &filters, Identity::WholeFile, 0).is_empty());
}

#[test]
fn clusters_piece_by_piece() {
    let index = index_of(vec![
        track("b", b"x", Some(&analysis(3, &[("s", None)]))),
        track("c", b"y", Some(&analysis(3, &[]))),
        track("a", b"x", None),
    ]);
    assert!(is_leader(&index, Identity::WholeFile, 0));
    assert!(is_leader(&index, Identity::WholeFile, 1));
    assert!(!is_leader(&index, Identity::WholeFile, 2));
    assert!(is_leader(&index, Identity::Pattern, 0));
    assert!(!is_leader(&index, Identity::Pattern, 1));
    assert!(!is_leader(&index, Identity::Pattern, 2));

    assert_eq!(paths(&cluster_of(&index, Identity::WholeFile, 2)), vec!["b", "a"]);
    assert_eq!(paths(&cluster_of(&index, Identity::Pattern, 1)), vec!["b", "c"]);
    assert!(cluster_of(&index, Identity::Pattern, 2).is_empty());
    assert_eq!(cluster_of(&index, Identity::Pattern, 0)[0].samples, vec!["s".to_string()]);

    let filters = no_filters();
    let exact = cluster_for(&index, &filters, Identity::WholeFile, 2, 0).unwrap();
    assert_eq!(paths(&exact), vec!["a", "b"]);
    assert!(cluster_for(&index, &filters, Identity::WholeFile, 2, 1).is_none());
    assert!(cluster_for(&index, &filters, Identity::WholeFile, 2, 2).is_none());
    assert!(cluster_for(&index, &filters, Identity::WholeFile, 3, 0).is_none());
    assert_eq!(paths(&cluster_for(&index, &filters, Identity::WholeFile, 0, 1).unwrap()), vec!["c"]);

    let sorted = sort_by_filename(&cluster_of(&index, Identity::WholeFile, 0));
    assert_eq!(paths(&sorted), vec!["a", "b"]);
    let clusters = sort_clusters(&vec![
        cluster_of(&index, Identity::WholeFile, 1),
        sort_by_filename(&cluster_of(&index, Identity::WholeFile, 0)),
    ]);
    assert_eq!(paths(&clusters[0]), vec!["a", "b"]);
    assert_eq!(paths(&clusters[1]), vec!["c"]);
}

#[test]
fn sample_lookup_piece_by_piece() {
    let kick: &[u8] = b"kick";
    let index = index_of(vec![
        track("one.mod", b"1", Some(&analysis(1, &[("b", Some(kick)), ("a", Some(kick))]))),
        track("two.mod", b"2", Some(&analysis(2, &[("c", Some(kick)), ("b", Some(kick))]))),
    ]);
    let query = track("q", b"q", Some(&analysis(9, &[("mine", Some(kick))])));
    let digest = query.samples[0].sha256_hash.clone().unwrap();
    let hits: Vec<(String, String, u32)> = find_samples(&digest, &index)
        .into_iter()
        .map(|h| (h.filename, h.text, h.sample_id))
        .collect();
    assert_eq!(
        hits,
        vec![
            ("one.mod".to_string(), "b".to_string(), 1),
            ("one.mod".to_string(), "a".to_string(), 2),
            ("two.mod".to_string(), "c".to_string(), 1),
            ("two.mod".to_string(), "b".to_string(), 2),
        ]
    );
    let ordered: Vec<(String, String)> = match_sample(&query.samples[0], &index)
        .into_iter()
        .map(|h| (h.filename, h.text))
        .collect();
    assert_eq!(
        ordered,
        vec![
            ("two.mod".to_string(), "c".to_string()),
            ("one.mod".to_string(), "b".to_string()),
            ("two.mod".to_string(), "b".to_string()),
            ("one.mod".to_string(), "a".to_string()),
        ]
    );
    assert!(find_samples(&"no such digest".to_string(), &index).is_empty());
}
