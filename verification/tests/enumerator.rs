use modland_hash::cache::{find_cached, CacheEntry};
use modland_hash::files::{default_skip_extensions, get_files, walk_depth, RootKind, WalkEntry};
use modland_hash::filter::{ends_with, starts_with, FilterArgs, Filters};
use modland_hash::outline::{matching_lines, measure_outline, Outline};
use modland_hash::snapshot::{payload, version_tag, SnapshotError};
use modland_hash::track::get_track_info;

fn entry(path: &str, is_file: bool) -> WalkEntry {
    WalkEntry { path: path.to_string(), is_file }
}

fn strings(items: &[&str]) -> Vec<String> {
    items.iter().map(|s| s.to_string()).collect()
}

#[test]
fn missing_root_yields_nothing() {
    let walked = vec![entry("ghost", true)];
    assert!(get_files("nowhere", RootKind::Missing, &walked, &default_skip_extensions()).is_empty());
    assert_eq!(walk_depth(RootKind::Missing, true), None);
}

#[test]
fn file_root_yields_itself() {
    let skip = default_skip_extensions();
    assert_eq!(get_files("one.mod", RootKind::File, &Vec::new(), &skip), strings(&["one.mod"]));
    assert_eq!(
        get_files("dir.listing", RootKind::File, &Vec::new(), &skip),
        strings(&["dir.listing"])
    );
    assert_eq!(walk_depth(RootKind::File, false), None);
}

#[test]
fn directory_yields_regular_files_but_no_sidecars() {
    let walked = vec![
        entry("root", false),
        entry("root/a.mod", true),
        entry("root/allmods.listing", true),
        entry("root/sub", false),
        entry("root/sub/b.xm", true),
        entry("root/listing", true),
    ];
    assert_eq!(
        get_files("root", RootKind::Directory, &walked, &default_skip_extensions()),
        strings(&["root/a.mod", "root/sub/b.xm", "root/listing"])
    );
    assert_eq!(
        get_files("root", RootKind::Directory, &walked, &strings(&[".mod", ".xm"])),
        strings(&["root/allmods.listing", "root/listing"])
    );
    assert_eq!(get_files("root", RootKind::Directory, &walked, &Vec::new()).len(), 4);
}

#[test]
fn depth_follows_the_recursive_flag() {
    assert_eq!(walk_depth(RootKind::Directory, false), Some(1));
    assert_eq!(walk_depth(RootKind::Directory, true), Some(usize::MAX));
}

#[test]
fn prefix_and_suffix_lists() {
    let tests = strings(&["/pub", "/incoming"]);
    assert!(starts_with("/pub/a.mod", &tests, false));
    assert!(starts_with("/incoming", &tests, false));
    assert!(!starts_with("/other/pub", &tests, true));
    assert!(starts_with("/other", &Vec::new(), true));
    assert!(!starts_with("/other", &Vec::new(), false));
    let exts = strings(&[".mod", ".xm"]);
    assert!(ends_with("a.xm", &exts, false));
    assert!(!ends_with("a.xm.bak", &exts, true));
    assert!(!ends_with("mod", &exts, false));
    assert!(ends_with("anything", &Vec::new(), true));
}

#[test]
fn options_are_split_at_commas() {
    assert!(Filters::init_filter("", ".").is_empty());
    assert_eq!(Filters::init_filter("mod", "."), strings(&[".mod"]));
    assert_eq!(Filters::init_filter("mod,xm", "."), strings(&[".mod", ".xm"]));
    assert_eq!(Filters::init_filter("a,,b,", ""), strings(&["a", "", "b", ""]));
    assert_eq!(Filters::init_filter(",", "/"), strings(&["/", "/"]));
}

#[test]
fn configuration_is_taken_over() {
    let f = Filters::new(&FilterArgs {
        include_paths: "/pub,/incoming".to_string(),
        include_file_extensions: "mod,xm".to_string(),
        exclude_paths: "/pub/favourites".to_string(),
        exclude_file_extensions: "mdx".to_string(),
        include_sample_name: "Rip.*".to_string(),
        search_filename: String::new(),
    })
    .unwrap();
    assert_eq!(f.include_paths, strings(&["/pub", "/incoming"]));
    assert_eq!(f.include_file_extensions, strings(&[".mod", ".xm"]));
    assert_eq!(f.exclude_paths, strings(&["/pub/favourites"]));
    assert_eq!(f.exclude_file_extensions, strings(&[".mdx"]));
    assert_eq!(f.sample_search.as_ref().map(|re| re.as_str()), Some("(?i)Rip.*"));
    assert!(f.search_filename.is_none());
    assert!(f.passes("/pub/a.mod"));
    assert!(!f.passes("/pub/favourites/a.mod"));
    assert!(!f.passes("/pub/a.mdx"));
    assert!(!f.passes("/elsewhere/a.mod"));
    assert!(!f.passes("/pub/a.it"));
}

#[test]
fn snapshot_version_is_checked() {
    let snapshot = [0x00, 0x00, 0x01, 0x02, 9, 8, 7];
    assert_eq!(version_tag(&snapshot), Some(258));
    assert_eq!(payload(&snapshot, 258), Ok(&snapshot[4..]));
    assert_eq!(payload(&snapshot, 259), Err(SnapshotError::VersionMismatch));
    assert_eq!(version_tag(&[0xff, 0xff, 0xff, 0xff]), Some(u32::MAX));
    assert_eq!(version_tag(&[0x12, 0x34, 0x56, 0x78]), Some(0x1234_5678));
    assert_eq!(payload(&[0, 0, 0, 1], 1), Ok(&[][..]));
    assert_eq!(version_tag(&[1, 2, 3]), None);
    assert_eq!(payload(&[1, 2, 3], 0), Err(SnapshotError::VersionMismatch));
    assert_eq!(payload(&[], 0), Err(SnapshotError::VersionMismatch));
}

#[test]
fn cache_reuses_unchanged_files_only() {
    let cache = vec![
        CacheEntry { modified: 100, track: get_track_info("a.mod", b"a", None) },
        CacheEntry { modified: 200, track: get_track_info("b.mod", b"b", None) },
        CacheEntry { modified: 300, track: get_track_info("a.mod", b"later", None) },
    ];
    assert_eq!(find_cached(&cache, &"a.mod".to_string(), 100), Some(0));
    assert_eq!(find_cached(&cache, &"b.mod".to_string(), 200), Some(1));
    assert_eq!(find_cached(&cache, &"b.mod".to_string(), 201), None);
    assert_eq!(find_cached(&cache, &"a.mod".to_string(), 300), None);
    assert_eq!(find_cached(&cache, &"c.mod".to_string(), 100), None);
    assert_eq!(find_cached(&Vec::new(), &"a.mod".to_string(), 100), None);
}

#[test]
fn outline_measures_the_frame() {
    assert_eq!(measure_outline(&Vec::new()), None);
    assert_eq!(
        measure_outline(&strings(&["ab", "", "abcd", "", ""])),
        Some(Outline { width: 6, rows: 3 })
    );
    assert_eq!(measure_outline(&strings(&["", ""])), Some(Outline { width: 2, rows: 1 }));
    assert_eq!(measure_outline(&strings(&["\u{e5}\u{e4}\u{f6}"])), Some(Outline { width: 5, rows: 1 }));
}

#[test]
fn outline_marks_matching_lines() {
    let f = Filters::new(&FilterArgs {
        include_paths: String::new(),
        include_file_extensions: String::new(),
        exclude_paths: String::new(),
        exclude_file_extensions: String::new(),
        include_sample_name: "^ripped".to_string(),
        search_filename: String::new(),
    })
    .unwrap();
    let re = f.sample_search.unwrap();
    assert_eq!(
        matching_lines(&strings(&["Ripped by X", "not ripped", "", "RIPPED"]), &re),
        vec![true, false, false, true]
    );
}
