use modland_hash::digest::{content_digest, to_hex};
use modland_hash::filter::{
    any_filename_matches, any_line_matches, any_sample_matches, clone_texts, group_verdict,
    DatabaseMeta, FilterArgs, FilterError, Filters,
};

fn args() -> FilterArgs {
    FilterArgs {
        include_paths: String::new(),
        include_file_extensions: String::new(),
        exclude_paths: String::new(),
        exclude_file_extensions: String::new(),
        include_sample_name: String::new(),
        search_filename: String::new(),
    }
}

fn meta(filename: &str, samples: &[&str]) -> DatabaseMeta {
    DatabaseMeta {
        filename: filename.to_string(),
        samples: samples.iter().map(|s| s.to_string()).collect(),
    }
}

fn names(group: &[DatabaseMeta]) -> Vec<String> {
    group.iter().map(|m| m.filename.clone()).collect()
}

#[test]
fn include_extensions_retain_only_listed() {
    let mut a = args();
    a.include_file_extensions = "mod".to_string();
    let filters = Filters::new(&a).unwrap();
    let group = vec![meta("x.mod", &[]), meta("y.xm", &[])];
    let out = filters.apply_filter(&group, 1);
    assert_eq!(names(&out), vec!["x.mod".to_string()]);
}

#[test]
fn sample_pattern_without_match_discards_group() {
    let mut a = args();
    a.include_sample_name = "ripped".to_string();
    let filters = Filters::new(&a).unwrap();
    let group = vec![meta("a.mod", &["bass", "lead"]), meta("b.mod", &["drum loop"])];
    assert!(filters.apply_filter(&group, 2).is_empty());
    assert!(filters.apply_filter(&group, 1).is_empty());
}

#[test]
fn sample_pattern_is_case_insensitive() {
    let mut a = args();
    a.include_sample_name = "RIPPED".to_string();
    let filters = Filters::new(&a).unwrap();
    let group = vec![meta("a.mod", &["bass", "Ripped by someone"]), meta("b.mod", &[])];
    let out = filters.apply_filter(&group, 2);
    assert_eq!(names(&out), vec!["a.mod".to_string(), "b.mod".to_string()]);
    assert!(filters.apply_filter(&group, 3).is_empty());
}

#[test]
fn patterns_keep_their_own_meaning() {
    let mut a = args();
    a.include_sample_name = r"^\S+ Ripped$".to_string();
    let filters = Filters::new(&a).unwrap();
    assert_eq!(filters.apply_filter(&vec![meta("a", &["x RIPPED"])], 1).len(), 1);
    assert!(filters.apply_filter(&vec![meta("a", &["  ripped"])], 1).is_empty());

    let mut b = args();
    b.search_filename = r"(?P<Name>[A-Z]+)\.MOD$".to_string();
    let named = Filters::new(&b).unwrap();
    assert_eq!(named.apply_filter(&vec![meta("pub/north.mod", &[])], 1).len(), 1);
    assert!(named.apply_filter(&vec![meta("pub/123.mod", &[])], 1).is_empty());

    let mut c = args();
    c.include_sample_name = r"\W".to_string();
    let non_word = Filters::new(&c).unwrap();
    assert!(non_word.apply_filter(&vec![meta("a", &["word"])], 1).is_empty());
    assert_eq!(non_word.apply_filter(&vec![meta("a", &["two words"])], 1).len(), 1);
}

#[test]
fn an_escape_that_is_only_valid_in_lower_case_is_refused() {
    let mut a = args();
    a.search_filename = r"end\Z".to_string();
    assert!(matches!(Filters::new(&a), Err(FilterError::InvalidFilename)));
    let mut b = args();
    b.search_filename = r"end\z".to_string();
    assert!(Filters::new(&b).is_ok());
}

#[test]
fn invalid_patterns_are_refused() {
    let mut a = args();
    a.include_sample_name = "foo(bar".to_string();
    assert!(matches!(Filters::new(&a), Err(FilterError::InvalidSampleName)));
    let mut b = args();
    b.search_filename = "[".to_string();
    assert!(matches!(Filters::new(&b), Err(FilterError::InvalidFilename)));
}

#[test]
fn digest_of_empty_input() {
    assert_eq!(
        content_digest(b""),
        "e3b0c44298fc1c149afbf4c8996fb92427ae41e4649b934ca495991b7852b855"
    );
    assert_eq!(to_hex(&[0x0a, 0x14, 0x1e, 0xff]), "0a141eff");
}

#[test]
fn filename_pattern_keeps_the_whole_group() {
    let mut a = args();
    a.search_filename = "north".to_string();
    let filters = Filters::new(&a).unwrap();
    let group = vec![meta("pub/True North.mod", &[]), meta("pub/south.mod", &["x"])];
    assert_eq!(
        names(&filters.apply_filter(&group, 2)),
        vec!["pub/True North.mod".to_string(), "pub/south.mod".to_string()]
    );
    assert!(filters.apply_filter(&group, 3).is_empty());
    let other = vec![meta("pub/east.mod", &["north"]), meta("pub/west.mod", &[])];
    assert!(filters.apply_filter(&other, 1).is_empty());
}

#[test]
fn gates_look_at_retained_members_only() {
    let mut a = args();
    a.search_filename = "north".to_string();
    a.exclude_paths = "old/".to_string();
    let filters = Filters::new(&a).unwrap();
    let group = vec![meta("old/north.mod", &[]), meta("new/south.mod", &[])];
    assert!(filters.apply_filter(&group, 1).is_empty());
}

#[test]
fn both_patterns_must_hold() {
    let mut a = args();
    a.search_filename = "north".to_string();
    a.include_sample_name = "ripped".to_string();
    let filters = Filters::new(&a).unwrap();
    let hit = vec![meta("north.mod", &["plain"]), meta("b.mod", &["ripped by"])];
    assert_eq!(filters.apply_filter(&hit, 1).len(), 2);
    let no_sample = vec![meta("north.mod", &["plain"]), meta("b.mod", &[])];
    assert!(filters.apply_filter(&no_sample, 1).is_empty());
    let no_name = vec![meta("a.mod", &["ripped"])];
    assert!(filters.apply_filter(&no_name, 1).is_empty());
}

#[test]
fn cardinality_gate() {
    let filters = Filters::new(&args()).unwrap();
    let group = vec![meta("a", &[]), meta("b", &[]), meta("c", &[])];
    for n in 0..=3 {
        assert_eq!(filters.apply_filter(&group, n).len(), 3);
    }
    assert!(filters.apply_filter(&group, 4).is_empty());
    assert!(filters.apply_filter(&Vec::new(), 0).is_empty());
    let mut a = args();
    a.exclude_file_extensions = "mdx,pdx".to_string();
    let excluding = Filters::new(&a).unwrap();
    let mixed = vec![meta("a.mdx", &[]), meta("a.pdx", &[]), meta("a.mod", &[])];
    assert_eq!(names(&excluding.apply_filter(&mixed, 1)), vec!["a.mod".to_string()]);
    assert!(excluding.apply_filter(&mixed, 2).is_empty());
}

#[test]
fn verdict_on_given_gate_outcomes() {
    let group = || vec![meta("a", &[]), meta("b", &[])];
    assert_eq!(group_verdict(group(), None, None, 2).len(), 2);
    assert!(group_verdict(group(), None, None, 3).is_empty());
    assert!(group_verdict(group(), Some(false), None, 0).is_empty());
    assert!(group_verdict(group(), Some(false), Some(true), 0).is_empty());
    assert_eq!(group_verdict(group(), Some(true), None, 2).len(), 2);
    assert!(group_verdict(group(), Some(true), None, 3).is_empty());
    assert_eq!(group_verdict(group(), Some(true), Some(true), 2).len(), 2);
    assert!(group_verdict(group(), None, Some(false), 0).is_empty());
    assert!(group_verdict(group(), None, Some(true), 3).is_empty());
}

#[test]
fn pipeline_piece_by_piece() {
    let mut a = args();
    a.include_paths = "pub/".to_string();
    a.include_sample_name = "ripped".to_string();
    a.search_filename = "north".to_string();
    let filters = Filters::new(&a).unwrap();
    let group = vec![
        meta("pub/North.mod", &["one", "two"]),
        meta("tmp/north.mod", &["ripped"]),
        meta("pub/b.mod", &["x", "RIPPED by y"]),
    ];
    let kept = filters.retain(&group);
    assert_eq!(names(&kept), vec!["pub/North.mod".to_string(), "pub/b.mod".to_string()]);
    assert_eq!(kept[1].samples, vec!["x".to_string(), "RIPPED by y".to_string()]);
    let name_re = filters.search_filename.as_ref().unwrap();
    let sample_re = filters.sample_search.as_ref().unwrap();
    assert!(any_filename_matches(name_re, &kept));
    assert!(!any_filename_matches(name_re, &kept[1..].to_vec_of()));
    assert!(any_sample_matches(sample_re, &kept));
    assert!(!any_sample_matches(sample_re, &kept[..1].to_vec_of()));
    assert!(any_line_matches(sample_re, &kept[1].samples));
    assert!(!any_line_matches(sample_re, &kept[0].samples));
    assert!(!any_line_matches(sample_re, &Vec::new()));
    let copy = group[0].duplicate();
    assert_eq!(copy.filename, "pub/North.mod");
    assert_eq!(copy.samples, group[0].samples);
    assert_eq!(clone_texts(&group[2].samples), group[2].samples);
}

trait ToVecOf {
    fn to_vec_of(&self) -> Vec<DatabaseMeta>;
}

impl ToVecOf for [DatabaseMeta] {
    fn to_vec_of(&self) -> Vec<DatabaseMeta> {
        self.iter().map(|m| m.duplicate()).collect()
    }
}
