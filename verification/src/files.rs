//! The file enumerator's decisions: whether a root has to be walked, how
//! deep, and which of the entries found are candidate files. Walking the
//! directory itself is the caller's part.

use vstd::prelude::*;
use crate::filter::{any_suffix, ends_with};
use crate::seq_lemmas::{lemma_filter_take_step, lemma_filter_take_zero};

verus! {

/// What the root path of an enumeration names.
#[derive(Debug, Clone, Copy, PartialEq, Eq, Structural)]
pub enum RootKind {
    /// Nothing exists at the path.
    Missing,
    /// A regular file.
    File,
    /// Anything else that exists: a directory to walk.
    Directory,
}

/// One entry met while walking a directory.
pub struct WalkEntry {
    pub path: String,
    /// Whether the entry is a regular file.
    pub is_file: bool,
}

pub ghost struct WalkEntryView {
    pub path: Seq<char>,
    pub is_file: bool,
}

impl View for WalkEntry {
    type V = WalkEntryView;

    open spec fn view(&self) -> WalkEntryView {
        WalkEntryView { path: self.path@, is_file: self.is_file }
    }
}

impl DeepView for WalkEntry {
    type V = WalkEntryView;

    open spec fn deep_view(&self) -> WalkEntryView {
        self@
    }
}

/// Whether an entry is a candidate: a regular file whose path ends in none
/// of the skipped extensions.
pub open spec fn is_candidate(entry: WalkEntryView, skip: Seq<Seq<char>>) -> bool {
    entry.is_file && !any_suffix(entry.path, skip, false)
}

/// The candidate paths of an enumeration. A missing root yields nothing, a
/// regular file yields itself whatever its extension, and a directory
/// yields the candidates among the entries walked, in their order.
pub open spec fn files_of(
    root: Seq<char>,
    kind: RootKind,
    walked: Seq<WalkEntryView>,
    skip: Seq<Seq<char>>,
) -> Seq<Seq<char>> {
    match kind {
        RootKind::Missing => Seq::empty(),
        RootKind::File => seq![root],
        RootKind::Directory => walked.filter(|e: WalkEntryView| is_candidate(e, skip)).map_values(
            |e: WalkEntryView| e.path,
        ),
    }
}

/// The extensions that are skipped when nothing else is configured: the
/// listing files that accompany an archive.
pub fn default_skip_extensions() -> (r: Vec<String>)
    ensures
        r.deep_view() == seq![".listing"@],
{
    let mut skip: Vec<String> = Vec::new();
    skip.push(".listing".to_owned());
    assert(skip.deep_view() =~= seq![".listing"@]);
    skip
}

/// How deep a root has to be walked: not at all unless it is a directory,
/// the directory itself only unless the enumeration is recursive, and
/// without limit otherwise.
pub fn walk_depth(kind: RootKind, recurse: bool) -> (r: Option<usize>)
    ensures
        r == match kind {
            RootKind::Directory => Some(
                if recurse {
                    usize::MAX
                } else {
                    1usize
                },
            ),
            _ => None::<usize>,
        },
{
    match kind {
        RootKind::Directory => Some(
            if recurse {
                usize::MAX
            } else {
                1
            },
        ),
        _ => None,
    }
}

/// Selects the candidate files of an enumeration. `walked` holds the
/// entries met below the root; it is looked at only for a directory.
pub fn get_files(path: &str, kind: RootKind, walked: &Vec<WalkEntry>, skip: &Vec<String>) -> (r:
    Vec<String>)
    ensures
        r.deep_view() == files_of(path@, kind, walked.deep_view(), skip.deep_view()),
{
    let mut files: Vec<String> = Vec::new();
    match kind {
        RootKind::Missing => {
            assert(files.deep_view() =~= Seq::<Seq<char>>::empty());
        },
        RootKind::File => {
            files.push(path.to_owned());
            assert(files.deep_view() =~= seq![path@]);
        },
        RootKind::Directory => {
            let ghost all = walked.deep_view();
            let ghost pred = |e: WalkEntryView| is_candidate(e, skip.deep_view());
            let ghost name = |e: WalkEntryView| e.path;
            let mut i: usize = 0;
            proof {
                lemma_filter_take_zero(all, pred);
                assert(files.deep_view() =~= all.take(0).filter(pred).map_values(name));
            }
            while i < walked.len()
                invariant
                    i <= walked.len(),
                    all == walked.deep_view(),
                    pred == |e: WalkEntryView| is_candidate(e, skip.deep_view()),
                    name == |e: WalkEntryView| e.path,
                    files.deep_view() == all.take(i as int).filter(pred).map_values(name),
                decreases walked.len() - i,
            {
                let ghost before = files.deep_view();
                proof {
                    lemma_filter_take_step(all, i as int, pred);
                }
                let entry = &walked[i];
                if entry.is_file && !ends_with(entry.path.as_str(), skip, false) {
                    files.push(entry.path.clone());
                    assert(files.deep_view() =~= before.push(all[i as int].path));
                    assert(all.take(i as int).filter(pred).push(all[i as int]).map_values(name)
                        =~= before.push(all[i as int].path));
                }
                i += 1;
            }
            assert(all.take(i as int) =~= all);
        },
    }
    files
}

} // verus!
