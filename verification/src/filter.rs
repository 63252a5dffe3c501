//! The filter pipeline: structural predicates on a path, followed by gates
//! that keep or discard a candidate group as a whole.

use vstd::prelude::*;
use crate::pattern::{compile, is_match, regex_is_match, regex_new};
use crate::seq_lemmas::{lemma_filter_take_step, lemma_filter_take_zero};
use crate::text::{split_on, str_ends_with, str_split, str_starts_with};

verus! {

/// One indexed file as a query sees it: its path and the descriptive text
/// of its samples.
pub struct DatabaseMeta {
    pub filename: String,
    pub samples: Vec<String>,
}

/// The mathematical content of a [`DatabaseMeta`].
pub ghost struct MetaView {
    pub filename: Seq<char>,
    pub samples: Seq<Seq<char>>,
}

impl View for DatabaseMeta {
    type V = MetaView;

    open spec fn view(&self) -> MetaView {
        MetaView { filename: self.filename@, samples: self.samples.deep_view() }
    }
}

impl DeepView for DatabaseMeta {
    type V = MetaView;

    open spec fn deep_view(&self) -> MetaView {
        self@
    }
}

/// Copies a list of texts.
pub fn clone_texts(texts: &Vec<String>) -> (r: Vec<String>)
    ensures
        r.deep_view() == texts.deep_view(),
{
    let mut out: Vec<String> = Vec::new();
    let mut i: usize = 0;
    while i < texts.len()
        invariant
            i <= texts.len(),
            out.len() == i,
            forall|k: int| 0 <= k < i ==> out[k]@ == texts[k]@,
        decreases texts.len() - i,
    {
        out.push(texts[i].clone());
        i += 1;
    }
    assert(out.deep_view() =~= texts.deep_view());
    out
}

impl DatabaseMeta {
    /// An independent copy with the same content.
    pub fn duplicate(&self) -> (r: DatabaseMeta)
        ensures
            r@ == self@,
    {
        DatabaseMeta { filename: self.filename.clone(), samples: clone_texts(&self.samples) }
    }
}

/// Whether one of `tests` opens `name`; `default_val` when there are none.
pub open spec fn any_prefix(name: Seq<char>, tests: Seq<Seq<char>>, default_val: bool) -> bool {
    if tests.len() == 0 {
        default_val
    } else {
        exists|i: int| 0 <= i < tests.len() && (#[trigger] tests[i]).is_prefix_of(name)
    }
}

/// Whether one of `tests` closes `name`; `default_val` when there are none.
pub open spec fn any_suffix(name: Seq<char>, tests: Seq<Seq<char>>, default_val: bool) -> bool {
    if tests.len() == 0 {
        default_val
    } else {
        exists|i: int| 0 <= i < tests.len() && (#[trigger] tests[i]).is_suffix_of(name)
    }
}

/// Tests a path against a list of prefixes.
pub fn starts_with(filename: &str, tests: &Vec<String>, default_val: bool) -> (b: bool)
    ensures
        b == any_prefix(filename@, tests.deep_view(), default_val),
{
    if tests.len() == 0 {
        return default_val;
    }
    let mut i: usize = 0;
    while i < tests.len()
        invariant
            i <= tests.len(),
            forall|k: int| 0 <= k < i ==> !(#[trigger] tests.deep_view()[k]).is_prefix_of(filename@),
        decreases tests.len() - i,
    {
        if str_starts_with(filename, tests[i].as_str()) {
            assert(tests.deep_view()[i as int].is_prefix_of(filename@));
            return true;
        }
        i += 1;
    }
    false
}

/// Tests a path against a list of suffixes.
pub fn ends_with(filename: &str, tests: &Vec<String>, default_val: bool) -> (b: bool)
    ensures
        b == any_suffix(filename@, tests.deep_view(), default_val),
{
    if tests.len() == 0 {
        return default_val;
    }
    let mut i: usize = 0;
    while i < tests.len()
        invariant
            i <= tests.len(),
            forall|k: int| 0 <= k < i ==> !(#[trigger] tests.deep_view()[k]).is_suffix_of(filename@),
        decreases tests.len() - i,
    {
        if str_ends_with(filename, tests[i].as_str()) {
            assert(tests.deep_view()[i as int].is_suffix_of(filename@));
            return true;
        }
        i += 1;
    }
    false
}

/// Whether the expression matches the path of some member.
pub open spec fn filename_hit(re: regex::Regex, group: Seq<MetaView>) -> bool {
    exists|i: int|
        0 <= i < group.len() && regex_is_match(re, (#[trigger] group[i]).filename)
}

/// Whether the expression matches one of the lines.
pub open spec fn line_hit(re: regex::Regex, lines: Seq<Seq<char>>) -> bool {
    exists|j: int| 0 <= j < lines.len() && regex_is_match(re, #[trigger] lines[j])
}

/// Whether the expression matches a sample text line of some member.
pub open spec fn sample_hit(re: regex::Regex, group: Seq<MetaView>) -> bool {
    exists|i: int| 0 <= i < group.len() && line_hit(re, (#[trigger] group[i]).samples)
}

/// The verdict on a group once the structural filter has run and the
/// content gates have been evaluated. A gate that is not configured is
/// `None`. The group survives unchanged or is discarded as a whole.
pub open spec fn gated(
    kept: Seq<MetaView>,
    name_gate: Option<bool>,
    sample_gate: Option<bool>,
    minimum_count: int,
) -> Seq<MetaView> {
    if name_gate == Some(false) {
        Seq::empty()
    } else if sample_gate is Some {
        if sample_gate == Some(true) && kept.len() >= minimum_count {
            kept
        } else {
            Seq::empty()
        }
    } else if kept.len() >= minimum_count {
        kept
    } else {
        Seq::empty()
    }
}

/// Applies the gates' outcomes to a structurally filtered group.
pub fn group_verdict(
    kept: Vec<DatabaseMeta>,
    name_gate: Option<bool>,
    sample_gate: Option<bool>,
    skip_level: usize,
) -> (r: Vec<DatabaseMeta>)
    ensures
        r.deep_view() == gated(kept.deep_view(), name_gate, sample_gate, skip_level as int),
{
    let keep = match name_gate {
        Some(false) => false,
        _ => match sample_gate {
            Some(hit) => hit && kept.len() >= skip_level,
            None => kept.len() >= skip_level,
        },
    };
    if keep {
        kept
    } else {
        let none: Vec<DatabaseMeta> = Vec::new();
        assert(none.deep_view() =~= Seq::<MetaView>::empty());
        none
    }
}

/// Scans a group for a member whose path the expression matches.
pub fn any_filename_matches(re: &regex::Regex, group: &Vec<DatabaseMeta>) -> (b: bool)
    ensures
        b == filename_hit(*re, group.deep_view()),
{
    let mut i: usize = 0;
    while i < group.len()
        invariant
            i <= group.len(),
            forall|k: int|
                0 <= k < i ==> !regex_is_match(*re, (#[trigger] group.deep_view()[k]).filename),
        decreases group.len() - i,
    {
        if is_match(re, group[i].filename.as_str()) {
            assert(regex_is_match(*re, group.deep_view()[i as int].filename));
            return true;
        }
        i += 1;
    }
    false
}

/// Scans text lines for one that the expression matches.
pub fn any_line_matches(re: &regex::Regex, lines: &Vec<String>) -> (b: bool)
    ensures
        b == line_hit(*re, lines.deep_view()),
{
    let mut j: usize = 0;
    while j < lines.len()
        invariant
            j <= lines.len(),
            forall|k: int|
                0 <= k < j ==> !regex_is_match(*re, #[trigger] lines.deep_view()[k]),
        decreases lines.len() - j,
    {
        if is_match(re, lines[j].as_str()) {
            assert(regex_is_match(*re, lines.deep_view()[j as int]));
            return true;
        }
        j += 1;
    }
    false
}

/// Scans every member's sample text for a line the expression matches.
pub fn any_sample_matches(re: &regex::Regex, group: &Vec<DatabaseMeta>) -> (b: bool)
    ensures
        b == sample_hit(*re, group.deep_view()),
{
    let mut i: usize = 0;
    while i < group.len()
        invariant
            i <= group.len(),
            forall|k: int| 0 <= k < i ==> !line_hit(*re, (#[trigger] group.deep_view()[k]).samples),
        decreases group.len() - i,
    {
        if any_line_matches(re, &group[i].samples) {
            assert(line_hit(*re, group.deep_view()[i as int].samples));
            return true;
        }
        i += 1;
    }
    false
}

/// The filter configuration as it is written down: comma-separated lists
/// and regular expressions, each empty when the option is not used.
pub struct FilterArgs {
    pub include_paths: String,
    pub include_file_extensions: String,
    pub exclude_paths: String,
    pub exclude_file_extensions: String,
    pub include_sample_name: String,
    pub search_filename: String,
}

/// Why a filter configuration is refused.
#[derive(Debug, Clone, Copy, PartialEq, Eq, Structural)]
pub enum FilterError {
    /// The expression for sample text does not compile.
    InvalidSampleName,
    /// The expression for file names does not compile.
    InvalidFilename,
}

/// A validated filter configuration.
pub struct Filters {
    pub include_paths: Vec<String>,
    pub include_file_extensions: Vec<String>,
    pub exclude_paths: Vec<String>,
    pub exclude_file_extensions: Vec<String>,
    pub sample_search: Option<regex::Regex>,
    pub search_filename: Option<regex::Regex>,
}

/// The entries of a comma-separated option, each with `prefix` put in
/// front. An empty option has no entries.
pub open spec fn init_filter_spec(filter: Seq<char>, prefix: Seq<char>) -> Seq<Seq<char>> {
    if filter.len() == 0 {
        Seq::empty()
    } else {
        split_on(filter, ',').map_values(|t: Seq<char>| prefix + t)
    }
}

/// The expression that stands for a content option: the option's own
/// text behind the flag that makes the whole of it case-insensitive.
pub open spec fn case_insensitive(option: Seq<char>) -> Seq<char> {
    "(?i)"@ + option
}

/// What a content option asks for: nothing when it is empty, otherwise the
/// outcome of compiling it as a case-insensitive expression.
pub open spec fn wanted_regex(option: Seq<char>) -> Option<Result<regex::Regex, regex::Error>> {
    if option.len() == 0 {
        None
    } else {
        Some(regex_new(case_insensitive(option)))
    }
}

/// The expression a content option contributes to a valid configuration.
pub open spec fn chosen_regex(option: Seq<char>) -> Option<regex::Regex> {
    match wanted_regex(option) {
        Some(Ok(re)) => Some(re),
        _ => None,
    }
}

/// Whether a content option is either unused or compiles.
pub open spec fn option_is_valid(option: Seq<char>) -> bool {
    wanted_regex(option) matches Some(r) ==> r is Ok
}

fn compile_option(option: &str) -> (r: Result<Option<regex::Regex>, regex::Error>)
    ensures
        r is Ok <==> option_is_valid(option@),
        r matches Ok(re) ==> re == chosen_regex(option@),
{
    if option.is_empty() {
        Ok(None)
    } else {
        let mut expression = "(?i)".to_owned();
        expression.append(option);
        match compile(expression.as_str()) {
            Ok(re) => Ok(Some(re)),
            Err(e) => Err(e),
        }
    }
}

impl Filters {
    /// Splits a comma-separated option into its entries.
    pub fn init_filter(filter: &str, prefix: &str) -> (r: Vec<String>)
        ensures
            r.deep_view() == init_filter_spec(filter@, prefix@),
    {
        let mut output: Vec<String> = Vec::new();
        if filter.is_empty() {
            assert(output.deep_view() =~= Seq::<Seq<char>>::empty());
            return output;
        }
        let pieces = str_split(filter, ',');
        let mut i: usize = 0;
        while i < pieces.len()
            invariant
                i <= pieces.len(),
                output.len() == i,
                forall|k: int| 0 <= k < i ==> output[k]@ == prefix@ + pieces[k]@,
            decreases pieces.len() - i,
        {
            let mut entry = prefix.to_owned();
            entry.append(pieces[i].as_str());
            output.push(entry);
            i += 1;
        }
        assert(output.deep_view() =~= init_filter_spec(filter@, prefix@));
        output
    }

    /// Whether `args` would give exactly this configuration.
    pub open spec fn built_from(&self, args: &FilterArgs) -> bool {
        &&& self.include_paths.deep_view() == init_filter_spec(args.include_paths@, Seq::empty())
        &&& self.include_file_extensions.deep_view() == init_filter_spec(
            args.include_file_extensions@,
            seq!['.'],
        )
        &&& self.exclude_paths.deep_view() == init_filter_spec(args.exclude_paths@, Seq::empty())
        &&& self.exclude_file_extensions.deep_view() == init_filter_spec(
            args.exclude_file_extensions@,
            seq!['.'],
        )
        &&& self.sample_search == chosen_regex(args.include_sample_name@)
        &&& self.search_filename == chosen_regex(args.search_filename@)
    }

    /// Validates a configuration. Extensions are given without their dot.
    /// Both expressions are compiled as they are written, to match without
    /// regard to case; the sample expression is checked first.
    pub fn new(args: &FilterArgs) -> (r: Result<Filters, FilterError>)
        ensures
            match r {
                Ok(f) => {
                    &&& option_is_valid(args.include_sample_name@)
                    &&& option_is_valid(args.search_filename@)
                    &&& f.built_from(args)
                },
                Err(FilterError::InvalidSampleName) => !option_is_valid(args.include_sample_name@),
                Err(FilterError::InvalidFilename) => {
                    &&& option_is_valid(args.include_sample_name@)
                    &&& !option_is_valid(args.search_filename@)
                },
            },
    {
        let sample_search = match compile_option(args.include_sample_name.as_str()) {
            Ok(re) => re,
            Err(_) => {
                return Err(FilterError::InvalidSampleName);
            },
        };
        let search_filename = match compile_option(args.search_filename.as_str()) {
            Ok(re) => re,
            Err(_) => {
                return Err(FilterError::InvalidFilename);
            },
        };
        proof {
            reveal_strlit("");
            reveal_strlit(".");
            assert(""@ =~= Seq::<char>::empty());
            assert("."@ =~= seq!['.']);
        }
        Ok(
            Filters {
                include_paths: Self::init_filter(args.include_paths.as_str(), ""),
                include_file_extensions: Self::init_filter(
                    args.include_file_extensions.as_str(),
                    ".",
                ),
                exclude_paths: Self::init_filter(args.exclude_paths.as_str(), ""),
                exclude_file_extensions: Self::init_filter(
                    args.exclude_file_extensions.as_str(),
                    ".",
                ),
                sample_search,
                search_filename,
            },
        )
    }
}

impl Filters {
    /// The structural predicate: the path is excluded by no prefix and no
    /// extension, and included by a prefix and by an extension wherever
    /// such a list is given.
    pub open spec fn retains(&self, filename: Seq<char>) -> bool {
        &&& !any_prefix(filename, self.exclude_paths.deep_view(), false)
        &&& !any_suffix(filename, self.exclude_file_extensions.deep_view(), false)
        &&& any_prefix(filename, self.include_paths.deep_view(), true)
        &&& any_suffix(filename, self.include_file_extensions.deep_view(), true)
    }

    /// The members of a group that pass the structural predicate, in their
    /// given order.
    pub open spec fn retained(&self, input: Seq<MetaView>) -> Seq<MetaView> {
        input.filter(|m: MetaView| self.retains(m.filename))
    }

    /// Outcome of the file-name gate on a retained group, if it is set.
    pub open spec fn name_gate(&self, kept: Seq<MetaView>) -> Option<bool> {
        match self.search_filename {
            Some(re) => Some(filename_hit(re, kept)),
            None => None,
        }
    }

    /// Outcome of the sample-text gate on a retained group, if it is set.
    pub open spec fn sample_gate(&self, kept: Seq<MetaView>) -> Option<bool> {
        match self.sample_search {
            Some(re) => Some(sample_hit(re, kept)),
            None => None,
        }
    }

    /// The whole pipeline on one candidate group.
    pub open spec fn filtered(&self, input: Seq<MetaView>, minimum_count: int) -> Seq<MetaView> {
        let kept = self.retained(input);
        gated(kept, self.name_gate(kept), self.sample_gate(kept), minimum_count)
    }

    /// Evaluates the structural predicate on one path.
    pub fn passes(&self, filename: &str) -> (b: bool)
        ensures
            b == self.retains(filename@),
    {
        !starts_with(filename, &self.exclude_paths, false) && !ends_with(
            filename,
            &self.exclude_file_extensions,
            false,
        ) && starts_with(filename, &self.include_paths, true) && ends_with(
            filename,
            &self.include_file_extensions,
            true,
        )
    }

    /// Runs the structural filter over a group.
    pub fn retain(&self, input: &Vec<DatabaseMeta>) -> (r: Vec<DatabaseMeta>)
        ensures
            r.deep_view() == self.retained(input.deep_view()),
    {
        let mut output: Vec<DatabaseMeta> = Vec::new();
        let ghost pred = |m: MetaView| self.retains(m.filename);
        let ghost all = input.deep_view();
        let mut i: usize = 0;
        proof {
            lemma_filter_take_zero(all, pred);
            assert(output.deep_view() =~= Seq::<MetaView>::empty());
        }
        while i < input.len()
            invariant
                i <= input.len(),
                all == input.deep_view(),
                pred == |m: MetaView| self.retains(m.filename),
                output.deep_view() == all.take(i as int).filter(pred),
            decreases input.len() - i,
        {
            let ghost before = output.deep_view();
            proof {
                lemma_filter_take_step(all, i as int, pred);
            }
            if self.passes(input[i].filename.as_str()) {
                output.push(input[i].duplicate());
                assert(output.deep_view() =~= before.push(all[i as int]));
            }
            i += 1;
        }
        assert(all.take(i as int) =~= all);
        output
    }

    /// Applies the pipeline to one candidate group: the structural filter
    /// first, then the gates, which keep what was retained or discard all
    /// of it. `skip_level` is the least number of members a surviving group
    /// may have.
    pub fn apply_filter(&self, input: &Vec<DatabaseMeta>, skip_level: usize) -> (r: Vec<
        DatabaseMeta,
    >)
        ensures
            r.deep_view() == self.filtered(input.deep_view(), skip_level as int),
            r.len() == 0 || r.len() >= skip_level,
    {
        let output = self.retain(input);
        let name_gate = match &self.search_filename {
            Some(re) => Some(any_filename_matches(re, &output)),
            None => None,
        };
        let sample_gate = match (&self.sample_search, name_gate) {
            (_, Some(false)) => None,
            (Some(re), _) => Some(any_sample_matches(re, &output)),
            (None, _) => None,
        };
        let r = group_verdict(output, name_gate, sample_gate, skip_level);
        assert(r.deep_view().len() == r.len());
        r
    }
}

/// A surviving group is never smaller than the minimum count it was
/// filtered with.
pub proof fn lemma_filtered_cardinality(filters: Filters, input: Seq<MetaView>, minimum_count: int)
    ensures
        filters.filtered(input, minimum_count).len() == 0 || filters.filtered(
            input,
            minimum_count,
        ).len() >= minimum_count,
{
}

/// The pipeline never alters a group: what survives is exactly what the
/// structural filter retained.
pub proof fn lemma_filtered_all_or_nothing(
    filters: Filters,
    input: Seq<MetaView>,
    minimum_count: int,
)
    ensures
        filters.filtered(input, minimum_count) == filters.retained(input) || filters.filtered(
            input,
            minimum_count,
        ) == Seq::<MetaView>::empty(),
{
}

/// Every survivor is a member of the input that passes the structural
/// predicate.
pub proof fn lemma_filtered_members(
    filters: Filters,
    input: Seq<MetaView>,
    minimum_count: int,
    m: MetaView,
)
    requires
        filters.filtered(input, minimum_count).contains(m),
    ensures
        input.contains(m),
        filters.retains(m.filename),
{
    let pred = |x: MetaView| filters.retains(x.filename);
    assert(filters.retained(input).contains(m));
    input.lemma_filter_contains_rev(pred, m);
}

} // verus!
