//! The measurements a caller needs to present sample text in a frame:
//! how wide the frame is, how many lines it holds, and which lines a
//! search expression matches. Drawing the frame is the caller's part.

use vstd::prelude::*;
use crate::pattern::{is_match, regex_is_match};

verus! {

/// The measurements of a frame.
#[derive(Debug, Clone, Copy, PartialEq, Eq, Structural)]
pub struct Outline {
    /// Width of the frame's inside: the longest line and one space on
    /// either side.
    pub width: usize,
    /// Number of lines shown: all up to the last that is not empty, and at
    /// least one.
    pub rows: usize,
}

/// The length of the longest line, in characters.
pub open spec fn longest(lines: Seq<Seq<char>>) -> nat
    decreases lines.len(),
{
    if lines.len() == 0 {
        0
    } else {
        let rest = longest(lines.drop_last());
        if lines.last().len() > rest {
            lines.last().len()
        } else {
            rest
        }
    }
}

/// The position of the last line that is not empty; `0` if all are empty.
pub open spec fn last_text_line(lines: Seq<Seq<char>>) -> int
    decreases lines.len(),
{
    if lines.len() == 0 {
        0
    } else if lines.last().len() > 0 {
        lines.len() - 1
    } else {
        last_text_line(lines.drop_last())
    }
}

/// The frame around the given lines; none around no lines at all. The
/// width stops at the largest number the machine can hold.
pub open spec fn outline_of(lines: Seq<Seq<char>>) -> Option<Outline> {
    if lines.len() == 0 {
        None
    } else {
        Some(
            Outline {
                width: if longest(lines) + 2 <= usize::MAX {
                    (longest(lines) + 2) as usize
                } else {
                    usize::MAX
                },
                rows: (last_text_line(lines) + 1) as usize,
            },
        )
    }
}

/// The last text line is a line, when there is any line.
proof fn lemma_last_text_range(lines: Seq<Seq<char>>)
    requires
        lines.len() > 0,
    ensures
        0 <= last_text_line(lines) < lines.len(),
    decreases lines.len(),
{
    if lines.last().len() == 0 {
        if lines.len() > 1 {
            lemma_last_text_range(lines.drop_last());
        } else {
            assert(last_text_line(lines.drop_last()) == 0);
        }
    }
}

/// Measures the frame for the given lines.
pub fn measure_outline(samples: &Vec<String>) -> (r: Option<Outline>)
    ensures
        r == outline_of(samples.deep_view()),
{
    if samples.len() == 0 {
        return None;
    }
    let ghost lines = samples.deep_view();
    let mut last_line_with_text: usize = 0;
    let mut max_len: usize = 0;
    let mut i: usize = 0;
    while i < samples.len()
        invariant
            i <= samples.len(),
            lines == samples.deep_view(),
            max_len == longest(lines.take(i as int)),
            last_line_with_text == last_text_line(lines.take(i as int)),
        decreases samples.len() - i,
    {
        proof {
            assert(lines.take(i as int + 1).drop_last() =~= lines.take(i as int));
            assert(lines.take(i as int + 1).last() == samples[i as int]@);
        }
        let count = samples[i].as_str().unicode_len();
        if count > max_len {
            max_len = count;
        }
        if count > 0 {
            last_line_with_text = i;
        }
        i += 1;
    }
    assert(lines.take(i as int) =~= lines);
    proof {
        lemma_last_text_range(lines);
    }
    let width = if max_len <= usize::MAX - 2 {
        max_len + 2
    } else {
        usize::MAX
    };
    Some(Outline { width, rows: last_line_with_text + 1 })
}

/// For each line, whether the expression matches it.
pub fn matching_lines(samples: &Vec<String>, re: &regex::Regex) -> (r: Vec<bool>)
    ensures
        r.len() == samples.len(),
        forall|i: int|
            0 <= i < r.len() ==> r[i] == regex_is_match(*re, #[trigger] samples.deep_view()[i]),
{
    let mut marks: Vec<bool> = Vec::new();
    let mut i: usize = 0;
    while i < samples.len()
        invariant
            i <= samples.len(),
            marks.len() == i,
            forall|k: int|
                0 <= k < i ==> marks[k] == regex_is_match(*re, #[trigger] samples.deep_view()[k]),
        decreases samples.len() - i,
    {
        marks.push(is_match(re, samples[i].as_str()));
        i += 1;
    }
    marks
}

} // verus!
