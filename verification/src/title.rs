//! The title detector.
//!
//! The title of a document is its first line that holds one of the markers:
//! words that open the heading of the documents wanted, given by the caller
//! as a list. A marker is looked for as it is written, capital and small
//! letters kept apart, anywhere in the line.
use vstd::prelude::*;
use crate::text::{
    contains, contains_chars, rows, str_views, text_lines, text_lines_of, to_chars, to_string,
};

verus! {

/// One of `markers` stands somewhere in `line`.
pub open spec fn has_marker(line: Seq<char>, markers: Seq<Seq<char>>) -> bool {
    exists|k: int| 0 <= k < markers.len() && contains(line, #[trigger] markers[k])
}

/// The first of `lines` that holds one of `markers`.
pub open spec fn first_marked(lines: Seq<Seq<char>>, markers: Seq<Seq<char>>) -> Option<Seq<char>>
    decreases lines.len(),
{
    if lines.len() == 0 {
        None
    } else if has_marker(lines[0], markers) {
        Some(lines[0])
    } else {
        first_marked(lines.drop_first(), markers)
    }
}

/// The title of `text`: its first line that holds one of `markers`.
pub open spec fn title_of(text: Seq<char>, markers: Seq<Seq<char>>) -> Option<Seq<char>> {
    first_marked(text_lines(text), markers)
}

/// `first_marked` by the place of the line: the title is a line with a
/// marker before which no line has one, and there is no title only where no
/// line has a marker.
pub proof fn lemma_first_marked(lines: Seq<Seq<char>>, markers: Seq<Seq<char>>)
    ensures
        match first_marked(lines, markers) {
            Some(title) => exists|i: int|
                0 <= i < lines.len() && #[trigger] lines[i] == title && has_marker(
                    lines[i],
                    markers,
                ) && forall|j: int| 0 <= j < i ==> !has_marker(#[trigger] lines[j], markers),
            None => forall|j: int| 0 <= j < lines.len() ==> !has_marker(#[trigger] lines[j], markers),
        },
    decreases lines.len(),
{
    if lines.len() > 0 {
        let rest = lines.drop_first();
        lemma_first_marked(rest, markers);
        if has_marker(lines[0], markers) {
            assert(lines[0] == lines[0]);
        } else {
            match first_marked(rest, markers) {
                Some(title) => {
                    let i = choose|i: int|
                        0 <= i < rest.len() && #[trigger] rest[i] == title && has_marker(
                            rest[i],
                            markers,
                        ) && forall|j: int| 0 <= j < i ==> !has_marker(#[trigger] rest[j], markers);
                    assert(lines[i + 1] == rest[i]);
                    assert forall|j: int| 0 <= j < i + 1 implies !has_marker(
                        #[trigger] lines[j],
                        markers,
                    ) by {
                        if j > 0 {
                            assert(lines[j] == rest[j - 1]);
                        }
                    }
                },
                None => {
                    assert forall|j: int| 0 <= j < lines.len() implies !has_marker(
                        #[trigger] lines[j],
                        markers,
                    ) by {
                        if j > 0 {
                            assert(lines[j] == rest[j - 1]);
                        }
                    }
                },
            }
        }
    }
}

/// Tests whether one of `markers` stands in `line`.
pub fn line_has_marker(line: &[char], markers: &Vec<Vec<char>>) -> (r: bool)
    ensures
        r == has_marker(line@, rows(markers@)),
{
    let mut k: usize = 0;
    while k < markers.len()
        invariant
            k <= markers.len(),
            forall|j: int| 0 <= j < k ==> !contains(line@, #[trigger] rows(markers@)[j]),
        decreases markers.len() - k,
    {
        if contains_chars(line, markers[k].as_slice()) {
            proof {
                assert(rows(markers@)[k as int] == markers@[k as int]@);
            }
            return true;
        }
        k += 1;
    }
    false
}

/// The characters of each of `keywords`.
pub fn marker_chars(keywords: &[&str]) -> (markers: Vec<Vec<char>>)
    ensures
        rows(markers@) == str_views(keywords@),
{
    let mut markers: Vec<Vec<char>> = Vec::new();
    let mut k: usize = 0;
    while k < keywords.len()
        invariant
            k <= keywords.len(),
            markers.len() == k,
            forall|j: int| 0 <= j < k ==> (#[trigger] markers@[j])@ == keywords@[j]@,
        decreases keywords.len() - k,
    {
        markers.push(to_chars(keywords[k]));
        k += 1;
    }
    proof {
        assert(rows(markers@) =~= str_views(keywords@));
    }
    markers
}

/// Finds the title of a text: the first line of `formatted_text` that holds
/// one of `keywords`, or nothing where no line does.
pub fn return_title(formatted_text: &str, keywords: &[&str]) -> (title: Option<String>)
    ensures
        title.deep_view() == title_of(formatted_text@, str_views(keywords@)),
{
    let lines = text_lines_of(formatted_text);
    let markers = marker_chars(keywords);
    let ghost all = rows(lines@);
    let ghost marks = str_views(keywords@);
    let mut i: usize = 0;
    proof {
        assert(all.skip(0) == all);
    }
    while i < lines.len()
        invariant
            i <= lines.len(),
            all == rows(lines@),
            all == text_lines(formatted_text@),
            marks == rows(markers@),
            marks == str_views(keywords@),
            first_marked(all, marks) == first_marked(all.skip(i as int), marks),
        decreases lines.len() - i,
    {
        proof {
            assert(all.skip(i as int)[0] == lines@[i as int]@);
            assert(all.skip(i as int).drop_first() == all.skip(i + 1));
        }
        if line_has_marker(lines[i].as_slice(), &markers) {
            let title = to_string(lines[i].as_slice());
            proof {
                assert(Some(title).deep_view() == Some(title@));
            }
            return Some(title);
        }
        i += 1;
    }
    None
}

} // verus!
