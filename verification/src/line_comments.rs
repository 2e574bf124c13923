//! Documentation written as a run of `///` lines above a definition.

use crate::lines::{joined, lines_of, rows, split_lines};
use crate::text::{
    followed_by, has_prefix, starts_with, strip_leading, trim, trimmed, without_leading,
};
use vstd::prelude::*;

verus! {

/// The marker that begins a documentation line.
pub open spec fn doc_marker() -> Seq<char> {
    seq!['/', '/', '/']
}

/// Whether a line holds white space only.
pub open spec fn is_blank(line: Seq<char>) -> bool {
    trimmed(line).len() == 0
}

/// Whether a line is a documentation line: its first characters after
/// the indentation are the marker.
pub open spec fn is_doc_line(line: Seq<char>) -> bool {
    has_prefix(trimmed(line), doc_marker())
}

/// Scans upward from line `at` (exclusive) over documentation lines and
/// blank lines and returns the index of the topmost documentation line
/// met, or `found` when none is met before the scan stops at a line
/// that is neither.
pub open spec fn doc_start(lines: Seq<Seq<char>>, at: int, found: int) -> int
    decreases at,
{
    if at <= 0 || at > lines.len() {
        found
    } else if is_doc_line(lines[at - 1]) {
        doc_start(lines, at - 1, at - 1)
    } else if is_blank(lines[at - 1]) {
        doc_start(lines, at - 1, found)
    } else {
        found
    }
}

/// One past the index of the last line before `at` that is not blank.
pub open spec fn skip_blank_back(lines: Seq<Seq<char>>, at: int) -> int
    decreases at,
{
    if 0 < at <= lines.len() && is_blank(lines[at - 1]) {
        skip_blank_back(lines, at - 1)
    } else {
        at
    }
}

/// The lines `[a, b)` that hold the documentation of the definition on
/// line `d` (counted from 0): from the topmost documentation line that
/// only documentation lines and blank lines separate from the
/// definition, to the last documentation line. Where there is none,
/// the empty span at `d`.
pub open spec fn line_doc_span(lines: Seq<Seq<char>>, d: int) -> (int, int) {
    let a = doc_start(lines, d, d);
    if a < d {
        (a, skip_blank_back(lines, d))
    } else {
        (d, d)
    }
}

/// The text that a documentation line carries: what follows the
/// markers, trimmed.
pub open spec fn doc_line_text(line: Seq<char>) -> Seq<char> {
    trimmed(without_leading(trimmed(line), doc_marker()))
}

/// The texts of the documentation lines among the lines `[a, b)`, in
/// order.
pub open spec fn doc_line_texts(lines: Seq<Seq<char>>, a: int, b: int) -> Seq<Seq<char>>
    decreases b - a,
{
    if b <= a || a < 0 || b > lines.len() {
        Seq::empty()
    } else if is_doc_line(lines[b - 1]) {
        doc_line_texts(lines, a, b - 1).push(doc_line_text(lines[b - 1]))
    } else {
        doc_line_texts(lines, a, b - 1)
    }
}

/// The documentation above the definition on line `d` (counted from 0),
/// if there is any: the texts of its lines, joined by line feeds.
pub open spec fn preceding_line_doc(lines: Seq<Seq<char>>, d: int) -> Option<Seq<char>> {
    let (a, b) = line_doc_span(lines, d);
    if a < d {
        Some(joined(doc_line_texts(lines, a, b)))
    } else {
        None
    }
}

/// The documentation line for one line of documentation text: the
/// indentation, the marker and, unless the trimmed text is empty, a
/// space and the trimmed text.
pub open spec fn line_doc_row(indent: Seq<char>, line: Seq<char>) -> Seq<char> {
    let t = trimmed(line);
    if t.len() > 0 {
        indent + doc_marker() + seq![' '] + t
    } else {
        indent + doc_marker()
    }
}

/// The documentation lines for a documentation text: one for each of
/// its lines.
pub open spec fn line_doc_rows(indent: Seq<char>, text: Seq<char>) -> Seq<Seq<char>> {
    Seq::new(lines_of(text).len(), |i: int| line_doc_row(indent, lines_of(text)[i]))
}

/// The span of `line_doc_span` lies within the lines above `d`.
pub proof fn lemma_line_doc_span(lines: Seq<Seq<char>>, d: int)
    requires
        0 <= d <= lines.len(),
    ensures
        0 <= line_doc_span(lines, d).0 <= line_doc_span(lines, d).1 <= d,
        line_doc_span(lines, d).0 < d ==> {
            &&& is_doc_line(lines[line_doc_span(lines, d).0])
            &&& line_doc_span(lines, d).0 < line_doc_span(lines, d).1
            &&& is_doc_line(lines[line_doc_span(lines, d).1 - 1])
        },
{
    lemma_doc_start(lines, d, d);
    lemma_skip_blank_back(lines, d);
    let a = doc_start(lines, d, d);
    let b = skip_blank_back(lines, d);
    if a < d {
        if b <= a {
            assert(is_blank(lines[a]));
        }
        if !is_doc_line(lines[b - 1]) {
            assert(a <= b - 1 < d);
        }
    }
}

/// What `doc_start` returns: `found`, or the index of a documentation
/// line below which only documentation lines and blank lines stand.
pub proof fn lemma_doc_start(lines: Seq<Seq<char>>, at: int, found: int)
    requires
        0 <= at <= lines.len(),
        at <= found,
    ensures
        doc_start(lines, at, found) == found || (0 <= doc_start(lines, at, found) < at
            && is_doc_line(lines[doc_start(lines, at, found)])),
        forall|j: int|
            doc_start(lines, at, found) <= j < at ==> is_doc_line(#[trigger] lines[j]) || is_blank(
                lines[j],
            ),
        doc_start(lines, at, found) == found ==> forall|j: int|
            skip_blank_back(lines, at) <= j < at ==> !is_doc_line(#[trigger] lines[j]),
        doc_start(lines, at, found) == found ==> (skip_blank_back(lines, at) == 0 || !is_doc_line(
            lines[skip_blank_back(lines, at) - 1],
        )),
        doc_start(lines, at, found) > 0 && doc_start(lines, at, found) < at ==> {
            let above = skip_blank_back(lines, doc_start(lines, at, found));
            above == 0 || !is_doc_line(lines[above - 1])
        },
    decreases at,
{
    if at > 0 {
        if is_doc_line(lines[at - 1]) {
            lemma_doc_start(lines, at - 1, at - 1);
            let r = doc_start(lines, at - 1, at - 1);
            if r == at - 1 {
                if r > 0 {
                    assert(skip_blank_back(lines, r) == 0 || !is_doc_line(
                        lines[skip_blank_back(lines, r) - 1],
                    ));
                }
            }
        } else if is_blank(lines[at - 1]) {
            lemma_doc_start(lines, at - 1, found);
        }
    }
}

/// What `skip_blank_back` returns: every line from the result up to
/// `at` is blank, and the line before the result, if any, is not.
pub proof fn lemma_skip_blank_back(lines: Seq<Seq<char>>, at: int)
    requires
        0 <= at <= lines.len(),
    ensures
        0 <= skip_blank_back(lines, at) <= at,
        forall|j: int| skip_blank_back(lines, at) <= j < at ==> is_blank(#[trigger] lines[j]),
        skip_blank_back(lines, at) > 0 ==> !is_blank(lines[skip_blank_back(lines, at) - 1]),
    decreases at,
{
    if at > 0 && is_blank(lines[at - 1]) {
        lemma_skip_blank_back(lines, at - 1);
    }
}

/// The marker as characters.
pub fn marker_chars() -> (r: Vec<char>)
    ensures
        r@ == doc_marker(),
{
    let mut r: Vec<char> = Vec::new();
    r.push('/');
    r.push('/');
    r.push('/');
    assert(r@ =~= doc_marker());
    r
}

/// The span of the documentation above the definition on line `d`.
pub fn find_line_doc_span(lines: &Vec<Vec<char>>, d: usize) -> (r: (usize, usize))
    requires
        d <= lines.len(),
    ensures
        (r.0 as int, r.1 as int) == line_doc_span(rows(lines@), d as int),
        r.0 <= r.1 <= d,
{
    let marker = marker_chars();
    let ghost all = rows(lines@);
    let mut at: usize = d;
    let mut found: usize = d;
    let mut scanning: bool = true;
    while at > 0 && scanning
        invariant
            at <= d <= lines.len(),
            at <= found <= d,
            all == rows(lines@),
            marker@ == doc_marker(),
            scanning ==> doc_start(all, d as int, d as int) == doc_start(all, at as int, found as int),
            !scanning ==> doc_start(all, d as int, d as int) == found,
        decreases at + if scanning { 1int } else { 0int },
    {
        let t = trim(&lines[at - 1]);
        assert(all[at - 1] == lines@[at - 1]@);
        if starts_with(&t, &marker) {
            found = at - 1;
            at -= 1;
        } else if t.len() == 0 {
            at -= 1;
        } else {
            scanning = false;
        }
    }
    proof {
        lemma_line_doc_span(all, d as int);
    }
    if found < d {
        let mut b: usize = d;
        while b > 0 && trim(&lines[b - 1]).len() == 0
            invariant
                b <= d <= lines.len(),
                all == rows(lines@),
                skip_blank_back(all, d as int) == skip_blank_back(all, b as int),
            decreases b,
        {
            assert(all[b - 1] == lines@[b - 1]@);
            b -= 1;
        }
        assert(b > 0 ==> all[b - 1] == lines@[b - 1]@);
        (found, b)
    } else {
        (d, d)
    }
}

/// The documentation above the definition on line `d`, if there is any.
pub fn read_line_doc(lines: &Vec<Vec<char>>, d: usize) -> (r: Option<Vec<char>>)
    requires
        d <= lines.len(),
    ensures
        match r {
            Some(text) => preceding_line_doc(rows(lines@), d as int) == Some(text@),
            None => preceding_line_doc(rows(lines@), d as int) is None,
        },
{
    let (a, b) = find_line_doc_span(lines, d);
    if a >= d {
        return None;
    }
    let marker = marker_chars();
    let ghost all = rows(lines@);
    let mut texts: Vec<Vec<char>> = Vec::new();
    let mut i: usize = a;
    assert(rows(texts@) =~= doc_line_texts(all, a as int, a as int));
    while i < b
        invariant
            a <= i <= b <= lines.len(),
            all == rows(lines@),
            marker@ == doc_marker(),
            rows(texts@) == doc_line_texts(all, a as int, i as int),
        decreases b - i,
    {
        let ghost before = rows(texts@);
        assert(all[i as int] == lines@[i as int]@);
        let t = trim(&lines[i]);
        if starts_with(&t, &marker) {
            let text = trim(&strip_leading(&t, &marker));
            texts.push(text);
            assert(rows(texts@) =~= before.push(doc_line_text(all[i as int])));
        }
        i += 1;
    }
    Some(crate::lines::join_lines(&texts))
}

/// The documentation lines for a documentation text.
pub fn make_line_doc_rows(indent: &Vec<char>, text: &Vec<char>) -> (r: Vec<Vec<char>>)
    ensures
        rows(r@) == line_doc_rows(indent@, text@),
{
    let marker = marker_chars();
    let source = split_lines(text);
    let mut out: Vec<Vec<char>> = Vec::new();
    let mut i: usize = 0;
    while i < source.len()
        invariant
            i <= source.len(),
            rows(source@) == lines_of(text@),
            marker@ == doc_marker(),
            out.len() == i,
            forall|k: int| 0 <= k < i ==> (#[trigger] out@[k])@ == line_doc_row(indent@, lines_of(text@)[k]),
        decreases source.len() - i,
    {
        assert(rows(source@)[i as int] == source@[i as int]@);
        let t = trim(&source[i]);
        let mut row = followed_by(indent, &marker);
        if t.len() > 0 {
            row.push(' ');
            row = followed_by(&row, &t);
        }
        assert(row@ =~= line_doc_row(indent@, lines_of(text@)[i as int]));
        out.push(row);
        i += 1;
    }
    assert(rows(out@) =~= line_doc_rows(indent@, text@));
    out
}

} // verus!
