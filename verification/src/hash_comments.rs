//! Documentation written as a run of `#` comment lines above a
//! definition.

use crate::line_comments::{is_blank, lemma_skip_blank_back, skip_blank_back};
use crate::lines::{joined, rows};
use crate::text::{has_prefix, starts_with, strip_leading, trim, trimmed, without_leading};
use vstd::prelude::*;

verus! {

/// The marker that begins a comment line.
pub open spec fn hash_marker() -> Seq<char> {
    seq!['#']
}

/// Whether a line is a comment line: its first characters after
/// the indentation are the marker.
pub open spec fn is_hash_line(line: Seq<char>) -> bool {
    has_prefix(trimmed(line), hash_marker())
}

/// Scans upward from line `at` (exclusive) over comment lines and
/// blank lines and returns the index of the topmost comment line
/// met, or `found` when none is met before the scan stops at a line
/// that is neither.
pub open spec fn hash_start(lines: Seq<Seq<char>>, at: int, found: int) -> int
    decreases at,
{
    if at <= 0 || at > lines.len() {
        found
    } else if is_hash_line(lines[at - 1]) {
        hash_start(lines, at - 1, at - 1)
    } else if is_blank(lines[at - 1]) {
        hash_start(lines, at - 1, found)
    } else {
        found
    }
}

/// The lines `[a, b)` that hold the documentation of the definition on
/// line `d` (counted from 0): from the topmost comment line that
/// only comment lines and blank lines separate from the
/// definition, to the last comment line. Where there is none,
/// the empty span at `d`.
pub open spec fn hash_doc_span(lines: Seq<Seq<char>>, d: int) -> (int, int) {
    let a = hash_start(lines, d, d);
    if a < d {
        (a, skip_blank_back(lines, d))
    } else {
        (d, d)
    }
}

/// The text that a comment line carries: what follows the
/// markers, trimmed.
pub open spec fn hash_line_text(line: Seq<char>) -> Seq<char> {
    trimmed(without_leading(trimmed(line), hash_marker()))
}

/// The texts of the comment lines among the lines `[a, b)`, in
/// order.
pub open spec fn hash_line_texts(lines: Seq<Seq<char>>, a: int, b: int) -> Seq<Seq<char>>
    decreases b - a,
{
    if b <= a || a < 0 || b > lines.len() {
        Seq::empty()
    } else if is_hash_line(lines[b - 1]) {
        hash_line_texts(lines, a, b - 1).push(hash_line_text(lines[b - 1]))
    } else {
        hash_line_texts(lines, a, b - 1)
    }
}

/// The documentation above the definition on line `d` (counted from 0),
/// if there is any: the texts of its lines, joined by line feeds.
pub open spec fn preceding_hash_doc(lines: Seq<Seq<char>>, d: int) -> Option<Seq<char>> {
    let (a, b) = hash_doc_span(lines, d);
    if a < d {
        Some(joined(hash_line_texts(lines, a, b)))
    } else {
        None
    }
}

/// The span of `hash_doc_span` lies within the lines above `d`.
pub proof fn lemma_hash_doc_span(lines: Seq<Seq<char>>, d: int)
    requires
        0 <= d <= lines.len(),
    ensures
        0 <= hash_doc_span(lines, d).0 <= hash_doc_span(lines, d).1 <= d,
        hash_doc_span(lines, d).0 < d ==> {
            &&& is_hash_line(lines[hash_doc_span(lines, d).0])
            &&& hash_doc_span(lines, d).0 < hash_doc_span(lines, d).1
            &&& is_hash_line(lines[hash_doc_span(lines, d).1 - 1])
        },
{
    lemma_hash_start(lines, d, d);
    lemma_skip_blank_back(lines, d);
    let a = hash_start(lines, d, d);
    let b = skip_blank_back(lines, d);
    if a < d {
        if b <= a {
            assert(is_blank(lines[a]));
        }
        if !is_hash_line(lines[b - 1]) {
            assert(a <= b - 1 < d);
        }
    }
}

/// What `hash_start` returns: `found`, or the index of a comment line
/// below which only comment lines and blank lines stand.
pub proof fn lemma_hash_start(lines: Seq<Seq<char>>, at: int, found: int)
    requires
        0 <= at <= lines.len(),
        at <= found,
    ensures
        hash_start(lines, at, found) == found || (0 <= hash_start(lines, at, found) < at
            && is_hash_line(lines[hash_start(lines, at, found)])),
        forall|j: int|
            hash_start(lines, at, found) <= j < at ==> is_hash_line(#[trigger] lines[j]) || is_blank(
                lines[j],
            ),
        hash_start(lines, at, found) == found ==> forall|j: int|
            skip_blank_back(lines, at) <= j < at ==> !is_hash_line(#[trigger] lines[j]),
        hash_start(lines, at, found) == found ==> (skip_blank_back(lines, at) == 0 || !is_hash_line(
            lines[skip_blank_back(lines, at) - 1],
        )),
        hash_start(lines, at, found) > 0 && hash_start(lines, at, found) < at ==> {
            let above = skip_blank_back(lines, hash_start(lines, at, found));
            above == 0 || !is_hash_line(lines[above - 1])
        },
    decreases at,
{
    if at > 0 {
        if is_hash_line(lines[at - 1]) {
            lemma_hash_start(lines, at - 1, at - 1);
            let r = hash_start(lines, at - 1, at - 1);
            if r == at - 1 {
                if r > 0 {
                    assert(skip_blank_back(lines, r) == 0 || !is_hash_line(
                        lines[skip_blank_back(lines, r) - 1],
                    ));
                }
            }
        } else if is_blank(lines[at - 1]) {
            lemma_hash_start(lines, at - 1, found);
        }
    }
}

/// The marker as characters.
pub fn hash_chars() -> (r: Vec<char>)
    ensures
        r@ == hash_marker(),
{
    let mut r: Vec<char> = Vec::new();
    r.push('#');
    assert(r@ =~= hash_marker());
    r
}

/// The span of the documentation above the definition on line `d`.
pub fn find_hash_doc_span(lines: &Vec<Vec<char>>, d: usize) -> (r: (usize, usize))
    requires
        d <= lines.len(),
    ensures
        (r.0 as int, r.1 as int) == hash_doc_span(rows(lines@), d as int),
        r.0 <= r.1 <= d,
{
    let marker = hash_chars();
    let ghost all = rows(lines@);
    let mut at: usize = d;
    let mut found: usize = d;
    let mut scanning: bool = true;
    while at > 0 && scanning
        invariant
            at <= d <= lines.len(),
            at <= found <= d,
            all == rows(lines@),
            marker@ == hash_marker(),
            scanning ==> hash_start(all, d as int, d as int) == hash_start(all, at as int, found as int),
            !scanning ==> hash_start(all, d as int, d as int) == found,
        decreases at + if scanning { 1int } else { 0int },
    {
        let t = trim(&lines[at - 1]);
        assert(all[at - 1] == lines@[at - 1]@);
        if starts_with(&t, &marker) {
            found = at - 1;
            at -= 1;
        } else if t.len() == 0 {
            at -= 1;
        } else {
            scanning = false;
        }
    }
    proof {
        lemma_hash_doc_span(all, d as int);
    }
    if found < d {
        let mut b: usize = d;
        while b > 0 && trim(&lines[b - 1]).len() == 0
            invariant
                b <= d <= lines.len(),
                all == rows(lines@),
                skip_blank_back(all, d as int) == skip_blank_back(all, b as int),
            decreases b,
        {
            assert(all[b - 1] == lines@[b - 1]@);
            b -= 1;
        }
        assert(b > 0 ==> all[b - 1] == lines@[b - 1]@);
        (found, b)
    } else {
        (d, d)
    }
}

/// The documentation above the definition on line `d`, if there is any.
pub fn read_hash_doc(lines: &Vec<Vec<char>>, d: usize) -> (r: Option<Vec<char>>)
    requires
        d <= lines.len(),
    ensures
        match r {
            Some(text) => preceding_hash_doc(rows(lines@), d as int) == Some(text@),
            None => preceding_hash_doc(rows(lines@), d as int) is None,
        },
{
    let (a, b) = find_hash_doc_span(lines, d);
    if a >= d {
        return None;
    }
    let marker = hash_chars();
    let ghost all = rows(lines@);
    let mut texts: Vec<Vec<char>> = Vec::new();
    let mut i: usize = a;
    assert(rows(texts@) =~= hash_line_texts(all, a as int, a as int));
    while i < b
        invariant
            a <= i <= b <= lines.len(),
            all == rows(lines@),
            marker@ == hash_marker(),
            rows(texts@) == hash_line_texts(all, a as int, i as int),
        decreases b - i,
    {
        let ghost before = rows(texts@);
        assert(all[i as int] == lines@[i as int]@);
        let t = trim(&lines[i]);
        if starts_with(&t, &marker) {
            let text = trim(&strip_leading(&t, &marker));
            texts.push(text);
            assert(rows(texts@) =~= before.push(hash_line_text(all[i as int])));
        }
        i += 1;
    }
    Some(crate::lines::join_lines(&texts))
}

} // verus!
