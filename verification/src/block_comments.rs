//! Documentation written as a `/** ... */` block above a definition.

use crate::line_comments::{is_blank};
use crate::lines::{join_lines, joined, lines_of, rows, split_lines};
use crate::text::{
    followed_by, contains, ends_with, find_in, has_prefix, has_suffix, starts_with, strip_leading,
    strip_trailing, trim, trimmed, without_leading, without_trailing,
};
use vstd::prelude::*;

verus! {

/// The marker that opens a documentation block.
pub open spec fn block_open() -> Seq<char> {
    seq!['/', '*', '*']
}

/// The marker that closes a block comment.
pub open spec fn block_close() -> Seq<char> {
    seq!['*', '/']
}

/// The marker that opens any block comment.
pub open spec fn comment_open() -> Seq<char> {
    seq!['/', '*']
}

/// The marker that begins a line comment.
pub open spec fn line_comment() -> Seq<char> {
    seq!['/', '/']
}

/// The marker that continues a documentation block on a new line.
pub open spec fn block_star() -> Seq<char> {
    seq!['*']
}

/// Whether a line may stand between a documentation block and the
/// definition it documents: a blank line or a line comment.
pub open spec fn is_filler(line: Seq<char>) -> bool {
    is_blank(line) || has_prefix(trimmed(line), line_comment())
}

/// One past the index of the last line before `at` that is not filler.
pub open spec fn skip_filler_back(lines: Seq<Seq<char>>, at: int) -> int
    decreases at,
{
    if 0 < at <= lines.len() && is_filler(lines[at - 1]) {
        skip_filler_back(lines, at - 1)
    } else {
        at
    }
}

/// Scans upward from line `i` for the line that opens the
/// documentation block whose inside line `i` is: the index of the first
/// line met that begins with the opening marker, or `-1` when the top
/// is reached or a line is met first that closes a comment or opens
/// another kind of comment.
pub open spec fn opening_above(lines: Seq<Seq<char>>, i: int) -> int
    decreases i + 1,
{
    if i < 0 || i >= lines.len() {
        -1
    } else if contains(lines[i], block_close()) {
        -1
    } else if has_prefix(trimmed(lines[i]), block_open()) {
        i
    } else if contains(lines[i], comment_open()) {
        -1
    } else {
        opening_above(lines, i - 1)
    }
}

/// The index of the line that opens the documentation block that line
/// `c` closes, or `-1` when line `c` closes no documentation block.
pub open spec fn opening_of(lines: Seq<Seq<char>>, c: int) -> int {
    if has_prefix(trimmed(lines[c]), block_open()) {
        c
    } else if contains(lines[c], comment_open()) {
        -1
    } else {
        opening_above(lines, c - 1)
    }
}

/// The lines `[a, b)` that hold the documentation block of the
/// definition on line `d` (counted from 0): the last line above the
/// definition that is not filler must close the block. Where there is
/// none, the empty span at `d`.
pub open spec fn block_doc_span(lines: Seq<Seq<char>>, d: int) -> (int, int) {
    let b = skip_filler_back(lines, d);
    if 0 < b <= lines.len() && has_suffix(trimmed(lines[b - 1]), block_close()) && opening_of(
        lines,
        b - 1,
    ) >= 0 {
        (opening_of(lines, b - 1), b)
    } else {
        (d, d)
    }
}

/// The text that line `i` of the block `[a, b)` carries: the line
/// without the opening marker if it is the first, without the closing
/// marker if it is the last, and without leading stars, trimmed.
pub open spec fn block_row_text(lines: Seq<Seq<char>>, a: int, b: int, i: int) -> Seq<char> {
    let whole = trimmed(lines[i]);
    let opened = if i == a {
        without_leading(whole, block_open())
    } else {
        whole
    };
    let closed = if i == b - 1 {
        without_trailing(opened, block_close())
    } else {
        opened
    };
    trimmed(without_leading(trimmed(closed), block_star()))
}

/// The text of the block `[a, b)`: the texts of its lines, joined by
/// line feeds, trimmed.
pub open spec fn block_text(lines: Seq<Seq<char>>, a: int, b: int) -> Seq<char> {
    trimmed(joined(Seq::new((b - a) as nat, |k: int| block_row_text(lines, a, b, a + k))))
}

/// The documentation block above the definition on line `d` (counted
/// from 0), if there is one: its text.
pub open spec fn preceding_block_doc(lines: Seq<Seq<char>>, d: int) -> Option<Seq<char>> {
    let (a, b) = block_doc_span(lines, d);
    if a < d {
        Some(block_text(lines, a, b))
    } else {
        None
    }
}

/// The block line for one line of documentation text: the indentation,
/// a space, a star and, unless the trimmed text is empty, a space and
/// the trimmed text.
pub open spec fn block_doc_row(indent: Seq<char>, line: Seq<char>) -> Seq<char> {
    let t = trimmed(line);
    if t.len() > 0 {
        indent + seq![' ', '*', ' '] + t
    } else {
        indent + seq![' ', '*']
    }
}

/// The documentation block for a documentation text: the opening line,
/// one line for each line of the text, and the closing line.
pub open spec fn block_doc_rows(indent: Seq<char>, text: Seq<char>) -> Seq<Seq<char>> {
    seq![indent + block_open()] + Seq::new(
        lines_of(text).len(),
        |i: int| block_doc_row(indent, lines_of(text)[i]),
    ) + seq![indent + seq![' ', '*', '/']]
}

/// What `skip_filler_back` returns.
pub proof fn lemma_skip_filler_back(lines: Seq<Seq<char>>, at: int)
    requires
        0 <= at <= lines.len(),
    ensures
        0 <= skip_filler_back(lines, at) <= at,
        forall|j: int| skip_filler_back(lines, at) <= j < at ==> is_filler(#[trigger] lines[j]),
        skip_filler_back(lines, at) > 0 ==> !is_filler(lines[skip_filler_back(lines, at) - 1]),
    decreases at,
{
    if at > 0 && is_filler(lines[at - 1]) {
        lemma_skip_filler_back(lines, at - 1);
    }
}

/// What `opening_above` returns.
pub proof fn lemma_opening_above(lines: Seq<Seq<char>>, i: int)
    requires
        -1 <= i < lines.len(),
    ensures
        -1 <= opening_above(lines, i) <= i,
        opening_above(lines, i) >= 0 ==> has_prefix(
            trimmed(lines[opening_above(lines, i)]),
            block_open(),
        ),
    decreases i + 1,
{
    if i >= 0 && !contains(lines[i], block_close()) && !has_prefix(trimmed(lines[i]), block_open())
        && !contains(lines[i], comment_open()) {
        lemma_opening_above(lines, i - 1);
    }
}

/// The span of `block_doc_span` lies within the lines above `d`, and
/// where it is not empty it begins with an opening line and ends with
/// a closing line.
pub proof fn lemma_block_doc_span(lines: Seq<Seq<char>>, d: int)
    requires
        0 <= d <= lines.len(),
    ensures
        0 <= block_doc_span(lines, d).0 <= block_doc_span(lines, d).1 <= d,
        block_doc_span(lines, d).0 < d ==> {
            &&& block_doc_span(lines, d).0 < block_doc_span(lines, d).1
            &&& has_prefix(trimmed(lines[block_doc_span(lines, d).0]), block_open())
            &&& has_suffix(trimmed(lines[block_doc_span(lines, d).1 - 1]), block_close())
        },
{
    lemma_skip_filler_back(lines, d);
    let b = skip_filler_back(lines, d);
    if b > 0 {
        lemma_opening_above(lines, b - 2);
    }
}

/// The characters of the opening marker.
pub fn block_open_chars() -> (r: Vec<char>)
    ensures
        r@ == block_open(),
{
    let mut r: Vec<char> = Vec::new();
    r.push('/');
    r.push('*');
    r.push('*');
    assert(r@ =~= block_open());
    r
}

/// The characters of the closing marker.
pub fn block_close_chars() -> (r: Vec<char>)
    ensures
        r@ == block_close(),
{
    let mut r: Vec<char> = Vec::new();
    r.push('*');
    r.push('/');
    assert(r@ =~= block_close());
    r
}

/// The characters of the marker that opens any block comment.
pub fn comment_open_chars() -> (r: Vec<char>)
    ensures
        r@ == comment_open(),
{
    let mut r: Vec<char> = Vec::new();
    r.push('/');
    r.push('*');
    assert(r@ =~= comment_open());
    r
}

/// The characters of the line comment marker.
pub fn line_comment_chars() -> (r: Vec<char>)
    ensures
        r@ == line_comment(),
{
    let mut r: Vec<char> = Vec::new();
    r.push('/');
    r.push('/');
    assert(r@ =~= line_comment());
    r
}

/// The star as characters.
pub fn block_star_chars() -> (r: Vec<char>)
    ensures
        r@ == block_star(),
{
    let mut r: Vec<char> = Vec::new();
    r.push('*');
    assert(r@ =~= block_star());
    r
}

/// The index of the line that opens the documentation block that line
/// `c` closes, if it closes one.
pub fn find_opening(lines: &Vec<Vec<char>>, c: usize) -> (r: Option<usize>)
    requires
        c < lines.len(),
    ensures
        match r {
            Some(a) => a == opening_of(rows(lines@), c as int),
            None => opening_of(rows(lines@), c as int) == -1,
        },
{
    let open = block_open_chars();
    let close = block_close_chars();
    let plain = comment_open_chars();
    let ghost all = rows(lines@);
    assert(all[c as int] == lines@[c as int]@);
    if starts_with(&trim(&lines[c]), &open) {
        return Some(c);
    }
    if find_in(&lines[c], &plain) {
        return None;
    }
    let mut i: usize = c;
    while i > 0
        invariant
            i <= c < lines.len(),
            all == rows(lines@),
            open@ == block_open(),
            close@ == block_close(),
            plain@ == comment_open(),
            opening_of(all, c as int) == opening_above(all, i - 1),
        decreases i,
    {
        let line = &lines[i - 1];
        assert(all[i - 1] == line@);
        if find_in(line, &close) {
            return None;
        }
        if starts_with(&trim(line), &open) {
            return Some(i - 1);
        }
        if find_in(line, &plain) {
            return None;
        }
        i -= 1;
    }
    None
}

/// The span of the documentation block above the definition on line `d`.
pub fn find_block_doc_span(lines: &Vec<Vec<char>>, d: usize) -> (r: (usize, usize))
    requires
        d <= lines.len(),
    ensures
        (r.0 as int, r.1 as int) == block_doc_span(rows(lines@), d as int),
        r.0 <= r.1 <= d,
{
    let marker = line_comment_chars();
    let close = block_close_chars();
    let ghost all = rows(lines@);
    let mut b: usize = d;
    let mut scanning: bool = true;
    while b > 0 && scanning
        invariant
            b <= d <= lines.len(),
            all == rows(lines@),
            marker@ == line_comment(),
            skip_filler_back(all, d as int) == skip_filler_back(all, b as int),
            !scanning ==> b > 0 && !is_filler(all[b - 1]),
        decreases b + if scanning { 1int } else { 0int },
    {
        assert(all[b - 1] == lines@[b - 1]@);
        let t = trim(&lines[b - 1]);
        if t.len() == 0 || starts_with(&t, &marker) {
            b -= 1;
        } else {
            scanning = false;
        }
    }
    proof {
        lemma_block_doc_span(all, d as int);
    }
    if b == 0 {
        return (d, d);
    }
    assert(all[b - 1] == lines@[b - 1]@);
    if !ends_with(&trim(&lines[b - 1]), &close) {
        return (d, d);
    }
    match find_opening(lines, b - 1) {
        Some(a) => (a, b),
        None => (d, d),
    }
}

/// The text of the block `[a, b)`.
pub fn read_block_text(lines: &Vec<Vec<char>>, a: usize, b: usize) -> (r: Vec<char>)
    requires
        a <= b <= lines.len(),
    ensures
        r@ == block_text(rows(lines@), a as int, b as int),
{
    let open = block_open_chars();
    let close = block_close_chars();
    let star = block_star_chars();
    let ghost all = rows(lines@);
    let mut texts: Vec<Vec<char>> = Vec::new();
    let mut i: usize = a;
    while i < b
        invariant
            a <= i <= b <= lines.len(),
            all == rows(lines@),
            open@ == block_open(),
            close@ == block_close(),
            star@ == block_star(),
            texts.len() == i - a,
            forall|k: int|
                0 <= k < i - a ==> (#[trigger] texts@[k])@ == block_row_text(
                    all,
                    a as int,
                    b as int,
                    a + k,
                ),
        decreases b - i,
    {
        assert(all[i as int] == lines@[i as int]@);
        let mut t = trim(&lines[i]);
        if i == a {
            t = strip_leading(&t, &open);
        }
        if i == b - 1 {
            t = strip_trailing(&t, &close);
        }
        let text = trim(&strip_leading(&trim(&t), &star));
        texts.push(text);
        i += 1;
    }
    assert(rows(texts@) =~= Seq::new(
        (b - a) as nat,
        |k: int| block_row_text(all, a as int, b as int, a + k),
    ));
    trim(&join_lines(&texts))
}

/// The documentation block above the definition on line `d`, if there is one.
pub fn read_block_doc(lines: &Vec<Vec<char>>, d: usize) -> (r: Option<Vec<char>>)
    requires
        d <= lines.len(),
    ensures
        match r {
            Some(text) => preceding_block_doc(rows(lines@), d as int) == Some(text@),
            None => preceding_block_doc(rows(lines@), d as int) is None,
        },
{
    let (a, b) = find_block_doc_span(lines, d);
    if a >= d {
        return None;
    }
    Some(read_block_text(lines, a, b))
}

/// The documentation block for a documentation text.
pub fn make_block_doc_rows(indent: &Vec<char>, text: &Vec<char>) -> (r: Vec<Vec<char>>)
    ensures
        rows(r@) == block_doc_rows(indent@, text@),
{
    let source = split_lines(text);
    let mut out: Vec<Vec<char>> = Vec::new();
    out.push(followed_by(indent, &block_open_chars()));
    let mut i: usize = 0;
    while i < source.len()
        invariant
            i <= source.len(),
            rows(source@) == lines_of(text@),
            out.len() == i + 1,
            out@[0]@ == indent@ + block_open(),
            forall|k: int|
                0 <= k < i ==> (#[trigger] out@[k + 1])@ == block_doc_row(
                    indent@,
                    lines_of(text@)[k],
                ),
        decreases source.len() - i,
    {
        assert(rows(source@)[i as int] == source@[i as int]@);
        let t = trim(&source[i]);
        let mut row = indent.clone();
        row.push(' ');
        row.push('*');
        if t.len() > 0 {
            row.push(' ');
            row = followed_by(&row, &t);
        }
        assert(row@ =~= block_doc_row(indent@, lines_of(text@)[i as int]));
        out.push(row);
        i += 1;
    }
    let mut last = indent.clone();
    last.push(' ');
    last.push('*');
    last.push('/');
    assert(last@ =~= indent@ + seq![' ', '*', '/']);
    out.push(last);
    assert forall|j: int| 0 <= j < out.len() implies rows(out@)[j] == block_doc_rows(
        indent@,
        text@,
    )[j] by {
        if 1 <= j <= source.len() {
            let k = j - 1;
            assert((#[trigger] out@[k + 1])@ == block_doc_row(indent@, lines_of(text@)[k]));
        }
    }
    assert(rows(out@) =~= block_doc_rows(indent@, text@));
    out
}

} // verus!
