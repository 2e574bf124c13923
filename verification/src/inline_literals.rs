//! Documentation written as a string literal that is the first statement
//! of a definition's body.

use crate::lines::{lines_of, rows, split_lines};
use crate::text::{
    contains, ends_with, find_in, followed_by, has_prefix, has_suffix, starts_with, trim, trimmed,
};
use vstd::prelude::*;

verus! {

/// Three double quotes.
pub open spec fn double_quotes() -> Seq<char> {
    seq!['"', '"', '"']
}

/// Three single quotes.
pub open spec fn single_quotes() -> Seq<char> {
    seq!['\'', '\'', '\'']
}

/// The quotes with which the literal on a line opens, if the line
/// opens one.
pub open spec fn literal_quotes(line: Seq<char>) -> Option<Seq<char>> {
    if has_prefix(trimmed(line), double_quotes()) {
        Some(double_quotes())
    } else if has_prefix(trimmed(line), single_quotes()) {
        Some(single_quotes())
    } else {
        None
    }
}

/// Whether a line closes a literal opened with `quotes`. The line that
/// opens the literal closes it only if it holds the quotes twice.
pub open spec fn closes_literal(line: Seq<char>, quotes: Seq<char>, opening: bool) -> bool {
    has_suffix(trimmed(line), quotes) && (opening ==> trimmed(line).len() >= 2 * quotes.len())
}

/// The index of the first line at or after `i` that closes the literal
/// opened with `quotes` on line `opening`, or `-1` when none does.
pub open spec fn literal_end(lines: Seq<Seq<char>>, i: int, quotes: Seq<char>, opening: int) -> int
    decreases lines.len() - i,
{
    if i < 0 || i >= lines.len() {
        -1
    } else if closes_literal(lines[i], quotes, i == opening) {
        i
    } else {
        literal_end(lines, i + 1, quotes, opening)
    }
}

/// The lines `[a, b)` that hold the documentation literal of the
/// definition on line `d` (counted from 0): it opens on the line after
/// `d` and ends on the first line that closes it. Where no literal
/// opens there, or none closes, the empty span after `d`.
pub open spec fn inline_doc_span(lines: Seq<Seq<char>>, d: int) -> (int, int) {
    if 0 <= d && d + 1 < lines.len() && literal_quotes(lines[d + 1]) is Some && literal_end(
        lines,
        d + 1,
        literal_quotes(lines[d + 1])->Some_0,
        d + 1,
    ) >= 0 {
        (d + 1, literal_end(lines, d + 1, literal_quotes(lines[d + 1])->Some_0, d + 1) + 1)
    } else {
        (d + 1, d + 1)
    }
}

/// Whether a line ends the header of a definition, so that the body
/// begins on the next line: its last character that is not white space
/// is a colon.
pub open spec fn closes_header(line: Seq<char>) -> bool {
    has_suffix(trimmed(line), seq![':'])
}

/// Whether a text can stand between three double quotes as it is and be
/// read back as written: it holds no backslash and no three double
/// quotes in a row, and does not end in a double quote.
pub open spec fn literal_safe(text: Seq<char>) -> bool {
    &&& !text.contains('\\')
    &&& !contains(text, double_quotes())
    &&& !has_suffix(trimmed(text), seq!['"'])
}

/// Whether a line ends the header of a definition.
pub fn is_header_end(line: &Vec<char>) -> (r: bool)
    ensures
        r == closes_header(line@),
{
    let mut colon: Vec<char> = Vec::new();
    colon.push(':');
    assert(colon@ =~= seq![':']);
    ends_with(&trim(line), &colon)
}

/// Whether a text can stand between three double quotes as it is.
pub fn is_literal_safe(text: &Vec<char>) -> (r: bool)
    ensures
        r == literal_safe(text@),
{
    let mut i: usize = 0;
    while i < text.len()
        invariant
            i <= text.len(),
            forall|k: int| 0 <= k < i ==> text@[k] != '\\',
        decreases text.len() - i,
    {
        if text[i] == '\\' {
            assert(text@.contains('\\'));
            return false;
        }
        i += 1;
    }
    assert(!text@.contains('\\'));
    let mut quote: Vec<char> = Vec::new();
    quote.push('"');
    assert(quote@ =~= seq!['"']);
    !find_in(text, &double_quote_chars()) && !ends_with(&trim(text), &quote)
}

/// One more level of indentation.
pub open spec fn level() -> Seq<char> {
    seq![' ', ' ', ' ', ' ']
}

/// The source line for line `k` of a documentation text: the
/// indentation of the definition, one more level, and the line as it
/// is, behind opening quotes if it is the first line and before closing
/// quotes if it is the last.
pub open spec fn inline_doc_row(indent: Seq<char>, lines: Seq<Seq<char>>, k: int) -> Seq<char> {
    indent + level() + (if k == 0 {
        double_quotes()
    } else {
        Seq::empty()
    }) + lines[k] + (if k == lines.len() - 1 {
        double_quotes()
    } else {
        Seq::empty()
    })
}

/// The source lines for a documentation text: a string literal in
/// three double quotes that holds the text, one source line for each
/// line of the text; for an empty text one line with an empty literal.
pub open spec fn inline_doc_rows(indent: Seq<char>, text: Seq<char>) -> Seq<Seq<char>> {
    if lines_of(text).len() == 0 {
        seq![indent + level() + double_quotes() + double_quotes()]
    } else {
        Seq::new(lines_of(text).len(), |i: int| inline_doc_row(indent, lines_of(text), i))
    }
}

/// What `literal_end` returns.
pub proof fn lemma_literal_end(lines: Seq<Seq<char>>, i: int, quotes: Seq<char>, opening: int)
    requires
        0 <= i <= lines.len(),
    ensures
        literal_end(lines, i, quotes, opening) == -1 || i <= literal_end(lines, i, quotes, opening)
            < lines.len(),
    decreases lines.len() - i,
{
    if i < lines.len() && !closes_literal(lines[i], quotes, i == opening) {
        lemma_literal_end(lines, i + 1, quotes, opening);
    }
}

/// The span of `inline_doc_span` lies within the lines after `d`.
pub proof fn lemma_inline_doc_span(lines: Seq<Seq<char>>, d: int)
    requires
        0 <= d < lines.len(),
    ensures
        d < inline_doc_span(lines, d).0 <= inline_doc_span(lines, d).1 <= lines.len(),
{
    if d + 1 < lines.len() && literal_quotes(lines[d + 1]) is Some {
        lemma_literal_end(lines, d + 1, literal_quotes(lines[d + 1])->Some_0, d + 1);
    }
}

/// Three double quotes as characters.
pub fn double_quote_chars() -> (r: Vec<char>)
    ensures
        r@ == double_quotes(),
{
    let mut r: Vec<char> = Vec::new();
    r.push('"');
    r.push('"');
    r.push('"');
    assert(r@ =~= double_quotes());
    r
}

/// Three single quotes as characters.
pub fn single_quote_chars() -> (r: Vec<char>)
    ensures
        r@ == single_quotes(),
{
    let mut r: Vec<char> = Vec::new();
    r.push('\'');
    r.push('\'');
    r.push('\'');
    assert(r@ =~= single_quotes());
    r
}

/// The span of the documentation literal of the definition on line `d`.
pub fn find_inline_doc_span(lines: &Vec<Vec<char>>, d: usize) -> (r: (usize, usize))
    requires
        d < lines.len(),
    ensures
        (r.0 as int, r.1 as int) == inline_doc_span(rows(lines@), d as int),
        d < r.0 <= r.1 <= lines.len(),
{
    let ghost all = rows(lines@);
    proof {
        lemma_inline_doc_span(all, d as int);
    }
    if d + 1 >= lines.len() {
        return (d + 1, d + 1);
    }
    assert(all[d + 1] == lines@[d + 1]@);
    let first = trim(&lines[d + 1]);
    let double = double_quote_chars();
    let single = single_quote_chars();
    let quotes = if starts_with(&first, &double) {
        double
    } else if starts_with(&first, &single) {
        single
    } else {
        return (d + 1, d + 1);
    };
    assert(literal_quotes(all[d + 1]) == Some(quotes@));
    let mut i: usize = d + 1;
    while i < lines.len()
        invariant
            d + 1 <= i <= lines.len(),
            all == rows(lines@),
            quotes@.len() == 3,
            d + 1 < lines.len(),
            literal_quotes(all[d + 1]) == Some(quotes@),
            literal_end(all, d + 1, quotes@, d + 1) == literal_end(all, i as int, quotes@, d + 1),
        decreases lines.len() - i,
    {
        assert(all[i as int] == lines@[i as int]@);
        let t = trim(&lines[i]);
        if ends_with(&t, &quotes) && (i != d + 1 || t.len() >= 6) {
            return (d + 1, i + 1);
        }
        i += 1;
    }
    (d + 1, d + 1)
}

/// The source lines for a documentation text.
pub fn make_inline_doc_rows(indent: &Vec<char>, text: &Vec<char>) -> (r: Vec<Vec<char>>)
    ensures
        rows(r@) == inline_doc_rows(indent@, text@),
{
    let source = split_lines(text);
    let quotes = double_quote_chars();
    let mut out: Vec<Vec<char>> = Vec::new();
    let mut start = indent.clone();
    start.push(' ');
    start.push(' ');
    start.push(' ');
    start.push(' ');
    assert(start@ =~= indent@ + level());
    if source.len() == 0 {
        let row = followed_by(&followed_by(&start, &quotes), &quotes);
        out.push(row);
        assert(rows(out@) =~= inline_doc_rows(indent@, text@));
        return out;
    }
    let mut i: usize = 0;
    while i < source.len()
        invariant
            i <= source.len(),
            rows(source@) == lines_of(text@),
            quotes@ == double_quotes(),
            start@ == indent@ + level(),
            out.len() == i,
            forall|k: int|
                0 <= k < i ==> (#[trigger] out@[k])@ == inline_doc_row(indent@, lines_of(text@), k),
        decreases source.len() - i,
    {
        assert(rows(source@)[i as int] == source@[i as int]@);
        let mut row = start.clone();
        if i == 0 {
            row = followed_by(&row, &quotes);
        }
        row = followed_by(&row, &source[i]);
        if i == source.len() - 1 {
            row = followed_by(&row, &quotes);
        }
        assert(row@ =~= inline_doc_row(indent@, lines_of(text@), i as int));
        out.push(row);
        i += 1;
    }
    assert(rows(out@) =~= inline_doc_rows(indent@, text@));
    out
}

} // verus!
