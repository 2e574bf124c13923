//! Documentation that is written into a text and read back.
//!
//! What the rewriter writes above a definition, the reader of the same
//! convention finds there again: the lines of the documentation text,
//! each trimmed.

use crate::line_comments::{
    doc_line_text, doc_line_texts, doc_marker, doc_start, is_blank, is_doc_line,
    lemma_doc_start, lemma_line_doc_span, lemma_skip_blank_back, line_doc_row, line_doc_rows,
    line_doc_span, preceding_line_doc, skip_blank_back,
};
use crate::block_comments::{
    block_close, block_doc_row, block_doc_rows, block_doc_span, block_open, block_row_text,
    block_star, comment_open, is_filler, lemma_block_doc_span,
    lemma_skip_filler_back, line_comment, opening_above, opening_of, preceding_block_doc,
    skip_filler_back,
};
use crate::extract::{item_for, DefinitionView};
use crate::lines::{joined, lines_of};
use crate::parser::ItemType;
use crate::rewrite::{with_documentation, DocConvention};
use crate::text::{
    all_spaces, contains, has_prefix, has_suffix, is_space, lemma_trimmed_core,
    lemma_trimmed_ends, lemma_trimmed_padded, occurs_at, trimmed, without_leading,
    without_trailing,
};
use vstd::prelude::*;

verus! {

/// The lines of a documentation text, each trimmed.
pub open spec fn trimmed_lines(text: Seq<char>) -> Seq<Seq<char>> {
    Seq::new(lines_of(text).len(), |k: int| trimmed(lines_of(text)[k]))
}

/// A documentation line that the rewriter writes is a documentation
/// line to the reader, is not blank, and carries the trimmed text.
pub proof fn lemma_line_doc_row(indent: Seq<char>, line: Seq<char>)
    requires
        all_spaces(indent),
    ensures
        is_doc_line(line_doc_row(indent, line)),
        !is_blank(line_doc_row(indent, line)),
        doc_line_text(line_doc_row(indent, line)) == trimmed(line),
{
    let t = trimmed(line);
    let none = Seq::<char>::empty();
    lemma_trimmed_ends(line);
    assert(all_spaces(none));
    let m = doc_marker();
    if t.len() > 0 {
        let core = m + seq![' '] + t;
        assert(core[0] == '/');
        assert(core.last() == t.last());
        assert(line_doc_row(indent, line) =~= indent + core + none);
        lemma_trimmed_core(indent, core, none);
        assert(core.subrange(0, 3) =~= m);
        let rest = core.subrange(3, core.len() as int);
        assert(rest =~= seq![' '] + t);
        assert(rest[0] == ' ');
        assert(!has_prefix(rest, m)) by {
            if has_prefix(rest, m) {
                assert(rest.subrange(0, 3)[0] == m[0]);
            }
        }
        assert(has_prefix(core, m));
        assert(without_leading(rest, m) == rest);
        assert(core.subrange(m.len() as int, core.len() as int) == rest);
        assert(without_leading(core, m) == rest);
        assert(all_spaces(seq![' ']));
        assert(rest =~= seq![' '] + t + none);
        lemma_trimmed_core(seq![' '], t, none);
    } else {
        assert(line_doc_row(indent, line) =~= indent + m + none);
        lemma_trimmed_core(indent, m, none);
        assert(m.subrange(0, 3) =~= m);
        let rest = m.subrange(3, 3);
        assert(rest =~= none);
        assert(!has_prefix(rest, m));
        assert(has_prefix(m, m));
        assert(without_leading(rest, m) == rest);
        assert(m.subrange(m.len() as int, m.len() as int) == rest);
        assert(without_leading(m, m) == rest);
        lemma_trimmed_ends(none);
    }
}

/// `skip_blank_back` returns the only index with the properties that
/// `lemma_skip_blank_back` states.
pub proof fn lemma_skip_blank_back_is(lines: Seq<Seq<char>>, at: int, r: int)
    requires
        0 <= r <= at <= lines.len(),
        forall|j: int| r <= j < at ==> is_blank(#[trigger] lines[j]),
        r == 0 || !is_blank(lines[r - 1]),
    ensures
        skip_blank_back(lines, at) == r,
{
    lemma_skip_blank_back(lines, at);
    let x = skip_blank_back(lines, at);
    if x > r {
        assert(is_blank(lines[x - 1]));
    } else if x < r {
        assert(is_blank(lines[r - 1]));
    }
}

/// The upward scan passes over blank lines without a change.
pub proof fn lemma_doc_start_over_blanks(lines: Seq<Seq<char>>, at: int, r: int, found: int)
    requires
        0 <= r <= at <= lines.len(),
        forall|j: int| r <= j < at ==> is_blank(#[trigger] lines[j]) && !is_doc_line(lines[j]),
    ensures
        doc_start(lines, at, found) == doc_start(lines, r, found),
    decreases at - r,
{
    if r < at {
        assert(is_blank(lines[at - 1]));
        lemma_doc_start_over_blanks(lines, at - 1, r, found);
    }
}

/// The upward scan passes over documentation lines and remembers the
/// topmost.
pub proof fn lemma_doc_start_over_docs(lines: Seq<Seq<char>>, at: int, r: int, found: int)
    requires
        0 <= r < at <= lines.len(),
        forall|j: int| r <= j < at ==> is_doc_line(#[trigger] lines[j]),
    ensures
        doc_start(lines, at, found) == doc_start(lines, r, r),
    decreases at - r,
{
    assert(is_doc_line(lines[at - 1]));
    if r < at - 1 {
        lemma_doc_start_over_docs(lines, at - 1, r, at - 1);
    }
}

/// The upward scan depends on the lines above its start only.
pub proof fn lemma_doc_start_same_above(
    first: Seq<Seq<char>>,
    second: Seq<Seq<char>>,
    at: int,
    found: int,
)
    requires
        0 <= at <= first.len(),
        at <= second.len(),
        forall|j: int| 0 <= j < at ==> #[trigger] first[j] == second[j],
    ensures
        doc_start(first, at, found) == doc_start(second, at, found),
    decreases at,
{
    if at > 0 {
        assert(first[at - 1] == second[at - 1]);
        lemma_doc_start_same_above(first, second, at - 1, at - 1);
        lemma_doc_start_same_above(first, second, at - 1, found);
    }
}

/// Above the topmost documentation line that a scan finds, a new scan
/// finds none.
pub proof fn lemma_doc_start_is_topmost(lines: Seq<Seq<char>>, at: int, found: int)
    requires
        0 <= at <= lines.len(),
        at <= found,
        doc_start(lines, at, found) != found,
    ensures
        doc_start(lines, doc_start(lines, at, found), doc_start(lines, at, found)) == doc_start(
            lines,
            at,
            found,
        ),
    decreases at,
{
    lemma_doc_start(lines, at, found);
    if at > 0 {
        if is_doc_line(lines[at - 1]) {
            lemma_doc_start(lines, at - 1, at - 1);
            if doc_start(lines, at - 1, at - 1) != at - 1 {
                lemma_doc_start_is_topmost(lines, at - 1, at - 1);
            }
        } else if is_blank(lines[at - 1]) {
            lemma_doc_start_is_topmost(lines, at - 1, found);
        }
    }
}

/// The texts of a run of documentation lines.
pub proof fn lemma_doc_line_texts_of_run(
    lines: Seq<Seq<char>>,
    a: int,
    n: int,
    texts: Seq<Seq<char>>,
)
    requires
        0 <= a,
        0 <= n <= texts.len(),
        a + n <= lines.len(),
        forall|k: int|
            0 <= k < n ==> is_doc_line(#[trigger] lines[a + k]) && doc_line_text(lines[a + k])
                == texts[k],
    ensures
        doc_line_texts(lines, a, a + n) == texts.take(n),
    decreases n,
{
    if n == 0 {
        assert(texts.take(0) =~= Seq::<Seq<char>>::empty());
    } else {
        lemma_doc_line_texts_of_run(lines, a, n - 1, texts);
        assert(is_doc_line(lines[a + (n - 1)]));
        assert(texts.take(n) =~= texts.take(n - 1).push(texts[n - 1]));
    }
}

/// Documentation that is written above a definition as `///` lines is
/// read back from above that definition: its lines, each trimmed,
/// joined by line feeds.
///
/// `lines` are the lines of a text and `d` is the index of a definition
/// line; the indentation is white space, and the documentation has at
/// least one line.
pub proof fn lemma_line_doc_round_trip(
    lines: Seq<Seq<char>>,
    d: int,
    indent: Seq<char>,
    text: Seq<char>,
)
    requires
        0 <= d < lines.len(),
        all_spaces(indent),
        lines_of(text).len() > 0,
    ensures
        ({
            let (a, b) = line_doc_span(lines, d);
            let moved = lines_of(text).len() - (b - a);
            preceding_line_doc(
                with_documentation(DocConvention::LineComments, lines, d, indent, text),
                d + moved,
            ) == Some(joined(trimmed_lines(text)))
        }),
{
    let (a, b) = line_doc_span(lines, d);
    let rows = line_doc_rows(indent, text);
    let n = rows.len() as int;
    let out = with_documentation(DocConvention::LineComments, lines, d, indent, text);
    let moved = n - (b - a);
    let dd = d + moved;
    lemma_line_doc_span(lines, d);
    lemma_doc_start(lines, d, d);
    lemma_skip_blank_back(lines, d);
    assert(out.len() == lines.len() + moved);
    assert forall|i: int| 0 <= i < a implies #[trigger] out[i] == lines[i] by {}
    assert forall|k: int| 0 <= k < n implies {
        &&& is_doc_line(#[trigger] out[a + k])
        &&& !is_blank(out[a + k])
        &&& doc_line_text(out[a + k]) == trimmed_lines(text)[k]
    } by {
        assert(out[a + k] == rows[k]);
        lemma_line_doc_row(indent, lines_of(text)[k]);
    }
    assert forall|j: int| a + n <= j < dd implies is_blank(#[trigger] out[j]) && !is_doc_line(
        out[j],
    ) by {
        assert(out[j] == lines[j - moved]);
        assert(is_blank(lines[j - moved]));
    }
    // The span ends behind the last written line.
    assert(!is_blank(out[a + (n - 1)]));
    lemma_skip_blank_back_is(out, dd, a + n);
    // The scan reaches the first written line and finds nothing above it.
    lemma_doc_start_over_blanks(out, dd, a + n, dd);
    assert forall|j: int| a <= j < a + n implies is_doc_line(#[trigger] out[j]) by {
        assert(is_doc_line(out[a + (j - a)]));
    }
    lemma_doc_start_over_docs(out, a + n, a, dd);
    lemma_doc_start_same_above(out, lines, a, a);
    if a < d {
        lemma_doc_start_is_topmost(lines, d, d);
    }
    assert(doc_start(lines, a, a) == a);
    assert(doc_start(out, dd, dd) == a);
    assert(line_doc_span(out, dd) == (a, a + n));
    lemma_doc_line_texts_of_run(out, a, n, trimmed_lines(text));
    assert(trimmed_lines(text).take(n) =~= trimmed_lines(text));
}

/// A text in which `x` is nowhere followed by `y` does not contain the
/// two in a row.
pub proof fn lemma_no_pair(s: Seq<char>, x: char, y: char)
    requires
        forall|i: int| 0 <= i && i + 1 < s.len() ==> !(#[trigger] s[i] == x && s[i + 1] == y),
    ensures
        !contains(s, seq![x, y]),
{
    if contains(s, seq![x, y]) {
        let i = choose|i: int| occurs_at(s, seq![x, y], i);
        assert(s.subrange(i, i + 2)[0] == x);
        assert(s.subrange(i, i + 2)[1] == y);
        assert(s[i] == x && s[i + 1] == y);
    }
}

/// A text in which `x` is followed by `y` somewhere contains the two in
/// a row.
pub proof fn lemma_pair(s: Seq<char>, x: char, y: char, i: int)
    requires
        0 <= i,
        i + 1 < s.len(),
        s[i] == x,
        s[i + 1] == y,
    ensures
        contains(s, seq![x, y]),
{
    assert(s.subrange(i, i + 2) =~= seq![x, y]);
    assert(occurs_at(s, seq![x, y], i));
}

/// A trimmed text is its own trimmed form.
pub proof fn lemma_trimmed_twice(s: Seq<char>)
    ensures
        trimmed(trimmed(s)) == trimmed(s),
{
    let none = Seq::<char>::empty();
    lemma_trimmed_ends(s);
    assert(all_spaces(none));
    if trimmed(s).len() > 0 {
        assert(trimmed(s) =~= none + trimmed(s) + none);
        lemma_trimmed_core(none, trimmed(s), none);
    } else {
        lemma_trimmed_ends(trimmed(s));
    }
}

/// A line that the rewriter writes inside a block opens and closes no
/// comment, and carries the trimmed text, if that text opens and closes
/// no comment itself.
pub proof fn lemma_block_doc_row(indent: Seq<char>, line: Seq<char>)
    requires
        all_spaces(indent),
        !contains(trimmed(line), comment_open()),
        !contains(trimmed(line), block_close()),
    ensures
        !contains(block_doc_row(indent, line), block_close()),
        !contains(block_doc_row(indent, line), comment_open()),
        !has_prefix(trimmed(block_doc_row(indent, line)), block_open()),
        trimmed(without_leading(trimmed(trimmed(block_doc_row(indent, line))), block_star()))
            == trimmed(line),
{
    let t = trimmed(line);
    let none = Seq::<char>::empty();
    let row = block_doc_row(indent, line);
    let pad = indent + seq![' '];
    let star = block_star();
    lemma_trimmed_ends(line);
    assert(all_spaces(none));
    assert(all_spaces(pad)) by {
        assert forall|i: int| 0 <= i < pad.len() implies is_space(#[trigger] pad[i]) by {
            if i < indent.len() {
                assert(pad[i] == indent[i]);
            }
        }
    }
    let off = indent.len() + 3;
    if t.len() > 0 {
        let core = seq!['*', ' '] + t;
        assert(row =~= pad + core + none);
        assert(core[0] == '*');
        assert(core.last() == t.last());
        lemma_trimmed_core(pad, core, none);
        assert forall|i: int| 0 <= i && i + 1 < row.len() implies !(#[trigger] row[i] == '*'
            && row[i + 1] == '/') by {
            if i >= off {
                if row[i] == '*' && row[i + 1] == '/' {
                    assert(row[i] == t[i - off]);
                    assert(row[i + 1] == t[i - off + 1]);
                    lemma_pair(t, '*', '/', i - off);
                }
            } else if i < indent.len() {
                assert(row[i] == indent[i]);
            } else if i == indent.len() + 1 {
                assert(row[i + 1] == ' ');
            }
        }
        lemma_no_pair(row, '*', '/');
        assert forall|i: int| 0 <= i && i + 1 < row.len() implies !(#[trigger] row[i] == '/'
            && row[i + 1] == '*') by {
            if i >= off {
                if row[i] == '/' && row[i + 1] == '*' {
                    assert(row[i] == t[i - off]);
                    assert(row[i + 1] == t[i - off + 1]);
                    lemma_pair(t, '/', '*', i - off);
                }
            } else if i < indent.len() {
                assert(row[i] == indent[i]);
            }
        }
        lemma_no_pair(row, '/', '*');
        lemma_trimmed_twice(row);
        assert(!has_prefix(core, block_open())) by {
            if has_prefix(core, block_open()) {
                assert(core.subrange(0, 3)[0] == block_open()[0]);
            }
        }
        let rest = core.subrange(1, core.len() as int);
        assert(rest =~= seq![' '] + t);
        assert(core.subrange(0, 1) =~= star);
        assert(has_prefix(core, star));
        assert(!has_prefix(rest, star)) by {
            if has_prefix(rest, star) {
                assert(rest.subrange(0, 1)[0] == star[0]);
            }
        }
        assert(without_leading(rest, star) == rest);
        assert(core.subrange(star.len() as int, core.len() as int) == rest);
        assert(without_leading(core, star) == rest);
        assert(all_spaces(seq![' ']));
        assert(rest =~= seq![' '] + t + none);
        lemma_trimmed_core(seq![' '], t, none);
    } else {
        assert(row =~= pad + star + none);
        lemma_trimmed_core(pad, star, none);
        assert forall|i: int| 0 <= i && i + 1 < row.len() implies !(#[trigger] row[i] == '*'
            && row[i + 1] == '/') by {
            if i < indent.len() {
                assert(row[i] == indent[i]);
            }
        }
        lemma_no_pair(row, '*', '/');
        assert forall|i: int| 0 <= i && i + 1 < row.len() implies !(#[trigger] row[i] == '/'
            && row[i + 1] == '*') by {
            if i < indent.len() {
                assert(row[i] == indent[i]);
            }
        }
        lemma_no_pair(row, '/', '*');
        lemma_trimmed_twice(row);
        assert(!has_prefix(star, block_open()));
        let rest = star.subrange(1, 1);
        assert(rest =~= none);
        assert(star.subrange(0, 1) =~= star);
        assert(has_prefix(star, star));
        assert(!has_prefix(rest, star));
        assert(without_leading(rest, star) == rest);
        assert(star.subrange(star.len() as int, star.len() as int) == rest);
        assert(without_leading(star, star) == rest);
        lemma_trimmed_ends(none);
    }
}

/// The line that opens a block that the rewriter writes: it begins
/// with the opening marker, closes no comment and carries no text.
pub proof fn lemma_block_first_row(indent: Seq<char>)
    requires
        all_spaces(indent),
    ensures
        trimmed(indent + block_open()) == block_open(),
        !contains(indent + block_open(), block_close()),
        trimmed(without_leading(trimmed(without_leading(block_open(), block_open())), block_star()))
            == Seq::<char>::empty(),
{
    let none = Seq::<char>::empty();
    let m = block_open();
    let row = indent + m;
    assert(all_spaces(none));
    assert(row =~= indent + m + none);
    lemma_trimmed_core(indent, m, none);
    assert forall|i: int| 0 <= i && i + 1 < row.len() implies !(#[trigger] row[i] == '*' && row[i
        + 1] == '/') by {
        if i < indent.len() {
            assert(row[i] == indent[i]);
        }
    }
    lemma_no_pair(row, '*', '/');
    let rest = m.subrange(3, 3);
    assert(rest =~= none);
    assert(m.subrange(0, 3) =~= m);
    assert(has_prefix(m, m));
    assert(!has_prefix(rest, m));
    assert(without_leading(rest, m) == rest);
    assert(m.subrange(m.len() as int, m.len() as int) == rest);
    assert(without_leading(m, m) == rest);
    lemma_trimmed_ends(none);
    assert(!has_prefix(none, block_star()));
    assert(without_leading(none, block_star()) == none);
}

/// The line that closes a block that the rewriter writes: it ends with
/// the closing marker, is no filler, opens and begins no comment and
/// carries no text.
pub proof fn lemma_block_last_row(indent: Seq<char>)
    requires
        all_spaces(indent),
    ensures
        trimmed(indent + seq![' ', '*', '/']) == block_close(),
        !is_filler(indent + seq![' ', '*', '/']),
        !contains(indent + seq![' ', '*', '/'], comment_open()),
        trimmed(without_leading(trimmed(without_trailing(block_close(), block_close())), block_star()))
            == Seq::<char>::empty(),
{
    let none = Seq::<char>::empty();
    let m = block_close();
    let row = indent + seq![' ', '*', '/'];
    let pad = indent + seq![' '];
    assert(all_spaces(none));
    assert(all_spaces(pad)) by {
        assert forall|i: int| 0 <= i < pad.len() implies is_space(#[trigger] pad[i]) by {
            if i < indent.len() {
                assert(pad[i] == indent[i]);
            }
        }
    }
    assert(row =~= pad + m + none);
    lemma_trimmed_core(pad, m, none);
    assert(!has_prefix(m, line_comment())) by {
        if has_prefix(m, line_comment()) {
            assert(m.subrange(0, 2)[0] == line_comment()[0]);
        }
    }
    assert forall|i: int| 0 <= i && i + 1 < row.len() implies !(#[trigger] row[i] == '/' && row[i
        + 1] == '*') by {
        if i < indent.len() {
            assert(row[i] == indent[i]);
        }
    }
    lemma_no_pair(row, '/', '*');
    let rest = m.subrange(0, 0);
    assert(rest =~= none);
    assert(m.subrange(0, 2) =~= m);
    assert(has_suffix(m, m));
    assert(!has_suffix(rest, m));
    assert(without_trailing(rest, m) == rest);
    assert(m.subrange(0, m.len() - m.len()) == rest);
    assert(without_trailing(m, m) == rest);
    lemma_trimmed_ends(none);
    assert(!has_prefix(none, block_star()));
    assert(without_leading(none, block_star()) == none);
}

/// `skip_filler_back` returns the only index with the properties that
/// `lemma_skip_filler_back` states.
pub proof fn lemma_skip_filler_back_is(lines: Seq<Seq<char>>, at: int, r: int)
    requires
        0 <= r <= at <= lines.len(),
        forall|j: int| r <= j < at ==> is_filler(#[trigger] lines[j]),
        r == 0 || !is_filler(lines[r - 1]),
    ensures
        skip_filler_back(lines, at) == r,
{
    lemma_skip_filler_back(lines, at);
    let x = skip_filler_back(lines, at);
    if x > r {
        assert(is_filler(lines[x - 1]));
    } else if x < r {
        assert(is_filler(lines[r - 1]));
    }
}

/// The upward scan for an opening line passes over lines that open and
/// close no comment.
pub proof fn lemma_opening_above_over(lines: Seq<Seq<char>>, i: int, r: int)
    requires
        -1 <= r <= i < lines.len(),
        forall|j: int|
            r < j <= i ==> !contains(#[trigger] lines[j], block_close()) && !has_prefix(
                trimmed(lines[j]),
                block_open(),
            ) && !contains(lines[j], comment_open()),
    ensures
        opening_above(lines, i) == opening_above(lines, r),
    decreases i - r,
{
    if r < i {
        assert(!contains(lines[i], block_close()));
        lemma_opening_above_over(lines, i - 1, r);
    }
}

/// Joining after an empty first line puts a line feed in front.
pub proof fn lemma_joined_after_empty(rest: Seq<Seq<char>>)
    requires
        rest.len() > 0,
    ensures
        joined(seq![Seq::<char>::empty()] + rest) == seq!['\n'] + joined(rest),
    decreases rest.len(),
{
    let none = Seq::<char>::empty();
    let all = seq![none] + rest;
    assert(all.last() == rest.last());
    assert(all.drop_last() =~= seq![none] + rest.drop_last());
    if rest.len() == 1 {
        assert(all.drop_last() =~= seq![none]);
        assert(joined(all.drop_last()) == none);
        assert(joined(rest) == rest[0]);
        assert(joined(all) =~= seq!['\n'] + joined(rest));
    } else {
        lemma_joined_after_empty(rest.drop_last());
        assert(joined(all) =~= seq!['\n'] + joined(rest));
    }
}

/// Documentation that is written above a definition as a `/** ... */`
/// block is read back from above that definition: its lines, each
/// trimmed, joined by line feeds, and the whole trimmed.
///
/// `lines` are the lines of a text and `d` is the index of a definition
/// line; the indentation is white space, and no line of the
/// documentation opens or closes a comment.
pub proof fn lemma_block_doc_round_trip(
    lines: Seq<Seq<char>>,
    d: int,
    indent: Seq<char>,
    text: Seq<char>,
)
    requires
        0 <= d < lines.len(),
        all_spaces(indent),
        forall|k: int|
            0 <= k < lines_of(text).len() ==> !contains(
                trimmed(#[trigger] lines_of(text)[k]),
                comment_open(),
            ) && !contains(trimmed(lines_of(text)[k]), block_close()),
    ensures
        ({
            let (a, b) = block_doc_span(lines, d);
            let moved = lines_of(text).len() + 2 - (b - a);
            preceding_block_doc(
                with_documentation(DocConvention::BlockComment, lines, d, indent, text),
                d + moved,
            ) == Some(trimmed(joined(trimmed_lines(text))))
        }),
{
    let none = Seq::<char>::empty();
    let (a, b) = block_doc_span(lines, d);
    let rows = block_doc_rows(indent, text);
    let n = lines_of(text).len() as int;
    let out = with_documentation(DocConvention::BlockComment, lines, d, indent, text);
    let moved = n + 2 - (b - a);
    let dd = d + moved;
    let last = a + n + 1;
    lemma_block_doc_span(lines, d);
    lemma_skip_filler_back(lines, d);
    lemma_block_first_row(indent);
    lemma_block_last_row(indent);
    assert(rows.len() == n + 2);
    assert(out.len() == lines.len() + moved);
    assert(out[a] == rows[0]);
    assert(out[a] == indent + block_open());
    assert(out[last] == rows[n + 1]);
    assert(out[last] == indent + seq![' ', '*', '/']);
    assert forall|j: int| a < j < last implies {
        &&& !contains(#[trigger] out[j], block_close())
        &&& !has_prefix(trimmed(out[j]), block_open())
        &&& !contains(out[j], comment_open())
        &&& block_row_text(out, a, last + 1, j) == trimmed_lines(text)[j - a - 1]
    } by {
        let k = j - a - 1;
        assert(out[j] == rows[k + 1]);
        assert(rows[k + 1] == block_doc_row(indent, lines_of(text)[k]));
        lemma_block_doc_row(indent, lines_of(text)[k]);
    }
    assert forall|j: int| last + 1 <= j < dd implies is_filler(#[trigger] out[j]) by {
        assert(out[j] == lines[j - moved]);
        assert(is_filler(lines[j - moved]));
    }
    lemma_skip_filler_back_is(out, dd, last + 1);
    // The closing line leads up to the opening line.
    assert(!has_prefix(block_close(), block_open()));
    lemma_opening_above_over(out, last - 1, a);
    assert(has_prefix(block_open(), block_open())) by {
        assert(block_open().subrange(0, 3) =~= block_open());
    }
    assert(opening_above(out, a) == a);
    assert(opening_of(out, last) == a);
    assert(has_suffix(block_close(), block_close())) by {
        assert(block_close().subrange(0, 2) =~= block_close());
    }
    assert(block_doc_span(out, dd) == (a, last + 1));
    // The texts of the lines are an empty text, the trimmed lines, an empty text.
    let texts = Seq::new((n + 2) as nat, |k: int| block_row_text(out, a, last + 1, a + k));
    assert(block_row_text(out, a, last + 1, a) == none);
    assert(block_row_text(out, a, last + 1, last) == none);
    let inner = trimmed_lines(text);
    assert(texts =~= seq![none] + (inner + seq![none])) by {
        assert forall|k: int| 0 <= k < n + 2 implies texts[k] == (seq![none] + (inner + seq![
            none,
        ]))[k] by {
            if 0 < k < n + 1 {
                assert(block_row_text(out, a, last + 1, a + k) == inner[a + k - a - 1]);
            }
        }
    }
    let tail = inner + seq![none];
    lemma_joined_after_empty(tail);
    assert(tail.last() == none);
    assert(tail.drop_last() =~= inner);
    let feed = seq!['\n'];
    assert(all_spaces(feed));
    if n == 0 {
        assert(joined(tail) == none);
        assert(joined(inner) == none);
        assert(joined(texts) =~= feed + none + none);
        lemma_trimmed_padded(feed, none, none);
        assert(all_spaces(none));
    } else {
        assert(joined(tail) == joined(inner) + feed + none);
        assert(joined(texts) =~= feed + joined(inner) + feed);
        lemma_trimmed_padded(feed, joined(inner), feed);
    }
}

/// After documentation has been written above a definition, an item
/// that is made for a definition on that line, without a literal in its
/// body, carries that documentation: its lines, each trimmed.
///
/// `lines` are the lines of a text and `d` is the index of a definition
/// line; `def` is what a parser reports of the definition in the
/// rewritten text. The indentation is white space. For `///` lines the
/// documentation has at least one line; for a block none of its lines
/// opens or closes a comment.
pub proof fn lemma_rewritten_item_documented(
    convention: DocConvention,
    lines: Seq<Seq<char>>,
    d: int,
    indent: Seq<char>,
    text: Seq<char>,
    def: DefinitionView,
    item_type: ItemType,
    parent: Option<Seq<char>>,
)
    requires
        0 <= d < lines.len(),
        all_spaces(indent),
        convention == DocConvention::LineComments ==> lines_of(text).len() > 0,
        convention == DocConvention::BlockComment ==> forall|k: int|
            0 <= k < lines_of(text).len() ==> !contains(
                trimmed(#[trigger] lines_of(text)[k]),
                comment_open(),
            ) && !contains(trimmed(lines_of(text)[k]), block_close()),
        convention != DocConvention::InlineLiteral,
        def.inline_doc is None,
        def.first_line == d + crate::rewrite::doc_rows(convention, indent, text).len() - (
        crate::rewrite::doc_span(convention, lines, d).1 - crate::rewrite::doc_span(
            convention,
            lines,
            d,
        ).0) + 1,
    ensures
        item_for(
            convention,
            with_documentation(convention, lines, d, indent, text),
            def,
            item_type,
            parent,
        ).existing_docstring == Some(
            if convention == DocConvention::LineComments {
                joined(trimmed_lines(text))
            } else {
                trimmed(joined(trimmed_lines(text)))
            },
        ),
{
    crate::rewrite::lemma_other_lines_kept(convention, lines, d, indent, text);
    match convention {
        DocConvention::LineComments => {
            lemma_line_doc_round_trip(lines, d, indent, text);
        },
        DocConvention::BlockComment => {
            lemma_block_doc_round_trip(lines, d, indent, text);
        },
        DocConvention::InlineLiteral => {},
    }
}

} // verus!
