//! The lines of a rewritten text.
//!
//! The rewriter works on lines and joins them at the end; a reader of
//! the result splits it again. For a text without carriage returns that
//! ends with a line feed, and indentations of blanks and tabs, the
//! reader gets the lines that the rewriter made.

use crate::block_comments::{block_doc_row};
use crate::docstring::UpdatedDocstringView;
use crate::inline_literals::{inline_doc_row};
use crate::line_comments::{line_doc_row};
use crate::lines::{
    is_plain_line, joined, lemma_line_count, lemma_lines_from_plain,
    lemma_split_joined_terminated, lines_from, lines_of, terminated_line,
};
use crate::parser::CodeItemView;
use crate::rewrite::{
    apply_edits, doc_rows, doc_span, edits_for, insert_edit, lemma_doc_span, ordered, rewritten, text_of_lines, with_documentation, DocConvention, EditView,
};
use crate::text::{is_space, lemma_skip_backward, lemma_skip_forward, trimmed};
use vstd::prelude::*;

verus! {

/// Whether a text is made of blanks and tabs.
pub open spec fn is_indent(s: Seq<char>) -> bool {
    forall|k: int| 0 <= k < s.len() ==> #[trigger] s[k] == ' ' || s[k] == '\t'
}

/// Whether a text holds no line feed.
pub open spec fn no_feed(s: Seq<char>) -> bool {
    forall|k: int| 0 <= k < s.len() ==> #[trigger] s[k] != '\n'
}

/// Whether an edit can be written into lines: its indentation is made
/// of blanks and tabs, and for a literal its text holds no carriage
/// return.
pub open spec fn writable(convention: DocConvention, e: EditView) -> bool {
    is_indent(e.indentation) && (convention == DocConvention::InlineLiteral ==> !e.text.contains(
        '\r',
    ))
}

/// A trimmed text holds no line feed if the text holds none, and does
/// not end with a carriage return.
pub proof fn lemma_trimmed_plain(s: Seq<char>)
    requires
        no_feed(s),
    ensures
        is_plain_line(trimmed(s)),
{
    let sp = |c: char| is_space(c);
    lemma_skip_forward(s, sp, 0);
    lemma_skip_backward(s, sp, s.len() as int);
    let a = skip_forward_of(s);
    let b = skip_backward_of(s);
    if a < b {
        let t = s.subrange(a, b);
        assert forall|k: int| 0 <= k < t.len() implies #[trigger] t[k] != '\n' by {
            assert(t[k] == s[a + k]);
        }
        assert(t.last() == s[b - 1]);
        assert(!is_space(s[b - 1]));
    }
}

/// The index at which the trimmed form of `s` begins.
pub open spec fn skip_forward_of(s: Seq<char>) -> int {
    crate::text::skip_forward(s, |c: char| is_space(c), 0)
}

/// The index at which the trimmed form of `s` ends.
pub open spec fn skip_backward_of(s: Seq<char>) -> int {
    crate::text::skip_backward(s, |c: char| is_space(c), s.len() as int)
}

/// An indentation, a marker and a trimmed text make a plain line.
pub proof fn lemma_marked_row_plain(indent: Seq<char>, marker: Seq<char>, text: Seq<char>)
    requires
        is_indent(indent),
        no_feed(marker),
        marker.len() > 0,
        !is_space(marker.last()),
        is_plain_line(text),
        text.len() > 0 ==> !is_space(text.last()),
    ensures
        is_plain_line(indent + marker),
        is_plain_line(indent + marker + seq![' '] + text) || text.len() == 0,
{
    let bare = indent + marker;
    assert forall|k: int| 0 <= k < bare.len() implies #[trigger] bare[k] != '\n' by {
        if k < indent.len() {
            assert(bare[k] == indent[k]);
        } else {
            assert(bare[k] == marker[k - indent.len()]);
        }
    }
    assert(bare.last() == marker.last());
    if text.len() > 0 {
        let full = indent + marker + seq![' '] + text;
        assert forall|k: int| 0 <= k < full.len() implies #[trigger] full[k] != '\n' by {
            if k < bare.len() {
                assert(full[k] == bare[k]);
            } else if k == bare.len() {
                assert(full[k] == ' ');
            } else {
                assert(full[k] == text[k - bare.len() - 1]);
            }
        }
        assert(full.last() == text.last());
    }
}

/// The documentation lines of a writable edit are plain lines and not
/// empty.
pub proof fn lemma_doc_rows_plain(convention: DocConvention, e: EditView)
    requires
        writable(convention, e),
    ensures
        forall|k: int|
            0 <= k < doc_rows(convention, e.indentation, e.text).len() ==> is_plain_line(
                #[trigger] doc_rows(convention, e.indentation, e.text)[k],
            ) && doc_rows(convention, e.indentation, e.text)[k].len() > 0,
{
    let rows = doc_rows(convention, e.indentation, e.text);
    let source = lines_of(e.text);
    let indent = e.indentation;
    lemma_lines_from_plain(e.text, 0, 0);
    assert forall|k: int| 0 <= k < rows.len() implies is_plain_line(#[trigger] rows[k])
        && rows[k].len() > 0 by {
        match convention {
            DocConvention::LineComments => {
                let line = source[k];
                assert(no_feed(line)) by {
                    assert forall|j: int| 0 <= j < line.len() implies #[trigger] line[j]
                        != '\n' by {
                        assert(source[k][j] != '\n');
                    }
                }
                lemma_trimmed_plain(line);
                crate::text::lemma_trimmed_ends(line);
                let m = crate::line_comments::doc_marker();
                lemma_marked_row_plain(indent, m, trimmed(line));
                assert(rows[k] == line_doc_row(indent, line));
            },
            DocConvention::BlockComment => {
                if k == 0 {
                    let m = crate::block_comments::block_open();
                    lemma_marked_row_plain(indent, m, Seq::empty());
                    assert(rows[k] == indent + m);
                } else if k == rows.len() - 1 {
                    let m = seq![' ', '*', '/'];
                    lemma_marked_row_plain(indent, m, Seq::empty());
                    assert(rows[k] == indent + m);
                } else {
                    let line = source[k - 1];
                    assert(no_feed(line)) by {
                        assert forall|j: int| 0 <= j < line.len() implies #[trigger] line[j]
                            != '\n' by {
                            assert(source[k - 1][j] != '\n');
                        }
                    }
                    lemma_trimmed_plain(line);
                    crate::text::lemma_trimmed_ends(line);
                    let m = seq![' ', '*'];
                    lemma_marked_row_plain(indent, m, trimmed(line));
                    assert(rows[k] == block_doc_row(indent, line));
                    assert(indent + seq![' ', '*', ' '] + trimmed(line) =~= indent + m + seq![
                        ' ',
                    ] + trimmed(line));
                }
            },
            DocConvention::InlineLiteral => {
                let q = crate::inline_literals::double_quotes();
                let pad = crate::inline_literals::level();
                if source.len() == 0 {
                    let row = indent + pad + q + q;
                    assert(rows[k] == row);
                    assert forall|j: int| 0 <= j < row.len() implies #[trigger] row[j]
                        != '\n' by {
                        if j < indent.len() {
                            assert(row[j] == indent[j]);
                        }
                    }
                    assert(row.last() == '"');
                } else {
                    let line = source[k];
                    let row = inline_doc_row(indent, source, k);
                    assert(rows[k] == row);
                    assert(!line.contains('\r'));
                    let open = if k == 0 {
                        q
                    } else {
                        Seq::<char>::empty()
                    };
                    let close = if k == source.len() - 1 {
                        q
                    } else {
                        Seq::<char>::empty()
                    };
                    let head = indent + pad + open;
                    assert(row =~= head + line + close);
                    assert forall|j: int| 0 <= j < row.len() implies #[trigger] row[j]
                        != '\n' by {
                        if j < indent.len() {
                            assert(row[j] == indent[j]);
                        } else if j < head.len() {
                        } else if j < head.len() + line.len() {
                            assert(row[j] == line[j - head.len()]);
                            assert(source[k][j - head.len()] != '\n');
                        } else {
                            assert(row[j] == close[j - head.len() - line.len()]);
                        }
                    }
                    if close.len() > 0 {
                        assert(row.last() == '"');
                    } else if line.len() > 0 {
                        assert(row.last() == line.last());
                        assert(line.contains(line.last()));
                    } else {
                        assert(row.last() == head.last());
                    }
                }
            },
        }
    }
}

/// An edit of plain lines gives plain lines, and at least one.
pub proof fn lemma_with_documentation_plain(
    convention: DocConvention,
    lines: Seq<Seq<char>>,
    d: int,
    e: EditView,
)
    requires
        0 <= d < lines.len(),
        writable(convention, e),
        forall|i: int| 0 <= i < lines.len() ==> is_plain_line(#[trigger] lines[i]),
    ensures
        with_documentation(convention, lines, d, e.indentation, e.text).len() > 0,
        forall|i: int|
            0 <= i < with_documentation(convention, lines, d, e.indentation, e.text).len()
                ==> is_plain_line(
                #[trigger] with_documentation(convention, lines, d, e.indentation, e.text)[i],
            ),
{
    lemma_doc_span(convention, lines, d);
    lemma_doc_rows_plain(convention, e);
    crate::rewrite::lemma_other_lines_kept(convention, lines, d, e.indentation, e.text);
    let out = with_documentation(convention, lines, d, e.indentation, e.text);
    let rows = doc_rows(convention, e.indentation, e.text);
    let (a, b) = doc_span(convention, lines, d);
    assert forall|i: int| 0 <= i < out.len() implies is_plain_line(#[trigger] out[i]) by {
        if i < a {
            assert(out[i] == lines[i]);
        } else if i < a + rows.len() {
            assert(out[a + (i - a)] == rows[i - a]);
        } else {
            let j = i - rows.len() + (b - a);
            assert(out[j + (rows.len() - (b - a))] == lines[j]);
        }
    }
}

/// What is in `insert_edit(sorted, e)` is in `sorted` or is `e`.
pub proof fn lemma_insert_edit_members(sorted: Seq<EditView>, e: EditView)
    ensures
        forall|i: int|
            0 <= i < insert_edit(sorted, e).len() ==> #[trigger] insert_edit(sorted, e)[i] == e
                || sorted.contains(insert_edit(sorted, e)[i]),
    decreases sorted.len(),
{
    let out = insert_edit(sorted, e);
    if sorted.len() == 0 {
    } else if sorted.last().line >= e.line {
        assert forall|i: int| 0 <= i < out.len() implies #[trigger] out[i] == e || sorted.contains(
            out[i],
        ) by {
            if i < sorted.len() {
                assert(out[i] == sorted[i]);
            }
        }
    } else {
        lemma_insert_edit_members(sorted.drop_last(), e);
        let inner = insert_edit(sorted.drop_last(), e);
        assert forall|i: int| 0 <= i < out.len() implies #[trigger] out[i] == e || sorted.contains(
            out[i],
        ) by {
            if i < inner.len() {
                assert(out[i] == inner[i]);
                if inner[i] != e {
                    let j = choose|j: int|
                        0 <= j < sorted.drop_last().len() && sorted.drop_last()[j] == inner[i];
                    assert(sorted[j] == inner[i]);
                }
            } else {
                assert(out[i] == sorted[sorted.len() - 1]);
            }
        }
    }
}

/// What is among the ordered edits is among the edits.
pub proof fn lemma_ordered_members(edits: Seq<EditView>)
    ensures
        forall|i: int|
            0 <= i < ordered(edits).len() ==> edits.contains(#[trigger] ordered(edits)[i]),
    decreases edits.len(),
{
    if edits.len() > 0 {
        let front = edits.drop_last();
        lemma_ordered_members(front);
        lemma_insert_edit_members(ordered(front), edits.last());
        let out = ordered(edits);
        assert forall|i: int| 0 <= i < out.len() implies edits.contains(#[trigger] out[i]) by {
            if out[i] == edits.last() {
                assert(edits[edits.len() - 1] == out[i]);
            } else {
                let j = choose|j: int| 0 <= j < ordered(front).len() && ordered(front)[j] == out[i];
                let k = choose|k: int| 0 <= k < front.len() && front[k] == ordered(front)[j];
                assert(edits[k] == out[i]);
            }
        }
    }
}

/// Writable edits of plain lines give plain lines, and at least one if
/// there is an edit.
pub proof fn lemma_apply_edits_plain(
    convention: DocConvention,
    lines: Seq<Seq<char>>,
    edits: Seq<EditView>,
)
    requires
        apply_edits(convention, lines, edits) is Some,
        forall|i: int| 0 <= i < lines.len() ==> is_plain_line(#[trigger] lines[i]),
        forall|i: int| 0 <= i < edits.len() ==> writable(convention, #[trigger] edits[i]),
    ensures
        edits.len() > 0 ==> apply_edits(convention, lines, edits)->Some_0.len() > 0,
        forall|i: int|
            0 <= i < apply_edits(convention, lines, edits)->Some_0.len() ==> is_plain_line(
                #[trigger] apply_edits(convention, lines, edits)->Some_0[i],
            ),
    decreases edits.len(),
{
    if edits.len() > 0 {
        let first = edits[0];
        let rest = edits.drop_first();
        assert(1 <= first.line <= lines.len());
        let next = with_documentation(
            convention,
            lines,
            first.line - 1,
            first.indentation,
            first.text,
        );
        lemma_with_documentation_plain(convention, lines, first.line - 1, first);
        assert(apply_edits(convention, lines, edits) == apply_edits(convention, next, rest));
        assert forall|i: int| 0 <= i < rest.len() implies writable(
            convention,
            #[trigger] rest[i],
        ) by {
            assert(rest[i] == edits[i + 1]);
        }
        lemma_apply_edits_plain(convention, next, rest);
        if rest.len() == 0 {
            assert(apply_edits(convention, next, rest) == Some(next));
        }
    }
}

/// The lines of a rewritten text are the lines that the rewriter made:
/// those of the text, with the edits applied by descending line.
///
/// The text holds no carriage return and ends with a line feed; there
/// is at least one update, and every update names an item and has an
/// indentation of blanks and tabs. Where documentation is written as a
/// literal, the documentation holds no carriage return.
pub proof fn lemma_rewritten_lines(
    convention: DocConvention,
    content: Seq<char>,
    items: Seq<CodeItemView>,
    updates: Seq<UpdatedDocstringView>,
)
    requires
        !content.contains('\r'),
        content.len() > 0,
        content.last() == '\n',
        updates.len() > 0,
        rewritten(convention, content, items, updates) is Some,
        forall|k: int| 0 <= k < updates.len() ==> is_indent(#[trigger] updates[k].indentation),
        convention == DocConvention::InlineLiteral ==> forall|k: int|
            0 <= k < updates.len() ==> !(#[trigger] updates[k]).new_docstring.contains('\r'),
    ensures
        apply_edits(convention, lines_of(content), ordered(edits_for(items, updates))) is Some,
        lines_of(rewritten(convention, content, items, updates)->Some_0) == apply_edits(
            convention,
            lines_of(content),
            ordered(edits_for(items, updates)),
        )->Some_0,
{
    let edits = edits_for(items, updates);
    let lines = lines_of(content);
    let out = apply_edits(convention, lines, ordered(edits))->Some_0;
    lemma_lines_from_plain(content, 0, 0);
    assert forall|i: int| 0 <= i < lines.len() implies is_plain_line(#[trigger] lines[i]) by {
        assert(!lines[i].contains('\r'));
        if lines[i].len() > 0 {
            assert(lines[i].contains(lines[i].last()));
        }
        assert forall|k: int| 0 <= k < lines[i].len() implies #[trigger] lines[i][k] != '\n' by {
            assert(lines_from(content, 0, 0)[i][k] != '\n');
        }
    }
    lemma_ordered_members(edits);
    assert forall|i: int| 0 <= i < ordered(edits).len() implies writable(
        convention,
        #[trigger] ordered(edits)[i],
    ) by {
        let k = choose|k: int| 0 <= k < edits.len() && edits[k] == ordered(edits)[i];
        assert(edits[k].indentation == updates[k].indentation);
        assert(edits[k].text == updates[k].new_docstring);
    }
    lemma_ordered_length(edits);
    lemma_apply_edits_plain(convention, lines, ordered(edits));
    lemma_split_joined_terminated(out);
    assert(text_of_lines(content, out) == joined(out).push('\n'));
}

/// Ordering keeps the number of edits.
pub proof fn lemma_ordered_length(edits: Seq<EditView>)
    ensures
        ordered(edits).len() == edits.len(),
    decreases edits.len(),
{
    if edits.len() > 0 {
        lemma_ordered_length(edits.drop_last());
        lemma_insert_edit_length(ordered(edits.drop_last()), edits.last());
    }
}

/// Inserting an edit adds one.
pub proof fn lemma_insert_edit_length(sorted: Seq<EditView>, e: EditView)
    ensures
        insert_edit(sorted, e).len() == sorted.len() + 1,
    decreases sorted.len(),
{
    if sorted.len() > 0 && sorted.last().line < e.line {
        lemma_insert_edit_length(sorted.drop_last(), e);
    }
}

/// Joining a first line and more lines puts the first line and a line
/// feed in front of the others joined.
pub proof fn lemma_joined_first(first: Seq<char>, rest: Seq<Seq<char>>)
    requires
        rest.len() > 0,
    ensures
        joined(seq![first] + rest) == first + seq!['\n'] + joined(rest),
    decreases rest.len(),
{
    let all = seq![first] + rest;
    assert(all.last() == rest.last());
    assert(all.drop_last() =~= seq![first] + rest.drop_last());
    if rest.len() == 1 {
        assert(all.drop_last() =~= seq![first]);
        assert(joined(all.drop_last()) == first);
        assert(joined(rest) == rest[0]);
    } else {
        lemma_joined_first(first, rest.drop_last());
        assert(joined(all) =~= first + seq!['\n'] + joined(rest));
    }
}

/// The lines from a place in a text without carriage returns, joined,
/// are the text from there, up to the line feed at its end.
pub proof fn lemma_joined_lines_from(s: Seq<char>, start: int, at: int)
    requires
        !s.contains('\r'),
        0 <= start <= at <= s.len(),
        forall|k: int| start <= k < at ==> #[trigger] s[k] != '\n',
    ensures
        start == s.len() ==> lines_from(s, start, at).len() == 0,
        start < s.len() && s.last() == '\n' ==> joined(lines_from(s, start, at)).push('\n')
            == s.subrange(start, s.len() as int),
        start < s.len() && s.last() != '\n' ==> joined(lines_from(s, start, at)) == s.subrange(
            start,
            s.len() as int,
        ),
    decreases s.len() - at,
{
    let n = s.len() as int;
    let all = lines_from(s, start, at);
    if at >= n {
        if start < n {
            assert(s[n - 1] != '\n');
            assert(all =~= seq![s.subrange(start, n)]);
        }
    } else if s[at] == '\n' {
        let line = terminated_line(s, start, at);
        let rest = lines_from(s, at + 1, at + 1);
        if start < at && s[at - 1] == '\r' {
            assert(s.contains('\r'));
        }
        assert(line == s.subrange(start, at));
        lemma_joined_lines_from(s, at + 1, at + 1);
        if at + 1 == n {
            assert(rest =~= Seq::<Seq<char>>::empty());
            assert(all =~= seq![line]);
            assert(joined(all).push('\n') =~= s.subrange(start, n));
        } else {
            lemma_line_count(s, at + 1, at + 1);
            lemma_joined_first(line, rest);
            if s.last() == '\n' {
                assert(joined(all).push('\n') =~= line + seq!['\n'] + joined(rest).push('\n'));
                assert(line + seq!['\n'] + s.subrange(at + 1, n) =~= s.subrange(start, n));
            } else {
                assert(line + seq!['\n'] + s.subrange(at + 1, n) =~= s.subrange(start, n));
            }
        }
    } else {
        assert forall|k: int| start <= k < at + 1 implies #[trigger] s[k] != '\n' by {}
        lemma_joined_lines_from(s, start, at + 1);
        assert(all == lines_from(s, start, at + 1));
    }
}

/// A text without carriage returns comes back when its lines are put
/// together again: a rewrite changes nothing but the lines that its
/// edits touch.
pub proof fn lemma_lines_give_the_text(content: Seq<char>)
    requires
        !content.contains('\r'),
    ensures
        text_of_lines(content, lines_of(content)) == content,
{
    lemma_joined_lines_from(content, 0, 0);
    if content.len() > 0 {
        assert(content.subrange(0, content.len() as int) =~= content);
    } else {
        assert(joined(lines_of(content)) =~= content);
    }
}

} // verus!
