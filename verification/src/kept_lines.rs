//! The lines that a rewrite keeps.
//!
//! Each edit takes one span of lines out of the text and puts its
//! documentation lines there. To tell the lines of the text from the
//! lines that the edits write, every line is marked. The lines that
//! are still marked as lines of the text after all edits are the lines
//! of the text with one span left out for each edit: the same lines in
//! the same order.

use crate::rewrite::{
    applicable, apply_edits, doc_rows, doc_span, lemma_doc_span, with_documentation,
    DocConvention, EditView,
};
use vstd::prelude::*;

verus! {

/// A line, and whether it is a line of the text that was to be
/// rewritten.
pub struct Marked {
    pub text: Seq<char>,
    pub old: bool,
}

/// The lines, marked as lines of the text or as written lines.
pub open spec fn marked(lines: Seq<Seq<char>>, old: bool) -> Seq<Marked> {
    Seq::new(lines.len(), |i: int| Marked { text: lines[i], old })
}

/// The lines without their marks.
pub open spec fn texts_of(lines: Seq<Marked>) -> Seq<Seq<char>> {
    Seq::new(lines.len(), |i: int| lines[i].text)
}

/// The lines that are marked as lines of the text, in order.
pub open spec fn old_lines(lines: Seq<Marked>) -> Seq<Seq<char>>
    decreases lines.len(),
{
    if lines.len() == 0 {
        Seq::empty()
    } else if lines.last().old {
        old_lines(lines.drop_last()).push(lines.last().text)
    } else {
        old_lines(lines.drop_last())
    }
}

/// The marked lines after one edit: the span of the old documentation
/// gives way to the documentation lines, which are marked as written.
pub open spec fn documented(
    convention: DocConvention,
    lines: Seq<Marked>,
    d: int,
    indent: Seq<char>,
    text: Seq<char>,
) -> Seq<Marked> {
    let (a, b) = doc_span(convention, texts_of(lines), d);
    lines.subrange(0, a) + marked(doc_rows(convention, indent, text), false) + lines.subrange(
        b,
        lines.len() as int,
    )
}

/// The marked lines after the edits have been applied one after
/// another, or `None` if one of them cannot be applied.
pub open spec fn apply_marked(
    convention: DocConvention,
    lines: Seq<Marked>,
    edits: Seq<EditView>,
) -> Option<Seq<Marked>>
    decreases edits.len(),
{
    if edits.len() == 0 {
        Some(lines)
    } else if applicable(convention, texts_of(lines), edits[0]) {
        apply_marked(
            convention,
            documented(
                convention,
                lines,
                edits[0].line - 1,
                edits[0].indentation,
                edits[0].text,
            ),
            edits.drop_first(),
        )
    } else {
        None
    }
}

/// Whether `kept` is `lines` with `n` spans of lines left out, one
/// after another: the lines that are left are the same lines in the
/// same order.
pub open spec fn spans_left_out(kept: Seq<Seq<char>>, lines: Seq<Seq<char>>, n: nat) -> bool
    decreases n,
{
    if n == 0 {
        kept == lines
    } else {
        exists|i: int, j: int|
            0 <= i <= j <= lines.len() && spans_left_out(
                kept,
                #[trigger] (lines.subrange(0, i) + lines.subrange(j, lines.len() as int)),
                (n - 1) as nat,
            )
    }
}

/// The old lines of two runs of lines are those of the first, then
/// those of the second.
pub proof fn lemma_old_lines_of_both(first: Seq<Marked>, second: Seq<Marked>)
    ensures
        old_lines(first + second) == old_lines(first) + old_lines(second),
    decreases second.len(),
{
    if second.len() == 0 {
        assert(first + second =~= first);
        assert(old_lines(first) + old_lines(second) =~= old_lines(first));
    } else {
        let both = first + second;
        assert(both.drop_last() =~= first + second.drop_last());
        assert(both.last() == second.last());
        lemma_old_lines_of_both(first, second.drop_last());
        if second.last().old {
            assert(old_lines(both) =~= old_lines(first) + old_lines(second));
        }
    }
}

/// Lines that are all marked as lines of the text are all old lines,
/// and lines that are all marked as written hold none.
pub proof fn lemma_old_lines_of_marked(lines: Seq<Seq<char>>, old: bool)
    ensures
        old_lines(marked(lines, old)) == if old {
            lines
        } else {
            Seq::empty()
        },
        texts_of(marked(lines, old)) == lines,
    decreases lines.len(),
{
    assert(texts_of(marked(lines, old)) =~= lines);
    if lines.len() > 0 {
        lemma_old_lines_of_marked(lines.drop_last(), old);
        assert(marked(lines, old).drop_last() =~= marked(lines.drop_last(), old));
        if old {
            assert(old_lines(marked(lines, old)) =~= lines);
        }
    }
}

/// Without their marks, the marked lines after the edits are the lines
/// after the edits.
pub proof fn lemma_marks_change_nothing(
    convention: DocConvention,
    lines: Seq<Marked>,
    edits: Seq<EditView>,
)
    ensures
        match apply_marked(convention, lines, edits) {
            Some(out) => apply_edits(convention, texts_of(lines), edits) == Some(texts_of(out)),
            None => apply_edits(convention, texts_of(lines), edits) is None,
        },
    decreases edits.len(),
{
    if edits.len() > 0 && applicable(convention, texts_of(lines), edits[0]) {
        let e = edits[0];
        let d = e.line - 1;
        let next = documented(convention, lines, d, e.indentation, e.text);
        lemma_doc_span(convention, texts_of(lines), d);
        lemma_old_lines_of_marked(doc_rows(convention, e.indentation, e.text), false);
        assert(texts_of(next) =~= with_documentation(
            convention,
            texts_of(lines),
            d,
            e.indentation,
            e.text,
        ));
        lemma_marks_change_nothing(convention, next, edits.drop_first());
    }
}

/// The lines that are still marked as lines of the text after the
/// edits are those before the edits with one span left out for each
/// edit.
pub proof fn lemma_old_lines_after_edits(
    convention: DocConvention,
    lines: Seq<Marked>,
    edits: Seq<EditView>,
)
    requires
        apply_marked(convention, lines, edits) is Some,
    ensures
        spans_left_out(
            old_lines(apply_marked(convention, lines, edits)->Some_0),
            old_lines(lines),
            edits.len(),
        ),
    decreases edits.len(),
{
    if edits.len() > 0 {
        let e = edits[0];
        let d = e.line - 1;
        let rest = edits.drop_first();
        let next = documented(convention, lines, d, e.indentation, e.text);
        let (a, b) = doc_span(convention, texts_of(lines), d);
        lemma_doc_span(convention, texts_of(lines), d);
        lemma_old_lines_after_edits(convention, next, rest);
        let head = lines.subrange(0, a);
        let gone = lines.subrange(a, b);
        let tail = lines.subrange(b, lines.len() as int);
        let written = marked(doc_rows(convention, e.indentation, e.text), false);
        lemma_old_lines_of_marked(doc_rows(convention, e.indentation, e.text), false);
        lemma_old_lines_of_both(head, written);
        lemma_old_lines_of_both(head + written, tail);
        assert(lines =~= head + gone + tail);
        lemma_old_lines_of_both(head, gone);
        lemma_old_lines_of_both(head + gone, tail);
        let all = old_lines(lines);
        let i = old_lines(head).len() as int;
        let j = i + old_lines(gone).len();
        assert(all == old_lines(head) + old_lines(gone) + old_lines(tail));
        assert(all.subrange(0, i) + all.subrange(j, all.len() as int) =~= old_lines(next));
        assert(spans_left_out(
            old_lines(apply_marked(convention, next, rest)->Some_0),
            all.subrange(0, i) + all.subrange(j, all.len() as int),
            rest.len(),
        ));
    }
}

/// A rewrite keeps the lines of the text in their order: the lines
/// after the edits are lines of the text and written lines, and the
/// lines of the text among them are the lines of the text with one
/// span left out for each edit.
///
/// `out` are the marked lines after the edits; without the marks they
/// are the lines that the rewrite joins.
pub proof fn lemma_rewrite_keeps_order(
    convention: DocConvention,
    lines: Seq<Seq<char>>,
    edits: Seq<EditView>,
)
    requires
        apply_edits(convention, lines, edits) is Some,
    ensures
        apply_marked(convention, marked(lines, true), edits) is Some,
        texts_of(apply_marked(convention, marked(lines, true), edits)->Some_0) == apply_edits(
            convention,
            lines,
            edits,
        )->Some_0,
        spans_left_out(
            old_lines(apply_marked(convention, marked(lines, true), edits)->Some_0),
            lines,
            edits.len(),
        ),
{
    lemma_old_lines_of_marked(lines, true);
    lemma_marks_change_nothing(convention, marked(lines, true), edits);
    lemma_old_lines_after_edits(convention, marked(lines, true), edits);
}

} // verus!
