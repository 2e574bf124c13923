//! Rewriting a source text so that it carries new documentation.
//!
//! The text is split into lines once. The updates are resolved against
//! the items parsed from that same text, ordered by descending line, and
//! applied one after another, each replacing the documentation of its
//! definition or adding it where there is none. Since an edit only
//! touches lines next to its definition, the lines of the definitions
//! above it stay where they were.

use crate::block_comments::{
    block_doc_rows, block_doc_span, find_block_doc_span, lemma_block_doc_span, make_block_doc_rows,
};
use crate::docstring::{update_views, UpdatedDocstring, UpdatedDocstringView};
use crate::error::{DocGenError, DocGenResult};
use crate::inline_literals::{
    closes_header, find_inline_doc_span, inline_doc_rows, inline_doc_span, is_header_end,
    is_literal_safe, lemma_inline_doc_span, literal_safe, make_inline_doc_rows,
};
use crate::line_comments::{
    find_line_doc_span, lemma_line_doc_span, line_doc_rows, line_doc_span, make_line_doc_rows,
};
use crate::lines::{append_lines, copy_lines, join_lines, joined, lines_of, rows, split_lines};
use crate::parser::{item_views, CodeItem, CodeItemView};
use crate::text::{chars_of, text_of};
use vstd::prelude::*;
use vstd::string::StringExecFns;

verus! {

/// How a language writes the documentation of a definition.
#[derive(Clone, Copy, Debug, PartialEq, Eq, Structural)]
pub enum DocConvention {
    /// A run of `///` lines above the definition.
    LineComments,
    /// A `/** ... */` block above the definition.
    BlockComment,
    /// A string literal on the lines after the first line of the
    /// definition.
    InlineLiteral,
}

/// The lines `[a, b)` that hold the documentation of the definition on
/// line `d` (counted from 0); an empty span where there is none, at the
/// place where documentation would be added.
pub open spec fn doc_span(convention: DocConvention, lines: Seq<Seq<char>>, d: int) -> (int, int) {
    match convention {
        DocConvention::LineComments => line_doc_span(lines, d),
        DocConvention::BlockComment => block_doc_span(lines, d),
        DocConvention::InlineLiteral => inline_doc_span(lines, d),
    }
}

/// The source lines that carry a documentation text.
pub open spec fn doc_rows(convention: DocConvention, indent: Seq<char>, text: Seq<char>) -> Seq<
    Seq<char>,
> {
    match convention {
        DocConvention::LineComments => line_doc_rows(indent, text),
        DocConvention::BlockComment => block_doc_rows(indent, text),
        DocConvention::InlineLiteral => inline_doc_rows(indent, text),
    }
}

/// The lines after the definition on line `d` (counted from 0) has been
/// given the documentation `text`: the lines of `doc_span` give way to
/// those of `doc_rows`.
pub open spec fn with_documentation(
    convention: DocConvention,
    lines: Seq<Seq<char>>,
    d: int,
    indent: Seq<char>,
    text: Seq<char>,
) -> Seq<Seq<char>> {
    let (a, b) = doc_span(convention, lines, d);
    lines.subrange(0, a) + doc_rows(convention, indent, text) + lines.subrange(
        b,
        lines.len() as int,
    )
}

/// One resolved update: the line of the definition, counted from 1, the
/// indentation for the documentation lines and the documentation text.
pub struct Edit {
    pub line: usize,
    pub indentation: Vec<char>,
    pub text: Vec<char>,
}

/// The mathematical value of an [`Edit`].
pub struct EditView {
    pub line: nat,
    pub indentation: Seq<char>,
    pub text: Seq<char>,
}

impl View for Edit {
    type V = EditView;

    open spec fn view(&self) -> EditView {
        EditView { line: self.line as nat, indentation: self.indentation@, text: self.text@ }
    }
}

/// The values of a sequence of edits.
pub open spec fn edit_views(edits: Seq<Edit>) -> Seq<EditView> {
    Seq::new(edits.len(), |i: int| edits[i]@)
}

/// Whether every update names an item of `items`.
pub open spec fn resolvable(items: Seq<CodeItemView>, updates: Seq<UpdatedDocstringView>) -> bool {
    forall|k: int| 0 <= k < updates.len() ==> (#[trigger] updates[k]).item_index < items.len()
}

/// The edit that an update asks for.
pub open spec fn edit_for(items: Seq<CodeItemView>, update: UpdatedDocstringView) -> EditView {
    EditView {
        line: items[update.item_index as int].line_number,
        indentation: update.indentation,
        text: update.new_docstring,
    }
}

/// The edits that the updates ask for, in the order of the updates.
pub open spec fn edits_for(items: Seq<CodeItemView>, updates: Seq<UpdatedDocstringView>) -> Seq<
    EditView,
> {
    Seq::new(updates.len(), |k: int| edit_for(items, updates[k]))
}

/// `sorted` with `e` put behind the last edit whose line is not above
/// that of `e`.
pub open spec fn insert_edit(sorted: Seq<EditView>, e: EditView) -> Seq<EditView>
    decreases sorted.len(),
{
    if sorted.len() == 0 {
        seq![e]
    } else if sorted.last().line >= e.line {
        sorted.push(e)
    } else {
        insert_edit(sorted.drop_last(), e).push(sorted.last())
    }
}

/// The edits by descending line; edits of one line keep their order.
pub open spec fn ordered(edits: Seq<EditView>) -> Seq<EditView>
    decreases edits.len(),
{
    if edits.len() == 0 {
        Seq::empty()
    } else {
        insert_edit(ordered(edits.drop_last()), edits.last())
    }
}

/// Whether an edit can be applied to the lines: it names a line that
/// they have. Where documentation is written as a literal behind the
/// definition line, that line must end the header of the definition,
/// and the text must be one that can stand between the quotes as it is.
pub open spec fn applicable(convention: DocConvention, lines: Seq<Seq<char>>, e: EditView) -> bool {
    &&& 1 <= e.line <= lines.len()
    &&& convention == DocConvention::InlineLiteral ==> closes_header(lines[e.line - 1])
        && literal_safe(e.text)
}

/// The lines after the edits have been applied one after another, or
/// `None` if one of them cannot be applied to the lines that it meets.
pub open spec fn apply_edits(
    convention: DocConvention,
    lines: Seq<Seq<char>>,
    edits: Seq<EditView>,
) -> Option<Seq<Seq<char>>>
    decreases edits.len(),
{
    if edits.len() == 0 {
        Some(lines)
    } else if applicable(convention, lines, edits[0]) {
        apply_edits(
            convention,
            with_documentation(
                convention,
                lines,
                edits[0].line - 1,
                edits[0].indentation,
                edits[0].text,
            ),
            edits.drop_first(),
        )
    } else {
        None
    }
}

/// The text of the rewritten lines. It ends with a line feed if
/// `content` did.
pub open spec fn text_of_lines(content: Seq<char>, lines: Seq<Seq<char>>) -> Seq<char> {
    if content.len() > 0 && content.last() == '\n' {
        joined(lines).push('\n')
    } else {
        joined(lines)
    }
}

/// The text that results from applying `updates` to `content`, whose
/// items are `items`; `None` if an update names no item or cannot be
/// applied: it names a line that is not there, or, for a literal, a
/// line that does not end the header, or a text that cannot stand
/// between the quotes. Without updates the text is `content`.
pub open spec fn rewritten(
    convention: DocConvention,
    content: Seq<char>,
    items: Seq<CodeItemView>,
    updates: Seq<UpdatedDocstringView>,
) -> Option<Seq<char>> {
    if updates.len() == 0 {
        Some(content)
    } else if !resolvable(items, updates) {
        None
    } else {
        match apply_edits(convention, lines_of(content), ordered(edits_for(items, updates))) {
            Some(lines) => Some(text_of_lines(content, lines)),
            None => None,
        }
    }
}

/// The span that an edit replaces lies within the lines: above the
/// definition for comments, below its first line for a literal.
pub proof fn lemma_doc_span(convention: DocConvention, lines: Seq<Seq<char>>, d: int)
    requires
        0 <= d < lines.len(),
    ensures
        0 <= doc_span(convention, lines, d).0 <= doc_span(convention, lines, d).1 <= lines.len(),
        convention != DocConvention::InlineLiteral ==> doc_span(convention, lines, d).1 <= d,
        convention == DocConvention::InlineLiteral ==> d < doc_span(convention, lines, d).0,
{
    match convention {
        DocConvention::LineComments => lemma_line_doc_span(lines, d),
        DocConvention::BlockComment => lemma_block_doc_span(lines, d),
        DocConvention::InlineLiteral => lemma_inline_doc_span(lines, d),
    }
}

/// An edit leaves every line outside the span of the old documentation
/// as it was, in the same order, the line of the definition among them;
/// between the lines before the span and those after it stand the new
/// documentation lines.
pub proof fn lemma_other_lines_kept(
    convention: DocConvention,
    lines: Seq<Seq<char>>,
    d: int,
    indent: Seq<char>,
    text: Seq<char>,
)
    requires
        0 <= d < lines.len(),
    ensures
        ({
            let (a, b) = doc_span(convention, lines, d);
            let block = doc_rows(convention, indent, text);
            let out = with_documentation(convention, lines, d, indent, text);
            let moved = block.len() - (b - a);
            &&& out.len() == lines.len() + moved
            &&& forall|i: int| 0 <= i < a ==> #[trigger] out[i] == lines[i]
            &&& forall|k: int| 0 <= k < block.len() ==> #[trigger] out[a + k] == block[k]
            &&& forall|i: int| b <= i < lines.len() ==> #[trigger] out[i + moved] == lines[i]
            &&& !(a <= d < b)
            &&& out[if d < a {
                d
            } else {
                d + moved
            }] == lines[d]
        }),
{
    lemma_doc_span(convention, lines, d);
}

/// Whether `line` is one of the documentation lines that the edits
/// write.
pub open spec fn written_by(convention: DocConvention, edits: Seq<EditView>, line: Seq<char>) -> bool {
    exists|e: int|
        0 <= e < edits.len() && #[trigger] doc_rows(
            convention,
            edits[e].indentation,
            edits[e].text,
        ).contains(line)
}

/// Every line of a rewritten text is a line of the text it was made
/// from or a documentation line that one of the edits writes.
pub proof fn lemma_lines_kept_or_written(
    convention: DocConvention,
    lines: Seq<Seq<char>>,
    edits: Seq<EditView>,
)
    requires
        apply_edits(convention, lines, edits) is Some,
    ensures
        forall|i: int|
            0 <= i < apply_edits(convention, lines, edits)->Some_0.len() ==> lines.contains(
                #[trigger] apply_edits(convention, lines, edits)->Some_0[i],
            ) || written_by(convention, edits, apply_edits(convention, lines, edits)->Some_0[i]),
    decreases edits.len(),
{
    let out = apply_edits(convention, lines, edits)->Some_0;
    if edits.len() == 0 {
        assert forall|i: int| 0 <= i < out.len() implies lines.contains(#[trigger] out[i]) by {
            assert(lines[i] == out[i]);
        }
    } else {
        let first = edits[0];
        let d = first.line - 1;
        let block = doc_rows(convention, first.indentation, first.text);
        let next = with_documentation(convention, lines, d, first.indentation, first.text);
        let rest = edits.drop_first();
        assert(1 <= first.line <= lines.len());
        assert(apply_edits(convention, lines, edits) == apply_edits(convention, next, rest));
        lemma_lines_kept_or_written(convention, next, rest);
        lemma_other_lines_kept(convention, lines, d, first.indentation, first.text);
        lemma_doc_span(convention, lines, d);
        let (a, b) = doc_span(convention, lines, d);
        assert forall|i: int| 0 <= i < out.len() implies lines.contains(#[trigger] out[i])
            || written_by(convention, edits, out[i]) by {
            if next.contains(out[i]) {
                let j = choose|j: int| 0 <= j < next.len() && next[j] == out[i];
                if j < a {
                    assert(next[j] == lines[j]);
                } else if j < a + block.len() {
                    assert(next[a + (j - a)] == block[j - a]);
                    assert(block.contains(out[i]));
                    assert(doc_rows(convention, edits[0].indentation, edits[0].text).contains(
                        out[i],
                    ));
                } else {
                    let k = j - block.len() + (b - a);
                    assert(next[k + (block.len() - (b - a))] == lines[k]);
                }
            } else {
                assert(written_by(convention, rest, out[i]));
                let e = choose|e: int|
                    0 <= e < rest.len() && #[trigger] doc_rows(
                        convention,
                        rest[e].indentation,
                        rest[e].text,
                    ).contains(out[i]);
                assert(rest[e] == edits[e + 1]);
                assert(doc_rows(convention, edits[e + 1].indentation, edits[e + 1].text).contains(
                    out[i],
                ));
            }
        }
    }
}

/// `insert_edit` puts `e` at the position from which on every edit has
/// a lower line, and before which the edit, if any, has not.
pub proof fn lemma_insert_edit(sorted: Seq<EditView>, e: EditView, pos: int)
    requires
        0 <= pos <= sorted.len(),
        forall|j: int| pos <= j < sorted.len() ==> (#[trigger] sorted[j]).line < e.line,
        pos > 0 ==> sorted[pos - 1].line >= e.line,
    ensures
        insert_edit(sorted, e) == sorted.insert(pos, e),
    decreases sorted.len(),
{
    if sorted.len() == 0 {
        assert(seq![e] =~= sorted.insert(pos, e));
    } else if sorted.last().line >= e.line {
        assert(pos == sorted.len());
        assert(sorted.push(e) =~= sorted.insert(pos, e));
    } else {
        assert(pos < sorted.len());
        lemma_insert_edit(sorted.drop_last(), e, pos);
        assert(sorted.drop_last().insert(pos, e).push(sorted.last()) =~= sorted.insert(pos, e));
    }
}

/// Two edits of different lines are ordered alike whichever comes first.
pub proof fn lemma_ordered_pair(a: EditView, b: EditView)
    ensures
        ordered(seq![a, b]) == if a.line >= b.line {
            seq![a, b]
        } else {
            seq![b, a]
        },
{
    let both = seq![a, b];
    assert(both.drop_last() =~= seq![a]);
    assert(seq![a].drop_last() =~= Seq::<EditView>::empty());
    assert(ordered(seq![a].drop_last()) =~= Seq::<EditView>::empty());
    assert(ordered(seq![a]) =~= seq![a]);
    if a.line >= b.line {
        assert(seq![a].push(b) =~= seq![a, b]);
    } else {
        assert(insert_edit(Seq::<EditView>::empty(), b) =~= seq![b]);
        assert(seq![b].push(a) =~= seq![b, a]);
    }
}

/// Two updates for definitions on different lines give the same text
/// in either order.
pub proof fn lemma_two_updates_commute(
    convention: DocConvention,
    content: Seq<char>,
    items: Seq<CodeItemView>,
    first: UpdatedDocstringView,
    second: UpdatedDocstringView,
)
    requires
        first.item_index < items.len(),
        second.item_index < items.len(),
        items[first.item_index as int].line_number != items[second.item_index as int].line_number,
    ensures
        rewritten(convention, content, items, seq![first, second]) == rewritten(
            convention,
            content,
            items,
            seq![second, first],
        ),
{
    let a = edit_for(items, first);
    let b = edit_for(items, second);
    assert(edits_for(items, seq![first, second]) =~= seq![a, b]);
    assert(edits_for(items, seq![second, first]) =~= seq![b, a]);
    lemma_ordered_pair(a, b);
    lemma_ordered_pair(b, a);
    assert(resolvable(items, seq![first, second]));
    assert(resolvable(items, seq![second, first]));
}

/// An update that names no item makes the whole rewrite fail.
pub proof fn lemma_unknown_item_fails(
    convention: DocConvention,
    content: Seq<char>,
    items: Seq<CodeItemView>,
    updates: Seq<UpdatedDocstringView>,
    k: int,
)
    requires
        0 <= k < updates.len(),
        updates[k].item_index >= items.len(),
    ensures
        rewritten(convention, content, items, updates) is None,
{
}

/// The span of the documentation of the definition on line `d`.
pub fn find_doc_span(convention: DocConvention, lines: &Vec<Vec<char>>, d: usize) -> (r: (
    usize,
    usize,
))
    requires
        d < lines.len(),
    ensures
        (r.0 as int, r.1 as int) == doc_span(convention, rows(lines@), d as int),
        r.0 <= r.1 <= lines.len(),
{
    match convention {
        DocConvention::LineComments => find_line_doc_span(lines, d),
        DocConvention::BlockComment => find_block_doc_span(lines, d),
        DocConvention::InlineLiteral => find_inline_doc_span(lines, d),
    }
}

/// The source lines that carry a documentation text.
pub fn make_doc_rows(convention: DocConvention, indent: &Vec<char>, text: &Vec<char>) -> (r: Vec<
    Vec<char>,
>)
    ensures
        rows(r@) == doc_rows(convention, indent@, text@),
{
    match convention {
        DocConvention::LineComments => make_line_doc_rows(indent, text),
        DocConvention::BlockComment => make_block_doc_rows(indent, text),
        DocConvention::InlineLiteral => make_inline_doc_rows(indent, text),
    }
}

/// Gives the definition on line `d` (counted from 0) the documentation
/// `text`.
pub fn document(
    convention: DocConvention,
    lines: &Vec<Vec<char>>,
    d: usize,
    indent: &Vec<char>,
    text: &Vec<char>,
) -> (r: Vec<Vec<char>>)
    requires
        d < lines.len(),
    ensures
        rows(r@) == with_documentation(convention, rows(lines@), d as int, indent@, text@),
{
    let (a, b) = find_doc_span(convention, lines, d);
    let mut out = copy_lines(lines, 0, a);
    append_lines(&mut out, make_doc_rows(convention, indent, text));
    append_lines(&mut out, copy_lines(lines, b, lines.len()));
    out
}

/// Resolves the updates against `items` and orders the edits by
/// descending line; `None` if an update names no item.
pub fn resolve(items: &Vec<CodeItem>, updates: &[UpdatedDocstring]) -> (r: Option<Vec<Edit>>)
    ensures
        match r {
            Some(edits) => resolvable(item_views(items@), update_views(updates@)) && edit_views(
                edits@,
            ) == ordered(edits_for(item_views(items@), update_views(updates@))),
            None => !resolvable(item_views(items@), update_views(updates@)),
        },
{
    let ghost its = item_views(items@);
    let ghost ups = update_views(updates@);
    let ghost all = edits_for(its, ups);
    let mut sorted: Vec<Edit> = Vec::new();
    let mut k: usize = 0;
    assert(all.take(0) =~= Seq::<EditView>::empty());
    assert(edit_views(sorted@) =~= ordered(all.take(0)));
    while k < updates.len()
        invariant
            k <= updates.len(),
            its == item_views(items@),
            ups == update_views(updates@),
            all == edits_for(its, ups),
            forall|j: int| 0 <= j < k ==> (#[trigger] ups[j]).item_index < its.len(),
            edit_views(sorted@) == ordered(all.take(k as int)),
        decreases updates.len() - k,
    {
        let update = &updates[k];
        assert(ups[k as int] == update@);
        if update.item_index >= items.len() {
            return None;
        }
        assert(its[update.item_index as int] == items@[update.item_index as int]@);
        let edit = Edit {
            line: items[update.item_index].line_number,
            indentation: chars_of(update.indentation.as_str()),
            text: chars_of(update.new_docstring.as_str()),
        };
        assert(edit@ == all[k as int]);
        let ghost before = edit_views(sorted@);
        let mut pos: usize = sorted.len();
        while pos > 0 && sorted[pos - 1].line < edit.line
            invariant
                pos <= sorted.len(),
                before == edit_views(sorted@),
                forall|j: int| pos <= j < sorted.len() ==> (#[trigger] before[j]).line < edit@.line,
            decreases pos,
        {
            assert(before[pos - 1] == sorted@[pos - 1]@);
            pos -= 1;
        }
        proof {
            if pos > 0 {
                assert(before[pos - 1] == sorted@[pos - 1]@);
            }
            lemma_insert_edit(before, edit@, pos as int);
            assert(all.take(k + 1).drop_last() =~= all.take(k as int));
        }
        sorted.insert(pos, edit);
        assert(edit_views(sorted@) =~= before.insert(pos as int, all[k as int]));
        k += 1;
    }
    assert(all.take(updates.len() as int) =~= all);
    Some(sorted)
}

/// Applies the edits one after another; `None` if one of them cannot be
/// applied to the lines that it meets.
pub fn apply(convention: DocConvention, lines: Vec<Vec<char>>, edits: &Vec<Edit>) -> (r: Option<
    Vec<Vec<char>>,
>)
    ensures
        match r {
            Some(out) => apply_edits(convention, rows(lines@), edit_views(edits@)) == Some(
                rows(out@),
            ),
            None => apply_edits(convention, rows(lines@), edit_views(edits@)) is None,
        },
{
    let ghost all = edit_views(edits@);
    let mut current = lines;
    let mut i: usize = 0;
    assert(all.subrange(0, all.len() as int) =~= all);
    while i < edits.len()
        invariant
            i <= edits.len(),
            all == edit_views(edits@),
            apply_edits(convention, rows(lines@), all) == apply_edits(
                convention,
                rows(current@),
                all.subrange(i as int, all.len() as int),
            ),
        decreases edits.len() - i,
    {
        let edit = &edits[i];
        let ghost rest = all.subrange(i as int, all.len() as int);
        assert(rest[0] == edit@);
        assert(rest.drop_first() =~= all.subrange(i + 1, all.len() as int));
        if edit.line < 1 || edit.line > current.len() {
            return None;
        }
        assert(rows(current@)[edit.line - 1] == current@[edit.line - 1]@);
        if convention == DocConvention::InlineLiteral && !(is_header_end(&current[edit.line - 1])
            && is_literal_safe(&edit.text)) {
            return None;
        }
        current = document(convention, &current, edit.line - 1, &edit.indentation, &edit.text);
        i += 1;
    }
    Some(current)
}

/// Applies `updates` to `content`, whose items are `items`.
///
/// Fails, with nothing rewritten, if an update names an item that
/// `items` does not hold, or cannot be applied to the lines.
pub fn rewrite(
    convention: DocConvention,
    content: &str,
    items: &Vec<CodeItem>,
    updates: &[UpdatedDocstring],
) -> (r: DocGenResult<String>)
    ensures
        match rewritten(convention, content@, item_views(items@), update_views(updates@)) {
            Some(text) => r matches Ok(s) && s@ == text,
            None => r matches Err(DocGenError::UpdateError(_)),
        },
{
    if updates.len() == 0 {
        return Ok(String::from_str(content));
    }
    let edits = match resolve(items, updates) {
        Some(edits) => edits,
        None => {
            return Err(
                DocGenError::UpdateError(
                    String::from_str("an update refers to an item that the text does not have"),
                ),
            );
        },
    };
    let source = chars_of(content);
    let lines = split_lines(&source);
    match apply(convention, lines, &edits) {
        Some(out) => {
            let mut text = join_lines(&out);
            if source.len() > 0 && source[source.len() - 1] == '\n' {
                text.push('\n');
            }
            Ok(text_of(&text))
        },
        None => Err(
            DocGenError::UpdateError(
                String::from_str("an update cannot be applied to the text"),
            ),
        ),
    }
}

} // verus!
