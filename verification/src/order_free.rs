//! The order of the updates does not matter.
//!
//! Updates for definitions on different lines are applied by descending
//! line, whatever the order in which they are given.

use crate::docstring::UpdatedDocstringView;
use crate::parser::CodeItemView;
use crate::read_back::{lemma_insert_edit_members, lemma_ordered_members};
use crate::rewrite::{
    edit_for, edits_for, insert_edit, ordered, resolvable, rewritten, DocConvention, EditView,
};
use vstd::prelude::*;

verus! {

/// Whether the lines of the edits fall from each to the next.
pub open spec fn falling(edits: Seq<EditView>) -> bool {
    forall|i: int, j: int| 0 <= i < j < edits.len() ==> edits[i].line > edits[j].line
}

/// Whether two sequences hold the same things.
pub open spec fn same_members<T>(first: Seq<T>, second: Seq<T>) -> bool {
    forall|x: T| first.contains(x) <==> second.contains(x)
}

/// Whether no two of the updates are for definitions on one line.
pub open spec fn on_different_lines(
    items: Seq<CodeItemView>,
    updates: Seq<UpdatedDocstringView>,
) -> bool {
    forall|i: int, j: int|
        0 <= i < j < updates.len() ==> items[updates[i].item_index as int].line_number
            != items[updates[j].item_index as int].line_number
}

/// `insert_edit` keeps all of `sorted` and adds `e`.
pub proof fn lemma_insert_edit_keeps(sorted: Seq<EditView>, e: EditView)
    ensures
        insert_edit(sorted, e).contains(e),
        forall|i: int| 0 <= i < sorted.len() ==> insert_edit(sorted, e).contains(#[trigger] sorted[i]),
    decreases sorted.len(),
{
    let out = insert_edit(sorted, e);
    if sorted.len() == 0 {
        assert(out[0] == e);
    } else if sorted.last().line >= e.line {
        assert(out[sorted.len() as int] == e);
        assert forall|i: int| 0 <= i < sorted.len() implies out.contains(#[trigger] sorted[i]) by {
            assert(out[i] == sorted[i]);
        }
    } else {
        let front = sorted.drop_last();
        let inner = insert_edit(front, e);
        lemma_insert_edit_keeps(front, e);
        let k = choose|k: int| 0 <= k < inner.len() && inner[k] == e;
        assert(out[k] == e);
        assert forall|i: int| 0 <= i < sorted.len() implies out.contains(#[trigger] sorted[i]) by {
            if i < front.len() {
                assert(inner.contains(front[i]));
                let j = choose|j: int| 0 <= j < inner.len() && inner[j] == front[i];
                assert(out[j] == sorted[i]);
            } else {
                assert(out[inner.len() as int] == sorted[i]);
            }
        }
    }
}

/// The ordered edits hold all of the edits.
pub proof fn lemma_ordered_keeps(edits: Seq<EditView>)
    ensures
        forall|i: int| 0 <= i < edits.len() ==> ordered(edits).contains(#[trigger] edits[i]),
    decreases edits.len(),
{
    if edits.len() > 0 {
        let front = edits.drop_last();
        lemma_ordered_keeps(front);
        lemma_insert_edit_keeps(ordered(front), edits.last());
        let out = ordered(edits);
        assert forall|i: int| 0 <= i < edits.len() implies out.contains(#[trigger] edits[i]) by {
            if i < front.len() {
                assert(ordered(front).contains(front[i]));
                let j = choose|j: int| 0 <= j < ordered(front).len() && ordered(front)[j] == front[i];
                assert(out.contains(ordered(front)[j]));
            }
        }
    }
}

/// An edit whose line differs from all lines of falling edits is
/// inserted so that the lines still fall.
pub proof fn lemma_insert_edit_falls(sorted: Seq<EditView>, e: EditView)
    requires
        falling(sorted),
        forall|i: int| 0 <= i < sorted.len() ==> (#[trigger] sorted[i]).line != e.line,
    ensures
        falling(insert_edit(sorted, e)),
    decreases sorted.len(),
{
    let out = insert_edit(sorted, e);
    if sorted.len() == 0 {
    } else if sorted.last().line >= e.line {
        assert forall|i: int, j: int| 0 <= i < j < out.len() implies out[i].line > out[j].line by {
            if j == sorted.len() {
                assert(out[i] == sorted[i]);
                if i < sorted.len() - 1 {
                    assert(sorted[i].line > sorted[sorted.len() - 1].line);
                }
            } else {
                assert(out[i] == sorted[i] && out[j] == sorted[j]);
            }
        }
    } else {
        let front = sorted.drop_last();
        let inner = insert_edit(front, e);
        assert(falling(front)) by {
            assert forall|i: int, j: int| 0 <= i < j < front.len() implies front[i].line
                > front[j].line by {
                assert(front[i] == sorted[i] && front[j] == sorted[j]);
            }
        }
        assert forall|i: int| 0 <= i < front.len() implies (#[trigger] front[i]).line != e.line by {
            assert(front[i] == sorted[i]);
        }
        lemma_insert_edit_falls(front, e);
        lemma_insert_edit_members(front, e);
        crate::read_back::lemma_insert_edit_length(front, e);
        assert forall|i: int, j: int| 0 <= i < j < out.len() implies out[i].line > out[j].line by {
            if j < inner.len() {
                assert(out[i] == inner[i] && out[j] == inner[j]);
            } else {
                assert(out[j] == sorted.last());
                assert(out[i] == inner[i]);
                if inner[i] != e {
                    let k = choose|k: int| 0 <= k < front.len() && front[k] == inner[i];
                    assert(sorted[k].line > sorted[sorted.len() - 1].line);
                }
            }
        }
    }
}

/// Edits of different lines are ordered so that the lines fall.
pub proof fn lemma_ordered_falls(edits: Seq<EditView>)
    requires
        forall|i: int, j: int| 0 <= i < j < edits.len() ==> edits[i].line != edits[j].line,
    ensures
        falling(ordered(edits)),
    decreases edits.len(),
{
    if edits.len() > 0 {
        let front = edits.drop_last();
        assert forall|i: int, j: int| 0 <= i < j < front.len() implies front[i].line
            != front[j].line by {
            assert(front[i] == edits[i] && front[j] == edits[j]);
        }
        lemma_ordered_falls(front);
        lemma_ordered_members(front);
        assert forall|i: int| 0 <= i < ordered(front).len() implies (#[trigger] ordered(
            front,
        )[i]).line != edits.last().line by {
            let k = choose|k: int| 0 <= k < front.len() && front[k] == ordered(front)[i];
            assert(edits[k].line != edits[edits.len() - 1].line);
        }
        lemma_insert_edit_falls(ordered(front), edits.last());
    }
}

/// Two sequences of edits with falling lines that hold the same edits
/// are the same.
pub proof fn lemma_falling_is_unique(first: Seq<EditView>, second: Seq<EditView>)
    requires
        falling(first),
        falling(second),
        same_members(first, second),
    ensures
        first == second,
    decreases first.len(),
{
    if first.len() == 0 {
        if second.len() > 0 {
            assert(second.contains(second[0]));
            assert(first.contains(second[0]));
        }
        assert(first =~= second);
    } else {
        assert(first.contains(first[0]));
        let j = choose|j: int| 0 <= j < second.len() && second[j] == first[0];
        assert(second.contains(second[0]));
        let i = choose|i: int| 0 <= i < first.len() && first[i] == second[0];
        assert(i == 0 && j == 0) by {
            if j > 0 {
                assert(second[0].line > second[j].line);
                if i > 0 {
                    assert(first[0].line > first[i].line);
                }
            }
            if i > 0 {
                assert(first[0].line > first[i].line);
            }
        }
        let a = first.drop_first();
        let b = second.drop_first();
        assert(falling(a)) by {
            assert forall|p: int, q: int| 0 <= p < q < a.len() implies a[p].line > a[q].line by {
                assert(a[p] == first[p + 1] && a[q] == first[q + 1]);
            }
        }
        assert(falling(b)) by {
            assert forall|p: int, q: int| 0 <= p < q < b.len() implies b[p].line > b[q].line by {
                assert(b[p] == second[p + 1] && b[q] == second[q + 1]);
            }
        }
        assert forall|x: EditView| a.contains(x) <==> b.contains(x) by {
            if a.contains(x) {
                let p = choose|p: int| 0 <= p < a.len() && a[p] == x;
                assert(first[p + 1] == x);
                assert(first.contains(x));
                let q = choose|q: int| 0 <= q < second.len() && second[q] == x;
                if q == 0 {
                    assert(first[0].line > first[p + 1].line);
                }
                assert(b[q - 1] == x);
            }
            if b.contains(x) {
                let p = choose|p: int| 0 <= p < b.len() && b[p] == x;
                assert(second[p + 1] == x);
                assert(second.contains(x));
                let q = choose|q: int| 0 <= q < first.len() && first[q] == x;
                if q == 0 {
                    assert(second[0].line > second[p + 1].line);
                }
                assert(a[q - 1] == x);
            }
        }
        lemma_falling_is_unique(a, b);
        assert(first =~= seq![first[0]] + a);
        assert(second =~= seq![second[0]] + b);
    }
}

/// The same updates in another order give the same text, if no two of
/// them are for definitions on one line.
///
/// `first` and `second` hold the same updates, each of which names an
/// item.
pub proof fn lemma_order_of_updates_is_free(
    convention: DocConvention,
    content: Seq<char>,
    items: Seq<CodeItemView>,
    first: Seq<UpdatedDocstringView>,
    second: Seq<UpdatedDocstringView>,
)
    requires
        same_members(first, second),
        resolvable(items, first),
        on_different_lines(items, first),
        on_different_lines(items, second),
    ensures
        rewritten(convention, content, items, first) == rewritten(
            convention,
            content,
            items,
            second,
        ),
{
    let a = edits_for(items, first);
    let b = edits_for(items, second);
    assert(resolvable(items, second)) by {
        assert forall|k: int| 0 <= k < second.len() implies (#[trigger] second[k]).item_index
            < items.len() by {
            assert(second.contains(second[k]));
            let i = choose|i: int| 0 <= i < first.len() && first[i] == second[k];
            assert(first[i].item_index < items.len());
        }
    }
    if first.len() == 0 {
        if second.len() > 0 {
            assert(second.contains(second[0]));
            assert(first.contains(second[0]));
        }
    } else if second.len() == 0 {
        assert(first.contains(first[0]));
        assert(second.contains(first[0]));
    } else {
        assert forall|i: int, j: int| 0 <= i < j < a.len() implies a[i].line != a[j].line by {}
        assert forall|i: int, j: int| 0 <= i < j < b.len() implies b[i].line != b[j].line by {}
        lemma_ordered_falls(a);
        lemma_ordered_falls(b);
        lemma_ordered_members(a);
        lemma_ordered_members(b);
        lemma_ordered_keeps(a);
        lemma_ordered_keeps(b);
        assert forall|x: EditView| a.contains(x) <==> b.contains(x) by {
            if a.contains(x) {
                let i = choose|i: int| 0 <= i < a.len() && a[i] == x;
                assert(first.contains(first[i]));
                let j = choose|j: int| 0 <= j < second.len() && second[j] == first[i];
                assert(b[j] == edit_for(items, second[j]));
            }
            if b.contains(x) {
                let i = choose|i: int| 0 <= i < b.len() && b[i] == x;
                assert(second.contains(second[i]));
                let j = choose|j: int| 0 <= j < first.len() && first[j] == second[i];
                assert(a[j] == edit_for(items, first[j]));
            }
        }
        assert forall|x: EditView| ordered(a).contains(x) <==> ordered(b).contains(x) by {
            if ordered(a).contains(x) {
                let i = choose|i: int| 0 <= i < ordered(a).len() && ordered(a)[i] == x;
                assert(a.contains(ordered(a)[i]));
                assert(b.contains(x));
                let j = choose|j: int| 0 <= j < b.len() && b[j] == x;
                assert(ordered(b).contains(b[j]));
            }
            if ordered(b).contains(x) {
                let i = choose|i: int| 0 <= i < ordered(b).len() && ordered(b)[i] == x;
                assert(b.contains(ordered(b)[i]));
                assert(a.contains(x));
                let j = choose|j: int| 0 <= j < a.len() && a[j] == x;
                assert(ordered(a).contains(a[j]));
            }
        }
        lemma_falling_is_unique(ordered(a), ordered(b));
    }
}

} // verus!
