//! Finding the items whose documentation is missing or out of date.

use crate::error::DocGenResult;
use crate::parser::{CodeItem, CodeItemView, ItemType, ParsedCode};
use crate::text::{
    chars_of, contains, contains_folded, find_folded, find_in, same_text, shorter_than,
    strip_markers, trim, trimmed, unmarked, utf8_len,
};
use vstd::prelude::*;

verus! {

/// What is wrong with the documentation of an item.
#[derive(Clone, Copy, Debug, PartialEq, Eq, Structural)]
pub enum IssueType {
    /// The item has no documentation.
    Missing,
    /// The documentation no longer fits the item.
    Outdated,
}

impl IssueType {
    /// The lower-case word for the issue.
    pub open spec fn word(self) -> Seq<char> {
        match self {
            IssueType::Missing => "missing"@,
            IssueType::Outdated => "outdated"@,
        }
    }

    /// The lower-case word for the issue.
    pub fn as_str(&self) -> (r: &'static str)
        ensures
            r@ == self.word(),
    {
        match self {
            IssueType::Missing => "missing",
            IssueType::Outdated => "outdated",
        }
    }
}

/// A documentation defect of one item. `item_index` is the position of
/// the item in the `ParsedCode` that was analyzed, and means nothing for
/// any other.
#[derive(Debug)]
pub struct DocstringIssue {
    pub item_type: ItemType,
    pub name: String,
    pub line_number: usize,
    pub issue_type: IssueType,
    pub item_index: usize,
}

/// The mathematical value of a [`DocstringIssue`].
pub struct DocstringIssueView {
    pub item_type: ItemType,
    pub name: Seq<char>,
    pub line_number: nat,
    pub issue_type: IssueType,
    pub item_index: nat,
}

impl View for DocstringIssue {
    type V = DocstringIssueView;

    open spec fn view(&self) -> DocstringIssueView {
        DocstringIssueView {
            item_type: self.item_type,
            name: self.name@,
            line_number: self.line_number as nat,
            issue_type: self.issue_type,
            item_index: self.item_index as nat,
        }
    }
}

/// The values of a sequence of issues.
pub open spec fn issue_views(issues: Seq<DocstringIssue>) -> Seq<DocstringIssueView> {
    Seq::new(issues.len(), |i: int| issues[i]@)
}

/// New documentation for one item: the position of the item among the
/// items parsed from the text that is to be rewritten, the documentation
/// as plain lines, and the indentation to give each emitted line.
#[derive(Debug, Clone)]
pub struct UpdatedDocstring {
    pub item_index: usize,
    pub new_docstring: String,
    pub indentation: String,
}

/// The mathematical value of an [`UpdatedDocstring`].
pub struct UpdatedDocstringView {
    pub item_index: nat,
    pub new_docstring: Seq<char>,
    pub indentation: Seq<char>,
}

impl View for UpdatedDocstring {
    type V = UpdatedDocstringView;

    open spec fn view(&self) -> UpdatedDocstringView {
        UpdatedDocstringView {
            item_index: self.item_index as nat,
            new_docstring: self.new_docstring@,
            indentation: self.indentation@,
        }
    }
}

/// The values of a sequence of updates.
pub open spec fn update_views(updates: Seq<UpdatedDocstring>) -> Seq<UpdatedDocstringView> {
    Seq::new(updates.len(), |i: int| updates[i]@)
}

/// Documentation whose trimmed text takes fewer bytes than this is taken
/// for a placeholder.
pub const MIN_DOC_BYTES: usize = 10;

/// Whether an encoded parameter is the implicit receiver of a method.
pub open spec fn is_receiver(parameter: Seq<char>) -> bool {
    parameter == "self"@ || parameter == "this"@
}

/// Whether `doc` fails to mention the parameter: the parameter is not a
/// receiver, and its name, without `*` and `=` markers, does not occur in
/// `doc`.
pub open spec fn parameter_unmentioned(doc: Seq<char>, parameter: Seq<char>) -> bool {
    !is_receiver(parameter) && !contains(doc, unmarked(parameter))
}

/// Whether `doc` looks out of date for `item`: it does not mention one of
/// the parameters, or the item has a return annotation and `doc` has no
/// `return` in any ASCII case, or `doc` is a placeholder.
pub open spec fn likely_outdated(item: CodeItemView, doc: Seq<char>) -> bool {
    ||| exists|k: int|
        0 <= k < item.parameters.len() && parameter_unmentioned(doc, #[trigger] item.parameters[k])
    ||| (item.returns is Some && !contains_folded(doc, "return"@))
    ||| utf8_len(trimmed(doc)) < MIN_DOC_BYTES
}

/// The issue of the item at position `index`, if it has one.
pub open spec fn issue_for(item: CodeItemView, index: nat) -> Option<DocstringIssueView> {
    match item.existing_docstring {
        None => Some(
            DocstringIssueView {
                item_type: item.item_type,
                name: item.name,
                line_number: item.line_number,
                issue_type: IssueType::Missing,
                item_index: index,
            },
        ),
        Some(doc) => if likely_outdated(item, doc) {
            Some(
                DocstringIssueView {
                    item_type: item.item_type,
                    name: item.name,
                    line_number: item.line_number,
                    issue_type: IssueType::Outdated,
                    item_index: index,
                },
            )
        } else {
            None
        },
    }
}

/// The issues of the first `n` items, in item order.
pub open spec fn issues_upto(items: Seq<CodeItemView>, n: int) -> Seq<DocstringIssueView>
    decreases n,
{
    if n <= 0 || n > items.len() {
        Seq::empty()
    } else {
        match issue_for(items[n - 1], (n - 1) as nat) {
            Some(issue) => issues_upto(items, n - 1).push(issue),
            None => issues_upto(items, n - 1),
        }
    }
}

/// The issues of all items, in item order.
pub open spec fn issues_of(items: Seq<CodeItemView>) -> Seq<DocstringIssueView> {
    issues_upto(items, items.len() as int)
}

/// Whether the documentation of `item` looks out of date.
pub fn is_likely_outdated(item: &CodeItem, docstring: &str) -> (r: bool)
    ensures
        r == likely_outdated(item@, docstring@),
{
    let doc = chars_of(docstring);
    let receiver = chars_of("self");
    let other_receiver = chars_of("this");
    let mut k: usize = 0;
    while k < item.parameters.len()
        invariant
            k <= item.parameters.len(),
            doc@ == docstring@,
            receiver@ == "self"@,
            other_receiver@ == "this"@,
            forall|j: int| 0 <= j < k ==> !parameter_unmentioned(doc@, #[trigger] item@.parameters[j]),
        decreases item.parameters.len() - k,
    {
        let parameter = chars_of(item.parameters[k].as_str());
        assert(parameter@ == item@.parameters[k as int]);
        if !same_text(&parameter, &receiver) && !same_text(&parameter, &other_receiver) {
            let name = strip_markers(&parameter);
            if !find_in(&doc, &name) {
                return true;
            }
        }
        k += 1;
    }
    if item.returns.is_some() {
        let token = chars_of("return");
        if !find_folded(&doc, &token) {
            return true;
        }
    }
    let body = trim(&doc);
    shorter_than(&body, MIN_DOC_BYTES)
}

/// Reports every item whose documentation is missing or looks out of
/// date, in item order.
pub fn analyze(parsed_code: &ParsedCode) -> (r: DocGenResult<Vec<DocstringIssue>>)
    ensures
        r is Ok,
        issue_views(r->Ok_0@) == issues_of(parsed_code@.items),
{
    let mut issues: Vec<DocstringIssue> = Vec::new();
    let mut index: usize = 0;
    let ghost items = parsed_code@.items;
    assert(issue_views(issues@) =~= issues_upto(items, 0));
    while index < parsed_code.items.len()
        invariant
            index <= parsed_code.items.len(),
            items == parsed_code@.items,
            items.len() == parsed_code.items.len(),
            issue_views(issues@) == issues_upto(items, index as int),
        decreases parsed_code.items.len() - index,
    {
        let item = &parsed_code.items[index];
        assert(item@ == items[index as int]);
        let ghost before = issue_views(issues@);
        let found: Option<IssueType> = match &item.existing_docstring {
            None => Some(IssueType::Missing),
            Some(docstring) => if is_likely_outdated(item, docstring.as_str()) {
                Some(IssueType::Outdated)
            } else {
                None
            },
        };
        match found {
            Some(issue_type) => {
                let issue = DocstringIssue {
                    item_type: item.item_type,
                    name: item.name.clone(),
                    line_number: item.line_number,
                    issue_type,
                    item_index: index,
                };
                assert(Some(issue@) == issue_for(items[index as int], index as nat));
                issues.push(issue);
                assert(issue_views(issues@) =~= before.push(issue@));
            },
            None => {
                assert(issue_for(items[index as int], index as nat) is None);
            },
        }
        index += 1;
    }
    Ok(issues)
}

/// A text without items has no issues.
pub proof fn lemma_no_items_no_issues(items: Seq<CodeItemView>)
    requires
        items.len() == 0,
    ensures
        issues_of(items).len() == 0,
{
}

/// Every issue names an item of the analyzed sequence and repeats its
/// kind, name and line; the issues come in strictly increasing item order.
pub proof fn lemma_issues_name_items(items: Seq<CodeItemView>, n: int)
    requires
        0 <= n <= items.len(),
    ensures
        issues_upto(items, n).len() <= n,
        forall|k: int|
            0 <= k < issues_upto(items, n).len() ==> {
                let issue = #[trigger] issues_upto(items, n)[k];
                &&& issue.item_index < n
                &&& Some(issue) == issue_for(items[issue.item_index as int], issue.item_index)
            },
        forall|j: int, k: int|
            0 <= j < k < issues_upto(items, n).len() ==> issues_upto(items, n)[j].item_index
                < issues_upto(items, n)[k].item_index,
    decreases n,
{
    if n > 0 {
        lemma_issues_name_items(items, n - 1);
    }
}

/// An item without documentation is always reported, as missing.
pub proof fn lemma_undocumented_is_missing(items: Seq<CodeItemView>, i: int)
    requires
        0 <= i < items.len(),
        items[i].existing_docstring is None,
    ensures
        exists|k: int|
            0 <= k < issues_of(items).len() && (#[trigger] issues_of(items)[k]).item_index == i
                && issues_of(items)[k].issue_type == IssueType::Missing,
{
    lemma_reported(items, items.len() as int, i);
    let k = choose|k: int|
        0 <= k < issues_of(items).len() && #[trigger] issues_of(items)[k] == issue_for(
            items[i],
            i as nat,
        )->Some_0;
    assert(issues_of(items)[k].item_index == i);
}

/// An item that has an issue is among the issues of any prefix that
/// holds it.
pub proof fn lemma_reported(items: Seq<CodeItemView>, n: int, i: int)
    requires
        0 <= i < n <= items.len(),
        issue_for(items[i], i as nat) is Some,
    ensures
        exists|k: int|
            0 <= k < issues_upto(items, n).len() && #[trigger] issues_upto(items, n)[k]
                == issue_for(items[i], i as nat)->Some_0,
    decreases n,
{
    if i == n - 1 {
        let all = issues_upto(items, n);
        assert(all[all.len() - 1] == issue_for(items[i], i as nat)->Some_0);
    } else {
        lemma_reported(items, n - 1, i);
        let k = choose|k: int|
            0 <= k < issues_upto(items, n - 1).len() && #[trigger] issues_upto(items, n - 1)[k]
                == issue_for(items[i], i as nat)->Some_0;
        assert(issues_upto(items, n)[k] == issue_for(items[i], i as nat)->Some_0);
    }
}

} // verus!
