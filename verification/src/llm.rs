//! Producing documentation text for the items that need it.
//!
//! The text comes from a service outside the library. The library says
//! what to ask for each issue and what to make of each answer; the
//! caller does the asking. A generator that needs no service stands in
//! for trying things out.

use crate::docstring::{
    issue_views, update_views, DocstringIssue, DocstringIssueView, UpdatedDocstring,
    UpdatedDocstringView,
};
use crate::error::{DocGenError, DocGenResult};
use crate::lines::separated;
use crate::parser::{item_views, texts, CodeItem, CodeItemView, ItemType, ParsedCode};
use crate::text::{chars_of, text_of, trim, trimmed};
use vstd::prelude::*;
use vstd::string::StringExecFns;

verus! {

/// The request for documentation of an item.
pub open spec fn prompt_for(item: CodeItemView) -> Seq<char> {
    "Generate a Python docstring for the following "@ + item.item_type.word() + " '"@ + item.name
        + "'. Follow PEP 257 style guidelines.The docstring should be informative, accurate, and describe what the "@
        + item.item_type.word()
        + " does.Include parameters, return values, and exceptions if applicable.Return ONLY the docstring text without the triple quotes or indentation.\n\n```python\n"@
        + item.code + "\n```"@
}

/// The update that an answer gives for an issue: the answer, trimmed,
/// for the item of the issue, with the indentation of that item.
pub open spec fn update_for(
    items: Seq<CodeItemView>,
    issue: DocstringIssueView,
    answer: Seq<char>,
) -> UpdatedDocstringView {
    UpdatedDocstringView {
        item_index: issue.item_index,
        new_docstring: trimmed(answer),
        indentation: items[issue.item_index as int].indentation,
    }
}

/// Whether `updates` answers `issues` one for one: each update is for
/// the item of its issue, which is among `items`, and carries the
/// indentation of that item.
pub open spec fn answers(
    items: Seq<CodeItemView>,
    issues: Seq<DocstringIssueView>,
    updates: Seq<UpdatedDocstringView>,
) -> bool {
    &&& updates.len() == issues.len()
    &&& forall|k: int|
        0 <= k < issues.len() ==> {
            &&& (#[trigger] issues[k]).item_index < items.len()
            &&& updates[k].item_index == issues[k].item_index
            &&& updates[k].indentation == items[issues[k].item_index as int].indentation
        }
}

/// Whether every issue names an item of `items`.
pub open spec fn issues_resolvable(items: Seq<CodeItemView>, issues: Seq<DocstringIssueView>) -> bool {
    forall|k: int| 0 <= k < issues.len() ==> (#[trigger] issues[k]).item_index < items.len()
}

/// A source of documentation text.
pub trait LlmClient {
    /// New documentation for the item of each issue, in the order of the
    /// issues.
    fn generate_docstrings(&self, parsed_code: &ParsedCode, issues: &[DocstringIssue]) -> (r:
        DocGenResult<Vec<UpdatedDocstring>>)
        ensures
            r matches Ok(updates) ==> answers(
                parsed_code@.items,
                issue_views(issues@),
                update_views(updates@),
            ),
    ;
}

/// The request for documentation of an item.
pub fn build_prompt(item: &CodeItem) -> (r: String)
    ensures
        r@ == prompt_for(item@),
{
    let mut prompt = String::from_str("Generate a Python docstring for the following ");
    prompt.append(item.item_type.as_str());
    prompt.append(" '");
    prompt.append(item.name.as_str());
    prompt.append(
        "'. Follow PEP 257 style guidelines.The docstring should be informative, accurate, and describe what the ",
    );
    prompt.append(item.item_type.as_str());
    prompt.append(
        " does.Include parameters, return values, and exceptions if applicable.Return ONLY the docstring text without the triple quotes or indentation.\n\n```python\n",
    );
    prompt.append(item.code.as_str());
    prompt.append("\n```");
    prompt
}

/// The update that an answer gives for an issue.
pub fn make_update(items: &Vec<CodeItem>, issue: &DocstringIssue, answer: &str) -> (r:
    UpdatedDocstring)
    requires
        issue.item_index < items.len(),
    ensures
        r@ == update_for(item_views(items@), issue@, answer@),
{
    UpdatedDocstring {
        item_index: issue.item_index,
        new_docstring: text_of(&trim(&chars_of(answer))),
        indentation: items[issue.item_index].indentation.clone(),
    }
}

/// What came back from the service for one request.
pub enum Reply {
    /// The text of the answer.
    Text(String),
    /// The call failed, or its answer held no text; why.
    Failed(String),
}

/// What the caller is to do next.
pub enum Action {
    /// Send this request and come back with the reply.
    Ask(String),
    /// All issues are answered: these are the updates.
    Finish(Vec<UpdatedDocstring>),
    /// Give up with this error.
    Abort(DocGenError),
}

/// The state of answering the issues of one text, one after another.
pub struct Session {
    /// How many issues have been answered.
    pub answered: usize,
    /// The updates for the issues answered so far.
    pub updates: Vec<UpdatedDocstring>,
}

/// The mathematical value of an [`Action`].
pub enum ActionView {
    Ask(Seq<char>),
    Finish(Seq<UpdatedDocstringView>),
    Abort(DocGenError),
}

impl View for Action {
    type V = ActionView;

    open spec fn view(&self) -> ActionView {
        match self {
            Action::Ask(prompt) => ActionView::Ask(prompt@),
            Action::Finish(updates) => ActionView::Finish(update_views(updates@)),
            Action::Abort(e) => ActionView::Abort(*e),
        }
    }
}

/// Whether an action is the one due when `answered` issues have been
/// answered with `updates`: to finish with the updates when no issue is
/// left, to give up when the next issue names no item, else to ask for
/// the documentation of its item.
pub open spec fn action_due(
    items: Seq<CodeItemView>,
    issues: Seq<DocstringIssueView>,
    answered: int,
    updates: Seq<UpdatedDocstringView>,
    action: ActionView,
) -> bool {
    if answered >= issues.len() {
        action == ActionView::Finish(updates)
    } else if issues[answered].item_index >= items.len() {
        action matches ActionView::Abort(DocGenError::Unknown(_))
    } else {
        action == ActionView::Ask(prompt_for(items[issues[answered].item_index as int]))
    }
}

impl Session {
    /// The updates so far answer the issues answered so far.
    pub open spec fn wf(self, items: Seq<CodeItemView>, issues: Seq<DocstringIssueView>) -> bool {
        &&& self.answered <= issues.len()
        &&& answers(items, issues.take(self.answered as int), update_views(self.updates@))
    }

    /// The action that is due in this state. Finishing hands out the
    /// updates.
    fn next_action(&mut self, parsed_code: &ParsedCode, issues: &[DocstringIssue]) -> (action:
        Action)
        requires
            old(self).wf(parsed_code@.items, issue_views(issues@)),
        ensures
            final(self).answered == old(self).answered,
            action_due(
                parsed_code@.items,
                issue_views(issues@),
                old(self).answered as int,
                update_views(old(self).updates@),
                action@,
            ),
            !(action is Finish) ==> final(self).updates == old(self).updates,
            action is Finish ==> answers(
                parsed_code@.items,
                issue_views(issues@),
                update_views(action->Finish_0@),
            ),
    {
        if self.answered >= issues.len() {
            let mut done: Vec<UpdatedDocstring> = Vec::new();
            std::mem::swap(&mut done, &mut self.updates);
            assert(issue_views(issues@).take(self.answered as int) =~= issue_views(issues@));
            return Action::Finish(done);
        }
        let issue = &issues[self.answered];
        assert(issue_views(issues@)[self.answered as int] == issue@);
        if issue.item_index >= parsed_code.items.len() {
            return Action::Abort(
                DocGenError::Unknown(
                    String::from_str("an issue refers to an item that the text does not have"),
                ),
            );
        }
        assert(parsed_code@.items[issue.item_index as int] == parsed_code.items@[issue.item_index as int]@);
        Action::Ask(build_prompt(&parsed_code.items[issue.item_index]))
    }

    /// Begins to answer `issues`, which were found in `parsed_code`.
    pub fn begin(parsed_code: &ParsedCode, issues: &[DocstringIssue]) -> (r: (Session, Action))
        ensures
            r.0.answered == 0,
            action_due(
                parsed_code@.items,
                issue_views(issues@),
                0,
                Seq::empty(),
                r.1@,
            ),
            r.1 is Ask ==> r.0.wf(parsed_code@.items, issue_views(issues@)),
            r.1 is Finish ==> answers(
                parsed_code@.items,
                issue_views(issues@),
                update_views(r.1->Finish_0@),
            ),
    {
        let mut session = Session { answered: 0, updates: Vec::new() };
        assert(update_views(session.updates@) =~= Seq::<UpdatedDocstringView>::empty());
        let action = session.next_action(parsed_code, issues);
        (session, action)
    }

    /// Takes the reply to the request that was asked last. A failure
    /// ends the session; a text becomes the update for the issue that
    /// was asked about, and the next action is due.
    pub fn resume(self, parsed_code: &ParsedCode, issues: &[DocstringIssue], reply: Reply) -> (r: (
        Session,
        Action,
    ))
        requires
            self.wf(parsed_code@.items, issue_views(issues@)),
            self.answered < issues@.len(),
            issues@[self.answered as int].item_index < parsed_code@.items.len(),
        ensures
            match reply {
                Reply::Failed(reason) => r.1 matches Action::Abort(DocGenError::LlmApiError(m))
                    && m@ == reason@,
                Reply::Text(answer) => {
                    &&& r.0.answered == self.answered + 1
                    &&& action_due(
                        parsed_code@.items,
                        issue_views(issues@),
                        self.answered + 1,
                        update_views(self.updates@).push(
                            update_for(
                                parsed_code@.items,
                                issue_views(issues@)[self.answered as int],
                                answer@,
                            ),
                        ),
                        r.1@,
                    )
                    &&& r.1 is Ask ==> r.0.wf(parsed_code@.items, issue_views(issues@))
                    &&& r.1 is Finish ==> answers(
                        parsed_code@.items,
                        issue_views(issues@),
                        update_views(r.1->Finish_0@),
                    )
                },
            },
    {
        let mut session = self;
        match reply {
            Reply::Failed(reason) => (session, Action::Abort(DocGenError::LlmApiError(reason))),
            Reply::Text(answer) => {
                let ghost items = parsed_code@.items;
                let ghost all = issue_views(issues@);
                let ghost before = update_views(session.updates@);
                let issue = &issues[session.answered];
                assert(all[session.answered as int] == issue@);
                let update = make_update(&parsed_code.items, issue, answer.as_str());
                session.updates.push(update);
                session.answered = session.answered + 1;
                proof {
                    let now = update_views(session.updates@);
                    assert(now =~= before.push(update@));
                    assert(items[issue.item_index as int] == parsed_code.items@[issue.item_index as int]@);
                    assert forall|k: int| 0 <= k < session.answered implies {
                        &&& (#[trigger] all.take(session.answered as int)[k]).item_index
                            < items.len()
                        &&& now[k].item_index == all.take(session.answered as int)[k].item_index
                        &&& now[k].indentation == items[all.take(
                            session.answered as int,
                        )[k].item_index as int].indentation
                    } by {
                        if k < session.answered - 1 {
                            assert(all.take(session.answered - 1)[k] == all[k]);
                        }
                    }
                }
                let action = session.next_action(parsed_code, issues);
                (session, action)
            },
        }
    }
}

/// The parts with `sep` between each two neighbours.
pub fn join_with(parts: &Vec<String>, sep: &str) -> (r: String)
    ensures
        r@ == separated(texts(parts@), sep@),
{
    let mut out = String::new();
    let mut i: usize = 0;
    assert(texts(parts@).take(0) =~= Seq::<Seq<char>>::empty());
    while i < parts.len()
        invariant
            i <= parts.len(),
            out@ == separated(texts(parts@).take(i as int), sep@),
        decreases parts.len() - i,
    {
        let ghost done = texts(parts@).take(i as int);
        let ghost next = texts(parts@).take(i + 1);
        assert(next.drop_last() =~= done);
        assert(next.last() == parts@[i as int]@);
        if i > 0 {
            out.append(sep);
        }
        out.append(parts[i].as_str());
        assert(out@ =~= separated(next, sep@)) by {
            if i == 0 {
                assert(done.len() == 0);
                assert(next[0] == parts@[i as int]@);
            }
        }
        i += 1;
    }
    assert(texts(parts@).take(parts.len() as int) =~= texts(parts@));
    out
}

/// The documentation that the mock generator writes for an item.
pub open spec fn mock_text(item: CodeItemView) -> Seq<char> {
    match item.item_type {
        ItemType::Function => "Mock docstring for function "@ + item.name + ".\nParameters: "@
            + separated(item.parameters, ", "@),
        ItemType::Class => "Mock docstring for class "@ + item.name + "."@,
        ItemType::Method => "Mock docstring for method "@ + item.name + ".\nParameters: "@
            + separated(item.parameters, ", "@),
    }
}

/// The update that the mock generator gives for an issue.
pub open spec fn mock_update(items: Seq<CodeItemView>, issue: DocstringIssueView) -> UpdatedDocstringView {
    UpdatedDocstringView {
        item_index: issue.item_index,
        new_docstring: mock_text(items[issue.item_index as int]),
        indentation: items[issue.item_index as int].indentation,
    }
}

/// A generator that answers without any service, for trying things out.
pub struct MockLlmClient;

impl MockLlmClient {
    pub fn new() -> (r: Self) {
        MockLlmClient
    }

    /// The documentation that the mock generator writes for an item.
    pub fn describe(item: &CodeItem) -> (r: String)
        ensures
            r@ == mock_text(item@),
    {
        match item.item_type {
            ItemType::Function => {
                let mut out = String::from_str("Mock docstring for function ");
                out.append(item.name.as_str());
                out.append(".\nParameters: ");
                out.append(join_with(&item.parameters, ", ").as_str());
                out
            },
            ItemType::Class => {
                let mut out = String::from_str("Mock docstring for class ");
                out.append(item.name.as_str());
                out.append(".");
                out
            },
            ItemType::Method => {
                let mut out = String::from_str("Mock docstring for method ");
                out.append(item.name.as_str());
                out.append(".\nParameters: ");
                out.append(join_with(&item.parameters, ", ").as_str());
                out
            },
        }
    }
}

impl LlmClient for MockLlmClient {
    /// For each issue, in order, a text that names the item and lists
    /// its parameters. Fails if an issue names no item of `parsed_code`.
    fn generate_docstrings(&self, parsed_code: &ParsedCode, issues: &[DocstringIssue]) -> (r:
        DocGenResult<Vec<UpdatedDocstring>>)
        ensures
            match r {
                Ok(updates) => {
                    &&& issues_resolvable(parsed_code@.items, issue_views(issues@))
                    &&& updates@.len() == issues@.len()
                    &&& forall|k: int|
                        0 <= k < issues@.len() ==> (#[trigger] updates@[k])@ == mock_update(
                            parsed_code@.items,
                            issues@[k]@,
                        )
                },
                Err(e) => e is Unknown && !issues_resolvable(
                    parsed_code@.items,
                    issue_views(issues@),
                ),
            },
    {
        let ghost items = parsed_code@.items;
        let ghost all = issue_views(issues@);
        let mut updates: Vec<UpdatedDocstring> = Vec::new();
        let mut k: usize = 0;
        while k < issues.len()
            invariant
                k <= issues.len(),
                items == parsed_code@.items,
                all == issue_views(issues@),
                updates.len() == k,
                forall|j: int| 0 <= j < k ==> (#[trigger] all[j]).item_index < items.len(),
                forall|j: int|
                    0 <= j < k ==> (#[trigger] updates@[j])@ == mock_update(items, issues@[j]@),
            decreases issues.len() - k,
        {
            let issue = &issues[k];
            assert(all[k as int] == issue@);
            if issue.item_index >= parsed_code.items.len() {
                return Err(
                    DocGenError::Unknown(
                        String::from_str("an issue refers to an item that the text does not have"),
                    ),
                );
            }
            let item = &parsed_code.items[issue.item_index];
            assert(items[issue.item_index as int] == item@);
            updates.push(
                UpdatedDocstring {
                    item_index: issue.item_index,
                    new_docstring: MockLlmClient::describe(item),
                    indentation: item.indentation.clone(),
                },
            );
            k += 1;
        }
        proof {
            assert forall|j: int| 0 <= j < issues@.len() implies {
                &&& (#[trigger] all[j]).item_index < items.len()
                &&& update_views(updates@)[j].item_index == all[j].item_index
                &&& update_views(updates@)[j].indentation == items[all[j].item_index as int].indentation
            } by {
                assert(updates@[j]@ == mock_update(items, issues@[j]@));
            }
        }
        Ok(updates)
    }
}

} // verus!
