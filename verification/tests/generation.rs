use docgen::docstring::{DocstringIssue, IssueType};
use docgen::error::DocGenError;
use docgen::llm::{build_prompt, join_with, make_update, Action, LlmClient, MockLlmClient, Reply, Session};
use docgen::parser::{CodeItem, ItemType, ParsedCode};

fn item(item_type: ItemType, name: &str, parameters: &[&str], indentation: &str) -> CodeItem {
    CodeItem {
        item_type,
        name: name.to_string(),
        line_number: 1,
        end_line: 1,
        code: format!("def {}(): pass", name),
        existing_docstring: None,
        parent: None,
        parameters: parameters.iter().map(|p| p.to_string()).collect(),
        returns: None,
        indentation: indentation.to_string(),
    }
}

fn issue(index: usize) -> DocstringIssue {
    DocstringIssue {
        item_type: ItemType::Function,
        name: "x".to_string(),
        line_number: 1,
        issue_type: IssueType::Missing,
        item_index: index,
    }
}

fn sample() -> ParsedCode {
    ParsedCode {
        items: vec![
            item(ItemType::Function, "f", &["a", "b="], ""),
            item(ItemType::Class, "C", &[], "  "),
            item(ItemType::Method, "m", &[], "    "),
        ],
        original_content: String::new(),
    }
}

#[test]
fn mock_generator_describes_each_item() {
    let parsed = sample();
    let updates = MockLlmClient::new()
        .generate_docstrings(&parsed, &[issue(2), issue(0), issue(1)])
        .unwrap();
    assert_eq!(updates.len(), 3);
    assert_eq!(updates[0].item_index, 2);
    assert_eq!(updates[0].new_docstring, "Mock docstring for method m.\nParameters: ");
    assert_eq!(updates[0].indentation, "    ");
    assert_eq!(updates[1].item_index, 0);
    assert_eq!(
        updates[1].new_docstring,
        "Mock docstring for function f.\nParameters: a, b="
    );
    assert_eq!(updates[1].indentation, "");
    assert_eq!(updates[2].item_index, 1);
    assert_eq!(updates[2].new_docstring, "Mock docstring for class C.");
    assert_eq!(updates[2].indentation, "  ");
    assert!(MockLlmClient::new().generate_docstrings(&parsed, &[]).unwrap().is_empty());
}

#[test]
fn mock_generator_rejects_an_issue_for_an_unknown_item() {
    let r = MockLlmClient::new().generate_docstrings(&sample(), &[issue(0), issue(3)]);
    assert!(matches!(r, Err(DocGenError::Unknown(_))));
}

#[test]
fn prompt_names_the_item_and_shows_its_code() {
    let prompt = build_prompt(&item(ItemType::Method, "run", &[], ""));
    assert_eq!(
        prompt,
        "Generate a Python docstring for the following method 'run'. Follow PEP 257 style guidelines.The docstring should be informative, accurate, and describe what the method does.Include parameters, return values, and exceptions if applicable.Return ONLY the docstring text without the triple quotes or indentation.\n\n```python\ndef run(): pass\n```"
    );
}

#[test]
fn answers_are_trimmed() {
    let parsed = sample();
    let update = make_update(&parsed.items, &issue(1), "  \nDoes it.\n\n");
    assert_eq!(update.item_index, 1);
    assert_eq!(update.new_docstring, "Does it.");
    assert_eq!(make_update(&parsed.items, &issue(0), " \n ").new_docstring, "");
    assert_eq!(update.indentation, "  ");
    assert_eq!(join_with(&vec!["a".to_string(), "".to_string(), "c".to_string()], ", "), "a, , c");
    assert_eq!(join_with(&vec![], ", "), "");
    assert_eq!(join_with(&vec!["a".to_string()], ", "), "a");
}

#[test]
fn session_asks_for_each_issue_in_turn() {
    let parsed = sample();
    let issues = [issue(1), issue(0)];
    let (session, action) = Session::begin(&parsed, &issues);
    assert_eq!(session.answered, 0);
    let prompt = match action {
        Action::Ask(prompt) => prompt,
        _ => panic!("expected a request"),
    };
    assert_eq!(prompt, build_prompt(&parsed.items[1]));
    let (session, action) = session.resume(&parsed, &issues, Reply::Text(" One. ".to_string()));
    assert_eq!(session.answered, 1);
    assert!(matches!(&action, Action::Ask(p) if *p == build_prompt(&parsed.items[0])));
    let (_, action) = session.resume(&parsed, &issues, Reply::Text("Two.".to_string()));
    match action {
        Action::Finish(updates) => {
            assert_eq!(updates.len(), 2);
            assert_eq!(updates[0].item_index, 1);
            assert_eq!(updates[0].new_docstring, "One.");
            assert_eq!(updates[0].indentation, "  ");
            assert_eq!(updates[1].item_index, 0);
            assert_eq!(updates[1].new_docstring, "Two.");
        }
        _ => panic!("expected the updates"),
    }
}

#[test]
fn session_ends_on_failure_and_on_unknown_items() {
    let parsed = sample();
    let issues = [issue(0), issue(5)];
    let (session, _) = Session::begin(&parsed, &issues);
    let (_, action) = session.resume(&parsed, &issues, Reply::Failed("no network".to_string()));
    assert!(matches!(action, Action::Abort(DocGenError::LlmApiError(m)) if m == "no network"));
    let (session, _) = Session::begin(&parsed, &issues);
    let (_, action) = session.resume(&parsed, &issues, Reply::Text("x".to_string()));
    assert!(matches!(action, Action::Abort(DocGenError::Unknown(_))));
    let (_, action) = Session::begin(&parsed, &[]);
    assert!(matches!(action, Action::Finish(updates) if updates.is_empty()));
    let (_, action) = Session::begin(&parsed, &[issue(3)]);
    assert!(matches!(action, Action::Abort(DocGenError::Unknown(_))));
}
