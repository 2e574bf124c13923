use docgen::docstring::{analyze, is_likely_outdated, IssueType, MIN_DOC_BYTES};
use docgen::parser::{CodeItem, ItemType, ParsedCode};

fn item(name: &str, doc: Option<&str>, parameters: &[&str], returns: Option<&str>) -> CodeItem {
    CodeItem {
        item_type: ItemType::Function,
        name: name.to_string(),
        line_number: 1,
        end_line: 2,
        code: format!("def {}(): pass", name),
        existing_docstring: doc.map(|d| d.to_string()),
        parent: None,
        parameters: parameters.iter().map(|p| p.to_string()).collect(),
        returns: returns.map(|r| r.to_string()),
        indentation: String::new(),
    }
}

fn parsed(items: Vec<CodeItem>) -> ParsedCode {
    ParsedCode { items, original_content: String::new() }
}

#[test]
fn no_items_no_issues() {
    assert!(analyze(&parsed(vec![])).unwrap().is_empty());
}

#[test]
fn item_without_documentation_is_missing() {
    let mut method = item("m", None, &["self"], None);
    method.item_type = ItemType::Method;
    method.line_number = 7;
    let issues = analyze(&parsed(vec![item("ok", Some("Does a lot of things."), &[], None), method]))
        .unwrap();
    assert_eq!(issues.len(), 1);
    assert_eq!(issues[0].issue_type, IssueType::Missing);
    assert_eq!(issues[0].item_index, 1);
    assert_eq!(issues[0].name, "m");
    assert_eq!(issues[0].item_type, ItemType::Method);
    assert_eq!(issues[0].line_number, 7);
}

#[test]
fn documentation_that_leaves_out_a_parameter_is_outdated() {
    let f = item("f", Some("Takes a and does something with it."), &["a", "b"], None);
    let issues = analyze(&parsed(vec![f])).unwrap();
    assert_eq!(issues.len(), 1);
    assert_eq!(issues[0].issue_type, IssueType::Outdated);
    assert_eq!(issues[0].item_index, 0);
    assert_eq!(issues[0].name, "f");
}

#[test]
fn documentation_that_names_every_parameter_is_fine() {
    let f = item("f", Some("Takes a and b, and does something."), &["a", "b"], None);
    assert!(analyze(&parsed(vec![f])).unwrap().is_empty());
}

#[test]
fn receivers_are_not_looked_for() {
    let doc = "Does something useful.";
    assert!(!is_likely_outdated(&item("f", None, &["self"], None), doc));
    assert!(!is_likely_outdated(&item("f", None, &["this"], None), doc));
    assert!(is_likely_outdated(&item("f", None, &["selfish"], None), doc));
}

#[test]
fn markers_are_stripped_before_the_name_is_looked_for() {
    let doc = "Uses args, kwargs and key in some way.";
    assert!(!is_likely_outdated(&item("f", None, &["*args", "**kwargs", "key="], None), doc));
    assert!(is_likely_outdated(&item("f", None, &["*other"], None), doc));
    // A parameter made of markers only has the empty name, which occurs in any text.
    assert!(!is_likely_outdated(&item("f", None, &["*="], None), doc));
}

#[test]
fn return_annotation_asks_for_the_word_in_any_case() {
    let with = item("f", None, &[], Some("int"));
    assert!(is_likely_outdated(&with, "Computes the answer to everything."));
    assert!(!is_likely_outdated(&with, "Computes and RETURNS the answer."));
    assert!(!is_likely_outdated(&with, "What it Returns is the answer."));
    assert!(!is_likely_outdated(&item("f", None, &[], None), "Computes the answer to everything."));
}

#[test]
fn short_documentation_is_a_placeholder() {
    let f = item("f", None, &[], None);
    assert_eq!(MIN_DOC_BYTES, 10);
    assert!(is_likely_outdated(&f, "Adds."));
    assert!(is_likely_outdated(&f, "   123456789   \n"));
    assert!(!is_likely_outdated(&f, "  1234567890  "));
    assert!(is_likely_outdated(&f, ""));
    // The length is counted in bytes of UTF-8: five letters of two bytes each are enough.
    assert!(!is_likely_outdated(&f, "äääää"));
    assert!(is_likely_outdated(&f, "ääää"));
}

#[test]
fn issues_come_in_item_order_with_their_indices() {
    let items = vec![
        item("a", None, &[], None),
        item("b", Some("Well documented thing."), &[], None),
        item("c", Some("short"), &[], None),
        item("d", None, &[], None),
    ];
    let issues = analyze(&parsed(items)).unwrap();
    let seen: Vec<(usize, IssueType)> = issues.iter().map(|i| (i.item_index, i.issue_type)).collect();
    assert_eq!(
        seen,
        vec![(0, IssueType::Missing), (2, IssueType::Outdated), (3, IssueType::Missing)]
    );
    assert_eq!(IssueType::Missing.as_str(), "missing");
    assert_eq!(IssueType::Outdated.as_str(), "outdated");
}
