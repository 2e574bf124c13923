use docgen::extract::ParameterForm;
use docgen::lang::grammar::{definition_on_rows, is_named, is_word, line_of_row};
use docgen::lang::javascript::{is_plainly_named, node_parameter};
use docgen::lang::rust::{is_listed_as_method, pattern_parameter};

#[test]
fn rows_become_lines() {
    assert_eq!(line_of_row(0), 1);
    assert_eq!(line_of_row(41), 42);
    assert_eq!(line_of_row(usize::MAX), usize::MAX);
    let d = definition_on_rows("f".to_string(), 3, 7, vec![], Some("i32".to_string()));
    assert_eq!((d.first_line, d.last_line), (4, 8));
    assert_eq!(d.name, "f");
    assert_eq!(d.returns.as_deref(), Some("i32"));
    assert_eq!(d.inline_doc, None);
    assert!(is_word("abc", "abc"));
    assert!(!is_word("abc", "abd"));
    assert!(is_named(Some("x"), "x"));
    assert!(!is_named(None, "x"));
    assert!(!is_named(Some("y"), "x"));
}

#[test]
fn rust_patterns_and_methods() {
    let p = pattern_parameter("identifier", "count".to_string()).unwrap();
    assert_eq!((p.name.as_str(), p.form), ("count", ParameterForm::Plain));
    assert!(pattern_parameter("tuple_pattern", "(a, b)".to_string()).is_none());
    assert!(pattern_parameter("self", "self".to_string()).is_none());
    assert!(is_listed_as_method(Some("declaration_list"), Some("impl_item"), Some("type_identifier")));
    assert!(!is_listed_as_method(Some("declaration_list"), Some("trait_item"), None));
    assert!(!is_listed_as_method(Some("declaration_list"), Some("impl_item"), Some("generic_type")));
    assert!(!is_listed_as_method(Some("source_file"), None, None));
    assert!(!is_listed_as_method(None, None, None));
}

#[test]
fn javascript_parameter_nodes() {
    let show = |kind: &str, text: &str, target: Option<(&str, &str)>, spread: Option<&str>| {
        node_parameter(
            kind,
            text.to_string(),
            target.map(|t| t.0),
            target.map(|t| t.1.to_string()),
            spread.map(|s| s.to_string()),
        )
        .map(|p| (p.name, p.form))
    };
    assert_eq!(show("identifier", "a", None, Some("a")), Some(("a".to_string(), ParameterForm::Plain)));
    assert_eq!(
        show("assignment_pattern", "b = 1", Some(("identifier", "b")), Some("b")),
        Some(("b".to_string(), ParameterForm::WithDefault))
    );
    assert_eq!(show("assignment_pattern", "{b} = {}", Some(("object_pattern", "{b}")), None), None);
    assert_eq!(show("assignment_pattern", "b = 1", None, None), None);
    assert_eq!(
        show("rest_pattern", "...rest", None, Some("rest")),
        Some(("rest".to_string(), ParameterForm::Variadic))
    );
    assert_eq!(show("rest_pattern", "...[a]", None, None), None);
    assert_eq!(
        show("object_pattern", "{ a, b }", None, None),
        Some(("{ a, b }".to_string(), ParameterForm::Plain))
    );
    assert_eq!(
        show("array_pattern", "[a]", None, Some("a")),
        Some(("[a]".to_string(), ParameterForm::Plain))
    );
    assert_eq!(show(",", ",", None, None), None);
    assert_eq!(show("(", "(", None, None), None);
    assert!(is_plainly_named(Some("property_identifier")));
    assert!(!is_plainly_named(Some("computed_property_name")));
    assert!(!is_plainly_named(None));
}
