use docgen::docstring::UpdatedDocstring;
use docgen::lang::rust::RustParser;
use docgen::lang::LanguageParser;
use docgen::parser::ItemType;

const SAMPLE: &str = "fn calculate_sum(a: i32, b: i32) -> i32 {\n    a + b\n}\n\nstruct Calculator {\n    value: i32,\n}\n\nimpl Calculator {\n    fn new(initial_value: i32) -> Self {\n        Calculator { value: initial_value }\n    }\n\n    /// Adds x.\n    /// Returns the new value.\n    fn add(&mut self, x: i32) -> i32 {\n        self.value += x;\n        self.value\n    }\n}\n\n/// This is an existing docstring that might be outdated\nfn complex_function(data: Vec<i32>, transform: bool) -> Vec<i32> {\n    data\n}\n";

#[test]
fn rust_items_functions_then_structs_then_methods() {
    let parsed = RustParser::new().parse(SAMPLE).unwrap();
    let names: Vec<(&str, ItemType)> =
        parsed.items.iter().map(|i| (i.name.as_str(), i.item_type)).collect();
    assert_eq!(
        names,
        vec![
            ("calculate_sum", ItemType::Function),
            ("complex_function", ItemType::Function),
            ("Calculator", ItemType::Class),
            ("new", ItemType::Method),
            ("add", ItemType::Method),
        ]
    );
    let sum = &parsed.items[0];
    assert_eq!(sum.line_number, 1);
    assert_eq!(sum.end_line, 3);
    assert_eq!(sum.parameters, vec!["a", "b"]);
    assert_eq!(sum.returns.as_deref(), Some("i32"));
    assert_eq!(sum.existing_docstring, None);
    assert_eq!(sum.parent, None);
    assert_eq!(sum.code, "fn calculate_sum(a: i32, b: i32) -> i32 {\n    a + b\n}");
    let complex = &parsed.items[1];
    assert_eq!(complex.line_number, 23);
    assert_eq!(
        complex.existing_docstring.as_deref(),
        Some("This is an existing docstring that might be outdated")
    );
    let add = &parsed.items[4];
    assert_eq!(add.parent.as_deref(), Some("Calculator"));
    assert_eq!(add.line_number, 16);
    assert_eq!(add.indentation, "    ");
    assert_eq!(add.parameters, vec!["x"]);
    assert_eq!(add.existing_docstring.as_deref(), Some("Adds x.\nReturns the new value."));
}

#[test]
fn rust_update_inserts_and_replaces_doc_lines() {
    let parser = RustParser::new();
    let updates = vec![
        UpdatedDocstring {
            item_index: 0,
            new_docstring: "Adds two numbers.\n\nReturns the sum.".to_string(),
            indentation: "".to_string(),
        },
        UpdatedDocstring {
            item_index: 4,
            new_docstring: "Adds x to the value.".to_string(),
            indentation: "    ".to_string(),
        },
    ];
    let out = parser.update_content(SAMPLE, &updates).unwrap();
    let expected = "/// Adds two numbers.\n///\n/// Returns the sum.\nfn calculate_sum(a: i32, b: i32) -> i32 {\n    a + b\n}\n\nstruct Calculator {\n    value: i32,\n}\n\nimpl Calculator {\n    fn new(initial_value: i32) -> Self {\n        Calculator { value: initial_value }\n    }\n\n    /// Adds x to the value.\n    fn add(&mut self, x: i32) -> i32 {\n        self.value += x;\n        self.value\n    }\n}\n\n/// This is an existing docstring that might be outdated\nfn complex_function(data: Vec<i32>, transform: bool) -> Vec<i32> {\n    data\n}\n";
    assert_eq!(out, expected);
    let again = parser.parse(&out).unwrap();
    assert_eq!(
        again.items[0].existing_docstring.as_deref(),
        Some("Adds two numbers.\n\nReturns the sum.")
    );
    assert_eq!(again.items[4].existing_docstring.as_deref(), Some("Adds x to the value."));
}

#[test]
fn rust_update_order_does_not_matter() {
    let parser = RustParser::new();
    let a = UpdatedDocstring {
        item_index: 0,
        new_docstring: "First.".to_string(),
        indentation: "".to_string(),
    };
    let b = UpdatedDocstring {
        item_index: 1,
        new_docstring: "Second.".to_string(),
        indentation: "".to_string(),
    };
    let one = parser.update_content(SAMPLE, &[a.clone(), b.clone()]).unwrap();
    let two = parser.update_content(SAMPLE, &[b, a]).unwrap();
    assert_eq!(one, two);
}

#[test]
fn rust_update_with_unknown_item_fails() {
    let parser = RustParser::new();
    let updates = vec![UpdatedDocstring {
        item_index: 5,
        new_docstring: "x".to_string(),
        indentation: "".to_string(),
    }];
    let r = parser.update_content(SAMPLE, &updates);
    assert!(matches!(r, Err(docgen::error::DocGenError::UpdateError(_))));
}
