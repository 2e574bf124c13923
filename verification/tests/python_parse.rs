use docgen::lang::python::PythonParser;
use docgen::lang::LanguageParser;
use docgen::parser::ItemType;

const SAMPLE: &str = "def add(a, b=1, *rest, key, **extra) -> int:\n    \"\"\"Adds a and b and returns the sum.\"\"\"\n    return a + b\n\nclass Foo:\n    \"\"\"A foo.\"\"\"\n\n    def bar(self, x):\n        return x\n\n    def baz(self):\n        \"\"\"Baz it.\"\"\"\n        pass\n";

#[test]
fn python_items_in_discovery_order() {
    let parsed = PythonParser::new().parse(SAMPLE).unwrap();
    let names: Vec<&str> = parsed.items.iter().map(|i| i.name.as_str()).collect();
    assert_eq!(names, vec!["add", "Foo", "bar", "baz"]);
    assert_eq!(parsed.original_content, SAMPLE);
    let add = &parsed.items[0];
    assert_eq!(add.item_type, ItemType::Function);
    assert_eq!(add.line_number, 1);
    assert_eq!(add.end_line, 3);
    assert_eq!(add.parameters, vec!["a", "b=", "*rest", "key", "**extra"]);
    assert_eq!(add.returns.as_deref(), Some("int"));
    assert_eq!(add.existing_docstring.as_deref(), Some("Adds a and b and returns the sum."));
    assert_eq!(add.code, "def add(a, b=1, *rest, key, **extra) -> int:\n    \"\"\"Adds a and b and returns the sum.\"\"\"\n    return a + b");
    assert_eq!(add.indentation, "");
    assert_eq!(add.parent, None);
}

#[test]
fn python_method_has_class_as_parent() {
    let parsed = PythonParser::new().parse(SAMPLE).unwrap();
    let foo = &parsed.items[1];
    assert_eq!(foo.item_type, ItemType::Class);
    assert_eq!(foo.parent, None);
    assert_eq!(foo.line_number, 5);
    assert_eq!(foo.end_line, 13);
    assert_eq!(foo.existing_docstring.as_deref(), Some("A foo."));
    let bar = &parsed.items[2];
    assert_eq!(bar.item_type, ItemType::Method);
    assert_eq!(bar.parent.as_deref(), Some("Foo"));
    assert_eq!(bar.line_number, 8);
    assert_eq!(bar.end_line, 9);
    assert_eq!(bar.indentation, "    ");
    assert_eq!(bar.parameters, vec!["self", "x"]);
    assert_eq!(bar.existing_docstring, None);
    assert_eq!(bar.code, "    def bar(self, x):\n        return x");
    let baz = &parsed.items[3];
    assert_eq!(baz.parent.as_deref(), Some("Foo"));
    assert_eq!(baz.existing_docstring.as_deref(), Some("Baz it."));
}

#[test]
fn python_syntax_error_is_a_parsing_error() {
    let r = PythonParser::new().parse("def broken(:\n");
    assert!(matches!(r, Err(docgen::error::DocGenError::ParsingError(_))));
}

#[test]
fn python_comment_lines_above_a_definition_document_it() {
    let parsed = PythonParser::new()
        .parse("# Adds two numbers.\ndef f():\n    pass\n\nx = 1\n# Not for g.\ny = 2\ndef g():\n    pass\n\n## First.\n\n#Second\nclass C:\n    # Inside.\n    def m(self):\n        \"\"\"Literal.\"\"\"\n")
        .unwrap();
    let docs: Vec<(&str, Option<&str>)> =
        parsed.items.iter().map(|i| (i.name.as_str(), i.existing_docstring.as_deref())).collect();
    assert_eq!(
        docs,
        vec![
            ("f", Some("Adds two numbers.")),
            ("g", None),
            ("C", Some("First.\nSecond")),
            ("m", Some("Literal.")),
        ]
    );
}

#[test]
fn python_return_annotation_is_the_text_of_the_source() {
    let parsed = PythonParser::new()
        .parse("def f() -> int: pass\ndef g(x):\n    pass\ndef h() -> Dict[str, \"Ünï\"]:\n    pass\n")
        .unwrap();
    assert_eq!(parsed.items[0].returns.as_deref(), Some("int"));
    assert_eq!(parsed.items[1].returns, None);
    assert_eq!(parsed.items[2].returns.as_deref(), Some("Dict[str, \"Ünï\"]"));
}
