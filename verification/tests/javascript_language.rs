use docgen::docstring::UpdatedDocstring;
use docgen::lang::javascript::JavaScriptParser;
use docgen::lang::LanguageParser;
use docgen::parser::ItemType;

const SAMPLE: &str = "/**\n * Adds numbers.\n * @param a first\n */\nfunction add(a, b = 1, ...rest) {\n  return a + b;\n}\n\nclass Foo {\n  constructor(x) {\n    this.x = x;\n  }\n\n  /** Gets x. */\n  getX() {\n    return this.x;\n  }\n}\n\nfunction bare({p, q}) {}\n";

#[test]
fn javascript_items_functions_then_classes_with_methods() {
    let parsed = JavaScriptParser::new().parse(SAMPLE).unwrap();
    let names: Vec<(&str, ItemType)> =
        parsed.items.iter().map(|i| (i.name.as_str(), i.item_type)).collect();
    assert_eq!(
        names,
        vec![
            ("add", ItemType::Function),
            ("bare", ItemType::Function),
            ("Foo", ItemType::Class),
            ("constructor", ItemType::Method),
            ("getX", ItemType::Method),
        ]
    );
    let add = &parsed.items[0];
    assert_eq!(add.line_number, 5);
    assert_eq!(add.end_line, 7);
    assert_eq!(add.parameters, vec!["a", "b=", "*rest"]);
    assert_eq!(add.existing_docstring.as_deref(), Some("Adds numbers.\n@param a first"));
    assert_eq!(add.returns, None);
    assert_eq!(parsed.items[1].parameters, vec!["{p, q}"]);
    assert_eq!(parsed.items[1].existing_docstring, None);
    assert_eq!(parsed.items[2].existing_docstring, None);
    let ctor = &parsed.items[3];
    assert_eq!(ctor.parent.as_deref(), Some("Foo"));
    assert_eq!(ctor.existing_docstring, None);
    let get = &parsed.items[4];
    assert_eq!(get.parent.as_deref(), Some("Foo"));
    assert_eq!(get.indentation, "  ");
    assert_eq!(get.existing_docstring.as_deref(), Some("Gets x."));
}

#[test]
fn javascript_update_replaces_block_and_inserts_block() {
    let parser = JavaScriptParser::new();
    let updates = vec![
        UpdatedDocstring {
            item_index: 4,
            new_docstring: "Returns x.".to_string(),
            indentation: "  ".to_string(),
        },
        UpdatedDocstring {
            item_index: 0,
            new_docstring: "Adds a and b.\n\n@param a first\n@param b second".to_string(),
            indentation: "".to_string(),
        },
        UpdatedDocstring {
            item_index: 2,
            new_docstring: "A foo.".to_string(),
            indentation: "".to_string(),
        },
    ];
    let out = parser.update_content(SAMPLE, &updates).unwrap();
    let expected = "/**\n * Adds a and b.\n *\n * @param a first\n * @param b second\n */\nfunction add(a, b = 1, ...rest) {\n  return a + b;\n}\n\n/**\n * A foo.\n */\nclass Foo {\n  constructor(x) {\n    this.x = x;\n  }\n\n  /**\n   * Returns x.\n   */\n  getX() {\n    return this.x;\n  }\n}\n\nfunction bare({p, q}) {}\n";
    assert_eq!(out, expected);
    let again = parser.parse(&out).unwrap();
    assert_eq!(
        again.items[0].existing_docstring.as_deref(),
        Some("Adds a and b.\n\n@param a first\n@param b second")
    );
    assert_eq!(again.items[2].existing_docstring.as_deref(), Some("A foo."));
    assert_eq!(again.items[4].existing_docstring.as_deref(), Some("Returns x."));
}
