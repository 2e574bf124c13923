use docgen::docstring::UpdatedDocstring;
use docgen::error::DocGenError;
use docgen::lang::typescript::TypeScriptParser;
use docgen::lang::LanguageParser;
use docgen::parser::{ItemType, ParsedCode};

fn parse(text: &str) -> ParsedCode {
    TypeScriptParser::new().parse(text).unwrap()
}

fn names(parsed: &ParsedCode) -> Vec<(String, ItemType, Option<String>)> {
    parsed.items.iter().map(|i| (i.name.clone(), i.item_type, i.parent.clone())).collect()
}

const SAMPLE: &str = "/**\n * Adds.\n */\nexport function add(a: number, b = 1, ...rest: number[]): number {\n  if (a) { return a + b; }\n  return b;\n}\n\nclass Foo extends Base {\n  private x: number;\n\n  constructor(x: number) {\n    super();\n    this.x = x;\n  }\n\n  /** Gets x. */\n  public getX(): number {\n    for (const i of [1]) { if (i) { while (false) {} } }\n    return this.x;\n  }\n\n  set(cb: (v: number) => void, opts?: Map<string, number>) {\n    switch (this.x) { default: break; }\n  }\n}\n";

#[test]
fn typescript_finds_functions_classes_and_methods() {
    let parsed = parse(SAMPLE);
    assert_eq!(
        names(&parsed),
        vec![
            ("add".to_string(), ItemType::Function, None),
            ("Foo".to_string(), ItemType::Class, None),
            ("getX".to_string(), ItemType::Method, Some("Foo".to_string())),
            ("set".to_string(), ItemType::Method, Some("Foo".to_string())),
        ]
    );
    let add = &parsed.items[0];
    assert_eq!(add.line_number, 4);
    assert_eq!(add.end_line, 7);
    assert_eq!(add.parameters, vec!["a", "b=", "*rest"]);
    assert_eq!(add.returns.as_deref(), Some("number"));
    assert_eq!(add.existing_docstring.as_deref(), Some("Adds."));
    let foo = &parsed.items[1];
    assert_eq!(foo.line_number, 9);
    assert_eq!(foo.end_line, 26);
    assert_eq!(foo.existing_docstring, None);
    let get = &parsed.items[2];
    assert_eq!(get.line_number, 18);
    assert_eq!(get.end_line, 21);
    assert_eq!(get.indentation, "  ");
    assert_eq!(get.returns.as_deref(), Some("number"));
    assert_eq!(get.existing_docstring.as_deref(), Some("Gets x."));
    assert_eq!(get.parameters, Vec::<String>::new());
    let set = &parsed.items[3];
    assert_eq!(set.parameters, vec!["cb", "opts"]);
    assert_eq!(set.returns, None);
}

#[test]
fn typescript_reserved_words_are_no_methods() {
    let parsed = parse("class A {\n  constructor() {}\n  if (x) {}\n  for (;;) {}\n  while (x) {}\n  switch (x) {}\n  catch (e) {}\n  real() {}\n}\n");
    assert_eq!(
        names(&parsed),
        vec![
            ("A".to_string(), ItemType::Class, None),
            ("real".to_string(), ItemType::Method, Some("A".to_string())),
        ]
    );
}

#[test]
fn typescript_multiple_and_nested_classes() {
    let parsed = parse("class A {\n  a() {\n    class Inner { hidden() {} }\n  }\n}\nclass B {\n  b() {}\n}\n");
    assert_eq!(
        names(&parsed),
        vec![
            ("A".to_string(), ItemType::Class, None),
            ("a".to_string(), ItemType::Method, Some("A".to_string())),
            ("B".to_string(), ItemType::Class, None),
            ("b".to_string(), ItemType::Method, Some("B".to_string())),
        ]
    );
}

#[test]
fn typescript_brace_inside_string_unbalances_the_scan() {
    // The scan counts the brace in the string: the class is never closed and is not found.
    let parsed = parse("class A {\n  a() { return \"{\"; }\n}\nfunction after() {}\n");
    assert_eq!(names(&parsed), Vec::new());
}

#[test]
fn typescript_closing_brace_inside_comment_ends_class_early() {
    let parsed = parse("class A {\n  // }\n  a() {}\n}\n");
    assert_eq!(names(&parsed), vec![("A".to_string(), ItemType::Class, None)]);
    assert_eq!(parsed.items[0].end_line, 2);
}

#[test]
fn typescript_text_without_definitions_has_no_items_and_no_issues() {
    let parsed = parse("const x = 1;\nlet functional = classy(2);\n");
    assert!(parsed.items.is_empty());
    assert!(docgen::docstring::analyze(&parsed).unwrap().is_empty());
    assert!(parse("").items.is_empty());
}

#[test]
fn typescript_function_without_body() {
    let parsed = parse("declare function f(x: number): void;\nfunction g() {}\n");
    assert_eq!(
        names(&parsed),
        vec![
            ("f".to_string(), ItemType::Function, None),
            ("g".to_string(), ItemType::Function, None),
        ]
    );
    assert_eq!(parsed.items[0].end_line, 1);
    assert_eq!(parsed.items[0].returns.as_deref(), Some("void"));
}

#[test]
fn typescript_update_round_trip() {
    let parser = TypeScriptParser::new();
    let updates = vec![
        UpdatedDocstring {
            item_index: 0,
            new_docstring: "Adds a and b.\n@returns the sum".to_string(),
            indentation: "".to_string(),
        },
        UpdatedDocstring {
            item_index: 3,
            new_docstring: "Sets.".to_string(),
            indentation: "  ".to_string(),
        },
    ];
    let out = parser.update_content(SAMPLE, &updates).unwrap();
    let expected = "/**\n * Adds a and b.\n * @returns the sum\n */\nexport function add(a: number, b = 1, ...rest: number[]): number {\n  if (a) { return a + b; }\n  return b;\n}\n\nclass Foo extends Base {\n  private x: number;\n\n  constructor(x: number) {\n    super();\n    this.x = x;\n  }\n\n  /** Gets x. */\n  public getX(): number {\n    for (const i of [1]) { if (i) { while (false) {} } }\n    return this.x;\n  }\n\n  /**\n   * Sets.\n   */\n  set(cb: (v: number) => void, opts?: Map<string, number>) {\n    switch (this.x) { default: break; }\n  }\n}\n";
    assert_eq!(out, expected);
    let again = parser.parse(&out).unwrap();
    assert_eq!(again.items[0].existing_docstring.as_deref(), Some("Adds a and b.\n@returns the sum"));
    assert_eq!(again.items[3].existing_docstring.as_deref(), Some("Sets."));
}

#[test]
fn typescript_update_with_unknown_item_is_update_error() {
    let parser = TypeScriptParser::new();
    let updates = vec![UpdatedDocstring {
        item_index: 4,
        new_docstring: "x".to_string(),
        indentation: "".to_string(),
    }];
    assert!(matches!(parser.update_content(SAMPLE, &updates), Err(DocGenError::UpdateError(_))));
    assert_eq!(
        parser.update_content("function f() {}\n", &updates).map_err(|e| e.message()),
        Err("Failed to update file content: an update refers to an item that the text does not have".to_string())
    );
}
