use docgen::docstring::UpdatedDocstring;
use docgen::error::DocGenError;
use docgen::lang::python::PythonParser;
use docgen::lang::LanguageParser;

const SAMPLE: &str = "def f(a, b):\n    return a + b\n\nclass Foo:\n    def bar(self):\n        \"\"\"Old\n        text.\n        \"\"\"\n        pass\n";

#[test]
fn python_update_inserts_behind_definition_line() {
    let parser = PythonParser::new();
    let updates = vec![UpdatedDocstring {
        item_index: 0,
        new_docstring: "Adds a and b.".to_string(),
        indentation: "".to_string(),
    }];
    let out = parser.update_content(SAMPLE, &updates).unwrap();
    assert_eq!(
        out,
        "def f(a, b):\n    \"\"\"Adds a and b.\"\"\"\n    return a + b\n\nclass Foo:\n    def bar(self):\n        \"\"\"Old\n        text.\n        \"\"\"\n        pass\n"
    );
    let again = parser.parse(&out).unwrap();
    assert_eq!(again.items[0].existing_docstring.as_deref(), Some("Adds a and b."));
    assert_eq!(again.items[2].existing_docstring.as_deref(), Some("Old\n        text.\n        "));
}

#[test]
fn python_update_writes_an_empty_literal_for_an_empty_text() {
    let parser = PythonParser::new();
    let updates = vec![UpdatedDocstring {
        item_index: 0,
        new_docstring: String::new(),
        indentation: "".to_string(),
    }];
    let out = parser.update_content("def f():\n    pass\n", &updates).unwrap();
    assert_eq!(out, "def f():\n    \"\"\"\"\"\"\n    pass\n");
    assert_eq!(parser.parse(&out).unwrap().items[0].existing_docstring.as_deref(), Some(""));
}

#[test]
fn python_update_replaces_existing_literal() {
    let parser = PythonParser::new();
    let updates = vec![UpdatedDocstring {
        item_index: 2,
        new_docstring: "New text.\n\nMore.".to_string(),
        indentation: "    ".to_string(),
    }];
    let out = parser.update_content(SAMPLE, &updates).unwrap();
    assert_eq!(
        out,
        "def f(a, b):\n    return a + b\n\nclass Foo:\n    def bar(self):\n        \"\"\"New text.\n        \n        More.\"\"\"\n        pass\n"
    );
}

#[test]
fn python_update_without_updates_returns_content() {
    let parser = PythonParser::new();
    let text = "def f():\r\n    pass\r\n";
    assert_eq!(parser.update_content(text, &[]).unwrap(), text);
}

#[test]
fn python_update_out_of_range_index_is_update_error() {
    let parser = PythonParser::new();
    let updates = vec![UpdatedDocstring {
        item_index: 3,
        new_docstring: "x".to_string(),
        indentation: "".to_string(),
    }];
    assert!(matches!(parser.update_content(SAMPLE, &updates), Err(DocGenError::UpdateError(_))));
}

#[test]
fn python_update_of_unparsable_text_is_parsing_error() {
    let parser = PythonParser::new();
    let updates = vec![UpdatedDocstring {
        item_index: 0,
        new_docstring: "x".to_string(),
        indentation: "".to_string(),
    }];
    assert!(matches!(
        parser.update_content("def broken(:\n", &updates),
        Err(DocGenError::ParsingError(_))
    ));
}

#[test]
fn python_update_is_refused_where_the_text_would_be_misplaced() {
    let parser = PythonParser::new();
    let update = |text: &str| {
        vec![UpdatedDocstring {
            item_index: 0,
            new_docstring: text.to_string(),
            indentation: String::new(),
        }]
    };
    // The header spans two lines.
    let spread = "def f(a,\n      b):\n    pass\n";
    assert!(matches!(parser.update_content(spread, &update("Doc.")), Err(DocGenError::UpdateError(_))));
    // The body stands on the definition line.
    let short = "def f(): pass\n";
    assert!(matches!(parser.update_content(short, &update("Doc.")), Err(DocGenError::UpdateError(_))));
    // A header that ends its line is fine, with white space behind the colon too.
    let plain = "def f():  \n    pass\n";
    assert_eq!(
        parser.update_content(plain, &update("Doc.")).unwrap(),
        "def f():  \n    \"\"\"Doc.\"\"\"\n    pass\n"
    );
}

#[test]
fn python_update_is_refused_for_a_text_that_cannot_stand_between_the_quotes() {
    let parser = PythonParser::new();
    let content = "def f():\n    pass\n";
    for text in ["a \\ b", "say \"\"\" nothing", "ends with \"", "ends with \"\n", "\"\"\""] {
        let updates = vec![UpdatedDocstring {
            item_index: 0,
            new_docstring: text.to_string(),
            indentation: String::new(),
        }];
        assert!(
            matches!(parser.update_content(content, &updates), Err(DocGenError::UpdateError(_))),
            "{:?}",
            text
        );
    }
    let updates = vec![UpdatedDocstring {
        item_index: 0,
        new_docstring: "He said \"no\" twice, \"\"so\"\".".to_string(),
        indentation: String::new(),
    }];
    let out = parser.update_content(content, &updates).unwrap();
    assert_eq!(
        parser.parse(&out).unwrap().items[0].existing_docstring.as_deref(),
        Some("He said \"no\" twice, \"\"so\"\".")
    );
}
