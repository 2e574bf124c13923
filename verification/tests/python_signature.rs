use docgen::extract::ParameterForm;
use docgen::lang::python::{parameters_of, Argument, PythonParser, Signature};
use docgen::lang::LanguageParser;

fn arg(name: &str, has_default: bool) -> Argument {
    Argument { name: name.to_string(), has_default }
}

fn shown(signature: &Signature) -> Vec<(String, ParameterForm)> {
    parameters_of(signature).into_iter().map(|p| (p.name, p.form)).collect()
}

#[test]
fn parameters_in_declaration_order() {
    let signature = Signature {
        positional_only: vec![arg("self", false), arg("q", true)],
        positional: vec![arg("a", false), arg("b", true)],
        variadic: Some("rest".to_string()),
        keyword_only: vec![arg("k", true), arg("m", false)],
        keyword_variadic: Some("extra".to_string()),
    };
    assert_eq!(
        shown(&signature),
        vec![
            ("self".to_string(), ParameterForm::Plain),
            ("q".to_string(), ParameterForm::WithDefault),
            ("a".to_string(), ParameterForm::Plain),
            ("b".to_string(), ParameterForm::WithDefault),
            ("rest".to_string(), ParameterForm::Variadic),
            ("k".to_string(), ParameterForm::WithDefault),
            ("m".to_string(), ParameterForm::Plain),
            ("extra".to_string(), ParameterForm::KeywordVariadic),
        ]
    );
    let none = Signature {
        positional_only: vec![],
        positional: vec![],
        variadic: None,
        keyword_only: vec![],
        keyword_variadic: None,
    };
    assert!(shown(&none).is_empty());
}

#[test]
fn parameters_as_the_grammar_reports_them() {
    let parsed = PythonParser::new()
        .parse("def f(self, /, a, b=2, *rest, k=1, m, **extra):\n    pass\n\nasync def g():\n    pass\n\nx = 1\n")
        .unwrap();
    assert_eq!(parsed.items.len(), 1);
    assert_eq!(parsed.items[0].parameters, vec!["self", "a", "b=", "*rest", "k=", "m", "**extra"]);
    let nested = PythonParser::new()
        .parse("class A:\n    class B:\n        def hidden(self):\n            pass\n    x = 1\n\n    def shown(self, ñ):\n        '''Doc ñ.'''\n")
        .unwrap();
    let names: Vec<&str> = nested.items.iter().map(|i| i.name.as_str()).collect();
    assert_eq!(names, vec!["A", "shown"]);
    assert_eq!(nested.items[1].line_number, 7);
    assert_eq!(nested.items[1].end_line, 8);
    assert_eq!(nested.items[1].existing_docstring.as_deref(), Some("Doc ñ."));
    assert_eq!(nested.items[0].end_line, 8);
}

#[test]
fn definition_lines_from_byte_offsets() {
    let source: Vec<char> = "x = 'ñ'\ndef f():\n    pass\n".chars().collect();
    // bytes: line 1 takes 0..=8 (ñ is two bytes), line 2 starts at 9, line 3 at 18.
    let d = docgen::lang::python::definition_between(
        &source,
        "f".to_string(),
        9,
        26,
        vec![],
        Some("int".to_string()),
        None,
    );
    assert_eq!((d.first_line, d.last_line), (2, 3));
    assert_eq!(d.name, "f");
    assert_eq!(d.returns.as_deref(), Some("int"));
    assert_eq!(d.inline_doc, None);
    let d = docgen::lang::python::definition_between(&source, "g".to_string(), 0, 0, vec![], None, None);
    assert_eq!((d.first_line, d.last_line), (1, 1));
    let d = docgen::lang::python::definition_between(&source, "g".to_string(), 8, 9, vec![], None, None);
    assert_eq!((d.first_line, d.last_line), (1, 1));
    let d = docgen::lang::python::definition_between(&source, "g".to_string(), 18, 27, vec![], None, None);
    assert_eq!((d.first_line, d.last_line), (3, 3));
}
