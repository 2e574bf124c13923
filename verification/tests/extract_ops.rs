use docgen::extract::{collect_items, make_item, Declaration, Definition, Parameter, ParameterForm};
use docgen::parser::ItemType;
use docgen::rewrite::DocConvention;

fn def(name: &str, first: usize, last: usize) -> Definition {
    Definition {
        name: name.to_string(),
        first_line: first,
        last_line: last,
        parameters: vec![],
        returns: None,
        inline_doc: None,
    }
}

fn p(name: &str, form: ParameterForm) -> Parameter {
    Parameter { name: name.to_string(), form }
}

#[test]
fn parameters_are_encoded_with_their_markers() {
    assert_eq!(p("a", ParameterForm::Plain).encode(), "a");
    assert_eq!(p("a", ParameterForm::WithDefault).encode(), "a=");
    assert_eq!(p("a", ParameterForm::Variadic).encode(), "*a");
    assert_eq!(p("a", ParameterForm::KeywordVariadic).encode(), "**a");
    assert_eq!(p("", ParameterForm::KeywordVariadic).encode(), "**");
}

#[test]
fn methods_follow_their_class_and_name_it_as_parent() {
    let content = "/// Top.\nfn top() {}\nstruct Foo;\nimpl Foo {\n    /// A.\n    fn a(&self) {}\n    fn b() {}\n}\n";
    let declarations = vec![
        Declaration::Function(def("top", 2, 2)),
        Declaration::Class(def("Foo", 3, 3), vec![def("a", 6, 6), def("b", 7, 7)]),
        Declaration::Methods("Bar".to_string(), vec![def("c", 7, 7)]),
    ];
    let parsed = collect_items(DocConvention::LineComments, content, &declarations);
    assert_eq!(parsed.original_content, content);
    let seen: Vec<(&str, ItemType, Option<&str>)> = parsed
        .items
        .iter()
        .map(|i| (i.name.as_str(), i.item_type, i.parent.as_deref()))
        .collect();
    assert_eq!(
        seen,
        vec![
            ("top", ItemType::Function, None),
            ("Foo", ItemType::Class, None),
            ("a", ItemType::Method, Some("Foo")),
            ("b", ItemType::Method, Some("Foo")),
            ("c", ItemType::Method, Some("Bar")),
        ]
    );
    assert_eq!(parsed.items[0].existing_docstring.as_deref(), Some("Top."));
    assert_eq!(parsed.items[1].existing_docstring, None);
    assert_eq!(parsed.items[2].existing_docstring.as_deref(), Some("A."));
    assert_eq!(parsed.items[2].indentation, "    ");
    assert_eq!(parsed.items[3].existing_docstring, None);
    assert!(collect_items(DocConvention::LineComments, content, &vec![]).items.is_empty());
}

#[test]
fn an_item_shows_the_lines_of_its_definition() {
    let lines: Vec<Vec<char>> =
        ["a", "  def f(x):", "    pass", "", "b"].iter().map(|l| l.chars().collect()).collect();
    let mut d = def("f", 2, 3);
    d.parameters = vec![p("x", ParameterForm::Plain), p("k", ParameterForm::WithDefault)];
    d.returns = Some("int".to_string());
    let item = make_item(DocConvention::InlineLiteral, &lines, &d, ItemType::Function, None);
    assert_eq!(item.code, "  def f(x):\n    pass");
    assert_eq!(item.line_number, 2);
    assert_eq!(item.end_line, 3);
    assert_eq!(item.indentation, "  ");
    assert_eq!(item.parameters, vec!["x", "k="]);
    assert_eq!(item.returns.as_deref(), Some("int"));
    assert_eq!(item.existing_docstring, None);
    // Lines that the text does not have are left out.
    let item = make_item(DocConvention::InlineLiteral, &lines, &def("g", 4, 9), ItemType::Class, None);
    assert_eq!(item.code, "\nb");
    let item = make_item(DocConvention::InlineLiteral, &lines, &def("g", 7, 9), ItemType::Class, None);
    assert_eq!(item.code, "");
    assert_eq!(item.indentation, "");
    let item = make_item(DocConvention::InlineLiteral, &lines, &def("g", 0, 1), ItemType::Class, None);
    assert_eq!(item.code, "a");
    assert_eq!(item.indentation, "");
    let item = make_item(DocConvention::InlineLiteral, &lines, &def("g", 3, 2), ItemType::Class, None);
    assert_eq!(item.code, "");
    assert_eq!(item.indentation, "    ");
}

#[test]
fn a_literal_in_the_body_comes_before_a_comment_above() {
    let lines: Vec<Vec<char>> =
        ["/// Above.", "fn f() {}"].iter().map(|l| l.chars().collect()).collect();
    let mut d = def("f", 2, 2);
    let item = make_item(DocConvention::LineComments, &lines, &d, ItemType::Function, None);
    assert_eq!(item.existing_docstring.as_deref(), Some("Above."));
    d.inline_doc = Some("Inside.".to_string());
    let item = make_item(DocConvention::LineComments, &lines, &d, ItemType::Function, None);
    assert_eq!(item.existing_docstring.as_deref(), Some("Inside."));
    d.inline_doc = None;
    let item = make_item(DocConvention::InlineLiteral, &lines, &d, ItemType::Function, None);
    assert_eq!(item.existing_docstring, None);
    let item = make_item(DocConvention::BlockComment, &lines, &d, ItemType::Function, None);
    assert_eq!(item.existing_docstring, None);
}
