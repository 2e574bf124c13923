use docgen::extract::{Declaration, ParameterForm};
use docgen::pattern::{
    find_body_open, find_closing, find_declarations, find_word_end, has_default, is_callable_at,
    is_class_at, is_keyword_at, is_method_at, is_reserved_name, line_at_index, read_annotation,
    read_methods, read_parameters, split_pieces,
};

fn c(s: &str) -> Vec<char> {
    s.chars().collect()
}

#[test]
fn closing_delimiters_are_found_by_counting() {
    let s = c("f(a, (b), c) { x { y } z } }");
    assert_eq!(find_closing(&s, 2, '(', ')'), Some(11));
    assert_eq!(find_closing(&s, 6, '(', ')'), Some(7));
    assert_eq!(find_closing(&s, 14, '{', '}'), Some(25));
    assert_eq!(find_closing(&s, 18, '{', '}'), Some(21));
    assert_eq!(find_closing(&c("{ {"), 1, '{', '}'), None);
    assert_eq!(find_closing(&c("{"), 1, '{', '}'), None);
    assert_eq!(find_closing(&c("{}"), 1, '{', '}'), Some(1));
}

#[test]
fn words_keywords_and_lines() {
    let s = c("ab_$9 (x); class  Foo{}\nclassy class\n");
    assert_eq!(find_word_end(&s, 0), 5);
    assert_eq!(find_word_end(&s, 5), 5);
    assert_eq!(find_body_open(&s, 0), 9);
    assert_eq!(find_body_open(&s, 10), 21);
    assert_eq!(find_body_open(&s, 23), 37);
    assert!(is_keyword_at(&s, 11, &c("class")));
    assert!(!is_keyword_at(&s, 24, &c("class")));
    assert!(is_keyword_at(&s, 31, &c("class")));
    assert!(!is_keyword_at(&c("class"), 0, &c("class")));
    assert!(!is_keyword_at(&c("subclass x"), 3, &c("class")));
    assert!(is_class_at(&s, 11));
    assert!(!is_class_at(&s, 31));
    assert_eq!(line_at_index(&s, 0), 1);
    assert_eq!(line_at_index(&s, 23), 1);
    assert_eq!(line_at_index(&s, 24), 2);
    assert_eq!(line_at_index(&s, 37), 3);
    assert!(is_reserved_name(&c("constructor")));
    assert!(is_reserved_name(&c("while")));
    assert!(!is_reserved_name(&c("whiles")));
    assert!(!is_reserved_name(&c("")));
}

#[test]
fn callables_and_methods() {
    let s = c("get (a) { } set(b); if (c) {} x = go(1) {}");
    assert!(is_callable_at(&s, 0));
    assert!(!is_callable_at(&s, 3));
    assert!(is_callable_at(&s, 12));
    assert!(!is_callable_at(&c("f(x"), 0));
    assert!(!is_callable_at(&c("f x()"), 0));
    assert!(is_method_at(&s, 0, s.len()));
    assert!(!is_method_at(&s, 0, 10));
    assert!(!is_method_at(&s, 1, s.len()));
    assert!(!is_method_at(&s, 12, s.len()));
    assert!(!is_method_at(&s, 20, s.len()));
    assert!(is_method_at(&s, 34, s.len()));
}

#[test]
fn parameter_lists() {
    let pieces: Vec<String> =
        split_pieces(&c("a, b: Map<K, V>, [c, d] = [1, 2], cb: (x, y) => void, e")).into_iter().map(|p| p.into_iter().collect()).collect();
    assert_eq!(pieces, vec!["a", " b: Map<K, V>", " [c, d] = [1, 2]", " cb: (x, y) => void", " e"]);
    assert_eq!(split_pieces(&c("")), vec![c("")]);
    assert_eq!(split_pieces(&c(",")), vec![c(""), c("")]);
    let seen: Vec<(String, ParameterForm)> = read_parameters(&c(
        " a, b?: number = 1, ...rest: T[], { p, q }: Opts, cb: () => void, , private readonly z: number ",
    ))
    .into_iter()
    .map(|p| (p.name, p.form))
    .collect();
    assert_eq!(
        seen,
        vec![
            ("a".to_string(), ParameterForm::Plain),
            ("b".to_string(), ParameterForm::WithDefault),
            ("rest".to_string(), ParameterForm::Variadic),
            ("{ p, q }: Opts".to_string(), ParameterForm::Plain),
            ("cb".to_string(), ParameterForm::Plain),
            ("private".to_string(), ParameterForm::Plain),
        ]
    );
    assert!(read_parameters(&c("  ")).is_empty());
    assert!(has_default(&c("a = 1")));
    assert!(has_default(&c("a =")));
    assert!(!has_default(&c("a: () => b")));
    assert!(has_default(&c("a: () => b = f")));
    assert_eq!(read_annotation(&c(" : Promise<void> ")).as_deref(), Some("Promise<void>"));
    assert_eq!(read_annotation(&c(":")).as_deref(), Some(""));
    assert_eq!(read_annotation(&c(" ")), None);
    assert_eq!(read_annotation(&c(" extends X ")), None);
}

#[test]
fn methods_of_a_body_and_declarations_of_a_text() {
    let s = c("class A { a(x = f(1)) { if (x) { b() {} } } c() {} }\nfunction g(p) { class B { d() {} } }\nfunction h();");
    let methods: Vec<String> = read_methods(&s, 9, 51).into_iter().map(|m| m.name).collect();
    assert_eq!(methods, vec!["a", "c"]);
    let found = find_declarations(&s);
    assert_eq!(found.len(), 3);
    match &found[0] {
        Declaration::Class(class, methods) => {
            assert_eq!(class.name, "A");
            assert_eq!((class.first_line, class.last_line), (1, 1));
            assert_eq!(methods.len(), 2);
            assert_eq!(methods[0].parameters.len(), 1);
            assert_eq!(methods[0].parameters[0].form, ParameterForm::WithDefault);
        }
        _ => panic!("expected a class"),
    }
    match &found[1] {
        Declaration::Function(f) => {
            assert_eq!(f.name, "g");
            assert_eq!((f.first_line, f.last_line), (2, 2));
        }
        _ => panic!("expected a function"),
    }
    match &found[2] {
        Declaration::Function(f) => {
            assert_eq!(f.name, "h");
            assert_eq!((f.first_line, f.last_line), (3, 3));
            assert!(f.parameters.is_empty());
        }
        _ => panic!("expected a function"),
    }
    assert!(find_declarations(&c("")).is_empty());
    assert!(find_declarations(&c("}}} function")).is_empty());
    assert_eq!(find_declarations(&c("}}} function f() {}")).len(), 1);
}
