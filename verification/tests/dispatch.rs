use docgen::config::{Config, Provider};
use docgen::docstring::UpdatedDocstring;
use docgen::error::DocGenError;
use docgen::lang::{detect_language, get_parser, Detected, Extractor, LanguageParser, SourceLanguage};
use docgen::parser::{parse_javascript, parse_python, parse_rust, parse_typescript, ItemType};
use docgen::updater::update_file_content;

#[test]
fn languages_by_extension() {
    let named = |language| Detected { language, fallback: false };
    assert_eq!(detect_language(Some("py")), named(SourceLanguage::Python));
    assert_eq!(detect_language(Some("rs")), named(SourceLanguage::Rust));
    assert_eq!(detect_language(Some("js")), named(SourceLanguage::JavaScript));
    assert_eq!(detect_language(Some("ts")), named(SourceLanguage::TypeScript));
    assert_eq!(detect_language(Some("tsx")), named(SourceLanguage::TypeScript));
    let fallback = Detected { language: SourceLanguage::Python, fallback: true };
    assert_eq!(detect_language(Some("PY")), fallback);
    assert_eq!(detect_language(Some("txt")), fallback);
    assert_eq!(detect_language(Some("")), fallback);
    assert_eq!(detect_language(None), fallback);
}

#[test]
fn each_language_has_its_parser() {
    assert!(matches!(get_parser(&SourceLanguage::Python).parser, Extractor::Python(_)));
    assert!(matches!(get_parser(&SourceLanguage::Rust).parser, Extractor::Rust(_)));
    assert!(matches!(get_parser(&SourceLanguage::JavaScript).parser, Extractor::JavaScript(_)));
    assert!(matches!(get_parser(&SourceLanguage::TypeScript).parser, Extractor::TypeScript(_)));
    assert!(get_parser(&SourceLanguage::Rust).warning.is_none());
    let auto = get_parser(&SourceLanguage::Auto);
    assert!(matches!(auto.parser, Extractor::Python(_)));
    assert_eq!(
        auto.warning.as_deref(),
        Some("Warning: Requested language not fully implemented. Using Python parser instead.")
    );
    let parsed = auto.parser.parse("def f():\n    pass\n").unwrap();
    assert_eq!(parsed.items[0].name, "f");
}

#[test]
fn parse_functions_read_their_language() {
    assert_eq!(parse_python("class A:\n    pass\n").unwrap().items[0].item_type, ItemType::Class);
    assert_eq!(parse_rust("fn f() {}\n").unwrap().items[0].name, "f");
    assert_eq!(parse_javascript("function g() {}\n").unwrap().items[0].name, "g");
    assert_eq!(parse_typescript("function h(): void {}\n").unwrap().items[0].name, "h");
    assert!(matches!(parse_python("def (:"), Err(DocGenError::ParsingError(_))));
}

#[test]
fn file_content_is_updated_as_the_language_writes_documentation() {
    let update = |text: &str| {
        vec![UpdatedDocstring {
            item_index: 0,
            new_docstring: text.to_string(),
            indentation: String::new(),
        }]
    };
    assert_eq!(
        update_file_content("fn f() {}\n", &SourceLanguage::Rust, &update("Does f.")).unwrap(),
        "/// Does f.\nfn f() {}\n"
    );
    assert_eq!(
        update_file_content("function f() {}\n", &SourceLanguage::JavaScript, &update("Does f.")).unwrap(),
        "/**\n * Does f.\n */\nfunction f() {}\n"
    );
    assert_eq!(
        update_file_content("function f() {}\n", &SourceLanguage::TypeScript, &update("Does f.")).unwrap(),
        "/**\n * Does f.\n */\nfunction f() {}\n"
    );
    assert_eq!(
        update_file_content("def f():\n    pass\n", &SourceLanguage::Python, &update("Does f.")).unwrap(),
        "def f():\n    \"\"\"Does f.\"\"\"\n    pass\n"
    );
    assert_eq!(
        update_file_content("def f():\n    pass\n", &SourceLanguage::Auto, &update("Does f.")).unwrap(),
        "def f():\n    \"\"\"Does f.\"\"\"\n    pass\n"
    );
    assert_eq!(update_file_content("anything {", &SourceLanguage::Rust, &[]).unwrap(), "anything {");
    assert!(matches!(
        update_file_content("", &SourceLanguage::Rust, &update("x")),
        Err(DocGenError::UpdateError(_))
    ));
}

#[test]
fn providers_and_their_credentials() {
    assert_eq!(Provider::OpenAi.api_key_variable(), Some("OPENAI_API_KEY"));
    assert_eq!(Provider::Claude.api_key_variable(), Some("ANTHROPIC_API_KEY"));
    assert_eq!(Provider::Mock.api_key_variable(), None);
    let config = Config { provider: Provider::Claude, check_only: false, verbose: false, test_mode: true };
    assert_eq!(config.api_key_variable(), Some("ANTHROPIC_API_KEY"));
    assert!(config.reports_only());
    let config = Config { provider: Provider::Mock, check_only: false, verbose: true, test_mode: false };
    assert!(!config.reports_only());
    let config = Config { provider: Provider::Mock, check_only: true, verbose: true, test_mode: false };
    assert!(config.reports_only());
}

#[test]
fn error_messages() {
    let text = |e: DocGenError| e.message();
    assert_eq!(text(DocGenError::ParsingError("x".into())), "Failed to parse Python code: x");
    assert_eq!(text(DocGenError::LlmApiError("x".into())), "LLM API error: x");
    assert_eq!(text(DocGenError::FileError("x".into())), "File I/O error: x");
    assert_eq!(text(DocGenError::ConfigError("x".into())), "Configuration error: x");
    assert_eq!(text(DocGenError::UpdateError("x".into())), "Failed to update file content: x");
    assert_eq!(text(DocGenError::Unknown("".into())), "Unknown error: ");
    assert_eq!(ItemType::Function.as_str(), "function");
    assert_eq!(ItemType::Method.as_str(), "method");
    assert_eq!(ItemType::Class.as_str(), "class");
}

#[test]
fn an_update_for_an_item_that_the_text_does_not_have_is_an_update_error() {
    let updates = vec![UpdatedDocstring {
        item_index: 0,
        new_docstring: "Doc.".to_string(),
        indentation: String::new(),
    }];
    for language in [
        SourceLanguage::Python,
        SourceLanguage::Auto,
        SourceLanguage::Rust,
        SourceLanguage::JavaScript,
        SourceLanguage::TypeScript,
    ] {
        assert!(
            matches!(
                update_file_content("x = 1\n", &language, &updates),
                Err(DocGenError::UpdateError(_))
            ),
            "{:?}",
            language
        );
    }
    assert!(matches!(
        update_file_content("def (:\n", &SourceLanguage::Python, &updates),
        Err(DocGenError::ParsingError(_))
    ));
}

#[test]
fn the_selected_parser_works_like_a_parser_of_its_kind() {
    let text = "def f(a):\n    pass\n";
    let selected = get_parser(&SourceLanguage::Python).parser.parse(text).unwrap();
    let fresh = parse_python(text).unwrap();
    assert_eq!(selected.items.len(), fresh.items.len());
    assert_eq!(selected.items[0].name, fresh.items[0].name);
    assert_eq!(selected.items[0].parameters, fresh.items[0].parameters);
    let text = "fn f(a: u8) {}\n";
    let selected = get_parser(&SourceLanguage::Rust).parser.parse(text).unwrap();
    let fresh = parse_rust(text).unwrap();
    assert_eq!(selected.items[0].name, fresh.items[0].name);
    assert_eq!(selected.items[0].code, fresh.items[0].code);
}
