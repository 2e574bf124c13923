use docgen::block_comments::{find_opening, read_block_doc, read_block_text};
use docgen::hash_comments::{find_hash_doc_span, read_hash_doc};
use docgen::inline_literals::{find_inline_doc_span, is_header_end, is_literal_safe};
use docgen::line_comments::{find_line_doc_span, read_line_doc};

fn lines(text: &[&str]) -> Vec<Vec<char>> {
    text.iter().map(|l| l.chars().collect()).collect()
}

fn s(o: Option<Vec<char>>) -> Option<String> {
    o.map(|v| v.into_iter().collect())
}

#[test]
fn line_documentation_is_read_without_markers() {
    let text = lines(&["  /// One. ", "", "  ///Two", "  //////", "  /// /// three", "", "  fn f() {}"]);
    assert_eq!(find_line_doc_span(&text, 6), (0, 5));
    assert_eq!(s(read_line_doc(&text, 6)).as_deref(), Some("One.\nTwo\n\n/// three"));
    assert_eq!(read_line_doc(&text, 0), None);
    let code = lines(&["let x = 1; /// not a doc line", "fn f() {}"]);
    assert_eq!(read_line_doc(&code, 1), None);
    let plain = lines(&["// plain", "fn f() {}"]);
    assert_eq!(read_line_doc(&plain, 1), None);
    let blank = lines(&["", "  ", "fn f() {}"]);
    assert_eq!(read_line_doc(&blank, 2), None);
    assert_eq!(find_line_doc_span(&blank, 2), (2, 2));
}

#[test]
fn block_documentation_is_read_without_markers() {
    let text = lines(&["/**", " * One.", " *", " * * two", " Three */", "", "// note", "function f() {}"]);
    assert_eq!(s(read_block_doc(&text, 7)).as_deref(), Some("One.\n\n* two\nThree"));
    let single = lines(&["  /** One. */  ", "function f() {}"]);
    assert_eq!(s(read_block_doc(&single, 1)).as_deref(), Some("One."));
    let stars = lines(&["/*****", " ** x", " ****/", "f()"]);
    assert_eq!(s(read_block_doc(&stars, 3)).as_deref(), Some("x"));
    let empty = lines(&["/** */", "f()"]);
    assert_eq!(s(read_block_doc(&empty, 1)).as_deref(), Some(""));
    let code_between = lines(&["/** One. */", "let x;", "function f() {}"]);
    assert_eq!(read_block_doc(&code_between, 2), None);
    let plain = lines(&["/* One. */", "function f() {}"]);
    assert_eq!(read_block_doc(&plain, 1), None);
    let unclosed = lines(&["/** One.", "function f() {}"]);
    assert_eq!(read_block_doc(&unclosed, 1), None);
    assert_eq!(read_block_doc(&text, 0), None);
    let text_of_rows: String = read_block_text(&text, 1, 3).into_iter().collect();
    assert_eq!(text_of_rows, "One.");
}

#[test]
fn opening_line_of_a_block() {
    let text = lines(&["/** a", "b", "c */", "/* x", "y */", "/** p */ q */"]);
    assert_eq!(find_opening(&text, 2), Some(0));
    assert_eq!(find_opening(&text, 0), Some(0));
    assert_eq!(find_opening(&text, 1), Some(0));
    assert_eq!(find_opening(&text, 4), None);
    assert_eq!(find_opening(&text, 3), None);
    assert_eq!(find_opening(&text, 5), Some(5));
    let crossing = lines(&["/** a", "b */", "c", "d */"]);
    assert_eq!(find_opening(&crossing, 3), None);
}

#[test]
fn literal_after_the_definition_line() {
    let text = lines(&["def f():", "    \"\"\"One.\"\"\"", "    '''x", "    '''"]);
    assert_eq!(find_inline_doc_span(&text, 0), (1, 2));
    assert_eq!(find_inline_doc_span(&text, 1), (2, 4));
    assert_eq!(find_inline_doc_span(&text, 2), (3, 3));
    assert_eq!(find_inline_doc_span(&text, 3), (4, 4));
    let assigned = lines(&["def f():", "    x = '''", "    '''"]);
    assert_eq!(find_inline_doc_span(&assigned, 0), (1, 1));
    let five = lines(&["def f():", "    \"\"\"\"\""]);
    assert_eq!(find_inline_doc_span(&five, 0), (1, 1));
    let six = lines(&["def f():", "    \"\"\"\"\"\""]);
    assert_eq!(find_inline_doc_span(&six, 0), (1, 2));
}

#[test]
fn hash_comments_are_read_without_markers() {
    let text = lines(&["x = 1", "  # One. ", "", "  ##Two", "  #", "  def f():"]);
    assert_eq!(find_hash_doc_span(&text, 5), (1, 5));
    assert_eq!(s(read_hash_doc(&text, 5)).as_deref(), Some("One.\nTwo\n"));
    assert_eq!(read_hash_doc(&text, 1), None);
    assert_eq!(read_hash_doc(&text, 0), None);
    let code = lines(&["# One.", "@decorated", "def f():"]);
    assert_eq!(read_hash_doc(&code, 2), None);
    let trailing = lines(&["x = 1  # not above", "def f():"]);
    assert_eq!(read_hash_doc(&trailing, 1), None);
}

#[test]
fn headers_and_safe_literals() {
    let c = |s: &str| -> Vec<char> { s.chars().collect() };
    assert!(is_header_end(&c("def f():")));
    assert!(is_header_end(&c("  class A(B):  ")));
    assert!(!is_header_end(&c("def f(a,")));
    assert!(!is_header_end(&c("def f(): pass")));
    assert!(!is_header_end(&c("def f():  # note")));
    assert!(!is_header_end(&c("")));
    assert!(is_literal_safe(&c("Plain \"text\" with ''' and \"\".")));
    assert!(is_literal_safe(&c("")));
    assert!(!is_literal_safe(&c("a\\b")));
    assert!(!is_literal_safe(&c("a\"\"\"b")));
    assert!(!is_literal_safe(&c("a\"")));
    assert!(!is_literal_safe(&c("a\" \n")));
}
