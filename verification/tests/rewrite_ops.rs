use docgen::docstring::UpdatedDocstring;
use docgen::error::DocGenError;
use docgen::parser::{CodeItem, ItemType};
use docgen::rewrite::{apply, document, find_doc_span, make_doc_rows, resolve, rewrite, DocConvention, Edit};

fn c(s: &str) -> Vec<char> {
    s.chars().collect()
}

fn lines(text: &[&str]) -> Vec<Vec<char>> {
    text.iter().map(|l| c(l)).collect()
}

fn strings(lines: Vec<Vec<char>>) -> Vec<String> {
    lines.into_iter().map(|l| l.into_iter().collect()).collect()
}

fn item_on(line: usize) -> CodeItem {
    CodeItem {
        item_type: ItemType::Function,
        name: format!("f{}", line),
        line_number: line,
        end_line: line,
        code: String::new(),
        existing_docstring: None,
        parent: None,
        parameters: vec![],
        returns: None,
        indentation: String::new(),
    }
}

fn update(index: usize, text: &str, indentation: &str) -> UpdatedDocstring {
    UpdatedDocstring {
        item_index: index,
        new_docstring: text.to_string(),
        indentation: indentation.to_string(),
    }
}

#[test]
fn documentation_lines_by_convention() {
    assert_eq!(
        strings(make_doc_rows(DocConvention::LineComments, &c("  "), &c("  First. \n\n\tSecond"))),
        vec!["  /// First.", "  ///", "  /// Second"]
    );
    assert_eq!(
        strings(make_doc_rows(DocConvention::BlockComment, &c("  "), &c("First.\n\n Second "))),
        vec!["  /**", "   * First.", "   *", "   * Second", "   */"]
    );
    assert_eq!(
        strings(make_doc_rows(DocConvention::InlineLiteral, &c("  "), &c("First.\n\n  Second"))),
        vec!["      \"\"\"First.", "      ", "        Second\"\"\""]
    );
    assert_eq!(strings(make_doc_rows(DocConvention::LineComments, &c(""), &c(""))), Vec::<String>::new());
    assert_eq!(strings(make_doc_rows(DocConvention::BlockComment, &c(""), &c(""))), vec!["/**", " */"]);
    assert_eq!(
        strings(make_doc_rows(DocConvention::InlineLiteral, &c("\t"), &c(""))),
        vec!["\t    \"\"\"\"\"\""]
    );
    assert_eq!(
        strings(make_doc_rows(DocConvention::InlineLiteral, &c(""), &c("One."))),
        vec!["    \"\"\"One.\"\"\""]
    );
}

#[test]
fn spans_of_existing_documentation() {
    let rust = lines(&["use x;", "", "/// a", "", "/// b", "", "fn f() {}"]);
    assert_eq!(find_doc_span(DocConvention::LineComments, &rust, 6), (2, 5));
    assert_eq!(find_doc_span(DocConvention::LineComments, &rust, 0), (0, 0));
    assert_eq!(find_doc_span(DocConvention::LineComments, &rust, 2), (2, 2));
    let plain = lines(&["/// a", "#[inline]", "fn f() {}"]);
    assert_eq!(find_doc_span(DocConvention::LineComments, &plain, 2), (2, 2));
    let js = lines(&["/**", " * a", " */", "", "// note", "function f() {}"]);
    assert_eq!(find_doc_span(DocConvention::BlockComment, &js, 5), (0, 3));
    let single = lines(&["x();", "/** a */", "function f() {}"]);
    assert_eq!(find_doc_span(DocConvention::BlockComment, &single, 2), (1, 2));
    let other = lines(&["/*", " * a", " */", "function f() {}"]);
    assert_eq!(find_doc_span(DocConvention::BlockComment, &other, 3), (3, 3));
    let unopened = lines(&["x(); /** a */", "y();", " */", "function f() {}"]);
    assert_eq!(find_doc_span(DocConvention::BlockComment, &unopened, 3), (3, 3));
    let py = lines(&["def f():", "    \"\"\"One.", "    Two.", "    \"\"\"", "    pass"]);
    assert_eq!(find_doc_span(DocConvention::InlineLiteral, &py, 0), (1, 4));
    let one = lines(&["def f():", "    '''One.'''", "    pass"]);
    assert_eq!(find_doc_span(DocConvention::InlineLiteral, &one, 0), (1, 2));
    let bare = lines(&["def f():", "    \"\"\"", "    \"\"\"", "    pass"]);
    assert_eq!(find_doc_span(DocConvention::InlineLiteral, &bare, 0), (1, 3));
    let open = lines(&["def f():", "    \"\"\"One.", "    pass"]);
    assert_eq!(find_doc_span(DocConvention::InlineLiteral, &open, 0), (1, 1));
    let mixed = lines(&["def f():", "    \"\"\"One.", "    '''", "    \"\"\""]);
    assert_eq!(find_doc_span(DocConvention::InlineLiteral, &mixed, 0), (1, 4));
    assert_eq!(find_doc_span(DocConvention::InlineLiteral, &open, 2), (3, 3));
}

#[test]
fn one_edit_leaves_other_lines_alone() {
    let before = lines(&["use x;", "", "  /// old", "", "  fn f() {}", "fn g() {}"]);
    let after = document(DocConvention::LineComments, &before, 4, &c("  "), &c("new\ntext"));
    assert_eq!(
        strings(after),
        vec!["use x;", "", "  /// new", "  /// text", "", "  fn f() {}", "fn g() {}"]
    );
    let after = document(DocConvention::LineComments, &before, 5, &c(""), &c("g"));
    assert_eq!(
        strings(after),
        vec!["use x;", "", "  /// old", "", "  fn f() {}", "/// g", "fn g() {}"]
    );
    let after = document(DocConvention::BlockComment, &before, 0, &c(""), &c("top"));
    assert_eq!(
        strings(after),
        vec!["/**", " * top", " */", "use x;", "", "  /// old", "", "  fn f() {}", "fn g() {}"]
    );
}

#[test]
fn edits_are_ordered_by_descending_line_and_stay_in_order_on_one_line() {
    let items = vec![item_on(5), item_on(20), item_on(5), item_on(9)];
    let updates =
        vec![update(0, "a", ""), update(1, "b", ""), update(2, "c", ""), update(3, "d", "")];
    let edits = resolve(&items, &updates).unwrap();
    let seen: Vec<(usize, String)> =
        edits.iter().map(|e| (e.line, e.text.iter().collect())).collect();
    assert_eq!(
        seen,
        vec![(20, "b".to_string()), (9, "d".to_string()), (5, "a".to_string()), (5, "c".to_string())]
    );
    assert!(resolve(&items, &[update(4, "x", "")]).is_none());
    assert!(resolve(&items, &[]).unwrap().is_empty());
}

fn twenty_lines() -> String {
    (1..=22).map(|i| format!("fn f{}() {{}}\n", i)).collect()
}

#[test]
fn two_updates_give_the_same_text_in_either_order() {
    let content = twenty_lines();
    let items = vec![item_on(5), item_on(20)];
    let a = update(0, "five", "");
    let b = update(1, "twenty", "");
    let one = rewrite(DocConvention::LineComments, &content, &items, &[a.clone(), b.clone()]).unwrap();
    let two = rewrite(DocConvention::LineComments, &content, &items, &[b, a]).unwrap();
    assert_eq!(one, two);
    let got: Vec<&str> = one.lines().collect();
    assert_eq!(got.len(), 24);
    assert_eq!(got[4], "/// five");
    assert_eq!(got[5], "fn f5() {}");
    assert_eq!(got[20], "/// twenty");
    assert_eq!(got[21], "fn f20() {}");
    let original: Vec<&str> = content.lines().collect();
    let kept: Vec<&str> = got.iter().copied().filter(|l| !l.starts_with("///")).collect();
    assert_eq!(kept, original);
    assert!(one.ends_with("fn f22() {}\n"));
}

#[test]
fn rewriting_fails_for_unknown_items_and_lines() {
    let content = "fn a() {}\nfn b() {}\n";
    let items = vec![item_on(1), item_on(3), item_on(0)];
    let r = rewrite(DocConvention::LineComments, content, &items, &[update(3, "x", "")]);
    assert!(matches!(r, Err(DocGenError::UpdateError(_))));
    let r = rewrite(DocConvention::LineComments, content, &items, &[update(0, "x", ""), update(7, "y", "")]);
    assert!(matches!(r, Err(DocGenError::UpdateError(_))));
    let r = rewrite(DocConvention::LineComments, content, &items, &[update(1, "x", "")]);
    assert!(matches!(r, Err(DocGenError::UpdateError(_))));
    let r = rewrite(DocConvention::LineComments, content, &items, &[update(2, "x", "")]);
    assert!(matches!(r, Err(DocGenError::UpdateError(_))));
    let r = rewrite(DocConvention::LineComments, content, &items, &[update(0, "x", "")]);
    assert_eq!(r.unwrap(), "/// x\nfn a() {}\nfn b() {}\n");
    let r = rewrite(DocConvention::LineComments, "", &items, &[update(0, "x", "")]);
    assert!(matches!(r, Err(DocGenError::UpdateError(_))));
}

#[test]
fn rewriting_without_updates_gives_the_text_back() {
    let content = "fn a() {}\r\n\r\n";
    assert_eq!(rewrite(DocConvention::LineComments, content, &[].to_vec(), &[]).unwrap(), content);
    assert_eq!(rewrite(DocConvention::BlockComment, "", &vec![item_on(9)], &[]).unwrap(), "");
}

#[test]
fn rewriting_keeps_the_final_line_feed_or_its_absence() {
    let items = vec![item_on(1)];
    let r = rewrite(DocConvention::LineComments, "fn a() {}", &items, &[update(0, "x", "")]);
    assert_eq!(r.unwrap(), "/// x\nfn a() {}");
    let r = rewrite(DocConvention::LineComments, "fn a() {}\n", &items, &[update(0, "x", "")]);
    assert_eq!(r.unwrap(), "/// x\nfn a() {}\n");
    let r = rewrite(DocConvention::InlineLiteral, "def a():\r\n    pass\r\n", &items, &[update(0, "x", "")]);
    assert_eq!(r.unwrap(), "def a():\n    \"\"\"x\"\"\"\n    pass\n");
}

#[test]
fn later_update_for_the_same_line_replaces_the_earlier() {
    let items = vec![item_on(1)];
    let r = rewrite(
        DocConvention::LineComments,
        "fn a() {}\n",
        &items,
        &[update(0, "first", ""), update(0, "second", "")],
    );
    // The first edit moves the definition down; the second is applied to line 1 as it is then.
    assert_eq!(r.unwrap(), "/// second\n/// first\nfn a() {}\n");
}

#[test]
fn edits_are_applied_in_the_order_given() {
    let e = |line: usize, text: &str| Edit { line, indentation: vec![], text: c(text) };
    let start = lines(&["a", "b"]);
    let out = apply(DocConvention::LineComments, start.clone(), &vec![e(2, "x"), e(1, "y")]).unwrap();
    assert_eq!(strings(out), vec!["/// y", "a", "/// x", "b"]);
    assert!(apply(DocConvention::LineComments, start.clone(), &vec![e(3, "x")]).is_none());
    assert!(apply(DocConvention::LineComments, start.clone(), &vec![e(0, "x")]).is_none());
    assert_eq!(strings(apply(DocConvention::LineComments, start, &vec![]).unwrap()), vec!["a", "b"]);
}
