use docgen::lines::{append_lines, copy_lines, join_lines, split_lines};

fn c(s: &str) -> Vec<char> {
    s.chars().collect()
}

fn split(s: &str) -> Vec<String> {
    split_lines(&c(s)).into_iter().map(|l| l.into_iter().collect()).collect()
}

fn join(lines: &[&str]) -> String {
    join_lines(&lines.iter().map(|l| c(l)).collect()).into_iter().collect()
}

#[test]
fn splitting_follows_the_standard_rule_for_lines() {
    for text in ["", "a", "a\n", "a\nb", "a\n\nb\n", "\n", "\n\n", "a\r\nb\r\n", "a\r", "a\r\r\n", "\r\n", "a\rb\n", "  x  \n\ty"] {
        let expected: Vec<String> = text.lines().map(|l| l.to_string()).collect();
        assert_eq!(split(text), expected, "{:?}", text);
    }
    assert_eq!(split("a\r\nb"), vec!["a", "b"]);
    assert_eq!(split("a\n\n"), vec!["a", ""]);
    assert_eq!(split("a\r"), vec!["a\r"]);
}

#[test]
fn joining_puts_line_feeds_between() {
    assert_eq!(join(&[]), "");
    assert_eq!(join(&["a"]), "a");
    assert_eq!(join(&["a", "b", "", "c"]), "a\nb\n\nc");
    assert_eq!(join(&["", ""]), "\n");
}

#[test]
fn copying_and_appending() {
    let lines: Vec<Vec<char>> = vec![c("a"), c("b"), c("c"), c("d")];
    assert_eq!(copy_lines(&lines, 1, 3), vec![c("b"), c("c")]);
    assert_eq!(copy_lines(&lines, 2, 2), Vec::<Vec<char>>::new());
    let mut first = vec![c("x")];
    append_lines(&mut first, vec![c("y"), c("z")]);
    assert_eq!(first, vec![c("x"), c("y"), c("z")]);
}
