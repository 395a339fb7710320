use o11n::apply_file_change::{apply_change_to_content, ApplyError};
use o11n::matcher::locate;

#[test]
fn exact_match_wins_over_looser_tiers() {
    // The whitespace-tolerant tier would match at 0; the verbatim copy is later.
    let hay = "foo   bar\nfoo bar\n";
    assert_eq!(locate(hay, "foo bar"), Some((10, 17)));
    assert_eq!(apply_change_to_content(hay, "foo bar", "X").unwrap(), "foo   bar\nX\n");
}

#[test]
fn whitespace_differences_are_tolerated() {
    let hay = "fn main() {\n    let  x =\n        1;\n}\n";
    let needle = "let x = 1;";
    assert_eq!(locate(hay, needle), Some((11, 36)));
    assert_eq!(
        apply_change_to_content(hay, needle, "let y = 2;").unwrap(),
        "fn main() {let y = 2;}\n"
    );
}

#[test]
fn indentation_differences_are_tolerated() {
    let hay = "if a {\n        call(1);\n        call(2);\n}\n";
    let needle = "call(1);\ncall(2);";
    let out = apply_change_to_content(hay, needle, "  done();").unwrap();
    assert!(out.starts_with("if a {"));
    assert!(out.contains("done();"));
    assert!(!out.contains("call("));
}

#[test]
fn regex_metacharacters_are_literal() {
    let hay = "x = a.b(c) + [d]*2;\n";
    assert_eq!(locate(hay, "a.b(c)  +  [d]*2"), Some((3, 18)));
    assert_eq!(locate("axb(c)", "a.b(c) +"), None);
}

#[test]
fn line_endings_are_normalized() {
    let hay = "one\r\ntwo\r\nthree\r\n";
    assert_eq!(apply_change_to_content(hay, "two\r\nthree", "2\n3").unwrap(), "one\r\n2\n3\r\n");
    // A needle with LF endings still finds CRLF text; only its span changes.
    assert_eq!(locate("x\r\ny\r\nz", "x\ny"), Some((0, 4)));
    assert_eq!(apply_change_to_content("x\r\ny\r\nz", "x\ny", "Q").unwrap(), "Q\r\nz");
}

#[test]
fn replacement_keeps_other_line_endings() {
    assert_eq!(apply_change_to_content("a\r\nb", "b", "X").unwrap(), "a\r\nX");
    assert_eq!(apply_change_to_content("a\r\nb\r\n", "a\nb", "X").unwrap(), "X\r\n");
}

#[test]
fn missing_search_text_is_reported() {
    let r = apply_change_to_content("abc", "xyz", "q");
    assert_eq!(r, Err(ApplyError::NotFound { needle: "xyz".to_string() }));
}

#[test]
fn empty_needle_matches_at_start() {
    assert_eq!(locate("abc", ""), Some((0, 0)));
    assert_eq!(apply_change_to_content("abc", "", "X").unwrap(), "Xabc");
}
