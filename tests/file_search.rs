use o11n::file_search::{file_name_matches, matches_folded};

#[test]
fn file_names_match_ignoring_case() {
    assert!(file_name_matches("README.md", "readme"));
    assert!(file_name_matches("main.rs", "MAIN"));
    assert!(!file_name_matches("lib.rs", "main"));
    assert!(file_name_matches("anything", ""));
}

#[test]
fn folded_names_match_by_substring() {
    assert!(matches_folded("readme.md", "me.m"));
    assert!(!matches_folded("readme.md", "README"));
}
