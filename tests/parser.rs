use o11n::change_types::{Action, Change, FileChange};
use o11n::parse_change_protocol::parse_change_protocol;
use o11n::protocol::ParseError;

fn change(description: &str, search: Option<&str>, content: &str) -> Change {
    Change {
        description: description.to_string(),
        search: search.map(|s| s.to_string()),
        content: content.to_string(),
    }
}

#[test]
fn heading_dialect_single_modify() {
    let text = "### File src/main.rs\n### Action modify\n#### Change\n**Description**: rename\n**Search**:\n```\nlet a = 1;\n```\n**Content**:\n```\nlet b = 1;\n```\n";
    let parsed = parse_change_protocol(text).unwrap();
    assert_eq!(
        parsed,
        vec![FileChange {
            path: "src/main.rs".to_string(),
            action: Action::Modify,
            changes: vec![change("rename", Some("let a = 1;"), "let b = 1;")],
        }]
    );
}

#[test]
fn tag_dialect_single_modify() {
    let text = "<file path=\"src/main.rs\" action=\"modify\">\n<change>\n<description>rename</description>\n<search>\nlet a = 1;\n</search>\n<content>\nlet b = 1;\n</content>\n</change>\n</file>\n";
    let parsed = parse_change_protocol(text).unwrap();
    assert_eq!(
        parsed,
        vec![FileChange {
            path: "src/main.rs".to_string(),
            action: Action::Modify,
            changes: vec![change("rename", Some("let a = 1;"), "let b = 1;")],
        }]
    );
}

#[test]
fn dialects_agree_on_one_modify() {
    let heading = "### File lib/x.py\n### Action modify\n#### Change\n**Description**: fix the loop\n**Search**:\n```\nfor i in range(3):\n    print(i)\n```\n**Content**:\n```\nfor i in range(4):\n    print(i)\n```\n";
    let tags = "<file action=\"modify\" path=\"lib/x.py\">\n  <change>\n    <description>fix the loop</description>\n    <search>\nfor i in range(3):\n    print(i)\n</search>\n    <content>\nfor i in range(4):\n    print(i)\n</content>\n  </change>\n</file>";
    let a = parse_change_protocol(heading).unwrap();
    let b = parse_change_protocol(tags).unwrap();
    assert_eq!(a, b);
    assert_eq!(a.len(), 1);
    assert_eq!(a[0].changes[0].search.as_deref(), Some("for i in range(3):\n    print(i)"));
}

#[test]
fn elision_lines_removed_in_heading_dialect() {
    let text = "### File a.txt\n### Action modify\n#### Change\n**Search**:\n```\none\n===\ntwo\n```\n**Content**:\n```\nONE\n  ===  \nTWO\n```\n";
    let parsed = parse_change_protocol(text).unwrap();
    assert_eq!(parsed[0].changes[0].search.as_deref(), Some("one\ntwo"));
    assert_eq!(parsed[0].changes[0].content, "ONE\nTWO");
}

#[test]
fn elision_lines_removed_in_tag_dialect() {
    let text = "<file path=\"a.txt\" action=\"modify\"><change><search>\n===\none\n===\n</search><content>\nONE\n===\n</content></change></file>";
    let parsed = parse_change_protocol(text).unwrap();
    assert_eq!(parsed[0].changes[0].search.as_deref(), Some("one"));
    assert_eq!(parsed[0].changes[0].content, "ONE");
}

#[test]
fn unknown_wrapper_subtree_is_skipped() {
    let text = "<plan>\n  <file path=\"ignored.txt\" action=\"delete\"></file>\n  <note>think <b>hard</b></note>\n</plan>\n<file path=\"kept.txt\" action=\"delete\"></file>";
    let parsed = parse_change_protocol(text).unwrap();
    assert_eq!(
        parsed,
        vec![FileChange { path: "kept.txt".to_string(), action: Action::Delete, changes: vec![] }]
    );
}

#[test]
fn unknown_action_rejects_document() {
    let text = "### File a.txt\n### Action create\n### File b.txt\n### Action rename\n";
    assert_eq!(
        parse_change_protocol(text),
        Err(ParseError::UnknownAction { token: "rename".to_string() })
    );
    let tags = "<file path=\"a\" action=\"move\"></file>";
    assert_eq!(
        parse_change_protocol(tags),
        Err(ParseError::UnknownAction { token: "move".to_string() })
    );
}

#[test]
fn missing_action_and_path_are_errors() {
    let text = "### File a.txt\n#### Change\n**Description**: x\n";
    assert_eq!(
        parse_change_protocol(text),
        Err(ParseError::MissingAction { path: "a.txt".to_string() })
    );
    assert_eq!(parse_change_protocol("<file action=\"create\"></file>"), Err(ParseError::MissingPath));
    assert_eq!(
        parse_change_protocol("<file path=\"p\"></file>"),
        Err(ParseError::MissingAction { path: "p".to_string() })
    );
}

#[test]
fn malformed_tags_are_errors() {
    assert_eq!(parse_change_protocol("<file path=\"p\" action=\"create\""), Err(ParseError::UnterminatedTag));
    assert_eq!(
        parse_change_protocol("<file path=\"p\" action=\"create\"><change><content>abc"),
        Err(ParseError::UnclosedElement)
    );
    assert_eq!(
        parse_change_protocol("<file path=\"p\" action=\"create\"><change>"),
        Err(ParseError::UnclosedElement)
    );
}

#[test]
fn heading_blocks_flush_on_new_headings() {
    let text = "<pre>\n### File one.txt\n### Action rewrite\n#### Change\n**Content**:\n```\nfirst\n```\n#### Change\n**Content**:\n```\nsecond\n```\n---\n### File two.txt\n### Action create\n#### Change\n**Description**: new\nfile\n**Content**:\n```\n\nbody\n\n```\n</pre>\n";
    let parsed = parse_change_protocol(text).unwrap();
    assert_eq!(parsed.len(), 2);
    assert_eq!(parsed[0].path, "one.txt");
    assert_eq!(parsed[0].action, Action::Rewrite);
    assert_eq!(
        parsed[0].changes,
        vec![change("", None, "first"), change("", None, "second")]
    );
    assert_eq!(parsed[1].path, "two.txt");
    assert_eq!(parsed[1].action, Action::Create);
    assert_eq!(parsed[1].changes, vec![change("new\nfile", None, "body")]);
}

#[test]
fn empty_input_has_no_instructions() {
    assert_eq!(parse_change_protocol(""), Ok(vec![]));
    assert_eq!(parse_change_protocol("just some prose"), Ok(vec![]));
}

#[test]
fn crlf_tag_document_parses_like_lf() {
    let crlf = "<file path=\"a.txt\" action=\"modify\">\r\n<change>\r\n<search>\r\nold line\r\n</search>\r\n<content>\r\nnew line\r\n</content>\r\n</change>\r\n</file>\r\n";
    let lf = crlf.replace("\r\n", "\n");
    let a = parse_change_protocol(crlf).unwrap();
    assert_eq!(a, parse_change_protocol(&lf).unwrap());
    assert_eq!(a[0].changes[0].search.as_deref(), Some("old line"));
}

#[test]
fn rule_lines_before_the_first_heading_are_ignored() {
    let plain = "\n### File a.txt\n### Action delete\n";
    let ruled = "\n---\n### File a.txt\n### Action delete\n";
    let expected = vec![FileChange { path: "a.txt".to_string(), action: Action::Delete, changes: vec![] }];
    assert_eq!(parse_change_protocol(plain).unwrap(), expected);
    assert_eq!(parse_change_protocol(ruled).unwrap(), expected);
    assert_eq!(parse_change_protocol(&format!("<pre>{}</pre>", ruled)).unwrap(), expected);
}
