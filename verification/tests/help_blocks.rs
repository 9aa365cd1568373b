use zhtw_mcp::help_blocks::{block_text, extract_cli_blocks, marker_name};
use zhtw_mcp::text::chars_of;

fn name_in(line: &str) -> Option<String> {
    marker_name(&chars_of(line)).map(|cs| cs.into_iter().collect())
}

fn text_of(name: &str, lines: &[&str]) -> Result<String, String> {
    let lines = lines.iter().map(|l| chars_of(l)).collect();
    block_text(&chars_of(name), &lines)
}

#[test]
fn extracts_blocks_in_document_order() {
    let md = "intro\n<!-- cli:a -->\nfirst\n<!-- cli:end -->\nprose\n\n<!-- cli:b -->\nsecond\nline\n<!-- cli:end -->\n";
    let blocks = extract_cli_blocks(md).unwrap();
    assert_eq!(
        blocks,
        vec![
            ("a".to_owned(), "first\n".to_owned()),
            ("b".to_owned(), "second\nline\n".to_owned()),
        ]
    );
}

#[test]
fn strips_the_code_fence_and_surrounding_blank_lines() {
    let md = "<!-- cli:a -->\n\n```text\nbody\n```\n\n<!-- cli:end -->\n";
    let blocks = extract_cli_blocks(md).unwrap();
    assert_eq!(blocks, vec![("a".to_owned(), "body\n".to_owned())]);
}

#[test]
fn malformed_blocks_are_errors() {
    for (md, expected) in [
        ("<!-- cli:a -->\nbody\n", "cli:a block never closed"),
        (
            "<!-- cli:a -->\n<!-- cli:b -->\n<!-- cli:end -->\n",
            "cli:a block not closed before cli:b",
        ),
        ("<!-- cli:end -->\n", "cli:end without an open block"),
        (
            "<!-- cli:a -->\nx\n<!-- cli:end -->\n<!-- cli:a -->\ny\n<!-- cli:end -->\n",
            "duplicate cli:a block",
        ),
        (
            "<!-- cli:a -->\n```text\nbody\n<!-- cli:end -->\n",
            "cli:a block's code fence never closes",
        ),
        (
            "<!-- cli:a -->\n\n<!-- cli:end -->\n",
            "cli:a block is empty",
        ),
    ] {
        assert_eq!(
            extract_cli_blocks(md).unwrap_err(),
            expected,
            "for input:\n{md}"
        );
    }
}

#[test]
fn a_document_without_markers_has_no_blocks() {
    assert_eq!(extract_cli_blocks("").unwrap(), vec![]);
    assert_eq!(extract_cli_blocks("# Title\n\nprose\n").unwrap(), vec![]);
}

#[test]
fn carriage_returns_at_line_ends_do_not_matter() {
    let md = "<!-- cli:a -->\r\none\r\ntwo\r\n<!-- cli:end -->\r\n";
    assert_eq!(
        extract_cli_blocks(md).unwrap(),
        vec![("a".to_owned(), "one\ntwo\n".to_owned())]
    );
}

#[test]
fn a_marker_may_be_indented_and_padded() {
    assert_eq!(name_in("  <!-- cli:lint -->  "), Some("lint".to_owned()));
    assert_eq!(name_in("<!-- cli:  lint-->"), Some("lint".to_owned()));
    assert_eq!(name_in("<!-- cli:-->"), Some(String::new()));
    assert_eq!(name_in("<!-- cli: "), None);
    assert_eq!(name_in("<!--cli:lint -->"), None);
    assert_eq!(name_in("prose <!-- cli:lint -->"), None);
}

#[test]
fn blank_lines_inside_the_fence_are_dropped_at_its_ends() {
    assert_eq!(
        text_of("a", &["```", "", "one", "", "two", "", "```"]),
        Ok("one\n\ntwo\n".to_owned())
    );
    assert_eq!(
        text_of("a", &["```", "", "```"]),
        Err("cli:a block is empty".to_owned())
    );
    assert_eq!(
        text_of("a", &["``` one ```"]),
        Err("cli:a block's code fence never closes".to_owned())
    );
}

#[test]
fn extracted_names_are_distinct_and_texts_are_trimmed() {
    let md = "<!-- cli:x -->\n\n  a  \n\n<!-- cli:end -->\n<!-- cli:y -->\nb\n<!-- cli:end -->";
    let blocks = extract_cli_blocks(md).unwrap();
    assert_ne!(blocks[0].0, blocks[1].0);
    for (_, text) in &blocks {
        assert_eq!(format!("{}\n", text.trim()), *text);
    }
}
