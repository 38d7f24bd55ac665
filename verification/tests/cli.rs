use lucid::cli::{check_multiline_continuation, extract_rst_code_blocks};

#[test]
fn test_line_ending_in_colon_continues() {
    assert!(check_multiline_continuation("def f():\n", "def f():\n", false));
    assert!(check_multiline_continuation("if x:   \n", "if x:   \n", false));
}

#[test]
fn test_trailing_backslash_continues() {
    assert!(check_multiline_continuation("x = 1 + \\\n", "x = 1 + \\\n", false));
}

#[test]
fn test_open_brackets_and_quotes_continue() {
    assert!(check_multiline_continuation("x = (1,\n", "x = (1,\n", false));
    assert!(check_multiline_continuation("x = [1,\n", "x = [1,\n", false));
    assert!(check_multiline_continuation("x = {\n", "x = {\n", false));
    assert!(check_multiline_continuation("s = 'abc\n", "s = 'abc\n", false));
    assert!(check_multiline_continuation("s = \"abc\n", "s = \"abc\n", false));
}

#[test]
fn test_complete_lines_do_not_continue() {
    assert!(!check_multiline_continuation("x = 1\n", "x = 1\n", false));
    assert!(!check_multiline_continuation("x = (1, 2)\n", "x = (1, 2)\n", false));
    assert!(!check_multiline_continuation("x = 1 # (\n", "x = 1 # (\n", false));
    assert!(!check_multiline_continuation("s = '(' \n", "s = '(' \n", false));
    assert!(!check_multiline_continuation("s = \"a\\\"(\"\n", "s = \"a\\\"(\"\n", false));
    assert!(!check_multiline_continuation("x = ())\n", "x = ())\n", false));
}

#[test]
fn test_blank_line_ends_a_continuation() {
    let buffer = "def f():\n    return 1\n\n";
    assert!(!check_multiline_continuation(buffer, "\n", true));
    assert!(!check_multiline_continuation("x = (\n\n", "   \n", true));
}

#[test]
fn test_indented_continuation_line_continues() {
    let buffer = "def f():\n    return 1\n";
    assert!(check_multiline_continuation(buffer, "    return 1\n", true));
    assert!(check_multiline_continuation(buffer, "\treturn 1\n", true));
    assert!(!check_multiline_continuation(buffer, "return 1\n", true));
}

#[test]
fn test_extract_rst_code_blocks() {
    let rst = "Intro::\n\n    x = 1\n    y = 2\n\nText\n.. code-block:: python\n\n    def f():\n        return 1\n";
    let blocks = extract_rst_code_blocks(rst);
    assert_eq!(blocks, vec!["x = 1\ny = 2\n".to_string(), "def f():\n    return 1".to_string()]);
}

#[test]
fn test_extract_rst_code_blocks_lucid_directive_and_crlf() {
    let rst = ".. code-block:: lucid\r\n\r\n  let a = 1\r\n  let b = 2\r\nafter\r\n";
    let blocks = extract_rst_code_blocks(rst);
    assert_eq!(blocks, vec!["let a = 1\nlet b = 2".to_string()]);
}

#[test]
fn test_extract_rst_skips_directives_and_unindented_text() {
    let rst = ".. note::\n\n    not code\n\nExample::\n\nnot indented\n::\n";
    let blocks = extract_rst_code_blocks(rst);
    assert!(blocks.is_empty(), "{blocks:?}");
}

#[test]
fn test_extract_rst_without_markers_is_empty() {
    assert!(extract_rst_code_blocks("Just prose.\n\n    indented prose\n").is_empty());
    assert!(extract_rst_code_blocks("").is_empty());
}

#[test]
fn test_rst_blocks_lose_their_first_line_indentation() {
    let rst = "Title\n\n.. code-block:: lucid\n\n      x = 1\n        y = 2\n\nText\n\n.. code-block:: lucid\n\n   z = 3\n";
    let blocks = extract_rst_code_blocks(rst);
    assert_eq!(blocks.len(), 2);
    for b in &blocks {
        assert!(!b.is_empty() && !b.starts_with(' '));
    }
    assert_eq!(blocks[0], "x = 1\n  y = 2\n");
}
