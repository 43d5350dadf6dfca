use rads_lsp::text::{chars_to_string, split_lines, usize_to_string};

#[test]
fn split_lines_handles_endings() {
    let lines = split_lines("a\nbc\r\n\nd");
    let as_strings: Vec<String> =
        lines.iter().map(|l| chars_to_string(l.as_slice())).collect();
    assert_eq!(as_strings, vec!["a", "bc", "", "d"]);
    // A final line break produces no empty last line.
    assert_eq!(split_lines("a\n").len(), 1);
    assert_eq!(split_lines("").len(), 0);
}

#[test]
fn numbers_render_in_decimal() {
    assert_eq!(usize_to_string(0), "0");
    assert_eq!(usize_to_string(7), "7");
    assert_eq!(usize_to_string(101), "101");
    assert_eq!(usize_to_string(120406), "120406");
}
