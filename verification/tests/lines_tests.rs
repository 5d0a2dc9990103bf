use codescope::lines::count_lines;

#[test]
fn metrics_test_test_count_lines_basic() {
    let source = r#"
// This is a comment
fn hello() {
    println!("world");
}
"#;
    let stats = count_lines(source);
    assert_eq!(stats.code, 3);
    assert_eq!(stats.comment, 1);
    assert_eq!(stats.blank, 1);
}

#[test]
fn metrics_test_test_count_lines_block_comment() {
    let source = r#"
/*
 * Multi-line
 * comment
 */
fn test() {}
"#;
    let stats = count_lines(source);
    assert_eq!(stats.comment, 4);
    assert!(stats.code > 0);
}

#[test]
fn test_count_lines_empty_source() {
    let stats = count_lines("");
    assert_eq!(stats.code, 0);
    assert_eq!(stats.comment, 0);
    assert_eq!(stats.blank, 0);
}

#[test]
fn test_count_lines_single_line_block_comment() {
    let stats = count_lines("/* opened and closed */\nlet x = 1;");
    assert_eq!(stats.comment, 1);
    assert_eq!(stats.code, 1);
    assert_eq!(stats.blank, 0);
}

#[test]
fn test_count_lines_totals_cover_every_line() {
    let source = "a\n\n// c\n/*\n*/\nb";
    let stats = count_lines(source);
    let physical_lines = source.lines().count() as u32;
    assert_eq!(stats.code + stats.comment + stats.blank, physical_lines);
    assert_eq!(stats.code, 2);
    assert_eq!(stats.comment, 3);
    assert_eq!(stats.blank, 1);
}

#[test]
fn test_count_lines_no_trailing_newline() {
    let stats = count_lines("let a = 1;");
    assert_eq!(stats.code, 1);
    assert_eq!(stats.comment + stats.blank, 0);
}

#[test]
fn test_loc_stats_total() {
    let stats = count_lines("a\nb\n\n// c\n");
    assert_eq!(stats.total(), Some(4));
}

#[test]
fn test_count_lines_unicode_whitespace_is_blank() {
    // No-break space and ideographic space trim away, as str::trim does.
    let stats = count_lines("\u{00A0}\u{3000}\nlet x = 1;");
    assert_eq!(stats.blank, 1);
    assert_eq!(stats.code, 1);
    assert_eq!(stats.comment, 0);
}
