use hirsel::read_window::{
    clip_diff, compact_diff, node_window, parse_limit, parse_offset, resolve_workspace_path, text_lines,
    workspace_text, LimitArg,
};

#[test]
fn window_lines_follow_line_endings() {
    assert_eq!(text_lines("a\r\nb\n\nc\r"), vec!["a", "b", "", "c\r"]);
    assert!(text_lines("").is_empty());
    assert_eq!(text_lines("x\n"), vec!["x"]);
    assert_eq!(text_lines("\n"), vec![""]);
}

#[test]
fn window_of_a_node() {
    let w = node_window("l1\nl2\nl3\nl4", 2, Some(2));
    assert_eq!((w.shown_lines, w.total_lines, w.truncated, w.next_offset), (2, 4, true, Some(4)));
    assert_eq!(w.content, "l2\nl3");
    let all = node_window("l1\nl2\nl3\nl4", 1, None);
    assert_eq!((all.shown_lines, all.truncated, all.next_offset), (4, false, None));
    let past = node_window("l1\nl2\nl3\nl4", 10, Some(5));
    assert_eq!((past.shown_lines, past.truncated, past.content.as_str()), (0, false, ""));
    let long = "a".repeat(2500);
    let cut = node_window(&long, 1, None);
    assert_eq!(cut.content, format!("{}...", "a".repeat(2000)));
}

#[test]
fn window_of_a_workspace_file() {
    assert_eq!(workspace_text("a\nb\nc", 2, Some(1)), (3, "b".to_string()));
    assert_eq!(workspace_text("a\nb\nc", 0, Some(2)), (3, "a\nb".to_string()));
    assert_eq!(workspace_text("a\nb\nc", 9, Some(2)), (3, String::new()));
    assert_eq!(workspace_text("a\r\nb", 1, None), (2, "a\r\nb".to_string()));
    let long = "é".repeat(1500);
    let (_, text) = workspace_text(&long, 1, Some(5));
    assert_eq!(text, format!("{}\u{2026}", "é".repeat(1000)));
}

#[test]
fn window_arguments() {
    assert_eq!(parse_offset(None), 1);
    assert_eq!(parse_offset(Some(0)), 1);
    assert_eq!(parse_offset(Some(5)), 5);
    assert_eq!(parse_limit(&LimitArg::Absent), Ok(Some(2000)));
    assert_eq!(parse_limit(&LimitArg::Null), Ok(None));
    assert_eq!(parse_limit(&LimitArg::Text("NoNe".to_string())), Ok(None));
    assert_eq!(
        parse_limit(&LimitArg::Text("ten".to_string())),
        Err("Invalid limit: expected int, null, or \"none\"".to_string())
    );
    assert_eq!(
        parse_limit(&LimitArg::Number(0)),
        Err("Invalid limit: must be >= 1, or use null/\"none\" for no cap".to_string())
    );
    assert_eq!(parse_limit(&LimitArg::Number(7)), Ok(Some(7)));
    assert!(parse_limit(&LimitArg::Other).is_err());
}

#[test]
fn window_workspace_paths() {
    assert_eq!(resolve_workspace_path(None, Some("a")), Err("This scope has no attached workspace".to_string()));
    assert_eq!(resolve_workspace_path(Some("/ws"), None), Ok("/ws".to_string()));
    assert_eq!(resolve_workspace_path(Some("/ws"), Some("   ")), Ok("/ws".to_string()));
    assert_eq!(resolve_workspace_path(Some("/ws"), Some(" src/a.rs ")), Ok("/ws/src/a.rs".to_string()));
    assert_eq!(resolve_workspace_path(Some("/ws"), Some("a..b")), Ok("/ws/a..b".to_string()));
    assert!(resolve_workspace_path(Some("/ws"), Some("/etc")).unwrap_err().contains("relative"));
    assert!(resolve_workspace_path(Some("/ws"), Some("a/../b")).unwrap_err().contains("escape"));
    assert!(resolve_workspace_path(Some("/ws"), Some("..")).unwrap_err().contains("escape"));
}

#[test]
fn window_diffs_are_clipped() {
    assert_eq!(clip_diff("", 5), "");
    assert_eq!(clip_diff("x\ny\n", 5), "x\ny\n");
    assert_eq!(clip_diff("l1\nl2\nl3\nl4\nl5", 2), "l1\nl2\n... (3 more lines)");
    let full = compact_diff("a\nb\n", "a\nc\n", "f", 50);
    assert_eq!(full, "--- a/f\n+++ b/f\n@@ -1,2 +1,2 @@\n a\n-b\n+c\n");
    let cut = compact_diff("a\nb\n", "a\nc\n", "f", 3);
    assert_eq!(cut, "--- a/f\n+++ b/f\n@@ -1,2 +1,2 @@\n... (3 more lines)");
}
