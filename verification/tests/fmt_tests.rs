use agentrec::fmt::{
    cursor_error_text, format_turn, glossary_for, paint, relative_time, render_log,
    sanitize_terminal, short_id, should_color, turn_detail_header, turn_list_line, CursorError,
    FileEntry, TurnRecord,
};

#[test]
fn sanitize_terminal_strips_c1_controls_keeps_text() {
    let evil = "hello \u{9b}31m \u{9d}evil\u{9c} world";
    let clean = sanitize_terminal(evil);
    assert!(!clean.contains('\u{9b}'));
    assert!(!clean.contains('\u{9d}'));
    assert!(!clean.contains('\u{9c}'));
    assert_eq!(clean, "hello 31m evil world");
}

#[test]
fn relative_time_golden_buckets() {
    // 2033-05-18T03:33:20.000Z is 2_000_000_000_000 ms after the epoch.
    let now: u64 = 2_000_000_000_000;
    assert_eq!(relative_time("2033-05-18T03:33:10.000Z", now), "just now");
    assert_eq!(relative_time("2033-05-18T03:30:20.000Z", now), "3m ago");
    assert_eq!(relative_time("2033-05-18T01:33:20.000Z", now), "2h ago");
    assert_eq!(relative_time("2033-05-17T01:33:20.000Z", now), "yesterday");
    assert_eq!(relative_time("2033-05-15T03:33:20.000Z", now), "3d ago");
    assert_eq!(relative_time("2033-05-08T03:33:20.000Z", now), "2033-05-08");
}

#[test]
fn relative_time_falls_back_on_garbage() {
    assert_eq!(relative_time("not-a-date", 12345), "not-a-date");
}

#[test]
fn relative_time_future_timestamp_is_just_now() {
    assert_eq!(relative_time("2033-05-18T03:33:20.500Z", 2_000_000_000_000), "just now");
}

#[test]
fn relative_time_pads_short_fractions() {
    // ".5" is 500 ms: exactly one minute and a half earlier is "1m ago".
    assert_eq!(relative_time("2033-05-18T03:31:50.5Z", 2_000_000_000_000), "1m ago");
}

#[test]
fn should_color_truth_table() {
    assert!(should_color(true, false));
    assert!(!should_color(true, true));
    assert!(!should_color(false, false));
    assert!(!should_color(false, true));
}

#[test]
fn paint_no_escape_when_disabled() {
    assert_eq!(paint("t_ABCD", "36", false), "t_ABCD");
    assert!(!paint("t_ABCD", "36", false).contains('\x1b'));
}

#[test]
fn paint_wraps_when_enabled() {
    let out = paint("t_ABCD", "36", true);
    assert!(out.contains('\x1b'));
    assert!(out.contains("t_ABCD"));
}

#[test]
fn paint_exact_escape_sequence() {
    assert_eq!(paint("x", "36", true), "\x1b[36mx\x1b[0m");
}

#[test]
fn glossary_rich_only_excludes_bare() {
    let rendered = "t_AAAA  rich   codex   3m ago  1 file\n";
    let entries = glossary_for(rendered);
    assert!(entries.iter().any(|d| d.starts_with("rich:")));
    assert!(!entries.iter().any(|d| d.starts_with("bare:")));
}

#[test]
fn glossary_includes_bare_when_present() {
    let rendered = "t_AAAA  bare   —   3m ago  1 file\n";
    let entries = glossary_for(rendered);
    assert!(entries.iter().any(|d| d.starts_with("bare:")));
}

#[test]
fn glossary_git_word_boundary_ignores_substring() {
    assert!(glossary_for("a digit changed").is_empty());
    assert!(!glossary_for("tool git 1 file").is_empty());
}

#[test]
fn sanitize_terminal_strips_c0_and_del_keeps_text() {
    let evil = "hello \x1b]0;evil\x07 world\x7f!";
    let clean = sanitize_terminal(evil);
    assert!(!clean.contains('\x1b'));
    assert!(!clean.contains('\x07'));
    assert!(!clean.contains('\x7f'));
    assert_eq!(clean, "hello ]0;evil world!");
}

#[test]
fn sanitize_terminal_noop_on_plain_text() {
    assert_eq!(sanitize_terminal("write g.rs — done"), "write g.rs — done");
}

#[test]
fn short_id_keeps_short_ids_and_elides_long_ones() {
    assert_eq!(short_id("t_ABCD"), "t_ABCD");
    assert_eq!(short_id("t_ABCD00000000000000EFGH"), "t_ABCD…EFGH");
    assert_eq!(short_id("ABCDEFGHIJ"), "t_ABCD…GHIJ");
}

fn turn(id: &str, grade: &str, tool: Option<&str>, excerpt: Option<&str>) -> TurnRecord {
    TurnRecord {
        v: 1,
        id: id.to_string(),
        grade: grade.to_string(),
        truncated: false,
        started: "2026-01-01T00:00:00.000Z".into(),
        ended: "2026-01-01T00:00:01.000Z".into(),
        tool: tool.map(String::from),
        model: None,
        session: None,
        root: "/repo".into(),
        prompt_ref: None,
        prompt_excerpt: excerpt.map(String::from),
        merges: vec![],
        files: vec![],
    }
}

#[test]
fn turn_list_line_rich_with_excerpt_and_truncated() {
    let mut t = turn("t_ABCD00000000000000EFGH", "rich", Some("codex"), Some("do the thing"));
    t.truncated = true;
    let line = turn_list_line(&t, "3m ago", "2 files", false);
    assert_eq!(
        line,
        "t_ABCD…EFGH · rich · codex · 3m ago · 2 files · \"do the thing\" · (truncated)"
    );
}

#[test]
fn turn_list_line_bare_no_tool_no_excerpt() {
    let t = turn("t_ABCD00000000000000EFGH", "bare", None, None);
    let line = turn_list_line(&t, "just now", "1 file", false);
    assert_eq!(line, "t_ABCD…EFGH · bare · — · just now · 1 file");
}

#[test]
fn turn_list_line_colorizes_only_the_id() {
    let t = turn("t_ABCD00000000000000EFGH", "rich", Some("codex"), None);
    let line = turn_list_line(&t, "3m ago", "1 file", true);
    assert!(line.starts_with("\x1b[36mt_ABCD…EFGH\x1b[0m"));
    assert!(!line[line.find("rich").unwrap()..].contains('\x1b'));
}

#[test]
fn turn_detail_header_rich_quotes_excerpt() {
    let t = turn("t_ABCD00000000000000EFGH", "rich", Some("codex"), Some("do the thing"));
    let line = turn_detail_header(&t, "14:03");
    assert_eq!(line, "t_ABCD…EFGH · codex · \"do the thing\" · 14:03");
}

#[test]
fn turn_detail_header_bare_never_fabricates() {
    let t = turn("t_ABCD00000000000000EFGH", "bare", None, None);
    let line = turn_detail_header(&t, "14:03");
    assert_eq!(line, "t_ABCD…EFGH · bare turn · 14:03");
    assert!(!line.contains('"'));
}

#[test]
fn list_and_detail_renderers_share_id_format_and_separator() {
    let t = turn("t_ABCD00000000000000EFGH", "rich", Some("codex"), None);
    let list = turn_list_line(&t, "3m ago", "1 file", false);
    let detail = turn_detail_header(&t, "14:03");
    assert!(list.starts_with("t_ABCD…EFGH · "));
    assert!(detail.starts_with("t_ABCD…EFGH · "));
}

const JAN_1_PLUS_3M_MS: u64 = 1_767_225_600_000 + 180_000;

#[test]
fn format_turn_shows_relative_or_raw_time_and_the_file_count() {
    let t = turn("t_ABCD00000000000000EFGH", "rich", Some("codex"), None);
    assert_eq!(
        format_turn(&t, JAN_1_PLUS_3M_MS, false, false, 1),
        "t_ABCD…EFGH · rich · codex · 3m ago · 1 file"
    );
    assert_eq!(
        format_turn(&t, JAN_1_PLUS_3M_MS, true, false, 0),
        "t_ABCD…EFGH · rich · codex · 2026-01-01T00:00:00.000Z · 0 files"
    );
    assert_eq!(
        format_turn(&t, JAN_1_PLUS_3M_MS, false, false, 12),
        "t_ABCD…EFGH · rich · codex · 3m ago · 12 files"
    );
}

fn file(path: &str) -> FileEntry {
    FileEntry {
        path: path.to_string(),
        before: None,
        after: Some("sha256:x".to_string()),
        op: "create".to_string(),
        skipped: false,
        withheld: false,
        baseline_unknown: false,
    }
}

#[test]
fn render_log_folds_noise_unless_all_files() {
    let mut a = turn("t_ABCD00000000000000EFGH", "rich", Some("codex"), None);
    a.files = vec![file("src/a.rs"), file("dist/a.js"), file("dist/b.js")];
    let mut b = turn("t_WXYZ00000000000000QRST", "bare", None, None);
    b.files = vec![file("README.md")];
    let items = vec![a, b];
    let out = render_log(&items, &vec![2, 0], false, JAN_1_PLUS_3M_MS, false, false);
    assert_eq!(
        out,
        "t_ABCD…EFGH · rich · codex · 3m ago · 1 file\n+2 noise files (--all-files to show)\n\
         t_WXYZ…QRST · bare · — · 3m ago · 1 file\n"
    );
    let all = render_log(&items, &vec![2, 0], true, JAN_1_PLUS_3M_MS, false, false);
    assert_eq!(
        all,
        "t_ABCD…EFGH · rich · codex · 3m ago · 3 files\nt_WXYZ…QRST · bare · — · 3m ago · 1 file\n"
    );
    assert_eq!(render_log(&vec![], &vec![], false, 0, false, false), "");
}

#[test]
fn cursor_errors_have_their_own_prose() {
    assert_eq!(
        cursor_error_text(CursorError::Stale),
        "the log was rewritten since this cursor — restart the query"
    );
    assert_eq!(
        cursor_error_text(CursorError::QueryMismatch),
        "cursor came from a different query — restart the query"
    );
    assert_eq!(cursor_error_text(CursorError::ZeroLimit), "a limit of 0 has no honest page");
}
