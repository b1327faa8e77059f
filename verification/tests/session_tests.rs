use agentrec::doc::Doc;
use agentrec::importcmd::{Rung, TierCounts};
use agentrec::record::FileEntry;
use agentrec::session::{
    tool_line, turn_span, DryRunSession, ImportCounters, PersistSession, SessionBackups, ToolLine,
};

fn s(v: &str) -> Doc {
    Doc::Str(v.to_string())
}

fn obj(entries: Vec<(&str, Doc)>) -> Doc {
    Doc::Object(entries.into_iter().map(|(k, v)| (k.to_string(), v)).collect())
}

fn snapshot(keys: Vec<(&str, &str)>) -> Doc {
    let held = obj(keys.into_iter().map(|(k, b)| (k, obj(vec![("backupFileName", s(b))]))).collect());
    obj(vec![
        ("type", s("file-history-snapshot")),
        ("snapshot", obj(vec![("trackedFileBackups", held)])),
    ])
}

fn edit(path: &str) -> Doc {
    obj(vec![
        ("type", s("user")),
        ("toolUseResult", obj(vec![("filePath", s(path))])),
    ])
}

#[test]
fn relative_backup_keys_wait_for_the_session_cwd() {
    let mut b = SessionBackups::new();
    assert!(b.observe(&snapshot(vec![("src/a.rs", "a@v1"), ("/abs/./b.rs", "b@v1")])));
    assert_eq!(b.backups.get("/abs/b.rs"), Some(&"b@v1".to_string()));
    assert_eq!(b.backups.get("/repo/src/a.rs"), None);
    assert_eq!(b.pending_relative, vec![("src/a.rs".to_string(), "a@v1".to_string())]);
    assert!(!b.observe(&obj(vec![("sessionId", s("sess-1")), ("cwd", s("/repo"))])));
    assert_eq!(b.backups.get("/repo/src/a.rs"), Some(&"a@v1".to_string()));
    assert_eq!(b.edits_since_backup.get("/repo/src/a.rs"), Some(&0));
    assert!(b.pending_relative.is_empty());
    b.observe(&obj(vec![("sessionId", s("sess-2")), ("cwd", s("/elsewhere"))]));
    assert_eq!(b.session_id.as_deref(), Some("sess-1"));
    assert_eq!(b.cwd.as_deref(), Some("/repo"));
    b.observe(&snapshot(vec![("../other/c.rs", "c@v1")]));
    assert_eq!(b.backups.get("/other/c.rs"), Some(&"c@v1".to_string()));
}

#[test]
fn a_snapshot_line_with_a_tool_result_is_not_bookkeeping_only() {
    let mut b = SessionBackups::new();
    let mut line = snapshot(vec![("/r/a.rs", "a@v1")]);
    if let Doc::Object(es) = &mut line {
        es.push(("toolUseResult".to_string(), obj(vec![("filePath", s("/r/a.rs"))])));
    }
    assert!(!b.observe(&line));
    assert_eq!(b.backups.get("/r/a.rs"), Some(&"a@v1".to_string()));
}

#[test]
fn tool_lines_are_classified_structurally() {
    let shaped = obj(vec![(
        "message",
        obj(vec![("content", Doc::Array(vec![obj(vec![("type", s("tool_result"))])]))]),
    )]);
    assert!(matches!(tool_line(&shaped), ToolLine::MissingToolUseResult));
    assert!(matches!(tool_line(&obj(vec![("type", s("user"))])), ToolLine::NotToolResult));
    let mut side = edit("/r/a.rs");
    if let Doc::Object(es) = &mut side {
        es.push(("isSidechain".to_string(), Doc::Bool(true)));
    }
    assert!(matches!(tool_line(&side), ToolLine::Sidechain));
    let opaque = obj(vec![("toolUseResult", obj(vec![("stdout", s("ok"))]))]);
    assert!(matches!(tool_line(&opaque), ToolLine::Opaque));
    assert!(matches!(tool_line(&edit("/r/a.rs")), ToolLine::File(p) if p == "/r/a.rs"));
}

#[test]
fn dry_run_session_counts_lines_and_hands_back_file_entries() {
    let mut c = ImportCounters::new();
    let mut tiers = TierCounts::new();
    let mut sess = DryRunSession::new();
    assert_eq!(sess.line(&obj(vec![("sessionId", s("3f2a9c1e-0000-4000-8000-000000000001")), ("cwd", s("/repo"))]), &mut c), None);
    assert_eq!(sess.line(&snapshot(vec![("src/a.rs", "a@v1")]), &mut c), None);
    let opaque = obj(vec![("toolUseResult", obj(vec![("stdout", s("ok"))]))]);
    assert_eq!(sess.line(&opaque, &mut c), None);
    let e = edit("/repo/src/a.rs");
    let fp = sess.line(&e, &mut c).unwrap();
    assert_eq!(fp, "/repo/src/a.rs");
    let tur = obj(vec![("filePath", s("/repo/src/a.rs"))]);
    assert_eq!(sess.classify(false, &tur, &fp, &mut tiers), Rung::ReadBlob);
    assert_eq!(sess.classify(false, &tur, &fp, &mut tiers), Rung::Stale);
    assert_eq!(tiers.t15_rejected_stale, 1);
    sess.finish(&mut c, true);
    assert_eq!(c.opaque_calls, 1);
    assert_eq!((sess.opaque, sess.entries), (1, 2));
    assert_eq!(c.sessions_importable, 1);
    assert_eq!(c.sessions_in_root, 1);
    assert_eq!(c.skipped_missing_cwd, 0);
}

#[test]
fn dry_run_session_without_cwd_is_not_importable() {
    let mut c = ImportCounters::new();
    let mut sess = DryRunSession::new();
    sess.line(&obj(vec![("type", s("summary"))]), &mut c);
    sess.finish(&mut c, true);
    assert_eq!(c.skipped_missing_cwd, 1);
    assert_eq!(c.sessions_importable, 0);
    assert_eq!(c.sessions_in_root, 0);
}

fn prompt(text: &str, ts: &str) -> Doc {
    obj(vec![
        ("type", s("user")),
        ("timestamp", s(ts)),
        ("message", obj(vec![("role", s("user")), ("content", s(text))])),
    ])
}

fn timed_edit(path: &str, ts: &str) -> Doc {
    obj(vec![
        ("type", s("user")),
        ("timestamp", s(ts)),
        ("toolUseResult", obj(vec![("filePath", s(path))])),
    ])
}

fn entry(path: &str) -> FileEntry {
    FileEntry {
        path: path.to_string(),
        before: None,
        after: None,
        op: "modify".to_string(),
        skipped: false,
        withheld: false,
        baseline_unknown: false,
    }
}

#[test]
fn persist_session_segments_turns_at_genuine_prompts() {
    let mut p = PersistSession::new();
    assert_eq!(p.line(&obj(vec![("cwd", s("/r")), ("sessionId", s("sid"))])), None);
    assert_eq!(p.line(&prompt("first", "2026-01-01T00:00:05.000Z")), None);
    let fp = p.line(&timed_edit("/r/a.rs", "2026-01-01T00:00:07.000Z")).unwrap();
    assert_eq!(fp, "/r/a.rs");
    p.add_file(entry(&fp));
    let mut side = prompt("sidechain text", "2026-01-01T00:00:08.000Z");
    if let Doc::Object(es) = &mut side {
        es.push(("isSidechain".to_string(), Doc::Bool(true)));
    }
    assert_eq!(p.line(&side), None);
    assert_eq!(p.line(&prompt("", "2026-01-01T00:00:09.000Z")), None);
    assert_eq!(p.line(&prompt("second", "2026-01-01T00:01:00.000Z")), None);
    assert_eq!(p.turn_index, 1);
    let turns = p.finish();
    assert_eq!(turns.len(), 2);
    assert_eq!(turns[0].turn_index, 0);
    assert_eq!(turns[0].prompt_raw.as_deref(), Some("first"));
    assert_eq!(turns[0].files.len(), 1);
    assert_eq!(
        turn_span(&turns[0]),
        ("2026-01-01T00:00:05.000Z".to_string(), "2026-01-01T00:00:07.000Z".to_string())
    );
    assert_eq!(turns[1].turn_index, 1);
    assert_eq!(turns[1].prompt_raw.as_deref(), Some("second"));
    assert!(turns[1].files.is_empty());
}

#[test]
fn persist_session_drops_an_empty_last_turn_and_defaults_its_span() {
    let mut p = PersistSession::new();
    assert_eq!(p.line(&obj(vec![("type", s("summary"))])), None);
    assert!(p.finish().is_empty());
    let mut q = PersistSession::new();
    let fp = q.line(&edit("/r/b.rs")).unwrap();
    q.add_file(entry(&fp));
    let turns = q.finish();
    assert_eq!(turns.len(), 1);
    assert_eq!(turns[0].prompt_raw, None);
    let epoch = "1970-01-01T00:00:00.000Z".to_string();
    assert_eq!(turn_span(&turns[0]), (epoch.clone(), epoch));
}
