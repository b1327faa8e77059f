use agentrec::doc::{json_line, Doc};
use agentrec::doctorcmd::{check_hooks_text, codex_signal_seen_in, diagnose, probe_answer_text, Check, CheckStatus};
use agentrec::fmt::relative_time;
use agentrec::hookcmds::{codex_payload_text_action, tool_hook_text_fields, CodexAction};
use agentrec::importcmd::turns_to_append;
use agentrec::initcmd::{gitignore_update, json_file, toml_file};
use agentrec::paths::lexical_normalize;
use agentrec::record::TurnRecord;
use agentrec::session::{DryRunSession, ImportCounters, PersistSession};

fn turn(id: &str) -> TurnRecord {
    TurnRecord {
        v: 1,
        id: id.to_string(),
        grade: "rich".to_string(),
        truncated: false,
        started: "2026-01-01T00:00:00.000Z".into(),
        ended: "2026-01-01T00:00:01.000Z".into(),
        tool: None,
        model: None,
        session: Some("s1".into()),
        root: "/repo".into(),
        prompt_ref: None,
        prompt_excerpt: None,
        merges: vec![],
        files: vec![],
    }
}

fn ids(ts: &[TurnRecord]) -> Vec<String> {
    ts.iter().map(|t| t.id.clone()).collect()
}

#[test]
fn json_line_skips_blank_lines_and_reports_parse_errors() {
    assert!(json_line("   \t").is_none());
    assert!(matches!(json_line("{not json"), Some(Err(_))));
    match json_line(r#"{"a":1}"#) {
        Some(Ok(Doc::Object(es))) => {
            assert_eq!(es.len(), 1);
            assert_eq!(es[0].0, "a");
            assert!(matches!(&es[0].1, Doc::Number(n) if n == "1"));
        }
        _ => panic!("expected an object"),
    }
}

#[test]
fn codex_text_action_reports_malformed_json_with_the_parser_message() {
    let err = codex_payload_text_action("{oops").err().expect("malformed payload refused");
    assert!(err.starts_with("codex hook: malformed JSON on stdin: "));
    assert!(err.len() > "codex hook: malformed JSON on stdin: ".len());
}

#[test]
fn codex_text_action_reads_a_trimmed_stop_payload() {
    let r = codex_payload_text_action(
        "\n  {\"hook_event_name\":\"Stop\",\"session_id\":\"s\",\"turn_id\":\"t\"}  \n",
    );
    match r {
        Ok(CodexAction::Stop { session_id, turn_id, transcript }) => {
            assert_eq!(session_id, "s");
            assert_eq!(turn_id, "t");
            assert!(transcript.is_none());
        }
        _ => panic!("expected a stop action"),
    }
}

#[test]
fn codex_text_action_names_a_missing_field() {
    let r = codex_payload_text_action(r#"{"hook_event_name":"Stop","session_id":"s"}"#);
    assert_eq!(r.err().unwrap(), "codex hook: missing or empty required field \"turn_id\"");
}

#[test]
fn tool_hook_text_reads_garbage_as_a_closing_empty_payload() {
    let f = tool_hook_text_fields("not json at all");
    assert!(!f.start);
    assert!(f.prompt.is_none() && f.session.is_none() && f.transcript.is_none());
    let g = tool_hook_text_fields(
        r#" {"hook_event_name":"UserPromptSubmit","prompt":"hi","session_id":"abc"} "#,
    );
    assert!(g.start);
    assert_eq!(g.prompt.as_deref(), Some("hi"));
    assert_eq!(g.session.as_deref(), Some("abc"));
}

#[test]
fn dry_run_raw_line_counts_malformed_lines_separately() {
    let mut s = DryRunSession::new();
    let mut c = ImportCounters::new();
    assert!(s.raw_line("   ", &mut c).is_none());
    assert_eq!(c.skipped_malformed_line, 0);
    assert_eq!(s.total_parsed_lines, 0);
    assert!(s.raw_line("{truncated", &mut c).is_none());
    assert_eq!(c.skipped_malformed_line, 1);
    assert_eq!(c.skipped_missing_tool_use_result, 0);
    assert_eq!(s.total_parsed_lines, 0);
    assert!(!s.any_line_parsed);
    let entry = s.raw_line(
        r#"{"sessionId":"x","cwd":"/repo","toolUseResult":{"filePath":"/repo/a.rs"}}"#,
        &mut c,
    );
    assert_eq!(entry.as_deref(), Some("/repo/a.rs"));
    assert_eq!(s.total_parsed_lines, 1);
    assert!(s.any_line_parsed);
    assert_eq!(c.skipped_malformed_line, 1);
}

#[test]
fn persist_raw_line_passes_over_blank_and_malformed_lines() {
    let mut s = PersistSession::new();
    assert!(s.raw_line("").is_none());
    assert!(s.raw_line("][").is_none());
    assert_eq!(s.turn_index, 0);
    assert!(s.cur.prompt_raw.is_none());
    let entry = s.raw_line(r#"{"cwd":"/repo","toolUseResult":{"filePath":"/repo/b.rs"}}"#);
    assert_eq!(entry.as_deref(), Some("/repo/b.rs"));
}

#[test]
fn json_file_parses_what_was_read() {
    assert!(matches!(json_file(Ok(None)), Ok(None)));
    assert_eq!(json_file(Err("denied".to_string())).err().unwrap(), "denied");
    assert!(matches!(json_file(Ok(Some("{}".to_string()))), Ok(Some(Ok(Doc::Object(_))))));
    assert!(matches!(json_file(Ok(Some("{".to_string()))), Ok(Some(Err(_)))));
}

#[test]
fn codex_signal_seen_in_skips_unparseable_lines() {
    let other = "{\"v\":1,\"tool\":\"other\",\"event\":\"start\"}\nnot json\n";
    assert!(!codex_signal_seen_in(other));
    let with_codex = format!("{other}{{\"v\":1,\"tool\":\"codex\",\"event\":\"start\"}}\n");
    assert!(codex_signal_seen_in(&with_codex));
    assert!(!codex_signal_seen_in(""));
}

#[test]
fn check_hooks_text_fails_on_missing_or_malformed_settings() {
    assert_eq!(check_hooks_text(None).status, CheckStatus::Fail);
    let c = check_hooks_text(Some("{ not json"));
    assert_eq!(c.status, CheckStatus::Fail);
    assert_eq!(c.name, "hook presence");
    assert_eq!(check_hooks_text(Some("{}")).status, CheckStatus::Fail);
}

#[test]
fn probe_answer_text_reads_the_reply_line() {
    assert!(probe_answer_text(" {\"jsonrpc\":\"2.0\",\"id\":1,\"result\":{\"protocolVersion\":\"2024-11-05\"}} \n").is_ok());
    let e = probe_answer_text("hello").err().unwrap();
    assert!(e.starts_with("response was not JSON ("));
    assert_eq!(
        probe_answer_text(" {\"id\":1} ").err().unwrap(),
        "unexpected first frame: {\"id\":1}"
    );
}

fn names(r: &agentrec::doctorcmd::Report) -> Vec<String> {
    r.checks.iter().map(|c| c.name.clone()).collect()
}

const ALL: [&str; 13] = [
    "initialized",
    "daemon liveness",
    "hook presence",
    "signal freshness",
    "store health",
    "state parse",
    "store permissions",
    "inotify headroom",
    "orphaned services",
    "codex hooks",
    "codex hook flags",
    "mcp registration",
    "mcp server",
];

fn twelve(status_fail_at: Option<usize>) -> Vec<Check> {
    (0..12)
        .map(|i| {
            if Some(i) == status_fail_at {
                Check::fail("misnamed", "broken".to_string())
            } else {
                Check::pass("misnamed")
            }
        })
        .collect()
}

fn run(dir: bool, cs: Vec<Check>) -> agentrec::doctorcmd::Report {
    let mut it = cs.into_iter();
    let mut n = || it.next().unwrap();
    diagnose(dir, n(), n(), n(), n(), n(), n(), n(), n(), n(), n(), n(), n())
}

#[test]
fn diagnose_lists_every_check_in_order_whatever_it_is_given() {
    let initialized = run(true, twelve(None));
    assert_eq!(names(&initialized), ALL.to_vec());
    assert!(initialized.ok);
    let uninitialized = run(false, twelve(None));
    assert_eq!(names(&uninitialized), ALL.to_vec());
    assert!(!uninitialized.ok);
    assert_eq!(uninitialized.checks[0].status, CheckStatus::Fail);
    assert!(uninitialized.checks[1..].iter().all(|c| c.status == CheckStatus::Na && c.remedy.is_none()));
}

#[test]
fn diagnose_is_not_ok_when_one_check_fails() {
    let r = run(true, twelve(Some(4)));
    assert!(!r.ok);
    assert_eq!(r.checks[5].name, "state parse");
    assert_eq!(r.checks[5].status, CheckStatus::Fail);
    assert_eq!(r.checks[5].remedy.as_deref(), Some("broken"));
}

#[test]
fn turns_to_append_skips_logged_ids_and_a_rerun_appends_nothing() {
    let existing = vec!["t1".to_string()];
    let first = turns_to_append(&existing, vec![turn("t1"), turn("t2"), turn("t3")]);
    assert_eq!(ids(&first), vec!["t2", "t3"]);
    let mut after = existing.clone();
    after.extend(ids(&first));
    let second = turns_to_append(&after, vec![turn("t1"), turn("t2"), turn("t3")]);
    assert!(second.is_empty());
}

#[test]
fn relative_time_falls_back_on_a_timestamp_too_large_to_count() {
    let huge = "99999999999999999-01-01T00:00:00.000Z";
    assert_eq!(relative_time(huge, 12345), huge);
    let hours = "2026-01-01T99999999999999999:00:00Z";
    assert_eq!(relative_time(hours, 12345), hours);
}

#[test]
fn lexical_normal_form_is_absolute_and_a_fixed_point() {
    let once = lexical_normalize("/a/./b/../../c/../..");
    assert_eq!(once, "/");
    let p = lexical_normalize("/x//y/./z/../w");
    assert_eq!(p, "/x/y/w");
    assert_eq!(lexical_normalize(&p), p);
}

#[test]
fn gitignore_second_update_is_a_no_op() {
    let first = gitignore_update("target").expect("entry added");
    assert_eq!(first, "target\n.agentrec/\n");
    assert!(gitignore_update(&first).is_none());
    assert_eq!(first.lines().filter(|l| l.trim() == ".agentrec/").count(), 1);
}

#[test]
fn dry_run_byte_line_counts_invalid_utf8_separately() {
    let mut s = DryRunSession::new();
    let mut c = ImportCounters::new();
    assert!(s.byte_line(vec![0x7b, 0xff, 0x7d], &mut c).is_none());
    assert_eq!(c.skipped_non_utf8_line, 1);
    assert_eq!(c.skipped_malformed_line, 0);
    assert_eq!(s.total_parsed_lines, 0);
    assert!(s.byte_line(b"{\"sessionId\":\"x\"}".to_vec(), &mut c).is_none());
    assert_eq!(s.total_parsed_lines, 1);
    assert!(s.byte_line(b"nope".to_vec(), &mut c).is_none());
    assert_eq!(c.skipped_malformed_line, 1);
    assert_eq!(c.skipped_non_utf8_line, 1);
}

#[test]
fn persist_byte_line_passes_over_invalid_utf8() {
    let mut s = PersistSession::new();
    assert!(s.byte_line(vec![0xc3]).is_none());
    assert_eq!(s.turn_index, 0);
    let entry = s.byte_line(b"{\"toolUseResult\":{\"filePath\":\"/r/c.rs\"}}".to_vec());
    assert_eq!(entry.as_deref(), Some("/r/c.rs"));
}

#[test]
fn sidechain_byte_line_counts_file_producing_lines() {
    let mut c = ImportCounters::new();
    agentrec::session::sidechain_byte_line(b"{\"toolUseResult\":{\"filePath\":\"/r/a\"}}".to_vec(), &mut c);
    assert_eq!(c.skipped_sidechain, 1);
    agentrec::session::sidechain_byte_line(b"{\"toolUseResult\":{}}".to_vec(), &mut c);
    agentrec::session::sidechain_byte_line(b"   ".to_vec(), &mut c);
    agentrec::session::sidechain_byte_line(b"{broken".to_vec(), &mut c);
    assert_eq!(c.skipped_sidechain, 1);
    assert_eq!(c.skipped_malformed_line, 0);
    agentrec::session::sidechain_byte_line(vec![0xfe], &mut c);
    assert_eq!(c.skipped_non_utf8_line, 1);
}

#[test]
fn toml_file_parses_tables_and_keeps_number_text() {
    assert!(matches!(toml_file(Ok(None)), Ok(None)));
    assert!(matches!(toml_file(Ok(Some("a = [".to_string()))), Ok(Some(Err(_)))));
    match toml_file(Ok(Some("ttl = 30\nratio = 1.0\nname = \"x\"\n[hooks]\non = true\n".to_string()))) {
        Ok(Some(Ok(Doc::Object(es)))) => {
            let get = |k: &str| es.iter().find(|(n, _)| n == k).map(|(_, v)| v);
            assert!(matches!(get("ttl"), Some(Doc::Number(n)) if n == "30"));
            assert!(matches!(get("ratio"), Some(Doc::Number(n)) if n == "1.0"));
            assert!(matches!(get("name"), Some(Doc::Str(s)) if s == "x"));
            match get("hooks") {
                Some(Doc::Object(h)) => assert!(matches!(&h[0], (k, Doc::Bool(true)) if k == "on")),
                _ => panic!("expected a table"),
            }
        }
        _ => panic!("expected a parsed table"),
    }
}

#[test]
fn config_reads_a_float_as_no_integer() {
    let c = agentrec::config::config_from_text("ttl_days = 30.0\nstore_budget_bytes = 1024\n").unwrap();
    assert_eq!(c.ttl_days, agentrec::config::DEFAULT_TTL_DAYS);
}

#[test]
fn imported_entry_withholds_secrets_and_drops_hashes_on_a_failed_store() {
    use_entry();
}

fn use_entry() {
    let e = agentrec::importcmd::imported_entry("k.pem".into(), true, true, false, None, None);
    assert!(e.withheld && !e.skipped && e.before.is_none() && e.after.is_none());
    assert_eq!(e.op, "create");
    let ok = agentrec::importcmd::imported_entry(
        "a.rs".into(),
        false,
        false,
        true,
        Some(agentrec::importcmd::BlobPut::Stored("b".into())),
        Some(agentrec::importcmd::BlobPut::Stored("c".into())),
    );
    assert_eq!(ok.op, "modify");
    assert_eq!(ok.before.as_deref(), Some("b"));
    assert_eq!(ok.after.as_deref(), Some("c"));
    assert!(!ok.skipped && !ok.withheld);
    let create = agentrec::importcmd::imported_entry(
        "n.rs".into(),
        false,
        true,
        false,
        None,
        Some(agentrec::importcmd::BlobPut::Stored("c".into())),
    );
    assert_eq!(create.op, "create");
    let before_failed = Some(agentrec::importcmd::BlobPut::OverCap);
    assert!(!agentrec::importcmd::stores_after(&before_failed));
    let skipped = agentrec::importcmd::imported_entry("a.rs".into(), false, false, false, before_failed, None);
    assert!(skipped.skipped && skipped.before.is_none() && skipped.after.is_none());
    let after_failed = agentrec::importcmd::imported_entry(
        "a.rs".into(),
        false,
        false,
        false,
        Some(agentrec::importcmd::BlobPut::Stored("b".into())),
        Some(agentrec::importcmd::BlobPut::IoError),
    );
    assert!(after_failed.skipped && after_failed.before.is_none());
}

#[test]
fn an_import_run_appends_each_missing_turn_once_and_a_rerun_nothing() {
    let existing = vec!["t2".to_string()];
    let files = || vec![vec![turn("t1"), turn("t2")], vec![], vec![turn("t3")]];
    let first = agentrec::importcmd::run_appends(&existing, files());
    assert_eq!(ids(&first), vec!["t1", "t3"]);
    let mut after = existing.clone();
    after.extend(ids(&first));
    assert!(agentrec::importcmd::run_appends(&after, files()).is_empty());
}

#[test]
fn gitignore_entry_is_added_once_after_a_crlf_last_line() {
    let first = gitignore_update("target\r").expect("entry added");
    assert_eq!(first, "target\r\n.agentrec/\n");
    assert_eq!(first.lines().filter(|l| l.trim() == ".agentrec/").count(), 1);
    assert!(gitignore_update(&first).is_none());
    assert!(gitignore_update(".agentrec\r\n").is_none());
}
