use agentrec::daemon::{
    Baselines, recovery_of,    classify, lock_path, resolve, watch_error, ChangeObs, Class, Clock, SignalTailer, TailPlan,
    WatchBatch, DEBOUNCE_MS, DRIFT_REANCHOR_MS, MAX_DEBOUNCE_MS,
};
use agentrec::strmap::StrMap;
use std::time::Instant;

#[test]
fn reanchor_corrects_large_stale_offset() {
    let mut clock = Clock {
        start_mono: Instant::now(),
        start_wall_ms: 1_000,
        max_wall_ms: 1_000,
    };
    let before = clock.wall_ms(0);
    clock.reanchor();
    let after = clock.wall_ms(0);
    assert!(
        after > before + 1_000,
        "reanchor should have corrected a multi-decade drift: before={before} after={after}"
    );
}

#[test]
fn wall_ms_never_regresses_even_after_a_backward_correction() {
    let mut clock = Clock::start();
    let high = clock.wall_ms(10_000);
    clock.start_wall_ms = clock.start_wall_ms.saturating_sub(50_000);
    let low = clock.wall_ms(10_000);
    assert_eq!(low, high, "a derived wall time must never regress below one already handed out");
}

#[test]
fn reanchor_at_moves_the_offset_only_beyond_the_tolerance() {
    let mut clock = Clock { start_mono: Instant::now(), start_wall_ms: 10_000, max_wall_ms: 0 };
    clock.reanchor_at(500, 10_500 + DRIFT_REANCHOR_MS);
    assert_eq!(clock.start_wall_ms, 10_000);
    clock.reanchor_at(500, 10_501 + DRIFT_REANCHOR_MS);
    assert_eq!(clock.start_wall_ms, 10_001 + DRIFT_REANCHOR_MS);
    clock.reanchor_at(5_000, 100);
    assert_eq!(clock.start_wall_ms, 0, "a reading before the elapsed time saturates at zero");
}

#[test]
fn wall_ms_is_the_derived_time_above_the_floor() {
    let mut clock = Clock { start_mono: Instant::now(), start_wall_ms: 1_000, max_wall_ms: 0 };
    assert_eq!(clock.wall_ms(5), 1_005);
    assert_eq!(clock.max_wall_ms, 1_005);
    assert_eq!(clock.wall_ms(2), 1_005);
}

#[test]
fn watch_error_requires_limit_keyword_not_just_inotify_mention() {
    let msg = watch_error("inotify_add_watch failed: Permission denied");
    assert!(!msg.contains("raise the inotify limit"), "message: {msg}");
    assert_eq!(msg, "watch failed: inotify_add_watch failed: Permission denied");
}

#[test]
fn watch_error_flags_true_limit_exhaustion() {
    let msg = watch_error("inotify_add_watch failed: limit reached");
    assert!(msg.contains("raise the inotify limit"), "message: {msg}");
}

#[test]
fn watch_error_flags_watch_plus_limit_without_inotify_word() {
    let msg = watch_error("could not add watch: limit exceeded");
    assert!(msg.contains("raise the inotify limit"), "message: {msg}");
    assert_eq!(
        msg,
        "watch failed (could not add watch: limit exceeded) — raise the inotify limit: sudo sysctl fs.inotify.max_user_watches=524288"
    );
}

#[test]
fn watch_error_limit_alone_gets_no_remedy() {
    assert_eq!(watch_error("rate limit"), "watch failed: rate limit");
}

#[test]
fn classify_routes_git_refs_and_denylist() {
    assert_eq!(classify("/repo", "/repo/.git/HEAD", false), Class::GitRef);
    assert_eq!(classify("/repo", "/repo/.git/refs/heads/main", false), Class::GitRef);
    assert_eq!(classify("/repo", "/repo/.git/objects/ab/cd", false), Class::Ignore);
    assert_eq!(classify("/repo", "/repo/.git", false), Class::Ignore);
    assert_eq!(classify("/repo", "/repo/.agentrec/log.jsonl", false), Class::Ignore);
    assert_eq!(classify("/repo", "/repo/web/node_modules/x.js", false), Class::Ignore);
    assert_eq!(classify("/repo", "/repo/src/target/a", false), Class::Ignore);
    assert_eq!(classify("/repo", "/repo/src/main.rs", false), Class::Watch);
    assert_eq!(classify("/repo", "/repo/src/main.rs", true), Class::Ignore);
}

#[test]
fn classify_ignores_paths_outside_the_root_and_the_root_itself() {
    assert_eq!(classify("/repo", "/other/src/main.rs", false), Class::Ignore);
    assert_eq!(classify("/repo", "/repository/x", false), Class::Ignore);
    assert_eq!(classify("/repo", "/repo", false), Class::Ignore);
    assert_eq!(classify("/repo/", "/repo//src/./a.rs", false), Class::Watch);
}

#[test]
fn daemon_lock_lives_under_the_store() {
    assert_eq!(lock_path("/repo"), "/repo/.agentrec/daemon.lock");
}

#[test]
fn watch_batch_gathers_each_changed_path_once() {
    let mut b = WatchBatch::new();
    assert_eq!(b.observe("/repo", "/repo/src/a.rs".to_string(), false, 100), Class::Watch);
    assert_eq!(b.observe("/repo", "/repo//src/a.rs".to_string(), false, 200), Class::Watch);
    assert_eq!(b.observe("/repo", "/repo/target/x".to_string(), false, 300), Class::Ignore);
    assert_eq!(b.observe("/repo", "/repo/gen.txt".to_string(), true, 300), Class::Ignore);
    assert_eq!(b.observe("/repo", "/repo/.git/HEAD".to_string(), false, 400), Class::GitRef);
    assert_eq!(b.pending, vec!["/repo/src/a.rs".to_string()]);
    assert_eq!(b.first_event_ms, Some(100));
    assert_eq!(b.last_event_ms, Some(200));
    assert!(b.take_git_hit());
    assert!(!b.take_git_hit());
}

#[test]
fn watch_batch_flushes_when_settled_or_capped() {
    let mut b = WatchBatch::new();
    assert!(!b.should_flush(1_000_000));
    b.observe("/repo", "/repo/a".to_string(), false, 1_000);
    assert!(!b.should_flush(1_000 + DEBOUNCE_MS - 1));
    assert!(b.should_flush(1_000 + DEBOUNCE_MS));
    let mut churn = WatchBatch::new();
    let mut t = 0;
    while t < MAX_DEBOUNCE_MS {
        churn.observe("/repo", "/repo/a".to_string(), false, t);
        assert!(!churn.should_flush(t));
        t += 1_000;
    }
    assert!(churn.should_flush(MAX_DEBOUNCE_MS));
}

#[test]
fn watch_batch_flush_drops_guarded_paths_and_resets() {
    let mut b = WatchBatch::new();
    b.observe("/repo", "/repo/src/a.rs".to_string(), false, 10);
    b.observe("/repo", "/repo/src/b.rs".to_string(), false, 20);
    b.observe("/repo", "/repo/.gitignore".to_string(), false, 30);
    assert!(b.gitignore_touched());
    let out = b.take_flush("/repo", &vec!["src/b.rs".to_string(), "/repo/src/a.rs".to_string()]);
    assert_eq!(out, vec!["/repo/src/a.rs".to_string(), "/repo/.gitignore".to_string()]);
    assert!(b.pending.is_empty());
    assert_eq!((b.first_event_ms, b.last_event_ms), (None, None));
    assert!(!b.gitignore_touched());
}

fn after_map(after: &[(&str, Option<&str>)]) -> StrMap<Option<String>> {
    let mut m = StrMap::new();
    for (p, h) in after {
        m.insert(p.to_string(), h.map(String::from));
    }
    m
}

fn change(path: &str, before: Option<&str>, snapshotted: bool, deleted: bool) -> ChangeObs {
    ChangeObs {
        path: path.into(),
        before_hash: before.map(String::from),
        snapshotted,
        withheld: false,
        baseline_unknown: false,
        deleted,
    }
}

#[test]
fn over_cap_modify_is_not_a_delete() {
    let after = after_map(&[("a.rs", None)]);
    let entry = resolve(&after, &change("a.rs", Some("sha256:old"), false, false));
    assert_eq!(entry.op, "modify");
    assert!(entry.skipped);
    assert_eq!(entry.after, None);
    assert_eq!(entry.before.as_deref(), Some("sha256:old"));
}

#[test]
fn genuine_delete_is_a_delete() {
    let after = after_map(&[("b.rs", None)]);
    let entry = resolve(&after, &change("b.rs", Some("sha256:old"), true, true));
    assert_eq!(entry.op, "delete");
    assert!(!entry.skipped);
    assert_eq!(entry.after, None);
}

#[test]
fn create_when_no_before_and_known_baseline() {
    let after = after_map(&[("c.rs", Some("sha256:new"))]);
    let entry = resolve(&after, &change("c.rs", None, true, false));
    assert_eq!(entry.op, "create");
    assert_eq!(entry.after.as_deref(), Some("sha256:new"));
}

#[test]
fn unknown_baseline_without_before_is_a_modify() {
    let after = after_map(&[]);
    let mut obs = change("d.rs", None, true, false);
    obs.baseline_unknown = true;
    let entry = resolve(&after, &obs);
    assert_eq!(entry.op, "modify");
    assert!(entry.baseline_unknown);
    assert_eq!(entry.after, None);
    let mut secret = change("e.env", None, false, false);
    secret.withheld = true;
    assert!(!resolve(&after, &secret).skipped);
}

#[test]
fn signal_tailer_consumes_complete_lines_only() {
    let mut t = SignalTailer { offset: 0 };
    assert_eq!(t.plan(0), TailPlan::Idle);
    assert_eq!(t.plan(30), TailPlan::Read);
    let fresh = b"{\"event\":\"start\"}\n{\"event\":\"st";
    assert_eq!(t.consume(fresh), Some(18));
    assert_eq!(t.offset, 18);
    assert_eq!(t.consume(b"op\"}"), None);
    assert_eq!(t.offset, 18);
    assert_eq!(t.consume(b"{\"event\":\"stop\"}\n"), Some(17));
    assert_eq!(t.offset, 35);
}

#[test]
fn signal_tailer_resyncs_to_the_new_end_after_truncation() {
    let mut t = SignalTailer { offset: 100 };
    assert_eq!(t.plan(40), TailPlan::Resync);
    assert_eq!(t.offset, 40);
    assert_eq!(t.plan(40), TailPlan::Idle);
    assert_eq!(t.plan(41), TailPlan::Read);
    assert_eq!(t.offset, 40);
}

#[test]
fn staging_advances_the_baseline_through_create_modify_delete() {
    let mut b = Baselines::new();
    let o = b.stage_one("a.rs", false, Some("sha256:1".to_string()), true, false).unwrap();
    assert_eq!((o.before_hash.clone(), o.baseline_unknown, o.deleted), (None, false, false));
    let o = b.stage_one("a.rs", false, Some("sha256:2".to_string()), true, false).unwrap();
    assert_eq!(o.before_hash.as_deref(), Some("sha256:1"));
    let o = b.stage_one("a.rs", true, None, true, false).unwrap();
    assert_eq!(o.before_hash.as_deref(), Some("sha256:2"));
    assert!(o.deleted);
    assert_eq!(b.baseline.get("a.rs"), None);
    assert_eq!(b.known.get("a.rs"), None);
    assert_eq!(b.after.get("a.rs"), Some(&None));
}

#[test]
fn staging_drops_transient_files_and_flags_unknown_baselines() {
    let mut b = Baselines::new();
    assert!(b.stage_one("tmp.swp", true, None, true, false).is_none());
    assert_eq!(b.after.get("tmp.swp"), None);
    b.known.insert("old.rs".to_string(), ());
    let o = b.stage_one("old.rs", false, Some("sha256:9".to_string()), true, false).unwrap();
    assert!(o.baseline_unknown);
    assert_eq!(o.before_hash, None);
    let o = b.stage_one(".env", false, None, false, true).unwrap();
    assert!(o.withheld && !o.snapshotted);
    assert_eq!(b.after.get(".env"), Some(&None));
    let o = b.stage_one("big.bin", false, None, false, false).unwrap();
    assert!(!o.snapshotted && !o.deleted);
}

#[test]
fn recovery_keeps_attribution_only_for_attributed_turns() {
    let b = recovery_of("bracket", 1_000, 5_000);
    assert!(b.rich && b.truncated && b.keeps_attribution);
    assert_eq!(b.ended_wall_ms, 5_000);
    let g = recovery_of("git", 1_000, 900);
    assert!(g.rich && !g.truncated && g.keeps_attribution);
    assert_eq!(g.ended_wall_ms, 1_000);
    let q = recovery_of("quiet", 1_000, 2_000);
    assert!(!q.rich && !q.truncated && !q.keeps_attribution);
}

#[test]
fn snapshot_plan_reads_secrets_and_gone_files_not_at_all() {
    assert_eq!(agentrec::daemon::snapshot_plan(true, false, false), agentrec::daemon::SnapshotPlan::Nothing);
    assert_eq!(agentrec::daemon::snapshot_plan(false, true, true), agentrec::daemon::SnapshotPlan::Nothing);
    assert_eq!(agentrec::daemon::snapshot_plan(false, false, true), agentrec::daemon::SnapshotPlan::LinkTarget);
    assert_eq!(agentrec::daemon::snapshot_plan(false, false, false), agentrec::daemon::SnapshotPlan::Content);
}

#[test]
fn snapshot_outcome_follows_the_facts() {
    use_outcome(true, false, agentrec::daemon::SnapshotRead::Stored("h".into()), None, false, true, None);
    use_outcome(false, true, agentrec::daemon::SnapshotRead::NotRead, None, true, false, None);
    use_outcome(false, false, agentrec::daemon::SnapshotRead::Link(Some("l".into())), Some("l"), true, false, None);
    use_outcome(false, false, agentrec::daemon::SnapshotRead::Stored("h".into()), Some("h"), true, false, None);
    use_outcome(false, false, agentrec::daemon::SnapshotRead::OverCap, None, false, false, None);
    use_outcome(false, false, agentrec::daemon::SnapshotRead::Unreadable, None, false, false, None);
    use_outcome(false, false, agentrec::daemon::SnapshotRead::LinkUnreadable, None, false, false, None);
    use_outcome(false, false, agentrec::daemon::SnapshotRead::StoreFailed("disk full".into()), None, false, false, Some("disk full"));
}

fn use_outcome(
    secret: bool,
    deleted: bool,
    read: agentrec::daemon::SnapshotRead,
    after: Option<&str>,
    snapshotted: bool,
    withheld: bool,
    io: Option<&str>,
) {
    let o = agentrec::daemon::snapshot_outcome(secret, deleted, read);
    assert_eq!(o.after.as_deref(), after);
    assert_eq!(o.snapshotted, snapshotted);
    assert_eq!(o.withheld, withheld);
    assert_eq!(o.io_failure.as_deref(), io);
}

fn journal(source: &str) -> agentrec::daemon::Journal {
    agentrec::daemon::Journal {
        id: "t_J".into(),
        root: "/repo".into(),
        source: source.into(),
        opened_wall_ms: 1_000,
        last_change_wall_ms: 500,
        tool: Some("codex".into()),
        session: Some("s".into()),
        files: vec![],
    }
}

fn rfc(ms: u64) -> String {
    format!("T{ms}")
}

#[test]
fn recovery_skips_a_turn_already_in_the_log_and_appends_once_otherwise() {
    let j = journal("bracket");
    let empty: Vec<agentrec::record::LogRecord> = vec![];
    let (started, ended) = agentrec::daemon::recovery_times(&empty, &j, rfc).expect("to recover");
    assert_eq!(started, "T1000");
    assert_eq!(ended, "T1000");
    let t = agentrec::daemon::recovered_turn(journal("bracket"), started, ended, Some("p".into()), Some("ex".into()));
    assert_eq!(t.id, "t_J");
    assert_eq!(t.grade, "rich");
    assert!(t.truncated);
    assert_eq!(t.tool.as_deref(), Some("codex"));
    assert_eq!(t.prompt_ref.as_deref(), Some("p"));
    let log = vec![agentrec::record::LogRecord::Turn(t)];
    assert!(agentrec::daemon::recovery_times(&log, &j, rfc).is_none());
}

#[test]
fn an_unattributed_recovery_is_bare() {
    let t = agentrec::daemon::recovered_turn(journal("quiet"), "a".into(), "b".into(), Some("p".into()), Some("ex".into()));
    assert_eq!(t.grade, "bare");
    assert!(!t.truncated);
    assert!(t.tool.is_none() && t.session.is_none() && t.prompt_ref.is_none() && t.prompt_excerpt.is_none());
    let g = agentrec::daemon::recovered_turn(journal("git"), "a".into(), "b".into(), None, None);
    assert_eq!(g.grade, "rich");
    assert!(!g.truncated);
}
