use agentrec::statuscmd::{rich_window, status_text, Eviction, RichRate, StatusFacts};

fn facts() -> StatusFacts {
    StatusFacts {
        store: "0 B".into(),
        budgeted: "0 B".into(),
        inbox: "0 B".into(),
        consumed_bytes: 0,
        consumed: "0 B".into(),
        turns: 0,
        crash_gaps: 0,
        restart_gaps: 0,
        trailing_stop_gaps: 0,
        daemon_live: true,
        epoch_reloads: 0,
        last_reload: String::new(),
        rich_rate: None,
        memories_fresh: 0,
        memories_stale: 0,
        memory_rejects: 0,
        injections: 0,
        memory_failures: 0,
        eviction: Eviction::Within,
        snapshot_failures: 0,
        io_failed: vec![],
        non_utf8_path_skips: 0,
        prompt_put_failures: 0,
        state_parse_failures: 0,
        last_bad_field: None,
    }
}

fn rate(turns: &[(bool, bool)], percent: &str) -> Option<RichRate> {
    let (rich, window) = rich_window(&turns.to_vec());
    if window == 0 {
        None
    } else {
        Some(RichRate { rich, window, percent: percent.to_string() })
    }
}

#[test]
fn status_text_of_an_empty_healthy_store() {
    let out = status_text(&facts());
    assert_eq!(
        out,
        "store:      0 B on disk, 0 B counted toward the budget\n\
         inbox:      0 B signal.jsonl\n\
         turns:      0 (agent turns; git activity hidden)\n\
         gaps:       0 recording gap(s)\n\
         daemon:     running\n\
         rich-rate:  n/a (no agent turns yet)\n\
         memory:     0 fresh, 0 stale, 0 rejects, 0 injections, 0 failures\n"
    );
}

#[test]
fn status_counts_restart_and_trailing_stop_gaps() {
    let mut f = facts();
    f.crash_gaps = 1;
    f.restart_gaps = 1;
    f.trailing_stop_gaps = 1;
    let out = status_text(&f);
    assert!(out.contains("gaps:       3 recording gap(s) (1 crash, 1 restart, 1 since last stop)\n"), "{out}");
    assert!(!out.contains("gaps:       1 recording gap(s)"), "crash-only gap reporting must not survive: {out}");
}

#[test]
fn status_gap_breakdown_is_omitted_at_zero() {
    let out = status_text(&facts());
    assert!(out.contains("gaps:       0 recording gap(s)\n"), "no gaps must render bare, with no breakdown: {out}");
}

#[test]
fn status_reports_daemon_liveness_both_ways() {
    let mut f = facts();
    f.daemon_live = false;
    let dead = status_text(&f);
    assert!(dead.contains("daemon:     not running\n"), "{dead}");
    assert!(dead.contains("\u{26a0} recorder not running \u{2014} nothing is being recorded"), "{dead}");
    f.daemon_live = true;
    let live = status_text(&f);
    assert!(live.contains("daemon:     running\n"), "{live}");
    assert!(!live.contains("\u{26a0} recorder not running"), "{live}");
}

#[test]
fn status_turns_line_uses_plain_language_not_jargon() {
    let mut f = facts();
    f.turns = 7;
    let out = status_text(&f);
    assert!(out.contains("turns:      7 (agent turns; git activity hidden)\n"), "{out}");
    assert!(!out.contains("git/merged excluded"), "{out}");
}

#[test]
fn status_rich_rate_excludes_imported_turns_entirely() {
    let imported: Vec<(bool, bool)> = (0..10).map(|_| (true, true)).collect();
    let mut f = facts();
    f.rich_rate = rate(&imported, "100");
    let out = status_text(&f);
    assert!(out.contains("rich-rate:  n/a (no agent turns yet)"), "{out}");
}

#[test]
fn status_rich_rate_still_reflects_broken_hooks_alongside_imported_turns() {
    let mut turns: Vec<(bool, bool)> = (0..20).map(|_| (true, true)).collect();
    turns.extend((0..10).map(|_| (false, false)));
    assert_eq!(rich_window(&turns), (0, 10));
    let mut f = facts();
    f.rich_rate = rate(&turns, "0");
    let out = status_text(&f);
    assert!(out.contains("rich-rate:  0% over trailing 10 agent turn(s)"), "{out}");
    assert!(out.contains("hooks may be broken"), "{out}");
}

#[test]
fn status_low_rich_rate_remedy_points_at_doctor_not_init() {
    let bare: Vec<(bool, bool)> = (0..10).map(|_| (false, false)).collect();
    let mut f = facts();
    f.rich_rate = rate(&bare, "0");
    let out = status_text(&f);
    assert!(out.contains("agentrec doctor"), "{out}");
    assert!(!out.contains("check `agentrec init`"), "{out}");
}

#[test]
fn rich_window_takes_the_last_twenty_agent_turns() {
    let mut turns: Vec<(bool, bool)> = (0..5).map(|_| (false, false)).collect();
    turns.extend((0..18).map(|_| (false, true)));
    turns.push((true, false));
    turns.extend((0..2).map(|_| (false, false)));
    assert_eq!(rich_window(&turns), (18, 20));
    assert_eq!(rich_window(&vec![]), (0, 0));
}

#[test]
fn rich_rate_at_ninety_percent_does_not_warn() {
    let mut turns: Vec<(bool, bool)> = (0..18).map(|_| (false, true)).collect();
    turns.extend((0..2).map(|_| (false, false)));
    let mut f = facts();
    f.rich_rate = rate(&turns, "90");
    let out = status_text(&f);
    assert!(out.contains("rich-rate:  90% over trailing 20 agent turn(s)\n"), "{out}");
    assert!(!out.contains("below 90%"), "{out}");
}

#[test]
fn status_omits_reload_line_when_never_reloaded() {
    let mut f = facts();
    let out = status_text(&f);
    assert!(!out.contains("reload"), "{out}");
    f.epoch_reloads = 1;
    f.last_reload = "just now".into();
    let out = status_text(&f);
    assert!(out.contains("ignore:     reloaded 1 time(s), last just now\n"), "{out}");
    f.daemon_live = false;
    assert!(!status_text(&f).contains("ignore:"));
}

#[test]
fn status_clamps_a_signal_offset_past_eof() {
    let mut f = facts();
    f.inbox = "100 B".into();
    f.consumed_bytes = 100;
    f.consumed = "100 B".into();
    let out = status_text(&f);
    assert!(out.contains("inbox:      100 B signal.jsonl (100 B consumed"), "{out}");
    assert!(out.contains("reclaim with `agentrec purge --signals-consumed`)\n"), "{out}");
}

#[test]
fn status_counts_memory_failures_and_tolerates_malformed_stats_lines() {
    let mut f = facts();
    f.injections = 1;
    f.memory_failures = 2;
    let out = status_text(&f);
    assert!(out.contains("2 failures"), "{out}");
    assert!(out.contains("memory:     0 fresh, 0 stale, 0 rejects, 1 injections, 2 failures\n"), "{out}");
}

fn over_budget(protected_bytes: u64, orphan_bytes: u64) -> Eviction {
    Eviction::OverBudget {
        budgeted: "4.9 KiB".into(),
        budget: "1000 B".into(),
        freed: if protected_bytes > 0 { "0 B".into() } else { "4.9 KiB".into() },
        protected_bytes,
        protected: "800 B".into(),
        orphan_bytes,
        orphans: "600 B".into(),
    }
}

#[test]
fn status_prints_over_budget_notice() {
    let mut f = facts();
    f.eviction = over_budget(0, 0);
    let out = status_text(&f);
    assert!(out.contains("over"), "{out}");
    assert!(out.contains("would free"), "{out}");
    assert!(out.contains("store 4.9 KiB counted toward budget, over 1000 B \u{2014} would free 4.9 KiB\n"), "{out}");
}

#[test]
fn status_attributes_protected_bytes() {
    let mut f = facts();
    f.eviction = over_budget(800, 0);
    let out = status_text(&f);
    assert!(out.contains("would free 0 B"), "{out}");
    assert!(out.contains("800 B protected (pinned or in-flight \u{2014} never evicted)"), "{out}");
}

#[test]
fn status_over_budget_attributes_orphan_bloat_and_names_reclaim() {
    let mut f = facts();
    f.eviction = over_budget(0, 600);
    let out = status_text(&f);
    assert!(out.contains("would free"), "{out}");
    assert!(out.contains("unreferenced (superseded snapshots)"), "{out}");
    assert!(out.contains("purge --orphans"), "{out}");
}

#[test]
fn status_reports_no_evictor_when_daemon_down() {
    let mut f = facts();
    f.eviction = over_budget(0, 0);
    f.daemon_live = false;
    assert!(status_text(&f).contains("nothing is evicting"));
    f.daemon_live = true;
    assert!(!status_text(&f).contains("nothing is evicting"));
}

#[test]
fn status_orphan_bloat_alone_names_purge_not_eviction() {
    let mut f = facts();
    f.eviction = Eviction::OnDiskOnly {
        size: "1000 B".into(),
        budget: "500 B".into(),
        budgeted: "400 B".into(),
        orphan_bytes: 600,
        orphans: "600 B".into(),
    };
    let out = status_text(&f);
    assert!(!out.contains("would free"), "{out}");
    assert!(out.contains("subject to eviction"), "{out}");
    assert!(out.contains("unreferenced (superseded snapshots)"), "{out}");
    assert!(out.contains("purge --orphans"), "{out}");
}

#[test]
fn status_under_budget_prints_no_notice() {
    let out = status_text(&facts());
    for phrase in ["would free", "subject to eviction", "purge --orphans", "nothing is evicting", "protected (pinned or in-flight"] {
        assert!(!out.contains(phrase), "no over-budget notice expected, found {phrase:?}: {out}");
    }
}

#[test]
fn status_store_line_shows_disk_and_budgeted_bytes_separately() {
    let mut f = facts();
    f.store = "1000 B".into();
    f.budgeted = "400 B".into();
    let out = status_text(&f);
    assert!(out.starts_with("store:      1000 B on disk, 400 B counted toward the budget\n"), "{out}");
}

#[test]
fn status_surfaces_non_utf8_path_skips_as_degraded() {
    let mut f = facts();
    f.non_utf8_path_skips = 3;
    let out = status_text(&f);
    assert!(out.contains("DEGRADED"), "{out}");
    assert!(out.contains("non-UTF8"), "{out}");
    assert!(out.contains("3 file change(s) skipped"), "{out}");
}

#[test]
fn degraded_snapshot_banner_lists_affected_files() {
    let mut f = facts();
    f.snapshot_failures = 2;
    f.io_failed = vec!["src/a.rs".into(), "src/b.rs".into()];
    let out = status_text(&f);
    assert!(out.contains("\nDEGRADED \u{2014} 2 snapshot write(s) failed (likely disk full or permissions); undo on affected files has no snapshot. Run `agentrec status --ack-degraded` to acknowledge.\n  affected files:\n    src/a.rs\n    src/b.rs\n"), "{out}");
}

#[test]
fn status_report_surfaces_state_parse_failures() {
    let mut f = facts();
    f.state_parse_failures = 1;
    f.last_bad_field = Some("signal_offset".into());
    let out = status_text(&f);
    assert!(out.contains("fall back to defaults"), "{out}");
    assert!(out.contains("signal_offset"), "{out}");
    f.last_bad_field = None;
    assert!(status_text(&f).contains("(last: unknown)"));
}

#[test]
fn prompt_write_failures_get_their_own_banner() {
    let mut f = facts();
    f.prompt_put_failures = 4;
    let out = status_text(&f);
    assert!(out.ends_with("\nDEGRADED \u{2014} 4 prompt write(s) failed (likely disk full or permissions); `show --prompt` on affected turns has no full-text prompt (the excerpt is unaffected). Run `agentrec status --ack-degraded` to acknowledge.\n"), "{out}");
}

use agentrec::statuscmd::{status_facts, StatusFigures};

fn figures() -> StatusFigures {
    StatusFigures {
        store_bytes: 0,
        budgeted_bytes: 0,
        budget: 1000,
        signal_bytes: 0,
        signal_offset: 0,
        turns: 0,
        crash_gaps: 0,
        restart_gaps: 0,
        trailing_stop_gaps: 0,
        daemon_live: true,
        epoch_reloads: 0,
        last_reload: String::new(),
        grades: vec![],
        memories_fresh: 0,
        memories_stale: 0,
        memory_rejects: 0,
        injections: 0,
        memory_failures: 0,
        freed_bytes: 0,
        protected_bytes: 0,
        orphan_bytes: 0,
        snapshot_failures: 0,
        io_failed: vec![],
        non_utf8_path_skips: 0,
        prompt_put_failures: 0,
        state_parse_failures: 0,
        last_bad_field: None,
    }
}

fn render(fig: StatusFigures) -> String {
    let f = status_facts(fig, |n| format!("{n} B"), |r, w| format!("{}", r * 100 / w));
    status_text(&f)
}

#[test]
fn status_facts_clamp_the_consumed_share_to_the_inbox() {
    let mut fig = figures();
    fig.signal_bytes = 100;
    fig.signal_offset = 10000;
    let out = render(fig);
    assert!(out.contains("inbox:      100 B signal.jsonl (100 B consumed"), "{out}");
    let mut fig = figures();
    fig.signal_bytes = 4096;
    fig.signal_offset = 3072;
    assert!(render(fig).contains("inbox:      4096 B signal.jsonl (3072 B consumed"));
    let mut fig = figures();
    fig.signal_bytes = 50;
    assert!(render(fig).contains("inbox:      50 B signal.jsonl\n"));
}

#[test]
fn status_facts_choose_the_budget_notice_from_the_sizes() {
    let mut over = figures();
    over.store_bytes = 5000;
    over.budgeted_bytes = 4000;
    over.freed_bytes = 3000;
    let out = render(over);
    assert!(out.contains("store 4000 B counted toward budget, over 1000 B \u{2014} would free 3000 B\n"), "{out}");

    let mut disk = figures();
    disk.store_bytes = 1500;
    disk.budgeted_bytes = 400;
    disk.orphan_bytes = 600;
    let out = render(disk);
    assert!(out.contains("subject to eviction"), "{out}");
    assert!(!out.contains("would free"), "{out}");
    assert!(out.contains("600 B is unreferenced"), "{out}");

    let mut within = figures();
    within.store_bytes = 900;
    within.budgeted_bytes = 900;
    let out = render(within);
    for phrase in ["would free", "subject to eviction", "purge --orphans", "nothing is evicting", "protected (pinned or in-flight"] {
        assert!(!out.contains(phrase), "{phrase:?}: {out}");
    }
}

#[test]
fn status_facts_take_the_rich_rate_window_from_the_turns() {
    let mut fig = figures();
    fig.grades = (0..20).map(|_| (true, true)).chain((0..10).map(|_| (false, false))).collect();
    let out = render(fig);
    assert!(out.contains("rich-rate:  0% over trailing 10 agent turn(s)"), "{out}");
    let mut fig = figures();
    fig.grades = (0..5).map(|_| (true, true)).collect();
    assert!(render(fig).contains("rich-rate:  n/a (no agent turns yet)"));
}
