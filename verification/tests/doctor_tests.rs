use agentrec::doctorcmd::{
    probe_answer,
    check_codex_hook_flags, check_codex_hooks, check_daemon, check_degraded, check_hooks,
    check_inotify, check_initialized, check_mcp_registration, check_mcp_server,
    check_orphan_services, check_permissions, check_signal_freshness, check_state_parse,
    diagnose_with, max_user_watches_from, runs_other_checks, Check, CheckStatus, MissingExec,
    VanishedRoot, WatchEstimate,
};
use agentrec::initcmd::McpRegState;
use agentrec::doc::Doc;
use agentrec::doctorcmd::codex_signal_ever_seen;

fn names(r: &agentrec::doctorcmd::Report) -> Vec<String> {
    r.checks.iter().map(|c| c.name.clone()).collect()
}

const ALL: [&str; 13] = [
    "initialized",
    "daemon liveness",
    "hook presence",
    "signal freshness",
    "store health",
    "state parse",
    "store permissions",
    "inotify headroom",
    "orphaned services",
    "codex hooks",
    "codex hook flags",
    "mcp registration",
    "mcp server",
];

#[test]
fn uninitialized_report_has_the_same_check_set_as_an_initialized_one() {
    let init = check_initialized(false);
    assert!(!runs_other_checks(&init));
    let un = diagnose_with(init, Vec::new());
    assert!(!un.ok);
    assert_eq!(names(&un), ALL.iter().map(|s| s.to_string()).collect::<Vec<_>>());
    assert!(un.checks[1..].iter().all(|c| c.status == CheckStatus::Na && c.remedy.is_none()));
    assert_eq!(un.checks[0].remedy.as_deref(), Some("not initialized — run `agentrec init`"));

    let init = check_initialized(true);
    assert!(runs_other_checks(&init));
    let rest: Vec<Check> = ALL[1..].iter().map(|n| Check::pass(n)).collect();
    let full = diagnose_with(init, rest);
    assert!(full.ok);
    assert_eq!(names(&full), names(&un));
}

#[test]
fn an_advisory_never_fails_the_report_but_a_failure_does() {
    let rest = vec![
        Check::advisory("state parse", "note".to_string()),
        Check::na("inotify headroom"),
    ];
    assert!(diagnose_with(check_initialized(true), rest).ok);
    let rest = vec![check_daemon(false)];
    assert!(!diagnose_with(check_initialized(true), rest).ok);
}

#[test]
fn daemon_and_hooks_checks() {
    assert_eq!(check_daemon(true).status, CheckStatus::Pass);
    let d = check_daemon(false);
    assert_eq!(d.status, CheckStatus::Fail);
    assert_eq!(
        d.remedy.as_deref(),
        Some("recorder not running — run `agentrec record` (or install the service via `agentrec init`)")
    );
    assert_eq!(check_hooks(None).remedy.as_deref(), Some("hooks missing/mangled — run `agentrec init`"));
    let hook = |cmd: &str| {
        Doc::Array(vec![Doc::Object(vec![(
            "hooks".to_string(),
            Doc::Array(vec![Doc::Object(vec![
                ("type".to_string(), Doc::Str("command".to_string())),
                ("command".to_string(), Doc::Str(cmd.to_string())),
            ])]),
        )])])
    };
    let both = Doc::Object(vec![(
        "hooks".to_string(),
        Doc::Object(vec![
            ("UserPromptSubmit".to_string(), hook("agentrec hook x")),
            ("Stop".to_string(), hook("agentrec hook x")),
        ]),
    )]);
    assert_eq!(check_hooks(Some(&both)).status, CheckStatus::Pass);
    let one = Doc::Object(vec![(
        "hooks".to_string(),
        Doc::Object(vec![("Stop".to_string(), hook("agentrec hook x"))]),
    )]);
    assert_eq!(check_hooks(Some(&one)).status, CheckStatus::Fail);
}

#[test]
fn signal_freshness_matrix() {
    let recent = Some(Some(60_000_000_000u128));
    let old = Some(Some(3_600_000_000_000u128));
    assert_eq!(check_signal_freshness(None, None).status, CheckStatus::Pass);
    assert_eq!(check_signal_freshness(old, None).status, CheckStatus::Pass);
    assert_eq!(check_signal_freshness(recent, recent).status, CheckStatus::Pass);
    assert_eq!(check_signal_freshness(recent, None).status, CheckStatus::Fail);
    assert_eq!(check_signal_freshness(recent, old).status, CheckStatus::Fail);
    assert_eq!(check_signal_freshness(Some(None), Some(None)).status, CheckStatus::Pass);
}

#[test]
fn check_degraded_uses_store_health_as_its_name() {
    assert_eq!(check_degraded(0, 0, 0).name, "store health");
    assert_eq!(check_degraded(0, 0, 0).status, CheckStatus::Pass);
}

#[test]
fn degraded_state_names_every_nonzero_counter() {
    let c = check_degraded(3, 0, 2);
    assert_eq!(c.status, CheckStatus::Fail);
    assert_eq!(
        c.remedy.as_deref(),
        Some("store DEGRADED — 3 snapshot writes failed, 2 non-UTF8 paths skipped; investigate disk/permissions, then `agentrec status --ack-degraded`")
    );
    let c = check_degraded(0, 1, 0);
    assert_eq!(
        c.remedy.as_deref(),
        Some("store DEGRADED — 1 prompt writes failed; investigate disk/permissions, then `agentrec status --ack-degraded`")
    );
}

#[test]
fn state_parse_is_advisory_only() {
    assert_eq!(check_state_parse(0, "/r/.agentrec/state.json", None).remedy, None);
    let c = check_state_parse(2, "/r/.agentrec/state.json", Some("pid"));
    assert_eq!(c.status, CheckStatus::Pass);
    assert_eq!(
        c.remedy.as_deref(),
        Some("2 field(s) in /r/.agentrec/state.json fell back to defaults (last: pid) — advisory only, self-heals on the next write; investigate if this recurs")
    );
    let c = check_state_parse(1, "s", None);
    assert!(c.remedy.unwrap().contains("(last: unknown)"));
}

#[test]
fn permissions_check_reads_only_the_permission_bits() {
    assert_eq!(check_permissions(Some(0o40700), Some(0o100600), None).status, CheckStatus::Pass);
    assert_eq!(check_permissions(Some(0o700), None, Some(0o644)).status, CheckStatus::Fail);
    assert_eq!(check_permissions(None, None, None).status, CheckStatus::Fail);
    assert_eq!(check_permissions(Some(0o755), None, None).status, CheckStatus::Fail);
}

#[test]
fn no_orphans_is_a_silent_pass() {
    let c = check_orphan_services(&Vec::new(), &Vec::new());
    assert_eq!(c.status, CheckStatus::Pass);
    assert_eq!(c.remedy, None);
}

#[test]
fn orphaned_unit_is_advisory_not_fail() {
    let v = vec![
        VanishedRoot { label: "com.a".into(), root: "/gone".into(), remove_command: "rm x".into() },
        VanishedRoot { label: "com.b".into(), root: "/gone2".into(), remove_command: "rm y".into() },
    ];
    let m = vec![MissingExec { label: "com.c".into(), binary: "/old/agentrec".into() }];
    let c = check_orphan_services(&v, &m);
    assert_eq!(c.status, CheckStatus::Pass);
    let note = c.remedy.unwrap();
    assert!(note.starts_with("2 installed service units record a --root that is not present (e.g. com.a -> /gone)"));
    assert!(note.contains("remove each with: rm x 1 installed service unit record an agentrec binary that is not present (e.g. com.c -> /old/agentrec)"));
}

#[test]
fn codex_checks_are_na_when_never_installed() {
    assert_eq!(check_codex_hooks(false, Ok(()), false).status, CheckStatus::Na);
    assert_eq!(check_codex_hook_flags(false, "/r/.codex/config.toml", None).status, CheckStatus::Na);
}

#[test]
fn codex_hooks_check_fails_on_mangled_entries_and_advises_when_untrusted() {
    let c = check_codex_hooks(true, Err("Stop missing".to_string()), true);
    assert_eq!(c.status, CheckStatus::Fail);
    assert_eq!(c.remedy.as_deref(), Some("Codex hook entries missing/mangled (Stop missing) — run `agentrec init --codex`"));
    let c = check_codex_hooks(true, Ok(()), false);
    assert_eq!(c.status, CheckStatus::Pass);
    assert!(c.remedy.unwrap().starts_with("Codex hooks are installed but no tool:\"codex\" line"));
    assert_eq!(check_codex_hooks(true, Ok(()), true).remedy, None);
}

#[test]
fn codex_hook_flags_fails_when_hooks_feature_off() {
    let c = check_codex_hook_flags(true, "p", Some("[features]\nhooks = false\n"));
    assert_eq!(c.status, CheckStatus::Fail);
    assert!(c.remedy.unwrap().starts_with("[features] hooks = false disables ALL Codex hooks"));
}

#[test]
fn codex_hook_flags_fails_when_managed_hooks_only() {
    let c = check_codex_hook_flags(true, "p", Some("allow_managed_hooks_only = true\n"));
    assert_eq!(c.status, CheckStatus::Fail);
    assert!(c.remedy.unwrap().starts_with("allow_managed_hooks_only = true is declared"));
}

#[test]
fn codex_hook_flags_reports_both_reasons_when_both_present() {
    let c = check_codex_hook_flags(
        true,
        "p",
        Some("allow_managed_hooks_only = true\n[features]\nhooks = false\n"),
    );
    let r = c.remedy.unwrap();
    assert!(r.starts_with("[features] hooks = false"));
    assert!(r.contains("; allow_managed_hooks_only = true"));
}

#[test]
fn codex_hook_flags_defensive_codex_hooks_alias_also_fails() {
    let c = check_codex_hook_flags(true, "p", Some("[features]\ncodex_hooks = false\n"));
    assert!(c.remedy.unwrap().starts_with("[features] codex_hooks = false"));
}

#[test]
fn codex_hook_flags_pass_without_config_and_fail_on_invalid_toml() {
    assert_eq!(check_codex_hook_flags(true, "p", None).status, CheckStatus::Pass);
    assert_eq!(check_codex_hook_flags(true, "p", Some("[features]\nhooks = true\n")).status, CheckStatus::Pass);
    let c = check_codex_hook_flags(true, "/r/.codex/config.toml", Some("[features"));
    assert_eq!(c.remedy.as_deref(), Some("/r/.codex/config.toml is not valid TOML"));
}

#[test]
fn inotify_headroom_and_limit_parsing() {
    assert_eq!(max_user_watches_from(Some(" 524288\n")), 524288);
    assert_eq!(max_user_watches_from(Some("junk")), 8192);
    assert_eq!(max_user_watches_from(None), 8192);
    assert_eq!(check_inotify(10, 10).status, CheckStatus::Pass);
    assert_eq!(
        check_inotify(11, 10).remedy.as_deref(),
        Some("inotify headroom too low (at least 11 dirs to watch vs 10 max_user_watches) — raise it: sudo sysctl fs.inotify.max_user_watches=524288")
    );
}

#[test]
fn estimate_watch_count_stops_above_limit() {
    let mut e = WatchEstimate::new(2);
    assert_eq!(e.limit, 3);
    assert!(!e.observe(true));
    assert!(!e.observe(false));
    assert!(!e.observe(true));
    assert!(e.observe(true));
    assert_eq!(e.count, 3);
    assert_eq!(WatchEstimate::new(u64::MAX).limit, 2_000_000);
}

#[test]
fn mcp_registration_notes() {
    let c = check_mcp_registration("/r/.mcp.json", Ok(McpRegState::Ours), "/r/.codex/config.toml", Ok(McpRegState::Absent), false);
    assert_eq!(c.remedy, None, "codex not opted in: nothing to say");
    let c = check_mcp_registration("/r/.mcp.json", Ok(McpRegState::Absent), "/r/.codex/config.toml", Ok(McpRegState::Absent), true);
    assert_eq!(
        c.remedy.as_deref(),
        Some("the agentrec MCP server is not registered in /r/.mcp.json — run `agentrec init` to add it; Codex hooks are installed but /r/.codex/config.toml declares no [mcp_servers.agentrec] — run `agentrec init --codex`")
    );
    let c = check_mcp_registration("/r/.mcp.json", Ok(McpRegState::Foreign), "c", Err("bad toml".to_string()), false);
    assert_eq!(c.status, CheckStatus::Pass);
    assert!(c.remedy.unwrap().ends_with("that is not `agentrec mcp` — left untouched by init and uninstall"));
}

#[test]
fn mcp_server_probe_outcomes() {
    assert_eq!(check_mcp_server(Ok(true), Some(Ok(()))).remedy, None);
    assert!(check_mcp_server(Ok(false), None).remedy.unwrap().starts_with("probe skipped"));
    assert_eq!(
        check_mcp_server(Err("gone".into()), None).remedy.as_deref(),
        Some("cannot resolve agentrec's own binary (gone)")
    );
    assert!(check_mcp_server(Ok(true), Some(Err("timeout".into()))).remedy.unwrap().starts_with("`agentrec mcp` did not answer `initialize` (timeout)"));
}

#[test]
fn codex_signal_ever_seen_detects_a_codex_tool_line() {
    let line = |tool: &str| Doc::Object(vec![("tool".to_string(), Doc::Str(tool.to_string()))]);
    assert!(!codex_signal_ever_seen(&vec![line("other"), Doc::Null]));
    assert!(codex_signal_ever_seen(&vec![line("other"), line("codex")]));
    assert!(!codex_signal_ever_seen(&Vec::new()));
    assert!(!agentrec::doctorcmd::codex_signal_seen_in(""));
    let text = "{\"v\":1,\"ts\":0,\"tool\":\"other\",\"event\":\"start\"}\n\
                {\"v\":1,\"ts\":0,\"tool\":\"codex\",\"event\":\"start\"}\n";
    assert!(agentrec::doctorcmd::codex_signal_seen_in(text));
}

#[test]
fn probe_answer_requires_a_protocol_version_in_the_result() {
    let ok = Doc::Object(vec![(
        "result".to_string(),
        Doc::Object(vec![("protocolVersion".to_string(), Doc::Str("2025-06-18".to_string()))]),
    )]);
    assert_eq!(probe_answer("{...}", Ok(&ok)), Ok(()));
    let err = Doc::Object(vec![("error".to_string(), Doc::Str("nope".to_string()))]);
    assert_eq!(
        probe_answer("  {\"error\":\"nope\"}\n", Ok(&err)),
        Err("unexpected first frame: {\"error\":\"nope\"}".to_string())
    );
    assert_eq!(
        probe_answer("garbage", Err("expected value at line 1 column 1")),
        Err("response was not JSON (expected value at line 1 column 1)".to_string())
    );
}
