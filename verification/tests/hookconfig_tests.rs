use agentrec::doc::Doc;
use agentrec::initcmd::{
    codex_hook_entry, codex_hooks_installed, codex_hooks_shape, codex_hooks_shape_json,
    codex_mcp_state, event_has_marker, event_has_marker_with, mcp_doc_entry_is_ours,
    mcp_json_state, merge_codex_hooks_json, merge_codex_hooks_toml, merge_hook, plan_codex_mcp,
    plan_mcp_json, toml_event_has_marker, McpPlan, McpRegState, CODEX_HOOK_MARKER,
};

fn s(v: &str) -> Doc {
    Doc::Str(v.to_string())
}

fn obj(entries: Vec<(&str, Doc)>) -> Doc {
    Doc::Object(entries.into_iter().map(|(k, v)| (k.to_string(), v)).collect())
}

fn field<'a>(d: &'a Doc, k: &str) -> Option<&'a Doc> {
    match d {
        Doc::Object(es) => es.iter().find(|(key, _)| key == k).map(|(_, v)| v),
        _ => None,
    }
}

fn len_of(d: Option<&Doc>) -> usize {
    match d {
        Some(Doc::Array(a)) => a.len(),
        _ => usize::MAX,
    }
}

const CMD: &str = "agentrec hook test-agent";

#[test]
fn merge_is_idempotent_and_preserves_unrelated_hooks() {
    let other = obj(vec![(
        "hooks",
        Doc::Array(vec![obj(vec![("type", s("command")), ("command", s("echo hi"))])]),
    )]);
    let settings = obj(vec![
        ("theme", s("dark")),
        ("hooks", obj(vec![("Notification", Doc::Array(vec![other]))])),
    ]);
    let (once, changed) = merge_hook(settings, "Stop", None, CMD).unwrap();
    assert!(changed);
    assert!(event_has_marker(&once, "Stop"));
    assert!(!event_has_marker(&once, "Notification"));
    let hooks = field(&once, "hooks").unwrap();
    assert_eq!(len_of(field(hooks, "Notification")), 1, "unrelated hooks survive");
    assert_eq!(len_of(field(hooks, "Stop")), 1);
    assert!(matches!(field(&once, "theme"), Some(Doc::Str(t)) if t == "dark"));
    let (twice, changed_again) = merge_hook(once, "Stop", None, CMD).unwrap();
    assert!(!changed_again, "second merge must be a no-op");
    assert_eq!(len_of(field(field(&twice, "hooks").unwrap(), "Stop")), 1);
}

#[test]
fn merge_puts_the_matcher_beside_the_inner_hooks() {
    let (d, _) = merge_hook(obj(vec![]), "PostToolUse", Some("Bash"), CMD).unwrap();
    let entries = field(field(&d, "hooks").unwrap(), "PostToolUse").unwrap();
    match entries {
        Doc::Array(a) => {
            assert!(matches!(field(&a[0], "matcher"), Some(Doc::Str(m)) if m == "Bash"));
            assert_eq!(len_of(field(&a[0], "hooks")), 1);
        }
        _ => panic!("expected an array"),
    }
}

#[test]
fn merge_rejects_wrong_shapes() {
    match merge_hook(Doc::Array(vec![]), "Stop", None, CMD) {
        Err(e) => assert_eq!(e, "settings.local.json is not a JSON object"),
        Ok(_) => panic!("must refuse"),
    }
    match merge_hook(obj(vec![("hooks", s("x"))]), "Stop", None, CMD) {
        Err(e) => assert_eq!(e, "settings \"hooks\" is not a JSON object"),
        Ok(_) => panic!("must refuse"),
    }
    match merge_hook(obj(vec![("hooks", obj(vec![("Stop", obj(vec![]))]))]), "Stop", None, CMD) {
        Err(e) => assert_eq!(e, "settings \"hooks.Stop\" is not a JSON array"),
        Ok(_) => panic!("must refuse"),
    }
}

#[test]
fn codex_hook_json_entry_is_pinned() {
    let e = codex_hook_entry(Some("apply_patch"));
    assert!(matches!(field(&e, "matcher"), Some(Doc::Str(m)) if m == "apply_patch"));
    match field(&e, "hooks") {
        Some(Doc::Array(hs)) => {
            assert_eq!(hs.len(), 1);
            assert!(matches!(field(&hs[0], "type"), Some(Doc::Str(t)) if t == "command"));
            assert!(matches!(field(&hs[0], "command"), Some(Doc::Str(c)) if c == "agentrec hook codex"));
            assert!(matches!(field(&hs[0], "timeout"), Some(Doc::Number(n)) if n == "10"));
        }
        _ => panic!("expected the inner hooks array"),
    }
    assert!(field(&codex_hook_entry(None), "matcher").is_none());
}

#[test]
fn codex_install_none_creates_hooks_json_with_all_three_events() {
    let (d, changed) = merge_codex_hooks_json(obj(vec![])).unwrap();
    assert!(changed);
    for ev in ["UserPromptSubmit", "PostToolUse", "Stop"] {
        assert!(event_has_marker_with(&d, ev, CODEX_HOOK_MARKER), "{ev}");
    }
    assert!(codex_hooks_shape_json(&d).is_ok());
    assert!(codex_hooks_installed(Some(&d), None));
    let (_, again) = merge_codex_hooks_json(d).unwrap();
    assert!(!again, "reinstall adds nothing");
}

#[test]
fn codex_install_config_toml_merges_inline_hooks_table() {
    let doc = vec![("model".to_string(), s("o4"))];
    let (out, changed) = merge_codex_hooks_toml(doc, "/r/.codex/config.toml").unwrap();
    assert!(changed);
    assert_eq!(out.len(), 2);
    let table = Doc::Object(out);
    let hooks = field(&table, "hooks").unwrap();
    for ev in ["UserPromptSubmit", "PostToolUse", "Stop"] {
        assert!(toml_event_has_marker(hooks, ev, CODEX_HOOK_MARKER), "{ev}");
    }
    assert!(codex_hooks_installed(None, Some(&table)));
    assert!(codex_hooks_shape(None, Some(&table)).is_ok());
    let out = match table {
        Doc::Object(es) => es,
        _ => unreachable!(),
    };
    let (_, again) = merge_codex_hooks_toml(out, "/r/.codex/config.toml").unwrap();
    assert!(!again);
}

#[test]
fn codex_toml_merge_refuses_a_non_table_hooks() {
    let doc = vec![("hooks".to_string(), s("x"))];
    match merge_codex_hooks_toml(doc, "/r/c.toml") {
        Err(e) => assert_eq!(e, "/r/c.toml \"hooks\" is not a TOML table"),
        Ok(_) => panic!("must refuse"),
    }
}

#[test]
fn codex_hooks_shape_check_names_what_is_missing() {
    let (d, _) = merge_codex_hooks_json(obj(vec![])).unwrap();
    let mut d = d;
    if let Doc::Object(es) = &mut d {
        if let Doc::Object(h) = &mut es[0].1 {
            h.retain(|(k, _)| k != "Stop");
        }
    }
    assert_eq!(codex_hooks_shape_json(&d).unwrap_err(), "Stop entry missing from hooks.json");
    assert_eq!(
        codex_hooks_shape(None, None).unwrap_err(),
        "no Codex hook config found (neither hooks.json nor config.toml [hooks])"
    );
}

#[test]
fn foreign_mcp_entry_is_not_ours_and_our_entry_is() {
    let ours = obj(vec![("command", s("agentrec")), ("args", Doc::Array(vec![s("mcp")]))]);
    assert!(mcp_doc_entry_is_ours(&ours));
    let foreign = obj(vec![("command", s("node")), ("args", Doc::Array(vec![s("server.js")]))]);
    assert!(!mcp_doc_entry_is_ours(&foreign));
}

#[test]
fn install_mcp_json_writes_entry_and_is_idempotent() {
    let plan = plan_mcp_json("/r/.mcp.json", Ok(None)).unwrap();
    let written = match plan {
        McpPlan::Write(d) => d,
        _ => panic!("must write"),
    };
    assert_eq!(mcp_json_state("/r/.mcp.json", &Ok(Some(Ok(written)))).unwrap(), McpRegState::Ours);
}

#[test]
fn install_mcp_json_preserves_foreign_servers_and_refuses_our_key_taken() {
    let other = obj(vec![("command", s("node"))]);
    let doc = obj(vec![("mcpServers", obj(vec![("other", other)]))]);
    match plan_mcp_json("/r/.mcp.json", Ok(Some(Ok(doc)))).unwrap() {
        McpPlan::Write(d) => {
            let servers = field(&d, "mcpServers").unwrap();
            assert!(field(servers, "other").is_some());
            assert!(field(servers, "agentrec").is_some());
        }
        _ => panic!("must write"),
    }
    let taken = obj(vec![("mcpServers", obj(vec![("agentrec", obj(vec![("command", s("node"))]))]))]);
    assert!(matches!(plan_mcp_json("/r/.mcp.json", Ok(Some(Ok(taken)))).unwrap(), McpPlan::Foreign));
}

#[test]
fn mcp_state_errors_name_the_file() {
    assert_eq!(
        mcp_json_state("/r/.mcp.json", &Err("denied".to_string())).unwrap_err(),
        "cannot read existing /r/.mcp.json (denied); not touching it"
    );
    assert_eq!(
        codex_mcp_state("/r/c.toml", &Ok(Some(Err("bad".to_string())))).unwrap_err(),
        "existing /r/c.toml is not valid TOML (bad); not touching it"
    );
}

#[test]
fn install_codex_mcp_writes_table() {
    match plan_codex_mcp("/r/c.toml", Ok(Some(Ok(obj(vec![("model", s("x"))]))))).unwrap() {
        McpPlan::Write(d) => {
            assert!(field(field(&d, "mcp_servers").unwrap(), "agentrec").is_some());
            assert!(field(&d, "model").is_some());
            assert_eq!(codex_mcp_state("/r/c.toml", &Ok(Some(Ok(d)))).unwrap(), McpRegState::Ours);
        }
        _ => panic!("must write"),
    }
}

#[test]
fn codex_hook_toml_entry_is_pinned() {
    // The same entry is written into `.codex/config.toml`'s `[hooks]` table:
    // the timeout is a TOML integer, the rest strings.
    for (matcher, want_matcher) in [(None, false), (Some("apply_patch"), true)] {
        let e = codex_hook_entry(matcher);
        assert_eq!(field(&e, "matcher").is_some(), want_matcher);
        match field(&e, "hooks") {
            Some(Doc::Array(hs)) => {
                assert_eq!(hs.len(), 1);
                assert!(matches!(field(&hs[0], "type"), Some(Doc::Str(t)) if t == "command"));
                assert!(
                    matches!(field(&hs[0], "command"), Some(Doc::Str(c)) if c == "agentrec hook codex")
                );
                assert!(matches!(field(&hs[0], "timeout"), Some(Doc::Number(n)) if n == "10"));
            }
            _ => panic!("expected the inner hooks array"),
        }
    }
}

#[test]
fn a_second_install_over_every_event_changes_nothing() {
    let events: [(&str, Option<&str>); 3] = [("UserPromptSubmit", None), ("Stop", None), ("PostToolUse", Some("Bash"))];
    let mut d = obj(vec![("theme", s("dark"))]);
    for (e, m) in events {
        let (next, changed) = merge_hook(d, e, m, CMD).unwrap();
        assert!(changed);
        d = next;
    }
    let before = format!("{d:?}");
    for (e, m) in events {
        let (next, changed) = merge_hook(d, e, m, CMD).unwrap();
        assert!(!changed);
        d = next;
    }
    assert_eq!(format!("{d:?}"), before);
    assert_eq!(len_of(field(field(&d, "hooks").unwrap(), "Stop")), 1);
}
