use agentrec::initcmd::{
    gitignore_update,
    codex_config_toml_path, codex_hooks_json_path, codex_hooks_target, codex_refuse_line,
    codex_target_label, distinct_prefixes, mcp_entry_is_ours, mcp_foreign_line, mcp_json_path,
    service_decision, temp_prefix_candidates, temp_skip_line, CodexHooksTarget, ServiceDecision,
};

fn static_prefixes() -> Vec<String> {
    distinct_prefixes(temp_prefix_candidates(None))
}

#[test]
fn service_decision_installs_for_an_ordinary_root() {
    let prefixes = static_prefixes();
    for raw in ["/usr", "/definitely-not-a-temp-dir/repo"] {
        assert_eq!(
            service_decision(raw, false, false, &prefixes),
            ServiceDecision::Install,
            "{raw} is not a temp path and must still install"
        );
    }
}

#[test]
fn service_decision_matrix() {
    let prefixes = static_prefixes();
    let temp_root = "/tmp/.tmpXYZ";
    let ordinary = "/usr";
    assert_eq!(service_decision(temp_root, true, false, &prefixes), ServiceDecision::SkipFlag);
    assert_eq!(service_decision(ordinary, true, false, &prefixes), ServiceDecision::SkipFlag);
    assert_eq!(service_decision(temp_root, false, true, &prefixes), ServiceDecision::Install);
    assert_eq!(service_decision(ordinary, false, false, &prefixes), ServiceDecision::Install);
    assert_eq!(
        service_decision(temp_root, false, false, &prefixes),
        ServiceDecision::SkipTemp("/tmp".to_string())
    );
}

#[test]
fn macos_per_user_temp_is_recognized_without_reading_tmpdir() {
    let prefixes = static_prefixes();
    assert!(prefixes.contains(&"/var/folders".to_string()));
    assert!(matches!(
        service_decision("/var/folders/m5/somethinglong/T/.tmpABCDEF", false, false, &prefixes),
        ServiceDecision::SkipTemp(_)
    ));
}

#[test]
fn temp_prefixes_cover_tmp_as_well_as_tmpdir() {
    let prefixes = distinct_prefixes(temp_prefix_candidates(Some("/scratch/me")));
    assert_eq!(prefixes, vec!["/scratch/me", "/tmp", "/private/tmp", "/var/folders"]);
    let empty = temp_prefix_candidates(Some(""));
    assert_eq!(empty, vec!["/tmp", "/private/tmp", "/var/folders"]);
}

#[test]
fn distinct_prefixes_drops_lexically_equal_repeats() {
    let v = distinct_prefixes(vec!["/tmp/".to_string(), "/tmp".to_string(), "/var".to_string()]);
    assert_eq!(v, vec!["/tmp/".to_string(), "/var".to_string()]);
}

#[test]
fn prefix_match_is_by_component_not_by_text() {
    let prefixes = static_prefixes();
    assert_eq!(service_decision("/tmpfoo/repo", false, false, &prefixes), ServiceDecision::Install);
}

#[test]
fn temp_skip_line_names_prefix_and_override() {
    assert_eq!(
        temp_skip_line("/tmp"),
        "skipped service install: root is under a temporary directory (/tmp) — a service installed here outlives the directory; pass --service to install anyway"
    );
}

#[test]
fn codex_paths_are_under_dot_codex() {
    assert_eq!(codex_hooks_json_path("/r"), "/r/.codex/hooks.json");
    assert_eq!(codex_config_toml_path("/r"), "/r/.codex/config.toml");
    assert_eq!(mcp_json_path("/r"), "/r/.mcp.json");
}

#[test]
fn codex_target_decision_table() {
    let p = "/r/.codex/config.toml";
    assert_eq!(codex_hooks_target(false, p, Ok(None)), Ok(CodexHooksTarget::HooksJson));
    assert_eq!(codex_hooks_target(true, p, Ok(None)), Ok(CodexHooksTarget::HooksJson));
    assert_eq!(codex_hooks_target(false, p, Ok(Some("[hooks]\n"))), Ok(CodexHooksTarget::ConfigToml));
    assert_eq!(codex_hooks_target(true, p, Ok(Some("[hooks]\n"))), Ok(CodexHooksTarget::Refuse));
    assert_eq!(codex_hooks_target(false, p, Ok(Some("model = \"x\"\n"))), Ok(CodexHooksTarget::HooksJson));
}

#[test]
fn codex_target_refuses_unreadable_or_invalid_config() {
    let p = "/r/.codex/config.toml";
    let e = codex_hooks_target(false, p, Err("permission denied".to_string())).unwrap_err();
    assert_eq!(e, "cannot read /r/.codex/config.toml (permission denied); not touching Codex hook config");
    let e = codex_hooks_target(false, p, Ok(Some("[hooks"))).unwrap_err();
    assert!(e.starts_with("existing /r/.codex/config.toml is not valid TOML ("));
    assert!(e.ends_with("); not touching Codex hook config"));
}

#[test]
fn codex_refuse_line_names_both_files() {
    let line = codex_refuse_line("/r");
    assert!(line.starts_with("skipped Codex hook install: both /r/.codex/hooks.json and an inline [hooks] table in /r/.codex/config.toml exist"));
}

#[test]
fn codex_target_label_is_the_target_file() {
    assert_eq!(codex_target_label(CodexHooksTarget::HooksJson, "/r"), "/r/.codex/hooks.json");
    assert_eq!(codex_target_label(CodexHooksTarget::ConfigToml, "/r"), "/r/.codex/config.toml");
}

#[test]
fn foreign_entry_under_our_key_is_not_ours() {
    let mcp = vec!["mcp".to_string()];
    assert!(mcp_entry_is_ours(Some("agentrec"), &mcp));
    assert!(mcp_entry_is_ours(Some("/usr/local/bin/agentrec"), &mcp));
    assert!(mcp_entry_is_ours(Some("agentrec.exe"), &mcp));
    assert!(!mcp_entry_is_ours(Some("node"), &mcp));
    assert!(!mcp_entry_is_ours(Some("agentrec"), &vec!["serve".to_string()]));
    assert!(!mcp_entry_is_ours(None, &mcp));
    assert!(!mcp_entry_is_ours(Some("agentrec.tar.gz"), &mcp));
    assert!(!mcp_entry_is_ours(Some("/x/agentrec/.."), &mcp));
}

#[test]
fn mcp_foreign_line_is_pinned() {
    assert_eq!(
        mcp_foreign_line("/r/.mcp.json"),
        "skipped MCP registration: /r/.mcp.json already declares a server named \"agentrec\" that is not agentrec's own (`agentrec mcp`) — left untouched; rename or remove it, then re-run `agentrec init`"
    );
}

#[test]
fn mcp_registration_alone_does_not_change_the_codex_hook_target() {
    let p = "/repo/.codex/config.toml";
    assert_eq!(codex_hooks_target(false, p, Ok(None)), Ok(CodexHooksTarget::HooksJson));
    // What registering the MCP server alone writes to a fresh config.toml.
    let registered = "[mcp_servers.agentrec]\ncommand = \"agentrec\"\nargs = [\"mcp\"]\n";
    assert_eq!(
        codex_hooks_target(false, p, Ok(Some(registered))),
        Ok(CodexHooksTarget::HooksJson),
        "an [mcp_servers]-only config.toml is not a hook representation"
    );
}

#[test]
fn gitignore_update_appends_the_store_once() {
    assert_eq!(gitignore_update("").as_deref(), Some(".agentrec/\n"));
    assert_eq!(gitignore_update("target/").as_deref(), Some("target/\n.agentrec/\n"));
    assert_eq!(gitignore_update("target/\n").as_deref(), Some("target/\n.agentrec/\n"));
    assert_eq!(gitignore_update("target/\n  .agentrec  \n"), None);
    assert_eq!(gitignore_update(".agentrec/\r\nnode_modules\n"), None);
    assert_eq!(gitignore_update("# .agentrec/\n").as_deref(), Some("# .agentrec/\n.agentrec/\n"));
}
