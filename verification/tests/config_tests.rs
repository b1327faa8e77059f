use agentrec::config::{
    config_from_text, config_values, store_budget_from_text, unknown_keys_in, Config,
    McpDestructive, MAX_STORE_BYTES, load_or_default};

#[test]
fn missing_file_is_all_defaults() {
    assert_eq!(config_from_text("").unwrap(), Config::default());
}

#[test]
fn invalid_toml_is_a_hard_error_naming_a_line() {
    let e = config_from_text("ttl_days = [unclosed").unwrap_err();
    assert!(e.to_string().contains("line"), "error must name a line, got: {}", e.to_string());
}

#[test]
fn mcp_destructive_validation() {
    assert!(matches!(
        config_from_text(r#"mcp_destructive = "confirm""#).unwrap().mcp_destructive,
        McpDestructive::Confirm
    ));
    assert!(matches!(
        config_from_text(r#"mcp_destructive = "auto""#).unwrap().mcp_destructive,
        McpDestructive::Auto
    ));
    assert!(matches!(
        config_from_text(r#"mcp_destructive = "off""#).unwrap().mcp_destructive,
        McpDestructive::Off
    ));
    let e = config_from_text(r#"mcp_destructive = "yes""#).unwrap_err();
    let msg = e.to_string();
    assert!(msg.contains("off") && msg.contains("confirm") && msg.contains("auto"));
}

#[test]
fn unknown_key_warns_but_does_not_error() {
    let cfg = config_from_text("totally_unknown_key = 1\nttl_days = 30\n").unwrap();
    assert_eq!(cfg.ttl_days, 30);
}

#[test]
fn unknown_keys_are_listed() {
    let ks = unknown_keys_in("totally_unknown_key = 1\nttl_days = 30\n").unwrap();
    assert_eq!(ks, vec!["totally_unknown_key".to_string()]);
    assert!(unknown_keys_in("x = [").is_err());
}

#[test]
fn per_key_defaults_are_all_documented() {
    let cfg = Config::default();
    assert_eq!(cfg.ttl_days, 90);
    assert_eq!(cfg.store_budget_bytes, MAX_STORE_BYTES);
    assert_eq!(cfg.noise_globs, Vec::<String>::new());
    assert!(cfg.memory_enabled);
    assert_eq!(cfg.memory_inject_max, 5);
    assert_eq!(cfg.mcp_destructive, McpDestructive::Off);
    assert!(cfg.attest_stale);
    assert_eq!(cfg.attest_coverage_path, None);
}

#[test]
fn attest_keys_are_read_and_degrade_per_key() {
    let cfg = config_from_text("attest_stale = false\nattest_coverage_path = \"cov.json\"\n").unwrap();
    assert!(!cfg.attest_stale);
    assert_eq!(cfg.attest_coverage_path, Some("cov.json".to_string()));
    let cfg = config_from_text("attest_stale = 1\nattest_coverage_path = 7\n").unwrap();
    assert!(cfg.attest_stale);
    assert_eq!(cfg.attest_coverage_path, None);
}

#[test]
fn value_level_bad_values_default_per_key_not_hard_error() {
    let cfg = config_from_text("store_budget_bytes = \"lots\"\n").unwrap();
    assert_eq!(cfg.store_budget_bytes, MAX_STORE_BYTES);
    let cfg = config_from_text("store_budget_bytes = 0\n").unwrap();
    assert_eq!(cfg.store_budget_bytes, MAX_STORE_BYTES);
}

#[test]
fn noise_globs_non_string_elements_are_dropped_not_fatal() {
    let cfg = config_from_text(r#"noise_globs = ["ok", 42]"#).unwrap();
    assert_eq!(cfg.noise_globs, vec!["ok".to_string()]);
}

#[test]
fn noise_globs_wrong_shape_value_degrades_to_empty_not_fatal() {
    let cfg = config_from_text(r#"noise_globs = "nope""#).unwrap();
    assert_eq!(cfg.noise_globs, Vec::<String>::new());
}

#[test]
fn negative_ttl_falls_back_to_default() {
    assert_eq!(config_from_text("ttl_days = -3\n").unwrap().ttl_days, 90);
}

#[test]
fn config_values_reads_matching_lines() {
    let text = "# c\nstore_budget_bytes = 10\nother = 1\nstore_budget_bytes=20\n";
    assert_eq!(config_values(text, "store_budget_bytes"), vec!["10".to_string(), "20".to_string()]);
}

#[test]
fn store_budget_from_text_defaults_and_reads() {
    assert_eq!(store_budget_from_text(None), MAX_STORE_BYTES);
    assert_eq!(store_budget_from_text(Some("store_budget_bytes = 4096\n")), 4096);
}

#[test]
fn load_or_default_defaults_every_key_on_file_level_parse_error() {
    let cfg = load_or_default(Some("ttl_days = 30\nstore_budget_bytes = [unclosed"));
    assert_eq!(cfg, Config::default());
}

#[test]
fn load_or_default_reads_a_good_file_and_defaults_an_unreadable_one() {
    assert_eq!(load_or_default(Some("ttl_days = 30\n")).ttl_days, 30);
    assert_eq!(load_or_default(None), Config::default());
    assert_eq!(load_or_default(Some("mcp_destructive = \"yes\"\n")), Config::default());
}
