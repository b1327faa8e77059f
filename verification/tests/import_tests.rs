use agentrec::doc::Doc;
use agentrec::importcmd::{
    blob_verdict, bytes_contain, bytes_count, bytes_find, entry_rung, is_safe_path_component,
    mark_edit, normalize_backup_key, record_backup, strip_hash_prefix, BlobVerdict, DebugSink,
    Rung, TierCounts, classify_entry, expected_old_start_line, t2_gate, T2Counters, T2Gate,
    after_text, replace_text, persist_entry_rung, T15Counters,
};
use agentrec::paths::lexical_normalize;
use agentrec::strmap::StrMap;

#[test]
fn lexical_normalize_collapses_parent_dir_components() {
    assert_eq!(lexical_normalize("/Users/x/../y"), "/Users/y");
    assert_eq!(lexical_normalize("/a/b/../../c"), "/c");
    assert_eq!(
        lexical_normalize("/home/dev/Projects/beta/../beta/src/composer.ts"),
        "/home/dev/Projects/beta/src/composer.ts"
    );
}

#[test]
fn lexical_normalize_drops_dot_components() {
    assert_eq!(lexical_normalize("/a/./b/./c"), "/a/b/c");
}

#[test]
fn lexical_normalize_does_not_escape_above_root() {
    assert_eq!(lexical_normalize("/a/../../b"), "/b");
    assert_eq!(lexical_normalize("/../../b"), "/b");
}

#[test]
fn lexical_normalize_keeps_leading_parent_dirs_of_a_relative_path() {
    assert_eq!(lexical_normalize("../a/../../b"), "../../b");
    assert_eq!(lexical_normalize("a/.."), "");
    assert_eq!(lexical_normalize("/"), "/");
}

#[test]
fn normalize_backup_key_resolves_relative_dotdot_key_against_cwd() {
    assert_eq!(
        normalize_backup_key("../beta/src/composer.ts", "/home/dev/Projects/alpha"),
        "/home/dev/Projects/beta/src/composer.ts"
    );
}

#[test]
fn normalize_backup_key_strips_a_leading_dot_slash() {
    assert_eq!(normalize_backup_key("./src/a.rs", "/repo"), "/repo/src/a.rs");
    assert_eq!(normalize_backup_key("/abs/./x", "/repo"), "/abs/x");
}

#[test]
fn record_backup_resets_staleness_only_on_a_genuinely_new_backup_name() {
    let mut backups: StrMap<String> = StrMap::new();
    let mut edits_since_backup: StrMap<usize> = StrMap::new();
    let path = "/fake/redundant.txt".to_string();

    record_backup(&mut backups, &mut edits_since_backup, path.clone(), "v1".to_string());
    assert_eq!(edits_since_backup.get(&path), Some(&0));

    mark_edit(&mut edits_since_backup, &path);
    assert_eq!(edits_since_backup.get(&path), Some(&1));

    record_backup(&mut backups, &mut edits_since_backup, path.clone(), "v1".to_string());
    assert_eq!(
        edits_since_backup.get(&path),
        Some(&1),
        "re-announcing the same backup name must not clear staleness"
    );

    record_backup(&mut backups, &mut edits_since_backup, path.clone(), "v2".to_string());
    assert_eq!(edits_since_backup.get(&path), Some(&0), "a real new backup version must reset staleness");
    assert_eq!(backups.get(&path), Some(&"v2".to_string()));
}

#[test]
fn mark_edit_leaves_an_untracked_path_untracked() {
    let mut edits: StrMap<usize> = StrMap::new();
    mark_edit(&mut edits, "/nope");
    assert_eq!(edits.get("/nope"), None);
}

#[test]
fn is_safe_path_component_rejects_hostile_values() {
    assert!(!is_safe_path_component(""));
    assert!(!is_safe_path_component(".."));
    assert!(!is_safe_path_component("."));
    assert!(!is_safe_path_component("../../etc/passwd"));
    assert!(!is_safe_path_component("/etc/passwd"));
    assert!(!is_safe_path_component("a/b"));
    assert!(!is_safe_path_component("a\\b"));
}

#[test]
fn is_safe_path_component_accepts_the_real_confirmed_shape() {
    assert!(is_safe_path_component("bb6db0439755b9fa@v1"));
    assert!(is_safe_path_component("a1111111-1111-4111-8111-111111111111"));
    assert!(is_safe_path_component("..."));
}

#[test]
fn strip_hash_prefix_removes_only_the_scheme() {
    assert_eq!(strip_hash_prefix("sha256:abcd"), "abcd");
    assert_eq!(strip_hash_prefix("abcd"), "abcd");
    assert_eq!(strip_hash_prefix("sha256"), "sha256");
}

#[test]
fn byte_search_finds_contains_and_counts() {
    let hay = b"abcabcab";
    assert!(bytes_contain(hay, b""));
    assert!(bytes_contain(hay, b"cab"));
    assert!(!bytes_contain(hay, b"abd"));
    assert!(!bytes_contain(b"ab", b"abc"));
    assert_eq!(bytes_find(hay, b"cab"), Some(2));
    assert_eq!(bytes_find(hay, b""), None);
    assert_eq!(bytes_find(hay, b"zz"), None);
    assert_eq!(bytes_count(hay, b"ab"), 3);
    assert_eq!(bytes_count(b"aaaa", b"aa"), 2, "occurrences do not overlap");
    assert_eq!(bytes_count(hay, b""), 0);
}

#[test]
fn debug_sink_push_is_a_no_op_when_disabled() {
    let mut off = DebugSink::new(false);
    off.push("f.jsonl", "/a", "t1", None);
    assert!(off.entries.is_empty());
    let mut on = DebugSink::new(true);
    on.push("f.jsonl", "/a", "t1", Some("ab".to_string()));
    assert_eq!(on.entries.len(), 1);
    assert_eq!(on.entries[0].tier, "t1");
    assert_eq!(on.entries[0].sha256, Some("ab".to_string()));
}

fn tur(entries: Vec<(&str, &str)>) -> Doc {
    Doc::Object(entries.into_iter().map(|(k, v)| (k.to_string(), Doc::Str(v.to_string()))).collect())
}

#[test]
fn entry_rung_takes_the_first_matching_rung() {
    let plain = tur(vec![("filePath", "/r/a.rs")]);
    let original = tur(vec![("originalFile", "before")]);
    let create = tur(vec![("type", "create")]);
    let sid = "3f2a9c1e-0000-4000-8000-000000000001";
    assert_eq!(entry_rung(true, &original, Some("b@v1"), Some(sid), None), Rung::Secret);
    assert_eq!(entry_rung(false, &original, None, None, None), Rung::T1Original);
    assert_eq!(entry_rung(false, &create, None, None, None), Rung::T1Create);
    assert_eq!(entry_rung(false, &plain, None, Some(sid), None), Rung::NoBackup);
    assert_eq!(entry_rung(false, &plain, Some("b@v1"), None, None), Rung::NoBackup);
    assert_eq!(entry_rung(false, &plain, Some("b@v1"), Some(sid), Some(2)), Rung::Stale);
    assert_eq!(entry_rung(false, &plain, Some("../x"), Some(sid), Some(0)), Rung::UnsafePath);
    assert_eq!(entry_rung(false, &plain, Some("b@v1"), Some(sid), Some(0)), Rung::ReadBlob);
    assert_eq!(entry_rung(false, &plain, Some("b@v1"), Some(sid), None), Rung::ReadBlob);
}

#[test]
fn blob_verdict_checks_the_old_string_against_the_blob() {
    let blob: &[u8] = b"fn main() {\n    old();\n}\n";
    assert_eq!(blob_verdict(None, Some("old")), BlobVerdict::Missing);
    assert_eq!(blob_verdict(Some(blob), Some("old();")), BlobVerdict::Verified);
    assert_eq!(blob_verdict(Some(blob), Some("new();")), BlobVerdict::Unverifiable);
    assert_eq!(blob_verdict(Some(blob), Some("")), BlobVerdict::Unverified);
    assert_eq!(blob_verdict(Some(blob), None), BlobVerdict::Unverified);
    let accented = "caf\u{e9}".as_bytes();
    assert_eq!(blob_verdict(Some(accented), Some("\u{e9}")), BlobVerdict::Verified);
}

#[test]
fn tier_counts_keep_unverified_inside_t1_5() {
    let mut c = TierCounts::new();
    c.record_rung(Rung::T1Original);
    c.record_rung(Rung::T1Create);
    c.record_rung(Rung::Secret);
    c.record_rung(Rung::Stale);
    c.record_rung(Rung::UnsafePath);
    c.record_rung(Rung::ReadBlob);
    assert!(c.record_blob(BlobVerdict::Verified));
    assert!(c.record_blob(BlobVerdict::Unverified));
    assert!(!c.record_blob(BlobVerdict::Unverifiable));
    assert!(!c.record_blob(BlobVerdict::Missing));
    c.record_fallthrough(true);
    c.record_fallthrough(false);
    assert_eq!(c.t1, 2);
    assert_eq!(c.skipped_secret_path, 1);
    assert_eq!(c.t15_rejected_stale, 1);
    assert_eq!(c.t15_rejected_unsafe_path, 1);
    assert_eq!(c.t1_5, 2);
    assert_eq!(c.t15_unverified, 1);
    assert!(c.t15_unverified <= c.t1_5);
    assert_eq!(c.t15_rejected_unverifiable, 1);
    assert_eq!(c.t15_blob_missing, 1);
    assert_eq!(c.t2_candidate, 1);
    assert_eq!(c.t3, 1);
}

#[test]
fn classify_entry_counts_the_rung_and_the_edit() {
    let mut backups: StrMap<String> = StrMap::new();
    let mut edits: StrMap<usize> = StrMap::new();
    record_backup(&mut backups, &mut edits, "/r/a.rs".to_string(), "h@v1".to_string());
    let mut c = TierCounts::new();
    let plain = tur(vec![("filePath", "/r/a.rs")]);
    let sid = "3f2a9c1e-0000-4000-8000-000000000001";
    assert_eq!(classify_entry(false, &plain, "/r/a.rs", Some(sid), &backups, &mut edits, &mut c), Rung::ReadBlob);
    assert_eq!(edits.get("/r/a.rs"), Some(&1));
    assert_eq!(classify_entry(false, &plain, "/r/a.rs", Some(sid), &backups, &mut edits, &mut c), Rung::Stale);
    assert_eq!(c.t15_rejected_stale, 1);
    assert_eq!(edits.get("/r/a.rs"), Some(&2));
    assert_eq!(classify_entry(false, &plain, "/r/b.rs", Some(sid), &backups, &mut edits, &mut c), Rung::NoBackup);
    assert_eq!(edits.get("/r/b.rs"), None);
    assert_eq!(classify_entry(true, &plain, "/r/.env", Some(sid), &backups, &mut edits, &mut c), Rung::Secret);
    assert_eq!(c.skipped_secret_path, 1);
}

fn num(t: &str) -> Doc {
    Doc::Number(t.to_string())
}

#[test]
fn expected_old_start_line_reads_the_first_hunk() {
    let patch = Doc::Array(vec![
        Doc::Object(vec![("oldStart".to_string(), num("12")), ("oldLines".to_string(), num("3"))]),
        Doc::Object(vec![("oldStart".to_string(), num("40"))]),
    ]);
    assert_eq!(expected_old_start_line(Some(&patch)), Some(12));
    assert_eq!(expected_old_start_line(None), None);
    assert_eq!(expected_old_start_line(Some(&Doc::Array(vec![]))), None);
    let fractional = Doc::Array(vec![Doc::Object(vec![("oldStart".to_string(), num("1.5"))])]);
    assert_eq!(expected_old_start_line(Some(&fractional)), None);
    let negative = Doc::Array(vec![Doc::Object(vec![("oldStart".to_string(), num("-1"))])]);
    assert_eq!(expected_old_start_line(Some(&negative)), None);
}

#[test]
fn t2_gate_requires_one_occurrence_on_the_hunk_line() {
    let blob: &[u8] = b"line one\nline two\nold();\nline four\n";
    assert_eq!(t2_gate(blob, Some("old();"), Some(3)), T2Gate::Resolved);
    assert_eq!(t2_gate(blob, Some("old();"), None), T2Gate::Resolved);
    assert_eq!(t2_gate(blob, Some("old();"), Some(2)), T2Gate::Unverifiable);
    assert_eq!(t2_gate(blob, Some("line"), None), T2Gate::Unverifiable);
    assert_eq!(t2_gate(blob, Some("absent"), None), T2Gate::Unverifiable);
    assert_eq!(t2_gate(blob, Some(""), Some(1)), T2Gate::NoOldString);
    assert_eq!(t2_gate(blob, None, Some(1)), T2Gate::NoOldString);
    assert_eq!(t2_gate(blob, Some("line one"), Some(1)), T2Gate::Resolved);
}

#[test]
fn t2_counters_count_each_gate_verdict() {
    let mut c = T2Counters::new();
    assert!(c.record_gate(T2Gate::Resolved));
    assert!(!c.record_gate(T2Gate::Unverifiable));
    assert!(!c.record_gate(T2Gate::NoOldString));
    assert!(!c.record_gate(T2Gate::NoOldString));
    assert_eq!((c.resolved, c.rejected_unverifiable, c.no_oldstring), (1, 1, 2));
    assert_eq!((c.no_commit, c.blob_missing, c.rejected_prior_edit_in_session), (0, 0, 0));
}

#[test]
fn replace_text_agrees_with_str_replace() {
    let cases = [
        ("aXbXc", "X", "--"),
        ("aaaa", "aa", "b"),
        ("ab", "", "x"),
        ("", "", "x"),
        ("", "a", "x"),
        ("héllo wörld", "ö", "o"),
        ("no match here", "zz", "y"),
        ("überüber", "über", "ü"),
    ];
    for (text, old, new) in cases {
        assert_eq!(replace_text(text, old, new, true), text.replace(old, new), "{text:?} {old:?}");
        assert_eq!(replace_text(text, old, new, false), text.replacen(old, new, 1), "{text:?} {old:?}");
    }
}

#[test]
fn after_text_prefers_content_then_synthesises_from_the_pre_edit_text() {
    assert_eq!(after_text(Some("new file"), Some("a"), Some("b"), Some("a a"), None, false).as_deref(), Some("new file"));
    assert_eq!(after_text(None, Some("a"), Some("b"), Some("a a"), None, false).as_deref(), Some("b a"));
    assert_eq!(after_text(None, Some("a"), Some("b"), Some("a a"), None, true).as_deref(), Some("b b"));
    assert_eq!(
        after_text(None, Some("x"), Some("y"), None, Some(b"x1 x2".to_vec()), false).as_deref(),
        Some("y1 x2")
    );
    assert_eq!(after_text(None, Some("x"), Some("y"), None, Some(vec![0xff, 0x78]), false), None);
    assert_eq!(after_text(None, Some("x"), None, Some("x"), None, false), None);
    assert_eq!(after_text(None, Some("x"), Some("y"), None, None, false), None);
}

#[test]
fn persisting_ladder_refuses_a_stale_backup_even_without_a_session_id() {
    let plain = tur(vec![("filePath", "/r/a.rs")]);
    let sid = "3f2a9c1e-0000-4000-8000-000000000001";
    assert_eq!(persist_entry_rung(false, &plain, Some("b@v1"), None, Some(1)), Rung::Stale);
    assert_eq!(persist_entry_rung(false, &plain, Some("b@v1"), None, Some(0)), Rung::NoBackup);
    assert_eq!(persist_entry_rung(false, &plain, Some("b@v1"), Some(sid), Some(0)), Rung::ReadBlob);
    assert_eq!(persist_entry_rung(false, &plain, Some("../b"), Some(sid), None), Rung::UnsafePath);
    assert_eq!(persist_entry_rung(false, &plain, None, Some(sid), Some(3)), Rung::NoBackup);
    assert_eq!(persist_entry_rung(true, &plain, Some("b@v1"), Some(sid), Some(3)), Rung::Secret);
    // The dry-run ladder needs the session id before it looks at staleness.
    assert_eq!(entry_rung(false, &plain, Some("b@v1"), None, Some(1)), Rung::NoBackup);
}

#[test]
fn t15_counters_count_each_refusal() {
    let mut c = T15Counters::new();
    assert!(!c.record(Rung::Stale, None));
    assert!(!c.record(Rung::UnsafePath, None));
    assert!(c.record(Rung::ReadBlob, Some(BlobVerdict::Verified)));
    assert!(c.record(Rung::ReadBlob, Some(BlobVerdict::Unverified)));
    assert!(!c.record(Rung::ReadBlob, Some(BlobVerdict::Unverifiable)));
    assert!(!c.record(Rung::ReadBlob, Some(BlobVerdict::Missing)));
    assert!(!c.record(Rung::NoBackup, None));
    assert_eq!((c.rejected_stale, c.rejected_unsafe_path, c.rejected_unverifiable, c.blob_missing), (1, 1, 1, 1));
}
