use agentrec::hookcmds::{
    absolutize, accumulate_scratch, apply_patch_paths, codex_hook_action, drain_scratch,
    codex_payload_action, CodexAction, ScratchEntry, SCRATCH_TTL_MS,
};
use agentrec::doc::Doc;
use agentrec::hookcmds::tool_hook_fields;

#[test]
fn apply_patch_paths_extracts_all_three_op_kinds() {
    let command = "*** Begin Patch\n*** Update File: hello.txt\n@@\n+line two\n*** Add File: second.txt\n+second file\n*** Add File: to_delete.txt\n+delete me\n*** End Patch";
    assert_eq!(
        apply_patch_paths(command),
        vec!["hello.txt", "second.txt", "to_delete.txt"]
    );
}

#[test]
fn apply_patch_paths_delete_only() {
    let command = "*** Begin Patch\n*** Delete File: to_delete.txt\n*** End Patch";
    assert_eq!(apply_patch_paths(command), vec!["to_delete.txt"]);
}

#[test]
fn apply_patch_paths_ignores_move_to_and_body_lines() {
    let command = "*** Begin Patch\n*** Move to: new_name.txt\n@@\n+ *** Add File: not_really.txt\n*** End Patch";
    assert!(apply_patch_paths(command).is_empty());
}

#[test]
fn apply_patch_paths_skips_an_empty_header_path() {
    assert!(apply_patch_paths("*** Add File: \n*** Delete File: ").is_empty());
}

#[test]
fn absolutize_joins_relative_against_cwd() {
    assert_eq!(absolutize("/repo", "hello.txt"), "/repo/hello.txt".to_string());
}

#[test]
fn absolutize_tolerates_trailing_slash_on_cwd() {
    assert_eq!(absolutize("/repo/", "hello.txt"), "/repo/hello.txt".to_string());
}

#[test]
fn absolutize_passes_through_an_already_absolute_path() {
    assert_eq!(
        absolutize("/repo", "/elsewhere/hello.txt"),
        "/elsewhere/hello.txt".to_string()
    );
}

#[test]
fn drain_scratch_none_when_nothing_accumulated() {
    let mut store: Vec<ScratchEntry> = Vec::new();
    let out = drain_scratch(&mut store, "s1", "t1", 1_000);
    assert_eq!(out, None);
}

#[test]
fn accumulate_then_drain_unions_paths_and_removes_entries() {
    let mut store: Vec<ScratchEntry> = Vec::new();
    accumulate_scratch(&mut store, "s1", "t1", vec!["a.txt".into(), "b.txt".into()], 1_000);
    accumulate_scratch(&mut store, "s1", "t1", vec!["b.txt".into()], 1_100);
    accumulate_scratch(&mut store, "s1", "t2", vec!["other.txt".into()], 1_050);

    let drained = drain_scratch(&mut store, "s1", "t1", 2_000);
    assert_eq!(drained, Some(vec!["a.txt".to_string(), "b.txt".to_string()]));

    let second = drain_scratch(&mut store, "s1", "t1", 2_100);
    assert_eq!(second, None);

    let other = drain_scratch(&mut store, "s1", "t2", 2_200);
    assert_eq!(other, Some(vec!["other.txt".to_string()]));
}

#[test]
fn drain_scratch_gcs_expired_entries_of_other_turns() {
    let mut store: Vec<ScratchEntry> = Vec::new();
    accumulate_scratch(&mut store, "stale", "old", vec!["x.txt".into()], 0);
    let now = SCRATCH_TTL_MS + 2;
    let out = drain_scratch(&mut store, "s1", "t1", now);
    assert_eq!(out, None);
    let stale = drain_scratch(&mut store, "stale", "old", now);
    assert_eq!(stale, None);
}

#[test]
fn accumulate_drops_expired_entries_first() {
    let mut store: Vec<ScratchEntry> = Vec::new();
    accumulate_scratch(&mut store, "s", "old", vec!["x".into()], 0);
    accumulate_scratch(&mut store, "s", "new", vec!["y".into()], SCRATCH_TTL_MS + 1);
    assert_eq!(store.len(), 1);
    assert_eq!(store[0].turn_id, "new");
}

#[test]
fn entry_exactly_at_the_ttl_is_kept() {
    let mut store: Vec<ScratchEntry> = Vec::new();
    accumulate_scratch(&mut store, "s", "t", vec!["x".into()], 0);
    assert_eq!(drain_scratch(&mut store, "s", "t", SCRATCH_TTL_MS), Some(vec!["x".to_string()]));
}

#[test]
fn codex_missing_hook_event_name_is_refused() {
    let r = codex_hook_action(None, Some("s"), Some("t"), None, None, None, None, None, None);
    match r {
        Err(m) => assert_eq!(m, "codex hook: missing or empty required field \"hook_event_name\""),
        Ok(_) => panic!("must refuse"),
    }
}

#[test]
fn codex_empty_turn_id_is_refused() {
    let r = codex_hook_action(Some("Stop"), Some("s"), Some(""), None, None, None, None, None, None);
    match r {
        Err(m) => assert_eq!(m, "codex hook: missing or empty required field \"turn_id\""),
        Ok(_) => panic!("must refuse"),
    }
}

#[test]
fn codex_prompt_submit_starts_a_turn() {
    let r = codex_hook_action(Some("UserPromptSubmit"), Some("s"), Some("t"), Some("hi"), None, None, None, Some("/tmp/x.jsonl"), Some("gpt-5"));
    match r {
        Ok(CodexAction::Start { session_id, turn_id, prompt, model, transcript }) => {
            assert_eq!((session_id.as_str(), turn_id.as_str(), prompt.as_str()), ("s", "t", "hi"));
            assert_eq!(model.as_deref(), Some("gpt-5"));
            assert_eq!(transcript.as_deref(), Some("/tmp/x.jsonl"));
        }
        _ => panic!("expected a start"),
    }
}

#[test]
fn codex_apply_patch_accumulates_absolutised_paths() {
    let cmd = "*** Begin Patch\n*** Add File: a.txt\n*** Update File: /abs/b.txt\n*** End Patch";
    let r = codex_hook_action(
        Some("PostToolUse"),
        Some("s"),
        Some("t"),
        None,
        Some("apply_patch"),
        Some(cmd),
        Some("/repo/"),
        None,
        None,
    );
    match r {
        Ok(CodexAction::Accumulate { paths, .. }) => {
            assert_eq!(paths, vec!["/repo/a.txt".to_string(), "/abs/b.txt".to_string()]);
        }
        _ => panic!("expected an accumulate"),
    }
}

#[test]
fn codex_other_tool_does_nothing() {
    let r = codex_hook_action(Some("PostToolUse"), Some("s"), Some("t"), None, Some("shell"), None, None, None, None);
    assert!(matches!(r, Ok(CodexAction::Nothing)));
}

#[test]
fn codex_apply_patch_without_command_is_refused() {
    let r = codex_hook_action(Some("PostToolUse"), Some("s"), Some("t"), None, Some("apply_patch"), None, Some("/r"), None, None);
    match r {
        Err(m) => assert_eq!(m, "codex hook: PostToolUse(apply_patch) missing tool_input.command"),
        Ok(_) => panic!("must refuse"),
    }
}

#[test]
fn codex_stop_drains() {
    let r = codex_hook_action(Some("Stop"), Some("s"), Some("t"), None, None, None, None, Some("/tmp/t.jsonl"), Some("m"));
    match r {
        Ok(CodexAction::Stop { transcript, .. }) => assert_eq!(transcript.as_deref(), Some("/tmp/t.jsonl")),
        _ => panic!("expected a stop"),
    }
}

#[test]
fn codex_unknown_event_names_it_quoted() {
    let r = codex_hook_action(Some("Weird\"Event"), Some("s"), Some("t"), None, None, None, None, None, None);
    match r {
        Err(m) => assert_eq!(m, "codex hook: unrecognized hook_event_name \"Weird\\\"Event\""),
        Ok(_) => panic!("must refuse"),
    }
}

fn obj(entries: Vec<(&str, Doc)>) -> Doc {
    Doc::Object(entries.into_iter().map(|(k, v)| (k.to_string(), v)).collect())
}

fn s(v: &str) -> Doc {
    Doc::Str(v.to_string())
}

#[test]
fn codex_payload_reads_the_nested_command_and_cwd() {
    let payload = obj(vec![
        ("hook_event_name", s("PostToolUse")),
        ("session_id", s("s1")),
        ("turn_id", s("t1")),
        ("tool_name", s("apply_patch")),
        ("tool_input", obj(vec![("command", s("*** Begin Patch\n*** Delete File: gone.txt\n*** End Patch"))])),
        ("cwd", s("/work")),
    ]);
    match codex_payload_action(&payload) {
        Ok(CodexAction::Accumulate { session_id, turn_id, paths }) => {
            assert_eq!(session_id, "s1");
            assert_eq!(turn_id, "t1");
            assert_eq!(paths, vec!["/work/gone.txt".to_string()]);
        }
        _ => panic!("expected an accumulate"),
    }
}

#[test]
fn codex_payload_non_string_field_counts_as_missing() {
    let payload = obj(vec![
        ("hook_event_name", s("Stop")),
        ("session_id", Doc::Number("7".to_string())),
        ("turn_id", s("t1")),
    ]);
    match codex_payload_action(&payload) {
        Err(m) => assert_eq!(m, "codex hook: missing or empty required field \"session_id\""),
        Ok(_) => panic!("must refuse"),
    }
}

#[test]
fn tool_hook_fields_open_a_turn_only_on_prompt_submit() {
    let start = agentrec::doc::Doc::Object(vec![
        ("hook_event_name".to_string(), agentrec::doc::Doc::Str("UserPromptSubmit".to_string())),
        ("prompt".to_string(), agentrec::doc::Doc::Str("fix it".to_string())),
        ("session_id".to_string(), agentrec::doc::Doc::Str("s1".to_string())),
    ]);
    let f = tool_hook_fields(&start);
    assert!(f.start);
    assert_eq!(f.prompt.as_deref(), Some("fix it"));
    assert_eq!(f.session.as_deref(), Some("s1"));
    assert_eq!(f.transcript, None);
    let stop = tool_hook_fields(&agentrec::doc::Doc::Object(vec![(
        "transcript_path".to_string(),
        agentrec::doc::Doc::Str("/t.jsonl".to_string()),
    )]));
    assert!(!stop.start);
    assert_eq!(stop.transcript.as_deref(), Some("/t.jsonl"));
    assert!(!tool_hook_fields(&agentrec::doc::Doc::Object(vec![])).start);
}

#[test]
fn scratch_entries_keep_only_lines_that_are_entries() {
    let text = "{\"ts_ms\":5,\"session_id\":\"s\",\"turn_id\":\"t\",\"paths\":[\"/a\",\"/b\"]}\n\
                not json\n\
                {\"ts_ms\":-1,\"session_id\":\"s\",\"turn_id\":\"t\",\"paths\":[]}\n\
                {\"ts_ms\":7,\"session_id\":\"s\",\"turn_id\":\"u\",\"paths\":[1]}\n\
                {\"ts_ms\":9,\"session_id\":\"s2\",\"turn_id\":\"t2\",\"paths\":[],\"extra\":true}\n";
    let es = agentrec::hookcmds::scratch_entries(text);
    assert_eq!(es.len(), 2);
    assert_eq!(es[0].ts_ms, 5);
    assert_eq!(es[0].paths, vec!["/a".to_string(), "/b".to_string()]);
    assert_eq!(es[1].session_id, "s2");
    assert!(es[1].paths.is_empty());
}
