use agentrec::daemon::{normalize_fact, parse_transcript, transcript_text};
use agentrec::doc::Doc;
use agentrec::importcmd::{extract_user_text, is_genuine_user_prompt, less_than, PendingTurn};

fn s(v: &str) -> Doc {
    Doc::Str(v.to_string())
}

fn obj(entries: Vec<(&str, Doc)>) -> Doc {
    Doc::Object(entries.into_iter().map(|(k, v)| (k.to_string(), v)).collect())
}

fn text_block(t: &str) -> Doc {
    obj(vec![("type", s("text")), ("text", s(t))])
}

#[test]
fn transcript_extracts_prompt_and_model() {
    let lines = vec![
        obj(vec![("type", s("user")), ("message", obj(vec![("role", s("user")), ("content", s("first"))]))]),
        obj(vec![(
            "message",
            obj(vec![("role", s("assistant")), ("model", s("m-1")), ("content", Doc::Array(vec![]))]),
        )]),
        obj(vec![(
            "message",
            obj(vec![("role", s("user")), ("content", Doc::Array(vec![text_block("second "), text_block("part")]))]),
        )]),
        obj(vec![(
            "message",
            obj(vec![
                ("role", s("user")),
                ("content", Doc::Array(vec![obj(vec![("type", s("tool_result")), ("content", s("x"))])])),
            ]),
        )]),
    ];
    let (prompt, model) = parse_transcript(&lines);
    assert_eq!(prompt.as_deref(), Some("second part"));
    assert_eq!(model.as_deref(), Some("m-1"));
}

#[test]
fn transcript_garbage_yields_none() {
    let (prompt, model) = parse_transcript(&vec![Doc::Null, s("x"), obj(vec![("type", s("user"))])]);
    assert_eq!(prompt, None);
    assert_eq!(model, None);
}

#[test]
fn transcript_blank_prompt_is_not_a_prompt() {
    let lines = vec![obj(vec![("message", obj(vec![("role", s("user")), ("content", s("  \n"))]))])];
    assert_eq!(parse_transcript(&lines).0, None);
}

#[test]
fn transcript_text_concatenates_text_blocks_only() {
    let m = obj(vec![("content", Doc::Array(vec![text_block("a"), obj(vec![("type", s("tool_use"))]), text_block("b")]))]);
    assert_eq!(transcript_text(&m).as_deref(), Some("ab"));
    assert_eq!(transcript_text(&obj(vec![("content", Doc::Array(vec![]))])), None);
}

#[test]
fn normalize_fact_lowercases_and_collapses_whitespace() {
    assert_eq!(normalize_fact("  Use  TABS\tnot\nSpaces "), "use tabs not spaces");
    assert_eq!(normalize_fact(""), "");
}

#[test]
fn genuine_user_prompt_excludes_tool_results() {
    let user = obj(vec![("message", obj(vec![("role", s("user")), ("content", s("hi"))]))]);
    assert!(is_genuine_user_prompt(&user));
    let tool = obj(vec![(
        "message",
        obj(vec![("role", s("user")), ("content", Doc::Array(vec![obj(vec![("type", s("tool_result"))])]))]),
    )]);
    assert!(!is_genuine_user_prompt(&tool));
    let assistant = obj(vec![("message", obj(vec![("role", s("assistant"))]))]);
    assert!(!is_genuine_user_prompt(&assistant));
    assert!(!is_genuine_user_prompt(&obj(vec![("message", s("x"))])));
}

#[test]
fn extract_user_text_joins_text_blocks_with_newlines() {
    let v = obj(vec![(
        "message",
        obj(vec![("content", Doc::Array(vec![text_block(""), text_block("a"), text_block("b")]))]),
    )]);
    assert_eq!(extract_user_text(&v).as_deref(), Some("a\nb"));
    let empty = obj(vec![("message", obj(vec![("content", s(""))]))]);
    assert_eq!(extract_user_text(&empty), None);
}

#[test]
fn pending_turn_tracks_earliest_and_latest_timestamps() {
    let mut t = PendingTurn::new(3);
    t.touch_ts("2026-01-01T00:00:05.000Z");
    t.touch_ts("2026-01-01T00:00:01.000Z");
    t.touch_ts("2026-01-01T00:00:09.000Z");
    assert_eq!(t.turn_index, 3);
    assert_eq!(t.started.as_deref(), Some("2026-01-01T00:00:01.000Z"));
    assert_eq!(t.ended.as_deref(), Some("2026-01-01T00:00:09.000Z"));
    assert!(less_than("a", "b") && less_than("a", "ab") && !less_than("b", "a") && !less_than("a", "a"));
}
