use agentrec::fmt::{FileEntry, TurnRecord};
use agentrec::record::{already_logged, files_match, merged_ids, LogRecord};

fn file(path: &str) -> FileEntry {
    FileEntry {
        path: path.to_string(),
        before: None,
        after: None,
        op: "modify".to_string(),
        skipped: false,
        withheld: false,
        baseline_unknown: false,
    }
}

fn turn(id: &str, started: &str, ended: &str, files: Vec<FileEntry>, merges: Vec<&str>) -> TurnRecord {
    TurnRecord {
        v: 1,
        id: id.to_string(),
        grade: "rich".to_string(),
        truncated: false,
        started: started.to_string(),
        ended: ended.to_string(),
        tool: None,
        model: None,
        session: None,
        root: "/repo".to_string(),
        prompt_ref: None,
        prompt_excerpt: None,
        merges: merges.into_iter().map(String::from).collect(),
        files,
    }
}

#[test]
fn files_match_ignores_order_but_not_count() {
    let a = vec![file("a.rs"), file("b.rs")];
    let b = vec![file("b.rs"), file("a.rs")];
    assert!(files_match(&a, &b));
    assert!(!files_match(&a, &vec![file("a.rs")]));
    assert!(!files_match(&a, &vec![file("a.rs"), file("c.rs")]));
    assert!(!files_match(&vec![file("a.rs"), file("a.rs")], &vec![file("a.rs"), file("b.rs")]));
    assert!(files_match(&vec![], &vec![]));
}

#[test]
fn recover_orphan_dedup_matches_by_id_or_by_content() {
    let logged = vec![
        LogRecord::Epoch,
        LogRecord::Turn(turn("t_1", "s1", "e1", vec![file("a.rs")], vec![])),
    ];
    assert!(already_logged(&logged, "t_1", "/other", "x", "y", &vec![]));
    assert!(already_logged(&logged, "t_2", "/repo", "s1", "e1", &vec![file("a.rs")]));
    assert!(!already_logged(&logged, "t_2", "/repo", "s1", "e2", &vec![file("a.rs")]));
    assert!(!already_logged(&logged, "t_2", "/repo", "s1", "e1", &vec![file("b.rs")]));
}

#[test]
fn recover_orphan_dedup_only_looks_at_the_last_fifty_records() {
    let mut logged = vec![LogRecord::Turn(turn("t_old", "s", "e", vec![], vec![]))];
    for _ in 0..49 {
        logged.push(LogRecord::Epoch);
    }
    assert!(already_logged(&logged, "t_old", "/r", "", "", &vec![]));
    logged.push(LogRecord::Epoch);
    assert!(!already_logged(&logged, "t_old", "/r", "", "", &vec![]));
}

#[test]
fn merged_ids_lists_each_absorbed_id_once() {
    let logged = vec![
        LogRecord::Turn(turn("t_3", "s", "e", vec![], vec!["t_1", "t_2"])),
        LogRecord::Epoch,
        LogRecord::Turn(turn("t_5", "s", "e", vec![], vec!["t_2", "t_4"])),
    ];
    assert_eq!(merged_ids(&logged), vec!["t_1".to_string(), "t_2".to_string(), "t_4".to_string()]);
    assert!(merged_ids(&vec![LogRecord::Epoch]).is_empty());
}
