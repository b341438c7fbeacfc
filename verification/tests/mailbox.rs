use ufo::json::{Json, JsonNumber};
use ufo::mailbox::{
    claim_next_op, created_at_of, ensure_safe_path_component, finalize_op, finished_at_of,
    is_safe_path_component, mailbox_lines, mailbox_lock_path, outcome_status, MailboxError,
    Operation, Timestamp,
};

fn sample_op(id: &str, status: &str) -> Operation {
    Operation {
        id: id.to_string(),
        title: format!("title of {id}"),
        pilot_cmd: "true".to_string(),
        status: status.to_string(),
        created_at: Timestamp { secs: 1_700_000_000, nanos: 0 },
        finished_at: None,
    }
}

#[test]
fn legacy_rfc3339_operation_timestamp_parses() {
    let t = created_at_of(Some(&Json::Str("2024-01-02T03:04:05Z".to_string()))).unwrap();
    let created = chrono::DateTime::from_timestamp(t.secs, t.nanos).unwrap();
    assert_eq!(created.to_rfc3339(), "2024-01-02T03:04:05+00:00");
}

#[test]
fn safe_path_component_rejects_traversal() {
    assert!(is_safe_path_component("issue-123"));
    assert!(!is_safe_path_component("../issue"));
    assert!(!is_safe_path_component("a/b"));
    assert!(!is_safe_path_component(".."));
}

#[test]
fn safe_path_component_edges() {
    assert!(!is_safe_path_component(""));
    assert!(!is_safe_path_component("."));
    assert!(!is_safe_path_component("a/"));
    assert!(is_safe_path_component("..."));
    assert!(is_safe_path_component(".hidden"));
    assert_eq!(ensure_safe_path_component("ok"), Ok(()));
    let err = ensure_safe_path_component("x/y").unwrap_err();
    assert_eq!(err, MailboxError::UnsafeOpId("x/y".to_string()));
    assert_eq!(err.message(), "unsafe op id: x/y");
}

#[test]
fn lock_path_appends_suffix() {
    assert_eq!(mailbox_lock_path("/home/u/.ufo/mailbox.jsonl"), "/home/u/.ufo/mailbox.jsonl.lock");
}

#[test]
fn claim_takes_each_queued_op_once() {
    let mut ops = vec![sample_op("first", "done"), sample_op("second", "queued"), sample_op("third", "queued")];
    let a = claim_next_op(&mut ops).unwrap().unwrap();
    assert_eq!(a.id, "second");
    assert_eq!(a.status, "running");
    let b = claim_next_op(&mut ops).unwrap().unwrap();
    assert_eq!(b.id, "third");
    assert!(claim_next_op(&mut ops).unwrap().is_none());
    assert_eq!(ops[0].status, "done");
    assert_eq!(ops[1].status, "running");
    assert_eq!(ops[2].status, "running");
}

#[test]
fn claim_refuses_unsafe_id() {
    let mut ops = vec![sample_op("../evil", "queued"), sample_op("ok", "queued")];
    assert_eq!(
        claim_next_op(&mut ops).unwrap_err(),
        MailboxError::UnsafeOpId("../evil".to_string())
    );
    assert_eq!(ops[0].status, "queued");
    assert_eq!(ops[1].status, "queued");
}

#[test]
fn finalize_changes_only_the_named_op() {
    let mut ops = vec![sample_op("x", "running"), sample_op("y", "queued")];
    let at = Timestamp { secs: 5, nanos: 6 };
    assert!(finalize_op(&mut ops, "x", "done", Some(at)));
    assert_eq!(ops[0].status, "done");
    assert_eq!(ops[0].finished_at, Some(at));
    assert_eq!(ops[1].status, "queued");
    assert_eq!(ops[1].finished_at, None);
    assert!(!finalize_op(&mut ops, "zzz", "failed", None));
    ops.push(sample_op("z", "queued"));
    assert!(finalize_op(&mut ops, "y", "failed", None));
    assert_eq!(ops.len(), 3);
    assert_eq!(ops[2].id, "z");
}

#[test]
fn mailbox_lines_are_read_in_order() {
    let text = ["x\n", "\r\n", "   \n", "not json\r\n", "y\r\r\n", "\n", "z"].join("");
    assert_eq!(mailbox_lines(&text), vec!["x", "not json", "y\r", "z"]);
    assert_eq!(mailbox_lines("a\n\t\n b \n"), vec!["a", " b "]);
    assert_eq!(mailbox_lines("last\r"), vec!["last\r"]);
    assert!(mailbox_lines("").is_empty());
    assert!(mailbox_lines("\n \n").is_empty());
}

fn num(n: u64) -> Json {
    Json::Number(JsonNumber::UInt(n))
}

#[test]
fn creation_times() {
    let t = created_at_of(Some(&num(1_700_000_000))).unwrap();
    assert_eq!(t, Timestamp { secs: 1_700_000_000, nanos: 0 });
    let t = created_at_of(Some(&Json::Number(JsonNumber::NegInt(-5)))).unwrap();
    assert_eq!(t, Timestamp { secs: -5, nanos: 0 });
    let t = created_at_of(Some(&Json::Str("2024-01-02T03:04:05+01:00".to_string()))).unwrap();
    assert_eq!(t.secs, 1_704_153_600 + 2 * 3600 + 4 * 60 + 5);
    let t = created_at_of(Some(&Json::Str("2024-01-02T03:04:05.25Z".to_string()))).unwrap();
    assert_eq!(t.nanos, 250_000_000);
    assert!(created_at_of(None).is_none());
    assert!(created_at_of(Some(&Json::Null)).is_none());
    assert!(created_at_of(Some(&Json::Number(JsonNumber::Float("1.5".to_string())))).is_none());
    assert!(created_at_of(Some(&Json::Str("yesterday".to_string()))).is_none());
    assert!(created_at_of(Some(&Json::Number(JsonNumber::NegInt(i64::MIN)))).is_none());
}

#[test]
fn finishing_times() {
    assert_eq!(finished_at_of(Some(&Json::Null)), Some(None));
    assert_eq!(
        finished_at_of(Some(&num(1_700_000_001))),
        Some(Some(Timestamp { secs: 1_700_000_001, nanos: 0 }))
    );
    assert!(finished_at_of(Some(&num(u64::MAX))).is_none());
    assert!(finished_at_of(None).is_none());
    assert!(finished_at_of(Some(&Json::Bool(true))).is_none());
}

#[test]
fn outcome_statuses() {
    assert_eq!(outcome_status(true), "done");
    assert_eq!(outcome_status(false), "failed");
}

#[test]
fn seconds_range_bounds() {
    let neg = |n: i64| created_at_of(Some(&Json::Number(JsonNumber::NegInt(n))));
    assert_eq!(neg(-8_334_601_228_800), Some(Timestamp { secs: -8_334_601_228_800, nanos: 0 }));
    assert!(neg(-8_334_601_228_801).is_none());
    assert_eq!(created_at_of(Some(&num(8_210_266_876_799))), Some(Timestamp { secs: 8_210_266_876_799, nanos: 0 }));
    assert!(created_at_of(Some(&num(8_210_266_876_800))).is_none());
}
