use phenolrs::aql::{build_aql_query, CreateCursorBody, CursorOptions, CursorSession};
use phenolrs::assoc::StrMap;
use phenolrs::config::CollectionDescription;
use phenolrs::dump::{next_batch_id, round_robin_next, DumpSession};

fn plan(servers: Vec<(&str, Vec<&str>)>) -> StrMap<Vec<String>> {
    let mut m: StrMap<Vec<String>> = StrMap::new();
    for (server, shards) in servers {
        m.set(server.to_string(), shards.iter().map(|s| s.to_string()).collect());
    }
    m
}

#[test]
fn third_start_failing_cleans_up_exactly_the_first_two() {
    let m = plan(vec![
        ("srv1", vec!["s1"]),
        ("srv2", vec!["s2"]),
        ("srv3", vec!["s3"]),
        ("srv4", vec!["s4"]),
        ("srv5", vec!["s5"]),
    ]);
    let mut session = DumpSession::new(m, 1000, 5, 4);
    let q1 = session.pending_start().unwrap();
    assert_eq!(q1.server, "srv1");
    assert_eq!(q1.shards, vec!["s1".to_string()]);
    assert_eq!(q1.batch_size, 1000);
    assert_eq!(q1.prefetch_count, 5);
    assert_eq!(q1.parallelism, 4);
    session.record_start_success("dump-1".to_string());
    let q2 = session.pending_start().unwrap();
    assert_eq!(q2.server, "srv2");
    session.record_start_success("dump-2".to_string());
    let q3 = session.pending_start().unwrap();
    assert_eq!(q3.server, "srv3");
    session.record_start_failure("connection refused".to_string());
    // no further start is attempted
    assert!(session.pending_start().is_none());
    assert!(!session.all_started());
    // delete calls go to exactly the two contexts acquired so far
    let targets = session.cleanup_targets();
    assert_eq!(targets.len(), 2);
    assert_eq!(targets[0].dbserver, "srv1");
    assert_eq!(targets[0].dump_id, "dump-1");
    assert_eq!(targets[1].dbserver, "srv2");
    assert_eq!(targets[1].dump_id, "dump-2");
    // and the original creation error is what the caller gets back
    assert_eq!(session.error, Some("connection refused".to_string()));
}

#[test]
fn all_starts_succeeding_closes_the_session() {
    let m = plan(vec![("srv1", vec!["s1"]), ("srv2", vec!["s2"])]);
    let mut session = DumpSession::new(m, 1000, 5, 4);
    session.record_start_success("d1".to_string());
    session.record_start_success("d2".to_string());
    assert!(session.all_started());
    assert!(session.pending_start().is_none());
    assert_eq!(session.cleanup_targets().len(), 2);
}

#[test]
fn tasks_per_server_takes_the_ceiling() {
    let m = plan(vec![("srv1", vec!["s1"]), ("srv2", vec!["s2"])]);
    let session = DumpSession::new(m, 1000, 5, 5);
    assert_eq!(session.tasks_per_server(), 3);
    let empty = DumpSession::new(StrMap::new(), 1000, 5, 5);
    assert_eq!(empty.tasks_per_server(), 0);
}

#[test]
fn batch_lanes_advance_by_the_task_count() {
    assert_eq!(next_batch_id(2, 3), 5);
    assert_eq!(next_batch_id(5, 3), 8);
}

#[test]
fn round_robin_wraps() {
    assert_eq!(round_robin_next(0, 3), 1);
    assert_eq!(round_robin_next(2, 3), 0);
}

#[test]
fn cursor_creation_failure_cleans_up_the_open_cursors() {
    let mut s = CursorSession::new(vec![
        "c1".to_string(),
        "c2".to_string(),
        "c3".to_string(),
    ]);
    assert_eq!(s.pending_create(), Some(0));
    s.record_created(Some("cur-1".to_string()), true);
    assert_eq!(s.pending_create(), Some(1));
    // this cursor came back already exhausted: nothing to clean up for it
    s.record_created(Some("cur-2".to_string()), false);
    assert_eq!(s.pending_create(), Some(2));
    s.record_create_failure("boom".to_string());
    assert!(s.pending_create().is_none());
    assert_eq!(s.cleanup_targets(), &vec!["cur-1".to_string()]);
    assert_eq!(s.error, Some("boom".to_string()));
}

#[test]
fn cursor_session_completes() {
    let mut s = CursorSession::new(vec!["c1".to_string()]);
    s.record_created(None, false);
    assert!(s.all_created());
}

#[test]
fn aql_query_renders_the_field_selection() {
    let desc = CollectionDescription {
        name: "users".to_string(),
        fields: vec!["a".to_string(), "b".to_string()],
    };
    let q = build_aql_query(&desc, false);
    let expected = "\n        FOR doc in @@col\n            RETURN {\n                _id: doc._id,\n                _key: doc._key,\n\n                a: doc.a,\nb: doc.b,\n            }\n    ";
    assert_eq!(q, expected);
}

#[test]
fn aql_edge_query_returns_the_endpoints() {
    let desc = CollectionDescription { name: "knows".to_string(), fields: Vec::new() };
    let q = build_aql_query(&desc, true);
    assert!(q.contains("_to: doc._to,"));
    assert!(q.contains("_from: doc._from,"));
    assert!(!q.contains("_key: doc._key,"));
}

#[test]
fn cursor_body_always_streams() {
    let b = CreateCursorBody::from_streaming_query_with_size(
        "q".to_string(),
        Some(100),
        vec![("@col".to_string(), "users".to_string())],
    );
    assert!(b.options.stream);
    assert_eq!(b.batch_size, Some(100));
    assert_eq!(b.query, "q");
    assert!(CursorOptions::new(false).stream == false);
}

#[test]
fn error_documents_carry_their_context() {
    let e = phenolrs::info::ArangoDBError {
        error: true,
        error_num: 1203,
        error_message: "collection not found".to_string(),
        code: 404,
    };
    assert!(e.error);
    assert_eq!(e.error_num, 1203);
    assert!(!phenolrs::info::response_is_expected(404, 200));
    assert!(phenolrs::info::response_is_expected(200, 200));
}
