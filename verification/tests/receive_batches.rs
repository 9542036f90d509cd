use phenolrs::config::CollectionDescription;
use phenolrs::graph::NumpyGraph;
use phenolrs::info::LoadStrategy;
use phenolrs::json::JsonValue;
use phenolrs::receive::{parse_batch, receive_edges, receive_vertices, split_lines, ReceiveError};

fn described(name: &str, fields: Vec<&str>) -> CollectionDescription {
    let mut f = vec!["@collection_name".to_string()];
    f.extend(fields.iter().map(|s| s.to_string()));
    CollectionDescription { name: name.to_string(), fields: f }
}

fn count_vertices(g: &NumpyGraph, col: &[u8]) -> usize {
    for i in 0..g.cols_to_keys_to_inds.keys.len() {
        if g.cols_to_keys_to_inds.keys[i] == col.to_vec() {
            return g.cols_to_keys_to_inds.vals[i].keys.len();
        }
    }
    0
}

fn count_edges(g: &NumpyGraph) -> usize {
    g.coo_by_from_edge_to.iter().map(|b| b.from_inds.len()).sum()
}

#[test]
fn lines_split_like_the_wire_format() {
    let body = b"{\"a\":1}\n{\"b\":2}\n".to_vec();
    let lines = split_lines(&body);
    assert_eq!(lines.len(), 2);
    assert_eq!(lines[0], b"{\"a\":1}".to_vec());
    assert_eq!(lines[1], b"{\"b\":2}".to_vec());
    let crlf = b"x\r\ny".to_vec();
    let lines2 = split_lines(&crlf);
    assert_eq!(lines2, vec![b"x".to_vec(), b"y".to_vec()]);
}

#[test]
fn dump_batches_parse_line_by_line() {
    let body = b"{\"_id\":\"users/a\",\"score\":1}\n{\"_id\":\"users/b\",\"score\":2.5}\n".to_vec();
    let docs = parse_batch(&body, LoadStrategy::Dump).unwrap();
    assert_eq!(docs.len(), 2);
    let bad = b"{\"_id\":\"users/a\"\n".to_vec();
    assert_eq!(parse_batch(&bad, LoadStrategy::Dump).unwrap_err(), ReceiveError::BodyParse);
}

#[test]
fn cursor_batches_unwrap_the_result_envelope() {
    let body = b"{\"result\":[{\"_id\":\"users/a\"},{\"_id\":\"users/b\"}],\"hasMore\":false}".to_vec();
    let docs = parse_batch(&body, LoadStrategy::Aql).unwrap();
    assert_eq!(docs.len(), 2);
    let bad = b"{\"hasMore\":false}".to_vec();
    assert_eq!(parse_batch(&bad, LoadStrategy::Aql).unwrap_err(), ReceiveError::BodyParse);
}

#[test]
fn numeric_texts_survive_the_parse() {
    let body = b"{\"_id\":\"users/a\",\"score\":2.5}\n".to_vec();
    let docs = parse_batch(&body, LoadStrategy::Dump).unwrap();
    let mut g = NumpyGraph::new();
    receive_vertices(&mut g, docs, &vec![described("users", vec!["score"])]).unwrap();
    let table = &g.cols_to_features.vals[0];
    assert_eq!(table.keys[0], "score");
    assert_eq!(table.vals[0], vec![vec!["2.5".to_string()]]);
}

#[test]
fn documents_land_in_their_own_collections() {
    // one dump batch mixing documents of two requested collections: each
    // document is filed under the collection its own identifier names
    let body =
        b"{\"_id\":\"users/a\",\"score\":1}\n{\"_id\":\"items/x\",\"score\":2}\n{\"_id\":\"users/b\",\"score\":3}\n"
            .to_vec();
    let docs = parse_batch(&body, LoadStrategy::Dump).unwrap();
    let cols = vec![
        described("users", vec!["score"]),
        described("items", vec!["score"]),
    ];
    let mut g = NumpyGraph::new();
    receive_vertices(&mut g, docs, &cols).unwrap();
    assert_eq!(count_vertices(&g, b"users"), 2);
    assert_eq!(count_vertices(&g, b"items"), 1);
}

#[test]
fn document_of_an_unrequested_collection_is_skipped() {
    let body = b"{\"_id\":\"users/a\",\"score\":1}\n{\"_id\":\"ghosts/g\",\"score\":2}\n".to_vec();
    let docs = parse_batch(&body, LoadStrategy::Dump).unwrap();
    let cols = vec![described("users", vec!["score"])];
    let mut g = NumpyGraph::new();
    receive_vertices(&mut g, docs, &cols).unwrap();
    assert_eq!(count_vertices(&g, b"users"), 1);
    assert_eq!(count_vertices(&g, b"ghosts"), 0);
}

#[test]
fn round_trip_counts_are_stable_under_interleaving() {
    // nine documents in three batches over three simulated shards: however
    // the batches arrive, the graph ends with nine vertices and all edges
    let batch = |keys: &[&str]| -> Vec<u8> {
        let mut body = Vec::new();
        for k in keys {
            body.extend_from_slice(
                format!("{{\"_id\":\"users/{}\",\"score\":1}}\n", k).as_bytes(),
            );
        }
        body
    };
    let batches = vec![
        batch(&["a", "b", "c"]),
        batch(&["d", "e", "f"]),
        batch(&["g", "h", "i"]),
    ];
    let vcols = vec![described("users", vec!["score"])];
    let ecols = vec![described("knows", vec!["score"])];
    let orders: Vec<Vec<usize>> = vec![vec![0, 1, 2], vec![2, 0, 1], vec![1, 2, 0]];
    for order in orders {
        let mut g = NumpyGraph::new();
        for bi in order {
            let docs = parse_batch(&batches[bi], LoadStrategy::Dump).unwrap();
            receive_vertices(&mut g, docs, &vcols).unwrap();
        }
        assert_eq!(count_vertices(&g, b"users"), 9);
        let edge_body =
            b"{\"_id\":\"knows/1\",\"_from\":\"users/a\",\"_to\":\"users/b\",\"score\":1}\n{\"_id\":\"knows/2\",\"_from\":\"users/c\",\"_to\":\"users/d\",\"score\":1}\n"
                .to_vec();
        let edocs = parse_batch(&edge_body, LoadStrategy::Dump).unwrap();
        receive_edges(&mut g, edocs, &ecols).unwrap();
        assert_eq!(count_edges(&g), 2);
    }
}

#[test]
fn vertex_without_id_rejects_the_whole_batch() {
    // the bad document is second: the first must not slip in either
    let good = JsonValue::Obj(vec![
        ("_id".to_string(), JsonValue::Str("users/a".to_string())),
        ("score".to_string(), JsonValue::Num("1".to_string())),
    ]);
    let bad = JsonValue::Obj(vec![(
        "score".to_string(),
        JsonValue::Num("1".to_string()),
    )]);
    let mut g = NumpyGraph::new();
    let r = receive_vertices(&mut g, vec![good, bad], &vec![described("users", vec!["score"])]);
    assert_eq!(r.unwrap_err(), ReceiveError::MissingId);
    assert_eq!(count_vertices(&g, b"users"), 0);
    assert_eq!(g.cols_to_keys_to_inds.keys.len(), 0);
}

#[test]
fn vertex_with_malformed_id_rejects_the_whole_batch() {
    let bad = JsonValue::Obj(vec![(
        "_id".to_string(),
        JsonValue::Str("no-slash".to_string()),
    )]);
    let mut g = NumpyGraph::new();
    let r = receive_vertices(&mut g, vec![bad], &vec![described("users", vec!["score"])]);
    assert_eq!(r.unwrap_err(), ReceiveError::MalformedId);
}

#[test]
fn edge_with_malformed_endpoint_rejects_the_whole_batch() {
    let good = JsonValue::Obj(vec![
        ("_id".to_string(), JsonValue::Str("knows/1".to_string())),
        ("_from".to_string(), JsonValue::Str("users/a".to_string())),
        ("_to".to_string(), JsonValue::Str("users/b".to_string())),
    ]);
    let bad = JsonValue::Obj(vec![
        ("_id".to_string(), JsonValue::Str("knows/2".to_string())),
        ("_from".to_string(), JsonValue::Str("no-slash".to_string())),
        ("_to".to_string(), JsonValue::Str("users/b".to_string())),
    ]);
    let cols = vec![described("knows", vec![])];
    let mut g = NumpyGraph::new();
    let r = receive_edges(&mut g, vec![good, bad], &cols);
    assert_eq!(r.unwrap_err(), ReceiveError::MalformedEndpoint);
    assert_eq!(count_edges(&g), 0);
    assert_eq!(g.coo_by_from_edge_to.len(), 0);
}

#[test]
fn scope_skip_holds_end_to_end() {
    // an edge referencing a collection outside the requested vertex set is
    // dropped without error and reaches no bucket
    let vbody = b"{\"_id\":\"users/a\",\"score\":1}\n".to_vec();
    let mut g = NumpyGraph::new();
    let docs = parse_batch(&vbody, LoadStrategy::Dump).unwrap();
    receive_vertices(&mut g, docs, &vec![described("users", vec!["score"])]).unwrap();
    let ebody = b"{\"_id\":\"knows/1\",\"_from\":\"ghosts/g\",\"_to\":\"users/a\",\"score\":1}\n".to_vec();
    let edocs = parse_batch(&ebody, LoadStrategy::Dump).unwrap();
    receive_edges(&mut g, edocs, &vec![described("knows", vec!["score"])]).unwrap();
    assert_eq!(count_edges(&g), 0);
    assert_eq!(g.coo_by_from_edge_to.len(), 0);
}

#[test]
fn duplicate_field_names_contribute_one_column() {
    // a repeated field name is deduplicated, so the document contributes
    // one feature row per name
    let body = b"{\"_id\":\"users/a\",\"score\":7}\n".to_vec();
    let docs = parse_batch(&body, LoadStrategy::Dump).unwrap();
    let cols = vec![described("users", vec!["score", "score"])];
    let mut g = NumpyGraph::new();
    receive_vertices(&mut g, docs, &cols).unwrap();
    let table = &g.cols_to_features.vals[0];
    assert_eq!(table.keys.len(), 1);
    assert_eq!(table.vals[0], vec![vec!["7".to_string()]]);
}
