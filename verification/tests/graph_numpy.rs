use phenolrs::graph::NumpyGraph;
use phenolrs::json::JsonValue;

fn fields() -> Vec<String> {
    vec!["@collection_name".to_string(), "weight".to_string()]
}

fn vertex_columns(col: &str, weight: &str) -> Vec<JsonValue> {
    vec![
        JsonValue::Str(col.to_string()),
        JsonValue::Num(weight.to_string()),
    ]
}

fn col_index(g: &NumpyGraph, col: &[u8], key: &[u8]) -> Option<usize> {
    for i in 0..g.cols_to_keys_to_inds.keys.len() {
        if g.cols_to_keys_to_inds.keys[i] == col.to_vec() {
            let inner = &g.cols_to_keys_to_inds.vals[i];
            for j in 0..inner.keys.len() {
                if inner.keys[j] == key.to_vec() {
                    return Some(inner.vals[j]);
                }
            }
            return None;
        }
    }
    None
}

#[test]
fn indices_are_dense_and_first_seen() {
    let mut g = NumpyGraph::new();
    let f = fields();
    g.insert_vertex(b"users/alice".to_vec(), vertex_columns("users", "1"), &f);
    g.insert_vertex(b"users/bob".to_vec(), vertex_columns("users", "2"), &f);
    assert_eq!(col_index(&g, b"users", b"alice"), Some(0));
    assert_eq!(col_index(&g, b"users", b"bob"), Some(1));
}

#[test]
fn repeated_key_keeps_its_index() {
    let mut g = NumpyGraph::new();
    let f = fields();
    g.insert_vertex(b"users/alice".to_vec(), vertex_columns("users", "1"), &f);
    g.insert_vertex(b"users/bob".to_vec(), vertex_columns("users", "2"), &f);
    g.insert_vertex(b"users/alice".to_vec(), vertex_columns("users", "9"), &f);
    assert_eq!(col_index(&g, b"users", b"alice"), Some(0));
    assert_eq!(col_index(&g, b"users", b"bob"), Some(1));
    // the repeated document was skipped whole: no third index, no extra
    // feature row
    let inner = &g.cols_to_keys_to_inds.vals[0];
    assert_eq!(inner.keys.len(), 2);
    let table = &g.cols_to_features.vals[0];
    assert_eq!(table.keys[0], "weight");
    assert_eq!(table.vals[0], vec![vec!["1".to_string()], vec!["2".to_string()]]);
}

#[test]
fn vertex_without_numeric_feature_is_not_inserted() {
    let mut g = NumpyGraph::new();
    let f = fields();
    let cols = vec![
        JsonValue::Str("users".to_string()),
        JsonValue::Str("not a number".to_string()),
    ];
    g.insert_vertex(b"users/alice".to_vec(), cols, &f);
    assert_eq!(g.cols_to_keys_to_inds.keys.len(), 0);
}

#[test]
fn array_feature_keeps_element_texts() {
    let mut g = NumpyGraph::new();
    let f = fields();
    let cols = vec![
        JsonValue::Str("users".to_string()),
        JsonValue::Arr(vec![
            JsonValue::Num("1.5".to_string()),
            JsonValue::Num("2".to_string()),
        ]),
    ];
    g.insert_vertex(b"users/alice".to_vec(), cols, &f);
    let table = &g.cols_to_features.vals[0];
    assert_eq!(table.vals[0], vec![vec!["1.5".to_string(), "2".to_string()]]);
}

#[test]
fn edge_joins_its_coo_bucket() {
    let mut g = NumpyGraph::new();
    let f = fields();
    g.insert_vertex(b"users/alice".to_vec(), vertex_columns("users", "1"), &f);
    g.insert_vertex(b"users/bob".to_vec(), vertex_columns("users", "2"), &f);
    let ecols = vec![JsonValue::Str("knows".to_string()), JsonValue::Num("1".to_string())];
    let r = g.insert_edge(b"users/alice".to_vec(), b"users/bob".to_vec(), ecols, &f);
    assert!(r.is_ok());
    assert_eq!(g.coo_by_from_edge_to.len(), 1);
    let b = &g.coo_by_from_edge_to[0];
    assert_eq!(b.edge_col, b"knows".to_vec());
    assert_eq!(b.from_col, b"users".to_vec());
    assert_eq!(b.to_col, b"users".to_vec());
    assert_eq!(b.from_inds, vec![0]);
    assert_eq!(b.to_inds, vec![1]);
}

#[test]
fn edge_outside_requested_scope_is_dropped_silently() {
    let mut g = NumpyGraph::new();
    let f = fields();
    g.insert_vertex(b"users/alice".to_vec(), vertex_columns("users", "1"), &f);
    let ecols = vec![JsonValue::Str("knows".to_string()), JsonValue::Num("1".to_string())];
    // the `ghosts` collection was never requested as a vertex collection
    let r = g.insert_edge(b"ghosts/g1".to_vec(), b"users/alice".to_vec(), ecols, &f);
    assert!(r.is_ok());
    assert_eq!(g.coo_by_from_edge_to.len(), 0);
}

#[test]
fn edge_with_unknown_key_leaves_only_the_bucket() {
    let mut g = NumpyGraph::new();
    let f = fields();
    g.insert_vertex(b"users/alice".to_vec(), vertex_columns("users", "1"), &f);
    let ecols = vec![JsonValue::Str("knows".to_string()), JsonValue::Num("1".to_string())];
    let r = g.insert_edge(b"users/alice".to_vec(), b"users/nobody".to_vec(), ecols, &f);
    assert!(r.is_ok());
    assert_eq!(g.coo_by_from_edge_to.len(), 1);
    assert_eq!(g.coo_by_from_edge_to[0].from_inds.len(), 0);
}

#[test]
fn every_coo_entry_references_an_assigned_index() {
    let mut g = NumpyGraph::new();
    let f = fields();
    g.insert_vertex(b"users/a".to_vec(), vertex_columns("users", "1"), &f);
    g.insert_vertex(b"users/b".to_vec(), vertex_columns("users", "2"), &f);
    g.insert_vertex(b"items/x".to_vec(), vertex_columns("items", "3"), &f);
    let e = |from: &str, to: &str, g: &mut NumpyGraph| {
        let ecols = vec![JsonValue::Str("likes".to_string()), JsonValue::Num("1".to_string())];
        g.insert_edge(from.as_bytes().to_vec(), to.as_bytes().to_vec(), ecols, &fields()).unwrap();
    };
    e("users/a", "items/x", &mut g);
    e("users/b", "items/x", &mut g);
    for b in &g.coo_by_from_edge_to {
        let from_len = {
            let mut l = 0;
            for i in 0..g.cols_to_keys_to_inds.keys.len() {
                if g.cols_to_keys_to_inds.keys[i] == b.from_col {
                    l = g.cols_to_keys_to_inds.vals[i].keys.len();
                }
            }
            l
        };
        for ix in &b.from_inds {
            assert!(*ix < from_len);
        }
    }
}
