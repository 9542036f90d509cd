use phenolrs::graph::GraphError;
use phenolrs::graph_nx::NetworkXGraph;
use phenolrs::json::JsonValue;

fn nx(is_directed: bool, is_multigraph: bool, symmetrize: bool) -> NetworkXGraph {
    NetworkXGraph::new(true, true, false, false, is_directed, is_multigraph, symmetrize)
}

fn efields() -> Vec<String> {
    vec!["@collection_name".to_string()]
}

fn insert(g: &mut NetworkXGraph, from: &str, to: &str) -> Result<(), GraphError> {
    let cols = vec![JsonValue::Str("knows".to_string())];
    g.insert_edge(from.as_bytes().to_vec(), to.as_bytes().to_vec(), cols, &efields())
}

fn adj_get<'a, V>(m: &'a phenolrs::assoc::StrMap<V>, k: &str) -> Option<&'a V> {
    for i in 0..m.keys.len() {
        if m.keys[i] == k {
            return Some(&m.vals[i]);
        }
    }
    None
}

#[test]
fn simple_graph_rejects_a_duplicate_edge() {
    let mut g = nx(false, false, false);
    assert!(insert(&mut g, "u/a", "u/b").is_ok());
    let second = insert(&mut g, "u/a", "u/b");
    assert_eq!(second.unwrap_err(), GraphError::DuplicateEdge);
}

#[test]
fn multigraph_accepts_the_duplicate_with_local_index_one() {
    let mut g = nx(false, true, false);
    assert!(insert(&mut g, "u/a", "u/b").is_ok());
    assert!(insert(&mut g, "u/a", "u/b").is_ok());
    // each undirected insertion contributes the same local index twice
    assert_eq!(g.edge_indices, vec![0, 0, 1, 1]);
    let inner = adj_get(&g.adj_map_multigraph, "u/a").unwrap();
    let parallel = adj_get(inner, "u/b").unwrap();
    assert_eq!(parallel.len(), 2);
}

#[test]
fn digraph_without_symmetrization_populates_succ_and_pred_only_forward() {
    let mut g = nx(true, false, false);
    assert!(insert(&mut g, "u/a", "u/b").is_ok());
    let succ_a = adj_get(&g.adj_map_digraph.succ, "u/a").unwrap();
    assert!(adj_get(succ_a, "u/b").is_some());
    let pred_b = adj_get(&g.adj_map_digraph.pred, "u/b").unwrap();
    assert!(adj_get(pred_b, "u/a").is_some());
    // the target gains no successor entry of its own
    assert!(adj_get(&g.adj_map_digraph.succ, "u/b").is_none());
}

#[test]
fn symmetrized_digraph_mirrors_both_maps() {
    let mut g = nx(true, false, true);
    assert!(insert(&mut g, "u/a", "u/b").is_ok());
    let succ_b = adj_get(&g.adj_map_digraph.succ, "u/b").unwrap();
    assert!(adj_get(succ_b, "u/a").is_some());
    let pred_a = adj_get(&g.adj_map_digraph.pred, "u/a").unwrap();
    assert!(adj_get(pred_a, "u/b").is_some());
}

#[test]
fn undirected_coo_mirrors_each_edge() {
    let mut g = nx(false, false, false);
    assert!(insert(&mut g, "u/a", "u/b").is_ok());
    assert_eq!(g.coo.0, vec![0, 1]);
    assert_eq!(g.coo.1, vec![1, 0]);
}

#[test]
fn directed_coo_keeps_one_direction() {
    let mut g = nx(true, false, false);
    assert!(insert(&mut g, "u/a", "u/b").is_ok());
    assert_eq!(g.coo.0, vec![0]);
    assert_eq!(g.coo.1, vec![1]);
}

#[test]
fn node_record_carries_the_identifier() {
    let mut g = NetworkXGraph::new(true, true, false, false, false, false, false);
    let cols = vec![JsonValue::Num("7".to_string())];
    let f = vec!["score".to_string()];
    g.insert_vertex(b"u/a".to_vec(), cols, &f);
    let props = adj_get(&g.node_map, "u/a").unwrap();
    assert_eq!(props.entries.len(), 1);
    assert_eq!(props.entries[0].0, "score");
    assert_eq!(props.entries[0].1, JsonValue::Num("7".to_string()));
}

#[test]
fn non_numeric_edge_scalar_is_refused_untouched() {
    let mut g = nx(true, false, false);
    let cols = vec![
        JsonValue::Str("knows".to_string()),
        JsonValue::Str("oops".to_string()),
    ];
    let f = vec!["@collection_name".to_string(), "weight".to_string()];
    let r = g.insert_edge(b"u/a".to_vec(), b"u/b".to_vec(), cols, &f);
    assert_eq!(r.unwrap_err(), GraphError::NonNumericEdgeValue);
    assert_eq!(g.coo.0.len(), 0);
    assert_eq!(g.vertex_id_to_index.keys.len(), 0);
}

#[test]
fn edge_scalars_join_the_value_table() {
    let mut g = nx(true, false, false);
    let cols = vec![
        JsonValue::Str("knows".to_string()),
        JsonValue::Num("2.5".to_string()),
    ];
    let f = vec!["@collection_name".to_string(), "weight".to_string()];
    assert!(g.insert_edge(b"u/a".to_vec(), b"u/b".to_vec(), cols, &f).is_ok());
    assert_eq!(g.edge_values.keys[0], "weight");
    assert_eq!(g.edge_values.vals[0], vec!["2.5".to_string()]);
}

#[test]
fn whole_document_mode_keeps_every_member_and_the_identifier() {
    let mut g = NetworkXGraph::new(true, true, true, true, false, false, false);
    let doc = JsonValue::Obj(vec![
        ("name".to_string(), JsonValue::Str("alice".to_string())),
        ("age".to_string(), JsonValue::Num("25".to_string())),
    ]);
    let no_fields: Vec<String> = Vec::new();
    g.insert_vertex(b"u/a".to_vec(), vec![doc], &no_fields);
    let props = adj_get(&g.node_map, "u/a").unwrap();
    assert_eq!(props.get(&"name".to_string()), Some(&JsonValue::Str("alice".to_string())));
    assert_eq!(props.get(&"age".to_string()), Some(&JsonValue::Num("25".to_string())));
    assert_eq!(props.get(&"_id".to_string()), Some(&JsonValue::Str("u/a".to_string())));
}

#[test]
fn null_and_reserved_fields_are_not_node_properties() {
    let mut g = NetworkXGraph::new(true, true, false, false, false, false, false);
    let cols = vec![
        JsonValue::Str("users".to_string()),
        JsonValue::Null,
        JsonValue::Num("1".to_string()),
    ];
    let f = vec![
        "@collection_name".to_string(),
        "gone".to_string(),
        "kept".to_string(),
    ];
    g.insert_vertex(b"u/a".to_vec(), cols, &f);
    let props = adj_get(&g.node_map, "u/a").unwrap();
    assert!(!props.contains_key(&"@collection_name".to_string()));
    assert!(!props.contains_key(&"gone".to_string()));
    assert_eq!(props.get(&"kept".to_string()), Some(&JsonValue::Num("1".to_string())));
}
