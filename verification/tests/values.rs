use phenolrs::config::{
    prepare_collection_fields, select_auth, AuthMethod, ClientConfig, CollectionDescription,
    DataLoadConfiguration, DatabaseConfiguration,
};
use phenolrs::json::{parse_value_to_vec, JsonValue, PropMap};

#[test]
fn numeric_values_become_text_vectors() {
    assert_eq!(
        parse_value_to_vec(&JsonValue::Num("2".to_string())),
        Some(vec!["2".to_string()])
    );
    let arr = JsonValue::Arr(vec![
        JsonValue::Num("1".to_string()),
        JsonValue::Num("2".to_string()),
    ]);
    assert_eq!(parse_value_to_vec(&arr), Some(vec!["1".to_string(), "2".to_string()]));
    let mixed = JsonValue::Arr(vec![
        JsonValue::Num("1".to_string()),
        JsonValue::Str("x".to_string()),
    ]);
    assert_eq!(parse_value_to_vec(&mixed), None);
    assert_eq!(parse_value_to_vec(&JsonValue::Str("1".to_string())), None);
    assert_eq!(parse_value_to_vec(&JsonValue::Null), None);
}

#[test]
fn property_maps_rewrite_in_place() {
    let mut m = PropMap::new();
    m.insert("a".to_string(), JsonValue::Num("1".to_string()));
    m.insert("b".to_string(), JsonValue::Null);
    m.insert("a".to_string(), JsonValue::Num("2".to_string()));
    assert_eq!(m.len(), 2);
    assert_eq!(m.get(&"a".to_string()), Some(&JsonValue::Num("2".to_string())));
    assert!(m.contains_key(&"b".to_string()));
    assert!(!m.contains_key(&"c".to_string()));
}

#[test]
fn client_config_builder_fills_the_defaults() {
    let c = ClientConfig::builder().use_tls(true).tls_cert_opt(Some("cert".to_string())).build();
    assert_eq!(c.n_retries, 5);
    assert!(c.use_tls);
    assert_eq!(c.tls_cert, Some("cert".to_string()));
    let c2 = ClientConfig::builder().n_retries(9).build();
    assert_eq!(c2.n_retries, 9);
    assert!(!c2.use_tls);
}

#[test]
fn load_configuration_defaults() {
    let c = DataLoadConfiguration::default();
    assert_eq!(c.parallelism, Some(5));
    assert_eq!(c.batch_size, Some(400000));
    assert_eq!(c.prefetch_count, 5);
    assert!(!c.load_all_vertex_attributes);
    assert!(!c.load_all_edge_attributes);
    assert_eq!(c.database_config.endpoints, vec!["http://localhost:8529".to_string()]);
    assert_eq!(c.database_config.username, Some("root".to_string()));
    let db = DatabaseConfiguration::default();
    assert_eq!(db.endpoints, vec!["http://localhost:8529".to_string()]);
    assert_eq!(db.username, Some("root".to_string()));
    assert_eq!(db.password, Some("".to_string()));
    assert_eq!(db.jwt_token, None);
}

#[test]
fn token_wins_over_basic_credentials() {
    let mut db = DatabaseConfiguration::default();
    db.jwt_token = Some("tok".to_string());
    match select_auth(&db) {
        AuthMethod::Bearer(t) => assert_eq!(t, "tok"),
        _ => panic!("expected a bearer token"),
    }
    db.jwt_token = None;
    match select_auth(&db) {
        AuthMethod::Basic(u, p) => {
            assert_eq!(u, "root");
            assert_eq!(p, Some("".to_string()));
        },
        _ => panic!("expected basic credentials"),
    }
    db.username = None;
    match select_auth(&db) {
        AuthMethod::NoAuth => {},
        _ => panic!("expected no authentication"),
    }
}

#[test]
fn collection_tag_is_prepended_for_selected_fields() {
    let cols = vec![CollectionDescription {
        name: "users".to_string(),
        fields: vec!["x".to_string()],
    }];
    let prepared = prepare_collection_fields(&cols, false);
    assert_eq!(prepared[0].fields, vec!["@collection_name".to_string(), "x".to_string()]);
    let whole = prepare_collection_fields(&cols, true);
    assert_eq!(whole[0].fields, vec!["x".to_string()]);
}

#[test]
fn field_lists_deduplicate_keeping_the_first() {
    let fields = vec![
        "a".to_string(),
        "b".to_string(),
        "a".to_string(),
        "c".to_string(),
        "b".to_string(),
    ];
    let d = phenolrs::config::dedup_fields(&fields);
    assert_eq!(d, vec!["a".to_string(), "b".to_string(), "c".to_string()]);
}
