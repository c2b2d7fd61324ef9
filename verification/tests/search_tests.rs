//! Tests of the search engine's verified side: the name index, previews,
//! the vector side table, and hybrid results. The nearest-neighbor index
//! itself lives with the runtime; its hit lists are simulated here.

use u_forge_ai::search::{make_preview, VectorSearchEngine};
use u_forge_ai::store::GraphError;
use u_forge_ai::types::ObjectType;

#[test]
fn test_rebuild_and_search_name_fst() {
    let mut engine = VectorSearchEngine::new();

    let gandalf_id: u128 = 1;
    let frodo_id: u128 = 2;
    let sauron_id: u128 = 3;

    let objects = vec![
        (gandalf_id, "Gandalf".to_string(), ObjectType::Character),
        (frodo_id, "Frodo Baggins".to_string(), ObjectType::Character),
        (sauron_id, "Sauron".to_string(), ObjectType::Character),
    ];

    engine.rebuild_name_index(objects).unwrap();

    let gandalf_results = engine.search_exact("Gandalf", 5).unwrap();
    assert_eq!(gandalf_results.len(), 1);
    assert_eq!(gandalf_results[0].name, "Gandalf");
    assert_eq!(gandalf_results[0].object_id, gandalf_id);

    let frodo_results = engine.search_exact("Frodo", 5).unwrap();
    assert_eq!(frodo_results.len(), 1);
    assert_eq!(frodo_results[0].name, "Frodo Baggins");
}

#[test]
fn test_search_exact_prefix_order_and_limit() {
    let mut engine = VectorSearchEngine::new();

    let objects = vec![
        (10u128, "Bree".to_string(), ObjectType::Location),
        (11u128, "Bag End".to_string(), ObjectType::Location),
        (12u128, "Barad-dur".to_string(), ObjectType::Location),
        (13u128, "Rivendell".to_string(), ObjectType::Location),
    ];
    engine.rebuild_name_index(objects).unwrap();

    let hits = engine.search_exact("Ba", 10).unwrap();
    assert_eq!(hits.len(), 2);
    assert_eq!(hits[0].name, "Bag End");
    assert_eq!(hits[1].name, "Barad-dur");

    let limited = engine.search_exact("Ba", 1).unwrap();
    assert_eq!(limited.len(), 1);
    assert_eq!(limited[0].name, "Bag End");

    let none = engine.search_exact("Z", 10).unwrap();
    assert_eq!(none.len(), 0);
}

#[test]
fn test_duplicate_names_are_refused() {
    let mut engine = VectorSearchEngine::new();

    let objects = vec![
        (1u128, "Gandalf".to_string(), ObjectType::Character),
        (2u128, "Gandalf".to_string(), ObjectType::Character),
    ];
    match engine.rebuild_name_index(objects) {
        Err(GraphError::DuplicateName(name)) => assert_eq!(name, "Gandalf"),
        other => panic!("unexpected result: {:?}", other),
    }
    assert!(engine.search_exact("Gandalf", 5).unwrap().is_empty());
}

#[test]
fn test_search_without_index_is_empty() {
    let engine = VectorSearchEngine::new();
    assert!(engine.search_exact("anything", 5).unwrap().is_empty());
}

#[test]
fn test_register_chunk_and_resolve_hits() {
    let mut engine = VectorSearchEngine::new();

    let p0 = engine.register_chunk(100, 200, "Gandalf the wizard casts powerful spells");
    let p1 = engine.register_chunk(101, 201, "Frodo the hobbit carries the ring");
    assert_eq!(p0, 0);
    assert_eq!(p1, 1);

    let results = engine.resolve_hits(&vec![1, 0, 7]);
    assert_eq!(results.len(), 2);
    assert_eq!(results[0].chunk_id, 101);
    assert_eq!(results[0].object_id, 201);
    assert_eq!(results[1].chunk_id, 100);
    assert_eq!(
        results[1].text_preview,
        "Gandalf the wizard casts powerful spells"
    );
}

#[test]
fn test_hybrid_search() {
    let mut engine = VectorSearchEngine::new();

    let gandalf_id: u128 = 21;
    let frodo_id: u128 = 22;

    engine.register_chunk(31, gandalf_id, "Gandalf the wizard casts powerful spells");
    engine.register_chunk(32, frodo_id, "Frodo the hobbit carries the ring");

    let objects = vec![
        (gandalf_id, "Gandalf".to_string(), ObjectType::Character),
        (frodo_id, "Frodo Baggins".to_string(), ObjectType::Character),
    ];
    engine.rebuild_name_index(objects).unwrap();

    let results = engine.search_hybrid("Gandalf", &vec![0, 1], 2).unwrap();

    assert!(!results.semantic_results.is_empty());
    assert!(!results.exact_results.is_empty());

    let has_gandalf_exact = results.exact_results.iter().any(|r| r.name == "Gandalf");
    assert!(has_gandalf_exact);
}

#[test]
fn test_preview_truncation() {
    assert_eq!(make_preview("short text"), "short text");
    let long = "y".repeat(150);
    let preview = make_preview(&long);
    assert_eq!(preview.chars().count(), 100);
    assert!(preview.starts_with(&"y".repeat(97)));
    assert!(preview.ends_with("..."));
}
