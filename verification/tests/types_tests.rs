//! Tests of the core data types: objects, edges, chunks and query results.

use u_forge_ai::json::JsonValue;
use u_forge_ai::types::{
    ChunkType, Edge, EdgeType, ObjectMetadata, ObjectType, QueryResult, TextChunk,
};

#[test]
fn test_object_metadata_creation() {
    let mut obj = ObjectMetadata::new("character".to_string(), "Gandalf".to_string())
        .with_description("A wise wizard".to_string())
        .with_property("race".to_string(), "Maiar".to_string());

    assert_eq!(obj.name, "Gandalf");
    assert_eq!(obj.object_type, "character");
    assert_eq!(obj.description, Some("A wise wizard".to_string()));
    assert_eq!(obj.get_property("race"), Some("Maiar".to_string()));

    obj.add_tag("wizard".to_string());
    obj.add_tag("wizard".to_string());
    assert_eq!(obj.tags.len(), 1);
    assert_eq!(obj.tags[0], "wizard");
}

#[test]
fn test_object_metadata_json_properties() {
    let mut damage_fields: Vec<(String, JsonValue)> = Vec::new();
    damage_fields.push(("dice".to_string(), JsonValue::Str("8d6".to_string())));
    damage_fields.push(("type".to_string(), JsonValue::Str("fire".to_string())));

    let obj = ObjectMetadata::new("spell".to_string(), "Fireball".to_string())
        .with_json_property("level".to_string(), JsonValue::Int(3))
        .with_json_property("damage".to_string(), JsonValue::Object(damage_fields));

    match obj.get_json_property("level") {
        Some(JsonValue::Int(n)) => assert_eq!(*n, 3),
        other => panic!("unexpected level value: {:?}", other),
    }
    match obj.get_json_property("damage") {
        Some(JsonValue::Object(_)) => {}
        other => panic!("unexpected damage value: {:?}", other),
    }
}

#[test]
fn test_backward_compatibility() {
    let obj = ObjectMetadata::new_with_type(ObjectType::Character, "Frodo".to_string());
    assert_eq!(obj.object_type, "character");
}

#[test]
fn test_edge_creation() {
    let id1: u128 = 101;
    let id2: u128 = 202;

    let edge = Edge::new(id1, id2, EdgeType::Knows)
        .with_weight((0.8f32).to_bits())
        .with_metadata("context".to_string(), "fellowship".to_string());

    assert_eq!(edge.from, id1);
    assert_eq!(edge.to, id2);
    assert_eq!(edge.edge_type, EdgeType::Knows);
    assert_eq!(edge.weight_bits, (0.8f32).to_bits());
    assert_eq!(
        edge.metadata.get("context"),
        Some(&"fellowship".to_string())
    );
}

#[test]
fn test_text_chunk_creation() {
    let obj_id: u128 = 7;
    let content = "This is a test description with some content.".to_string();

    let chunk = TextChunk::new(obj_id, content.clone(), ChunkType::Description);

    assert_eq!(chunk.object_id, obj_id);
    assert_eq!(chunk.content, content);
    assert!(chunk.token_count > 0);
}

#[test]
fn test_query_result_token_budget() {
    let obj_id: u128 = 9;

    let chunk1 = TextChunk::new(obj_id, "Short text".to_string(), ChunkType::Description);
    let chunk2 = TextChunk::new(
        obj_id,
        "This is a much longer piece of text that should have more tokens".to_string(),
        ChunkType::UserNote,
    );

    let mut result = QueryResult::new();
    result.add_chunk(&chunk1);
    assert!(!result.would_exceed_budget(&chunk2, 100));

    result.add_chunk(&chunk2);
    let large_chunk = TextChunk::new(obj_id, "x".repeat(1000), ChunkType::Description);
    assert!(result.would_exceed_budget(&large_chunk, 100));
}

#[test]
fn test_token_count_floor() {
    assert_eq!(u_forge_ai::estimate_token_count(""), 1);
    assert_eq!(u_forge_ai::estimate_token_count("abcd"), 1);
    assert_eq!(u_forge_ai::estimate_token_count("abcdefgh"), 2);
    assert_eq!(u_forge_ai::estimate_token_count(&"x".repeat(1000)), 250);
}

#[test]
fn test_edge_kind_names() {
    assert_eq!(EdgeType::Knows.as_str(), "knows");
    assert_eq!(EdgeType::from_str("knows"), EdgeType::Knows);
    assert_eq!(EdgeType::from_str("ally_of"), EdgeType::AllyOf);
    assert_eq!(
        EdgeType::from_str("mentors"),
        EdgeType::Custom("mentors".to_string())
    );
    assert_eq!(EdgeType::from_str("mentors").as_str(), "mentors");
}
