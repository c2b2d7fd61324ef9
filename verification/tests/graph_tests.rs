//! End-to-end tests through the graph facade: the builder, relationships,
//! traversal, validation and cascading deletion.

use u_forge_ai::json::JsonValue;
use u_forge_ai::schema::{ObjectTypeSchema, PropertySchema, ValidationRule};
use u_forge_ai::types::{ChunkType, EdgeType, ObjectMetadata};
use u_forge_ai::{KnowledgeGraph, ObjectBuilder};

#[test]
fn test_basic_graph_operations() {
    let mut graph = KnowledgeGraph::new();

    let gandalf_id = ObjectBuilder::character("Gandalf".to_string())
        .with_description("A wise wizard of great power".to_string())
        .with_property("race".to_string(), "Maiar".to_string())
        .with_tag("wizard".to_string())
        .add_to_graph(&mut graph)
        .unwrap();

    let frodo_id = ObjectBuilder::character("Frodo Baggins".to_string())
        .with_description("A brave hobbit from the Shire".to_string())
        .with_property("race".to_string(), "Hobbit".to_string())
        .with_tag("ringbearer".to_string())
        .add_to_graph(&mut graph)
        .unwrap();

    graph
        .connect_objects_str(gandalf_id, frodo_id, "knows")
        .unwrap();

    let gandalf = graph.get_object(gandalf_id).unwrap();
    assert_eq!(gandalf.name, "Gandalf");
    assert_eq!(gandalf.object_type, "character");

    let frodo = graph.get_object(frodo_id).unwrap();
    assert_eq!(frodo.name, "Frodo Baggins");

    let gandalf_relationships = graph.get_relationships(gandalf_id);
    assert_eq!(gandalf_relationships.len(), 1);
    assert_eq!(gandalf_relationships[0].to, frodo_id);
    assert_eq!(
        gandalf_relationships[0].edge_type,
        EdgeType::from_str("knows")
    );

    let gandalf_neighbors = graph.get_neighbors(gandalf_id);
    assert_eq!(gandalf_neighbors.len(), 1);
    assert_eq!(gandalf_neighbors[0], frodo_id);

    let chunk_id = graph
        .add_text_chunk(
            gandalf_id,
            "Gandalf appeared at Bilbo's birthday party in a spectacular fashion.".to_string(),
            ChunkType::UserNote,
        )
        .unwrap();

    let chunks = graph.get_text_chunks(gandalf_id);
    assert_eq!(chunks.len(), 1);
    assert_eq!(chunks[0].id, chunk_id);

    let subgraph = graph.query_subgraph(gandalf_id, 1);
    assert_eq!(subgraph.objects.len(), 2);
    assert_eq!(subgraph.edges.len(), 2);
    assert_eq!(subgraph.chunks.len(), 1);

    let stats = graph.get_stats();
    assert_eq!(stats.node_count, 2);
    assert_eq!(stats.edge_count, 1);
    assert_eq!(stats.chunk_count, 1);
    assert!(stats.total_tokens > 0);
}

#[test]
fn test_find_by_name() {
    let mut graph = KnowledgeGraph::new();

    let _gandalf_id = ObjectBuilder::character("Gandalf".to_string())
        .add_to_graph(&mut graph)
        .unwrap();

    let found = graph.find_by_name("character", "Gandalf");
    assert_eq!(found.len(), 1);
    assert_eq!(found[0].name, "Gandalf");
}

#[test]
fn test_weighted_relationships() {
    let mut graph = KnowledgeGraph::new();

    let sauron_id = ObjectBuilder::character("Sauron".to_string())
        .add_to_graph(&mut graph)
        .unwrap();
    let frodo_id = ObjectBuilder::character("Frodo".to_string())
        .add_to_graph(&mut graph)
        .unwrap();

    graph
        .connect_objects_weighted_str(sauron_id, frodo_id, "enemy_of", (0.9f32).to_bits())
        .unwrap();

    let relationships = graph.get_relationships(sauron_id);
    assert_eq!(relationships.len(), 1);
    assert_eq!(relationships[0].weight_bits, (0.9f32).to_bits());
    assert_eq!(relationships[0].edge_type, EdgeType::from_str("enemy_of"));
}

#[test]
fn test_complex_world_scenario() {
    let mut graph = KnowledgeGraph::new();

    let shire_id = ObjectBuilder::location("The Shire".to_string())
        .with_description("A peaceful land of rolling green hills".to_string())
        .add_to_graph(&mut graph)
        .unwrap();

    let bag_end_id = ObjectBuilder::location("Bag End".to_string())
        .with_description("Bilbo's hobbit hole".to_string())
        .add_to_graph(&mut graph)
        .unwrap();

    let frodo_id = ObjectBuilder::character("Frodo Baggins".to_string())
        .with_description("A hobbit of the Shire".to_string())
        .add_to_graph(&mut graph)
        .unwrap();

    let ring_id = ObjectBuilder::item("The One Ring".to_string())
        .with_description("The master ring of power".to_string())
        .add_to_graph(&mut graph)
        .unwrap();

    let fellowship_id = ObjectBuilder::faction("Fellowship of the Ring".to_string())
        .with_description("Nine companions united to destroy the Ring".to_string())
        .add_to_graph(&mut graph)
        .unwrap();

    graph
        .connect_objects_str(bag_end_id, shire_id, "located_in")
        .unwrap();
    graph
        .connect_objects_str(frodo_id, bag_end_id, "located_in")
        .unwrap();
    graph
        .connect_objects_str(frodo_id, ring_id, "owned_by")
        .unwrap();
    graph
        .connect_objects_str(frodo_id, fellowship_id, "member_of")
        .unwrap();

    let frodo_world = graph.query_subgraph(frodo_id, 2);

    assert_eq!(frodo_world.objects.len(), 5);
    assert!(frodo_world.edges.len() >= 4);

    let stats = graph.get_stats();
    assert_eq!(stats.node_count, 5);
    assert_eq!(stats.edge_count, 4);
}

#[test]
fn test_schema_integration() {
    let mut graph = KnowledgeGraph::new();

    let spell_schema = ObjectTypeSchema::new("spell".to_string(), "A magical spell".to_string())
        .with_property("level".to_string(), PropertySchema::number("Spell level"))
        .with_property("school".to_string(), PropertySchema::string("School of magic"))
        .with_required_property("level".to_string());

    graph.register_object_type("spell", spell_schema).unwrap();

    let spell = ObjectBuilder::custom("spell".to_string(), "Fireball".to_string())
        .with_json_property("level".to_string(), JsonValue::Int(3))
        .with_json_property("school".to_string(), JsonValue::Str("Evocation".to_string()))
        .build();

    let validation_result = graph.validate_object(&spell).unwrap();
    assert!(validation_result.valid);

    let spell_id = graph.add_object_validated(spell).unwrap();

    let retrieved_spell = graph.get_object(spell_id).unwrap();
    assert_eq!(retrieved_spell.object_type, "spell");
    assert_eq!(retrieved_spell.name, "Fireball");

    let stats = graph.get_schema_stats("default").unwrap();
    assert!(stats.object_type_count >= 7);
}

#[test]
fn test_validation_failure() {
    let mut graph = KnowledgeGraph::new();

    let invalid_object = ObjectMetadata::new("unknown_type".to_string(), "Test".to_string());

    let validation_result = graph.validate_object(&invalid_object).unwrap();
    assert!(!validation_result.valid);
    assert!(!validation_result.errors.is_empty());

    let result = graph.add_object_validated(invalid_object);
    assert!(result.is_err());
}

#[test]
fn test_cascading_delete_scenario() {
    let mut graph = KnowledgeGraph::new();

    let a = ObjectBuilder::character("Gandalf".to_string())
        .add_to_graph(&mut graph)
        .unwrap();
    let b = ObjectBuilder::character("Frodo".to_string())
        .add_to_graph(&mut graph)
        .unwrap();
    graph.connect_objects_str(a, b, "knows").unwrap();

    let a_edges = graph.get_relationships(a);
    assert_eq!(a_edges.len(), 1);
    assert_eq!(a_edges[0].to, b);
    assert_eq!(a_edges[0].edge_type.as_str(), "knows");
    assert_eq!(a_edges[0].weight_bits, (1.0f32).to_bits());
    let b_edges = graph.get_relationships(b);
    assert_eq!(b_edges.len(), 1);
    assert_eq!(b_edges[0].from, a);

    graph.delete_object(a).unwrap();

    assert!(graph.get_object(a).is_none());
    assert_eq!(graph.get_relationships(b).len(), 0);
    assert_eq!(graph.find_by_name("character", "Gandalf").len(), 0);
}

#[test]
fn test_spell_range_and_enum_violations() {
    let mut graph = KnowledgeGraph::new();

    let spell_schema = ObjectTypeSchema::new("spell".to_string(), "A magical spell".to_string())
        .with_property(
            "level".to_string(),
            PropertySchema::number("Spell level")
                .with_validation(ValidationRule::new().with_value_range(Some(0), Some(9))),
        )
        .with_property(
            "school".to_string(),
            PropertySchema::new(
                u_forge_ai::schema::PropertyType::Enum(vec![
                    "Evocation".to_string(),
                    "Abjuration".to_string(),
                ]),
                "School of magic".to_string(),
            ),
        )
        .with_required_property("level".to_string());

    graph.register_object_type("spell", spell_schema).unwrap();

    let bad = ObjectBuilder::custom("spell".to_string(), "Bad".to_string())
        .with_json_property("level".to_string(), JsonValue::Int(15))
        .with_json_property("school".to_string(), JsonValue::Str("Pyromancy".to_string()))
        .build();

    let result = graph.validate_object(&bad).unwrap();
    assert!(!result.valid);
    assert!(result.errors.len() >= 2);
}
