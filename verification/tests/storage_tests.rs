//! Tests of the graph store: nodes, edges, chunks, traversal, deletion,
//! statistics and persisted schemas.

use u_forge_ai::schema::SchemaDefinition;
use u_forge_ai::store::KnowledgeGraphStorage;
use u_forge_ai::types::{ChunkType, Edge, EdgeType, ObjectMetadata, TextChunk};

#[test]
fn test_node_operations() {
    let mut storage = KnowledgeGraphStorage::new();

    let metadata = ObjectMetadata::new("character".to_string(), "Gandalf".to_string())
        .with_description("A wise wizard".to_string());
    let node_id = metadata.id;

    storage.upsert_node(metadata.clone()).unwrap();

    let retrieved = storage.get_node(node_id).unwrap();
    assert_eq!(retrieved.name, "Gandalf");
    assert_eq!(retrieved.object_type, "character");

    let found = storage.find_nodes_by_name("character", "Gandalf");
    assert_eq!(found.len(), 1);
    assert_eq!(found[0].id, node_id);
}

#[test]
fn test_edge_operations() {
    let mut storage = KnowledgeGraphStorage::new();

    let gandalf = ObjectMetadata::new("character".to_string(), "Gandalf".to_string());
    let frodo = ObjectMetadata::new("character".to_string(), "Frodo".to_string());
    let gandalf_id = gandalf.id;
    let frodo_id = frodo.id;

    storage.upsert_node(gandalf).unwrap();
    storage.upsert_node(frodo).unwrap();

    let edge = Edge::new(gandalf_id, frodo_id, EdgeType::from_str("knows"));
    storage.upsert_edge(edge).unwrap();

    let gandalf_edges = storage.get_edges(gandalf_id);
    assert_eq!(gandalf_edges.len(), 1);
    assert_eq!(gandalf_edges[0].to, frodo_id);
    assert_eq!(gandalf_edges[0].edge_type, EdgeType::from_str("knows"));

    let frodo_edges = storage.get_edges(frodo_id);
    assert_eq!(frodo_edges.len(), 1);
    assert_eq!(frodo_edges[0].from, gandalf_id);

    let gandalf_neighbors = storage.get_neighbors(gandalf_id);
    assert_eq!(gandalf_neighbors.len(), 1);
    assert_eq!(gandalf_neighbors[0], frodo_id);
}

#[test]
fn test_chunk_operations() {
    let mut storage = KnowledgeGraphStorage::new();

    let metadata = ObjectMetadata::new("location".to_string(), "Shire".to_string());
    let owner = metadata.id;
    storage.upsert_node(metadata).unwrap();

    let chunk = TextChunk::new(
        owner,
        "A peaceful land of rolling hills and green fields.".to_string(),
        ChunkType::Description,
    );
    let content = chunk.content.clone();

    storage.upsert_chunk(chunk).unwrap();

    let retrieved_chunks = storage.get_chunks_for_node(owner);
    assert_eq!(retrieved_chunks.len(), 1);
    assert_eq!(retrieved_chunks[0].content, content);
}

#[test]
fn test_subgraph_query() {
    let mut storage = KnowledgeGraphStorage::new();

    let gandalf = ObjectMetadata::new("character".to_string(), "Gandalf".to_string());
    let frodo = ObjectMetadata::new("character".to_string(), "Frodo".to_string());
    let sam = ObjectMetadata::new("character".to_string(), "Sam".to_string());
    let (g, f, s) = (gandalf.id, frodo.id, sam.id);

    storage.upsert_node(gandalf).unwrap();
    storage.upsert_node(frodo).unwrap();
    storage.upsert_node(sam).unwrap();

    storage
        .upsert_edge(Edge::new(g, f, EdgeType::from_str("knows")))
        .unwrap();
    storage
        .upsert_edge(Edge::new(f, s, EdgeType::from_str("ally_of")))
        .unwrap();

    let result = storage.query_subgraph(g, 2);

    assert_eq!(result.objects.len(), 3);
    assert_eq!(result.edges.len(), 4);
}

#[test]
fn test_node_deletion() {
    let mut storage = KnowledgeGraphStorage::new();

    let gandalf = ObjectMetadata::new("character".to_string(), "Gandalf".to_string());
    let frodo = ObjectMetadata::new("character".to_string(), "Frodo".to_string());
    let (g, f) = (gandalf.id, frodo.id);

    storage.upsert_node(gandalf).unwrap();
    storage.upsert_node(frodo).unwrap();
    storage
        .upsert_edge(Edge::new(g, f, EdgeType::from_str("knows")))
        .unwrap();

    storage.delete_node(g).unwrap();

    assert!(storage.get_node(g).is_none());

    let frodo_edges = storage.get_edges(f);
    assert_eq!(frodo_edges.len(), 0);

    let found = storage.find_nodes_by_name("character", "Gandalf");
    assert_eq!(found.len(), 0);
}

#[test]
fn test_stats() {
    let mut storage = KnowledgeGraphStorage::new();

    let gandalf = ObjectMetadata::new("character".to_string(), "Gandalf".to_string());
    let frodo = ObjectMetadata::new("character".to_string(), "Frodo".to_string());
    let (g, f) = (gandalf.id, frodo.id);

    storage.upsert_node(gandalf).unwrap();
    storage.upsert_node(frodo).unwrap();
    storage
        .upsert_edge(Edge::new(g, f, EdgeType::from_str("knows")))
        .unwrap();

    let chunk = TextChunk::new(
        g,
        "A wise wizard of great power.".to_string(),
        ChunkType::Description,
    );
    storage.upsert_chunk(chunk).unwrap();

    let stats = storage.get_stats();
    assert_eq!(stats.node_count, 2);
    assert_eq!(stats.edge_count, 1);
    assert_eq!(stats.chunk_count, 1);
    assert!(stats.total_tokens > 0);
}

#[test]
fn test_schema_operations() {
    let mut storage = KnowledgeGraphStorage::new();

    let schema = SchemaDefinition::create_default();

    storage.save_schema(schema).unwrap();

    let retrieved = storage.get_schema("default").unwrap();
    assert_eq!(retrieved.name, "default");
    assert_eq!(retrieved.version, "1.0.0");

    let schemas = storage.list_schemas();
    assert!(schemas.contains(&"default".to_string()));

    storage.delete_schema("default").unwrap();
    assert!(storage.get_schema("default").is_none());
}

#[test]
fn test_edge_upsert_idempotent() {
    let mut storage = KnowledgeGraphStorage::new();

    let a = ObjectMetadata::new("character".to_string(), "A".to_string());
    let b = ObjectMetadata::new("character".to_string(), "B".to_string());
    let (ia, ib) = (a.id, b.id);
    storage.upsert_node(a).unwrap();
    storage.upsert_node(b).unwrap();

    storage
        .upsert_edge(Edge::new(ia, ib, EdgeType::Knows))
        .unwrap();
    storage
        .upsert_edge(Edge::new(ia, ib, EdgeType::Knows))
        .unwrap();

    let edges = storage.get_edges(ia);
    assert_eq!(edges.len(), 1);
    let edges_b = storage.get_edges(ib);
    assert_eq!(edges_b.len(), 1);
}

#[test]
fn test_self_loop_lands_in_both_lists() {
    let mut storage = KnowledgeGraphStorage::new();

    let a = ObjectMetadata::new("character".to_string(), "A".to_string());
    let ia = a.id;
    storage.upsert_node(a).unwrap();

    storage
        .upsert_edge(Edge::new(ia, ia, EdgeType::Knows))
        .unwrap();

    let edges = storage.get_edges(ia);
    assert_eq!(edges.len(), 2);
    assert!(edges.iter().all(|e| e.from == ia && e.to == ia));

    storage
        .upsert_edge(Edge::new(ia, ia, EdgeType::Knows))
        .unwrap();
    let edges = storage.get_edges(ia);
    assert_eq!(edges.len(), 2);
}

#[test]
fn test_node_upsert_idempotent() {
    let mut storage = KnowledgeGraphStorage::new();

    let a = ObjectMetadata::new("character".to_string(), "A".to_string());
    let id = a.id;
    storage.upsert_node(a.clone()).unwrap();
    storage.upsert_node(a).unwrap();

    assert_eq!(storage.get_stats().node_count, 1);
    assert_eq!(storage.get_node(id).unwrap().name, "A");
}
