//! Tests of ingestion: dump-line entries, metadata application and schema
//! file conversion. Textual JSON is parsed here at the boundary, as the
//! surrounding runtime would, and handed to the engine as its own JSON
//! values.

use u_forge_ai::ingest::{DataIngestion, JsonEntry, SchemaIngestion};
use u_forge_ai::json::JsonValue;
use u_forge_ai::schema::PropertyType;
use u_forge_ai::store::KnowledgeGraphStorage;
use u_forge_ai::types::EdgeType;

fn to_engine_json(v: &serde_json::Value) -> JsonValue {
    match v {
        serde_json::Value::Null => JsonValue::Null,
        serde_json::Value::Bool(b) => JsonValue::Bool(*b),
        serde_json::Value::Number(n) => JsonValue::Int(n.as_i64().unwrap_or(0)),
        serde_json::Value::String(s) => JsonValue::Str(s.clone()),
        serde_json::Value::Array(items) => {
            JsonValue::Array(items.iter().map(to_engine_json).collect())
        }
        serde_json::Value::Object(fields) => JsonValue::Object(
            fields
                .iter()
                .map(|(k, val)| (k.clone(), to_engine_json(val)))
                .collect(),
        ),
    }
}

fn parse_line(line: &str) -> Option<JsonEntry> {
    let parsed: serde_json::Value = serde_json::from_str(line).ok()?;
    JsonEntry::from_json(&to_engine_json(&parsed))
}

#[test]
fn test_json_parsing() {
    let json_data = r#"{"type": "node", "name": "Test Location", "nodeType": "location", "metadata": ["tag1", "property:value"]}
{"type": "edge", "from": "Location A", "to": "Location B", "edgeType": "connects_to"}"#;

    let mut nodes = Vec::new();
    let mut edges = Vec::new();

    for line in json_data.lines() {
        match parse_line(line) {
            Some(entry @ JsonEntry::Node { .. }) => nodes.push(entry),
            Some(entry @ JsonEntry::Edge { .. }) => edges.push(entry),
            None => {}
        }
    }

    assert_eq!(nodes.len(), 1);
    assert_eq!(edges.len(), 1);
}

#[test]
fn test_metadata_parsing() {
    let store = KnowledgeGraphStorage::new();

    let metadata = vec![
        "simple_tag".to_string(),
        "key:value".to_string(),
        "another:complex value".to_string(),
    ];

    let object = DataIngestion::create_object_by_type(&store, "Test", "location", &metadata);

    assert!(object.tags.contains(&"simple_tag".to_string()));
    assert_eq!(object.get_property("key"), Some("value".to_string()));
    assert_eq!(
        object.get_property("another"),
        Some("complex value".to_string())
    );
}

#[test]
fn test_metadata_padding_trimmed() {
    let store = KnowledgeGraphStorage::new();

    let metadata = vec![
        "  padded_key  :  padded value  ".to_string(),
        "\tkind : dragon\n".to_string(),
    ];

    let object = DataIngestion::create_object_by_type(&store, "Test", "location", &metadata);

    assert_eq!(
        object.get_property("padded_key"),
        Some("padded value".to_string())
    );
    assert_eq!(object.get_property("kind"), Some("dragon".to_string()));
}

#[test]
fn test_common_edge_kinds_attached() {
    let docs: Vec<JsonValue> = Vec::new();
    let schema = SchemaIngestion::build_schema_from_docs("empty", "0.1.0", &docs);
    for kind in [
        "owned_by",
        "led_by",
        "allied_with",
        "rival_of",
        "subfaction_of",
        "a_part_of",
        "contains",
        "present_in",
        "takes_place_in",
        "located_at",
        "controlled_by",
        "occurred_at",
        "located_in",
        "originates_from",
        "member_of",
        "player_can",
        "npc_can",
        "sourced_from",
        "applies_to",
        "modifies_source",
        "associated_with",
        "found_at",
        "subquest_of",
        "affects_faction",
    ] {
        let es = schema.edge_types.get(kind).expect(kind);
        assert_eq!(es.name, kind);
        assert!(!es.allowed_source_types.is_empty());
        assert!(!es.allowed_target_types.is_empty());
        assert!(!es.bidirectional);
    }
    let owned = schema.edge_types.get("owned_by").unwrap();
    assert_eq!(
        owned.allowed_source_types,
        vec!["artifact", "currency", "inventory", "transportation"]
    );
    assert_eq!(
        owned.allowed_target_types,
        vec!["player_character", "npc", "faction"]
    );
}

#[test]
fn test_import_entries_counts() {
    let mut store = KnowledgeGraphStorage::new();
    let mut ingestion = DataIngestion::new();

    let lines = [
        r#"{"type": "node", "name": "Rivendell", "nodeType": "location", "metadata": []}"#,
        r#"{"type": "node", "name": "Elrond", "nodeType": "npc", "metadata": ["wise"]}"#,
        r#"not json at all"#,
        r#"{"type": "edge", "from": "Elrond", "to": "Rivendell", "edgeType": "located_in"}"#,
    ];
    let entries: Vec<Option<JsonEntry>> = lines.iter().map(|l| parse_line(l)).collect();

    ingestion.import_entries(&mut store, &entries).unwrap();

    let stats = ingestion.get_stats();
    assert_eq!(stats.objects_created, 2);
    assert_eq!(stats.parse_errors, 1);
    assert_eq!(stats.relationships_created, 1);

    let found = store.find_nodes_by_name("character", "Elrond");
    assert_eq!(found.len(), 1);
    let elrond = found[0].id;
    assert_eq!(store.get_edges(elrond).len(), 1);
}

#[test]
fn test_import_entries_store_effects() {
    let mut store = KnowledgeGraphStorage::new();
    let mut ingestion = DataIngestion::new();

    let lines = [
        r#"{"type": "node", "name": "Bree", "nodeType": "location", "metadata": ["region: Eriador", "settlement"]}"#,
        r#"{"type": "node", "name": "Barliman", "nodeType": "npc", "metadata": []}"#,
        r#"{"type": "edge", "from": "Barliman", "to": "Bree", "edgeType": "located_in"}"#,
    ];
    let entries: Vec<Option<JsonEntry>> = lines.iter().map(|l| parse_line(l)).collect();

    ingestion.import_entries(&mut store, &entries).unwrap();

    let bree_hits = store.find_nodes_by_name("location", "Bree");
    assert_eq!(bree_hits.len(), 1);
    let bree = bree_hits[0];
    assert_eq!(bree.get_property("region"), Some("Eriador".to_string()));
    assert!(bree.tags.contains(&"settlement".to_string()));

    let barliman_hits = store.find_nodes_by_name("character", "Barliman");
    assert_eq!(barliman_hits.len(), 1);
    let barliman = barliman_hits[0].id;
    let bree_id = bree.id;

    let edges = store.get_edges(barliman);
    assert_eq!(edges.len(), 1);
    assert_eq!(edges[0].from, barliman);
    assert_eq!(edges[0].to, bree_id);
    assert_eq!(edges[0].edge_type, EdgeType::from_str("located_in"));
}

fn schema_doc(content: &str) -> JsonValue {
    let parsed: serde_json::Value = serde_json::from_str(content).unwrap();
    to_engine_json(&parsed)
}

#[test]
fn test_load_simple_schema() {
    let schema_content = r#"{
            "name": "add_test_object",
            "description": "A test object",
            "properties": {
                "name": {
                    "type": "string",
                    "description": "Object name",
                    "required": true
                },
                "value": {
                    "type": "number",
                    "description": "Object value",
                    "required": false
                }
            }
        }"#;

    let docs = vec![schema_doc(schema_content)];
    let schema = SchemaIngestion::build_schema_from_docs("test_schema", "1.0.0", &docs);

    assert_eq!(schema.name, "test_schema");
    assert!(schema.object_types.contains_key("test_object"));

    let object_type = schema.object_types.get("test_object").unwrap();
    assert_eq!(object_type.name, "test_object");
    assert!(object_type.properties.contains_key("name"));
    assert!(object_type.properties.contains_key("value"));
    assert!(object_type
        .required_properties
        .contains(&"name".to_string()));
}

#[test]
fn test_enum_property_conversion() {
    let schema_content = r#"{
            "name": "add_quest",
            "description": "A quest object",
            "properties": {
                "status": {
                    "type": "string",
                    "description": "Quest status",
                    "enum": ["Active", "Completed", "Failed"],
                    "required": true
                }
            }
        }"#;

    let docs = vec![schema_doc(schema_content)];
    let schema = SchemaIngestion::build_schema_from_docs("test_schema", "1.0.0", &docs);

    let quest_type = schema.object_types.get("quest").unwrap();
    let status_prop = quest_type.properties.get("status").unwrap();

    match &status_prop.property_type {
        PropertyType::Enum(values) => {
            assert_eq!(values.len(), 3);
            assert!(values.contains(&"Active".to_string()));
            assert!(values.contains(&"Completed".to_string()));
            assert!(values.contains(&"Failed".to_string()));
        }
        _ => panic!("Expected enum property type"),
    }
}

#[test]
fn test_relationship_property_conversion() {
    let schema_content = r#"{
            "name": "add_character",
            "description": "A character object",
            "properties": {
                "location": {
                    "type": "string",
                    "description": "Character location",
                    "relationship": {
                        "edgeType": "located_in",
                        "description": "Current location"
                    }
                }
            }
        }"#;

    let docs = vec![schema_doc(schema_content)];
    let schema = SchemaIngestion::build_schema_from_docs("test_schema", "1.0.0", &docs);

    let character_type = schema.object_types.get("character").unwrap();
    let location_prop = character_type.properties.get("location").unwrap();

    assert!(location_prop.relationship.is_some());
    let relationship = location_prop.relationship.as_ref().unwrap();
    assert_eq!(relationship.edge_type, "located_in");
    assert!(character_type
        .allowed_edges
        .contains(&"located_in".to_string()));
}

#[test]
fn test_array_property_conversion() {
    let schema_content = r#"{
            "name": "add_inventory",
            "description": "An inventory object",
            "properties": {
                "items": {
                    "type": "array",
                    "description": "List of items",
                    "items": {
                        "type": "string"
                    }
                }
            }
        }"#;

    let docs = vec![schema_doc(schema_content)];
    let schema = SchemaIngestion::build_schema_from_docs("test_schema", "1.0.0", &docs);

    let inventory_type = schema.object_types.get("inventory").unwrap();
    let items_prop = inventory_type.properties.get("items").unwrap();

    match &items_prop.property_type {
        PropertyType::Array(element_type) => match element_type.as_ref() {
            PropertyType::Str => {}
            _ => panic!("Expected string array element type"),
        },
        _ => panic!("Expected array property type"),
    }
}

#[test]
fn test_schema_validation() {
    let valid_content = r#"{
            "name": "add_test",
            "description": "Valid schema",
            "properties": {
                "name": {
                    "type": "string",
                    "description": "Name field"
                }
            }
        }"#;

    let invalid_content = r#"{
            "invalid": "schema"
        }"#;

    let files = vec![
        ("valid.json".to_string(), Some(schema_doc(valid_content))),
        (
            "invalid.json".to_string(),
            Some(schema_doc(invalid_content)),
        ),
    ];

    let errors = SchemaIngestion::validate_schema_directory(&files);
    assert_eq!(errors.len(), 1);
    assert!(errors[0].contains("invalid.json"));
}

#[test]
fn test_extract_object_type_name() {
    assert_eq!(
        SchemaIngestion::extract_object_type_name("add_npc"),
        "npc".to_string()
    );
    assert_eq!(
        SchemaIngestion::extract_object_type_name("faction"),
        "faction".to_string()
    );
    assert_eq!(
        SchemaIngestion::extract_object_type_name("add_"),
        "".to_string()
    );
}

#[test]
fn test_schema_file_round_trip() {
    let schema_content = r#"{
            "name": "add_quest",
            "description": "A quest object",
            "properties": {
                "status": {
                    "type": "string",
                    "enum": ["Active", "Completed"],
                    "required": true
                }
            }
        }"#;

    let docs = vec![schema_doc(schema_content)];
    let built = SchemaIngestion::build_schema_from_docs("imported_schemas", "1.0", &docs);
    let built_object_types: Vec<String> = built
        .object_types
        .entries
        .iter()
        .map(|(k, _)| k.clone())
        .collect();
    let built_edge_count = built.edge_types.entries.len();

    let mut store = KnowledgeGraphStorage::new();
    store.save_schema(built).unwrap();

    let reloaded = store.get_schema("imported_schemas").unwrap();
    assert_eq!(reloaded.name, "imported_schemas");
    assert_eq!(reloaded.version, "1.0");
    assert_eq!(reloaded.edge_types.entries.len(), built_edge_count);
    for name in &built_object_types {
        assert!(reloaded.object_types.contains_key(name));
    }
    assert!(reloaded.object_types.contains_key("quest"));
}

#[test]
fn test_malformed_schema_file_errors() {
    // Not an object at all.
    let r = SchemaIngestion::convert_json_to_object_schema(&JsonValue::Str("nope".to_string()));
    assert!(matches!(
        r,
        Err(u_forge_ai::store::GraphError::MalformedSchemaFile(_))
    ));

    // A property without a "type" field.
    let prop_fields = vec![(
        "description".to_string(),
        JsonValue::Str("no type here".to_string()),
    )];
    let r = SchemaIngestion::convert_json_property_to_schema(&prop_fields);
    assert!(matches!(
        r,
        Err(u_forge_ai::store::GraphError::MalformedSchemaFile(_))
    ));
}
