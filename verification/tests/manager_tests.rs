//! Tests of the schema engine: loading, validation, registration and
//! statistics.

use u_forge_ai::json::JsonValue;
use u_forge_ai::manager::{validate_property_value, SchemaManager};
use u_forge_ai::schema::{ObjectTypeSchema, PropertySchema, PropertyType, ValidationRule};
use u_forge_ai::store::KnowledgeGraphStorage;
use u_forge_ai::types::{Edge, EdgeType, ObjectMetadata};

#[test]
fn test_schema_loading_and_caching() {
    let mut store = KnowledgeGraphStorage::new();
    let manager = SchemaManager::new();

    {
        let schema1 = manager.load_schema(&mut store, "default").unwrap();
        assert_eq!(schema1.name, "default");
    }

    let schema2 = manager.load_schema(&mut store, "default").unwrap();
    assert_eq!(schema2.name, "default");

    assert!(schema2.object_types.contains_key("character"));
    assert!(schema2.object_types.contains_key("location"));
    assert!(schema2.edge_types.contains_key("knows"));
}

#[test]
fn test_object_validation() {
    let mut store = KnowledgeGraphStorage::new();
    let manager = SchemaManager::new();

    let character = ObjectMetadata::new("character".to_string(), "Gandalf".to_string())
        .with_property("age".to_string(), "2019".to_string())
        .with_property("species".to_string(), "Maiar".to_string())
        .with_property("occupation".to_string(), "Wizard".to_string());

    let result = manager.validate_object(&mut store, &character).unwrap();
    assert!(result.valid);

    let invalid_character = ObjectMetadata::new("character".to_string(), "Incomplete".to_string())
        .with_property("species".to_string(), "Human".to_string());

    let result = manager
        .validate_object(&mut store, &invalid_character)
        .unwrap();
    assert!(result.errors.is_empty() || result.warnings.len() > 0);
}

#[test]
fn test_edge_validation() {
    let mut store = KnowledgeGraphStorage::new();
    let manager = SchemaManager::new();

    let character1 = ObjectMetadata::new("character".to_string(), "Frodo".to_string());
    let character2 = ObjectMetadata::new("character".to_string(), "Sam".to_string());

    let edge = Edge::new(character1.id, character2.id, EdgeType::from_str("knows"));

    let result = manager
        .validate_edge(&mut store, &edge, &character1, &character2)
        .unwrap();
    assert!(result.valid);

    let location = ObjectMetadata::new("location".to_string(), "Shire".to_string());
    let invalid_edge = Edge::new(location.id, character1.id, EdgeType::from_str("knows"));

    let result = manager
        .validate_edge(&mut store, &invalid_edge, &location, &character1)
        .unwrap();
    assert!(result.errors.len() > 0 || result.warnings.len() > 0);
}

#[test]
fn test_schema_registration() {
    let mut store = KnowledgeGraphStorage::new();
    let manager = SchemaManager::new();

    let spell_schema = ObjectTypeSchema::new("spell".to_string(), "A magical spell".to_string())
        .with_property("level".to_string(), PropertySchema::number("Spell level"))
        .with_property("school".to_string(), PropertySchema::string("School of magic"))
        .with_required_property("level".to_string());

    manager
        .register_object_type(&mut store, "default", "spell", spell_schema)
        .unwrap();

    {
        let schema = manager.load_schema(&mut store, "default").unwrap();
        assert!(schema.object_types.contains_key("spell"));
    }

    let spell = ObjectMetadata::new("spell".to_string(), "Fireball".to_string())
        .with_json_property("level".to_string(), JsonValue::Int(3))
        .with_json_property("school".to_string(), JsonValue::Str("Evocation".to_string()));

    let result = manager.validate_object(&mut store, &spell).unwrap();
    assert!(result.valid);
}

#[test]
fn test_schema_stats() {
    let mut store = KnowledgeGraphStorage::new();
    let manager = SchemaManager::new();

    let stats = manager.get_schema_stats(&mut store, "default").unwrap();
    assert_eq!(stats.name, "default");
    assert!(stats.object_type_count >= 6);
    assert!(stats.edge_type_count >= 6);
    assert!(stats.total_properties > 0);
}

#[test]
fn test_property_validation() {
    let prop_schema = PropertySchema::string("Test property")
        .with_validation(ValidationRule::new().with_length_range(Some(5), Some(10)));

    let valid_value = JsonValue::Str("hello".to_string());
    let result = validate_property_value("test", &valid_value, &prop_schema);
    assert!(result.is_ok());

    let invalid_value = JsonValue::Str("hi".to_string());
    let result = validate_property_value("test", &invalid_value, &prop_schema);
    assert!(result.is_err());
}

#[test]
fn test_enum_validation() {
    let enum_schema = PropertySchema::new(
        PropertyType::Enum(vec![
            "red".to_string(),
            "green".to_string(),
            "blue".to_string(),
        ]),
        "Color choice".to_string(),
    );

    let valid_value = JsonValue::Str("red".to_string());
    let result = validate_property_value("color", &valid_value, &enum_schema);
    assert!(result.is_ok());

    let invalid_value = JsonValue::Str("purple".to_string());
    let result = validate_property_value("color", &invalid_value, &enum_schema);
    assert!(result.is_err());
}

#[test]
fn test_number_range_rule() {
    let prop_schema = PropertySchema::number("Spell level")
        .with_validation(ValidationRule::new().with_value_range(Some(0), Some(9)));

    assert!(validate_property_value("level", &JsonValue::Int(3), &prop_schema).is_ok());
    assert!(validate_property_value("level", &JsonValue::Int(15), &prop_schema).is_err());
    assert!(validate_property_value("level", &JsonValue::Int(-1), &prop_schema).is_err());
}

#[test]
fn test_pattern_rule() {
    let prop_schema = PropertySchema::string("Identifier")
        .with_validation(ValidationRule::new().with_pattern("^[a-z]+$".to_string()));

    assert!(validate_property_value("ident", &JsonValue::Str("abc".to_string()), &prop_schema).is_ok());
    assert!(
        validate_property_value("ident", &JsonValue::Str("Abc9".to_string()), &prop_schema).is_err()
    );

    let broken = PropertySchema::string("Identifier")
        .with_validation(ValidationRule::new().with_pattern("[".to_string()));
    assert!(validate_property_value("ident", &JsonValue::Str("abc".to_string()), &broken).is_err());
}

#[test]
fn test_schema_delete_and_list() {
    let mut store = KnowledgeGraphStorage::new();
    let manager = SchemaManager::new();

    manager.load_schema(&mut store, "default").unwrap();
    manager.load_schema(&mut store, "homebrew").unwrap();

    let names = manager.list_schemas(&store);
    assert!(names.contains(&"default".to_string()));
    assert!(names.contains(&"homebrew".to_string()));

    manager.delete_schema(&mut store, "homebrew").unwrap();
    let names = manager.list_schemas(&store);
    assert!(!names.contains(&"homebrew".to_string()));
}
