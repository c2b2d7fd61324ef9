//! Tests of schema definitions, property schemas and validation results.

use u_forge_ai::schema::{
    EdgeTypeSchema, ObjectTypeSchema, PropertySchema, SchemaDefinition, ValidationError,
    ValidationErrorType, ValidationResult, ValidationRule,
};

#[test]
fn test_schema_creation() {
    let schema = SchemaDefinition::create_default();
    assert_eq!(schema.name, "default");
    assert!(schema.object_types.contains_key("character"));
    assert!(schema.object_types.contains_key("location"));
    assert!(schema.edge_types.contains_key("knows"));
}

#[test]
fn test_object_type_schema() {
    let character_schema = ObjectTypeSchema::default_character();
    assert_eq!(character_schema.name, "character");
    assert!(character_schema.properties.contains_key("age"));
    assert!(character_schema
        .required_properties
        .contains(&"name".to_string()));
    assert!(character_schema.allowed_edges.contains(&"knows".to_string()));
}

#[test]
fn test_property_schema() {
    let prop = PropertySchema::string("Test description")
        .with_validation(ValidationRule::required().with_length_range(Some(1), Some(100)));

    assert_eq!(prop.property_type.name(), "string");
    assert!(prop.validation.is_some());
    assert!(prop.validation.unwrap().required);
}

#[test]
fn test_edge_type_schema() {
    let edge_schema = EdgeTypeSchema::default_knows();
    assert_eq!(edge_schema.name, "knows");
    assert!(edge_schema.bidirectional);
    assert!(edge_schema
        .allowed_source_types
        .contains(&"character".to_string()));
}

#[test]
fn test_validation_result() {
    let mut result = ValidationResult::valid();
    assert!(result.valid);

    result.add_error(ValidationError {
        property: "test".to_string(),
        message: "Test error".to_string(),
        error_type: ValidationErrorType::MissingRequired,
    });

    assert!(!result.valid);
    assert_eq!(result.errors.len(), 1);
}
