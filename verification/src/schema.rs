//! Schema definitions: named collections of object-type and edge-type
//! descriptions with property schemas and validation rules, plus the
//! hard-coded default schema and the shape of validation results.

use crate::json::JsonValue;
use crate::kvmap::{str_eq, StrMap};
use crate::trusted::{fresh_id, now_micros};
use vstd::prelude::*;

verus! {

/// Cardinality constraints for relationships.
#[derive(Debug, Clone, Copy, PartialEq, Eq)]
pub enum Cardinality {
    OneToOne,
    OneToMany,
    ManyToOne,
    ManyToMany,
}

/// Relationship declared by a property that creates edges.
#[derive(Debug)]
pub struct RelationshipDefinition {
    pub edge_type: String,
    pub target_type: Option<String>,
    pub description: String,
    pub cardinality: Cardinality,
}

impl RelationshipDefinition {
    pub fn new(edge_type: String, description: String) -> (r: Self)
        ensures
            r.edge_type == edge_type,
            r.description == description,
            r.target_type is None,
            r.cardinality == Cardinality::ManyToMany,
    {
        RelationshipDefinition {
            edge_type,
            target_type: None,
            description,
            cardinality: Cardinality::ManyToMany,
        }
    }

    pub fn with_target_type(self, target_type: String) -> (r: Self)
        ensures
            r == (RelationshipDefinition { target_type: Some(target_type), ..self }),
    {
        RelationshipDefinition { target_type: Some(target_type), ..self }
    }

    pub fn with_cardinality(self, cardinality: Cardinality) -> (r: Self)
        ensures
            r == (RelationshipDefinition { cardinality, ..self }),
    {
        RelationshipDefinition { cardinality, ..self }
    }
}

/// Validation rule attached to a property schema.
#[derive(Debug)]
pub struct ValidationRule {
    pub min_length: Option<usize>,
    pub max_length: Option<usize>,
    pub min_value: Option<i64>,
    pub max_value: Option<i64>,
    pub pattern: Option<String>,
    pub allowed_values: Option<Vec<String>>,
    pub required: bool,
}

impl ValidationRule {
    pub fn new() -> (r: Self)
        ensures
            r.min_length is None,
            r.max_length is None,
            r.min_value is None,
            r.max_value is None,
            r.pattern is None,
            r.allowed_values is None,
            !r.required,
    {
        ValidationRule {
            min_length: None,
            max_length: None,
            min_value: None,
            max_value: None,
            pattern: None,
            allowed_values: None,
            required: false,
        }
    }

    pub fn required() -> (r: Self)
        ensures
            r.min_length is None,
            r.max_length is None,
            r.min_value is None,
            r.max_value is None,
            r.pattern is None,
            r.allowed_values is None,
            r.required,
    {
        ValidationRule { required: true, ..ValidationRule::new() }
    }

    pub fn with_length_range(self, min: Option<usize>, max: Option<usize>) -> (r: Self)
        ensures
            r == (ValidationRule { min_length: min, max_length: max, ..self }),
    {
        ValidationRule { min_length: min, max_length: max, ..self }
    }

    pub fn with_value_range(self, min: Option<i64>, max: Option<i64>) -> (r: Self)
        ensures
            r == (ValidationRule { min_value: min, max_value: max, ..self }),
    {
        ValidationRule { min_value: min, max_value: max, ..self }
    }

    pub fn with_allowed_values(self, values: Vec<String>) -> (r: Self)
        ensures
            r == (ValidationRule { allowed_values: Some(values), ..self }),
    {
        ValidationRule { allowed_values: Some(values), ..self }
    }

    pub fn with_pattern(self, pattern: String) -> (r: Self)
        ensures
            r == (ValidationRule { pattern: Some(pattern), ..self }),
    {
        ValidationRule { pattern: Some(pattern), ..self }
    }
}

/// Kinds of property values a schema can require.
#[derive(Debug)]
pub enum PropertyType {
    Str,
    Text,
    Number,
    Boolean,
    Array(Box<PropertyType>),
    Object(Vec<(String, PropertySchema)>),
    Reference(String),
    Enum(Vec<String>),
}

impl PropertyType {
    /// The kind's name.
    pub open spec fn spec_kind_name(&self) -> Seq<char> {
        match self {
            PropertyType::Str => "string"@,
            PropertyType::Text => "text"@,
            PropertyType::Number => "number"@,
            PropertyType::Boolean => "boolean"@,
            PropertyType::Array(_) => "array"@,
            PropertyType::Object(_) => "object"@,
            PropertyType::Reference(_) => "reference"@,
            PropertyType::Enum(_) => "enum"@,
        }
    }

    pub fn name(&self) -> (r: &'static str)
        ensures
            r@ == self.spec_kind_name(),
    {
        match self {
            PropertyType::Str => "string",
            PropertyType::Text => "text",
            PropertyType::Number => "number",
            PropertyType::Boolean => "boolean",
            PropertyType::Array(_) => "array",
            PropertyType::Object(_) => "object",
            PropertyType::Reference(_) => "reference",
            PropertyType::Enum(_) => "enum",
        }
    }
}

/// Schema of one property within an object or edge type.
#[derive(Debug)]
pub struct PropertySchema {
    pub property_type: PropertyType,
    pub description: String,
    pub validation: Option<ValidationRule>,
    pub relationship: Option<RelationshipDefinition>,
    pub default_value: Option<JsonValue>,
    pub metadata: StrMap<String>,
}

impl PropertySchema {
    pub fn new(property_type: PropertyType, description: String) -> (r: Self)
        ensures
            r.property_type == property_type,
            r.description == description,
            r.validation is None,
            r.relationship is None,
            r.default_value is None,
            r.metadata@ == Map::<Seq<char>, String>::empty(),
            r.metadata.wf(),
    {
        PropertySchema {
            property_type,
            description,
            validation: None,
            relationship: None,
            default_value: None,
            metadata: StrMap::new(),
        }
    }

    pub fn string(description: &str) -> (r: Self)
        ensures
            r.property_type is Str,
            r.description@ == description@,
            r.validation is None,
            r.relationship is None,
            r.metadata.wf(),
    {
        PropertySchema::new(PropertyType::Str, description.to_owned())
    }

    pub fn text(description: &str) -> (r: Self)
        ensures
            r.property_type is Text,
            r.description@ == description@,
            r.validation is None,
            r.relationship is None,
            r.metadata.wf(),
    {
        PropertySchema::new(PropertyType::Text, description.to_owned())
    }

    pub fn number(description: &str) -> (r: Self)
        ensures
            r.property_type is Number,
            r.description@ == description@,
            r.validation is None,
            r.relationship is None,
            r.metadata.wf(),
    {
        PropertySchema::new(PropertyType::Number, description.to_owned())
    }

    pub fn boolean(description: &str) -> (r: Self)
        ensures
            r.property_type is Boolean,
            r.description@ == description@,
            r.validation is None,
            r.relationship is None,
            r.metadata.wf(),
    {
        PropertySchema::new(PropertyType::Boolean, description.to_owned())
    }

    pub fn array(element_type: PropertyType) -> (r: Self)
        ensures
            r.property_type == PropertyType::Array(Box::new(element_type)),
            r.validation is None,
            r.relationship is None,
            r.metadata.wf(),
    {
        PropertySchema::new(PropertyType::Array(Box::new(element_type)), "Array of items".to_owned())
    }

    pub fn reference(target_type: &str) -> (r: Self)
        ensures
            r.property_type matches PropertyType::Reference(t) && t@ == target_type@,
            r.validation is None,
            r.relationship is None,
            r.metadata.wf(),
    {
        PropertySchema::new(PropertyType::Reference(target_type.to_owned()), "Reference".to_owned())
    }

    pub fn with_validation(self, validation: ValidationRule) -> (r: Self)
        ensures
            r == (PropertySchema { validation: Some(validation), ..self }),
    {
        PropertySchema { validation: Some(validation), ..self }
    }

    pub fn with_relationship(self, relationship: RelationshipDefinition) -> (r: Self)
        ensures
            r == (PropertySchema { relationship: Some(relationship), ..self }),
    {
        PropertySchema { relationship: Some(relationship), ..self }
    }

    pub fn with_default(self, default: JsonValue) -> (r: Self)
        ensures
            r == (PropertySchema { default_value: Some(default), ..self }),
    {
        PropertySchema { default_value: Some(default), ..self }
    }
}

/// Whether some string in the list reads as the given text.
pub open spec fn spec_has_string(list: Seq<String>, text: Seq<char>) -> bool {
    exists|i: int| 0 <= i < list.len() && #[trigger] list[i]@ == text
}

/// Whether a string list holds pairwise-distinct texts.
pub open spec fn spec_strings_distinct(list: Seq<String>) -> bool {
    forall|i: int, j: int| 0 <= i < j < list.len() ==> #[trigger] list[i]@ != #[trigger] list[j]@
}

/// Whether the list holds a string reading as the text.
pub fn list_has_string(list: &Vec<String>, text: &str) -> (r: bool)
    ensures
        r == spec_has_string(list@, text@),
{
    let mut i: usize = 0;
    while i < list.len()
        invariant
            i <= list@.len(),
            forall|j: int| 0 <= j < i ==> #[trigger] list@[j]@ != text@,
        decreases list@.len() - i,
    {
        if str_eq(list[i].as_str(), text) {
            return true;
        }
        i = i + 1;
    }
    false
}

/// Schema of one object type.
#[derive(Debug)]
pub struct ObjectTypeSchema {
    pub name: String,
    pub description: String,
    pub properties: StrMap<PropertySchema>,
    pub required_properties: Vec<String>,
    pub allowed_edges: Vec<String>,
    pub inheritance: Option<String>,
    pub metadata: StrMap<String>,
}

impl ObjectTypeSchema {
    pub open spec fn wf(&self) -> bool {
        self.properties.wf() && self.metadata.wf()
    }

    pub fn new(name: String, description: String) -> (r: Self)
        ensures
            r.name == name,
            r.description == description,
            r.properties@ == Map::<Seq<char>, PropertySchema>::empty(),
            r.required_properties@ == Seq::<String>::empty(),
            r.allowed_edges@ == Seq::<String>::empty(),
            r.inheritance is None,
            r.wf(),
    {
        ObjectTypeSchema {
            name,
            description,
            properties: StrMap::new(),
            required_properties: Vec::new(),
            allowed_edges: Vec::new(),
            inheritance: None,
            metadata: StrMap::new(),
        }
    }

    pub fn with_property(self, name: String, schema: PropertySchema) -> (r: Self)
        requires
            self.wf(),
        ensures
            r.wf(),
            r.name == self.name,
            r.description == self.description,
            r.properties@ == self.properties@.insert(name@, schema),
            r.required_properties == self.required_properties,
            r.allowed_edges == self.allowed_edges,
            r.inheritance == self.inheritance,
    {
        let mut s = self;
        s.properties.insert(name, schema);
        s
    }

    pub fn with_required_property(self, name: String) -> (r: Self)
        requires
            self.wf(),
        ensures
            r.wf(),
            r.name == self.name,
            r.description == self.description,
            r.properties == self.properties,
            r.allowed_edges == self.allowed_edges,
            r.inheritance == self.inheritance,
            spec_has_string(self.required_properties@, name@) ==> r.required_properties@
                == self.required_properties@,
            !spec_has_string(self.required_properties@, name@) ==> r.required_properties@
                == self.required_properties@.push(name),
            spec_has_string(r.required_properties@, name@),
            forall|t: Seq<char>|
                spec_has_string(self.required_properties@, t) ==> spec_has_string(
                    r.required_properties@,
                    t,
                ),
    {
        let mut s = self;
        if !list_has_string(&s.required_properties, name.as_str()) {
            proof {
                let pre = s.required_properties@;
                let post = s.required_properties@.push(name);
                assert forall|t: Seq<char>| spec_has_string(pre, t) implies spec_has_string(
                    post,
                    t,
                ) by {
                    let i = choose|i: int| 0 <= i < pre.len() && #[trigger] pre[i]@ == t;
                    assert(post[i]@ == t);
                }
            }
            s.required_properties.push(name);
            proof {
                assert(s.required_properties@[s.required_properties@.len() - 1]@ == name@);
            }
        } else {
            proof {
                assert(spec_has_string(s.required_properties@, name@));
            }
        }
        s
    }

    pub fn with_allowed_edge(self, edge_type: String) -> (r: Self)
        requires
            self.wf(),
        ensures
            r.wf(),
            r.name == self.name,
            r.description == self.description,
            r.properties == self.properties,
            r.required_properties == self.required_properties,
            r.inheritance == self.inheritance,
            spec_has_string(self.allowed_edges@, edge_type@) ==> r.allowed_edges@
                == self.allowed_edges@,
            !spec_has_string(self.allowed_edges@, edge_type@) ==> r.allowed_edges@
                == self.allowed_edges@.push(edge_type),
            spec_has_string(r.allowed_edges@, edge_type@),
            forall|t: Seq<char>|
                spec_has_string(self.allowed_edges@, t) ==> spec_has_string(r.allowed_edges@, t),
    {
        let mut s = self;
        if !list_has_string(&s.allowed_edges, edge_type.as_str()) {
            proof {
                let pre = s.allowed_edges@;
                let post = s.allowed_edges@.push(edge_type);
                assert forall|t: Seq<char>| spec_has_string(pre, t) implies spec_has_string(
                    post,
                    t,
                ) by {
                    let i = choose|i: int| 0 <= i < pre.len() && #[trigger] pre[i]@ == t;
                    assert(post[i]@ == t);
                }
            }
            s.allowed_edges.push(edge_type);
            proof {
                assert(s.allowed_edges@[s.allowed_edges@.len() - 1]@ == edge_type@);
            }
        } else {
            proof {
                assert(spec_has_string(s.allowed_edges@, edge_type@));
            }
        }
        s
    }

    pub fn default_character() -> (r: Self)
        ensures
            r.name@ == "character"@,
            r.wf(),
            spec_has_string(r.required_properties@, "name"@),
    {
        ObjectTypeSchema::new(
            "character".to_owned(),
            "A character in the game world".to_owned(),
        ).with_property("age".to_owned(), PropertySchema::string("Character's age")).with_property(
            "gender".to_owned(),
            PropertySchema::string("Character's gender"),
        ).with_property(
            "occupation".to_owned(),
            PropertySchema::string("Character's occupation"),
        ).with_property(
            "status".to_owned(),
            PropertySchema::string("Character's current status"),
        ).with_property(
            "species".to_owned(),
            PropertySchema::string("Character's species"),
        ).with_property(
            "background".to_owned(),
            PropertySchema::text("Character's background story"),
        ).with_property(
            "equipment".to_owned(),
            PropertySchema::array(PropertyType::Str),
        ).with_property("secrets".to_owned(), PropertySchema::array(PropertyType::Str)).with_property(
            "goals".to_owned(),
            PropertySchema::array(PropertyType::Str),
        ).with_required_property("name".to_owned()).with_allowed_edge(
            "knows".to_owned(),
        ).with_allowed_edge("enemy_of".to_owned()).with_allowed_edge(
            "ally_of".to_owned(),
        ).with_allowed_edge("member_of".to_owned())
    }

    pub fn default_location() -> (r: Self)
        ensures
            r.name@ == "location"@,
            r.wf(),
            spec_has_string(r.required_properties@, "name"@),
            spec_has_string(r.required_properties@, "type"@),
    {
        ObjectTypeSchema::new(
            "location".to_owned(),
            "A location in the game world".to_owned(),
        ).with_property("type".to_owned(), PropertySchema::string("Type of location")).with_property(
            "status".to_owned(),
            PropertySchema::string("Current state of location"),
        ).with_property(
            "atmosphere".to_owned(),
            PropertySchema::string("General feel/mood"),
        ).with_property("size".to_owned(), PropertySchema::string("Size or scale")).with_property(
            "danger_level".to_owned(),
            PropertySchema::string("Level of danger"),
        ).with_property(
            "notable_features".to_owned(),
            PropertySchema::array(PropertyType::Str),
        ).with_required_property("name".to_owned()).with_required_property(
            "type".to_owned(),
        ).with_allowed_edge("contains".to_owned()).with_allowed_edge("connected_to".to_owned())
    }

    pub fn default_faction() -> (r: Self)
        ensures
            r.name@ == "faction"@,
            r.wf(),
            spec_has_string(r.required_properties@, "name"@),
            spec_has_string(r.required_properties@, "type"@),
    {
        ObjectTypeSchema::new(
            "faction".to_owned(),
            "An organization or group".to_owned(),
        ).with_property("type".to_owned(), PropertySchema::string("Type of faction")).with_property(
            "goals".to_owned(),
            PropertySchema::array(PropertyType::Str),
        ).with_property(
            "resources".to_owned(),
            PropertySchema::array(PropertyType::Str),
        ).with_property(
            "reputation".to_owned(),
            PropertySchema::string("Public reputation"),
        ).with_required_property("name".to_owned()).with_required_property(
            "type".to_owned(),
        ).with_allowed_edge("allied_with".to_owned()).with_allowed_edge(
            "enemy_of".to_owned(),
        ).with_allowed_edge("led_by".to_owned())
    }

    pub fn default_item() -> (r: Self)
        ensures
            r.name@ == "item"@,
            r.wf(),
            spec_has_string(r.required_properties@, "name"@),
    {
        ObjectTypeSchema::new(
            "item".to_owned(),
            "An item, artifact, or object".to_owned(),
        ).with_property("type".to_owned(), PropertySchema::string("Type of item")).with_property(
            "rarity".to_owned(),
            PropertySchema::string("Item rarity"),
        ).with_property("value".to_owned(), PropertySchema::string("Item value")).with_property(
            "properties".to_owned(),
            PropertySchema::array(PropertyType::Str),
        ).with_required_property("name".to_owned()).with_allowed_edge(
            "owned_by".to_owned(),
        ).with_allowed_edge("located_in".to_owned())
    }

    pub fn default_event() -> (r: Self)
        ensures
            r.name@ == "event"@,
            r.wf(),
            spec_has_string(r.required_properties@, "name"@),
    {
        ObjectTypeSchema::new(
            "event".to_owned(),
            "An event or happening".to_owned(),
        ).with_property(
            "date".to_owned(),
            PropertySchema::string("When the event occurred"),
        ).with_property("location".to_owned(), PropertySchema::reference("location")).with_property(
            "participants".to_owned(),
            PropertySchema::array(PropertyType::Reference("character".to_owned())),
        ).with_property(
            "outcome".to_owned(),
            PropertySchema::string("Result of the event"),
        ).with_required_property("name".to_owned()).with_allowed_edge(
            "happened_at".to_owned(),
        ).with_allowed_edge("caused_by".to_owned()).with_allowed_edge("leads_to".to_owned())
    }

    pub fn default_session() -> (r: Self)
        ensures
            r.name@ == "session"@,
            r.wf(),
            spec_has_string(r.required_properties@, "name"@),
    {
        ObjectTypeSchema::new(
            "session".to_owned(),
            "A game session".to_owned(),
        ).with_property("date".to_owned(), PropertySchema::string("Session date")).with_property(
            "participants".to_owned(),
            PropertySchema::array(PropertyType::Reference("character".to_owned())),
        ).with_property("summary".to_owned(), PropertySchema::text("Session summary")).with_property(
            "notes".to_owned(),
            PropertySchema::text("Session notes"),
        ).with_required_property("name".to_owned()).with_allowed_edge("includes".to_owned())
    }
}

/// Schema of one edge type.
#[derive(Debug)]
pub struct EdgeTypeSchema {
    pub name: String,
    pub description: String,
    pub allowed_source_types: Vec<String>,
    pub allowed_target_types: Vec<String>,
    pub properties: StrMap<PropertySchema>,
    pub bidirectional: bool,
    pub metadata: StrMap<String>,
}

impl EdgeTypeSchema {
    pub open spec fn wf(&self) -> bool {
        self.properties.wf() && self.metadata.wf()
    }

    pub fn new(name: String, description: String) -> (r: Self)
        ensures
            r.name == name,
            r.description == description,
            r.allowed_source_types@ == Seq::<String>::empty(),
            r.allowed_target_types@ == Seq::<String>::empty(),
            r.properties@ == Map::<Seq<char>, PropertySchema>::empty(),
            !r.bidirectional,
            r.wf(),
    {
        EdgeTypeSchema {
            name,
            description,
            allowed_source_types: Vec::new(),
            allowed_target_types: Vec::new(),
            properties: StrMap::new(),
            bidirectional: false,
            metadata: StrMap::new(),
        }
    }

    pub fn with_source_types(self, types: Vec<String>) -> (r: Self)
        ensures
            r == (EdgeTypeSchema { allowed_source_types: types, ..self }),
    {
        EdgeTypeSchema { allowed_source_types: types, ..self }
    }

    pub fn with_target_types(self, types: Vec<String>) -> (r: Self)
        ensures
            r == (EdgeTypeSchema { allowed_target_types: types, ..self }),
    {
        EdgeTypeSchema { allowed_target_types: types, ..self }
    }

    pub fn bidirectional(self) -> (r: Self)
        ensures
            r == (EdgeTypeSchema { bidirectional: true, ..self }),
    {
        EdgeTypeSchema { bidirectional: true, ..self }
    }

    pub fn with_property(self, name: String, schema: PropertySchema) -> (r: Self)
        requires
            self.wf(),
        ensures
            r.wf(),
            r.name == self.name,
            r.description == self.description,
            r.allowed_source_types == self.allowed_source_types,
            r.allowed_target_types == self.allowed_target_types,
            r.bidirectional == self.bidirectional,
            r.properties@ == self.properties@.insert(name@, schema),
    {
        let mut s = self;
        s.properties.insert(name, schema);
        s
    }

    pub fn default_related_to() -> (r: Self)
        ensures
            r.name@ == "related_to"@,
            r.wf(),
            r.bidirectional,
            r.allowed_source_types@.len() == 0,
            r.allowed_target_types@.len() == 0,
    {
        EdgeTypeSchema::new(
            "related_to".to_owned(),
            "Generic relationship".to_owned(),
        ).with_property(
            "context".to_owned(),
            PropertySchema::string("Context of the relationship"),
        ).bidirectional()
    }

    pub fn default_contains() -> (r: Self)
        ensures
            r.name@ == "contains"@,
            r.wf(),
    {
        let mut sources: Vec<String> = Vec::new();
        sources.push("location".to_owned());
        sources.push("faction".to_owned());
        let mut targets: Vec<String> = Vec::new();
        targets.push("location".to_owned());
        targets.push("character".to_owned());
        targets.push("item".to_owned());
        EdgeTypeSchema::new(
            "contains".to_owned(),
            "Containment relationship".to_owned(),
        ).with_source_types(sources).with_target_types(targets)
    }

    pub fn default_member_of() -> (r: Self)
        ensures
            r.name@ == "member_of"@,
            r.wf(),
            spec_has_string(r.allowed_source_types@, "character"@),
            spec_has_string(r.allowed_target_types@, "faction"@),
    {
        let mut sources: Vec<String> = Vec::new();
        sources.push("character".to_owned());
        let mut targets: Vec<String> = Vec::new();
        targets.push("faction".to_owned());
        proof {
            assert(sources@[0]@ == "character"@);
            assert(targets@[0]@ == "faction"@);
        }
        EdgeTypeSchema::new(
            "member_of".to_owned(),
            "Membership relationship".to_owned(),
        ).with_source_types(sources).with_target_types(targets).with_property(
            "role".to_owned(),
            PropertySchema::string("Role within the organization"),
        ).with_property("rank".to_owned(), PropertySchema::string("Rank or level"))
    }

    pub fn default_knows() -> (r: Self)
        ensures
            r.name@ == "knows"@,
            r.wf(),
            r.bidirectional,
            spec_has_string(r.allowed_source_types@, "character"@),
            spec_has_string(r.allowed_target_types@, "character"@),
            r.allowed_source_types@.len() == 1,
            r.allowed_target_types@.len() == 1,
    {
        let mut sources: Vec<String> = Vec::new();
        sources.push("character".to_owned());
        let mut targets: Vec<String> = Vec::new();
        targets.push("character".to_owned());
        proof {
            assert(sources@[0]@ == "character"@);
            assert(targets@[0]@ == "character"@);
        }
        EdgeTypeSchema::new(
            "knows".to_owned(),
            "Knowledge relationship between characters".to_owned(),
        ).with_source_types(sources).with_target_types(targets).with_property(
            "relationship".to_owned(),
            PropertySchema::string("Nature of the relationship"),
        ).bidirectional()
    }

    pub fn default_enemy_of() -> (r: Self)
        ensures
            r.name@ == "enemy_of"@,
            r.wf(),
            r.bidirectional,
            spec_has_string(r.allowed_source_types@, "character"@),
            spec_has_string(r.allowed_target_types@, "character"@),
    {
        let mut sources: Vec<String> = Vec::new();
        sources.push("character".to_owned());
        sources.push("faction".to_owned());
        let mut targets: Vec<String> = Vec::new();
        targets.push("character".to_owned());
        targets.push("faction".to_owned());
        proof {
            assert(sources@[0]@ == "character"@);
            assert(targets@[0]@ == "character"@);
        }
        EdgeTypeSchema::new(
            "enemy_of".to_owned(),
            "Hostile relationship".to_owned(),
        ).with_source_types(sources).with_target_types(targets).with_property(
            "reason".to_owned(),
            PropertySchema::string("Reason for hostility"),
        ).bidirectional()
    }

    pub fn default_ally_of() -> (r: Self)
        ensures
            r.name@ == "ally_of"@,
            r.wf(),
            r.bidirectional,
            spec_has_string(r.allowed_source_types@, "character"@),
            spec_has_string(r.allowed_target_types@, "character"@),
    {
        let mut sources: Vec<String> = Vec::new();
        sources.push("character".to_owned());
        sources.push("faction".to_owned());
        let mut targets: Vec<String> = Vec::new();
        targets.push("character".to_owned());
        targets.push("faction".to_owned());
        proof {
            assert(sources@[0]@ == "character"@);
            assert(targets@[0]@ == "character"@);
        }
        EdgeTypeSchema::new(
            "ally_of".to_owned(),
            "Allied relationship".to_owned(),
        ).with_source_types(sources).with_target_types(targets).with_property(
            "alliance_type".to_owned(),
            PropertySchema::string("Type of alliance"),
        ).bidirectional()
    }
}

/// A complete named schema: object types, edge types and bookkeeping.
#[derive(Debug)]
pub struct SchemaDefinition {
    pub id: u128,
    pub name: String,
    pub version: String,
    pub description: String,
    pub created_at: i64,
    pub updated_at: i64,
    pub object_types: StrMap<ObjectTypeSchema>,
    pub edge_types: StrMap<EdgeTypeSchema>,
    pub metadata: StrMap<String>,
}

impl SchemaDefinition {
    pub open spec fn wf(&self) -> bool {
        &&& self.object_types.wf()
        &&& self.edge_types.wf()
        &&& self.metadata.wf()
        &&& forall|k: Seq<char>|
            self.object_types@.contains_key(k) ==> (#[trigger] self.object_types@[k]).wf()
        &&& forall|k: Seq<char>|
            self.edge_types@.contains_key(k) ==> (#[trigger] self.edge_types@[k]).wf()
    }

    pub fn new(name: String, version: String, description: String) -> (r: Self)
        ensures
            r.name == name,
            r.version == version,
            r.description == description,
            r.object_types@ == Map::<Seq<char>, ObjectTypeSchema>::empty(),
            r.edge_types@ == Map::<Seq<char>, EdgeTypeSchema>::empty(),
            r.created_at == r.updated_at,
            r.wf(),
    {
        let now = now_micros();
        SchemaDefinition {
            id: fresh_id(),
            name,
            version,
            description,
            created_at: now,
            updated_at: now,
            object_types: StrMap::new(),
            edge_types: StrMap::new(),
            metadata: StrMap::new(),
        }
    }

    /// Inserts an object type and touches the schema.
    pub fn add_object_type(&mut self, name: String, schema: ObjectTypeSchema)
        requires
            old(self).wf(),
            schema.wf(),
        ensures
            final(self).wf(),
            final(self).object_types@ == old(self).object_types@.insert(name@, schema),
            final(self).edge_types == old(self).edge_types,
            final(self).name == old(self).name,
            final(self).version == old(self).version,
            final(self).description == old(self).description,
            final(self).id == old(self).id,
            final(self).created_at == old(self).created_at,
    {
        self.object_types.insert(name, schema);
        self.touch();
    }

    /// Inserts an edge type and touches the schema.
    pub fn add_edge_type(&mut self, name: String, schema: EdgeTypeSchema)
        requires
            old(self).wf(),
            schema.wf(),
        ensures
            final(self).wf(),
            final(self).edge_types@ == old(self).edge_types@.insert(name@, schema),
            final(self).object_types == old(self).object_types,
            final(self).name == old(self).name,
            final(self).version == old(self).version,
            final(self).description == old(self).description,
            final(self).id == old(self).id,
            final(self).created_at == old(self).created_at,
    {
        self.edge_types.insert(name, schema);
        self.touch();
    }

    /// Bumps the update timestamp.
    pub fn touch(&mut self)
        ensures
            *final(self) == (SchemaDefinition { updated_at: final(self).updated_at, ..*old(self) }),
    {
        self.updated_at = now_micros();
    }

    /// What the hard-coded default schema promises: its name and version,
    /// and exactly the six default object and six default edge types.
    pub open spec fn spec_is_default(r: SchemaDefinition) -> bool {
        &&& r.name@ == "default"@
        &&& r.version@ == "1.0.0"@
        &&& r.object_types@.dom() == Set::<Seq<char>>::empty().insert("character"@).insert(
            "location"@,
        ).insert("faction"@).insert("item"@).insert("event"@).insert("session"@)
        &&& r.edge_types@.dom() == Set::<Seq<char>>::empty().insert("related_to"@).insert(
            "contains"@,
        ).insert("member_of"@).insert("knows"@).insert("enemy_of"@).insert("ally_of"@)
    }

    /// The hard-coded default schema: six object types and six edge types.
    pub fn create_default() -> (r: Self)
        ensures
            r.wf(),
            SchemaDefinition::spec_is_default(r),
    {
        let mut schema = SchemaDefinition::new(
            "default".to_owned(),
            "1.0.0".to_owned(),
            "Default TTRPG schema with basic object types".to_owned(),
        );
        schema.add_object_type("character".to_owned(), ObjectTypeSchema::default_character());
        schema.add_object_type("location".to_owned(), ObjectTypeSchema::default_location());
        schema.add_object_type("faction".to_owned(), ObjectTypeSchema::default_faction());
        schema.add_object_type("item".to_owned(), ObjectTypeSchema::default_item());
        schema.add_object_type("event".to_owned(), ObjectTypeSchema::default_event());
        schema.add_object_type("session".to_owned(), ObjectTypeSchema::default_session());
        schema.add_edge_type("related_to".to_owned(), EdgeTypeSchema::default_related_to());
        schema.add_edge_type("contains".to_owned(), EdgeTypeSchema::default_contains());
        schema.add_edge_type("member_of".to_owned(), EdgeTypeSchema::default_member_of());
        schema.add_edge_type("knows".to_owned(), EdgeTypeSchema::default_knows());
        schema.add_edge_type("enemy_of".to_owned(), EdgeTypeSchema::default_enemy_of());
        schema.add_edge_type("ally_of".to_owned(), EdgeTypeSchema::default_ally_of());
        proof {
            assert(schema.object_types@.dom() =~= Set::<Seq<char>>::empty().insert(
                "character"@,
            ).insert("location"@).insert("faction"@).insert("item"@).insert("event"@).insert(
                "session"@,
            ));
            assert(schema.edge_types@.dom() =~= Set::<Seq<char>>::empty().insert(
                "related_to"@,
            ).insert("contains"@).insert("member_of"@).insert("knows"@).insert(
                "enemy_of"@,
            ).insert("ally_of"@));
        }
        schema
    }
}

/// Kinds of validation errors.
#[derive(Debug, Clone, Copy, PartialEq, Eq)]
pub enum ValidationErrorType {
    MissingRequired,
    TypeMismatch,
    InvalidValue,
    InvalidReference,
    ValidationRuleFailed,
}

/// One validation error: the property concerned, a message and the kind.
#[derive(Debug)]
pub struct ValidationError {
    pub property: String,
    pub message: String,
    pub error_type: ValidationErrorType,
}

/// One validation warning.
#[derive(Debug)]
pub struct ValidationWarning {
    pub property: String,
    pub message: String,
}

/// Outcome of validating an object or an edge against a schema. Valid means
/// no errors were recorded; warnings do not make a result invalid.
#[derive(Debug)]
pub struct ValidationResult {
    pub valid: bool,
    pub errors: Vec<ValidationError>,
    pub warnings: Vec<ValidationWarning>,
}

impl ValidationResult {
    pub fn valid() -> (r: Self)
        ensures
            r.valid,
            r.errors@ == Seq::<ValidationError>::empty(),
            r.warnings@ == Seq::<ValidationWarning>::empty(),
    {
        ValidationResult { valid: true, errors: Vec::new(), warnings: Vec::new() }
    }

    pub fn invalid(errors: Vec<ValidationError>) -> (r: Self)
        ensures
            !r.valid,
            r.errors == errors,
            r.warnings@ == Seq::<ValidationWarning>::empty(),
    {
        ValidationResult { valid: false, errors, warnings: Vec::new() }
    }

    pub fn add_error(&mut self, error: ValidationError)
        ensures
            !final(self).valid,
            final(self).errors@ == old(self).errors@.push(error),
            final(self).warnings == old(self).warnings,
    {
        self.errors.push(error);
        self.valid = false;
    }

    pub fn add_warning(&mut self, warning: ValidationWarning)
        ensures
            final(self).valid == old(self).valid,
            final(self).errors == old(self).errors,
            final(self).warnings@ == old(self).warnings@.push(warning),
    {
        self.warnings.push(warning);
    }
}

} // verus!
