//! The schema engine: loading and saving named schemas against the store,
//! runtime registration of object and edge types, and validation of objects
//! and edges against a schema.

use crate::json::{spec_json_get, json_get, JsonValue};
use crate::kvmap::str_eq;
use crate::schema::{
    list_has_string, spec_has_string, EdgeTypeSchema, ObjectTypeSchema, PropertySchema,
    PropertyType, SchemaDefinition, ValidationError, ValidationErrorType, ValidationResult,
    ValidationRule, ValidationWarning,
};
use crate::store::{GraphError, KnowledgeGraphStorage};
use crate::trusted::{regex_compiles, regex_is_match, regex_matches};
use crate::types::{Edge, ObjectMetadata};
use vstd::prelude::*;

verus! {

/// Shallow compatibility of a JSON value with a property kind.
pub open spec fn spec_shallow_type_ok(v: JsonValue, t: PropertyType) -> bool {
    match t {
        PropertyType::Str => v is Str,
        PropertyType::Text => v is Str,
        PropertyType::Number => v is Int,
        PropertyType::Boolean => v is Bool,
        PropertyType::Array(_) => v is Array,
        PropertyType::Object(_) => v is Object,
        PropertyType::Reference(_) => v is Str,
        PropertyType::Enum(vals) => match v {
            JsonValue::Str(s) => spec_has_string(vals@, s@),
            _ => false,
        },
    }
}

/// Whether a value satisfies a validation rule: length bounds, pattern and
/// allowed values for strings; range bounds for numbers.
pub open spec fn spec_rules_ok(v: JsonValue, rule: ValidationRule) -> bool {
    &&& (match v {
        JsonValue::Str(s) => {
            &&& (rule.min_length matches Some(m) ==> (vstd::utf8::encode_utf8(s@).len()
                as usize) >= m)
            &&& (rule.max_length matches Some(m) ==> (vstd::utf8::encode_utf8(s@).len()
                as usize) <= m)
            &&& (rule.pattern matches Some(p) ==> regex_compiles(p@) && regex_matches(p@, s@))
            &&& (rule.allowed_values matches Some(a) ==> spec_has_string(a@, s@))
        },
        _ => true,
    })
    &&& (match v {
        JsonValue::Int(n) => {
            &&& (rule.min_value matches Some(m) ==> n >= m)
            &&& (rule.max_value matches Some(m) ==> n <= m)
        },
        _ => true,
    })
}

/// Whether a value has a property kind, recursively: array elements are
/// checked against the element kind, and the declared fields of an
/// object-kinded value are checked against their property schemas.
pub open spec fn spec_elem_check(v: JsonValue, t: PropertyType) -> bool
    decreases t, v, 0int,
{
    spec_shallow_type_ok(v, t) && (match t {
        PropertyType::Array(et) => match v {
            JsonValue::Array(items) => forall|i: int|
                0 <= i < items@.len() ==> spec_elem_check(#[trigger] items@[i], *et),
            _ => true,
        },
        PropertyType::Object(fs) => match v {
            JsonValue::Object(fields) => forall|i: int|
                0 <= i < fs@.len() ==> (spec_json_get(fields@, fs@[i].0@) matches Some(pv)
                    ==> spec_prop_check(pv, (#[trigger] fs@[i]).1)),
            _ => true,
        },
        _ => true,
    })
}

/// Whether a value passes a property schema: its kind, recursively, and its
/// validation rule if it has one.
pub open spec fn spec_prop_check(v: JsonValue, p: PropertySchema) -> bool
    decreases p, v, 1int,
{
    spec_elem_check(v, p.property_type) && (p.validation matches Some(r) ==> spec_rules_ok(v, r))
}

/// Checks a validation rule against a value.
fn apply_validation_rules(property_name: &str, value: &JsonValue, rule: &ValidationRule) -> (r:
    Result<(), ValidationError>)
    ensures
        r is Ok <==> spec_rules_ok(*value, *rule),
        r matches Err(e) ==> e.property@ == property_name@ && e.error_type
            == ValidationErrorType::ValidationRuleFailed,
{
    match value {
        JsonValue::Str(s) => {
            match rule.min_length {
                Some(m) => {
                    if s.as_str().len() < m {
                        return Err(
                            ValidationError {
                                property: property_name.to_owned(),
                                message: "value is shorter than the minimum length".to_owned(),
                                error_type: ValidationErrorType::ValidationRuleFailed,
                            },
                        );
                    }
                },
                None => {},
            }
            match rule.max_length {
                Some(m) => {
                    if s.as_str().len() > m {
                        return Err(
                            ValidationError {
                                property: property_name.to_owned(),
                                message: "value is longer than the maximum length".to_owned(),
                                error_type: ValidationErrorType::ValidationRuleFailed,
                            },
                        );
                    }
                },
                None => {},
            }
            match &rule.pattern {
                Some(p) => {
                    match regex_is_match(p.as_str(), s.as_str()) {
                        Some(true) => {},
                        Some(false) => {
                            return Err(
                                ValidationError {
                                    property: property_name.to_owned(),
                                    message: "value does not match the required pattern".to_owned(),
                                    error_type: ValidationErrorType::ValidationRuleFailed,
                                },
                            );
                        },
                        None => {
                            return Err(
                                ValidationError {
                                    property: property_name.to_owned(),
                                    message: "the schema's pattern is not a valid regular expression".to_owned(),
                                    error_type: ValidationErrorType::ValidationRuleFailed,
                                },
                            );
                        },
                    }
                },
                None => {},
            }
            match &rule.allowed_values {
                Some(allowed) => {
                    if !list_has_string(allowed, s.as_str()) {
                        return Err(
                            ValidationError {
                                property: property_name.to_owned(),
                                message: "value is not among the allowed values".to_owned(),
                                error_type: ValidationErrorType::ValidationRuleFailed,
                            },
                        );
                    }
                },
                None => {},
            }
            Ok(())
        },
        JsonValue::Int(n) => {
            match rule.min_value {
                Some(m) => {
                    if *n < m {
                        return Err(
                            ValidationError {
                                property: property_name.to_owned(),
                                message: "value is below the minimum".to_owned(),
                                error_type: ValidationErrorType::ValidationRuleFailed,
                            },
                        );
                    }
                },
                None => {},
            }
            match rule.max_value {
                Some(m) => {
                    if *n > m {
                        return Err(
                            ValidationError {
                                property: property_name.to_owned(),
                                message: "value is above the maximum".to_owned(),
                                error_type: ValidationErrorType::ValidationRuleFailed,
                            },
                        );
                    }
                },
                None => {},
            }
            Ok(())
        },
        _ => Ok(()),
    }
}

/// Checks a value against a property kind, recursively.
#[verifier::loop_isolation(false)]
fn validate_elem(property_name: &str, value: &JsonValue, t: &PropertyType) -> (r: Result<
    (),
    ValidationError,
>)
    ensures
        r is Ok <==> spec_elem_check(*value, *t),
        r matches Err(e) ==> e.property@ == property_name@,
    decreases *t,
{
    let type_ok: bool = match (t, value) {
        (PropertyType::Str, JsonValue::Str(_)) => true,
        (PropertyType::Text, JsonValue::Str(_)) => true,
        (PropertyType::Number, JsonValue::Int(_)) => true,
        (PropertyType::Boolean, JsonValue::Bool(_)) => true,
        (PropertyType::Array(_), JsonValue::Array(_)) => true,
        (PropertyType::Object(_), JsonValue::Object(_)) => true,
        (PropertyType::Reference(_), JsonValue::Str(_)) => true,
        (PropertyType::Enum(allowed), JsonValue::Str(s)) => list_has_string(allowed, s.as_str()),
        _ => false,
    };
    if !type_ok {
        return Err(
            ValidationError {
                property: property_name.to_owned(),
                message: "value has the wrong kind for this property".to_owned(),
                error_type: ValidationErrorType::TypeMismatch,
            },
        );
    }
    match (t, value) {
        (PropertyType::Array(et), JsonValue::Array(items)) => {
            let mut i: usize = 0;
            while i < items.len()
                invariant
                    i <= items@.len(),
                    forall|j: int| 0 <= j < i ==> spec_elem_check(#[trigger] items@[j], **et),
                decreases items@.len() - i,
            {
                proof {
                    assert(decreases_to!(*t => t->Array_0));
                    assert(t->Array_0 == **et);
                }
                match validate_elem(property_name, &items[i], &**et) {
                    Ok(()) => {},
                    Err(e) => {
                        proof {
                            assert(!spec_elem_check(items@[i as int], **et));
                        }
                        return Err(e);
                    },
                }
                i = i + 1;
            }
            Ok(())
        },
        (PropertyType::Object(fs), JsonValue::Object(fields)) => {
            let mut i: usize = 0;
            while i < fs.len()
                invariant
                    i <= fs@.len(),
                    forall|j: int|
                        0 <= j < i ==> (spec_json_get(fields@, fs@[j].0@) matches Some(pv)
                            ==> spec_prop_check(pv, (#[trigger] fs@[j]).1)),
                decreases fs@.len() - i,
            {
                match json_get(fields, fs[i].0.as_str()) {
                    Some(pv) => {
                        proof {
                            assert(decreases_to!(*t => t->Object_0));
                            assert(decreases_to!(t->Object_0 => t->Object_0@));
                            assert(decreases_to!(t->Object_0@ => t->Object_0@[i as int]));
                            assert(decreases_to!(t->Object_0@[i as int] => t->Object_0@[i as int].1));
                        }
                        match validate_property_value(property_name, pv, &fs[i].1) {
                            Ok(()) => {},
                            Err(e) => {
                                proof {
                                    assert(spec_json_get(fields@, fs@[i as int].0@) == Some(*pv));
                                    assert(!spec_prop_check(*pv, fs@[i as int].1));
                                }
                                return Err(e);
                            },
                        }
                    },
                    None => {},
                }
                i = i + 1;
            }
            Ok(())
        },
        _ => Ok(()),
    }
}

/// Checks a value against a full property schema: kind and rule.
pub fn validate_property_value(property_name: &str, value: &JsonValue, schema: &PropertySchema) -> (r: Result<
    (),
    ValidationError,
>)
    ensures
        r is Ok <==> spec_prop_check(*value, *schema),
        r matches Err(e) ==> e.property@ == property_name@,
        spec_elem_check(*value, schema.property_type) ==> (r matches Err(e) ==> e.error_type
            == ValidationErrorType::ValidationRuleFailed),
    decreases *schema,
{
    proof {
        assert(decreases_to!(*schema => schema.property_type));
    }
    match validate_elem(property_name, value, &schema.property_type) {
        Ok(()) => {},
        Err(e) => {
            return Err(e);
        },
    }
    match &schema.validation {
        Some(rule) => apply_validation_rules(property_name, value, rule),
        None => Ok(()),
    }
}

/// The required properties, other than the implicit name, that the object
/// lacks, in declaration order.
pub open spec fn spec_missing_list(object: ObjectMetadata, ots: ObjectTypeSchema) -> Seq<String> {
    ots.required_properties@.filter(
        |rp: String| rp@ != "name"@ && !object.properties@.contains_key(rp@),
    )
}

/// The declared property entries of the object that fail their schema, in
/// entry order.
pub open spec fn spec_failing_list(object: ObjectMetadata, ots: ObjectTypeSchema) -> Seq<
    (String, JsonValue),
> {
    object.properties.entries@.filter(
        |pr: (String, JsonValue)| ots.properties@.contains_key(pr.0@) && !spec_prop_check(
            pr.1,
            ots.properties@[pr.0@],
        ),
    )
}

/// The present property entries the schema does not declare, in entry
/// order.
pub open spec fn spec_undeclared_list(object: ObjectMetadata, ots: ObjectTypeSchema) -> Seq<
    (String, JsonValue),
> {
    object.properties.entries@.filter(
        |pr: (String, JsonValue)| !ots.properties@.contains_key(pr.0@),
    )
}

/// The full outcome of validating an object: validity is the iff of
/// spec_object_valid; an unknown object type yields exactly one error of
/// kind InvalidValue and no warnings; a known type yields one error per
/// missing required property (kind MissingRequired, in declaration order)
/// followed by one per failing declared property (its key, and kind
/// ValidationRuleFailed when only the rule failed), and one warning per
/// undeclared present property, in entry order.
pub open spec fn spec_validation_outcome(
    object: ObjectMetadata,
    schema: SchemaDefinition,
    v: ValidationResult,
) -> bool {
    &&& (v.valid <==> spec_object_valid(object, schema))
    &&& v.valid == (v.errors@.len() == 0)
    &&& (if !schema.object_types@.contains_key(object.object_type@) {
        &&& v.errors@.len() == 1
        &&& v.errors@[0].error_type == ValidationErrorType::InvalidValue
        &&& v.errors@[0].property@ == "object_type"@
        &&& v.warnings@.len() == 0
    } else {
        let ots = schema.object_types@[object.object_type@];
        let missing = spec_missing_list(object, ots);
        let failing = spec_failing_list(object, ots);
        &&& v.errors@.len() == missing.len() + failing.len()
        &&& (forall|k: int|
            0 <= k < missing.len() ==> (#[trigger] v.errors@[k]).error_type
                == ValidationErrorType::MissingRequired && v.errors@[k].property@ == missing[k]@)
        &&& (forall|k: int|
            0 <= k < failing.len() ==> (#[trigger] v.errors@[missing.len() + k]).property@
                == failing[k].0@ && (spec_elem_check(
                failing[k].1,
                ots.properties@[failing[k].0@].property_type,
            ) ==> v.errors@[missing.len() + k].error_type
                == ValidationErrorType::ValidationRuleFailed))
        &&& v.warnings@.map_values(|w: ValidationWarning| w.property@) == spec_undeclared_list(
            object,
            ots,
        ).map_values(|pr: (String, JsonValue)| pr.0@)
    })
}

/// What a valid object looks like against a schema: its type is known,
/// every required property other than the implicit name is present, and
/// every present property that the type declares passes its checks.
pub open spec fn spec_object_valid(object: ObjectMetadata, schema: SchemaDefinition) -> bool {
    &&& schema.object_types@.contains_key(object.object_type@)
    &&& (forall|i: int|
        0 <= i < schema.object_types@[object.object_type@].required_properties@.len() ==> ((
        #[trigger] schema.object_types@[object.object_type@].required_properties@[i])@ == "name"@
            || object.properties@.contains_key(
            schema.object_types@[object.object_type@].required_properties@[i]@,
        )))
    &&& (forall|k: Seq<char>|
        object.properties@.contains_key(k) && schema.object_types@[object.object_type@].properties@
            .contains_key(k) ==> spec_prop_check(
            #[trigger] object.properties@[k],
            schema.object_types@[object.object_type@].properties@[k],
        ))
}

/// What a valid edge looks like against a schema: an unknown edge kind only
/// warns; a known kind constrains the endpoint types where it lists any,
/// and checks declared metadata entries.
pub open spec fn spec_edge_valid(
    edge: Edge,
    source: ObjectMetadata,
    target: ObjectMetadata,
    schema: SchemaDefinition,
) -> bool {
    if !schema.edge_types@.contains_key(edge.edge_type.spec_name()) {
        true
    } else {
        let ets = schema.edge_types@[edge.edge_type.spec_name()];
        &&& (ets.allowed_source_types@.len() > 0 ==> spec_has_string(
            ets.allowed_source_types@,
            source.object_type@,
        ))
        &&& (ets.allowed_target_types@.len() > 0 ==> spec_has_string(
            ets.allowed_target_types@,
            target.object_type@,
        ))
        &&& (forall|k: Seq<char>|
            edge.metadata@.contains_key(k) && ets.properties@.contains_key(k) ==> spec_prop_check(
                JsonValue::Str(#[trigger] edge.metadata@[k]),
                ets.properties@[k],
            ))
    }
}

/// The metadata entries of the edge that a known edge kind declares and
/// which fail their property schema, in entry order.
pub open spec fn spec_failing_meta_list(edge: Edge, schema: SchemaDefinition) -> Seq<
    (String, String),
> {
    edge.metadata.entries@.filter(
        |pr: (String, String)| schema.edge_types@[edge.edge_type.spec_name()].properties@.contains_key(
            pr.0@,
        ) && !spec_prop_check(
            JsonValue::Str(pr.1),
            schema.edge_types@[edge.edge_type.spec_name()].properties@[pr.0@],
        ),
    )
}

/// The full outcome of validating an edge: validity is the iff of
/// spec_edge_valid; an unknown edge kind yields exactly one warning and no
/// errors; a known kind yields no warnings, one InvalidValue error per
/// violated endpoint constraint (source first), and one error per declared
/// metadata entry that fails its schema.
pub open spec fn spec_edge_validation_outcome(
    edge: Edge,
    source: ObjectMetadata,
    target: ObjectMetadata,
    schema: SchemaDefinition,
    v: ValidationResult,
) -> bool {
    &&& (v.valid <==> spec_edge_valid(edge, source, target, schema))
    &&& v.valid == (v.errors@.len() == 0)
    &&& (if !schema.edge_types@.contains_key(edge.edge_type.spec_name()) {
        &&& v.warnings@.len() == 1
        &&& v.warnings@[0].property@ == "edge_type"@
        &&& v.errors@.len() == 0
    } else {
        let ets = schema.edge_types@[edge.edge_type.spec_name()];
        let srcviol = ets.allowed_source_types@.len() > 0 && !spec_has_string(
            ets.allowed_source_types@,
            source.object_type@,
        );
        let tgtviol = ets.allowed_target_types@.len() > 0 && !spec_has_string(
            ets.allowed_target_types@,
            target.object_type@,
        );
        &&& v.warnings@.len() == 0
        &&& v.errors@.len() == (if srcviol {
            1int
        } else {
            0int
        }) + (if tgtviol {
            1int
        } else {
            0int
        }) + spec_failing_meta_list(edge, schema).len()
        &&& (srcviol ==> v.errors@[0].error_type == ValidationErrorType::InvalidValue
            && v.errors@[0].property@ == "source_type"@)
        &&& (tgtviol ==> v.errors@[if srcviol {
            1int
        } else {
            0int
        }].error_type == ValidationErrorType::InvalidValue && v.errors@[if srcviol {
            1int
        } else {
            0int
        }].property@ == "target_type"@)
    })
}

/// Statistics about one schema.
#[derive(Debug)]
pub struct SchemaStats {
    pub name: String,
    pub version: String,
    pub object_type_count: usize,
    pub edge_type_count: usize,
    pub total_properties: usize,
}

/// Saturating total of declared properties over object types.
pub open spec fn spec_sat_sum_props(entries: Seq<(String, ObjectTypeSchema)>) -> usize
    decreases entries.len(),
{
    if entries.len() == 0 {
        0
    } else {
        crate::types::spec_sat_add(
            spec_sat_sum_props(entries.drop_last()),
            entries.last().1.properties.entries@.len() as usize,
        )
    }
}

/// The schema engine. In this single-owner core the schema column of the
/// store is itself the in-memory schema collection, so loads read through
/// to it and there is no separate compiled-schema cache to evict.
pub struct SchemaManager {}

impl SchemaManager {
    pub fn new() -> (r: Self) {
        SchemaManager {  }
    }

    /// Makes sure a schema of this name exists: a miss creates and persists
    /// the hard-coded default under "default", and an empty schema under
    /// any other name.
    pub fn ensure_schema(&self, store: &mut KnowledgeGraphStorage, name: &str)
        requires
            old(store).wf(),
        ensures
            final(store).wf(),
            final(store).schemas@.contains_key(name@),
            final(store).nodes == old(store).nodes,
            final(store).adjacency == old(store).adjacency,
            final(store).chunks == old(store).chunks,
            final(store).names == old(store).names,
            old(store).schemas@.contains_key(name@) ==> final(store).schemas == old(store).schemas,
            !old(store).schemas@.contains_key(name@) ==> final(store).schemas@ == old(store).schemas@.insert(name@, final(store).schemas@[name@]),
            !old(store).schemas@.contains_key(name@) && name@ == "default"@ ==> SchemaDefinition::spec_is_default(
                final(store).schemas@[name@],
            ),
            !old(store).schemas@.contains_key(name@) && name@ != "default"@ ==> final(store).schemas@[name@].name@ == name@ && final(store).schemas@[name@].version@ == "1.0.0"@
                && final(store).schemas@[name@].object_types@ =~= Map::<
                Seq<char>,
                ObjectTypeSchema,
            >::empty() && final(store).schemas@[name@].edge_types@ =~= Map::<
                Seq<char>,
                EdgeTypeSchema,
            >::empty(),
    {
        if store.schemas.contains_key(name) {
            return ;
        }
        if str_eq(name, "default") {
            let schema = SchemaDefinition::create_default();
            let _ = store.save_schema(schema);
        } else {
            let mut description: String = "Auto-generated schema for ".to_owned();
            description.append(name);
            let schema = SchemaDefinition::new(name.to_owned(), "1.0.0".to_owned(), description);
            let _ = store.save_schema(schema);
        }
    }

    /// Loads a schema, creating it first if the store has none of this name.
    pub fn load_schema<'a>(&self, store: &'a mut KnowledgeGraphStorage, name: &str) -> (r: Result<
        &'a SchemaDefinition,
        GraphError,
    >)
        requires
            old(store).wf(),
        ensures
            final(store).wf(),
            final(store).schemas@.contains_key(name@),
            final(store).nodes == old(store).nodes,
            final(store).adjacency == old(store).adjacency,
            final(store).chunks == old(store).chunks,
            final(store).names == old(store).names,
            old(store).schemas@.contains_key(name@) ==> final(store).schemas == old(store).schemas,
            r matches Ok(s) ==> *s == final(store).schemas@[name@] && s.wf(),
            r is Ok,
            !old(store).schemas@.contains_key(name@) && name@ == "default"@ ==> SchemaDefinition::spec_is_default(
                final(store).schemas@[name@],
            ),
            !old(store).schemas@.contains_key(name@) && name@ != "default"@ ==> final(store).schemas@[name@].name@ == name@ && final(store).schemas@[name@].version@ == "1.0.0"@
                && final(store).schemas@[name@].object_types@ =~= Map::<
                Seq<char>,
                ObjectTypeSchema,
            >::empty() && final(store).schemas@[name@].edge_types@ =~= Map::<
                Seq<char>,
                EdgeTypeSchema,
            >::empty(),
    {
        self.ensure_schema(store, name);
        match store.get_schema(name) {
            Some(s) => Ok(s),
            None => vstd::pervasive::unreached(),
        }
    }

    /// Persists a schema.
    pub fn save_schema(&self, store: &mut KnowledgeGraphStorage, schema: SchemaDefinition) -> (r: Result<
        (),
        GraphError,
    >)
        requires
            old(store).wf(),
            schema.wf(),
        ensures
            r is Ok,
            final(store).wf(),
            final(store).schemas@ == old(store).schemas@.insert(schema.name@, schema),
            final(store).nodes == old(store).nodes,
            final(store).adjacency == old(store).adjacency,
            final(store).chunks == old(store).chunks,
            final(store).names == old(store).names,
    {
        store.save_schema(schema)
    }

    /// Validates an object against a specific schema. The result is valid
    /// exactly when the object satisfies the schema; properties the schema
    /// does not declare are reported as warnings.
    pub fn validate_object_with_schema(
        &self,
        object: &ObjectMetadata,
        schema: &SchemaDefinition,
    ) -> (r: Result<ValidationResult, GraphError>)
        requires
            object.wf(),
            schema.wf(),
        ensures
            r matches Ok(v) ==> spec_validation_outcome(*object, *schema, v),
            r is Ok,
    {
        let mut result = ValidationResult::valid();
        let object_schema = match schema.object_types.get(object.object_type.as_str()) {
            Some(s) => s,
            None => {
                result.add_error(
                    ValidationError {
                        property: "object_type".to_owned(),
                        message: "unknown object type".to_owned(),
                        error_type: ValidationErrorType::InvalidValue,
                    },
                );
                return Ok(result);
            },
        };
        let ghost ots = schema.object_types@[object.object_type@];
        let mut i: usize = 0;
        proof {
            assert(ots.required_properties@.take(0).filter(|rp: String| rp@ != "name"@ && !object.properties@.contains_key(rp@)) =~= Seq::<String>::empty());
            assert(result.errors@.map_values(
                |e: ValidationError| (e.property@, e.error_type),
            ) =~= Seq::<(Seq<char>, ValidationErrorType)>::empty());
        }
        while i < object_schema.required_properties.len()
            invariant
                object.wf(),
                object_schema.wf(),
                object_schema == ots,
                i <= ots.required_properties@.len(),
                result.warnings@.len() == 0,
                result.valid == (result.errors@.len() == 0),
                result.errors@.map_values(|e: ValidationError| (e.property@, e.error_type))
                    == ots.required_properties@.take(i as int).filter(|rp: String| rp@ != "name"@ && !object.properties@.contains_key(rp@)).map_values(
                    |rp: String| (rp@, ValidationErrorType::MissingRequired),
                ),
                (result.errors@.len() == 0) <==> (forall|j: int|
                    0 <= j < i ==> ((#[trigger] ots.required_properties@[j])@ == "name"@
                        || object.properties@.contains_key(ots.required_properties@[j]@))),
            decreases ots.required_properties@.len() - i,
        {
            let ghost prev_errs = result.errors@;
            proof {
                let next = ots.required_properties@.take(i + 1);
                assert(next.drop_last() =~= ots.required_properties@.take(i as int));
                assert(next.last() == ots.required_properties@[i as int]);
                reveal_with_fuel(Seq::filter, 2);
            }
            let required = &object_schema.required_properties[i];
            if !str_eq(required.as_str(), "name") && !object.properties.contains_key(
                required.as_str(),
            ) {
                proof {
                    assert(ots.required_properties@[i as int]@ != "name"@);
                    assert(!object.properties@.contains_key(ots.required_properties@[i as int]@));
                }
                result.add_error(
                    ValidationError {
                        property: required.clone(),
                        message: "missing required property".to_owned(),
                        error_type: ValidationErrorType::MissingRequired,
                    },
                );
                proof {
                    assert(result.errors@.map_values(
                        |e: ValidationError| (e.property@, e.error_type),
                    ) =~= prev_errs.map_values(
                        |e: ValidationError| (e.property@, e.error_type),
                    ).push((ots.required_properties@[i as int]@, ValidationErrorType::MissingRequired)));
                    assert(ots.required_properties@.take(i + 1).filter(|rp: String| rp@ != "name"@ && !object.properties@.contains_key(rp@)).map_values(
                        |rp: String| (rp@, ValidationErrorType::MissingRequired),
                    ) =~= ots.required_properties@.take(i as int).filter(|rp: String| rp@ != "name"@ && !object.properties@.contains_key(rp@)).map_values(
                        |rp: String| (rp@, ValidationErrorType::MissingRequired),
                    ).push(
                        (ots.required_properties@[i as int]@, ValidationErrorType::MissingRequired),
                    ));
                }
            } else {
                proof {
                    assert(ots.required_properties@[i as int]@ == "name"@
                        || object.properties@.contains_key(ots.required_properties@[i as int]@));
                    assert(ots.required_properties@.take(i + 1).filter(|rp: String| rp@ != "name"@ && !object.properties@.contains_key(rp@))
                        =~= ots.required_properties@.take(i as int).filter(|rp: String| rp@ != "name"@ && !object.properties@.contains_key(rp@)));
                }
            }
            i = i + 1;
        }
        proof {
            assert(ots.required_properties@.take(ots.required_properties@.len() as int)
                =~= ots.required_properties@);
        }
        let ghost errs1 = result.errors@;
        let ghost req_ok = result.errors@.len() == 0;
        let mut p: usize = 0;
        proof {
            assert(object.properties.entries@.take(0).filter(|pr: (String, JsonValue)| schema.object_types@[object.object_type@].properties@.contains_key(
                    pr.0@,
                ) && !spec_prop_check(pr.1, schema.object_types@[object.object_type@].properties@[pr.0@])) =~= Seq::<
                (String, JsonValue),
            >::empty());
            assert(object.properties.entries@.take(0).filter(|pr: (String, JsonValue)| !schema.object_types@[object.object_type@].properties@.contains_key(pr.0@)) =~= Seq::<
                (String, JsonValue),
            >::empty());
            assert(result.warnings@.map_values(|w: ValidationWarning| w.property@) =~= Seq::<
                Seq<char>,
            >::empty());
        }
        while p < object.properties.num_entries()
            invariant
                object.wf(),
                object_schema.wf(),
                object_schema == ots,
                ots == schema.object_types@[object.object_type@],
                schema.object_types@.contains_key(object.object_type@),
                p <= object.properties.entries@.len(),
                result.valid == (result.errors@.len() == 0),
                errs1.map_values(|e: ValidationError| (e.property@, e.error_type))
                    == spec_missing_list(*object, ots).map_values(
                    |rp: String| (rp@, ValidationErrorType::MissingRequired),
                ),
                req_ok == (errs1.len() == 0),
                req_ok <==> (forall|j: int|
                    0 <= j < ots.required_properties@.len() ==> ((
                    #[trigger] ots.required_properties@[j])@ == "name"@
                        || object.properties@.contains_key(ots.required_properties@[j]@))),
                result.errors@.len() == errs1.len() + object.properties.entries@.take(p as int).filter(|pr: (String, JsonValue)| schema.object_types@[object.object_type@].properties@.contains_key(
                    pr.0@,
                ) && !spec_prop_check(pr.1, schema.object_types@[object.object_type@].properties@[pr.0@])).len(),
                forall|k: int| 0 <= k < errs1.len() ==> #[trigger] result.errors@[k] == errs1[k],
                forall|k: int|
                    0 <= k < object.properties.entries@.take(p as int).filter(|pr: (String, JsonValue)| schema.object_types@[object.object_type@].properties@.contains_key(
                    pr.0@,
                ) && !spec_prop_check(pr.1, schema.object_types@[object.object_type@].properties@[pr.0@])).len() ==> (
                    #[trigger] result.errors@[errs1.len() + k]).property@
                        == object.properties.entries@.take(p as int).filter(|pr: (String, JsonValue)| schema.object_types@[object.object_type@].properties@.contains_key(
                    pr.0@,
                ) && !spec_prop_check(pr.1, schema.object_types@[object.object_type@].properties@[pr.0@]))[k].0@ && (
                    spec_elem_check(
                        object.properties.entries@.take(p as int).filter(|pr: (String, JsonValue)| schema.object_types@[object.object_type@].properties@.contains_key(
                    pr.0@,
                ) && !spec_prop_check(pr.1, schema.object_types@[object.object_type@].properties@[pr.0@]))[k].1,
                        ots.properties@[object.properties.entries@.take(p as int).filter(|pr: (String, JsonValue)| schema.object_types@[object.object_type@].properties@.contains_key(
                    pr.0@,
                ) && !spec_prop_check(pr.1, schema.object_types@[object.object_type@].properties@[pr.0@]))[k].0@].property_type,
                    ) ==> result.errors@[errs1.len() + k].error_type
                        == ValidationErrorType::ValidationRuleFailed),
                result.warnings@.map_values(|w: ValidationWarning| w.property@)
                    == object.properties.entries@.take(p as int).filter(|pr: (String, JsonValue)| !schema.object_types@[object.object_type@].properties@.contains_key(pr.0@)).map_values(
                    |pr: (String, JsonValue)| pr.0@,
                ),
                (result.errors@.len() == 0) <==> (req_ok && (forall|j: int|
                    0 <= j < p && ots.properties@.contains_key(
                        (#[trigger] object.properties.entries@[j]).0@,
                    ) ==> spec_prop_check(
                        object.properties.entries@[j].1,
                        ots.properties@[object.properties.entries@[j].0@],
                    ))),
            decreases object.properties.entries@.len() - p,
        {
            proof {
                object.properties.lemma_entries_in_view();
                let next = object.properties.entries@.take(p + 1);
                assert(next.drop_last() =~= object.properties.entries@.take(p as int));
                assert(next.last() == object.properties.entries@[p as int]);
                reveal_with_fuel(Seq::filter, 2);
            }
            let ghost prev_errs = result.errors@;
            let ghost prev_warns = result.warnings@;
            let (key, value) = object.properties.entry_at(p);
            match object_schema.properties.get(key.as_str()) {
                Some(prop_schema) => {
                    proof {
                        assert(ots.properties@.contains_key(
                            object.properties.entries@[p as int].0@,
                        ));
                    }
                    match validate_property_value(key.as_str(), value, prop_schema) {
                        Ok(()) => {
                            proof {
                                reveal_with_fuel(Seq::filter, 2);
                                let prefix = object.properties.entries@.take(p as int);
                                let next = object.properties.entries@.take(p + 1);
                                assert(next.drop_last() =~= prefix);
                                assert(next.last() == object.properties.entries@[p as int]);
                                assert(spec_prop_check(
                                    object.properties.entries@[p as int].1,
                                    ots.properties@[object.properties.entries@[p as int].0@],
                                ));
                                assert(next.filter(|pr: (String, JsonValue)| schema.object_types@[object.object_type@].properties@.contains_key(
                    pr.0@,
                ) && !spec_prop_check(pr.1, schema.object_types@[object.object_type@].properties@[pr.0@])) =~= prefix.filter(|pr: (String, JsonValue)| schema.object_types@[object.object_type@].properties@.contains_key(
                    pr.0@,
                ) && !spec_prop_check(pr.1, schema.object_types@[object.object_type@].properties@[pr.0@])));
                                assert(next.filter(|pr: (String, JsonValue)| !schema.object_types@[object.object_type@].properties@.contains_key(pr.0@)) =~= prefix.filter(|pr: (String, JsonValue)| !schema.object_types@[object.object_type@].properties@.contains_key(pr.0@)));
                            }
                        },
                        Err(e) => {
                            proof {
                                reveal_with_fuel(Seq::filter, 2);
                                let prefix = object.properties.entries@.take(p as int);
                                let next = object.properties.entries@.take(p + 1);
                                assert(next.drop_last() =~= prefix);
                                assert(next.last() == object.properties.entries@[p as int]);
                                assert(!spec_prop_check(
                                    object.properties.entries@[p as int].1,
                                    ots.properties@[object.properties.entries@[p as int].0@],
                                ));
                                assert(next.filter(|pr: (String, JsonValue)| schema.object_types@[object.object_type@].properties@.contains_key(
                    pr.0@,
                ) && !spec_prop_check(pr.1, schema.object_types@[object.object_type@].properties@[pr.0@])) =~= prefix.filter(|pr: (String, JsonValue)| schema.object_types@[object.object_type@].properties@.contains_key(
                    pr.0@,
                ) && !spec_prop_check(pr.1, schema.object_types@[object.object_type@].properties@[pr.0@])).push(object.properties.entries@[p as int]));
                                assert(next.filter(|pr: (String, JsonValue)| !schema.object_types@[object.object_type@].properties@.contains_key(pr.0@)) =~= prefix.filter(|pr: (String, JsonValue)| !schema.object_types@[object.object_type@].properties@.contains_key(pr.0@)));
                            }
                            result.add_error(e);
                        },
                    }
                },
                None => {
                    proof {
                        reveal_with_fuel(Seq::filter, 2);
                        let prefix = object.properties.entries@.take(p as int);
                        let next = object.properties.entries@.take(p + 1);
                        assert(next.drop_last() =~= prefix);
                        assert(next.last() == object.properties.entries@[p as int]);
                        assert(next.filter(|pr: (String, JsonValue)| schema.object_types@[object.object_type@].properties@.contains_key(
                    pr.0@,
                ) && !spec_prop_check(pr.1, schema.object_types@[object.object_type@].properties@[pr.0@])) =~= prefix.filter(|pr: (String, JsonValue)| schema.object_types@[object.object_type@].properties@.contains_key(
                    pr.0@,
                ) && !spec_prop_check(pr.1, schema.object_types@[object.object_type@].properties@[pr.0@])));
                        assert(next.filter(|pr: (String, JsonValue)| !schema.object_types@[object.object_type@].properties@.contains_key(pr.0@)) =~= prefix.filter(|pr: (String, JsonValue)| !schema.object_types@[object.object_type@].properties@.contains_key(pr.0@)).push(object.properties.entries@[p as int]));
                    }
                    result.add_warning(
                        ValidationWarning {
                            property: key.clone(),
                            message: "property is not declared by the schema".to_owned(),
                        },
                    );
                    proof {
                        assert(result.warnings@.map_values(|w: ValidationWarning| w.property@)
                            =~= prev_warns.map_values(|w: ValidationWarning| w.property@).push(
                            object.properties.entries@[p as int].0@,
                        ));
                    }
                },
            }
            p = p + 1;
        }
        proof {
            object.properties.lemma_entries_in_view();
            assert(object.properties.entries@.take(object.properties.entries@.len() as int)
                =~= object.properties.entries@);
            if result.errors@.len() == 0 {
                assert forall|k: Seq<char>|
                    object.properties@.contains_key(k) && ots.properties@.contains_key(
                        k,
                    ) implies spec_prop_check(
                    #[trigger] object.properties@[k],
                    ots.properties@[k],
                ) by {
                    let j = choose|j: int|
                        0 <= j < object.properties.entries@.len()
                            && #[trigger] object.properties.entries@[j].0@ == k;
                    assert(object.properties@[k] == object.properties.entries@[j].1);
                }
            } else {
                if spec_object_valid(*object, *schema) {
                    assert(req_ok);
                    assert forall|j: int|
                        0 <= j < object.properties.entries@.len() && ots.properties@.contains_key(
                            (#[trigger] object.properties.entries@[j]).0@,
                        ) implies spec_prop_check(
                        object.properties.entries@[j].1,
                        ots.properties@[object.properties.entries@[j].0@],
                    ) by {
                        assert(object.properties@.contains_key(object.properties.entries@[j].0@));
                        assert(object.properties@[object.properties.entries@[j].0@]
                            == object.properties.entries@[j].1);
                    }
                }
            }
            // The two error segments assemble the stated outcome.
            assert forall|k: int|
                0 <= k < spec_missing_list(*object, ots).len() implies (
            #[trigger] result.errors@[k]).error_type == ValidationErrorType::MissingRequired
                && result.errors@[k].property@ == spec_missing_list(*object, ots)[k]@ by {
                assert(result.errors@[k] == errs1[k]);
                assert(errs1.map_values(|e: ValidationError| (e.property@, e.error_type))[k]
                    == spec_missing_list(*object, ots).map_values(
                    |rp: String| (rp@, ValidationErrorType::MissingRequired),
                )[k]);
            }
        }
        Ok(result)
    }

    /// Validates an object against the default schema, creating the default
    /// schema on first access.
    pub fn validate_object(&self, store: &mut KnowledgeGraphStorage, object: &ObjectMetadata) -> (r: Result<
        ValidationResult,
        GraphError,
    >)
        requires
            old(store).wf(),
            object.wf(),
        ensures
            final(store).wf(),
            final(store).schemas@.contains_key("default"@),
            final(store).nodes == old(store).nodes,
            final(store).adjacency == old(store).adjacency,
            final(store).chunks == old(store).chunks,
            final(store).names == old(store).names,
            r matches Ok(v) ==> spec_validation_outcome(
                *object,
                final(store).schemas@["default"@],
                v,
            ),
            r is Ok,
    {
        self.ensure_schema(store, "default");
        match store.get_schema("default") {
            Some(schema) => self.validate_object_with_schema(object, schema),
            None => vstd::pervasive::unreached(),
        }
    }

    /// Validates an edge between two objects against a specific schema. An
    /// edge kind the schema does not know yields a warning and an otherwise
    /// valid result.
    pub fn validate_edge_with_schema(
        &self,
        edge: &Edge,
        source_object: &ObjectMetadata,
        target_object: &ObjectMetadata,
        schema: &SchemaDefinition,
    ) -> (r: Result<ValidationResult, GraphError>)
        requires
            edge.wf(),
            schema.wf(),
        ensures
            r matches Ok(v) ==> spec_edge_validation_outcome(
                *edge,
                *source_object,
                *target_object,
                *schema,
                v,
            ),
            r is Ok,
    {
        let mut result = ValidationResult::valid();
        let edge_type_str = edge.edge_type.as_str();
        let edge_schema = match schema.edge_types.get(edge_type_str) {
            Some(s) => s,
            None => {
                result.add_warning(
                    ValidationWarning {
                        property: "edge_type".to_owned(),
                        message: "edge kind is not declared by the schema".to_owned(),
                    },
                );
                return Ok(result);
            },
        };
        let ghost ets = schema.edge_types@[edge.edge_type.spec_name()];
        if edge_schema.allowed_source_types.len() > 0 && !list_has_string(
            &edge_schema.allowed_source_types,
            source_object.object_type.as_str(),
        ) {
            result.add_error(
                ValidationError {
                    property: "source_type".to_owned(),
                    message: "edge kind does not allow this source type".to_owned(),
                    error_type: ValidationErrorType::InvalidValue,
                },
            );
        }
        if edge_schema.allowed_target_types.len() > 0 && !list_has_string(
            &edge_schema.allowed_target_types,
            target_object.object_type.as_str(),
        ) {
            result.add_error(
                ValidationError {
                    property: "target_type".to_owned(),
                    message: "edge kind does not allow this target type".to_owned(),
                    error_type: ValidationErrorType::InvalidValue,
                },
            );
        }
        let ghost endpoints_ok = result.errors@.len() == 0;
        let ghost errs0 = result.errors@;
        let ghost srcviol = ets.allowed_source_types@.len() > 0 && !spec_has_string(
            ets.allowed_source_types@,
            source_object.object_type@,
        );
        let ghost tgtviol = ets.allowed_target_types@.len() > 0 && !spec_has_string(
            ets.allowed_target_types@,
            target_object.object_type@,
        );
        proof {
            assert(edge.metadata.entries@.take(0).filter(|pr: (String, String)| schema.edge_types@[edge.edge_type.spec_name()].properties@.contains_key(
                        pr.0@,
                    ) && !spec_prop_check(
                        JsonValue::Str(pr.1),
                        schema.edge_types@[edge.edge_type.spec_name()].properties@[pr.0@],
                    )) =~= Seq::<
                (String, String),
            >::empty());
        }
        let mut p: usize = 0;
        while p < edge.metadata.num_entries()
            invariant
                edge.wf(),
                edge_schema.wf(),
                edge_schema == ets,
                ets == schema.edge_types@[edge.edge_type.spec_name()],
                schema.edge_types@.contains_key(edge.edge_type.spec_name()),
                p <= edge.metadata.entries@.len(),
                result.valid == (result.errors@.len() == 0),
                result.warnings@.len() == 0,
                errs0.len() == (if srcviol {
                    1int
                } else {
                    0int
                }) + (if tgtviol {
                    1int
                } else {
                    0int
                }),
                srcviol ==> errs0[0].error_type == ValidationErrorType::InvalidValue
                    && errs0[0].property@ == "source_type"@,
                tgtviol ==> errs0[if srcviol {
                    1int
                } else {
                    0int
                }].error_type == ValidationErrorType::InvalidValue && errs0[if srcviol {
                    1int
                } else {
                    0int
                }].property@ == "target_type"@,
                forall|k: int| 0 <= k < errs0.len() ==> #[trigger] result.errors@[k] == errs0[k],
                result.errors@.len() == errs0.len() + edge.metadata.entries@.take(p as int).filter(
                    |pr: (String, String)| schema.edge_types@[edge.edge_type.spec_name()].properties@.contains_key(
                        pr.0@,
                    ) && !spec_prop_check(
                        JsonValue::Str(pr.1),
                        schema.edge_types@[edge.edge_type.spec_name()].properties@[pr.0@],
                    ),
                ).len(),
                endpoints_ok <==> ((ets.allowed_source_types@.len() > 0 ==> spec_has_string(
                    ets.allowed_source_types@,
                    source_object.object_type@,
                )) && (ets.allowed_target_types@.len() > 0 ==> spec_has_string(
                    ets.allowed_target_types@,
                    target_object.object_type@,
                ))),
                (result.errors@.len() == 0) <==> (endpoints_ok && (forall|j: int|
                    0 <= j < p && ets.properties@.contains_key(
                        (#[trigger] edge.metadata.entries@[j]).0@,
                    ) ==> spec_prop_check(
                        JsonValue::Str(edge.metadata.entries@[j].1),
                        ets.properties@[edge.metadata.entries@[j].0@],
                    ))),
            decreases edge.metadata.entries@.len() - p,
        {
            let (key, value) = edge.metadata.entry_at(p);
            match edge_schema.properties.get(key.as_str()) {
                Some(prop_schema) => {
                    let json_value = JsonValue::Str(value.clone());
                    match validate_property_value(key.as_str(), &json_value, prop_schema) {
                        Ok(()) => {
                            proof {
                                reveal_with_fuel(Seq::filter, 2);
                                let prefix = edge.metadata.entries@.take(p as int);
                                let next = edge.metadata.entries@.take(p + 1);
                                assert(next.drop_last() =~= prefix);
                                assert(next.last() == edge.metadata.entries@[p as int]);
                                assert(spec_prop_check(
                                    JsonValue::Str(edge.metadata.entries@[p as int].1),
                                    ets.properties@[edge.metadata.entries@[p as int].0@],
                                ));
                                assert(next.filter(|pr: (String, String)| schema.edge_types@[edge.edge_type.spec_name()].properties@.contains_key(
                        pr.0@,
                    ) && !spec_prop_check(
                        JsonValue::Str(pr.1),
                        schema.edge_types@[edge.edge_type.spec_name()].properties@[pr.0@],
                    )) =~= prefix.filter(|pr: (String, String)| schema.edge_types@[edge.edge_type.spec_name()].properties@.contains_key(
                        pr.0@,
                    ) && !spec_prop_check(
                        JsonValue::Str(pr.1),
                        schema.edge_types@[edge.edge_type.spec_name()].properties@[pr.0@],
                    )));
                            }
                        },
                        Err(e) => {
                            proof {
                                reveal_with_fuel(Seq::filter, 2);
                                let prefix = edge.metadata.entries@.take(p as int);
                                let next = edge.metadata.entries@.take(p + 1);
                                assert(next.drop_last() =~= prefix);
                                assert(next.last() == edge.metadata.entries@[p as int]);
                                assert(!spec_prop_check(
                                    JsonValue::Str(edge.metadata.entries@[p as int].1),
                                    ets.properties@[edge.metadata.entries@[p as int].0@],
                                ));
                                assert(next.filter(|pr: (String, String)| schema.edge_types@[edge.edge_type.spec_name()].properties@.contains_key(
                        pr.0@,
                    ) && !spec_prop_check(
                        JsonValue::Str(pr.1),
                        schema.edge_types@[edge.edge_type.spec_name()].properties@[pr.0@],
                    )) =~= prefix.filter(|pr: (String, String)| schema.edge_types@[edge.edge_type.spec_name()].properties@.contains_key(
                        pr.0@,
                    ) && !spec_prop_check(
                        JsonValue::Str(pr.1),
                        schema.edge_types@[edge.edge_type.spec_name()].properties@[pr.0@],
                    )).push(edge.metadata.entries@[p as int]));
                            }
                            result.add_error(e);
                        },
                    }
                },
                None => {
                    proof {
                        reveal_with_fuel(Seq::filter, 2);
                        let prefix = edge.metadata.entries@.take(p as int);
                        let next = edge.metadata.entries@.take(p + 1);
                        assert(next.drop_last() =~= prefix);
                        assert(next.last() == edge.metadata.entries@[p as int]);
                        assert(!ets.properties@.contains_key(
                            edge.metadata.entries@[p as int].0@,
                        ));
                        assert(next.filter(|pr: (String, String)| schema.edge_types@[edge.edge_type.spec_name()].properties@.contains_key(
                        pr.0@,
                    ) && !spec_prop_check(
                        JsonValue::Str(pr.1),
                        schema.edge_types@[edge.edge_type.spec_name()].properties@[pr.0@],
                    )) =~= prefix.filter(|pr: (String, String)| schema.edge_types@[edge.edge_type.spec_name()].properties@.contains_key(
                        pr.0@,
                    ) && !spec_prop_check(
                        JsonValue::Str(pr.1),
                        schema.edge_types@[edge.edge_type.spec_name()].properties@[pr.0@],
                    )));
                    }
                },
            }
            p = p + 1;
        }
        proof {
            edge.metadata.lemma_entries_in_view();
            assert(edge.metadata.entries@.take(edge.metadata.entries@.len() as int)
                =~= edge.metadata.entries@);
            if result.errors@.len() == 0 {
                assert forall|k: Seq<char>|
                    edge.metadata@.contains_key(k) && ets.properties@.contains_key(
                        k,
                    ) implies spec_prop_check(
                    JsonValue::Str(#[trigger] edge.metadata@[k]),
                    ets.properties@[k],
                ) by {
                    let j = choose|j: int|
                        0 <= j < edge.metadata.entries@.len()
                            && #[trigger] edge.metadata.entries@[j].0@ == k;
                    assert(edge.metadata@[k] == edge.metadata.entries@[j].1);
                }
            } else {
                if spec_edge_valid(*edge, *source_object, *target_object, *schema) {
                    assert(endpoints_ok);
                    assert forall|j: int|
                        0 <= j < edge.metadata.entries@.len() && ets.properties@.contains_key(
                            (#[trigger] edge.metadata.entries@[j]).0@,
                        ) implies spec_prop_check(
                        JsonValue::Str(edge.metadata.entries@[j].1),
                        ets.properties@[edge.metadata.entries@[j].0@],
                    ) by {
                        assert(edge.metadata@.contains_key(edge.metadata.entries@[j].0@));
                        assert(edge.metadata@[edge.metadata.entries@[j].0@]
                            == edge.metadata.entries@[j].1);
                    }
                }
            }
        }
        Ok(result)
    }

    /// Validates an edge against the default schema.
    pub fn validate_edge(
        &self,
        store: &mut KnowledgeGraphStorage,
        edge: &Edge,
        source_object: &ObjectMetadata,
        target_object: &ObjectMetadata,
    ) -> (r: Result<ValidationResult, GraphError>)
        requires
            old(store).wf(),
            edge.wf(),
        ensures
            final(store).wf(),
            final(store).schemas@.contains_key("default"@),
            final(store).nodes == old(store).nodes,
            final(store).adjacency == old(store).adjacency,
            final(store).chunks == old(store).chunks,
            final(store).names == old(store).names,
            r matches Ok(v) ==> spec_edge_validation_outcome(
                *edge,
                *source_object,
                *target_object,
                final(store).schemas@["default"@],
                v,
            ),
            r is Ok,
    {
        self.ensure_schema(store, "default");
        match store.get_schema("default") {
            Some(schema) => self.validate_edge_with_schema(
                edge,
                source_object,
                target_object,
                schema,
            ),
            None => vstd::pervasive::unreached(),
        }
    }

    /// Registers an object type under a named schema, creating the schema
    /// first when absent.
    pub fn register_object_type(
        &self,
        store: &mut KnowledgeGraphStorage,
        schema_name: &str,
        new_type_name: &str,
        type_schema: ObjectTypeSchema,
    ) -> (r: Result<(), GraphError>)
        requires
            old(store).wf(),
            type_schema.wf(),
        ensures
            r is Ok,
            final(store).wf(),
            final(store).nodes == old(store).nodes,
            final(store).adjacency == old(store).adjacency,
            final(store).chunks == old(store).chunks,
            final(store).names == old(store).names,
            final(store).schemas@.contains_key(schema_name@),
            final(store).schemas@[schema_name@].object_types@.contains_key(new_type_name@),
            final(store).schemas@[schema_name@].object_types@[new_type_name@] == type_schema,
            old(store).schemas@.contains_key(schema_name@) ==> final(store).schemas@[schema_name@].object_types@ == old(store).schemas@[schema_name@].object_types@.insert(new_type_name@, type_schema) && final(store).schemas@[schema_name@].edge_types@ == old(store).schemas@[schema_name@].edge_types@,
    {
        self.ensure_schema(store, schema_name);
        let mut schema = match store.take_schema(schema_name) {
            Some(s) => s,
            None => vstd::pervasive::unreached(),
        };
        let ghost loaded = schema;
        schema.add_object_type(new_type_name.to_owned(), type_schema);
        let name_key = schema_name.to_owned();
        let ghost with_type = schema;
        self.put_back(store, name_key, schema);
        Ok(())
    }

    /// Registers an edge type under a named schema, creating the schema
    /// first when absent.
    pub fn register_edge_type(
        &self,
        store: &mut KnowledgeGraphStorage,
        schema_name: &str,
        edge_name: &str,
        edge_schema: EdgeTypeSchema,
    ) -> (r: Result<(), GraphError>)
        requires
            old(store).wf(),
            edge_schema.wf(),
        ensures
            r is Ok,
            final(store).wf(),
            final(store).nodes == old(store).nodes,
            final(store).adjacency == old(store).adjacency,
            final(store).chunks == old(store).chunks,
            final(store).names == old(store).names,
            final(store).schemas@.contains_key(schema_name@),
            final(store).schemas@[schema_name@].edge_types@.contains_key(edge_name@),
            final(store).schemas@[schema_name@].edge_types@[edge_name@] == edge_schema,
            old(store).schemas@.contains_key(schema_name@) ==> final(store).schemas@[schema_name@].edge_types@ == old(store).schemas@[schema_name@].edge_types@.insert(edge_name@, edge_schema) && final(store).schemas@[schema_name@].object_types@ == old(store).schemas@[schema_name@].object_types@,
    {
        self.ensure_schema(store, schema_name);
        let mut schema = match store.take_schema(schema_name) {
            Some(s) => s,
            None => vstd::pervasive::unreached(),
        };
        schema.add_edge_type(edge_name.to_owned(), edge_schema);
        let name_key = schema_name.to_owned();
        self.put_back(store, name_key, schema);
        Ok(())
    }

    /// Re-inserts a schema under the key it was taken from.
    fn put_back(&self, store: &mut KnowledgeGraphStorage, name_key: String, schema: SchemaDefinition)
        requires
            old(store).wf(),
            schema.wf(),
            schema.name@ == name_key@,
        ensures
            final(store).wf(),
            final(store).schemas@ == old(store).schemas@.insert(name_key@, schema),
            final(store).nodes == old(store).nodes,
            final(store).adjacency == old(store).adjacency,
            final(store).chunks == old(store).chunks,
            final(store).names == old(store).names,
    {
        let _ = store.save_schema(schema);
    }

    /// The names of every persisted schema.
    pub fn list_schemas(&self, store: &KnowledgeGraphStorage) -> (r: Vec<String>)
        requires
            store.wf(),
        ensures
            r@.len() == store.schemas.entries@.len(),
            forall|i: int|
                0 <= i < r@.len() ==> store.schemas@.contains_key((#[trigger] r@[i])@),
    {
        store.list_schemas()
    }

    /// Deletes a persisted schema.
    pub fn delete_schema(&self, store: &mut KnowledgeGraphStorage, name: &str) -> (r: Result<(), GraphError>)
        requires
            old(store).wf(),
        ensures
            r is Ok,
            final(store).wf(),
            final(store).schemas@ == old(store).schemas@.remove(name@),
            final(store).nodes == old(store).nodes,
            final(store).adjacency == old(store).adjacency,
            final(store).chunks == old(store).chunks,
            final(store).names == old(store).names,
    {
        store.delete_schema(name)
    }

    /// Nothing to evict: loads read through to the store's schema column.
    pub fn clear_cache(&self) {
    }

    /// Statistics of a named schema, creating it first when absent.
    pub fn get_schema_stats(&self, store: &mut KnowledgeGraphStorage, schema_name: &str) -> (r: Result<
        SchemaStats,
        GraphError,
    >)
        requires
            old(store).wf(),
        ensures
            final(store).wf(),
            final(store).schemas@.contains_key(schema_name@),
            final(store).nodes == old(store).nodes,
            final(store).adjacency == old(store).adjacency,
            final(store).chunks == old(store).chunks,
            final(store).names == old(store).names,
            r matches Ok(stats) ==> {
                let s = final(store).schemas@[schema_name@];
                stats.name@ == s.name@ && stats.version@ == s.version@ && stats.object_type_count
                    == s.object_types.entries@.len() && stats.edge_type_count
                    == s.edge_types.entries@.len() && stats.total_properties == spec_sat_sum_props(
                    s.object_types.entries@,
                )
            },
            r is Ok,
    {
        self.ensure_schema(store, schema_name);
        let schema = match store.get_schema(schema_name) {
            Some(s) => s,
            None => vstd::pervasive::unreached(),
        };
        let object_type_count = schema.object_types.num_entries();
        let edge_type_count = schema.edge_types.num_entries();
        let mut total_properties: usize = 0;
        let mut i: usize = 0;
        proof {
            assert(schema.object_types.entries@.take(0) =~= Seq::<
                (String, ObjectTypeSchema),
            >::empty());
        }
        while i < schema.object_types.num_entries()
            invariant
                i <= schema.object_types.entries@.len(),
                total_properties == spec_sat_sum_props(schema.object_types.entries@.take(i as int)),
            decreases schema.object_types.entries@.len() - i,
        {
            let (_, ots) = schema.object_types.entry_at(i);
            let n = ots.properties.num_entries();
            proof {
                let next = schema.object_types.entries@.take(i + 1);
                assert(next.drop_last() =~= schema.object_types.entries@.take(i as int));
                assert(next.last() == schema.object_types.entries@[i as int]);
            }
            if total_properties > usize::MAX - n {
                total_properties = usize::MAX;
            } else {
                total_properties = total_properties + n;
            }
            i = i + 1;
        }
        proof {
            assert(schema.object_types.entries@.take(schema.object_types.entries@.len() as int)
                =~= schema.object_types.entries@);
        }
        Ok(
            SchemaStats {
                name: schema.name.clone(),
                version: schema.version.clone(),
                object_type_count,
                edge_type_count,
                total_properties,
            },
        )
    }
}

} // verus!
