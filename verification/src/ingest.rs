//! Ingestion: line entries of a graph dump become objects and edges, and
//! parsed schema files become object-type schemas. File reading and JSON
//! text parsing happen at the boundary; the mapping logic here is verified
//! over the engine's own JSON model.

use crate::json::{json_get, spec_json_get, JsonValue};
use crate::kvmap::{str_eq, StrMap};
use crate::schema::{
    spec_has_string, EdgeTypeSchema, ObjectTypeSchema, PropertySchema, PropertyType,
    SchemaDefinition, ValidationRule,
};
use crate::store::{GraphError, KnowledgeGraphStorage};
use crate::types::ObjectMetadata;
use vstd::prelude::*;
use vstd::string::StrSliceExecFns;
use vstd::string::StringExecFns;

verus! {

/// One line of a graph dump: a node or an edge.
#[derive(Debug)]
pub enum JsonEntry {
    Node { name: String, node_type: String, metadata: Vec<String> },
    Edge { from: String, to: String, edge_type: String },
}

/// Counters of one ingestion pass.
#[derive(Debug, Clone, Copy, PartialEq, Eq)]
pub struct IngestionStats {
    pub objects_created: usize,
    pub relationships_created: usize,
    pub parse_errors: usize,
}

/// The text of a string-valued field of a JSON object, if any.
pub open spec fn spec_get_str(fields: Seq<(String, JsonValue)>, key: Seq<char>) -> Option<
    Seq<char>,
> {
    match spec_json_get(fields, key) {
        Some(JsonValue::Str(s)) => Some(s@),
        _ => None,
    }
}

/// Whether a parsed line is a well-formed node entry: tagged "node", with
/// string name and node type, and a metadata list of strings.
pub open spec fn spec_is_node_doc(fields: Seq<(String, JsonValue)>) -> bool {
    &&& spec_get_str(fields, "type"@) == Some("node"@)
    &&& spec_get_str(fields, "name"@) is Some
    &&& spec_get_str(fields, "nodeType"@) is Some
    &&& (spec_json_get(fields, "metadata"@) matches Some(m) && (m matches JsonValue::Array(items)
        && (forall|i: int| 0 <= i < items@.len() ==> (#[trigger] items@[i]) is Str)))
}

/// Whether a parsed line is a well-formed edge entry: tagged "edge", with
/// string endpoint names and edge kind.
pub open spec fn spec_is_edge_doc(fields: Seq<(String, JsonValue)>) -> bool {
    &&& spec_get_str(fields, "type"@) == Some("edge"@)
    &&& spec_get_str(fields, "from"@) is Some
    &&& spec_get_str(fields, "to"@) is Some
    &&& spec_get_str(fields, "edgeType"@) is Some
}

impl JsonEntry {
    /// Reads a parsed dump line into an entry: an object tagged "node"
    /// carries a name, a node type and a list of metadata strings; one
    /// tagged "edge" carries two endpoint names and an edge kind. Exactly
    /// the well-formed lines yield an entry.
    #[verifier::loop_isolation(false)]
    pub fn from_json(v: &JsonValue) -> (r: Option<JsonEntry>)
        ensures
            r is Some <==> (v matches JsonValue::Object(fields) && (spec_is_node_doc(fields@)
                || spec_is_edge_doc(fields@))),
            r matches Some(JsonEntry::Node { name, node_type, metadata }) ==> (
            v matches JsonValue::Object(fields) && spec_is_node_doc(fields@) && spec_get_str(
                fields@,
                "name"@,
            ) == Some(name@) && spec_get_str(fields@, "nodeType"@) == Some(node_type@) && (
            spec_json_get(fields@, "metadata"@) matches Some(JsonValue::Array(items))
                && metadata@.len() == items@.len() && (forall|i: int|
                0 <= i < items@.len() ==> ((#[trigger] items@[i]) matches JsonValue::Str(ms) && ms@
                    == metadata@[i]@)))),
            r matches Some(JsonEntry::Edge { from, to, edge_type }) ==> (v matches JsonValue::Object(
                fields,
            ) && spec_is_edge_doc(fields@) && spec_get_str(fields@, "from"@) == Some(from@)
                && spec_get_str(fields@, "to"@) == Some(to@) && spec_get_str(fields@, "edgeType"@)
                == Some(edge_type@)),
    {
        proof {
            reveal_strlit("node");
            reveal_strlit("edge");
            assert("node"@.len() == 4);
            assert("edge"@.len() == 4);
            assert("node"@[0] == 'n');
            assert("edge"@[0] == 'e');
        }
        let fields = match v {
            JsonValue::Object(fields) => fields,
            _ => {
                return None;
            },
        };
        let tag = match json_get(fields, "type") {
            Some(JsonValue::Str(t)) => t,
            _ => {
                return None;
            },
        };
        if str_eq(tag.as_str(), "node") {
            let name = match json_get(fields, "name") {
                Some(JsonValue::Str(n)) => n.clone(),
                _ => {
                    return None;
                },
            };
            let node_type = match json_get(fields, "nodeType") {
                Some(JsonValue::Str(n)) => n.clone(),
                _ => {
                    return None;
                },
            };
            let mut metadata: Vec<String> = Vec::new();
            match json_get(fields, "metadata") {
                Some(JsonValue::Array(items)) => {
                    let mut i: usize = 0;
                    while i < items.len()
                        invariant
                            i <= items@.len(),
                            metadata@.len() == i,
                            forall|j: int|
                                0 <= j < i ==> ((#[trigger] items@[j]) matches JsonValue::Str(ms)
                                    && ms@ == metadata@[j]@),
                        decreases items@.len() - i,
                    {
                        match &items[i] {
                            JsonValue::Str(ms) => {
                                metadata.push(ms.clone());
                            },
                            _ => {
                                proof {
                                    assert(!(items@[i as int] is Str));
                                }
                                return None;
                            },
                        }
                        i = i + 1;
                    }
                    proof {
                        assert(spec_is_node_doc(fields@));
                    }
                    Some(JsonEntry::Node { name, node_type, metadata })
                },
                Some(_) => {
                    return None;
                },
                None => {
                    return None;
                },
            }
        } else if str_eq(tag.as_str(), "edge") {
            let from = match json_get(fields, "from") {
                Some(JsonValue::Str(n)) => n.clone(),
                _ => {
                    return None;
                },
            };
            let to = match json_get(fields, "to") {
                Some(JsonValue::Str(n)) => n.clone(),
                _ => {
                    return None;
                },
            };
            let edge_type = match json_get(fields, "edgeType") {
                Some(JsonValue::Str(n)) => n.clone(),
                _ => {
                    return None;
                },
            };
            Some(JsonEntry::Edge { from, to, edge_type })
        } else {
            None
        }
    }
}

/// Whether a character counts as trimmable whitespace.
pub open spec fn spec_is_ws(c: char) -> bool {
    c == ' ' || c == '\t' || c == '\n' || c == '\r'
}

/// The text with leading whitespace removed.
pub open spec fn spec_trim_start(s: Seq<char>) -> Seq<char>
    decreases s.len(),
{
    if s.len() > 0 && spec_is_ws(s[0]) {
        spec_trim_start(s.drop_first())
    } else {
        s
    }
}

/// The text with trailing whitespace removed.
pub open spec fn spec_trim_end(s: Seq<char>) -> Seq<char>
    decreases s.len(),
{
    if s.len() > 0 && spec_is_ws(s.last()) {
        spec_trim_end(s.drop_last())
    } else {
        s
    }
}

/// The text with whitespace removed from both ends.
pub open spec fn spec_trim(s: Seq<char>) -> Seq<char> {
    spec_trim_end(spec_trim_start(s))
}

/// A whitespace-free prefix shifts trim_start past it.
proof fn lemma_trim_start_skip(s: Seq<char>, i: int)
    requires
        0 <= i <= s.len(),
        forall|j: int| 0 <= j < i ==> spec_is_ws(#[trigger] s[j]),
        i < s.len() ==> !spec_is_ws(s[i]),
    ensures
        spec_trim_start(s) =~= s.skip(i),
    decreases i,
{
    if i > 0 {
        assert(spec_is_ws(s[0]));
        assert forall|j: int| 0 <= j < i - 1 implies spec_is_ws(#[trigger] s.drop_first()[j]) by {
            assert(s.drop_first()[j] == s[j + 1]);
        }
        if i < s.len() {
            assert(s.drop_first()[i - 1] == s[i]);
        }
        lemma_trim_start_skip(s.drop_first(), i - 1);
        assert(s.drop_first().skip(i - 1) =~= s.skip(i));
    } else {
        if s.len() > 0 {
            assert(!spec_is_ws(s[0]));
        }
        assert(s.skip(0) =~= s);
    }
}

/// A whitespace-free tail shifts trim_end back to it.
proof fn lemma_trim_end_take(s: Seq<char>, i: int)
    requires
        0 <= i <= s.len(),
        forall|j: int| i <= j < s.len() ==> spec_is_ws(#[trigger] s[j]),
        i > 0 ==> !spec_is_ws(s[i - 1]),
    ensures
        spec_trim_end(s) =~= s.take(i),
    decreases s.len() - i,
{
    if i < s.len() {
        assert(spec_is_ws(s.last()));
        assert forall|j: int| i <= j < s.drop_last().len() implies spec_is_ws(
            #[trigger] s.drop_last()[j],
        ) by {
            assert(s.drop_last()[j] == s[j]);
        }
        if i > 0 {
            assert(s.drop_last()[i - 1] == s[i - 1]);
        }
        lemma_trim_end_take(s.drop_last(), i);
        assert(s.drop_last().take(i) =~= s.take(i));
    } else {
        assert(s.take(s.len() as int) =~= s);
    }
}

/// Whether the character is trimmable whitespace.
fn is_ws(c: char) -> (r: bool)
    ensures
        r == spec_is_ws(c),
{
    c == ' ' || c == '\t' || c == '\n' || c == '\r'
}

/// Strips whitespace from both ends of a text.
pub fn trim_str(s: &str) -> (r: String)
    ensures
        r@ == spec_trim(s@),
{
    let n = s.unicode_len();
    let mut lo: usize = 0;
    while lo < n && is_ws(s.get_char(lo))
        invariant
            lo <= n,
            n == s@.len(),
            forall|j: int| 0 <= j < lo ==> spec_is_ws(#[trigger] s@[j]),
        decreases n - lo,
    {
        lo = lo + 1;
    }
    proof {
        lemma_trim_start_skip(s@, lo as int);
    }
    let mut hi: usize = n;
    while hi > lo && is_ws(s.get_char(hi - 1))
        invariant
            lo <= hi <= n,
            n == s@.len(),
            forall|j: int| hi <= j < n ==> spec_is_ws(#[trigger] s@[j]),
        decreases hi,
    {
        hi = hi - 1;
    }
    let out = s.substring_char(lo, hi).to_owned();
    proof {
        let st = spec_trim_start(s@);
        assert(st =~= s@.skip(lo as int));
        assert forall|j: int| hi as int - lo as int <= j < st.len() implies spec_is_ws(
            #[trigger] st[j],
        ) by {
            assert(st[j] == s@[j + lo]);
        }
        if hi > lo {
            assert(st[hi - lo - 1] == s@[hi - 1]);
            assert(!spec_is_ws(st[hi - lo - 1]));
        }
        lemma_trim_end_take(st, hi as int - lo as int);
        assert(spec_trim(s@) =~= st.take(hi as int - lo as int));
        assert(out@ == s@.subrange(lo as int, hi as int));
        assert(s@.subrange(lo as int, hi as int) =~= st.take(hi as int - lo as int));
    }
    out
}

/// Index of the first colon, if any.
pub open spec fn spec_first_colon(s: Seq<char>) -> Option<int>
    decreases s.len(),
{
    if s.len() == 0 {
        None
    } else if s[0] == ':' {
        Some(0)
    } else {
        match spec_first_colon(s.drop_first()) {
            Some(i) => Some(i + 1),
            None => None,
        }
    }
}

/// Splits a metadata item at its first colon into a key and a value, each
/// trimmed of surrounding whitespace.
pub fn split_property(item: &str) -> (r: Option<(String, String)>)
    ensures
        r matches Some((k, v)) ==> (spec_first_colon(item@) matches Some(i) && k@ == spec_trim(
            item@.take(i),
        ) && v@ == spec_trim(item@.skip(i + 1))),
        r is None ==> spec_first_colon(item@) is None,
{
    let n = item.unicode_len();
    let mut i: usize = 0;
    proof {
        assert(item@.skip(0) =~= item@);
    }
    while i < n
        invariant
            i <= n,
            n == item@.len(),
            forall|j: int| 0 <= j < i ==> item@[j] != ':',
        decreases n - i,
    {
        if item.get_char(i) == ':' {
            proof {
                lemma_first_colon_at(item@, i as int);
            }
            let key = trim_str(item.substring_char(0, i));
            let value = trim_str(item.substring_char(i + 1, n));
            proof {
                assert(item@.subrange(0, i as int) =~= item@.take(i as int));
                assert(item@.subrange(i + 1, n as int) =~= item@.skip(i + 1));
            }
            return Some((key, value));
        }
        i = i + 1;
    }
    proof {
        lemma_first_colon_char(item@);
    }
    None
}

/// The first colon is a colon, and nothing before it is one.
proof fn lemma_first_colon_char(s: Seq<char>)
    ensures
        spec_first_colon(s) matches Some(c) ==> 0 <= c < s.len() && s[c] == ':',
    decreases s.len(),
{
    if s.len() > 0 && s[0] != ':' {
        lemma_first_colon_char(s.drop_first());
    }
}

/// A colon first found at `i` is the first colon.
proof fn lemma_first_colon_at(s: Seq<char>, i: int)
    requires
        0 <= i < s.len(),
        forall|j: int| 0 <= j < i ==> s[j] != ':',
        s[i] == ':',
    ensures
        spec_first_colon(s) == Some(i),
    decreases i,
{
    if i > 0 {
        assert(s[0] != ':');
        assert forall|j: int| 0 <= j < i - 1 implies s.drop_first()[j] != ':' by {
            assert(s.drop_first()[j] == s[j + 1]);
        }
        assert(s.drop_first()[i - 1] == s[i]);
        lemma_first_colon_at(s.drop_first(), i - 1);
    }
}

/// The built-in kind a dump node type maps to when no schema declares it.
pub open spec fn spec_mapped_type(node_type: Seq<char>) -> Seq<char> {
    if node_type == "location"@ {
        "location"@
    } else if node_type == "npc"@ || node_type == "player_character"@ {
        "character"@
    } else if node_type == "faction"@ {
        "faction"@
    } else if node_type == "quest"@ || node_type == "setting_reference"@ || node_type
        == "system_reference"@ || node_type == "temporal"@ {
        "event"@
    } else if node_type == "artifact"@ || node_type == "currency"@ || node_type == "inventory"@
        || node_type == "transportation"@ || node_type == "skills"@ {
        "item"@
    } else {
        node_type
    }
}

/// Maps a dump node type onto the engine's built-in kinds; unknown types
/// are kept as custom types.
pub fn map_node_type(node_type: &str) -> (r: String)
    ensures
        r@ == spec_mapped_type(node_type@),
{
    if str_eq(node_type, "location") {
        "location".to_owned()
    } else if str_eq(node_type, "npc") || str_eq(node_type, "player_character") {
        "character".to_owned()
    } else if str_eq(node_type, "faction") {
        "faction".to_owned()
    } else if str_eq(node_type, "quest") || str_eq(node_type, "setting_reference") || str_eq(
        node_type,
        "system_reference",
    ) || str_eq(node_type, "temporal") {
        "event".to_owned()
    } else if str_eq(node_type, "artifact") || str_eq(node_type, "currency") || str_eq(
        node_type,
        "inventory",
    ) || str_eq(node_type, "transportation") || str_eq(node_type, "skills") {
        "item".to_owned()
    } else {
        node_type.to_owned()
    }
}

/// Whether a boolean field of a JSON object is present and true.
pub open spec fn spec_get_flag(fields: Seq<(String, JsonValue)>, key: Seq<char>) -> bool {
    spec_json_get(fields, key) == Some(JsonValue::Bool(true))
}

/// The object type name a schema file name denotes: a leading "add_" is
/// stripped.
pub open spec fn spec_type_name_of(n: Seq<char>) -> Seq<char> {
    if n.len() >= 4 && n.take(4) == "add_"@ {
        n.skip(4)
    } else {
        n
    }
}

/// The string items of a parsed array, in order; other items are passed
/// over.
pub open spec fn spec_str_items(items: Seq<JsonValue>) -> Seq<Seq<char>>
    decreases items.len(),
{
    if items.len() == 0 {
        Seq::empty()
    } else {
        spec_str_items(items.drop_last()) + (match items.last() {
            JsonValue::Str(s) => seq![s@],
            _ => Seq::<Seq<char>>::empty(),
        })
    }
}

/// The enum value list a property declaration carries: the string items
/// of its "enum" array, empty when there is none.
pub open spec fn spec_enum_values(fields: Seq<(String, JsonValue)>) -> Seq<Seq<char>> {
    match spec_json_get(fields, "enum"@) {
        Some(JsonValue::Array(items)) => spec_str_items(items@),
        _ => Seq::empty(),
    }
}

/// What conversion promises of one produced property schema: the kind
/// follows the "type" field (a non-empty enum list upgrades it to an enum
/// of exactly those values with a matching allowed-values rule), a true
/// "required" flag is recorded on the rule, and a relationship object
/// attaches a relationship.
pub open spec fn spec_converted_property(
    prop_fields: Seq<(String, JsonValue)>,
    ps: PropertySchema,
) -> bool {
    let t = spec_get_str(prop_fields, "type"@);
    &&& (spec_enum_values(prop_fields).len() > 0 ==> ((ps.property_type matches PropertyType::Enum(
        vs,
    ) && vs@.map_values(|s: String| s@) == spec_enum_values(prop_fields)) && (
    ps.validation matches Some(vr) && (vr.allowed_values matches Some(av) && av@.map_values(
        |s: String| s@,
    ) == spec_enum_values(prop_fields)) && vr.required == spec_get_flag(
        prop_fields,
        "required"@,
    ))))
    &&& (spec_enum_values(prop_fields).len() == 0 ==> !(ps.property_type is Enum))
    &&& (!(ps.property_type is Enum) ==> ((t == Some("number"@) ==> ps.property_type is Number) && (
    t == Some("boolean"@) ==> ps.property_type is Boolean) && (t == Some("array"@)
        ==> ps.property_type is Array) && (t matches Some(tv) && tv != "number"@ && tv
        != "boolean"@ && tv != "array"@ ==> ps.property_type is Str)))
    &&& (spec_get_flag(prop_fields, "required"@) ==> (ps.validation matches Some(vr)
        && vr.required))
    &&& (ps.relationship is Some <==> (spec_json_get(prop_fields, "relationship"@) matches Some(rv)
        && rv is Object))
}

/// Loads JSON schema files into schema definitions.
pub struct SchemaIngestion {}

impl SchemaIngestion {
    /// Strips a leading "add_" from a schema name to get the object type
    /// name.
    pub fn extract_object_type_name(schema_name: &str) -> (r: String)
        ensures
            r@ == spec_type_name_of(schema_name@),
    {
        proof {
            reveal_strlit("add_");
        }
        let n = schema_name.unicode_len();
        if n >= 4 && schema_name.get_char(0) == 'a' && schema_name.get_char(1) == 'd'
            && schema_name.get_char(2) == 'd' && schema_name.get_char(3) == '_' {
            proof {
                assert(schema_name@.take(4) =~= "add_"@);
            }
            let stripped = schema_name.substring_char(4, n).to_owned();
            proof {
                assert(schema_name@.subrange(4, n as int) =~= schema_name@.skip(4));
            }
            stripped
        } else {
            proof {
                if schema_name@.len() >= 4 && schema_name@.take(4) == "add_"@ {
                    assert(schema_name@[0] == "add_"@[0]) by {
                        assert(schema_name@.take(4)[0] == schema_name@[0]);
                    }
                    assert(schema_name@[1] == "add_"@[1]) by {
                        assert(schema_name@.take(4)[1] == schema_name@[1]);
                    }
                    assert(schema_name@[2] == "add_"@[2]) by {
                        assert(schema_name@.take(4)[2] == schema_name@[2]);
                    }
                    assert(schema_name@[3] == "add_"@[3]) by {
                        assert(schema_name@.take(4)[3] == schema_name@[3]);
                    }
                }
            }
            schema_name.to_owned()
        }
    }

    /// Reads one property declaration: its kind from the "type" field
    /// (unknown kinds degrade to string, arrays read their element kind
    /// from "items"), an enum list upgrades the kind and installs an
    /// allowed-values rule, a true "required" flag is recorded on the
    /// rule, and a relationship with an edge kind is attached.
    pub fn convert_json_property_to_schema(prop_fields: &Vec<(String, JsonValue)>) -> (r: Result<
        PropertySchema,
        GraphError,
    >)
        ensures
            r is Err <==> spec_get_str(prop_fields@, "type"@) is None,
            r matches Ok(ps) ==> spec_converted_property(prop_fields@, ps),
    {
        proof {
            reveal_strlit("number");
            reveal_strlit("boolean");
            reveal_strlit("array");
            // Lengths tell the three kind names apart.
            assert("number"@.len() == 6);
            assert("boolean"@.len() == 7);
            assert("array"@.len() == 5);
        }
        let kind_name = match json_get(prop_fields, "type") {
            Some(JsonValue::Str(t)) => t,
            _ => {
                return Err(GraphError::MalformedSchemaFile("type".to_owned()));
            },
        };
        let description: String = match json_get(prop_fields, "description") {
            Some(JsonValue::Str(d)) => d.clone(),
            _ => "No description".to_owned(),
        };
        let property_type: PropertyType = if str_eq(kind_name.as_str(), "number") {
            PropertyType::Number
        } else if str_eq(kind_name.as_str(), "boolean") {
            PropertyType::Boolean
        } else if str_eq(kind_name.as_str(), "array") {
            let element: PropertyType = match json_get(prop_fields, "items") {
                Some(JsonValue::Object(items_fields)) => {
                    match json_get(items_fields, "type") {
                        Some(JsonValue::Str(it)) => {
                            if str_eq(it.as_str(), "number") {
                                PropertyType::Number
                            } else if str_eq(it.as_str(), "boolean") {
                                PropertyType::Boolean
                            } else {
                                PropertyType::Str
                            }
                        },
                        _ => PropertyType::Str,
                    }
                },
                _ => PropertyType::Str,
            };
            PropertyType::Array(Box::new(element))
        } else {
            PropertyType::Str
        };
        let mut property_schema = PropertySchema::new(property_type, description);
        let mut validation_rule = ValidationRule::new();
        let mut has_validation = false;
        match json_get(prop_fields, "enum") {
            Some(JsonValue::Array(enum_values)) => {
                proof {
                    assert(enum_values@.take(0) =~= Seq::<JsonValue>::empty());
                }
                let mut enum_strings: Vec<String> = Vec::new();
                let mut i: usize = 0;
                while i < enum_values.len()
                    invariant
                        i <= enum_values@.len(),
                        enum_strings@.map_values(|s: String| s@) == spec_str_items(
                            enum_values@.take(i as int),
                        ),
                    decreases enum_values@.len() - i,
                {
                    let ghost prev = enum_strings@;
                    proof {
                        let next = enum_values@.take(i + 1);
                        assert(next.drop_last() =~= enum_values@.take(i as int));
                        assert(next.last() == enum_values@[i as int]);
                    }
                    match &enum_values[i] {
                        JsonValue::Str(s) => {
                            enum_strings.push(s.clone());
                            proof {
                                assert(enum_strings@.map_values(|s: String| s@) =~= prev.map_values(
                                    |s: String| s@,
                                ) + seq![enum_values@.take(i + 1).last()->Str_0@]);
                            }
                        },
                        _ => {},
                    }
                    i = i + 1;
                }
                proof {
                    assert(enum_values@.take(enum_values@.len() as int) =~= enum_values@);
                    assert(spec_enum_values(prop_fields@) == spec_str_items(enum_values@));
                }
                if enum_strings.len() > 0 {
                    let mut allowed: Vec<String> = Vec::new();
                    let mut j: usize = 0;
                    while j < enum_strings.len()
                        invariant
                            j <= enum_strings@.len(),
                            allowed@ =~= enum_strings@.take(j as int),
                        decreases enum_strings@.len() - j,
                    {
                        allowed.push(enum_strings[j].clone());
                        proof {
                            assert(allowed@ =~= enum_strings@.take(j + 1));
                        }
                        j = j + 1;
                    }
                    proof {
                        assert(enum_strings@.take(enum_strings@.len() as int) =~= enum_strings@);
                        assert(allowed@ =~= enum_strings@);
                    }
                    property_schema.property_type = PropertyType::Enum(enum_strings);
                    validation_rule = validation_rule.with_allowed_values(allowed);
                    has_validation = true;
                    proof {
                        assert(property_schema.property_type matches PropertyType::Enum(vs)
                            && vs@.map_values(|s: String| s@) == spec_enum_values(prop_fields@));
                        assert(validation_rule.allowed_values matches Some(av) && av@.map_values(
                            |s: String| s@,
                        ) == spec_enum_values(prop_fields@));
                    }
                }
            },
            _ => {},
        }
        match json_get(prop_fields, "required") {
            Some(JsonValue::Bool(true)) => {
                validation_rule.required = true;
                has_validation = true;
            },
            _ => {},
        }
        if has_validation {
            property_schema = property_schema.with_validation(validation_rule);
        }
        match json_get(prop_fields, "relationship") {
            Some(JsonValue::Object(rel_fields)) => {
                let edge_type: String = match json_get(rel_fields, "edgeType") {
                    Some(JsonValue::Str(et)) => et.clone(),
                    _ => "related_to".to_owned(),
                };
                let rel_description: String = match json_get(rel_fields, "description") {
                    Some(JsonValue::Str(d)) => d.clone(),
                    _ => "Related entity".to_owned(),
                };
                let relationship_def = crate::schema::RelationshipDefinition::new(
                    edge_type,
                    rel_description,
                ).with_cardinality(crate::schema::Cardinality::ManyToMany);
                property_schema = property_schema.with_relationship(relationship_def);
            },
            _ => {},
        }
        Ok(property_schema)
    }

    /// Whether a parsed document is a usable schema file: an object with a
    /// string name and a properties object.
    pub open spec fn spec_schema_file_ok(doc: JsonValue) -> bool {
        doc matches JsonValue::Object(fields) && spec_get_str(fields@, "name"@) is Some && (
        spec_json_get(fields@, "properties"@) matches Some(p) && p is Object)
    }

    /// Whether a parsed document converts to an object type schema: a
    /// usable schema file each of whose property values is an object
    /// carrying a "type" field.
    pub open spec fn spec_convertible_schema_doc(doc: JsonValue) -> bool {
        &&& SchemaIngestion::spec_schema_file_ok(doc)
        &&& (doc matches JsonValue::Object(fields) ==> (spec_json_get(
            fields@,
            "properties"@,
        ) matches Some(JsonValue::Object(props)) && (forall|i: int|
            0 <= i < props@.len() ==> ((#[trigger] props@[i]).1 matches JsonValue::Object(pf)
                && spec_get_str(pf@, "type"@) is Some))))
    }

    /// The object type name a schema document files under, when it carries
    /// one.
    pub open spec fn spec_doc_type_name(doc: JsonValue) -> Option<Seq<char>> {
        match doc {
            JsonValue::Object(fields) => match spec_get_str(fields@, "name"@) {
                Some(nm) => Some(spec_type_name_of(nm)),
                _ => None,
            },
            _ => None,
        }
    }

    /// What conversion records of the property entry at position i of a
    /// schema file's property list: the key is present, a true "required"
    /// flag puts the key among the required properties, a relationship
    /// edge kind is allowed, and for the last entry under its key the
    /// recorded property schema is the converted one.
    pub open spec fn spec_converted_entry(
        props: Seq<(String, JsonValue)>,
        i: int,
        ots: ObjectTypeSchema,
    ) -> bool {
        &&& ots.properties@.contains_key(props[i].0@)
        &&& (props[i].1 matches JsonValue::Object(pf) ==> {
            &&& (spec_get_flag(pf@, "required"@) ==> spec_has_string(
                ots.required_properties@,
                props[i].0@,
            ))
            &&& (spec_json_get(pf@, "relationship"@) matches Some(JsonValue::Object(rf)) ==> (
            spec_get_str(rf@, "edgeType"@) matches Some(et) ==> spec_has_string(
                ots.allowed_edges@,
                et,
            )))
            &&& ((forall|j: int| i < j < props.len() ==> (#[trigger] props[j]).0@ != props[i].0@)
                ==> spec_converted_property(pf@, ots.properties@[props[i].0@]))
        })
    }

    /// What conversion promises of the produced object type schema: its
    /// name is the one the file carries (with any leading "add_"
    /// stripped), and every property entry is recorded.
    pub open spec fn spec_converted_doc(
        fields: Seq<(String, JsonValue)>,
        ots: ObjectTypeSchema,
    ) -> bool {
        &&& (spec_get_str(fields, "name"@) matches Some(nm) ==> ots.name@ == spec_type_name_of(nm))
        &&& (spec_json_get(fields, "properties"@) matches Some(JsonValue::Object(props)) ==> (forall|
            i: int,
        | 0 <= i < props@.len() ==> #[trigger] SchemaIngestion::spec_converted_entry(
            props@,
            i,
            ots,
        )))
    }

    /// Reads one schema file into an object type schema. The file must
    /// carry a name and a properties object; each property must itself be
    /// an object with a "type" field.
    #[verifier::loop_isolation(false)]
    pub fn convert_json_to_object_schema(doc: &JsonValue) -> (r: Result<
        ObjectTypeSchema,
        GraphError,
    >)
        ensures
            r is Ok <==> SchemaIngestion::spec_convertible_schema_doc(*doc),
            r matches Ok(ots) ==> ots.wf() && (*doc matches JsonValue::Object(fields)
                && SchemaIngestion::spec_converted_doc(fields@, ots)),
    {
        let fields = match doc {
            JsonValue::Object(fields) => fields,
            _ => {
                return Err(GraphError::MalformedSchemaFile("name".to_owned()));
            },
        };
        let raw_name = match json_get(fields, "name") {
            Some(JsonValue::Str(n)) => n,
            _ => {
                return Err(GraphError::MalformedSchemaFile("name".to_owned()));
            },
        };
        let description: String = match json_get(fields, "description") {
            Some(JsonValue::Str(d)) => d.clone(),
            _ => "No description".to_owned(),
        };
        let props = match json_get(fields, "properties") {
            Some(JsonValue::Object(props)) => props,
            _ => {
                return Err(GraphError::MalformedSchemaFile("properties".to_owned()));
            },
        };
        let object_type_name = SchemaIngestion::extract_object_type_name(raw_name.as_str());
        let mut object_schema = ObjectTypeSchema::new(object_type_name, description);
        let mut i: usize = 0;
        while i < props.len()
            invariant
                i <= props@.len(),
                object_schema.wf(),
                object_schema.name@ == spec_type_name_of(raw_name@),
                forall|j: int|
                    0 <= j < i ==> ((#[trigger] props@[j]).1 matches JsonValue::Object(pf)
                        && spec_get_str(pf@, "type"@) is Some),
                forall|j: int|
                    0 <= j < i ==> object_schema.properties@.contains_key(
                        (#[trigger] props@[j]).0@,
                    ),
                forall|j: int|
                    0 <= j < i ==> ((#[trigger] props@[j]).1 matches JsonValue::Object(pf) ==> (
                    spec_get_flag(pf@, "required"@) ==> spec_has_string(
                        object_schema.required_properties@,
                        props@[j].0@,
                    ))),
                forall|j: int|
                    0 <= j < i ==> ((#[trigger] props@[j]).1 matches JsonValue::Object(pf) ==> (
                    spec_json_get(pf@, "relationship"@) matches Some(JsonValue::Object(rf)) ==> (
                    spec_get_str(rf@, "edgeType"@) matches Some(et) ==> spec_has_string(
                        object_schema.allowed_edges@,
                        et,
                    )))),
                forall|j: int|
                    0 <= j < i ==> ((#[trigger] props@[j]).1 matches JsonValue::Object(pf) ==> ((
                    forall|k: int| j < k < i ==> (#[trigger] props@[k]).0@ != props@[j].0@)
                        ==> spec_converted_property(pf@, object_schema.properties@[props@[j].0@]))),
            decreases props@.len() - i,
        {
            let prop_fields = match &props[i].1 {
                JsonValue::Object(prop_fields) => prop_fields,
                _ => {
                    return Err(GraphError::MalformedSchemaFile(props[i].0.clone()));
                },
            };
            let property_schema = match SchemaIngestion::convert_json_property_to_schema(
                prop_fields,
            ) {
                Ok(ps) => ps,
                Err(e) => {
                    return Err(e);
                },
            };
            match json_get(prop_fields, "required") {
                Some(JsonValue::Bool(true)) => {
                    object_schema = object_schema.with_required_property(props[i].0.clone());
                },
                _ => {},
            }
            match json_get(prop_fields, "relationship") {
                Some(JsonValue::Object(rel_fields)) => {
                    match json_get(rel_fields, "edgeType") {
                        Some(JsonValue::Str(et)) => {
                            object_schema = object_schema.with_allowed_edge(et.clone());
                        },
                        _ => {},
                    }
                },
                _ => {},
            }
            object_schema = object_schema.with_property(props[i].0.clone(), property_schema);
            i = i + 1;
        }
        proof {
            assert forall|i: int| 0 <= i < props@.len() implies
                #[trigger] SchemaIngestion::spec_converted_entry(props@, i, object_schema) by {
                assert(props@[i].1 matches JsonValue::Object(pf)
                    && spec_get_str(pf@, "type"@) is Some);
            }
        }
        Ok(object_schema)
    }

    /// Attaches the canonical edge kinds used across schema files, each
    /// with its source and target type constraints.
    #[verifier::rlimit(100)]
    pub fn add_common_edge_types(schema_definition: &mut SchemaDefinition)
        requires
            old(schema_definition).wf(),
        ensures
            final(schema_definition).wf(),
            spec_edge_kind_is(*final(schema_definition), "owned_by"@, seq!["artifact"@, "currency"@, "inventory"@, "transportation"@], seq!["player_character"@, "npc"@, "faction"@]),
            spec_edge_kind_is(*final(schema_definition), "led_by"@, seq!["faction"@], seq!["player_character"@, "npc"@]),
            spec_edge_kind_is(*final(schema_definition), "allied_with"@, seq!["faction"@], seq!["faction"@]),
            spec_edge_kind_is(*final(schema_definition), "rival_of"@, seq!["faction"@], seq!["faction"@]),
            spec_edge_kind_is(*final(schema_definition), "subfaction_of"@, seq!["faction"@], seq!["faction"@]),
            spec_edge_kind_is(*final(schema_definition), "a_part_of"@, seq!["location"@], seq!["location"@]),
            spec_edge_kind_is(*final(schema_definition), "contains"@, seq!["location"@], seq!["location"@, "artifact"@]),
            spec_edge_kind_is(*final(schema_definition), "present_in"@, seq!["player_character"@, "npc"@], seq!["location"@]),
            spec_edge_kind_is(*final(schema_definition), "takes_place_in"@, seq!["quest"@], seq!["location"@]),
            spec_edge_kind_is(*final(schema_definition), "located_at"@, seq!["artifact"@], seq!["location"@]),
            spec_edge_kind_is(*final(schema_definition), "controlled_by"@, seq!["location"@], seq!["faction"@, "player_character"@, "npc"@]),
            spec_edge_kind_is(*final(schema_definition), "occurred_at"@, seq!["temporal"@], seq!["location"@]),
            spec_edge_kind_is(*final(schema_definition), "located_in"@, seq!["npc"@, "player_character"@], seq!["location"@]),
            spec_edge_kind_is(*final(schema_definition), "originates_from"@, seq!["npc"@, "player_character"@], seq!["location"@]),
            spec_edge_kind_is(*final(schema_definition), "member_of"@, seq!["player_character"@, "npc"@], seq!["faction"@]),
            spec_edge_kind_is(*final(schema_definition), "player_can"@, seq!["player_character"@], seq!["skills"@]),
            spec_edge_kind_is(*final(schema_definition), "npc_can"@, seq!["npc"@], seq!["skills"@]),
            spec_edge_kind_is(*final(schema_definition), "sourced_from"@, seq!["skills"@], seq!["system_reference"@]),
            spec_edge_kind_is(*final(schema_definition), "applies_to"@, seq!["system_reference"@, "setting_reference"@], seq!["player_character"@, "npc"@, "location"@, "faction"@]),
            spec_edge_kind_is(*final(schema_definition), "modifies_source"@, seq!["setting_reference"@], seq!["system_reference"@]),
            spec_edge_kind_is(*final(schema_definition), "associated_with"@, seq!["quest"@], seq!["artifact"@]),
            spec_edge_kind_is(*final(schema_definition), "found_at"@, seq!["artifact"@], seq!["location"@]),
            spec_edge_kind_is(*final(schema_definition), "subquest_of"@, seq!["quest"@], seq!["quest"@]),
            spec_edge_kind_is(*final(schema_definition), "affects_faction"@, seq!["quest"@], seq!["faction"@]),
            forall|k: Seq<char>|
                old(schema_definition).edge_types@.contains_key(k) ==> final(schema_definition).edge_types@.contains_key(k),
            final(schema_definition).object_types == old(schema_definition).object_types,
            final(schema_definition).name == old(schema_definition).name,
            final(schema_definition).version == old(schema_definition).version,
    {
        let src_owned_by: &[&str] = &["artifact", "currency", "inventory", "transportation"];
        let tgt_owned_by: &[&str] = &["player_character", "npc", "faction"];
        add_edge_kind(schema_definition, "owned_by", "Ownership relationship", src_owned_by, tgt_owned_by);
        let src_led_by: &[&str] = &["faction"];
        let tgt_led_by: &[&str] = &["player_character", "npc"];
        add_edge_kind(schema_definition, "led_by", "Leadership relationship", src_led_by, tgt_led_by);
        let src_allied_with: &[&str] = &["faction"];
        let tgt_allied_with: &[&str] = &["faction"];
        add_edge_kind(schema_definition, "allied_with", "Alliance relationship", src_allied_with, tgt_allied_with);
        let src_rival_of: &[&str] = &["faction"];
        let tgt_rival_of: &[&str] = &["faction"];
        add_edge_kind(schema_definition, "rival_of", "Rivalry relationship", src_rival_of, tgt_rival_of);
        let src_subfaction_of: &[&str] = &["faction"];
        let tgt_subfaction_of: &[&str] = &["faction"];
        add_edge_kind(schema_definition, "subfaction_of", "Sub-organization relationship", src_subfaction_of, tgt_subfaction_of);
        let src_a_part_of: &[&str] = &["location"];
        let tgt_a_part_of: &[&str] = &["location"];
        add_edge_kind(schema_definition, "a_part_of", "Containment relationship", src_a_part_of, tgt_a_part_of);
        let src_contains: &[&str] = &["location"];
        let tgt_contains: &[&str] = &["location", "artifact"];
        add_edge_kind(schema_definition, "contains", "Contains relationship", src_contains, tgt_contains);
        let src_present_in: &[&str] = &["player_character", "npc"];
        let tgt_present_in: &[&str] = &["location"];
        add_edge_kind(schema_definition, "present_in", "Presence relationship", src_present_in, tgt_present_in);
        let src_takes_place_in: &[&str] = &["quest"];
        let tgt_takes_place_in: &[&str] = &["location"];
        add_edge_kind(schema_definition, "takes_place_in", "Event location relationship", src_takes_place_in, tgt_takes_place_in);
        let src_located_at: &[&str] = &["artifact"];
        let tgt_located_at: &[&str] = &["location"];
        add_edge_kind(schema_definition, "located_at", "Item location relationship", src_located_at, tgt_located_at);
        let src_controlled_by: &[&str] = &["location"];
        let tgt_controlled_by: &[&str] = &["faction", "player_character", "npc"];
        add_edge_kind(schema_definition, "controlled_by", "Control relationship", src_controlled_by, tgt_controlled_by);
        let src_occurred_at: &[&str] = &["temporal"];
        let tgt_occurred_at: &[&str] = &["location"];
        add_edge_kind(schema_definition, "occurred_at", "Event occurrence relationship", src_occurred_at, tgt_occurred_at);
        let src_located_in: &[&str] = &["npc", "player_character"];
        let tgt_located_in: &[&str] = &["location"];
        add_edge_kind(schema_definition, "located_in", "Current location relationship", src_located_in, tgt_located_in);
        let src_originates_from: &[&str] = &["npc", "player_character"];
        let tgt_originates_from: &[&str] = &["location"];
        add_edge_kind(schema_definition, "originates_from", "Origin relationship", src_originates_from, tgt_originates_from);
        let src_member_of: &[&str] = &["player_character", "npc"];
        let tgt_member_of: &[&str] = &["faction"];
        add_edge_kind(schema_definition, "member_of", "Membership relationship", src_member_of, tgt_member_of);
        let src_player_can: &[&str] = &["player_character"];
        let tgt_player_can: &[&str] = &["skills"];
        add_edge_kind(schema_definition, "player_can", "Player ability relationship", src_player_can, tgt_player_can);
        let src_npc_can: &[&str] = &["npc"];
        let tgt_npc_can: &[&str] = &["skills"];
        add_edge_kind(schema_definition, "npc_can", "NPC ability relationship", src_npc_can, tgt_npc_can);
        let src_sourced_from: &[&str] = &["skills"];
        let tgt_sourced_from: &[&str] = &["system_reference"];
        add_edge_kind(schema_definition, "sourced_from", "Source reference relationship", src_sourced_from, tgt_sourced_from);
        let src_applies_to: &[&str] = &["system_reference", "setting_reference"];
        let tgt_applies_to: &[&str] = &["player_character", "npc", "location", "faction"];
        add_edge_kind(schema_definition, "applies_to", "Application relationship", src_applies_to, tgt_applies_to);
        let src_modifies_source: &[&str] = &["setting_reference"];
        let tgt_modifies_source: &[&str] = &["system_reference"];
        add_edge_kind(schema_definition, "modifies_source", "Modification relationship", src_modifies_source, tgt_modifies_source);
        let src_associated_with: &[&str] = &["quest"];
        let tgt_associated_with: &[&str] = &["artifact"];
        add_edge_kind(schema_definition, "associated_with", "General association", src_associated_with, tgt_associated_with);
        let src_found_at: &[&str] = &["artifact"];
        let tgt_found_at: &[&str] = &["location"];
        add_edge_kind(schema_definition, "found_at", "Discovery location", src_found_at, tgt_found_at);
        let src_subquest_of: &[&str] = &["quest"];
        let tgt_subquest_of: &[&str] = &["quest"];
        add_edge_kind(schema_definition, "subquest_of", "Sub-quest relationship", src_subquest_of, tgt_subquest_of);
        let src_affects_faction: &[&str] = &["quest"];
        let tgt_affects_faction: &[&str] = &["faction"];
        add_edge_kind(schema_definition, "affects_faction", "Faction impact relationship", src_affects_faction, tgt_affects_faction);
        proof {
            reveal_strlit("owned_by");
            reveal_strlit("led_by");
            reveal_strlit("allied_with");
            reveal_strlit("rival_of");
            reveal_strlit("subfaction_of");
            reveal_strlit("a_part_of");
            reveal_strlit("contains");
            reveal_strlit("present_in");
            reveal_strlit("takes_place_in");
            reveal_strlit("located_at");
            reveal_strlit("controlled_by");
            reveal_strlit("occurred_at");
            reveal_strlit("located_in");
            reveal_strlit("originates_from");
            reveal_strlit("member_of");
            reveal_strlit("player_can");
            reveal_strlit("npc_can");
            reveal_strlit("sourced_from");
            reveal_strlit("applies_to");
            reveal_strlit("modifies_source");
            reveal_strlit("associated_with");
            reveal_strlit("found_at");
            reveal_strlit("subquest_of");
            reveal_strlit("affects_faction");
            assert(("owned_by"@).len() == 8);
            assert("owned_by"@[0] == 'o');
            assert(("led_by"@).len() == 6);
            assert("led_by"@[0] == 'l');
            assert(("allied_with"@).len() == 11);
            assert("allied_with"@[0] == 'a');
            assert(("rival_of"@).len() == 8);
            assert("rival_of"@[0] == 'r');
            assert(("subfaction_of"@).len() == 13);
            assert("subfaction_of"@[0] == 's');
            assert(("a_part_of"@).len() == 9);
            assert("a_part_of"@[0] == 'a');
            assert(("contains"@).len() == 8);
            assert("contains"@[0] == 'c');
            assert(("present_in"@).len() == 10);
            assert("present_in"@[0] == 'p');
            assert(("takes_place_in"@).len() == 14);
            assert("takes_place_in"@[0] == 't');
            assert(("located_at"@).len() == 10);
            assert("located_at"@[0] == 'l');
            assert(("controlled_by"@).len() == 13);
            assert("controlled_by"@[0] == 'c');
            assert(("occurred_at"@).len() == 11);
            assert("occurred_at"@[0] == 'o');
            assert(("located_in"@).len() == 10);
            assert("located_in"@[0] == 'l');
            assert(("originates_from"@).len() == 15);
            assert("originates_from"@[0] == 'o');
            assert(("member_of"@).len() == 9);
            assert("member_of"@[0] == 'm');
            assert(("player_can"@).len() == 10);
            assert("player_can"@[0] == 'p');
            assert(("npc_can"@).len() == 7);
            assert("npc_can"@[0] == 'n');
            assert(("sourced_from"@).len() == 12);
            assert("sourced_from"@[0] == 's');
            assert(("applies_to"@).len() == 10);
            assert("applies_to"@[0] == 'a');
            assert(("modifies_source"@).len() == 15);
            assert("modifies_source"@[0] == 'm');
            assert(("associated_with"@).len() == 15);
            assert("associated_with"@[0] == 'a');
            assert(("found_at"@).len() == 8);
            assert("found_at"@[0] == 'f');
            assert(("subquest_of"@).len() == 11);
            assert("subquest_of"@[0] == 's');
            assert(("affects_faction"@).len() == 15);
            assert("affects_faction"@[0] == 'a');
            assert("present_in"@[1] == 'r');
            assert("player_can"@[1] == 'l');
            assert("associated_with"@[1] == 's');
            assert("affects_faction"@[1] == 'f');
            assert("located_at"@[8] == 'a');
            assert("located_in"@[8] == 'i');
            assert(src_owned_by@.map_values(|s: &str| s@) =~= seq!["artifact"@, "currency"@, "inventory"@, "transportation"@]);
            assert(tgt_owned_by@.map_values(|s: &str| s@) =~= seq!["player_character"@, "npc"@, "faction"@]);
            assert(src_led_by@.map_values(|s: &str| s@) =~= seq!["faction"@]);
            assert(tgt_led_by@.map_values(|s: &str| s@) =~= seq!["player_character"@, "npc"@]);
            assert(src_allied_with@.map_values(|s: &str| s@) =~= seq!["faction"@]);
            assert(tgt_allied_with@.map_values(|s: &str| s@) =~= seq!["faction"@]);
            assert(src_rival_of@.map_values(|s: &str| s@) =~= seq!["faction"@]);
            assert(tgt_rival_of@.map_values(|s: &str| s@) =~= seq!["faction"@]);
            assert(src_subfaction_of@.map_values(|s: &str| s@) =~= seq!["faction"@]);
            assert(tgt_subfaction_of@.map_values(|s: &str| s@) =~= seq!["faction"@]);
            assert(src_a_part_of@.map_values(|s: &str| s@) =~= seq!["location"@]);
            assert(tgt_a_part_of@.map_values(|s: &str| s@) =~= seq!["location"@]);
            assert(src_contains@.map_values(|s: &str| s@) =~= seq!["location"@]);
            assert(tgt_contains@.map_values(|s: &str| s@) =~= seq!["location"@, "artifact"@]);
            assert(src_present_in@.map_values(|s: &str| s@) =~= seq!["player_character"@, "npc"@]);
            assert(tgt_present_in@.map_values(|s: &str| s@) =~= seq!["location"@]);
            assert(src_takes_place_in@.map_values(|s: &str| s@) =~= seq!["quest"@]);
            assert(tgt_takes_place_in@.map_values(|s: &str| s@) =~= seq!["location"@]);
            assert(src_located_at@.map_values(|s: &str| s@) =~= seq!["artifact"@]);
            assert(tgt_located_at@.map_values(|s: &str| s@) =~= seq!["location"@]);
            assert(src_controlled_by@.map_values(|s: &str| s@) =~= seq!["location"@]);
            assert(tgt_controlled_by@.map_values(|s: &str| s@) =~= seq!["faction"@, "player_character"@, "npc"@]);
            assert(src_occurred_at@.map_values(|s: &str| s@) =~= seq!["temporal"@]);
            assert(tgt_occurred_at@.map_values(|s: &str| s@) =~= seq!["location"@]);
            assert(src_located_in@.map_values(|s: &str| s@) =~= seq!["npc"@, "player_character"@]);
            assert(tgt_located_in@.map_values(|s: &str| s@) =~= seq!["location"@]);
            assert(src_originates_from@.map_values(|s: &str| s@) =~= seq!["npc"@, "player_character"@]);
            assert(tgt_originates_from@.map_values(|s: &str| s@) =~= seq!["location"@]);
            assert(src_member_of@.map_values(|s: &str| s@) =~= seq!["player_character"@, "npc"@]);
            assert(tgt_member_of@.map_values(|s: &str| s@) =~= seq!["faction"@]);
            assert(src_player_can@.map_values(|s: &str| s@) =~= seq!["player_character"@]);
            assert(tgt_player_can@.map_values(|s: &str| s@) =~= seq!["skills"@]);
            assert(src_npc_can@.map_values(|s: &str| s@) =~= seq!["npc"@]);
            assert(tgt_npc_can@.map_values(|s: &str| s@) =~= seq!["skills"@]);
            assert(src_sourced_from@.map_values(|s: &str| s@) =~= seq!["skills"@]);
            assert(tgt_sourced_from@.map_values(|s: &str| s@) =~= seq!["system_reference"@]);
            assert(src_applies_to@.map_values(|s: &str| s@) =~= seq!["system_reference"@, "setting_reference"@]);
            assert(tgt_applies_to@.map_values(|s: &str| s@) =~= seq!["player_character"@, "npc"@, "location"@, "faction"@]);
            assert(src_modifies_source@.map_values(|s: &str| s@) =~= seq!["setting_reference"@]);
            assert(tgt_modifies_source@.map_values(|s: &str| s@) =~= seq!["system_reference"@]);
            assert(src_associated_with@.map_values(|s: &str| s@) =~= seq!["quest"@]);
            assert(tgt_associated_with@.map_values(|s: &str| s@) =~= seq!["artifact"@]);
            assert(src_found_at@.map_values(|s: &str| s@) =~= seq!["artifact"@]);
            assert(tgt_found_at@.map_values(|s: &str| s@) =~= seq!["location"@]);
            assert(src_subquest_of@.map_values(|s: &str| s@) =~= seq!["quest"@]);
            assert(tgt_subquest_of@.map_values(|s: &str| s@) =~= seq!["quest"@]);
            assert(src_affects_faction@.map_values(|s: &str| s@) =~= seq!["quest"@]);
            assert(tgt_affects_faction@.map_values(|s: &str| s@) =~= seq!["faction"@]);
            assert(spec_edge_kind_is(*schema_definition, "owned_by"@, seq!["artifact"@, "currency"@, "inventory"@, "transportation"@], seq!["player_character"@, "npc"@, "faction"@]));
            assert(spec_edge_kind_is(*schema_definition, "led_by"@, seq!["faction"@], seq!["player_character"@, "npc"@]));
            assert(spec_edge_kind_is(*schema_definition, "allied_with"@, seq!["faction"@], seq!["faction"@]));
            assert(spec_edge_kind_is(*schema_definition, "rival_of"@, seq!["faction"@], seq!["faction"@]));
            assert(spec_edge_kind_is(*schema_definition, "subfaction_of"@, seq!["faction"@], seq!["faction"@]));
            assert(spec_edge_kind_is(*schema_definition, "a_part_of"@, seq!["location"@], seq!["location"@]));
            assert(spec_edge_kind_is(*schema_definition, "contains"@, seq!["location"@], seq!["location"@, "artifact"@]));
            assert(spec_edge_kind_is(*schema_definition, "present_in"@, seq!["player_character"@, "npc"@], seq!["location"@]));
            assert(spec_edge_kind_is(*schema_definition, "takes_place_in"@, seq!["quest"@], seq!["location"@]));
            assert(spec_edge_kind_is(*schema_definition, "located_at"@, seq!["artifact"@], seq!["location"@]));
            assert(spec_edge_kind_is(*schema_definition, "controlled_by"@, seq!["location"@], seq!["faction"@, "player_character"@, "npc"@]));
            assert(spec_edge_kind_is(*schema_definition, "occurred_at"@, seq!["temporal"@], seq!["location"@]));
            assert(spec_edge_kind_is(*schema_definition, "located_in"@, seq!["npc"@, "player_character"@], seq!["location"@]));
            assert(spec_edge_kind_is(*schema_definition, "originates_from"@, seq!["npc"@, "player_character"@], seq!["location"@]));
            assert(spec_edge_kind_is(*schema_definition, "member_of"@, seq!["player_character"@, "npc"@], seq!["faction"@]));
            assert(spec_edge_kind_is(*schema_definition, "player_can"@, seq!["player_character"@], seq!["skills"@]));
            assert(spec_edge_kind_is(*schema_definition, "npc_can"@, seq!["npc"@], seq!["skills"@]));
            assert(spec_edge_kind_is(*schema_definition, "sourced_from"@, seq!["skills"@], seq!["system_reference"@]));
            assert(spec_edge_kind_is(*schema_definition, "applies_to"@, seq!["system_reference"@, "setting_reference"@], seq!["player_character"@, "npc"@, "location"@, "faction"@]));
            assert(spec_edge_kind_is(*schema_definition, "modifies_source"@, seq!["setting_reference"@], seq!["system_reference"@]));
            assert(spec_edge_kind_is(*schema_definition, "associated_with"@, seq!["quest"@], seq!["artifact"@]));
            assert(spec_edge_kind_is(*schema_definition, "found_at"@, seq!["artifact"@], seq!["location"@]));
            assert(spec_edge_kind_is(*schema_definition, "subquest_of"@, seq!["quest"@], seq!["quest"@]));
            assert(spec_edge_kind_is(*schema_definition, "affects_faction"@, seq!["quest"@], seq!["faction"@]));
        }
    }

    /// Builds a schema definition from parsed schema files: unusable files
    /// are passed over, usable ones contribute an object type, and the
    /// canonical edge kinds are attached at the end.
    pub fn build_schema_from_docs(
        schema_name: &str,
        schema_version: &str,
        docs: &Vec<JsonValue>,
    ) -> (r: SchemaDefinition)
        ensures
            r.wf(),
            r.name@ == schema_name@,
            r.version@ == schema_version@,
            forall|i: int|
                0 <= i < docs@.len() && SchemaIngestion::spec_convertible_schema_doc(
                    #[trigger] docs@[i],
                ) ==> (SchemaIngestion::spec_doc_type_name(docs@[i]) matches Some(tn) ==> {
                    &&& r.object_types@.contains_key(tn)
                    &&& ((forall|l: int|
                        i < l < docs@.len() && SchemaIngestion::spec_convertible_schema_doc(
                            #[trigger] docs@[l],
                        ) ==> SchemaIngestion::spec_doc_type_name(docs@[l]) != Some(tn)) ==> (
                    docs@[i] matches JsonValue::Object(fields)
                        && SchemaIngestion::spec_converted_doc(fields@, r.object_types@[tn])))
                }),
    {
        let mut schema_definition = SchemaDefinition::new(
            schema_name.to_owned(),
            schema_version.to_owned(),
            "Schema loaded from a directory of schema files".to_owned(),
        );
        let mut i: usize = 0;
        while i < docs.len()
            invariant
                i <= docs@.len(),
                schema_definition.wf(),
                schema_definition.name@ == schema_name@,
                schema_definition.version@ == schema_version@,
                forall|j: int|
                    0 <= j < i && SchemaIngestion::spec_convertible_schema_doc(
                        #[trigger] docs@[j],
                    ) ==> (SchemaIngestion::spec_doc_type_name(docs@[j]) matches Some(tn) ==> {
                        &&& schema_definition.object_types@.contains_key(tn)
                        &&& ((forall|l: int|
                            j < l < i && SchemaIngestion::spec_convertible_schema_doc(
                                #[trigger] docs@[l],
                            ) ==> SchemaIngestion::spec_doc_type_name(docs@[l]) != Some(tn)) ==> (
                        docs@[j] matches JsonValue::Object(fields)
                            && SchemaIngestion::spec_converted_doc(
                            fields@,
                            schema_definition.object_types@[tn],
                        )))
                    }),
            decreases docs@.len() - i,
        {
            match SchemaIngestion::convert_json_to_object_schema(&docs[i]) {
                Ok(object_type_schema) => {
                    proof {
                        assert(SchemaIngestion::spec_doc_type_name(docs@[i as int]) matches Some(
                            tn,
                        ) && tn == object_type_schema.name@);
                    }
                    let key = object_type_schema.name.clone();
                    schema_definition.add_object_type(key, object_type_schema);
                },
                Err(_) => {},
            }
            i = i + 1;
        }
        SchemaIngestion::add_common_edge_types(&mut schema_definition);
        schema_definition
    }

    /// Reports the files of a parsed schema directory that cannot be read
    /// as schema files: exactly those whose document is missing or not a
    /// usable schema file, by name, in order.
    pub fn validate_schema_directory(files: &Vec<(String, Option<JsonValue>)>) -> (r: Vec<String>)
        ensures
            r@.map_values(|s: String| s@) == files@.filter(
                |f: (String, Option<JsonValue>)| !(f.1 matches Some(d)
                    && SchemaIngestion::spec_schema_file_ok(d)),
            ).map_values(|f: (String, Option<JsonValue>)| f.0@),
    {
        let mut out: Vec<String> = Vec::new();
        let mut i: usize = 0;
        proof {
            assert(files@.take(0).filter(
                |f: (String, Option<JsonValue>)| !(f.1 matches Some(d)
                    && SchemaIngestion::spec_schema_file_ok(d)),
            ) =~= Seq::<(String, Option<JsonValue>)>::empty());
            assert(out@.map_values(|s: String| s@) =~= Seq::<Seq<char>>::empty());
        }
        while i < files.len()
            invariant
                i <= files@.len(),
                out@.map_values(|s: String| s@) == files@.take(i as int).filter(
                    |f: (String, Option<JsonValue>)| !(f.1 matches Some(d)
                        && SchemaIngestion::spec_schema_file_ok(d)),
                ).map_values(|f: (String, Option<JsonValue>)| f.0@),
            decreases files@.len() - i,
        {
            let ghost pred = |f: (String, Option<JsonValue>)| !(f.1 matches Some(d)
                && SchemaIngestion::spec_schema_file_ok(d));
            let usable: bool = match &files[i].1 {
                Some(doc) => match doc {
                    JsonValue::Object(fields) => {
                        let has_name = match json_get(fields, "name") {
                            Some(JsonValue::Str(_)) => true,
                            _ => false,
                        };
                        let has_props = match json_get(fields, "properties") {
                            Some(JsonValue::Object(_)) => true,
                            _ => false,
                        };
                        has_name && has_props
                    },
                    _ => false,
                },
                None => false,
            };
            let ghost prev_out = out@;
            if !usable {
                out.push(files[i].0.clone());
            }
            proof {
                let g = |f: (String, Option<JsonValue>)| f.0@;
                let prefix = files@.take(i as int);
                let next = files@.take(i + 1);
                assert(next.drop_last() =~= prefix);
                assert(next.last() == files@[i as int]);
                reveal_with_fuel(Seq::filter, 2);
                assert(pred(files@[i as int]) == !usable);
                if !usable {
                    assert(next.filter(pred) == prefix.filter(pred).push(files@[i as int]));
                    assert(next.filter(pred).map_values(g) =~= prefix.filter(pred).map_values(
                        g,
                    ).push(files@[i as int].0@));
                    assert(out@.map_values(|s: String| s@) =~= prev_out.map_values(
                        |s: String| s@,
                    ).push(files@[i as int].0@));
                } else {
                    assert(next.filter(pred) == prefix.filter(pred));
                }
            }
            i = i + 1;
        }
        proof {
            assert(files@.take(files@.len() as int) =~= files@);
        }
        out
    }
}

/// Whether a schema maps an edge kind to given endpoint constraint
/// lists, directed.
pub open spec fn spec_edge_kind_is(
    sd: SchemaDefinition,
    kind: Seq<char>,
    sources: Seq<Seq<char>>,
    targets: Seq<Seq<char>>,
) -> bool {
    &&& sd.edge_types@.contains_key(kind)
    &&& sd.edge_types@[kind].name@ == kind
    &&& sd.edge_types@[kind].allowed_source_types@.map_values(|s: String| s@) == sources
    &&& sd.edge_types@[kind].allowed_target_types@.map_values(|s: String| s@) == targets
    &&& !sd.edge_types@[kind].bidirectional
}

/// Inserts one canonical edge kind with its endpoint constraints.
fn add_edge_kind(
    schema_definition: &mut SchemaDefinition,
    name: &str,
    description: &str,
    sources: &[&str],
    targets: &[&str],
)
    requires
        old(schema_definition).wf(),
    ensures
        final(schema_definition).wf(),
        final(schema_definition).edge_types@ == old(schema_definition).edge_types@.insert(
            name@,
            final(schema_definition).edge_types@[name@],
        ),
        final(schema_definition).edge_types@.contains_key(name@),
        ({
            let es = final(schema_definition).edge_types@[name@];
            &&& es.name@ == name@
            &&& es.allowed_source_types@.map_values(|s: String| s@) == sources@.map_values(
                |s: &str| s@,
            )
            &&& es.allowed_target_types@.map_values(|s: String| s@) == targets@.map_values(
                |s: &str| s@,
            )
            &&& !es.bidirectional
        }),
        forall|k: Seq<char>|
            old(schema_definition).edge_types@.contains_key(k) ==> final(schema_definition).edge_types@.contains_key(k),
        final(schema_definition).object_types == old(schema_definition).object_types,
        final(schema_definition).name == old(schema_definition).name,
        final(schema_definition).version == old(schema_definition).version,
{
    let mut source_types: Vec<String> = Vec::new();
    let mut i: usize = 0;
    while i < sources.len()
        invariant
            i <= sources@.len(),
            source_types@.len() == i as int,
            forall|k: int| 0 <= k < i ==> (#[trigger] source_types@[k])@ == sources@[k]@,
        decreases sources@.len() - i,
    {
        let elem = sources[i];
        let owned = elem.to_owned();
        source_types.push(owned);
        i = i + 1;
    }
    let mut target_types: Vec<String> = Vec::new();
    let mut j: usize = 0;
    while j < targets.len()
        invariant
            j <= targets@.len(),
            target_types@.len() == j as int,
            forall|k: int| 0 <= k < j ==> (#[trigger] target_types@[k])@ == targets@[k]@,
        decreases targets@.len() - j,
    {
        let elem = targets[j];
        let owned = elem.to_owned();
        target_types.push(owned);
        j = j + 1;
    }
    proof {
        assert(source_types@.map_values(|s: String| s@) =~= sources@.map_values(|s: &str| s@));
        assert(target_types@.map_values(|s: String| s@) =~= targets@.map_values(|s: &str| s@));
    }
    let edge_schema = EdgeTypeSchema::new(name.to_owned(), description.to_owned()).with_source_types(
        source_types,
    ).with_target_types(target_types);
    schema_definition.add_edge_type(name.to_owned(), edge_schema);
    proof {
        assert(schema_definition.edge_types@ =~= old(schema_definition).edge_types@.insert(
            name@,
            schema_definition.edge_types@[name@],
        ));
    }
}

/// How many node entries a parsed dump holds.
pub open spec fn spec_count_nodes(entries: Seq<Option<JsonEntry>>) -> nat
    decreases entries.len(),
{
    if entries.len() == 0 {
        0
    } else {
        spec_count_nodes(entries.drop_last()) + (if entries.last() matches Some(
            JsonEntry::Node { .. },
        ) {
            1nat
        } else {
            0nat
        })
    }
}

/// How many lines of a parsed dump failed to parse.
pub open spec fn spec_count_parse_errors(entries: Seq<Option<JsonEntry>>) -> nat
    decreases entries.len(),
{
    if entries.len() == 0 {
        0
    } else {
        spec_count_parse_errors(entries.drop_last()) + (if entries.last() is None {
            1nat
        } else {
            0nat
        })
    }
}

/// Whether a node type is declared by the imported or the default schema.
pub open spec fn spec_type_known(
    schemas: Map<Seq<char>, SchemaDefinition>,
    node_type: Seq<char>,
) -> bool {
    (schemas.contains_key("imported_schemas"@)
        && schemas["imported_schemas"@].object_types@.contains_key(node_type)) || (
    schemas.contains_key("default"@) && schemas["default"@].object_types@.contains_key(node_type))
}

/// Imports parsed graph-dump entries into a store.
#[derive(Debug)]
pub struct DataIngestion {
    pub stats: IngestionStats,
}

impl DataIngestion {
    pub fn new() -> (r: Self)
        ensures
            r.stats.objects_created == 0,
            r.stats.relationships_created == 0,
            r.stats.parse_errors == 0,
    {
        DataIngestion {
            stats: IngestionStats { objects_created: 0, relationships_created: 0, parse_errors: 0 },
        }
    }

    pub fn get_stats(&self) -> (r: &IngestionStats)
        ensures
            *r == self.stats,
    {
        &self.stats
    }

    /// The trimmed key of a dump metadata item, when the item splits at a
    /// colon.
    pub open spec fn spec_meta_key_of(item: Seq<char>) -> Option<Seq<char>> {
        match spec_first_colon(item) {
            Some(c) => Some(spec_trim(item.take(c))),
            _ => None,
        }
    }

    /// What applying dump metadata leaves on an object: every item with a
    /// colon contributes its trimmed key, bound (at the item's last
    /// occurrence of that key) to the string of the trimmed text after the
    /// first colon; every other item is a tag.
    pub open spec fn spec_metadata_applied(r: ObjectMetadata, metadata: Seq<String>) -> bool {
        &&& (forall|i: int|
            0 <= i < metadata.len() ==> (spec_first_colon((#[trigger] metadata[i])@) matches Some(
                c,
            ) ==> r.properties@.contains_key(spec_trim(metadata[i]@.take(c)))))
        &&& (forall|i: int|
            0 <= i < metadata.len() ==> (spec_first_colon((#[trigger] metadata[i])@) is None
                ==> crate::types::spec_has_tag(r.tags@, metadata[i]@)))
        &&& (forall|i: int|
            0 <= i < metadata.len() ==> (spec_first_colon((#[trigger] metadata[i])@) matches Some(
                c,
            ) ==> ((forall|l: int|
                i < l < metadata.len() ==> DataIngestion::spec_meta_key_of(
                    (#[trigger] metadata[l])@,
                ) != Some(spec_trim(metadata[i]@.take(c)))) ==> (r.properties@[spec_trim(
                metadata[i]@.take(c),
            )] matches JsonValue::Str(v) && v@ == spec_trim(metadata[i]@.skip(c + 1))))))
    }

    /// Applies dump metadata to an object: an item with a colon becomes a
    /// string property split at its first colon (later items win a shared
    /// key), any other item a tag.
    pub fn apply_metadata(object: ObjectMetadata, metadata: &Vec<String>) -> (r: ObjectMetadata)
        requires
            object.wf(),
        ensures
            r.wf(),
            r.id == object.id,
            r.object_type == object.object_type,
            r.name == object.name,
            r.description == object.description,
            r.schema_name == object.schema_name,
            r.created_at == object.created_at,
            r.updated_at == object.updated_at,
            DataIngestion::spec_metadata_applied(r, metadata@),
    {
        let mut o = object;
        let mut i: usize = 0;
        while i < metadata.len()
            invariant
                i <= metadata@.len(),
                o.wf(),
                o.id == object.id,
                o.object_type == object.object_type,
                o.name == object.name,
                o.description == object.description,
                o.schema_name == object.schema_name,
                o.created_at == object.created_at,
                o.updated_at == object.updated_at,
                forall|j: int|
                    0 <= j < i ==> (spec_first_colon((#[trigger] metadata@[j])@) matches Some(c)
                        ==> o.properties@.contains_key(spec_trim(metadata@[j]@.take(c)))),
                forall|j: int|
                    0 <= j < i ==> (spec_first_colon((#[trigger] metadata@[j])@) is None
                        ==> crate::types::spec_has_tag(o.tags@, metadata@[j]@)),
                forall|j: int|
                    0 <= j < i ==> (spec_first_colon((#[trigger] metadata@[j])@) matches Some(c)
                        ==> ((forall|l: int|
                        j < l < i ==> DataIngestion::spec_meta_key_of((#[trigger] metadata@[l])@)
                            != Some(spec_trim(metadata@[j]@.take(c)))) ==> (o.properties@[spec_trim(
                        metadata@[j]@.take(c),
                    )] matches JsonValue::Str(v) && v@ == spec_trim(metadata@[j]@.skip(c + 1))))),
            decreases metadata@.len() - i,
        {
            let ghost pre_tags = o.tags@;
            match split_property(metadata[i].as_str()) {
                Some((key, value)) => {
                    proof {
                        assert(DataIngestion::spec_meta_key_of(metadata@[i as int]@) == Some(
                            key@,
                        ));
                    }
                    o = o.with_property(key, value);
                },
                None => {
                    o.add_tag(metadata[i].clone());
                    proof {
                        assert forall|t: Seq<char>|
                            crate::types::spec_has_tag(pre_tags, t) implies crate::types::spec_has_tag(
                            o.tags@,
                            t,
                        ) by {
                            let w = choose|w: int|
                                0 <= w < pre_tags.len() && #[trigger] pre_tags[w]@ == t;
                            assert(o.tags@[w]@ == t);
                        }
                    }
                },
            }
            i = i + 1;
        }
        o
    }

    /// Builds an object for a dump node: under the node's own type when a
    /// loaded schema declares it, else under the mapped built-in kind, with
    /// the metadata applied.
    pub fn create_object_by_type(
        store: &KnowledgeGraphStorage,
        name: &str,
        node_type: &str,
        metadata: &Vec<String>,
    ) -> (r: ObjectMetadata)
        requires
            store.wf(),
        ensures
            r.wf(),
            r.name@ == name@,
            spec_type_known(store.schemas@, node_type@) ==> r.object_type@ == node_type@,
            !spec_type_known(store.schemas@, node_type@) ==> r.object_type@ == spec_mapped_type(
                node_type@,
            ),
            DataIngestion::spec_metadata_applied(r, metadata@),
    {
        let mut known = false;
        match store.get_schema("imported_schemas") {
            Some(schema) => {
                if schema.object_types.contains_key(node_type) {
                    known = true;
                }
            },
            None => {},
        }
        if !known {
            match store.get_schema("default") {
                Some(schema) => {
                    if schema.object_types.contains_key(node_type) {
                        known = true;
                    }
                },
                None => {},
            }
        }
        let object_type: String = if known {
            node_type.to_owned()
        } else {
            map_node_type(node_type)
        };
        let object = ObjectMetadata::new(object_type, name.to_owned());
        DataIngestion::apply_metadata(object, metadata)
    }

    /// Imports the parsed lines of a graph dump: a first pass creates an
    /// object per node entry and remembers its id under the node's name; a
    /// second pass connects every edge entry whose two endpoint names were
    /// seen. Unparsable lines are counted, and abort nothing.
    pub fn import_entries(
        &mut self,
        store: &mut KnowledgeGraphStorage,
        entries: &Vec<Option<JsonEntry>>,
    ) -> (r: Result<(), GraphError>)
        requires
            old(store).wf(),
        ensures
            r is Ok,
            final(store).wf(),
            final(self).stats.parse_errors == crate::types::spec_sat_add(
                old(self).stats.parse_errors,
                spec_count_parse_errors(entries@) as usize,
            ),
            final(self).stats.objects_created == crate::types::spec_sat_add(
                old(self).stats.objects_created,
                spec_count_nodes(entries@) as usize,
            ),
            final(self).stats.relationships_created == crate::types::spec_sat_add(
                old(self).stats.relationships_created,
                spec_count_connectable(entries@, entries@) as usize,
            ),
            final(store).schemas == old(store).schemas,
            forall|w: int|
                0 <= w < entries@.len() ==> ((#[trigger] entries@[w]) matches Some(
                    JsonEntry::Node { name, node_type, .. },
                ) ==> final(store).names@.contains_key(
                    crate::store::spec_name_key(
                        spec_import_type(old(store).schemas@, node_type@),
                        name@,
                    ),
                )),
            exists|ids: Seq<u128>|
                (#[trigger] ids.len()) == entries@.len() && (forall|w: int|
                    0 <= w < entries@.len() ==> ((#[trigger] entries@[w]) matches Some(
                        JsonEntry::Node { name, node_type, metadata },
                    ) ==> ((forall|l: int|
                        (w < l < entries@.len() && ((#[trigger] entries@[l]) matches Some(
                            JsonEntry::Node { .. },
                        ))) ==> ids[l] != ids[w]) ==> (final(store).nodes@.contains_key(ids[w])
                        && final(store).nodes@[ids[w]].name@ == name@
                        && final(store).nodes@[ids[w]].object_type@ == spec_import_type(
                        old(store).schemas@,
                        node_type@,
                    ) && DataIngestion::spec_metadata_applied(
                        final(store).nodes@[ids[w]],
                        metadata@,
                    ))))),
            forall|w: int|
                0 <= w < entries@.len() ==> ((#[trigger] entries@[w]) matches Some(
                    JsonEntry::Edge { from, to, edge_type },
                ) ==> ((spec_has_node_entry(entries@, from@) && spec_has_node_entry(
                    entries@,
                    to@,
                )) ==> (exists|f: u128, t: u128|
                    #[trigger] crate::store::spec_adj_connected(
                        final(store).adjacency@,
                        f,
                        t,
                        edge_type@,
                    )))),
    {
        let ghost entries0 = entries@;
        proof {
            assert(entries@.take(0) =~= Seq::<Option<JsonEntry>>::empty());
        }
        let mut name_to_id: StrMap<u128> = StrMap::new();
        let ghost mut ids: Seq<u128> = Seq::empty();
        let mut i: usize = 0;
        while i < entries.len()
            invariant
                i <= entries@.len(),
                store.wf(),
                name_to_id.wf(),
                ids.len() == i as int,
                forall|w: int|
                    0 <= w < i ==> ((#[trigger] entries@[w]) matches Some(
                        JsonEntry::Node { name, node_type, metadata },
                    ) ==> ((forall|l: int|
                        (w < l < i && ((#[trigger] entries@[l]) matches Some(
                            JsonEntry::Node { .. },
                        ))) ==> ids[l] != ids[w]) ==> (store.nodes@.contains_key(ids[w])
                        && store.nodes@[ids[w]].name@ == name@ && store.nodes@[ids[w]].object_type@
                        == spec_import_type(old(store).schemas@, node_type@)
                        && DataIngestion::spec_metadata_applied(
                        store.nodes@[ids[w]],
                        metadata@,
                    )))),
                store.schemas == old(store).schemas,
                self.stats.relationships_created == old(self).stats.relationships_created,
                self.stats.parse_errors == crate::types::spec_sat_add(
                    old(self).stats.parse_errors,
                    spec_count_parse_errors(entries@.take(i as int)) as usize,
                ),
                self.stats.objects_created == crate::types::spec_sat_add(
                    old(self).stats.objects_created,
                    spec_count_nodes(entries@.take(i as int)) as usize,
                ),
                forall|w: int|
                    0 <= w < i ==> ((#[trigger] entries@[w]) matches Some(
                        JsonEntry::Node { name, node_type, .. },
                    ) ==> store.names@.contains_key(
                        crate::store::spec_name_key(
                            spec_import_type(old(store).schemas@, node_type@),
                            name@,
                        ),
                    )),
                forall|n: Seq<char>|
                    name_to_id@.contains_key(n) <==> spec_has_node_entry(
                        entries@.take(i as int),
                        n,
                    ),
            decreases entries@.len() - i,
        {
            proof {
                let next = entries@.take(i + 1);
                assert(next.drop_last() =~= entries@.take(i as int));
                assert(next.last() == entries@[i as int]);
                lemma_counts_bounded(entries@.take(i + 1));
            }
            let ghost pre_map = name_to_id@;
            match &entries[i] {
                Some(JsonEntry::Node { name, node_type, metadata }) => {
                    let object = DataIngestion::create_object_by_type(
                        store,
                        name.as_str(),
                        node_type.as_str(),
                        metadata,
                    );
                    let id = object.id;
                    let _ = store.upsert_node(object);
                    proof {
                        ids = ids.push(id);
                    }
                    name_to_id.insert(name.clone(), id);
                    if self.stats.objects_created < usize::MAX {
                        self.stats.objects_created = self.stats.objects_created + 1;
                    }
                    proof {
                        assert forall|n: Seq<char>| name_to_id@.contains_key(n) implies
                            spec_has_node_entry(entries@.take(i + 1), n) by {
                            if n == name@ {
                                assert(entries@.take(i + 1)[i as int] == entries@[i as int]);
                            } else {
                                assert(pre_map.contains_key(n));
                                let w = choose|w: int|
                                    0 <= w < entries@.take(i as int).len() && ((
                                    #[trigger] entries@.take(i as int)[w]) matches Some(
                                        JsonEntry::Node { name, .. },
                                    ) && name@ == n);
                                assert(entries@.take(i + 1)[w] == entries@.take(i as int)[w]);
                            }
                        }
                        assert forall|n: Seq<char>|
                            spec_has_node_entry(entries@.take(i + 1), n) implies
                            name_to_id@.contains_key(n) by {
                            let w = choose|w: int|
                                0 <= w < entries@.take(i + 1).len() && ((
                                #[trigger] entries@.take(i + 1)[w]) matches Some(
                                    JsonEntry::Node { name, .. },
                                ) && name@ == n);
                            if w < i {
                                assert(entries@.take(i as int)[w] == entries@.take(i + 1)[w]);
                                assert(spec_has_node_entry(entries@.take(i as int), n));
                            }
                        }
                    }
                },
                Some(JsonEntry::Edge { .. }) => {
                    proof {
                        ids = ids.push(0u128);
                        assert forall|n: Seq<char>|
                            spec_has_node_entry(entries@.take(i + 1), n) implies
                            spec_has_node_entry(entries@.take(i as int), n) by {
                            let w = choose|w: int|
                                0 <= w < entries@.take(i + 1).len() && ((
                                #[trigger] entries@.take(i + 1)[w]) matches Some(
                                    JsonEntry::Node { name, .. },
                                ) && name@ == n);
                            assert(entries@.take(i + 1)[i as int] == entries@[i as int]);
                            assert(w < i);
                            assert(entries@.take(i as int)[w] == entries@.take(i + 1)[w]);
                        }
                        assert forall|n: Seq<char>|
                            spec_has_node_entry(entries@.take(i as int), n) implies
                            spec_has_node_entry(entries@.take(i + 1), n) by {
                            let w = choose|w: int|
                                0 <= w < entries@.take(i as int).len() && ((
                                #[trigger] entries@.take(i as int)[w]) matches Some(
                                    JsonEntry::Node { name, .. },
                                ) && name@ == n);
                            assert(entries@.take(i + 1)[w] == entries@.take(i as int)[w]);
                        }
                    }
                },
                None => {
                    if self.stats.parse_errors < usize::MAX {
                        self.stats.parse_errors = self.stats.parse_errors + 1;
                    }
                    proof {
                        ids = ids.push(0u128);
                        assert forall|n: Seq<char>|
                            spec_has_node_entry(entries@.take(i + 1), n) implies
                            spec_has_node_entry(entries@.take(i as int), n) by {
                            let w = choose|w: int|
                                0 <= w < entries@.take(i + 1).len() && ((
                                #[trigger] entries@.take(i + 1)[w]) matches Some(
                                    JsonEntry::Node { name, .. },
                                ) && name@ == n);
                            assert(entries@.take(i + 1)[i as int] == entries@[i as int]);
                            assert(w < i);
                            assert(entries@.take(i as int)[w] == entries@.take(i + 1)[w]);
                        }
                        assert forall|n: Seq<char>|
                            spec_has_node_entry(entries@.take(i as int), n) implies
                            spec_has_node_entry(entries@.take(i + 1), n) by {
                            let w = choose|w: int|
                                0 <= w < entries@.take(i as int).len() && ((
                                #[trigger] entries@.take(i as int)[w]) matches Some(
                                    JsonEntry::Node { name, .. },
                                ) && name@ == n);
                            assert(entries@.take(i + 1)[w] == entries@.take(i as int)[w]);
                        }
                    }
                },
            }
            i = i + 1;
        }
        proof {
            assert(entries@.take(entries@.len() as int) =~= entries@);
        }
        let ghost old_names_done = store.names;
        let ghost nodes_done = store.nodes;
        let ghost mid_stats = self.stats;
        proof {
            assert(spec_count_connectable(entries@.take(0), entries@) == 0) by {
                assert(entries@.take(0).len() == 0);
            }
        }
        let mut j: usize = 0;
        while j < entries.len()
            invariant
                j <= entries@.len(),
                store.wf(),
                name_to_id.wf(),
                store.schemas == old(store).schemas,
                store.names == old_names_done,
                store.nodes == nodes_done,
                forall|w: int|
                    0 <= w < j ==> ((#[trigger] entries@[w]) matches Some(
                        JsonEntry::Edge { from, to, edge_type },
                    ) ==> ((spec_has_node_entry(entries@, from@) && spec_has_node_entry(
                        entries@,
                        to@,
                    )) ==> (exists|f: u128, t: u128|
                        #[trigger] crate::store::spec_adj_connected(
                            store.adjacency@,
                            f,
                            t,
                            edge_type@,
                        )))),
                self.stats.parse_errors == mid_stats.parse_errors,
                self.stats.objects_created == mid_stats.objects_created,
                self.stats.relationships_created == crate::types::spec_sat_add(
                    old(self).stats.relationships_created,
                    spec_count_connectable(entries@.take(j as int), entries@) as usize,
                ),
                forall|n: Seq<char>|
                    name_to_id@.contains_key(n) <==> spec_has_node_entry(entries@, n),
            decreases entries@.len() - j,
        {
            proof {
                let next = entries@.take(j + 1);
                assert(next.drop_last() =~= entries@.take(j as int));
                assert(next.last() == entries@[j as int]);
                lemma_connectable_bounded(entries@.take(j + 1), entries@);
            }
            match &entries[j] {
                Some(JsonEntry::Edge { from, to, edge_type }) => {
                    let from_id = match name_to_id.get(from.as_str()) {
                        Some(id) => Some(*id),
                        None => None,
                    };
                    let to_id = match name_to_id.get(to.as_str()) {
                        Some(id) => Some(*id),
                        None => None,
                    };
                    match (from_id, to_id) {
                        (Some(f), Some(t)) => {
                            let edge = crate::types::Edge::new(
                                f,
                                t,
                                crate::types::EdgeType::from_str(edge_type.as_str()),
                            );
                            let ghost e = edge;
                            let ghost pre_adj = store.adjacency@;
                            let _ = store.upsert_edge(edge);
                            proof {
                                assert forall|ff: u128, tt: u128, kn: Seq<char>|
                                    #[trigger] crate::store::spec_adj_connected(
                                        pre_adj,
                                        ff,
                                        tt,
                                        kn,
                                    ) implies crate::store::spec_adj_connected(
                                    store.adjacency@,
                                    ff,
                                    tt,
                                    kn,
                                ) by {
                                    crate::store::lemma_adj_connected_preserved(
                                        pre_adj,
                                        store.adjacency@,
                                        e,
                                        ff,
                                        tt,
                                        kn,
                                    );
                                }
                                let outs = crate::store::out_edges(store.adjacency@, f);
                                assert(outs[outs.len() - 1] == e);
                                let invs = crate::store::edge_views(
                                    crate::store::in_edges(store.adjacency@, t),
                                );
                                assert(invs[invs.len() - 1] == e@);
                                assert(crate::store::spec_adj_connected(
                                    store.adjacency@,
                                    f,
                                    t,
                                    edge_type@,
                                ));
                            }
                            if self.stats.relationships_created < usize::MAX {
                                self.stats.relationships_created = self.stats.relationships_created
                                    + 1;
                            }
                        },
                        _ => {},
                    }
                },
                _ => {},
            }
            j = j + 1;
        }
        proof {
            assert(entries@.take(entries@.len() as int) =~= entries@);
        }
        Ok(())
    }
}

/// Whether a parsed dump holds a node entry under a given name.
pub open spec fn spec_has_node_entry(entries: Seq<Option<JsonEntry>>, n: Seq<char>) -> bool {
    exists|w: int|
        0 <= w < entries.len() && ((#[trigger] entries[w]) matches Some(JsonEntry::Node {
            name,
            ..
        }) && name@ == n)
}

/// How many edge entries of a prefix of a parsed dump have both endpoint
/// names among the dump's node entries.
pub open spec fn spec_count_connectable(
    prefix: Seq<Option<JsonEntry>>,
    all: Seq<Option<JsonEntry>>,
) -> nat
    decreases prefix.len(),
{
    if prefix.len() == 0 {
        0
    } else {
        spec_count_connectable(prefix.drop_last(), all) + (if (prefix.last() matches Some(
            JsonEntry::Edge { from, to, .. },
        ) && spec_has_node_entry(all, from@) && spec_has_node_entry(all, to@)) {
            1nat
        } else {
            0nat
        })
    }
}

/// The connectable count never exceeds the prefix length.
proof fn lemma_connectable_bounded(prefix: Seq<Option<JsonEntry>>, all: Seq<Option<JsonEntry>>)
    ensures
        spec_count_connectable(prefix, all) <= prefix.len(),
    decreases prefix.len(),
{
    if prefix.len() > 0 {
        lemma_connectable_bounded(prefix.drop_last(), all);
    }
}

/// The object type an imported node entry is filed under: the node's own
/// type when a loaded schema declares it, else the mapped built-in kind.
pub open spec fn spec_import_type(
    schemas: Map<Seq<char>, crate::schema::SchemaDefinition>,
    node_type: Seq<char>,
) -> Seq<char> {
    if spec_type_known(schemas, node_type) {
        node_type
    } else {
        spec_mapped_type(node_type)
    }
}

/// Entry counts never exceed the number of entries.
proof fn lemma_counts_bounded(entries: Seq<Option<JsonEntry>>)
    ensures
        spec_count_nodes(entries) <= entries.len(),
        spec_count_parse_errors(entries) <= entries.len(),
    decreases entries.len(),
{
    if entries.len() > 0 {
        lemma_counts_bounded(entries.drop_last());
    }
}

} // verus!
