//! Core data model of the knowledge graph: object and edge kinds, graph
//! objects with their property trees, typed edges, text chunks and query
//! results.

use crate::json::JsonValue;
use crate::kvmap::{str_eq, StrMap};
use crate::trusted::{fresh_id, now_micros};
use vstd::prelude::*;
use vstd::string::StringSliceAdditionalSpecFns;

verus! {

/// Bit pattern of the default edge weight (the 32-bit float `1.0`).
pub const DEFAULT_WEIGHT_BITS: u32 = 0x3F80_0000;

/// Core object kinds of the worldbuilding graph.
#[derive(Debug, PartialEq)]
pub enum ObjectType {
    Character,
    Location,
    Faction,
    Item,
    Event,
    Session,
    CustomType(String),
}

impl ObjectType {
    /// The name of the kind, as stored in object records.
    pub open spec fn spec_name(&self) -> Seq<char> {
        match self {
            ObjectType::Character => "character"@,
            ObjectType::Location => "location"@,
            ObjectType::Faction => "faction"@,
            ObjectType::Item => "item"@,
            ObjectType::Event => "event"@,
            ObjectType::Session => "session"@,
            ObjectType::CustomType(name) => name@,
        }
    }

    pub fn as_str(&self) -> (r: &str)
        ensures
            r@ == self.spec_name(),
    {
        match self {
            ObjectType::Character => "character",
            ObjectType::Location => "location",
            ObjectType::Faction => "faction",
            ObjectType::Item => "item",
            ObjectType::Event => "event",
            ObjectType::Session => "session",
            ObjectType::CustomType(name) => name.as_str(),
        }
    }
}

impl Clone for ObjectType {
    fn clone(&self) -> (r: Self)
        ensures
            r == *self,
    {
        match self {
            ObjectType::Character => ObjectType::Character,
            ObjectType::Location => ObjectType::Location,
            ObjectType::Faction => ObjectType::Faction,
            ObjectType::Item => ObjectType::Item,
            ObjectType::Event => ObjectType::Event,
            ObjectType::Session => ObjectType::Session,
            ObjectType::CustomType(name) => ObjectType::CustomType(name.clone()),
        }
    }
}

/// Edge relationship kinds.
#[derive(Debug, PartialEq)]
pub enum EdgeType {
    RelatedTo,
    Contains,
    OwnedBy,
    LocatedIn,
    MemberOf,
    Knows,
    EnemyOf,
    AllyOf,
    FamilyOf,
    CausedBy,
    LeadsTo,
    HappenedAt,
    ParticipatedIn,
    Custom(String),
}

impl EdgeType {
    /// The name of the kind, as used in schemas and adjacency records.
    pub open spec fn spec_name(&self) -> Seq<char> {
        match self {
            EdgeType::RelatedTo => "related_to"@,
            EdgeType::Contains => "contains"@,
            EdgeType::OwnedBy => "owned_by"@,
            EdgeType::LocatedIn => "located_in"@,
            EdgeType::MemberOf => "member_of"@,
            EdgeType::Knows => "knows"@,
            EdgeType::EnemyOf => "enemy_of"@,
            EdgeType::AllyOf => "ally_of"@,
            EdgeType::FamilyOf => "family_of"@,
            EdgeType::CausedBy => "caused_by"@,
            EdgeType::LeadsTo => "leads_to"@,
            EdgeType::HappenedAt => "happened_at"@,
            EdgeType::ParticipatedIn => "participated_in"@,
            EdgeType::Custom(name) => name@,
        }
    }

    pub fn as_str(&self) -> (r: &str)
        ensures
            r@ == self.spec_name(),
    {
        match self {
            EdgeType::RelatedTo => "related_to",
            EdgeType::Contains => "contains",
            EdgeType::OwnedBy => "owned_by",
            EdgeType::LocatedIn => "located_in",
            EdgeType::MemberOf => "member_of",
            EdgeType::Knows => "knows",
            EdgeType::EnemyOf => "enemy_of",
            EdgeType::AllyOf => "ally_of",
            EdgeType::FamilyOf => "family_of",
            EdgeType::CausedBy => "caused_by",
            EdgeType::LeadsTo => "leads_to",
            EdgeType::HappenedAt => "happened_at",
            EdgeType::ParticipatedIn => "participated_in",
            EdgeType::Custom(name) => name.as_str(),
        }
    }

    /// The built-in kind a name denotes, if any.
    pub open spec fn spec_builtin_of_name(name: Seq<char>) -> Option<EdgeType> {
        if name == "related_to"@ {
            Some(EdgeType::RelatedTo)
        } else if name == "contains"@ {
            Some(EdgeType::Contains)
        } else if name == "owned_by"@ {
            Some(EdgeType::OwnedBy)
        } else if name == "located_in"@ {
            Some(EdgeType::LocatedIn)
        } else if name == "member_of"@ {
            Some(EdgeType::MemberOf)
        } else if name == "knows"@ {
            Some(EdgeType::Knows)
        } else if name == "enemy_of"@ {
            Some(EdgeType::EnemyOf)
        } else if name == "ally_of"@ {
            Some(EdgeType::AllyOf)
        } else if name == "family_of"@ {
            Some(EdgeType::FamilyOf)
        } else if name == "caused_by"@ {
            Some(EdgeType::CausedBy)
        } else if name == "leads_to"@ {
            Some(EdgeType::LeadsTo)
        } else if name == "happened_at"@ {
            Some(EdgeType::HappenedAt)
        } else if name == "participated_in"@ {
            Some(EdgeType::ParticipatedIn)
        } else {
            None
        }
    }

    /// Parses an edge-kind name; unknown names become the custom kind.
    pub fn from_str(name: &str) -> (r: EdgeType)
        ensures
            EdgeType::spec_builtin_of_name(name@) matches Some(t) ==> r == t,
            EdgeType::spec_builtin_of_name(name@) is None ==> (r matches EdgeType::Custom(s) && s@
                == name@),
            r.spec_name() == name@,
    {
        if str_eq(name, "related_to") {
            EdgeType::RelatedTo
        } else if str_eq(name, "contains") {
            EdgeType::Contains
        } else if str_eq(name, "owned_by") {
            EdgeType::OwnedBy
        } else if str_eq(name, "located_in") {
            EdgeType::LocatedIn
        } else if str_eq(name, "member_of") {
            EdgeType::MemberOf
        } else if str_eq(name, "knows") {
            EdgeType::Knows
        } else if str_eq(name, "enemy_of") {
            EdgeType::EnemyOf
        } else if str_eq(name, "ally_of") {
            EdgeType::AllyOf
        } else if str_eq(name, "family_of") {
            EdgeType::FamilyOf
        } else if str_eq(name, "caused_by") {
            EdgeType::CausedBy
        } else if str_eq(name, "leads_to") {
            EdgeType::LeadsTo
        } else if str_eq(name, "happened_at") {
            EdgeType::HappenedAt
        } else if str_eq(name, "participated_in") {
            EdgeType::ParticipatedIn
        } else {
            EdgeType::Custom(name.to_owned())
        }
    }

    /// Whether two kinds are the same relationship kind: equal built-in
    /// kinds, or custom kinds with the same name.
    pub open spec fn spec_same(a: EdgeType, b: EdgeType) -> bool {
        match (a, b) {
            (EdgeType::Custom(x), EdgeType::Custom(y)) => x@ == y@,
            _ => a == b,
        }
    }

    pub fn same_as(&self, other: &EdgeType) -> (r: bool)
        ensures
            r == EdgeType::spec_same(*self, *other),
    {
        match (self, other) {
            (EdgeType::RelatedTo, EdgeType::RelatedTo) => true,
            (EdgeType::Contains, EdgeType::Contains) => true,
            (EdgeType::OwnedBy, EdgeType::OwnedBy) => true,
            (EdgeType::LocatedIn, EdgeType::LocatedIn) => true,
            (EdgeType::MemberOf, EdgeType::MemberOf) => true,
            (EdgeType::Knows, EdgeType::Knows) => true,
            (EdgeType::EnemyOf, EdgeType::EnemyOf) => true,
            (EdgeType::AllyOf, EdgeType::AllyOf) => true,
            (EdgeType::FamilyOf, EdgeType::FamilyOf) => true,
            (EdgeType::CausedBy, EdgeType::CausedBy) => true,
            (EdgeType::LeadsTo, EdgeType::LeadsTo) => true,
            (EdgeType::HappenedAt, EdgeType::HappenedAt) => true,
            (EdgeType::ParticipatedIn, EdgeType::ParticipatedIn) => true,
            (EdgeType::Custom(a), EdgeType::Custom(b)) => str_eq(a.as_str(), b.as_str()),
            _ => false,
        }
    }
}

impl Clone for EdgeType {
    fn clone(&self) -> (r: Self)
        ensures
            r == *self,
    {
        match self {
            EdgeType::RelatedTo => EdgeType::RelatedTo,
            EdgeType::Contains => EdgeType::Contains,
            EdgeType::OwnedBy => EdgeType::OwnedBy,
            EdgeType::LocatedIn => EdgeType::LocatedIn,
            EdgeType::MemberOf => EdgeType::MemberOf,
            EdgeType::Knows => EdgeType::Knows,
            EdgeType::EnemyOf => EdgeType::EnemyOf,
            EdgeType::AllyOf => EdgeType::AllyOf,
            EdgeType::FamilyOf => EdgeType::FamilyOf,
            EdgeType::CausedBy => EdgeType::CausedBy,
            EdgeType::LeadsTo => EdgeType::LeadsTo,
            EdgeType::HappenedAt => EdgeType::HappenedAt,
            EdgeType::ParticipatedIn => EdgeType::ParticipatedIn,
            EdgeType::Custom(name) => EdgeType::Custom(name.clone()),
        }
    }
}

/// An edge connecting two objects. The weight carries the bit pattern of a
/// 32-bit float; this core never computes with it.
#[derive(Debug)]
pub struct Edge {
    pub from: u128,
    pub to: u128,
    pub edge_type: EdgeType,
    pub weight_bits: u32,
    pub created_at: i64,
    pub metadata: StrMap<String>,
}

/// The mathematical content of an edge: every field, with the metadata map
/// taken up to its view.
pub ghost struct EdgeView {
    pub from: u128,
    pub to: u128,
    pub edge_type: EdgeType,
    pub weight_bits: u32,
    pub created_at: i64,
    pub metadata: Map<Seq<char>, String>,
}

impl View for Edge {
    type V = EdgeView;

    open spec fn view(&self) -> EdgeView {
        EdgeView {
            from: self.from,
            to: self.to,
            edge_type: self.edge_type,
            weight_bits: self.weight_bits,
            created_at: self.created_at,
            metadata: self.metadata@,
        }
    }
}

impl Edge {
    pub open spec fn wf(&self) -> bool {
        self.metadata.wf()
    }

    /// A fresh edge with the default weight and empty metadata.
    pub fn new(from: u128, to: u128, edge_type: EdgeType) -> (r: Edge)
        ensures
            r.from == from,
            r.to == to,
            r.edge_type == edge_type,
            r.weight_bits == DEFAULT_WEIGHT_BITS,
            r.metadata@ == Map::<Seq<char>, String>::empty(),
            r.wf(),
    {
        Edge {
            from,
            to,
            edge_type,
            weight_bits: DEFAULT_WEIGHT_BITS,
            created_at: now_micros(),
            metadata: StrMap::new(),
        }
    }

    /// Replaces the weight (given as the bit pattern of a 32-bit float).
    pub fn with_weight(self, weight_bits: u32) -> (r: Edge)
        ensures
            r == (Edge { weight_bits, ..self }),
    {
        Edge { weight_bits, ..self }
    }

    /// Adds one metadata entry.
    pub fn with_metadata(self, key: String, value: String) -> (r: Edge)
        requires
            self.wf(),
        ensures
            r.wf(),
            r.from == self.from,
            r.to == self.to,
            r.edge_type == self.edge_type,
            r.weight_bits == self.weight_bits,
            r.created_at == self.created_at,
            r.metadata@ == self.metadata@.insert(key@, value),
    {
        let mut e = self;
        e.metadata.insert(key, value);
        e
    }

}

impl Clone for Edge {
    /// A structural copy: equal to the original up to the view.
    fn clone(&self) -> (r: Self)
        ensures
            r@ == self@,
            r.from == self.from,
            r.to == self.to,
            r.edge_type == self.edge_type,
            r.weight_bits == self.weight_bits,
            r.created_at == self.created_at,
            self.wf() ==> r.wf(),
    {
        let mut metadata: StrMap<String> = StrMap { entries: Vec::new() };
        let mut i: usize = 0;
        while i < self.metadata.entries.len()
            invariant
                i <= self.metadata.entries@.len(),
                metadata.entries@ =~= self.metadata.entries@.take(i as int),
            decreases self.metadata.entries@.len() - i,
        {
            let k = self.metadata.entries[i].0.clone();
            let v = self.metadata.entries[i].1.clone();
            metadata.entries.push((k, v));
            proof {
                assert(metadata.entries@ =~= self.metadata.entries@.take(i + 1));
            }
            i = i + 1;
        }
        proof {
            assert(metadata.entries@ =~= self.metadata.entries@);
        }
        Edge {
            from: self.from,
            to: self.to,
            edge_type: self.edge_type.clone(),
            weight_bits: self.weight_bits,
            created_at: self.created_at,
            metadata,
        }
    }
}

/// Whether some tag in the list reads as the given text.
pub open spec fn spec_has_tag(tags: Seq<String>, tag: Seq<char>) -> bool {
    exists|i: int| 0 <= i < tags.len() && #[trigger] tags[i]@ == tag
}

/// Whether the tags are pairwise distinct.
pub open spec fn spec_tags_distinct(tags: Seq<String>) -> bool {
    forall|i: int, j: int| 0 <= i < j < tags.len() ==> #[trigger] tags[i]@ != #[trigger] tags[j]@
}

/// A graph object: identity, kind, name, free-form tags and a property tree.
#[derive(Debug)]
pub struct ObjectMetadata {
    pub id: u128,
    pub object_type: String,
    pub schema_name: Option<String>,
    pub name: String,
    pub description: Option<String>,
    pub created_at: i64,
    pub updated_at: i64,
    pub tags: Vec<String>,
    pub properties: StrMap<JsonValue>,
}

/// Equality of two objects up to the `updated_at` timestamp, with the
/// property map taken up to its view.
pub open spec fn eq_mod_updated(a: ObjectMetadata, b: ObjectMetadata) -> bool {
    &&& a.id == b.id
    &&& a.object_type == b.object_type
    &&& a.schema_name == b.schema_name
    &&& a.name == b.name
    &&& a.description == b.description
    &&& a.created_at == b.created_at
    &&& a.tags@ == b.tags@
    &&& a.properties@ == b.properties@
}

impl ObjectMetadata {
    pub open spec fn wf(&self) -> bool {
        self.properties.wf() && spec_tags_distinct(self.tags@)
    }

    /// A fresh object of the given kind and name, with empty properties.
    pub fn new(object_type: String, name: String) -> (r: ObjectMetadata)
        ensures
            r.object_type == object_type,
            r.name == name,
            r.schema_name is None,
            r.description is None,
            r.tags@ == Seq::<String>::empty(),
            r.properties@ == Map::<Seq<char>, JsonValue>::empty(),
            r.created_at == r.updated_at,
            r.wf(),
    {
        let now = now_micros();
        ObjectMetadata {
            id: fresh_id(),
            object_type,
            schema_name: None,
            name,
            description: None,
            created_at: now,
            updated_at: now,
            tags: Vec::new(),
            properties: StrMap::new(),
        }
    }

    /// A fresh object of a built-in kind.
    pub fn new_with_type(object_type: ObjectType, name: String) -> (r: ObjectMetadata)
        ensures
            r.object_type@ == object_type.spec_name(),
            r.name == name,
            r.schema_name is None,
            r.description is None,
            r.tags@ == Seq::<String>::empty(),
            r.properties@ == Map::<Seq<char>, JsonValue>::empty(),
            r.created_at == r.updated_at,
            r.wf(),
    {
        ObjectMetadata::new(object_type.as_str().to_owned(), name)
    }

    pub fn with_description(self, description: String) -> (r: ObjectMetadata)
        ensures
            r == (ObjectMetadata { description: Some(description), ..self }),
    {
        ObjectMetadata { description: Some(description), ..self }
    }

    pub fn with_schema(self, schema_name: String) -> (r: ObjectMetadata)
        ensures
            r == (ObjectMetadata { schema_name: Some(schema_name), ..self }),
    {
        ObjectMetadata { schema_name: Some(schema_name), ..self }
    }

    /// Adds or replaces a string-valued property.
    pub fn with_property(self, key: String, value: String) -> (r: ObjectMetadata)
        requires
            self.wf(),
        ensures
            r.wf(),
            eq_mod_updated(
                r,
                (ObjectMetadata {
                    properties: r.properties,
                    updated_at: self.updated_at,
                    ..self
                }),
            ),
            r.updated_at == self.updated_at,
            r.properties@ == self.properties@.insert(key@, JsonValue::Str(value)),
    {
        let mut o = self;
        o.properties.insert(key, JsonValue::Str(value));
        o
    }

    /// Adds or replaces a property with an arbitrary JSON value.
    pub fn with_json_property(self, key: String, value: JsonValue) -> (r: ObjectMetadata)
        requires
            self.wf(),
        ensures
            r.wf(),
            eq_mod_updated(
                r,
                (ObjectMetadata {
                    properties: r.properties,
                    updated_at: self.updated_at,
                    ..self
                }),
            ),
            r.updated_at == self.updated_at,
            r.properties@ == self.properties@.insert(key@, value),
    {
        let mut o = self;
        o.properties.insert(key, value);
        o
    }

    /// A string-valued property's content, if present.
    pub fn get_property(&self, key: &str) -> (r: Option<String>)
        requires
            self.wf(),
        ensures
            r matches Some(s) ==> self.properties@.contains_key(key@) && self.properties@[key@]
                == JsonValue::Str(s),
            r is None ==> !self.properties@.contains_key(key@) || !(self.properties@[key@] is Str),
    {
        match self.properties.get(key) {
            Some(v) => match v {
                JsonValue::Str(s) => Some(s.clone()),
                _ => None,
            },
            None => None,
        }
    }

    /// A property's JSON value, if present.
    pub fn get_json_property(&self, key: &str) -> (r: Option<&JsonValue>)
        requires
            self.wf(),
        ensures
            r matches Some(v) ==> self.properties@.contains_key(key@) && *v
                == self.properties@[key@],
            r is None ==> !self.properties@.contains_key(key@),
    {
        self.properties.get(key)
    }

    /// Sets a string-valued property and touches the object.
    pub fn set_property(&mut self, key: String, value: String)
        requires
            old(self).wf(),
        ensures
            final(self).wf(),
            final(self).properties@ == old(self).properties@.insert(key@, JsonValue::Str(value)),
            final(self).id == old(self).id,
            final(self).object_type == old(self).object_type,
            final(self).schema_name == old(self).schema_name,
            final(self).name == old(self).name,
            final(self).description == old(self).description,
            final(self).created_at == old(self).created_at,
            final(self).tags@ == old(self).tags@,
    {
        self.properties.insert(key, JsonValue::Str(value));
        self.touch();
    }

    /// Sets a property to an arbitrary JSON value and touches the object.
    pub fn set_json_property(&mut self, key: String, value: JsonValue)
        requires
            old(self).wf(),
        ensures
            final(self).wf(),
            final(self).properties@ == old(self).properties@.insert(key@, value),
            final(self).id == old(self).id,
            final(self).object_type == old(self).object_type,
            final(self).schema_name == old(self).schema_name,
            final(self).name == old(self).name,
            final(self).description == old(self).description,
            final(self).created_at == old(self).created_at,
            final(self).tags@ == old(self).tags@,
    {
        self.properties.insert(key, value);
        self.touch();
    }

    /// Appends a tag unless it is already present.
    #[verifier::loop_isolation(false)]
    pub fn add_tag(&mut self, tag: String)
        requires
            old(self).wf(),
        ensures
            final(self).wf(),
            spec_has_tag(old(self).tags@, tag@) ==> final(self).tags@ == old(self).tags@,
            !spec_has_tag(old(self).tags@, tag@) ==> final(self).tags@ == old(self).tags@.push(
                tag,
            ),
            spec_has_tag(final(self).tags@, tag@),
            final(self).id == old(self).id,
            final(self).object_type == old(self).object_type,
            final(self).schema_name == old(self).schema_name,
            final(self).name == old(self).name,
            final(self).description == old(self).description,
            final(self).created_at == old(self).created_at,
            final(self).updated_at == old(self).updated_at,
            final(self).properties == old(self).properties,
    {
        let mut i: usize = 0;
        while i < self.tags.len()
            invariant
                i <= self.tags@.len(),
                forall|j: int| 0 <= j < i ==> #[trigger] self.tags@[j]@ != tag@,
            decreases self.tags@.len() - i,
        {
            if str_eq(self.tags[i].as_str(), tag.as_str()) {
                return ;
            }
            i = i + 1;
        }
        self.tags.push(tag);
        proof {
            assert(self.tags@[self.tags@.len() - 1]@ == tag@);
        }
    }

    /// Bumps the update timestamp; every other field is unchanged.
    pub fn touch(&mut self)
        ensures
            eq_mod_updated(*final(self), *old(self)),
            final(self).properties == old(self).properties,
            final(self).tags == old(self).tags,
    {
        self.updated_at = now_micros();
    }
}

impl Clone for ObjectMetadata {
    /// A structural copy. Every field but the property map is equal to the
    /// original; the property map binds the same keys, each to a
    /// structurally equal value.
    fn clone(&self) -> (r: Self)
        ensures
            r.id == self.id,
            r.object_type == self.object_type,
            r.schema_name == self.schema_name,
            r.name == self.name,
            r.description == self.description,
            r.created_at == self.created_at,
            r.updated_at == self.updated_at,
            r.tags@ == self.tags@,
            r.properties@.dom() == self.properties@.dom(),
            self.wf() ==> r.wf(),
            self.wf() ==> (forall|k: Seq<char>|
                self.properties@.contains_key(k) ==> crate::json::spec_json_eq(
                    #[trigger] r.properties@[k],
                    self.properties@[k],
                )),
    {
        let mut properties: StrMap<JsonValue> = StrMap { entries: Vec::new() };
        let mut i: usize = 0;
        while i < self.properties.entries.len()
            invariant
                i <= self.properties.entries@.len(),
                properties.entries@.len() == i,
                forall|j: int|
                    0 <= j < i ==> #[trigger] properties.entries@[j].0@
                        == self.properties.entries@[j].0@,
                forall|j: int|
                    0 <= j < i ==> crate::json::spec_json_eq(
                        (#[trigger] properties.entries@[j]).1,
                        self.properties.entries@[j].1,
                    ),
            decreases self.properties.entries@.len() - i,
        {
            let k = self.properties.entries[i].0.clone();
            let v = crate::json::json_copy(&self.properties.entries[i].1);
            properties.entries.push((k, v));
            i = i + 1;
        }
        proof {
            assert(crate::kvmap::str_keys_distinct(self.properties.entries@)
                ==> crate::kvmap::str_keys_distinct(properties.entries@));
            lemma_same_keys_same_dom(properties.entries@, self.properties.entries@);
            if self.wf() {
                self.properties.lemma_entries_in_view();
                properties.lemma_entries_in_view();
                assert forall|k: Seq<char>| self.properties@.contains_key(k) implies
                    crate::json::spec_json_eq(
                    #[trigger] properties@[k],
                    self.properties@[k],
                ) by {
                    let w = choose|w: int|
                        0 <= w < self.properties.entries@.len()
                            && #[trigger] self.properties.entries@[w].0@ == k;
                    assert(self.properties@[k] == self.properties.entries@[w].1);
                    assert(properties.entries@[w].0@ == k);
                    assert(properties@[k] == properties.entries@[w].1);
                }
            }
        }
        ObjectMetadata {
            id: self.id,
            object_type: self.object_type.clone(),
            schema_name: self.schema_name.clone(),
            name: self.name.clone(),
            description: self.description.clone(),
            created_at: self.created_at,
            updated_at: self.updated_at,
            tags: self.tags.clone(),
            properties,
        }
    }
}

/// Entry lists that bind the same keys in the same order denote maps with
/// the same domain.
proof fn lemma_same_keys_same_dom(a: Seq<(String, JsonValue)>, b: Seq<(String, JsonValue)>)
    requires
        a.len() == b.len(),
        forall|i: int| 0 <= i < a.len() ==> #[trigger] a[i].0@ == #[trigger] b[i].0@,
    ensures
        crate::kvmap::str_map_of(a).dom() == crate::kvmap::str_map_of(b).dom(),
    decreases a.len(),
{
    if a.len() > 0 {
        lemma_same_keys_same_dom(a.drop_last(), b.drop_last());
        assert(crate::kvmap::str_map_of(a).dom() =~= crate::kvmap::str_map_of(a.drop_last()).dom()
            .insert(a.last().0@));
        assert(crate::kvmap::str_map_of(b).dom() =~= crate::kvmap::str_map_of(b.drop_last()).dom()
            .insert(b.last().0@));
    }
}

/// Kinds of text chunks attached to an object.
#[derive(Debug, Clone, Copy, PartialEq, Eq)]
pub enum ChunkType {
    Description,
    SessionNote,
    AiGenerated,
    UserNote,
    Imported,
}

/// A unit of indexable text attached to exactly one object.
#[derive(Debug)]
pub struct TextChunk {
    pub id: u128,
    pub object_id: u128,
    pub content: String,
    pub token_count: usize,
    pub created_at: i64,
    pub chunk_type: ChunkType,
}

/// The token estimate as a function of the text's byte length: one token
/// per four bytes, at least one.
pub open spec fn spec_token_count(byte_len: usize) -> nat {
    if byte_len / 4 > 1 {
        (byte_len / 4) as nat
    } else {
        1nat
    }
}

/// Rough token estimate for a text.
pub fn estimate_token_count(text: &str) -> (r: usize)
    ensures
        r == spec_token_count(text.spec_bytes().len() as usize),
{
    let n: usize = text.len() / 4;
    if n > 1 {
        n
    } else {
        1
    }
}

impl TextChunk {
    /// A fresh chunk owned by the given object, with an estimated token
    /// count.
    pub fn new(object_id: u128, content: String, chunk_type: ChunkType) -> (r: TextChunk)
        ensures
            r.object_id == object_id,
            r.content == content,
            r.token_count == spec_token_count(vstd::utf8::encode_utf8(content@).len() as usize),
            r.chunk_type == chunk_type,
    {
        let token_count = estimate_token_count(content.as_str());
        TextChunk {
            id: fresh_id(),
            object_id,
            token_count,
            content,
            created_at: now_micros(),
            chunk_type,
        }
    }
}

impl Clone for TextChunk {
    fn clone(&self) -> (r: Self)
        ensures
            r == *self,
    {
        TextChunk {
            id: self.id,
            object_id: self.object_id,
            content: self.content.clone(),
            token_count: self.token_count,
            created_at: self.created_at,
            chunk_type: self.chunk_type,
        }
    }
}

/// Saturating sum used for token accounting.
pub open spec fn spec_sat_add(a: usize, b: usize) -> usize {
    if a + b > usize::MAX {
        usize::MAX
    } else {
        (a + b) as usize
    }
}

/// Result of a subgraph traversal: the objects, edges and chunks reached,
/// borrowed from the store.
#[derive(Debug)]
pub struct QueryResult<'a> {
    pub objects: Vec<&'a ObjectMetadata>,
    pub edges: Vec<&'a Edge>,
    pub chunks: Vec<&'a TextChunk>,
    pub total_tokens: usize,
}

impl<'a> QueryResult<'a> {
    pub fn new() -> (r: Self)
        ensures
            r.objects@ == Seq::<&'a ObjectMetadata>::empty(),
            r.edges@ == Seq::<&'a Edge>::empty(),
            r.chunks@ == Seq::<&'a TextChunk>::empty(),
            r.total_tokens == 0,
    {
        QueryResult { objects: Vec::new(), edges: Vec::new(), chunks: Vec::new(), total_tokens: 0 }
    }

    pub fn add_object(&mut self, object: &'a ObjectMetadata)
        ensures
            *final(self) == (QueryResult { objects: final(self).objects, ..*old(self) }),
            final(self).objects@ == old(self).objects@.push(object),
    {
        self.objects.push(object);
    }

    pub fn add_edge(&mut self, edge: &'a Edge)
        ensures
            *final(self) == (QueryResult { edges: final(self).edges, ..*old(self) }),
            final(self).edges@ == old(self).edges@.push(edge),
    {
        self.edges.push(edge);
    }

    /// Appends a chunk and accounts its tokens (saturating).
    pub fn add_chunk(&mut self, chunk: &'a TextChunk)
        ensures
            final(self).chunks@ == old(self).chunks@.push(chunk),
            final(self).objects == old(self).objects,
            final(self).edges == old(self).edges,
            final(self).total_tokens == spec_sat_add(old(self).total_tokens, chunk.token_count),
    {
        if self.total_tokens > usize::MAX - chunk.token_count {
            self.total_tokens = usize::MAX;
        } else {
            self.total_tokens = self.total_tokens + chunk.token_count;
        }
        self.chunks.push(chunk);
    }

    /// Whether adding the chunk would push the token total over the budget.
    pub fn would_exceed_budget(&self, chunk: &TextChunk, budget: usize) -> (r: bool)
        ensures
            r == (self.total_tokens + chunk.token_count > budget),
    {
        if budget < chunk.token_count {
            true
        } else {
            self.total_tokens > budget - chunk.token_count
        }
    }
}

} // verus!
