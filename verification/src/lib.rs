//! Core engine of a local-first knowledge graph for tabletop worldbuilding:
//! a typed property graph with per-node adjacency, text chunks and schemas,
//! a schema engine with validation, name and vector search indexes, and an
//! asynchronous embedding queue modelled as a verified state machine. File
//! storage, the embedding model and the nearest-neighbor index live with
//! the surrounding runtime; every decision the engine takes is verified
//! here.

pub mod embeddings;
pub mod ingest;
pub mod json;
pub mod kvmap;
pub mod laws;
pub mod manager;
pub mod queue;
pub mod schema;
pub mod search;
pub mod store;
pub mod trusted;
pub mod types;

pub use types::estimate_token_count;
pub use types::spec_token_count;

use crate::manager::{SchemaManager, SchemaStats};
use crate::schema::{EdgeTypeSchema, ObjectTypeSchema, ValidationResult};
use crate::search::VectorSearchEngine;
use crate::store::{
    in_edges, out_edges, spec_name_key, spec_retain_in, spec_retain_out, GraphError, GraphStats,
    KnowledgeGraphStorage,
};
use crate::types::{
    eq_mod_updated, ChunkType, Edge, EdgeType, ObjectMetadata, QueryResult, TextChunk,
    DEFAULT_WEIGHT_BITS,
};
use vstd::prelude::*;

verus! {

/// The knowledge graph: the store, the schema engine and the verified side
/// of the search engine, composed behind one surface.
pub struct KnowledgeGraph {
    pub store: KnowledgeGraphStorage,
    pub schema_manager: SchemaManager,
    pub search: VectorSearchEngine,
}

impl KnowledgeGraph {
    pub open spec fn wf(&self) -> bool {
        self.store.wf() && self.search.wf()
    }

    /// A fresh, empty graph. Durable storage and the embedding provider
    /// are wired up by the surrounding runtime.
    pub fn new() -> (r: Self)
        ensures
            r.wf(),
            r.store.nodes@ == Map::<u128, ObjectMetadata>::empty(),
            r.store.adjacency@ == Map::<u128, crate::store::AdjacencyList>::empty(),
            r.store.chunks@ == Map::<u128, TextChunk>::empty(),
            r.store.names@ == Map::<Seq<char>, u128>::empty(),
            r.store.schemas@ == Map::<Seq<char>, crate::schema::SchemaDefinition>::empty(),
    {
        KnowledgeGraph {
            store: KnowledgeGraphStorage::new(),
            schema_manager: SchemaManager::new(),
            search: VectorSearchEngine::new(),
        }
    }

    /// Adds an object and returns its id.
    pub fn add_object(&mut self, metadata: ObjectMetadata) -> (r: Result<u128, GraphError>)
        requires
            old(self).wf(),
            metadata.wf(),
        ensures
            final(self).wf(),
            r == Result::<u128, GraphError>::Ok(metadata.id),
            final(self).store.nodes@ == old(self).store.nodes@.insert(metadata.id, metadata),
            final(self).store.names@ == old(self).store.names@.insert(
                spec_name_key(metadata.object_type@, metadata.name@),
                metadata.id,
            ),
            final(self).store.adjacency == old(self).store.adjacency,
            final(self).store.chunks == old(self).store.chunks,
            final(self).store.schemas == old(self).store.schemas,
            final(self).search == old(self).search,
    {
        let id = metadata.id;
        match self.store.upsert_node(metadata) {
            Ok(()) => Ok(id),
            Err(e) => Err(e),
        }
    }

    /// An object by id.
    pub fn get_object(&self, id: u128) -> (r: Option<&ObjectMetadata>)
        requires
            self.wf(),
        ensures
            r matches Some(v) ==> self.store.nodes@.contains_key(id) && *v
                == self.store.nodes@[id],
            r is None ==> !self.store.nodes@.contains_key(id),
    {
        self.store.get_node(id)
    }

    /// Every stored object.
    pub fn get_all_objects(&self) -> (r: Vec<&ObjectMetadata>)
        requires
            self.wf(),
        ensures
            r@.len() == self.store.nodes.entries@.len(),
            forall|i: int|
                0 <= i < r@.len() ==> *(#[trigger] r@[i]) == self.store.nodes.entries@[i].1,
    {
        self.store.get_all_objects()
    }

    /// Stores the object again with a fresh update timestamp; the stored
    /// record equals the given one up to `updated_at`.
    pub fn update_object(&mut self, metadata: ObjectMetadata) -> (r: Result<(), GraphError>)
        requires
            old(self).wf(),
            metadata.wf(),
        ensures
            r is Ok,
            final(self).wf(),
            final(self).store.nodes@.contains_key(metadata.id),
            eq_mod_updated(final(self).store.nodes@[metadata.id], metadata),
            final(self).store.nodes@.dom() == old(self).store.nodes@.dom().insert(metadata.id),
            forall|k: u128|
                k != metadata.id && old(self).store.nodes@.contains_key(k) ==> final(self).store.nodes@[k] == old(self).store.nodes@[k],
            final(self).store.adjacency == old(self).store.adjacency,
            final(self).store.chunks == old(self).store.chunks,
            final(self).store.schemas == old(self).store.schemas,
    {
        let mut metadata = metadata;
        metadata.touch();
        let ghost touched = metadata;
        let r = self.store.upsert_node(metadata);
        proof {
            assert(final(self).store.nodes@.dom() =~= old(self).store.nodes@.dom().insert(
                touched.id,
            ));
        }
        r
    }

    /// Deletes an object with full cascade: its record, its name-index
    /// entry, its own adjacency record and its chunks go; every surviving
    /// adjacency record is the old one with the edges touching the object
    /// dropped; everything else is untouched.
    pub fn delete_object(&mut self, id: u128) -> (r: Result<(), GraphError>)
        requires
            old(self).wf(),
        ensures
            r is Ok,
            final(self).wf(),
            final(self).store.nodes@ == old(self).store.nodes@.remove(id),
            final(self).store.adjacency@.dom() == old(self).store.adjacency@.dom().remove(id),
            old(self).store.nodes@.contains_key(id) ==> final(self).store.names@ == old(self).store.names@.remove(
                spec_name_key(
                    old(self).store.nodes@[id].object_type@,
                    old(self).store.nodes@[id].name@,
                ),
            ),
            !old(self).store.nodes@.contains_key(id) ==> final(self).store.names@ == old(self).store.names@,
            forall|k: u128|
                final(self).store.chunks@.contains_key(k) <==> (old(self).store.chunks@.contains_key(k) && (#[trigger] old(self).store.chunks@[k]).object_id
                    != id),
            forall|k: u128|
                final(self).store.chunks@.contains_key(k) ==> final(self).store.chunks@[k] == old(self).store.chunks@[k],
            forall|k: u128|
                #[trigger] final(self).store.adjacency@.contains_key(k) ==> out_edges(
                    final(self).store.adjacency@,
                    k,
                ) == crate::store::spec_drop_to(out_edges(old(self).store.adjacency@, k), id)
                    && in_edges(final(self).store.adjacency@, k) == crate::store::spec_drop_from(
                    in_edges(old(self).store.adjacency@, k),
                    id,
                ),
            forall|k: u128, i: int|
                final(self).store.adjacency@.contains_key(k) && 0 <= i < out_edges(
                    final(self).store.adjacency@,
                    k,
                ).len() ==> (#[trigger] out_edges(final(self).store.adjacency@, k)[i]).to != id,
            forall|k: u128, i: int|
                final(self).store.adjacency@.contains_key(k) && 0 <= i < in_edges(
                    final(self).store.adjacency@,
                    k,
                ).len() ==> (#[trigger] in_edges(final(self).store.adjacency@, k)[i]).from != id,
            final(self).store.schemas == old(self).store.schemas,
            final(self).search == old(self).search,
    {
        self.store.delete_node(id)
    }

    /// Connects two objects with an edge of the given kind and the default
    /// weight: the endpoint records are replaced retain-then-append, so the
    /// new record is the only one of its (from, to, kind) triple on each
    /// side, and every other adjacency record is untouched.
    pub fn connect_objects(&mut self, from: u128, to: u128, edge_type: EdgeType) -> (r: Result<
        (),
        GraphError,
    >)
        requires
            old(self).wf(),
        ensures
            r is Ok,
            final(self).wf(),
            final(self).store.nodes == old(self).store.nodes,
            final(self).store.chunks == old(self).store.chunks,
            final(self).store.names == old(self).store.names,
            final(self).store.schemas == old(self).store.schemas,
            final(self).search == old(self).search,
            crate::store::spec_connected(
                old(self).store.adjacency@,
                final(self).store.adjacency@,
                from,
                to,
                edge_type,
                DEFAULT_WEIGHT_BITS,
            ),
    {
        self.connect_objects_weighted(from, to, edge_type, DEFAULT_WEIGHT_BITS)
    }

    /// Connects two objects using an edge-kind name; known names become
    /// their built-in kind, unknown names a custom kind of that name.
    pub fn connect_objects_str(&mut self, from: u128, to: u128, edge_type: &str) -> (r: Result<
        (),
        GraphError,
    >)
        requires
            old(self).wf(),
        ensures
            r is Ok,
            final(self).wf(),
            final(self).store.nodes == old(self).store.nodes,
            final(self).store.chunks == old(self).store.chunks,
            final(self).store.names == old(self).store.names,
            final(self).store.schemas == old(self).store.schemas,
            final(self).search == old(self).search,
            exists|t: EdgeType|
                t.spec_name() == edge_type@ && (EdgeType::spec_builtin_of_name(
                    edge_type@,
                ) matches Some(bt) ==> t == bt) && (EdgeType::spec_builtin_of_name(edge_type@)
                    is None ==> t is Custom) && #[trigger] crate::store::spec_connected(
                    old(self).store.adjacency@,
                    final(self).store.adjacency@,
                    from,
                    to,
                    t,
                    DEFAULT_WEIGHT_BITS,
                ),
    {
        let t = EdgeType::from_str(edge_type);
        let ghost tg = t;
        let r = self.connect_objects(from, to, t);
        proof {
            assert(crate::store::spec_connected(
                old(self).store.adjacency@,
                self.store.adjacency@,
                from,
                to,
                tg,
                DEFAULT_WEIGHT_BITS,
            ));
        }
        r
    }

    /// Connects two objects with an explicit weight (the bit pattern of a
    /// 32-bit float); the endpoint records are replaced retain-then-append
    /// and every other adjacency record is untouched.
    pub fn connect_objects_weighted(
        &mut self,
        from: u128,
        to: u128,
        edge_type: EdgeType,
        weight_bits: u32,
    ) -> (r: Result<(), GraphError>)
        requires
            old(self).wf(),
        ensures
            r is Ok,
            final(self).wf(),
            final(self).store.nodes == old(self).store.nodes,
            final(self).store.chunks == old(self).store.chunks,
            final(self).store.names == old(self).store.names,
            final(self).store.schemas == old(self).store.schemas,
            final(self).search == old(self).search,
            crate::store::spec_connected(
                old(self).store.adjacency@,
                final(self).store.adjacency@,
                from,
                to,
                edge_type,
                weight_bits,
            ),
    {
        let edge = Edge::new(from, to, edge_type).with_weight(weight_bits);
        let ghost e = edge;
        let r = self.store.upsert_edge(edge);
        proof {
            if from != to {
                let outs = out_edges(self.store.adjacency@, from);
                assert(outs == spec_retain_out(
                    out_edges(old(self).store.adjacency@, from),
                    to,
                    e.edge_type,
                ).push(e));
                assert(outs.drop_last() =~= spec_retain_out(
                    out_edges(old(self).store.adjacency@, from),
                    to,
                    e.edge_type,
                ));
                assert(outs.last() == e);
            } else {
                let outs = out_edges(self.store.adjacency@, from);
                assert(outs == spec_retain_out(
                    out_edges(old(self).store.adjacency@, from),
                    to,
                    e.edge_type,
                ).push(e));
                assert(outs.drop_last() =~= spec_retain_out(
                    out_edges(old(self).store.adjacency@, from),
                    from,
                    e.edge_type,
                ));
                assert(outs.last() == e);
            }
        }
        r
    }

    /// Connects two objects with an explicit weight, by edge-kind name.
    pub fn connect_objects_weighted_str(
        &mut self,
        from: u128,
        to: u128,
        edge_type: &str,
        weight_bits: u32,
    ) -> (r: Result<(), GraphError>)
        requires
            old(self).wf(),
        ensures
            r is Ok,
            final(self).wf(),
            final(self).store.nodes == old(self).store.nodes,
            final(self).store.chunks == old(self).store.chunks,
            final(self).store.names == old(self).store.names,
            final(self).store.schemas == old(self).store.schemas,
            final(self).search == old(self).search,
            exists|t: EdgeType|
                t.spec_name() == edge_type@ && (EdgeType::spec_builtin_of_name(
                    edge_type@,
                ) matches Some(bt) ==> t == bt) && (EdgeType::spec_builtin_of_name(edge_type@)
                    is None ==> t is Custom) && #[trigger] crate::store::spec_connected(
                    old(self).store.adjacency@,
                    final(self).store.adjacency@,
                    from,
                    to,
                    t,
                    weight_bits,
                ),
    {
        let t = EdgeType::from_str(edge_type);
        let ghost tg = t;
        let r = self.connect_objects_weighted(from, to, t, weight_bits);
        proof {
            assert(crate::store::spec_connected(
                old(self).store.adjacency@,
                self.store.adjacency@,
                from,
                to,
                tg,
                weight_bits,
            ));
        }
        r
    }

    /// All edge records of an object, outgoing then incoming.
    pub fn get_relationships(&self, id: u128) -> (r: Vec<&Edge>)
        requires
            self.wf(),
        ensures
            ({
                let outs = out_edges(self.store.adjacency@, id);
                let ins = in_edges(self.store.adjacency@, id);
                r@.len() == outs.len() + ins.len() && (forall|i: int|
                    0 <= i < outs.len() ==> *(#[trigger] r@[i]) == outs[i]) && (forall|i: int|
                    0 <= i < ins.len() ==> *(#[trigger] r@[outs.len() + i]) == ins[i])
            }),
    {
        self.store.get_edges(id)
    }

    /// The object's neighbors, strictly ascending and duplicate-free.
    pub fn get_neighbors(&self, id: u128) -> (r: Vec<u128>)
        requires
            self.wf(),
        ensures
            forall|i: int, j: int| 0 <= i < j < r@.len() ==> r@[i] < r@[j],
            forall|x: u128|
                r@.contains(x) <==> crate::store::spec_is_neighbor(self.store.adjacency@, id, x),
    {
        self.store.get_neighbors(id)
    }

    /// Attaches a text chunk to an object and returns the chunk's id.
    pub fn add_text_chunk(&mut self, object_id: u128, content: String, chunk_type: ChunkType) -> (r:
        Result<u128, GraphError>)
        requires
            old(self).wf(),
        ensures
            final(self).wf(),
            r matches Ok(id) && final(self).store.chunks@.contains_key(id),
            r matches Ok(id) ==> {
                let c = final(self).store.chunks@[id];
                &&& final(self).store.chunks@ == old(self).store.chunks@.insert(id, c)
                &&& c.object_id == object_id
                &&& c.content == content
                &&& c.chunk_type == chunk_type
                &&& c.token_count == crate::types::spec_token_count(
                    vstd::utf8::encode_utf8(content@).len() as usize,
                )
            },
            final(self).store.nodes == old(self).store.nodes,
            final(self).store.adjacency == old(self).store.adjacency,
            final(self).store.names == old(self).store.names,
            final(self).store.schemas == old(self).store.schemas,
    {
        let chunk = TextChunk::new(object_id, content, chunk_type);
        let id = chunk.id;
        match self.store.upsert_chunk(chunk) {
            Ok(()) => Ok(id),
            Err(e) => Err(e),
        }
    }

    /// All chunks attached to an object, in column order.
    pub fn get_text_chunks(&self, object_id: u128) -> (r: Vec<&TextChunk>)
        requires
            self.wf(),
        ensures
            r@.map_values(|c: &TextChunk| *c) == self.store.chunks.entries@.map_values(
                |p: (u128, TextChunk)| p.1,
            ).filter(|c: TextChunk| c.object_id == object_id),
    {
        self.store.get_chunks_for_node(object_id)
    }

    /// Exact lookup through the per-type name index.
    pub fn find_by_name(&self, object_type: &str, name: &str) -> (r: Vec<&ObjectMetadata>)
        requires
            self.wf(),
        ensures
            ({
                let key = spec_name_key(object_type@, name@);
                if self.store.names@.contains_key(key) && self.store.nodes@.contains_key(
                    self.store.names@[key],
                ) {
                    r@.len() == 1 && *r@[0] == self.store.nodes@[self.store.names@[key]]
                } else {
                    r@.len() == 0
                }
            }),
    {
        self.store.find_nodes_by_name(object_type, name)
    }

    /// Breadth-first subgraph expansion from an object: the records of all
    /// nodes reachable within the bound, their edges and their chunks, in
    /// visit order.
    pub fn query_subgraph<'a>(&'a self, start: u128, max_hops: usize) -> (r: QueryResult<'a>)
        requires
            self.wf(),
            max_hops < usize::MAX,
        ensures
            ({
                let objects = r.objects@.map_values(|o: &ObjectMetadata| *o);
                let edges = r.edges@.map_values(|e: &Edge| *e);
                let chunks = r.chunks@.map_values(|c: &TextChunk| *c);
                exists|vs: Seq<u128>|
                    {
                        &&& #[trigger] crate::store::spec_bfs_order(
                            self.store.adjacency@,
                            start,
                            max_hops,
                            vs,
                        )
                        &&& objects == crate::store::spec_visit_objects(self.store.nodes@, vs)
                        &&& edges == crate::store::spec_visit_edges(self.store.adjacency@, vs)
                        &&& chunks == crate::store::spec_visit_chunks(
                            self.store.chunks.entries@,
                            vs,
                        )
                    }
            }),
            r.total_tokens == crate::store::spec_sat_tokens(
                r.chunks@.map_values(|c: &TextChunk| *c),
            ),
            forall|i: int|
                0 <= i < r.objects@.len() ==> crate::store::spec_reachable_within(
                    self.store.adjacency@,
                    start,
                    max_hops as nat,
                    (#[trigger] r.objects@[i]).id,
                ),
            forall|i: int|
                0 <= i < r.edges@.len() ==> crate::store::spec_reachable_within(
                    self.store.adjacency@,
                    start,
                    max_hops as nat,
                    (#[trigger] r.edges@[i]).from,
                ) || crate::store::spec_reachable_within(
                    self.store.adjacency@,
                    start,
                    max_hops as nat,
                    r.edges@[i].to,
                ),
            forall|i: int|
                0 <= i < r.chunks@.len() ==> crate::store::spec_reachable_within(
                    self.store.adjacency@,
                    start,
                    max_hops as nat,
                    (#[trigger] r.chunks@[i]).object_id,
                ),
    {
        self.store.query_subgraph(start, max_hops)
    }

    /// Counts over the graph.
    pub fn get_stats(&self) -> (r: GraphStats)
        requires
            self.wf(),
        ensures
            r.node_count == self.store.nodes@.dom().len(),
            r.chunk_count == self.store.chunks@.dom().len(),
            r.edge_count == crate::store::spec_sat_sum_out(self.store.adjacency.entries@),
            r.total_tokens == crate::store::spec_sat_sum_tokens(self.store.chunks.entries@),
    {
        self.store.get_stats()
    }

    /// The schema engine.
    pub fn get_schema_manager(&self) -> (r: &SchemaManager) {
        &self.schema_manager
    }

    /// Validates an object against the default schema.
    pub fn validate_object(&mut self, object: &ObjectMetadata) -> (r: Result<
        ValidationResult,
        GraphError,
    >)
        requires
            old(self).wf(),
            object.wf(),
        ensures
            final(self).wf(),
            final(self).store.nodes == old(self).store.nodes,
            final(self).store.adjacency == old(self).store.adjacency,
            final(self).store.chunks == old(self).store.chunks,
            final(self).store.names == old(self).store.names,
            r matches Ok(v) ==> crate::manager::spec_validation_outcome(
                *object,
                final(self).store.schemas@["default"@],
                v,
            ),
            r is Ok,
    {
        self.schema_manager.validate_object(&mut self.store, object)
    }

    /// Validates and then adds an object: the object is stored exactly
    /// when it satisfies the default schema, else the validation errors
    /// come back and nothing changes.
    pub fn add_object_validated(&mut self, metadata: ObjectMetadata) -> (r: Result<
        u128,
        GraphError,
    >)
        requires
            old(self).wf(),
            metadata.wf(),
        ensures
            final(self).wf(),
            r matches Ok(id) ==> id == metadata.id && crate::manager::spec_object_valid(
                metadata,
                final(self).store.schemas@["default"@],
            ) && final(self).store.nodes@ == old(self).store.nodes@.insert(metadata.id, metadata),
            r is Err ==> !crate::manager::spec_object_valid(
                metadata,
                final(self).store.schemas@["default"@],
            ) && final(self).store.nodes == old(self).store.nodes,
    {
        let validation = match self.schema_manager.validate_object(&mut self.store, &metadata) {
            Ok(v) => v,
            Err(e) => {
                return Err(e);
            },
        };
        if !validation.valid {
            return Err(GraphError::ValidationFailed(validation.errors));
        }
        let id = metadata.id;
        match self.store.upsert_node(metadata) {
            Ok(()) => Ok(id),
            Err(e) => Err(e),
        }
    }

    /// Registers an object type in the default schema.
    pub fn register_object_type(&mut self, kind_name: &str, kind_schema: ObjectTypeSchema) -> (r:
        Result<(), GraphError>)
        requires
            old(self).wf(),
            kind_schema.wf(),
        ensures
            r is Ok,
            final(self).wf(),
            final(self).store.nodes == old(self).store.nodes,
            final(self).store.adjacency == old(self).store.adjacency,
            final(self).store.chunks == old(self).store.chunks,
            final(self).store.names == old(self).store.names,
            final(self).store.schemas@.contains_key("default"@),
            final(self).store.schemas@["default"@].object_types@.contains_key(kind_name@),
            final(self).store.schemas@["default"@].object_types@[kind_name@] == kind_schema,
    {
        self.schema_manager.register_object_type(&mut self.store, "default", kind_name, kind_schema)
    }

    /// Registers an edge type in the default schema.
    pub fn register_edge_type(&mut self, edge_name: &str, edge_schema: EdgeTypeSchema) -> (r:
        Result<(), GraphError>)
        requires
            old(self).wf(),
            edge_schema.wf(),
        ensures
            r is Ok,
            final(self).wf(),
            final(self).store.nodes == old(self).store.nodes,
            final(self).store.adjacency == old(self).store.adjacency,
            final(self).store.chunks == old(self).store.chunks,
            final(self).store.names == old(self).store.names,
            final(self).store.schemas@.contains_key("default"@),
            final(self).store.schemas@["default"@].edge_types@.contains_key(edge_name@),
            final(self).store.schemas@["default"@].edge_types@[edge_name@] == edge_schema,
    {
        self.schema_manager.register_edge_type(&mut self.store, "default", edge_name, edge_schema)
    }

    /// Statistics of a named schema.
    pub fn get_schema_stats(&mut self, schema_name: &str) -> (r: Result<SchemaStats, GraphError>)
        requires
            old(self).wf(),
        ensures
            r is Ok,
            final(self).wf(),
            final(self).store.schemas@.contains_key(schema_name@),
            final(self).store.nodes == old(self).store.nodes,
            final(self).store.adjacency == old(self).store.adjacency,
            final(self).store.chunks == old(self).store.chunks,
            final(self).store.names == old(self).store.names,
            r matches Ok(stats) ==> stats.name@ == final(self).store.schemas@[schema_name@].name@,
    {
        self.schema_manager.get_schema_stats(&mut self.store, schema_name)
    }

    /// The names of every persisted schema.
    pub fn list_schemas(&self) -> (r: Vec<String>)
        requires
            self.wf(),
        ensures
            forall|i: int|
                0 <= i < r@.len() ==> self.store.schemas@.contains_key((#[trigger] r@[i])@),
    {
        self.schema_manager.list_schemas(&self.store)
    }
}

/// Builder for graph objects of the common kinds.
pub struct ObjectBuilder {
    pub metadata: ObjectMetadata,
}

impl ObjectBuilder {
    pub fn character(name: String) -> (r: Self)
        ensures
            r.metadata.wf(),
            r.metadata.object_type@ == "character"@,
            r.metadata.name == name,
            r.metadata.properties@ == Map::<Seq<char>, crate::json::JsonValue>::empty(),
            r.metadata.tags@ == Seq::<String>::empty(),
    {
        proof {
            reveal_strlit("character");
        }
        ObjectBuilder { metadata: ObjectMetadata::new("character".to_owned(), name) }
    }

    pub fn location(name: String) -> (r: Self)
        ensures
            r.metadata.wf(),
            r.metadata.object_type@ == "location"@,
            r.metadata.name == name,
            r.metadata.properties@ == Map::<Seq<char>, crate::json::JsonValue>::empty(),
            r.metadata.tags@ == Seq::<String>::empty(),
    {
        ObjectBuilder { metadata: ObjectMetadata::new("location".to_owned(), name) }
    }

    pub fn faction(name: String) -> (r: Self)
        ensures
            r.metadata.wf(),
            r.metadata.object_type@ == "faction"@,
            r.metadata.name == name,
            r.metadata.properties@ == Map::<Seq<char>, crate::json::JsonValue>::empty(),
            r.metadata.tags@ == Seq::<String>::empty(),
    {
        ObjectBuilder { metadata: ObjectMetadata::new("faction".to_owned(), name) }
    }

    pub fn item(name: String) -> (r: Self)
        ensures
            r.metadata.wf(),
            r.metadata.object_type@ == "item"@,
            r.metadata.name == name,
            r.metadata.properties@ == Map::<Seq<char>, crate::json::JsonValue>::empty(),
            r.metadata.tags@ == Seq::<String>::empty(),
    {
        ObjectBuilder { metadata: ObjectMetadata::new("item".to_owned(), name) }
    }

    pub fn event(name: String) -> (r: Self)
        ensures
            r.metadata.wf(),
            r.metadata.object_type@ == "event"@,
            r.metadata.name == name,
            r.metadata.properties@ == Map::<Seq<char>, crate::json::JsonValue>::empty(),
            r.metadata.tags@ == Seq::<String>::empty(),
    {
        ObjectBuilder { metadata: ObjectMetadata::new("event".to_owned(), name) }
    }

    pub fn session(name: String) -> (r: Self)
        ensures
            r.metadata.wf(),
            r.metadata.object_type@ == "session"@,
            r.metadata.name == name,
            r.metadata.properties@ == Map::<Seq<char>, crate::json::JsonValue>::empty(),
            r.metadata.tags@ == Seq::<String>::empty(),
    {
        ObjectBuilder { metadata: ObjectMetadata::new("session".to_owned(), name) }
    }

    pub fn custom(object_type: String, name: String) -> (r: Self)
        ensures
            r.metadata.wf(),
            r.metadata.object_type == object_type,
            r.metadata.name == name,
            r.metadata.properties@ == Map::<Seq<char>, crate::json::JsonValue>::empty(),
            r.metadata.tags@ == Seq::<String>::empty(),
    {
        ObjectBuilder { metadata: ObjectMetadata::new(object_type, name) }
    }

    pub fn with_description(self, description: String) -> (r: Self)
        ensures
            r.metadata == (ObjectMetadata { description: Some(description), ..self.metadata }),
    {
        ObjectBuilder { metadata: self.metadata.with_description(description) }
    }

    pub fn with_property(self, key: String, value: String) -> (r: Self)
        requires
            self.metadata.wf(),
        ensures
            r.metadata.wf(),
            r.metadata.properties@ == self.metadata.properties@.insert(
                key@,
                crate::json::JsonValue::Str(value),
            ),
            r.metadata.object_type == self.metadata.object_type,
            r.metadata.name == self.metadata.name,
            r.metadata.id == self.metadata.id,
            r.metadata.tags@ == self.metadata.tags@,
            r.metadata.description == self.metadata.description,
    {
        ObjectBuilder { metadata: self.metadata.with_property(key, value) }
    }

    pub fn with_json_property(self, key: String, value: crate::json::JsonValue) -> (r: Self)
        requires
            self.metadata.wf(),
        ensures
            r.metadata.wf(),
            r.metadata.properties@ == self.metadata.properties@.insert(key@, value),
            r.metadata.object_type == self.metadata.object_type,
            r.metadata.name == self.metadata.name,
            r.metadata.id == self.metadata.id,
            r.metadata.tags@ == self.metadata.tags@,
            r.metadata.description == self.metadata.description,
    {
        ObjectBuilder { metadata: self.metadata.with_json_property(key, value) }
    }

    pub fn with_tag(self, tag: String) -> (r: Self)
        requires
            self.metadata.wf(),
        ensures
            r.metadata.wf(),
            crate::types::spec_has_tag(r.metadata.tags@, tag@),
            r.metadata.object_type == self.metadata.object_type,
            r.metadata.name == self.metadata.name,
            r.metadata.id == self.metadata.id,
            r.metadata.properties == self.metadata.properties,
            r.metadata.description == self.metadata.description,
    {
        let mut metadata = self.metadata;
        metadata.add_tag(tag);
        ObjectBuilder { metadata }
    }

    /// The built object.
    pub fn build(self) -> (r: ObjectMetadata)
        ensures
            r == self.metadata,
    {
        self.metadata
    }

    /// Builds and stores the object, returning its id.
    pub fn add_to_graph(self, graph: &mut KnowledgeGraph) -> (r: Result<u128, GraphError>)
        requires
            old(graph).wf(),
            self.metadata.wf(),
        ensures
            final(graph).wf(),
            r == Result::<u128, GraphError>::Ok(self.metadata.id),
            final(graph).store.nodes@ == old(graph).store.nodes@.insert(
                self.metadata.id,
                self.metadata,
            ),
    {
        graph.add_object(self.metadata)
    }
}

} // verus!
