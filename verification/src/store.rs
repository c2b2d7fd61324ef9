//! The graph store: objects, per-node adjacency records, text chunks, the
//! per-type name index and persisted schemas, each in its own keyed column.
//! Every operation is all-or-nothing on the store's state.

use crate::json::JsonValue;
use crate::kvmap::{str_eq, IdMap, StrMap};
use crate::schema::{SchemaDefinition, ValidationError};
use crate::types::{Edge, EdgeType, ObjectMetadata, QueryResult, TextChunk};
use vstd::prelude::*;

verus! {

/// Errors surfaced by graph operations.
#[derive(Debug)]
pub enum GraphError {
    /// Schema validation rejected the object; the errors are carried along.
    ValidationFailed(Vec<ValidationError>),
    /// The name index was asked to hold one name twice.
    DuplicateName(String),
    /// A schema file misses a required field or gives it the wrong shape.
    MalformedSchemaFile(String),
}

/// A node's adjacency record: its outgoing and incoming edges.
#[derive(Debug)]
pub struct AdjacencyList {
    pub outgoing: Vec<Edge>,
    pub incoming: Vec<Edge>,
}

impl AdjacencyList {
    pub fn new() -> (r: Self)
        ensures
            r.outgoing@ == Seq::<Edge>::empty(),
            r.incoming@ == Seq::<Edge>::empty(),
    {
        AdjacencyList { outgoing: Vec::new(), incoming: Vec::new() }
    }
}

/// Counts over the whole store.
#[derive(Debug, Clone, PartialEq, Eq)]
pub struct GraphStats {
    pub node_count: usize,
    pub edge_count: usize,
    pub chunk_count: usize,
    pub total_tokens: usize,
}

/// The composite key of the per-type name index.
pub open spec fn spec_name_key(object_type: Seq<char>, name: Seq<char>) -> Seq<char> {
    object_type + ":"@ + name
}

/// Builds the composite name-index key.
pub fn make_name_key(object_type: &str, name: &str) -> (r: String)
    ensures
        r@ == spec_name_key(object_type@, name@),
{
    let mut k: String = object_type.to_owned();
    k.append(":");
    k.append(name);
    k
}

/// The outgoing edges recorded for a node (empty when it has no record).
pub open spec fn out_edges(adjacency: Map<u128, AdjacencyList>, id: u128) -> Seq<Edge> {
    if adjacency.contains_key(id) {
        adjacency[id].outgoing@
    } else {
        Seq::empty()
    }
}

/// The incoming edges recorded for a node (empty when it has no record).
pub open spec fn in_edges(adjacency: Map<u128, AdjacencyList>, id: u128) -> Seq<Edge> {
    if adjacency.contains_key(id) {
        adjacency[id].incoming@
    } else {
        Seq::empty()
    }
}

/// Whether `x` is a neighbor of `id` in the adjacency map: the target of a
/// recorded outgoing edge or the source of a recorded incoming one.
pub open spec fn spec_is_neighbor(adjacency: Map<u128, AdjacencyList>, id: u128, x: u128) -> bool {
    (exists|i: int| 0 <= i < out_edges(adjacency, id).len() && #[trigger] out_edges(adjacency, id)[i].to
        == x) || (exists|i: int|
        0 <= i < in_edges(adjacency, id).len() && #[trigger] in_edges(adjacency, id)[i].from == x)
}

/// The persistent graph store.
pub struct KnowledgeGraphStorage {
    pub nodes: IdMap<ObjectMetadata>,
    pub adjacency: IdMap<AdjacencyList>,
    pub chunks: IdMap<TextChunk>,
    pub names: StrMap<u128>,
    pub schemas: StrMap<SchemaDefinition>,
}

/// An adjacency record is anchored at its node: outgoing edges start at it,
/// incoming edges end at it.
pub open spec fn spec_adj_anchored(k: u128, adj: AdjacencyList) -> bool {
    (forall|i: int| 0 <= i < adj.outgoing@.len() ==> (#[trigger] adj.outgoing@[i]).from == k)
        && (forall|i: int| 0 <= i < adj.incoming@.len() ==> (#[trigger] adj.incoming@[i]).to == k)
}

impl KnowledgeGraphStorage {
    pub open spec fn wf(&self) -> bool {
        &&& self.nodes.wf()
        &&& self.adjacency.wf()
        &&& self.chunks.wf()
        &&& self.names.wf()
        &&& self.schemas.wf()
        &&& forall|k: u128| self.nodes@.contains_key(k) ==> (#[trigger] self.nodes@[k]).wf()
        &&& forall|k: u128| self.nodes@.contains_key(k) ==> (#[trigger] self.nodes@[k]).id == k
        &&& forall|k: Seq<char>|
            self.schemas@.contains_key(k) ==> (#[trigger] self.schemas@[k]).wf()
        &&& forall|k: Seq<char>|
            self.schemas@.contains_key(k) ==> (#[trigger] self.schemas@[k]).name@ == k
        &&& forall|k: u128|
            self.adjacency@.contains_key(k) ==> spec_adj_anchored(k, #[trigger] self.adjacency@[k])
    }

    /// An empty store.
    pub fn new() -> (r: Self)
        ensures
            r.wf(),
            r.nodes@ == Map::<u128, ObjectMetadata>::empty(),
            r.adjacency@ == Map::<u128, AdjacencyList>::empty(),
            r.chunks@ == Map::<u128, TextChunk>::empty(),
            r.names@ == Map::<Seq<char>, u128>::empty(),
            r.schemas@ == Map::<Seq<char>, SchemaDefinition>::empty(),
    {
        KnowledgeGraphStorage {
            nodes: IdMap::new(),
            adjacency: IdMap::new(),
            chunks: IdMap::new(),
            names: StrMap::new(),
            schemas: StrMap::new(),
        }
    }

    /// Writes the object under its id and indexes it under its type and
    /// name, atomically.
    pub fn upsert_node(&mut self, metadata: ObjectMetadata) -> (r: Result<(), GraphError>)
        requires
            old(self).wf(),
            metadata.wf(),
        ensures
            r is Ok,
            final(self).wf(),
            final(self).nodes@ == old(self).nodes@.insert(metadata.id, metadata),
            final(self).names@ == old(self).names@.insert(
                spec_name_key(metadata.object_type@, metadata.name@),
                metadata.id,
            ),
            final(self).adjacency == old(self).adjacency,
            final(self).chunks == old(self).chunks,
            final(self).schemas == old(self).schemas,
    {
        let name_key = make_name_key(metadata.object_type.as_str(), metadata.name.as_str());
        let id = metadata.id;
        self.names.insert(name_key, id);
        self.nodes.insert(id, metadata);
        Ok(())
    }

    /// Direct lookup of a node by id.
    pub fn get_node(&self, id: u128) -> (r: Option<&ObjectMetadata>)
        requires
            self.wf(),
        ensures
            r matches Some(v) ==> self.nodes@.contains_key(id) && *v == self.nodes@[id] && v.wf(),
            r is None ==> !self.nodes@.contains_key(id),
    {
        self.nodes.get(id)
    }

    /// All stored objects, in column order.
    pub fn get_all_objects(&self) -> (r: Vec<&ObjectMetadata>)
        requires
            self.wf(),
        ensures
            r@.len() == self.nodes.entries@.len(),
            forall|i: int| 0 <= i < r@.len() ==> *(#[trigger] r@[i]) == self.nodes.entries@[i].1,
    {
        let mut out: Vec<&ObjectMetadata> = Vec::new();
        let mut i: usize = 0;
        while i < self.nodes.num_entries()
            invariant
                i <= self.nodes.entries@.len(),
                out@.len() == i,
                forall|j: int| 0 <= j < i ==> *(#[trigger] out@[j]) == self.nodes.entries@[j].1,
            decreases self.nodes.entries@.len() - i,
        {
            let (_, v) = self.nodes.entry_at(i);
            out.push(v);
            i = i + 1;
        }
        out
    }

    /// Exact name lookup through the per-type name index: at most one
    /// object, the last writer of the composite key.
    pub fn find_nodes_by_name(&self, object_type: &str, name: &str) -> (r: Vec<&ObjectMetadata>)
        requires
            self.wf(),
        ensures
            ({
                let key = spec_name_key(object_type@, name@);
                if self.names@.contains_key(key) && self.nodes@.contains_key(self.names@[key]) {
                    r@.len() == 1 && *r@[0] == self.nodes@[self.names@[key]]
                } else {
                    r@.len() == 0
                }
            }),
    {
        let key = make_name_key(object_type, name);
        let mut results: Vec<&ObjectMetadata> = Vec::new();
        match self.names.get(key.as_str()) {
            Some(id) => {
                match self.nodes.get(*id) {
                    Some(node) => {
                        results.push(node);
                    },
                    None => {},
                }
            },
            None => {},
        }
        results
    }

    /// Adds a text chunk under its own id.
    pub fn upsert_chunk(&mut self, chunk: TextChunk) -> (r: Result<(), GraphError>)
        requires
            old(self).wf(),
        ensures
            r is Ok,
            final(self).wf(),
            final(self).chunks@ == old(self).chunks@.insert(chunk.id, chunk),
            final(self).nodes == old(self).nodes,
            final(self).adjacency == old(self).adjacency,
            final(self).names == old(self).names,
            final(self).schemas == old(self).schemas,
    {
        self.chunks.insert(chunk.id, chunk);
        Ok(())
    }

    /// All chunks owned by the node, in column order.
    pub fn get_chunks_for_node(&self, node_id: u128) -> (r: Vec<&TextChunk>)
        requires
            self.wf(),
        ensures
            r@.map_values(|c: &TextChunk| *c) == self.chunks.entries@.map_values(
                |p: (u128, TextChunk)| p.1,
            ).filter(|c: TextChunk| c.object_id == node_id),
    {
        let mut out: Vec<&TextChunk> = Vec::new();
        let mut i: usize = 0;
        proof {
            assert(self.chunks.entries@.take(0).map_values(|p: (u128, TextChunk)| p.1).filter(
                |c: TextChunk| c.object_id == node_id,
            ) =~= Seq::<TextChunk>::empty());
            assert(out@.map_values(|c: &TextChunk| *c) =~= Seq::<TextChunk>::empty());
        }
        while i < self.chunks.num_entries()
            invariant
                i <= self.chunks.entries@.len(),
                out@.map_values(|c: &TextChunk| *c) == self.chunks.entries@.take(i as int)
                    .map_values(|p: (u128, TextChunk)| p.1).filter(
                    |c: TextChunk| c.object_id == node_id,
                ),
            decreases self.chunks.entries@.len() - i,
        {
            let ghost prev_out = out@;
            let (_, c) = self.chunks.entry_at(i);
            if c.object_id == node_id {
                out.push(c);
            }
            proof {
                let pred = |c: TextChunk| c.object_id == node_id;
                let elem = self.chunks.entries@[i as int].1;
                let prefix_m = self.chunks.entries@.take(i as int).map_values(
                    |p: (u128, TextChunk)| p.1,
                );
                let next_m = self.chunks.entries@.take(i + 1).map_values(
                    |p: (u128, TextChunk)| p.1,
                );
                assert(next_m =~= prefix_m.push(elem));
                assert(next_m.drop_last() =~= prefix_m);
                assert(next_m.last() == elem);
                reveal_with_fuel(Seq::filter, 2);
                if elem.object_id == node_id {
                    assert(next_m.filter(pred) == prefix_m.filter(pred).push(elem));
                    assert(out@.map_values(|c: &TextChunk| *c) =~= prev_out.map_values(
                        |c: &TextChunk| *c,
                    ).push(elem));
                } else {
                    assert(next_m.filter(pred) == prefix_m.filter(pred));
                }
            }
            i = i + 1;
        }
        proof {
            assert(self.chunks.entries@.take(self.chunks.entries@.len() as int)
                =~= self.chunks.entries@);
        }
        out
    }

    /// All edges recorded for a node: its outgoing edges, then its incoming
    /// ones. An edge both from and to the node appears twice by design.
    pub fn get_edges(&self, node_id: u128) -> (r: Vec<&Edge>)
        requires
            self.wf(),
        ensures
            ({
                let out = out_edges(self.adjacency@, node_id);
                let inc = in_edges(self.adjacency@, node_id);
                r@.len() == out.len() + inc.len() && (forall|i: int|
                    0 <= i < out.len() ==> *(#[trigger] r@[i]) == out[i]) && (forall|i: int|
                    0 <= i < inc.len() ==> *(#[trigger] r@[out.len() + i]) == inc[i])
            }),
    {
        let mut out: Vec<&Edge> = Vec::new();
        match self.adjacency.get(node_id) {
            Some(adj) => {
                let mut i: usize = 0;
                while i < adj.outgoing.len()
                    invariant
                        i <= adj.outgoing@.len(),
                        out@.len() == i,
                        forall|j: int| 0 <= j < i ==> *(#[trigger] out@[j]) == adj.outgoing@[j],
                    decreases adj.outgoing@.len() - i,
                {
                    out.push(&adj.outgoing[i]);
                    i = i + 1;
                }
                let n = adj.outgoing.len();
                let mut k: usize = 0;
                while k < adj.incoming.len()
                    invariant
                        k <= adj.incoming@.len(),
                        out@.len() == n + k,
                        n == adj.outgoing@.len(),
                        forall|j: int| 0 <= j < n ==> *(#[trigger] out@[j]) == adj.outgoing@[j],
                        forall|j: int|
                            0 <= j < k ==> *(#[trigger] out@[n + j]) == adj.incoming@[j],
                    decreases adj.incoming@.len() - k,
                {
                    out.push(&adj.incoming[k]);
                    k = k + 1;
                }
            },
            None => {},
        }
        out
    }

    /// The node's neighbors: sources and targets of its recorded edges,
    /// strictly ascending and therefore duplicate-free.
    pub fn get_neighbors(&self, node_id: u128) -> (r: Vec<u128>)
        requires
            self.wf(),
        ensures
            forall|i: int, j: int| 0 <= i < j < r@.len() ==> r@[i] < r@[j],
            forall|x: u128| r@.contains(x) <==> spec_is_neighbor(self.adjacency@, node_id, x),
    {
        let mut r: Vec<u128> = Vec::new();
        match self.adjacency.get(node_id) {
            Some(adj) => {
                let ghost outs = adj.outgoing@;
                let ghost incs = adj.incoming@;
                let mut i: usize = 0;
                while i < adj.outgoing.len()
                    invariant
                        i <= outs.len(),
                        adj.outgoing@ == outs,
                        forall|a: int, b: int| 0 <= a < b < r@.len() ==> r@[a] < r@[b],
                        forall|x: u128|
                            r@.contains(x) <==> exists|j: int|
                                0 <= j < i && #[trigger] outs[j].to == x,
                    decreases outs.len() - i,
                {
                    insert_sorted_unique(&mut r, adj.outgoing[i].to);
                    proof {
                        assert(outs[i as int].to == adj.outgoing@[i as int].to);
                        assert forall|x: u128| r@.contains(x) implies exists|j: int|
                            0 <= j < i + 1 && #[trigger] outs[j].to == x by {
                            if x == outs[i as int].to {
                                assert(outs[i as int].to == x);
                            }
                        }
                    }
                    i = i + 1;
                }
                let mut k: usize = 0;
                while k < adj.incoming.len()
                    invariant
                        k <= incs.len(),
                        adj.incoming@ == incs,
                        adj.outgoing@ == outs,
                        forall|a: int, b: int| 0 <= a < b < r@.len() ==> r@[a] < r@[b],
                        forall|x: u128|
                            r@.contains(x) <==> (exists|j: int|
                                0 <= j < outs.len() && #[trigger] outs[j].to == x) || (exists|j: int|
                                0 <= j < k && #[trigger] incs[j].from == x),
                    decreases incs.len() - k,
                {
                    insert_sorted_unique(&mut r, adj.incoming[k].from);
                    proof {
                        assert forall|x: u128| r@.contains(x) implies (exists|j: int|
                            0 <= j < outs.len() && #[trigger] outs[j].to == x) || (exists|j: int|
                            0 <= j < k + 1 && #[trigger] incs[j].from == x) by {
                            if x == incs[k as int].from {
                                assert(incs[k as int].from == x);
                            }
                        }
                    }
                    k = k + 1;
                }
                proof {
                    assert(out_edges(self.adjacency@, node_id) == outs);
                    assert(in_edges(self.adjacency@, node_id) == incs);
                }
            },
            None => {
                proof {
                    assert(out_edges(self.adjacency@, node_id).len() == 0);
                    assert(in_edges(self.adjacency@, node_id).len() == 0);
                }
            },
        }
        r
    }
}

impl KnowledgeGraphStorage {
    /// A persisted schema, by name.
    pub fn get_schema(&self, name: &str) -> (r: Option<&SchemaDefinition>)
        requires
            self.wf(),
        ensures
            r matches Some(s) ==> self.schemas@.contains_key(name@) && *s == self.schemas@[name@]
                && s.wf(),
            r is None ==> !self.schemas@.contains_key(name@),
    {
        self.schemas.get(name)
    }

    /// Persists a schema under its name.
    pub fn save_schema(&mut self, schema: SchemaDefinition) -> (r: Result<(), GraphError>)
        requires
            old(self).wf(),
            schema.wf(),
        ensures
            r is Ok,
            final(self).wf(),
            final(self).schemas@ == old(self).schemas@.insert(schema.name@, schema),
            final(self).nodes == old(self).nodes,
            final(self).adjacency == old(self).adjacency,
            final(self).chunks == old(self).chunks,
            final(self).names == old(self).names,
    {
        let key = schema.name.clone();
        self.schemas.insert(key, schema);
        Ok(())
    }

    /// Removes and returns a persisted schema, if present.
    pub fn take_schema(&mut self, name: &str) -> (r: Option<SchemaDefinition>)
        requires
            old(self).wf(),
        ensures
            final(self).wf(),
            final(self).schemas@ == old(self).schemas@.remove(name@),
            final(self).nodes == old(self).nodes,
            final(self).adjacency == old(self).adjacency,
            final(self).chunks == old(self).chunks,
            final(self).names == old(self).names,
            r matches Some(s) ==> old(self).schemas@.contains_key(name@) && s == old(
                self,
            ).schemas@[name@] && s.wf(),
            r is None ==> !old(self).schemas@.contains_key(name@),
    {
        self.schemas.take(name)
    }

    /// Deletes a persisted schema.
    pub fn delete_schema(&mut self, name: &str) -> (r: Result<(), GraphError>)
        requires
            old(self).wf(),
        ensures
            r is Ok,
            final(self).wf(),
            final(self).schemas@ == old(self).schemas@.remove(name@),
            final(self).nodes == old(self).nodes,
            final(self).adjacency == old(self).adjacency,
            final(self).chunks == old(self).chunks,
            final(self).names == old(self).names,
    {
        self.schemas.remove(name);
        Ok(())
    }

    /// The names of all persisted schemas, in column order.
    pub fn list_schemas(&self) -> (r: Vec<String>)
        requires
            self.wf(),
        ensures
            r@.len() == self.schemas.entries@.len(),
            forall|i: int|
                0 <= i < r@.len() ==> (#[trigger] r@[i])@ == self.schemas.entries@[i].0@,
            forall|i: int|
                0 <= i < r@.len() ==> self.schemas@.contains_key((#[trigger] r@[i])@),
    {
        proof {
            self.schemas.lemma_entries_in_view();
        }
        let mut out: Vec<String> = Vec::new();
        let mut i: usize = 0;
        while i < self.schemas.num_entries()
            invariant
                self.schemas.wf(),
                i <= self.schemas.entries@.len(),
                out@.len() == i,
                forall|j: int|
                    0 <= j < i ==> (#[trigger] out@[j])@ == self.schemas.entries@[j].0@,
            decreases self.schemas.entries@.len() - i,
        {
            let (k, _) = self.schemas.entry_at(i);
            out.push(k.clone());
            i = i + 1;
        }
        proof {
            assert forall|i2: int| 0 <= i2 < out@.len() implies self.schemas@.contains_key(
                (#[trigger] out@[i2])@,
            ) by {
                self.schemas.lemma_entries_in_view();
            }
        }
        out
    }
}

/// Whether an outgoing entry records the same (target, kind) pair.
pub open spec fn spec_matches_out(e: Edge, to: u128, t: EdgeType) -> bool {
    e.to == to && EdgeType::spec_same(e.edge_type, t)
}

/// Whether an incoming entry records the same (source, kind) pair.
pub open spec fn spec_matches_in(e: Edge, from: u128, t: EdgeType) -> bool {
    e.from == from && EdgeType::spec_same(e.edge_type, t)
}

/// The outgoing entries left after dropping those with the (target, kind)
/// pair, in order.
pub open spec fn spec_retain_out(s: Seq<Edge>, to: u128, t: EdgeType) -> Seq<Edge>
    decreases s.len(),
{
    if s.len() == 0 {
        Seq::empty()
    } else if spec_matches_out(s[0], to, t) {
        spec_retain_out(s.drop_first(), to, t)
    } else {
        seq![s[0]] + spec_retain_out(s.drop_first(), to, t)
    }
}

/// The incoming entries left after dropping those with the (source, kind)
/// pair, in order.
pub open spec fn spec_retain_in(s: Seq<Edge>, from: u128, t: EdgeType) -> Seq<Edge>
    decreases s.len(),
{
    if s.len() == 0 {
        Seq::empty()
    } else if spec_matches_in(s[0], from, t) {
        spec_retain_in(s.drop_first(), from, t)
    } else {
        seq![s[0]] + spec_retain_in(s.drop_first(), from, t)
    }
}

/// Whether the adjacency column records an edge from f to t under an edge
/// kind of this name, on both sides: in f's outgoing list and in t's
/// incoming list.
pub open spec fn spec_adj_connected(
    adj: Map<u128, AdjacencyList>,
    f: u128,
    t: u128,
    kname: Seq<char>,
) -> bool {
    &&& (exists|i: int|
        0 <= i < out_edges(adj, f).len() && ((#[trigger] out_edges(adj, f)[i]).from == f
            && out_edges(adj, f)[i].to == t && out_edges(adj, f)[i].edge_type.spec_name() == kname))
    &&& (exists|i: int|
        0 <= i < edge_views(in_edges(adj, t)).len() && ((#[trigger] edge_views(in_edges(adj, t))[i]).from
            == f && edge_views(in_edges(adj, t))[i].to == t && edge_views(
            in_edges(adj, t),
        )[i].edge_type.spec_name() == kname))
}

/// An outgoing entry that does not match the dropped (target, kind) pair
/// survives the retain.
pub proof fn lemma_retain_out_keeps(s: Seq<Edge>, to: u128, t: EdgeType, i: int)
    requires
        0 <= i < s.len(),
        !spec_matches_out(s[i], to, t),
    ensures
        exists|j: int|
            0 <= j < spec_retain_out(s, to, t).len() && #[trigger] spec_retain_out(s, to, t)[j]
                == s[i],
    decreases s.len(),
{
    if i == 0 {
        assert(spec_retain_out(s, to, t)[0] == s[0]);
    } else {
        lemma_retain_out_keeps(s.drop_first(), to, t, i - 1);
        let j = choose|j: int|
            0 <= j < spec_retain_out(s.drop_first(), to, t).len() && #[trigger] spec_retain_out(
                s.drop_first(),
                to,
                t,
            )[j] == s.drop_first()[i - 1];
        assert(s.drop_first()[i - 1] == s[i]);
        if spec_matches_out(s[0], to, t) {
            assert(spec_retain_out(s, to, t)[j] == s[i]);
        } else {
            assert(spec_retain_out(s, to, t)[j + 1] == s[i]);
        }
    }
}

/// The symmetric fact for incoming entries.
pub proof fn lemma_retain_in_keeps(s: Seq<Edge>, from: u128, t: EdgeType, i: int)
    requires
        0 <= i < s.len(),
        !spec_matches_in(s[i], from, t),
    ensures
        exists|j: int|
            0 <= j < spec_retain_in(s, from, t).len() && #[trigger] spec_retain_in(s, from, t)[j]
                == s[i],
    decreases s.len(),
{
    if i == 0 {
        assert(spec_retain_in(s, from, t)[0] == s[0]);
    } else {
        lemma_retain_in_keeps(s.drop_first(), from, t, i - 1);
        let j = choose|j: int|
            0 <= j < spec_retain_in(s.drop_first(), from, t).len() && #[trigger] spec_retain_in(
                s.drop_first(),
                from,
                t,
            )[j] == s.drop_first()[i - 1];
        assert(s.drop_first()[i - 1] == s[i]);
        if spec_matches_in(s[0], from, t) {
            assert(spec_retain_in(s, from, t)[j] == s[i]);
        } else {
            assert(spec_retain_in(s, from, t)[j + 1] == s[i]);
        }
    }
}

/// Edge kinds that count as the same share a name.
proof fn lemma_same_kind_same_name(a: EdgeType, b: EdgeType)
    requires
        EdgeType::spec_same(a, b),
    ensures
        a.spec_name() == b.spec_name(),
{
}

/// One edge upsert keeps every recorded connection: a connection present
/// before an upsert, on whatever pair of nodes, is still present after it.
pub proof fn lemma_adj_connected_preserved(
    pre: Map<u128, AdjacencyList>,
    post: Map<u128, AdjacencyList>,
    e: Edge,
    f: u128,
    t: u128,
    kname: Seq<char>,
)
    requires
        spec_adj_connected(pre, f, t, kname),
        post.dom() == pre.dom().insert(e.from).insert(e.to),
        forall|k: u128| k != e.from && k != e.to && pre.contains_key(k) ==> #[trigger] post[k] == pre[k],
        e.from != e.to ==> out_edges(post, e.from) == spec_retain_out(
            out_edges(pre, e.from),
            e.to,
            e.edge_type,
        ).push(e),
        e.from != e.to ==> in_edges(post, e.from) == in_edges(pre, e.from),
        e.from != e.to ==> out_edges(post, e.to) == out_edges(pre, e.to),
        e.from != e.to ==> edge_views(in_edges(post, e.to)) == edge_views(
            spec_retain_in(in_edges(pre, e.to), e.from, e.edge_type),
        ).push(e@),
        e.from == e.to ==> out_edges(post, e.from) == spec_retain_out(
            out_edges(pre, e.from),
            e.to,
            e.edge_type,
        ).push(e),
        e.from == e.to ==> edge_views(in_edges(post, e.from)) == edge_views(
            spec_retain_in(in_edges(pre, e.from), e.from, e.edge_type),
        ).push(e@),
    ensures
        spec_adj_connected(post, f, t, kname),
{
    let outs_pre = out_edges(pre, f);
    let i = choose|i: int|
        0 <= i < outs_pre.len() && ((#[trigger] outs_pre[i]).from == f && outs_pre[i].to == t
            && outs_pre[i].edge_type.spec_name() == kname);
    let x = outs_pre[i];
    if f == e.from {
        if spec_matches_out(x, e.to, e.edge_type) {
            lemma_same_kind_same_name(x.edge_type, e.edge_type);
            let outs = out_edges(post, e.from);
            assert(outs[outs.len() - 1] == e);
        } else {
            lemma_retain_out_keeps(outs_pre, e.to, e.edge_type, i);
            let j = choose|j: int|
                0 <= j < spec_retain_out(outs_pre, e.to, e.edge_type).len()
                    && #[trigger] spec_retain_out(outs_pre, e.to, e.edge_type)[j] == x;
            assert(out_edges(post, e.from)[j] == x);
        }
    } else {
        assert(pre.contains_key(f));
        assert(out_edges(post, f) == outs_pre);
    }
    let ins_pre = in_edges(pre, t);
    let vi = choose|i: int|
        0 <= i < edge_views(ins_pre).len() && ((#[trigger] edge_views(ins_pre)[i]).from == f
            && edge_views(ins_pre)[i].to == t && edge_views(ins_pre)[i].edge_type.spec_name()
            == kname);
    let y = ins_pre[vi];
    if t == e.to {
        if spec_matches_in(y, e.from, e.edge_type) {
            lemma_same_kind_same_name(y.edge_type, e.edge_type);
            let ins = edge_views(in_edges(post, e.to));
            assert(ins[ins.len() - 1] == e@);
        } else {
            lemma_retain_in_keeps(ins_pre, e.from, e.edge_type, vi);
            let j = choose|j: int|
                0 <= j < spec_retain_in(ins_pre, e.from, e.edge_type).len()
                    && #[trigger] spec_retain_in(ins_pre, e.from, e.edge_type)[j] == y;
            assert(edge_views(in_edges(post, e.to))[j] == y@);
        }
    } else {
        assert(pre.contains_key(t));
        assert(in_edges(post, t) == ins_pre);
    }
}

/// Nothing matching survives the retain, and survivors are kept verbatim.
pub proof fn lemma_retain_out_clean(s: Seq<Edge>, to: u128, t: EdgeType)
    ensures
        forall|i: int|
            0 <= i < spec_retain_out(s, to, t).len() ==> !spec_matches_out(
                #[trigger] spec_retain_out(s, to, t)[i],
                to,
                t,
            ),
        forall|i: int|
            0 <= i < spec_retain_out(s, to, t).len() ==> s.contains(
                #[trigger] spec_retain_out(s, to, t)[i],
            ),
    decreases s.len(),
{
    if s.len() > 0 {
        lemma_retain_out_clean(s.drop_first(), to, t);
        assert forall|i: int|
            0 <= i < spec_retain_out(s.drop_first(), to, t).len() implies s.contains(
            #[trigger] spec_retain_out(s.drop_first(), to, t)[i],
        ) by {
            let e = spec_retain_out(s.drop_first(), to, t)[i];
            let j = choose|j: int| 0 <= j < s.drop_first().len() && s.drop_first()[j] == e;
            assert(s[j + 1] == e);
        }
        if !spec_matches_out(s[0], to, t) {
            assert(s.contains(s[0]));
        }
    }
}

/// Nothing matching survives the retain, and survivors are kept verbatim.
pub proof fn lemma_retain_in_clean(s: Seq<Edge>, from: u128, t: EdgeType)
    ensures
        forall|i: int|
            0 <= i < spec_retain_in(s, from, t).len() ==> !spec_matches_in(
                #[trigger] spec_retain_in(s, from, t)[i],
                from,
                t,
            ),
        forall|i: int|
            0 <= i < spec_retain_in(s, from, t).len() ==> s.contains(
                #[trigger] spec_retain_in(s, from, t)[i],
            ),
    decreases s.len(),
{
    if s.len() > 0 {
        lemma_retain_in_clean(s.drop_first(), from, t);
        assert forall|i: int|
            0 <= i < spec_retain_in(s.drop_first(), from, t).len() implies s.contains(
            #[trigger] spec_retain_in(s.drop_first(), from, t)[i],
        ) by {
            let e = spec_retain_in(s.drop_first(), from, t)[i];
            let j = choose|j: int| 0 <= j < s.drop_first().len() && s.drop_first()[j] == e;
            assert(s[j + 1] == e);
        }
        if !spec_matches_in(s[0], from, t) {
            assert(s.contains(s[0]));
        }
    }
}

/// Drops every outgoing entry with the (target, kind) pair, in place.
fn retain_not_matching_out(v: &mut Vec<Edge>, to: u128, t: &EdgeType)
    ensures
        final(v)@ == spec_retain_out(old(v)@, to, *t),
{
    let ghost orig = v@;
    let mut kept: Vec<Edge> = Vec::new();
    while v.len() > 0
        invariant
            spec_retain_out(orig, to, *t) == kept@ + spec_retain_out(v@, to, *t),
        decreases v@.len(),
    {
        let ghost pre = v@;
        let e = v.remove(0);
        proof {
            assert(v@ =~= pre.drop_first());
            assert(e == pre[0]);
        }
        if !(e.to == to && e.edge_type.same_as(t)) {
            proof {
                assert(spec_retain_out(pre, to, *t) == seq![e] + spec_retain_out(v@, to, *t));
            }
            kept.push(e);
            proof {
                assert(kept@.drop_last() + (seq![e] + spec_retain_out(v@, to, *t)) =~= kept@
                    + spec_retain_out(v@, to, *t));
            }
        }
    }
    proof {
        assert(spec_retain_out(v@, to, *t) =~= Seq::<Edge>::empty());
        assert(kept@ + Seq::<Edge>::empty() =~= kept@);
    }
    *v = kept;
}

/// Drops every incoming entry with the (source, kind) pair, in place.
fn retain_not_matching_in(v: &mut Vec<Edge>, from: u128, t: &EdgeType)
    ensures
        final(v)@ == spec_retain_in(old(v)@, from, *t),
{
    let ghost orig = v@;
    let mut kept: Vec<Edge> = Vec::new();
    while v.len() > 0
        invariant
            spec_retain_in(orig, from, *t) == kept@ + spec_retain_in(v@, from, *t),
        decreases v@.len(),
    {
        let ghost pre = v@;
        let e = v.remove(0);
        proof {
            assert(v@ =~= pre.drop_first());
            assert(e == pre[0]);
        }
        if !(e.from == from && e.edge_type.same_as(t)) {
            proof {
                assert(spec_retain_in(pre, from, *t) == seq![e] + spec_retain_in(v@, from, *t));
            }
            kept.push(e);
            proof {
                assert(kept@.drop_last() + (seq![e] + spec_retain_in(v@, from, *t)) =~= kept@
                    + spec_retain_in(v@, from, *t));
            }
        }
    }
    proof {
        assert(spec_retain_in(v@, from, *t) =~= Seq::<Edge>::empty());
        assert(kept@ + Seq::<Edge>::empty() =~= kept@);
    }
    *v = kept;
}

impl KnowledgeGraphStorage {
    /// Adds or replaces the edge, updating both endpoints' adjacency
    /// records atomically. At most one record per (from, to, kind) triple
    /// survives in each list. An edge from a node to itself updates only
    /// the incoming side of its single record.
    pub fn upsert_edge(&mut self, edge: Edge) -> (r: Result<(), GraphError>)
        requires
            old(self).wf(),
            edge.wf(),
        ensures
            r is Ok,
            final(self).wf(),
            final(self).nodes == old(self).nodes,
            final(self).chunks == old(self).chunks,
            final(self).names == old(self).names,
            final(self).schemas == old(self).schemas,
            final(self).adjacency@.dom() == old(self).adjacency@.dom().insert(edge.from).insert(
                edge.to,
            ),
            forall|k: u128|
                k != edge.from && k != edge.to && old(self).adjacency@.contains_key(k)
                    ==> final(self).adjacency@[k] == old(self).adjacency@[k],
            edge.from != edge.to ==> out_edges(final(self).adjacency@, edge.from)
                == spec_retain_out(
                out_edges(old(self).adjacency@, edge.from),
                edge.to,
                edge.edge_type,
            ).push(edge),
            edge.from != edge.to ==> in_edges(final(self).adjacency@, edge.from) == in_edges(
                old(self).adjacency@,
                edge.from,
            ),
            edge.from != edge.to ==> out_edges(final(self).adjacency@, edge.to) == out_edges(
                old(self).adjacency@,
                edge.to,
            ),
            edge.from != edge.to ==> edge_views(in_edges(final(self).adjacency@, edge.to))
                == edge_views(
                spec_retain_in(in_edges(old(self).adjacency@, edge.to), edge.from, edge.edge_type),
            ).push(edge@),
            edge.from == edge.to ==> out_edges(final(self).adjacency@, edge.from)
                == spec_retain_out(
                out_edges(old(self).adjacency@, edge.from),
                edge.to,
                edge.edge_type,
            ).push(edge),
            edge.from == edge.to ==> edge_views(in_edges(final(self).adjacency@, edge.from))
                == edge_views(
                spec_retain_in(in_edges(old(self).adjacency@, edge.from), edge.from, edge.edge_type),
            ).push(edge@),
    {
        let from = edge.from;
        let to = edge.to;
        if from != to {
            let mut from_adj = match self.adjacency.take(from) {
                Some(a) => a,
                None => AdjacencyList::new(),
            };
            let mut to_adj = match self.adjacency.take(to) {
                Some(a) => a,
                None => AdjacencyList::new(),
            };
            retain_not_matching_out(&mut from_adj.outgoing, to, &edge.edge_type);
            retain_not_matching_in(&mut to_adj.incoming, from, &edge.edge_type);
            let copy = edge.clone();
            to_adj.incoming.push(copy);
            proof {
                assert(to_adj.incoming@.drop_last() =~= spec_retain_in(
                    in_edges(old(self).adjacency@, to),
                    from,
                    edge.edge_type,
                ));
                assert(edge_views(to_adj.incoming@) =~= edge_views(
                    to_adj.incoming@.drop_last(),
                ).push(edge@));
            }
            from_adj.outgoing.push(edge);
            self.adjacency.insert(from, from_adj);
            self.adjacency.insert(to, to_adj);
            proof {
                assert(self.adjacency@.dom() =~= old(self).adjacency@.dom().insert(from).insert(
                    to,
                ));
                let old_adj = old(self).adjacency@;
                assert forall|k: u128| self.adjacency@.contains_key(k) implies spec_adj_anchored(
                    k,
                    #[trigger] self.adjacency@[k],
                ) by {
                    if k == to {
                        lemma_retain_in_clean(in_edges(old_adj, to), from, edge.edge_type);
                        let inc = self.adjacency@[k].incoming@;
                        assert forall|i: int| 0 <= i < inc.len() implies (#[trigger] inc[i]).to
                            == k by {
                            if i < inc.len() - 1 {
                                let e = spec_retain_in(in_edges(old_adj, to), from, edge.edge_type)[i];
                                assert(in_edges(old_adj, to).contains(e));
                                let j = choose|j: int|
                                    0 <= j < in_edges(old_adj, to).len() && in_edges(old_adj, to)[j]
                                        == e;
                                assert(old_adj.contains_key(to));
                                assert(spec_adj_anchored(to, old_adj[to]));
                            } else {
                                assert(inc[i].to == edge.to);
                            }
                        }
                        assert(self.adjacency@[k].outgoing@ == out_edges(old_adj, to));
                        assert forall|i: int|
                            0 <= i < self.adjacency@[k].outgoing@.len() implies (
                        #[trigger] self.adjacency@[k].outgoing@[i]).from == k by {
                            assert(old_adj.contains_key(to));
                        }
                    } else if k == from {
                        lemma_retain_out_clean(out_edges(old_adj, from), to, edge.edge_type);
                        let outs = self.adjacency@[k].outgoing@;
                        assert forall|i: int| 0 <= i < outs.len() implies (#[trigger] outs[i]).from
                            == k by {
                            if i < outs.len() - 1 {
                                let e = spec_retain_out(
                                    out_edges(old_adj, from),
                                    to,
                                    edge.edge_type,
                                )[i];
                                assert(out_edges(old_adj, from).contains(e));
                                let j = choose|j: int|
                                    0 <= j < out_edges(old_adj, from).len() && out_edges(
                                        old_adj,
                                        from,
                                    )[j] == e;
                                assert(old_adj.contains_key(from));
                                assert(spec_adj_anchored(from, old_adj[from]));
                            }
                        }
                        assert(self.adjacency@[k].incoming@ == in_edges(old_adj, from));
                        assert forall|i: int|
                            0 <= i < self.adjacency@[k].incoming@.len() implies (
                        #[trigger] self.adjacency@[k].incoming@[i]).to == k by {
                            assert(old_adj.contains_key(from));
                        }
                    } else {
                        assert(old_adj.contains_key(k));
                        assert(self.adjacency@[k] == old_adj[k]);
                    }
                }
            }
        } else {
            let mut adj = match self.adjacency.take(from) {
                Some(a) => a,
                None => AdjacencyList::new(),
            };
            retain_not_matching_out(&mut adj.outgoing, to, &edge.edge_type);
            retain_not_matching_in(&mut adj.incoming, from, &edge.edge_type);
            let copy = edge.clone();
            adj.incoming.push(copy);
            proof {
                assert(adj.incoming@.drop_last() =~= spec_retain_in(
                    in_edges(old(self).adjacency@, from),
                    from,
                    edge.edge_type,
                ));
                assert(edge_views(adj.incoming@) =~= edge_views(
                    adj.incoming@.drop_last(),
                ).push(edge@));
            }
            adj.outgoing.push(edge);
            self.adjacency.insert(from, adj);
            proof {
                assert(self.adjacency@.dom() =~= old(self).adjacency@.dom().insert(from).insert(
                    to,
                ));
                let old_adj = old(self).adjacency@;
                assert forall|k: u128| self.adjacency@.contains_key(k) implies spec_adj_anchored(
                    k,
                    #[trigger] self.adjacency@[k],
                ) by {
                    if k == from {
                        lemma_retain_in_clean(in_edges(old_adj, from), from, edge.edge_type);
                        lemma_retain_out_clean(out_edges(old_adj, from), to, edge.edge_type);
                        let inc = self.adjacency@[k].incoming@;
                        assert forall|i: int| 0 <= i < inc.len() implies (#[trigger] inc[i]).to
                            == k by {
                            if i < inc.len() - 1 {
                                let e = spec_retain_in(
                                    in_edges(old_adj, from),
                                    from,
                                    edge.edge_type,
                                )[i];
                                assert(in_edges(old_adj, from).contains(e));
                                let j = choose|j: int|
                                    0 <= j < in_edges(old_adj, from).len() && in_edges(
                                        old_adj,
                                        from,
                                    )[j] == e;
                                assert(old_adj.contains_key(from));
                                assert(spec_adj_anchored(from, old_adj[from]));
                            } else {
                                assert(inc[i].to == edge.to);
                            }
                        }
                        let outs = self.adjacency@[k].outgoing@;
                        assert forall|i: int| 0 <= i < outs.len() implies (#[trigger] outs[i]).from
                            == k by {
                            if i < outs.len() - 1 {
                                let e = spec_retain_out(
                                    out_edges(old_adj, from),
                                    to,
                                    edge.edge_type,
                                )[i];
                                assert(out_edges(old_adj, from).contains(e));
                                let j = choose|j: int|
                                    0 <= j < out_edges(old_adj, from).len() && out_edges(
                                        old_adj,
                                        from,
                                    )[j] == e;
                                assert(old_adj.contains_key(from));
                                assert(spec_adj_anchored(from, old_adj[from]));
                            }
                        }
                    } else {
                        assert(old_adj.contains_key(k));
                        assert(self.adjacency@[k] == old_adj[k]);
                    }
                }
            }
        }
        Ok(())
    }
}

/// The views of a sequence of edges.
pub open spec fn edge_views(s: Seq<Edge>) -> Seq<crate::types::EdgeView> {
    s.map_values(|e: Edge| e@)
}

/// The adjacency column after one upsert of a fresh edge of this kind and
/// weight with empty metadata: the two endpoint records are the old ones
/// with the matching entry dropped and the new edge appended, every other
/// record is untouched, and an edge from a node to itself lands in both
/// lists of its single record.
pub open spec fn spec_connected(
    pre: Map<u128, AdjacencyList>,
    post: Map<u128, AdjacencyList>,
    from: u128,
    to: u128,
    t: EdgeType,
    weight_bits: u32,
) -> bool {
    &&& post.dom() == pre.dom().insert(from).insert(to)
    &&& (forall|k: u128|
        pre.contains_key(k) && k != from && k != to ==> #[trigger] post[k] == pre[k])
    &&& (from != to ==> {
        let outs = out_edges(post, from);
        let ins = in_edges(post, to);
        &&& outs.len() > 0
        &&& outs.last().from == from
        &&& outs.last().to == to
        &&& outs.last().edge_type == t
        &&& outs.last().weight_bits == weight_bits
        &&& outs.last().metadata@ == Map::<Seq<char>, String>::empty()
        &&& outs.drop_last() == spec_retain_out(out_edges(pre, from), to, t)
        &&& edge_views(ins) == edge_views(spec_retain_in(in_edges(pre, to), from, t)).push(
            outs.last()@,
        )
        &&& in_edges(post, from) == in_edges(pre, from)
        &&& out_edges(post, to) == out_edges(pre, to)
    })
    &&& (from == to ==> {
        let outs = out_edges(post, from);
        let ins = in_edges(post, from);
        &&& outs.len() > 0
        &&& outs.last().from == from
        &&& outs.last().to == to
        &&& outs.last().edge_type == t
        &&& outs.last().weight_bits == weight_bits
        &&& outs.last().metadata@ == Map::<Seq<char>, String>::empty()
        &&& outs.drop_last() == spec_retain_out(out_edges(pre, from), from, t)
        &&& edge_views(ins) == edge_views(spec_retain_in(in_edges(pre, from), from, t)).push(
            outs.last()@,
        )
    })
}

/// Saturating total of outgoing entries over adjacency records.
pub open spec fn spec_sat_sum_out(entries: Seq<(u128, AdjacencyList)>) -> usize
    decreases entries.len(),
{
    if entries.len() == 0 {
        0
    } else {
        crate::types::spec_sat_add(
            spec_sat_sum_out(entries.drop_last()),
            entries.last().1.outgoing@.len() as usize,
        )
    }
}

/// Saturating total of token counts over chunk records.
pub open spec fn spec_sat_sum_tokens(entries: Seq<(u128, TextChunk)>) -> usize
    decreases entries.len(),
{
    if entries.len() == 0 {
        0
    } else {
        crate::types::spec_sat_add(
            spec_sat_sum_tokens(entries.drop_last()),
            entries.last().1.token_count,
        )
    }
}

/// The edges left after dropping those pointing at the removed node.
pub open spec fn spec_drop_to(s: Seq<Edge>, id: u128) -> Seq<Edge>
    decreases s.len(),
{
    if s.len() == 0 {
        Seq::empty()
    } else if s[0].to == id {
        spec_drop_to(s.drop_first(), id)
    } else {
        seq![s[0]] + spec_drop_to(s.drop_first(), id)
    }
}

/// The edges left after dropping those coming from the removed node.
pub open spec fn spec_drop_from(s: Seq<Edge>, id: u128) -> Seq<Edge>
    decreases s.len(),
{
    if s.len() == 0 {
        Seq::empty()
    } else if s[0].from == id {
        spec_drop_from(s.drop_first(), id)
    } else {
        seq![s[0]] + spec_drop_from(s.drop_first(), id)
    }
}

/// No surviving edge points at the removed node, and survivors are kept
/// verbatim.
pub proof fn lemma_drop_to_clean(s: Seq<Edge>, id: u128)
    ensures
        forall|i: int|
            0 <= i < spec_drop_to(s, id).len() ==> (#[trigger] spec_drop_to(s, id)[i]).to != id,
        forall|i: int|
            0 <= i < spec_drop_to(s, id).len() ==> s.contains(#[trigger] spec_drop_to(s, id)[i]),
    decreases s.len(),
{
    if s.len() > 0 {
        lemma_drop_to_clean(s.drop_first(), id);
        assert forall|i: int| 0 <= i < spec_drop_to(s.drop_first(), id).len() implies s.contains(
            #[trigger] spec_drop_to(s.drop_first(), id)[i],
        ) by {
            let e = spec_drop_to(s.drop_first(), id)[i];
            let j = choose|j: int| 0 <= j < s.drop_first().len() && s.drop_first()[j] == e;
            assert(s[j + 1] == e);
        }
        if s[0].to != id {
            assert(s.contains(s[0]));
        }
    }
}

/// No surviving edge comes from the removed node, and survivors are kept
/// verbatim.
pub proof fn lemma_drop_from_clean(s: Seq<Edge>, id: u128)
    ensures
        forall|i: int|
            0 <= i < spec_drop_from(s, id).len() ==> (#[trigger] spec_drop_from(s, id)[i]).from
                != id,
        forall|i: int|
            0 <= i < spec_drop_from(s, id).len() ==> s.contains(
                #[trigger] spec_drop_from(s, id)[i],
            ),
    decreases s.len(),
{
    if s.len() > 0 {
        lemma_drop_from_clean(s.drop_first(), id);
        assert forall|i: int| 0 <= i < spec_drop_from(s.drop_first(), id).len() implies s.contains(
            #[trigger] spec_drop_from(s.drop_first(), id)[i],
        ) by {
            let e = spec_drop_from(s.drop_first(), id)[i];
            let j = choose|j: int| 0 <= j < s.drop_first().len() && s.drop_first()[j] == e;
            assert(s[j + 1] == e);
        }
        if s[0].from != id {
            assert(s.contains(s[0]));
        }
    }
}

/// Drops, in place, every edge pointing at the removed node.
fn retain_edges_not_to(v: &mut Vec<Edge>, id: u128)
    ensures
        final(v)@ == spec_drop_to(old(v)@, id),
{
    let mut kept: Vec<Edge> = Vec::new();
    while v.len() > 0
        invariant
            spec_drop_to(old(v)@, id) == kept@ + spec_drop_to(v@, id),
        decreases v@.len(),
    {
        let ghost pre = v@;
        let e = v.remove(0);
        proof {
            assert(v@ =~= pre.drop_first());
            assert(e == pre[0]);
        }
        if !(e.to == id) {
            proof {
                assert(spec_drop_to(pre, id) == seq![e] + spec_drop_to(v@, id));
            }
            kept.push(e);
            proof {
                assert(kept@.drop_last() + (seq![e] + spec_drop_to(v@, id)) =~= kept@ + spec_drop_to(
                    v@,
                    id,
                ));
            }
        }
    }
    proof {
        assert(spec_drop_to(v@, id) =~= Seq::<Edge>::empty());
        assert(kept@ + Seq::<Edge>::empty() =~= kept@);
    }
    *v = kept;
}

/// Drops, in place, every edge coming from the removed node.
fn retain_edges_not_from(v: &mut Vec<Edge>, id: u128)
    ensures
        final(v)@ == spec_drop_from(old(v)@, id),
{
    let mut kept: Vec<Edge> = Vec::new();
    while v.len() > 0
        invariant
            spec_drop_from(old(v)@, id) == kept@ + spec_drop_from(v@, id),
        decreases v@.len(),
    {
        let ghost pre = v@;
        let e = v.remove(0);
        proof {
            assert(v@ =~= pre.drop_first());
            assert(e == pre[0]);
        }
        if !(e.from == id) {
            proof {
                assert(spec_drop_from(pre, id) == seq![e] + spec_drop_from(v@, id));
            }
            kept.push(e);
            proof {
                assert(kept@.drop_last() + (seq![e] + spec_drop_from(v@, id)) =~= kept@
                    + spec_drop_from(v@, id));
            }
        }
    }
    proof {
        assert(spec_drop_from(v@, id) =~= Seq::<Edge>::empty());
        assert(kept@ + Seq::<Edge>::empty() =~= kept@);
    }
    *v = kept;
}

/// The keys of chunk records owned by the removed node, in column order.
pub open spec fn spec_doomed_chunks(entries: Seq<(u128, TextChunk)>, id: u128) -> Seq<u128>
    decreases entries.len(),
{
    if entries.len() == 0 {
        Seq::empty()
    } else if entries[0].1.object_id == id {
        seq![entries[0].0] + spec_doomed_chunks(entries.drop_first(), id)
    } else {
        spec_doomed_chunks(entries.drop_first(), id)
    }
}

proof fn lemma_doomed_chunks_contains(entries: Seq<(u128, TextChunk)>, id: u128, k: u128)
    ensures
        spec_doomed_chunks(entries, id).contains(k) <==> exists|j: int|
            0 <= j < entries.len() && #[trigger] entries[j].0 == k && entries[j].1.object_id == id,
    decreases entries.len(),
{
    if entries.len() > 0 {
        lemma_doomed_chunks_contains(entries.drop_first(), id, k);
        let tail = spec_doomed_chunks(entries.drop_first(), id);
        if entries[0].1.object_id == id {
            assert(spec_doomed_chunks(entries, id) == seq![entries[0].0] + tail);
            if spec_doomed_chunks(entries, id).contains(k) {
                let i = choose|i: int|
                    0 <= i < spec_doomed_chunks(entries, id).len() && spec_doomed_chunks(
                        entries,
                        id,
                    )[i] == k;
                if i == 0 {
                    assert(entries[0].0 == k && entries[0].1.object_id == id);
                } else {
                    assert(tail[i - 1] == k);
                    assert(tail.contains(k));
                    let j = choose|j: int|
                        0 <= j < entries.drop_first().len() && #[trigger] entries.drop_first()[j].0
                            == k && entries.drop_first()[j].1.object_id == id;
                    assert(entries[j + 1].0 == k && entries[j + 1].1.object_id == id);
                }
            }
            if exists|j: int|
                0 <= j < entries.len() && #[trigger] entries[j].0 == k && entries[j].1.object_id
                    == id {
                let j = choose|j: int|
                    0 <= j < entries.len() && #[trigger] entries[j].0 == k && entries[j].1.object_id
                        == id;
                if j == 0 {
                    assert(spec_doomed_chunks(entries, id)[0] == k);
                } else {
                    assert(entries.drop_first()[j - 1].0 == k && entries.drop_first()[j
                        - 1].1.object_id == id);
                    assert(tail.contains(k));
                    let i = choose|i: int| 0 <= i < tail.len() && tail[i] == k;
                    assert(spec_doomed_chunks(entries, id)[i + 1] == k);
                }
            }
        } else {
            assert(spec_doomed_chunks(entries, id) == tail);
            if spec_doomed_chunks(entries, id).contains(k) {
                let j = choose|j: int|
                    0 <= j < entries.drop_first().len() && #[trigger] entries.drop_first()[j].0 == k
                        && entries.drop_first()[j].1.object_id == id;
                assert(entries[j + 1].0 == k && entries[j + 1].1.object_id == id);
            }
            if exists|j: int|
                0 <= j < entries.len() && #[trigger] entries[j].0 == k && entries[j].1.object_id
                    == id {
                let j = choose|j: int|
                    0 <= j < entries.len() && #[trigger] entries[j].0 == k && entries[j].1.object_id
                        == id;
                assert(j != 0);
                assert(entries.drop_first()[j - 1].0 == k && entries.drop_first()[j - 1].1.object_id
                    == id);
            }
        }
    }
}

impl KnowledgeGraphStorage {
    /// Counts over the store: nodes, physical edges (each counted once, at
    /// its outgoing record), chunks and their token total. Sums saturate at
    /// the machine limit.
    pub fn get_stats(&self) -> (r: GraphStats)
        requires
            self.wf(),
        ensures
            r.node_count == self.nodes@.dom().len(),
            r.chunk_count == self.chunks@.dom().len(),
            r.edge_count == spec_sat_sum_out(self.adjacency.entries@),
            r.total_tokens == spec_sat_sum_tokens(self.chunks.entries@),
    {
        let node_count = self.nodes.len();
        let chunk_count = self.chunks.len();
        let mut edge_count: usize = 0;
        let mut i: usize = 0;
        proof {
            assert(self.adjacency.entries@.take(0) =~= Seq::<(u128, AdjacencyList)>::empty());
        }
        while i < self.adjacency.num_entries()
            invariant
                i <= self.adjacency.entries@.len(),
                edge_count == spec_sat_sum_out(self.adjacency.entries@.take(i as int)),
            decreases self.adjacency.entries@.len() - i,
        {
            let (_, adj) = self.adjacency.entry_at(i);
            let n = adj.outgoing.len();
            proof {
                let next = self.adjacency.entries@.take(i + 1);
                assert(next.drop_last() =~= self.adjacency.entries@.take(i as int));
                assert(next.last() == self.adjacency.entries@[i as int]);
            }
            if edge_count > usize::MAX - n {
                edge_count = usize::MAX;
            } else {
                edge_count = edge_count + n;
            }
            i = i + 1;
        }
        let mut total_tokens: usize = 0;
        let mut j: usize = 0;
        proof {
            assert(self.adjacency.entries@.take(self.adjacency.entries@.len() as int)
                =~= self.adjacency.entries@);
            assert(self.chunks.entries@.take(0) =~= Seq::<(u128, TextChunk)>::empty());
        }
        while j < self.chunks.num_entries()
            invariant
                j <= self.chunks.entries@.len(),
                total_tokens == spec_sat_sum_tokens(self.chunks.entries@.take(j as int)),
                edge_count == spec_sat_sum_out(self.adjacency.entries@),
            decreases self.chunks.entries@.len() - j,
        {
            let (_, c) = self.chunks.entry_at(j);
            let n = c.token_count;
            proof {
                let next = self.chunks.entries@.take(j + 1);
                assert(next.drop_last() =~= self.chunks.entries@.take(j as int));
                assert(next.last() == self.chunks.entries@[j as int]);
            }
            if total_tokens > usize::MAX - n {
                total_tokens = usize::MAX;
            } else {
                total_tokens = total_tokens + n;
            }
            j = j + 1;
        }
        proof {
            assert(self.chunks.entries@.take(self.chunks.entries@.len() as int)
                =~= self.chunks.entries@);
        }
        GraphStats { node_count, edge_count, chunk_count, total_tokens }
    }

    /// Deletes a node with full cascade: its record, its name-index entry,
    /// its own adjacency record, its chunks, and every reference to it in
    /// other nodes' adjacency records.
    pub fn delete_node(&mut self, node_id: u128) -> (r: Result<(), GraphError>)
        requires
            old(self).wf(),
        ensures
            r is Ok,
            final(self).wf(),
            final(self).nodes@ == old(self).nodes@.remove(node_id),
            final(self).schemas == old(self).schemas,
            old(self).nodes@.contains_key(node_id) ==> final(self).names@ == old(self).names@
                .remove(
                spec_name_key(
                    old(self).nodes@[node_id].object_type@,
                    old(self).nodes@[node_id].name@,
                ),
            ),
            !old(self).nodes@.contains_key(node_id) ==> final(self).names@ == old(self).names@,
            forall|k: u128|
                final(self).chunks@.contains_key(k) <==> (old(self).chunks@.contains_key(k) && (
                #[trigger] old(self).chunks@[k]).object_id != node_id),
            forall|k: u128|
                final(self).chunks@.contains_key(k) ==> final(self).chunks@[k] == old(
                    self,
                ).chunks@[k],
            final(self).adjacency@.dom() == old(self).adjacency@.dom().remove(node_id),
            forall|k: u128|
                #[trigger] final(self).adjacency@.contains_key(k) ==> out_edges(
                    final(self).adjacency@,
                    k,
                ) == spec_drop_to(out_edges(old(self).adjacency@, k), node_id) && in_edges(
                    final(self).adjacency@,
                    k,
                ) == spec_drop_from(in_edges(old(self).adjacency@, k), node_id),
            forall|k: u128, i: int|
                final(self).adjacency@.contains_key(k) && 0 <= i < out_edges(
                    final(self).adjacency@,
                    k,
                ).len() ==> (#[trigger] out_edges(final(self).adjacency@, k)[i]).to != node_id,
            forall|k: u128, i: int|
                final(self).adjacency@.contains_key(k) && 0 <= i < in_edges(
                    final(self).adjacency@,
                    k,
                ).len() ==> (#[trigger] in_edges(final(self).adjacency@, k)[i]).from != node_id,
    {
        // Name-index entry of the node, while its record is still readable.
        let name_key: Option<String> = match self.nodes.get(node_id) {
            Some(node) => Some(make_name_key(node.object_type.as_str(), node.name.as_str())),
            None => None,
        };
        match name_key {
            Some(k) => {
                self.names.remove(k.as_str());
            },
            None => {},
        }
        self.nodes.remove(node_id);
        self.adjacency.remove(node_id);

        // Chunks owned by the node.
        let ghost chunk_entries0 = self.chunks.entries@;
        let mut doomed: Vec<u128> = Vec::new();
        let mut i: usize = 0;
        proof {
            assert(chunk_entries0.skip(0) =~= chunk_entries0);
            assert(Seq::<u128>::empty() + spec_doomed_chunks(chunk_entries0, node_id)
                =~= spec_doomed_chunks(chunk_entries0, node_id));
        }
        while i < self.chunks.num_entries()
            invariant
                i <= self.chunks.entries@.len(),
                self.chunks.entries@ == chunk_entries0,
                spec_doomed_chunks(chunk_entries0, node_id) == doomed@ + spec_doomed_chunks(
                    chunk_entries0.skip(i as int),
                    node_id,
                ),
            decreases self.chunks.entries@.len() - i,
        {
            proof {
                assert(chunk_entries0.skip(i as int)[0] == chunk_entries0[i as int]);
                assert(chunk_entries0.skip(i as int).drop_first() =~= chunk_entries0.skip(i + 1));
            }
            let (k, c) = self.chunks.entry_at(i);
            if c.object_id == node_id {
                proof {
                    assert(spec_doomed_chunks(chunk_entries0.skip(i as int), node_id)
                        == seq![chunk_entries0[i as int].0] + spec_doomed_chunks(
                        chunk_entries0.skip(i + 1),
                        node_id,
                    ));
                }
                doomed.push(k);
                proof {
                    assert(doomed@.drop_last() + (seq![chunk_entries0[i as int].0]
                        + spec_doomed_chunks(chunk_entries0.skip(i + 1), node_id)) =~= doomed@
                        + spec_doomed_chunks(chunk_entries0.skip(i + 1), node_id));
                }
            }
            i = i + 1;
        }
        proof {
            assert(chunk_entries0.skip(chunk_entries0.len() as int) =~= Seq::<
                (u128, TextChunk),
            >::empty());
            assert(doomed@ + Seq::<u128>::empty() =~= doomed@);
            assert(doomed@ == spec_doomed_chunks(chunk_entries0, node_id));
        }
        let ghost chunks_before = self.chunks@;
        let ghost nodes_snap = self.nodes;
        let ghost names_snap = self.names;
        let ghost adj_snap = self.adjacency;
        let ghost schemas_snap = self.schemas;
        let mut d: usize = 0;
        while d < doomed.len()
            invariant
                d <= doomed@.len(),
                self.chunks.wf(),
                self.nodes == nodes_snap,
                self.names == names_snap,
                self.adjacency == adj_snap,
                self.schemas == schemas_snap,
                forall|k: u128|
                    #[trigger] self.chunks@.contains_key(k) <==> (chunks_before.contains_key(k)
                        && !doomed@.take(d as int).contains(k)),
                forall|k: u128|
                    #[trigger] self.chunks@.contains_key(k) ==> self.chunks@[k]
                        == chunks_before[k],
            decreases doomed@.len() - d,
        {
            let ghost dd = doomed@;
            self.chunks.remove(doomed[d]);
            proof {
                assert forall|x: u128| #[trigger] dd.take(d + 1).contains(x) implies (dd.take(
                    d as int,
                ).contains(x) || x == dd[d as int]) by {
                    let i = choose|i: int|
                        0 <= i < dd.take(d + 1).len() && #[trigger] dd.take(d + 1)[i] == x;
                    if i < d {
                        assert(dd.take(d as int)[i] == x);
                    }
                }
                assert forall|x: u128|
                    (dd.take(d as int).contains(x) || x == dd[d as int]) implies #[trigger] dd.take(
                    d + 1,
                ).contains(x) by {
                    if dd.take(d as int).contains(x) {
                        let i = choose|i: int|
                            0 <= i < dd.take(d as int).len() && #[trigger] dd.take(d as int)[i]
                                == x;
                        assert(dd.take(d + 1)[i] == x);
                    } else {
                        assert(dd.take(d + 1)[d as int] == x);
                    }
                }
            }
            d = d + 1;
        }
        proof {
            assert(doomed@.take(doomed@.len() as int) =~= doomed@);
        }

        // Remaining adjacency records: drop every edge touching the node.
        let ghost adj_entries0 = self.adjacency.entries@;
        let ghost chunks_snap = self.chunks;
        let mut a: usize = 0;
        while a < self.adjacency.num_entries()
            invariant
                a <= self.adjacency.entries@.len(),
                self.nodes == nodes_snap,
                self.names == names_snap,
                self.chunks == chunks_snap,
                self.schemas == schemas_snap,
                self.adjacency.entries@.len() == adj_entries0.len(),
                forall|j: int|
                    0 <= j < adj_entries0.len() ==> (#[trigger] self.adjacency.entries@[j]).0
                        == adj_entries0[j].0,
                forall|j: int|
                    a <= j < adj_entries0.len() ==> #[trigger] self.adjacency.entries@[j]
                        == adj_entries0[j],
                forall|j: int|
                    0 <= j < a ==> (#[trigger] self.adjacency.entries@[j]).1.outgoing@
                        == spec_drop_to(adj_entries0[j].1.outgoing@, node_id)
                        && self.adjacency.entries@[j].1.incoming@ == spec_drop_from(
                        adj_entries0[j].1.incoming@,
                        node_id,
                    ),
            decreases adj_entries0.len() - a,
        {
            let ghost pre = self.adjacency.entries@;
            let (k, mut adj) = self.adjacency.entries.remove(a);
            retain_edges_not_to(&mut adj.outgoing, node_id);
            retain_edges_not_from(&mut adj.incoming, node_id);
            self.adjacency.entries.insert(a, (k, adj));
            proof {
                assert(self.adjacency.entries@ =~= pre.update(a as int, (k, adj)));
            }
            a = a + 1;
        }
        proof {
            assert(crate::kvmap::id_keys_distinct(self.adjacency.entries@)) by {
                assert(forall|i: int, j: int|
                    0 <= i < j < self.adjacency.entries@.len()
                        ==> (#[trigger] self.adjacency.entries@[i]).0 == adj_entries0[i].0 && (
                    #[trigger] self.adjacency.entries@[j]).0 == adj_entries0[j].0);
            }
            assert forall|k: u128|
                self.chunks@.contains_key(k) <==> (old(self).chunks@.contains_key(k) && (
            #[trigger] old(self).chunks@[k]).object_id != node_id) by {
                lemma_doomed_chunks_contains(chunk_entries0, node_id, k);
                old(self).chunks.lemma_entries_in_view();
                if old(self).chunks@.contains_key(k) && old(self).chunks@[k].object_id != node_id {
                    assert(!doomed@.contains(k));
                }
                if self.chunks@.contains_key(k) {
                }
            }
            self.lemma_delete_adjacency_view(old(self).adjacency@, adj_entries0, node_id);
        }
        Ok(())
    }

    /// Lifts the entry-wise adjacency cleanup to the map view.
    proof fn lemma_delete_adjacency_view(
        &self,
        old_adj: Map<u128, AdjacencyList>,
        adj_entries0: Seq<(u128, AdjacencyList)>,
        node_id: u128,
    )
        requires
            crate::kvmap::id_keys_distinct(adj_entries0),
            self.adjacency.wf(),
            forall|k: u128|
                old_adj.contains_key(k) ==> spec_adj_anchored(k, #[trigger] old_adj[k]),
            crate::kvmap::id_map_of(adj_entries0) == old_adj.remove(node_id),
            self.adjacency.entries@.len() == adj_entries0.len(),
            forall|j: int|
                0 <= j < adj_entries0.len() ==> (#[trigger] self.adjacency.entries@[j]).0
                    == adj_entries0[j].0,
            forall|j: int|
                0 <= j < adj_entries0.len() ==> (#[trigger] self.adjacency.entries@[j]).1.outgoing@
                    == spec_drop_to(adj_entries0[j].1.outgoing@, node_id)
                    && self.adjacency.entries@[j].1.incoming@ == spec_drop_from(
                    adj_entries0[j].1.incoming@,
                    node_id,
                ),
        ensures
            self.adjacency@.dom() == old_adj.dom().remove(node_id),
            forall|k: u128|
                #[trigger] self.adjacency@.contains_key(k) ==> out_edges(self.adjacency@, k)
                    == spec_drop_to(out_edges(old_adj, k), node_id) && in_edges(self.adjacency@, k)
                    == spec_drop_from(in_edges(old_adj, k), node_id),
            forall|k: u128, i: int|
                self.adjacency@.contains_key(k) && 0 <= i < out_edges(self.adjacency@, k).len()
                    ==> (#[trigger] out_edges(self.adjacency@, k)[i]).to != node_id,
            forall|k: u128, i: int|
                self.adjacency@.contains_key(k) && 0 <= i < in_edges(self.adjacency@, k).len()
                    ==> (#[trigger] in_edges(self.adjacency@, k)[i]).from != node_id,
            forall|k: u128|
                self.adjacency@.contains_key(k) ==> spec_adj_anchored(
                    k,
                    #[trigger] self.adjacency@[k],
                ),
    {
        let mid = crate::kvmap::id_map_of(adj_entries0);
        self.adjacency.lemma_entries_in_view();
        crate::kvmap::lemma_id_entries_view(adj_entries0);
        assert(self.adjacency@.dom() =~= mid.dom()) by {
            assert forall|k: u128| self.adjacency@.contains_key(k) implies mid.contains_key(k) by {
                let j = choose|j: int|
                    0 <= j < self.adjacency.entries@.len()
                        && #[trigger] self.adjacency.entries@[j].0 == k;
                assert(adj_entries0[j].0 == k);
            }
            assert forall|k: u128| mid.contains_key(k) implies self.adjacency@.contains_key(k) by {
                let j = choose|j: int|
                    0 <= j < adj_entries0.len() && #[trigger] adj_entries0[j].0 == k;
                assert(self.adjacency.entries@[j].0 == k);
            }
        }
        assert(self.adjacency@.dom() =~= old_adj.dom().remove(node_id));
        assert forall|k: u128| #[trigger] self.adjacency@.contains_key(k) implies out_edges(
            self.adjacency@,
            k,
        ) == spec_drop_to(out_edges(old_adj, k), node_id) && in_edges(self.adjacency@, k)
            == spec_drop_from(in_edges(old_adj, k), node_id) by {
            let j = choose|j: int|
                0 <= j < self.adjacency.entries@.len() && #[trigger] self.adjacency.entries@[j].0
                    == k;
            assert(self.adjacency@[k] == self.adjacency.entries@[j].1);
            assert(adj_entries0[j].0 == k);
            assert(mid[k] == adj_entries0[j].1);
            assert(k != node_id);
            assert(old_adj.contains_key(k));
            assert(old_adj[k] == mid[k]);
        }
        assert forall|k: u128, i: int|
            self.adjacency@.contains_key(k) && 0 <= i < out_edges(self.adjacency@, k).len() implies (
        #[trigger] out_edges(self.adjacency@, k)[i]).to != node_id by {
            lemma_drop_to_clean(out_edges(old_adj, k), node_id);
        }
        assert forall|k: u128, i: int|
            self.adjacency@.contains_key(k) && 0 <= i < in_edges(self.adjacency@, k).len() implies (
        #[trigger] in_edges(self.adjacency@, k)[i]).from != node_id by {
            lemma_drop_from_clean(in_edges(old_adj, k), node_id);
        }
        assert forall|k: u128| self.adjacency@.contains_key(k) implies spec_adj_anchored(
            k,
            #[trigger] self.adjacency@[k],
        ) by {
            lemma_drop_to_clean(out_edges(old_adj, k), node_id);
            lemma_drop_from_clean(in_edges(old_adj, k), node_id);
            assert(old_adj.contains_key(k));
            assert(spec_adj_anchored(k, old_adj[k]));
            let outs = self.adjacency@[k].outgoing@;
            assert forall|i: int| 0 <= i < outs.len() implies (#[trigger] outs[i]).from == k by {
                let e = spec_drop_to(out_edges(old_adj, k), node_id)[i];
                assert(out_edges(old_adj, k).contains(e));
                let j = choose|j: int|
                    0 <= j < out_edges(old_adj, k).len() && out_edges(old_adj, k)[j] == e;
            }
            let incs = self.adjacency@[k].incoming@;
            assert forall|i: int| 0 <= i < incs.len() implies (#[trigger] incs[i]).to == k by {
                let e = spec_drop_from(in_edges(old_adj, k), node_id)[i];
                assert(in_edges(old_adj, k).contains(e));
                let j = choose|j: int|
                    0 <= j < in_edges(old_adj, k).len() && in_edges(old_adj, k)[j] == e;
            }
        }
    }
}

/// Whether `x` can be reached from `start` in at most `n` hops, walking
/// recorded edges in either direction.
pub open spec fn spec_reachable_within(
    adjacency: Map<u128, AdjacencyList>,
    start: u128,
    n: nat,
    x: u128,
) -> bool
    decreases n, 0int,
{
    if n == 0 {
        x == start
    } else {
        spec_reachable_within(adjacency, start, (n - 1) as nat, x)
            || spec_has_reachable_neighbor(adjacency, start, (n - 1) as nat, x)
    }
}

/// Whether some node reachable within the bound has `x` as a neighbor.
pub open spec fn spec_has_reachable_neighbor(
    adjacency: Map<u128, AdjacencyList>,
    start: u128,
    k: nat,
    x: u128,
) -> bool
    decreases k, 1int,
{
    exists|y: u128|
        spec_reachable_within(adjacency, start, k, y) && #[trigger] spec_is_neighbor(
            adjacency,
            y,
            x,
        )
}

/// Reachability only grows with the hop bound.
pub proof fn lemma_reachable_mono(
    adjacency: Map<u128, AdjacencyList>,
    start: u128,
    n: nat,
    m: nat,
    x: u128,
)
    requires
        n <= m,
        spec_reachable_within(adjacency, start, n, x),
    ensures
        spec_reachable_within(adjacency, start, m, x),
    decreases m,
{
    if m > n {
        lemma_reachable_mono(adjacency, start, n, (m - 1) as nat, x);
    }
}

/// Whether the vector holds the id.
fn contains_id(v: &Vec<u128>, x: u128) -> (r: bool)
    ensures
        r == v@.contains(x),
{
    let mut i: usize = 0;
    while i < v.len()
        invariant
            i <= v@.len(),
            forall|j: int| 0 <= j < i ==> v@[j] != x,
        decreases v@.len() - i,
    {
        if v[i] == x {
            proof {
                assert(v@[i as int] == x);
            }
            return true;
        }
        i = i + 1;
    }
    false
}

/// The records of the visited nodes, in visit order (an id without a
/// record contributes nothing).
pub open spec fn spec_visit_objects(nodes: Map<u128, ObjectMetadata>, vs: Seq<u128>) -> Seq<
    ObjectMetadata,
>
    decreases vs.len(),
{
    if vs.len() == 0 {
        Seq::empty()
    } else {
        let prev = spec_visit_objects(nodes, vs.drop_last());
        if nodes.contains_key(vs.last()) {
            prev.push(nodes[vs.last()])
        } else {
            prev
        }
    }
}

/// The edges of the visited nodes, in visit order: each node contributes
/// its outgoing then its incoming record, so an edge reached from both
/// endpoints appears once per endpoint.
pub open spec fn spec_visit_edges(adjacency: Map<u128, AdjacencyList>, vs: Seq<u128>) -> Seq<Edge>
    decreases vs.len(),
{
    if vs.len() == 0 {
        Seq::empty()
    } else {
        spec_visit_edges(adjacency, vs.drop_last()) + out_edges(adjacency, vs.last()) + in_edges(
            adjacency,
            vs.last(),
        )
    }
}

/// The chunks of the visited nodes, in visit order, each node contributing
/// its chunks in column order.
pub open spec fn spec_visit_chunks(chunk_entries: Seq<(u128, TextChunk)>, vs: Seq<u128>) -> Seq<
    TextChunk,
>
    decreases vs.len(),
{
    if vs.len() == 0 {
        Seq::empty()
    } else {
        spec_visit_chunks(chunk_entries, vs.drop_last()) + chunk_entries.map_values(
            |p: (u128, TextChunk)| p.1,
        ).filter(|c: TextChunk| c.object_id == vs.last())
    }
}

/// The saturating token total of a chunk list.
pub open spec fn spec_sat_tokens(cs: Seq<TextChunk>) -> usize
    decreases cs.len(),
{
    if cs.len() == 0 {
        0
    } else {
        crate::types::spec_sat_add(spec_sat_tokens(cs.drop_last()), cs.last().token_count)
    }
}

/// A breadth-first visit order: duplicate-free, sound (every visited id is
/// reachable within the bound) and complete (every id reachable within the
/// bound is visited).
pub open spec fn spec_bfs_order(
    adjacency: Map<u128, AdjacencyList>,
    start: u128,
    max_hops: usize,
    vs: Seq<u128>,
) -> bool {
    &&& (forall|a: int, b: int| 0 <= a < b < vs.len() ==> vs[a] != vs[b])
    &&& (forall|i: int|
        0 <= i < vs.len() ==> spec_reachable_within(
            adjacency,
            start,
            max_hops as nat,
            #[trigger] vs[i],
        ))
    &&& (forall|x: u128|
        spec_reachable_within(adjacency, start, max_hops as nat, x) ==> vs.contains(x))
}

/// A node reachable at some bound but not below it has a reachable
/// neighbor one step earlier.
proof fn lemma_reachable_step(
    adjacency: Map<u128, AdjacencyList>,
    start: u128,
    n: nat,
    x: u128,
)
    requires
        n >= 1,
        spec_reachable_within(adjacency, start, n, x),
        !spec_reachable_within(adjacency, start, (n - 1) as nat, x),
    ensures
        spec_has_reachable_neighbor(adjacency, start, (n - 1) as nat, x),
{
}

/// A reachable-set closed under neighbors swallows every larger hop bound.
proof fn lemma_reachable_closed(
    adjacency: Map<u128, AdjacencyList>,
    start: u128,
    h: nat,
    m: nat,
    vs: Seq<u128>,
)
    requires
        h <= m,
        forall|x: u128| spec_reachable_within(adjacency, start, h, x) ==> vs.contains(x),
        forall|v: u128, x: u128|
            vs.contains(v) && spec_is_neighbor(adjacency, v, x) ==> vs.contains(x),
    ensures
        forall|x: u128| spec_reachable_within(adjacency, start, m, x) ==> vs.contains(x),
    decreases m,
{
    if m > h {
        lemma_reachable_closed(adjacency, start, h, (m - 1) as nat, vs);
        assert forall|x: u128|
            spec_reachable_within(adjacency, start, m, x) implies vs.contains(x) by {
            if !spec_reachable_within(adjacency, start, (m - 1) as nat, x) {
                lemma_reachable_step(adjacency, start, m, x);
                let y = choose|y: u128|
                    spec_reachable_within(adjacency, start, (m - 1) as nat, y)
                        && #[trigger] spec_is_neighbor(adjacency, y, x);
                assert(spec_reachable_within(adjacency, start, (m - 1) as nat, y));
                assert(vs.contains(y));
                assert(vs.contains(x));
            }
        }
    }
}

impl KnowledgeGraphStorage {
    /// Breadth-first expansion from a start node, up to the hop bound. The
    /// result holds, borrowed from the store: the record of every node
    /// reachable within the bound, all edges of those nodes (an edge
    /// reached from both endpoints appears once per endpoint), and their
    /// chunks, each grouped in visit order.
    pub fn query_subgraph<'a>(&'a self, start_node: u128, max_hops: usize) -> (r: QueryResult<'a>)
        requires
            self.wf(),
            max_hops < usize::MAX,
        ensures
            ({
                let objects = r.objects@.map_values(|o: &ObjectMetadata| *o);
                let edges = r.edges@.map_values(|e: &Edge| *e);
                let chunks = r.chunks@.map_values(|c: &TextChunk| *c);
                exists|vs: Seq<u128>|
                    {
                        &&& #[trigger] spec_bfs_order(self.adjacency@, start_node, max_hops, vs)
                        &&& objects == spec_visit_objects(self.nodes@, vs)
                        &&& edges == spec_visit_edges(self.adjacency@, vs)
                        &&& chunks == spec_visit_chunks(self.chunks.entries@, vs)
                    }
            }),
            r.total_tokens == spec_sat_tokens(r.chunks@.map_values(|c: &TextChunk| *c)),
            forall|i: int|
                0 <= i < r.objects@.len() ==> self.nodes@.contains_key(
                    (#[trigger] r.objects@[i]).id,
                ) && *r.objects@[i] == self.nodes@[r.objects@[i].id] && spec_reachable_within(
                    self.adjacency@,
                    start_node,
                    max_hops as nat,
                    r.objects@[i].id,
                ),
            forall|i: int|
                0 <= i < r.edges@.len() ==> spec_reachable_within(
                    self.adjacency@,
                    start_node,
                    max_hops as nat,
                    (#[trigger] r.edges@[i]).from,
                ) || spec_reachable_within(
                    self.adjacency@,
                    start_node,
                    max_hops as nat,
                    r.edges@[i].to,
                ),
            forall|i: int|
                0 <= i < r.chunks@.len() ==> spec_reachable_within(
                    self.adjacency@,
                    start_node,
                    max_hops as nat,
                    (#[trigger] r.chunks@[i]).object_id,
                ),
    {
        let ghost adjacency = self.adjacency@;
        let ghost nodesm = self.nodes@;
        let ghost chunk_entries = self.chunks.entries@;
        let mut result: QueryResult<'a> = QueryResult::new();
        let mut visited: Vec<u128> = Vec::new();
        let mut current: Vec<u128> = Vec::new();
        current.push(start_node);
        let mut hop: usize = 0;
        proof {
            assert(spec_reachable_within(adjacency, start_node, 0nat, start_node));
            lemma_reachable_mono(adjacency, start_node, 0nat, max_hops as nat, start_node);
            assert(forall|j: int| 0 <= j < current@.len() ==> #[trigger] current@[j] == start_node);
            assert(current@[0] == start_node);
            assert(current@.contains(start_node));
            assert forall|x: u128|
                spec_reachable_within(adjacency, start_node, 0nat, x) implies visited@.contains(x)
                || current@.contains(x) by {
                assert(x == start_node);
            }
            assert(result.objects@.map_values(|o: &ObjectMetadata| *o) =~= spec_visit_objects(
                nodesm,
                visited@,
            ));
            assert(result.edges@.map_values(|e: &Edge| *e) =~= spec_visit_edges(
                adjacency,
                visited@,
            ));
            assert(result.chunks@.map_values(|c: &TextChunk| *c) =~= spec_visit_chunks(
                chunk_entries,
                visited@,
            ));
        }
        while hop <= max_hops && current.len() > 0
            invariant
                self.wf(),
                adjacency == self.adjacency@,
                nodesm == self.nodes@,
                chunk_entries == self.chunks.entries@,
                max_hops < usize::MAX,
                hop <= max_hops + 1,
                forall|a: int, b: int| 0 <= a < b < visited@.len() ==> visited@[a] != visited@[b],
                forall|i: int|
                    0 <= i < visited@.len() ==> spec_reachable_within(
                        adjacency,
                        start_node,
                        max_hops as nat,
                        #[trigger] visited@[i],
                    ),
                forall|j: int|
                    0 <= j < current@.len() ==> spec_reachable_within(
                        adjacency,
                        start_node,
                        hop as nat,
                        #[trigger] current@[j],
                    ),
                hop <= max_hops ==> forall|j: int|
                    0 <= j < current@.len() ==> spec_reachable_within(
                        adjacency,
                        start_node,
                        max_hops as nat,
                        #[trigger] current@[j],
                    ),
                forall|x: u128|
                    hop > 0 && #[trigger] spec_reachable_within(
                        adjacency,
                        start_node,
                        (hop - 1) as nat,
                        x,
                    ) ==> visited@.contains(x),
                forall|x: u128|
                    #[trigger] spec_reachable_within(adjacency, start_node, hop as nat, x)
                        ==> visited@.contains(x) || current@.contains(x),
                forall|v: u128, x: u128|
                    visited@.contains(v) && #[trigger] spec_is_neighbor(adjacency, v, x)
                        ==> visited@.contains(x) || current@.contains(x),
                result.objects@.map_values(|o: &ObjectMetadata| *o) == spec_visit_objects(
                    nodesm,
                    visited@,
                ),
                result.edges@.map_values(|e: &Edge| *e) == spec_visit_edges(adjacency, visited@),
                result.chunks@.map_values(|c: &TextChunk| *c) == spec_visit_chunks(
                    chunk_entries,
                    visited@,
                ),
                result.total_tokens == spec_sat_tokens(
                    result.chunks@.map_values(|c: &TextChunk| *c),
                ),
            decreases max_hops + 1 - hop,
        {
            let mut next: Vec<u128> = Vec::new();
            let mut ci: usize = 0;
            proof {
                assert(current@.skip(0) =~= current@);
            }
            while ci < current.len()
                invariant
                    self.wf(),
                    adjacency == self.adjacency@,
                    nodesm == self.nodes@,
                    chunk_entries == self.chunks.entries@,
                    hop <= max_hops,
                    max_hops < usize::MAX,
                    ci <= current@.len(),
                    forall|a: int, b: int|
                        0 <= a < b < visited@.len() ==> visited@[a] != visited@[b],
                    forall|i: int|
                        0 <= i < visited@.len() ==> spec_reachable_within(
                            adjacency,
                            start_node,
                            max_hops as nat,
                            #[trigger] visited@[i],
                        ),
                    forall|j: int|
                        0 <= j < current@.len() ==> spec_reachable_within(
                            adjacency,
                            start_node,
                            hop as nat,
                            #[trigger] current@[j],
                        ),
                    forall|j: int|
                        0 <= j < next@.len() ==> spec_reachable_within(
                            adjacency,
                            start_node,
                            (hop + 1) as nat,
                            #[trigger] next@[j],
                        ),
                    forall|x: u128|
                        #[trigger] spec_reachable_within(adjacency, start_node, hop as nat, x)
                            ==> visited@.contains(x) || current@.skip(ci as int).contains(x),
                    forall|v: u128, x: u128|
                        visited@.contains(v) && #[trigger] spec_is_neighbor(adjacency, v, x)
                            ==> visited@.contains(x) || current@.skip(ci as int).contains(x)
                            || next@.contains(x),
                    result.objects@.map_values(|o: &ObjectMetadata| *o) == spec_visit_objects(
                        nodesm,
                        visited@,
                    ),
                    result.edges@.map_values(|e: &Edge| *e) == spec_visit_edges(
                        adjacency,
                        visited@,
                    ),
                    result.chunks@.map_values(|c: &TextChunk| *c) == spec_visit_chunks(
                        chunk_entries,
                        visited@,
                    ),
                    result.total_tokens == spec_sat_tokens(
                        result.chunks@.map_values(|c: &TextChunk| *c),
                    ),
                decreases current@.len() - ci,
            {
                let node_id = current[ci];
                let ghost pre_next = next@;
                proof {
                    assert(current@.skip(ci as int)[0] == current@[ci as int]);
                    assert(spec_reachable_within(adjacency, start_node, hop as nat, node_id));
                    lemma_reachable_mono(
                        adjacency,
                        start_node,
                        hop as nat,
                        max_hops as nat,
                        node_id,
                    );
                }
                if !contains_id(&visited, node_id) {
                    let ghost pre_visited = visited@;
                    visited.push(node_id);
                    proof {
                        assert(visited@.drop_last() =~= pre_visited);
                        assert(visited@.last() == node_id);
                        assert(forall|i: int|
                            0 <= i < pre_visited.len() ==> #[trigger] visited@[i]
                                == pre_visited[i]);
                        assert forall|v: u128| visited@.contains(v) implies pre_visited.contains(v)
                            || v == node_id by {
                            let w = choose|w: int| 0 <= w < visited@.len() && visited@[w] == v;
                            if w < pre_visited.len() {
                                assert(pre_visited[w] == v);
                            }
                        }
                        assert forall|v: u128|
                            pre_visited.contains(v) implies visited@.contains(v) by {
                            let w = choose|w: int|
                                0 <= w < pre_visited.len() && pre_visited[w] == v;
                            assert(visited@[w] == v);
                        }
                    }
                    match self.get_node(node_id) {
                        Some(metadata) => {
                            result.add_object(metadata);
                        },
                        None => {},
                    }
                    proof {
                        assert(result.objects@.map_values(|o: &ObjectMetadata| *o)
                            =~= spec_visit_objects(nodesm, visited@));
                    }
                    let edges = self.get_edges(node_id);
                    let ghost outs = out_edges(adjacency, node_id);
                    let ghost incs = in_edges(adjacency, node_id);
                    let ghost evs = spec_visit_edges(adjacency, pre_visited);
                    proof {
                        assert(spec_visit_edges(adjacency, visited@) == evs + outs + incs);
                        assert((outs + incs).take(0) =~= Seq::<Edge>::empty());
                        assert(result.edges@.map_values(|e: &Edge| *e) =~= evs + (outs
                            + incs).take(0));
                    }
                    let mut ei: usize = 0;
                    while ei < edges.len()
                        invariant
                            self.wf(),
                            adjacency == self.adjacency@,
                            hop <= max_hops,
                            max_hops < usize::MAX,
                            ei <= edges@.len(),
                            outs == out_edges(adjacency, node_id),
                            incs == in_edges(adjacency, node_id),
                            edges@.len() == outs.len() + incs.len(),
                            forall|i: int|
                                0 <= i < outs.len() ==> *(#[trigger] edges@[i]) == outs[i],
                            forall|i: int|
                                0 <= i < incs.len() ==> *(#[trigger] edges@[outs.len() + i])
                                    == incs[i],
                            spec_reachable_within(adjacency, start_node, hop as nat, node_id),
                            visited@.contains(node_id),
                            forall|a: int, b: int|
                                0 <= a < b < visited@.len() ==> visited@[a] != visited@[b],
                            forall|i: int|
                                0 <= i < visited@.len() ==> spec_reachable_within(
                                    adjacency,
                                    start_node,
                                    max_hops as nat,
                                    #[trigger] visited@[i],
                                ),
                            forall|j: int|
                                0 <= j < next@.len() ==> spec_reachable_within(
                                    adjacency,
                                    start_node,
                                    (hop + 1) as nat,
                                    #[trigger] next@[j],
                                ),
                            forall|v: u128, x: u128|
                                visited@.contains(v) && v != node_id && #[trigger] spec_is_neighbor(
                                    adjacency,
                                    v,
                                    x,
                                ) ==> visited@.contains(x) || current@.skip(ci as int).contains(x)
                                    || next@.contains(x),
                            forall|x: u128| pre_next.contains(x) ==> next@.contains(x),
                            forall|k: int|
                                0 <= k < ei ==> (visited@.contains(
                                    (#[trigger] (outs + incs)[k]).to,
                                ) || next@.contains((outs + incs)[k].to)) && (visited@.contains(
                                    (outs + incs)[k].from,
                                ) || next@.contains((outs + incs)[k].from)),
                            result.edges@.map_values(|e: &Edge| *e) == evs + (outs + incs).take(
                                ei as int,
                            ),
                            result.objects@.map_values(|o: &ObjectMetadata| *o)
                                == spec_visit_objects(nodesm, visited@),
                            result.chunks@.map_values(|c: &TextChunk| *c) == spec_visit_chunks(
                                chunk_entries,
                                pre_visited,
                            ),
                            result.total_tokens == spec_sat_tokens(
                                result.chunks@.map_values(|c: &TextChunk| *c),
                            ),
                        decreases edges@.len() - ei,
                    {
                        let e = edges[ei];
                        proof {
                            assert(spec_reachable_within(
                                adjacency,
                                start_node,
                                (hop + 1) as nat,
                                node_id,
                            ));
                            if ei < outs.len() {
                                assert(*e == outs[ei as int]);
                                assert((outs + incs)[ei as int] == outs[ei as int]);
                                assert(spec_is_neighbor(adjacency, node_id, e.to)) by {
                                    assert(outs[ei as int].to == e.to);
                                }
                                assert(spec_has_reachable_neighbor(
                                    adjacency,
                                    start_node,
                                    hop as nat,
                                    e.to,
                                ));
                                assert(spec_reachable_within(
                                    adjacency,
                                    start_node,
                                    (hop + 1) as nat,
                                    e.to,
                                ));
                                assert(e.from == node_id);
                            } else {
                                let k = ei as int - outs.len() as int;
                                assert(0 <= k < incs.len());
                                assert(edges@[outs.len() as int + k] == edges@[ei as int]);
                                assert(*e == incs[k]);
                                assert((outs + incs)[ei as int] == incs[k]);
                                assert(spec_is_neighbor(adjacency, node_id, e.from)) by {
                                    assert(incs[k].from == e.from);
                                }
                                assert(spec_has_reachable_neighbor(
                                    adjacency,
                                    start_node,
                                    hop as nat,
                                    e.from,
                                ));
                                assert(spec_reachable_within(
                                    adjacency,
                                    start_node,
                                    (hop + 1) as nat,
                                    e.from,
                                ));
                                assert(e.to == node_id);
                            }
                        }
                        let ghost prev_mapped = result.edges@.map_values(|e2: &Edge| *e2);
                        result.add_edge(e);
                        proof {
                            assert(result.edges@.map_values(|e2: &Edge| *e2) =~= prev_mapped.push(
                                *e,
                            ));
                            assert((outs + incs).take(ei + 1) =~= (outs + incs).take(
                                ei as int,
                            ).push(*e));
                            assert(prev_mapped.push(*e) =~= evs + (outs + incs).take(ei + 1));
                        }
                        let ghost next0 = next@;
                        if !contains_id(&visited, e.to) {
                            next.push(e.to);
                        }
                        proof {
                            assert forall|x: u128| next0.contains(x) implies next@.contains(x) by {
                                let w = choose|w: int|
                                    0 <= w < next0.len() && #[trigger] next0[w] == x;
                                assert(next@[w] == x);
                            }
                            assert(visited@.contains(e.to) || next@.contains(e.to)) by {
                                if !visited@.contains(e.to) {
                                    assert(next@[next@.len() - 1] == e.to);
                                }
                            }
                        }
                        let ghost next1 = next@;
                        if !contains_id(&visited, e.from) {
                            next.push(e.from);
                        }
                        proof {
                            assert forall|x: u128| next1.contains(x) implies next@.contains(x) by {
                                let w = choose|w: int|
                                    0 <= w < next1.len() && #[trigger] next1[w] == x;
                                assert(next@[w] == x);
                            }
                            assert(visited@.contains(e.to) || next@.contains(e.to));
                            assert(visited@.contains(e.from) || next@.contains(e.from)) by {
                                if !visited@.contains(e.from) {
                                    assert(next@[next@.len() - 1] == e.from);
                                }
                            }
                            assert forall|x: u128| pre_next.contains(x) implies next@.contains(
                                x,
                            ) by {
                                assert(next0.contains(x));
                                assert(next1.contains(x));
                            }
                        }
                        ei = ei + 1;
                    }
                    proof {
                        assert((outs + incs).take((outs + incs).len() as int) =~= outs + incs);
                        assert(result.edges@.map_values(|e: &Edge| *e) =~= spec_visit_edges(
                            adjacency,
                            visited@,
                        ));
                        // Every neighbor of the node is an endpoint of one
                        // of its record's entries, all of which are covered.
                        assert forall|x: u128|
                            spec_is_neighbor(adjacency, node_id, x) implies visited@.contains(x)
                            || current@.skip(ci as int).contains(x) || next@.contains(x) by {
                            if exists|i: int|
                                0 <= i < outs.len() && #[trigger] outs[i].to == x {
                                let i = choose|i: int|
                                    0 <= i < outs.len() && #[trigger] outs[i].to == x;
                                assert((outs + incs)[i] == outs[i]);
                            } else {
                                let i = choose|i: int|
                                    0 <= i < incs.len() && #[trigger] incs[i].from == x;
                                assert((outs + incs)[outs.len() as int + i] == incs[i]);
                            }
                        }
                    }
                    let chunks = self.get_chunks_for_node(node_id);
                    let ghost cvs = spec_visit_chunks(chunk_entries, pre_visited);
                    let ghost owned = chunk_entries.map_values(|p: (u128, TextChunk)| p.1).filter(
                        |c: TextChunk| c.object_id == node_id,
                    );
                    proof {
                        assert(spec_visit_chunks(chunk_entries, visited@) == cvs + owned);
                        assert(chunks@.map_values(|c: &TextChunk| *c) == owned);
                        assert(owned.take(0) =~= Seq::<TextChunk>::empty());
                        assert(result.chunks@.map_values(|c: &TextChunk| *c) =~= cvs + owned.take(
                            0,
                        ));
                    }
                    let mut xi: usize = 0;
                    while xi < chunks.len()
                        invariant
                            self.wf(),
                            adjacency == self.adjacency@,
                            hop <= max_hops,
                            max_hops < usize::MAX,
                            xi <= chunks@.len(),
                            chunks@.len() == owned.len(),
                            forall|i: int|
                                0 <= i < chunks@.len() ==> *(#[trigger] chunks@[i]) == owned[i],
                            spec_reachable_within(adjacency, start_node, hop as nat, node_id),
                            forall|i: int|
                                0 <= i < owned.len() ==> (#[trigger] owned[i]).object_id
                                    == node_id,
                            result.chunks@.map_values(|c: &TextChunk| *c) == cvs + owned.take(
                                xi as int,
                            ),
                            result.total_tokens == spec_sat_tokens(
                                result.chunks@.map_values(|c: &TextChunk| *c),
                            ),
                            result.objects@.map_values(|o: &ObjectMetadata| *o)
                                == spec_visit_objects(nodesm, visited@),
                            result.edges@.map_values(|e: &Edge| *e) == spec_visit_edges(
                                adjacency,
                                visited@,
                            ),
                        decreases chunks@.len() - xi,
                    {
                        proof {
                            lemma_reachable_mono(
                                adjacency,
                                start_node,
                                hop as nat,
                                max_hops as nat,
                                node_id,
                            );
                        }
                        let ghost prevc = result.chunks@.map_values(|c: &TextChunk| *c);
                        result.add_chunk(chunks[xi]);
                        proof {
                            assert(owned.take(xi + 1) =~= owned.take(xi as int).push(
                                owned[xi as int],
                            ));
                            let mapped = result.chunks@.map_values(|c: &TextChunk| *c);
                            assert(mapped =~= prevc.push(owned[xi as int]));
                            assert(mapped =~= cvs + owned.take(xi + 1));
                            assert(mapped.drop_last() =~= prevc);
                            assert(mapped.last() == owned[xi as int]);
                        }
                        xi = xi + 1;
                    }
                    proof {
                        assert(owned.take(owned.len() as int) =~= owned);
                        assert(result.chunks@.map_values(|c: &TextChunk| *c) =~= spec_visit_chunks(
                            chunk_entries,
                            visited@,
                        ));
                    }
                } else {
                }
                ci = ci + 1;
                proof {
                    assert forall|x: u128|
                        spec_reachable_within(adjacency, start_node, hop as nat, x) implies (
                    visited@.contains(x) || current@.skip(ci as int).contains(x)) by {
                        if !visited@.contains(x) {
                            assert(current@.skip(ci - 1).contains(x));
                            let w = choose|w: int|
                                0 <= w < current@.skip(ci - 1).len() && #[trigger] current@.skip(
                                    ci - 1,
                                )[w] == x;
                            if w == 0 {
                                assert(x == node_id);
                                assert(visited@.contains(node_id));
                            } else {
                                assert(current@.skip(ci as int)[w - 1] == x);
                            }
                        }
                    }
                    assert forall|v: u128, x: u128|
                        visited@.contains(v) && spec_is_neighbor(adjacency, v, x) implies (
                    visited@.contains(x) || current@.skip(ci as int).contains(x) || next@.contains(
                        x,
                    )) by {
                        if !visited@.contains(x) && !next@.contains(x) {
                            assert(!pre_next.contains(x));
                            assert(current@.skip(ci - 1).contains(x));
                            let w = choose|w: int|
                                0 <= w < current@.skip(ci - 1).len() && #[trigger] current@.skip(
                                    ci - 1,
                                )[w] == x;
                            if w == 0 {
                                assert(x == node_id);
                                assert(visited@.contains(node_id));
                            } else {
                                assert(current@.skip(ci as int)[w - 1] == x);
                            }
                        }
                    }
                }
            }
            proof {
                assert(current@.skip(current@.len() as int).len() == 0);
                // Everything reachable in the closed hops is visited, and
                // the next frontier covers the following hop.
                assert forall|x: u128|
                    spec_reachable_within(adjacency, start_node, (hop + 1) as nat, x) implies (
                visited@.contains(x) || next@.contains(x)) by {
                    if !spec_reachable_within(adjacency, start_node, hop as nat, x) {
                        lemma_reachable_step(adjacency, start_node, (hop + 1) as nat, x);
                        let y = choose|y: u128|
                            spec_reachable_within(adjacency, start_node, hop as nat, y)
                                && #[trigger] spec_is_neighbor(adjacency, y, x);
                        assert(spec_reachable_within(adjacency, start_node, hop as nat, y));
                        assert(visited@.contains(y));
                    }
                }
                if hop + 1 <= max_hops {
                    assert forall|j: int| 0 <= j < next@.len() implies spec_reachable_within(
                        adjacency,
                        start_node,
                        max_hops as nat,
                        #[trigger] next@[j],
                    ) by {
                        lemma_reachable_mono(
                            adjacency,
                            start_node,
                            (hop + 1) as nat,
                            max_hops as nat,
                            next@[j],
                        );
                    }
                }
            }
            current = next;
            hop = hop + 1;
        }
        proof {
            if hop > max_hops {
                assert(hop == max_hops + 1);
                assert forall|x: u128|
                    spec_reachable_within(
                        adjacency,
                        start_node,
                        max_hops as nat,
                        x,
                    ) implies visited@.contains(x) by {
                    assert((hop - 1) as nat == max_hops as nat);
                    assert(spec_reachable_within(adjacency, start_node, (hop - 1) as nat, x));
                }
            } else {
                assert(current@.len() == 0);
                assert forall|x: u128|
                    spec_reachable_within(adjacency, start_node, hop as nat, x) implies visited@.contains(
                    x,
                ) by {}
                assert forall|v: u128, x: u128|
                    visited@.contains(v) && spec_is_neighbor(adjacency, v, x) implies visited@.contains(
                    x,
                ) by {}
                lemma_reachable_closed(
                    adjacency,
                    start_node,
                    hop as nat,
                    max_hops as nat,
                    visited@,
                );
            }
            assert(spec_bfs_order(adjacency, start_node, max_hops, visited@));
            lemma_visit_soundness(
                nodesm,
                adjacency,
                chunk_entries,
                start_node,
                max_hops,
                visited@,
            );
            let mapped_objects = result.objects@.map_values(|o: &ObjectMetadata| *o);
            let mapped_edges = result.edges@.map_values(|e: &Edge| *e);
            let mapped_chunks = result.chunks@.map_values(|c: &TextChunk| *c);
            assert(forall|i: int|
                0 <= i < result.objects@.len() ==> *(#[trigger] result.objects@[i])
                    == mapped_objects[i]);
            assert(forall|i: int|
                0 <= i < result.edges@.len() ==> *(#[trigger] result.edges@[i])
                    == mapped_edges[i]);
            assert(forall|i: int|
                0 <= i < result.chunks@.len() ==> *(#[trigger] result.chunks@[i])
                    == mapped_chunks[i]);
        }
        result
    }
}

/// Every record, edge and chunk of a sound visit order has a reachable
/// anchor.
proof fn lemma_visit_soundness(
    nodes: Map<u128, ObjectMetadata>,
    adjacency: Map<u128, AdjacencyList>,
    chunk_entries: Seq<(u128, TextChunk)>,
    start: u128,
    max_hops: usize,
    vs: Seq<u128>,
)
    requires
        forall|k: u128| nodes.contains_key(k) ==> (#[trigger] nodes[k]).id == k,
        forall|k: u128|
            adjacency.contains_key(k) ==> spec_adj_anchored(k, #[trigger] adjacency[k]),
        forall|i: int|
            0 <= i < vs.len() ==> spec_reachable_within(
                adjacency,
                start,
                max_hops as nat,
                #[trigger] vs[i],
            ),
    ensures
        ({
            let objects = spec_visit_objects(nodes, vs);
            let edges = spec_visit_edges(adjacency, vs);
            let chunks = spec_visit_chunks(chunk_entries, vs);
            &&& (forall|i: int|
                0 <= i < objects.len() ==> nodes.contains_key((#[trigger] objects[i]).id)
                    && objects[i] == nodes[objects[i].id] && spec_reachable_within(
                    adjacency,
                    start,
                    max_hops as nat,
                    objects[i].id,
                ))
            &&& (forall|i: int|
                0 <= i < edges.len() ==> spec_reachable_within(
                    adjacency,
                    start,
                    max_hops as nat,
                    (#[trigger] edges[i]).from,
                ) || spec_reachable_within(adjacency, start, max_hops as nat, edges[i].to))
            &&& (forall|i: int|
                0 <= i < chunks.len() ==> spec_reachable_within(
                    adjacency,
                    start,
                    max_hops as nat,
                    (#[trigger] chunks[i]).object_id,
                ))
        }),
    decreases vs.len(),
{
    if vs.len() > 0 {
        assert(forall|i: int|
            0 <= i < vs.drop_last().len() ==> spec_reachable_within(
                adjacency,
                start,
                max_hops as nat,
                #[trigger] vs.drop_last()[i],
            ));
        lemma_visit_soundness(nodes, adjacency, chunk_entries, start, max_hops, vs.drop_last());
        let v = vs.last();
        assert(spec_reachable_within(adjacency, start, max_hops as nat, v)) by {
            assert(vs[vs.len() - 1] == v);
        }
        let objects = spec_visit_objects(nodes, vs);
        let prev_objects = spec_visit_objects(nodes, vs.drop_last());
        assert forall|i: int| 0 <= i < objects.len() implies nodes.contains_key(
            (#[trigger] objects[i]).id,
        ) && objects[i] == nodes[objects[i].id] && spec_reachable_within(
            adjacency,
            start,
            max_hops as nat,
            objects[i].id,
        ) by {
            if i < prev_objects.len() {
                assert(objects[i] == prev_objects[i]);
            } else {
                assert(nodes.contains_key(v));
                assert(objects[i] == nodes[v]);
                assert(nodes[v].id == v);
            }
        }
        let edges = spec_visit_edges(adjacency, vs);
        let prev_edges = spec_visit_edges(adjacency, vs.drop_last());
        let outs = out_edges(adjacency, v);
        let incs = in_edges(adjacency, v);
        assert forall|i: int| 0 <= i < edges.len() implies spec_reachable_within(
            adjacency,
            start,
            max_hops as nat,
            (#[trigger] edges[i]).from,
        ) || spec_reachable_within(adjacency, start, max_hops as nat, edges[i].to) by {
            if i < prev_edges.len() {
                assert(edges[i] == prev_edges[i]);
            } else if i < prev_edges.len() + outs.len() {
                assert(edges[i] == outs[i - prev_edges.len()]);
                assert(adjacency.contains_key(v));
                assert(edges[i].from == v);
            } else {
                assert(edges[i] == incs[i - prev_edges.len() - outs.len()]);
                assert(adjacency.contains_key(v));
                assert(edges[i].to == v);
            }
        }
        let chunks = spec_visit_chunks(chunk_entries, vs);
        let prev_chunks = spec_visit_chunks(chunk_entries, vs.drop_last());
        let owned = chunk_entries.map_values(|p: (u128, TextChunk)| p.1).filter(
            |c: TextChunk| c.object_id == v,
        );
        assert forall|i: int| 0 <= i < chunks.len() implies spec_reachable_within(
            adjacency,
            start,
            max_hops as nat,
            (#[trigger] chunks[i]).object_id,
        ) by {
            if i < prev_chunks.len() {
                assert(chunks[i] == prev_chunks[i]);
            } else {
                assert(chunks[i] == owned[i - prev_chunks.len()]);
                chunk_entries.map_values(|p: (u128, TextChunk)| p.1).lemma_filter_pred(
                    |c: TextChunk| c.object_id == v,
                    i - prev_chunks.len(),
                );
            }
        }
    }
}

/// Inserts a value into a strictly ascending vector, keeping it strictly
/// ascending; present values are left alone.
pub fn insert_sorted_unique(v: &mut Vec<u128>, x: u128)
    requires
        forall|a: int, b: int| 0 <= a < b < old(v)@.len() ==> old(v)@[a] < old(v)@[b],
    ensures
        forall|a: int, b: int| 0 <= a < b < final(v)@.len() ==> final(v)@[a] < final(v)@[b],
        forall|y: u128| final(v)@.contains(y) <==> old(v)@.contains(y) || y == x,
{
    let ghost pre = v@;
    let mut i: usize = 0;
    while i < v.len() && v[i] < x
        invariant
            i <= v@.len(),
            v@ == pre,
            forall|j: int| 0 <= j < i ==> v@[j] < x,
        decreases v@.len() - i,
    {
        i = i + 1;
    }
    if i < v.len() {
        if v[i] == x {
            proof {
                assert(v@.contains(x)) by {
                    assert(v@[i as int] == x);
                }
            }
            return ;
        }
    }
    v.insert(i, x);
    proof {
        assert(v@ =~= pre.insert(i as int, x));
        // At the insertion point everything before is below x and, when an
        // element stands there, it is above x.
        assert(i < pre.len() ==> pre[i as int] > x);
        assert forall|a: int, b: int| 0 <= a < b < v@.len() implies v@[a] < v@[b] by {
            if b < i {
                assert(v@[a] == pre[a] && v@[b] == pre[b]);
            } else if b == i {
                assert(v@[a] == pre[a] && v@[b] == x);
            } else if a == i {
                assert(v@[a] == x && v@[b] == pre[b - 1]);
                assert(pre[i as int] <= pre[b - 1]);
            } else if a < i {
                assert(v@[a] == pre[a] && v@[b] == pre[b - 1]);
            } else {
                assert(v@[a] == pre[a - 1] && v@[b] == pre[b - 1]);
            }
        }
        assert forall|y: u128| v@.contains(y) implies pre.contains(y) || y == x by {
            let j = choose|j: int| 0 <= j < v@.len() && v@[j] == y;
            if j < i {
                assert(pre[j] == y);
            } else if j == i {
            } else {
                assert(pre[j - 1] == y);
            }
        }
        assert forall|y: u128| pre.contains(y) implies v@.contains(y) by {
            let j = choose|j: int| 0 <= j < pre.len() && pre[j] == y;
            if j < i {
                assert(v@[j] == y);
            } else {
                assert(v@[j + 1] == y);
            }
        }
        assert(v@.contains(x)) by {
            assert(v@[i as int] == x);
        }
    }
}

} // verus!
