//! Laws of the engine that relate several operations, stated over the spec
//! functions its contracts use and proved here once and for all.

use crate::store::{
    lemma_retain_in_clean, lemma_retain_out_clean, out_edges, spec_matches_in, spec_matches_out,
    spec_name_key, spec_retain_in, spec_retain_out, KnowledgeGraphStorage,
};
use crate::types::{eq_mod_updated, Edge, EdgeType, ObjectMetadata, TextChunk};
use vstd::prelude::*;

verus! {

/// An added object is read back whole: after a store step that wrote the
/// object under its id, a lookup of that id yields exactly the object (and
/// so, after an update, the object up to its update timestamp).
pub proof fn lemma_object_read_back(
    before: KnowledgeGraphStorage,
    after: KnowledgeGraphStorage,
    o: ObjectMetadata,
)
    requires
        after.nodes@ == before.nodes@.insert(o.id, o),
    ensures
        after.nodes@.contains_key(o.id),
        after.nodes@[o.id] == o,
        eq_mod_updated(after.nodes@[o.id], o),
{
}

/// Writing the same object twice leaves the same store as writing it once:
/// the node and name columns are unchanged by the second write.
pub proof fn lemma_upsert_node_idempotent(
    s0: KnowledgeGraphStorage,
    s1: KnowledgeGraphStorage,
    s2: KnowledgeGraphStorage,
    o: ObjectMetadata,
)
    requires
        s1.nodes@ == s0.nodes@.insert(o.id, o),
        s1.names@ == s0.names@.insert(spec_name_key(o.object_type@, o.name@), o.id),
        s2.nodes@ == s1.nodes@.insert(o.id, o),
        s2.names@ == s1.names@.insert(spec_name_key(o.object_type@, o.name@), o.id),
    ensures
        s2.nodes@ == s1.nodes@,
        s2.names@ == s1.names@,
{
    assert(s2.nodes@ =~= s1.nodes@);
    assert(s2.names@ =~= s1.names@);
}

/// How many outgoing entries of a list match a (target, kind) pair.
pub open spec fn spec_count_matching_out(s: Seq<Edge>, to: u128, t: EdgeType) -> nat {
    s.filter(|e: Edge| spec_matches_out(e, to, t)).len()
}

/// Nothing matching survives a retain, so its match filter is empty.
proof fn lemma_retain_out_filter_empty(s: Seq<Edge>, to: u128, t: EdgeType)
    ensures
        spec_retain_out(s, to, t).filter(|e: Edge| spec_matches_out(e, to, t)) =~= Seq::<
            Edge,
        >::empty(),
{
    lemma_retain_out_clean(s, to, t);
    lemma_filter_of_clean(spec_retain_out(s, to, t), |e: Edge| spec_matches_out(e, to, t));
}

/// Filtering a sequence none of whose elements satisfies the predicate
/// gives the empty sequence.
proof fn lemma_filter_of_clean<A>(s: Seq<A>, pred: spec_fn(A) -> bool)
    requires
        forall|i: int| 0 <= i < s.len() ==> !pred(#[trigger] s[i]),
    ensures
        s.filter(pred) =~= Seq::<A>::empty(),
    decreases s.len(),
{
    reveal_with_fuel(Seq::filter, 2);
    if s.len() > 0 {
        assert(forall|i: int| 0 <= i < s.drop_last().len() ==> !pred(#[trigger] s.drop_last()[i]));
        lemma_filter_of_clean(s.drop_last(), pred);
        assert(!pred(s.last()));
    }
}

/// Writing an edge leaves exactly one outgoing record of its
/// (from, to, kind) triple: the outgoing list after an upsert, which is the
/// retained old list plus the new edge, has exactly one matching entry —
/// however many times the edge had been written before.
pub proof fn lemma_upsert_edge_once(old_out: Seq<Edge>, e: Edge)
    requires
        spec_matches_out(e, e.to, e.edge_type),
    ensures
        spec_count_matching_out(
            spec_retain_out(old_out, e.to, e.edge_type).push(e),
            e.to,
            e.edge_type,
        ) == 1,
{
    reveal_with_fuel(Seq::filter, 2);
    let retained = spec_retain_out(old_out, e.to, e.edge_type);
    lemma_retain_out_filter_empty(old_out, e.to, e.edge_type);
    let pred = |x: Edge| spec_matches_out(x, e.to, e.edge_type);
    assert(retained.push(e).drop_last() =~= retained);
    assert(retained.push(e).filter(pred) =~= retained.filter(pred).push(e));
}

/// The symmetric law for incoming records.
pub open spec fn spec_count_matching_in(s: Seq<Edge>, from: u128, t: EdgeType) -> nat {
    s.filter(|e: Edge| spec_matches_in(e, from, t)).len()
}

pub proof fn lemma_upsert_edge_once_incoming(old_in: Seq<Edge>, e: Edge)
    requires
        spec_matches_in(e, e.from, e.edge_type),
    ensures
        spec_count_matching_in(
            spec_retain_in(old_in, e.from, e.edge_type).push(e),
            e.from,
            e.edge_type,
        ) == 1,
{
    reveal_with_fuel(Seq::filter, 2);
    let retained = spec_retain_in(old_in, e.from, e.edge_type);
    lemma_retain_in_clean(old_in, e.from, e.edge_type);
    let pred = |x: Edge| spec_matches_in(x, e.from, e.edge_type);
    lemma_filter_of_clean(retained, pred);
    assert(retained.push(e).drop_last() =~= retained);
    assert(retained.push(e).filter(pred) =~= retained.filter(pred).push(e));
}

/// An added chunk is read back: a chunk record owned by an object is among
/// the chunks returned for that object, which are the owner-filtered chunk
/// column.
pub proof fn lemma_chunk_read_back(entries: Seq<(u128, TextChunk)>, i: int, object_id: u128)
    requires
        0 <= i < entries.len(),
        entries[i].1.object_id == object_id,
    ensures
        entries.map_values(|p: (u128, TextChunk)| p.1).filter(
            |c: TextChunk| c.object_id == object_id,
        ).contains(entries[i].1),
{
    let mapped = entries.map_values(|p: (u128, TextChunk)| p.1);
    assert(mapped[i] == entries[i].1);
    mapped.lemma_filter_contains(|c: TextChunk| c.object_id == object_id, i);
}

/// A saved schema is loaded back whole: saving writes the schema under its
/// name, and a load of that name returns exactly the saved value. The same
/// fact closes the file round trip, where a schema built from parsed files
/// is saved and reloaded.
pub proof fn lemma_schema_round_trip(
    before: KnowledgeGraphStorage,
    after: KnowledgeGraphStorage,
    s: crate::schema::SchemaDefinition,
)
    requires
        after.schemas@ == before.schemas@.insert(s.name@, s),
    ensures
        after.schemas@.contains_key(s.name@),
        after.schemas@[s.name@] == s,
{
}

} // verus!
