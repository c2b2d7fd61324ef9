//! The search engine's verified side: the ordered name index over a
//! finite-state transducer, the side table that resolves vector-index hits
//! to chunks, and text previews. The embedding model and the
//! nearest-neighbor index compute with floating point and live with the
//! surrounding runtime, which hands their integer hit lists back in.

use crate::kvmap::IdMap;
use crate::store::GraphError;
use crate::types::ObjectType;
use vstd::multiset::Multiset;
use vstd::prelude::*;
use vstd::string::StringExecFns;
use vstd::string::StringSliceAdditionalSpecFns;
use vstd::string::StrSliceExecFns;
use fst::Automaton;
use fst::IntoStreamer;

verus! {

#[verifier::external_type_specification]
#[verifier::external_body]
#[verifier::reject_recursive_types(D)]
pub struct ExFstMap<D>(fst::Map<D>);

/// The key/value pairs a name map holds, in ascending key order.
pub uninterp spec fn fst_entries(m: fst::Map<Vec<u8>>) -> Seq<(Seq<u8>, u64)>;

/// Strict byte-wise lexicographic order.
pub open spec fn spec_bytes_lt(a: Seq<u8>, b: Seq<u8>) -> bool
    decreases a.len(),
{
    if b.len() == 0 {
        false
    } else if a.len() == 0 {
        true
    } else if a[0] < b[0] {
        true
    } else if a[0] > b[0] {
        false
    } else {
        spec_bytes_lt(a.drop_first(), b.drop_first())
    }
}

/// The bytes of a string value.
pub open spec fn spec_str_bytes(s: String) -> Seq<u8> {
    vstd::utf8::encode_utf8(s@)
}

/// Whether the key begins with the prefix.
pub open spec fn spec_starts_with(key: Seq<u8>, prefix: Seq<u8>) -> bool {
    key.len() >= prefix.len() && key.take(prefix.len() as int) == prefix
}

/// Relies on fst::Map::from_iter: builds a map from key/value pairs, and
/// succeeds exactly when the keys are unique and lexicographically ordered;
/// the built map streams those entries back in that order.
#[verifier::external_body]
fn fst_build(pairs: Vec<(Vec<u8>, u64)>) -> (r: Option<fst::Map<Vec<u8>>>)
    ensures
        r matches Some(m) ==> fst_entries(m) == pairs@.map_values(
            |p: (Vec<u8>, u64)| (p.0@, p.1),
        ),
        (forall|i: int, j: int|
            0 <= i < j < pairs@.len() ==> spec_bytes_lt(
                (#[trigger] pairs@[i]).0@,
                (#[trigger] pairs@[j]).0@,
            )) ==> r is Some,
{
    fst::Map::from_iter(pairs).ok()
}

/// Relies on fst::Map::search with a starts-with string automaton: streams
/// exactly the entries whose key begins with the prefix, in key order; this
/// returns their values.
#[verifier::external_body]
fn fst_prefix_values(m: &fst::Map<Vec<u8>>, prefix: &str) -> (r: Vec<u64>)
    ensures
        r@ == fst_entries(*m).filter(
            |e: (Seq<u8>, u64)| spec_starts_with(e.0, prefix.spec_bytes()),
        ).map_values(|e: (Seq<u8>, u64)| e.1),
{
    let stream = m.search(fst::automaton::Str::new(prefix).starts_with()).into_stream();
    stream.into_byte_vec().into_iter().map(|p| p.1).collect()
}

/// Every element of a filtered sequence comes from the sequence.
proof fn lemma_filter_sub<A>(s: Seq<A>, pred: spec_fn(A) -> bool)
    ensures
        forall|i: int|
            0 <= i < s.filter(pred).len() ==> s.contains(#[trigger] s.filter(pred)[i]),
    decreases s.len(),
{
    reveal_with_fuel(Seq::filter, 2);
    if s.len() > 0 {
        lemma_filter_sub(s.drop_last(), pred);
        assert forall|i: int| 0 <= i < s.filter(pred).len() implies s.contains(
            #[trigger] s.filter(pred)[i],
        ) by {
            if i < s.drop_last().filter(pred).len() {
                assert(s.drop_last().contains(s.drop_last().filter(pred)[i]));
                let j = choose|j: int|
                    0 <= j < s.drop_last().len() && s.drop_last()[j] == s.drop_last().filter(
                        pred,
                    )[i];
                assert(s[j] == s.filter(pred)[i]);
            } else {
                assert(s.filter(pred)[i] == s.last());
                assert(s[s.len() - 1] == s.last());
            }
        }
    }
}

/// Filtering keeps the ascending key order of an entry stream.
proof fn lemma_filter_keeps_order(s: Seq<(Seq<u8>, u64)>, pred: spec_fn((Seq<u8>, u64)) -> bool)
    requires
        forall|a: int, b: int|
            0 <= a < b < s.len() ==> spec_bytes_lt((#[trigger] s[a]).0, (#[trigger] s[b]).0),
    ensures
        forall|a: int, b: int|
            0 <= a < b < s.filter(pred).len() ==> spec_bytes_le(
                (#[trigger] s.filter(pred)[a]).0,
                (#[trigger] s.filter(pred)[b]).0,
            ),
    decreases s.len(),
{
    reveal_with_fuel(Seq::filter, 2);
    if s.len() > 0 {
        assert(forall|a: int, b: int|
            0 <= a < b < s.drop_last().len() ==> spec_bytes_lt(
                (#[trigger] s.drop_last()[a]).0,
                (#[trigger] s.drop_last()[b]).0,
            ));
        lemma_filter_keeps_order(s.drop_last(), pred);
        lemma_filter_sub(s.drop_last(), pred);
        let f = s.filter(pred);
        let fd = s.drop_last().filter(pred);
        assert forall|a: int, b: int| 0 <= a < b < f.len() implies spec_bytes_le(
            (#[trigger] f[a]).0,
            (#[trigger] f[b]).0,
        ) by {
            if pred(s.last()) && b == f.len() - 1 && f.len() == fd.len() + 1 {
                assert(f[b] == s.last());
                assert(f[a] == fd[a]);
                assert(s.drop_last().contains(fd[a]));
                let j = choose|j: int|
                    0 <= j < s.drop_last().len() && s.drop_last()[j] == fd[a];
                assert(s[j] == fd[a]);
                if j < s.len() - 1 {
                    assert(spec_bytes_lt(s[j].0, s[s.len() - 1].0));
                }
            } else {
                assert(f[a] == fd[a] && f[b] == fd[b]);
            }
        }
    }
}

/// The index entries whose key begins with the query, in key order.
pub open spec fn spec_prefix_matches(m: fst::Map<Vec<u8>>, query: Seq<u8>) -> Seq<(Seq<u8>, u64)> {
    fst_entries(m).filter(|e: (Seq<u8>, u64)| spec_starts_with(e.0, query))
}

/// What an exact search returns: the first min(limit, #matches) matching
/// entries, each resolved through the side table it indexes.
pub open spec fn spec_exact_results(
    values: Seq<(u128, String, ObjectType)>,
    ms: Seq<(Seq<u8>, u64)>,
    limit: usize,
    res: Seq<ExactSearchResult>,
) -> bool {
    &&& res.len() == if (limit as int) <= ms.len() {
        limit as int
    } else {
        ms.len() as int
    }
    &&& forall|k: int|
        0 <= k < res.len() ==> {
            &&& spec_str_bytes((#[trigger] res[k]).name) == ms[k].0
            &&& 0 <= (ms[k].1 as int) < values.len()
            &&& res[k].object_id == values[ms[k].1 as int].0
            &&& res[k].name@ == values[ms[k].1 as int].1@
            &&& res[k].object_type == values[ms[k].1 as int].2
        }
}

/// A name-index hit.
#[derive(Debug)]
pub struct ExactSearchResult {
    pub object_id: u128,
    pub name: String,
    pub object_type: ObjectType,
}

/// The in-range hits resolved through the side table, in hit order.
pub open spec fn spec_resolved_hits(meta: Seq<(u128, u128, String)>, hits: Seq<usize>) -> Seq<
    (u128, u128, Seq<char>),
>
    decreases hits.len(),
{
    if hits.len() == 0 {
        Seq::empty()
    } else {
        let prev = spec_resolved_hits(meta, hits.drop_last());
        if (hits.last() as int) < meta.len() {
            prev.push(
                (
                    meta[hits.last() as int].0,
                    meta[hits.last() as int].1,
                    meta[hits.last() as int].2@,
                ),
            )
        } else {
            prev
        }
    }
}

/// The content of a semantic result, for comparison up to string views.
pub open spec fn spec_semantic_view(r: SemanticSearchResult) -> (u128, u128, Seq<char>) {
    (r.chunk_id, r.object_id, r.text_preview@)
}

/// A vector-index hit resolved through the side table. The similarity
/// score, a float computed from the index distance, is paired on by the
/// surrounding runtime.
#[derive(Debug)]
pub struct SemanticSearchResult {
    pub chunk_id: u128,
    pub object_id: u128,
    pub text_preview: String,
}

/// Both result lists of a hybrid search, side by side.
#[derive(Debug)]
pub struct HybridSearchResult {
    pub semantic_results: Vec<SemanticSearchResult>,
    pub exact_results: Vec<ExactSearchResult>,
}

/// The preview of a chunk text: the whole text when it has at most one
/// hundred characters, else its first ninety-seven with a trailing mark.
pub open spec fn spec_preview(s: Seq<char>) -> Seq<char> {
    if s.len() > 100 {
        s.take(97) + "..."@
    } else {
        s
    }
}

/// Builds the preview of a chunk text.
pub fn make_preview(content: &str) -> (r: String)
    ensures
        r@ == spec_preview(content@),
{
    let n = content.unicode_len();
    if n > 100 {
        let mut p: String = content.substring_char(0, 97).to_owned();
        p.append("...");
        p
    } else {
        content.to_owned()
    }
}

/// The verified state of the search engine: the name index and its side
/// table, and the vector side table mapping internal point ids to chunks.
pub struct VectorSearchEngine {
    pub name_fst: Option<fst::Map<Vec<u8>>>,
    pub name_values: Vec<(u128, String, ObjectType)>,
    pub vector_meta: Vec<(u128, u128, String)>,
    pub chunk_previews: IdMap<String>,
}

impl VectorSearchEngine {
    pub open spec fn wf(&self) -> bool {
        &&& self.chunk_previews.wf()
        &&& (self.name_fst matches Some(m) ==> fst_entries(m) == Seq::new(
            self.name_values@.len(),
            |i: int| (spec_str_bytes(self.name_values@[i].1), i as u64),
        ))
        &&& forall|i: int, j: int|
            0 <= i < j < self.name_values@.len() ==> spec_bytes_lt(
                spec_str_bytes((#[trigger] self.name_values@[i]).1),
                spec_str_bytes((#[trigger] self.name_values@[j]).1),
            )
    }

    /// An empty engine with no indexes built.
    pub fn new() -> (r: Self)
        ensures
            r.wf(),
            r.name_fst is None,
            r.name_values@ == Seq::<(u128, String, ObjectType)>::empty(),
            r.vector_meta@ == Seq::<(u128, u128, String)>::empty(),
            r.chunk_previews@ == Map::<u128, String>::empty(),
    {
        VectorSearchEngine {
            name_fst: None,
            name_values: Vec::new(),
            vector_meta: Vec::new(),
            chunk_previews: IdMap::new(),
        }
    }

    /// Registers a chunk in the vector side table under the next internal
    /// point id, computing and keeping its preview. The runtime inserts
    /// the embedding into the nearest-neighbor index under the same id.
    pub fn register_chunk(&mut self, chunk_id: u128, object_id: u128, content: &str) -> (r: usize)
        requires
            old(self).wf(),
            old(self).vector_meta@.len() < usize::MAX,
        ensures
            final(self).wf(),
            r == old(self).vector_meta@.len(),
            final(self).vector_meta@.len() == old(self).vector_meta@.len() + 1,
            final(self).vector_meta@.drop_last() == old(self).vector_meta@,
            final(self).vector_meta@.last().0 == chunk_id,
            final(self).vector_meta@.last().1 == object_id,
            final(self).vector_meta@.last().2@ == spec_preview(content@),
            final(self).chunk_previews@.contains_key(chunk_id),
            final(self).chunk_previews@[chunk_id]@ == spec_preview(content@),
            final(self).name_fst == old(self).name_fst,
            final(self).name_values == old(self).name_values,
    {
        let preview = make_preview(content);
        let internal_id = self.vector_meta.len();
        self.vector_meta.push((chunk_id, object_id, preview.clone()));
        self.chunk_previews.insert(chunk_id, preview);
        proof {
            assert(self.vector_meta@.drop_last() =~= old(self).vector_meta@);
        }
        internal_id
    }

    /// Resolves vector-index hits (internal point ids) through the side
    /// table, keeping their order; unknown ids are skipped.
    pub fn resolve_hits(&self, hits: &Vec<usize>) -> (r: Vec<SemanticSearchResult>)
        requires
            self.wf(),
        ensures
            r@.map_values(|x: SemanticSearchResult| spec_semantic_view(x)) == spec_resolved_hits(self.vector_meta@, hits@),
            r@.len() <= hits@.len(),
    {
        let mut out: Vec<SemanticSearchResult> = Vec::new();
        let mut i: usize = 0;
        proof {
            assert(hits@.take(0) =~= Seq::<usize>::empty());
            assert(out@.map_values(|x: SemanticSearchResult| spec_semantic_view(x)) =~= spec_resolved_hits(
                self.vector_meta@,
                hits@.take(0),
            ));
        }
        while i < hits.len()
            invariant
                i <= hits@.len(),
                out@.len() <= i,
                out@.map_values(|x: SemanticSearchResult| spec_semantic_view(x)) == spec_resolved_hits(
                    self.vector_meta@,
                    hits@.take(i as int),
                ),
            decreases hits@.len() - i,
        {
            let ghost prev_out = out@;
            proof {
                assert(hits@.take(i + 1).drop_last() =~= hits@.take(i as int));
                assert(hits@.take(i + 1).last() == hits@[i as int]);
            }
            let h = hits[i];
            if h < self.vector_meta.len() {
                let entry = &self.vector_meta[h];
                let res = SemanticSearchResult {
                    chunk_id: entry.0,
                    object_id: entry.1,
                    text_preview: entry.2.clone(),
                };
                proof {
                    assert(spec_semantic_view(res) == (
                        self.vector_meta@[h as int].0,
                        self.vector_meta@[h as int].1,
                        self.vector_meta@[h as int].2@,
                    ));
                }
                out.push(res);
                proof {
                    assert(out@.map_values(|x: SemanticSearchResult| spec_semantic_view(x)) =~= prev_out.map_values(
                        |x: SemanticSearchResult| spec_semantic_view(x),
                    ).push(spec_semantic_view(res)));
                }
            }
            i = i + 1;
        }
        proof {
            assert(hits@.take(hits@.len() as int) =~= hits@);
        }
        out
    }

    /// Rebuilds the name index in bulk: sorts the entries by name and
    /// builds the transducer over them. Two entries with the same name are
    /// refused, as the transducer holds each key once.
    #[verifier::loop_isolation(false)]
    pub fn rebuild_name_index(&mut self, objects: Vec<(u128, String, ObjectType)>) -> (r: Result<
        (),
        GraphError,
    >)
        requires
            old(self).wf(),
        ensures
            final(self).wf(),
            final(self).vector_meta == old(self).vector_meta,
            final(self).chunk_previews == old(self).chunk_previews,
            r is Ok ==> final(self).name_fst is Some && final(self).name_values@.to_multiset()
                == objects@.to_multiset() && (forall|i: int|
                0 <= i < final(self).name_values@.len() ==> objects@.contains(
                    #[trigger] final(self).name_values@[i],
                )),
            r is Err ==> *final(self) == *old(self),
            r is Ok <==> !spec_has_duplicate_name(objects@),
    {
        let mut sorted = sort_by_name(objects);
        // The transducer needs strictly increasing keys: refuse duplicates.
        let mut i: usize = 1;
        while i < sorted.len()
            invariant
                sorted@.len() > 0 ==> i >= 1,
                i <= sorted@.len() || sorted@.len() == 0,
                forall|a: int, b: int|
                    0 <= a < b < sorted@.len() ==> spec_bytes_le(
                        spec_str_bytes((#[trigger] sorted@[a]).1),
                        spec_str_bytes((#[trigger] sorted@[b]).1),
                    ),
                forall|j: int|
                    1 <= j < i ==> spec_bytes_lt(
                        spec_str_bytes((#[trigger] sorted@[j - 1]).1),
                        spec_str_bytes(sorted@[j].1),
                    ),
                forall|j: int| 0 <= j < sorted@.len() ==> objects@.contains(#[trigger] sorted@[j]),
                sorted@.len() == objects@.len(),
            decreases sorted@.len() - i,
        {
            let prev_is_lt = bytes_str_lt(sorted[i - 1].1.as_str(), sorted[i].1.as_str());
            if !prev_is_lt {
                proof {
                    // Weak order plus a failed strict step means two equal
                    // names, which the input must already have held.
                    assert(spec_bytes_le(
                        spec_str_bytes(sorted@[i - 1].1),
                        spec_str_bytes(sorted@[i as int].1),
                    ));
                    assert(spec_str_bytes(sorted@[i - 1].1) == spec_str_bytes(
                        sorted@[i as int].1,
                    ));
                    assert(spec_has_duplicate_name(sorted@));
                    lemma_dup_names_transfer(sorted@, objects@);
                }
                return Err(GraphError::DuplicateName(sorted[i].1.clone()));
            }
            i = i + 1;
        }
        proof {
            lemma_le_adjacent_lt_total(sorted@);
            // A strictly ordered permutation has no duplicate name, so the
            // input had none either.
            if spec_has_duplicate_name(objects@) {
                lemma_dup_names_transfer(objects@, sorted@);
                let (pd, qd) = choose|pd: int, qd: int|
                    0 <= pd < qd < sorted@.len() && spec_str_bytes((#[trigger] sorted@[pd]).1)
                        == spec_str_bytes((#[trigger] sorted@[qd]).1);
                assert(spec_bytes_lt(
                    spec_str_bytes(sorted@[pd].1),
                    spec_str_bytes(sorted@[qd].1),
                ));
                lemma_bytes_lt_irreflexive(spec_str_bytes(sorted@[pd].1));
                assert(false);
            }
        }
        let mut pairs: Vec<(Vec<u8>, u64)> = Vec::new();
        let mut j: usize = 0;
        while j < sorted.len()
            invariant
                j <= sorted@.len(),
                pairs@.len() == j,
                sorted@.len() <= u64::MAX,
                forall|k: int|
                    0 <= k < j ==> (#[trigger] pairs@[k]).0@ == spec_str_bytes(sorted@[k].1)
                        && pairs@[k].1 == k as u64,
            decreases sorted@.len() - j,
        {
            let name_bytes = sorted[j].1.as_str().as_bytes_vec();
            pairs.push((name_bytes, j as u64));
            j = j + 1;
        }
        proof {
            assert forall|a: int, b: int| 0 <= a < b < pairs@.len() implies spec_bytes_lt(
                (#[trigger] pairs@[a]).0@,
                (#[trigger] pairs@[b]).0@,
            ) by {
                assert(spec_bytes_lt(spec_str_bytes(sorted@[a].1), spec_str_bytes(sorted@[b].1)));
            }
        }
        match fst_build(pairs) {
            Some(m) => {
                proof {
                    assert(fst_entries(m) =~= Seq::new(
                        sorted@.len(),
                        |i2: int| (spec_str_bytes(sorted@[i2].1), i2 as u64),
                    ));
                }
                self.name_fst = Some(m);
                self.name_values = sorted;
                Ok(())
            },
            None => vstd::pervasive::unreached(),
        }
    }

    /// Prefix search over the name index: the hits are entries of the
    /// index whose name begins with the query, in index (name) order, at
    /// most `limit` of them. With no index built, the result is empty.
    #[verifier::loop_isolation(false)]
    pub fn search_exact(&self, query: &str, limit: usize) -> (r: Result<
        Vec<ExactSearchResult>,
        GraphError,
    >)
        requires
            self.wf(),
        ensures
            r matches Ok(res) ==> res@.len() <= limit && (forall|i: int|
                0 <= i < res@.len() ==> spec_starts_with(
                    spec_str_bytes((#[trigger] res@[i]).name),
                    query.spec_bytes(),
                ) && (exists|j: int|
                    0 <= j < self.name_values@.len() && (#[trigger] res@[i]).object_id
                        == self.name_values@[j].0 && res@[i].name@ == self.name_values@[j].1@
                        && res@[i].object_type == self.name_values@[j].2)),
            r matches Ok(res) ==> (forall|a: int, b: int|
                0 <= a < b < res@.len() ==> spec_bytes_le(
                    spec_str_bytes((#[trigger] res@[a]).name),
                    spec_str_bytes((#[trigger] res@[b]).name),
                )),
            r is Ok,
            self.name_fst is None ==> (r matches Ok(res) && res@.len() == 0),
            self.name_fst matches Some(m) ==> (r matches Ok(res) && spec_exact_results(
                self.name_values@,
                spec_prefix_matches(m, query.spec_bytes()),
                limit,
                res@,
            )),
    {
        let m = match &self.name_fst {
            Some(m) => m,
            None => {
                return Ok(Vec::new());
            },
        };
        let idxs = fst_prefix_values(m, query);
        let nv_len = self.name_values.len();
        let ghost entries = fst_entries(*m);
        let ghost pred = |e: (Seq<u8>, u64)| spec_starts_with(e.0, query.spec_bytes());
        proof {
            lemma_filter_sub(entries, pred);
            assert forall|a: int, b: int| 0 <= a < b < entries.len() implies spec_bytes_lt(
                (#[trigger] entries[a]).0,
                (#[trigger] entries[b]).0,
            ) by {
                assert(entries[a].0 == spec_str_bytes(self.name_values@[a].1));
                assert(entries[b].0 == spec_str_bytes(self.name_values@[b].1));
            }
            lemma_filter_keeps_order(entries, pred);
        }
        let mut out: Vec<ExactSearchResult> = Vec::new();
        let mut i: usize = 0;
        while i < idxs.len()
            invariant
                self.wf(),
                i <= idxs@.len(),
                out@.len() <= i,
                out@.len() <= limit,
                idxs@ == entries.filter(pred).map_values(|e: (Seq<u8>, u64)| e.1),
                entries == fst_entries(*m),
                self.name_fst == Some(*m),
                forall|k: int|
                    0 <= k < entries.filter(pred).len() ==> entries.contains(
                        #[trigger] entries.filter(pred)[k],
                    ),
                out@.len() == i,
                nv_len == self.name_values@.len(),
                forall|k: int|
                    0 <= k < out@.len() ==> spec_str_bytes((#[trigger] out@[k]).name)
                        == entries.filter(pred)[k].0 && 0 <= (entries.filter(pred)[k].1 as int)
                        < self.name_values@.len() && out@[k].object_id == self.name_values@[entries.filter(
                        pred,
                    )[k].1 as int].0 && out@[k].name@ == self.name_values@[entries.filter(
                        pred,
                    )[k].1 as int].1@ && out@[k].object_type == self.name_values@[entries.filter(
                        pred,
                    )[k].1 as int].2,
                forall|k: int|
                    0 <= k < out@.len() ==> spec_starts_with(
                        spec_str_bytes((#[trigger] out@[k]).name),
                        query.spec_bytes(),
                    ) && (exists|j: int|
                        0 <= j < self.name_values@.len() && (#[trigger] out@[k]).object_id
                            == self.name_values@[j].0 && out@[k].name@ == self.name_values@[j].1@
                            && out@[k].object_type == self.name_values@[j].2),
            decreases idxs@.len() - i,
        {
            if out.len() >= limit {
                proof {
                    assert(entries.filter(pred).len() == idxs@.len());
                    assert(out@.len() == limit);
                }
                return Ok(out);
            }
            let idx64 = idxs[i];
            proof {
                entries.lemma_filter_pred(pred, i as int);
                let fe = entries.filter(pred)[i as int];
                assert(idxs@[i as int] == fe.1);
                assert(entries.contains(fe));
                let j = choose|j: int| 0 <= j < entries.len() && entries[j] == fe;
                assert(entries[j] == (spec_str_bytes(self.name_values@[j].1), j as u64));
                assert(fe.1 == j as u64);
                assert(pred(fe));
                assert(spec_starts_with(spec_str_bytes(self.name_values@[j].1), query.spec_bytes()));
            }
            proof {
                let fe = entries.filter(pred)[i as int];
                let j = choose|j: int| 0 <= j < entries.len() && entries[j] == fe;
                assert(entries.len() == nv_len);
                assert(0 <= j < nv_len);
                assert(fe.1 == j as u64);
                assert(j == idx64 as int);
                assert((idx64 as usize) as int == j);
            }
            let entry = &self.name_values[idx64 as usize];
            let res = ExactSearchResult {
                object_id: entry.0,
                name: entry.1.clone(),
                object_type: entry.2.clone(),
            };
            proof {
                let fe = entries.filter(pred)[i as int];
                let j = choose|j: int| 0 <= j < entries.len() && entries[j] == fe;
                assert(j == idx64 as int);
                assert(res.name@ == self.name_values@[j].1@);
                assert(spec_str_bytes(res.name) == fe.0);
                assert(res.object_id == self.name_values@[fe.1 as int].0);
                assert(res.object_type == self.name_values@[fe.1 as int].2);
            }
            out.push(res);
            i = i + 1;
        }
        proof {
            assert(entries.filter(pred).len() == idxs@.len());
            assert(out@.len() == idxs@.len());
        }
        Ok(out)
    }

    /// Exact and semantic results side by side: the semantic list is the
    /// runtime's vector hits resolved through the side table, the exact
    /// list is the name-index search, unmerged and unranked.
    pub fn search_hybrid(&self, query: &str, semantic_hits: &Vec<usize>, exact_limit: usize) -> (r:
        Result<HybridSearchResult, GraphError>)
        requires
            self.wf(),
        ensures
            r is Ok,
            r matches Ok(h) ==> h.semantic_results@.map_values(
                |x: SemanticSearchResult| spec_semantic_view(x),
            ) == spec_resolved_hits(self.vector_meta@, semantic_hits@),
            r matches Ok(h) ==> (self.name_fst matches Some(m) ==> spec_exact_results(
                self.name_values@,
                spec_prefix_matches(m, query.spec_bytes()),
                exact_limit,
                h.exact_results@,
            )),
            r matches Ok(h) ==> (self.name_fst is None ==> h.exact_results@.len() == 0),
    {
        let semantic_results = self.resolve_hits(semantic_hits);
        match self.search_exact(query, exact_limit) {
            Ok(exact_results) => Ok(HybridSearchResult { semantic_results, exact_results }),
            Err(e) => Err(e),
        }
    }
}

/// The strict byte order is irreflexive.
proof fn lemma_bytes_lt_irreflexive(a: Seq<u8>)
    ensures
        !spec_bytes_lt(a, a),
    decreases a.len(),
{
    if a.len() > 0 {
        lemma_bytes_lt_irreflexive(a.drop_first());
    }
}

/// Two positions with the same value put its count at two or more.
proof fn lemma_two_indexes_count2<A>(s: Seq<A>, i: int, j: int)
    requires
        0 <= i < j < s.len(),
        s[i] == s[j],
    ensures
        s.to_multiset().count(s[i]) >= 2,
{
    broadcast use vstd::multiset::group_multiset_axioms;

    s.to_multiset_ensures();
    let removed = s.remove(j);
    removed.to_multiset_ensures();
    assert(removed.to_multiset() =~= s.to_multiset().remove(s[j]));
    assert(removed[i] == s[i]);
    assert(removed.contains(s[i]));
    assert(removed.to_multiset().count(s[i]) > 0);
}

/// A count of two or more yields two positions with that value.
proof fn lemma_count2_two_indexes<A>(s: Seq<A>, x: A)
    requires
        s.to_multiset().count(x) >= 2,
    ensures
        exists|i: int, j: int| 0 <= i < j < s.len() && #[trigger] s[i] == x && #[trigger] s[j] == x,
{
    broadcast use vstd::multiset::group_multiset_axioms;

    s.to_multiset_ensures();
    assert(s.contains(x));
    let i = choose|i: int| 0 <= i < s.len() && s[i] == x;
    let removed = s.remove(i);
    removed.to_multiset_ensures();
    assert(removed.to_multiset() =~= s.to_multiset().remove(x));
    assert(removed.to_multiset().count(x) >= 1);
    assert(removed.contains(x));
    let i2 = choose|i2: int| 0 <= i2 < removed.len() && removed[i2] == x;
    if i2 < i {
        assert(s[i2] == x);
        assert(s[i2] == x && s[i] == x);
    } else {
        assert(s[i2 + 1] == x);
        assert(s[i] == x && s[i2 + 1] == x);
    }
}

/// Whether two entries of the list carry the same name.
pub open spec fn spec_has_duplicate_name(s: Seq<(u128, String, ObjectType)>) -> bool {
    exists|i: int, j: int|
        0 <= i < j < s.len() && spec_str_bytes((#[trigger] s[i]).1) == spec_str_bytes(
            (#[trigger] s[j]).1,
        )
}

/// A duplicate name carries over to any permutation.
proof fn lemma_dup_names_transfer(
    a: Seq<(u128, String, ObjectType)>,
    b: Seq<(u128, String, ObjectType)>,
)
    requires
        a.to_multiset() == b.to_multiset(),
        spec_has_duplicate_name(a),
    ensures
        spec_has_duplicate_name(b),
{
    broadcast use vstd::multiset::group_multiset_axioms;

    a.to_multiset_ensures();
    b.to_multiset_ensures();
    let (i, j) = choose|i: int, j: int|
        0 <= i < j < a.len() && spec_str_bytes((#[trigger] a[i]).1) == spec_str_bytes(
            (#[trigger] a[j]).1,
        );
    if a[i] == a[j] {
        lemma_two_indexes_count2(a, i, j);
        lemma_count2_two_indexes(b, a[i]);
        let (p, q) = choose|p: int, q: int|
            0 <= p < q < b.len() && #[trigger] b[p] == a[i] && #[trigger] b[q] == a[i];
        assert(spec_str_bytes(b[p].1) == spec_str_bytes(b[q].1));
    } else {
        assert(a.contains(a[i]));
        assert(a.contains(a[j]));
        assert(b.to_multiset().count(a[i]) > 0);
        assert(b.to_multiset().count(a[j]) > 0);
        assert(b.contains(a[i]));
        assert(b.contains(a[j]));
        let p = choose|p: int| 0 <= p < b.len() && b[p] == a[i];
        let q = choose|q: int| 0 <= q < b.len() && b[q] == a[j];
        assert(p != q);
        if p < q {
            assert(spec_str_bytes(b[p].1) == spec_str_bytes(b[q].1));
        } else {
            assert(spec_str_bytes(b[q].1) == spec_str_bytes(b[p].1));
        }
    }
}

/// Byte-wise less-or-equal.
pub open spec fn spec_bytes_le(a: Seq<u8>, b: Seq<u8>) -> bool {
    spec_bytes_lt(a, b) || a == b
}

/// Adjacent strict order on a weakly sorted run is total strict order.
proof fn lemma_le_adjacent_lt_total(s: Seq<(u128, String, ObjectType)>)
    requires
        forall|a: int, b: int|
            0 <= a < b < s.len() ==> spec_bytes_le(
                spec_str_bytes((#[trigger] s[a]).1),
                spec_str_bytes((#[trigger] s[b]).1),
            ),
        forall|j: int|
            1 <= j < s.len() ==> spec_bytes_lt(
                spec_str_bytes((#[trigger] s[j - 1]).1),
                spec_str_bytes(s[j].1),
            ),
    ensures
        forall|a: int, b: int|
            0 <= a < b < s.len() ==> spec_bytes_lt(
                spec_str_bytes((#[trigger] s[a]).1),
                spec_str_bytes((#[trigger] s[b]).1),
            ),
{
    assert forall|a: int, b: int| 0 <= a < b < s.len() implies spec_bytes_lt(
        spec_str_bytes((#[trigger] s[a]).1),
        spec_str_bytes((#[trigger] s[b]).1),
    ) by {
        assert(spec_bytes_lt(spec_str_bytes(s[b - 1].1), spec_str_bytes(s[b].1)));
        if a < b - 1 {
            assert(spec_bytes_le(spec_str_bytes(s[a].1), spec_str_bytes(s[b - 1].1)));
            if spec_str_bytes(s[a].1) == spec_str_bytes(s[b - 1].1) {
            } else {
                lemma_bytes_lt_trans(
                    spec_str_bytes(s[a].1),
                    spec_str_bytes(s[b - 1].1),
                    spec_str_bytes(s[b].1),
                );
            }
        }
    }
}

/// Transitivity of the strict byte order.
proof fn lemma_bytes_lt_trans(a: Seq<u8>, b: Seq<u8>, c: Seq<u8>)
    requires
        spec_bytes_lt(a, b),
        spec_bytes_lt(b, c),
    ensures
        spec_bytes_lt(a, c),
    decreases a.len(),
{
    if a.len() > 0 && b.len() > 0 && c.len() > 0 {
        if a[0] == b[0] && b[0] == c[0] {
            lemma_bytes_lt_trans(a.drop_first(), b.drop_first(), c.drop_first());
        }
    }
}

/// Whether the first string's bytes order strictly before the second's.
fn bytes_str_lt(a: &str, b: &str) -> (r: bool)
    ensures
        r == spec_bytes_lt(a.spec_bytes(), b.spec_bytes()),
{
    let ab = a.as_bytes();
    let bb = b.as_bytes();
    let mut i: usize = 0;
    proof {
        assert(ab@.skip(0) =~= ab@);
        assert(bb@.skip(0) =~= bb@);
    }
    while i < ab.len() && i < bb.len()
        invariant
            i <= ab@.len(),
            i <= bb@.len(),
            ab@ == a.spec_bytes(),
            bb@ == b.spec_bytes(),
            forall|j: int| 0 <= j < i ==> ab@[j] == bb@[j],
            spec_bytes_lt(a.spec_bytes(), b.spec_bytes()) == spec_bytes_lt(
                ab@.skip(i as int),
                bb@.skip(i as int),
            ),
        decreases ab@.len() - i,
    {
        proof {
            assert(ab@.skip(i as int)[0] == ab@[i as int]);
            assert(bb@.skip(i as int)[0] == bb@[i as int]);
            assert(ab@.skip(i as int).drop_first() =~= ab@.skip(i + 1));
            assert(bb@.skip(i as int).drop_first() =~= bb@.skip(i + 1));
        }
        if ab[i] < bb[i] {
            return true;
        }
        if ab[i] > bb[i] {
            return false;
        }
        i = i + 1;
    }
    proof {
        if i >= ab.len() {
            assert(ab@.skip(i as int).len() == 0);
        } else {
            assert(bb@.skip(i as int).len() == 0);
        }
    }
    i >= ab.len() && i < bb.len()
}

/// Sorts name entries by their name bytes (insertion sort): the result is
/// a weakly sorted permutation of the input.
fn sort_by_name(objects: Vec<(u128, String, ObjectType)>) -> (r: Vec<(u128, String, ObjectType)>)
    ensures
        r@.len() == objects@.len(),
        forall|a: int, b: int|
            0 <= a < b < r@.len() ==> spec_bytes_le(
                spec_str_bytes((#[trigger] r@[a]).1),
                spec_str_bytes((#[trigger] r@[b]).1),
            ),
        forall|i: int| 0 <= i < r@.len() ==> objects@.contains(#[trigger] r@[i]),
        r@.to_multiset() == objects@.to_multiset(),
{
    let mut input = objects;
    let ghost orig = input@;
    let mut out: Vec<(u128, String, ObjectType)> = Vec::new();
    proof {
        broadcast use vstd::multiset::group_multiset_axioms;

        out@.to_multiset_ensures();
        assert(out@.to_multiset() =~= Multiset::<(u128, String, ObjectType)>::empty());
        assert(out@.to_multiset().add(input@.to_multiset()) =~= input@.to_multiset());
    }
    while input.len() > 0
        invariant
            out@.len() + input@.len() == orig.len(),
            out@.to_multiset().add(input@.to_multiset()) == orig.to_multiset(),
            forall|a: int, b: int|
                0 <= a < b < out@.len() ==> spec_bytes_le(
                    spec_str_bytes((#[trigger] out@[a]).1),
                    spec_str_bytes((#[trigger] out@[b]).1),
                ),
            forall|i: int| 0 <= i < out@.len() ==> orig.contains(#[trigger] out@[i]),
            forall|i: int| 0 <= i < input@.len() ==> orig.contains(#[trigger] input@[i]),
        decreases input@.len(),
    {
        let ghost pre_in = input@;
        let ghost pre_m = out@.to_multiset().add(input@.to_multiset());
        let x = input.remove(0);
        proof {
            assert(x == pre_in[0]);
            assert(pre_in.contains(pre_in[0]));
            assert(input@ =~= pre_in.drop_first());
            pre_in.to_multiset_ensures();
            assert(input@.to_multiset() =~= pre_in.to_multiset().remove(x)) by {
                assert(pre_in.remove(0) =~= pre_in.drop_first());
            }
            assert forall|i: int| 0 <= i < input@.len() implies orig.contains(
                #[trigger] input@[i],
            ) by {
                assert(input@[i] == pre_in[i + 1]);
            }
        }
        let mut pos: usize = 0;
        while pos < out.len() && bytes_str_lt(out[pos].1.as_str(), x.1.as_str())
            invariant
                pos <= out@.len(),
                forall|j: int|
                    0 <= j < pos ==> spec_bytes_lt(
                        spec_str_bytes((#[trigger] out@[j]).1),
                        spec_str_bytes(x.1),
                    ),
            decreases out@.len() - pos,
        {
            pos = pos + 1;
        }
        let ghost pre_out = out@;
        out.insert(pos, x);
        proof {
            assert(out@ =~= pre_out.insert(pos as int, x));
            vstd::seq_lib::to_multiset_insert(pre_out, pos as int, x);
            assert(out@.to_multiset() =~= pre_out.to_multiset().insert(x));
            assert(pre_in.to_multiset().contains(x)) by {
                pre_in.to_multiset_ensures();
            }
            assert(out@.to_multiset().add(input@.to_multiset()) =~= orig.to_multiset());
            assert forall|a: int, b: int| 0 <= a < b < out@.len() implies spec_bytes_le(
                spec_str_bytes((#[trigger] out@[a]).1),
                spec_str_bytes((#[trigger] out@[b]).1),
            ) by {
                lemma_bytes_order_total(pre_out, pos as int, x, a, b);
            }
            assert forall|i: int| 0 <= i < out@.len() implies orig.contains(
                #[trigger] out@[i],
            ) by {
                if i < pos {
                    assert(out@[i] == pre_out[i]);
                } else if i == pos {
                    assert(out@[i] == x);
                } else {
                    assert(out@[i] == pre_out[i - 1]);
                }
            }
        }
    }
    proof {
        broadcast use vstd::multiset::group_multiset_axioms;

        input@.to_multiset_ensures();
        assert(input@.to_multiset() =~= Multiset::<(u128, String, ObjectType)>::empty());
        assert(out@.to_multiset() =~= orig.to_multiset());
    }
    out
}

/// Order facts for one insertion-sort step.
proof fn lemma_bytes_order_total(
    pre: Seq<(u128, String, ObjectType)>,
    pos: int,
    x: (u128, String, ObjectType),
    a: int,
    b: int,
)
    requires
        0 <= pos <= pre.len(),
        forall|i: int, j: int|
            0 <= i < j < pre.len() ==> spec_bytes_le(
                spec_str_bytes((#[trigger] pre[i]).1),
                spec_str_bytes((#[trigger] pre[j]).1),
            ),
        forall|j: int| 0 <= j < pos ==> spec_bytes_lt(spec_str_bytes((#[trigger] pre[j]).1), spec_str_bytes(x.1)),
        pos < pre.len() ==> !spec_bytes_lt(spec_str_bytes(pre[pos].1), spec_str_bytes(x.1)),
        0 <= a < b < pre.len() + 1,
    ensures
        spec_bytes_le(
            spec_str_bytes(pre.insert(pos, x)[a].1),
            spec_str_bytes(pre.insert(pos, x)[b].1),
        ),
{
    let s = pre.insert(pos, x);
    if b < pos {
        assert(s[a] == pre[a] && s[b] == pre[b]);
    } else if b == pos {
        assert(s[a] == pre[a] && s[b] == x);
    } else if a == pos {
        assert(s[a] == x && s[b] == pre[b - 1]);
        lemma_bytes_not_lt_le(spec_str_bytes(pre[pos].1), spec_str_bytes(x.1));
        if pos < b - 1 {
            assert(spec_bytes_le(spec_str_bytes(pre[pos].1), spec_str_bytes(pre[b - 1].1)));
            lemma_bytes_le_trans(
                spec_str_bytes(x.1),
                spec_str_bytes(pre[pos].1),
                spec_str_bytes(pre[b - 1].1),
            );
        }
    } else if a < pos {
        assert(s[a] == pre[a] && s[b] == pre[b - 1]);
        if a == b - 1 {
        } else {
            assert(spec_bytes_le(spec_str_bytes(pre[a].1), spec_str_bytes(pre[b - 1].1)));
        }
    } else {
        assert(s[a] == pre[a - 1] && s[b] == pre[b - 1]);
    }
}

/// Totality: when `a` is not below `b`, then `b` is at or below `a`.
proof fn lemma_bytes_not_lt_le(a: Seq<u8>, b: Seq<u8>)
    requires
        !spec_bytes_lt(a, b),
    ensures
        spec_bytes_le(b, a),
    decreases a.len(),
{
    if a.len() > 0 && b.len() > 0 {
        if a[0] == b[0] {
            lemma_bytes_not_lt_le(a.drop_first(), b.drop_first());
            if spec_bytes_lt(b.drop_first(), a.drop_first()) {
            } else {
                assert(b.drop_first() == a.drop_first());
                assert(a.len() == b.len());
                assert forall|i: int| 0 <= i < a.len() implies a[i] == b[i] by {
                    if i > 0 {
                        assert(a.drop_first()[i - 1] == b.drop_first()[i - 1]);
                    }
                }
                assert(b =~= a);
            }
        }
    } else if b.len() == 0 {
        if a.len() == 0 {
            assert(b =~= a);
        }
    }
}

/// Transitivity of the weak byte order.
proof fn lemma_bytes_le_trans(a: Seq<u8>, b: Seq<u8>, c: Seq<u8>)
    requires
        spec_bytes_le(a, b),
        spec_bytes_le(b, c),
    ensures
        spec_bytes_le(a, c),
{
    if a == b || b == c {
    } else {
        lemma_bytes_lt_trans(a, b, c);
    }
}

} // verus!
