//! Configuration data for embedding providers. The engine treats the
//! embedding model as an external collaborator reached through the
//! runtime; these kinds only name which provider and model a deployment
//! uses.

use vstd::prelude::*;

verus! {

/// Local embedding model families.
#[derive(Debug, Clone, Copy, PartialEq, Eq)]
pub enum FastEmbedModel {
    AllMiniLmL6V2,
    BgeSmallEnV15,
    BgeBaseEnV15,
    BgeLargeEnV15,
    NomicEmbedTextV15,
}

impl FastEmbedModel {
    /// The model a deployment gets when it names none.
    pub fn default_model() -> (r: Self)
        ensures
            r == FastEmbedModel::NomicEmbedTextV15,
    {
        FastEmbedModel::NomicEmbedTextV15
    }
}

/// The kind of local embedding model in use.
#[derive(Debug, Clone, Copy, PartialEq, Eq)]
pub enum LocalEmbeddingModelType {
    FastEmbed(FastEmbedModel),
}

/// Where embeddings come from: a local model, or a placeholder for remote
/// providers.
#[derive(Debug, Clone, Copy, PartialEq, Eq)]
pub enum EmbeddingProviderType {
    Local(LocalEmbeddingModelType),
    Ollama,
    Cloud,
}

} // verus!
