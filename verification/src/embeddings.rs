//! The embedder's verified core: batch bucketing for the embedding stream,
//! the adaptive split on token-limit errors, and attaching decoded vectors
//! to chunks in order. The HTTP requests themselves live with the caller;
//! every decision about what to send and how to recombine results is here.

use vstd::prelude::*;
use crate::chunker::Chunk;
use crate::strutil::{contains_substring, has_substring, lower_of, lowercase};

verus! {

/// Result of one embedding operation, with the provider's token count when
/// it reported one.
pub struct EmbedResult {
    pub chunks: Vec<Chunk>,
    pub total_tokens: Option<usize>,
}

/// How the provider is told to treat the text.
#[derive(Debug, Clone, Copy, PartialEq, Eq, Structural)]
pub enum EmbeddingType {
    Query,
    Document,
}

impl EmbeddingType {
    /// The wire word for the embedding type.
    pub fn as_str(&self) -> (r: &'static str)
        ensures
            *self == EmbeddingType::Query ==> r@ == "query"@,
            *self == EmbeddingType::Document ==> r@ == "document"@,
    {
        match self {
            EmbeddingType::Query => "query",
            EmbeddingType::Document => "document",
        }
    }
}

/// Why an embedding operation failed.
pub enum EmbeddingError {
    MissingApiKey,
    RequestFailed(String),
    ApiError(String),
}

impl EmbeddingError {
    /// The error rendered for the user.
    pub fn message(&self) -> (r: String)
        ensures
            *self is MissingApiKey ==> r@ == "Missing VOYAGE_API_KEY"@,
            self matches EmbeddingError::RequestFailed(e) ==> r@ == "Request failed: "@ + e@,
            self matches EmbeddingError::ApiError(e) ==> r@ == "API error: "@ + e@,
    {
        match self {
            EmbeddingError::MissingApiKey => {
                let mut s = String::new();
                s.append("Missing VOYAGE_API_KEY");
                s
            },
            EmbeddingError::RequestFailed(e) => {
                let mut s = String::new();
                s.append("Request failed: ");
                s.append(e.as_str());
                s
            },
            EmbeddingError::ApiError(e) => {
                let mut s = String::new();
                s.append("API error: ");
                s.append(e.as_str());
                s
            },
        }
    }
}

/// The embedding provider chosen from which API keys are present: the
/// voyage provider exactly when its key is set.
pub fn choose_embedding_provider(has_voyage_key: bool) -> (r: Option<String>)
    ensures
        has_voyage_key ==> (r matches Some(s) && s@ == "voyage"@),
        !has_voyage_key ==> r is None,
{
    if has_voyage_key {
        let mut s = String::new();
        s.append("voyage");
        Some(s)
    } else {
        None
    }
}

/// The voyage embedding provider: 1024-dimensional code embeddings, with a
/// configurable number of in-flight batch requests.
#[derive(Clone, Copy)]
pub struct VoyageEmbedding {
    concurrency: usize,
}

impl VoyageEmbedding {
    /// The configured number of in-flight batch requests.
    pub closed spec fn spec_concurrency(&self) -> usize {
        self.concurrency
    }

    /// The provider with its default concurrency of 8.
    pub fn new() -> (r: Self)
        ensures
            r.spec_concurrency() == 8,
    {
        VoyageEmbedding { concurrency: 8 }
    }

    /// The provider with the given concurrency.
    pub fn with_concurrency(concurrency: usize) -> (r: Self)
        ensures
            r.spec_concurrency() == concurrency,
    {
        VoyageEmbedding { concurrency }
    }

    /// Number of concurrent batch requests to make.
    pub fn concurrency(&self) -> (r: usize)
        ensures
            r == self.spec_concurrency(),
    {
        self.concurrency
    }

    /// Maximum number of chunks per single embed call.
    pub fn max_batch_size(&self) -> (r: usize)
        ensures
            r == 500,
    {
        500
    }
}

/// Whether an error payload reports the per-batch token limit: its
/// lower-cased text names the batch token maximum.
pub open spec fn spec_token_limit_error(text: Seq<char>) -> bool {
    has_substring(lower_of(text), "max allowed tokens per submitted batch"@)
}

/// Decides whether a failed embed call must be split and retried: the error
/// reports the token limit and the batch still has more than one chunk.
/// This is the only implicit retry; every other error propagates.
pub fn should_split_batch(error_text: &str, batch_len: usize) -> (r: bool)
    ensures
        r == (spec_token_limit_error(error_text@) && batch_len > 1),
{
    let lowered = lowercase(error_text);
    contains_substring(lowered.as_str(), "max allowed tokens per submitted batch") && batch_len > 1
}

/// Splits a batch in half for the adaptive retry: the first half is the
/// first `len / 2` chunks, the second the rest.
pub fn split_batch(chunks: Vec<Chunk>) -> (r: (Vec<Chunk>, Vec<Chunk>))
    ensures
        r.0@ == chunks@.take(chunks@.len() as int / 2),
        r.1@ == chunks@.skip(chunks@.len() as int / 2),
        r.0@ + r.1@ == chunks@,
{
    let ghost orig = chunks@;
    let mut left = chunks;
    let mid = left.len() / 2;
    let right = left.split_off(mid);
    proof {
        assert(left@ =~= orig.take(orig.len() as int / 2));
        assert(right@ =~= orig.skip(orig.len() as int / 2));
        assert(left@ + right@ =~= orig);
    }
    (left, right)
}

/// Combines the results of the two halves of a split batch: the chunks in
/// order, and the token counts added when both halves reported one.
pub fn combine_embed_results(left: EmbedResult, right: EmbedResult) -> (r: EmbedResult)
    requires
        match (left.total_tokens, right.total_tokens) {
            (Some(a), Some(b)) => a + b <= usize::MAX,
            _ => true,
        },
    ensures
        r.chunks@ == left.chunks@ + right.chunks@,
        r.total_tokens == (match (left.total_tokens, right.total_tokens) {
            (Some(a), Some(b)) => Some((a + b) as usize),
            (Some(a), None) => Some(a),
            (None, Some(b)) => Some(b),
            (None, None) => None::<usize>,
        }),
{
    let mut chunks = left.chunks;
    let mut rest = right.chunks;
    chunks.append(&mut rest);
    let total_tokens = match (left.total_tokens, right.total_tokens) {
        (Some(a), Some(b)) => Some(a + b),
        (Some(a), None) => Some(a),
        (None, Some(b)) => Some(b),
        (None, None) => None,
    };
    EmbedResult { chunks, total_tokens }
}

/// Whether two chunks agree on everything but the vector.
pub open spec fn same_but_vector(a: Chunk, b: Chunk) -> bool {
    &&& a.id == b.id
    &&& a.path == b.path
    &&& a.start_line == b.start_line
    &&& a.end_line == b.end_line
    &&& a.file_hash == b.file_hash
    &&& a.chunk_hash == b.chunk_hash
    &&& a.file_mtime == b.file_mtime
    &&& a.file_ctime == b.file_ctime
    &&& a.content == b.content
    &&& a.distance == b.distance
}

/// Whether two chunk sequences agree pointwise on everything but vectors.
pub open spec fn chunks_like(a: Seq<Chunk>, b: Seq<Chunk>) -> bool {
    a.len() == b.len() && forall|i: int| 0 <= i < a.len() ==> same_but_vector(a[i], b[i])
}

/// Adaptive split correctness: when a token-limit error splits a batch in
/// two and each half comes back embedded — the same chunks, vectors aside —
/// the combined result again carries the whole batch's chunks in order,
/// vectors aside. So the split changes what a successful single call would
/// have returned only in vector bit-identity.
pub proof fn lemma_adaptive_split(batch: Seq<Chunk>, left_out: Seq<Chunk>, right_out: Seq<Chunk>)
    requires
        chunks_like(left_out, batch.take(batch.len() as int / 2)),
        chunks_like(right_out, batch.skip(batch.len() as int / 2)),
    ensures
        chunks_like(left_out + right_out, batch),
{
    let mid = batch.len() as int / 2;
    assert(batch.take(mid).len() + batch.skip(mid).len() == batch.len());
    assert forall|i: int| 0 <= i < batch.len() implies same_but_vector(
        (left_out + right_out)[i],
        batch[i],
    ) by {
        if i < mid {
            assert(batch.take(mid)[i] == batch[i]);
        } else {
            assert(batch.skip(mid)[i - mid] == batch[i]);
        }
    }
}

/// Attaches decoded vectors to a batch's chunks, in order: chunk `i` gets
/// vector `i`. A missing vector (an individual decode failure) leaves that
/// chunk without a vector but does not fail the batch; order is preserved
/// so vectors stay aligned with inputs.
pub fn attach_vectors(chunks: Vec<Chunk>, vectors: Vec<Option<Vec<u32>>>) -> (r: Vec<Chunk>)
    requires
        vectors@.len() >= chunks@.len(),
    ensures
        r@.len() == chunks@.len(),
        forall|i: int|
            0 <= i < r@.len() ==> same_but_vector(#[trigger] r@[i], chunks@[i]) && (match vectors@[i] {
                Some(v) => r@[i].vector matches Some(w) && w == v,
                None => r@[i].vector == chunks@[i].vector,
            }),
{
    let ghost orig = chunks@;
    let ghost vs = vectors@;
    // Reverse both by popping, then pop in step: each element moves once.
    let mut crev: Vec<Chunk> = Vec::new();
    let mut stack = chunks;
    loop
        invariant
            stack@.len() + crev@.len() == orig.len(),
            stack@ == orig.take(stack@.len() as int),
            forall|k: int| 0 <= k < crev@.len() ==> crev@[k] == orig[orig.len() - 1 - k],
        ensures
            crev@.len() == orig.len(),
            forall|k: int| 0 <= k < crev@.len() ==> crev@[k] == orig[orig.len() - 1 - k],
        decreases stack@.len(),
    {
        match stack.pop() {
            Some(c) => {
                proof {
                    assert(orig.take(stack@.len() as int + 1).last() == orig[stack@.len() as int]);
                    assert(orig.take(stack@.len() as int + 1).drop_last() =~= orig.take(
                        stack@.len() as int,
                    ));
                }
                crev.push(c);
            },
            None => {
                break ;
            },
        }
    }
    let mut vrev: Vec<Option<Vec<u32>>> = Vec::new();
    let mut vstack = vectors;
    loop
        invariant
            vstack@.len() + vrev@.len() == vs.len(),
            vstack@ == vs.take(vstack@.len() as int),
            forall|k: int| 0 <= k < vrev@.len() ==> vrev@[k] == vs[vs.len() - 1 - k],
        ensures
            vrev@.len() == vs.len(),
            forall|k: int| 0 <= k < vrev@.len() ==> vrev@[k] == vs[vs.len() - 1 - k],
        decreases vstack@.len(),
    {
        match vstack.pop() {
            Some(v) => {
                proof {
                    assert(vs.take(vstack@.len() as int + 1).last() == vs[vstack@.len() as int]);
                    assert(vs.take(vstack@.len() as int + 1).drop_last() =~= vs.take(
                        vstack@.len() as int,
                    ));
                }
                vrev.push(v);
            },
            None => {
                break ;
            },
        }
    }
    let mut out: Vec<Chunk> = Vec::new();
    loop
        invariant
            vs.len() >= orig.len(),
            crev@.len() <= orig.len(),
            vrev@.len() == vs.len() - (orig.len() - crev@.len()),
            forall|k: int| 0 <= k < crev@.len() ==> crev@[k] == orig[orig.len() - 1 - k],
            forall|k: int| 0 <= k < vrev@.len() ==> vrev@[k] == vs[vs.len() - 1 - k],
            out@.len() == orig.len() - crev@.len(),
            forall|i: int|
                0 <= i < out@.len() ==> same_but_vector(#[trigger] out@[i], orig[i]) && (match vs[i] {
                    Some(v) => out@[i].vector matches Some(w) && w == v,
                    None => out@[i].vector == orig[i].vector,
                }),
        ensures
            out@.len() == orig.len(),
            forall|i: int|
                0 <= i < out@.len() ==> same_but_vector(#[trigger] out@[i], orig[i]) && (match vs[i] {
                    Some(v) => out@[i].vector matches Some(w) && w == v,
                    None => out@[i].vector == orig[i].vector,
                }),
        decreases crev@.len(),
    {
        let ghost i = orig.len() - crev@.len();
        let mut c = match crev.pop() {
            Some(c) => c,
            None => {
                break ;
            },
        };
        proof {
            assert(c == orig[i as int]);
        }
        let v = match vrev.pop() {
            Some(v) => v,
            None => {
                proof {
                    assert(false);
                }
                None
            },
        };
        proof {
            assert(v == vs[i as int]);
        }
        match v {
            Some(w) => {
                c.vector = Some(w);
            },
            None => {},
        }
        out.push(c);
    }
    out
}

} // verus!
