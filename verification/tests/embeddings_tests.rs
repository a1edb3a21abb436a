use turbogrep::chunker::Chunk;
use turbogrep::embeddings::{
    attach_vectors, choose_embedding_provider, combine_embed_results, should_split_batch,
    split_batch, EmbedResult, EmbeddingError, EmbeddingType, VoyageEmbedding,
};

#[test]
fn test_embedding_type_as_str() {
    assert_eq!(EmbeddingType::Query.as_str(), "query");
    assert_eq!(EmbeddingType::Document.as_str(), "document");
}

#[test]
fn test_voyage_embedding_new() {
    let embedding = VoyageEmbedding::new();
    assert_eq!(embedding.concurrency(), 8);
}

#[test]
fn test_voyage_embedding_with_concurrency() {
    let embedding = VoyageEmbedding::with_concurrency(3);
    assert_eq!(embedding.concurrency(), 3);
    assert_eq!(embedding.max_batch_size(), 500);
}

#[test]
fn test_embedding_error_display() {
    let missing_key_error = EmbeddingError::MissingApiKey;
    assert!(missing_key_error
        .message()
        .contains("Missing VOYAGE_API_KEY"));

    let api_error = EmbeddingError::ApiError("test error".to_string());
    assert!(api_error.message().contains("test error"));
}

#[test]
fn test_chunk_with_content() {
    let chunk = Chunk {
        content: Some("test content".to_string()),
        ..Default::default()
    };
    assert_eq!(chunk.content, Some("test content".to_string()));
    assert_eq!(chunk.vector, None);
}

#[test]
fn test_chunk_default() {
    let chunk = Chunk::default();
    assert_eq!(chunk.content, None);
    assert_eq!(chunk.vector, None);
    assert_eq!(chunk.path, "");
    assert_eq!(chunk.start_line, 0);
    assert_eq!(chunk.end_line, 0);
}

#[test]
fn test_choose_embedding_provider_no_key() {
    let provider = choose_embedding_provider(false);
    assert_eq!(provider, None);
}

#[test]
fn test_choose_embedding_provider_with_voyage_key() {
    let provider = choose_embedding_provider(true);
    assert_eq!(provider, Some("voyage".to_string()));
}

fn chunk_named(path: &str) -> Chunk {
    Chunk {
        id: path.len() as u64,
        path: path.to_string(),
        content: Some(format!("content of {}", path)),
        ..Default::default()
    }
}

#[test]
fn test_token_limit_error_detection() {
    let payload = "{\"detail\": \"Max allowed tokens per submitted batch is 120000.\"}";
    assert!(should_split_batch(payload, 10));
    assert!(
        !should_split_batch(payload, 1),
        "a single-chunk batch is never split"
    );
    assert!(!should_split_batch("rate limit exceeded", 10));
}

// The combined result across the halves of a split equals what a single
// successful batch would have returned: same chunks, in order.
#[test]
fn test_split_and_combine_restores_batch() {
    let batch: Vec<Chunk> = vec![
        chunk_named("a.rs"),
        chunk_named("bb.rs"),
        chunk_named("ccc.rs"),
        chunk_named("dddd.rs"),
        chunk_named("eeeee.rs"),
    ];
    let original_ids: Vec<u64> = batch.iter().map(|c| c.id).collect();

    let (left, right) = split_batch(batch);
    assert_eq!(left.len(), 2);
    assert_eq!(right.len(), 3);

    let combined = combine_embed_results(
        EmbedResult {
            chunks: left,
            total_tokens: Some(40),
        },
        EmbedResult {
            chunks: right,
            total_tokens: Some(60),
        },
    );
    let combined_ids: Vec<u64> = combined.chunks.iter().map(|c| c.id).collect();
    assert_eq!(combined_ids, original_ids);
    assert_eq!(combined.total_tokens, Some(100));

    let partial = combine_embed_results(
        EmbedResult {
            chunks: vec![],
            total_tokens: Some(7),
        },
        EmbedResult {
            chunks: vec![],
            total_tokens: None,
        },
    );
    assert_eq!(partial.total_tokens, Some(7));
}

// Vectors align with inputs, and a decode failure drops that chunk's vector
// without failing the batch.
#[test]
fn test_attach_vectors_preserves_order() {
    let chunks = vec![chunk_named("a.rs"), chunk_named("b.rs"), chunk_named("c.rs")];
    let vectors: Vec<Option<Vec<u32>>> = vec![Some(vec![1, 2]), None, Some(vec![3])];

    let out = attach_vectors(chunks, vectors);
    assert_eq!(out.len(), 3);
    assert_eq!(out[0].path, "a.rs");
    assert_eq!(out[0].vector, Some(vec![1, 2]));
    assert_eq!(out[1].path, "b.rs");
    assert_eq!(out[1].vector, None);
    assert_eq!(out[2].path, "c.rs");
    assert_eq!(out[2].vector, Some(vec![3]));
}
