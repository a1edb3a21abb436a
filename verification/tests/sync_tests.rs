use turbogrep::chunker::{chunk_id, Chunk};
use turbogrep::sync::{plan_apply, tpuf_chunk_diff, ApplyAction};
use turbogrep::turbopuffer::{delete_filter, stale_paths, DeleteFilter};

fn create_test_chunk(
    path: &str,
    start_line: u32,
    end_line: u32,
    file_hash: u64,
    chunk_hash: u64,
) -> Chunk {
    let id = chunk_id(
        path,
        (start_line - 1) as u64,
        (end_line - 1) as u64,
        file_hash,
        chunk_hash,
    );

    Chunk {
        id,
        vector: Some(vec![0x3f800000u32; 1024]),
        path: path.to_string(),
        start_line,
        end_line,
        file_hash,
        chunk_hash,
        file_mtime: 1234567890,
        file_ctime: 1234567890,
        content: Some(format!("fn test_{}() {{}}", path.replace(".", "_"))),
        distance: None,
    }
}

#[test]
fn test_tpuf_chunk_diff_empty() {
    let local_chunks = vec![];
    let server_chunks = vec![];

    let (to_upload, to_delete) = tpuf_chunk_diff(local_chunks, server_chunks);

    assert!(to_upload.is_empty());
    assert!(to_delete.is_empty());
}

#[test]
fn test_tpuf_chunk_diff_new_local_chunks() {
    let local_chunks = vec![
        create_test_chunk("file1.rs", 1, 10, 123, 456),
        create_test_chunk("file2.py", 1, 15, 789, 101),
    ];
    let server_chunks = vec![];

    let (to_upload, to_delete) = tpuf_chunk_diff(local_chunks.clone(), server_chunks);

    assert_eq!(to_upload.len(), 2);
    assert!(to_delete.is_empty());

    assert_eq!(to_upload[0].id, local_chunks[0].id);
    assert_eq!(to_upload[1].id, local_chunks[1].id);
}

#[test]
fn test_tpuf_chunk_diff_stale_server_chunks() {
    let local_chunks = vec![create_test_chunk("file1.rs", 1, 10, 123, 456)];
    let server_chunks = vec![create_test_chunk("file1.rs", 1, 10, 999, 456)];

    let (to_upload, to_delete) = tpuf_chunk_diff(local_chunks.clone(), server_chunks.clone());

    assert_eq!(to_upload.len(), 1);
    assert_eq!(to_delete.len(), 1);

    assert_eq!(to_upload[0].path, "file1.rs");
    assert_eq!(to_delete[0].path, "file1.rs");
}

#[test]
fn test_tpuf_chunk_diff_mixed_scenario() {
    let local_chunks = vec![
        create_test_chunk("file1.rs", 1, 10, 123, 456),
        create_test_chunk("file2.py", 1, 15, 789, 101),
        create_test_chunk("file3.go", 1, 20, 111, 222),
    ];
    let server_chunks = vec![
        create_test_chunk("file1.rs", 1, 10, 999, 456),
        create_test_chunk("file3.go", 1, 20, 111, 222),
        create_test_chunk("file4.js", 1, 25, 333, 444),
    ];

    let (to_upload, to_delete) = tpuf_chunk_diff(local_chunks.clone(), server_chunks);

    assert_eq!(to_upload.len(), 2);
    assert!(to_upload.iter().any(|c| c.path == "file1.rs"));
    assert!(to_upload.iter().any(|c| c.path == "file2.py"));

    assert_eq!(to_delete.len(), 2);
    assert!(to_delete.iter().any(|c| c.path == "file1.rs"));
    assert!(to_delete.iter().any(|c| c.path == "file4.js"));
}

#[test]
fn test_tpuf_chunk_diff_same_content() {
    let local_chunks = vec![
        create_test_chunk("file1.rs", 1, 10, 123, 456),
        create_test_chunk("file2.py", 1, 15, 789, 101),
    ];
    let server_chunks = vec![
        create_test_chunk("file1.rs", 1, 10, 123, 456),
        create_test_chunk("file2.py", 1, 15, 789, 101),
    ];

    let (to_upload, to_delete) = tpuf_chunk_diff(local_chunks, server_chunks);

    assert!(to_upload.is_empty());
    assert!(to_delete.is_empty());
}

#[test]
fn test_tpuf_chunk_diff_different_chunk_content() {
    let local_chunks = vec![create_test_chunk("file1.rs", 1, 10, 123, 999)];
    let server_chunks = vec![create_test_chunk("file1.rs", 1, 10, 123, 456)];

    let (to_upload, to_delete) = tpuf_chunk_diff(local_chunks.clone(), server_chunks);

    assert_eq!(to_upload.len(), 1);
    assert_eq!(to_delete.len(), 1);
    assert_eq!(to_upload[0].path, "file1.rs");
    assert_eq!(to_delete[0].path, "file1.rs");
}

#[test]
fn test_chunk_id_generation() {
    let chunk1 = create_test_chunk("test.rs", 1, 10, 123, 456);
    let chunk2 = create_test_chunk("test.rs", 1, 10, 123, 456);
    let chunk3 = create_test_chunk("test.rs", 1, 11, 123, 456);
    let chunk4 = create_test_chunk("test.rs", 1, 10, 123, 789);

    assert_eq!(chunk1.id, chunk2.id, "Identical chunks should have same ID");
    assert_ne!(
        chunk1.id, chunk3.id,
        "Different line numbers should have different IDs"
    );
    assert_ne!(
        chunk1.id, chunk4.id,
        "Different content (chunk_hash) should have different IDs"
    );
}

#[test]
fn test_chunk_hash_comparison() {
    let chunk1 = create_test_chunk("file1.rs", 1, 10, 123, 456);
    let chunk2 = create_test_chunk("file1.rs", 1, 10, 123, 456);
    let chunk3 = create_test_chunk("file1.rs", 1, 10, 123, 789);

    assert_eq!(chunk1.chunk_hash, chunk2.chunk_hash);
    assert_ne!(chunk1.chunk_hash, chunk3.chunk_hash);
}

// A second diff over an unchanged tree is a zero-op, as
// lemma_diff_idempotent states in general.
#[test]
fn test_diff_idempotent_second_pass() {
    let local = vec![
        create_test_chunk("file1.rs", 1, 10, 100, 200),
        create_test_chunk("file2.py", 1, 15, 300, 400),
    ];
    let server = local.clone();

    let (to_upload, to_delete) = tpuf_chunk_diff(local, server);
    assert!(to_upload.is_empty());
    assert!(to_delete.is_empty());
}

// Convergence on concrete values: the remote ids after the diff equal the
// local ids, as lemma_diff_converges states in general.
#[test]
fn test_diff_converges() {
    let local = vec![
        create_test_chunk("keep.rs", 1, 10, 100, 200),
        create_test_chunk("new.ts", 1, 20, 500, 600),
    ];
    let server = vec![
        create_test_chunk("keep.rs", 1, 10, 100, 200),
        create_test_chunk("stale.js", 1, 25, 700, 800),
    ];
    let local_ids: Vec<u64> = local.iter().map(|c| c.id).collect();

    let (to_upload, to_delete) = tpuf_chunk_diff(local, server.clone());

    let mut remote: Vec<u64> = server
        .iter()
        .map(|c| c.id)
        .filter(|id| !to_delete.iter().any(|d| d.id == *id))
        .collect();
    remote.extend(to_upload.iter().map(|c| c.id));

    let mut remote_sorted = remote.clone();
    remote_sorted.sort();
    let mut local_sorted = local_ids.clone();
    local_sorted.sort();
    assert_eq!(remote_sorted, local_sorted);
}

// The identifier hashes the canonical serialization: path, 0-based rows,
// file hash and chunk hash, little-endian, ':'-separated — byte for byte
// what a streaming hasher over those pieces digests.
#[test]
fn test_chunk_id_matches_streaming_hasher() {
    let path = "src/lib.rs";
    let (start_row, end_row) = (4u64, 9u64);
    let (file_hash, chunk_hash) = (0xfeedbeefu64, 0x12345678u64);

    let mut hasher = xxhash_rust::xxh3::Xxh3::new();
    hasher.update(path.as_bytes());
    hasher.update(b":");
    hasher.update(&start_row.to_le_bytes());
    hasher.update(b":");
    hasher.update(&end_row.to_le_bytes());
    hasher.update(b":");
    hasher.update(&file_hash.to_le_bytes());
    hasher.update(b":");
    hasher.update(&chunk_hash.to_le_bytes());
    let expected = hasher.digest();

    assert_eq!(
        chunk_id(path, start_row, end_row, file_hash, chunk_hash),
        expected
    );
}

#[test]
fn test_plan_apply_actions() {
    assert!(matches!(plan_apply(0, 0), ApplyAction::Unchanged));
    assert!(matches!(plan_apply(0, 3), ApplyAction::DeleteOnly));
    assert!(matches!(plan_apply(5, 0), ApplyAction::UploadOnly));
    assert!(matches!(plan_apply(5, 3), ApplyAction::UploadAndDelete));
}

#[test]
fn test_stale_paths_deduplicates() {
    let deletes = vec![
        create_test_chunk("a.rs", 1, 10, 1, 2),
        create_test_chunk("b.py", 1, 10, 3, 4),
        create_test_chunk("a.rs", 11, 20, 1, 5),
    ];
    let paths = stale_paths(&deletes);
    assert_eq!(paths, vec!["a.rs".to_string(), "b.py".to_string()]);
}

#[test]
fn test_delete_filter_shapes() {
    assert!(delete_filter(vec![]).is_none());
    match delete_filter(vec!["a.rs".to_string()]) {
        Some(DeleteFilter::Single(p)) => assert_eq!(p, "a.rs"),
        other => panic!(
            "expected a single path equality, got {:?}",
            other.map(|f| match f {
                DeleteFilter::Single(_) => "single",
                DeleteFilter::AnyOf(_) => "any-of",
            })
        ),
    }
    match delete_filter(vec!["a.rs".to_string(), "b.py".to_string()]) {
        Some(DeleteFilter::AnyOf(v)) => assert_eq!(v.len(), 2),
        _ => panic!("expected an OR of equalities"),
    }
}
