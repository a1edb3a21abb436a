use turbogrep::chunker::Chunk;
use turbogrep::search::{
    chunks_to_ripgrep_format, load_chunk_content, race_decision, validate_query, RaceAction,
    RaceEvent, SearchError, SearchOutcome, SyncOutcome,
};
use turbogrep::turbopuffer::TurbopufferError;

#[test]
fn test_chunks_to_ripgrep_format() {
    let chunks = vec![Chunk {
        id: 1,
        vector: None,
        path: "/project/src/main.rs".to_string(),
        start_line: 10,
        end_line: 15,
        file_hash: 123,
        chunk_hash: 456,
        file_mtime: 1000,
        file_ctime: 1000,
        content: Some("fn main() {\n    println!(\"Hello!\");\n}".to_string()),
        distance: None,
    }];

    let result = chunks_to_ripgrep_format(chunks, "/project", false);
    let expected = "src/main.rs:10:fn main() {";

    assert_eq!(result, expected);
}

#[test]
fn test_chunks_to_ripgrep_format_scores_and_fallbacks() {
    let chunks = vec![
        Chunk {
            id: 1,
            vector: None,
            path: "/project/a.rs".to_string(),
            start_line: 3,
            end_line: 4,
            file_hash: 0,
            chunk_hash: 0,
            file_mtime: 0,
            file_ctime: 0,
            content: Some("  fn a() {}\nrest".to_string()),
            distance: Some("0.1234".to_string()),
        },
        Chunk {
            id: 2,
            vector: None,
            path: "/elsewhere/b.rs".to_string(),
            start_line: 7,
            end_line: 7,
            file_hash: 0,
            chunk_hash: 0,
            file_mtime: 0,
            file_ctime: 0,
            content: None,
            distance: None,
        },
    ];

    let result = chunks_to_ripgrep_format(chunks, "/project", true);
    let expected = "a.rs:3:0.1234:fn a() {}\n/elsewhere/b.rs:7:n/a:[no content]";
    assert_eq!(result, expected);
}

// The preview is the first non-empty line of the content, trimmed.
#[test]
fn test_preview_skips_blank_lines() {
    let chunks = vec![Chunk {
        id: 1,
        vector: None,
        path: "/p/a.rs".to_string(),
        start_line: 5,
        end_line: 9,
        file_hash: 0,
        chunk_hash: 0,
        file_mtime: 0,
        file_ctime: 0,
        content: Some("\n\n   fn later() {}\nrest".to_string()),
        distance: None,
    }];
    let result = chunks_to_ripgrep_format(chunks, "/p", false);
    assert_eq!(result, "a.rs:5:fn later() {}");
}

#[test]
fn test_search_error_display() {
    let error = SearchError::EmptyQuery;
    assert_eq!(error.message(), "Empty query provided");

    let error = SearchError::NoEmbedding;
    assert_eq!(error.message(), "No embedding returned for query");

    let error = SearchError::IndexBuildFailed("test error".to_string());
    assert_eq!(error.message(), "Failed to build index: test error");

    let error = SearchError::NamespaceError("test namespace error".to_string());
    assert_eq!(
        error.message(),
        "Namespace and directory error: test namespace error"
    );
}

#[test]
fn test_validate_query() {
    assert!(validate_query("find the parser").is_ok());
    assert!(matches!(
        validate_query("   \t\n"),
        Err(SearchError::EmptyQuery)
    ));
    assert!(matches!(validate_query(""), Err(SearchError::EmptyQuery)));
}

#[test]
fn test_load_chunk_content_selects_lines() {
    let lines: Vec<String> = vec!["a".into(), "b".into(), "c".into(), "d".into()];
    let mut chunk = Chunk {
        start_line: 2,
        end_line: 3,
        ..Default::default()
    };
    load_chunk_content(&mut chunk, &lines);
    assert_eq!(chunk.content.as_deref(), Some("b\nc"));

    // A range past the end of the file is clipped.
    let mut tail = Chunk {
        start_line: 4,
        end_line: 9,
        ..Default::default()
    };
    load_chunk_content(&mut tail, &lines);
    assert_eq!(tail.content.as_deref(), Some("d"));

    // A range entirely past the end leaves the chunk as it was.
    let mut gone = Chunk {
        start_line: 9,
        end_line: 9,
        ..Default::default()
    };
    load_chunk_content(&mut gone, &lines);
    assert_eq!(gone.content, None);
}

fn namespace_missing() -> SearchError {
    SearchError::TurbopufferError(TurbopufferError::NamespaceNotFound(
        "namespace 'x' not found".to_string(),
    ))
}

// The race against an initially absent namespace: the first round retries
// after the sync built the index, the re-raced round delivers.
#[test]
fn test_speculative_race_recovers_missing_namespace() {
    let first = race_decision(RaceEvent::SearchFirst(
        SearchOutcome::Failed(namespace_missing()),
        SyncOutcome::Synced(true),
    ));
    assert!(matches!(first, RaceAction::Retry));

    let second = race_decision(RaceEvent::SearchFirst(
        SearchOutcome::Found("a.rs:1:fn a()".to_string()),
        SyncOutcome::Synced(false),
    ));
    assert!(matches!(second, RaceAction::Deliver(r) if r == "a.rs:1:fn a()"));
}

#[test]
fn test_speculative_race_decisions() {
    // A changed index first: re-enter the race.
    assert!(matches!(
        race_decision(RaceEvent::SyncFirstChanged),
        RaceAction::Retry
    ));

    // An unchanged index first: the search's outcome stands.
    assert!(matches!(
        race_decision(RaceEvent::SyncFirstUnchanged(SearchOutcome::Found(
            "x".to_string()
        ))),
        RaceAction::Deliver(_)
    ));
    assert!(matches!(
        race_decision(RaceEvent::SyncFirstUnchanged(SearchOutcome::Failed(
            SearchError::EmptyQuery
        ))),
        RaceAction::Fail(SearchError::EmptyQuery)
    ));

    // A failed sync first: surface the failed index build.
    assert!(matches!(
        race_decision(RaceEvent::SyncFirstFailed("boom".to_string())),
        RaceAction::Fail(SearchError::IndexBuildFailed(t)) if t == "boom"
    ));

    // A search error other than the missing namespace stands, sync aside.
    assert!(matches!(
        race_decision(RaceEvent::SearchFirst(
            SearchOutcome::Failed(SearchError::NoEmbedding),
            SyncOutcome::Synced(true),
        )),
        RaceAction::Fail(SearchError::NoEmbedding)
    ));

    // A missing namespace with a failed sync surfaces the sync's failure.
    assert!(matches!(
        race_decision(RaceEvent::SearchFirst(
            SearchOutcome::Failed(namespace_missing()),
            SyncOutcome::Failed("no key".to_string()),
        )),
        RaceAction::Fail(SearchError::IndexBuildFailed(t)) if t == "no key"
    ));
}
