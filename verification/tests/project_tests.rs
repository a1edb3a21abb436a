use turbogrep::config::Settings;
use turbogrep::config::{apply_setting_defaults, fallback_region};
use turbogrep::is_verbose;
use turbogrep::project::{directory_status, namespace_and_dir, project_markers, select_root, validate_directory};
use turbogrep::set_verbose;
use turbogrep::turbopuffer::{classify_error_text, page_step, PageStep, TurbopufferError};
use turbogrep::verbose_value;

#[test]
fn test_validate_directory_not_exists() {
    let result = validate_directory("/nonexistent/path/that/should/not/exist");
    assert!(result.is_err());
    assert!(result.unwrap_err().contains("does not exist"));
}

#[test]
fn test_validate_directory_exists() {
    let result = validate_directory("/");
    assert!(result.is_ok());
}

#[test]
fn test_namespace_and_dir_consistency() {
    let result1 = namespace_and_dir(".", "voyage");
    let result2 = namespace_and_dir(".", "voyage");

    assert!(result1.is_some());
    assert!(result2.is_some());

    let (ns1, dir1) = result1.unwrap();
    let (ns2, dir2) = result2.unwrap();

    assert_eq!(ns1, ns2);
    assert_eq!(dir1, dir2);
    assert!(ns1.starts_with("tg_"));
}

// The namespace is the fixed prefix, the provider, and the 16 zero-padded
// lower-case hex digits of the canonical root path's hash.
#[test]
fn test_namespace_hex_matches_root_hash() {
    let (namespace, root) = namespace_and_dir(".", "voyage").unwrap();
    let expected = format!(
        "tg_voyage_{:016x}",
        xxhash_rust::xxh3::xxh3_64(root.as_bytes())
    );
    assert_eq!(namespace, expected);
}

#[test]
fn test_namespace_includes_embedding_provider() {
    let result = namespace_and_dir(".", "voyage");
    assert!(result.is_some());

    let (namespace, _) = result.unwrap();
    assert!(namespace.contains("_voyage_") || namespace.starts_with("tg_voyage_"));
}

#[test]
fn test_settings_default() {
    let settings = Settings::default();
    assert_eq!(settings.turbopuffer_region, None);
    assert_eq!(settings.embedding_provider, None);
}

#[test]
fn test_apply_setting_defaults() {
    let (filled, changed) = apply_setting_defaults(Settings::default(), None, None);
    assert!(changed);
    assert_eq!(filled.turbopuffer_region.as_deref(), Some(fallback_region()));
    assert_eq!(filled.embedding_provider, None);

    let (filled, changed) = apply_setting_defaults(
        Settings {
            turbopuffer_region: Some("gcp-us-west1".to_string()),
            embedding_provider: Some("voyage".to_string()),
        },
        Some("aws-us-east-1".to_string()),
        Some("voyage".to_string()),
    );
    assert!(!changed);
    assert_eq!(filled.turbopuffer_region.as_deref(), Some("gcp-us-west1"));
    assert_eq!(filled.embedding_provider.as_deref(), Some("voyage"));

    let (filled, changed) = apply_setting_defaults(
        Settings::default(),
        Some("aws-us-east-1".to_string()),
        Some("voyage".to_string()),
    );
    assert!(changed);
    assert_eq!(filled.turbopuffer_region.as_deref(), Some("aws-us-east-1"));
    assert_eq!(filled.embedding_provider.as_deref(), Some("voyage"));
}

#[test]
fn test_verbose_flag() {
    assert!(verbose_value("1"));
    assert!(verbose_value("true"));
    assert!(verbose_value("TRUE"));
    assert!(!verbose_value("0"));
    assert!(!verbose_value("yes"));

    assert_eq!(set_verbose(None, true), Some(true));
    assert_eq!(set_verbose(Some(false), true), Some(false));

    assert!(is_verbose(Some("1"), None));
    assert!(!is_verbose(Some("0"), Some(true)));
    assert!(is_verbose(None, Some(true)));
    assert!(!is_verbose(None, None));
}

#[test]
fn test_select_root_picks_first_marked() {
    let chain: Vec<String> = vec![
        "/home/u/repo/src".to_string(),
        "/home/u/repo".to_string(),
        "/home/u".to_string(),
        "/home".to_string(),
        "/".to_string(),
    ];
    let probes = vec![false, true, false, true, false];
    assert_eq!(select_root(&chain, &probes), "/home/u/repo");

    let none = vec![false, false, false, false, false];
    assert_eq!(select_root(&chain, &none), "/home/u/repo/src");
}

#[test]
fn test_directory_status_messages() {
    assert_eq!(directory_status("/x", true, true).unwrap(), "/x");
    assert!(directory_status("/x", false, false)
        .unwrap_err()
        .contains("does not exist"));
    assert!(directory_status("/x", true, false)
        .unwrap_err()
        .contains("exists but is not a directory"));
}

#[test]
fn test_marker_table() {
    let markers = project_markers();
    assert_eq!(markers.len(), 57);
    assert_eq!(markers[0], ".git");
    assert!(markers.contains(&"Cargo.toml"));
    assert!(markers.contains(&".idea"));
}

#[test]
fn test_classify_error_text() {
    let err = classify_error_text("namespace 'tg_x' not found".to_string());
    assert!(matches!(err, TurbopufferError::NamespaceNotFound(t) if t.contains("tg_x")));

    let err = classify_error_text("internal server error".to_string());
    assert!(matches!(err, TurbopufferError::ApiError(_)));
}

#[test]
fn test_page_step() {
    let empty: Vec<turbogrep::chunker::Chunk> = vec![];
    assert!(matches!(page_step(&empty, 1200), PageStep::Done));

    let mut short = Vec::new();
    for i in 0..5u64 {
        short.push(turbogrep::chunker::Chunk {
            id: i,
            ..Default::default()
        });
    }
    assert!(matches!(page_step(&short, 1200), PageStep::Done));

    let mut full = Vec::new();
    for i in 0..1200u64 {
        full.push(turbogrep::chunker::Chunk {
            id: i,
            ..Default::default()
        });
    }
    assert!(matches!(page_step(&full, 1200), PageStep::Continue(id) if id == 1199));
}
