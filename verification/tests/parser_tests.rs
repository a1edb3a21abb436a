use turbogrep::chunker::{chunk, ChunkError};
use turbogrep::filetype::FiletypeMatcher;

const RUST_FIXTURE: &str = "\nuse std::collections::HashMap;\n\npub fn hello_world() {\n    println!(\"Hello, World!\");\n}\n\nfn calculate_sum(a: i32, b: i32) -> i32 {\n    a + b\n}\n\nfn process_data<T>(data: T) -> T where T: Clone {\n    data.clone()\n}\n\nasync fn fetch_data() -> Result<String, Box<dyn std::error::Error>> {\n    Ok(\"data\".to_string())\n}\n\nstruct Calculator;\n\nimpl Calculator {\n    fn new() -> Self {\n        Self\n    }\n    \n    pub fn multiply(&self, x: i32, y: i32) -> i32 {\n        x * y\n    }\n}\n\ntrait Processor {\n    fn process(&self) -> String;\n}\n\nimpl Processor for Calculator {\n    fn process(&self) -> String {\n        \"processing\".to_string()\n    }\n}\n\nfn main() {\n    hello_world();\n}\n";

#[test]
fn test_rust_function_extraction() {
    let result = chunk(RUST_FIXTURE, "test_fixture.rs", 0, 0);

    assert!(result.is_ok(), "Failed to parse Rust fixture: {:?}", result.err().map(|e| e.message()));
    let chunks = result.unwrap();
    assert!(!chunks.is_empty(), "Should extract some chunks");

    let has_hello_world = chunks.iter().any(|c| {
        c.content
            .as_ref()
            .map(|content| content.contains("hello_world") && content.contains("println!"))
            .unwrap_or(false)
    });
    assert!(has_hello_world, "Should contain hello_world function");
}

#[test]
fn test_unsupported_extension() {
    let result = chunk("some content", "test_file.unknown", 0, 0);

    assert!(
        result.is_err(),
        "Should return error for unsupported extension"
    );

    match result.unwrap_err() {
        ChunkError::UnsupportedExtension(ext) => {
            assert_eq!(ext, "unknown");
        }
        other => panic!("Expected UnsupportedExtension error, got: {:?}", other.message()),
    }
}

#[test]
fn test_empty_file() {
    let result = chunk("", "empty.rs", 0, 0);

    assert!(result.is_ok(), "Should handle empty files");
    let chunks = result.unwrap();
    assert!(chunks.is_empty(), "Empty file should have no chunks");
}

#[test]
fn test_invalid_rust_syntax() {
    let invalid_rust = "fn incomplete_function(";
    let result = chunk(invalid_rust, "invalid.rs", 0, 0);

    match result {
        Ok(chunks) => {
            assert!(
                chunks.len() <= 1,
                "Invalid syntax should not produce many chunks"
            );
        }
        Err(_) => {}
    }
}

#[test]
fn test_unsupported_without_extension() {
    let result = chunk("all: build", "Makefile", 0, 0);
    match result.unwrap_err() {
        ChunkError::UnsupportedExtension(ext) => {
            assert_eq!(ext, "no extension");
        }
        other => panic!(
            "Expected UnsupportedExtension error, got: {:?}",
            other.message()
        ),
    }
}

#[test]
fn test_ripgrep_supported_extensions() {
    let matcher = FiletypeMatcher::new().unwrap();
    let test_cases = vec![
        ("test.rs", true),
        ("test.py", true),
        ("test.pyi", true),
        ("test.js", true),
        ("test.jsx", true),
        ("test.mjs", true),
        ("test.ts", true),
        ("test.tsx", true),
        ("test.go", true),
        ("test.java", true),
        ("test.c", true),
        ("test.h", true),
        ("test.cpp", true),
        ("test.cc", true),
        ("test.cxx", true),
        ("test.hpp", true),
        ("test.unknown", false),
        ("test.txt", false),
        ("README.md", true),
    ];

    for (filename, expected) in test_cases {
        let supported = matcher.detect_language(filename).is_some();
        if expected {
            assert!(
                supported,
                "Expected {} to be supported by ripgrep's DEFAULT_TYPES",
                filename
            );
        } else {
            assert!(!supported, "Expected {} to be unsupported", filename);
        }
    }
}
