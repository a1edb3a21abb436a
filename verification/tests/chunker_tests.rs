use turbogrep::attach::extract_function_with_comments;
use turbogrep::chunker::{chunk, file_hash_chunk};
use turbogrep::filetype::LangTag;
use turbogrep::markdown::extract_paragraph_with_heading;
use turbogrep::syntax::parse_to_nodes;

#[test]
fn test_chunk_id_changes_with_content() {
    let content1 = "fn hello() {\n    println!(\"Hello, world!\");\n}";
    let content2 = "fn hello() {\n    println!(\"Hello, universe!\");\n}";

    let chunks1 = chunk(content1, "test.rs", 0, 0).unwrap();
    let chunks2 = chunk(content2, "test.rs", 0, 0).unwrap();

    assert!(!chunks1.is_empty(), "First version should produce chunks");
    assert!(!chunks2.is_empty(), "Second version should produce chunks");

    let id1 = chunks1[0].id;
    let id2 = chunks2[0].id;
    assert_ne!(
        id1, id2,
        "Chunk IDs should be different when content changes"
    );

    assert_eq!(chunks1[0].start_line, chunks2[0].start_line);
    assert_eq!(chunks1[0].end_line, chunks2[0].end_line);

    assert_ne!(chunks1[0].chunk_hash, chunks2[0].chunk_hash);
}

#[test]
fn test_extract_function_with_comments() {
    let rust_code = "use std::collections::HashMap;\n\n/// A helper function to calculate factorial\n/// This is a recursive implementation\nfn factorial(n: u32) -> u32 {\n    if n <= 1 {\n        1\n    } else {\n        n * factorial(n - 1)\n    }\n}\n\n// Process users and return stats\nfn process_users(users: Vec<String>) -> HashMap<String, u32> {\n    let mut stats = HashMap::new();\n    stats\n}";

    let nodes = parse_to_nodes(LangTag::Rust, rust_code.as_bytes()).unwrap();

    let functions: Vec<usize> = (0..nodes.len())
        .filter(|&i| nodes[i].kind == "function_item")
        .collect();
    assert!(!functions.is_empty(), "Should find at least one function");

    let content_with_comments =
        extract_function_with_comments(&nodes, functions[0], rust_code.as_bytes()).unwrap();
    assert!(content_with_comments.contains("/// A helper function to calculate factorial"));
    assert!(content_with_comments.contains("/// This is a recursive implementation"));
    assert!(content_with_comments.contains("fn factorial(n: u32) -> u32"));
    assert!(!content_with_comments.contains("process_users"));

    let content_with_comments =
        extract_function_with_comments(&nodes, functions[1], rust_code.as_bytes()).unwrap();
    assert!(content_with_comments.contains("// Process users and return stats"));
    assert!(content_with_comments.contains("fn process_users"));
    assert!(!content_with_comments.contains("factorial"));
}

#[test]
fn test_extract_method_comments_in_class() {
    let rust_code = "struct Calculator {\n    value: i32,\n}\n\nimpl Calculator {\n    /// Creates a new calculator\n    pub fn new() -> Self {\n        Self { value: 0 }\n    }\n\n    // Adds a value to the calculator\n    pub fn add(&mut self, x: i32) {\n        self.value += x;\n    }\n}";

    let nodes = parse_to_nodes(LangTag::Rust, rust_code.as_bytes()).unwrap();

    let functions: Vec<usize> = (0..nodes.len())
        .filter(|&i| nodes[i].kind == "function_item")
        .collect();
    assert!(!functions.is_empty(), "Should find at least one method");

    let content_with_comments =
        extract_function_with_comments(&nodes, functions[0], rust_code.as_bytes()).unwrap();
    assert!(
        content_with_comments.contains("/// Creates a new calculator"),
        "Should include doc comment for method inside impl block"
    );
    assert!(content_with_comments.contains("pub fn new() -> Self"));
}

#[test]
fn test_extract_long_comment_blocks() {
    let go_code = "package main\n\n// buildFiltersForFastPathCheck builds ANDed equality filters between the\n// columns in the uniqueness check defined by h.uniqueOrdinals and scalar\n// expressions present in a single Values row being inserted. It is expected\n// that buildCheckInputScan has been called and has set up in\n// uniqueCheckExpr the columns corresponding with the scalars in the\n// insert row. buildCheckInputScan has either inlined the insert row as a Values\n// expression, or embedded it within a WithScanExpr, in which case `h.mb.inputForInsertExpr`\n// holds the input to the WithScanExpr. In the latter case, for a\n// given table column ordinal `i` in `h.uniqueOrdinals`, instead of finding the\n// matching scalar in the Values row via uniqueCheckCols[i],\n// withScanExpr.InCols[i] holds the column ID to match on. scanExpr is\n// the scan on the insert target table used on the right side of the semijoins\n// in the non-fast-path uniqueness checks, with column ids matching h.scanScope.cols.\n//\n// The purpose of this function is to build filters representing a uniqueness\n// check on a given insert row, which can be applied as a Select from a Scan,\n// and optimized during exploration when all placeholders have been filled in.\n// The goal is to find a constrained Scan of an index, which consumes all\n// filters (meaning it could also be safely executed via a KV lookup in a fast\n// path uniqueness check).\nfunc buildFiltersForFastPathCheck(uniqueCheckExpr RelExpr) FiltersExpr {\n    return nil\n}";

    let nodes = parse_to_nodes(LangTag::Go, go_code.as_bytes()).unwrap();

    let functions: Vec<usize> = (0..nodes.len())
        .filter(|&i| nodes[i].kind == "function_declaration")
        .collect();
    assert!(!functions.is_empty(), "Should find the function");

    let content_with_comments =
        extract_function_with_comments(&nodes, functions[0], go_code.as_bytes()).unwrap();

    assert!(
        content_with_comments.contains("// buildFiltersForFastPathCheck builds ANDed equality filters"),
        "Should include start of long comment"
    );
    assert!(
        content_with_comments.contains("// path uniqueness check)."),
        "Should include end of long comment"
    );
    assert!(
        content_with_comments.contains("func buildFiltersForFastPathCheck"),
        "Should include function declaration"
    );

    let comment_lines: Vec<&str> = content_with_comments
        .lines()
        .filter(|line| line.trim().starts_with("//"))
        .collect();
    assert!(
        comment_lines.len() >= 20,
        "Should include all lines of the long comment block, found: {}",
        comment_lines.len()
    );
}

#[test]
fn test_extract_paragraph_with_heading() {
    let markdown_content = "# Introduction\n\nThis is the introduction paragraph that should include the heading.\n\n## Features\n\nHere are the main features:\n\n- Feature 1\n- Feature 2\n\nThis paragraph should include the Features heading.\n\n### Sub Feature\n\nThis is under a sub-heading.\n\n## Another Section\n\nThis paragraph is under another section heading.\n\nSome text without a heading at the start.";

    let nodes = parse_to_nodes(LangTag::Markdown, markdown_content.as_bytes()).unwrap();

    let paragraphs: Vec<usize> = (0..nodes.len())
        .filter(|&i| nodes[i].kind == "paragraph")
        .collect();
    assert!(!paragraphs.is_empty(), "Should find at least one paragraph");

    let content_with_heading =
        extract_paragraph_with_heading(&nodes, paragraphs[0], markdown_content.as_bytes())
            .unwrap();
    assert!(
        content_with_heading.contains("# Introduction"),
        "Should include the main heading"
    );
    assert!(
        content_with_heading.contains("This is the introduction paragraph"),
        "Should include paragraph content: {content_with_heading:?}"
    );
    assert!(
        !content_with_heading.contains("## Features"),
        "Should not include subsequent sections"
    );

    // Skip the "Here are the main features" paragraph and the bullet items,
    // which sit inside the list.
    let features_para = paragraphs
        .iter()
        .copied()
        .find(|&i| {
            let s = nodes[i].start_byte;
            let e = nodes[i].end_byte;
            markdown_content.as_bytes()[s..e]
                .starts_with(b"This paragraph should include the Features heading")
        })
        .unwrap();
    let content_with_heading =
        extract_paragraph_with_heading(&nodes, features_para, markdown_content.as_bytes())
            .unwrap();
    assert!(
        content_with_heading.contains("## Features"),
        "Should include the Features heading"
    );
    assert!(
        content_with_heading.contains("This paragraph should include the Features heading"),
        "Should include paragraph content: {content_with_heading:?}",
    );
    assert!(
        !content_with_heading.contains("# Introduction"),
        "Should not include earlier sections"
    );

    let sub_para = paragraphs
        .iter()
        .copied()
        .find(|&i| {
            let s = nodes[i].start_byte;
            let e = nodes[i].end_byte;
            markdown_content.as_bytes()[s..e].starts_with(b"This is under a sub-heading")
        })
        .unwrap();
    let content_with_heading =
        extract_paragraph_with_heading(&nodes, sub_para, markdown_content.as_bytes()).unwrap();
    assert!(
        content_with_heading.contains("### Sub Feature"),
        "Should include the sub-heading"
    );
    assert!(
        content_with_heading.contains("This is under a sub-heading"),
        "Should include paragraph content"
    );
}

// A paragraph that sits inside a list yields no chunk of its own.
#[test]
fn test_markdown_list_paragraph_discarded() {
    let markdown_content = "# Title\n\n- first item\n- second item\n\nafter the list\n";

    let nodes = parse_to_nodes(LangTag::Markdown, markdown_content.as_bytes()).unwrap();

    let in_list = (0..nodes.len())
        .find(|&i| {
            nodes[i].kind == "paragraph"
                && markdown_content.as_bytes()[nodes[i].start_byte..].starts_with(b"first item")
        })
        .unwrap();
    assert!(
        extract_paragraph_with_heading(&nodes, in_list, markdown_content.as_bytes()).is_none()
    );

    let outside = (0..nodes.len())
        .find(|&i| {
            nodes[i].kind == "paragraph"
                && markdown_content.as_bytes()[nodes[i].start_byte..]
                    .starts_with(b"after the list")
        })
        .unwrap();
    let content =
        extract_paragraph_with_heading(&nodes, outside, markdown_content.as_bytes()).unwrap();
    assert_eq!(content, "# Title\nafter the list");
}

#[test]
fn test_chunk_test_file() {
    let content = "\n#[tokio::test]\nasync fn test_function() {\n    // This is a test function\n    assert_eq!(1 + 1, 2);\n}\n\nfn regular_function() {\n    // This is a regular function\n    println!(\"Hello world\");\n}\n";

    let chunks = chunk(content, "test_file.rs", 0, 0).unwrap();

    assert!(!chunks.is_empty(), "Should find at least one function");

    for chunk in &chunks {
        assert!(chunk.content.is_some(), "All chunks should have content");
        assert!(
            !chunk.content.as_ref().unwrap().is_empty(),
            "Content should not be empty"
        );
    }
}

// Chunking is a function of the content and the path: repeated runs return
// identical records.
#[test]
fn test_chunking_is_deterministic() {
    let source = "/// doc\nfn a() {}\n\nfn b() {\n    a();\n}\n";
    let first = chunk(source, "src/x.rs", 3, 4).unwrap();
    let second = chunk(source, "src/x.rs", 3, 4).unwrap();

    assert_eq!(first.len(), second.len());
    for (a, b) in first.iter().zip(second.iter()) {
        assert_eq!(a.id, b.id);
        assert_eq!(a.path, b.path);
        assert_eq!(a.start_line, b.start_line);
        assert_eq!(a.end_line, b.end_line);
        assert_eq!(a.file_hash, b.file_hash);
        assert_eq!(a.chunk_hash, b.chunk_hash);
        assert_eq!(a.content, b.content);
    }
}

// Multi-byte characters inside comments and strings survive chunking.
#[test]
fn test_chunk_with_multibyte_content() {
    let source = "/// grüße — ∀x\nfn köln() -> &'static str {\n    \"héllo\"\n}\n";
    let chunks = chunk(source, "u.rs", 0, 0).unwrap();
    assert_eq!(chunks.len(), 1);
    let content = chunks[0].content.as_deref().unwrap();
    assert!(content.contains("grüße — ∀x"));
    assert!(content.contains("fn köln"));
    assert_eq!(chunks[0].start_line, 2);
}

#[test]
fn test_chunks_across_languages() {
    let cases: Vec<(&str, &str, &str)> = vec![
        ("t.py", "def f(x):\n    return x\n", "def f"),
        ("t.js", "function f(x) {\n  return x;\n}\n", "function f"),
        ("t.ts", "function f(x: number) {\n  return x;\n}\n", "function f"),
        ("t.java", "class A {\n  int f(int x) {\n    return x;\n  }\n}\n", "int f"),
        ("t.c", "int f(int x) {\n  return x;\n}\n", "int f"),
        ("t.cpp", "int f(int x) {\n  return x;\n}\n", "int f"),
        ("t.rb", "def f(x)\n  x\nend\n", "def f"),
        ("t.sh", "f() {\n  echo hi\n}\n", "f()"),
    ];
    for (path, source, needle) in cases {
        let chunks = chunk(source, path, 0, 0).unwrap();
        assert!(
            chunks
                .iter()
                .any(|c| c.content.as_ref().unwrap().contains(needle)),
            "no chunk containing {:?} for {}",
            needle,
            path
        );
    }
}

#[test]
fn test_single_function_single_line() {
    let chunks = chunk("fn f(){}", "a.rs", 0, 0).unwrap();
    assert_eq!(chunks.len(), 1);
    assert_eq!(chunks[0].start_line, 1);
    assert_eq!(chunks[0].end_line, 1);
    assert!(chunks[0].content.as_ref().unwrap().contains("fn f"));
}

#[test]
fn test_file_hash_follows_content() {
    let a = chunk("fn f() { 1; }", "a.rs", 0, 0).unwrap();
    let b = chunk("fn g() { 2; }", "b.rs", 0, 0).unwrap();
    assert_ne!(a[0].file_hash, b[0].file_hash);

    let b_rewritten = chunk("fn f() { 1; }", "b.rs", 0, 0).unwrap();
    assert_eq!(a[0].file_hash, b_rewritten[0].file_hash);
}

#[test]
fn test_file_hash_records() {
    let a = file_hash_chunk("test1.rs", b"fn hello() { println!(\"Hello\"); }", 7, 8);
    let b = file_hash_chunk("test2.rs", b"fn world() { println!(\"World\"); }", 7, 8);
    assert_ne!(
        a.file_hash, b.file_hash,
        "Different content should have different hashes"
    );
    assert_eq!(a.id, a.file_hash);
    assert_eq!(a.chunk_hash, a.file_hash);
    assert_eq!(a.start_line, 1);
    assert_eq!(a.end_line, 1);
    assert_eq!(a.content, None);

    let rewritten = file_hash_chunk("test1.rs", b"fn world() { println!(\"World\"); }", 9, 9);
    assert_eq!(
        rewritten.file_hash, b.file_hash,
        "Same content should have same hashes"
    );
}

#[test]
fn test_markdown_paragraph_heading_content() {
    let chunks = chunk("# H\n\npara\n", "notes.md", 0, 0).unwrap();
    let para = chunks
        .iter()
        .find(|c| c.content.as_ref().unwrap().contains("para"))
        .unwrap();
    assert_eq!(para.content.as_deref().unwrap(), "# H\npara");
}

// Line numbers name the syntactic unit, never the attached comments:
// editing only the leading comment changes the chunk's content and hashes
// but not its line range.
#[test]
fn test_comment_edit_keeps_lines() {
    let before = "// the old explanation\nfn f() {\n    1;\n}\n";
    let after = "// a better explanation\nfn f() {\n    1;\n}\n";

    let a = chunk(before, "f.rs", 0, 0).unwrap();
    let b = chunk(after, "f.rs", 0, 0).unwrap();
    assert_eq!(a.len(), 1);
    assert_eq!(b.len(), 1);

    assert_eq!(a[0].start_line, 2);
    assert_eq!(b[0].start_line, 2);
    assert_eq!(a[0].end_line, b[0].end_line);

    assert!(a[0].content.as_ref().unwrap().contains("// the old explanation"));
    assert!(b[0].content.as_ref().unwrap().contains("// a better explanation"));
    assert_ne!(a[0].chunk_hash, b[0].chunk_hash);
    assert_ne!(a[0].id, b[0].id);
}

#[test]
fn test_go_comment_block_of_twenty_two_lines() {
    let mut code = String::from("package main\n\n");
    for i in 1..=22 {
        code.push_str(&format!("// comment line number {}\n", i));
    }
    code.push_str("func X(a int) int {\n    return a\n}\n");

    let chunks = chunk(&code, "x.go", 0, 0).unwrap();
    assert_eq!(chunks.len(), 1);
    let content = chunks[0].content.as_deref().unwrap();
    assert!(content.contains("// comment line number 1"));
    assert!(content.contains("// comment line number 22"));
    assert!(content.contains("func X"));
}
