use lore::chunker::semantic::{merge_tiny_segments, split_chunk_at};
use lore::chunker::{ChunkConfig, ChunkTree, RawChunk, SemanticRefiner, StructuralChunker};
use lore::indexer::{build_contextual_text, FileStats};
use lore::node::NodeKind;
use lore::parser::{detect_primary_heading_level, heading_tree_weight, ContentBlock, HeadingNode, MarkdownParser, ParsedDoc, Parser, ParserRegistry};
use lore::tokens::TokenCounter;

fn counter() -> TokenCounter {
    TokenCounter::new().expect("cl100k_base must init")
}

fn chunker() -> StructuralChunker {
    StructuralChunker::new(ChunkConfig::default(), counter())
}

fn para(s: &str) -> ContentBlock {
    ContentBlock::Paragraph(s.into())
}

fn code(lang: &str, s: &str) -> ContentBlock {
    ContentBlock::Code { lang: Some(lang.into()), content: s.into() }
}

fn heading(level: u8, title: &str, blocks: Vec<ContentBlock>, children: Vec<HeadingNode>) -> HeadingNode {
    HeadingNode { level, title: title.into(), blocks, children }
}

fn doc_with_root(children: Vec<HeadingNode>) -> ParsedDoc {
    ParsedDoc { title: Some("Test Doc".into()), root: HeadingNode { children, ..HeadingNode::root() } }
}

// ── Token counting ────────────────────────────────────────────────────────────

#[test]
fn test_counter_counts_prose() {
    let count = counter().count("The quick brown fox jumps over the lazy dog.");
    assert!((5..=15).contains(&count), "expected ~10 tokens, got {count}");
}

#[test]
fn test_counter_empty() {
    assert_eq!(counter().count(""), 0);
}

#[test]
fn test_empty_string() {
    assert_eq!(counter().count(""), 0);
}

#[test]
fn test_token_count_prose() {
    let text = "The quick brown fox jumps over the lazy dog. \
        Rust is a systems programming language focused on three goals: \
        safety, speed, and concurrency. It accomplishes these goals \
        without a garbage collector, making it useful for a number of \
        use cases other languages aren't good at: embedding in other \
        languages, programs with specific space and time requirements, \
        and writing low-level code, like device drivers and operating systems.";
    let count = counter().count(text);
    assert!((80..=130).contains(&count), "expected 80–130 tokens for prose, got {count}");
}

#[test]
fn test_token_count_code() {
    let code = r"pub fn fibonacci(n: u64) -> u64 {
    match n {
        0 => 0,
        1 => 1,
        _ => fibonacci(n - 1) + fibonacci(n - 2),
    }
}

#[cfg(test)]
mod tests {
    use super::*;

    #[test]
    fn test_fib() {
        assert_eq!(fibonacci(10), 55);
    }
}";
    let count = counter().count(code);
    assert!(count as usize > code.len() / 6, "expected dense tokens, got {count} for {} chars", code.len());
}

// ── Contextual text ───────────────────────────────────────────────────────────

#[test]
fn test_contextual_text_format() {
    let path = vec!["Next.js".into(), "Caching".into(), "cacheLife()".into()];
    let result = build_contextual_text(&path, "Controls TTL.");
    assert_eq!(result, "Next.js > Caching > cacheLife()\n\nControls TTL.");
}

#[test]
fn embedder_test_contextual_text_empty_path() {
    let result = build_contextual_text(&[], "Just the content.");
    assert_eq!(result, "Just the content.");
}

#[test]
fn test_contextual_text_single_heading() {
    let result = build_contextual_text(&["Overview".into()], "Intro paragraph.");
    assert_eq!(result, "Overview\n\nIntro paragraph.");
}

#[test]
fn test_contextual_text_with_path() {
    let path = vec!["Docs".into(), "API".into(), "fetch()".into()];
    let out = build_contextual_text(&path, "Fetches data.");
    assert_eq!(out, "Docs > API > fetch()\n\nFetches data.");
}

#[test]
fn pipeline_test_test_contextual_text_empty_path() {
    assert_eq!(build_contextual_text(&[], "content"), "content");
}

// ── Structural chunker ────────────────────────────────────────────────────────

#[test]
fn test_chunk_flat_document() {
    let doc = doc_with_root(vec![
        heading(2, "Alpha", vec![para("Alpha content.")], vec![]),
        heading(2, "Beta", vec![para("Beta content.")], vec![]),
        heading(2, "Gamma", vec![para("Gamma content.")], vec![]),
    ]);
    let tree = chunker().chunk(&doc, "test.md", 2);
    let prose_chunks: Vec<_> = tree.nodes.iter().filter(|(c, _)| c.kind == NodeKind::Chunk).collect();
    assert_eq!(prose_chunks.len(), 3);
    assert!(prose_chunks.iter().all(|(_, p)| p.is_none()));
}

#[test]
fn test_chunk_code_block_atomic() {
    let big_code = "fn ".repeat(200);
    let doc = doc_with_root(vec![heading(2, "Usage", vec![para("Here is an example:"), code("rust", &big_code)], vec![])]);
    let tree = chunker().chunk(&doc, "test.md", 2);
    assert_eq!(tree.nodes.len(), 2);
    let prose = tree.nodes.iter().find(|(c, _)| c.kind == NodeKind::Chunk);
    let code_chunk = tree.nodes.iter().find(|(c, _)| c.kind == NodeKind::CodeBlock);
    assert!(prose.is_some(), "expected prose chunk");
    assert!(code_chunk.is_some(), "expected code chunk");
    assert_eq!(code_chunk.unwrap().0.blocks.len(), 1);
    assert!(!code_chunk.unwrap().0.needs_refinement);
}

#[test]
fn test_chunk_api_reference() {
    let children: Vec<HeadingNode> =
        (0..10).map(|i| heading(3, &format!("func_{i}"), vec![para("Description.")], vec![])).collect();
    let doc = doc_with_root(vec![heading(2, "API", vec![], children)]);
    let tree = chunker().chunk(&doc, "api.md", 2);
    assert_eq!(tree.nodes.iter().filter(|(c, _)| c.kind == NodeKind::Chunk).count(), 10);
}

#[test]
fn test_chunk_marks_large_for_refinement() {
    let big_para = para(&"word ".repeat(900));
    let doc = doc_with_root(vec![heading(2, "Large Section", vec![big_para], vec![])]);
    let tree = chunker().chunk(&doc, "large.md", 2);
    let chunk = &tree.nodes[0].0;
    assert!(chunk.needs_refinement, "expected needs_refinement, token_count={}", chunk.token_count);
}

#[test]
fn test_chunk_heading_path_propagates() {
    let h4 = heading(4, "Deep", vec![para("Deep content.")], vec![]);
    let h3 = heading(3, "Middle", vec![], vec![h4]);
    let h2 = heading(2, "Top", vec![], vec![h3]);
    let doc = doc_with_root(vec![h2]);
    let tree = chunker().chunk(&doc, "nested.md", 2);
    let deep = &tree.nodes[0].0;
    assert_eq!(deep.heading_path, vec!["Top", "Middle", "Deep"]);
    assert_eq!(deep.heading_levels, vec![2, 3, 4]);
}

#[test]
fn test_chunk_code_never_refined() {
    let large_code = code("rust", &"fn f() {} ".repeat(500));
    let doc = doc_with_root(vec![heading(2, "Code", vec![large_code], vec![])]);
    let tree = chunker().chunk(&doc, "code.md", 2);
    let code_chunk = tree.nodes.iter().find(|(c, _)| c.kind == NodeKind::CodeBlock).unwrap();
    assert!(!code_chunk.0.needs_refinement);
}

#[test]
fn test_chunk_tree_parent_links_correct() {
    let d = ParsedDoc {
        title: Some("Nested".into()),
        root: HeadingNode {
            children: vec![heading(2, "Parent", vec![para("Parent content.")], vec![heading(3, "Child", vec![para("Child content.")], vec![])])],
            ..HeadingNode::root()
        },
    };
    let tree = chunker().chunk(&d, "test.md", 2);
    // The child heading is deeper than the primary level, so its prose is
    // folded into the parent's chunk and the heading is recorded as folded.
    assert_eq!(tree.nodes.len(), 1);
    assert!(tree.nodes[0].1.is_none(), "Parent should have no parent");
    assert_eq!(tree.folded_headings.len(), 1);
    assert_eq!(tree.folded_headings[0].heading_path, vec!["Parent", "Child"]);
    let tree3 = chunker().chunk(&d, "test.md", 3);
    assert_eq!(tree3.nodes.len(), 2);
    assert!(tree3.nodes[0].1.is_none());
    assert_eq!(tree3.nodes[1].1, Some(0), "Child should have Parent as parent");
}

#[test]
fn every_code_block_one_chunk_and_every_parent_is_prose() {
    let d = doc_with_root(vec![
        heading(2, "A", vec![para("a"), code("rust", "fn a() {}"), code("sh", "ls")], vec![
            heading(3, "A1", vec![code("rust", "fn a1() {}"), para("a1")], vec![]),
        ]),
        heading(2, "B", vec![], vec![heading(3, "B1", vec![code("py", "pass")], vec![])]),
    ]);
    for primary in [2u8, 3u8] {
        let tree = chunker().chunk(&d, "docs/x.md", primary);
        let code_chunks = tree.nodes.iter().filter(|(c, _)| c.kind == NodeKind::CodeBlock).count();
        assert_eq!(code_chunks, 4);
        for (c, parent) in &tree.nodes {
            assert_eq!(c.doc_path, "docs/x.md");
            assert_eq!(c.doc_title.as_deref(), Some("Test Doc"));
            if let Some(p) = parent {
                assert_eq!(tree.nodes[*p].0.kind, NodeKind::Chunk);
            }
        }
    }
}

#[test]
fn folded_prose_is_appended_and_recounted() {
    let d = doc_with_root(vec![heading(2, "Guide", vec![para("Intro paragraph.")], vec![heading(3, "Setup", vec![para("Install instructions.")], vec![])])]);
    let tree = chunker().chunk(&d, "fold.md", 2);
    assert_eq!(tree.nodes.len(), 1);
    let c = &tree.nodes[0].0;
    assert_eq!(c.blocks.len(), 2);
    assert_eq!(c.token_count, counter().count("Intro paragraph.\n\nInstall instructions."));
    assert_eq!(tree.folded_headings[0].heading_levels, vec![2, 3]);
}

#[test]
fn test_pipeline_parse_and_chunk_markdown() {
    let md = r#"# My Library

Welcome to my library.

## Installation

Install with cargo:

```toml
my-lib = "1.0"
```

## Usage

Import and call `run()`:

```rust
use my_lib::run;
run();
```

## Configuration

Set the environment variable `MY_LIB_PORT=8080`.
"#;
    let doc = MarkdownParser.parse(md, "lib.md").unwrap();
    let primary = detect_primary_heading_level(&doc.root);
    let tree = chunker().chunk(&doc, "lib.md", primary);
    let prose: Vec<_> = tree.nodes.iter().filter(|(c, _)| c.kind == NodeKind::Chunk).collect();
    let code: Vec<_> = tree.nodes.iter().filter(|(c, _)| c.kind == NodeKind::CodeBlock).collect();
    assert!(!prose.is_empty(), "expected at least one prose chunk");
    assert!(!code.is_empty(), "expected at least one code chunk");
    for (chunk, _) in &tree.nodes {
        assert_eq!(chunk.doc_path, "lib.md");
    }
}

#[test]
fn test_chunk_registry_end_to_end() {
    let registry = ParserRegistry::new();
    let test_cases = [
        ("doc.md", "## Overview\n\nContent.\n"),
        ("doc.rst", "Overview\n========\n\nContent.\n"),
        ("doc.adoc", "== Overview\n\nContent.\n"),
    ];
    for (name, content) in &test_cases {
        let parsed = registry.parse(name, content).expect(name);
        let tree = chunker().chunk(&parsed, name, 2);
        assert!(!tree.nodes.is_empty(), "expected at least one chunk for {name}");
    }
}

#[test]
fn parse_and_chunk_empty_document_does_not_panic() {
    let doc = MarkdownParser.parse("", "empty.md").expect("parse empty must succeed");
    let tree = chunker().chunk(&doc, "empty.md", 2);
    assert!(tree.is_empty());
}

#[test]
fn parse_and_chunk_headings_only_document_does_not_panic() {
    let md = "# Introduction\n\n## Getting Started\n\n### Installation\n\n## Configuration\n";
    let doc = MarkdownParser.parse(md, "headings.md").expect("parse must succeed");
    let tree = chunker().chunk(&doc, "headings.md", 2);
    assert!(tree.nodes.is_empty());
}

#[test]
fn parse_and_chunk_unicode_content_does_not_panic() {
    let md = "# 日本語ドキュメント\n\nこのライブラリは非常に便利です。🚀\n\n\
              ## نمونه\n\nاین یک متن فارسی است\n\n\
              ```rust\nfn main() { println!(\"Hello, 世界!\"); }\n```\n";
    let doc = MarkdownParser.parse(md, "unicode.md").expect("parse must succeed");
    let tree = chunker().chunk(&doc, "unicode.md", 2);
    assert!(!tree.is_empty(), "unicode document must produce at least one chunk");
    let code: Vec<_> = tree.nodes.iter().filter(|(c, _)| c.kind == NodeKind::CodeBlock).collect();
    assert!(!code.is_empty(), "rust code block in unicode doc must be extracted");
}

#[test]
fn chunk_tree_push_returns_index() {
    let mut t = ChunkTree::new();
    assert!(t.is_empty());
    let c = || RawChunk {
        heading_path: vec![],
        blocks: vec![para("x")],
        token_count: 1,
        has_code: false,
        needs_refinement: false,
        doc_path: "d".into(),
        doc_title: None,
        kind: NodeKind::Chunk,
        heading_levels: vec![],
    };
    assert_eq!(t.push(c(), None), 0);
    assert_eq!(t.push(c(), Some(0)), 1);
    assert_eq!(t.push(c(), Some(1)), 2);
    for (i, (_, p)) in t.iter().iter().enumerate() {
        assert!(p.map_or(true, |p| p < i));
    }
    assert_eq!(t.iter().len(), 3);
    assert_eq!(t.consume().len(), 3);
}

// ── Semantic refinement (the parts that need no embedding) ────────────────────

fn prose_chunk(paragraphs: &[&str], needs_refinement: bool) -> RawChunk {
    RawChunk {
        heading_path: vec!["Section".into()],
        blocks: paragraphs.iter().map(|p| ContentBlock::Paragraph((*p).to_owned())).collect(),
        token_count: 0,
        has_code: false,
        needs_refinement,
        doc_path: "test.md".into(),
        doc_title: None,
        kind: NodeKind::Chunk,
        heading_levels: vec![2],
    }
}

#[test]
fn test_no_refinement_when_not_flagged() {
    let chunk = prose_chunk(&["a", "b", "c"], false);
    assert!(SemanticRefiner::paragraphs_to_embed(&chunk).is_none());
}

#[test]
fn test_no_split_too_few_paragraphs() {
    let chunk = prose_chunk(&["a", "b"], true);
    assert!(SemanticRefiner::paragraphs_to_embed(&chunk).is_none());
    let three = prose_chunk(&["a", "b", "c"], true);
    assert_eq!(SemanticRefiner::paragraphs_to_embed(&three).unwrap(), vec!["a", "b", "c"]);
}

#[test]
fn split_chunk_cuts_after_marked_paragraphs() {
    let chunk = prose_chunk(&["one", "two", "three", "four"], true);
    let segs = split_chunk_at(&chunk, &vec![1]);
    assert_eq!(segs.len(), 2);
    assert_eq!(segs[0].blocks.len(), 2);
    assert_eq!(segs[1].blocks.len(), 2);
    assert!(!segs[0].needs_refinement);
    assert_eq!(segs[1].heading_levels, vec![2]);
}

#[test]
fn test_merges_tiny_fragment() {
    let chunk = prose_chunk(&["one", "two", "three"], true);
    let segs = split_chunk_at(&chunk, &vec![0, 1]);
    assert_eq!(segs.len(), 3);
    let merged = merge_tiny_segments(segs, 50, &counter());
    assert_eq!(merged.len(), 1);
    assert_eq!(merged[0].blocks.len(), 3);
    let refiner = SemanticRefiner::new(ChunkConfig::default(), counter());
    let same = refiner.refine_at(prose_chunk(&["x", "y", "z"], true), &vec![]);
    assert_eq!(same.len(), 1);
    assert!(same[0].needs_refinement);
}

// ── Indexer helpers ───────────────────────────────────────────────────────────

#[test]
fn raw_chunk_text_and_storage() {
    let c = prose_chunk(&["a", "b"], false);
    assert_eq!(c.text(), "a\n\nb");
    assert_eq!(c.text_for_embedding().as_deref(), Some("a\n\nb"));
    let (content, lang) = c.content_and_lang();
    assert_eq!(content, "a\n\nb");
    assert!(lang.is_none());
    let code_chunk = RawChunk { blocks: vec![code("go", "func f()")], kind: NodeKind::CodeBlock, ..prose_chunk(&[], false) };
    let (content, lang) = code_chunk.content_and_lang();
    assert_eq!(content, "func f()");
    assert_eq!(lang.as_deref(), Some("go"));
    let blank = prose_chunk(&["  ", ""], false);
    assert!(blank.text_for_embedding().is_none());
}

#[test]
fn file_stats_accumulate_by_kind() {
    let mut s = FileStats::default();
    let mut c = prose_chunk(&["a"], false);
    c.token_count = 7;
    s.accumulate(&c);
    c.kind = NodeKind::CodeBlock;
    s.accumulate(&c);
    c.kind = NodeKind::Heading;
    s.accumulate(&c);
    assert_eq!((s.chunk_count, s.code_block_count, s.total_tokens), (1, 1, 14));
}

#[test]
fn heading_tree_weight_counts_descendants_and_their_blocks() {
    let d = doc_with_root(vec![
        heading(2, "A", vec![para("a"), para("b")], vec![heading(3, "A1", vec![para("c")], vec![])]),
        heading(2, "B", vec![], vec![]),
    ]);
    // A: 1 + 2 blocks + (A1: 1 + 1 block), B: 1.
    assert_eq!(heading_tree_weight(&d.root), Some(6));
    assert_eq!(heading_tree_weight(&HeadingNode::root()), Some(0));
}
