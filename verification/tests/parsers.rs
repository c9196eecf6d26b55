use lore::parser::asciidoc::parse_asciidoc;
use lore::parser::markdown::{parse_markdown, strip_jsx};
use lore::parser::rst::parse_rst;
use lore::parser::{
    detect_primary_heading_level, AsciidocParser, ContentBlock, HeadingNode, HtmlParser, MarkdownParser,
    ParsedDoc, Parser, ParserRegistry, RstParser,
};

// ── Markdown ──────────────────────────────────────────────────────────────────

fn parse_md(s: &str) -> ParsedDoc {
    parse_markdown(s)
}

#[test]
fn test_basic_markdown() {
    let md = "# Doc\n\nIntro paragraph.\n\n## Section One\n\nFirst section content.\n\n## Section Two\n\nSecond section content.\n";
    let doc = parse_md(md);
    assert_eq!(doc.root.children.len(), 1);
    let h1 = &doc.root.children[0];
    assert_eq!(h1.title, "Doc");
    assert_eq!(h1.blocks.len(), 1);
    assert_eq!(h1.children.len(), 2);
    assert_eq!(h1.children[0].title, "Section One");
    assert_eq!(h1.children[1].title, "Section Two");
}

#[test]
fn test_frontmatter() {
    let md = "---\ntitle: My Great Doc\nauthor: Alice\n---\n\n# Heading\n\nContent.\n";
    let doc = parse_md(md);
    assert_eq!(doc.title.as_deref(), Some("My Great Doc"));
    assert_eq!(doc.root.children.len(), 1);
    assert_eq!(doc.root.children[0].title, "Heading");
}

#[test]
fn test_code_block() {
    let md = "# Doc\n\n```rust\nfn main() {}\n```\n";
    let doc = parse_md(md);
    let h1 = &doc.root.children[0];
    assert_eq!(h1.blocks.len(), 1);
    match &h1.blocks[0] {
        ContentBlock::Code { lang, content } => {
            assert_eq!(lang.as_deref(), Some("rust"));
            assert!(content.contains("fn main"));
        }
        other => panic!("expected Code, got {other:?}"),
    }
}

#[test]
fn test_nested_headings() {
    let md = "## Parent\n\nParent content.\n\n### Child\n\nChild content.\n";
    let doc = parse_md(md);
    let h2 = &doc.root.children[0];
    assert_eq!(h2.title, "Parent");
    assert_eq!(h2.children.len(), 1);
    assert_eq!(h2.children[0].title, "Child");
}

#[test]
fn test_mdx_tag_stripping() {
    let md = "## Section\n\n<AppOnly>Inside JSX.</AppOnly>\n\nRegular text.\n";
    let doc = parse_md(md);
    let h2 = &doc.root.children[0];
    let combined: String = h2.blocks.iter().map(ContentBlock::text).collect::<Vec<_>>().join(" ");
    assert!(combined.contains("Inside JSX."));
    assert!(!combined.contains("<AppOnly>"));
}

#[test]
fn test_toc_skipped() {
    let md = "## Table of Contents\n\n- [Section One](#s1)\n- [Section Two](#s2)\n\n## Section One\n\nReal content.\n";
    let doc = parse_md(md);
    assert!(doc.root.children.iter().all(|n| n.title != "Table of Contents"));
    assert!(doc.root.children.iter().any(|n| n.title == "Section One"));
}

#[test]
fn test_tight_list_content_is_captured() {
    let md = "## Features\n\n- fast startup times\n- zero configuration\n- async support\n\nTrailing paragraph.\n";
    let doc = parse_md(md);
    let section = &doc.root.children[0];
    let combined: String = section.blocks.iter().map(ContentBlock::text).collect::<Vec<_>>().join("\n");
    assert!(combined.contains("fast startup times"), "bullet 1 lost: {combined:?}");
    assert!(combined.contains("zero configuration"), "bullet 2 lost: {combined:?}");
    assert!(combined.contains("async support"), "bullet 3 lost: {combined:?}");
    assert!(combined.contains("Trailing paragraph."));
}

#[test]
fn test_generics_not_stripped_as_jsx() {
    let md = "## API\n\nUse Option<T> and Vec<String> where <T> is a generic parameter.\n";
    let doc = parse_md(md);
    let combined: String = doc.root.children[0].blocks.iter().map(ContentBlock::text).collect();
    assert!(combined.contains("Option<T>"), "Option<T> corrupted: {combined:?}");
    assert!(combined.contains("Vec<String>"), "Vec<String> corrupted: {combined:?}");
    assert!(combined.contains("<T>"), "bare <T> corrupted: {combined:?}");
}

#[test]
fn test_mdx_component_still_stripped() {
    assert_eq!(strip_jsx("<AppOnly>Inside.</AppOnly>"), "Inside.");
    assert_eq!(strip_jsx("<Callout type=\"info\">Note</Callout>"), "Note");
}

#[test]
fn markdown_frontmatter_with_quotes_and_crlf() {
    let doc = parse_md("---\r\ntitle: 'Quoted'\r\n---\r\n# H\n\nBody.\n");
    assert_eq!(doc.title.as_deref(), Some("Quoted"));
    assert_eq!(doc.root.children[0].title, "H");
}

#[test]
fn markdown_unclosed_frontmatter_is_kept_as_text() {
    let doc = parse_md("---\ntitle: X\n# H\n");
    assert!(doc.title.is_none());
}

#[test]
fn markdown_link_dense_section_is_dropped() {
    // Escaped brackets keep the link syntax in the paragraph text.
    let md = "## Links\n\n\\[a\\](b) \\[c\\](d)\n\n## Body\n\nText.\n";
    let doc = parse_md(md);
    assert_eq!(doc.root.children.len(), 1);
    assert_eq!(doc.root.children[0].title, "Body");
}

#[test]
fn markdown_rendered_links_do_not_count_as_link_syntax() {
    // Real links contribute only their text, so the section stays.
    let md = "## Links\n\n[a](b) [c](d)\n\n## Body\n\nText.\n";
    let doc = parse_md(md);
    assert_eq!(doc.root.children.len(), 2);
    assert_eq!(doc.root.children[0].title, "Links");
}

#[test]
fn strip_jsx_keeps_unterminated_tag() {
    assert_eq!(strip_jsx("a <Foo b"), "a <Foo b");
    assert_eq!(strip_jsx("Note</Callout>"), "Note");
}

// ── AsciiDoc ──────────────────────────────────────────────────────────────────

#[test]
fn test_asciidoc_basic() {
    let doc = parse_asciidoc(
        "= My Document\n\nIntro paragraph.\n\n== Overview\n\nFirst section.\n\n=== Details\n\nSub-section content.\n",
    );
    assert_eq!(doc.title.as_deref(), Some("My Document"));
    assert_eq!(doc.root.children.len(), 1);
    let h2 = &doc.root.children[0];
    assert_eq!(h2.title, "Overview");
    assert_eq!(h2.level, 2);
    assert_eq!(h2.children.len(), 1);
    assert_eq!(h2.children[0].title, "Details");
    assert_eq!(h2.children[0].level, 3);
}

#[test]
fn test_asciidoc_source_block() {
    let doc = parse_asciidoc(
        "== Usage\n\nHere is some code:\n\n[source,java]\n----\npublic class Foo {}\n----\n\nMore text.\n",
    );
    let h2 = &doc.root.children[0];
    let code_block = h2.blocks.iter().find(|b| matches!(b, ContentBlock::Code { .. }));
    assert!(code_block.is_some(), "expected a code block");
    if let Some(ContentBlock::Code { lang, content }) = code_block {
        assert_eq!(lang.as_deref(), Some("java"));
        assert!(content.contains("class Foo"));
    }
}

#[test]
fn test_asciidoc_no_title() {
    let doc = parse_asciidoc("== Section\n\nContent.\n");
    assert!(doc.title.is_none());
    assert_eq!(doc.root.children.len(), 1);
}

// ── reStructuredText ──────────────────────────────────────────────────────────

#[test]
fn test_rst_headings() {
    let rst = "Overview\n========\n\nIntro text.\n\nInstallation\n------------\n\nInstall info.\n";
    let doc = parse_rst(rst);
    assert_eq!(doc.root.children.len(), 1);
    let h1 = &doc.root.children[0];
    assert_eq!(h1.title, "Overview");
    assert_eq!(h1.level, 1);
    assert_eq!(h1.children.len(), 1);
    assert_eq!(h1.children[0].title, "Installation");
    assert_eq!(h1.children[0].level, 2);
}

#[test]
fn test_rst_nested_headings() {
    let rst = "Guide\n=====\n\nIntro.\n\nChapter One\n-----------\n\nText.\n\nSection A\n~~~~~~~~~\n\nDeep content.\n";
    let doc = parse_rst(rst);
    let h1 = &doc.root.children[0];
    assert_eq!(h1.title, "Guide");
    assert_eq!(h1.children.len(), 1);
    let h2 = &h1.children[0];
    assert_eq!(h2.title, "Chapter One");
    assert_eq!(h2.children.len(), 1);
    assert_eq!(h2.children[0].title, "Section A");
}

#[test]
fn test_rst_code_block() {
    let rst = "Usage\n=====\n\nExample:\n\n.. code-block:: python\n\n    def hello():\n        print(\"hi\")\n\nMore text.\n";
    let doc = parse_rst(rst);
    let h1 = &doc.root.children[0];
    let code = h1.blocks.iter().find(|b| matches!(b, ContentBlock::Code { .. }));
    assert!(code.is_some(), "expected a code block");
    if let Some(ContentBlock::Code { lang, content }) = code {
        assert_eq!(lang.as_deref(), Some("python"));
        assert!(content.contains("hello"));
    }
}

// ── HTML ──────────────────────────────────────────────────────────────────────

fn parse_html(html: &str) -> ParsedDoc {
    HtmlParser.parse(html, "test.html").unwrap()
}

#[test]
fn test_html_basic() {
    let html = r"<!DOCTYPE html>
<html>
<head><title>My Page</title></head>
<body>
<h1>Main Heading</h1>
<p>Some introductory text.</p>
<h2>Section One</h2>
<p>Content of section one.</p>
</body>
</html>";
    let doc = parse_html(html);
    assert_eq!(doc.title.as_deref(), Some("My Page"));
    assert!(!doc.root.children.is_empty());
}

#[test]
fn test_html_strips_nav() {
    let html = r#"<!DOCTYPE html>
<html>
<head><title>Page</title></head>
<body>
<nav><ul><li><a href="/">Home</a></li></ul></nav>
<h2>Content</h2>
<p>Real paragraph.</p>
</body>
</html>"#;
    let doc = parse_html(html);
    let all: String = doc
        .root
        .children
        .iter()
        .flat_map(|n| n.blocks.iter())
        .map(|b| b.text().to_owned())
        .collect::<Vec<_>>()
        .join(" ");
    assert!(!all.contains("Home"));
    assert!(all.contains("Real paragraph"));
}

#[test]
fn html_title_falls_back_to_first_h1() {
    let doc = parse_html("<html><body><h1> Only Heading </h1><p>x</p></body></html>");
    assert_eq!(doc.title.as_deref(), Some("Only Heading"));
}

#[test]
fn html_nested_boilerplate_is_removed() {
    let doc = parse_html("<body><footer><footer>A</footer>B</footer><h2>T</h2><p>Kept.</p></body>");
    let all: String = doc.root.children.iter().flat_map(|n| n.blocks.iter()).map(|b| b.text().to_owned()).collect();
    assert!(all.contains("Kept."));
    assert!(!all.contains('A') && !all.contains('B'));
}

// ── Heading level detection and the registry ─────────────────────────────────

fn api_reference_tree() -> HeadingNode {
    let mut root = HeadingNode::root();
    let mut module = HeadingNode { level: 2, title: "Module".into(), ..HeadingNode::default() };
    for i in 0..8 {
        let mut func = HeadingNode { level: 3, title: format!("function_{i}"), ..HeadingNode::default() };
        func.blocks.push(ContentBlock::Paragraph("Description.".into()));
        func.blocks.push(ContentBlock::Code { lang: Some("rust".into()), content: format!("pub fn function_{i}() {{}}") });
        module.children.push(func);
    }
    root.children.push(module);
    root
}

fn tutorial_tree() -> HeadingNode {
    let mut root = HeadingNode::root();
    for i in 0..4 {
        let mut section = HeadingNode { level: 2, title: format!("Chapter {i}"), ..HeadingNode::default() };
        section.blocks.push(ContentBlock::Paragraph("Introduction text.".into()));
        section.blocks.push(ContentBlock::Paragraph("More details here.".into()));
        section.blocks.push(ContentBlock::Code { lang: Some("python".into()), content: format!("# example {i}") });
        root.children.push(section);
    }
    root
}

#[test]
fn test_detect_primary_level_api_reference() {
    assert_eq!(detect_primary_heading_level(&api_reference_tree()), 3);
}

#[test]
fn test_detect_primary_level_tutorial() {
    assert_eq!(detect_primary_heading_level(&tutorial_tree()), 2);
}

#[test]
fn test_detect_primary_level_flat_doc() {
    let root = HeadingNode::root();
    assert_eq!(detect_primary_heading_level(&root), 2);
}

#[test]
fn detect_primary_level_exactly_one_and_a_half_is_not_enough() {
    let mut root = HeadingNode::root();
    for blocks in [1usize, 2] {
        let mut h = HeadingNode { level: 2, title: "S".into(), ..HeadingNode::default() };
        for _ in 0..blocks {
            h.blocks.push(ContentBlock::Paragraph("p".into()));
        }
        root.children.push(h);
    }
    assert_eq!(detect_primary_heading_level(&root), 2);
    let mut deep = HeadingNode::root();
    let mut h2 = HeadingNode { level: 2, title: "A".into(), ..HeadingNode::default() };
    let mut h4 = HeadingNode { level: 4, title: "B".into(), ..HeadingNode::default() };
    h4.blocks.push(ContentBlock::Paragraph("1".into()));
    h4.blocks.push(ContentBlock::Paragraph("2".into()));
    h2.children.push(h4);
    deep.children.push(h2);
    assert_eq!(detect_primary_heading_level(&deep), 4);
}

#[test]
fn test_registry_selects_markdown() {
    let registry = ParserRegistry::new();
    let doc = registry.parse("README.md", "## Hello\n\nWorld.\n").unwrap();
    assert!(!doc.root.children.is_empty());
}

#[test]
fn test_registry_selects_rst() {
    let registry = ParserRegistry::new();
    let doc = registry.parse("docs.rst", "Hello\n=====\n\nContent.\n").unwrap();
    assert!(!doc.root.children.is_empty());
}

#[test]
fn test_registry_selects_adoc() {
    let registry = ParserRegistry::new();
    let doc = registry.parse("guide.adoc", "== Overview\n\nContent.\n").unwrap();
    assert!(!doc.root.children.is_empty());
}

#[test]
fn test_registry_unknown_extension_errors() {
    let registry = ParserRegistry::new();
    let result = registry.parse("file.xyz", "content");
    assert!(result.is_err());
    match result {
        Err(lore::error::LoreError::Parse(m)) => assert_eq!(m, "no parser for file.xyz"),
        _ => panic!("expected a parse error"),
    }
}

#[test]
fn parsers_claim_their_extensions() {
    assert!(MarkdownParser.can_parse("a/b.mdx"));
    assert!(!MarkdownParser.can_parse("a/b.html"));
    assert!(HtmlParser.can_parse("index.htm"));
    assert!(AsciidocParser.can_parse("x.asciidoc"));
    assert!(RstParser.can_parse("x.rst"));
    assert!(!RstParser.can_parse("rst"));
}

#[test]
fn test_markdown_realistic_doc() {
    let md = r#"---
title: Tokio Runtime
---

# Tokio Runtime

The Tokio runtime provides async I/O and task scheduling.

## Creating a Runtime

Use the `Builder` to configure a multi-threaded runtime.

```rust
use tokio::runtime::Builder;

let rt = Builder::new_multi_thread()
    .worker_threads(4)
    .enable_all()
    .build()
    .unwrap();
```

## Shutting Down

Call `rt.shutdown_timeout()` to wait for all tasks to complete.
"#;
    let doc = MarkdownParser.parse(md, "doc.md").unwrap();
    assert_eq!(doc.title.as_deref(), Some("Tokio Runtime"));
    let h1 = &doc.root.children[0];
    assert_eq!(h1.title, "Tokio Runtime");
    assert_eq!(h1.children.len(), 2);
    assert_eq!(h1.children[0].title, "Creating a Runtime");
    let has_code = h1.children[0]
        .blocks
        .iter()
        .any(|b| matches!(b, ContentBlock::Code { lang: Some(l), .. } if l == "rust"));
    assert!(has_code, "expected rust code block");
}

#[test]
fn test_asciidoc_realistic_doc() {
    let adoc = r#"= Quarkus Guide

A brief intro paragraph.

== Configuration

Configure your application with:

[source,properties]
----
quarkus.http.port=8080
----

=== Environment Variables

You can also use environment variables.
"#;
    let doc = AsciidocParser.parse(adoc, "guide.adoc").unwrap();
    assert_eq!(doc.title.as_deref(), Some("Quarkus Guide"));
    let h2 = doc.root.children.iter().find(|n| n.title == "Configuration");
    assert!(h2.is_some(), "expected Configuration section");
    let h2 = h2.unwrap();
    let code = h2.blocks.iter().find(|b| matches!(b, ContentBlock::Code { .. }));
    assert!(code.is_some());
    if let Some(ContentBlock::Code { lang, .. }) = code {
        assert_eq!(lang.as_deref(), Some("properties"));
    }
    assert_eq!(h2.children.len(), 1);
    assert_eq!(h2.children[0].title, "Environment Variables");
}

#[test]
fn test_rst_realistic_doc() {
    let rst = r#"Welcome to Sphinx
=================

Sphinx is a documentation tool.

Getting Started
---------------

Install with pip:

.. code-block:: bash

    pip install sphinx

Then run ``sphinx-quickstart``.
"#;
    let doc = RstParser.parse(rst, "doc.rst").unwrap();
    let h1 = doc.root.children.iter().find(|n| n.title == "Welcome to Sphinx");
    assert!(h1.is_some());
    let h1 = h1.unwrap();
    let h2 = h1.children.iter().find(|n| n.title == "Getting Started");
    assert!(h2.is_some());
    let h2 = h2.unwrap();
    let code = h2.blocks.iter().find(|b| matches!(b, ContentBlock::Code { .. }));
    assert!(code.is_some(), "expected code block in Getting Started");
    if let Some(ContentBlock::Code { lang, content }) = code {
        assert_eq!(lang.as_deref(), Some("bash"));
        assert!(content.contains("sphinx"));
    }
}

#[test]
fn total_block_count_counts_descendants() {
    assert_eq!(api_reference_tree().total_block_count(), 16);
    assert_eq!(tutorial_tree().total_block_count(), 12);
}

#[test]
fn asciidoc_title_is_only_the_first_non_blank_line() {
    assert_eq!(parse_asciidoc("Intro.\n\n= Late Title\n").title, None);
    assert_eq!(parse_asciidoc("\n\n= My Doc\n\nText.\n").title.as_deref(), Some("My Doc"));
    assert_eq!(parse_asciidoc("== Section\n\n= Not A Title\n").title, None);
}

#[test]
fn rst_code_block_keeps_relative_indentation() {
    let doc = parse_rst("Usage\n=====\n\n.. code-block:: python\n\n    def hello():\n        print(\"hi\")\n");
    let blocks = &doc.root.children[0].blocks;
    assert_eq!(blocks.len(), 1);
    match &blocks[0] {
        ContentBlock::Code { lang, content } => {
            assert_eq!(lang.as_deref(), Some("python"));
            assert_eq!(content.trim_matches('\n'), "def hello():\n    print(\"hi\")");
        }
        other => panic!("expected a code block, got {other:?}"),
    }
}

#[test]
fn deeply_nested_html_is_refused_not_converted() {
    let deep = format!("<html><body>{}text{}</body></html>", "<div>".repeat(300), "</div>".repeat(300));
    let r = HtmlParser.parse(&deep, "deep.html");
    match r {
        Err(lore::error::LoreError::Parse(m)) => {
            assert!(m.starts_with("htmd conversion failed for deep.html: "), "{m}");
        }
        _ => panic!("expected a parse error"),
    }
    let shallow = format!("<html><body>{}text{}</body></html>", "<div>".repeat(20), "</div>".repeat(20));
    assert!(HtmlParser.parse(&shallow, "ok.html").is_ok());
}
