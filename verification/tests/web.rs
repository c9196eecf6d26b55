use lore::error::LoreError;
use lore::source::web::{
    canonical_url, llms_txt_body_usable, llms_txt_not_found, page_file_name, page_links, page_markdown, should_crawl,
    should_crawl_path, url_to_path,
};
use lore::source::{LlmsTxtSource, WebsiteSource};

// ───────────────────────────── URLs and pages ─────────────────────────────

#[test]
fn canonical_url_strips_fragment_and_query() {
    assert_eq!(
        canonical_url("https://docs.example.com/guide?ref=nav#section"),
        "https://docs.example.com/guide"
    );
}

#[test]
fn should_not_crawl_image() {
    assert!(!should_crawl("https://docs.example.com/logo.png"));
}

#[test]
fn should_crawl_pages() {
    assert!(should_crawl("https://docs.example.com/guide/install"));
    assert!(should_crawl("https://docs.example.com/guide.html"));
    assert!(!should_crawl("https://docs.example.com/app.js?v=2"));
}

#[test]
fn url_to_path_index() {
    let path = std::path::Path::new("/tmp").join(url_to_path("https://docs.example.com/"));
    assert_eq!(path, std::path::PathBuf::from("/tmp/index.md"));
}

#[test]
fn url_to_path_nested() {
    let path = std::path::Path::new("/tmp").join(url_to_path("https://docs.example.com/guide/install"));
    assert_eq!(path, std::path::PathBuf::from("/tmp/guide__install.md"));
}

#[test]
fn page_file_name_drops_html_extension() {
    assert_eq!(page_file_name("/guide/intro.HTML"), "guide__intro.md");
    assert_eq!(page_file_name("/a.htm"), "a.md");
    assert_eq!(page_file_name("//x/y.txt"), "x__y.txt.md");
    assert_eq!(page_file_name(""), "index.md");
}

// ───────────────────────────── llms.txt ─────────────────────────────

#[test]
fn direct_txt_url_is_single_candidate() {
    let s = LlmsTxtSource::new("https://example.com/docs/llms-full.txt");
    let c = s.candidates().unwrap();
    assert_eq!(c.len(), 1);
    assert!(c[0].ends_with("llms-full.txt"));
}

#[test]
fn base_url_expands_to_full_then_short() {
    let s = LlmsTxtSource::new("https://example.com");
    let c = s.candidates().unwrap();
    assert_eq!(c.len(), 2);
    assert!(c[0].ends_with("/llms-full.txt"));
    assert!(c[1].ends_with("/llms.txt"));
}

#[test]
fn path_prefix_is_preserved() {
    let s = LlmsTxtSource::new("https://example.com/project/docs");
    let c = s.candidates().unwrap();
    assert!(c[0].ends_with("/project/docs/llms-full.txt"), "{}", c[0]);
}

#[test]
fn invalid_url_errors() {
    assert!(LlmsTxtSource::new("not a url").candidates().is_err());
}

#[test]
fn candidates_exact_urls() {
    let c = LlmsTxtSource::new("https://example.com/docs/").candidates().unwrap();
    assert_eq!(c, vec!["https://example.com/docs/llms-full.txt", "https://example.com/docs/llms.txt"]);
}

// ───────────────────────────── crawling ─────────────────────────────

#[test]
fn crawl_visits_each_page_once_on_the_same_host() {
    let mut crawl = WebsiteSource::new("https://docs.example.com/").start_crawl().unwrap();
    assert_eq!(crawl.next_page().as_deref(), Some("https://docs.example.com/"));
    let hrefs = vec![
        "/guide".to_owned(),
        "/guide#install".to_owned(),
        "https://other.example.org/x".to_owned(),
        "/logo.png".to_owned(),
        "/?page=2".to_owned(),
    ];
    crawl.add_links("https://docs.example.com/", &hrefs);
    assert_eq!(
        crawl.queued(),
        &vec!["https://docs.example.com/guide".to_owned(), "https://docs.example.com/guide#install".to_owned()]
    );
    assert_eq!(crawl.next_page().as_deref(), Some("https://docs.example.com/guide"));
    // Same page, other fragment: passed over, and the crawl is over.
    assert_eq!(crawl.next_page(), None);
}

#[test]
fn crawl_stops_at_page_limit() {
    let mut crawl = WebsiteSource::new("https://docs.example.com/").with_max_pages(1).start_crawl().unwrap();
    assert!(crawl.next_page().is_some());
    crawl.add_links("https://docs.example.com/", &vec!["/a".to_owned()]);
    assert_eq!(crawl.next_page(), None);
}

#[test]
fn crawl_rejects_invalid_root() {
    assert!(WebsiteSource::new("::nope").start_crawl().is_err());
}

#[test]
fn page_links_and_markdown() {
    let html = "<html><body><h1>T</h1><a href=\"/a\">A</a><a>no</a><a href=\"b.html\">B</a></body></html>";
    assert_eq!(page_links(html), vec!["/a".to_owned(), "b.html".to_owned()]);
    assert!(page_markdown(html).contains("# T"));
}

// ───────────────────────────── llms.txt outcome ─────────────────────────────

#[test]
fn blank_digest_is_not_used() {
    assert!(!llms_txt_body_usable(""));
    assert!(!llms_txt_body_usable(" \n\t\u{a0}"));
    assert!(llms_txt_body_usable("\n# Docs\n"));
}

#[test]
fn missing_digest_reports_last_status() {
    assert_eq!(
        llms_txt_not_found("https://example.com", Some("404 Not Found")),
        LoreError::Registry("no llms.txt or llms-full.txt found at https://example.com (last status: 404 Not Found)".into())
    );
    assert_eq!(
        llms_txt_not_found("https://example.com", None),
        LoreError::Registry("no llms.txt or llms-full.txt found at https://example.com (last status: none)".into())
    );
}

#[test]
fn resource_paths_are_not_crawled() {
    assert!(should_crawl_path("/docs/guide"));
    assert!(should_crawl_path("/docs/guide.html"));
    assert!(!should_crawl_path("/static/app.js"));
    assert!(!should_crawl_path("/img/logo.png"));
    assert!(!should_crawl_path("/feed.xml"));
}
