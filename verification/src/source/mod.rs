//! Documentation sources: where the files to index come from.  Fetching,
//! cloning and crawling are I/O and are done by the application; the library
//! holds what each source is configured with.
pub mod rustdoc;
pub mod web;

use vstd::prelude::*;

verus! {

/// A remote git repository to clone.
pub struct GitSource {
    /// Remote URL to clone (e.g. `https://github.com/org/repo`).
    pub url: String,
    /// Branch or tag to check out; the remote's `HEAD` when `None`.
    pub branch: Option<String>,
}

impl GitSource {
    /// A source for the repository at `url`, on its default branch.
    pub fn new(url: &str) -> (r: GitSource)
        ensures
            r.url@ == url@,
            r.branch is None,
    {
        GitSource { url: url.to_string(), branch: None }
    }

    /// The same source, checking out `branch` after cloning.
    pub fn with_branch(self, branch: &str) -> (r: GitSource)
        ensures
            r.url == self.url,
            r.branch matches Some(b) && b@ == branch@,
    {
        GitSource { branch: Some(branch.to_string()), ..self }
    }
}

/// A directory of documentation already on disk.
pub struct LocalSource {
    /// Path of the directory containing documentation files.
    pub dir: String,
}

impl LocalSource {
    /// A source for the directory at `dir`.
    pub fn new(dir: &str) -> (r: LocalSource)
        ensures
            r.dir@ == dir@,
    {
        LocalSource { dir: dir.to_string() }
    }
}

/// The number of pages a website crawl visits unless told otherwise.
pub const DEFAULT_MAX_PAGES: usize = 500;

/// A live website to crawl (same host only).
pub struct WebsiteSource {
    /// The starting URL for the crawl.
    pub root_url: String,
    /// Maximum number of pages to crawl.
    pub max_pages: usize,
}

impl WebsiteSource {
    /// A crawl starting from `root_url`, of at most 500 pages.
    pub fn new(root_url: &str) -> (r: WebsiteSource)
        ensures
            r.root_url@ == root_url@,
            r.max_pages == DEFAULT_MAX_PAGES,
    {
        WebsiteSource { root_url: root_url.to_string(), max_pages: DEFAULT_MAX_PAGES }
    }

    /// The same crawl, of at most `max_pages` pages.
    pub fn with_max_pages(self, max_pages: usize) -> (r: WebsiteSource)
        ensures
            r.root_url == self.root_url,
            r.max_pages == max_pages,
    {
        WebsiteSource { max_pages, ..self }
    }
}

/// A site's `llms.txt` / `llms-full.txt` digest.
pub struct LlmsTxtSource {
    /// Base site URL, or a direct link to an `llms(-full).txt` file.
    pub url: String,
}

impl LlmsTxtSource {
    /// A source for `url` (a site root or a direct `.txt` link).
    pub fn new(url: &str) -> (r: LlmsTxtSource)
        ensures
            r.url@ == url@,
    {
        LlmsTxtSource { url: url.to_string() }
    }
}

/// How a [`RustdocSource`] obtains its rustdoc JSON.
pub enum RustdocInput {
    /// The path of an existing file made by `rustdoc --output-format json`.
    Json(String),
    /// A crate to document by running cargo in `manifest_dir`.
    Crate {
        /// Crate name as cargo knows it (e.g. `tokio`).
        name: String,
        /// Directory holding the `Cargo.toml`; the current directory when empty.
        manifest_dir: String,
    },
}

/// A documentation source backed by rustdoc JSON.
pub struct RustdocSource {
    pub input: RustdocInput,
}

impl RustdocSource {
    /// From an existing rustdoc JSON file.
    pub fn from_json(path: &str) -> (r: RustdocSource)
        ensures
            r.input matches RustdocInput::Json(p) && p@ == path@,
    {
        RustdocSource { input: RustdocInput::Json(path.to_string()) }
    }

    /// By running `cargo rustdoc` for `name` in `manifest_dir`.
    pub fn from_crate(name: &str, manifest_dir: &str) -> (r: RustdocSource)
        ensures
            r.input matches RustdocInput::Crate { name: n, manifest_dir: d } && n@ == name@ && d@
                == manifest_dir@,
    {
        RustdocSource { input: RustdocInput::Crate { name: name.to_string(), manifest_dir: manifest_dir.to_string() } }
    }
}

} // verus!
