//! Websites as documentation sources: the URLs an `llms.txt` digest is looked
//! for at, which pages a crawl visits and in what order, and the file each
//! crawled page is saved under.
//!
//! A URL is handled as its serialization (`Url::as_str`); parsing, joining
//! and the accessors are the `url` crate's, through `reqwest::Url`.  The
//! fetching and the writing of files are left to the caller.
use vstd::prelude::*;

use crate::error::LoreError;
use crate::parser::{file_extension, opt_view, path_extension};
use crate::parser::html::{ascii_lower, ascii_lower_exec, convert_html, converted_markdown};
use crate::chunker::strings_view;
use crate::source::{LlmsTxtSource, WebsiteSource};
use crate::text::{chars_of, has_suffix, push_all, push_lit, string_of};

verus! {

// ───────────────────────────── URLs ─────────────────────────────

/// What `Url::parse` makes of `s`: the serialization of the URL, or the
/// message of the parse error.
pub uninterp spec fn url_parse_result(s: Seq<char>) -> Result<Seq<char>, Seq<char>>;

/// `reqwest::Url::parse`.  Claimed: the result is [`url_parse_result`] of
/// `s`, the URL by its serialization and the error by its message.
#[verifier::external_body]
fn parse_url(s: &str) -> (r: Result<String, String>)
    ensures
        match r {
            Ok(u) => url_parse_result(s@) == Ok::<Seq<char>, Seq<char>>(u@),
            Err(m) => url_parse_result(s@) == Err::<Seq<char>, Seq<char>>(m@),
        },
{
    match reqwest::Url::parse(s) {
        Ok(u) => Ok(u.as_str().to_owned()),
        Err(e) => Err(e.to_string()),
    }
}

/// `Url::path` of the URL serialized as `u` (empty when `u` is no URL).
pub uninterp spec fn url_path_of(u: Seq<char>) -> Seq<char>;

/// `reqwest::Url::path`.  Claimed: the result is [`url_path_of`] of `u`.
#[verifier::external_body]
fn url_path(u: &str) -> (r: String)
    ensures
        r@ == url_path_of(u@),
{
    match reqwest::Url::parse(u) {
        Ok(x) => x.path().to_owned(),
        Err(_) => String::new(),
    }
}

/// `Url::host_str` of the URL serialized as `u` (`None` when `u` is no URL).
pub uninterp spec fn url_host_of(u: Seq<char>) -> Option<Seq<char>>;

/// `reqwest::Url::host_str`.  Claimed: the result is [`url_host_of`] of `u`.
#[verifier::external_body]
fn url_host(u: &str) -> (r: Option<String>)
    ensures
        opt_view(r) == url_host_of(u@),
{
    match reqwest::Url::parse(u) {
        Ok(x) => x.host_str().map(|h| h.to_owned()),
        Err(_) => None,
    }
}

/// What `Url::join` makes of `href` against the URL serialized as `base`:
/// the serialization of the joined URL, or the message of the error.
pub uninterp spec fn url_join_result(base: Seq<char>, href: Seq<char>) -> Result<Seq<char>, Seq<char>>;

/// `reqwest::Url::join`.  Claimed: the result is [`url_join_result`] of the
/// arguments.
#[verifier::external_body]
fn join_url(base: &str, href: &str) -> (r: Result<String, String>)
    ensures
        match r {
            Ok(u) => url_join_result(base@, href@) == Ok::<Seq<char>, Seq<char>>(u@),
            Err(m) => url_join_result(base@, href@) == Err::<Seq<char>, Seq<char>>(m@),
        },
{
    match reqwest::Url::parse(base) {
        Ok(b) => match b.join(href) {
            Ok(u) => Ok(u.as_str().to_owned()),
            Err(e) => Err(e.to_string()),
        },
        Err(e) => Err(e.to_string()),
    }
}

/// The URL serialized as `u` after `Url::set_fragment(None)` (`u` itself
/// when it is no URL).
pub uninterp spec fn url_fragment_cleared(u: Seq<char>) -> Seq<char>;

/// `reqwest::Url::set_fragment(None)`.  Claimed: the result is
/// [`url_fragment_cleared`] of `u`.
#[verifier::external_body]
fn clear_fragment(u: &str) -> (r: String)
    ensures
        r@ == url_fragment_cleared(u@),
{
    match reqwest::Url::parse(u) {
        Ok(mut x) => {
            x.set_fragment(None);
            x.as_str().to_owned()
        },
        Err(_) => u.to_owned(),
    }
}

/// The URL serialized as `u` after `Url::set_query(None)` (`u` itself when
/// it is no URL).
pub uninterp spec fn url_query_cleared(u: Seq<char>) -> Seq<char>;

/// `reqwest::Url::set_query(None)`.  Claimed: the result is
/// [`url_query_cleared`] of `u`.
#[verifier::external_body]
fn clear_query(u: &str) -> (r: String)
    ensures
        r@ == url_query_cleared(u@),
{
    match reqwest::Url::parse(u) {
        Ok(mut x) => {
            x.set_query(None);
            x.as_str().to_owned()
        },
        Err(_) => u.to_owned(),
    }
}

/// The canonical form of a URL: without fragment and query, so that a page
/// is visited once.
pub open spec fn canonical(u: Seq<char>) -> Seq<char> {
    url_query_cleared(url_fragment_cleared(u))
}

/// `url` without its fragment and query (see [`canonical`]).
pub fn canonical_url(url: &str) -> (r: String)
    ensures
        r@ == canonical(url@),
{
    let a = clear_fragment(url);
    clear_query(a.as_str())
}

// ───────────────────────────── pages ─────────────────────────────

/// Resources that are not pages: images, archives, fonts, styles, scripts
/// and data files.
pub open spec fn skipped_resource(path: Seq<char>) -> bool {
    has_suffix(path, ".png"@) || has_suffix(path, ".jpg"@) || has_suffix(path, ".jpeg"@) || has_suffix(
        path,
        ".gif"@,
    ) || has_suffix(path, ".svg"@) || has_suffix(path, ".ico"@) || has_suffix(path, ".pdf"@) || has_suffix(
        path,
        ".zip"@,
    ) || has_suffix(path, ".tar"@) || has_suffix(path, ".gz"@) || has_suffix(path, ".woff"@) || has_suffix(
        path,
        ".woff2"@,
    ) || has_suffix(path, ".ttf"@) || has_suffix(path, ".eot"@) || has_suffix(path, ".css"@) || has_suffix(
        path,
        ".js"@,
    ) || has_suffix(path, ".json"@) || has_suffix(path, ".xml"@)
}

/// Whether a URL path names a page worth crawling (see [`skipped_resource`]).
pub fn should_crawl_path(path: &str) -> (b: bool)
    ensures
        b == !skipped_resource(path@),
{
    let p = chars_of(path);
    let skip = crate::text::ends_with_lit(&p, ".png") || crate::text::ends_with_lit(&p, ".jpg")
        || crate::text::ends_with_lit(&p, ".jpeg") || crate::text::ends_with_lit(&p, ".gif")
        || crate::text::ends_with_lit(&p, ".svg") || crate::text::ends_with_lit(&p, ".ico")
        || crate::text::ends_with_lit(&p, ".pdf") || crate::text::ends_with_lit(&p, ".zip")
        || crate::text::ends_with_lit(&p, ".tar") || crate::text::ends_with_lit(&p, ".gz")
        || crate::text::ends_with_lit(&p, ".woff") || crate::text::ends_with_lit(&p, ".woff2")
        || crate::text::ends_with_lit(&p, ".ttf") || crate::text::ends_with_lit(&p, ".eot")
        || crate::text::ends_with_lit(&p, ".css") || crate::text::ends_with_lit(&p, ".js")
        || crate::text::ends_with_lit(&p, ".json") || crate::text::ends_with_lit(&p, ".xml");
    !skip
}

/// Whether the page at `url` is worth crawling: its path names no resource
/// (see [`skipped_resource`]).
pub fn should_crawl(url: &str) -> (b: bool)
    ensures
        b == !skipped_resource(url_path_of(url@)),
{
    let p = url_path(url);
    should_crawl_path(p.as_str())
}

/// `s` without its leading `/`s.
pub open spec fn trim_slashes(s: Seq<char>) -> Seq<char>
    decreases s.len(),
{
    if s.len() > 0 && s[0] == '/' {
        trim_slashes(s.drop_first())
    } else {
        s
    }
}

/// `s` with every `/` replaced by `__`.
pub open spec fn slashes_to_underscores(s: Seq<char>) -> Seq<char>
    decreases s.len(),
{
    if s.len() == 0 {
        seq![]
    } else {
        slashes_to_underscores(s.drop_last()) + if s.last() == '/' {
            seq!['_', '_']
        } else {
            seq![s.last()]
        }
    }
}

/// The index of the last `c` in `s`.
pub open spec fn last_index_of(s: Seq<char>, c: char) -> Option<int>
    decreases s.len(),
{
    if s.len() == 0 {
        None
    } else if s.last() == c {
        Some(s.len() - 1)
    } else {
        last_index_of(s.drop_last(), c)
    }
}

/// The file stem for a page at URL path `path`: the path without leading
/// `/`s and with `/` turned into `__` (`index` for the site root), an
/// `.html`/`.htm` extension (any case) dropped.
pub open spec fn page_stem(path: Seq<char>) -> Seq<char> {
    let p = trim_slashes(path);
    let stem = if p.len() == 0 || p == "/"@ {
        "index"@
    } else {
        slashes_to_underscores(p)
    };
    match path_extension(stem) {
        Some(e) => if ascii_lower(e) == "html"@ || ascii_lower(e) == "htm"@ {
            stem.take(
                match last_index_of(stem, '.') {
                    Some(i) => i,
                    None => stem.len() as int,
                },
            )
        } else {
            stem
        },
        None => stem,
    }
}

/// The Markdown file name for a page at URL path `path`: its stem (see
/// [`page_stem`]) and `.md`.
pub fn page_file_name(path: &str) -> (r: String)
    ensures
        r@ == page_stem(path@) + ".md"@,
{
    let p = chars_of(path);
    let mut i: usize = 0;
    assert(p@.skip(0) =~= p@);
    while i < p.len() && p[i] == '/'
        invariant
            i <= p.len(),
            trim_slashes(p@) == trim_slashes(p@.skip(i as int)),
        decreases p.len() - i,
    {
        assert(p@.skip(i as int).drop_first() =~= p@.skip(i + 1));
        i = i + 1;
    }
    assert(trim_slashes(p@.skip(i as int)) == p@.skip(i as int));
    let rest = crate::text::slice_chars(&p, i, p.len());
    assert(rest@ =~= p@.skip(i as int));
    let mut stem: Vec<char> = Vec::new();
    if rest.len() == 0 || crate::text::eq_lit(&rest, "/") {
        stem = chars_of("index");
    } else {
        let mut j: usize = 0;
        while j < rest.len()
            invariant
                j <= rest.len(),
                stem@ == slashes_to_underscores(rest@.take(j as int)),
            decreases rest.len() - j,
        {
            assert(rest@.take(j + 1).drop_last() =~= rest@.take(j as int));
            if rest[j] == '/' {
                stem.push('_');
                stem.push('_');
            } else {
                stem.push(rest[j]);
            }
            assert(stem@ =~= slashes_to_underscores(rest@.take(j + 1)));
            j = j + 1;
        }
        assert(rest@.take(j as int) =~= rest@);
    }
    let ghost sp = trim_slashes(path@);
    assert(stem@ == if sp.len() == 0 || sp == "/"@ {
        "index"@
    } else {
        slashes_to_underscores(sp)
    });
    let st = string_of(&stem);
    let ext = file_extension(st.as_str());
    let cut = match &ext {
        Some(e) => {
            let low = ascii_lower_exec(&chars_of(e.as_str()));
            crate::text::eq_lit(&low, "html") || crate::text::eq_lit(&low, "htm")
        },
        None => false,
    };
    let mut out = if cut {
        let mut k: usize = stem.len();
        assert(stem@.take(k as int) =~= stem@);
        while k > 0 && stem[k - 1] != '.'
            invariant
                k <= stem.len(),
                last_index_of(stem@, '.') == last_index_of(stem@.take(k as int), '.'),
            decreases k,
        {
            assert(stem@.take(k as int).drop_last() =~= stem@.take(k - 1));
            k = k - 1;
        }
        let end = if k > 0 {
            assert(stem@.take(k as int).last() == '.');
            assert(last_index_of(stem@, '.') == Some(k - 1));
            k - 1
        } else {
            assert(stem@.take(0) =~= Seq::<char>::empty());
            assert(last_index_of(stem@, '.') is None);
            stem.len()
        };
        let r = crate::text::slice_chars(&stem, 0, end);
        assert(r@ =~= stem@.take(end as int));
        r
    } else {
        stem
    };
    assert(out@ == page_stem(path@));
    push_lit(&mut out, ".md");
    string_of(&out)
}

/// The Markdown file name for the page at `url`: see [`page_file_name`].
/// A crawl saves each page under this name in its output directory.
pub fn url_to_path(url: &str) -> (r: String)
    ensures
        r@ == page_stem(url_path_of(url@)) + ".md"@,
{
    let p = url_path(url);
    page_file_name(p.as_str())
}

// ───────────────────────────── llms.txt ─────────────────────────────

/// A `.txt` extension, in any case.
pub open spec fn txt_ext(e: Option<Seq<char>>) -> bool {
    e matches Some(x) && ascii_lower(x) == "txt"@
}

/// The URLs an `llms.txt` digest is looked for at, in order: the URL itself
/// when its path is a `.txt` file; else `llms-full.txt` then `llms.txt`
/// inside it (taken as a directory, so that a path prefix is kept).
pub open spec fn spec_candidates(url: Seq<char>) -> Result<Seq<Seq<char>>, Seq<char>> {
    match url_parse_result(url) {
        Err(e) => Err("invalid url '"@ + url + "': "@ + e),
        Ok(b) => {
            let path = url_path_of(b);
            if txt_ext(path_extension(path)) {
                Ok(seq![b])
            } else {
                let dir = if has_suffix(path, "/"@) {
                    b
                } else {
                    match url_parse_result(b + "/"@) {
                        Ok(d) => d,
                        Err(_) => b,
                    }
                };
                match url_join_result(dir, "llms-full.txt"@) {
                    Err(e) => Err("cannot form llms-full.txt url: "@ + e),
                    Ok(f) => match url_join_result(dir, "llms.txt"@) {
                        Err(e) => Err("cannot form llms.txt url: "@ + e),
                        Ok(t) => Ok(seq![f, t]),
                    },
                }
            }
        },
    }
}

fn invalid_config(prefix: &str, mid: &Vec<char>, suffix: &str, e: &String) -> (r: LoreError)
    ensures
        r matches LoreError::InvalidConfig(m) && m@ == prefix@ + mid@ + suffix@ + e@,
{
    let mut m = chars_of(prefix);
    push_all(&mut m, mid);
    push_lit(&mut m, suffix);
    push_all(&mut m, &chars_of(e.as_str()));
    assert(m@ =~= prefix@ + mid@ + suffix@ + e@);
    LoreError::InvalidConfig(string_of(&m))
}

fn config_error(prefix: &str, e: &String) -> (r: LoreError)
    ensures
        r matches LoreError::InvalidConfig(m) && m@ == prefix@ + e@,
{
    let mut m = chars_of(prefix);
    push_all(&mut m, &chars_of(e.as_str()));
    LoreError::InvalidConfig(string_of(&m))
}

impl LlmsTxtSource {
    /// The ordered candidate URLs of the digest (see [`spec_candidates`]);
    /// `InvalidConfig` when the URL does not parse or a candidate cannot be
    /// formed.
    pub fn candidates(&self) -> (r: Result<Vec<String>, LoreError>)
        ensures
            match spec_candidates(self.url@) {
                Ok(us) => r matches Ok(v) && strings_view(v@) == us,
                Err(m) => r matches Err(LoreError::InvalidConfig(e)) && e@ == m,
            },
    {
        let base = match parse_url(self.url.as_str()) {
            Ok(b) => b,
            Err(e) => {
                let u = chars_of(self.url.as_str());
                return Err(invalid_config("invalid url '", &u, "': ", &e));
            },
        };
        let path = url_path(base.as_str());
        let ext = file_extension(path.as_str());
        let is_txt = match &ext {
            Some(e) => {
                let low = ascii_lower_exec(&chars_of(e.as_str()));
                crate::text::eq_lit(&low, "txt")
            },
            None => false,
        };
        if is_txt {
            let v = vec![base];
            assert(strings_view(v@) =~= seq![v@[0]@]);
            return Ok(v);
        }
        let pc = chars_of(path.as_str());
        let dir = if crate::text::ends_with_lit(&pc, "/") {
            base
        } else {
            let mut with_slash = chars_of(base.as_str());
            push_lit(&mut with_slash, "/");
            let ws = string_of(&with_slash);
            match parse_url(ws.as_str()) {
                Ok(d) => d,
                Err(_) => base,
            }
        };
        let full = match join_url(dir.as_str(), "llms-full.txt") {
            Ok(f) => f,
            Err(e) => {
                return Err(config_error("cannot form llms-full.txt url: ", &e));
            },
        };
        let short = match join_url(dir.as_str(), "llms.txt") {
            Ok(t) => t,
            Err(e) => {
                return Err(config_error("cannot form llms.txt url: ", &e));
            },
        };
        let v = vec![full, short];
        assert(strings_view(v@) =~= seq![v@[0]@, v@[1]@]);
        Ok(v)
    }
}

/// A fetched digest is used unless its body is blank (only whitespace).
pub fn llms_txt_body_usable(body: &str) -> (b: bool)
    ensures
        b == (crate::text::trim(body@).len() > 0),
{
    !crate::text::is_blank(&chars_of(body))
}

/// The error when no candidate gave a digest: it names the site and the
/// last non-success status seen (`none` when no server answered with one).
pub fn llms_txt_not_found(url: &str, last_status: Option<&str>) -> (r: LoreError)
    ensures
        r matches LoreError::Registry(m) && m@ == "no llms.txt or llms-full.txt found at "@ + url@
            + " (last status: "@ + (match last_status {
            Some(st) => st@,
            None => "none"@,
        }) + ")"@,
{
    let mut m = chars_of("no llms.txt or llms-full.txt found at ");
    push_all(&mut m, &chars_of(url));
    push_lit(&mut m, " (last status: ");
    match last_status {
        Some(st) => push_all(&mut m, &chars_of(st)),
        None => push_lit(&mut m, "none"),
    }
    push_lit(&mut m, ")");
    LoreError::Registry(string_of(&m))
}

// ───────────────────────────── crawling ─────────────────────────────

/// The values of attribute `attr` of the elements of `html` that match the
/// CSS selector `selector`, in document order (none when the selector does
/// not parse).
pub uninterp spec fn html_select_attr(html: Seq<char>, selector: Seq<char>, attr: Seq<char>) -> Seq<Seq<char>>;

/// `scraper`: `Html::parse_document(html)`, `Selector::parse(selector)`,
/// the `attr` attribute of each match of `select`.  Claimed: the result is
/// [`html_select_attr`] of the arguments.
#[verifier::external_body]
fn select_attr(html: &str, selector: &str, attr: &str) -> (r: Vec<String>)
    ensures
        strings_view(r@) == html_select_attr(html@, selector@, attr@),
{
    let doc = scraper::Html::parse_document(html);
    match scraper::Selector::parse(selector) {
        Ok(sel) => doc.select(&sel).filter_map(|el| el.value().attr(attr).map(|v| v.to_owned())).collect(),
        Err(_) => Vec::new(),
    }
}

/// The link targets of a page: the `href` of each `a[href]` element.
pub fn page_links(html: &str) -> (r: Vec<String>)
    ensures
        strings_view(r@) == html_select_attr(html@, "a[href]"@, "href"@),
{
    select_attr(html, "a[href]", "href")
}

/// A crawled page as Markdown: what `htmd` makes of it, or the HTML itself
/// when it does not convert (see [`converted_markdown`]).
pub fn page_markdown(html: &str) -> (r: String)
    ensures
        r@ == match converted_markdown(html@) {
            Some(m) => m,
            None => html@,
        },
{
    match convert_html(html) {
        Ok(m) => m,
        Err(_) => html.to_string(),
    }
}

/// The state of a breadth-first crawl: the pages still to visit, in order,
/// the canonical URLs of those visited, the host links must stay on, and
/// the page limit.
pub struct Crawl {
    queue: Vec<String>,
    visited: Vec<String>,
    host: String,
    max_pages: usize,
}

pub struct CrawlV {
    pub queue: Seq<Seq<char>>,
    pub visited: Seq<Seq<char>>,
    pub host: Seq<char>,
    pub max_pages: nat,
}

impl View for Crawl {
    type V = CrawlV;

    closed spec fn view(&self) -> CrawlV {
        CrawlV {
            queue: strings_view(self.queue@),
            visited: strings_view(self.visited@),
            host: self.host@,
            max_pages: self.max_pages as nat,
        }
    }
}

/// The next page to fetch and the state after taking it: pages whose
/// canonical URL was visited are passed over; once `max` pages have been
/// visited, the crawl ends (`None`).
pub open spec fn crawl_next(q: Seq<Seq<char>>, visited: Seq<Seq<char>>, max: nat) -> (
    Seq<Seq<char>>,
    Seq<Seq<char>>,
    Option<Seq<char>>,
)
    decreases q.len(),
{
    if q.len() == 0 {
        (q, visited, None)
    } else if visited.len() >= max {
        (q.drop_first(), visited, None)
    } else if visited.contains(canonical(q[0])) {
        crawl_next(q.drop_first(), visited, max)
    } else {
        (q.drop_first(), visited.push(canonical(q[0])), Some(q[0]))
    }
}

/// The links of `hrefs[..k]` a crawl follows from `page`: resolved against
/// the page, on `host`, naming no resource, and not yet visited.
pub open spec fn links_to_follow(
    page: Seq<char>,
    hrefs: Seq<Seq<char>>,
    host: Seq<char>,
    visited: Seq<Seq<char>>,
    k: int,
) -> Seq<Seq<char>>
    decreases k,
{
    if k <= 0 || k > hrefs.len() {
        seq![]
    } else {
        let r = links_to_follow(page, hrefs, host, visited, k - 1);
        match url_join_result(page, hrefs[k - 1]) {
            Ok(a) => if url_host_of(a) == Some(host) && !skipped_resource(url_path_of(a)) && !visited.contains(
                canonical(a),
            ) {
                r.push(a)
            } else {
                r
            },
            Err(_) => r,
        }
    }
}

fn contains_string(v: &Vec<String>, x: &String) -> (b: bool)
    ensures
        b == strings_view(v@).contains(x@),
{
    let xc = chars_of(x.as_str());
    let mut i: usize = 0;
    while i < v.len()
        invariant
            i <= v.len(),
            xc@ == x@,
            forall|j: int| 0 <= j < i ==> v@[j]@ != x@,
        decreases v.len() - i,
    {
        let c = chars_of(v[i].as_str());
        if crate::text::chars_eq(&c, &xc) {
            assert(strings_view(v@)[i as int] == x@);
            return true;
        }
        i = i + 1;
    }
    assert forall|j: int| 0 <= j < strings_view(v@).len() implies strings_view(v@)[j] != x@ by {
        assert(strings_view(v@)[j] == v@[j]@);
    }
    false
}

impl Crawl {
    /// The pages still to visit, in order.
    pub fn queued(&self) -> (r: &Vec<String>)
        ensures
            strings_view(r@) == self@.queue,
    {
        &self.queue
    }

    /// Takes the next page to fetch (see [`crawl_next`]); `None` when the
    /// crawl is over.
    pub fn next_page(&mut self) -> (r: Option<String>)
        ensures
            (final(self)@.queue, final(self)@.visited, opt_view(r)) == crawl_next(
                old(self)@.queue,
                old(self)@.visited,
                old(self)@.max_pages,
            ),
            final(self)@.host == old(self)@.host,
            final(self)@.max_pages == old(self)@.max_pages,
    {
        let ghost q0 = old(self)@.queue;
        let ghost v0 = old(self)@.visited;
        loop
            invariant
                self@.host == old(self)@.host,
                self@.max_pages == old(self)@.max_pages,
                self@.visited == v0,
                q0 == old(self)@.queue,
                v0 == old(self)@.visited,
                crawl_next(q0, v0, self@.max_pages) == crawl_next(self@.queue, v0, self@.max_pages),
            decreases self.queue.len(),
        {
            let ghost qv = self@.queue;
            let ghost m = self@.max_pages;
            if self.queue.len() == 0 {
                assert(crawl_next(qv, v0, m) == (qv, v0, None::<Seq<char>>));
                return None;
            }
            let url = self.queue.remove(0);
            assert(strings_view(self.queue@) =~= qv.drop_first());
            assert(qv[0] == url@);
            if self.visited.len() >= self.max_pages {
                assert(crawl_next(qv, v0, m) == (qv.drop_first(), v0, None::<Seq<char>>));
                return None;
            }
            let c = canonical_url(url.as_str());
            if contains_string(&self.visited, &c) {
                assert(crawl_next(qv, v0, m) == crawl_next(qv.drop_first(), v0, m));
                continue;
            }
            self.visited.push(c);
            assert(strings_view(self.visited@) =~= v0.push(canonical(qv[0])));
            assert(crawl_next(qv, v0, m) == (qv.drop_first(), v0.push(canonical(qv[0])), Some(qv[0])));
            return Some(url);
        }
    }

    /// Queues the links of `page` that the crawl follows (see
    /// [`links_to_follow`]); `hrefs` are the page's link targets, as
    /// [`page_links`] gives them.
    pub fn add_links(&mut self, page: &str, hrefs: &Vec<String>)
        ensures
            final(self)@.queue == old(self)@.queue + links_to_follow(
                page@,
                strings_view(hrefs@),
                old(self)@.host,
                old(self)@.visited,
                hrefs@.len() as int,
            ),
            final(self)@.visited == old(self)@.visited,
            final(self)@.host == old(self)@.host,
            final(self)@.max_pages == old(self)@.max_pages,
    {
        let ghost hv = strings_view(hrefs@);
        let ghost q0 = self@.queue;
        let mut i: usize = 0;
        while i < hrefs.len()
            invariant
                i <= hrefs.len(),
                hv == strings_view(hrefs@),
                self@.queue == q0 + links_to_follow(page@, hv, self@.host, self@.visited, i as int),
                self@.visited == old(self)@.visited,
                self@.host == old(self)@.host,
                self@.max_pages == old(self)@.max_pages,
            decreases hrefs.len() - i,
        {
            let ghost before = self@.queue;
            assert(hv[i as int] == hrefs@[i as int]@);
            match join_url(page, hrefs[i].as_str()) {
                Ok(abs) => {
                    let h = url_host(abs.as_str());
                    let same_host = match &h {
                        Some(x) => {
                            let xc = chars_of(x.as_str());
                            let hc = chars_of(self.host.as_str());
                            crate::text::chars_eq(&xc, &hc)
                        },
                        None => false,
                    };
                    if same_host && should_crawl(abs.as_str()) {
                        let c = canonical_url(abs.as_str());
                        if !contains_string(&self.visited, &c) {
                            self.queue.push(abs);
                            assert(self@.queue =~= before.push(self.queue@[self.queue@.len() - 1]@));
                        }
                    }
                },
                Err(_) => {},
            }
            i = i + 1;
        }
    }
}

impl WebsiteSource {
    /// Starts a crawl at the root URL: the root queued, nothing visited, on
    /// the root's host (empty when it has none); `Registry` error when the
    /// root URL does not parse.
    pub fn start_crawl(&self) -> (r: Result<Crawl, LoreError>)
        ensures
            match url_parse_result(self.root_url@) {
                Ok(u) => r matches Ok(c) && c@ == (CrawlV {
                    queue: seq![u],
                    visited: seq![],
                    host: match url_host_of(u) {
                        Some(h) => h,
                        None => seq![],
                    },
                    max_pages: self.max_pages as nat,
                }),
                Err(e) => r matches Err(LoreError::Registry(m)) && m@ == "invalid URL '"@ + self.root_url@ + "': "@
                    + e,
            },
    {
        match parse_url(self.root_url.as_str()) {
            Ok(u) => {
                let host = match url_host(u.as_str()) {
                    Some(h) => h,
                    None => String::new(),
                };
                let c = Crawl { queue: vec![u], visited: Vec::new(), host, max_pages: self.max_pages };
                assert(c@.queue =~= seq![c.queue@[0]@]);
                assert(c@.visited =~= seq![]);
                Ok(c)
            },
            Err(e) => {
                let mut m = chars_of("invalid URL '");
                push_all(&mut m, &chars_of(self.root_url.as_str()));
                push_lit(&mut m, "': ");
                push_all(&mut m, &chars_of(e.as_str()));
                Err(LoreError::Registry(string_of(&m)))
            },
        }
    }
}

// ───────────────────────────── laws ─────────────────────────────

/// No value occurs twice.
pub open spec fn distinct(s: Seq<Seq<char>>) -> bool {
    forall|i: int, j: int| 0 <= i < j < s.len() ==> s[i] != s[j]
}

/// A crawl visits each page once and at most `max` pages: taking the next
/// page keeps the visited canonical URLs distinct and within the limit, and
/// a page handed out was not visited before.
pub proof fn law_crawl_visits_each_page_once(q: Seq<Seq<char>>, visited: Seq<Seq<char>>, max: nat)
    requires
        distinct(visited),
        visited.len() <= max,
    ensures
        distinct(crawl_next(q, visited, max).1),
        crawl_next(q, visited, max).1.len() <= max,
        crawl_next(q, visited, max).2 matches Some(u) ==> !visited.contains(canonical(u))
            && crawl_next(q, visited, max).1 == visited.push(canonical(u)),
        crawl_next(q, visited, max).2 is None ==> crawl_next(q, visited, max).1 == visited,
    decreases q.len(),
{
    if q.len() > 0 && visited.len() < max {
        if visited.contains(canonical(q[0])) {
            law_crawl_visits_each_page_once(q.drop_first(), visited, max);
        } else {
            let v2 = visited.push(canonical(q[0]));
            assert forall|i: int, j: int| 0 <= i < j < v2.len() implies v2[i] != v2[j] by {
                if j == visited.len() {
                    assert(v2[i] == visited[i]);
                }
            }
        }
    }
}

} // verus!
