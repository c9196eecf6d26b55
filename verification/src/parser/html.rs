//! HTML parser.
//!
//! Drops boilerplate subtrees (`<script>`, `<style>`, `<nav>`, `<footer>`,
//! `<header>`), converts what is left to Markdown with `htmd`, and parses that
//! with the Markdown parser.  The title comes from the Markdown frontmatter,
//! else from `<title>`, else from the first `<h1>`.
use vstd::prelude::*;

use crate::error::LoreError;
use crate::text::{chars_of, first_index, find_seq, has_prefix, string_of, trim, trim_chars};
use super::markdown::{parse_markdown, spec_parse_markdown};
use super::{opt_view, DocV, ParsedDoc};

verus! {

/// Parses `.html` and `.htm` files.
pub struct HtmlParser;

// ───────────────────────────── boilerplate removal ─────────────────────────────

/// ASCII lower-casing of one character (`u8::to_ascii_lowercase`).
pub open spec fn ascii_lower_char(c: char) -> char {
    if 'A' <= c <= 'Z' {
        ((c as u32) + 32) as char
    } else {
        c
    }
}

/// `str::to_ascii_lowercase`: every ASCII uppercase letter lowered.
pub open spec fn ascii_lower(s: Seq<char>) -> Seq<char> {
    s.map_values(|c: char| ascii_lower_char(c))
}

/// The character at `i` ends a tag name: `>`, a blank, or `/`.
pub open spec fn tag_boundary(s: Seq<char>, i: int) -> bool {
    0 <= i < s.len() && (s[i] == '>' || s[i] == ' ' || s[i] == '\n' || s[i] == '\t' || s[i] == '\r'
        || s[i] == '/')
}

pub open spec fn open_pat(tag: Seq<char>) -> Seq<char> {
    seq!['<'] + tag
}

pub open spec fn close_pat(tag: Seq<char>) -> Seq<char> {
    seq!['<', '/'] + tag + seq!['>']
}

/// Scans the lower-cased `lc` from `pos` with `depth` elements open; the end
/// (exclusive) of the element whose close brings the depth to zero, else
/// `lc.len()`.
pub open spec fn close_scan(lc: Seq<char>, tag: Seq<char>, pos: int, depth: nat) -> int
    decreases lc.len() - pos,
{
    if pos < 0 || pos >= lc.len() {
        lc.len() as int
    } else if has_prefix(lc.skip(pos), close_pat(tag)) {
        if depth <= 1 {
            pos + close_pat(tag).len()
        } else {
            close_scan(lc, tag, pos + close_pat(tag).len(), (depth - 1) as nat)
        }
    } else if has_prefix(lc.skip(pos), open_pat(tag)) {
        let d: nat = if tag_boundary(lc, pos + open_pat(tag).len()) {
            depth + 1
        } else {
            depth
        };
        close_scan(lc, tag, pos + open_pat(tag).len(), d)
    } else {
        close_scan(lc, tag, pos + 1, depth)
    }
}

/// The end (exclusive) of the `<tag ...>...</tag>` element that starts at
/// `s[0]`, nested elements of the same tag included; `s.len()` when it is not
/// closed.  Scanning starts after the first `>`.
pub open spec fn close_end(s: Seq<char>, tag: Seq<char>) -> int {
    let lc = ascii_lower(s);
    let start = if first_index(lc, '>') < lc.len() {
        first_index(lc, '>') + 1
    } else {
        0
    };
    close_scan(lc, tag, start as int, 1)
}

pub proof fn lemma_close_scan_bounds(lc: Seq<char>, tag: Seq<char>, pos: int, depth: nat)
    requires
        0 <= pos,
    ensures
        close_scan(lc, tag, pos, depth) <= lc.len(),
        close_scan(lc, tag, pos, depth) >= pos + 1 || close_scan(lc, tag, pos, depth) == lc.len(),
    decreases lc.len() - pos,
{
    if pos < lc.len() {
        if has_prefix(lc.skip(pos), close_pat(tag)) {
            if depth > 1 {
                lemma_close_scan_bounds(lc, tag, pos + close_pat(tag).len(), (depth - 1) as nat);
            }
        } else if has_prefix(lc.skip(pos), open_pat(tag)) {
            let d: nat = if tag_boundary(lc, pos + open_pat(tag).len()) {
                depth + 1
            } else {
                depth
            };
            lemma_close_scan_bounds(lc, tag, pos + open_pat(tag).len(), d);
        } else {
            lemma_close_scan_bounds(lc, tag, pos + 1, depth);
        }
    }
}

/// `s` with every `<tag>` element (its whole subtree) removed; the tag name is
/// matched case-insensitively and must end at `>`, a blank or `/`.
pub open spec fn remove_tag(s: Seq<char>, tag: Seq<char>) -> Seq<char>
    decreases s.len(),
{
    match find_seq(ascii_lower(s), open_pat(tag), 0) {
        None => s,
        Some(p) => if p < 0 || p >= s.len() {
            s
        } else if !tag_boundary(s, p + open_pat(tag).len()) {
            s.take(p + 1) + remove_tag(s.skip(p + 1), tag)
        } else {
            let e = close_end(s.skip(p), tag);
            if e < 1 || p + e > s.len() {
                s.take(p)
            } else {
                s.take(p) + remove_tag(s.skip(p + e), tag)
            }
        },
    }
}

/// The boilerplate elements removed before conversion, in order.
pub open spec fn spec_remove_boilerplate(s: Seq<char>) -> Seq<char> {
    remove_tag(
        remove_tag(
            remove_tag(remove_tag(remove_tag(s, "script"@), "style"@), "nav"@),
            "footer"@,
        ),
        "header"@,
    )
}

pub(crate) fn ascii_lower_exec(s: &Vec<char>) -> (r: Vec<char>)
    ensures
        r@ == ascii_lower(s@),
{
    let mut r: Vec<char> = Vec::new();
    let mut i: usize = 0;
    while i < s.len()
        invariant
            i <= s.len(),
            r@ == ascii_lower(s@.take(i as int)),
        decreases s.len() - i,
    {
        let c = s[i];
        let l = if 'A' <= c && c <= 'Z' {
            ((c as u8) + 32) as char
        } else {
            c
        };
        r.push(l);
        assert(ascii_lower(s@.take(i + 1)) =~= ascii_lower(s@.take(i as int)).push(l));
        i = i + 1;
    }
    assert(s@.take(i as int) =~= s@);
    r
}

fn tag_boundary_exec(s: &Vec<char>, i: usize) -> (b: bool)
    ensures
        b == tag_boundary(s@, i as int),
{
    if i >= s.len() {
        return false;
    }
    let c = s[i];
    c == '>' || c == ' ' || c == '\n' || c == '\t' || c == '\r' || c == '/'
}

/// The end (exclusive) of the `<tag ...>...</tag>` element that starts at
/// `html[0]`, nested ones included; `html.len()` when it is never closed.
fn find_close_tag(lc: &Vec<char>, open: &Vec<char>, close: &Vec<char>, ghost_tag: Ghost<Seq<char>>) -> (r: usize)
    requires
        open@ == open_pat(ghost_tag@),
        close@ == close_pat(ghost_tag@),
    ensures
        r == close_scan(lc@, ghost_tag@, (if first_index(lc@, '>') < lc@.len() {
            first_index(lc@, '>') + 1
        } else {
            0
        }) as int, 1),
{
    let gt = crate::text::find_char_from(lc, 0, '>');
    assert(lc@.skip(0) =~= lc@);
    let mut pos: usize = if gt < lc.len() {
        gt + 1
    } else {
        0
    };
    let ghost start = pos as int;
    let mut depth: usize = 1;
    while pos < lc.len()
        invariant
            pos <= lc.len(),
            open@ == open_pat(ghost_tag@),
            close@ == close_pat(ghost_tag@),
            1 <= depth <= pos + 1,
            start == (if first_index(lc@, '>') < lc@.len() {
                first_index(lc@, '>') + 1
            } else {
                0
            }) as int,
            close_scan(lc@, ghost_tag@, start, 1) == close_scan(lc@, ghost_tag@, pos as int, depth as nat),
        decreases lc.len() - pos,
    {
        let rest = crate::text::slice_chars(lc, pos, lc.len());
        assert(rest@ =~= lc@.skip(pos as int));
        if crate::text::starts_with(&rest, close) {
            if depth <= 1 {
                return pos + close.len();
            }
            depth = depth - 1;
            pos = pos + close.len();
        } else if crate::text::starts_with(&rest, open) {
            let after = pos + open.len();
            if tag_boundary_exec(lc, after) {
                depth = depth + 1;
            }
            pos = after;
        } else {
            pos = pos + 1;
        }
    }
    lc.len()
}

/// Removes every `<tag>` subtree (nested ones included) from `html`.
fn remove_tag_subtrees(html: &Vec<char>, tag: &str) -> (r: Vec<char>)
    ensures
        r@ == remove_tag(html@, tag@),
{
    let mut open: Vec<char> = vec!['<'];
    let tv = chars_of(tag);
    crate::text::push_all(&mut open, &tv);
    let mut close: Vec<char> = vec!['<', '/'];
    crate::text::push_all(&mut close, &tv);
    close.push('>');
    assert(open@ =~= open_pat(tag@));
    assert(close@ =~= close_pat(tag@));
    let mut out: Vec<char> = Vec::new();
    let mut start: usize = 0;
    assert(html@.skip(0) =~= html@);
    while start < html.len()
        invariant
            start <= html.len(),
            open@ == open_pat(tag@),
            close@ == close_pat(tag@),
            out@ + remove_tag(html@.skip(start as int), tag@) == remove_tag(html@, tag@),
        ensures
            out@ + html@.skip(start as int) == remove_tag(html@, tag@),
        decreases html.len() - start,
    {
        let rem = crate::text::slice_chars(html, start, html.len());
        assert(rem@ =~= html@.skip(start as int));
        let lc = ascii_lower_exec(&rem);
        let found = crate::text::find_seq_from(&lc, &open, 0);
        proof {
            crate::text::lemma_find_seq_found(lc@, open@, 0);
        }
        match found {
            None => {
                assert(remove_tag(rem@, tag@) == rem@);
                break;
            },
            Some(p) => {
                if p >= rem.len() {
                    break;
                }
                let ghost o0 = out@;
                if !tag_boundary_exec(&rem, p + open.len()) {
                    let head = crate::text::slice_chars(&rem, 0, p + 1);
                    crate::text::push_all(&mut out, &head);
                    proof {
                        assert(head@ =~= rem@.take(p + 1));
                        assert(rem@.skip(p + 1) =~= html@.skip(start + p + 1));
                        assert(o0 + (rem@.take(p + 1) + remove_tag(rem@.skip(p + 1), tag@)) =~= out@ + remove_tag(html@.skip(start + p + 1), tag@));
                    }
                    start = start + p + 1;
                } else {
                    let head = crate::text::slice_chars(&rem, 0, p);
                    crate::text::push_all(&mut out, &head);
                    let inner_lc = crate::text::slice_chars(&lc, p, lc.len());
                    proof {
                        assert(inner_lc@ =~= ascii_lower(rem@.skip(p as int)));
                    }
                    let e = find_close_tag(&inner_lc, &open, &close, Ghost(tag@));
                    proof {
                        let lci = inner_lc@;
                        let st: int = if first_index(lci, '>') < lci.len() {
                            (first_index(lci, '>') + 1) as int
                        } else {
                            0
                        };
                        lemma_close_scan_bounds(lci, tag@, st, 1);
                        assert(e == close_end(rem@.skip(p as int), tag@));
                    }
                    if e < 1 || p + e > rem.len() {
                        proof {
                            assert(head@ =~= rem@.take(p as int));
                        }
                        start = html.len();
                        assert(html@.skip(start as int) =~= seq![]);
                        assert(out@ + remove_tag(html@.skip(start as int), tag@) =~= out@);
                        return out;
                    }
                    proof {
                        assert(head@ =~= rem@.take(p as int));
                        assert(rem@.skip(p + e) =~= html@.skip(start + p + e));
                        assert(o0 + (rem@.take(p as int) + remove_tag(rem@.skip(p + e), tag@)) =~= out@ + remove_tag(html@.skip(start + p + e), tag@));
                    }
                    start = start + p + e;
                }
            },
        }
    }
    let tail = crate::text::slice_chars(html, start, html.len());
    proof {
        assert(tail@ =~= html@.skip(start as int));
    }
    let ghost o1 = out@;
    crate::text::push_all(&mut out, &tail);
    out
}

fn remove_boilerplate(html: &Vec<char>) -> (r: Vec<char>)
    ensures
        r@ == spec_remove_boilerplate(html@),
{
    let a = remove_tag_subtrees(html, "script");
    let b = remove_tag_subtrees(&a, "style");
    let c = remove_tag_subtrees(&b, "nav");
    let d = remove_tag_subtrees(&c, "footer");
    remove_tag_subtrees(&d, "header")
}

// ───────────────────────────── outside calls ─────────────────────────────

/// The concatenated text of the first element matching the CSS selector
/// `selector` in the HTML document `content`, if there is one.
pub uninterp spec fn html_first_text(content: Seq<char>, selector: Seq<char>) -> Option<Seq<char>>;

/// `scraper`: `Html::parse_document(content)`, `Selector::parse(selector)`,
/// the first match of `select`, its `text()` concatenated.  Claimed: the result
/// is [`html_first_text`] of the arguments (`None` as well when the selector
/// does not parse).
#[verifier::external_body]
fn first_element_text(content: &str, selector: &str) -> (r: Option<String>)
    ensures
        opt_view(r) == html_first_text(content@, selector@),
{
    let document = scraper::Html::parse_document(content);
    let sel = match scraper::Selector::parse(selector) {
        Ok(s) => s,
        Err(_) => return None,
    };
    document.select(&sel).next().map(|el| el.text().collect::<String>())
}

/// The Markdown that `htmd::convert` makes of `html`, `None` where it fails.
pub uninterp spec fn html_to_markdown(html: Seq<char>) -> Option<Seq<char>>;

/// `htmd::convert`.  Claimed: on HTML whose DOM nests at most
/// [`MAX_HTML_DEPTH`] elements deep (as [`html_walk_edges`] measures it), it
/// returns, succeeding exactly when [`html_to_markdown`] is `Some`, with that
/// text; the error is handed back as its message.  `htmd` walks its DOM
/// recursively, a few stack frames per level, so deeper input could exhaust
/// the stack; that input is left out.  Its DOM (html5ever 0.38) is the tree
/// the measured one (scraper's html5ever 0.40) is: the two tree builders
/// differ in that 0.40 also reconstructs open formatting elements before an
/// `<svg>` or `<math>` element, which only makes its tree deeper.
#[verifier::external_body]
fn htmd_convert(html: &str) -> (r: Result<String, String>)
    requires
        html_depth_ok(html@),
    ensures
        match r {
            Ok(m) => html_to_markdown(html@) == Some(m@),
            Err(_) => html_to_markdown(html@) is None,
        },
{
    match htmd::convert(html) {
        Ok(m) => Ok(m),
        Err(e) => Err(e.to_string()),
    }
}

// ───────────────────────────── the parser ─────────────────────────────

/// The open (`true`) and close (`false`) edges, in order, of a depth-first
/// walk of the DOM that scraper (html5ever) builds for `html`.
pub uninterp spec fn html_walk_edges(html: Seq<char>) -> Seq<bool>;

/// `scraper::Html::parse_document(html)`, its tree's `traverse()` edges,
/// each told apart by its variant.  Claimed: the result is
/// [`html_walk_edges`] of `html`.
#[verifier::external_body]
fn dom_edges(html: &str) -> (r: Vec<bool>)
    ensures
        r@ == html_walk_edges(html@),
{
    let document = scraper::Html::parse_document(html);
    document.tree.root().traverse().map(|e| matches!(e, ego_tree::iter::Edge::Open(_))).collect()
}

/// The deepest nesting HTML is converted at.
pub const MAX_HTML_DEPTH: usize = 128;

/// The open elements after the edges `es[..k]` (never below zero).
pub open spec fn open_after(es: Seq<bool>, k: int) -> nat
    decreases k,
{
    if k <= 0 || k > es.len() {
        0
    } else if es[k - 1] {
        open_after(es, k - 1) + 1
    } else if open_after(es, k - 1) > 0 {
        (open_after(es, k - 1) - 1) as nat
    } else {
        0
    }
}

/// The greatest number of open elements after any of `es[..k]`.
pub open spec fn max_open(es: Seq<bool>, k: int) -> nat
    decreases k,
{
    if k <= 0 || k > es.len() {
        0
    } else if open_after(es, k) > max_open(es, k - 1) {
        open_after(es, k)
    } else {
        max_open(es, k - 1)
    }
}

/// The DOM of `html` nests at most [`MAX_HTML_DEPTH`] nodes deep.
pub open spec fn html_depth_ok(html: Seq<char>) -> bool {
    max_open(html_walk_edges(html), html_walk_edges(html).len() as int) <= MAX_HTML_DEPTH
}

/// What converting HTML to Markdown gives: `htmd`'s Markdown, or `None`
/// when it fails or the HTML nests too deeply to convert.
pub open spec fn converted_markdown(html: Seq<char>) -> Option<Seq<char>> {
    if html_depth_ok(html) {
        html_to_markdown(html)
    } else {
        None
    }
}

fn depth_ok_exec(html: &str) -> (b: bool)
    ensures
        b == html_depth_ok(html@),
{
    let es = dom_edges(html);
    let mut open: usize = 0;
    let mut most: usize = 0;
    let mut k: usize = 0;
    while k < es.len()
        invariant
            k <= es.len(),
            es@ == html_walk_edges(html@),
            open as nat == open_after(es@, k as int),
            most as nat == max_open(es@, k as int),
            open <= k,
            most <= k,
        decreases es.len() - k,
    {
        if es[k] {
            open = open + 1;
        } else if open > 0 {
            open = open - 1;
        }
        if open > most {
            most = open;
        }
        k = k + 1;
    }
    most <= MAX_HTML_DEPTH
}

/// Converts HTML to Markdown (see [`converted_markdown`]); the error is
/// `htmd`'s message, or a note that the HTML nests too deeply.
pub(crate) fn convert_html(html: &str) -> (r: Result<String, String>)
    ensures
        match r {
            Ok(m) => converted_markdown(html@) == Some(m@),
            Err(_) => converted_markdown(html@) is None,
        },
{
    if !depth_ok_exec(html) {
        return Err(string_of(&chars_of("HTML nests more than 128 elements deep")));
    }
    htmd_convert(html)
}

/// The title found in the HTML: the trimmed text of `<title>` if not empty,
/// else the trimmed text of the first `<h1>`.
pub open spec fn html_title(content: Seq<char>) -> Option<Seq<char>> {
    match html_first_text(content, "title"@) {
        Some(t) if trim(t).len() > 0 => Some(trim(t)),
        _ => match html_first_text(content, "h1"@) {
            Some(t) => Some(trim(t)),
            None => None,
        },
    }
}

fn extract_title(content: &str) -> (r: Option<String>)
    ensures
        opt_view(r) == html_title(content@),
{
    match first_element_text(content, "title") {
        Some(t) => {
            let tc = chars_of(t.as_str());
            let tt = trim_chars(&tc);
            if tt.len() > 0 {
                return Some(string_of(&tt));
            }
        },
        None => {},
    }
    match first_element_text(content, "h1") {
        Some(t) => {
            let tc = chars_of(t.as_str());
            Some(string_of(&trim_chars(&tc)))
        },
        None => None,
    }
}

/// The document made of the converted Markdown `md` of `content`.
pub open spec fn html_doc(content: Seq<char>, md: Seq<char>) -> DocV {
    let d = spec_parse_markdown(md);
    DocV { title: if d.title is Some { d.title } else { html_title(content) }, ..d }
}

/// What parsing HTML `content` at `path` gives: the document of the
/// converted Markdown when the cleaned HTML converts (see
/// [`converted_markdown`]), otherwise `LoreError::Parse` naming the path.
pub open spec fn html_parse_result(content: Seq<char>, path: Seq<char>, r: Result<ParsedDoc, LoreError>) -> bool {
    match converted_markdown(spec_remove_boilerplate(content)) {
        Some(md) => r matches Ok(d) && d@ == html_doc(content, md),
        None => r matches Err(LoreError::Parse(m)) && has_prefix(
            m@,
            "htmd conversion failed for "@ + path + ": "@,
        ),
    }
}

/// Parses HTML `content`; `path` only names the file in the error.
pub fn parse_html(content: &str, path: &str) -> (r: Result<ParsedDoc, LoreError>)
    ensures
        html_parse_result(content@, path@, r),
{
    let title = extract_title(content);
    let cs = chars_of(content);
    let cleaned = remove_boilerplate(&cs);
    let cleaned_s = string_of(&cleaned);
    match convert_html(cleaned_s.as_str()) {
        Ok(markdown) => {
            let mut doc = parse_markdown(markdown.as_str());
            if doc.title.is_none() {
                doc.title = title;
            }
            Ok(doc)
        },
        Err(e) => {
            let mut m = chars_of("htmd conversion failed for ");
            let pv = chars_of(path);
            crate::text::push_all(&mut m, &pv);
            crate::text::push_lit(&mut m, ": ");
            let ghost pre = m@;
            let ev = chars_of(e.as_str());
            crate::text::push_all(&mut m, &ev);
            proof {
                assert(m@.take(pre.len() as int) =~= pre);
            }
            Err(LoreError::Parse(string_of(&m)))
        },
    }
}

} // verus!
