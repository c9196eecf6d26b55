//! The API surface manifest of a package: a compact (at most 500 tokens)
//! index of its top-level sections and the API signatures found in their code
//! blocks, e.g.
//!
//! ```text
//! CACHING: cacheLife(profile), cacheTag(...tags)
//! ROUTING: redirect(path)
//! ```
//!
//! and the UTC date arithmetic used to stamp manifests.
use vstd::prelude::*;

use crate::node::{Node, NodeKind};
use crate::parser::opt_view;
use crate::text::{
    chars_of, copy_chars, find_char_from, has_prefix, join, lines, lowercase, push_all, push_lit,
    split_lines, string_of, to_lower, to_upper, trim, trim_chars, uppercase, utf8_len, utf8_width,
};
use crate::tokens::{capped_tokens, TokenCounter};

verus! {

// ───────────────────────────── signatures ─────────────────────────────

/// Definition prefixes, in the order they are tried (JavaScript/TypeScript,
/// then Python, then Rust, then Go).
pub open spec fn def_prefixes() -> Seq<Seq<char>> {
    seq![
        "export default async function "@,
        "export default function "@,
        "export default class "@,
        "export async function "@,
        "export function "@,
        "export const "@,
        "export let "@,
        "export class "@,
        "export type "@,
        "export interface "@,
        "async function "@,
        "function "@,
        "const "@,
        "class "@,
        "type "@,
        "interface "@,
        "async def "@,
        "def "@,
        "class "@,
        "pub async fn "@,
        "pub fn "@,
        "async fn "@,
        "fn "@,
        "pub struct "@,
        "pub enum "@,
        "pub trait "@,
        "struct "@,
        "enum "@,
        "trait "@,
        "func "@,
    ]
}

/// The index of the first prefix of `ps[k..]` that `t` starts with.
pub open spec fn first_prefix(t: Seq<char>, ps: Seq<Seq<char>>, k: int) -> Option<int>
    decreases ps.len() - k,
{
    if k < 0 || k >= ps.len() {
        None
    } else if has_prefix(t, ps[k]) {
        Some(k)
    } else {
        first_prefix(t, ps, k + 1)
    }
}

/// `rest` up to its first `{` or `;`, trimmed.
pub open spec fn sig_head(rest: Seq<char>) -> Seq<char> {
    let a = crate::text::first_index(rest, '{');
    let b = crate::text::first_index(rest, ';');
    trim(rest.take(if a < b {
        a as int
    } else {
        b as int
    }))
}

/// The number of leading characters of `s` that fit in `n` bytes: the
/// longest prefix, from the `k`-th character on, whose UTF-8 length is at
/// most `n`.
pub open spec fn chars_within(s: Seq<char>, n: nat, k: int) -> int
    decreases s.len() - k,
{
    if 0 <= k < s.len() && utf8_len(s.take(k + 1)) <= n {
        chars_within(s, n, k + 1)
    } else {
        k
    }
}

/// The compact signature: longer than 60 bytes, it is cut after its last
/// character that ends within the first 57 bytes, and `…` is appended.
pub open spec fn compact_sig(rest: Seq<char>) -> Seq<char> {
    let sig = sig_head(rest);
    if utf8_len(sig) > 60 {
        sig.take(chars_within(sig, 57, 0)) + "…"@
    } else {
        sig
    }
}

/// The signature of a definition line: the trimmed line after its first
/// matching definition prefix, compacted.
pub open spec fn spec_signature(line: Seq<char>) -> Option<Seq<char>> {
    let t = trim(line);
    match first_prefix(t, def_prefixes(), 0) {
        Some(k) => Some(compact_sig(t.skip(def_prefixes()[k].len() as int))),
        None => None,
    }
}

fn def_prefix_list() -> (r: Vec<&'static str>)
    ensures
        r@.map_values(|p: &str| p@) == def_prefixes(),
{
    let r = vec![
        "export default async function ",
        "export default function ",
        "export default class ",
        "export async function ",
        "export function ",
        "export const ",
        "export let ",
        "export class ",
        "export type ",
        "export interface ",
        "async function ",
        "function ",
        "const ",
        "class ",
        "type ",
        "interface ",
        "async def ",
        "def ",
        "class ",
        "pub async fn ",
        "pub fn ",
        "async fn ",
        "fn ",
        "pub struct ",
        "pub enum ",
        "pub trait ",
        "struct ",
        "enum ",
        "trait ",
        "func ",
    ];
    assert(r@.map_values(|p: &str| p@) =~= def_prefixes());
    r
}

fn sig_head_exec(rest: &Vec<char>) -> (r: Vec<char>)
    ensures
        r@ == sig_head(rest@),
{
    let a = find_char_from(rest, 0, '{');
    let b = find_char_from(rest, 0, ';');
    assert(rest@.skip(0) =~= rest@);
    let end = if a < b {
        a
    } else {
        b
    };
    let head = crate::text::slice_chars(rest, 0, end);
    assert(head@ =~= rest@.take(end as int));
    trim_chars(&head)
}

fn compact_sig_exec(rest: &Vec<char>) -> (r: Vec<char>)
    ensures
        r@ == compact_sig(rest@),
{
    let sig = sig_head_exec(rest);
    let n = crate::text::utf8_len_wide(&sig);
    if n <= 60 {
        return sig;
    }
    let mut k: usize = 0;
    let mut bytes: usize = 0;
    let ghost s = sig@;
    proof {
        assert(s.take(0) =~= seq![]);
    }
    loop
        invariant
            k <= sig.len(),
            s == sig@,
            bytes == utf8_len(s.take(k as int)),
            bytes <= 57,
            chars_within(s, 57, 0) == chars_within(s, 57, k as int),
        ensures
            chars_within(s, 57, k as int) == k,
        decreases sig.len() - k,
    {
        if k >= sig.len() {
            break;
        }
        let w = crate::text::utf8_width_of(sig[k]);
        proof {
            assert(s.take(k + 1).drop_last() =~= s.take(k as int));
        }
        if bytes + w > 57 {
            break;
        }
        bytes = bytes + w;
        k = k + 1;
    }
    let mut out = crate::text::slice_chars(&sig, 0, k);
    push_lit(&mut out, "…");
    out
}

/// [`chars_within`] gives the longest prefix that fits: it fits in `n`
/// bytes, and one character more would not.
pub proof fn lemma_chars_within(s: Seq<char>, n: nat, k: int)
    requires
        0 <= k <= s.len(),
        utf8_len(s.take(k)) <= n,
    ensures
        k <= chars_within(s, n, k) <= s.len(),
        utf8_len(s.take(chars_within(s, n, k))) <= n,
        chars_within(s, n, k) < s.len() ==> utf8_len(s.take(chars_within(s, n, k) + 1)) > n,
    decreases s.len() - k,
{
    if k < s.len() && utf8_len(s.take(k + 1)) <= n {
        lemma_chars_within(s, n, k + 1);
    }
}

/// A compact signature is at most 60 bytes long, so at most 60 characters.
pub proof fn law_compact_signature_at_most_60_bytes(rest: Seq<char>)
    ensures
        utf8_len(compact_sig(rest)) <= 60,
        compact_sig(rest).len() <= 60,
{
    let sig = sig_head(rest);
    if utf8_len(sig) > 60 {
        assert(sig.take(0) =~= Seq::<char>::empty());
        lemma_chars_within(sig, 57, 0);
        let k = chars_within(sig, 57, 0);
        reveal_strlit("…");
        let e = "…"@;
        assert(e.len() == 1 && e.drop_last() =~= Seq::<char>::empty());
        assert(e[0] == '\u{2026}');
        assert(utf8_width(e[0]) == 3);
        assert(utf8_len(e.drop_last()) == 0);
        assert(e.last() == e[0]);
        assert(utf8_len(e) == 3);
        crate::text::lemma_utf8_len_concat(sig.take(k), e);
    }
    crate::text::lemma_utf8_len_ge(compact_sig(rest));
}

/// Extracts a compact function/class/type signature from one line of code,
/// if the line starts (after trimming) with a known definition prefix.
pub fn extract_signature_from_line(line: &str) -> (r: Option<String>)
    ensures
        opt_view(r) == spec_signature(line@),
{
    let lc = chars_of(line);
    let t = trim_chars(&lc);
    let ps = def_prefix_list();
    let mut k: usize = 0;
    while k < ps.len()
        invariant
            k <= ps.len(),
            ps@.map_values(|p: &str| p@) == def_prefixes(),
            t@ == trim(line@),
            first_prefix(t@, def_prefixes(), 0) == first_prefix(t@, def_prefixes(), k as int),
        decreases ps.len() - k,
    {
        assert(def_prefixes()[k as int] == ps@[k as int]@);
        if crate::text::starts_with_lit(&t, ps[k]) {
            assert(first_prefix(t@, def_prefixes(), k as int) == Some(k as int));
            let plen = chars_of(ps[k]).len();
            let rest = crate::text::slice_chars(&t, plen, t.len());
            assert(rest@ =~= t@.skip(def_prefixes()[k as int].len() as int));
            let sig = compact_sig_exec(&rest);
            return Some(string_of(&sig));
        }
        k = k + 1;
    }
    None
}

// ───────────────────────────── manifest text ─────────────────────────────

/// A heading of the package: its title and level.
#[derive(Debug)]
pub struct HeadingEntry {
    pub title: String,
    pub level: u8,
}

/// An API signature found in a code block, with the title of the top-level
/// section the block sits under.
#[derive(Debug)]
pub struct ApiSignature {
    pub section: String,
    pub signature: String,
}

/// The languages whose code blocks are scanned for signatures.
pub open spec fn signature_lang(lang: Seq<char>) -> bool {
    lang == "js"@ || lang == "ts"@ || lang == "javascript"@ || lang == "typescript"@ || lang
        == "python"@ || lang == "rust"@ || lang == "go"@ || lang == "java"@ || lang == "jsx"@ || lang
        == "tsx"@
}

/// Whether a code block in `lang` is scanned for signatures (a block without
/// a language is not).
pub fn supported_lang(lang: &Option<String>) -> (b: bool)
    ensures
        b == (lang matches Some(l) && signature_lang(l@)),
{
    match lang {
        Some(l) => {
            let c = chars_of(l.as_str());
            crate::text::eq_lit(&c, "js") || crate::text::eq_lit(&c, "ts") || crate::text::eq_lit(
                &c,
                "javascript",
            ) || crate::text::eq_lit(&c, "typescript") || crate::text::eq_lit(&c, "python")
                || crate::text::eq_lit(&c, "rust") || crate::text::eq_lit(&c, "go")
                || crate::text::eq_lit(&c, "java") || crate::text::eq_lit(&c, "jsx")
                || crate::text::eq_lit(&c, "tsx")
        },
        None => false,
    }
}

/// The signatures of the lines `ls[..k]`, in order.
pub open spec fn line_signatures(ls: Seq<Seq<char>>, k: int) -> Seq<Seq<char>>
    decreases k,
{
    if k <= 0 || k > ls.len() {
        seq![]
    } else {
        match spec_signature(ls[k - 1]) {
            Some(s) => line_signatures(ls, k - 1).push(s),
            None => line_signatures(ls, k - 1),
        }
    }
}

pub open spec fn sig_pairs(v: Seq<ApiSignature>) -> Seq<(Seq<char>, Seq<char>)> {
    v.map_values(|a: ApiSignature| (a.section@, a.signature@))
}

/// The signatures defined in the lines of a code block's `content`, each
/// with the block's `section`.
pub fn signatures_in(content: &str, section: &String) -> (r: Vec<ApiSignature>)
    ensures
        sig_pairs(r@) == line_signatures(lines(content@), lines(content@).len() as int).map_values(
            |s: Seq<char>| (section@, s),
        ),
{
    let cs = chars_of(content);
    let ls = split_lines(&cs);
    let ghost lv = lines(content@);
    let mut r: Vec<ApiSignature> = Vec::new();
    let mut i: usize = 0;
    while i < ls.len()
        invariant
            i <= ls.len(),
            lv == lines(content@),
            ls@.len() == lv.len(),
            forall|j: int| 0 <= j < ls@.len() ==> #[trigger] ls@[j]@ == lv[j],
            sig_pairs(r@) == line_signatures(lv, i as int).map_values(|s: Seq<char>| (section@, s)),
        decreases ls.len() - i,
    {
        let ghost r0 = r@;
        let line = string_of(&ls[i]);
        match extract_signature_from_line(line.as_str()) {
            Some(sig) => {
                r.push(ApiSignature { section: section.clone(), signature: sig });
                assert(sig_pairs(r@) =~= sig_pairs(r0).push((section@, sig@)));
            },
            None => {},
        }
        i = i + 1;
    }
    r
}

/// The heading entries of heading nodes: those with a non-blank title and a
/// level.
pub open spec fn heading_entries_of(ns: Seq<Node>, k: int) -> Seq<(Seq<char>, u8)>
    decreases k,
{
    if k <= 0 || k > ns.len() {
        seq![]
    } else {
        let r = heading_entries_of(ns, k - 1);
        let n = ns[k - 1];
        match (n.title, n.level) {
            (Some(t), Some(l)) => if trim(t@).len() > 0 {
                r.push((t@, l))
            } else {
                r
            },
            _ => r,
        }
    }
}

pub open spec fn entry_pairs(v: Seq<HeadingEntry>) -> Seq<(Seq<char>, u8)> {
    v.map_values(|h: HeadingEntry| (h.title@, h.level))
}

/// The entries of the heading nodes that have a non-blank title and a level.
pub fn heading_entries(nodes: &Vec<Node>) -> (r: Vec<HeadingEntry>)
    ensures
        entry_pairs(r@) == heading_entries_of(nodes@, nodes.len() as int),
{
    let mut r: Vec<HeadingEntry> = Vec::new();
    let mut i: usize = 0;
    while i < nodes.len()
        invariant
            i <= nodes.len(),
            entry_pairs(r@) == heading_entries_of(nodes@, i as int),
        decreases nodes.len() - i,
    {
        let ghost r0 = r@;
        match (&nodes[i].title, nodes[i].level) {
            (Some(t), Some(l)) => {
                let tc = chars_of(t.as_str());
                if !crate::text::is_blank(&tc) {
                    r.push(HeadingEntry { title: t.clone(), level: l });
                    assert(entry_pairs(r@) =~= entry_pairs(r0).push((t@, l)));
                }
            },
            _ => {},
        }
        i = i + 1;
    }
    r
}

/// Titles of the headings of level at most 2 in `hs[..k]`, each kept only
/// the first time its lower-cased form occurs.
pub open spec fn top_sections(hs: Seq<(Seq<char>, u8)>, k: int) -> Seq<Seq<char>>
    decreases k,
{
    if k <= 0 || k > hs.len() {
        seq![]
    } else {
        let r = top_sections(hs, k - 1);
        let (t, l) = hs[k - 1];
        if l <= 2 && !r.map_values(|x: Seq<char>| lowercase(x)).contains(lowercase(t)) {
            r.push(t)
        } else {
            r
        }
    }
}

/// The section a signature goes to: the first top section equal to `sec`
/// ignoring case, else `sec` itself.
pub open spec fn matched_section(top: Seq<Seq<char>>, sec: Seq<char>, j: int) -> Seq<char>
    decreases top.len() - j,
{
    if j < 0 || j >= top.len() {
        sec
    } else if lowercase(top[j]) == lowercase(sec) {
        top[j]
    } else {
        matched_section(top, sec, j + 1)
    }
}

/// The distinct non-empty signatures of `sigs[..k]` that go to `key`.
pub open spec fn sigs_for(top: Seq<Seq<char>>, sigs: Seq<(Seq<char>, Seq<char>)>, key: Seq<char>, k: int) -> Seq<Seq<char>>
    decreases k,
{
    if k <= 0 || k > sigs.len() {
        seq![]
    } else {
        let r = sigs_for(top, sigs, key, k - 1);
        let (sec, sg) = sigs[k - 1];
        if matched_section(top, sec, 0) == key && sg.len() > 0 && !r.contains(sg) {
            r.push(sg)
        } else {
            r
        }
    }
}

/// The lines of the manifest: for each top section with signatures, its
/// upper-cased title and its signatures.
pub open spec fn manifest_lines(
    top: Seq<Seq<char>>,
    sigs: Seq<(Seq<char>, Seq<char>)>,
    k: int,
) -> Seq<(Seq<char>, Seq<Seq<char>>)>
    decreases k,
{
    if k <= 0 || k > top.len() {
        seq![]
    } else {
        let r = manifest_lines(top, sigs, k - 1);
        let ss = sigs_for(top, sigs, top[k - 1], sigs.len() as int);
        if ss.len() > 0 {
            r.push((uppercase(top[k - 1]), ss))
        } else {
            r
        }
    }
}

pub open spec fn render_line(l: (Seq<char>, Seq<Seq<char>>)) -> Seq<char> {
    l.0 + ": "@ + join(l.1, ", "@)
}

pub open spec fn render_lines(ls: Seq<(Seq<char>, Seq<Seq<char>>)>) -> Seq<char> {
    join(ls.map_values(|l: (Seq<char>, Seq<Seq<char>>)| render_line(l)), "\n"@)
}

pub open spec fn total_sigs(ls: Seq<(Seq<char>, Seq<Seq<char>>)>) -> nat
    decreases ls.len(),
{
    if ls.len() == 0 {
        0
    } else {
        total_sigs(ls.drop_last()) + ls.last().1.len()
    }
}

/// The index of the last line among those with the most signatures.
pub open spec fn last_max(ls: Seq<(Seq<char>, Seq<Seq<char>>)>, k: int) -> int
    decreases k,
{
    if k <= 1 {
        0
    } else {
        let m = last_max(ls, k - 1);
        if ls[k - 1].1.len() >= ls[m].1.len() {
            k - 1
        } else {
            m
        }
    }
}

/// Drops signatures, one at a time from the (last) line that has the most,
/// until the text fits in 500 tokens or that line has a single signature.
pub open spec fn trim_to_budget(ls: Seq<(Seq<char>, Seq<Seq<char>>)>) -> Seq<char>
    decreases total_sigs(ls),
{
    if capped_tokens(render_lines(ls)) <= 500 || ls.len() == 0 {
        render_lines(ls)
    } else {
        let m = last_max(ls, ls.len() as int);
        if 0 <= m < ls.len() && ls[m].1.len() > 1 {
            proof {
                lemma_total_sigs_drop(ls, m);
            }
            trim_to_budget(ls.update(m, (ls[m].0, ls[m].1.drop_last())))
        } else {
            render_lines(ls)
        }
    }
}

pub proof fn lemma_total_sigs_drop(ls: Seq<(Seq<char>, Seq<Seq<char>>)>, m: int)
    requires
        0 <= m < ls.len(),
        ls[m].1.len() > 0,
    ensures
        total_sigs(ls.update(m, (ls[m].0, ls[m].1.drop_last()))) + 1 == total_sigs(ls),
    decreases ls.len(),
{
    let u = ls.update(m, (ls[m].0, ls[m].1.drop_last()));
    if m < ls.len() - 1 {
        lemma_total_sigs_drop(ls.drop_last(), m);
        assert(u.drop_last() =~= ls.drop_last().update(m, (ls[m].0, ls[m].1.drop_last())));
    } else {
        assert(u.drop_last() =~= ls.drop_last());
    }
}

/// The lines [`trim_to_budget`] ends with.
pub open spec fn budget_lines(ls: Seq<(Seq<char>, Seq<Seq<char>>)>) -> Seq<(Seq<char>, Seq<Seq<char>>)>
    decreases total_sigs(ls),
{
    if capped_tokens(render_lines(ls)) <= 500 || ls.len() == 0 {
        ls
    } else {
        let m = last_max(ls, ls.len() as int);
        if 0 <= m < ls.len() && ls[m].1.len() > 1 {
            proof {
                lemma_total_sigs_drop(ls, m);
            }
            budget_lines(ls.update(m, (ls[m].0, ls[m].1.drop_last())))
        } else {
            ls
        }
    }
}

proof fn lemma_last_max(ls: Seq<(Seq<char>, Seq<Seq<char>>)>, k: int)
    requires
        1 <= k <= ls.len(),
    ensures
        0 <= last_max(ls, k) < k,
        forall|i: int| 0 <= i < k ==> (#[trigger] ls[i]).1.len() <= ls[last_max(ls, k)].1.len(),
    decreases k,
{
    if k > 1 {
        lemma_last_max(ls, k - 1);
    }
}

proof fn lemma_budget_lines(ls: Seq<(Seq<char>, Seq<Seq<char>>)>)
    ensures
        trim_to_budget(ls) == render_lines(budget_lines(ls)),
        budget_lines(ls).len() == ls.len(),
        forall|i: int| 0 <= i < ls.len() ==> (#[trigger] budget_lines(ls)[i]).0 == ls[i].0,
        capped_tokens(trim_to_budget(ls)) <= 500 || forall|i: int|
            0 <= i < ls.len() ==> (#[trigger] budget_lines(ls)[i]).1.len() <= 1,
    decreases total_sigs(ls),
{
    if !(capped_tokens(render_lines(ls)) <= 500 || ls.len() == 0) {
        let m = last_max(ls, ls.len() as int);
        lemma_last_max(ls, ls.len() as int);
        if ls[m].1.len() > 1 {
            lemma_total_sigs_drop(ls, m);
            let u = ls.update(m, (ls[m].0, ls[m].1.drop_last()));
            lemma_budget_lines(u);
            assert forall|i: int| 0 <= i < ls.len() implies (#[trigger] budget_lines(ls)[i]).0 == ls[i].0 by {
                assert(budget_lines(u)[i].0 == u[i].0);
            }
        }
    }
}

/// The manifest fits the 500-token budget, unless every section has been
/// trimmed down to a single signature: signatures are only dropped while the
/// text is over budget, and sections keep their names and order.
pub proof fn law_manifest_fits_budget_or_is_minimal(ls: Seq<(Seq<char>, Seq<Seq<char>>)>)
    ensures
        trim_to_budget(ls) == render_lines(budget_lines(ls)),
        budget_lines(ls).len() == ls.len(),
        forall|i: int| 0 <= i < ls.len() ==> (#[trigger] budget_lines(ls)[i]).0 == ls[i].0,
        capped_tokens(trim_to_budget(ls)) <= 500 || forall|i: int|
            0 <= i < ls.len() ==> (#[trigger] budget_lines(ls)[i]).1.len() <= 1,
{
    lemma_budget_lines(ls);
}

/// The manifest text for `headings` and `signatures`.
pub open spec fn spec_manifest_text(hs: Seq<(Seq<char>, u8)>, sigs: Seq<(Seq<char>, Seq<char>)>) -> Seq<char> {
    let top = top_sections(hs, hs.len() as int);
    trim_to_budget(manifest_lines(top, sigs, top.len() as int))
}

pub open spec fn lows(v: Seq<Vec<char>>) -> Seq<Seq<char>> {
    v.map_values(|x: Vec<char>| x@)
}

fn contains_chars(v: &Vec<Vec<char>>, x: &Vec<char>) -> (b: bool)
    ensures
        b == lows(v@).contains(x@),
{
    let mut i: usize = 0;
    while i < v.len()
        invariant
            i <= v.len(),
            forall|j: int| 0 <= j < i ==> v@[j]@ != x@,
        decreases v.len() - i,
    {
        if crate::text::chars_eq(&v[i], x) {
            assert(lows(v@)[i as int] == x@);
            return true;
        }
        i = i + 1;
    }
    assert forall|j: int| 0 <= j < lows(v@).len() implies lows(v@)[j] != x@ by {
        assert(lows(v@)[j] == v@[j]@);
    }
    false
}

fn lower_chars(s: &Vec<char>) -> (r: Vec<char>)
    ensures
        r@ == lowercase(s@),
{
    let st = string_of(s);
    let l = to_lower(st.as_str());
    chars_of(l.as_str())
}

fn push_render_line(out: &mut Vec<char>, name: &Vec<char>, sigs: &Vec<Vec<char>>)
    ensures
        final(out)@ == old(out)@ + render_line((name@, lows(sigs@))),
{
    push_all(out, name);
    push_lit(out, ": ");
    let sep = chars_of(", ");
    let j = crate::text::join_chars(sigs, &sep);
    push_all(out, &j);
}

pub open spec fn lines_view(v: Seq<(Vec<char>, Vec<Vec<char>>)>) -> Seq<(Seq<char>, Seq<Seq<char>>)> {
    v.map_values(|l: (Vec<char>, Vec<Vec<char>>)| (l.0@, lows(l.1@)))
}

fn render_lines_exec(ls: &Vec<(Vec<char>, Vec<Vec<char>>)>) -> (r: Vec<char>)
    ensures
        r@ == render_lines(lines_view(ls@)),
{
    let ghost parts = lines_view(ls@).map_values(|l: (Seq<char>, Seq<Seq<char>>)| render_line(l));
    let mut out: Vec<char> = Vec::new();
    let mut i: usize = 0;
    while i < ls.len()
        invariant
            i <= ls.len(),
            parts == lines_view(ls@).map_values(|l: (Seq<char>, Seq<Seq<char>>)| render_line(l)),
            out@ == join(parts.take(i as int), "\n"@),
        decreases ls.len() - i,
    {
        proof {
            crate::text::lemma_join_push(parts.take(i as int), "\n"@, parts[i as int]);
            assert(parts.take(i + 1) =~= parts.take(i as int).push(parts[i as int]));
            assert(parts[i as int] == render_line((ls@[i as int].0@, lows(ls@[i as int].1@))));
        }
        if i > 0 {
            push_lit(&mut out, "\n");
        }
        push_render_line(&mut out, &ls[i].0, &ls[i].1);
        i = i + 1;
    }
    assert(parts.take(i as int) =~= parts);
    out
}

fn last_max_exec(ls: &Vec<(Vec<char>, Vec<Vec<char>>)>) -> (m: usize)
    requires
        ls.len() > 0,
    ensures
        m == last_max(lines_view(ls@), ls.len() as int),
        m < ls.len(),
{
    let ghost lv = lines_view(ls@);
    let mut m: usize = 0;
    let mut i: usize = 1;
    while i < ls.len()
        invariant
            1 <= i <= ls.len(),
            lv == lines_view(ls@),
            m < i,
            m == last_max(lv, i as int),
        decreases ls.len() - i,
    {
        assert(lv[i as int].1.len() == ls@[i as int].1.len());
        assert(lv[m as int].1.len() == ls@[m as int].1.len());
        if ls[i].1.len() >= ls[m].1.len() {
            m = i;
        }
        i = i + 1;
    }
    m
}

/// Builds the manifest text: one line `SECTION: sig, sig, …` for each
/// top-level section (level 1 or 2, distinct ignoring case, in order) that has
/// signatures; signatures go to the section whose title matches theirs
/// ignoring case, each distinct one once.  While the text exceeds 500 tokens,
/// the last signature of the (last) longest line is dropped, until that line
/// has one signature left.
pub fn build_manifest_text(headings: &Vec<HeadingEntry>, signatures: &Vec<ApiSignature>, counter: &TokenCounter) -> (r: String)
    ensures
        r@ == spec_manifest_text(entry_pairs(headings@), sig_pairs(signatures@)),
{
    let ghost hv = entry_pairs(headings@);
    let ghost sv = sig_pairs(signatures@);
    // Distinct top-level sections.
    let mut top: Vec<Vec<char>> = Vec::new();
    let mut top_low: Vec<Vec<char>> = Vec::new();
    let mut i: usize = 0;
    while i < headings.len()
        invariant
            i <= headings.len(),
            hv == entry_pairs(headings@),
            lows(top@) == top_sections(hv, i as int),
            top_low@.len() == top@.len(),
            lows(top_low@) == lows(top@).map_values(|x: Seq<char>| lowercase(x)),
        decreases headings.len() - i,
    {
        let ghost t0 = top@;
        let ghost l0 = top_low@;
        assert(hv[i as int] == (headings@[i as int].title@, headings@[i as int].level));
        if headings[i].level <= 2 {
            let tc = chars_of(headings[i].title.as_str());
            let lc = lower_chars(&tc);
            if !contains_chars(&top_low, &lc) {
                top.push(tc);
                top_low.push(lc);
                assert(lows(top@) =~= lows(t0).push(headings@[i as int].title@));
                assert(lows(top_low@) =~= lows(l0).push(lc@));
                assert(lows(top@).map_values(|x: Seq<char>| lowercase(x)) =~= lows(t0).map_values(
                    |x: Seq<char>| lowercase(x),
                ).push(lowercase(headings@[i as int].title@)));
            }
        }
        i = i + 1;
    }
    let ghost tv = lows(top@);
    // The section each signature goes to.
    let mut keys: Vec<Vec<char>> = Vec::new();
    let mut k: usize = 0;
    while k < signatures.len()
        invariant
            k <= signatures.len(),
            sv == sig_pairs(signatures@),
            tv == lows(top@),
            top_low@.len() == top@.len(),
            lows(top_low@) == tv.map_values(|x: Seq<char>| lowercase(x)),
            keys@.len() == k,
            forall|j: int| 0 <= j < k ==> #[trigger] keys@[j]@ == matched_section(tv, sv[j].0, 0),
        decreases signatures.len() - k,
    {
        let sc = chars_of(signatures[k].section.as_str());
        let sl = lower_chars(&sc);
        let mut j: usize = 0;
        proof {
            assert(top_low@.len() == lows(top_low@).len());
        }
        while j < top.len() && !crate::text::chars_eq(&top_low[j], &sl)
            invariant
                j <= top.len(),
                tv == lows(top@),
                top_low@.len() == top@.len(),
                lows(top_low@) == tv.map_values(|x: Seq<char>| lowercase(x)),
                sl@ == lowercase(sc@),
                matched_section(tv, sc@, 0) == matched_section(tv, sc@, j as int),
            decreases top.len() - j,
        {
            assert(lows(top_low@)[j as int] == top_low@[j as int]@);
            j = j + 1;
        }
        let key = if j < top.len() {
            assert(lows(top_low@)[j as int] == top_low@[j as int]@);
            assert(tv[j as int] == top@[j as int]@);
            crate::text::copy_chars(&top[j])
        } else {
            sc
        };
        assert(sv[k as int].0 == sc@);
        keys.push(key);
        k = k + 1;
    }
    // The lines.
    let mut ls: Vec<(Vec<char>, Vec<Vec<char>>)> = Vec::new();
    let mut t: usize = 0;
    while t < top.len()
        invariant
            t <= top.len(),
            sv == sig_pairs(signatures@),
            tv == lows(top@),
            keys@.len() == signatures.len(),
            forall|j: int| 0 <= j < keys@.len() ==> #[trigger] keys@[j]@ == matched_section(tv, sv[j].0, 0),
            lines_view(ls@) == manifest_lines(tv, sv, t as int),
        decreases top.len() - t,
    {
        let mut ss: Vec<Vec<char>> = Vec::new();
        let mut q: usize = 0;
        while q < signatures.len()
            invariant
                q <= signatures.len(),
                t < top.len(),
                sv == sig_pairs(signatures@),
                tv == lows(top@),
                keys@.len() == signatures.len(),
                forall|j: int| 0 <= j < keys@.len() ==> #[trigger] keys@[j]@ == matched_section(tv, sv[j].0, 0),
                lows(ss@) == sigs_for(tv, sv, tv[t as int], q as int),
            decreases signatures.len() - q,
        {
            let ghost s0 = ss@;
            let sg = chars_of(signatures[q].signature.as_str());
            assert(sv[q as int] == (signatures@[q as int].section@, signatures@[q as int].signature@));
            assert(keys@[q as int]@ == matched_section(tv, sv[q as int].0, 0));
            assert(tv[t as int] == top@[t as int]@);
            if crate::text::chars_eq(&keys[q], &top[t]) && sg.len() > 0 && !contains_chars(&ss, &sg) {
                ss.push(sg);
                assert(lows(ss@) =~= lows(s0).push(sv[q as int].1));
            }
            q = q + 1;
        }
        if ss.len() > 0 {
            let ghost l0 = ls@;
            let name = to_upper(string_of(&top[t]).as_str());
            let nc = chars_of(name.as_str());
            assert(tv[t as int] == top@[t as int]@);
            ls.push((nc, ss));
            assert(lines_view(ls@) =~= lines_view(l0).push((uppercase(tv[t as int]), sigs_for(tv, sv, tv[t as int], sv.len() as int))));
        }
        t = t + 1;
    }
    assert(tv == top_sections(hv, hv.len() as int));
    // Trim to the budget.
    loop
        invariant
            hv == entry_pairs(headings@),
            sv == sig_pairs(signatures@),
            trim_to_budget(lines_view(ls@)) == spec_manifest_text(hv, sv),
        decreases total_sigs(lines_view(ls@)),
    {
        let text = render_lines_exec(&ls);
        let st = string_of(&text);
        if counter.count(st.as_str()) <= 500 || ls.len() == 0 {
            return st;
        }
        let m = last_max_exec(&ls);
        assert(lines_view(ls@)[m as int].1.len() == ls@[m as int].1.len());
        if ls[m].1.len() <= 1 {
            return st;
        }
        let ghost l0 = lines_view(ls@);
        let ghost v0 = ls@;
        let (name, mut sigs) = ls.remove(m);
        let ghost s0 = sigs@;
        sigs.pop();
        assert(lows(sigs@) =~= lows(s0).drop_last());
        ls.insert(m, (name, sigs));
        proof {
            assert(ls@ =~= v0.update(m as int, (name, sigs)));
            assert(l0[m as int] == (v0[m as int].0@, lows(s0)));
            lemma_total_sigs_drop(l0, m as int);
            assert(lines_view(ls@) =~= l0.update(m as int, (l0[m as int].0, l0[m as int].1.drop_last())));
        }
    }
}

// ───────────────────────────── dates ─────────────────────────────

/// The proleptic Gregorian `(year, month, day)` of the day `days` after
/// 1970-01-01, by the civil-from-days algorithm (H. Hinnant).
pub open spec fn civil_from_days(days: int) -> (int, int, int) {
    let z = days + 719468;
    let era = z / 146097;
    let doe = z % 146097;
    let yoe = (doe - doe / 1460 + doe / 36524 - doe / 146096) / 365;
    let y = yoe + era * 400;
    let doy = doe - (365 * yoe + yoe / 4 - yoe / 100);
    let mp = (5 * doy + 2) / 153;
    let d = doy - (153 * mp + 2) / 5 + 1;
    let m = if mp < 10 {
        mp + 3
    } else {
        mp - 9
    };
    (if m <= 2 {
        y + 1
    } else {
        y
    }, m, d)
}

/// `(year, month, day, hour, minute, second)` of the Unix time `secs`, the
/// year as a `u32`.
pub open spec fn spec_epoch_to_utc(secs: u64) -> (u32, u32, u32, u32, u32, u32) {
    let c = civil_from_days((secs / 86400) as int);
    (c.0 as u32, c.1 as u32, c.2 as u32, ((secs / 3600) % 24) as u32, ((secs / 60) % 60) as u32, (secs % 60) as u32)
}

/// [`civil_from_days`] of `days`, a day count that some `u64` number of
/// seconds reaches.
#[verifier::spinoff_prover]
#[verifier::rlimit(40)]
fn civil_from_days_exec(days: u64) -> (r: (i64, i64, i64))
    requires
        days <= 0xffff_ffff_ffff_ffffu64 / 86400,
    ensures
        r.0 == civil_from_days(days as int).0,
        r.1 == civil_from_days(days as int).1,
        r.2 == civil_from_days(days as int).2,
{
    let z: i64 = days as i64 + 719468;
    let era: i64 = z / 146097;
    let doe: i64 = z % 146097;
    assert(0 <= doe < 146097);
    let yoe: i64 = (doe - doe / 1460 + doe / 36524 - doe / 146096) / 365;
    assert(0 <= yoe <= 400) by (nonlinear_arith)
        requires
            0 <= doe < 146097,
            yoe == (doe - doe / 1460 + doe / 36524 - doe / 146096) / 365,
    ;
    assert(0 <= era <= 0xffff_ffff_ffff_ffffu64 / 86400);
    let y: i64 = yoe + era * 400;
    let doy: i64 = doe - (365 * yoe + yoe / 4 - yoe / 100);
    let mp: i64 = (5 * doy + 2) / 153;
    let day: i64 = doy - (153 * mp + 2) / 5 + 1;
    let mon: i64 = if mp < 10 {
        mp + 3
    } else {
        mp - 9
    };
    let yr: i64 = if mon <= 2 {
        y + 1
    } else {
        y
    };
    (yr, mon, day)
}

/// Converts Unix epoch seconds to `(year, month, day, hour, minute,
/// second)` in UTC (proleptic Gregorian calendar).
pub fn epoch_to_utc(secs: u64) -> (r: (u32, u32, u32, u32, u32, u32))
    ensures
        r == spec_epoch_to_utc(secs),
{
    let sec = (secs % 60) as u32;
    let min = ((secs / 60) % 60) as u32;
    let hour = ((secs / 3600) % 24) as u32;
    let days = secs / 86400;
    assert(days <= 0xffff_ffff_ffff_ffffu64 / 86400);
    let (yr, mon, day) = civil_from_days_exec(days);
    (yr as u32, mon as u32, day as u32, hour, min, sec)
}

proof fn lemma_day_of_year_bounds(doe: u32)
    requires
        doe < 146097,
    ensures
        ({
            let yoe = (doe - doe / 1460 + doe / 36524 - doe / 146096) / 365;
            let doy = doe - (365 * yoe + yoe / 4 - yoe / 100);
            0 <= doy <= 365
        }),
{
    assert({
        let yoe = (doe - doe / 1460 + doe / 36524 - doe / 146096) / 365;
        let doy = doe - (365 * yoe + yoe / 4 - yoe / 100);
        0 <= doy <= 365
    }) by (bit_vector)
        requires
            doe < 146097,
    ;
}

proof fn lemma_month_day_bounds(doy: u32)
    requires
        doy <= 365,
    ensures
        ({
            let mp = (5 * doy + 2) / 153;
            let d = doy - (153 * mp + 2) / 5 + 1;
            mp <= 11 && 1 <= d <= 31
        }),
{
    assert({
        let mp = (5 * doy + 2) / 153;
        let d = doy - (153 * mp + 2) / 5 + 1;
        mp <= 11 && 1 <= d <= 31
    }) by (bit_vector)
        requires
            doy <= 365,
    ;
}

/// Every Unix time gives a well-formed UTC date-time: a month in 1..=12, a
/// day in 1..=31, an hour below 24, and a minute and second below 60.
pub proof fn law_utc_fields_in_range(secs: u64)
    ensures
        1 <= spec_epoch_to_utc(secs).1 <= 12,
        1 <= spec_epoch_to_utc(secs).2 <= 31,
        spec_epoch_to_utc(secs).3 < 24,
        spec_epoch_to_utc(secs).4 < 60,
        spec_epoch_to_utc(secs).5 < 60,
{
    let days = (secs / 86400) as int;
    let z = days + 719468;
    let doe = z % 146097;
    assert(0 <= doe < 146097);
    lemma_day_of_year_bounds(doe as u32);
    let yoe = (doe - doe / 1460 + doe / 36524 - doe / 146096) / 365;
    let doy = doe - (365 * yoe + yoe / 4 - yoe / 100);
    assert(0 <= doy <= 365);
    lemma_month_day_bounds(doy as u32);
}

/// The decimal digits of `n`.
pub open spec fn decimal(n: nat) -> Seq<char>
    decreases n,
{
    if n < 10 {
        seq![(('0' as u32) + n) as char]
    } else {
        decimal(n / 10).push((('0' as u32) + (n % 10)) as char)
    }
}

/// `n` in decimal, left-padded with zeros to at least `w` digits (`{n:0w}`).
pub open spec fn padded(n: nat, w: nat) -> Seq<char> {
    let d = decimal(n);
    if d.len() < w {
        Seq::new((w - d.len()) as nat, |i: int| '0') + d
    } else {
        d
    }
}

/// The ISO 8601 UTC text `YYYY-MM-DDTHH:MM:SSZ` of the Unix time `secs`.
pub open spec fn spec_iso8601(secs: u64) -> Seq<char> {
    let t = spec_epoch_to_utc(secs);
    padded(t.0 as nat, 4) + "-"@ + padded(t.1 as nat, 2) + "-"@ + padded(t.2 as nat, 2) + "T"@ + padded(
        t.3 as nat,
        2,
    ) + ":"@ + padded(t.4 as nat, 2) + ":"@ + padded(t.5 as nat, 2) + "Z"@
}

fn decimal_exec(n: u32) -> (r: Vec<char>)
    ensures
        r@ == decimal(n as nat),
    decreases n,
{
    let d = (48u8 + ((n % 10) as u8)) as char;
    if n < 10 {
        let mut r: Vec<char> = Vec::new();
        r.push(d);
        assert(r@ =~= decimal(n as nat));
        r
    } else {
        let mut r = decimal_exec(n / 10);
        r.push(d);
        r
    }
}

/// The decimal digits of `n`.
pub fn decimal_usize(n: usize) -> (r: Vec<char>)
    ensures
        r@ == decimal(n as nat),
    decreases n,
{
    let d = (48u8 + ((n % 10) as u8)) as char;
    if n < 10 {
        let mut r: Vec<char> = Vec::new();
        r.push(d);
        assert(r@ =~= decimal(n as nat));
        r
    } else {
        let mut r = decimal_usize(n / 10);
        r.push(d);
        r
    }
}

fn push_padded(out: &mut Vec<char>, n: u32, w: usize)
    requires
        w <= 4,
    ensures
        final(out)@ == old(out)@ + padded(n as nat, w as nat),
{
    let d = decimal_exec(n);
    let ghost o0 = out@;
    let mut k: usize = d.len();
    while k < w
        invariant
            d.len() <= k <= w || (w < d.len() && k == d.len()),
            out@ == o0 + Seq::new((k - d.len()) as nat, |i: int| '0'),
        decreases w - k,
    {
        out.push('0');
        assert(out@ =~= o0 + Seq::new((k + 1 - d.len()) as nat, |i: int| '0'));
        k = k + 1;
    }
    push_all(out, &d);
    proof {
        if d@.len() >= w {
            assert(Seq::new((k - d.len()) as nat, |i: int| '0') =~= seq![]);
        }
        assert(out@ =~= o0 + padded(n as nat, w as nat));
    }
}

/// Formats the Unix time `secs` as `YYYY-MM-DDTHH:MM:SSZ` (UTC).
pub fn iso8601(secs: u64) -> (r: String)
    ensures
        r@ == spec_iso8601(secs),
{
    let (y, mo, d, h, mi, s) = epoch_to_utc(secs);
    let mut out: Vec<char> = Vec::new();
    push_padded(&mut out, y, 4);
    push_lit(&mut out, "-");
    push_padded(&mut out, mo, 2);
    push_lit(&mut out, "-");
    push_padded(&mut out, d, 2);
    push_lit(&mut out, "T");
    push_padded(&mut out, h, 2);
    push_lit(&mut out, ":");
    push_padded(&mut out, mi, 2);
    push_lit(&mut out, ":");
    push_padded(&mut out, s, 2);
    push_lit(&mut out, "Z");
    string_of(&out)
}

} // verus!
