//! AsciiDoc parser.
//!
//! Line-based: `= Title` as the first non-blank line is the document
//! title, `== H2`, `=== H3`, … are section headings, and `[source,lang]`
//! followed by a `----` … `----` block is a code block.
use vstd::prelude::*;

use crate::text::{
    chars_of, copy_chars, eq_lit, first_index, has_prefix, is_blank, lemma_first_index, lines,
    push_all, slice_chars, split_lines, starts_with_lit, string_of, trim, trim_chars, join, trim_start,
};
use super::{
    lines_view, opt_chars, opt_string, opt_view, tree_add_block, tree_finish, tree_open, tree_start,
    BlockV, ContentBlock, DocV, ParsedDoc, TreeBuilder, TreeV,
};

verus! {

/// Parses AsciiDoc files.
pub struct AsciidocParser;

// ───────────────────────────── specification ─────────────────────────────

/// `s` without its leading `[` characters.
pub open spec fn trim_start_open_brackets(s: Seq<char>) -> Seq<char>
    decreases s.len(),
{
    if s.len() > 0 && s[0] == '[' {
        trim_start_open_brackets(s.drop_first())
    } else {
        s
    }
}

/// `s` without its trailing `]` characters.
pub open spec fn trim_end_close_brackets(s: Seq<char>) -> Seq<char>
    decreases s.len(),
{
    if s.len() > 0 && s.last() == ']' {
        trim_end_close_brackets(s.drop_last())
    } else {
        s
    }
}

/// The language of a `[source,lang]` line: the trimmed text between the
/// first and the second comma (or the end), when not empty.
pub open spec fn source_lang(line: Seq<char>) -> Option<Seq<char>> {
    let inner = trim_end_close_brackets(trim_start_open_brackets(line));
    let c1 = first_index(inner, ',') as int;
    if c1 >= inner.len() {
        None
    } else {
        let rest = inner.skip(c1 + 1);
        let lang = trim(rest.take(first_index(rest, ',') as int));
        if lang.len() == 0 {
            None
        } else {
            Some(lang)
        }
    }
}

/// `Some((level, title))` for a section heading line: a run of at least two
/// `=` up to the first space, then a non-empty (trimmed) title; the level is
/// the number of `=`.
pub open spec fn heading_of(line: Seq<char>) -> Option<(u8, Seq<char>)> {
    let sep = first_index(line, ' ');
    let eqs = line.take(sep as int);
    let title = trim(line.skip(sep as int));
    if !has_prefix(line, "=="@) {
        None
    } else if !(forall|j: int| 0 <= j < eqs.len() ==> #[trigger] eqs[j] == '=') || eqs.len() < 2 {
        None
    } else if title.len() == 0 {
        None
    } else {
        Some((eqs.len() as u8, title))
    }
}

pub struct AdocV {
    pub tree: TreeV,
    pub title: Option<Seq<char>>,
    pub para: Seq<char>,
    pub in_code: bool,
    pub lang: Option<Seq<char>>,
    pub code: Seq<char>,
    pub pending: Option<Seq<char>>,
    /// A non-blank line has been read.
    pub started: bool,
}

pub open spec fn adoc_start() -> AdocV {
    AdocV {
        tree: tree_start(),
        title: None,
        para: seq![],
        in_code: false,
        lang: None,
        code: seq![],
        pending: None,
        started: false,
    }
}

pub open spec fn adoc_flush(s: AdocV) -> AdocV {
    let t = trim(s.para);
    AdocV {
        para: seq![],
        tree: if t.len() > 0 {
            tree_add_block(s.tree, BlockV::Paragraph(t))
        } else {
            s.tree
        },
        ..s
    }
}

/// One line read: the document title is a `= Title` line only when it is
/// the first non-blank line.
pub open spec fn adoc_step(s: AdocV, line: Seq<char>) -> AdocV {
    AdocV { started: s.started || trim(line).len() > 0, ..adoc_line(s, line) }
}

pub open spec fn adoc_line(s: AdocV, line: Seq<char>) -> AdocV {
    if s.in_code {
        if line == "----"@ {
            if trim(s.code).len() > 0 {
                AdocV {
                    in_code: false,
                    code: seq![],
                    lang: None,
                    tree: tree_add_block(s.tree, BlockV::Code(s.lang, s.code)),
                    ..s
                }
            } else {
                AdocV { in_code: false, code: seq![], ..s }
            }
        } else {
            AdocV { code: s.code + line + seq!['\n'], ..s }
        }
    } else if !s.started && has_prefix(line, "= "@) {
        AdocV { title: Some(trim(line.skip(2))), ..s }
    } else if has_prefix(line, "[source"@) {
        AdocV { pending: source_lang(line), ..s }
    } else if line == "----"@ {
        let f = adoc_flush(s);
        AdocV { in_code: true, lang: s.pending, pending: None, code: seq![], ..f }
    } else if heading_of(line) is Some {
        let f = adoc_flush(s);
        let (level, title) = heading_of(line)->0;
        AdocV { pending: None, tree: tree_open(f.tree, level, title), ..f }
    } else if trim(line).len() == 0 {
        AdocV { pending: None, ..adoc_flush(s) }
    } else {
        AdocV {
            para: if s.para.len() > 0 {
                s.para + seq!['\n'] + line
            } else {
                line
            },
            ..s
        }
    }
}

pub open spec fn adoc_state(ls: Seq<Seq<char>>, k: int) -> AdocV
    decreases k,
{
    if k <= 0 {
        adoc_start()
    } else {
        adoc_step(adoc_state(ls, k - 1), ls[k - 1])
    }
}

/// The document: the tree (a code block still open at the end is dropped)
/// and, when the first non-blank line is a `= Title` line, its title.
pub open spec fn spec_parse_asciidoc(content: Seq<char>) -> DocV {
    let ls = lines(content);
    let s = adoc_state(ls, ls.len() as int);
    DocV { title: s.title, root: tree_finish(adoc_flush(s).tree) }
}

// ───────────────────────────── laws ─────────────────────────────

/// A line of running text: not blank, and neither a `[source…]` line, a
/// `----` delimiter nor a section heading.
pub open spec fn adoc_text_line(line: Seq<char>) -> bool {
    trim(line).len() > 0 && !has_prefix(line, "[source"@) && line != "----"@ && heading_of(line) is None
}

/// No line of a paragraph is lost: from a point outside a code block with no
/// paragraph collected yet (and past the first non-blank line), a run of text
/// lines `ls[a..b]` collects exactly those lines joined by `\n`, leaves the
/// tree as it was, and is added whole as one paragraph when flushed.
pub proof fn law_asciidoc_paragraph_joins_its_lines(ls: Seq<Seq<char>>, a: int, b: int)
    requires
        0 <= a <= b <= ls.len(),
        !adoc_state(ls, a).in_code,
        adoc_state(ls, a).started,
        adoc_state(ls, a).para.len() == 0,
        forall|k: int| a <= k < b ==> adoc_text_line(#[trigger] ls[k]),
    ensures
        adoc_state(ls, b).para == join(ls.subrange(a, b), "\n"@),
        adoc_state(ls, b).tree == adoc_state(ls, a).tree,
        !adoc_state(ls, b).in_code,
        adoc_state(ls, b).started,
        trim(join(ls.subrange(a, b), "\n"@)).len() > 0 ==> adoc_flush(adoc_state(ls, b)).tree == tree_add_block(
            adoc_state(ls, a).tree,
            BlockV::Paragraph(trim(join(ls.subrange(a, b), "\n"@))),
        ),
    decreases b - a,
{
    reveal_strlit("\n");
    assert("\n"@ =~= seq!['\n']);
    if b > a {
        law_asciidoc_paragraph_joins_its_lines(ls, a, b - 1);
        let s1 = adoc_state(ls, b - 1);
        let line = ls[b - 1];
        assert(adoc_text_line(line));
        assert(adoc_state(ls, b) == adoc_step(s1, line));
        assert(!s1.in_code && s1.started);
        let np = if s1.para.len() > 0 {
            s1.para + seq!['\n'] + line
        } else {
            line
        };
        assert(adoc_line(s1, line) == AdocV { para: np, ..s1 });
        assert(adoc_state(ls, b).para == np);
        let prev = ls.subrange(a, b - 1);
        assert(ls.subrange(a, b) =~= prev.push(line));
        crate::text::lemma_join_push(prev, "\n"@, line);
        if line.len() == 0 {
            assert(trim_start(line) =~= line);
            assert(trim(line).len() == 0);
        }
        if prev.len() > 0 {
            crate::text::lemma_join_push(prev.drop_last(), "\n"@, prev.last());
            assert(prev.drop_last().push(prev.last()) =~= prev);
            assert(adoc_text_line(ls[b - 2]));
            let pl = prev.last();
            if pl.len() == 0 {
                assert(trim_start(pl) =~= pl);
            }
            assert(join(prev, "\n"@).len() > 0);
        } else {
            assert(join(prev, "\n"@) =~= seq![]);
        }
    } else {
        assert(ls.subrange(a, b) =~= Seq::<Seq<char>>::empty());
        assert(adoc_state(ls, a).para =~= seq![]);
    }
}

// ───────────────────────────── implementation ─────────────────────────────

struct AdocState {
    tree: TreeBuilder,
    title: Option<Vec<char>>,
    para: Vec<char>,
    in_code: bool,
    lang: Option<Vec<char>>,
    code: Vec<char>,
    pending: Option<Vec<char>>,
    started: bool,
}

impl View for AdocState {
    type V = AdocV;

    closed spec fn view(&self) -> AdocV {
        AdocV {
            tree: self.tree@,
            title: opt_chars(self.title),
            para: self.para@,
            in_code: self.in_code,
            lang: opt_chars(self.lang),
            code: self.code@,
            pending: opt_chars(self.pending),
            started: self.started,
        }
    }
}

fn flush(s: &mut AdocState)
    ensures
        final(s)@ == adoc_flush(old(s)@),
{
    let t = trim_chars(&s.para);
    s.para = Vec::new();
    if t.len() > 0 {
        s.tree.add_block(ContentBlock::Paragraph(string_of(&t)));
    }
}

fn source_lang_exec(line: &Vec<char>) -> (r: Option<Vec<char>>)
    ensures
        opt_chars(r) == source_lang(line@),
{
    let mut a: usize = 0;
    assert(line@.skip(0) =~= line@);
    while a < line.len() && line[a] == '['
        invariant
            a <= line.len(),
            trim_start_open_brackets(line@.skip(a as int)) == trim_start_open_brackets(line@),
        decreases line.len() - a,
    {
        assert(line@.skip(a as int).drop_first() =~= line@.skip(a + 1));
        a = a + 1;
    }
    let mut b = line.len();
    assert(line@.skip(a as int).take(b - a) =~= line@.skip(a as int));
    while b > a && line[b - 1] == ']'
        invariant
            a <= b <= line.len(),
            trim_end_close_brackets(line@.subrange(a as int, b as int)) == trim_end_close_brackets(
                line@.skip(a as int),
            ),
        decreases b - a,
    {
        assert(line@.subrange(a as int, b as int).drop_last() =~= line@.subrange(a as int, b - 1));
        b = b - 1;
    }
    proof {
        assert(line@.skip(a as int) =~= line@.subrange(a as int, line.len() as int));
        assert(trim_start_open_brackets(line@.skip(a as int)) == line@.skip(a as int)) by {
            if a < line.len() {
                assert(line@.skip(a as int)[0] == line@[a as int]);
            }
        }
        let sub = line@.subrange(a as int, b as int);
        assert(trim_end_close_brackets(sub) == sub) by {
            if b > a {
                assert(sub.last() == line@[b - 1]);
            }
        }
    }
    let inner = slice_chars(line, a, b);
    let c1 = crate::text::find_char_from(&inner, 0, ',');
    assert(inner@.skip(0) =~= inner@);
    if c1 >= inner.len() {
        return None;
    }
    let c2 = crate::text::find_char_from(&inner, c1 + 1, ',');
    let part = slice_chars(&inner, c1 + 1, c2);
    proof {
        let rest = inner@.skip(c1 + 1);
        assert(rest.take(first_index(rest, ',') as int) =~= part@);
    }
    let lang = trim_chars(&part);
    if lang.len() == 0 {
        None
    } else {
        Some(lang)
    }
}

fn heading_exec(line: &Vec<char>) -> (r: Option<(u8, Vec<char>)>)
    ensures
        match r {
            None => heading_of(line@) is None,
            Some((l, t)) => heading_of(line@) == Some((l, t@)),
        },
{
    let sep = crate::text::find_char_from(line, 0, ' ');
    assert(line@.skip(0) =~= line@);
    if !starts_with_lit(line, "==") {
        return None;
    }
    let mut j: usize = 0;
    while j < sep
        invariant
            j <= sep <= line.len(),
            sep == first_index(line@, ' '),
            has_prefix(line@, "=="@),
            forall|k: int| 0 <= k < j ==> line@[k] == '=',
        decreases sep - j,
    {
        if line[j] != '=' {
            assert(line@.take(sep as int)[j as int] != '=');
            return None;
        }
        j = j + 1;
    }
    if sep < 2 {
        return None;
    }
    let rest = slice_chars(line, sep, line.len());
    let title = trim_chars(&rest);
    assert(rest@ =~= line@.skip(sep as int));
    if title.len() == 0 {
        return None;
    }
    Some((sep as u8, title))
}

fn step(s: &mut AdocState, line: &Vec<char>)
    ensures
        final(s)@ == adoc_step(old(s)@, line@),
{
    let nonblank = !is_blank(line);
    step_line(s, line);
    s.started = s.started || nonblank;
}

fn step_line(s: &mut AdocState, line: &Vec<char>)
    ensures
        final(s)@ == adoc_line(old(s)@, line@),
{
    let ghost s0 = s@;
    if s.in_code {
        if eq_lit(line, "----") {
            s.in_code = false;
            let mut code: Vec<char> = Vec::new();
            std::mem::swap(&mut code, &mut s.code);
            if !is_blank(&code) {
                let lang = s.lang.take();
                s.tree.add_block(ContentBlock::Code { lang: opt_string(lang), content: string_of(&code) });
            }
        } else {
            push_all(&mut s.code, line);
            s.code.push('\n');
            assert(s.code@ =~= s0.code + line@ + seq!['\n']);
        }
        return;
    }
    if !s.started && starts_with_lit(line, "= ") {
        proof {
            reveal_strlit("= ");
        }
        let rest = slice_chars(line, 2, line.len());
        assert(rest@ =~= line@.skip(2));
        s.title = Some(trim_chars(&rest));
        return;
    }
    if starts_with_lit(line, "[source") {
        s.pending = source_lang_exec(line);
        return;
    }
    if eq_lit(line, "----") {
        flush(s);
        s.in_code = true;
        s.lang = s.pending.take();
        s.code = Vec::new();
        return;
    }
    match heading_exec(line) {
        Some((level, title)) => {
            flush(s);
            s.pending = None;
            s.tree.open(level, string_of(&title));
            return;
        },
        None => {},
    }
    if is_blank(line) {
        flush(s);
        s.pending = None;
        return;
    }
    let ghost p0 = s.para@;
    if s.para.len() > 0 {
        s.para.push('\n');
    }
    push_all(&mut s.para, line);
    assert(p0.len() > 0 ==> s.para@ =~= p0 + seq!['\n'] + line@);
    assert(p0.len() == 0 ==> s.para@ =~= line@);
}

/// Parses AsciiDoc into a heading tree.
pub fn parse_asciidoc(content: &str) -> (r: ParsedDoc)
    ensures
        r@ == spec_parse_asciidoc(content@),
{
    let cs = chars_of(content);
    let ls = split_lines(&cs);
    let ghost lv = lines_view(ls@);
    assert(lv =~= lines(cs@));
    let mut s = AdocState {
        tree: TreeBuilder::new(),
        title: None,
        para: Vec::new(),
        in_code: false,
        lang: None,
        code: Vec::new(),
        pending: None,
        started: false,
    };
    proof {
        assert(s@.para =~= seq![]);
        assert(s@.code =~= seq![]);
    }
    let mut i: usize = 0;
    while i < ls.len()
        invariant
            i <= ls.len(),
            lv == lines_view(ls@),
            s@ == adoc_state(lv, i as int),
        decreases ls.len() - i,
    {
        assert(lv[i as int] == ls@[i as int]@);
        step(&mut s, &ls[i]);
        i = i + 1;
    }
    flush(&mut s);
    let title = opt_string(s.title);
    let root = s.tree.finish();
    ParsedDoc { title, root }
}

} // verus!
