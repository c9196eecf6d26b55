//! Markdown parser (also MDX, Quarto and R Markdown).
//!
//! `pulldown-cmark` turns the text into a stream of events; the library folds
//! that stream into a heading tree.  YAML frontmatter gives the document
//! title, MDX component tags are stripped from text, and table-of-contents
//! sections are dropped.
use vstd::prelude::*;

use pulldown_cmark::{CodeBlockKind, Event, HeadingLevel, Options, Parser as CmarkParser, Tag, TagEnd};

use crate::text::{
    lowercase, to_lower, find_seq, lemma_find_seq_found, lines, chars_of, copy_chars, first_index, find_char_from, has_prefix, is_ascii_alnum, is_ascii_alnum_char,
    is_ascii_upper, is_blank, push_all, string_of, trim, trim_chars, utf8_len,
};
use super::{
    opt_chars, opt_string, tree_add_block, tree_finish, tree_open, tree_start, BlockV, ContentBlock,
    HeadingNode, TreeBuilder, TreeV,
};

verus! {

/// Parses Markdown (and MDX/Quarto/R Markdown) files.
pub struct MarkdownParser;

// ───────────────────────────── the event stream ─────────────────────────────

/// A heading level as `pulldown-cmark` reports it.
#[derive(Clone, Copy, Debug, PartialEq, Eq, Structural)]
pub enum MdLevel {
    H1,
    H2,
    H3,
    H4,
    H5,
    H6,
}

/// The start of a block element (the kinds the tree builder tells apart).
#[derive(Debug)]
pub enum MdTag {
    Heading(MdLevel),
    Paragraph,
    /// A bullet or ordered list.
    List,
    Item,
    /// A code block: `Some(info string)` when fenced, `None` when indented.
    CodeBlock(Option<String>),
    Table,
    Other,
}

/// The end of a block element.
#[derive(Clone, Copy, Debug, PartialEq, Eq, Structural)]
pub enum MdTagEnd {
    Heading,
    Paragraph,
    List,
    CodeBlock,
    Table,
    Other,
}

/// One parser event.
#[derive(Debug)]
pub enum MdEvent {
    Start(MdTag),
    End(MdTagEnd),
    Text(String),
    /// Inline code.
    Code(String),
    /// A block of raw HTML.
    Html(String),
    /// Inline raw HTML (including MDX tags and `<T>`-style generics).
    InlineHtml(String),
    SoftBreak,
    HardBreak,
    Other,
}

pub enum MdTagV {
    Heading(MdLevel),
    Paragraph,
    List,
    Item,
    CodeBlock(Option<Seq<char>>),
    Table,
    Other,
}

pub enum MdEventV {
    Start(MdTagV),
    End(MdTagEnd),
    Text(Seq<char>),
    Code(Seq<char>),
    Html(Seq<char>),
    InlineHtml(Seq<char>),
    SoftBreak,
    HardBreak,
    Other,
}

impl View for MdTag {
    type V = MdTagV;

    open spec fn view(&self) -> MdTagV {
        match self {
            MdTag::Heading(l) => MdTagV::Heading(*l),
            MdTag::Paragraph => MdTagV::Paragraph,
            MdTag::List => MdTagV::List,
            MdTag::Item => MdTagV::Item,
            MdTag::CodeBlock(info) => MdTagV::CodeBlock(super::opt_view(*info)),
            MdTag::Table => MdTagV::Table,
            MdTag::Other => MdTagV::Other,
        }
    }
}

impl View for MdEvent {
    type V = MdEventV;

    open spec fn view(&self) -> MdEventV {
        match self {
            MdEvent::Start(t) => MdEventV::Start(t@),
            MdEvent::End(t) => MdEventV::End(*t),
            MdEvent::Text(s) => MdEventV::Text(s@),
            MdEvent::Code(s) => MdEventV::Code(s@),
            MdEvent::Html(s) => MdEventV::Html(s@),
            MdEvent::InlineHtml(s) => MdEventV::InlineHtml(s@),
            MdEvent::SoftBreak => MdEventV::SoftBreak,
            MdEvent::HardBreak => MdEventV::HardBreak,
            MdEvent::Other => MdEventV::Other,
        }
    }
}

pub open spec fn events_view(es: Seq<MdEvent>) -> Seq<MdEventV> {
    es.map_values(|e: MdEvent| e@)
}

/// The events `pulldown-cmark` yields for `content` with tables, footnotes,
/// strikethrough and task lists enabled.
pub uninterp spec fn markdown_events(content: Seq<char>) -> Seq<MdEventV>;

/// `pulldown_cmark::Event`, carried only into the conversions below.
#[verifier::external_type_specification]
#[verifier::external_body]
pub struct ExCmarkEvent<'a>(pulldown_cmark::Event<'a>);

/// `pulldown_cmark::Tag`, carried only into the conversions below.
#[verifier::external_type_specification]
#[verifier::external_body]
pub struct ExCmarkTag<'a>(pulldown_cmark::Tag<'a>);

/// `pulldown_cmark::TagEnd`, carried only into the conversions below.
#[verifier::external_type_specification]
#[verifier::external_body]
pub struct ExCmarkTagEnd(pulldown_cmark::TagEnd);

/// `pulldown_cmark::HeadingLevel`, carried only into the conversions below.
#[verifier::external_type_specification]
#[verifier::external_body]
pub struct ExCmarkHeadingLevel(pulldown_cmark::HeadingLevel);

/// `pulldown_cmark::Parser::new_ext` with tables, footnotes, strikethrough and
/// task lists enabled, every event converted to an [`MdEvent`].  Claimed: the
/// result is [`markdown_events`] of `content`; nothing is said of what those
/// events are.
#[verifier::external_body]
fn cmark_events(content: &str) -> (r: Vec<MdEvent>)
    ensures
        events_view(r@) == markdown_events(content@),
{
    let mut opts = Options::empty();
    opts.insert(Options::ENABLE_TABLES);
    opts.insert(Options::ENABLE_FOOTNOTES);
    opts.insert(Options::ENABLE_STRIKETHROUGH);
    opts.insert(Options::ENABLE_TASKLISTS);
    CmarkParser::new_ext(content, opts).map(md_event).collect()
}

/// Conversion of one `pulldown_cmark::Event` for [`cmark_events`]: one arm
/// per variant, the text moved over as a `String`.
#[verifier::external_body]
fn md_event(e: Event<'_>) -> MdEvent {
    match e {
        Event::Start(t) => MdEvent::Start(md_tag(t)),
        Event::End(t) => MdEvent::End(md_tag_end(t)),
        Event::Text(s) => MdEvent::Text(s.to_string()),
        Event::Code(s) => MdEvent::Code(s.to_string()),
        Event::Html(s) => MdEvent::Html(s.to_string()),
        Event::InlineHtml(s) => MdEvent::InlineHtml(s.to_string()),
        Event::SoftBreak => MdEvent::SoftBreak,
        Event::HardBreak => MdEvent::HardBreak,
        _ => MdEvent::Other,
    }
}

/// Conversion of one `pulldown_cmark::Tag` for [`md_event`].
#[verifier::external_body]
fn md_tag(t: Tag<'_>) -> MdTag {
    match t {
        Tag::Heading { level, .. } => MdTag::Heading(md_level(level)),
        Tag::Paragraph => MdTag::Paragraph,
        Tag::List(_) => MdTag::List,
        Tag::Item => MdTag::Item,
        Tag::CodeBlock(CodeBlockKind::Fenced(info)) => MdTag::CodeBlock(Some(info.to_string())),
        Tag::CodeBlock(CodeBlockKind::Indented) => MdTag::CodeBlock(None),
        Tag::Table(_) => MdTag::Table,
        _ => MdTag::Other,
    }
}

/// Conversion of one `pulldown_cmark::TagEnd` for [`md_event`].
#[verifier::external_body]
fn md_tag_end(t: TagEnd) -> MdTagEnd {
    match t {
        TagEnd::Heading(_) => MdTagEnd::Heading,
        TagEnd::Paragraph => MdTagEnd::Paragraph,
        TagEnd::List(_) => MdTagEnd::List,
        TagEnd::CodeBlock => MdTagEnd::CodeBlock,
        TagEnd::Table => MdTagEnd::Table,
        _ => MdTagEnd::Other,
    }
}

/// Conversion of one `pulldown_cmark::HeadingLevel` for [`md_tag`].
#[verifier::external_body]
fn md_level(l: HeadingLevel) -> MdLevel {
    match l {
        HeadingLevel::H1 => MdLevel::H1,
        HeadingLevel::H2 => MdLevel::H2,
        HeadingLevel::H3 => MdLevel::H3,
        HeadingLevel::H4 => MdLevel::H4,
        HeadingLevel::H5 => MdLevel::H5,
        HeadingLevel::H6 => MdLevel::H6,
    }
}

pub open spec fn level_num(l: MdLevel) -> u8 {
    match l {
        MdLevel::H1 => 1,
        MdLevel::H2 => 2,
        MdLevel::H3 => 3,
        MdLevel::H4 => 4,
        MdLevel::H5 => 5,
        MdLevel::H6 => 6,
    }
}

/// The numeric heading level, 1 to 6.
pub fn heading_level_to_u8(level: MdLevel) -> (r: u8)
    ensures
        r == level_num(level),
        1 <= r <= 6,
{
    match level {
        MdLevel::H1 => 1,
        MdLevel::H2 => 2,
        MdLevel::H3 => 3,
        MdLevel::H4 => 4,
        MdLevel::H5 => 5,
        MdLevel::H6 => 6,
    }
}

// ───────────────────────────── MDX tag stripping ─────────────────────────────

/// At `i` starts an MDX component tag: `<` or `</`, not an opening `<` glued
/// to an identifier character (`Vec<T>`), followed by a name of at least two
/// ASCII alphanumerics whose first is an uppercase letter.
pub open spec fn jsx_tag_start(s: Seq<char>, i: int) -> bool {
    let closing = i + 1 < s.len() && s[i + 1] == '/';
    let ns = if closing {
        i + 2
    } else {
        i + 1
    };
    let generic_open = !closing && i > 0 && (is_ascii_alnum(s[i - 1]) || s[i - 1] == '_');
    &&& 0 <= i < s.len()
    &&& s[i] == '<'
    &&& !generic_open
    &&& ns + 1 < s.len()
    &&& is_ascii_upper(s[ns])
    &&& is_ascii_alnum(s[ns + 1])
}

/// `s[i..]` with every MDX component tag (from its `<` through the next `>`)
/// removed; a tag start with no `>` after it is kept as text.
pub open spec fn strip_jsx_from(s: Seq<char>, i: int) -> Seq<char>
    decreases s.len() - i,
{
    if i < 0 || i >= s.len() {
        seq![]
    } else if jsx_tag_start(s, i) && first_index(s.skip(i), '>') < s.len() - i {
        strip_jsx_from(s, i + first_index(s.skip(i), '>') + 1)
    } else {
        seq![s[i]] + strip_jsx_from(s, i + 1)
    }
}

pub open spec fn spec_strip_jsx(s: Seq<char>) -> Seq<char> {
    strip_jsx_from(s, 0)
}

fn jsx_tag_start_exec(s: &Vec<char>, i: usize) -> (b: bool)
    requires
        i < s.len(),
    ensures
        b == jsx_tag_start(s@, i as int),
{
    if s[i] != '<' {
        return false;
    }
    let closing = i + 1 < s.len() && s[i + 1] == '/';
    let ns = if closing {
        i + 2
    } else {
        i + 1
    };
    if !closing && i > 0 && (is_ascii_alnum_char(s[i - 1]) || s[i - 1] == '_') {
        return false;
    }
    if ns >= s.len() || ns + 1 >= s.len() {
        return false;
    }
    ('A' <= s[ns] && s[ns] <= 'Z') && is_ascii_alnum_char(s[ns + 1])
}

/// Removes MDX JSX component tags such as `<AppOnly>`, `</AppOnly>` and
/// `<Callout type="info">`, keeping generic-type syntax (`Vec<String>`,
/// `Option<T>`, a bare `<T>`) that merely looks like a tag.
pub fn strip_jsx(text: &str) -> (r: String)
    ensures
        r@ == spec_strip_jsx(text@),
{
    let s = chars_of(text);
    let v = strip_jsx_chars(&s);
    string_of(&v)
}

fn strip_jsx_chars(s: &Vec<char>) -> (r: Vec<char>)
    ensures
        r@ == spec_strip_jsx(s@),
{
    let mut out: Vec<char> = Vec::new();
    let mut i: usize = 0;
    while i < s.len()
        invariant
            i <= s.len(),
            out@ + strip_jsx_from(s@, i as int) == spec_strip_jsx(s@),
        decreases s.len() - i,
    {
        if jsx_tag_start_exec(s, i) {
            let close = find_char_from(s, i, '>');
            if close < s.len() {
                assert(close - i == first_index(s@.skip(i as int), '>'));
                i = close + 1;
                continue;
            }
        }
        let ghost o0 = out@;
        out.push(s[i]);
        assert(out@ + strip_jsx_from(s@, i + 1) =~= o0 + strip_jsx_from(s@, i as int));
        i = i + 1;
    }
    assert(out@ + strip_jsx_from(s@, i as int) =~= out@);
    out
}

// ───────────────────────────── the tree builder ─────────────────────────────

/// Which block element the builder is inside.
#[derive(Clone, Copy, Debug, PartialEq, Eq, Structural)]
pub enum MdCtx {
    Idle,
    Heading,
    Paragraph,
    Code,
    Table,
    /// Inside a list: tight lists give text without a paragraph around it.
    List,
}

pub struct MdV {
    pub ctx: MdCtx,
    pub level: u8,
    pub heading: Seq<char>,
    pub para: Seq<char>,
    pub lang: Option<Seq<char>>,
    pub code: Seq<char>,
    pub table: Seq<char>,
    pub list: Seq<char>,
    pub depth: u32,
    pub tree: TreeV,
}

pub open spec fn md_start() -> MdV {
    MdV {
        ctx: MdCtx::Idle,
        level: 0,
        heading: seq![],
        para: seq![],
        lang: None,
        code: seq![],
        table: seq![],
        list: seq![],
        depth: 0,
        tree: tree_start(),
    }
}

/// Adds `text` (MDX tags stripped, trimmed) as a paragraph unless empty.
pub open spec fn add_text_block(t: TreeV, text: Seq<char>) -> TreeV {
    let p = spec_strip_jsx(trim(text));
    if p.len() > 0 {
        tree_add_block(t, BlockV::Paragraph(p))
    } else {
        t
    }
}

pub open spec fn md_flush_paragraph(s: MdV) -> MdV {
    MdV { ctx: MdCtx::Idle, para: seq![], tree: add_text_block(s.tree, s.para), ..s }
}

pub open spec fn md_flush_list(s: MdV) -> MdV {
    MdV { ctx: MdCtx::Idle, list: seq![], tree: add_text_block(s.tree, s.list), ..s }
}

/// Flushes the paragraph or list text being collected.
pub open spec fn md_flush_text(s: MdV) -> MdV {
    match s.ctx {
        MdCtx::Paragraph => md_flush_paragraph(s),
        MdCtx::List => md_flush_list(s),
        _ => MdV { ctx: MdCtx::Idle, ..s },
    }
}

/// The context after a code block or table: back in the list if inside one.
pub open spec fn after_block(depth: u32) -> MdCtx {
    if depth > 0 {
        MdCtx::List
    } else {
        MdCtx::Idle
    }
}

pub open spec fn fence_lang(info: Option<Seq<char>>) -> Option<Seq<char>> {
    match info {
        Some(l) => if trim(l).len() > 0 {
            Some(trim(l))
        } else {
            None
        },
        None => None,
    }
}

pub open spec fn md_add_text(s: MdV, t: Seq<char>) -> MdV {
    match s.ctx {
        MdCtx::Heading => MdV { heading: s.heading + t, ..s },
        MdCtx::Code => MdV { code: s.code + t, ..s },
        MdCtx::Table => MdV { table: s.table + t + seq![' '], ..s },
        MdCtx::Paragraph => MdV { para: s.para + t, ..s },
        MdCtx::List => MdV { list: s.list + t, ..s },
        MdCtx::Idle => s,
    }
}

/// One event folded into the builder state.
pub open spec fn md_step(s: MdV, e: MdEventV) -> MdV {
    match e {
        MdEventV::Start(MdTagV::Heading(l)) => {
            let f = md_flush_text(s);
            MdV { ctx: MdCtx::Heading, level: level_num(l), heading: seq![], ..f }
        },
        MdEventV::End(MdTagEnd::Heading) => MdV {
            tree: tree_open(s.tree, s.level, spec_strip_jsx(trim(s.heading))),
            ctx: MdCtx::Idle,
            heading: seq![],
            ..s
        },
        MdEventV::Start(MdTagV::Paragraph) => if s.ctx == MdCtx::Idle {
            MdV { ctx: MdCtx::Paragraph, para: seq![], ..s }
        } else {
            s
        },
        MdEventV::End(MdTagEnd::Paragraph) => if s.ctx == MdCtx::Paragraph {
            md_flush_paragraph(s)
        } else {
            s
        },
        MdEventV::Start(MdTagV::List) => {
            let f = if s.depth == 0 {
                MdV { ctx: MdCtx::List, list: seq![], ..md_flush_text(s) }
            } else {
                s
            };
            MdV { depth: if f.depth < u32::MAX { (f.depth + 1) as u32 } else { f.depth }, ..f }
        },
        MdEventV::Start(MdTagV::Item) => if s.ctx == MdCtx::List && s.list.len() > 0 {
            MdV { list: s.list.push('\n'), ..s }
        } else {
            s
        },
        MdEventV::End(MdTagEnd::List) => {
            let d: u32 = if s.depth > 0 { (s.depth - 1) as u32 } else { 0 };
            if d == 0 {
                md_flush_list(MdV { depth: d, ..s })
            } else {
                MdV { depth: d, ..s }
            }
        },
        MdEventV::Start(MdTagV::CodeBlock(info)) => {
            let f = md_flush_text(s);
            MdV { ctx: MdCtx::Code, lang: fence_lang(info), code: seq![], ..f }
        },
        MdEventV::End(MdTagEnd::CodeBlock) => if trim(s.code).len() > 0 {
            MdV {
                tree: tree_add_block(s.tree, BlockV::Code(s.lang, s.code)),
                lang: None,
                code: seq![],
                ctx: after_block(s.depth),
                ..s
            }
        } else {
            MdV { code: seq![], ctx: after_block(s.depth), ..s }
        },
        MdEventV::Start(MdTagV::Table) => {
            let f = md_flush_text(s);
            MdV { ctx: MdCtx::Table, table: seq![], ..f }
        },
        MdEventV::End(MdTagEnd::Table) => MdV {
            tree: if trim(s.table).len() > 0 {
                tree_add_block(s.tree, BlockV::Table(s.table))
            } else {
                s.tree
            },
            table: seq![],
            ctx: after_block(s.depth),
            ..s
        },
        MdEventV::Text(t) => md_add_text(s, t),
        MdEventV::Code(t) => md_add_text(s, t),
        MdEventV::Html(t) => md_add_text(s, t),
        MdEventV::InlineHtml(t) => md_add_text(s, t),
        MdEventV::SoftBreak => md_break(s),
        MdEventV::HardBreak => md_break(s),
        _ => s,
    }
}

pub open spec fn md_break(s: MdV) -> MdV {
    match s.ctx {
        MdCtx::Paragraph => MdV { para: s.para.push('\n'), ..s },
        MdCtx::List => MdV { list: s.list.push(' '), ..s },
        _ => s,
    }
}

pub open spec fn md_state(es: Seq<MdEventV>, k: int) -> MdV
    decreases k,
{
    if k <= 0 {
        md_start()
    } else {
        md_step(md_state(es, k - 1), es[k - 1])
    }
}

/// The heading tree built from an event stream: text still being collected
/// at the end is flushed, then every open heading is closed.
pub open spec fn md_tree(es: Seq<MdEventV>) -> super::HeadingV {
    tree_finish(md_flush_text(md_state(es, es.len() as int)).tree)
}

struct MdState {
    ctx: MdCtx,
    level: u8,
    heading: Vec<char>,
    para: Vec<char>,
    lang: Option<Vec<char>>,
    code: Vec<char>,
    table: Vec<char>,
    list: Vec<char>,
    depth: u32,
    tree: TreeBuilder,
}

impl View for MdState {
    type V = MdV;

    closed spec fn view(&self) -> MdV {
        MdV {
            ctx: self.ctx,
            level: self.level,
            heading: self.heading@,
            para: self.para@,
            lang: opt_chars(self.lang),
            code: self.code@,
            table: self.table@,
            list: self.list@,
            depth: self.depth,
            tree: self.tree@,
        }
    }
}

fn add_text_block_exec(tree: &mut TreeBuilder, text: &Vec<char>)
    ensures
        final(tree)@ == add_text_block(old(tree)@, text@),
{
    let t = trim_chars(text);
    let p = strip_jsx_chars(&t);
    if p.len() > 0 {
        tree.add_block(ContentBlock::Paragraph(string_of(&p)));
    }
}

fn flush_paragraph(s: &mut MdState)
    ensures
        final(s)@ == md_flush_paragraph(old(s)@),
{
    s.ctx = MdCtx::Idle;
    let mut text: Vec<char> = Vec::new();
    std::mem::swap(&mut text, &mut s.para);
    add_text_block_exec(&mut s.tree, &text);
}

fn flush_list(s: &mut MdState)
    ensures
        final(s)@ == md_flush_list(old(s)@),
{
    s.ctx = MdCtx::Idle;
    let mut text: Vec<char> = Vec::new();
    std::mem::swap(&mut text, &mut s.list);
    add_text_block_exec(&mut s.tree, &text);
}

fn flush_text(s: &mut MdState)
    ensures
        final(s)@ == md_flush_text(old(s)@),
{
    match s.ctx {
        MdCtx::Paragraph => flush_paragraph(s),
        MdCtx::List => flush_list(s),
        _ => s.ctx = MdCtx::Idle,
    }
}

fn add_text(s: &mut MdState, t: &String)
    ensures
        final(s)@ == md_add_text(old(s)@, t@),
{
    let cs = chars_of(t.as_str());
    match s.ctx {
        MdCtx::Heading => push_all(&mut s.heading, &cs),
        MdCtx::Code => push_all(&mut s.code, &cs),
        MdCtx::Table => {
            push_all(&mut s.table, &cs);
            s.table.push(' ');
        },
        MdCtx::Paragraph => push_all(&mut s.para, &cs),
        MdCtx::List => push_all(&mut s.list, &cs),
        MdCtx::Idle => {},
    }
    proof {
        assert(final(s)@ =~= md_add_text(old(s)@, t@)) by {
            assert(final(s)@.heading =~= md_add_text(old(s)@, t@).heading);
            assert(final(s)@.table =~= md_add_text(old(s)@, t@).table);
        }
    }
}

fn add_break(s: &mut MdState)
    ensures
        final(s)@ == md_break(old(s)@),
{
    match s.ctx {
        MdCtx::Paragraph => s.para.push('\n'),
        MdCtx::List => s.list.push(' '),
        _ => {},
    }
}

fn step(s: &mut MdState, e: &MdEvent)
    ensures
        final(s)@ == md_step(old(s)@, e@),
{
    match e {
        MdEvent::Start(MdTag::Heading(l)) => {
            flush_text(s);
            s.ctx = MdCtx::Heading;
            s.level = heading_level_to_u8(*l);
            s.heading = Vec::new();
        },
        MdEvent::End(MdTagEnd::Heading) => {
            let t = trim_chars(&s.heading);
            let title = strip_jsx_chars(&t);
            s.tree.open(s.level, string_of(&title));
            s.ctx = MdCtx::Idle;
            s.heading = Vec::new();
        },
        MdEvent::Start(MdTag::Paragraph) => {
            if s.ctx == MdCtx::Idle {
                s.ctx = MdCtx::Paragraph;
                s.para = Vec::new();
            }
        },
        MdEvent::End(MdTagEnd::Paragraph) => {
            if s.ctx == MdCtx::Paragraph {
                flush_paragraph(s);
            }
        },
        MdEvent::Start(MdTag::List) => {
            if s.depth == 0 {
                flush_text(s);
                s.ctx = MdCtx::List;
                s.list = Vec::new();
            }
            s.depth = s.depth.saturating_add(1);
        },
        MdEvent::Start(MdTag::Item) => {
            if s.ctx == MdCtx::List && s.list.len() > 0 {
                s.list.push('\n');
            }
        },
        MdEvent::End(MdTagEnd::List) => {
            s.depth = s.depth.saturating_sub(1);
            if s.depth == 0 {
                flush_list(s);
            }
        },
        MdEvent::Start(MdTag::CodeBlock(info)) => {
            flush_text(s);
            s.ctx = MdCtx::Code;
            s.lang = match info {
                Some(l) => {
                    let lc = chars_of(l.as_str());
                    let t = trim_chars(&lc);
                    if t.len() > 0 {
                        Some(t)
                    } else {
                        None
                    }
                },
                None => None,
            };
            s.code = Vec::new();
        },
        MdEvent::End(MdTagEnd::CodeBlock) => {
            let mut content: Vec<char> = Vec::new();
            std::mem::swap(&mut content, &mut s.code);
            if !is_blank(&content) {
                let lang = s.lang.take();
                s.tree.add_block(ContentBlock::Code { lang: opt_string(lang), content: string_of(&content) });
            }
            s.ctx = if s.depth > 0 {
                MdCtx::List
            } else {
                MdCtx::Idle
            };
        },
        MdEvent::Start(MdTag::Table) => {
            flush_text(s);
            s.ctx = MdCtx::Table;
            s.table = Vec::new();
        },
        MdEvent::End(MdTagEnd::Table) => {
            let mut content: Vec<char> = Vec::new();
            std::mem::swap(&mut content, &mut s.table);
            if !is_blank(&content) {
                s.tree.add_block(ContentBlock::Table(string_of(&content)));
            }
            s.ctx = if s.depth > 0 {
                MdCtx::List
            } else {
                MdCtx::Idle
            };
        },
        MdEvent::Text(t) => add_text(s, t),
        MdEvent::Code(t) => add_text(s, t),
        MdEvent::Html(t) => add_text(s, t),
        MdEvent::InlineHtml(t) => add_text(s, t),
        MdEvent::SoftBreak => add_break(s),
        MdEvent::HardBreak => add_break(s),
        _ => {},
    }
    proof {
        assert(final(s)@ =~= md_step(old(s)@, e@)) by {
            assert(final(s)@.heading =~= md_step(old(s)@, e@).heading);
        }
    }
}

/// Folds an event stream into a heading tree.
pub fn tree_from_events(events: &Vec<MdEvent>) -> (r: HeadingNode)
    ensures
        r@ == md_tree(events_view(events@)),
{
    let ghost ev = events_view(events@);
    let mut s = MdState {
        ctx: MdCtx::Idle,
        level: 0,
        heading: Vec::new(),
        para: Vec::new(),
        lang: None,
        code: Vec::new(),
        table: Vec::new(),
        list: Vec::new(),
        depth: 0,
        tree: TreeBuilder::new(),
    };
    proof {
        assert(s@ =~= md_start());
    }
    let mut i: usize = 0;
    while i < events.len()
        invariant
            i <= events.len(),
            ev == events_view(events@),
            s@ == md_state(ev, i as int),
        decreases events.len() - i,
    {
        step(&mut s, &events[i]);
        i = i + 1;
    }
    flush_text(&mut s);
    s.tree.finish()
}

/// The heading tree of Markdown `content` (without frontmatter handling or
/// table-of-contents removal).
pub fn build_tree(content: &str) -> (r: HeadingNode)
    ensures
        r@ == md_tree(markdown_events(content@)),
{
    let events = cmark_events(content);
    tree_from_events(&events)
}

// ───────────────────────────── frontmatter ─────────────────────────────

/// `s` without its leading run of `c`.
pub open spec fn trim_start_char(s: Seq<char>, c: char) -> Seq<char>
    decreases s.len(),
{
    if s.len() > 0 && s[0] == c {
        trim_start_char(s.drop_first(), c)
    } else {
        s
    }
}

/// `s` without its trailing run of `c`.
pub open spec fn trim_end_char(s: Seq<char>, c: char) -> Seq<char>
    decreases s.len(),
{
    if s.len() > 0 && s.last() == c {
        trim_end_char(s.drop_last(), c)
    } else {
        s
    }
}

/// `str::trim_matches(c)`.
pub open spec fn trim_matches(s: Seq<char>, c: char) -> Seq<char> {
    trim_end_char(trim_start_char(s, c), c)
}

/// The value of a `title:` line of the frontmatter, quotes removed.
pub open spec fn title_of_line(line: Seq<char>) -> Option<Seq<char>> {
    let t = trim(line);
    if has_prefix(t, "title:"@) {
        let v = trim_matches(trim_matches(trim(t.skip(6)), '"'), '\'');
        if v.len() > 0 {
            Some(v)
        } else {
            None
        }
    } else {
        None
    }
}

/// The first title found among `ls[k..]`.
pub open spec fn title_from(ls: Seq<Seq<char>>, k: int) -> Option<Seq<char>>
    decreases ls.len() - k,
{
    if k < 0 || k >= ls.len() {
        None
    } else {
        match title_of_line(ls[k]) {
            Some(v) => Some(v),
            None => title_from(ls, k + 1),
        }
    }
}

/// Where the frontmatter that `after` (the text past the opening `---`)
/// holds ends: the first `\n---\n`, else the first `\n---\r\n`.
pub open spec fn fm_close(after: Seq<char>) -> Option<int> {
    match find_seq(after, "\n---\n"@, 0) {
        Some(c) => Some(c),
        None => find_seq(after, "\n---\r\n"@, 0),
    }
}

/// The frontmatter's title and the text after the frontmatter.  Without a
/// complete frontmatter block the title is `None` and the text is unchanged.
pub open spec fn spec_frontmatter(s: Seq<char>) -> (Option<Seq<char>>, Seq<char>) {
    if !has_prefix(s, "---\n"@) && !has_prefix(s, "---\r\n"@) {
        (None, s)
    } else {
        let after = s.skip(4);
        match fm_close(after) {
            None => (None, s),
            Some(c) => {
                let adv: int = if has_prefix(after.skip(c), "\n---\r\n"@) {
                    6
                } else {
                    5
                };
                let rest = if 4 + c + adv <= s.len() {
                    s.skip(4 + c + adv)
                } else {
                    seq![]
                };
                (title_from(lines(after.take(c)), 0), rest)
            },
        }
    }
}

proof fn lemma_trim_start_char(s: Seq<char>, c: char, k: int)
    requires
        0 <= k <= s.len(),
        forall|j: int| 0 <= j < k ==> s[j] == c,
        k < s.len() ==> s[k] != c,
    ensures
        trim_start_char(s, c) == s.skip(k),
    decreases s.len(),
{
    if k > 0 {
        lemma_trim_start_char(s.drop_first(), c, k - 1);
        assert(s.drop_first().skip(k - 1) =~= s.skip(k));
    } else {
        assert(s.skip(0) =~= s);
    }
}

proof fn lemma_trim_end_char(s: Seq<char>, c: char, k: int)
    requires
        0 <= k <= s.len(),
        forall|j: int| k <= j < s.len() ==> s[j] == c,
        k > 0 ==> s[k - 1] != c,
    ensures
        trim_end_char(s, c) == s.take(k),
    decreases s.len(),
{
    if k < s.len() {
        lemma_trim_end_char(s.drop_last(), c, k);
        assert(s.drop_last().take(k) =~= s.take(k));
    } else {
        assert(s.take(k) =~= s);
    }
}

fn trim_matches_exec(s: &Vec<char>, c: char) -> (r: Vec<char>)
    ensures
        r@ == trim_matches(s@, c),
{
    let mut a: usize = 0;
    while a < s.len() && s[a] == c
        invariant
            a <= s.len(),
            forall|j: int| 0 <= j < a ==> s@[j] == c,
        decreases s.len() - a,
    {
        a = a + 1;
    }
    proof {
        lemma_trim_start_char(s@, c, a as int);
    }
    let mut b = s.len();
    while b > a && s[b - 1] == c
        invariant
            a <= b <= s.len(),
            forall|j: int| b <= j < s.len() ==> s@[j] == c,
        decreases b - a,
    {
        b = b - 1;
    }
    proof {
        let u = s@.skip(a as int);
        lemma_trim_end_char(u, c, b - a);
        assert(u.take(b - a) =~= s@.subrange(a as int, b as int));
    }
    crate::text::slice_chars(s, a, b)
}

fn title_of_line_exec(line: &Vec<char>) -> (r: Option<Vec<char>>)
    ensures
        opt_chars(r) == title_of_line(line@),
{
    let t = trim_chars(line);
    if !crate::text::starts_with_lit(&t, "title:") {
        return None;
    }
    proof {
        reveal_strlit("title:");
    }
    let rest = crate::text::slice_chars(&t, 6, t.len());
    assert(rest@ =~= t@.skip(6));
    let v0 = trim_chars(&rest);
    let v1 = trim_matches_exec(&v0, '"');
    let v = trim_matches_exec(&v1, '\'');
    if v.len() > 0 {
        Some(v)
    } else {
        None
    }
}

/// Splits off YAML frontmatter: returns its `title:` value (if any) and the
/// text after it.
fn frontmatter_exec(s: &Vec<char>) -> (r: (Option<Vec<char>>, Vec<char>))
    ensures
        (opt_chars(r.0), r.1@) == spec_frontmatter(s@),
{
    proof {
        reveal_strlit("---\n");
        reveal_strlit("---\r\n");
        reveal_strlit("\n---\n");
        reveal_strlit("\n---\r\n");
    }
    if !crate::text::starts_with_lit(s, "---\n") && !crate::text::starts_with_lit(s, "---\r\n") {
        return (None, copy_chars(s));
    }
    let after = crate::text::slice_chars(s, 4, s.len());
    assert(after@ =~= s@.skip(4));
    let pat1 = chars_of("\n---\n");
    let pat2 = chars_of("\n---\r\n");
    let close = match crate::text::find_seq_from(&after, &pat1, 0) {
        Some(c) => Some(c),
        None => crate::text::find_seq_from(&after, &pat2, 0),
    };
    match close {
        None => (None, copy_chars(s)),
        Some(c) => {
            proof {
                lemma_find_seq_found(after@, pat1@, 0);
                lemma_find_seq_found(after@, pat2@, 0);
            }
            let tail = crate::text::slice_chars(&after, c, after.len());
            assert(tail@ =~= after@.skip(c as int));
            let adv: usize = if crate::text::starts_with(&tail, &pat2) {
                6
            } else {
                5
            };
            let rest = if 4 + c + adv <= s.len() {
                crate::text::slice_chars(s, 4 + c + adv, s.len())
            } else {
                Vec::new()
            };
            assert(4 + c + adv <= s.len() ==> rest@ =~= s@.skip(4 + c + adv));
            assert(4 + c + adv > s.len() ==> rest@ =~= seq![]);
            let yaml = crate::text::slice_chars(&after, 0, c);
            assert(yaml@ =~= after@.take(c as int));
            let ls = crate::text::split_lines(&yaml);
            let ghost lv = lines(yaml@);
            assert(spec_frontmatter(s@) == (title_from(lv, 0), rest@));
            let mut k: usize = 0;
            while k < ls.len()
                invariant
                    k <= ls.len(),
                    ls@.len() == lv.len(),
                    lv == lines(yaml@),
                    forall|i: int| 0 <= i < ls@.len() ==> #[trigger] ls@[i]@ == lv[i],
                    title_from(lv, 0) == title_from(lv, k as int),
                    spec_frontmatter(s@) == (title_from(lv, 0), rest@),
                decreases ls.len() - k,
            {
                match title_of_line_exec(&ls[k]) {
                    Some(v) => {
                        return (Some(v), rest);
                    },
                    None => {},
                }
                k = k + 1;
            }
            (None, rest)
        },
    }
}

// ───────────────────────────── table-of-contents removal ─────────────────────────────

/// Headings whose lower-cased title marks a table of contents.
pub open spec fn toc_title(t: Seq<char>) -> bool {
    t == "table of contents"@ || t == "contents"@ || t == "toc"@ || t == "on this page"@ || t
        == "in this article"@
}

/// The texts of the paragraph blocks among `bs`, in order.
pub open spec fn para_texts(bs: Seq<BlockV>) -> Seq<Seq<char>>
    decreases bs.len(),
{
    if bs.len() == 0 {
        seq![]
    } else {
        let r = para_texts(bs.drop_last());
        match bs.last() {
            BlockV::Paragraph(p) => r.push(p),
            _ => r,
        }
    }
}

/// Bytes (UTF-8) of `s[from..]` that belong to Markdown links `[text](url)`:
/// from each `[`, through the next `](`, through the next `)`.
pub open spec fn link_bytes(s: Seq<char>, from: int) -> nat
    decreases s.len() - from,
{
    if from < 0 || from >= s.len() {
        0
    } else {
        let o = from + first_index(s.skip(from), '[');
        if o >= s.len() {
            0
        } else {
            match find_seq(s, "]("@, o + 1) {
                None => 0,
                Some(c) => {
                    proof {
                        lemma_find_seq_found(s, "]("@, o + 1);
                    }
                    if c + 2 > s.len() {
                        0
                    } else {
                        let p = c + 2 + first_index(s.skip(c + 2), ')');
                        if p >= s.len() {
                            0
                        } else {
                            utf8_len(s.subrange(o, p + 1)) + link_bytes(s, p + 1)
                        }
                    }
                },
            }
        }
    }
}

/// A table-of-contents section: its lower-cased title is a known ToC title,
/// or more than 60% of the bytes of its paragraphs (joined by newlines) are
/// Markdown link syntax.
pub open spec fn is_toc(h: super::HeadingV) -> bool {
    let all = crate::text::join(para_texts(h.blocks), "\n"@);
    toc_title(lowercase(h.title)) || (all.len() > 0 && 5 * link_bytes(all, 0) > 3 * utf8_len(all))
}

/// `h` with every table-of-contents child removed, at every depth.
pub open spec fn strip_toc_v(h: super::HeadingV) -> super::HeadingV
    decreases h,
{
    super::HeadingV { children: strip_toc_children(h.children, h.children.len() as int), ..h }
}

pub open spec fn strip_toc_children(cs: Seq<super::HeadingV>, k: int) -> Seq<super::HeadingV>
    decreases cs, k,
{
    if k <= 0 || k > cs.len() {
        seq![]
    } else {
        let r = strip_toc_children(cs, k - 1);
        if is_toc(cs[k - 1]) {
            r
        } else {
            r.push(strip_toc_v(cs[k - 1]))
        }
    }
}

fn link_bytes_exec(s: &Vec<char>) -> (n: u128)
    ensures
        n == link_bytes(s@, 0),
        n <= 4 * s.len(),
{
    proof {
        reveal_strlit("](");
    }
    let pat = chars_of("](");
    let mut total: u128 = 0;
    let mut from: usize = 0;
    while from < s.len()
        invariant
            from <= s.len(),
            pat@ == "]("@,
            pat@.len() == 2,
            total + link_bytes(s@, from as int) == link_bytes(s@, 0),
            total <= 4 * from,
        ensures
            total == link_bytes(s@, 0),
            total <= 4 * s.len(),
        decreases s.len() - from,
    {
        let o = find_char_from(s, from, '[');
        if o >= s.len() {
            break;
        }
        let c = match crate::text::find_seq_from(s, &pat, o + 1) {
            Some(c) => c,
            None => {
                break;
            },
        };
        proof {
            lemma_find_seq_found(s@, pat@, o + 1);
        }
        let p = find_char_from(s, c + 2, ')');
        if p >= s.len() {
            break;
        }
        let seg = crate::text::slice_chars(s, o, p + 1);
        let w = crate::text::utf8_len_wide(&seg);
        proof {
            crate::text::lemma_utf8_len_le4(seg@);
        }
        total = total + w;
        from = p + 1;
    }
    total
}

fn is_toc_node(node: &HeadingNode) -> (b: bool)
    ensures
        b == is_toc(node@),
{
    let lower = to_lower(node.title.as_str());
    let lc = chars_of(lower.as_str());
    let by_title = crate::text::eq_lit(&lc, "table of contents") || crate::text::eq_lit(&lc, "contents")
        || crate::text::eq_lit(&lc, "toc") || crate::text::eq_lit(&lc, "on this page")
        || crate::text::eq_lit(&lc, "in this article");
    let mut parts: Vec<Vec<char>> = Vec::new();
    let ghost bv = super::blocks_view(node.blocks@);
    let mut i: usize = 0;
    while i < node.blocks.len()
        invariant
            i <= node.blocks.len(),
            bv == super::blocks_view(node.blocks@),
            parts@.map_values(|p: Vec<char>| p@) == para_texts(bv.take(i as int)),
        decreases node.blocks.len() - i,
    {
        let ghost before = parts@;
        assert(bv.take(i + 1).drop_last() =~= bv.take(i as int));
        match &node.blocks[i] {
            ContentBlock::Paragraph(p) => {
                parts.push(chars_of(p.as_str()));
                assert(parts@.map_values(|p: Vec<char>| p@) =~= before.map_values(|p: Vec<char>| p@).push(
                    parts@[i as int - i as int + before.len()]@,
                ));
            },
            _ => {},
        }
        i = i + 1;
    }
    assert(bv.take(i as int) =~= bv);
    let nl = chars_of("\n");
    let all = crate::text::join_chars(&parts, &nl);
    if by_title {
        return true;
    }
    if all.len() == 0 {
        return false;
    }
    let link = link_bytes_exec(&all);
    let total = crate::text::utf8_len_wide(&all);
    proof {
        crate::text::lemma_utf8_len_le4(all@);
    }
    5 * link > 3 * total
}

/// Removes table-of-contents headings (and their subtrees) below `root`, at
/// every depth.
#[verifier::loop_isolation(false)]
pub fn strip_toc(root: HeadingNode) -> (r: HeadingNode)
    ensures
        r@ == strip_toc_v(root@),
    decreases root,
{
    let ghost r0 = root;
    let HeadingNode { level, title, blocks, children } = root;
    let mut rest = children;
    let n = rest.len();
    let mut kept: Vec<HeadingNode> = Vec::new();
    let ghost cv = r0@.children;
    let mut k: usize = 0;
    while k < n
        invariant
            k <= n == r0.children@.len(),
            cv == r0@.children,
            cv.len() == n,
            rest@ == r0.children@.skip(k as int),
            super::headings_view(kept@) == strip_toc_children(cv, k as int),
        decreases n - k,
    {
        let c = rest.remove(0);
        assert(c == r0.children@[k as int]);
        assert(decreases_to!(r0 => r0.children));
        assert(decreases_to!(r0.children => r0.children@));
        assert(decreases_to!(r0.children@ => r0.children@[k as int]));
        assert(decreases_to!(r0 => c));
        assert(cv[k as int] == c@);
        assert(rest@ =~= r0.children@.skip(k + 1));
        if !is_toc_node(&c) {
            let ghost before = kept@;
            let s = strip_toc(c);
            kept.push(s);
            assert(super::headings_view(kept@) =~= super::headings_view(before).push(s@));
        }
        k = k + 1;
    }
    let r = HeadingNode { level, title, blocks, children: kept };
    proof {
        assert(r@.children =~= strip_toc_children(cv, n as int));
        assert(r@.blocks =~= r0@.blocks);
    }
    r
}

// ───────────────────────────── the parser ─────────────────────────────

/// The parsed document: the frontmatter title, and the tree of the text after
/// the frontmatter with table-of-contents sections removed.
pub open spec fn spec_parse_markdown(content: Seq<char>) -> super::DocV {
    let fm = spec_frontmatter(content);
    super::DocV { title: fm.0, root: strip_toc_v(md_tree(markdown_events(fm.1))) }
}

/// Parses a Markdown string into a [`super::ParsedDoc`].
pub fn parse_markdown(content: &str) -> (r: super::ParsedDoc)
    ensures
        r@ == spec_parse_markdown(content@),
{
    let cs = chars_of(content);
    let (title, rest) = frontmatter_exec(&cs);
    let body = string_of(&rest);
    let root = build_tree(body.as_str());
    let root = strip_toc(root);
    super::ParsedDoc { title: opt_string(title), root }
}

// ───────────────────────────── laws ─────────────────────────────

/// Every heading end in `es` follows some heading start, as in the streams
/// of a Markdown parser.
pub open spec fn headings_open_before_close(es: Seq<MdEventV>) -> bool {
    forall|k: int| 0 <= k < es.len() && #[trigger] es[k] == MdEventV::End(MdTagEnd::Heading) ==> exists|j: int|
        0 <= j < k && (#[trigger] es[j]) is Start && es[j]->Start_0 is Heading
}

pub open spec fn heading_started(es: Seq<MdEventV>, k: int) -> bool {
    exists|j: int| 0 <= j < k && (#[trigger] es[j]) is Start && es[j]->Start_0 is Heading
}

proof fn lemma_add_text_block_nested(t: TreeV, text: Seq<char>)
    requires
        super::tree_nested(t),
    ensures
        super::tree_nested(add_text_block(t, text)),
{
    super::law_tree_building_keeps_headings_nested(t, BlockV::Paragraph(spec_strip_jsx(trim(text))), 1, seq![]);
}

proof fn lemma_flush_text_nested(s: MdV)
    requires
        super::tree_nested(s.tree),
    ensures
        super::tree_nested(md_flush_text(s).tree),
        md_flush_text(s).level == s.level,
{
    lemma_add_text_block_nested(s.tree, s.para);
    lemma_add_text_block_nested(s.tree, s.list);
}

proof fn lemma_md_state_nested(es: Seq<MdEventV>, k: int)
    requires
        headings_open_before_close(es),
        0 <= k <= es.len(),
    ensures
        super::tree_nested(md_state(es, k).tree),
        heading_started(es, k) ==> md_state(es, k).level > 0,
    decreases k,
{
    if k == 0 {
        super::law_tree_building_keeps_headings_nested(tree_start(), BlockV::Table(seq![]), 1, seq![]);
    } else {
        lemma_md_state_nested(es, k - 1);
        let s = md_state(es, k - 1);
        let e = es[k - 1];
        lemma_flush_text_nested(s);
        lemma_add_text_block_nested(s.tree, s.para);
        super::law_tree_building_keeps_headings_nested(s.tree, BlockV::Code(s.lang, s.code), s.level, spec_strip_jsx(trim(s.heading)));
        super::law_tree_building_keeps_headings_nested(s.tree, BlockV::Table(s.table), 1, seq![]);
        let d: u32 = if s.depth > 0 { (s.depth - 1) as u32 } else { 0 };
        lemma_add_text_block_nested(MdV { depth: d, ..s }.tree, s.list);
        if e == MdEventV::End(MdTagEnd::Heading) {
            let j = choose|j: int| 0 <= j < k - 1 && (#[trigger] es[j]) is Start && es[j]->Start_0 is Heading;
            assert(heading_started(es, k - 1));
        }
        if heading_started(es, k) && !heading_started(es, k - 1) {
            let j = choose|j: int| 0 <= j < k && (#[trigger] es[j]) is Start && es[j]->Start_0 is Heading;
            assert(j == k - 1);
        }
        if heading_started(es, k - 1) {
            let j = choose|j: int| 0 <= j < k - 1 && (#[trigger] es[j]) is Start && es[j]->Start_0 is Heading;
            assert(heading_started(es, k));
        }
    }
}

proof fn lemma_strip_toc_nested(h: super::HeadingV)
    requires
        super::nested(h),
    ensures
        super::nested(strip_toc_v(h)),
        strip_toc_v(h).level == h.level,
    decreases h,
{
    lemma_strip_toc_children_nested(h.children, h.level, h.children.len() as int);
}

proof fn lemma_strip_toc_children_nested(cs: Seq<super::HeadingV>, level: u8, k: int)
    requires
        0 <= k <= cs.len(),
        super::nested_from(cs, level, k),
    ensures
        super::nested_from(strip_toc_children(cs, k), level, strip_toc_children(cs, k).len() as int),
    decreases cs, k,
{
    if k > 0 {
        lemma_strip_toc_children_nested(cs, level, k - 1);
        let r = strip_toc_children(cs, k - 1);
        if !is_toc(cs[k - 1]) {
            assert(decreases_to!(cs => cs[k - 1]));
            lemma_strip_toc_nested(cs[k - 1]);
            let c = strip_toc_v(cs[k - 1]);
            lemma_nested_from_push_md(r, c, level, r.len() as int);
            assert(r.push(c)[r.len() as int] == c);
        }
    }
}

proof fn lemma_nested_from_push_md(cs: Seq<super::HeadingV>, c: super::HeadingV, level: u8, k: int)
    requires
        0 <= k <= cs.len(),
    ensures
        super::nested_from(cs.push(c), level, k) == super::nested_from(cs, level, k),
    decreases k,
{
    if k > 0 {
        lemma_nested_from_push_md(cs, c, level, k - 1);
        assert(cs.push(c)[k - 1] == cs[k - 1]);
    }
}

/// A Markdown heading tree is properly nested: for an event stream in which
/// every heading end follows a heading start, the document root has level 0
/// and every child heading is deeper than its parent, before and after the
/// table-of-contents sections are removed.
pub proof fn law_markdown_tree_nested(es: Seq<MdEventV>)
    requires
        headings_open_before_close(es),
    ensures
        md_tree(es).level == 0 && super::nested(md_tree(es)),
        strip_toc_v(md_tree(es)).level == 0 && super::nested(strip_toc_v(md_tree(es))),
{
    let n = es.len() as int;
    lemma_md_state_nested(es, n);
    let s = md_state(es, n);
    lemma_flush_text_nested(s);
    super::law_tree_building_keeps_headings_nested(md_flush_text(s).tree, BlockV::Table(seq![]), 1, seq![]);
    lemma_strip_toc_nested(md_tree(es));
}

/// The text an inline event carries: that of a `Text` or an inline `Code`
/// event, nothing for any other.
pub open spec fn inline_text(e: MdEventV) -> Seq<char> {
    match e {
        MdEventV::Text(t) => t,
        MdEventV::Code(t) => t,
        _ => seq![],
    }
}

/// An event that is plain text or inline code.
pub open spec fn is_inline_text(e: MdEventV) -> bool {
    e is Text || e is Code
}

/// The texts of the events `es[a..b]`, one after another.
pub open spec fn inline_texts(es: Seq<MdEventV>, a: int, b: int) -> Seq<char>
    decreases b - a,
{
    if b <= a {
        seq![]
    } else {
        inline_texts(es, a, b - 1) + inline_text(es[b - 1])
    }
}

/// Inline code is text: an inline `Code` event acts on the builder exactly
/// as a `Text` event with the same text.
pub proof fn law_inline_code_is_text(s: MdV, t: Seq<char>)
    ensures
        md_step(s, MdEventV::Code(t)) == md_step(s, MdEventV::Text(t)),
{
}

/// No text is lost inside a heading, a paragraph or a list: after a run of
/// `Text` and inline `Code` events, the text being collected is what it was
/// followed by every event's text, in event order.
pub proof fn law_inline_text_kept_in_order(es: Seq<MdEventV>, a: int, b: int)
    requires
        0 <= a <= b <= es.len(),
        forall|k: int| a <= k < b ==> is_inline_text(#[trigger] es[k]),
    ensures
        md_state(es, b).ctx == md_state(es, a).ctx,
        md_state(es, a).ctx == MdCtx::Paragraph ==> md_state(es, b).para == md_state(es, a).para + inline_texts(
            es,
            a,
            b,
        ),
        md_state(es, a).ctx == MdCtx::Heading ==> md_state(es, b).heading == md_state(es, a).heading
            + inline_texts(es, a, b),
        md_state(es, a).ctx == MdCtx::List ==> md_state(es, b).list == md_state(es, a).list + inline_texts(
            es,
            a,
            b,
        ),
    decreases b - a,
{
    if b > a {
        law_inline_text_kept_in_order(es, a, b - 1);
        let s0 = md_state(es, a);
        let s1 = md_state(es, b - 1);
        let e = es[b - 1];
        assert(is_inline_text(e));
        assert(md_state(es, b) == md_step(s1, e));
        let t = inline_text(e);
        assert(md_step(s1, e) == md_add_text(s1, t));
        if s0.ctx == MdCtx::Paragraph {
            assert(s0.para + inline_texts(es, a, b - 1) + t =~= s0.para + inline_texts(es, a, b));
        }
        if s0.ctx == MdCtx::Heading {
            assert(s0.heading + inline_texts(es, a, b - 1) + t =~= s0.heading + inline_texts(es, a, b));
        }
        if s0.ctx == MdCtx::List {
            assert(s0.list + inline_texts(es, a, b - 1) + t =~= s0.list + inline_texts(es, a, b));
        }
    } else {
        assert(inline_texts(es, a, b) =~= seq![]);
        assert(md_state(es, a).para + seq![] =~= md_state(es, a).para);
        assert(md_state(es, a).heading + seq![] =~= md_state(es, a).heading);
        assert(md_state(es, a).list + seq![] =~= md_state(es, a).list);
    }
}

} // verus!
