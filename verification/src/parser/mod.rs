//! Document model shared by all parsers: a tree of headings, each owning its
//! content blocks and its deeper child headings.
//!
//! Every parser builds the tree with a [`TreeBuilder`], whose abstract model
//! is a root plus a stack of still-open headings.  Opening a heading at level
//! `l` first closes every open heading of level `>= l` (each closed heading
//! becomes the last child of the heading below it on the stack, or of the
//! root); finishing closes all of them.

pub mod asciidoc;
pub mod markdown;
pub mod html;
pub mod rst;

use vstd::prelude::*;

use crate::error::LoreError;

pub use asciidoc::AsciidocParser;
pub use rst::RstParser;
pub use markdown::MarkdownParser;
pub use html::HtmlParser;



verus! {

// ───────────────────────────── content model ─────────────────────────────

/// A single block of content attached to a heading node.
#[derive(Debug, Clone, PartialEq, Eq)]
pub enum ContentBlock {
    /// One or more prose paragraphs as plain text.
    Paragraph(String),
    /// A code block with optional language annotation.
    Code {
        /// Programming language identifier, e.g. `"rust"`.
        lang: Option<String>,
        /// The verbatim code content.
        content: String,
    },
    /// A table rendered as a raw string.
    Table(String),
    /// Any other block content (admonitions, directives, etc.).
    Other(String),
}

/// The abstract value of a [`ContentBlock`].
pub enum BlockV {
    Paragraph(Seq<char>),
    Code(Option<Seq<char>>, Seq<char>),
    Table(Seq<char>),
    Other(Seq<char>),
}

pub open spec fn opt_view(o: Option<String>) -> Option<Seq<char>> {
    match o {
        Some(s) => Some(s@),
        None => None,
    }
}

pub open spec fn block_view(b: ContentBlock) -> BlockV {
    match b {
        ContentBlock::Paragraph(s) => BlockV::Paragraph(s@),
        ContentBlock::Code { lang, content } => BlockV::Code(opt_view(lang), content@),
        ContentBlock::Table(s) => BlockV::Table(s@),
        ContentBlock::Other(s) => BlockV::Other(s@),
    }
}

/// The text of a block used for token counting.
pub open spec fn block_text(b: BlockV) -> Seq<char> {
    match b {
        BlockV::Paragraph(s) => s,
        BlockV::Code(_, c) => c,
        BlockV::Table(s) => s,
        BlockV::Other(s) => s,
    }
}

impl View for ContentBlock {
    type V = BlockV;

    open spec fn view(&self) -> BlockV {
        block_view(*self)
    }
}

impl ContentBlock {
    /// Returns the text content for token-counting purposes.
    pub fn text(&self) -> (r: &str)
        ensures
            r@ == block_text(self@),
    {
        match self {
            ContentBlock::Paragraph(s) => s.as_str(),
            ContentBlock::Table(s) => s.as_str(),
            ContentBlock::Other(s) => s.as_str(),
            ContentBlock::Code { content, .. } => content.as_str(),
        }
    }
}

/// A heading node: a heading (level 1–6, or 0 for the synthetic document
/// root), the blocks directly beneath it, and its deeper child headings.
#[derive(Debug)]
pub struct HeadingNode {
    /// Heading level (1–6).  0 is used for the synthetic document root.
    pub level: u8,
    /// The text of the heading.  Empty string for the synthetic root.
    pub title: String,
    /// Content blocks directly beneath this heading.
    pub blocks: Vec<ContentBlock>,
    /// Child headings.
    pub children: Vec<HeadingNode>,
}

/// The abstract value of a [`HeadingNode`].
pub struct HeadingV {
    pub level: u8,
    pub title: Seq<char>,
    pub blocks: Seq<BlockV>,
    pub children: Seq<HeadingV>,
}

pub open spec fn blocks_view(bs: Seq<ContentBlock>) -> Seq<BlockV> {
    bs.map_values(|b: ContentBlock| block_view(b))
}

pub open spec fn heading_view(n: HeadingNode) -> HeadingV
    decreases n,
{
    HeadingV {
        level: n.level,
        title: n.title@,
        blocks: blocks_view(n.blocks@),
        children: Seq::new(
            n.children@.len(),
            |i: int|
                {
                    if 0 <= i < n.children@.len() {
                        heading_view(n.children@[i])
                    } else {
                        arbitrary()
                    }
                },
        ),
    }
}

pub open spec fn headings_view(ns: Seq<HeadingNode>) -> Seq<HeadingV> {
    ns.map_values(|n: HeadingNode| heading_view(n))
}

impl View for HeadingNode {
    type V = HeadingV;

    open spec fn view(&self) -> HeadingV {
        heading_view(*self)
    }
}

pub open spec fn empty_heading(level: u8, title: Seq<char>) -> HeadingV {
    HeadingV { level, title, blocks: seq![], children: seq![] }
}

/// Total number of blocks of a heading and all its descendants.
pub open spec fn total_blocks(h: HeadingV) -> nat
    decreases h,
{
    h.blocks.len() + children_blocks(h.children, h.children.len() as int)
}

pub open spec fn children_blocks(cs: Seq<HeadingV>, k: int) -> nat
    decreases cs, k,
{
    if k <= 0 || k > cs.len() {
        0
    } else {
        children_blocks(cs, k - 1) + total_blocks(cs[k - 1])
    }
}

impl HeadingNode {
    /// The synthetic root node that holds a whole document.
    pub fn root() -> (r: HeadingNode)
        ensures
            r@ == empty_heading(0, seq![]),
    {
        let r = HeadingNode { level: 0, title: String::new(), blocks: Vec::new(), children: Vec::new() };
        assert(r@.blocks =~= seq![]);
        assert(r@.children =~= seq![]);
        r
    }

    /// Total number of content blocks in this node and all descendants.
    pub fn total_block_count(&self) -> (r: usize)
        requires
            total_blocks(self@) <= usize::MAX,
        ensures
            r == total_blocks(self@),
        decreases self,
    {
        let mut sum = self.blocks.len();
        let mut i: usize = 0;
        proof {
            assert(self@.children.len() == self.children.len());
        }
        while i < self.children.len()
            invariant
                i <= self.children.len(),
                self@.children.len() == self.children.len(),
                total_blocks(self@) <= usize::MAX,
                sum == self.blocks.len() + children_blocks(self@.children, i as int),
            decreases self.children.len() - i,
        {
            proof {
                assert(self@.children[i as int] == heading_view(self.children[i as int]));
                lemma_children_blocks_mono(self@.children, i + 1, self.children.len() as int);
            }
            let c = self.children[i].total_block_count();
            sum = sum + c;
            i = i + 1;
        }
        sum
    }
}

pub proof fn lemma_children_blocks_mono(cs: Seq<HeadingV>, a: int, b: int)
    requires
        0 <= a <= b <= cs.len(),
    ensures
        children_blocks(cs, a) <= children_blocks(cs, b),
    decreases b - a,
{
    if a < b {
        lemma_children_blocks_mono(cs, a, b - 1);
    }
}

impl Default for HeadingNode {
    fn default() -> (r: HeadingNode)
        ensures
            r@ == empty_heading(0, seq![]),
    {
        HeadingNode::root()
    }
}

/// The result of parsing a single document.
#[derive(Debug)]
pub struct ParsedDoc {
    /// Document title, if one could be extracted.
    pub title: Option<String>,
    /// Synthetic root node; its `children` are the top-level headings.
    pub root: HeadingNode,
}

/// The abstract value of a [`ParsedDoc`].
pub struct DocV {
    pub title: Option<Seq<char>>,
    pub root: HeadingV,
}

impl View for ParsedDoc {
    type V = DocV;

    open spec fn view(&self) -> DocV {
        DocV { title: opt_view(self.title), root: self.root@ }
    }
}

pub open spec fn opt_chars(o: Option<Vec<char>>) -> Option<Seq<char>> {
    match o {
        Some(v) => Some(v@),
        None => None,
    }
}

pub fn opt_string(o: Option<Vec<char>>) -> (r: Option<String>)
    ensures
        opt_view(r) == opt_chars(o),
{
    match o {
        Some(v) => Some(crate::text::string_of(&v)),
        None => None,
    }
}

pub open spec fn lines_view(ls: Seq<Vec<char>>) -> Seq<Seq<char>> {
    ls.map_values(|l: Vec<char>| l@)
}

// ───────────────────────────── tree building ─────────────────────────────

/// The abstract state of a tree under construction.
pub struct TreeV {
    pub root: HeadingV,
    pub stack: Seq<HeadingV>,
}

pub open spec fn tree_start() -> TreeV {
    TreeV { root: empty_heading(0, seq![]), stack: seq![] }
}

pub open spec fn with_block(h: HeadingV, b: BlockV) -> HeadingV {
    HeadingV { blocks: h.blocks.push(b), ..h }
}

pub open spec fn with_child(h: HeadingV, c: HeadingV) -> HeadingV {
    HeadingV { children: h.children.push(c), ..h }
}

/// Adds `b` to the innermost open heading (or the root).
pub open spec fn tree_add_block(t: TreeV, b: BlockV) -> TreeV {
    if t.stack.len() == 0 {
        TreeV { root: with_block(t.root, b), ..t }
    } else {
        TreeV { stack: t.stack.update(t.stack.len() - 1, with_block(t.stack.last(), b)), ..t }
    }
}

/// Adds `c` as the last child of the innermost open heading (or the root).
pub open spec fn tree_add_child(t: TreeV, c: HeadingV) -> TreeV {
    if t.stack.len() == 0 {
        TreeV { root: with_child(t.root, c), ..t }
    } else {
        TreeV { stack: t.stack.update(t.stack.len() - 1, with_child(t.stack.last(), c)), ..t }
    }
}

/// Closes the innermost open heading.
pub open spec fn tree_close_top(t: TreeV) -> TreeV {
    if t.stack.len() == 0 {
        t
    } else {
        tree_add_child(TreeV { stack: t.stack.drop_last(), ..t }, t.stack.last())
    }
}

/// Closes open headings while the innermost one has level `>= level`.
pub open spec fn tree_close_from(t: TreeV, level: u8) -> TreeV
    decreases t.stack.len(),
{
    if t.stack.len() > 0 && t.stack.last().level >= level {
        tree_close_from(tree_close_top(t), level)
    } else {
        t
    }
}

/// Opens a new heading of `level` titled `title`.
pub open spec fn tree_open(t: TreeV, level: u8, title: Seq<char>) -> TreeV {
    let u = tree_close_from(t, level);
    TreeV { stack: u.stack.push(empty_heading(level, title)), ..u }
}

/// Closes every open heading.
pub open spec fn tree_close_all(t: TreeV) -> TreeV
    decreases t.stack.len(),
{
    if t.stack.len() > 0 {
        tree_close_all(tree_close_top(t))
    } else {
        t
    }
}

/// The finished document tree.
pub open spec fn tree_finish(t: TreeV) -> HeadingV {
    tree_close_all(t).root
}

/// Every child heading sits at a deeper level than its parent, all the way
/// down.
pub open spec fn nested(h: HeadingV) -> bool
    decreases h,
{
    nested_from(h.children, h.level, h.children.len() as int)
}

pub open spec fn nested_from(cs: Seq<HeadingV>, level: u8, k: int) -> bool
    decreases cs, k,
{
    if k <= 0 || k > cs.len() {
        true
    } else {
        nested_from(cs, level, k - 1) && cs[k - 1].level > level && nested(cs[k - 1])
    }
}

/// A tree under construction whose headings nest: the root has level 0,
/// the open headings have increasing positive levels, and every heading
/// built so far is nested.
pub open spec fn tree_nested(t: TreeV) -> bool {
    &&& t.root.level == 0
    &&& nested(t.root)
    &&& forall|i: int| 0 <= i < t.stack.len() ==> (#[trigger] t.stack[i]).level > 0 && nested(t.stack[i])
    &&& forall|i: int, j: int| 0 <= i < j < t.stack.len() ==> (#[trigger] t.stack[i]).level < (#[trigger] t.stack[j]).level
}

proof fn lemma_nested_from_push(cs: Seq<HeadingV>, c: HeadingV, level: u8, k: int)
    requires
        0 <= k <= cs.len(),
    ensures
        nested_from(cs.push(c), level, k) == nested_from(cs, level, k),
    decreases k,
{
    if k > 0 {
        lemma_nested_from_push(cs, c, level, k - 1);
        assert(cs.push(c)[k - 1] == cs[k - 1]);
    }
}

proof fn lemma_nested_with_child(h: HeadingV, c: HeadingV)
    requires
        nested(h),
        nested(c),
        c.level > h.level,
    ensures
        nested(with_child(h, c)),
{
    let n = h.children.len() as int;
    lemma_nested_from_push(h.children, c, h.level, n);
    assert(h.children.push(c)[n] == c);
}

proof fn lemma_close_top_nested(t: TreeV)
    requires
        tree_nested(t),
    ensures
        tree_nested(tree_close_top(t)),
        tree_close_top(t).stack.len() == if t.stack.len() > 0 { t.stack.len() - 1 } else { 0 },
        forall|i: int| 0 <= i < tree_close_top(t).stack.len() ==> (#[trigger] tree_close_top(t).stack[i]).level == t.stack[i].level,
{
    if t.stack.len() > 0 {
        let last = t.stack.last();
        let u = TreeV { stack: t.stack.drop_last(), ..t };
        let n = t.stack.len() as int;
        if u.stack.len() == 0 {
            lemma_nested_with_child(t.root, last);
        } else {
            let top = u.stack.last();
            assert(top == t.stack[n - 2]);
            lemma_nested_with_child(top, last);
            let r = tree_close_top(t);
            assert forall|i: int| 0 <= i < r.stack.len() implies (#[trigger] r.stack[i]).level > 0 && nested(r.stack[i]) by {
                if i < r.stack.len() - 1 {
                    assert(r.stack[i] == t.stack[i]);
                }
            }
            assert forall|i: int, j: int| 0 <= i < j < r.stack.len() implies (#[trigger] r.stack[i]).level < (#[trigger] r.stack[j]).level by {
                assert(r.stack[i].level == t.stack[i].level);
                assert(r.stack[j].level == t.stack[j].level);
            }
        }
    }
}

proof fn lemma_close_from_nested(t: TreeV, level: u8)
    requires
        tree_nested(t),
    ensures
        tree_nested(tree_close_from(t, level)),
        tree_close_from(t, level).stack.len() > 0 ==> tree_close_from(t, level).stack.last().level < level,
    decreases t.stack.len(),
{
    if t.stack.len() > 0 && t.stack.last().level >= level {
        lemma_close_top_nested(t);
        lemma_close_from_nested(tree_close_top(t), level);
    }
}

proof fn lemma_close_all_nested(t: TreeV)
    requires
        tree_nested(t),
    ensures
        tree_nested(tree_close_all(t)),
    decreases t.stack.len(),
{
    if t.stack.len() > 0 {
        lemma_close_top_nested(t);
        lemma_close_all_nested(tree_close_top(t));
    }
}

/// Building a heading tree keeps headings nested: starting empty, adding a
/// block, opening a heading of a positive level and closing all keep each
/// child heading deeper than its parent, so the finished tree has a level-0
/// root under which every child is deeper than its parent.
pub proof fn law_tree_building_keeps_headings_nested(t: TreeV, b: BlockV, level: u8, title: Seq<char>)
    requires
        tree_nested(t),
    ensures
        tree_nested(tree_start()),
        tree_nested(tree_add_block(t, b)),
        level > 0 ==> tree_nested(tree_open(t, level, title)),
        tree_finish(t).level == 0 && nested(tree_finish(t)),
{
    let s0 = tree_start();
    assert(nested(s0.root));
    let a = tree_add_block(t, b);
    if t.stack.len() > 0 {
        let n = t.stack.len() as int;
        assert(nested(with_block(t.stack.last(), b)));
        assert forall|i: int| 0 <= i < a.stack.len() implies (#[trigger] a.stack[i]).level > 0 && nested(a.stack[i]) by {
            if i < n - 1 {
                assert(a.stack[i] == t.stack[i]);
            }
        }
        assert forall|i: int, j: int| 0 <= i < j < a.stack.len() implies (#[trigger] a.stack[i]).level < (#[trigger] a.stack[j]).level by {
            assert(a.stack[i].level == t.stack[i].level);
            assert(a.stack[j].level == t.stack[j].level);
        }
    } else {
        assert(nested(with_block(t.root, b)));
    }
    if level > 0 {
        lemma_close_from_nested(t, level);
        let u = tree_close_from(t, level);
        let o = tree_open(t, level, title);
        let e = empty_heading(level, title);
        assert(nested(e));
        assert forall|i: int| 0 <= i < o.stack.len() implies (#[trigger] o.stack[i]).level > 0 && nested(o.stack[i]) by {
            if i < u.stack.len() {
                assert(o.stack[i] == u.stack[i]);
            }
        }
        assert forall|i: int, j: int| 0 <= i < j < o.stack.len() implies (#[trigger] o.stack[i]).level < (#[trigger] o.stack[j]).level by {
            assert(o.stack[i] == u.stack[i]);
            if j < u.stack.len() {
                assert(o.stack[j] == u.stack[j]);
            } else if i < u.stack.len() - 1 {
                assert(u.stack[i].level < u.stack[u.stack.len() - 1].level);
            }
        }
    }
    lemma_close_all_nested(t);
}

/// Builds a heading tree: a root and a stack of open headings.
pub struct TreeBuilder {
    root: HeadingNode,
    stack: Vec<HeadingNode>,
}

impl View for TreeBuilder {
    type V = TreeV;

    closed spec fn view(&self) -> TreeV {
        TreeV { root: self.root@, stack: headings_view(self.stack@) }
    }
}

proof fn lemma_view_with_block(n: HeadingNode, m: HeadingNode, b: ContentBlock)
    requires
        m.level == n.level,
        m.title@ == n.title@,
        m.blocks@ == n.blocks@.push(b),
        m.children@ == n.children@,
    ensures
        m@ == with_block(n@, block_view(b)),
{
    assert(blocks_view(m.blocks@) =~= blocks_view(n.blocks@).push(block_view(b)));
    assert(m@.children =~= n@.children);
}

proof fn lemma_view_with_child(n: HeadingNode, m: HeadingNode, c: HeadingNode)
    requires
        m.level == n.level,
        m.title@ == n.title@,
        m.blocks@ == n.blocks@,
        m.children@ == n.children@.push(c),
    ensures
        m@ == with_child(n@, c@),
{
    assert(blocks_view(m.blocks@) =~= blocks_view(n.blocks@));
    assert(m@.children =~= n@.children.push(c@));
}

impl TreeBuilder {
    pub fn new() -> (r: TreeBuilder)
        ensures
            r@ == tree_start(),
    {
        let r = TreeBuilder { root: HeadingNode::root(), stack: Vec::new() };
        assert(headings_view(r.stack@) =~= seq![]);
        r
    }

    /// Number of open headings.
    pub fn depth(&self) -> (r: usize)
        ensures
            r == self@.stack.len(),
    {
        self.stack.len()
    }

    /// Level of the innermost open heading, if any.
    pub fn top_level(&self) -> (r: Option<u8>)
        ensures
            self@.stack.len() == 0 ==> r is None,
            self@.stack.len() > 0 ==> r == Some(self@.stack.last().level),
    {
        if self.stack.len() == 0 {
            None
        } else {
            Some(self.stack[self.stack.len() - 1].level)
        }
    }

    pub fn add_block(&mut self, b: ContentBlock)
        ensures
            final(self)@ == tree_add_block(old(self)@, b@),
    {
        if self.stack.len() == 0 {
            let ghost n = self.root;
            self.root.blocks.push(b);
            proof {
                lemma_view_with_block(n, self.root, b);
            }
        } else {
            let ghost s0 = self.stack@;
            let mut top = self.stack.pop().unwrap();
            let ghost n = top;
            top.blocks.push(b);
            proof {
                lemma_view_with_block(n, top, b);
            }
            self.stack.push(top);
            proof {
                assert(headings_view(self.stack@) =~= headings_view(s0).update(
                    s0.len() - 1,
                    with_block(heading_view(n), block_view(b)),
                ));
            }
        }
    }

    fn add_child(&mut self, c: HeadingNode)
        ensures
            final(self)@ == tree_add_child(old(self)@, c@),
            final(self).stack.len() == old(self).stack.len(),
    {
        if self.stack.len() == 0 {
            let ghost n = self.root;
            self.root.children.push(c);
            proof {
                lemma_view_with_child(n, self.root, c);
            }
        } else {
            let ghost s0 = self.stack@;
            let mut top = self.stack.pop().unwrap();
            let ghost n = top;
            top.children.push(c);
            proof {
                lemma_view_with_child(n, top, c);
            }
            self.stack.push(top);
            proof {
                assert(headings_view(self.stack@) =~= headings_view(s0).update(
                    s0.len() - 1,
                    with_child(heading_view(n), heading_view(c)),
                ));
            }
        }
    }

    fn close_top(&mut self)
        requires
            old(self)@.stack.len() > 0,
        ensures
            final(self)@ == tree_close_top(old(self)@),
            final(self).stack.len() == old(self).stack.len() - 1,
    {
        let ghost s0 = self.stack@;
        let c = self.stack.pop().unwrap();
        proof {
            assert(headings_view(self.stack@) =~= headings_view(s0).drop_last());
        }
        self.add_child(c);
    }

    /// Opens a heading of `level` titled `title`.
    pub fn open(&mut self, level: u8, title: String)
        ensures
            final(self)@ == tree_open(old(self)@, level, title@),
    {
        while self.stack.len() > 0 && self.stack[self.stack.len() - 1].level >= level
            invariant
                tree_close_from(self@, level) == tree_close_from(old(self)@, level),
                self.stack.len() == self@.stack.len(),
            decreases self.stack.len(),
        {
            self.close_top();
        }
        let ghost s0 = self.stack@;
        let h = HeadingNode { level, title, blocks: Vec::new(), children: Vec::new() };
        proof {
            assert(h@.blocks =~= seq![]);
            assert(h@.children =~= seq![]);
        }
        self.stack.push(h);
        proof {
            assert(headings_view(self.stack@) =~= headings_view(s0).push(h@));
        }
    }

    /// Closes every open heading and returns the root.
    pub fn finish(self) -> (r: HeadingNode)
        ensures
            r@ == tree_finish(self@),
    {
        let mut t = self;
        while t.stack.len() > 0
            invariant
                tree_close_all(t@) == tree_close_all(self@),
                t.stack.len() == t@.stack.len(),
            decreases t.stack.len(),
        {
            t.close_top();
        }
        t.root
    }
}

// ───────────────────────────── the parser interface ─────────────────────────────

/// The extension of the final component of `path` (`Path::extension`), if
/// it has one and it is valid UTF-8.
pub uninterp spec fn path_extension(path: Seq<char>) -> Option<Seq<char>>;

/// `std::path::Path::extension` of `path`, as a `String`.  Claimed: the
/// result is [`path_extension`] of `path`.
#[verifier::external_body]
pub(crate) fn file_extension(path: &str) -> (r: Option<String>)
    ensures
        opt_view(r) == path_extension(path@),
{
    std::path::Path::new(path).extension().and_then(|e| e.to_str()).map(|e| e.to_string())
}

/// A format-specific document parser.  Paths are given as text; they only
/// select the parser and name the file in messages, and are never read.
pub trait Parser {
    /// Whether this parser handles the file at `path` (by its extension).
    fn can_parse(&self, path: &str) -> bool;

    /// Parses `content` into a [`ParsedDoc`].
    fn parse(&self, content: &str, path: &str) -> Result<ParsedDoc, LoreError>;
}

pub open spec fn ext_is(e: Option<Seq<char>>, x: Seq<char>) -> bool {
    e == Some(x)
}

pub open spec fn markdown_ext(e: Option<Seq<char>>) -> bool {
    ext_is(e, "md"@) || ext_is(e, "mdx"@) || ext_is(e, "qmd"@) || ext_is(e, "rmd"@)
}

pub open spec fn html_ext(e: Option<Seq<char>>) -> bool {
    ext_is(e, "html"@) || ext_is(e, "htm"@)
}

pub open spec fn asciidoc_ext(e: Option<Seq<char>>) -> bool {
    ext_is(e, "adoc"@) || ext_is(e, "asciidoc"@)
}

pub open spec fn rst_ext(e: Option<Seq<char>>) -> bool {
    ext_is(e, "rst"@)
}

fn ext_eq(e: &Option<String>, x: &str) -> (b: bool)
    ensures
        b == ext_is(opt_view(*e), x@),
{
    match e {
        Some(s) => {
            let v = crate::text::chars_of(s.as_str());
            crate::text::eq_lit(&v, x)
        },
        None => false,
    }
}

impl Parser for markdown::MarkdownParser {
    fn can_parse(&self, path: &str) -> (r: bool)
        ensures
            r == markdown_ext(path_extension(path@)),
    {
        let e = file_extension(path);
        ext_eq(&e, "md") || ext_eq(&e, "mdx") || ext_eq(&e, "qmd") || ext_eq(&e, "rmd")
    }

    fn parse(&self, content: &str, _path: &str) -> (r: Result<ParsedDoc, LoreError>)
        ensures
            r matches Ok(d) && d@ == markdown::spec_parse_markdown(content@),
    {
        Ok(markdown::parse_markdown(content))
    }
}

impl Parser for html::HtmlParser {
    fn can_parse(&self, path: &str) -> (r: bool)
        ensures
            r == html_ext(path_extension(path@)),
    {
        let e = file_extension(path);
        ext_eq(&e, "html") || ext_eq(&e, "htm")
    }

    fn parse(&self, content: &str, path: &str) -> (r: Result<ParsedDoc, LoreError>)
        ensures
            html::html_parse_result(content@, path@, r),
    {
        html::parse_html(content, path)
    }
}

impl Parser for asciidoc::AsciidocParser {
    fn can_parse(&self, path: &str) -> (r: bool)
        ensures
            r == asciidoc_ext(path_extension(path@)),
    {
        let e = file_extension(path);
        ext_eq(&e, "adoc") || ext_eq(&e, "asciidoc")
    }

    fn parse(&self, content: &str, _path: &str) -> (r: Result<ParsedDoc, LoreError>)
        ensures
            r matches Ok(d) && d@ == asciidoc::spec_parse_asciidoc(content@),
    {
        Ok(asciidoc::parse_asciidoc(content))
    }
}

impl Parser for rst::RstParser {
    fn can_parse(&self, path: &str) -> (r: bool)
        ensures
            r == rst_ext(path_extension(path@)),
    {
        let e = file_extension(path);
        ext_eq(&e, "rst")
    }

    fn parse(&self, content: &str, _path: &str) -> (r: Result<ParsedDoc, LoreError>)
        ensures
            r matches Ok(d) && d@ == rst::spec_parse_rst(content@),
    {
        Ok(rst::parse_rst(content))
    }
}

/// The built-in parsers, in the order the registry tries them.
#[derive(Clone, Copy, Debug, PartialEq, Eq, Structural)]
pub enum ParserKind {
    Markdown,
    Html,
    Asciidoc,
    Rst,
}

pub open spec fn kind_handles(k: ParserKind, e: Option<Seq<char>>) -> bool {
    match k {
        ParserKind::Markdown => markdown_ext(e),
        ParserKind::Html => html_ext(e),
        ParserKind::Asciidoc => asciidoc_ext(e),
        ParserKind::Rst => rst_ext(e),
    }
}

/// The parser the registry picks for a file with extension `e`.
pub open spec fn kind_for(e: Option<Seq<char>>) -> Option<ParserKind> {
    if markdown_ext(e) {
        Some(ParserKind::Markdown)
    } else if html_ext(e) {
        Some(ParserKind::Html)
    } else if asciidoc_ext(e) {
        Some(ParserKind::Asciidoc)
    } else if rst_ext(e) {
        Some(ParserKind::Rst)
    } else {
        None
    }
}

/// What the registry returns for `content` at `path`.
pub open spec fn registry_result(content: Seq<char>, path: Seq<char>, r: Result<ParsedDoc, LoreError>) -> bool {
    match kind_for(path_extension(path)) {
        None => r matches Err(LoreError::Parse(m)) && m@ == "no parser for "@ + path,
        Some(ParserKind::Markdown) => r matches Ok(d) && d@ == markdown::spec_parse_markdown(content),
        Some(ParserKind::Html) => html::html_parse_result(content, path, r),
        Some(ParserKind::Asciidoc) => r matches Ok(d) && d@ == asciidoc::spec_parse_asciidoc(content),
        Some(ParserKind::Rst) => r matches Ok(d) && d@ == rst::spec_parse_rst(content),
    }
}

/// Holds the built-in parsers and selects one by file extension.
pub struct ParserRegistry {
    parsers: Vec<ParserKind>,
}

impl ParserRegistry {
    #[verifier::type_invariant]
    spec fn all_parsers(&self) -> bool {
        self.parsers@ == seq![ParserKind::Markdown, ParserKind::Html, ParserKind::Asciidoc, ParserKind::Rst]
    }

    /// The parsers the registry tries, in order.
    pub closed spec fn kinds(&self) -> Seq<ParserKind> {
        self.parsers@
    }

    /// A registry holding every built-in parser.
    pub fn new() -> (r: ParserRegistry)
        ensures
            r.kinds() == seq![ParserKind::Markdown, ParserKind::Html, ParserKind::Asciidoc, ParserKind::Rst],
    {
        ParserRegistry {
            parsers: vec![ParserKind::Markdown, ParserKind::Html, ParserKind::Asciidoc, ParserKind::Rst],
        }
    }

    fn kind_can_parse(k: ParserKind, path: &str) -> (b: bool)
        ensures
            b == kind_handles(k, path_extension(path@)),
    {
        match k {
            ParserKind::Markdown => markdown::MarkdownParser.can_parse(path),
            ParserKind::Html => html::HtmlParser.can_parse(path),
            ParserKind::Asciidoc => asciidoc::AsciidocParser.can_parse(path),
            ParserKind::Rst => rst::RstParser.can_parse(path),
        }
    }

    /// Parses `content` with the first parser that claims `path`; without
    /// one, `LoreError::Parse("no parser for <path>")`.
    pub fn parse(&self, path: &str, content: &str) -> (r: Result<ParsedDoc, LoreError>)
        ensures
            registry_result(content@, path@, r),
    {
        proof {
            use_type_invariant(self);
        }
        let mut i: usize = 0;
        while i < self.parsers.len()
            invariant
                i <= self.parsers.len(),
                self.parsers@ == seq![ParserKind::Markdown, ParserKind::Html, ParserKind::Asciidoc, ParserKind::Rst],
                forall|j: int| 0 <= j < i ==> !kind_handles(#[trigger] self.parsers@[j], path_extension(path@)),
            decreases self.parsers.len() - i,
        {
            let k = self.parsers[i];
            if Self::kind_can_parse(k, path) {
                proof {
                    assert(!kind_handles(self.parsers@[0], path_extension(path@)) || i == 0);
                }
                assert(kind_for(path_extension(path@)) == Some(k)) by {
                    if i > 0 { assert(!kind_handles(self.parsers@[0], path_extension(path@))); }
                    if i > 1 { assert(!kind_handles(self.parsers@[1], path_extension(path@))); }
                    if i > 2 { assert(!kind_handles(self.parsers@[2], path_extension(path@))); }
                }
                return match k {
                    ParserKind::Markdown => markdown::MarkdownParser.parse(content, path),
                    ParserKind::Html => html::HtmlParser.parse(content, path),
                    ParserKind::Asciidoc => asciidoc::AsciidocParser.parse(content, path),
                    ParserKind::Rst => rst::RstParser.parse(content, path),
                };
            }
            i = i + 1;
        }
        assert(!kind_handles(self.parsers@[0], path_extension(path@)));
        assert(!kind_handles(self.parsers@[1], path_extension(path@)));
        assert(!kind_handles(self.parsers@[2], path_extension(path@)));
        assert(!kind_handles(self.parsers@[3], path_extension(path@)));
        let m = crate::text::concat3("no parser for ", &crate::text::chars_of(path), "");
        proof {
            reveal_strlit("");
            assert(m@ =~= "no parser for "@ + path@);
        }
        Err(LoreError::Parse(m))
    }
}

impl Default for ParserRegistry {
    fn default() -> (r: ParserRegistry)
        ensures
            r.kinds() == seq![ParserKind::Markdown, ParserKind::Html, ParserKind::Asciidoc, ParserKind::Rst],
    {
        ParserRegistry::new()
    }
}

// ───────────────────────────── primary heading level ─────────────────────────────

/// `(number of headings of level l, their blocks in all)` among the
/// descendants of `h`.
pub open spec fn level_stats(h: HeadingV, l: u8) -> (nat, nat)
    decreases h,
{
    children_level_stats(h.children, l, h.children.len() as int)
}

pub open spec fn children_level_stats(cs: Seq<HeadingV>, l: u8, k: int) -> (nat, nat)
    decreases cs, k,
{
    if k <= 0 || k > cs.len() {
        (0, 0)
    } else {
        let a = children_level_stats(cs, l, k - 1);
        let c = cs[k - 1];
        let sub = level_stats(c, l);
        let own: (nat, nat) = if c.level == l {
            (1, c.blocks.len())
        } else {
            (0, 0)
        };
        ((a.0 + own.0 + sub.0) as nat, (a.1 + own.1 + sub.1) as nat)
    }
}

/// Headings and blocks below `h`: a bound on every count taken of the tree.
pub open spec fn tree_weight(h: HeadingV) -> nat
    decreases h,
{
    children_weight(h.children, h.children.len() as int)
}

pub open spec fn children_weight(cs: Seq<HeadingV>, k: int) -> nat
    decreases cs, k,
{
    if k <= 0 || k > cs.len() {
        0
    } else {
        children_weight(cs, k - 1) + 1 + cs[k - 1].blocks.len() + tree_weight(cs[k - 1])
    }
}

/// Nodes are present and hold more than 1.5 blocks on average.
pub open spec fn dense(st: (nat, nat)) -> bool {
    st.0 > 0 && 2 * st.1 > 3 * st.0
}

/// The shallowest of levels 2, 3, 4 whose headings average more than 1.5
/// blocks; 2 when none does.
pub open spec fn primary_level(h: HeadingV) -> u8 {
    if dense(level_stats(h, 2)) {
        2
    } else if dense(level_stats(h, 3)) {
        3
    } else if dense(level_stats(h, 4)) {
        4
    } else {
        2
    }
}

pub proof fn lemma_children_weight_mono(cs: Seq<HeadingV>, a: int, b: int)
    requires
        0 <= a <= b <= cs.len(),
    ensures
        children_weight(cs, a) <= children_weight(cs, b),
    decreases b - a,
{
    if a < b {
        lemma_children_weight_mono(cs, a, b - 1);
    }
}

fn collect_counts(node: &HeadingNode, l: u8) -> (r: (usize, usize))
    requires
        tree_weight(node@) <= usize::MAX,
    ensures
        (r.0 as nat, r.1 as nat) == level_stats(node@, l),
        r.0 + r.1 <= tree_weight(node@),
    decreases node,
{
    let mut n: usize = 0;
    let mut sum: usize = 0;
    let mut i: usize = 0;
    proof {
        assert(node@.children.len() == node.children.len());
    }
    while i < node.children.len()
        invariant
            i <= node.children.len(),
            node@.children.len() == node.children.len(),
            tree_weight(node@) <= usize::MAX,
            (n as nat, sum as nat) == children_level_stats(node@.children, l, i as int),
            n + sum <= children_weight(node@.children, i as int),
        decreases node.children.len() - i,
    {
        let c = &node.children[i];
        proof {
            assert(node@.children[i as int] == c@);
            lemma_children_weight_mono(node@.children, i + 1, node.children.len() as int);
            assert(c@.blocks.len() == c.blocks.len());
        }
        let (cn, cs) = collect_counts(c, l);
        if c.level == l {
            n = n + 1;
            sum = sum + c.blocks.len();
        }
        n = n + cn;
        sum = sum + cs;
        i = i + 1;
    }
    (n, sum)
}

/// The primary level is the shallowest dense level among 2, 3 and 4, and 2
/// when none of them is dense.
pub proof fn law_primary_level_is_shallowest_dense(h: HeadingV)
    ensures
        2 <= primary_level(h) <= 4,
        !dense(level_stats(h, 2)) && !dense(level_stats(h, 3)) && !dense(level_stats(h, 4)) ==> primary_level(h)
            == 2,
        dense(level_stats(h, 2)) || dense(level_stats(h, 3)) || dense(level_stats(h, 4)) ==> dense(
            level_stats(h, primary_level(h)),
        ),
        forall|l: u8| 2 <= l < primary_level(h) ==> !dense(#[trigger] level_stats(h, l)),
{
}

/// The weight of the heading tree under `node` ([`tree_weight`]: its
/// descendant headings and their blocks), `None` when it exceeds
/// `usize::MAX`.
pub fn heading_tree_weight(node: &HeadingNode) -> (r: Option<usize>)
    ensures
        match r {
            Some(n) => n == tree_weight(node@),
            None => tree_weight(node@) > usize::MAX,
        },
    decreases node,
{
    let mut w: usize = 0;
    let mut i: usize = 0;
    proof {
        assert(node@.children.len() == node.children.len());
    }
    while i < node.children.len()
        invariant
            i <= node.children.len(),
            node@.children.len() == node.children.len(),
            w == children_weight(node@.children, i as int),
        decreases node.children.len() - i,
    {
        let c = &node.children[i];
        proof {
            assert(node@.children[i as int] == c@);
            assert(c@.blocks.len() == c.blocks.len());
            lemma_children_weight_mono(node@.children, i + 1, node.children.len() as int);
        }
        let cw = match heading_tree_weight(c) {
            Some(cw) => cw,
            None => {
                return None;
            },
        };
        let next = match w.checked_add(1) {
            Some(a) => match a.checked_add(c.blocks.len()) {
                Some(b) => b.checked_add(cw),
                None => None,
            },
            None => None,
        };
        match next {
            Some(n) => {
                w = n;
            },
            None => {
                return None;
            },
        }
        i = i + 1;
    }
    Some(w)
}

/// The heading level that represents the primary topic unit of a document:
/// the shallowest of levels 2–4 whose headings hold on average more than 1.5
/// content blocks, and 2 when no level does.
pub fn detect_primary_heading_level(root: &HeadingNode) -> (r: u8)
    requires
        tree_weight(root@) <= usize::MAX,
    ensures
        r == primary_level(root@),
{
    let mut level: u8 = 2;
    while level <= 4
        invariant
            2 <= level <= 5,
            tree_weight(root@) <= usize::MAX,
            forall|l: u8| 2 <= l < level ==> !dense(#[trigger] level_stats(root@, l)),
        decreases 5 - level,
    {
        let (n, sum) = collect_counts(root, level);
        if n > 0 && (sum as u128) * 2 > (n as u128) * 3 {
            proof {
                if level > 2 { assert(!dense(level_stats(root@, 2))); }
                if level > 3 { assert(!dense(level_stats(root@, 3))); }
            }
            return level;
        }
        level = level + 1;
    }
    proof {
        assert(!dense(level_stats(root@, 2)));
        assert(!dense(level_stats(root@, 3)));
        assert(!dense(level_stats(root@, 4)));
    }
    2
}

} // verus!
