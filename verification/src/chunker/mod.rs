//! Chunking: the structural chunker cuts a heading tree into chunks at
//! heading boundaries (code blocks always on their own), and the semantic
//! refiner splits oversized prose chunks at topic boundaries.
pub mod semantic;
pub mod structural;

use vstd::prelude::*;

use crate::node::NodeKind;
use crate::parser::{block_text, blocks_view, opt_view, BlockV, ContentBlock};
use crate::text::{chars_of, join, join_chars, string_of};

pub use semantic::SemanticRefiner;
pub use structural::StructuralChunker;

verus! {

// ───────────────────────────── configuration ─────────────────────────────

/// Size thresholds that govern how chunks are formed and refined.
#[derive(Debug, Clone, Copy)]
pub struct ChunkConfig {
    /// Prose chunks with fewer tokens than this are merged during refinement.
    pub min_tokens: u32,
    /// Prose chunks above this size are marked for semantic refinement.
    pub soft_max_tokens: u32,
    /// Hard ceiling: refinement is mandatory above this size.
    pub hard_max_tokens: u32,
}

impl Default for ChunkConfig {
    fn default() -> (r: ChunkConfig)
        ensures
            r.min_tokens == 50 && r.soft_max_tokens == 800 && r.hard_max_tokens == 1200,
    {
        ChunkConfig { min_tokens: 50, soft_max_tokens: 800, hard_max_tokens: 1200 }
    }
}

// ───────────────────────────── chunks ─────────────────────────────

/// An intermediate chunk made by the structural chunker and consumed by the
/// semantic refiner and the indexer.
#[derive(Debug)]
pub struct RawChunk {
    /// Ancestry headings from the root down to (and including) this section.
    pub heading_path: Vec<String>,
    /// Content blocks belonging to this chunk.
    pub blocks: Vec<ContentBlock>,
    /// Token count of the concatenated block text.
    pub token_count: u32,
    /// `true` when the chunk is a code block.
    pub has_code: bool,
    /// `true` when `token_count > soft_max_tokens` and semantic refinement
    /// should be applied before indexing.
    pub needs_refinement: bool,
    /// File path of the source document.
    pub doc_path: String,
    /// Title of the source document, if known.
    pub doc_title: Option<String>,
    /// Whether this is a prose chunk or a code block.
    pub kind: NodeKind,
    /// Source heading levels parallel to `heading_path`.
    pub heading_levels: Vec<u8>,
}

pub struct ChunkV {
    pub heading_path: Seq<Seq<char>>,
    pub blocks: Seq<BlockV>,
    pub token_count: u32,
    pub has_code: bool,
    pub needs_refinement: bool,
    pub doc_path: Seq<char>,
    pub doc_title: Option<Seq<char>>,
    pub kind: NodeKind,
    pub heading_levels: Seq<u8>,
}

pub open spec fn strings_view(v: Seq<String>) -> Seq<Seq<char>> {
    v.map_values(|s: String| s@)
}

pub open spec fn chunk_view(c: RawChunk) -> ChunkV {
    ChunkV {
        heading_path: strings_view(c.heading_path@),
        blocks: blocks_view(c.blocks@),
        token_count: c.token_count,
        has_code: c.has_code,
        needs_refinement: c.needs_refinement,
        doc_path: c.doc_path@,
        doc_title: opt_view(c.doc_title),
        kind: c.kind,
        heading_levels: c.heading_levels@,
    }
}

impl View for RawChunk {
    type V = ChunkV;

    open spec fn view(&self) -> ChunkV {
        chunk_view(*self)
    }
}

/// The text of `bs`: the blocks' texts joined by a blank line.
pub open spec fn chunk_text(bs: Seq<BlockV>) -> Seq<char> {
    join(bs.map_values(|b: BlockV| block_text(b)), "\n\n"@)
}

/// The text of `blocks`, as [`chunk_text`] describes it.
pub fn blocks_text(blocks: &Vec<ContentBlock>) -> (r: String)
    ensures
        r@ == chunk_text(blocks_view(blocks@)),
{
    let mut parts: Vec<Vec<char>> = Vec::new();
    let ghost bv = blocks_view(blocks@);
    let mut i: usize = 0;
    while i < blocks.len()
        invariant
            i <= blocks.len(),
            bv == blocks_view(blocks@),
            parts@.map_values(|p: Vec<char>| p@) == bv.take(i as int).map_values(|b: BlockV| block_text(b)),
        decreases blocks.len() - i,
    {
        let ghost before = parts@;
        let t = blocks[i].text();
        parts.push(chars_of(t));
        proof {
            assert(parts@.map_values(|p: Vec<char>| p@) =~= before.map_values(|p: Vec<char>| p@).push(
                block_text(bv[i as int]),
            ));
            assert(bv.take(i + 1).map_values(|b: BlockV| block_text(b)) =~= bv.take(i as int).map_values(
                |b: BlockV| block_text(b),
            ).push(block_text(bv[i as int])));
        }
        i = i + 1;
    }
    assert(bv.take(i as int) =~= bv);
    let sep = chars_of("\n\n");
    let r = join_chars(&parts, &sep);
    string_of(&r)
}

impl RawChunk {
    /// The blocks' texts joined by a blank line (used for token counting and
    /// embedding).
    pub fn text(&self) -> (r: String)
        ensures
            r@ == chunk_text(self@.blocks),
    {
        blocks_text(&self.blocks)
    }
}

/// A copy of a block with the same value.
pub fn copy_block(b: &ContentBlock) -> (r: ContentBlock)
    ensures
        r@ == b@,
{
    match b {
        ContentBlock::Paragraph(s) => ContentBlock::Paragraph(s.clone()),
        ContentBlock::Code { lang, content } => ContentBlock::Code {
            lang: match lang {
                Some(l) => Some(l.clone()),
                None => None,
            },
            content: content.clone(),
        },
        ContentBlock::Table(s) => ContentBlock::Table(s.clone()),
        ContentBlock::Other(s) => ContentBlock::Other(s.clone()),
    }
}

/// A copy of a list of strings with the same value.
pub fn copy_strings(v: &Vec<String>) -> (r: Vec<String>)
    ensures
        strings_view(r@) == strings_view(v@),
        r.len() == v.len(),
{
    let mut r: Vec<String> = Vec::new();
    let mut i: usize = 0;
    while i < v.len()
        invariant
            i <= v.len(),
            r.len() == i,
            strings_view(r@) == strings_view(v@.take(i as int)),
        decreases v.len() - i,
    {
        let ghost r0 = r@;
        let c = v[i].clone();
        r.push(c);
        assert(strings_view(r@) =~= strings_view(r0).push(v@[i as int]@));
        assert(v@.take(i + 1) =~= v@.take(i as int).push(v@[i as int]));
        assert(strings_view(v@.take(i + 1)) =~= strings_view(v@.take(i as int)).push(v@[i as int]@));
        i = i + 1;
    }
    assert(v@.take(i as int) =~= v@);
    r
}

pub fn copy_opt_string(o: &Option<String>) -> (r: Option<String>)
    ensures
        opt_view(r) == opt_view(*o),
{
    match o {
        Some(s) => Some(s.clone()),
        None => None,
    }
}

// ───────────────────────────── the chunk tree ─────────────────────────────

/// A heading whose content was folded into an ancestor's chunk: its path
/// and the levels parallel to it.
#[derive(Debug)]
pub struct FoldedHeading {
    /// Full heading path from the root down to this heading.
    pub heading_path: Vec<String>,
    /// Source heading levels parallel to `heading_path`.
    pub heading_levels: Vec<u8>,
}

pub struct FoldedV {
    pub heading_path: Seq<Seq<char>>,
    pub heading_levels: Seq<u8>,
}

impl View for FoldedHeading {
    type V = FoldedV;

    open spec fn view(&self) -> FoldedV {
        FoldedV { heading_path: strings_view(self.heading_path@), heading_levels: self.heading_levels@ }
    }
}

impl FoldedHeading {
    /// The heading path from the root down to this heading.
    pub fn heading_path(&self) -> (r: &Vec<String>)
        ensures
            r == &self.heading_path,
    {
        &self.heading_path
    }

    /// The heading levels parallel to the path.
    pub fn heading_levels(&self) -> (r: &Vec<u8>)
        ensures
            r == &self.heading_levels,
    {
        &self.heading_levels
    }
}

/// A flat list of chunks, each with the index of its parent chunk in the
/// same list (or `None` at the top), plus the headings folded into chunks.
/// Parents always come before their children.
#[derive(Debug)]
pub struct ChunkTree {
    /// The flattened chunk list with parent back-links.
    pub nodes: Vec<(RawChunk, Option<usize>)>,
    /// Headings whose content was folded into a parent chunk; the indexer
    /// still creates heading nodes for them.
    pub folded_headings: Vec<FoldedHeading>,
}

pub struct TreeC {
    pub nodes: Seq<(ChunkV, Option<usize>)>,
    pub folded: Seq<FoldedV>,
}

pub open spec fn nodes_view(ns: Seq<(RawChunk, Option<usize>)>) -> Seq<(ChunkV, Option<usize>)> {
    ns.map_values(|e: (RawChunk, Option<usize>)| (e.0@, e.1))
}

pub open spec fn folded_view(fs: Seq<FoldedHeading>) -> Seq<FoldedV> {
    fs.map_values(|f: FoldedHeading| f@)
}

impl View for ChunkTree {
    type V = TreeC;

    open spec fn view(&self) -> TreeC {
        TreeC { nodes: nodes_view(self.nodes@), folded: folded_view(self.folded_headings@) }
    }
}

pub open spec fn empty_tree_c() -> TreeC {
    TreeC { nodes: seq![], folded: seq![] }
}

/// Every parent link points at an earlier chunk.
pub open spec fn parents_before(t: TreeC) -> bool {
    forall|i: int| 0 <= i < t.nodes.len() ==> ((#[trigger] t.nodes[i]).1 matches Some(p) ==> p < i)
}

/// Appending a chunk whose parent is already in the tree keeps every parent
/// before its children.
pub proof fn law_push_keeps_parents_before(t: TreeC, c: ChunkV, parent: Option<usize>)
    requires
        parents_before(t),
        parent matches Some(p) ==> p < t.nodes.len(),
    ensures
        parents_before(TreeC { nodes: t.nodes.push((c, parent)), ..t }),
{
    let t2 = TreeC { nodes: t.nodes.push((c, parent)), ..t };
    assert forall|i: int| 0 <= i < t2.nodes.len() implies ((#[trigger] t2.nodes[i]).1 matches Some(p) ==> p < i) by {
        if i < t.nodes.len() {
            assert(t2.nodes[i] == t.nodes[i]);
        }
    }
}

impl ChunkTree {
    /// An empty tree.
    pub fn new() -> (r: ChunkTree)
        ensures
            r@ == empty_tree_c(),
            r.nodes.len() == 0,
    {
        let r = ChunkTree { nodes: Vec::new(), folded_headings: Vec::new() };
        assert(r@.nodes =~= seq![]);
        assert(r@.folded =~= seq![]);
        r
    }

    /// Appends `chunk` with `parent` as its parent index and returns the new
    /// chunk's index.
    pub fn push(&mut self, chunk: RawChunk, parent: Option<usize>) -> (idx: usize)
        ensures
            idx == old(self).nodes.len(),
            final(self).nodes.len() == old(self).nodes.len() + 1,
            final(self)@.nodes == old(self)@.nodes.push((chunk@, parent)),
            final(self)@.folded == old(self)@.folded,
    {
        let idx = self.nodes.len();
        let ghost n0 = self.nodes@;
        self.nodes.push((chunk, parent));
        assert(nodes_view(self.nodes@) =~= nodes_view(n0).push((chunk@, parent)));
        idx
    }

    /// `true` when the tree holds no chunks.
    pub fn is_empty(&self) -> (r: bool)
        ensures
            r == (self@.nodes.len() == 0),
    {
        self.nodes.len() == 0
    }

    /// All chunks with their parent indices, in order.
    pub fn iter(&self) -> (r: &[(RawChunk, Option<usize>)])
        ensures
            r@ == self.nodes@,
    {
        self.nodes.as_slice()
    }

    /// Consumes the tree, returning all `(chunk, parent_index)` pairs.
    pub fn consume(self) -> (r: Vec<(RawChunk, Option<usize>)>)
        ensures
            r@ == self.nodes@,
    {
        self.nodes
    }
}

impl Default for ChunkTree {
    fn default() -> (r: ChunkTree)
        ensures
            r@ == empty_tree_c(),
    {
        ChunkTree::new()
    }
}

} // verus!
