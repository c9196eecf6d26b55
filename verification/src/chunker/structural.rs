//! Structural chunker: cuts a heading tree into chunks at heading
//! boundaries.
//!
//! - Every code block becomes a chunk of its own, whatever its size.
//! - Prose chunks above `soft_max_tokens` are marked for refinement.
//! - Headings deeper than the primary level fold their prose into the
//!   nearest ancestor chunk, and are recorded as folded headings.
//! - Each chunk records the index of its parent chunk.
use vstd::prelude::*;

use crate::node::NodeKind;
use crate::parser::{blocks_view, opt_view, BlockV, ContentBlock, HeadingNode, HeadingV, ParsedDoc};
use crate::tokens::{capped_tokens, TokenCounter};
use super::{
    blocks_text, chunk_text, copy_block, copy_opt_string, copy_strings, strings_view, ChunkConfig,
    ChunkTree, ChunkV, FoldedHeading, FoldedV, RawChunk, TreeC,
};

verus! {

/// Splits a parsed document into a [`ChunkTree`] by walking its headings.
pub struct StructuralChunker {
    config: ChunkConfig,
    counter: TokenCounter,
}

// ───────────────────────────── specification ─────────────────────────────

pub open spec fn is_code(b: BlockV) -> bool {
    b is Code
}

/// The code blocks of `bs`, in order.
pub open spec fn code_blocks(bs: Seq<BlockV>) -> Seq<BlockV>
    decreases bs.len(),
{
    if bs.len() == 0 {
        seq![]
    } else if is_code(bs.last()) {
        code_blocks(bs.drop_last()).push(bs.last())
    } else {
        code_blocks(bs.drop_last())
    }
}

/// The other blocks of `bs`, in order.
pub open spec fn prose_blocks(bs: Seq<BlockV>) -> Seq<BlockV>
    decreases bs.len(),
{
    if bs.len() == 0 {
        seq![]
    } else if !is_code(bs.last()) {
        prose_blocks(bs.drop_last()).push(bs.last())
    } else {
        prose_blocks(bs.drop_last())
    }
}

/// The place of a chunk: heading path, levels, document path and title.
pub struct Place {
    pub path: Seq<Seq<char>>,
    pub levels: Seq<u8>,
    pub doc_path: Seq<char>,
    pub doc_title: Option<Seq<char>>,
}

pub open spec fn prose_chunk(pl: Place, bs: Seq<BlockV>, cfg: ChunkConfig) -> ChunkV {
    let tc = capped_tokens(chunk_text(bs));
    ChunkV {
        heading_path: pl.path,
        blocks: bs,
        token_count: tc,
        has_code: false,
        needs_refinement: tc > cfg.soft_max_tokens,
        doc_path: pl.doc_path,
        doc_title: pl.doc_title,
        kind: NodeKind::Chunk,
        heading_levels: pl.levels,
    }
}

pub open spec fn code_chunk(pl: Place, b: BlockV) -> ChunkV {
    ChunkV {
        heading_path: pl.path,
        blocks: seq![b],
        token_count: capped_tokens(crate::parser::block_text(b)),
        has_code: true,
        needs_refinement: false,
        doc_path: pl.doc_path,
        doc_title: pl.doc_title,
        kind: NodeKind::CodeBlock,
        heading_levels: pl.levels,
    }
}

/// Appends `bs` to chunk `i` and recounts its tokens.
pub open spec fn fold_into(t: TreeC, i: int, bs: Seq<BlockV>, cfg: ChunkConfig) -> TreeC {
    let c = t.nodes[i].0;
    let nb = c.blocks + bs;
    let tc = capped_tokens(chunk_text(nb));
    let c2 = ChunkV { blocks: nb, token_count: tc, needs_refinement: tc > cfg.soft_max_tokens, ..c };
    TreeC { nodes: t.nodes.update(i, (c2, t.nodes[i].1)), ..t }
}

pub open spec fn push_chunk(t: TreeC, c: ChunkV, parent: Option<usize>) -> TreeC {
    TreeC { nodes: t.nodes.push((c, parent)), ..t }
}

/// Pushes one code chunk per block of `cs[..k]`, all with parent `parent`.
pub open spec fn push_code_chunks(t: TreeC, pl: Place, cs: Seq<BlockV>, k: int, parent: Option<usize>) -> TreeC
    decreases k,
{
    if k <= 0 || k > cs.len() {
        t
    } else {
        push_chunk(push_code_chunks(t, pl, cs, k - 1, parent), code_chunk(pl, cs[k - 1]), parent)
    }
}

/// The place of heading `h` below `pl`.
pub open spec fn place_below(pl: Place, h: HeadingV) -> Place {
    if h.level > 0 {
        Place { path: pl.path.push(h.title), levels: pl.levels.push(h.level), ..pl }
    } else {
        pl
    }
}

/// Walks heading `h` whose parent chunk is `parent`: returns the tree after
/// `h` and its subtree, and the index of the chunk that holds `h`'s prose
/// (the one its children link to).
pub open spec fn walk_node(
    h: HeadingV,
    parent: Option<usize>,
    pl0: Place,
    primary: u8,
    cfg: ChunkConfig,
    t: TreeC,
) -> (TreeC, Option<usize>)
    decreases h,
{
    let pl = place_below(pl0, h);
    let prose = prose_blocks(h.blocks);
    let code = code_blocks(h.blocks);
    let can_fold = h.level > primary && parent is Some;
    let (t1, pidx) = if can_fold {
        let pi = parent->0 as int;
        let ta = if prose.len() > 0 && pi < t.nodes.len() {
            fold_into(t, pi, prose, cfg)
        } else {
            t
        };
        (TreeC { folded: ta.folded.push(FoldedV { heading_path: pl.path, heading_levels: pl.levels }), ..ta }, parent)
    } else if prose.len() == 0 {
        (t, parent)
    } else {
        (push_chunk(t, prose_chunk(pl, prose, cfg), parent), Some(t.nodes.len() as usize))
    };
    let t2 = push_code_chunks(t1, pl, code, code.len() as int, parent);
    (walk_children(h.children, h.children.len() as int, pidx, pl, primary, cfg, t2), pidx)
}

/// Walks `cs[..k]` in order, each with parent chunk `parent`.
pub open spec fn walk_children(
    cs: Seq<HeadingV>,
    k: int,
    parent: Option<usize>,
    pl: Place,
    primary: u8,
    cfg: ChunkConfig,
    t: TreeC,
) -> TreeC
    decreases cs, k,
{
    if k <= 0 || k > cs.len() {
        t
    } else {
        walk_node(cs[k - 1], parent, pl, primary, cfg, walk_children(cs, k - 1, parent, pl, primary, cfg, t)).0
    }
}

/// The chunk tree of a document.
pub open spec fn spec_chunk(root: HeadingV, doc_path: Seq<char>, doc_title: Option<Seq<char>>, primary: u8, cfg: ChunkConfig) -> TreeC {
    walk_node(
        root,
        None,
        Place { path: seq![], levels: seq![], doc_path, doc_title },
        primary,
        cfg,
        super::empty_tree_c(),
    ).0
}

// ───────────────────────────── implementation ─────────────────────────────

pub open spec fn links_ok(t: TreeC, parent: Option<usize>) -> bool {
    parent matches Some(p) ==> p < t.nodes.len()
}

fn partition_blocks(bs: &Vec<ContentBlock>) -> (r: (Vec<ContentBlock>, Vec<ContentBlock>))
    ensures
        blocks_view(r.0@) == code_blocks(blocks_view(bs@)),
        blocks_view(r.1@) == prose_blocks(blocks_view(bs@)),
{
    let mut code: Vec<ContentBlock> = Vec::new();
    let mut prose: Vec<ContentBlock> = Vec::new();
    let ghost bv = blocks_view(bs@);
    let mut i: usize = 0;
    while i < bs.len()
        invariant
            i <= bs.len(),
            bv == blocks_view(bs@),
            blocks_view(code@) == code_blocks(bv.take(i as int)),
            blocks_view(prose@) == prose_blocks(bv.take(i as int)),
        decreases bs.len() - i,
    {
        let ghost c0 = code@;
        let ghost p0 = prose@;
        assert(bv.take(i + 1).drop_last() =~= bv.take(i as int));
        assert(bv.take(i + 1).last() == bv[i as int]);
        let b = copy_block(&bs[i]);
        match &bs[i] {
            ContentBlock::Code { .. } => {
                code.push(b);
                assert(blocks_view(code@) =~= blocks_view(c0).push(b@));
            },
            _ => {
                prose.push(b);
                assert(blocks_view(prose@) =~= blocks_view(p0).push(b@));
            },
        }
        i = i + 1;
    }
    assert(bv.take(i as int) =~= bv);
    (code, prose)
}

fn make_chunk(
    path: &Vec<String>,
    levels: &Vec<u8>,
    blocks: Vec<ContentBlock>,
    token_count: u32,
    has_code: bool,
    needs_refinement: bool,
    doc_path: &str,
    doc_title: &Option<String>,
    kind: NodeKind,
) -> (r: RawChunk)
    ensures
        r@ == (ChunkV {
            heading_path: strings_view(path@),
            blocks: blocks_view(blocks@),
            token_count,
            has_code,
            needs_refinement,
            doc_path: doc_path@,
            doc_title: opt_view(*doc_title),
            kind,
            heading_levels: levels@,
        }),
{
    RawChunk {
        heading_path: copy_strings(path),
        blocks,
        token_count,
        has_code,
        needs_refinement,
        doc_path: doc_path.to_string(),
        doc_title: copy_opt_string(doc_title),
        kind,
        heading_levels: levels.clone(),
    }
}

/// Appends `prose` to chunk `i` of `tree` and recounts its tokens.
fn fold_prose(tree: &mut ChunkTree, i: usize, prose: Vec<ContentBlock>, counter: &TokenCounter, config: &ChunkConfig)
    requires
        i < old(tree).nodes.len(),
    ensures
        final(tree)@ == fold_into(old(tree)@, i as int, blocks_view(prose@), *config),
        final(tree).nodes.len() == old(tree).nodes.len(),
{
    let ghost t0 = tree@;
    let ghost n0 = tree.nodes@;
    let (mut c, p) = tree.nodes.remove(i);
    let ghost b0 = c.blocks@;
    let mut more = prose;
    c.blocks.append(&mut more);
    assert(blocks_view(c.blocks@) =~= blocks_view(b0) + blocks_view(prose@));
    let text = blocks_text(&c.blocks);
    c.token_count = counter.count(text.as_str());
    c.needs_refinement = c.token_count > config.soft_max_tokens;
    tree.nodes.insert(i, (c, p));
    proof {
        assert(tree.nodes@ =~= n0.update(i as int, (c, p)));
        assert(super::nodes_view(tree.nodes@) =~= super::nodes_view(n0).update(i as int, (c@, p)));
        assert(c@ == fold_into(t0, i as int, blocks_view(prose@), *config).nodes[i as int].0);
    }
}

/// Walks `node` (its parent chunk is `parent`), pushing its chunks onto
/// `tree`; returns the index of the chunk holding `node`'s prose.
fn walk(
    node: &HeadingNode,
    parent: Option<usize>,
    heading_path: &Vec<String>,
    heading_levels: &Vec<u8>,
    doc_path: &str,
    doc_title: &Option<String>,
    primary_level: u8,
    tree: &mut ChunkTree,
    counter: &TokenCounter,
    config: &ChunkConfig,
) -> (r: Option<usize>)
    requires
        links_ok(old(tree)@, parent),
        super::parents_before(old(tree)@),
        old(tree).nodes.len() + crate::parser::tree_weight(node@) + node@.blocks.len() < usize::MAX,
    ensures
        super::parents_before(final(tree)@),
        (final(tree)@, r) == walk_node(
            node@,
            parent,
            Place {
                path: strings_view(heading_path@),
                levels: heading_levels@,
                doc_path: doc_path@,
                doc_title: opt_view(*doc_title),
            },
            primary_level,
            *config,
            old(tree)@,
        ),
        final(tree).nodes.len() >= old(tree).nodes.len(),
        final(tree).nodes.len() <= old(tree).nodes.len() + crate::parser::tree_weight(node@) + node@.blocks.len(),
        links_ok(final(tree)@, r),
    decreases node,
{
    let ghost pl0 = Place {
        path: strings_view(heading_path@),
        levels: heading_levels@,
        doc_path: doc_path@,
        doc_title: opt_view(*doc_title),
    };
    let ghost t0 = tree@;
    let mut path = copy_strings(heading_path);
    let mut levels = heading_levels.clone();
    assert(levels@ =~= heading_levels@);
    if node.level > 0 {
        let ghost p0 = path@;
        path.push(node.title.clone());
        levels.push(node.level);
        assert(strings_view(path@) =~= strings_view(p0).push(node.title@));
    }
    let ghost pl = place_below(pl0, node@);
    assert(strings_view(path@) == pl.path && levels@ == pl.levels);
    let (code, prose) = partition_blocks(&node.blocks);
    proof {
        lemma_partition_len(blocks_view(node.blocks@));
    }
    let can_fold = node.level > primary_level && parent.is_some();
    let prose_idx: Option<usize> = if can_fold {
        let pi = parent.unwrap();
        if prose.len() > 0 {
            fold_prose(tree, pi, prose, counter, config);
        }
        let ghost f0 = tree.folded_headings@;
        tree.folded_headings.push(FoldedHeading { heading_path: copy_strings(&path), heading_levels: levels.clone() });
        proof {
            assert(super::folded_view(tree.folded_headings@) =~= super::folded_view(f0).push(
                FoldedV { heading_path: pl.path, heading_levels: pl.levels },
            ));
        }
        parent
    } else if prose.len() == 0 {
        parent
    } else {
        let text = blocks_text(&prose);
        let token_count = counter.count(text.as_str());
        let needs = token_count > config.soft_max_tokens;
        let chunk = make_chunk(&path, &levels, prose, token_count, false, needs, doc_path, doc_title, NodeKind::Chunk);
        Some(tree.push(chunk, parent))
    };
    let ghost t1 = tree@;
    assert((t1, prose_idx) == ({
        let prose_v = prose_blocks(node@.blocks);
        if can_fold {
            let pi = parent->0 as int;
            let ta = if prose_v.len() > 0 && pi < t0.nodes.len() {
                fold_into(t0, pi, prose_v, *config)
            } else {
                t0
            };
            (TreeC { folded: ta.folded.push(FoldedV { heading_path: pl.path, heading_levels: pl.levels }), ..ta }, parent)
        } else if prose_v.len() == 0 {
            (t0, parent)
        } else {
            (push_chunk(t0, prose_chunk(pl, prose_v, *config), parent), Some(t0.nodes.len() as usize))
        }
    }));
    let ghost cv = code_blocks(blocks_view(node.blocks@));
    let mut k: usize = 0;
    while k < code.len()
        invariant
            k <= code.len(),
            blocks_view(code@) == cv,
            strings_view(path@) == pl.path,
            levels@ == pl.levels,
            pl.doc_path == doc_path@,
            pl.doc_title == opt_view(*doc_title),
            tree@ == push_code_chunks(t1, pl, cv, k as int, parent),
            tree.nodes.len() == t1.nodes.len() + k,
            super::parents_before(tree@),
            links_ok(t1, parent),
            t1.nodes.len() + code.len() < usize::MAX,
        decreases code.len() - k,
    {
        let b = copy_block(&code[k]);
        let tc = counter.count(b.text());
        let ghost bval = b;
        let mut one: Vec<ContentBlock> = Vec::new();
        one.push(b);
        let chunk = make_chunk(&path, &levels, one, tc, true, false, doc_path, doc_title, NodeKind::CodeBlock);
        proof {
            assert(crate::parser::blocks_view(seq![bval]) =~= seq![bval@]);
            assert(one@ =~= seq![bval]);
            assert(bval@ == cv[k as int]);
            assert(chunk@ == code_chunk(pl, cv[k as int]));
        }
        let ghost before = tree@;
        tree.push(chunk, parent);
        assert(tree@ =~= push_chunk(before, code_chunk(pl, cv[k as int]), parent));
        assert(super::parents_before(tree@)) by {
            assert forall|i: int| 0 <= i < tree@.nodes.len() implies ((#[trigger] tree@.nodes[i]).1 matches Some(p) ==> p < i) by {
                if i < before.nodes.len() {
                    assert(tree@.nodes[i] == before.nodes[i]);
                }
            }
        }
        k = k + 1;
    }
    let ghost t2 = tree@;
    let ghost cs = node@.children;
    let mut j: usize = 0;
    proof {
        assert(node@.children.len() == node.children.len());
        lemma_partition_len(blocks_view(node.blocks@));
    }
    while j < node.children.len()
        invariant
            j <= node.children.len(),
            cs == node@.children,
            cs.len() == node.children.len(),
            strings_view(path@) == pl.path,
            levels@ == pl.levels,
            pl.doc_path == doc_path@,
            pl.doc_title == opt_view(*doc_title),
            links_ok(tree@, prose_idx),
            super::parents_before(tree@),
            tree@ == walk_children(cs, j as int, prose_idx, pl, primary_level, *config, t2),
            t2.nodes.len() <= t0.nodes.len() + node@.blocks.len(),
            tree.nodes.len() <= t2.nodes.len() + crate::parser::children_weight(cs, j as int),
            tree.nodes.len() >= t0.nodes.len(),
            t0.nodes.len() + crate::parser::tree_weight(node@) + node@.blocks.len() < usize::MAX,
        decreases node.children.len() - j,
    {
        proof {
            assert(cs[j as int] == node.children@[j as int]@);
            crate::parser::lemma_children_weight_mono(cs, j + 1, cs.len() as int);
        }
        walk(&node.children[j], prose_idx, &path, &levels, doc_path, doc_title, primary_level, tree, counter, config);
        j = j + 1;
    }
    prose_idx
}

proof fn lemma_partition_len(bs: Seq<BlockV>)
    ensures
        code_blocks(bs).len() + prose_blocks(bs).len() == bs.len(),
    decreases bs.len(),
{
    if bs.len() > 0 {
        lemma_partition_len(bs.drop_last());
    }
}

impl StructuralChunker {
    /// A chunker with the given configuration and token counter.
    pub fn new(config: ChunkConfig, counter: TokenCounter) -> (r: StructuralChunker)
        ensures
            r.config() == config,
    {
        StructuralChunker { config, counter }
    }

    pub closed spec fn config(&self) -> ChunkConfig {
        self.config
    }

    /// Walks `doc` and produces its chunk tree.  `doc_path` is stored on
    /// every chunk; headings deeper than `primary_level` fold their prose into
    /// the nearest ancestor chunk.  (The bound on the tree's size is one that
    /// any tree held in memory meets.)
    pub fn chunk(&self, doc: &ParsedDoc, doc_path: &str, primary_level: u8) -> (r: ChunkTree)
        requires
            crate::parser::tree_weight(doc.root@) + doc.root@.blocks.len() < usize::MAX,
        ensures
            r@ == spec_chunk(doc.root@, doc_path@, opt_view(doc.title), primary_level, self.config()),
            super::parents_before(r@),
    {
        let mut tree = ChunkTree::new();
        let path: Vec<String> = Vec::new();
        let levels: Vec<u8> = Vec::new();
        proof {
            assert(strings_view(path@) =~= seq![]);
        }
        walk(
            &doc.root,
            None,
            &path,
            &levels,
            doc_path,
            &doc.title,
            primary_level,
            &mut tree,
            &self.counter,
            &self.config,
        );
        tree
    }
}

// ───────────────────────────── laws ─────────────────────────────

/// The shape every chunk of a structural tree has: a code chunk holds
/// exactly one code block and is never marked for refinement; a prose chunk
/// holds no code block and is marked exactly when its token count exceeds
/// the soft maximum.
pub open spec fn chunk_shape_ok(c: ChunkV, cfg: ChunkConfig) -> bool {
    &&& c.kind != NodeKind::Heading
    &&& c.kind == NodeKind::CodeBlock ==> c.blocks.len() == 1 && is_code(c.blocks[0]) && !c.needs_refinement
        && c.has_code
    &&& c.kind == NodeKind::Chunk ==> (forall|j: int| 0 <= j < c.blocks.len() ==> !is_code(#[trigger] c.blocks[j]))
        && c.needs_refinement == (c.token_count > cfg.soft_max_tokens) && !c.has_code
}

pub open spec fn tree_shape_ok(t: TreeC, cfg: ChunkConfig) -> bool {
    forall|i: int| 0 <= i < t.nodes.len() ==> chunk_shape_ok(#[trigger] t.nodes[i].0, cfg)
}

pub open spec fn parent_is_prose(t: TreeC, parent: Option<usize>) -> bool {
    parent matches Some(p) ==> p < t.nodes.len() && t.nodes[p as int].0.kind == NodeKind::Chunk
}

/// `t2` extends `t`: no chunk removed, no chunk's kind changed.
pub open spec fn kinds_kept(t: TreeC, t2: TreeC) -> bool {
    t.nodes.len() <= t2.nodes.len() && forall|i: int| 0 <= i < t.nodes.len() ==> (#[trigger] t2.nodes[i]).0.kind
        == t.nodes[i].0.kind
}

/// Every chunk's parent, where it has one, is a prose chunk of the tree.
pub open spec fn tree_links_prose(t: TreeC) -> bool {
    forall|i: int| 0 <= i < t.nodes.len() ==> parent_is_prose(t, (#[trigger] t.nodes[i]).1)
}

/// Every chunk carries the document path `dp` and title `dt`.
pub open spec fn tree_doc_is(t: TreeC, dp: Seq<char>, dt: Option<Seq<char>>) -> bool {
    forall|i: int| 0 <= i < t.nodes.len() ==> (#[trigger] t.nodes[i]).0.doc_path == dp && t.nodes[i].0.doc_title == dt
}

proof fn lemma_kinds_kept_prose(t: TreeC, t2: TreeC, q: Option<usize>)
    requires
        kinds_kept(t, t2),
        parent_is_prose(t, q),
    ensures
        parent_is_prose(t2, q),
{
    if q is Some {
        let p = q->0 as int;
        assert(t2.nodes[p].0.kind == t.nodes[p].0.kind);
    }
}

proof fn lemma_push_chunk_links(t: TreeC, c: ChunkV, parent: Option<usize>, dp: Seq<char>, dt: Option<Seq<char>>)
    requires
        tree_links_prose(t),
        parent_is_prose(t, parent),
        tree_doc_is(t, dp, dt),
        c.doc_path == dp,
        c.doc_title == dt,
    ensures
        tree_links_prose(push_chunk(t, c, parent)),
        tree_doc_is(push_chunk(t, c, parent), dp, dt),
        kinds_kept(t, push_chunk(t, c, parent)),
{
    let t1 = push_chunk(t, c, parent);
    assert forall|i: int| 0 <= i < t.nodes.len() implies (#[trigger] t1.nodes[i]).0.kind == t.nodes[i].0.kind by {
        assert(t1.nodes[i] == t.nodes[i]);
    }
    assert forall|i: int| 0 <= i < t1.nodes.len() implies parent_is_prose(t1, (#[trigger] t1.nodes[i]).1) by {
        if i < t.nodes.len() {
            assert(t1.nodes[i] == t.nodes[i]);
            assert(parent_is_prose(t, t.nodes[i].1));
            lemma_kinds_kept_prose(t, t1, t.nodes[i].1);
        } else {
            lemma_kinds_kept_prose(t, t1, parent);
        }
    }
    assert forall|i: int| 0 <= i < t1.nodes.len() implies (#[trigger] t1.nodes[i]).0.doc_path == dp
        && t1.nodes[i].0.doc_title == dt by {
        if i < t.nodes.len() {
            assert(t1.nodes[i] == t.nodes[i]);
        }
    }
}

proof fn lemma_split_blocks(bs: Seq<BlockV>)
    ensures
        forall|j: int| 0 <= j < prose_blocks(bs).len() ==> !is_code(#[trigger] prose_blocks(bs)[j]),
        forall|j: int| 0 <= j < code_blocks(bs).len() ==> is_code(#[trigger] code_blocks(bs)[j]),
    decreases bs.len(),
{
    if bs.len() > 0 {
        lemma_split_blocks(bs.drop_last());
        let p0 = prose_blocks(bs.drop_last());
        let c0 = code_blocks(bs.drop_last());
        if is_code(bs.last()) {
            assert forall|j: int| 0 <= j < code_blocks(bs).len() implies is_code(#[trigger] code_blocks(bs)[j]) by {
                if j < c0.len() {
                    assert(code_blocks(bs)[j] == c0[j]);
                }
            }
        } else {
            assert forall|j: int| 0 <= j < prose_blocks(bs).len() implies !is_code(#[trigger] prose_blocks(bs)[j]) by {
                if j < p0.len() {
                    assert(prose_blocks(bs)[j] == p0[j]);
                }
            }
        }
    }
}

proof fn lemma_push_code_chunks_shape(
    t: TreeC,
    pl: Place,
    cs: Seq<BlockV>,
    k: int,
    parent: Option<usize>,
    cfg: ChunkConfig,
    dp: Seq<char>,
    dt: Option<Seq<char>>,
)
    requires
        tree_shape_ok(t, cfg),
        forall|j: int| 0 <= j < cs.len() ==> is_code(#[trigger] cs[j]),
        tree_links_prose(t),
        parent_is_prose(t, parent),
        tree_doc_is(t, dp, dt),
        pl.doc_path == dp,
        pl.doc_title == dt,
    ensures
        tree_shape_ok(push_code_chunks(t, pl, cs, k, parent), cfg),
        tree_links_prose(push_code_chunks(t, pl, cs, k, parent)),
        tree_doc_is(push_code_chunks(t, pl, cs, k, parent), dp, dt),
        kinds_kept(t, push_code_chunks(t, pl, cs, k, parent)),
        0 <= k <= cs.len() ==> push_code_chunks(t, pl, cs, k, parent).nodes.len() == t.nodes.len() + k,
    decreases k,
{
    if k > 0 && k <= cs.len() {
        lemma_push_code_chunks_shape(t, pl, cs, k - 1, parent, cfg, dp, dt);
        let t0 = push_code_chunks(t, pl, cs, k - 1, parent);
        let t1 = push_chunk(t0, code_chunk(pl, cs[k - 1]), parent);
        lemma_kinds_kept_prose(t, t0, parent);
        lemma_push_chunk_links(t0, code_chunk(pl, cs[k - 1]), parent, dp, dt);
        assert forall|i: int| 0 <= i < t1.nodes.len() implies chunk_shape_ok(#[trigger] t1.nodes[i].0, cfg) by {
            if i < t0.nodes.len() {
                assert(t1.nodes[i] == t0.nodes[i]);
            }
        }
        assert forall|i: int| 0 <= i < t.nodes.len() implies (#[trigger] t1.nodes[i]).0.kind == t.nodes[i].0.kind by {
            assert(t1.nodes[i] == t0.nodes[i]);
        }
    }
}

proof fn lemma_walk_node_shape(
    h: HeadingV,
    parent: Option<usize>,
    pl0: Place,
    primary: u8,
    cfg: ChunkConfig,
    t: TreeC,
    dp: Seq<char>,
    dt: Option<Seq<char>>,
)
    requires
        tree_shape_ok(t, cfg),
        parent_is_prose(t, parent),
        t.nodes.len() + crate::parser::tree_weight(h) + h.blocks.len() < usize::MAX,
        tree_links_prose(t),
        tree_doc_is(t, dp, dt),
        pl0.doc_path == dp,
        pl0.doc_title == dt,
    ensures
        tree_shape_ok(walk_node(h, parent, pl0, primary, cfg, t).0, cfg),
        tree_links_prose(walk_node(h, parent, pl0, primary, cfg, t).0),
        tree_doc_is(walk_node(h, parent, pl0, primary, cfg, t).0, dp, dt),
        parent_is_prose(walk_node(h, parent, pl0, primary, cfg, t).0, walk_node(h, parent, pl0, primary, cfg, t).1),
        kinds_kept(t, walk_node(h, parent, pl0, primary, cfg, t).0),
        walk_node(h, parent, pl0, primary, cfg, t).0.nodes.len() <= t.nodes.len() + crate::parser::tree_weight(h)
            + h.blocks.len(),
    decreases h,
{
    let pl = place_below(pl0, h);
    let prose = prose_blocks(h.blocks);
    let code = code_blocks(h.blocks);
    lemma_split_blocks(h.blocks);
    let can_fold = h.level > primary && parent is Some;
    let (t1, pidx) = if can_fold {
        let pi = parent->0 as int;
        let ta = if prose.len() > 0 && pi < t.nodes.len() {
            fold_into(t, pi, prose, cfg)
        } else {
            t
        };
        (TreeC { folded: ta.folded.push(FoldedV { heading_path: pl.path, heading_levels: pl.levels }), ..ta }, parent)
    } else if prose.len() == 0 {
        (t, parent)
    } else {
        (push_chunk(t, prose_chunk(pl, prose, cfg), parent), Some(t.nodes.len() as usize))
    };
    if can_fold {
        let pi = parent->0 as int;
        if prose.len() > 0 && pi < t.nodes.len() {
            let c = t.nodes[pi].0;
            let nb = c.blocks + prose;
            assert forall|j: int| 0 <= j < nb.len() implies !is_code(#[trigger] nb[j]) by {
                if j < c.blocks.len() {
                    assert(nb[j] == c.blocks[j]);
                } else {
                    assert(nb[j] == prose[j - c.blocks.len()]);
                }
            }
            assert(chunk_shape_ok(t1.nodes[pi].0, cfg));
            assert forall|i: int| 0 <= i < t1.nodes.len() implies chunk_shape_ok(#[trigger] t1.nodes[i].0, cfg) by {
                if i != pi {
                    assert(t1.nodes[i] == t.nodes[i]);
                }
            }
            assert forall|i: int| 0 <= i < t.nodes.len() implies (#[trigger] t1.nodes[i]).0.kind == t.nodes[i].0.kind by {
                if i != pi {
                    assert(t1.nodes[i] == t.nodes[i]);
                }
            }
            assert forall|i: int| 0 <= i < t1.nodes.len() implies parent_is_prose(t1, (#[trigger] t1.nodes[i]).1) by {
                assert(t1.nodes[i].1 == t.nodes[i].1);
                assert(parent_is_prose(t, t.nodes[i].1));
                lemma_kinds_kept_prose(t, t1, t.nodes[i].1);
            }
            assert forall|i: int| 0 <= i < t1.nodes.len() implies (#[trigger] t1.nodes[i]).0.doc_path == dp
                && t1.nodes[i].0.doc_title == dt by {
                if i != pi {
                    assert(t1.nodes[i] == t.nodes[i]);
                }
            }
        } else {
            assert(t1.nodes == t.nodes);
        }
        assert(tree_shape_ok(t1, cfg));
        assert(kinds_kept(t, t1));
        assert(parent_is_prose(t1, pidx));
    } else if prose.len() > 0 {
        let pc = prose_chunk(pl, prose, cfg);
        assert(t1.nodes == t.nodes.push((pc, parent)));
        assert(chunk_shape_ok(pc, cfg));
        assert forall|i: int| 0 <= i < t1.nodes.len() implies chunk_shape_ok(#[trigger] t1.nodes[i].0, cfg) by {
            if i < t.nodes.len() {
                assert(t1.nodes[i] == t.nodes[i]);
            }
        }
        assert forall|i: int| 0 <= i < t.nodes.len() implies (#[trigger] t1.nodes[i]).0.kind == t.nodes[i].0.kind by {
            assert(t1.nodes[i] == t.nodes[i]);
        }
        assert(parent_is_prose(t1, pidx));
        lemma_push_chunk_links(t, pc, parent, dp, dt);
    }
    lemma_kinds_kept_prose(t, t1, parent);
    lemma_push_code_chunks_shape(t1, pl, code, code.len() as int, parent, cfg, dp, dt);
    let t2 = push_code_chunks(t1, pl, code, code.len() as int, parent);
    lemma_partition_len(h.blocks);
    assert(t2.nodes.len() <= t.nodes.len() + h.blocks.len());
    assert(parent_is_prose(t2, pidx));
    lemma_walk_children_shape(h.children, h.children.len() as int, pidx, pl, primary, cfg, t2, dp, dt);
    let t3 = walk_children(h.children, h.children.len() as int, pidx, pl, primary, cfg, t2);
    assert(kinds_kept(t, t3)) by {
        assert forall|i: int| 0 <= i < t.nodes.len() implies (#[trigger] t3.nodes[i]).0.kind == t.nodes[i].0.kind by {
            assert(t3.nodes[i].0.kind == t2.nodes[i].0.kind);
            assert(t2.nodes[i].0.kind == t1.nodes[i].0.kind);
        }
    }
    assert(parent_is_prose(t3, pidx)) by {
        if pidx is Some {
            let p = pidx->0 as int;
            assert(t3.nodes[p].0.kind == t2.nodes[p].0.kind);
        }
    }
}

proof fn lemma_walk_children_shape(
    cs: Seq<HeadingV>,
    k: int,
    parent: Option<usize>,
    pl: Place,
    primary: u8,
    cfg: ChunkConfig,
    t: TreeC,
    dp: Seq<char>,
    dt: Option<Seq<char>>,
)
    requires
        tree_shape_ok(t, cfg),
        parent_is_prose(t, parent),
        t.nodes.len() + crate::parser::children_weight(cs, k) < usize::MAX,
        tree_links_prose(t),
        tree_doc_is(t, dp, dt),
        pl.doc_path == dp,
        pl.doc_title == dt,
    ensures
        tree_shape_ok(walk_children(cs, k, parent, pl, primary, cfg, t), cfg),
        tree_links_prose(walk_children(cs, k, parent, pl, primary, cfg, t)),
        tree_doc_is(walk_children(cs, k, parent, pl, primary, cfg, t), dp, dt),
        kinds_kept(t, walk_children(cs, k, parent, pl, primary, cfg, t)),
        walk_children(cs, k, parent, pl, primary, cfg, t).nodes.len() <= t.nodes.len() + crate::parser::children_weight(
            cs,
            k,
        ),
    decreases cs, k,
{
    if k > 0 && k <= cs.len() {
        lemma_walk_children_shape(cs, k - 1, parent, pl, primary, cfg, t, dp, dt);
        let t0 = walk_children(cs, k - 1, parent, pl, primary, cfg, t);
        assert(parent_is_prose(t0, parent)) by {
            if parent is Some {
                let p = parent->0 as int;
                assert(t0.nodes[p].0.kind == t.nodes[p].0.kind);
            }
        }
        assert(decreases_to!(cs => cs[k - 1]));
        lemma_walk_node_shape(cs[k - 1], parent, pl, primary, cfg, t0, dp, dt);
        let t1 = walk_node(cs[k - 1], parent, pl, primary, cfg, t0).0;
        assert forall|i: int| 0 <= i < t.nodes.len() implies (#[trigger] t1.nodes[i]).0.kind == t.nodes[i].0.kind by {
            assert(t1.nodes[i].0.kind == t0.nodes[i].0.kind);
        }
    }
}

/// The number of code blocks under heading `h`, its own and its
/// descendants'.
pub open spec fn code_count(h: HeadingV) -> nat
    decreases h,
{
    code_blocks(h.blocks).len() + children_code_count(h.children, h.children.len() as int)
}

pub open spec fn children_code_count(cs: Seq<HeadingV>, k: int) -> nat
    decreases cs, k,
{
    if k <= 0 || k > cs.len() {
        0
    } else {
        children_code_count(cs, k - 1) + code_count(cs[k - 1])
    }
}

/// The number of code chunks among `ns`.
pub open spec fn code_chunk_count(ns: Seq<(ChunkV, Option<usize>)>) -> nat
    decreases ns.len(),
{
    if ns.len() == 0 {
        0
    } else {
        code_chunk_count(ns.drop_last()) + if ns.last().0.kind == NodeKind::CodeBlock {
            1nat
        } else {
            0nat
        }
    }
}

proof fn lemma_count_same_kinds(a: Seq<(ChunkV, Option<usize>)>, b: Seq<(ChunkV, Option<usize>)>)
    requires
        a.len() == b.len(),
        forall|i: int| 0 <= i < a.len() ==> (#[trigger] a[i]).0.kind == b[i].0.kind,
    ensures
        code_chunk_count(a) == code_chunk_count(b),
    decreases a.len(),
{
    if a.len() > 0 {
        let a0 = a.drop_last();
        let b0 = b.drop_last();
        assert forall|i: int| 0 <= i < a0.len() implies (#[trigger] a0[i]).0.kind == b0[i].0.kind by {
            assert(a0[i] == a[i] && b0[i] == b[i]);
        }
        lemma_count_same_kinds(a0, b0);
    }
}

proof fn lemma_push_code_chunks_count(t: TreeC, pl: Place, cs: Seq<BlockV>, k: int, parent: Option<usize>)
    requires
        0 <= k <= cs.len(),
    ensures
        code_chunk_count(push_code_chunks(t, pl, cs, k, parent).nodes) == code_chunk_count(t.nodes) + k,
    decreases k,
{
    if k > 0 {
        lemma_push_code_chunks_count(t, pl, cs, k - 1, parent);
        let t0 = push_code_chunks(t, pl, cs, k - 1, parent);
        assert(t0.nodes.push((code_chunk(pl, cs[k - 1]), parent)).drop_last() =~= t0.nodes);
    }
}

proof fn lemma_walk_node_count(h: HeadingV, parent: Option<usize>, pl0: Place, primary: u8, cfg: ChunkConfig, t: TreeC)
    ensures
        code_chunk_count(walk_node(h, parent, pl0, primary, cfg, t).0.nodes) == code_chunk_count(t.nodes)
            + code_count(h),
    decreases h,
{
    let pl = place_below(pl0, h);
    let prose = prose_blocks(h.blocks);
    let code = code_blocks(h.blocks);
    let can_fold = h.level > primary && parent is Some;
    let (t1, pidx) = if can_fold {
        let pi = parent->0 as int;
        let ta = if prose.len() > 0 && pi < t.nodes.len() {
            fold_into(t, pi, prose, cfg)
        } else {
            t
        };
        (TreeC { folded: ta.folded.push(FoldedV { heading_path: pl.path, heading_levels: pl.levels }), ..ta }, parent)
    } else if prose.len() == 0 {
        (t, parent)
    } else {
        (push_chunk(t, prose_chunk(pl, prose, cfg), parent), Some(t.nodes.len() as usize))
    };
    if can_fold {
        let pi = parent->0 as int;
        if prose.len() > 0 && pi < t.nodes.len() {
            assert forall|i: int| 0 <= i < t1.nodes.len() implies (#[trigger] t1.nodes[i]).0.kind == t.nodes[i].0.kind by {
                if i != pi {
                    assert(t1.nodes[i] == t.nodes[i]);
                }
            }
            lemma_count_same_kinds(t1.nodes, t.nodes);
        }
    } else if prose.len() > 0 {
        assert(t1.nodes.drop_last() =~= t.nodes);
    }
    assert(code_chunk_count(t1.nodes) == code_chunk_count(t.nodes));
    lemma_push_code_chunks_count(t1, pl, code, code.len() as int, parent);
    let t2 = push_code_chunks(t1, pl, code, code.len() as int, parent);
    lemma_walk_children_count(h.children, h.children.len() as int, pidx, pl, primary, cfg, t2);
}

proof fn lemma_walk_children_count(
    cs: Seq<HeadingV>,
    k: int,
    parent: Option<usize>,
    pl: Place,
    primary: u8,
    cfg: ChunkConfig,
    t: TreeC,
)
    ensures
        code_chunk_count(walk_children(cs, k, parent, pl, primary, cfg, t).nodes) == code_chunk_count(t.nodes)
            + children_code_count(cs, k),
    decreases cs, k,
{
    if k > 0 && k <= cs.len() {
        lemma_walk_children_count(cs, k - 1, parent, pl, primary, cfg, t);
        let t0 = walk_children(cs, k - 1, parent, pl, primary, cfg, t);
        assert(decreases_to!(cs => cs[k - 1]));
        lemma_walk_node_count(cs[k - 1], parent, pl, primary, cfg, t0);
    }
}

/// The tree has exactly one code chunk per code block of the document.
pub proof fn law_one_code_chunk_per_code_block(
    root: HeadingV,
    doc_path: Seq<char>,
    doc_title: Option<Seq<char>>,
    primary: u8,
    cfg: ChunkConfig,
)
    ensures
        code_chunk_count(spec_chunk(root, doc_path, doc_title, primary, cfg).nodes) == code_count(root),
{
    lemma_walk_node_count(
        root,
        None,
        Place { path: seq![], levels: seq![], doc_path, doc_title },
        primary,
        cfg,
        super::empty_tree_c(),
    );
}

/// Every chunk of a structural tree is well shaped: each code block is a
/// chunk of its own, whole, never marked for refinement, and prose chunks
/// hold no code and are marked exactly when above the soft maximum.  Every
/// chunk's parent is a prose chunk of the tree, and every chunk carries the
/// document's path and title.
pub proof fn law_chunks_well_shaped(
    root: HeadingV,
    doc_path: Seq<char>,
    doc_title: Option<Seq<char>>,
    primary: u8,
    cfg: ChunkConfig,
)
    requires
        crate::parser::tree_weight(root) + root.blocks.len() < usize::MAX,
    ensures
        tree_shape_ok(spec_chunk(root, doc_path, doc_title, primary, cfg), cfg),
        tree_links_prose(spec_chunk(root, doc_path, doc_title, primary, cfg)),
        tree_doc_is(spec_chunk(root, doc_path, doc_title, primary, cfg), doc_path, doc_title),
{
    lemma_walk_node_shape(
        root,
        None,
        Place { path: seq![], levels: seq![], doc_path, doc_title },
        primary,
        cfg,
        super::empty_tree_c(),
        doc_path,
        doc_title,
    );
}

} // verus!
