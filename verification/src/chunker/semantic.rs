//! Semantic refinement of oversized prose chunks.
//!
//! A chunk marked for refinement with at least three paragraphs has its
//! paragraphs embedded; where the similarity of consecutive paragraphs drops
//! into a valley, the chunk is split after that paragraph.  The embedding and
//! the valley detection work on floating-point vectors and are done by the
//! caller; this module decides which chunks qualify, cuts a chunk at the
//! given split positions, and merges fragments below `min_tokens` into a
//! neighbour.
use vstd::prelude::*;

use crate::node::NodeKind;
use crate::parser::{blocks_view, BlockV, ContentBlock};
use crate::tokens::{capped_tokens, TokenCounter};
use super::{blocks_text, chunk_text, copy_block, copy_opt_string, copy_strings, ChunkConfig, ChunkV, RawChunk};

verus! {

/// Splits oversized prose chunks at topic boundaries.
pub struct SemanticRefiner {
    config: ChunkConfig,
    counter: TokenCounter,
}

// ───────────────────────────── specification ─────────────────────────────

/// The paragraph texts of `bs`, in order.
pub open spec fn paragraphs_of(bs: Seq<BlockV>) -> Seq<Seq<char>> {
    crate::parser::markdown::para_texts(bs)
}

/// A chunk for a fragment of `orig`: same place, the given blocks, no token
/// count yet, not to be refined again.
pub open spec fn segment_of(orig: ChunkV, bs: Seq<BlockV>) -> ChunkV {
    ChunkV {
        heading_path: orig.heading_path,
        blocks: bs,
        token_count: 0,
        has_code: false,
        needs_refinement: false,
        doc_path: orig.doc_path,
        doc_title: orig.doc_title,
        kind: NodeKind::Chunk,
        heading_levels: orig.heading_levels,
    }
}

pub struct SplitS {
    pub segs: Seq<Seq<BlockV>>,
    pub cur: Seq<BlockV>,
    pub pidx: nat,
}

/// The cutting state after `bs[..k]`: each block joins the current
/// fragment; after paragraph number `p` the fragment is closed when `p` is
/// one of the split positions.
pub open spec fn split_state(bs: Seq<BlockV>, splits: Seq<usize>, k: int) -> SplitS
    decreases k,
{
    if k <= 0 {
        SplitS { segs: seq![], cur: seq![], pidx: 0 }
    } else {
        let s = split_state(bs, splits, k - 1);
        let b = bs[k - 1];
        let cur = s.cur.push(b);
        if b is Paragraph {
            if splits.contains(s.pidx as usize) {
                SplitS { segs: s.segs.push(cur), cur: seq![], pidx: s.pidx + 1 }
            } else {
                SplitS { segs: s.segs, cur, pidx: s.pidx + 1 }
            }
        } else {
            SplitS { cur, ..s }
        }
    }
}

/// The fragments of `bs` cut at `splits` (the last one closed at the end).
pub open spec fn split_blocks(bs: Seq<BlockV>, splits: Seq<usize>) -> Seq<Seq<BlockV>> {
    let s = split_state(bs, splits, bs.len() as int);
    if s.cur.len() > 0 {
        s.segs.push(s.cur)
    } else {
        s.segs
    }
}

/// `chunk` cut at the paragraph positions `splits`; the chunk itself when
/// it has no blocks.
pub open spec fn spec_split_chunk(chunk: ChunkV, splits: Seq<usize>) -> Seq<ChunkV> {
    let f = split_blocks(chunk.blocks, splits);
    if f.len() == 0 {
        seq![chunk]
    } else {
        f.map_values(|bs: Seq<BlockV>| segment_of(chunk, bs))
    }
}

/// `c` with its token count recomputed from its text.
pub open spec fn recounted(c: ChunkV) -> ChunkV {
    ChunkV { token_count: capped_tokens(chunk_text(c.blocks)), ..c }
}

/// The first index `>= j` of a fragment below `min` tokens.
pub open spec fn first_tiny(segs: Seq<ChunkV>, min: u32, j: int) -> Option<int>
    decreases segs.len() - j,
{
    if j < 0 || j >= segs.len() {
        None
    } else if segs[j].token_count < min {
        Some(j)
    } else {
        first_tiny(segs, min, j + 1)
    }
}

/// Fragment `i` absorbs fragment `i + 1`.
pub open spec fn merge_next(segs: Seq<ChunkV>, i: int) -> Seq<ChunkV> {
    segs.remove(i + 1).update(i, recounted(ChunkV { blocks: segs[i].blocks + segs[i + 1].blocks, ..segs[i] }))
}

/// Fragment `i - 1` absorbs fragment `i`.
pub open spec fn merge_prev(segs: Seq<ChunkV>, i: int) -> Seq<ChunkV> {
    segs.remove(i).update(i - 1, recounted(ChunkV { blocks: segs[i - 1].blocks + segs[i].blocks, ..segs[i - 1] }))
}

/// Merges while some fragment is below `min` tokens: the first such one
/// absorbs its successor, or, when it is the last, is absorbed by its
/// predecessor; a single fragment stays as it is.
pub open spec fn merge_loop(segs: Seq<ChunkV>, min: u32) -> Seq<ChunkV>
    decreases segs.len(),
{
    match first_tiny(segs, min, 0) {
        None => segs,
        Some(i) => if 0 <= i && i + 1 < segs.len() {
            merge_loop(merge_next(segs, i), min)
        } else if 0 < i < segs.len() {
            merge_loop(merge_prev(segs, i), min)
        } else {
            segs
        },
    }
}

/// Counts every fragment's tokens, then merges the tiny ones.
pub open spec fn spec_merge_tiny(segs: Seq<ChunkV>, min: u32) -> Seq<ChunkV> {
    merge_loop(segs.map_values(|c: ChunkV| recounted(c)), min)
}

/// The chunks that replace `chunk` when it is cut after the paragraphs at
/// `splits`: the chunk itself when there is no split position, otherwise
/// the fragments with tiny ones merged.
pub open spec fn spec_refine_at(chunk: ChunkV, splits: Seq<usize>, min: u32) -> Seq<ChunkV> {
    if splits.len() == 0 {
        seq![chunk]
    } else {
        spec_merge_tiny(spec_split_chunk(chunk, splits), min)
    }
}

// ───────────────────────────── implementation ─────────────────────────────

pub open spec fn chunks_view(v: Seq<RawChunk>) -> Seq<ChunkV> {
    v.map_values(|c: RawChunk| c@)
}

/// A copy of `c` with the same value.
pub fn copy_chunk(c: &RawChunk) -> (r: RawChunk)
    ensures
        r@ == c@,
{
    let mut blocks: Vec<ContentBlock> = Vec::new();
    let mut i: usize = 0;
    while i < c.blocks.len()
        invariant
            i <= c.blocks.len(),
            blocks_view(blocks@) == blocks_view(c.blocks@.take(i as int)),
        decreases c.blocks.len() - i,
    {
        let ghost b0 = blocks@;
        let b = copy_block(&c.blocks[i]);
        blocks.push(b);
        assert(blocks_view(blocks@) =~= blocks_view(b0).push(b@));
        assert(blocks_view(c.blocks@.take(i + 1)) =~= blocks_view(c.blocks@.take(i as int)).push(
            c.blocks@[i as int]@,
        ));
        i = i + 1;
    }
    assert(c.blocks@.take(i as int) =~= c.blocks@);
    RawChunk {
        heading_path: copy_strings(&c.heading_path),
        blocks,
        token_count: c.token_count,
        has_code: c.has_code,
        needs_refinement: c.needs_refinement,
        doc_path: c.doc_path.clone(),
        doc_title: copy_opt_string(&c.doc_title),
        kind: c.kind,
        heading_levels: c.heading_levels.clone(),
    }
}

/// A chunk for a fragment of `whole` (see [`segment_of`]).
pub fn make_segment(whole: &RawChunk, blocks: Vec<ContentBlock>) -> (r: RawChunk)
    ensures
        r@ == segment_of(whole@, blocks_view(blocks@)),
{
    RawChunk {
        heading_path: copy_strings(&whole.heading_path),
        blocks,
        token_count: 0,
        has_code: false,
        needs_refinement: false,
        doc_path: whole.doc_path.clone(),
        doc_title: copy_opt_string(&whole.doc_title),
        kind: NodeKind::Chunk,
        heading_levels: whole.heading_levels.clone(),
    }
}

fn contains_pos(v: &Vec<usize>, x: usize) -> (b: bool)
    ensures
        b == v@.contains(x),
{
    let mut i: usize = 0;
    while i < v.len()
        invariant
            i <= v.len(),
            forall|j: int| 0 <= j < i ==> v@[j] != x,
        decreases v.len() - i,
    {
        if v[i] == x {
            assert(v@[i as int] == x);
            return true;
        }
        i = i + 1;
    }
    false
}

/// Cuts `chunk` after each paragraph whose position (counting paragraphs
/// only) is in `split_positions`; the chunk itself when nothing results.
pub fn split_chunk_at(chunk: &RawChunk, split_positions: &Vec<usize>) -> (r: Vec<RawChunk>)
    ensures
        chunks_view(r@) == spec_split_chunk(chunk@, split_positions@),
{
    let ghost bv = chunk@.blocks;
    let mut segments: Vec<RawChunk> = Vec::new();
    let mut current: Vec<ContentBlock> = Vec::new();
    let mut para_idx: usize = 0;
    let mut i: usize = 0;
    while i < chunk.blocks.len()
        invariant
            i <= chunk.blocks.len(),
            bv == chunk@.blocks,
            bv.len() == chunk.blocks.len(),
            para_idx <= i,
            ({
                let s = split_state(bv, split_positions@, i as int);
                &&& chunks_view(segments@) == s.segs.map_values(|bs: Seq<BlockV>| segment_of(chunk@, bs))
                &&& blocks_view(current@) == s.cur
                &&& para_idx == s.pidx
            }),
        decreases chunk.blocks.len() - i,
    {
        let ghost s0 = split_state(bv, split_positions@, i as int);
        let ghost segs0 = segments@;
        let ghost cur0 = current@;
        let b = copy_block(&chunk.blocks[i]);
        let is_para = match &chunk.blocks[i] {
            ContentBlock::Paragraph(_) => true,
            _ => false,
        };
        assert(b@ == bv[i as int]);
        current.push(b);
        assert(blocks_view(current@) =~= s0.cur.push(bv[i as int]));
        if is_para {
            if contains_pos(split_positions, para_idx) {
                let mut done: Vec<ContentBlock> = Vec::new();
                std::mem::swap(&mut done, &mut current);
                let seg = make_segment(chunk, done);
                segments.push(seg);
                assert(chunks_view(segments@) =~= chunks_view(segs0).push(segment_of(chunk@, s0.cur.push(bv[i as int]))));
                assert(blocks_view(current@) =~= seq![]);
            }
            para_idx = para_idx + 1;
        }
        i = i + 1;
    }
    let ghost s = split_state(bv, split_positions@, i as int);
    if current.len() > 0 {
        let ghost segs0 = segments@;
        let seg = make_segment(chunk, current);
        segments.push(seg);
        assert(chunks_view(segments@) =~= chunks_view(segs0).push(segment_of(chunk@, s.cur)));
    }
    assert(chunks_view(segments@) == split_blocks(bv, split_positions@).map_values(|bs: Seq<BlockV>| segment_of(chunk@, bs)));
    if segments.len() == 0 {
        let mut one: Vec<RawChunk> = Vec::new();
        one.push(copy_chunk(chunk));
        assert(chunks_view(one@) =~= seq![chunk@]);
        return one;
    }
    segments
}

/// Counts every fragment's tokens, then repeatedly merges the first
/// fragment below `min_tokens` into the following one (the last one into the
/// preceding one) until none is left or a single tiny fragment remains.
#[verifier::loop_isolation(false)]
pub fn merge_tiny_segments(segments: Vec<RawChunk>, min_tokens: u32, counter: &TokenCounter) -> (r: Vec<RawChunk>)
    ensures
        chunks_view(r@) == spec_merge_tiny(chunks_view(segments@), min_tokens),
{
    let ghost sv = chunks_view(segments@);
    let mut segs: Vec<RawChunk> = Vec::new();
    let mut src = segments;
    let n = src.len();
    let mut k: usize = 0;
    while k < n
        invariant
            k <= n == sv.len(),
            src.len() == n - k,
            chunks_view(src@) == sv.skip(k as int),
            chunks_view(segs@) == sv.take(k as int).map_values(|c: ChunkV| recounted(c)),
        decreases n - k,
    {
        let ghost s0 = segs@;
        assert(chunks_view(src@)[0] == src@[0]@);
        let ghost old_src = src@;
        let mut c = src.remove(0);
        assert(c@ == sv[k as int]);
        assert(src@ =~= old_src.subrange(1, old_src.len() as int));
        assert forall|j: int| 0 <= j < chunks_view(src@).len() implies chunks_view(src@)[j] == sv.skip(k + 1)[j] by {
            assert(chunks_view(src@)[j] == src@[j]@);
            assert(src@[j] == old_src[j + 1]);
            assert(chunks_view(old_src)[j + 1] == old_src[j + 1]@);
        }
        assert(chunks_view(src@) =~= sv.skip(k + 1));
        let text = c.text();
        c.token_count = counter.count(text.as_str());
        segs.push(c);
        assert(chunks_view(segs@) =~= chunks_view(s0).push(recounted(sv[k as int])));
        assert(sv.take(k + 1).map_values(|c: ChunkV| recounted(c)) =~= sv.take(k as int).map_values(
            |c: ChunkV| recounted(c),
        ).push(recounted(sv[k as int])));
        k = k + 1;
    }
    assert(sv.take(k as int) =~= sv);
    loop
        invariant
            merge_loop(chunks_view(segs@), min_tokens) == spec_merge_tiny(sv, min_tokens),
        decreases segs.len(),
    {
        let ghost cv = chunks_view(segs@);
        let mut idx: usize = 0;
        while idx < segs.len() && segs[idx].token_count >= min_tokens
            invariant
                idx <= segs.len(),
                cv == chunks_view(segs@),
                first_tiny(cv, min_tokens, 0) == first_tiny(cv, min_tokens, idx as int),
            decreases segs.len() - idx,
        {
            idx = idx + 1;
        }
        if idx >= segs.len() {
            return segs;
        }
        if idx + 1 < segs.len() {
            let next = segs.remove(idx + 1);
            let mut cur = segs.remove(idx);
            let ghost b0 = cur.blocks@;
            let mut nb = next.blocks;
            cur.blocks.append(&mut nb);
            assert(blocks_view(cur.blocks@) =~= cv[idx as int].blocks + cv[idx + 1].blocks);
            let text = cur.text();
            cur.token_count = counter.count(text.as_str());
            segs.insert(idx, cur);
            assert(chunks_view(segs@) =~= merge_next(cv, idx as int));
        } else if idx > 0 {
            let last = segs.remove(idx);
            let mut prev = segs.remove(idx - 1);
            let mut lb = last.blocks;
            prev.blocks.append(&mut lb);
            assert(blocks_view(prev.blocks@) =~= cv[idx - 1].blocks + cv[idx as int].blocks);
            let text = prev.text();
            prev.token_count = counter.count(text.as_str());
            segs.insert(idx - 1, prev);
            assert(chunks_view(segs@) =~= merge_prev(cv, idx as int));
        } else {
            return segs;
        }
    }
}

impl SemanticRefiner {
    /// A refiner with the given configuration.
    pub fn new(config: ChunkConfig, counter: TokenCounter) -> (r: SemanticRefiner)
        ensures
            r.config() == config,
    {
        SemanticRefiner { config, counter }
    }

    pub closed spec fn config(&self) -> ChunkConfig {
        self.config
    }

    /// The paragraphs to embed for refining `chunk`: `None` (keep the chunk
    /// as it is) when it is not marked for refinement or has fewer than three
    /// paragraphs.
    pub fn paragraphs_to_embed(chunk: &RawChunk) -> (r: Option<Vec<String>>)
        ensures
            match r {
                None => !chunk@.needs_refinement || paragraphs_of(chunk@.blocks).len() < 3,
                Some(ps) => chunk@.needs_refinement && paragraphs_of(chunk@.blocks).len() >= 3
                    && ps@.map_values(|s: String| s@) == paragraphs_of(chunk@.blocks),
            },
    {
        if !chunk.needs_refinement {
            return None;
        }
        let ghost bv = chunk@.blocks;
        let mut ps: Vec<String> = Vec::new();
        let mut i: usize = 0;
        while i < chunk.blocks.len()
            invariant
                i <= chunk.blocks.len(),
                bv == chunk@.blocks,
                ps@.map_values(|s: String| s@) == paragraphs_of(bv.take(i as int)),
            decreases chunk.blocks.len() - i,
        {
            let ghost p0 = ps@;
            assert(bv.take(i + 1).drop_last() =~= bv.take(i as int));
            match &chunk.blocks[i] {
                ContentBlock::Paragraph(p) => {
                    ps.push(p.clone());
                    assert(ps@.map_values(|s: String| s@) =~= p0.map_values(|s: String| s@).push(p@));
                },
                _ => {},
            }
            i = i + 1;
        }
        assert(bv.take(i as int) =~= bv);
        if ps.len() < 3 {
            return None;
        }
        Some(ps)
    }

    /// The chunks that replace `chunk` when it is cut after the paragraphs at
    /// `split_positions` (see [`spec_refine_at`]).
    pub fn refine_at(&self, chunk: RawChunk, split_positions: &Vec<usize>) -> (r: Vec<RawChunk>)
        ensures
            chunks_view(r@) == spec_refine_at(chunk@, split_positions@, self.config().min_tokens),
    {
        if split_positions.len() == 0 {
            let ghost c = chunk@;
            let mut one: Vec<RawChunk> = Vec::new();
            one.push(chunk);
            assert(chunks_view(one@) =~= seq![c]);
            return one;
        }
        let segments = split_chunk_at(&chunk, split_positions);
        merge_tiny_segments(segments, self.config.min_tokens, &self.counter)
    }
}

// ───────────────────────────── laws ─────────────────────────────

/// All blocks of `segs`, in order.
pub open spec fn all_blocks(segs: Seq<ChunkV>) -> Seq<BlockV> {
    segs.map_values(|c: ChunkV| c.blocks).flatten()
}

proof fn lemma_first_tiny(segs: Seq<ChunkV>, min: u32, j: int)
    requires
        0 <= j,
    ensures
        match first_tiny(segs, min, j) {
            Some(i) => j <= i < segs.len() && segs[i].token_count < min,
            None => forall|k: int| j <= k < segs.len() ==> (#[trigger] segs[k]).token_count >= min,
        },
    decreases segs.len() - j,
{
    if j < segs.len() && segs[j].token_count >= min {
        lemma_first_tiny(segs, min, j + 1);
    }
}

/// Merging fragments `i` and `i + 1` keeps the blocks, in order.
proof fn lemma_merge_pair_blocks(segs: Seq<ChunkV>, i: int, merged: Seq<ChunkV>)
    requires
        0 <= i && i + 1 < segs.len(),
        merged.len() == segs.len() - 1,
        forall|k: int| 0 <= k < i ==> #[trigger] merged[k] == segs[k],
        forall|k: int| i < k < merged.len() ==> #[trigger] merged[k] == segs[k + 1],
        merged[i].blocks == segs[i].blocks + segs[i + 1].blocks,
    ensures
        all_blocks(merged) == all_blocks(segs),
{
    let m = segs.map_values(|c: ChunkV| c.blocks);
    let n = merged.map_values(|c: ChunkV| c.blocks);
    let a = m.take(i);
    let b = m.skip(i + 2);
    assert(m =~= a + (seq![m[i], m[i + 1]] + b));
    assert(n =~= a + (seq![n[i]] + b));
    vstd::seq_lib::lemma_flatten_concat(a, seq![m[i], m[i + 1]] + b);
    vstd::seq_lib::lemma_flatten_concat(seq![m[i], m[i + 1]], b);
    vstd::seq_lib::lemma_flatten_concat(a, seq![n[i]] + b);
    vstd::seq_lib::lemma_flatten_concat(seq![n[i]], b);
    assert(seq![m[i], m[i + 1]].drop_first() =~= seq![m[i + 1]]);
    assert(seq![m[i + 1]].drop_first() =~= Seq::<Seq<BlockV>>::empty());
    assert(seq![n[i]].drop_first() =~= Seq::<Seq<BlockV>>::empty());
    assert(seq![m[i], m[i + 1]].flatten() =~= m[i] + m[i + 1]) by {
        reveal_with_fuel(Seq::<Seq<BlockV>>::flatten, 3);
    }
    assert(seq![n[i]].flatten() =~= n[i]) by {
        reveal_with_fuel(Seq::<Seq<BlockV>>::flatten, 2);
    }
}

proof fn lemma_merge_loop(segs: Seq<ChunkV>, min: u32)
    ensures
        segs.len() > 0 ==> merge_loop(segs, min).len() > 0,
        merge_loop(segs, min).len() <= segs.len(),
        merge_loop(segs, min).len() > 1 ==> forall|k: int|
            0 <= k < merge_loop(segs, min).len() ==> (#[trigger] merge_loop(segs, min)[k]).token_count >= min,
        all_blocks(merge_loop(segs, min)) == all_blocks(segs),
    decreases segs.len(),
{
    lemma_first_tiny(segs, min, 0);
    match first_tiny(segs, min, 0) {
        None => {},
        Some(i) => {
            if 0 <= i && i + 1 < segs.len() {
                let m = merge_next(segs, i);
                assert forall|k: int| 0 <= k < i implies #[trigger] m[k] == segs[k] by {}
                assert forall|k: int| i < k < m.len() implies #[trigger] m[k] == segs[k + 1] by {}
                lemma_merge_pair_blocks(segs, i, m);
                lemma_merge_loop(m, min);
            } else if 0 < i < segs.len() {
                let m = merge_prev(segs, i);
                assert forall|k: int| 0 <= k < i - 1 implies #[trigger] m[k] == segs[k] by {}
                assert forall|k: int| i - 1 < k < m.len() implies #[trigger] m[k] == segs[k + 1] by {}
                lemma_merge_pair_blocks(segs, i - 1, m);
                lemma_merge_loop(m, min);
            }
        },
    }
}

/// Merging tiny fragments loses no content and leaves none tiny: the blocks
/// of the result are those of the fragments, in order; unless a single
/// fragment remains, every fragment has at least `min` tokens.
pub proof fn law_merge_tiny_keeps_blocks_and_leaves_none_tiny(segs: Seq<ChunkV>, min: u32)
    ensures
        segs.len() > 0 ==> spec_merge_tiny(segs, min).len() > 0,
        spec_merge_tiny(segs, min).len() > 1 ==> forall|k: int|
            0 <= k < spec_merge_tiny(segs, min).len() ==> (#[trigger] spec_merge_tiny(segs, min)[k]).token_count
                >= min,
        all_blocks(spec_merge_tiny(segs, min)) == all_blocks(segs),
{
    let r = segs.map_values(|c: ChunkV| recounted(c));
    lemma_merge_loop(r, min);
    assert(r.map_values(|c: ChunkV| c.blocks) =~= segs.map_values(|c: ChunkV| c.blocks));
}

proof fn lemma_split_state_blocks(bs: Seq<BlockV>, splits: Seq<usize>, k: int)
    requires
        0 <= k <= bs.len(),
    ensures
        split_state(bs, splits, k).segs.flatten() + split_state(bs, splits, k).cur == bs.take(k),
    decreases k,
{
    if k > 0 {
        lemma_split_state_blocks(bs, splits, k - 1);
        let st = split_state(bs, splits, k - 1);
        let cur = st.cur.push(bs[k - 1]);
        st.segs.lemma_flatten_push(cur);
        assert(bs.take(k) =~= bs.take(k - 1).push(bs[k - 1]));
        assert(st.segs.flatten() + cur =~= (st.segs.flatten() + st.cur).push(bs[k - 1]));
    } else {
        assert(bs.take(0) =~= Seq::<BlockV>::empty());
    }
}

/// Cutting a chunk at paragraph positions keeps its blocks, in order.
pub proof fn law_split_keeps_blocks(chunk: ChunkV, splits: Seq<usize>)
    ensures
        all_blocks(spec_split_chunk(chunk, splits)) == chunk.blocks,
{
    let bs = chunk.blocks;
    lemma_split_state_blocks(bs, splits, bs.len() as int);
    assert(bs.take(bs.len() as int) =~= bs);
    let st = split_state(bs, splits, bs.len() as int);
    let f = split_blocks(bs, splits);
    if st.cur.len() > 0 {
        st.segs.lemma_flatten_push(st.cur);
    } else {
        assert(st.segs.flatten() + st.cur =~= st.segs.flatten());
    }
    assert(f.flatten() == bs);
    if f.len() == 0 {
        let one = seq![chunk].map_values(|c: ChunkV| c.blocks);
        assert(one =~= seq![bs]);
        assert(one.flatten() =~= bs) by {
            reveal_with_fuel(Seq::<Seq<BlockV>>::flatten, 2);
        }
    } else {
        let segs = f.map_values(|b: Seq<BlockV>| segment_of(chunk, b));
        assert(segs.map_values(|c: ChunkV| c.blocks) =~= f);
    }
}

/// Refining a chunk at given split positions loses no content: the blocks
/// of the resulting chunks are the chunk's blocks, in order.
pub proof fn law_refine_keeps_blocks(chunk: ChunkV, splits: Seq<usize>, min: u32)
    ensures
        all_blocks(spec_refine_at(chunk, splits, min)) == chunk.blocks,
{
    if splits.len() == 0 {
        let one = seq![chunk].map_values(|c: ChunkV| c.blocks);
        assert(one =~= seq![chunk.blocks]);
        assert(one.flatten() =~= chunk.blocks) by {
            reveal_with_fuel(Seq::<Seq<BlockV>>::flatten, 2);
        }
    } else {
        law_split_keeps_blocks(chunk, splits);
        law_merge_tiny_keeps_blocks_and_leaves_none_tiny(spec_split_chunk(chunk, splits), min);
    }
}

} // verus!
