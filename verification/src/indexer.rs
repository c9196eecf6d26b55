//! What the indexer computes per chunk: the text to embed (with its heading
//! breadcrumb in front), the stored content and language, and the per-file
//! counts.
use vstd::prelude::*;

use crate::chunker::{chunk_text, strings_view, RawChunk};
use crate::node::NodeKind;
use crate::parser::{opt_view, BlockV, ContentBlock};
use crate::text::{chars_of, join, join_chars, push_all, push_lit, string_of, trim};

verus! {

/// The text embedded for a chunk: its heading breadcrumb (`" > "` between
/// headings), a blank line, then the content; the content alone when there
/// is no heading.
pub open spec fn contextual_text(path: Seq<Seq<char>>, content: Seq<char>) -> Seq<char> {
    if path.len() == 0 {
        content
    } else {
        join(path, " > "@) + "\n\n"@ + content
    }
}

/// Builds the contextual text to embed for a chunk (see [`contextual_text`]).
pub fn build_contextual_text(heading_path: &[String], content: &str) -> (r: String)
    ensures
        r@ == contextual_text(strings_view(heading_path@), content@),
{
    if heading_path.len() == 0 {
        return content.to_string();
    }
    let mut parts: Vec<Vec<char>> = Vec::new();
    let mut i: usize = 0;
    while i < heading_path.len()
        invariant
            i <= heading_path.len(),
            parts@.map_values(|p: Vec<char>| p@) == strings_view(heading_path@).take(i as int),
        decreases heading_path.len() - i,
    {
        let ghost p0 = parts@;
        let c = chars_of(heading_path[i].as_str());
        parts.push(c);
        assert(parts@.map_values(|p: Vec<char>| p@) =~= p0.map_values(|p: Vec<char>| p@).push(heading_path@[i as int]@));
        assert(strings_view(heading_path@).take(i + 1) =~= strings_view(heading_path@).take(i as int).push(
            heading_path@[i as int]@,
        ));
        i = i + 1;
    }
    assert(strings_view(heading_path@).take(i as int) =~= strings_view(heading_path@));
    let sep = chars_of(" > ");
    let mut out = join_chars(&parts, &sep);
    push_lit(&mut out, "\n\n");
    let cc = chars_of(content);
    push_all(&mut out, &cc);
    string_of(&out)
}

impl RawChunk {
    /// The chunk's text to embed, or `None` when it is blank.
    pub fn text_for_embedding(&self) -> (r: Option<String>)
        ensures
            match r {
                Some(t) => t@ == chunk_text(self@.blocks) && trim(t@).len() > 0,
                None => trim(chunk_text(self@.blocks)).len() == 0,
            },
    {
        let t = self.text();
        let tc = chars_of(t.as_str());
        if crate::text::is_blank(&tc) {
            None
        } else {
            Some(t)
        }
    }

    /// The content stored for the chunk and its language: for a code chunk
    /// whose first block is code, that block's content and language;
    /// otherwise the chunk's text and no language.
    pub fn content_and_lang(&self) -> (r: (String, Option<String>))
        ensures
            match (self@.kind, self@.blocks.len() > 0) {
                (NodeKind::CodeBlock, true) => match self@.blocks[0] {
                    BlockV::Code(lang, content) => r.0@ == content && opt_view(r.1) == lang,
                    _ => r.0@ == chunk_text(self@.blocks) && r.1 is None,
                },
                _ => r.0@ == chunk_text(self@.blocks) && r.1 is None,
            },
    {
        if self.kind == NodeKind::CodeBlock && self.blocks.len() > 0 {
            match &self.blocks[0] {
                ContentBlock::Code { lang, content } => {
                    return (content.clone(), crate::chunker::copy_opt_string(lang));
                },
                _ => {},
            }
        }
        (self.text(), None)
    }
}

/// Counts gathered while indexing one file.
#[derive(Debug, Clone, Copy, Default)]
pub struct FileStats {
    /// Number of prose chunks inserted.
    pub chunk_count: u32,
    /// Number of code-block chunks inserted.
    pub code_block_count: u32,
    /// Total token count across all inserted chunks.
    pub total_tokens: u64,
}

impl FileStats {
    /// Counts `chunk`: a prose chunk or a code block adds one to its count
    /// and its tokens to the total; a heading adds nothing.
    pub fn accumulate(&mut self, chunk: &RawChunk)
        requires
            old(self).chunk_count < u32::MAX,
            old(self).code_block_count < u32::MAX,
            old(self).total_tokens + chunk.token_count <= u64::MAX,
        ensures
            chunk.kind == NodeKind::Chunk ==> final(self).chunk_count == old(self).chunk_count + 1
                && final(self).code_block_count == old(self).code_block_count
                && final(self).total_tokens == old(self).total_tokens + chunk.token_count,
            chunk.kind == NodeKind::CodeBlock ==> final(self).code_block_count == old(self).code_block_count
                + 1 && final(self).chunk_count == old(self).chunk_count && final(self).total_tokens
                == old(self).total_tokens + chunk.token_count,
            chunk.kind == NodeKind::Heading ==> *final(self) == *old(self),
    {
        match chunk.kind {
            NodeKind::Chunk => {
                self.chunk_count = self.chunk_count + 1;
                self.total_tokens = self.total_tokens + chunk.token_count as u64;
            },
            NodeKind::CodeBlock => {
                self.code_block_count = self.code_block_count + 1;
                self.total_tokens = self.total_tokens + chunk.token_count as u64;
            },
            NodeKind::Heading => {},
        }
    }
}

// ───────────────────────────── heading nodes of a document ─────────────────────────────

/// The id stored for heading path `key` among `es`: the first entry with
/// that path.
pub open spec fn id_for(es: Seq<(Seq<Seq<char>>, i64)>, key: Seq<Seq<char>>) -> Option<i64>
    decreases es.len(),
{
    if es.len() == 0 {
        None
    } else if es[0].0 == key {
        Some(es[0].1)
    } else {
        id_for(es.drop_first(), key)
    }
}

/// `es` with `key` mapped to `id`: the entry for `key` updated in place, or
/// a new entry at the end.
pub open spec fn with_id(es: Seq<(Seq<Seq<char>>, i64)>, key: Seq<Seq<char>>, id: i64) -> Seq<(Seq<Seq<char>>, i64)>
    decreases es.len(),
{
    if es.len() == 0 {
        seq![(key, id)]
    } else if es[0].0 == key {
        es.update(0, (key, id))
    } else {
        seq![es[0]] + with_id(es.drop_first(), key, id)
    }
}

/// The heading nodes already stored for one document, by heading path, so
/// that each heading of the document gets one node.
pub struct HeadingIds {
    entries: Vec<(Vec<String>, i64)>,
}

pub open spec fn heading_entry_view(e: (Vec<String>, i64)) -> (Seq<Seq<char>>, i64) {
    (strings_view(e.0@), e.1)
}

impl View for HeadingIds {
    type V = Seq<(Seq<Seq<char>>, i64)>;

    closed spec fn view(&self) -> Seq<(Seq<Seq<char>>, i64)> {
        self.entries@.map_values(|e: (Vec<String>, i64)| heading_entry_view(e))
    }
}

fn strings_eq(a: &[String], b: &[String]) -> (r: bool)
    ensures
        r == (strings_view(a@) == strings_view(b@)),
{
    if a.len() != b.len() {
        proof {
            assert(strings_view(a@).len() != strings_view(b@).len());
        }
        return false;
    }
    let mut i: usize = 0;
    while i < a.len()
        invariant
            i <= a.len(),
            a.len() == b.len(),
            forall|j: int| 0 <= j < i ==> a@[j]@ == b@[j]@,
        decreases a.len() - i,
    {
        let x = chars_of(a[i].as_str());
        let y = chars_of(b[i].as_str());
        if !crate::text::chars_eq(&x, &y) {
            proof {
                assert(strings_view(a@)[i as int] != strings_view(b@)[i as int]);
            }
            return false;
        }
        i = i + 1;
    }
    assert(strings_view(a@) =~= strings_view(b@));
    true
}

fn copy_strings(a: &[String]) -> (r: Vec<String>)
    ensures
        strings_view(r@) == strings_view(a@),
{
    let mut r: Vec<String> = Vec::new();
    let mut i: usize = 0;
    while i < a.len()
        invariant
            i <= a.len(),
            strings_view(r@) == strings_view(a@).take(i as int),
        decreases a.len() - i,
    {
        let ghost r0 = r@;
        r.push(a[i].as_str().to_string());
        assert(strings_view(r@) =~= strings_view(r0).push(a@[i as int]@));
        assert(strings_view(a@).take(i + 1) =~= strings_view(a@).take(i as int).push(a@[i as int]@));
        i = i + 1;
    }
    assert(strings_view(a@).take(a.len() as int) =~= strings_view(a@));
    r
}

impl HeadingIds {
    /// Nothing stored yet.
    pub fn new() -> (r: HeadingIds)
        ensures
            r@ == Seq::<(Seq<Seq<char>>, i64)>::empty(),
    {
        let r = HeadingIds { entries: Vec::new() };
        assert(r@ =~= Seq::<(Seq<Seq<char>>, i64)>::empty());
        r
    }

    /// The id of the heading node stored for the heading path `path`.
    pub fn lookup(&self, path: &[String]) -> (r: Option<i64>)
        ensures
            r == id_for(self@, strings_view(path@)),
    {
        let ghost es = self@;
        let mut i: usize = 0;
        assert(es.skip(0) =~= es);
        while i < self.entries.len()
            invariant
                i <= self.entries.len(),
                es == self@,
                es.len() == self.entries.len(),
                id_for(es, strings_view(path@)) == id_for(es.skip(i as int), strings_view(path@)),
            decreases self.entries.len() - i,
        {
            proof {
                assert(es.skip(i as int)[0] == es[i as int]);
                assert(es.skip(i as int).drop_first() =~= es.skip(i + 1));
                assert(es[i as int] == heading_entry_view(self.entries@[i as int]));
            }
            if strings_eq(self.entries[i].0.as_slice(), path) {
                return Some(self.entries[i].1);
            }
            i = i + 1;
        }
        assert(es.skip(i as int) =~= Seq::<(Seq<Seq<char>>, i64)>::empty());
        None
    }

    /// Stores `id` as the node of the heading path `path`.
    pub fn record(&mut self, path: &[String], id: i64)
        ensures
            final(self)@ == with_id(old(self)@, strings_view(path@), id),
    {
        let ghost es = self@;
        let ghost key = strings_view(path@);
        let mut i: usize = 0;
        assert(es.skip(0) =~= es);
        assert(es.take(0) + with_id(es.skip(0), key, id) =~= with_id(es, key, id));
        while i < self.entries.len()
            invariant
                i <= self.entries.len(),
                es == old(self)@,
                self@ == es,
                es.len() == self.entries.len(),
                with_id(es, key, id) == es.take(i as int) + with_id(es.skip(i as int), key, id),
                key == strings_view(path@),
            decreases self.entries.len() - i,
        {
            proof {
                assert(es.skip(i as int)[0] == es[i as int]);
                assert(es.skip(i as int).drop_first() =~= es.skip(i + 1));
                assert(es[i as int] == heading_entry_view(self.entries@[i as int]));
            }
            if strings_eq(self.entries[i].0.as_slice(), path) {
                self.entries.set(i, (copy_strings(path), id));
                proof {
                    assert(strings_view(path@) == key);
                    assert(self@ =~= es.take(i as int) + es.skip(i as int).update(0, (key, id)));
                }
                return;
            }
            proof {
                assert(es.take(i as int) + (seq![es.skip(i as int)[0]] + with_id(es.skip(i + 1), key, id))
                    =~= es.take(i + 1) + with_id(es.skip(i + 1), key, id));
            }
            i = i + 1;
        }
        self.entries.push((copy_strings(path), id));
        proof {
            assert(es.skip(i as int) =~= Seq::<(Seq<Seq<char>>, i64)>::empty());
            assert(es.take(i as int) =~= es);
            assert(self@ =~= es + seq![(key, id)]);
        }
    }
}

/// The level of the heading node at depth `depth` (from 1) of a heading
/// path: the recorded level, or the depth itself (as a `u8`) when none was
/// recorded.
pub fn heading_level_at(levels: &[u8], depth: usize) -> (r: u8)
    requires
        depth >= 1,
    ensures
        depth - 1 < levels.len() ==> r == levels@[depth - 1],
        depth - 1 >= levels.len() ==> r == depth as u8,
{
    if depth - 1 < levels.len() {
        levels[depth - 1]
    } else {
        depth as u8
    }
}

/// A read gives back the last write: after `id` is recorded for a heading
/// path, looking that path up gives `id`, and every other path gives what it
/// gave before.
pub proof fn law_recorded_heading_is_found(
    es: Seq<(Seq<Seq<char>>, i64)>,
    key: Seq<Seq<char>>,
    id: i64,
    other: Seq<Seq<char>>,
)
    ensures
        id_for(with_id(es, key, id), key) == Some(id),
        other != key ==> id_for(with_id(es, key, id), other) == id_for(es, other),
    decreases es.len(),
{
    if es.len() > 0 && es[0].0 != key {
        law_recorded_heading_is_found(es.drop_first(), key, id, other);
        let w = seq![es[0]] + with_id(es.drop_first(), key, id);
        assert(w[0] == es[0]);
        assert(w.drop_first() =~= with_id(es.drop_first(), key, id));
        assert(with_id(es, key, id) == w);
        assert(other != key ==> id_for(w, other) == id_for(es, other));
    } else if es.len() > 0 {
        let u = es.update(0, (key, id));
        assert(u.drop_first() =~= es.drop_first());
        assert(u[0] == (key, id));
        assert(with_id(es, key, id) == u);
        assert(other != key ==> id_for(u, other) == id_for(u.drop_first(), other));
        assert(other != key ==> id_for(es, other) == id_for(es.drop_first(), other));
    } else {
        let one = seq![(key, id)];
        assert(one.drop_first() =~= Seq::<(Seq<Seq<char>>, i64)>::empty());
        assert(one[0] == (key, id));
        assert(with_id(es, key, id) == one);
        assert(id_for(one.drop_first(), other) == None::<i64>);
    }
}

} // verus!
