//! Nodes of the indexed document tree and the documents they belong to.
use vstd::prelude::*;

use crate::error::LoreError;
use crate::text::{chars_of, concat3, eq_lit, string_of};

verus! {

/// The three kinds of node stored for a document.
#[derive(Debug, Clone, Copy, PartialEq, Eq, Hash, Structural)]
pub enum NodeKind {
    /// A heading node: carries breadcrumb context, never a search result.
    Heading,
    /// A prose chunk — one or more paragraphs under a heading.
    Chunk,
    /// A code block, always kept whole.
    CodeBlock,
}

/// The lowercase name stored in the database for each kind.
pub open spec fn kind_name(k: NodeKind) -> Seq<char> {
    match k {
        NodeKind::Heading => "heading"@,
        NodeKind::Chunk => "chunk"@,
        NodeKind::CodeBlock => "code_block"@,
    }
}

impl NodeKind {
    /// Returns the lowercase string representation stored in the database.
    pub fn as_str(self) -> (r: &'static str)
        ensures
            r@ == kind_name(self),
    {
        match self {
            NodeKind::Heading => "heading",
            NodeKind::Chunk => "chunk",
            NodeKind::CodeBlock => "code_block",
        }
    }

    /// Parses the stored name of a kind; any other text is a schema error
    /// `unknown node kind: "<text>"`.
    pub fn from_name(s: &str) -> (r: Result<NodeKind, LoreError>)
        ensures
            s@ == "heading"@ ==> r == Ok::<NodeKind, LoreError>(NodeKind::Heading),
            s@ == "chunk"@ ==> r == Ok::<NodeKind, LoreError>(NodeKind::Chunk),
            s@ == "code_block"@ ==> r == Ok::<NodeKind, LoreError>(NodeKind::CodeBlock),
            s@ != "heading"@ && s@ != "chunk"@ && s@ != "code_block"@ ==> (r matches Err(
                LoreError::Schema(m),
            ) && m@ == "unknown node kind: \""@ + s@ + "\""@),
    {
        let v = chars_of(s);
        proof {
            reveal_strlit("heading");
            reveal_strlit("chunk");
            reveal_strlit("code_block");
            assert("heading"@.len() != "chunk"@.len());
            assert("chunk"@.len() != "code_block"@.len());
            assert("heading"@[0] != "code_block"@[0]);
        }
        if eq_lit(&v, "heading") {
            Ok(NodeKind::Heading)
        } else if eq_lit(&v, "chunk") {
            Ok(NodeKind::Chunk)
        } else if eq_lit(&v, "code_block") {
            Ok(NodeKind::CodeBlock)
        } else {
            Err(LoreError::Schema(concat3("unknown node kind: \"", &v, "\"")))
        }
    }
}

impl<'a> TryFrom<&'a str> for NodeKind {
    type Error = LoreError;

    fn try_from(s: &'a str) -> (r: Result<NodeKind, LoreError>)
        ensures
            s@ == "heading"@ ==> r == Ok::<NodeKind, LoreError>(NodeKind::Heading),
            s@ == "chunk"@ ==> r == Ok::<NodeKind, LoreError>(NodeKind::Chunk),
            s@ == "code_block"@ ==> r == Ok::<NodeKind, LoreError>(NodeKind::CodeBlock),
            s@ != "heading"@ && s@ != "chunk"@ && s@ != "code_block"@ ==> (r matches Err(
                LoreError::Schema(m),
            ) && m@ == "unknown node kind: \""@ + s@ + "\""@),
    {
        NodeKind::from_name(s)
    }
}

impl<'a> vstd::std_specs::convert::TryFromSpecImpl<&'a str> for NodeKind {
    /// The result is stated by the `ensures` of `try_from`; an error's text
    /// cannot be written as a spec value, so no spec function stands here.
    open spec fn obeys_try_from_spec() -> bool {
        false
    }

    open spec fn try_from_spec(v: &'a str) -> Result<NodeKind, LoreError> {
        arbitrary()
    }
}

/// A stored node, including its computed `path`.
#[derive(Debug, Clone)]
pub struct Node {
    /// Surrogate primary key.
    pub id: i64,
    /// Parent node id, or `None` for root-level nodes.
    pub parent_id: Option<i64>,
    /// Slash-separated ancestry, e.g. `"1/4/9/23"`.
    pub path: String,
    /// The document this node belongs to.
    pub doc_id: i64,
    /// Heading, prose chunk, or code block.
    pub kind: NodeKind,
    /// Heading level (1–6); `None` for chunks and code blocks.
    pub level: Option<u8>,
    /// Heading text, or `None` for non-heading nodes.
    pub title: Option<String>,
    /// Textual content, or `None` for heading-only nodes.
    pub content: Option<String>,
    /// Approximate token count of the content.
    pub token_count: u32,
    /// Programming language of a code block, or `None`.
    pub lang: Option<String>,
}

/// The fields a caller supplies to insert a node; `id` and `path` are
/// assigned on insertion.
#[derive(Debug, Clone)]
pub struct NewNode {
    /// Parent node id, or `None` for root-level nodes.
    pub parent_id: Option<i64>,
    /// The document this node belongs to.
    pub doc_id: i64,
    /// Heading, prose chunk, or code block.
    pub kind: NodeKind,
    /// Heading level (1–6); `None` for chunks and code blocks.
    pub level: Option<u8>,
    /// Heading text, or `None` for non-heading nodes.
    pub title: Option<String>,
    /// Textual content, or `None` for heading-only nodes.
    pub content: Option<String>,
    /// Approximate token count of the content.
    pub token_count: u32,
    /// Programming language of a code block, or `None`.
    pub lang: Option<String>,
}

/// A documentation file.
#[derive(Debug, Clone)]
pub struct Doc {
    /// Surrogate primary key.
    pub id: i64,
    /// Path of the file relative to the documentation root.
    pub path: String,
    /// Document title, if one was found.
    pub title: Option<String>,
}

/// Naming a kind and reading the name back gives the same kind.
pub proof fn law_kind_name_round_trip(k: NodeKind)
    ensures
        kind_name(k) == "heading"@ ==> k == NodeKind::Heading,
        kind_name(k) == "chunk"@ ==> k == NodeKind::Chunk,
        kind_name(k) == "code_block"@ ==> k == NodeKind::CodeBlock,
{
    reveal_strlit("heading");
    reveal_strlit("chunk");
    reveal_strlit("code_block");
    match k {
        NodeKind::Heading => {
            assert("heading"@ != "chunk"@ && "heading"@ != "code_block"@) by {
                assert("heading"@.len() != "chunk"@.len());
                assert("heading"@[0] != "code_block"@[0]);
            }
        },
        NodeKind::Chunk => {
            assert("chunk"@ != "heading"@ && "chunk"@ != "code_block"@) by {
                assert("heading"@.len() != "chunk"@.len());
                assert("chunk"@.len() != "code_block"@.len());
            }
        },
        NodeKind::CodeBlock => {
            assert("code_block"@ != "heading"@ && "code_block"@ != "chunk"@) by {
                assert("heading"@[0] != "code_block"@[0]);
                assert("chunk"@.len() != "code_block"@.len());
            }
        },
    }
}

// ───────────────────────────── materialized paths ─────────────────────────────

/// `s` cut at every `sep` (`str::split` with a `char` pattern): one piece
/// more than there are separators, empty pieces kept.
pub open spec fn split_at_char(s: Seq<char>, sep: char) -> Seq<Seq<char>>
    decreases s.len(),
{
    if s.len() == 0 {
        seq![seq![]]
    } else {
        let p = split_at_char(s.drop_last(), sep);
        if s.last() == sep {
            p.push(seq![])
        } else {
            p.update(p.len() - 1, p.last().push(s.last()))
        }
    }
}

pub proof fn lemma_split_at_char_nonempty(s: Seq<char>, sep: char)
    ensures
        split_at_char(s, sep).len() >= 1,
    decreases s.len(),
{
    if s.len() > 0 {
        lemma_split_at_char_nonempty(s.drop_last(), sep);
    }
}

/// Every character of `d` is an ASCII digit.
pub open spec fn all_digits(d: Seq<char>) -> bool {
    forall|i: int| 0 <= i < d.len() ==> crate::text::is_ascii_digit(#[trigger] d[i])
}

/// The value of a string of decimal digits.
pub open spec fn digits_value(d: Seq<char>) -> int
    decreases d.len(),
{
    if d.len() == 0 {
        0
    } else {
        10 * digits_value(d.drop_last()) + (d.last() as int - '0' as int)
    }
}

proof fn lemma_digits_value_nonneg(d: Seq<char>)
    requires
        all_digits(d),
    ensures
        digits_value(d) >= 0,
    decreases d.len(),
{
    if d.len() > 0 {
        lemma_digits_value_nonneg(d.drop_last());
    }
}

/// `str::parse::<i64>`: an optional `+` or `-`, then one or more ASCII
/// digits, whose value lies in the range of `i64`.
pub open spec fn parse_i64(s: Seq<char>) -> Option<i64> {
    let signed = s.len() > 0 && (s[0] == '+' || s[0] == '-');
    let d = if signed { s.drop_first() } else { s };
    let v = if s.len() > 0 && s[0] == '-' { -digits_value(d) } else { digits_value(d) };
    if d.len() == 0 || !all_digits(d) || v < i64::MIN || v > i64::MAX {
        None
    } else {
        Some(v as i64)
    }
}

/// The integer `s` spells (see [`parse_i64`]), if any.
pub fn parse_id(s: &Vec<char>) -> (r: Option<i64>)
    ensures
        r == parse_i64(s@),
{
    let n = s.len();
    let neg = n > 0 && s[0] == '-';
    let start: usize = if n > 0 && (s[0] == '+' || s[0] == '-') { 1 } else { 0 };
    let ghost d = s@.skip(start as int);
    proof {
        if start == 1 {
            assert(d =~= s@.drop_first());
        } else {
            assert(d =~= s@);
        }
    }
    if start == n {
        return None;
    }
    let mut j: usize = start;
    let mut m: u128 = 0;
    let mut big = false;
    assert(d.take(0) =~= Seq::<char>::empty());
    while j < n
        invariant
            start <= j <= n,
            n == s.len(),
            d == s@.skip(start as int),
            start == (if n > 0 && (s@[0] == '+' || s@[0] == '-') { 1usize } else { 0usize }),
            neg == (n > 0 && s@[0] == '-'),
            d == (if start == 1 { s@.drop_first() } else { s@ }),
            all_digits(d.take(j - start)),
            !big ==> m == digits_value(d.take(j - start)) && m <= 0x8000_0000_0000_0000,
            big ==> digits_value(d.take(j - start)) > 0x8000_0000_0000_0000,
        decreases n - j,
    {
        let c = s[j];
        if c < '0' || c > '9' {
            proof {
                assert(d[j - start] == c);
            }
            return None;
        }
        let u = c as u32;
        let ghost k = (j - start) as int;
        proof {
            assert(d.take(k + 1).drop_last() =~= d.take(k));
            assert(d.take(k + 1).last() == c);
            lemma_digits_value_nonneg(d.take(k));
            assert(all_digits(d.take(k + 1)));
        }
        if !big {
            let v = m * 10 + ((u - 48) as u128);
            if v > 0x8000_0000_0000_0000 {
                big = true;
            } else {
                m = v;
            }
        }
        j = j + 1;
    }
    assert(d.take(n - start) =~= d);
    if big {
        return None;
    }
    if neg {
        if m == 0x8000_0000_0000_0000 {
            Some(i64::MIN)
        } else {
            let v = m as i64;
            Some(-v)
        }
    } else if m > 0x7fff_ffff_ffff_ffff {
        None
    } else {
        Some(m as i64)
    }
}

/// The ids among the pieces `segs` that parse, other than `self_id`, in
/// order.
pub open spec fn ids_in(segs: Seq<Seq<char>>, self_id: i64) -> Seq<i64>
    decreases segs.len(),
{
    if segs.len() == 0 {
        seq![]
    } else {
        let r = ids_in(segs.drop_last(), self_id);
        match parse_i64(segs.last()) {
            Some(v) => if v != self_id {
                r.push(v)
            } else {
                r
            },
            None => r,
        }
    }
}

/// The ancestor ids a node's materialized path names: its `/`-separated
/// pieces that are integers, the node's own id left out.
pub open spec fn ancestor_ids(path: Seq<char>, self_id: i64) -> Seq<i64> {
    ids_in(split_at_char(path, '/'), self_id)
}

/// The ancestor ids of the node `self_id` with materialized path `path`
/// (for `"1/4/9/23"` and node 23: `[1, 4, 9]`).
pub fn ancestor_ids_from_path(path: &str, self_id: i64) -> (r: Vec<i64>)
    ensures
        r@ == ancestor_ids(path@, self_id),
{
    let s = chars_of(path);
    let mut out: Vec<i64> = Vec::new();
    let mut cur: Vec<char> = Vec::new();
    let mut i: usize = 0;
    assert(s@.take(0) =~= Seq::<char>::empty());
    while i < s.len()
        invariant
            i <= s.len(),
            split_at_char(s@.take(i as int), '/').len() >= 1,
            cur@ == split_at_char(s@.take(i as int), '/').last(),
            out@ == ids_in(split_at_char(s@.take(i as int), '/').drop_last(), self_id),
        decreases s.len() - i,
    {
        let ghost p = split_at_char(s@.take(i as int), '/');
        proof {
            assert(s@.take(i + 1).drop_last() =~= s@.take(i as int));
            assert(s@.take(i + 1).last() == s@[i as int]);
        }
        if s[i] == '/' {
            let id = parse_id(&cur);
            if let Some(v) = id {
                if v != self_id {
                    out.push(v);
                }
            }
            cur = Vec::new();
            proof {
                assert(p.push(seq![]).drop_last() =~= p);
                assert(p.push(seq![]).last() =~= Seq::<char>::empty());
            }
        } else {
            cur.push(s[i]);
            proof {
                let q = p.update(p.len() - 1, p.last().push(s@[i as int]));
                assert(q.drop_last() =~= p.drop_last());
            }
        }
        i = i + 1;
    }
    let ghost p = split_at_char(s@.take(i as int), '/');
    let id = parse_id(&cur);
    if let Some(v) = id {
        if v != self_id {
            out.push(v);
        }
    }
    assert(s@.take(i as int) =~= path@);
    out
}

/// The text of a node id in a materialized path (`i64::to_string`).
pub open spec fn id_text(id: i64) -> Seq<char> {
    if id < 0 {
        seq!['-'] + crate::manifest::decimal((-id) as nat)
    } else {
        crate::manifest::decimal(id as nat)
    }
}

/// The materialized path of a chain of nodes, root first: their ids joined
/// by `/`.
pub open spec fn path_of(chain: Seq<i64>) -> Seq<char> {
    crate::text::join(chain.map_values(|id: i64| id_text(id)), "/"@)
}

/// The path of a new node: its parent's path and its own id, or the id alone
/// for a root.
pub open spec fn spec_child_path(parent_path: Option<Seq<char>>, id: i64) -> Seq<char> {
    match parent_path {
        Some(p) => p + "/"@ + id_text(id),
        None => id_text(id),
    }
}

fn decimal_u64(n: u64) -> (r: Vec<char>)
    ensures
        r@ == crate::manifest::decimal(n as nat),
    decreases n,
{
    let d = (48u8 + ((n % 10) as u8)) as char;
    if n < 10 {
        let mut r: Vec<char> = Vec::new();
        r.push(d);
        assert(r@ =~= crate::manifest::decimal(n as nat));
        r
    } else {
        let mut r = decimal_u64(n / 10);
        r.push(d);
        r
    }
}

/// The path a node gets when it is stored under `parent_path` (or as a
/// root) with id `id`.
pub fn child_path(parent_path: Option<&str>, id: i64) -> (r: String)
    ensures
        r@ == spec_child_path(
            match parent_path {
                Some(p) => Some(p@),
                None => None,
            },
            id,
        ),
{
    let mut t: Vec<char> = Vec::new();
    if id < 0 {
        t.push('-');
        let m: u64 = if id == i64::MIN {
            0x8000_0000_0000_0000u64
        } else {
            (-id) as u64
        };
        let d = decimal_u64(m);
        crate::text::push_all(&mut t, &d);
        assert(t@ =~= id_text(id));
    } else {
        t = decimal_u64(id as u64);
    }
    match parent_path {
        Some(p) => {
            let mut out = chars_of(p);
            crate::text::push_lit(&mut out, "/");
            crate::text::push_all(&mut out, &t);
            proof {
                assert(out@ =~= p@ + "/"@ + id_text(id));
            }
            string_of(&out)
        },
        None => string_of(&t),
    }
}

proof fn lemma_decimal_digits(n: nat)
    ensures
        crate::manifest::decimal(n).len() > 0,
        all_digits(crate::manifest::decimal(n)),
        digits_value(crate::manifest::decimal(n)) == n,
        !crate::manifest::decimal(n).contains('/'),
    decreases n,
{
    let d = crate::manifest::decimal(n);
    if n < 10 {
        assert(d.last() == d[0]);
        assert(d.drop_last() =~= Seq::<char>::empty());
        assert(d[0] as int == 48 + n);
        assert('0' as int == 48);
        assert(digits_value(d) == 10 * digits_value(d.drop_last()) + (d.last() as int - '0' as int));
    } else {
        lemma_decimal_digits(n / 10);
        let p = crate::manifest::decimal(n / 10);
        assert(d.drop_last() =~= p);
        assert(d.last() as int == 48 + n % 10);
        assert(n == 10 * (n / 10) + n % 10);
        assert('0' as int == 48);
        assert(digits_value(d) == 10 * digits_value(d.drop_last()) + (d.last() as int - '0' as int));
        assert forall|i: int| 0 <= i < d.len() implies crate::text::is_ascii_digit(#[trigger] d[i]) by {
            if i < p.len() {
                assert(d[i] == p[i]);
            }
        }
        assert(!d.contains('/')) by {
            if d.contains('/') {
                let i = choose|i: int| 0 <= i < d.len() && d[i] == '/';
                if i < p.len() {
                    assert(p[i] == '/');
                }
            }
        }
    }
}

proof fn lemma_parse_id_text(v: i64)
    ensures
        parse_i64(id_text(v)) == Some(v),
        !id_text(v).contains('/'),
{
    let t = id_text(v);
    if v < 0 {
        let d = crate::manifest::decimal((-v) as nat);
        lemma_decimal_digits((-v) as nat);
        assert(t.drop_first() =~= d);
        assert(!t.contains('/')) by {
            if t.contains('/') {
                let i = choose|i: int| 0 <= i < t.len() && t[i] == '/';
                assert(d[i - 1] == '/');
            }
        }
    } else {
        let d = crate::manifest::decimal(v as nat);
        lemma_decimal_digits(v as nat);
        assert(crate::text::is_ascii_digit(d[0]));
    }
}

/// Splitting `s + b` where `b` holds no separator extends the last piece of
/// `s` by `b`.
proof fn lemma_split_append_plain(s: Seq<char>, b: Seq<char>, sep: char)
    requires
        !b.contains(sep),
    ensures
        split_at_char(s + b, sep) == split_at_char(s, sep).update(
            split_at_char(s, sep).len() - 1,
            split_at_char(s, sep).last() + b,
        ),
    decreases b.len(),
{
    lemma_split_at_char_nonempty(s, sep);
    if b.len() == 0 {
        assert(s + b =~= s);
        assert(split_at_char(s, sep).last() + b =~= split_at_char(s, sep).last());
        assert(split_at_char(s, sep).update(split_at_char(s, sep).len() - 1, split_at_char(s, sep).last())
            =~= split_at_char(s, sep));
    } else {
        let b0 = b.drop_last();
        assert(!b0.contains(sep)) by {
            if b0.contains(sep) {
                let i = choose|i: int| 0 <= i < b0.len() && b0[i] == sep;
                assert(b[i] == sep);
            }
        }
        lemma_split_append_plain(s, b0, sep);
        assert((s + b).drop_last() =~= s + b0);
        assert((s + b).last() == b.last());
        assert(b.last() != sep) by {
            assert(b[b.len() - 1] == b.last());
        }
        let p = split_at_char(s, sep);
        assert((p.last() + b0).push(b.last()) =~= p.last() + b);
        assert(p.update(p.len() - 1, p.last() + b0).update(p.len() - 1, p.last() + b)
            =~= p.update(p.len() - 1, p.last() + b));
    }
}

/// Joining pieces without the separator and splitting again gives the pieces
/// back.
proof fn lemma_split_join(parts: Seq<Seq<char>>, sep: char)
    requires
        parts.len() >= 1,
        forall|i: int| 0 <= i < parts.len() ==> !(#[trigger] parts[i]).contains(sep),
    ensures
        split_at_char(crate::text::join(parts, seq![sep]), sep) == parts,
    decreases parts.len(),
{
    if parts.len() == 1 {
        lemma_split_append_plain(seq![], parts[0], sep);
        assert(Seq::<char>::empty() + parts[0] =~= parts[0]);
        assert(seq![Seq::<char>::empty()].update(0, Seq::<char>::empty() + parts[0]) =~= parts);
    } else {
        let head = parts.drop_last();
        assert forall|i: int| 0 <= i < head.len() implies !(#[trigger] head[i]).contains(sep) by {
            assert(head[i] == parts[i]);
        }
        lemma_split_join(head, sep);
        let x = crate::text::join(head, seq![sep]);
        assert(!parts.last().contains(sep)) by {
            assert(parts[parts.len() - 1] == parts.last());
        }
        lemma_split_at_char_nonempty(x, sep);
        assert((x + seq![sep]).drop_last() =~= x);
        assert((x + seq![sep]).last() == sep);
        lemma_split_append_plain(x + seq![sep], parts.last(), sep);
        assert(x + seq![sep] + parts.last() =~= crate::text::join(parts, seq![sep]));
        assert(head.push(Seq::<char>::empty()).update(head.len() as int, Seq::<char>::empty() + parts.last())
            =~= parts);
    }
}

proof fn lemma_ids_in_chain(chain: Seq<i64>, self_id: i64)
    requires
        forall|i: int| 0 <= i < chain.len() ==> chain[i] != self_id,
    ensures
        ids_in(chain.map_values(|id: i64| id_text(id)), self_id) == chain,
    decreases chain.len(),
{
    let ts = chain.map_values(|id: i64| id_text(id));
    if chain.len() > 0 {
        lemma_ids_in_chain(chain.drop_last(), self_id);
        assert(ts.drop_last() =~= chain.drop_last().map_values(|id: i64| id_text(id)));
        lemma_parse_id_text(chain.last());
        assert(chain[chain.len() - 1] != self_id);
        assert(chain.drop_last().push(chain.last()) =~= chain);
    } else {
        assert(ts =~= Seq::<Seq<char>>::empty());
    }
}

/// What a stored path gives back: the path a node receives when it is
/// stored below the chain `chain` of ancestors (each path built from its
/// parent's, as [`child_path`] builds it) names exactly that chain, root
/// first, and a root names none.
pub proof fn law_stored_path_names_its_ancestors(chain: Seq<i64>, self_id: i64)
    requires
        forall|i: int| 0 <= i < chain.len() ==> chain[i] != self_id,
    ensures
        chain.len() == 0 ==> path_of(chain.push(self_id)) == spec_child_path(None, self_id),
        chain.len() > 0 ==> path_of(chain.push(self_id)) == spec_child_path(Some(path_of(chain)), self_id),
        ancestor_ids(path_of(chain.push(self_id)), self_id) == chain,
{
    let full = chain.push(self_id);
    let ts = full.map_values(|id: i64| id_text(id));
    reveal_strlit("/");
    assert("/"@ =~= seq!['/']);
    assert(ts.drop_last() =~= chain.map_values(|id: i64| id_text(id)));
    assert(ts.last() == id_text(self_id));
    if chain.len() == 0 {
        assert(ts.len() == 1);
    }
    assert forall|i: int| 0 <= i < ts.len() implies !(#[trigger] ts[i]).contains('/') by {
        lemma_parse_id_text(full[i]);
    }
    lemma_split_join(ts, '/');
    lemma_ids_in_chain(chain, self_id);
    lemma_parse_id_text(self_id);
    assert(ts.drop_last() =~= chain.map_values(|id: i64| id_text(id)));
}

/// The title found for node `id` among `(id, title)` rows: that of the last
/// row for `id` (`None` when there is none, or the row has no title).
pub open spec fn title_of(rows: Seq<(i64, Option<Seq<char>>)>, id: i64) -> Option<Seq<char>>
    decreases rows.len(),
{
    if rows.len() == 0 {
        None
    } else if rows.last().0 == id {
        rows.last().1
    } else {
        title_of(rows.drop_last(), id)
    }
}

/// The titles of the ancestors `ids`, in their order, those without a title
/// left out.
pub open spec fn titles_along(ids: Seq<i64>, rows: Seq<(i64, Option<Seq<char>>)>) -> Seq<Seq<char>>
    decreases ids.len(),
{
    if ids.len() == 0 {
        seq![]
    } else {
        let r = titles_along(ids.drop_last(), rows);
        match title_of(rows, ids.last()) {
            Some(t) => r.push(t),
            None => r,
        }
    }
}

pub open spec fn title_rows_view(v: Seq<(i64, Option<String>)>) -> Seq<(i64, Option<Seq<char>>)> {
    v.map_values(|e: (i64, Option<String>)| (e.0, crate::parser::opt_view(e.1)))
}

fn title_lookup(rows: &Vec<(i64, Option<String>)>, id: i64) -> (r: Option<String>)
    ensures
        crate::parser::opt_view(r) == title_of(title_rows_view(rows@), id),
{
    let ghost rv = title_rows_view(rows@);
    let mut k: usize = rows.len();
    assert(rv.take(k as int) =~= rv);
    while k > 0
        invariant
            k <= rows.len(),
            rv == title_rows_view(rows@),
            title_of(rv, id) == title_of(rv.take(k as int), id),
        decreases k,
    {
        proof {
            assert(rv.take(k as int).drop_last() =~= rv.take(k - 1));
            assert(rv.take(k as int).last() == rv[k - 1]);
        }
        if rows[k - 1].0 == id {
            return match &rows[k - 1].1 {
                Some(t) => Some(t.as_str().to_string()),
                None => None,
            };
        }
        k = k - 1;
    }
    assert(rv.take(0) =~= Seq::<(i64, Option<Seq<char>>)>::empty());
    None
}

/// The heading path of a node: the titles of its heading ancestors (`rows`,
/// as the store returned them) in the order of `ancestor_ids`, root first;
/// an ancestor with no row or no title is left out.
pub fn heading_titles_in_order(ancestor_ids: &[i64], rows: &Vec<(i64, Option<String>)>) -> (r: Vec<String>)
    ensures
        crate::chunker::strings_view(r@) == titles_along(ancestor_ids@, title_rows_view(rows@)),
{
    let ghost rv = title_rows_view(rows@);
    let mut out: Vec<String> = Vec::new();
    let mut i: usize = 0;
    assert(ancestor_ids@.take(0) =~= Seq::<i64>::empty());
    while i < ancestor_ids.len()
        invariant
            i <= ancestor_ids.len(),
            rv == title_rows_view(rows@),
            crate::chunker::strings_view(out@) == titles_along(ancestor_ids@.take(i as int), rv),
        decreases ancestor_ids.len() - i,
    {
        proof {
            assert(ancestor_ids@.take(i + 1).drop_last() =~= ancestor_ids@.take(i as int));
            assert(ancestor_ids@.take(i + 1).last() == ancestor_ids@[i as int]);
        }
        let ghost o0 = out@;
        match title_lookup(rows, ancestor_ids[i]) {
            Some(t) => {
                out.push(t);
                assert(crate::chunker::strings_view(out@) =~= crate::chunker::strings_view(o0).push(out@[out@.len() - 1]@));
            },
            None => {},
        }
        i = i + 1;
    }
    assert(ancestor_ids@.take(i as int) =~= ancestor_ids@);
    out
}

/// `?k`: the `k`-th positional SQL parameter.
pub open spec fn placeholder(k: nat) -> Seq<char> {
    seq!['?'] + crate::manifest::decimal(k)
}

/// `?1, ?2, …, ?n`.
pub open spec fn placeholders(n: nat) -> Seq<char> {
    crate::text::join(Seq::new(n, |i: int| placeholder((i + 1) as nat)), ", "@)
}

/// The parameter list `?1, ?2, …, ?N` of an `IN (…)` clause over `ids`.
pub fn placeholders_for(ids: &[i64]) -> (r: String)
    ensures
        r@ == placeholders(ids.len() as nat),
{
    let mut parts: Vec<Vec<char>> = Vec::new();
    let mut i: usize = 0;
    while i < ids.len()
        invariant
            i <= ids.len(),
            parts.len() == i,
            forall|k: int| 0 <= k < i ==> (#[trigger] parts@[k])@ == placeholder((k + 1) as nat),
        decreases ids.len() - i,
    {
        let mut p: Vec<char> = Vec::new();
        p.push('?');
        let d = crate::manifest::decimal_usize(i + 1);
        crate::text::push_all(&mut p, &d);
        assert(p@ =~= placeholder((i + 1) as nat));
        parts.push(p);
        i = i + 1;
    }
    assert(parts@.map_values(|p: Vec<char>| p@) =~= Seq::new(ids.len() as nat, |k: int| placeholder((k + 1) as nat)));
    let sep = chars_of(", ");
    string_of(&crate::text::join_chars(&parts, &sep))
}

} // verus!
