//! API surfaces and their diff between two versions of a package.
//!
//! A surface maps each item (keyed by its heading breadcrumb, e.g.
//! `tokio::sync::Mutex`) to its one-line signature.  Diffing two surfaces
//! reports the items added, removed, and those whose signature changed.
use vstd::prelude::*;

use crate::chunker::strings_view;
use crate::text::{chars_of, lemma_text_before_order, lemma_text_before_trans, text_before, text_before_exec};

verus! {

/// A package's API surface: item key → one-line signature, keys in `str`
/// order, each once.
#[derive(Debug)]
pub struct ApiSurface {
    items: Vec<(String, String)>,
}

pub type Entries = Seq<(Seq<char>, Seq<char>)>;

pub open spec fn pairs_view(v: Seq<(String, String)>) -> Entries {
    v.map_values(|e: (String, String)| (e.0@, e.1@))
}

/// Keys strictly increasing.
pub open spec fn sorted_keys(es: Entries) -> bool {
    forall|i: int, j: int| 0 <= i < j < es.len() ==> text_before(#[trigger] es[i].0, #[trigger] es[j].0)
}

/// The signature of `key`, if present.
pub open spec fn lookup(es: Entries, key: Seq<char>) -> Option<Seq<char>>
    decreases es.len(),
{
    if es.len() == 0 {
        None
    } else if es[0].0 == key {
        Some(es[0].1)
    } else {
        lookup(es.drop_first(), key)
    }
}

impl View for ApiSurface {
    type V = Entries;

    closed spec fn view(&self) -> Entries {
        pairs_view(self.items@)
    }
}

/// Where `key` goes among the sorted entries: the first entry whose key is
/// not before it.
pub open spec fn key_pos(es: Entries, key: Seq<char>, j: int) -> int
    decreases es.len() - j,
{
    if j < 0 || j >= es.len() {
        es.len() as int
    } else if !text_before(es[j].0, key) {
        j
    } else {
        key_pos(es, key, j + 1)
    }
}

/// `es` with `key ↦ sig` added unless `key` is already present.
pub open spec fn add_entry(es: Entries, key: Seq<char>, sig: Seq<char>) -> Entries {
    let p = key_pos(es, key, 0);
    if p < es.len() && es[p].0 == key {
        es
    } else {
        es.insert(p, (key, sig))
    }
}

proof fn lemma_lookup_index(es: Entries, i: int)
    requires
        sorted_keys(es),
        0 <= i < es.len(),
    ensures
        lookup(es, es[i].0) == Some(es[i].1),
    decreases es.len(),
{
    if i > 0 {
        assert(text_before(es[0].0, es[i].0));
        lemma_text_before_order(es[0].0, es[i].0);
        let t = es.drop_first();
        assert(sorted_keys(t)) by {
            assert forall|a: int, b: int| 0 <= a < b < t.len() implies text_before(#[trigger] t[a].0, #[trigger] t[b].0) by {
                assert(t[a] == es[a + 1] && t[b] == es[b + 1]);
            }
        }
        lemma_lookup_index(t, i - 1);
    }
}

proof fn lemma_lookup_absent(es: Entries, key: Seq<char>)
    requires
        forall|i: int| 0 <= i < es.len() ==> (#[trigger] es[i]).0 != key,
    ensures
        lookup(es, key) is None,
    decreases es.len(),
{
    if es.len() > 0 {
        let t = es.drop_first();
        assert forall|i: int| 0 <= i < t.len() implies (#[trigger] t[i]).0 != key by {
            assert(t[i] == es[i + 1]);
        }
        lemma_lookup_absent(t, key);
    }
}

impl ApiSurface {
    #[verifier::type_invariant]
    spec fn keys_sorted(&self) -> bool {
        sorted_keys(pairs_view(self.items@))
    }

    /// An empty surface.
    pub fn new() -> (r: ApiSurface)
        ensures
            r@ == Seq::<(Seq<char>, Seq<char>)>::empty(),
    {
        let r = ApiSurface { items: Vec::new() };
        assert(pairs_view(r.items@) =~= seq![]);
        r
    }

    /// The entries, keys in `str` order.
    pub fn items(&self) -> (r: &Vec<(String, String)>)
        ensures
            pairs_view(r@) == self@,
            sorted_keys(self@),
    {
        proof {
            use_type_invariant(self);
        }
        &self.items
    }

    /// Adds `key ↦ sig` unless `key` is present already (the first signature
    /// recorded for a key wins).
    pub fn add(&mut self, key: String, sig: String)
        ensures
            final(self)@ == add_entry(old(self)@, key@, sig@),
            sorted_keys(final(self)@),
    {
        proof {
            use_type_invariant(&*self);
        }
        let ghost es = pairs_view(self.items@);
        let kc = chars_of(key.as_str());
        let mut p: usize = 0;
        assert(key_pos(es, key@, 0) == key_pos(es, key@, 0));
        while p < self.items.len() && text_before_exec(&chars_of(self.items[p].0.as_str()), &kc)
            invariant
                p <= self.items.len(),
                es == pairs_view(self.items@),
                kc@ == key@,
                key_pos(es, key@, 0) == key_pos(es, key@, p as int),
                forall|j: int| 0 <= j < p ==> text_before(#[trigger] es[j].0, key@),
            decreases self.items.len() - p,
        {
            assert(es[p as int] == (self.items@[p as int].0@, self.items@[p as int].1@));
            p = p + 1;
        }
        if p < self.items.len() {
            assert(es[p as int] == (self.items@[p as int].0@, self.items@[p as int].1@));
            let pc = chars_of(self.items[p].0.as_str());
            if crate::text::chars_eq(&pc, &kc) {
                return;
            }
        }
        let ghost v0 = self.items@;
        proof {
            assert forall|i: int, j: int| 0 <= i < j < es.insert(p as int, (key@, sig@)).len() implies text_before(
                #[trigger] es.insert(p as int, (key@, sig@))[i].0,
                #[trigger] es.insert(p as int, (key@, sig@))[j].0,
            ) by {
                let n = es.insert(p as int, (key@, sig@));
                if j < p {
                    assert(n[i] == es[i] && n[j] == es[j]);
                } else if j == p {
                    assert(n[i] == es[i]);
                } else if i == p {
                    assert(n[j] == es[j - 1]);
                    assert(!text_before(es[p as int].0, key@));
                    lemma_text_before_order(es[p as int].0, key@);
                    if j - 1 > p {
                        lemma_text_before_trans(key@, es[p as int].0, es[j - 1].0);
                    }
                } else if i < p {
                    assert(n[i] == es[i] && n[j] == es[j - 1]);
                } else {
                    assert(n[i] == es[i - 1] && n[j] == es[j - 1]);
                }
            }
        }
        let mut items: Vec<(String, String)> = Vec::new();
        std::mem::swap(&mut items, &mut self.items);
        items.insert(p, (key, sig));
        assert(pairs_view(items@) =~= es.insert(p as int, (key@, sig@)));
        self.items = items;
    }

    /// Records a code block: its signature is its first non-blank line
    /// (trimmed), its key the heading path joined with `::` (the signature
    /// itself when the path is empty or unknown); the first signature for a
    /// key wins.  A block without content or with only blank lines adds
    /// nothing.
    pub fn add_code_block(&mut self, content: &Option<String>, heading_path: &Option<Vec<String>>)
        ensures
            final(self)@ == match (content, code_signature(opt_content(*content))) {
                (Some(_), Some(sig)) => add_entry(old(self)@, block_key(opt_path(*heading_path), sig), sig),
                _ => old(self)@,
            },
    {
        let c = match content {
            Some(c) => c,
            None => {
                return;
            },
        };
        let cs = chars_of(c.as_str());
        let ls = crate::text::split_lines(&cs);
        let mut i: usize = 0;
        let ghost lv = crate::text::lines(c@);
        while i < ls.len() && crate::text::is_blank(&ls[i])
            invariant
                i <= ls.len(),
                ls@.len() == lv.len(),
                lv == crate::text::lines(c@),
                forall|j: int| 0 <= j < ls@.len() ==> #[trigger] ls@[j]@ == lv[j],
                first_nonblank(lv, 0) == first_nonblank(lv, i as int),
            decreases ls.len() - i,
        {
            i = i + 1;
        }
        if i >= ls.len() {
            return;
        }
        let sig = crate::text::trim_chars(&ls[i]);
        let key: Vec<char> = match heading_path {
            Some(p) if p.len() > 0 => {
                let mut parts: Vec<Vec<char>> = Vec::new();
                let mut k: usize = 0;
                while k < p.len()
                    invariant
                        k <= p.len(),
                        parts@.map_values(|x: Vec<char>| x@) == strings_view(p@).take(k as int),
                    decreases p.len() - k,
                {
                    let ghost q0 = parts@;
                    let c = chars_of(p[k].as_str());
                    parts.push(c);
                    assert(parts@.map_values(|x: Vec<char>| x@) =~= q0.map_values(|x: Vec<char>| x@).push(p@[k as int]@));
                    assert(strings_view(p@).take(k + 1) =~= strings_view(p@).take(k as int).push(p@[k as int]@));
                    k = k + 1;
                }
                assert(strings_view(p@).take(k as int) =~= strings_view(p@));
                let sep = chars_of("::");
                crate::text::join_chars(&parts, &sep)
            },
            _ => crate::text::copy_chars(&sig),
        };
        self.add(crate::text::string_of(&key), crate::text::string_of(&sig));
    }
}

pub open spec fn opt_content(c: Option<String>) -> Seq<char> {
    match c {
        Some(s) => s@,
        None => seq![],
    }
}

pub open spec fn opt_path(p: Option<Vec<String>>) -> Seq<Seq<char>> {
    match p {
        Some(v) => strings_view(v@),
        None => seq![],
    }
}

/// The index of the first non-blank line at or after `k`.
pub open spec fn first_nonblank(ls: Seq<Seq<char>>, k: int) -> int
    decreases ls.len() - k,
{
    if k < 0 || k >= ls.len() {
        ls.len() as int
    } else if crate::text::trim(ls[k]).len() > 0 {
        k
    } else {
        first_nonblank(ls, k + 1)
    }
}

/// A code block's signature: its first non-blank line, trimmed.
pub open spec fn code_signature(content: Seq<char>) -> Option<Seq<char>> {
    let ls = crate::text::lines(content);
    let i = first_nonblank(ls, 0);
    if i < ls.len() {
        Some(crate::text::trim(ls[i]))
    } else {
        None
    }
}

/// A code block's key: its heading path joined with `::`, or its signature
/// when the path is empty.
pub open spec fn block_key(path: Seq<Seq<char>>, sig: Seq<char>) -> Seq<char> {
    if path.len() > 0 {
        crate::text::join(path, "::"@)
    } else {
        sig
    }
}

/// The difference between two surfaces.
#[derive(Debug)]
pub struct ApiDiff {
    /// Keys present only in the newer surface, in `str` order.
    pub added: Vec<String>,
    /// Keys present only in the older surface, in `str` order.
    pub removed: Vec<String>,
    /// Keys in both whose signature changed: `(key, old_sig, new_sig)`, by key.
    pub changed: Vec<(String, String, String)>,
}

impl Default for ApiDiff {
    fn default() -> (r: ApiDiff)
        ensures
            r.added@.len() == 0 && r.removed@.len() == 0 && r.changed@.len() == 0,
    {
        ApiDiff { added: Vec::new(), removed: Vec::new(), changed: Vec::new() }
    }
}

/// Keys of `new[..k]` that `old` lacks.
pub open spec fn added_keys(old: Entries, new: Entries, k: int) -> Seq<Seq<char>>
    decreases k,
{
    if k <= 0 || k > new.len() {
        seq![]
    } else if lookup(old, new[k - 1].0) is None {
        added_keys(old, new, k - 1).push(new[k - 1].0)
    } else {
        added_keys(old, new, k - 1)
    }
}

/// Keys of `old[..k]` that `new` lacks.
pub open spec fn removed_keys(old: Entries, new: Entries, k: int) -> Seq<Seq<char>>
    decreases k,
{
    if k <= 0 || k > old.len() {
        seq![]
    } else if lookup(new, old[k - 1].0) is None {
        removed_keys(old, new, k - 1).push(old[k - 1].0)
    } else {
        removed_keys(old, new, k - 1)
    }
}

/// `(key, old_sig, new_sig)` for the keys of `new[..k]` whose signature in
/// `old` differs.
pub open spec fn changed_keys(old: Entries, new: Entries, k: int) -> Seq<(Seq<char>, Seq<char>, Seq<char>)>
    decreases k,
{
    if k <= 0 || k > new.len() {
        seq![]
    } else {
        let r = changed_keys(old, new, k - 1);
        match lookup(old, new[k - 1].0) {
            Some(o) => if o != new[k - 1].1 {
                r.push((new[k - 1].0, o, new[k - 1].1))
            } else {
                r
            },
            None => r,
        }
    }
}

pub open spec fn triples_view(v: Seq<(String, String, String)>) -> Seq<(Seq<char>, Seq<char>, Seq<char>)> {
    v.map_values(|t: (String, String, String)| (t.0@, t.1@, t.2@))
}

fn lookup_exec<'a>(items: &'a Vec<(String, String)>, key: &Vec<char>) -> (r: Option<&'a String>)
    ensures
        match r {
            Some(s) => lookup(pairs_view(items@), key@) == Some(s@),
            None => lookup(pairs_view(items@), key@) is None,
        },
{
    let ghost es = pairs_view(items@);
    let mut i: usize = 0;
    assert(es.skip(0) =~= es);
    while i < items.len()
        invariant
            i <= items.len(),
            es == pairs_view(items@),
            lookup(es, key@) == lookup(es.skip(i as int), key@),
        decreases items.len() - i,
    {
        assert(es[i as int] == (items@[i as int].0@, items@[i as int].1@));
        assert(es.skip(i as int).drop_first() =~= es.skip(i + 1));
        let k = chars_of(items[i].0.as_str());
        if crate::text::chars_eq(&k, key) {
            return Some(&items[i].1);
        }
        i = i + 1;
    }
    None
}

/// Diffs two surfaces, old → new: added and removed keys, and changed
/// signatures, each list in key order (see [`law_diff_lists_are_key_ordered`]).
pub fn diff_api(old: &ApiSurface, new: &ApiSurface) -> (r: ApiDiff)
    ensures
        sorted_keys(old@),
        sorted_keys(new@),
        strings_view(r.added@) == added_keys(old@, new@, new@.len() as int),
        strings_view(r.removed@) == removed_keys(old@, new@, old@.len() as int),
        triples_view(r.changed@) == changed_keys(old@, new@, new@.len() as int),
        keys_sorted(strings_view(r.added@)),
        keys_sorted(strings_view(r.removed@)),
        triples_sorted(triples_view(r.changed@)),
{
    let oi = old.items();
    let ni = new.items();
    let mut added: Vec<String> = Vec::new();
    let mut changed: Vec<(String, String, String)> = Vec::new();
    let mut i: usize = 0;
    while i < ni.len()
        invariant
            i <= ni.len(),
            pairs_view(oi@) == old@,
            pairs_view(ni@) == new@,
            strings_view(added@) == added_keys(old@, new@, i as int),
            triples_view(changed@) == changed_keys(old@, new@, i as int),
        decreases ni.len() - i,
    {
        let ghost a0 = added@;
        let ghost c0 = changed@;
        assert(new@[i as int] == (ni@[i as int].0@, ni@[i as int].1@));
        let k = chars_of(ni[i].0.as_str());
        match lookup_exec(oi, &k) {
            None => {
                added.push(ni[i].0.clone());
                assert(strings_view(added@) =~= strings_view(a0).push(ni@[i as int].0@));
            },
            Some(o) => {
                let oc = chars_of(o.as_str());
                let nc = chars_of(ni[i].1.as_str());
                if !crate::text::chars_eq(&oc, &nc) {
                    changed.push((ni[i].0.clone(), o.clone(), ni[i].1.clone()));
                    assert(triples_view(changed@) =~= triples_view(c0).push((ni@[i as int].0@, o@, ni@[i as int].1@)));
                }
            },
        }
        i = i + 1;
    }
    let mut removed: Vec<String> = Vec::new();
    let mut j: usize = 0;
    while j < oi.len()
        invariant
            j <= oi.len(),
            pairs_view(oi@) == old@,
            pairs_view(ni@) == new@,
            strings_view(removed@) == removed_keys(old@, new@, j as int),
        decreases oi.len() - j,
    {
        let ghost r0 = removed@;
        assert(old@[j as int] == (oi@[j as int].0@, oi@[j as int].1@));
        let k = chars_of(oi[j].0.as_str());
        if lookup_exec(ni, &k).is_none() {
            removed.push(oi[j].0.clone());
            assert(strings_view(removed@) =~= strings_view(r0).push(oi@[j as int].0@));
        }
        j = j + 1;
    }
    proof {
        law_diff_lists_are_key_ordered(old@, new@);
    }
    ApiDiff { added, removed, changed }
}

// ───────────────────────────── laws ─────────────────────────────

/// `lookup` finds a key exactly when some entry carries it.
proof fn lemma_lookup_some_iff(es: Entries, key: Seq<char>)
    ensures
        lookup(es, key) is Some <==> exists|i: int| 0 <= i < es.len() && (#[trigger] es[i]).0 == key,
    decreases es.len(),
{
    if es.len() > 0 {
        let t = es.drop_first();
        lemma_lookup_some_iff(t, key);
        if lookup(t, key) is Some {
            let i = choose|i: int| 0 <= i < t.len() && (#[trigger] t[i]).0 == key;
            assert(es[i + 1] == t[i]);
        }
        if exists|i: int| 0 <= i < es.len() && (#[trigger] es[i]).0 == key {
            let i = choose|i: int| 0 <= i < es.len() && (#[trigger] es[i]).0 == key;
            if i > 0 {
                assert(t[i - 1] == es[i]);
            }
        }
    }
}

/// The entry at `p` carries `key` and none before it does: `lookup` gives
/// its signature.
proof fn lemma_lookup_first(es: Entries, key: Seq<char>, p: int)
    requires
        0 <= p < es.len(),
        es[p].0 == key,
        forall|i: int| 0 <= i < p ==> (#[trigger] es[i]).0 != key,
    ensures
        lookup(es, key) == Some(es[p].1),
    decreases p,
{
    if p > 0 {
        let t = es.drop_first();
        assert forall|i: int| 0 <= i < p - 1 implies (#[trigger] t[i]).0 != key by {
            assert(t[i] == es[i + 1]);
        }
        lemma_lookup_first(t, key, p - 1);
    }
}

/// Inserting an entry for another key leaves the lookup of `other` alone.
proof fn lemma_lookup_insert_other(es: Entries, p: int, e: (Seq<char>, Seq<char>), other: Seq<char>)
    requires
        0 <= p <= es.len(),
        e.0 != other,
    ensures
        lookup(es.insert(p, e), other) == lookup(es, other),
    decreases es.len(),
{
    let n = es.insert(p, e);
    if p == 0 {
        assert(n.drop_first() =~= es);
    } else {
        assert(n[0] == es[0]);
        if es[0].0 != other {
            assert(n.drop_first() =~= es.drop_first().insert(p - 1, e));
            lemma_lookup_insert_other(es.drop_first(), p - 1, e, other);
        }
    }
}

/// What `key_pos` finds: every entry before it precedes the key, and the
/// entry at it (if any) does not.
proof fn lemma_key_pos(es: Entries, key: Seq<char>, j: int)
    requires
        0 <= j <= es.len(),
    ensures
        j <= key_pos(es, key, j) <= es.len(),
        forall|i: int| j <= i < key_pos(es, key, j) ==> text_before(#[trigger] es[i].0, key),
        key_pos(es, key, j) < es.len() ==> !text_before(es[key_pos(es, key, j)].0, key),
    decreases es.len() - j,
{
    if j < es.len() && text_before(es[j].0, key) {
        lemma_key_pos(es, key, j + 1);
    }
}

/// Reading a surface after adding `key ↦ sig`: the key gives back `sig`
/// unless it was present already (then its first signature stays), and every
/// other key reads as before.
pub proof fn law_add_then_lookup(es: Entries, key: Seq<char>, sig: Seq<char>, other: Seq<char>)
    requires
        sorted_keys(es),
    ensures
        lookup(add_entry(es, key, sig), key) == match lookup(es, key) {
            Some(s) => Some(s),
            None => Some(sig),
        },
        other != key ==> lookup(add_entry(es, key, sig), other) == lookup(es, other),
{
    let p = key_pos(es, key, 0);
    lemma_key_pos(es, key, 0);
    if p < es.len() && es[p].0 == key {
        lemma_lookup_index(es, p);
    } else {
        assert forall|i: int| 0 <= i < es.len() implies (#[trigger] es[i]).0 != key by {
            lemma_text_before_order(es[i].0, key);
            if i > p {
                lemma_text_before_order(es[p].0, key);
                lemma_text_before_trans(key, es[p].0, es[i].0);
                lemma_text_before_order(key, es[i].0);
            }
        }
        lemma_lookup_absent(es, key);
        let n = es.insert(p, (key, sig));
        assert forall|i: int| 0 <= i < p implies (#[trigger] n[i]).0 != key by {
            assert(n[i] == es[i]);
            lemma_text_before_order(es[i].0, key);
        }
        lemma_lookup_first(n, key, p);
        if other != key {
            lemma_lookup_insert_other(es, p, (key, sig), other);
        }
    }
}

proof fn lemma_identical_prefix(s: Entries, k: int)
    requires
        sorted_keys(s),
        0 <= k <= s.len(),
    ensures
        added_keys(s, s, k) == Seq::<Seq<char>>::empty(),
        removed_keys(s, s, k) == Seq::<Seq<char>>::empty(),
        changed_keys(s, s, k) == Seq::<(Seq<char>, Seq<char>, Seq<char>)>::empty(),
    decreases k,
{
    if k > 0 {
        lemma_identical_prefix(s, k - 1);
        lemma_lookup_index(s, k - 1);
    }
}

/// A surface diffed against itself reports nothing added, removed or
/// changed.
pub proof fn law_diff_of_identical_is_empty(s: Entries)
    requires
        sorted_keys(s),
    ensures
        added_keys(s, s, s.len() as int) == Seq::<Seq<char>>::empty(),
        removed_keys(s, s, s.len() as int) == Seq::<Seq<char>>::empty(),
        changed_keys(s, s, s.len() as int) == Seq::<(Seq<char>, Seq<char>, Seq<char>)>::empty(),
{
    lemma_identical_prefix(s, s.len() as int);
}

proof fn lemma_swap_prefix(a: Entries, b: Entries, k: int)
    ensures
        added_keys(a, b, k) == removed_keys(b, a, k),
    decreases k,
{
    if k > 0 {
        lemma_swap_prefix(a, b, k - 1);
    }
}

/// Diffing in the other direction swaps what is added and what is removed.
pub proof fn law_diff_reversed_swaps_added_and_removed(a: Entries, b: Entries)
    ensures
        added_keys(a, b, b.len() as int) == removed_keys(b, a, b.len() as int),
        removed_keys(a, b, a.len() as int) == added_keys(b, a, a.len() as int),
{
    lemma_swap_prefix(a, b, b.len() as int);
    lemma_swap_prefix(b, a, a.len() as int);
}

proof fn lemma_added_members(old: Entries, new: Entries, k: int, x: Seq<char>)
    requires
        0 <= k <= new.len(),
    ensures
        added_keys(old, new, k).contains(x) <==> (lookup(old, x) is None && exists|i: int|
            0 <= i < k && (#[trigger] new[i]).0 == x),
    decreases k,
{
    if k > 0 {
        lemma_added_members(old, new, k - 1, x);
        let r = added_keys(old, new, k - 1);
        if lookup(old, new[k - 1].0) is None {
            let rp = r.push(new[k - 1].0);
            assert(rp.contains(x) <==> (r.contains(x) || new[k - 1].0 == x)) by {
                if rp.contains(x) {
                    let j = choose|j: int| 0 <= j < rp.len() && #[trigger] rp[j] == x;
                    if j < r.len() {
                        assert(r[j] == x);
                    }
                }
                if r.contains(x) {
                    let j = choose|j: int| 0 <= j < r.len() && #[trigger] r[j] == x;
                    assert(rp[j] == x);
                }
                if new[k - 1].0 == x {
                    assert(rp[r.len() as int] == x);
                }
            }
        }
    }
}

proof fn lemma_changed_members(old: Entries, new: Entries, k: int, x: Seq<char>)
    requires
        sorted_keys(new),
        0 <= k <= new.len(),
    ensures
        (exists|j: int| 0 <= j < changed_keys(old, new, k).len() && (#[trigger] changed_keys(old, new, k)[j]).0
            == x) <==> (exists|i: int| 0 <= i < k && (#[trigger] new[i]).0 == x && lookup(old, x) is Some
            && lookup(old, x) != Some(new[i].1)),
    decreases k,
{
    if k > 0 {
        lemma_changed_members(old, new, k - 1, x);
        let r = changed_keys(old, new, k - 1);
        let c = changed_keys(old, new, k);
        if exists|j: int| 0 <= j < c.len() && (#[trigger] c[j]).0 == x {
            let j = choose|j: int| 0 <= j < c.len() && (#[trigger] c[j]).0 == x;
            if j < r.len() {
                assert(c[j] == r[j]);
                assert(exists|j: int| 0 <= j < r.len() && (#[trigger] r[j]).0 == x);
            } else {
                assert(new[k - 1].0 == x);
            }
        }
        if exists|i: int| 0 <= i < k && (#[trigger] new[i]).0 == x && lookup(old, x) is Some && lookup(old, x) != Some(new[i].1) {
            let i = choose|i: int| 0 <= i < k && (#[trigger] new[i]).0 == x && lookup(old, x) is Some && lookup(old, x) != Some(new[i].1);
            if i < k - 1 {
                let j = choose|j: int| 0 <= j < r.len() && (#[trigger] r[j]).0 == x;
                assert(c[j] == r[j]);
            } else {
                assert(c[r.len() as int].0 == x);
            }
        }
    }
}

/// The changed entries are in key order, each key once.
pub open spec fn triples_sorted(t: Seq<(Seq<char>, Seq<char>, Seq<char>)>) -> bool {
    forall|i: int, j: int| 0 <= i < j < t.len() ==> text_before(#[trigger] t[i].0, #[trigger] t[j].0)
}

/// The changed entries with old and new signature exchanged.
pub open spec fn swap_sigs(t: Seq<(Seq<char>, Seq<char>, Seq<char>)>) -> Seq<(Seq<char>, Seq<char>, Seq<char>)> {
    t.map_values(|x: (Seq<char>, Seq<char>, Seq<char>)| (x.0, x.2, x.1))
}

/// The changed-list entry of a newer entry `x`: its key, the older and the
/// newer signature.
pub open spec fn changed_entry(old: Entries, x: (Seq<char>, Seq<char>)) -> (Seq<char>, Seq<char>, Seq<char>) {
    (x.0, lookup(old, x.0)->0, x.1)
}

/// The newer entry `x` has an older signature that differs.
pub open spec fn is_changed(old: Entries, x: (Seq<char>, Seq<char>)) -> bool {
    lookup(old, x.0) is Some && lookup(old, x.0)->0 != x.1
}

proof fn lemma_changed_shape(old: Entries, new: Entries, k: int)
    requires
        sorted_keys(new),
        0 <= k <= new.len(),
    ensures
        triples_sorted(changed_keys(old, new, k)),
        forall|j: int, m: int|
            0 <= j < changed_keys(old, new, k).len() && k <= m < new.len() ==> text_before(
                #[trigger] changed_keys(old, new, k)[j].0,
                #[trigger] new[m].0,
            ),
        forall|j: int|
            0 <= j < changed_keys(old, new, k).len() ==> lookup(old, (#[trigger] changed_keys(old, new, k)[j]).0)
                == Some(changed_keys(old, new, k)[j].1) && lookup(new, changed_keys(old, new, k)[j].0) == Some(
                changed_keys(old, new, k)[j].2,
            ) && changed_keys(old, new, k)[j].1 != changed_keys(old, new, k)[j].2,
        forall|i: int|
            0 <= i < k && is_changed(old, #[trigger] new[i]) ==> changed_keys(old, new, k).contains(
                changed_entry(old, new[i]),
            ),
    decreases k,
{
    if k > 0 {
        lemma_changed_shape(old, new, k - 1);
        let r = changed_keys(old, new, k - 1);
        let c = changed_keys(old, new, k);
        let x = new[k - 1];
        if is_changed(old, x) {
            assert(c == r.push(changed_entry(old, x)));
            lemma_lookup_index(new, k - 1);
            assert forall|a: int, b: int| 0 <= a < b < c.len() implies text_before(#[trigger] c[a].0, #[trigger] c[b].0) by {
                if b < r.len() {
                    assert(c[a] == r[a] && c[b] == r[b]);
                } else {
                    assert(c[a] == r[a]);
                    assert(text_before(r[a].0, new[k - 1].0));
                }
            }
            assert forall|j: int, m: int| 0 <= j < c.len() && k <= m < new.len() implies text_before(
                #[trigger] c[j].0,
                #[trigger] new[m].0,
            ) by {
                if j < r.len() {
                    assert(c[j] == r[j]);
                    assert(text_before(r[j].0, new[m].0));
                } else {
                    assert(text_before(new[k - 1].0, new[m].0));
                }
            }
            assert forall|j: int| 0 <= j < c.len() implies lookup(old, (#[trigger] c[j]).0) == Some(c[j].1) && lookup(new, c[j].0)
                == Some(c[j].2) && c[j].1 != c[j].2 by {
                if j < r.len() {
                    assert(c[j] == r[j]);
                }
            }
            assert forall|i: int| 0 <= i < k && is_changed(old, #[trigger] new[i]) implies c.contains(changed_entry(old, new[i])) by {
                if i < k - 1 {
                    let j = choose|j: int| 0 <= j < r.len() && r[j] == changed_entry(old, new[i]);
                    assert(c[j] == r[j]);
                } else {
                    assert(c[r.len() as int] == changed_entry(old, new[i]));
                }
            }
        } else {
            assert(c == r);
            assert forall|j: int, m: int| 0 <= j < c.len() && k <= m < new.len() implies text_before(
                #[trigger] c[j].0,
                #[trigger] new[m].0,
            ) by {
                assert(text_before(r[j].0, new[m].0));
            }
        }
    }
}

/// Membership in the changed list: `(key, o, n)` is there exactly when the
/// older surface maps `key` to `o` and the newer to `n`, and `o != n`.
proof fn lemma_changed_contains(old: Entries, new: Entries, t: (Seq<char>, Seq<char>, Seq<char>))
    requires
        sorted_keys(old),
        sorted_keys(new),
    ensures
        changed_keys(old, new, new.len() as int).contains(t) <==> (lookup(old, t.0) == Some(t.1) && lookup(new, t.0)
            == Some(t.2) && t.1 != t.2),
{
    let c = changed_keys(old, new, new.len() as int);
    lemma_changed_shape(old, new, new.len() as int);
    if c.contains(t) {
        let j = choose|j: int| 0 <= j < c.len() && c[j] == t;
        assert(lookup(old, c[j].0) == Some(c[j].1));
    }
    if lookup(old, t.0) == Some(t.1) && lookup(new, t.0) == Some(t.2) && t.1 != t.2 {
        lemma_lookup_some_iff(new, t.0);
        let i = choose|i: int| 0 <= i < new.len() && (#[trigger] new[i]).0 == t.0;
        lemma_lookup_index(new, i);
        assert(is_changed(old, new[i]));
        assert(changed_entry(old, new[i]) == t);
    }
}

/// Two key-ordered lists with the same members are the same list.
proof fn lemma_sorted_same_members(s: Seq<(Seq<char>, Seq<char>, Seq<char>)>, t: Seq<(Seq<char>, Seq<char>, Seq<char>)>)
    requires
        triples_sorted(s),
        triples_sorted(t),
        forall|x: (Seq<char>, Seq<char>, Seq<char>)| s.contains(x) <==> t.contains(x),
    ensures
        s == t,
    decreases s.len() + t.len(),
{
    if s.len() == 0 {
        if t.len() > 0 {
            assert(t.contains(t[0]));
        }
        assert(s =~= t);
    } else if t.len() == 0 {
        assert(s.contains(s[0]));
    } else {
        assert(s.contains(s[0]));
        assert(t.contains(t[0]));
        let a = choose|a: int| 0 <= a < t.len() && t[a] == s[0];
        let b = choose|b: int| 0 <= b < s.len() && s[b] == t[0];
        if a > 0 {
            assert(text_before(t[0].0, t[a].0));
            if b > 0 {
                assert(text_before(s[0].0, s[b].0));
                lemma_text_before_order(s[0].0, t[0].0);
            } else {
                lemma_text_before_order(t[0].0, t[0].0);
            }
        }
        assert(s[0] == t[0]);
        let s1 = s.drop_first();
        let t1 = t.drop_first();
        assert forall|x: (Seq<char>, Seq<char>, Seq<char>)| s1.contains(x) <==> t1.contains(x) by {
            if s1.contains(x) {
                let i = choose|i: int| 0 <= i < s1.len() && s1[i] == x;
                assert(s.contains(x)) by { assert(s[i + 1] == x); }
                let j = choose|j: int| 0 <= j < t.len() && t[j] == x;
                if j == 0 {
                    assert(text_before(s[0].0, s[i + 1].0));
                    lemma_text_before_order(s[0].0, s[0].0);
                }
                assert(t1[j - 1] == x);
            }
            if t1.contains(x) {
                let i = choose|i: int| 0 <= i < t1.len() && t1[i] == x;
                assert(t.contains(x)) by { assert(t[i + 1] == x); }
                let j = choose|j: int| 0 <= j < s.len() && s[j] == x;
                if j == 0 {
                    assert(text_before(t[0].0, t[i + 1].0));
                    lemma_text_before_order(t[0].0, t[0].0);
                }
                assert(s1[j - 1] == x);
            }
        }
        assert(triples_sorted(s1)) by {
            assert forall|i: int, j: int| 0 <= i < j < s1.len() implies text_before(#[trigger] s1[i].0, #[trigger] s1[j].0) by {
                assert(s1[i] == s[i + 1] && s1[j] == s[j + 1]);
            }
        }
        assert(triples_sorted(t1)) by {
            assert forall|i: int, j: int| 0 <= i < j < t1.len() implies text_before(#[trigger] t1[i].0, #[trigger] t1[j].0) by {
                assert(t1[i] == t[i + 1] && t1[j] == t[j + 1]);
            }
        }
        lemma_sorted_same_members(s1, t1);
        assert(s =~= seq![s[0]] + s1);
        assert(t =~= seq![t[0]] + t1);
    }
}

/// Diffing in the other direction reports the same changed keys, in the
/// same (key) order, with the older and newer signatures exchanged.
pub proof fn law_diff_reversed_swaps_changed_signatures(a: Entries, b: Entries)
    requires
        sorted_keys(a),
        sorted_keys(b),
    ensures
        changed_keys(b, a, a.len() as int) == swap_sigs(changed_keys(a, b, b.len() as int)),
        triples_sorted(changed_keys(a, b, b.len() as int)),
{
    let ab = changed_keys(a, b, b.len() as int);
    let ba = changed_keys(b, a, a.len() as int);
    let sw = swap_sigs(ab);
    lemma_changed_shape(a, b, b.len() as int);
    lemma_changed_shape(b, a, a.len() as int);
    assert(triples_sorted(sw)) by {
        assert forall|i: int, j: int| 0 <= i < j < sw.len() implies text_before(#[trigger] sw[i].0, #[trigger] sw[j].0) by {
            assert(sw[i].0 == ab[i].0 && sw[j].0 == ab[j].0);
        }
    }
    assert forall|x: (Seq<char>, Seq<char>, Seq<char>)| ba.contains(x) <==> sw.contains(x) by {
        lemma_changed_contains(b, a, x);
        lemma_changed_contains(a, b, (x.0, x.2, x.1));
        if sw.contains(x) {
            let i = choose|i: int| 0 <= i < sw.len() && sw[i] == x;
            assert(ab[i] == (x.0, x.2, x.1));
            assert(ab.contains((x.0, x.2, x.1)));
        }
        if ab.contains((x.0, x.2, x.1)) {
            let i = choose|i: int| 0 <= i < ab.len() && ab[i] == (x.0, x.2, x.1);
            assert(sw[i] == x);
        }
    }
    lemma_sorted_same_members(ba, sw);
}

/// Keys strictly in order, each once.
pub open spec fn keys_sorted(ks: Seq<Seq<char>>) -> bool {
    forall|i: int, j: int| 0 <= i < j < ks.len() ==> text_before(#[trigger] ks[i], #[trigger] ks[j])
}

proof fn lemma_added_shape(old: Entries, new: Entries, k: int)
    requires
        sorted_keys(new),
        0 <= k <= new.len(),
    ensures
        keys_sorted(added_keys(old, new, k)),
        forall|j: int, m: int|
            0 <= j < added_keys(old, new, k).len() && k <= m < new.len() ==> text_before(
                #[trigger] added_keys(old, new, k)[j],
                #[trigger] new[m].0,
            ),
    decreases k,
{
    if k > 0 {
        lemma_added_shape(old, new, k - 1);
        let r = added_keys(old, new, k - 1);
        let c = added_keys(old, new, k);
        if lookup(old, new[k - 1].0) is None {
            assert(c == r.push(new[k - 1].0));
            assert forall|a: int, b: int| 0 <= a < b < c.len() implies text_before(#[trigger] c[a], #[trigger] c[b]) by {
                assert(c[a] == r[a]);
                if b < r.len() {
                    assert(c[b] == r[b]);
                } else {
                    assert(text_before(r[a], new[k - 1].0));
                }
            }
            assert forall|j: int, m: int| 0 <= j < c.len() && k <= m < new.len() implies text_before(
                #[trigger] c[j],
                #[trigger] new[m].0,
            ) by {
                if j < r.len() {
                    assert(c[j] == r[j]);
                    assert(text_before(r[j], new[m].0));
                } else {
                    assert(text_before(new[k - 1].0, new[m].0));
                }
            }
        } else {
            assert(c == r);
            assert forall|j: int, m: int| 0 <= j < c.len() && k <= m < new.len() implies text_before(
                #[trigger] c[j],
                #[trigger] new[m].0,
            ) by {
                assert(text_before(r[j], new[m].0));
            }
        }
    }
}

/// Each list of a diff is in key order, each key once.
pub proof fn law_diff_lists_are_key_ordered(old: Entries, new: Entries)
    requires
        sorted_keys(old),
        sorted_keys(new),
    ensures
        keys_sorted(added_keys(old, new, new.len() as int)),
        keys_sorted(removed_keys(old, new, old.len() as int)),
        triples_sorted(changed_keys(old, new, new.len() as int)),
{
    lemma_added_shape(old, new, new.len() as int);
    lemma_added_shape(new, old, old.len() as int);
    lemma_swap_prefix(new, old, old.len() as int);
    lemma_changed_shape(old, new, new.len() as int);
}

/// What a diff reports for a key `x`: it is added when only the newer
/// surface has it, removed when only the older one has it, and changed when
/// both have it with different signatures.
pub proof fn law_diff_classifies_keys(old: Entries, new: Entries, x: Seq<char>)
    requires
        sorted_keys(old),
        sorted_keys(new),
    ensures
        added_keys(old, new, new.len() as int).contains(x) <==> (lookup(new, x) is Some && lookup(old, x) is None),
        removed_keys(old, new, old.len() as int).contains(x) <==> (lookup(old, x) is Some && lookup(new, x) is None),
        (exists|j: int|
            0 <= j < changed_keys(old, new, new.len() as int).len() && (#[trigger] changed_keys(
                old,
                new,
                new.len() as int,
            )[j]).0 == x) <==> (lookup(old, x) is Some && lookup(new, x) is Some && lookup(old, x) != lookup(
            new,
            x,
        )),
{
    lemma_added_members(old, new, new.len() as int, x);
    lemma_lookup_some_iff(new, x);
    lemma_swap_prefix(new, old, old.len() as int);
    lemma_added_members(new, old, old.len() as int, x);
    lemma_lookup_some_iff(old, x);
    lemma_changed_members(old, new, new.len() as int, x);
    if lookup(new, x) is Some {
        let i = choose|i: int| 0 <= i < new.len() && (#[trigger] new[i]).0 == x;
        lemma_lookup_index(new, i);
    }
    if exists|i: int| 0 <= i < new.len() && (#[trigger] new[i]).0 == x && lookup(old, x) is Some && lookup(old, x) != Some(new[i].1) {
        let i = choose|i: int| 0 <= i < new.len() && (#[trigger] new[i]).0 == x && lookup(old, x) is Some && lookup(old, x) != Some(new[i].1);
        lemma_lookup_index(new, i);
    }
}

} // verus!
