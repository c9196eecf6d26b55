//! Search-query shaping and result budgeting.
//!
//! The ranking stages of search (rank fusion, maximal marginal relevance)
//! work on floating-point scores and embeddings and are done by the
//! application; the library turns a free-text query into a safe FTS5 `MATCH`
//! expression and decides how many ranked results fit the token budget.
use vstd::prelude::*;

use crate::text::{chars_of, join, push_all, push_lit, string_of};

verus! {

// ───────────────────────────── FTS5 query ─────────────────────────────

/// `char::is_alphanumeric` (Unicode `Alphabetic` or `Numeric`).
pub uninterp spec fn is_alphanumeric(c: char) -> bool;

/// `char::is_alphanumeric`.  Claimed: the result is [`is_alphanumeric`]
/// of `c`.
#[verifier::external_body]
fn char_is_alphanumeric(c: char) -> (b: bool)
    ensures
        b == is_alphanumeric(c),
{
    c.is_alphanumeric()
}

/// Characters that belong to a query token.
pub open spec fn token_char(c: char) -> bool {
    is_alphanumeric(c) || c == '-' || c == '\''
}

/// `t` with every `"` doubled (FTS5's escaping rule).
pub open spec fn double_quotes(t: Seq<char>) -> Seq<char>
    decreases t.len(),
{
    if t.len() == 0 {
        seq![]
    } else {
        double_quotes(t.drop_last()) + (if t.last() == '"' {
            seq!['"', '"']
        } else {
            seq![t.last()]
        })
    }
}

/// A token as an FTS5 phrase: quoted, inner quotes doubled.
pub open spec fn phrase(t: Seq<char>) -> Seq<char> {
    seq!['"'] + double_quotes(t) + seq!['"']
}

/// The quoted tokens finished within `q[..k]` and the token in progress:
/// tokens are the runs between non-token characters, and those of fewer than
/// two characters are dropped.
pub open spec fn fts_state(q: Seq<char>, k: int) -> (Seq<Seq<char>>, Seq<char>)
    decreases k,
{
    if k <= 0 || k > q.len() {
        (seq![], seq![])
    } else {
        let (done, cur) = fts_state(q, k - 1);
        if token_char(q[k - 1]) {
            (done, cur.push(q[k - 1]))
        } else if cur.len() >= 2 {
            (done.push(phrase(cur)), seq![])
        } else {
            (done, seq![])
        }
    }
}

/// The phrases of the query's tokens.
pub open spec fn query_phrases(q: Seq<char>) -> Seq<Seq<char>> {
    let (done, cur) = fts_state(q, q.len() as int);
    if cur.len() >= 2 {
        done.push(phrase(cur))
    } else {
        done
    }
}

/// The FTS5 expression: the phrases separated by spaces (empty when no token
/// survives).
pub open spec fn spec_sanitize(q: Seq<char>) -> Seq<char> {
    join(query_phrases(q), " "@)
}

fn phrase_exec(t: &Vec<char>) -> (r: Vec<char>)
    ensures
        r@ == phrase(t@),
{
    let mut out: Vec<char> = Vec::new();
    out.push('"');
    let mut i: usize = 0;
    while i < t.len()
        invariant
            i <= t.len(),
            out@ == seq!['"'] + double_quotes(t@.take(i as int)),
        decreases t.len() - i,
    {
        let ghost o0 = out@;
        if t[i] == '"' {
            out.push('"');
            out.push('"');
        } else {
            out.push(t[i]);
        }
        assert(t@.take(i + 1).drop_last() =~= t@.take(i as int));
        assert(out@ =~= seq!['"'] + double_quotes(t@.take(i + 1)));
        i = i + 1;
    }
    assert(t@.take(i as int) =~= t@);
    out.push('"');
    out
}

/// Converts a natural-language query into a safe FTS5 `MATCH` expression:
/// each run of alphanumerics, `-` and `'` is one token; tokens shorter than
/// two characters are dropped; each token is quoted as an FTS5 phrase (inner `"`
/// doubled) so no FTS5 operator syntax gets through; the phrases are joined by
/// spaces.  An empty result means "skip full-text search".
pub fn sanitize_fts_query(query: &str) -> (r: String)
    ensures
        r@ == spec_sanitize(query@),
{
    let q = chars_of(query);
    let mut done: Vec<Vec<char>> = Vec::new();
    let mut cur: Vec<char> = Vec::new();
    let mut i: usize = 0;
    while i < q.len()
        invariant
            i <= q.len(),
            (done@.map_values(|p: Vec<char>| p@), cur@) == fts_state(q@, i as int),
        decreases q.len() - i,
    {
        let c = q[i];
        let ghost d0 = done@;
        if char_is_alphanumeric(c) || c == '-' || c == '\'' {
            cur.push(c);
        } else {
            if cur.len() >= 2 {
                let p = phrase_exec(&cur);
                done.push(p);
                assert(done@.map_values(|p: Vec<char>| p@) =~= d0.map_values(|p: Vec<char>| p@).push(
                    phrase(cur@),
                ));
            }
            cur = Vec::new();
        }
        i = i + 1;
    }
    let ghost d1 = done@;
    if cur.len() >= 2 {
        let p = phrase_exec(&cur);
        done.push(p);
        assert(done@.map_values(|p: Vec<char>| p@) =~= d1.map_values(|p: Vec<char>| p@).push(phrase(cur@)));
    }
    let sep = chars_of(" ");
    let out = crate::text::join_chars(&done, &sep);
    string_of(&out)
}

// ───────────────────────────── token budget ─────────────────────────────

/// `a + b` saturating at `u32::MAX`.
pub open spec fn sat_add(a: u32, b: u32) -> u32 {
    if a + b > u32::MAX {
        u32::MAX
    } else {
        (a + b) as u32
    }
}

/// The running token total after the first `k` results (saturating).
pub open spec fn running_total(tokens: Seq<u32>, k: int) -> u32
    decreases k,
{
    if k <= 0 || k > tokens.len() {
        0
    } else {
        sat_add(running_total(tokens, k - 1), tokens[k - 1])
    }
}

/// How many leading results are kept: results are taken in order while the
/// running total stays within `budget`; the first result is always kept.
pub open spec fn budget_count(tokens: Seq<u32>, budget: u32, k: int) -> int
    decreases tokens.len() - k,
{
    if k < 0 || k >= tokens.len() {
        tokens.len() as int
    } else if k > 0 && sat_add(running_total(tokens, k), tokens[k]) > budget {
        k
    } else {
        budget_count(tokens, budget, k + 1)
    }
}

/// The number of leading results, with token counts `token_counts` in rank
/// order, that fit in `budget` (see [`budget_count`]): the longest prefix
/// whose running total stays within the budget, but never fewer than one
/// result when there is any.
pub fn apply_budget(token_counts: &Vec<u32>, budget: u32) -> (n: usize)
    ensures
        n == budget_count(token_counts@, budget, 0),
{
    let mut total: u32 = 0;
    let mut k: usize = 0;
    while k < token_counts.len()
        invariant
            k <= token_counts.len(),
            total == running_total(token_counts@, k as int),
            budget_count(token_counts@, budget, 0) == budget_count(token_counts@, budget, k as int),
        decreases token_counts.len() - k,
    {
        let t = token_counts[k];
        let next = total.saturating_add(t);
        if next > budget && k > 0 {
            return k;
        }
        total = next;
        k = k + 1;
    }
    k
}

proof fn lemma_budget_count(tokens: Seq<u32>, budget: u32, k: int)
    requires
        0 <= k <= tokens.len(),
        k >= 2 ==> running_total(tokens, k) <= budget,
    ensures
        k <= budget_count(tokens, budget, k) <= tokens.len(),
        k == 0 && tokens.len() > 0 ==> budget_count(tokens, budget, k) >= 1,
        budget_count(tokens, budget, k) >= 2 ==> running_total(tokens, budget_count(tokens, budget, k)) <= budget,
        budget_count(tokens, budget, k) < tokens.len() ==> running_total(
            tokens,
            budget_count(tokens, budget, k) + 1,
        ) > budget,
    decreases tokens.len() - k,
{
    if k < tokens.len() {
        if k > 0 && sat_add(running_total(tokens, k), tokens[k]) > budget {
        } else {
            lemma_budget_count(tokens, budget, k + 1);
        }
    }
}

/// What the token budget keeps: at least one result when there is any, and
/// otherwise the longest prefix of the ranked results whose running total
/// fits the budget — the kept prefix fits (when it has two or more results)
/// and one more result would not.
pub proof fn law_budget_keeps_longest_fitting_prefix(tokens: Seq<u32>, budget: u32)
    ensures
        budget_count(tokens, budget, 0) <= tokens.len(),
        tokens.len() > 0 ==> budget_count(tokens, budget, 0) >= 1,
        budget_count(tokens, budget, 0) >= 2 ==> running_total(tokens, budget_count(tokens, budget, 0)) <= budget,
        budget_count(tokens, budget, 0) < tokens.len() ==> running_total(tokens, budget_count(tokens, budget, 0) + 1)
            > budget,
{
    lemma_budget_count(tokens, budget, 0);
}

/// `p` is a quoted token: `"t"` (inner quotes doubled) for a token `t` of at
/// least two characters made only of token characters.
pub open spec fn quoted_token(p: Seq<char>) -> bool {
    exists|t: Seq<char>|
        #![trigger phrase(t)]
        p == phrase(t) && t.len() >= 2 && forall|j: int| 0 <= j < t.len() ==> token_char(#[trigger] t[j])
}

proof fn lemma_fts_state_shape(q: Seq<char>, k: int)
    ensures
        forall|i: int| 0 <= i < fts_state(q, k).0.len() ==> quoted_token(#[trigger] fts_state(q, k).0[i]),
        forall|j: int| 0 <= j < fts_state(q, k).1.len() ==> token_char(#[trigger] fts_state(q, k).1[j]),
    decreases k,
{
    if k > 0 && k <= q.len() {
        lemma_fts_state_shape(q, k - 1);
        let (done, cur) = fts_state(q, k - 1);
        if token_char(q[k - 1]) {
            let c2 = cur.push(q[k - 1]);
            assert forall|j: int| 0 <= j < c2.len() implies token_char(#[trigger] c2[j]) by {
                if j < cur.len() {
                    assert(c2[j] == cur[j]);
                }
            }
        } else if cur.len() >= 2 {
            assert(quoted_token(phrase(cur)));
            let d2 = done.push(phrase(cur));
            assert forall|i: int| 0 <= i < d2.len() implies quoted_token(#[trigger] d2[i]) by {
                if i < done.len() {
                    assert(d2[i] == done[i]);
                }
            }
        }
    }
}

/// The FTS5 expression is made only of quoted tokens: every phrase of the
/// query is `"t"` for a token `t` of at least two characters whose characters are
/// alphanumeric, `-` or `'`, so no FTS5 operator syntax reaches the engine.
pub proof fn law_sanitized_query_is_quoted_tokens(q: Seq<char>)
    ensures
        spec_sanitize(q) == join(query_phrases(q), " "@),
        forall|i: int| 0 <= i < query_phrases(q).len() ==> quoted_token(#[trigger] query_phrases(q)[i]),
{
    let n = q.len() as int;
    lemma_fts_state_shape(q, n);
    let (done, cur) = fts_state(q, n);
    if cur.len() >= 2 {
        assert(quoted_token(phrase(cur)));
        let d2 = done.push(phrase(cur));
        assert forall|i: int| 0 <= i < d2.len() implies quoted_token(#[trigger] d2[i]) by {
            if i < done.len() {
                assert(d2[i] == done[i]);
            }
        }
    }
}

} // verus!
