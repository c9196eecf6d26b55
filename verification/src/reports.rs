//! The text answers of the MCP tools: package listings, name resolution,
//! dependency status and API diffs; and the per-session memory of the
//! results already returned.
use vstd::prelude::*;

use crate::chunker::strings_view;
use crate::commands::{spec_version_matches, version_matches};
use crate::diff::{triples_view, ApiDiff};
use crate::package::Package;
use crate::parser::opt_view;
use crate::stack::{DepV, Dependency};
use crate::text::{chars_of, contains, contains_seq, join, lowercase, push_all, push_lit, string_of, to_lower};

verus! {

// ───────────────────────────── listings ─────────────────────────────

/// `- key`, or `- key: description` when the description is not empty.
pub open spec fn package_line(key: Seq<char>, desc: Option<Seq<char>>) -> Seq<char> {
    let d = match desc {
        Some(x) => x,
        None => seq![],
    };
    if d.len() == 0 {
        "- "@ + key
    } else {
        "- "@ + key + ": "@ + d
    }
}

pub open spec fn installed_lines(ps: Seq<(Seq<char>, Package)>, k: int) -> Seq<Seq<char>>
    decreases k,
{
    if k <= 0 || k > ps.len() {
        seq![]
    } else {
        installed_lines(ps, k - 1).push(package_line(ps[k - 1].0, opt_view(ps[k - 1].1.description)))
    }
}

pub open spec fn keyed(v: Seq<(String, Package)>) -> Seq<(Seq<char>, Package)> {
    v.map_values(|e: (String, Package)| (e.0@, e.1))
}

fn push_package_line(out: &mut Vec<Vec<char>>, key: &String, p: &Package)
    ensures
        final(out)@.map_values(|x: Vec<char>| x@) == old(out)@.map_values(|x: Vec<char>| x@).push(
            package_line(key@, opt_view(p.description)),
        ),
{
    let mut line = chars_of("- ");
    push_all(&mut line, &chars_of(key.as_str()));
    match &p.description {
        Some(d) => {
            let dc = chars_of(d.as_str());
            if dc.len() > 0 {
                push_lit(&mut line, ": ");
                push_all(&mut line, &dc);
            }
        },
        None => {},
    }
    let ghost o0 = out@.map_values(|x: Vec<char>| x@);
    out.push(line);
    assert(out@.map_values(|x: Vec<char>| x@) =~= o0.push(out@[out@.len() - 1]@));
}

/// The `list_packages` answer: one line per installed package (see
/// [`package_line`]), or a hint when none is installed.
pub fn package_listing(packages: &Vec<(String, Package)>) -> (r: String)
    ensures
        packages.len() == 0 ==> r@ == "No packages installed. Use `lore add <package>` to install one."@,
        packages.len() > 0 ==> r@ == join(installed_lines(keyed(packages@), packages.len() as int), "\n"@),
{
    if packages.len() == 0 {
        return "No packages installed. Use `lore add <package>` to install one.".to_string();
    }
    let ghost kv = keyed(packages@);
    let mut lines: Vec<Vec<char>> = Vec::new();
    let mut i: usize = 0;
    while i < packages.len()
        invariant
            i <= packages.len(),
            kv == keyed(packages@),
            lines@.map_values(|x: Vec<char>| x@) == installed_lines(kv, i as int),
        decreases packages.len() - i,
    {
        assert(kv[i as int] == (packages@[i as int].0@, packages@[i as int].1));
        push_package_line(&mut lines, &packages[i].0, &packages[i].1);
        i = i + 1;
    }
    let sep = chars_of("\n");
    let j = crate::text::join_chars(&lines, &sep);
    string_of(&j)
}

/// The installed packages among `ps[..k]` whose name contains `needle`,
/// ignoring case, as listing lines.
pub open spec fn matching_lines(ps: Seq<(Seq<char>, Package)>, needle: Seq<char>, k: int) -> Seq<Seq<char>>
    decreases k,
{
    if k <= 0 || k > ps.len() {
        seq![]
    } else {
        let r = matching_lines(ps, needle, k - 1);
        if contains_seq(lowercase(ps[k - 1].1.name@), lowercase(needle)) {
            r.push(package_line(ps[k - 1].0, opt_view(ps[k - 1].1.description)))
        } else {
            r
        }
    }
}

/// The `resolve_package` answer: the installed packages whose name contains
/// `name` (ignoring case), one per line, or a note that none does.
pub fn resolve_listing(packages: &Vec<(String, Package)>, name: &str) -> (r: String)
    ensures
        ({
            let ls = matching_lines(keyed(packages@), name@, packages.len() as int);
            if ls.len() == 0 {
                r@ == "No installed package matches '"@ + name@ + "'."@
            } else {
                r@ == join(ls, "\n"@)
            }
        }),
{
    let ghost kv = keyed(packages@);
    let needle = chars_of(to_lower(name).as_str());
    let mut lines: Vec<Vec<char>> = Vec::new();
    let mut i: usize = 0;
    while i < packages.len()
        invariant
            i <= packages.len(),
            kv == keyed(packages@),
            needle@ == lowercase(name@),
            lines@.map_values(|x: Vec<char>| x@) == matching_lines(kv, name@, i as int),
        decreases packages.len() - i,
    {
        assert(kv[i as int] == (packages@[i as int].0@, packages@[i as int].1));
        let low = chars_of(to_lower(packages[i].1.name.as_str()).as_str());
        if contains(&low, &needle) {
            push_package_line(&mut lines, &packages[i].0, &packages[i].1);
        }
        i = i + 1;
    }
    if lines.len() == 0 {
        let mut m = chars_of("No installed package matches '");
        push_all(&mut m, &chars_of(name));
        push_lit(&mut m, "'.");
        return string_of(&m);
    }
    let sep = chars_of("\n");
    let j = crate::text::join_chars(&lines, &sep);
    string_of(&j)
}

// ───────────────────────────── dependency status ─────────────────────────────

/// The first installed package among `ps[k..]` with the given registry and
/// name.
pub open spec fn installed_match(ps: Seq<(Seq<char>, Package)>, registry: Seq<char>, name: Seq<char>, k: int) -> Option<int>
    decreases ps.len() - k,
{
    if k < 0 || k >= ps.len() {
        None
    } else if ps[k].1.registry@ == registry && ps[k].1.name@ == name {
        Some(k)
    } else {
        installed_match(ps, registry, name, k + 1)
    }
}

/// The status line of one dependency: the installed package that documents
/// it (flagged when its version does not satisfy the declared one), or a
/// note that none does.
pub open spec fn status_line(d: DepV, ps: Seq<(Seq<char>, Package)>) -> Seq<char> {
    match installed_match(ps, d.registry, d.name, 0) {
        Some(i) => {
            let want = match d.version {
                Some(v) => v,
                None => "*"@,
            };
            let drift = match d.version {
                Some(v) => !spec_version_matches(v, ps[i].1.version@),
                None => false,
            };
            "✓ "@ + d.registry + "/"@ + d.name + " (want "@ + want + ", indexed "@ + ps[i].1.version@ + ") → "@
                + ps[i].0 + if drift {
                "  ⚠ indexed docs may be stale"@
            } else {
                seq![]
            }
        },
        None => "✗ "@ + d.registry + "/"@ + d.name + " — no docs installed (try `lore add "@ + d.name + "`)"@,
    }
}

pub open spec fn status_lines(ds: Seq<DepV>, ps: Seq<(Seq<char>, Package)>, k: int) -> Seq<Seq<char>>
    decreases k,
{
    if k <= 0 || k > ds.len() {
        seq![]
    } else {
        status_lines(ds, ps, k - 1).push(status_line(ds[k - 1], ps))
    }
}

fn find_installed(packages: &Vec<(String, Package)>, registry: &String, name: &String) -> (r: Option<usize>)
    ensures
        match r {
            Some(i) => installed_match(keyed(packages@), registry@, name@, 0) == Some(i as int) && i
                < packages.len(),
            None => installed_match(keyed(packages@), registry@, name@, 0) is None,
        },
{
    let ghost kv = keyed(packages@);
    let rc = chars_of(registry.as_str());
    let nc = chars_of(name.as_str());
    let mut i: usize = 0;
    while i < packages.len()
        invariant
            i <= packages.len(),
            kv == keyed(packages@),
            rc@ == registry@,
            nc@ == name@,
            installed_match(kv, registry@, name@, 0) == installed_match(kv, registry@, name@, i as int),
        decreases packages.len() - i,
    {
        assert(kv[i as int] == (packages@[i as int].0@, packages@[i as int].1));
        let pr = chars_of(packages[i].1.registry.as_str());
        let pn = chars_of(packages[i].1.name.as_str());
        if crate::text::chars_eq(&pr, &rc) && crate::text::chars_eq(&pn, &nc) {
            return Some(i);
        }
        i = i + 1;
    }
    None
}

/// The `stack_status` answer for the project's dependencies `deps` (at
/// least one) against the installed packages: one status line per
/// dependency (see [`status_line`]).
pub fn stack_status_text(deps: &Vec<Dependency>, packages: &Vec<(String, Package)>) -> (r: String)
    ensures
        r@ == join(status_lines(crate::stack::deps_view(deps@), keyed(packages@), deps.len() as int), "\n"@),
{
    let ghost dv = crate::stack::deps_view(deps@);
    let ghost kv = keyed(packages@);
    let mut lines: Vec<Vec<char>> = Vec::new();
    let mut i: usize = 0;
    while i < deps.len()
        invariant
            i <= deps.len(),
            dv == crate::stack::deps_view(deps@),
            kv == keyed(packages@),
            lines@.map_values(|x: Vec<char>| x@) == status_lines(dv, kv, i as int),
        decreases deps.len() - i,
    {
        let d = &deps[i];
        assert(dv[i as int] == d@);
        let mut line: Vec<char>;
        match find_installed(packages, &d.registry, &d.name) {
            Some(k) => {
                assert(kv[k as int] == (packages@[k as int].0@, packages@[k as int].1));
                let p = &packages[k];
                line = chars_of("✓ ");
                push_all(&mut line, &chars_of(d.registry.as_str()));
                push_lit(&mut line, "/");
                push_all(&mut line, &chars_of(d.name.as_str()));
                push_lit(&mut line, " (want ");
                let drift = match &d.version {
                    Some(v) => {
                        push_all(&mut line, &chars_of(v.as_str()));
                        !version_matches(v.as_str(), p.1.version.as_str())
                    },
                    None => {
                        push_lit(&mut line, "*");
                        false
                    },
                };
                push_lit(&mut line, ", indexed ");
                push_all(&mut line, &chars_of(p.1.version.as_str()));
                push_lit(&mut line, ") → ");
                push_all(&mut line, &chars_of(p.0.as_str()));
                if drift {
                    push_lit(&mut line, "  ⚠ indexed docs may be stale");
                }
                proof {
                    if !drift {
                        assert(line@ =~= status_line(dv[i as int], kv));
                    }
                }
            },
            None => {
                line = chars_of("✗ ");
                push_all(&mut line, &chars_of(d.registry.as_str()));
                push_lit(&mut line, "/");
                push_all(&mut line, &chars_of(d.name.as_str()));
                push_lit(&mut line, " — no docs installed (try `lore add ");
                push_all(&mut line, &chars_of(d.name.as_str()));
                push_lit(&mut line, "`)");
            },
        }
        assert(line@ == status_line(dv[i as int], kv));
        let ghost l0 = lines@.map_values(|x: Vec<char>| x@);
        lines.push(line);
        assert(lines@.map_values(|x: Vec<char>| x@) =~= l0.push(status_line(dv[i as int], kv)));
        i = i + 1;
    }
    let sep = chars_of("\n");
    let j = crate::text::join_chars(&lines, &sep);
    string_of(&j)
}

// ───────────────────────────── API diff ─────────────────────────────

pub open spec fn prefixed_lines(prefix: Seq<char>, ks: Seq<Seq<char>>, k: int) -> Seq<char>
    decreases k,
{
    if k <= 0 || k > ks.len() {
        seq![]
    } else {
        prefixed_lines(prefix, ks, k - 1) + prefix + ks[k - 1] + "\n"@
    }
}

pub open spec fn changed_lines(cs: Seq<(Seq<char>, Seq<char>, Seq<char>)>, k: int) -> Seq<char>
    decreases k,
{
    if k <= 0 || k > cs.len() {
        seq![]
    } else {
        changed_lines(cs, k - 1) + "~ CHANGED "@ + cs[k - 1].0 + "\n    was: "@ + cs[k - 1].1 + "\n    now: "@
            + cs[k - 1].2 + "\n"@
    }
}

/// The `version_diff` answer for a diff of `old` → `new`: a note when
/// nothing differs, else a header and one entry per removed, added and
/// changed item, in that order.
pub open spec fn spec_diff_report(
    old: Seq<char>,
    new: Seq<char>,
    added: Seq<Seq<char>>,
    removed: Seq<Seq<char>>,
    changed: Seq<(Seq<char>, Seq<char>, Seq<char>)>,
) -> Seq<char> {
    if added.len() == 0 && removed.len() == 0 && changed.len() == 0 {
        "No API differences detected between "@ + old + " and "@ + new + "."@
    } else {
        "API diff "@ + old + " → "@ + new + ":\n"@ + prefixed_lines("- REMOVED "@, removed, removed.len() as int)
            + prefixed_lines("+ ADDED   "@, added, added.len() as int) + changed_lines(changed, changed.len() as int)
    }
}

fn push_prefixed_lines(out: &mut Vec<char>, prefix: &str, ks: &Vec<String>)
    ensures
        final(out)@ == old(out)@ + prefixed_lines(prefix@, strings_view(ks@), ks@.len() as int),
{
    let ghost o0 = out@;
    let ghost kv = strings_view(ks@);
    let mut i: usize = 0;
    while i < ks.len()
        invariant
            i <= ks.len(),
            kv == strings_view(ks@),
            out@ == o0 + prefixed_lines(prefix@, kv, i as int),
        decreases ks.len() - i,
    {
        assert(kv[i as int] == ks@[i as int]@);
        push_lit(out, prefix);
        push_all(out, &chars_of(ks[i].as_str()));
        push_lit(out, "\n");
        assert(out@ =~= o0 + prefixed_lines(prefix@, kv, i + 1));
        i = i + 1;
    }
}

/// The `version_diff` answer (see [`spec_diff_report`]).
pub fn diff_report(old: &str, new: &str, d: &ApiDiff) -> (r: String)
    ensures
        r@ == spec_diff_report(old@, new@, strings_view(d.added@), strings_view(d.removed@), triples_view(d.changed@)),
{
    if d.added.len() == 0 && d.removed.len() == 0 && d.changed.len() == 0 {
        let mut m = chars_of("No API differences detected between ");
        push_all(&mut m, &chars_of(old));
        push_lit(&mut m, " and ");
        push_all(&mut m, &chars_of(new));
        push_lit(&mut m, ".");
        return string_of(&m);
    }
    let mut out = chars_of("API diff ");
    push_all(&mut out, &chars_of(old));
    push_lit(&mut out, " → ");
    push_all(&mut out, &chars_of(new));
    push_lit(&mut out, ":\n");
    push_prefixed_lines(&mut out, "- REMOVED ", &d.removed);
    push_prefixed_lines(&mut out, "+ ADDED   ", &d.added);
    let ghost o0 = out@;
    let ghost cv = triples_view(d.changed@);
    let mut i: usize = 0;
    while i < d.changed.len()
        invariant
            i <= d.changed.len(),
            cv == triples_view(d.changed@),
            out@ == o0 + changed_lines(cv, i as int),
        decreases d.changed.len() - i,
    {
        let c = &d.changed[i];
        assert(cv[i as int] == (c.0@, c.1@, c.2@));
        push_lit(&mut out, "~ CHANGED ");
        push_all(&mut out, &chars_of(c.0.as_str()));
        push_lit(&mut out, "\n    was: ");
        push_all(&mut out, &chars_of(c.1.as_str()));
        push_lit(&mut out, "\n    now: ");
        push_all(&mut out, &chars_of(c.2.as_str()));
        push_lit(&mut out, "\n");
        assert(out@ =~= o0 + changed_lines(cv, i + 1));
        i = i + 1;
    }
    string_of(&out)
}

// ───────────────────────────── session memory ─────────────────────────────

/// The `(package, node id)` pairs returned earlier in a session.
pub struct SessionSeen {
    seen: Vec<(String, i64)>,
}

pub open spec fn seen_view(v: Seq<(String, i64)>) -> Seq<(Seq<char>, i64)> {
    v.map_values(|e: (String, i64)| (e.0@, e.1))
}

impl View for SessionSeen {
    type V = Seq<(Seq<char>, i64)>;

    closed spec fn view(&self) -> Seq<(Seq<char>, i64)> {
        seen_view(self.seen@)
    }
}

/// Going through `ids[..k]` of package `key`: the pairs seen afterwards and,
/// for each id, whether it is new (and so kept).
pub open spec fn fresh_fold(seen: Seq<(Seq<char>, i64)>, key: Seq<char>, ids: Seq<i64>, k: int) -> (
    Seq<(Seq<char>, i64)>,
    Seq<bool>,
)
    decreases k,
{
    if k <= 0 || k > ids.len() {
        (seen, seq![])
    } else {
        let (s, f) = fresh_fold(seen, key, ids, k - 1);
        if s.contains((key, ids[k - 1])) {
            (s, f.push(false))
        } else {
            (s.push((key, ids[k - 1])), f.push(true))
        }
    }
}

impl SessionSeen {
    /// A session with nothing returned yet.
    pub fn new() -> (r: SessionSeen)
        ensures
            r@ == Seq::<(Seq<char>, i64)>::empty(),
    {
        let r = SessionSeen { seen: Vec::new() };
        assert(r@ =~= Seq::<(Seq<char>, i64)>::empty());
        r
    }

    /// Forgets everything returned so far.
    pub fn reset(&mut self)
        ensures
            final(self)@ == Seq::<(Seq<char>, i64)>::empty(),
    {
        self.seen = Vec::new();
        assert(self@ =~= Seq::<(Seq<char>, i64)>::empty());
    }

    /// Marks which of the results `ids` of package `key` are new this
    /// session (see [`fresh_fold`]) and records them as returned.
    pub fn keep_fresh(&mut self, key: &str, ids: &Vec<i64>) -> (r: Vec<bool>)
        ensures
            (final(self)@, r@) == fresh_fold(old(self)@, key@, ids@, ids@.len() as int),
    {
        let ghost s0 = self@;
        let kc = chars_of(key);
        let mut out: Vec<bool> = Vec::new();
        let mut i: usize = 0;
        while i < ids.len()
            invariant
                i <= ids.len(),
                kc@ == key@,
                s0 == old(self)@,
                (self@, out@) == fresh_fold(s0, key@, ids@, i as int),
            decreases ids.len() - i,
        {
            let id = ids[i];
            let mut found = false;
            let mut j: usize = 0;
            while j < self.seen.len()
                invariant
                    j <= self.seen.len(),
                    kc@ == key@,
                    !found ==> forall|q: int| 0 <= q < j ==> #[trigger] self@[q] != (key@, id),
                    found ==> self@.contains((key@, id)),
                decreases self.seen.len() - j,
            {
                assert(self@[j as int] == (self.seen@[j as int].0@, self.seen@[j as int].1));
                if !found && self.seen[j].1 == id {
                    let c = chars_of(self.seen[j].0.as_str());
                    if crate::text::chars_eq(&c, &kc) {
                        found = true;
                    }
                }
                j = j + 1;
            }
            let ghost sv = self@;
            if found {
                out.push(false);
            } else {
                self.seen.push((key.to_string(), id));
                assert(self@ =~= sv.push((key@, id)));
                out.push(true);
            }
            i = i + 1;
        }
        out
    }
}

proof fn lemma_fresh_fold_records(seen: Seq<(Seq<char>, i64)>, key: Seq<char>, ids: Seq<i64>, k: int)
    requires
        0 <= k <= ids.len(),
    ensures
        fresh_fold(seen, key, ids, k).1.len() == k,
        forall|x: (Seq<char>, i64)| seen.contains(x) ==> #[trigger] fresh_fold(seen, key, ids, k).0.contains(x),
        forall|j: int| 0 <= j < k ==> fresh_fold(seen, key, ids, k).0.contains((key, #[trigger] ids[j])),
    decreases k,
{
    if k > 0 {
        lemma_fresh_fold_records(seen, key, ids, k - 1);
        let (s, f) = fresh_fold(seen, key, ids, k - 1);
        if !s.contains((key, ids[k - 1])) {
            let s2 = s.push((key, ids[k - 1]));
            assert forall|x: (Seq<char>, i64)| s.contains(x) implies #[trigger] s2.contains(x) by {
                let q = choose|q: int| 0 <= q < s.len() && s[q] == x;
                assert(s2[q] == x);
            }
            assert(s2[s.len() as int] == (key, ids[k - 1]));
        }
    }
}

proof fn lemma_fresh_fold_all_seen(seen: Seq<(Seq<char>, i64)>, key: Seq<char>, ids: Seq<i64>, k: int)
    requires
        0 <= k <= ids.len(),
        forall|j: int| 0 <= j < ids.len() ==> seen.contains((key, #[trigger] ids[j])),
    ensures
        fresh_fold(seen, key, ids, k).0 == seen,
        forall|j: int| 0 <= j < k ==> !#[trigger] fresh_fold(seen, key, ids, k).1[j],
        fresh_fold(seen, key, ids, k).1.len() == k,
    decreases k,
{
    if k > 0 {
        lemma_fresh_fold_all_seen(seen, key, ids, k - 1);
        let (s, f) = fresh_fold(seen, key, ids, k - 1);
        let f2 = f.push(false);
        assert forall|j: int| 0 <= j < k implies !#[trigger] f2[j] by {
            if j < k - 1 {
                assert(f2[j] == f[j]);
            }
        }
    }
}

/// A result is returned once per session: after the results of a package
/// have been handed out, asking again with the same results keeps none of
/// them, and the memory is unchanged.
pub proof fn law_fresh_results_not_repeated(seen: Seq<(Seq<char>, i64)>, key: Seq<char>, ids: Seq<i64>)
    ensures
        ({
            let first = fresh_fold(seen, key, ids, ids.len() as int).0;
            let again = fresh_fold(first, key, ids, ids.len() as int);
            again.0 == first && again.1.len() == ids.len() && forall|j: int| 0 <= j < ids.len() ==> !#[trigger] again.1[j]
        }),
{
    let n = ids.len() as int;
    lemma_fresh_fold_records(seen, key, ids, n);
    let first = fresh_fold(seen, key, ids, n).0;
    lemma_fresh_fold_all_seen(first, key, ids, n);
}

} // verus!
