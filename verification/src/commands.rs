//! Decisions the command-line tool and the MCP server make: which installed
//! packages to update, how an update source is described, where a package's
//! database lives, which chunks a retrieval self-check samples, and the
//! checks on MCP tool input.
use vstd::prelude::*;

use crate::error::LoreError;
use crate::package::{valid_package_key, validate_package_key, key_check_result, Package};
use crate::stack::Dependency;
use crate::text::{chars_of, has_prefix, has_suffix, is_ws, join, push_all, push_lit, string_of, utf8_len};

verus! {

// ───────────────────────────── updates ─────────────────────────────

/// `url` looks like a git repository: it is an `https://` URL on a GitHub,
/// GitLab or Bitbucket host (`https://github.…`, `https://gitlab.…`,
/// `https://bitbucket.…`), it ends with `.git`, or it uses the `git://` or
/// `git@` scheme.
pub open spec fn git_like(url: Seq<char>) -> bool {
    has_suffix(url, ".git"@) || has_prefix(url, "git://"@) || has_prefix(url, "git@"@) || has_prefix(
        url,
        "https://github."@,
    ) || has_prefix(url, "https://gitlab."@) || has_prefix(url, "https://bitbucket."@)
}

/// Whether `url` looks like a git repository URL (see [`git_like`]).
pub fn looks_like_git_url(url: &str) -> (b: bool)
    ensures
        b == git_like(url@),
{
    let u = chars_of(url);
    crate::text::ends_with_lit(&u, ".git") || crate::text::starts_with_lit(&u, "git://")
        || crate::text::starts_with_lit(&u, "git@") || crate::text::starts_with_lit(&u, "https://github.")
        || crate::text::starts_with_lit(&u, "https://gitlab.") || crate::text::starts_with_lit(
        &u,
        "https://bitbucket.",
    )
}

/// Where an installed package would be rebuilt from.
pub open spec fn source_description(source_url: Option<Seq<char>>) -> Seq<char> {
    match source_url {
        Some(u) => if git_like(u) {
            "git "@ + u
        } else {
            "website "@ + u
        },
        None => "no remote source"@,
    }
}

/// A human-readable description of where a package's source lives.
pub fn update_source_description(meta: &Package) -> (r: String)
    ensures
        r@ == source_description(crate::parser::opt_view(meta.source_url)),
{
    match &meta.source_url {
        Some(url) => {
            let u = chars_of(url.as_str());
            let mut out = if looks_like_git_url(url.as_str()) {
                chars_of("git ")
            } else {
                chars_of("website ")
            };
            push_all(&mut out, &u);
            string_of(&out)
        },
        None => "no remote source".to_string(),
    }
}

/// The installed package `(key, name)` is one of `requested` (by key or by
/// name).
pub open spec fn requested_pkg(requested: Seq<Seq<char>>, key: Seq<char>, name: Seq<char>) -> bool {
    exists|i: int| 0 <= i < requested.len() && (requested[i] == key || requested[i] == name)
}

/// The positions, in order, of the installed packages to update: all of them
/// when none is requested, else those requested by key or name.
pub open spec fn update_selection(installed: Seq<(Seq<char>, Seq<char>)>, requested: Seq<Seq<char>>, k: int) -> Seq<int>
    decreases k,
{
    if k <= 0 || k > installed.len() {
        seq![]
    } else if requested.len() == 0 || requested_pkg(requested, installed[k - 1].0, installed[k - 1].1) {
        update_selection(installed, requested, k - 1).push(k - 1)
    } else {
        update_selection(installed, requested, k - 1)
    }
}

pub open spec fn installed_view(v: Seq<(String, Package)>) -> Seq<(Seq<char>, Seq<char>)> {
    v.map_values(|e: (String, Package)| (e.0@, e.1.name@))
}

/// The indices of the installed packages an update covers (see
/// [`update_selection`]).
pub fn select_for_update(installed: &Vec<(String, Package)>, requested: &Vec<String>) -> (r: Vec<usize>)
    ensures
        r@.map_values(|i: usize| i as int) == update_selection(
            installed_view(installed@),
            crate::chunker::strings_view(requested@),
            installed.len() as int,
        ),
{
    let ghost iv = installed_view(installed@);
    let ghost rv = crate::chunker::strings_view(requested@);
    let mut r: Vec<usize> = Vec::new();
    let mut i: usize = 0;
    while i < installed.len()
        invariant
            i <= installed.len(),
            iv == installed_view(installed@),
            rv == crate::chunker::strings_view(requested@),
            r@.map_values(|x: usize| x as int) == update_selection(iv, rv, i as int),
        decreases installed.len() - i,
    {
        let ghost r0 = r@;
        assert(iv[i as int] == (installed@[i as int].0@, installed@[i as int].1.name@));
        let key = chars_of(installed[i].0.as_str());
        let name = chars_of(installed[i].1.name.as_str());
        let mut take = requested.len() == 0;
        let mut j: usize = 0;
        while j < requested.len() && !take
            invariant
                j <= requested.len(),
                rv == crate::chunker::strings_view(requested@),
                take == (rv.len() == 0 || exists|q: int| 0 <= q < j && (rv[q] == key@ || rv[q] == name@)),
            decreases requested.len() - j,
        {
            let p = chars_of(requested[j].as_str());
            assert(rv[j as int] == requested@[j as int]@);
            if crate::text::chars_eq(&p, &key) || crate::text::chars_eq(&p, &name) {
                take = true;
            }
            j = j + 1;
        }
        proof {
            if !take && rv.len() > 0 {
                assert(j == requested.len());
                assert(!requested_pkg(rv, key@, name@));
            }
        }
        if take {
            r.push(i);
            assert(r@.map_values(|x: usize| x as int) =~= r0.map_values(|x: usize| x as int).push(i as int));
        }
        i = i + 1;
    }
    r
}

/// The file name of a package's database, `<key>.db`, once the key passes
/// [`validate_package_key`].
pub fn package_db_file(package_key: &str) -> (r: Result<String, LoreError>)
    ensures
        valid_package_key(package_key@) ==> (r matches Ok(f) && f@ == package_key@ + ".db"@),
        !valid_package_key(package_key@) ==> key_check_result(package_key@, match r {
            Ok(_) => Ok(()),
            Err(e) => Err(e),
        }),
{
    match validate_package_key(package_key) {
        Ok(()) => {
            let mut f = chars_of(package_key);
            push_lit(&mut f, ".db");
            Ok(string_of(&f))
        },
        Err(e) => Err(e),
    }
}

/// What an upstream version lookup tells of an installed package.
#[derive(Debug, Clone, Copy, PartialEq, Eq, Structural)]
pub enum UpdateStatus {
    /// The installed version is the latest.
    UpToDate,
    /// A newer (different) version is out.
    Stale,
    /// The package's registry has no version lookup.
    Unsupported,
    /// The lookup failed.
    Failed,
}

/// An upstream lookup's result: the latest version, none for an unsupported
/// registry, or the error's message.
pub open spec fn lookup_view(l: Result<Option<String>, String>) -> Result<Option<Seq<char>>, Seq<char>> {
    match l {
        Ok(Some(v)) => Ok(Some(v@)),
        Ok(None) => Ok(None),
        Err(e) => Err(e@),
    }
}

pub open spec fn spec_update_status(current: Seq<char>, latest: Result<Option<Seq<char>>, Seq<char>>) -> UpdateStatus {
    match latest {
        Ok(Some(v)) => if v == current {
            UpdateStatus::UpToDate
        } else {
            UpdateStatus::Stale
        },
        Ok(None) => UpdateStatus::Unsupported,
        Err(_) => UpdateStatus::Failed,
    }
}

/// The "Latest" column: the version found, `—` for an unsupported registry,
/// `?` for a failed lookup.
pub open spec fn latest_label(latest: Result<Option<Seq<char>>, Seq<char>>) -> Seq<char> {
    match latest {
        Ok(Some(v)) => v,
        Ok(None) => "—"@,
        Err(_) => "?"@,
    }
}

/// The row of `check-updates` for a package installed at `current` whose
/// lookup gave `latest`: the "Latest" column and the status.
pub fn update_row(current: &str, latest: &Result<Option<String>, String>) -> (r: (String, UpdateStatus))
    ensures
        r.0@ == latest_label(lookup_view(*latest)),
        r.1 == spec_update_status(current@, lookup_view(*latest)),
{
    match latest {
        Ok(Some(v)) => {
            let vc = chars_of(v.as_str());
            let cc = chars_of(current);
            let same = crate::text::chars_eq(&vc, &cc);
            let st = if same {
                UpdateStatus::UpToDate
            } else {
                UpdateStatus::Stale
            };
            (v.clone(), st)
        },
        Ok(None) => ("—".to_string(), UpdateStatus::Unsupported),
        Err(_) => ("?".to_string(), UpdateStatus::Failed),
    }
}

/// How many of `ss[..k]` are `st`.
pub open spec fn status_count(ss: Seq<UpdateStatus>, st: UpdateStatus, k: int) -> nat
    decreases k,
{
    if k <= 0 || k > ss.len() {
        0
    } else {
        status_count(ss, st, k - 1) + if ss[k - 1] == st {
            1nat
        } else {
            0nat
        }
    }
}

/// The outcome of `check-updates` over the packages' statuses: when any
/// package is stale, `LoreError::Registry("<n> package(s) out of date")`;
/// otherwise the number of packages that could not be checked.
pub open spec fn spec_updates_verdict(ss: Seq<UpdateStatus>) -> Result<nat, Seq<char>> {
    let stale = status_count(ss, UpdateStatus::Stale, ss.len() as int);
    if stale > 0 {
        Err(crate::manifest::decimal(stale) + " package(s) out of date"@)
    } else {
        Ok(status_count(ss, UpdateStatus::Unsupported, ss.len() as int) + status_count(
            ss,
            UpdateStatus::Failed,
            ss.len() as int,
        ))
    }
}

/// The outcome of `check-updates` (see [`spec_updates_verdict`]).
pub fn updates_verdict(statuses: &Vec<UpdateStatus>) -> (r: Result<usize, LoreError>)
    ensures
        match spec_updates_verdict(statuses@) {
            Ok(n) => r == Ok::<usize, LoreError>(n as usize),
            Err(m) => r matches Err(LoreError::Registry(e)) && e@ == m,
        },
{
    let mut stale: usize = 0;
    let mut unknown: usize = 0;
    let mut i: usize = 0;
    let ghost ss = statuses@;
    while i < statuses.len()
        invariant
            i <= statuses.len(),
            ss == statuses@,
            stale == status_count(ss, UpdateStatus::Stale, i as int),
            unknown == status_count(ss, UpdateStatus::Unsupported, i as int) + status_count(
                ss,
                UpdateStatus::Failed,
                i as int,
            ),
            stale + unknown <= i,
        decreases statuses.len() - i,
    {
        match statuses[i] {
            UpdateStatus::Stale => {
                stale = stale + 1;
            },
            UpdateStatus::Unsupported => {
                unknown = unknown + 1;
            },
            UpdateStatus::Failed => {
                unknown = unknown + 1;
            },
            UpdateStatus::UpToDate => {},
        }
        i = i + 1;
    }
    if stale > 0 {
        let mut m = crate::manifest::decimal_usize(stale);
        push_lit(&mut m, " package(s) out of date");
        Err(LoreError::Registry(string_of(&m)))
    } else {
        Ok(unknown)
    }
}

/// The name a package built from rustdoc JSON gets: the `--name` given,
/// else the crate's name, else the JSON file's stem; with none of them, the
/// message of the configuration error.
pub open spec fn spec_package_name(
    name: Option<Seq<char>>,
    crate_name: Option<Seq<char>>,
    json_stem: Option<Seq<char>>,
) -> Result<Seq<char>, Seq<char>> {
    match name {
        Some(n) => Ok(n),
        None => match crate_name {
            Some(c) => Ok(c),
            None => match json_stem {
                Some(j) => Ok(j),
                None => Err("provide --name, --crate, or --json"@),
            },
        },
    }
}

/// Picks the package name for `build-rustdoc` (see [`spec_package_name`]);
/// none given is `LoreError::InvalidConfig`.
pub fn pick_package_name(name: &Option<String>, crate_name: &Option<String>, json_stem: &Option<String>) -> (r: Result<
    String,
    LoreError,
>)
    ensures
        match spec_package_name(
            crate::parser::opt_view(*name),
            crate::parser::opt_view(*crate_name),
            crate::parser::opt_view(*json_stem),
        ) {
            Ok(n) => r matches Ok(s) && s@ == n,
            Err(m) => r matches Err(LoreError::InvalidConfig(e)) && e@ == m,
        },
{
    match name {
        Some(n) => Ok(n.clone()),
        None => match crate_name {
            Some(c) => Ok(c.clone()),
            None => match json_stem {
                Some(j) => Ok(j.clone()),
                None => {
                    let m = chars_of("provide --name, --crate, or --json");
                    Err(LoreError::InvalidConfig(string_of(&m)))
                },
            },
        },
    }
}

// ───────────────────────────── retrieval self-check ─────────────────────────────

/// The whitespace-separated words of `s[..k]` finished so far, and the word
/// in progress.
pub open spec fn word_state(s: Seq<char>, k: int) -> (Seq<Seq<char>>, Seq<char>)
    decreases k,
{
    if k <= 0 || k > s.len() {
        (seq![], seq![])
    } else {
        let (done, cur) = word_state(s, k - 1);
        if !is_ws(s[k - 1]) {
            (done, cur.push(s[k - 1]))
        } else if cur.len() > 0 {
            (done.push(cur), seq![])
        } else {
            (done, seq![])
        }
    }
}

/// `str::split_whitespace`: the maximal runs of non-whitespace characters.
pub open spec fn words(s: Seq<char>) -> Seq<Seq<char>> {
    let (done, cur) = word_state(s, s.len() as int);
    if cur.len() > 0 {
        done.push(cur)
    } else {
        done
    }
}

/// The words of `s`.
pub fn split_words(s: &str) -> (r: Vec<Vec<char>>)
    ensures
        r@.map_values(|w: Vec<char>| w@) == words(s@),
{
    let c = chars_of(s);
    let mut done: Vec<Vec<char>> = Vec::new();
    let mut cur: Vec<char> = Vec::new();
    let mut i: usize = 0;
    while i < c.len()
        invariant
            i <= c.len(),
            c@ == s@,
            (done@.map_values(|w: Vec<char>| w@), cur@) == word_state(s@, i as int),
        decreases c.len() - i,
    {
        let ghost d0 = done@;
        if !crate::text::is_ws_char(c[i]) {
            cur.push(c[i]);
        } else if cur.len() > 0 {
            let mut w: Vec<char> = Vec::new();
            std::mem::swap(&mut w, &mut cur);
            done.push(w);
            assert(done@.map_values(|w: Vec<char>| w@) =~= d0.map_values(|w: Vec<char>| w@).push(w@));
            assert(cur@ =~= seq![]);
        }
        i = i + 1;
    }
    if cur.len() > 0 {
        let ghost d0 = done@;
        let ghost cw = cur@;
        done.push(cur);
        assert(done@.map_values(|w: Vec<char>| w@) =~= d0.map_values(|w: Vec<char>| w@).push(cw));
    }
    done
}

/// The query made of the first ten words of `content`, joined by spaces.
pub open spec fn probe_query(content: Seq<char>) -> Seq<char> {
    let ws = words(content);
    join(if ws.len() > 10 {
        ws.take(10)
    } else {
        ws
    }, " "@)
}

/// The self-retrieval query for a chunk: its first ten words.
pub fn self_check_query(content: &str) -> (r: String)
    ensures
        r@ == probe_query(content@),
{
    let ws = split_words(content);
    let mut first: Vec<Vec<char>> = Vec::new();
    let mut i: usize = 0;
    let ghost wv = ws@.map_values(|w: Vec<char>| w@);
    while i < ws.len() && i < 10
        invariant
            i <= ws.len(),
            i <= 10,
            wv == ws@.map_values(|w: Vec<char>| w@),
            first@.map_values(|w: Vec<char>| w@) == wv.take(i as int),
        decreases ws.len() - i,
    {
        let ghost f0 = first@;
        let w = crate::text::copy_chars(&ws[i]);
        first.push(w);
        assert(first@.map_values(|w: Vec<char>| w@) =~= f0.map_values(|w: Vec<char>| w@).push(wv[i as int]));
        assert(wv.take(i + 1) =~= wv.take(i as int).push(wv[i as int]));
        i = i + 1;
    }
    proof {
        if wv.len() <= 10 {
            assert(wv.take(i as int) =~= wv);
        }
    }
    let sep = chars_of(" ");
    let out = crate::text::join_chars(&first, &sep);
    string_of(&out)
}

/// The number of chunks sampled for the retrieval self-check.
pub const SELF_CHECK_SAMPLE: usize = 40;

/// Eligible chunks: content of at least four words.
pub open spec fn eligible(contents: Seq<Option<Seq<char>>>, k: int) -> Seq<int>
    decreases k,
{
    if k <= 0 || k > contents.len() {
        seq![]
    } else {
        let r = eligible(contents, k - 1);
        match contents[k - 1] {
            Some(c) => if words(c).len() >= 4 {
                r.push(k - 1)
            } else {
                r
            },
            None => r,
        }
    }
}

/// The step between sampled chunks: `max(1, n / 40)`.
pub open spec fn sample_step(n: nat) -> nat {
    if n / 40 >= 1 {
        n / 40
    } else {
        1
    }
}

/// Every `step`-th of `el[j..]` (starting with `el[j]`), at most `left` of
/// them.
pub open spec fn sample_from(el: Seq<int>, step: nat, j: int, left: nat) -> Seq<int>
    decreases (if j < el.len() {
        el.len() - j
    } else {
        0
    }),
{
    if j < 0 || j >= el.len() || left == 0 || step == 0 {
        seq![]
    } else {
        seq![el[j]] + sample_from(el, step, j + step, (left - 1) as nat)
    }
}

/// The sampled positions: every `step`-th eligible chunk (starting with the
/// first), at most 40 of them.
pub open spec fn sample_of(el: Seq<int>, step: nat) -> Seq<int> {
    sample_from(el, step, 0, 40)
}

pub open spec fn opt_contents(v: Seq<Option<String>>) -> Seq<Option<Seq<char>>> {
    v.map_values(|o: Option<String>| crate::parser::opt_view(o))
}

/// The positions of the chunks (given by their contents, in order) that the
/// self-check samples (see [`sample_of`]).
pub fn self_check_sample(contents: &Vec<Option<String>>) -> (r: Vec<usize>)
    ensures
        r@.map_values(|i: usize| i as int) == sample_of(
            eligible(opt_contents(contents@), contents.len() as int),
            sample_step(contents.len() as nat),
        ),
{
    let ghost cv = opt_contents(contents@);
    let mut el: Vec<usize> = Vec::new();
    let mut i: usize = 0;
    while i < contents.len()
        invariant
            i <= contents.len(),
            cv == opt_contents(contents@),
            el@.map_values(|x: usize| x as int) == eligible(cv, i as int),
            forall|j: int| 0 <= j < el@.len() ==> el@[j] < i,
        decreases contents.len() - i,
    {
        let ghost e0 = el@;
        assert(cv[i as int] == crate::parser::opt_view(contents@[i as int]));
        match &contents[i] {
            Some(c) => {
                let ws = split_words(c.as_str());
                if ws.len() >= 4 {
                    el.push(i);
                    assert(el@.map_values(|x: usize| x as int) =~= e0.map_values(|x: usize| x as int).push(i as int));
                }
            },
            None => {},
        }
        i = i + 1;
    }
    let ghost ev = el@.map_values(|x: usize| x as int);
    let step: usize = if contents.len() / 40 >= 1 {
        contents.len() / 40
    } else {
        1
    };
    let mut r: Vec<usize> = Vec::new();
    let mut j: usize = 0;
    while j < el.len() && r.len() < 40
        invariant
            ev == el@.map_values(|x: usize| x as int),
            step == sample_step(contents.len() as nat),
            step >= 1,
            r.len() <= 40,
            r@.map_values(|x: usize| x as int) + sample_from(ev, step as nat, j as int, (40 - r.len()) as nat)
                == sample_from(ev, step as nat, 0, 40),
        decreases el.len() - j,
    {
        let ghost r0 = r@;
        assert(ev[j as int] == el@[j as int] as int);
        r.push(el[j]);
        assert(r@.map_values(|x: usize| x as int) =~= r0.map_values(|x: usize| x as int).push(el@[j as int] as int));
        if el.len() - j <= step {
            assert(sample_from(ev, step as nat, j + step, (40 - r.len()) as nat) =~= seq![]);
            j = el.len();
        } else {
            j = j + step;
        }
    }
    proof {
        assert(sample_from(ev, step as nat, j as int, (40 - r.len()) as nat) =~= seq![]);
    }
    r
}

// ───────────────────────────── MCP tool input ─────────────────────────────

/// Parameters of the `search_docs` tool.
#[derive(Debug)]
pub struct SearchParams {
    /// Package key `"{registry}-{name}@{version}"`.
    pub package: String,
    /// Natural-language or keyword query.
    pub query: String,
    /// Maximum tokens across all results (2000 when absent).
    pub token_budget: Option<u32>,
    /// Omit chunks already returned earlier in the session.
    pub fresh_only: bool,
}

/// Parameters of the `resolve_package` tool.
#[derive(Debug)]
pub struct ResolveParams {
    /// A library name or fragment to match against installed package keys.
    pub name: String,
}

/// Parameters of the `search_stack` tool.
#[derive(Debug)]
pub struct SearchStackParams {
    /// Natural-language or keyword query.
    pub query: String,
    /// Maximum tokens across all results (2000 when absent).
    pub token_budget: Option<u32>,
    /// Project directory whose manifests declare the stack.
    pub project_dir: Option<String>,
}

/// Parameters of the `stack_status` tool.
#[derive(Debug)]
pub struct StackStatusParams {
    /// Project directory whose manifests declare the stack.
    pub project_dir: Option<String>,
}

/// Parameters of the `version_diff` tool.
#[derive(Debug)]
pub struct VersionDiffParams {
    /// The older package key.
    pub old: String,
    /// The newer package key.
    pub new: String,
}

/// Parameters of the `get_manifest` tool.
#[derive(Debug)]
pub struct GetManifestParams {
    /// Package key.
    pub package: String,
}

/// Parameters of the `get_node` tool.
#[derive(Debug)]
pub struct GetNodeParams {
    /// Package key.
    pub package: String,
    /// Node id as returned by `search_docs`.
    pub node_id: i64,
}

/// The longest query accepted, in bytes.
pub const MAX_QUERY_BYTES: usize = 4096;

/// Accepts a query of at most 4096 bytes; a longer one gives the message
/// `query too long (<n> bytes; max 4096)`.
pub fn check_query_len(query: &str) -> (r: Result<(), String>)
    ensures
        utf8_len(query@) <= 4096 ==> r is Ok,
        utf8_len(query@) > 4096 ==> (r matches Err(m) && m@ == "query too long ("@ + crate::manifest::decimal(
            utf8_len(query@),
        ) + " bytes; max 4096)"@),
{
    let n = crate::text::byte_len(query);
    if n <= MAX_QUERY_BYTES {
        return Ok(());
    }
    let mut m = chars_of("query too long (");
    let d = crate::manifest::decimal_usize(n);
    push_all(&mut m, &d);
    push_lit(&mut m, " bytes; max 4096)");
    Err(string_of(&m))
}

/// `s` without its leading requirement sigils (`^ ~ = > <` and spaces).
pub open spec fn strip_sigils(s: Seq<char>) -> Seq<char>
    decreases s.len(),
{
    if s.len() > 0 && (s[0] == '^' || s[0] == '~' || s[0] == '=' || s[0] == '>' || s[0] == '<' || s[0] == ' ') {
        strip_sigils(s.drop_first())
    } else {
        s
    }
}

/// Loose version equality: after the sigils, an empty or `*` requirement
/// matches anything; otherwise the indexed version equals it or continues it
/// with `.` (`1.44` matches `1.44.2`).
pub open spec fn spec_version_matches(declared: Seq<char>, indexed: Seq<char>) -> bool {
    let d = strip_sigils(declared);
    d.len() == 0 || d == "*"@ || indexed == d || has_prefix(indexed, d + "."@)
}

/// Whether an installed version satisfies a declared requirement (see
/// [`spec_version_matches`]).
pub fn version_matches(declared: &str, indexed: &str) -> (b: bool)
    ensures
        b == spec_version_matches(declared@, indexed@),
{
    let dc = chars_of(declared);
    let mut a: usize = 0;
    assert(dc@.skip(0) =~= dc@);
    while a < dc.len() && (dc[a] == '^' || dc[a] == '~' || dc[a] == '=' || dc[a] == '>' || dc[a] == '<' || dc[a] == ' ')
        invariant
            a <= dc.len(),
            strip_sigils(dc@) == strip_sigils(dc@.skip(a as int)),
        decreases dc.len() - a,
    {
        assert(dc@.skip(a as int).drop_first() =~= dc@.skip(a + 1));
        a = a + 1;
    }
    let d = crate::text::slice_chars(&dc, a, dc.len());
    assert(d@ =~= dc@.skip(a as int));
    if d.len() == 0 || crate::text::eq_lit(&d, "*") {
        return true;
    }
    let ic = chars_of(indexed);
    if crate::text::chars_eq(&ic, &d) {
        return true;
    }
    let mut p = crate::text::copy_chars(&d);
    p.push('.');
    proof {
        reveal_strlit(".");
        assert(p@ =~= d@ + "."@);
    }
    crate::text::starts_with(&ic, &p)
}


/// A declared requirement that names the indexed version exactly (with no
/// leading sigil) matches it, and one that names a leading part of it up to
/// a `.` does too (`1.44` matches `1.44.2`).
pub proof fn law_declared_version_matches_indexed(v: Seq<char>, rest: Seq<char>)
    requires
        v.len() == 0 || !(v[0] == '^' || v[0] == '~' || v[0] == '=' || v[0] == '>' || v[0] == '<' || v[0] == ' '),
    ensures
        spec_version_matches(v, v),
        spec_version_matches(v, v + "."@ + rest),
{
    reveal_strlit(".");
    assert(strip_sigils(v) == v);
    assert((v + "."@ + rest).take((v + "."@).len() as int) =~= v + "."@);
}

/// Whether a package `(registry, name)` is among the declared dependencies.
pub fn declared_in(deps: &Vec<Dependency>, registry: &str, name: &str) -> (b: bool)
    ensures
        b == exists|i: int| 0 <= i < deps.len() && #[trigger] deps@[i].registry@ == registry@ && deps@[i].name@ == name@,
{
    let r = chars_of(registry);
    let n = chars_of(name);
    let mut i: usize = 0;
    while i < deps.len()
        invariant
            i <= deps.len(),
            r@ == registry@,
            n@ == name@,
            forall|j: int| 0 <= j < i ==> !(#[trigger] deps@[j].registry@ == registry@ && deps@[j].name@ == name@),
        decreases deps.len() - i,
    {
        let dr = chars_of(deps[i].registry.as_str());
        let dn = chars_of(deps[i].name.as_str());
        if crate::text::chars_eq(&dr, &r) && crate::text::chars_eq(&dn, &n) {
            assert(deps@[i as int].registry@ == registry@ && deps@[i as int].name@ == name@);
            return true;
        }
        i = i + 1;
    }
    false
}

// ───────────────────────────── search output ─────────────────────────────

/// The most bytes of content a search result preview shows.
pub const PREVIEW_LEN: usize = 200;

/// `k` characters of `s` are the longest prefix whose UTF-8 encoding fits in
/// `max` bytes.
pub open spec fn longest_fitting_prefix(s: Seq<char>, k: int, max: nat) -> bool {
    &&& 0 <= k <= s.len()
    &&& utf8_len(s.take(k)) <= max
    &&& (k == s.len() || utf8_len(s.take(k + 1)) > max)
}

/// The UTF-8 length of prefixes grows with the prefix.
pub proof fn lemma_utf8_len_take_mono(s: Seq<char>, a: int, b: int)
    requires
        0 <= a <= b <= s.len(),
    ensures
        utf8_len(s.take(a)) <= utf8_len(s.take(b)),
{
    crate::text::lemma_utf8_len_concat(s.take(a), s.subrange(a, b));
    assert(s.take(a) + s.subrange(a, b) =~= s.take(b));
}

/// The preview of a search result's content: the content itself when it
/// fits in [`PREVIEW_LEN`] bytes, else its longest prefix that fits (cut at a
/// character boundary) followed by `…`.
pub fn search_preview(text: &str) -> (r: String)
    ensures
        utf8_len(text@) <= PREVIEW_LEN ==> r@ == text@,
        utf8_len(text@) > PREVIEW_LEN ==> exists|k: int|
            #![trigger text@.take(k)]
            longest_fitting_prefix(text@, k, PREVIEW_LEN as nat) && r@ == text@.take(k) + "…"@,
{
    let c = chars_of(text);
    let mut i: usize = 0;
    let mut used: usize = 0;
    assert(c@.take(0) =~= Seq::<char>::empty());
    while i < c.len()
        invariant_except_break
            i <= c.len(),
            used == utf8_len(c@.take(i as int)),
            used <= PREVIEW_LEN,
        ensures
            i <= c.len(),
            used == utf8_len(c@.take(i as int)),
            used <= PREVIEW_LEN,
            i == c.len() || utf8_len(c@.take(i + 1)) > PREVIEW_LEN,
        decreases c.len() - i,
    {
        let w = crate::text::utf8_width_of(c[i]);
        proof {
            assert(c@.take(i + 1) =~= c@.take(i as int).push(c@[i as int]));
            crate::text::lemma_utf8_len_push(c@.take(i as int), c@[i as int]);
        }
        if used + w > PREVIEW_LEN {
            break;
        }
        used = used + w;
        i = i + 1;
    }
    if i == c.len() {
        assert(c@.take(i as int) =~= c@);
        return text.to_string();
    }
    proof {
        assert(c@.take(i as int) =~= c@.take(i as int));
        lemma_utf8_len_take_mono(c@, i + 1, c@.len() as int);
        assert(c@.take(c@.len() as int) =~= c@);
    }
    let mut out = crate::text::slice_chars(&c, 0, i);
    push_lit(&mut out, "…");
    proof {
        assert(out@ =~= c@.take(i as int) + "…"@);
        assert(longest_fitting_prefix(text@, i as int, PREVIEW_LEN as nat));
    }
    string_of(&out)
}

} // verus!
