//! Package identity and the path-safety rule for package keys.
use vstd::prelude::*;

use crate::error::LoreError;
use crate::text::{
    chars_of, concat3, contains, contains_seq, is_ascii_alnum, is_ascii_alnum_char, occurs_at,
    push_all, push_lit, string_of,
};

verus! {

/// The characters a package key may hold: `[A-Za-z0-9._@+-]`.
pub open spec fn key_char_ok(c: char) -> bool {
    is_ascii_alnum(c) || c == '.' || c == '_' || c == '@' || c == '+' || c == '-'
}

pub open spec fn dot_dot() -> Seq<char> {
    seq!['.', '.']
}

/// Index of the first character that a key may not hold (or the length).
pub open spec fn first_bad_key_char(s: Seq<char>) -> nat
    decreases s.len(),
{
    if s.len() == 0 {
        0
    } else if !key_char_ok(s[0]) {
        0
    } else {
        1 + first_bad_key_char(s.drop_first())
    }
}

/// Every character of `s` may stand in a key.
pub open spec fn all_key_chars(s: Seq<char>) -> bool {
    forall|i: int| 0 <= i < s.len() ==> key_char_ok(#[trigger] s[i])
}

/// A key that is safe to use as one file-name segment.
pub open spec fn valid_package_key(s: Seq<char>) -> bool {
    &&& s.len() > 0
    &&& !contains_seq(s, dot_dot())
    &&& all_key_chars(s)
}

/// What `format!("{c:?}")` writes for a character (quoted, escaped).
pub uninterp spec fn char_debug_text(c: char) -> Seq<char>;

/// `format!("{:?}", c)` from std: the `Debug` rendering of a `char`.
#[verifier::external_body]
fn char_debug(c: char) -> (r: String)
    ensures
        r@ == char_debug_text(c),
{
    format!("{c:?}")
}

proof fn lemma_first_bad_key_char(s: Seq<char>, i: int)
    requires
        0 <= i <= s.len(),
        forall|j: int| 0 <= j < i ==> key_char_ok(s[j]),
        i < s.len() ==> !key_char_ok(s[i]),
    ensures
        first_bad_key_char(s) == i,
    decreases s.len(),
{
    if s.len() > 0 && key_char_ok(s[0]) {
        lemma_first_bad_key_char(s.drop_first(), i - 1);
    }
}

fn key_char_ok_exec(c: char) -> (b: bool)
    ensures
        b == key_char_ok(c),
{
    is_ascii_alnum_char(c) || c == '.' || c == '_' || c == '@' || c == '+' || c == '-'
}

/// The message [`validate_package_key`] reports for an invalid key.
pub open spec fn key_error_message(key: Seq<char>) -> Seq<char> {
    if key.len() == 0 {
        "package key is empty"@
    } else if contains_seq(key, dot_dot()) {
        "package key '"@ + key + "' contains a '..' sequence"@
    } else {
        "package key '"@ + key + "' contains an illegal character "@ + char_debug_text(
            key[first_bad_key_char(key) as int],
        )
    }
}

/// The result of [`validate_package_key`] is an `InvalidConfig` error with
/// `key_error_message(key)` exactly when the key is invalid.
pub open spec fn key_check_result(key: Seq<char>, r: Result<(), LoreError>) -> bool {
    if valid_package_key(key) {
        r is Ok
    } else {
        r matches Err(LoreError::InvalidConfig(m)) && m@ == key_error_message(key)
    }
}

/// Validates that a package key (or one component of it) is safe to use as a
/// file-system path segment: it is non-empty, holds no `..` sequence, and
/// only holds characters of `[A-Za-z0-9._@+-]` (so no `/`, `\` or NUL).
/// The error describes the first violation in that order.
pub fn validate_package_key(key: &str) -> (r: Result<(), LoreError>)
    ensures
        key_check_result(key@, r),
{
    let k = chars_of(key);
    if k.len() == 0 {
        let m = chars_of("package key is empty");
        return Err(LoreError::InvalidConfig(string_of(&m)));
    }
    let dd: Vec<char> = vec!['.', '.'];
    assert(dd@ =~= dot_dot());
    if contains(&k, &dd) {
        return Err(LoreError::InvalidConfig(concat3("package key '", &k, "' contains a '..' sequence")));
    }
    let mut i: usize = 0;
    while i < k.len()
        invariant
            i <= k.len(),
            k@ == key@,
            k.len() > 0,
            !contains_seq(k@, dot_dot()),
            forall|j: int| 0 <= j < i ==> key_char_ok(k@[j]),
        decreases k.len() - i,
    {
        if !key_char_ok_exec(k[i]) {
            proof {
                lemma_first_bad_key_char(k@, i as int);
                assert(!key_char_ok(k@[i as int]));
                assert(!all_key_chars(k@));
            }
            let mut m = chars_of("package key '");
            push_all(&mut m, &k);
            push_lit(&mut m, "' contains an illegal character ");
            let dbg = char_debug(k[i]);
            let d = chars_of(dbg.as_str());
            push_all(&mut m, &d);
            assert(d@ == char_debug_text(key@[first_bad_key_char(key@) as int]));
            assert(!valid_package_key(key@));
            assert(m@ == key_error_message(key@));
            return Err(LoreError::InvalidConfig(string_of(&m)));
        }
        i = i + 1;
    }
    Ok(())
}

/// Metadata about an indexed documentation package.
#[derive(Debug, Clone)]
pub struct Package {
    /// Package name, e.g. `"next"`.
    pub name: String,
    /// Registry this package belongs to, e.g. `"npm"`, `"pypi"`, `"cargo"`.
    pub registry: String,
    /// Version string, e.g. `"15.0.0"`.
    pub version: String,
    /// Human-readable description, if available.
    pub description: Option<String>,
    /// URL of the upstream source (git repository, website, …).
    pub source_url: Option<String>,
    /// Git commit SHA at which the documentation was indexed.
    pub git_sha: Option<String>,
}

/// `"{registry}-{name}@{version}"`.
pub open spec fn display_key_of(registry: Seq<char>, name: Seq<char>, version: Seq<char>) -> Seq<
    char,
> {
    registry + seq!['-'] + name + seq!['@'] + version
}

impl Package {
    /// The canonical key `"{registry}-{name}@{version}"`, used as the file
    /// stem of the package on disk.
    pub fn display_key(&self) -> (r: String)
        ensures
            r@ == display_key_of(self.registry@, self.name@, self.version@),
    {
        let mut v = chars_of(self.registry.as_str());
        v.push('-');
        let n = chars_of(self.name.as_str());
        push_all(&mut v, &n);
        v.push('@');
        let ver = chars_of(self.version.as_str());
        push_all(&mut v, &ver);
        string_of(&v)
    }

    /// Checks `registry`, `name` and `version`, then the assembled display
    /// key, with [`validate_package_key`]; the first failure is returned.
    pub fn validate(&self) -> (r: Result<(), LoreError>)
        ensures
            !valid_package_key(self.registry@) ==> key_check_result(self.registry@, r),
            valid_package_key(self.registry@) && !valid_package_key(self.name@)
                ==> key_check_result(self.name@, r),
            valid_package_key(self.registry@) && valid_package_key(self.name@)
                && !valid_package_key(self.version@) ==> key_check_result(self.version@, r),
            valid_package_key(self.registry@) && valid_package_key(self.name@)
                && valid_package_key(self.version@) ==> r is Ok,
    {
        validate_package_key(self.registry.as_str())?;
        validate_package_key(self.name.as_str())?;
        validate_package_key(self.version.as_str())?;
        let key = self.display_key();
        proof {
            law_display_key_valid_iff_components(self.registry@, self.name@, self.version@);
        }
        validate_package_key(key.as_str())
    }
}

/// Richer metadata returned by the registry, extending [`Package`] with
/// build-time statistics.
#[derive(Debug, Clone)]
pub struct PackageMetadata {
    /// Core package identity and provenance.
    pub package: Package,
    /// Size of the `.db` file in bytes.
    pub size_bytes: Option<u64>,
    /// Total number of indexed chunks and code blocks.
    pub chunk_count: Option<u32>,
    /// ISO 8601 date-time string recorded when the package was built.
    pub build_date: Option<String>,
}

// ───────────────────────────── stored metadata ─────────────────────────────

/// The fields of a package, as text.
pub open spec fn package_fields(p: Package) -> (
    Seq<char>,
    Seq<char>,
    Seq<char>,
    Option<Seq<char>>,
    Option<Seq<char>>,
    Option<Seq<char>>,
) {
    (
        p.name@,
        p.registry@,
        p.version@,
        crate::parser::opt_view(p.description),
        crate::parser::opt_view(p.source_url),
        crate::parser::opt_view(p.git_sha),
    )
}

pub open spec fn opt_entry(key: Seq<char>, v: Option<String>) -> Seq<(Seq<char>, Seq<char>)> {
    match v {
        Some(x) => seq![(key, x@)],
        None => seq![],
    }
}

/// The `(key, value)` rows that describe a package in its database, in the
/// order they are written: `name`, `registry`, `version`, then
/// `description`, `source_url` and `git_sha` where present.
pub open spec fn meta_entries(p: Package) -> Seq<(Seq<char>, Seq<char>)> {
    seq![("name"@, p.name@), ("registry"@, p.registry@), ("version"@, p.version@)] + opt_entry(
        "description"@,
        p.description,
    ) + opt_entry("source_url"@, p.source_url) + opt_entry("git_sha"@, p.git_sha)
}

/// The value a key-value store holds for `key` after the writes `es` (each
/// write replaces the previous value): that of the last write to `key`.
pub open spec fn stored_value(es: Seq<(Seq<char>, Seq<char>)>, key: Seq<char>) -> Option<Seq<char>>
    decreases es.len(),
{
    if es.len() == 0 {
        None
    } else if es.last().0 == key {
        Some(es.last().1)
    } else {
        stored_value(es.drop_last(), key)
    }
}

/// The package read back from stored values: present when `name`,
/// `registry` and `version` all are.
pub open spec fn read_package(
    name: Option<Seq<char>>,
    registry: Option<Seq<char>>,
    version: Option<Seq<char>>,
    description: Option<Seq<char>>,
    source_url: Option<Seq<char>>,
    git_sha: Option<Seq<char>>,
) -> Option<(Seq<char>, Seq<char>, Seq<char>, Option<Seq<char>>, Option<Seq<char>>, Option<Seq<char>>)> {
    match (name, registry, version) {
        (Some(n), Some(r), Some(v)) => Some((n, r, v, description, source_url, git_sha)),
        _ => None,
    }
}

fn push_entry(out: &mut Vec<(String, String)>, key: &str, value: &String)
    ensures
        final(out)@.len() == old(out)@.len() + 1,
        forall|i: int| 0 <= i < old(out)@.len() ==> final(out)@[i] == old(out)@[i],
        final(out)@[old(out)@.len() as int].0@ == key@,
        final(out)@[old(out)@.len() as int].1@ == value@,
{
    out.push((key.to_string(), value.as_str().to_string()));
}

pub open spec fn entries_view(v: Seq<(String, String)>) -> Seq<(Seq<char>, Seq<char>)> {
    v.map_values(|e: (String, String)| (e.0@, e.1@))
}

/// The rows that describe `p` in its database (see [`meta_entries`]).
pub fn package_meta_entries(p: &Package) -> (r: Vec<(String, String)>)
    ensures
        entries_view(r@) == meta_entries(*p),
{
    let mut out: Vec<(String, String)> = Vec::new();
    push_entry(&mut out, "name", &p.name);
    push_entry(&mut out, "registry", &p.registry);
    push_entry(&mut out, "version", &p.version);
    if let Some(d) = &p.description {
        push_entry(&mut out, "description", d);
    }
    if let Some(u) = &p.source_url {
        push_entry(&mut out, "source_url", u);
    }
    if let Some(g) = &p.git_sha {
        push_entry(&mut out, "git_sha", g);
    }
    assert(entries_view(out@) =~= meta_entries(*p));
    out
}

/// The package described by the values stored under its keys (see
/// [`read_package`]); `None` when `name`, `registry` or `version` is absent.
pub fn package_from_meta(
    name: Option<String>,
    registry: Option<String>,
    version: Option<String>,
    description: Option<String>,
    source_url: Option<String>,
    git_sha: Option<String>,
) -> (r: Option<Package>)
    ensures
        match read_package(
            crate::parser::opt_view(name),
            crate::parser::opt_view(registry),
            crate::parser::opt_view(version),
            crate::parser::opt_view(description),
            crate::parser::opt_view(source_url),
            crate::parser::opt_view(git_sha),
        ) {
            Some(f) => r matches Some(p) && package_fields(p) == f,
            None => r is None,
        },
{
    match (name, registry, version) {
        (Some(n), Some(r), Some(v)) => Some(
            Package { name: n, registry: r, version: v, description, source_url, git_sha },
        ),
        _ => None,
    }
}

// ───────────────────────────── laws ─────────────────────────────

/// What a read gives back of a write: a package's metadata rows, written
/// into an empty store, read back under each key, give the package itself.
pub proof fn law_stored_meta_gives_back_package(p: Package)
    ensures
        ({
            let es = meta_entries(p);
            read_package(
                stored_value(es, "name"@),
                stored_value(es, "registry"@),
                stored_value(es, "version"@),
                stored_value(es, "description"@),
                stored_value(es, "source_url"@),
                stored_value(es, "git_sha"@),
            )
        }) == Some(package_fields(p)),
{
    reveal_strlit("name");
    reveal_strlit("registry");
    reveal_strlit("version");
    reveal_strlit("description");
    reveal_strlit("source_url");
    reveal_strlit("git_sha");
    reveal_with_fuel(stored_value, 7);
    let es = meta_entries(p);
    assert("name"@[0] == 'n' && "registry"@[0] == 'r' && "version"@[0] == 'v');
    assert("description"@[0] == 'd' && "source_url"@[0] == 's' && "git_sha"@[0] == 'g');
    assert("name"@ != "registry"@);
    assert("name"@ != "version"@);
    assert("registry"@ != "version"@);
    assert("description"@ != "name"@ && "description"@ != "registry"@ && "description"@ != "version"@);
    assert("source_url"@ != "name"@ && "source_url"@ != "registry"@ && "source_url"@ != "version"@);
    assert("source_url"@ != "description"@);
    assert("git_sha"@ != "name"@ && "git_sha"@ != "registry"@ && "git_sha"@ != "version"@);
    assert("git_sha"@ != "description"@ && "git_sha"@ != "source_url"@);
}

/// A key accepted by [`validate_package_key`] can never name a path outside
/// the packages directory: it holds no `/`, no `\`, no NUL and no `..`, and
/// it is not empty.
pub proof fn law_valid_key_is_one_segment(key: Seq<char>)
    requires
        valid_package_key(key),
    ensures
        key.len() > 0,
        !key.contains('/'),
        !key.contains('\\'),
        !key.contains('\0'),
        forall|i: int| 0 <= i < key.len() - 1 ==> !(#[trigger] key[i] == '.' && key[i + 1] == '.'),
{
    assert forall|i: int| 0 <= i < key.len() - 1 implies !(#[trigger] key[i] == '.' && key[i + 1] == '.') by {
        if key[i] == '.' && key[i + 1] == '.' {
            assert(key.subrange(i, i + 2) =~= dot_dot());
            assert(occurs_at(key, dot_dot(), i));
        }
    }
    if key.contains('/') {
        let j = choose|j: int| 0 <= j < key.len() && key[j] == '/';
        assert(key_char_ok(key[j]));
    }
    if key.contains('\\') {
        let j = choose|j: int| 0 <= j < key.len() && key[j] == '\\';
        assert(key_char_ok(key[j]));
    }
    if key.contains('\0') {
        let j = choose|j: int| 0 <= j < key.len() && key[j] == '\0';
        assert(key_char_ok(key[j]));
    }
}

/// The display key of a package is a valid key exactly when its registry,
/// name and version each are: joining valid components with `-` and `@`
/// never forms a `..` nor an illegal character.
pub proof fn law_display_key_valid_iff_components(
    registry: Seq<char>,
    name: Seq<char>,
    version: Seq<char>,
)
    requires
        valid_package_key(registry),
        valid_package_key(name),
        valid_package_key(version),
    ensures
        valid_package_key(display_key_of(registry, name, version)),
{
    let k = display_key_of(registry, name, version);
    let rl = registry.len() as int;
    let nl = name.len() as int;
    assert forall|i: int| 0 <= i < k.len() implies key_char_ok(#[trigger] k[i]) by {
        if i < rl {
            assert(k[i] == registry[i]);
        } else if i == rl {
        } else if i < rl + 1 + nl {
            assert(k[i] == name[i - rl - 1]);
        } else if i == rl + 1 + nl {
        } else {
            assert(k[i] == version[i - rl - 2 - nl]);
        }
    }
    if contains_seq(k, dot_dot()) {
        let i = choose|i: int| occurs_at(k, dot_dot(), i);
        assert(k.subrange(i, i + 2)[0] == '.' && k.subrange(i, i + 2)[1] == '.');
        assert(k[i] == '.' && k[i + 1] == '.');
        if i + 1 < rl {
            assert(registry[i] == '.' && registry[i + 1] == '.');
            assert(registry.subrange(i, i + 2) =~= dot_dot());
            assert(occurs_at(registry, dot_dot(), i));
        } else if i + 1 == rl || i == rl {
            assert(k[rl] == '-');
        } else if rl < i && i + 1 < rl + 1 + nl {
            let j = i - rl - 1;
            assert(name[j] == '.' && name[j + 1] == '.');
            assert(name.subrange(j, j + 2) =~= dot_dot());
            assert(occurs_at(name, dot_dot(), j));
        } else if i + 1 == rl + 1 + nl || i == rl + 1 + nl {
            assert(k[rl + 1 + nl] == '@');
        } else {
            let j = i - rl - 2 - nl;
            assert(version[j] == '.' && version[j + 1] == '.');
            assert(version.subrange(j, j + 2) =~= dot_dot());
            assert(occurs_at(version, dot_dot(), j));
        }
    }
}

} // verus!
