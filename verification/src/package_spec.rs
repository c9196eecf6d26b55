//! Package specifications: how to fetch and build a package, and the checks
//! on the fields that become filesystem paths or command arguments.
use vstd::prelude::*;

use crate::chunker::copy_opt_string;
use crate::error::LoreError;
use crate::package::Package;
use crate::parser::opt_view;
use crate::text::{chars_of, contains_seq, has_prefix, is_ascii_alnum, push_all, push_lit, string_of};

verus! {

/// Full specification of a documentation package.
#[derive(Debug)]
pub struct PackageSpec {
    /// Package name (e.g. `"next"`).
    pub name: String,
    /// Registry identifier (e.g. `"npm"`, `"cargo"`, `"pypi"`).
    pub registry: String,
    /// Version string (e.g. `"15.0.0"`).
    pub version: String,
    /// Human-readable description.
    pub description: Option<String>,
    /// URL of the canonical upstream source.
    pub source_url: Option<String>,
    /// Where to fetch the documentation content.
    pub source: SourceSpec,
    /// Per-package build options.
    pub build: BuildOptions,
}

/// How to obtain the documentation content.
#[derive(Debug)]
pub enum SourceSpec {
    /// Clone a git repository.
    Git {
        /// Remote URL.
        url: String,
        /// Branch, tag, or commit to check out.
        branch: Option<String>,
        /// Subdirectory within the repository to index.
        subdir: Option<String>,
    },
    /// Crawl a website.
    Website {
        /// Starting URL for the crawl.
        url: String,
        /// Maximum number of pages to fetch (500 when absent).
        max_pages: Option<usize>,
    },
    /// A directory already on the local filesystem.
    Local {
        /// Path of the documentation directory.
        dir: String,
    },
    /// Docs generated from a crate's rustdoc JSON, at an exact version.
    Rustdoc {
        /// Crate name on crates.io (e.g. `axum`).
        crate_name: String,
        /// Exact version to document.
        version: String,
        /// Cargo features to enable while documenting.
        features: Vec<String>,
    },
}

/// Build-time options that can be set per package.
#[derive(Debug, Default)]
pub struct BuildOptions {
    /// Skip `examples/`, `tests/` and similar directories.
    pub exclude_examples: bool,
}

// ───────────────────────────── field checks ─────────────────────────────

pub open spec fn token_char(c: char) -> bool {
    is_ascii_alnum(c) || c == '.' || c == '_' || c == '-' || c == '+'
}

/// A crate name, version or feature that cannot smuggle cargo arguments or
/// shell metacharacters: non-empty, made of `[A-Za-z0-9._+-]`.
pub open spec fn valid_crate_token(t: Seq<char>) -> bool {
    t.len() > 0 && forall|i: int| 0 <= i < t.len() ==> token_char(#[trigger] t[i])
}

pub open spec fn token_error(token: Seq<char>, field: Seq<char>) -> Seq<char> {
    field + " '"@ + token + "' must be non-empty and match [A-Za-z0-9._+-]"@
}

/// `Ok` for a valid token, else `InvalidConfig` naming the field and token.
pub fn validate_crate_token(token: &str, field: &str) -> (r: Result<(), LoreError>)
    ensures
        valid_crate_token(token@) ==> r is Ok,
        !valid_crate_token(token@) ==> (r matches Err(LoreError::InvalidConfig(m)) && m@ == token_error(
            token@,
            field@,
        )),
{
    let t = chars_of(token);
    let mut ok = t.len() > 0;
    let mut i: usize = 0;
    while i < t.len() && ok
        invariant
            i <= t.len(),
            ok == (t@.len() > 0 && forall|j: int| 0 <= j < i ==> token_char(#[trigger] t@[j])),
        decreases t.len() - i,
    {
        let c = t[i];
        if !(crate::text::is_ascii_alnum_char(c) || c == '.' || c == '_' || c == '-' || c == '+') {
            ok = false;
        }
        i = i + 1;
    }
    if ok {
        assert(i == t.len());
        return Ok(());
    }
    let mut m = chars_of(field);
    push_lit(&mut m, " '");
    push_all(&mut m, &t);
    push_lit(&mut m, "' must be non-empty and match [A-Za-z0-9._+-]");
    Err(LoreError::InvalidConfig(string_of(&m)))
}

/// `Path::is_absolute` of `p` (on Unix: it starts with `/`).
pub uninterp spec fn path_is_absolute(p: Seq<char>) -> bool;

/// `std::path::Path::is_absolute`.  Claimed: the result is
/// [`path_is_absolute`] of `p`.
#[verifier::external_body]
fn is_absolute_path(p: &str) -> (b: bool)
    ensures
        b == path_is_absolute(p@),
{
    std::path::Path::new(p).is_absolute()
}

/// A subdirectory that stays inside the repository: relative, with no
/// `..` anywhere (which also rules out every parent-directory component).
pub open spec fn valid_subdir(s: Seq<char>) -> bool {
    !path_is_absolute(s) && !contains_seq(s, ".."@)
}

pub open spec fn subdir_error(s: Seq<char>) -> Seq<char> {
    "source.subdir '"@ + s + "' must be a relative path inside the repository"@
}

/// `Ok` for a subdirectory inside the repository, else `InvalidConfig`.
pub fn validate_subdir(subdir: &str) -> (r: Result<(), LoreError>)
    ensures
        valid_subdir(subdir@) ==> r is Ok,
        !valid_subdir(subdir@) ==> (r matches Err(LoreError::InvalidConfig(m)) && m@ == subdir_error(subdir@)),
{
    let s = chars_of(subdir);
    if is_absolute_path(subdir) || crate::text::contains_lit(&s, "..") {
        let mut m = chars_of("source.subdir '");
        push_all(&mut m, &s);
        push_lit(&mut m, "' must be a relative path inside the repository");
        return Err(LoreError::InvalidConfig(string_of(&m)));
    }
    Ok(())
}

/// A URL that git cannot take for an option: it starts with `https://`,
/// `http://`, `git://` or `git@`.
pub open spec fn valid_source_url(u: Seq<char>) -> bool {
    has_prefix(u, "https://"@) || has_prefix(u, "http://"@) || has_prefix(u, "git://"@) || has_prefix(
        u,
        "git@"@,
    )
}

pub open spec fn url_error(u: Seq<char>) -> Seq<char> {
    "source url '"@ + u + "' must start with https://, http://, git://, or git@"@
}

/// `Ok` for a URL with an expected scheme, else `InvalidConfig`.
pub fn validate_source_url(url: &str) -> (r: Result<(), LoreError>)
    ensures
        valid_source_url(url@) ==> r is Ok,
        !valid_source_url(url@) ==> (r matches Err(LoreError::InvalidConfig(m)) && m@ == url_error(url@)),
{
    let u = chars_of(url);
    if crate::text::starts_with_lit(&u, "https://") || crate::text::starts_with_lit(&u, "http://")
        || crate::text::starts_with_lit(&u, "git://") || crate::text::starts_with_lit(&u, "git@") {
        return Ok(());
    }
    let mut m = chars_of("source url '");
    push_all(&mut m, &u);
    push_lit(&mut m, "' must start with https://, http://, git://, or git@");
    Err(LoreError::InvalidConfig(string_of(&m)))
}

/// The first invalid feature among `fs[k..]`, if any.
pub open spec fn first_bad_feature(fs: Seq<Seq<char>>, k: int) -> Option<Seq<char>>
    decreases fs.len() - k,
{
    if k < 0 || k >= fs.len() {
        None
    } else if !valid_crate_token(fs[k]) {
        Some(fs[k])
    } else {
        first_bad_feature(fs, k + 1)
    }
}

/// What validating a source gives: the first unsafe field's error, in the
/// order the fields are checked, else `Ok`.
pub open spec fn source_check(s: SourceSpec) -> Result<(), Seq<char>> {
    match s {
        SourceSpec::Git { url, subdir, .. } => if !valid_source_url(url@) {
            Err(url_error(url@))
        } else {
            match subdir {
                Some(sub) => if !valid_subdir(sub@) {
                    Err(subdir_error(sub@))
                } else {
                    Ok(())
                },
                None => Ok(()),
            }
        },
        SourceSpec::Website { url, .. } => if !valid_source_url(url@) {
            Err(url_error(url@))
        } else {
            Ok(())
        },
        SourceSpec::Local { .. } => Ok(()),
        SourceSpec::Rustdoc { crate_name, version, features } => if !valid_crate_token(crate_name@) {
            Err(token_error(crate_name@, "source.crate"@))
        } else if !valid_crate_token(version@) {
            Err(token_error(version@, "source.version"@))
        } else {
            match first_bad_feature(crate::chunker::strings_view(features@), 0) {
                Some(f) => Err(token_error(f, "source.features"@)),
                None => Ok(()),
            }
        },
    }
}

impl PackageSpec {
    /// Checks the fields that become paths or command arguments downstream:
    /// a git or website URL must use an expected scheme, a git `subdir` must
    /// stay inside the repository, and a rustdoc crate, version and features
    /// must be plain tokens.  The first unsafe field gives
    /// `LoreError::InvalidConfig`.
    #[verifier::loop_isolation(false)]
    pub fn validate(&self) -> (r: Result<(), LoreError>)
        ensures
            match source_check(self.source) {
                Ok(()) => r is Ok,
                Err(m) => r matches Err(LoreError::InvalidConfig(e)) && e@ == m,
            },
    {
        match &self.source {
            SourceSpec::Git { url, subdir, .. } => {
                validate_source_url(url.as_str())?;
                match subdir {
                    Some(sub) => validate_subdir(sub.as_str())?,
                    None => {},
                }
            },
            SourceSpec::Website { url, .. } => validate_source_url(url.as_str())?,
            SourceSpec::Local { .. } => {},
            SourceSpec::Rustdoc { crate_name, version, features } => {
                validate_crate_token(crate_name.as_str(), "source.crate")?;
                validate_crate_token(version.as_str(), "source.version")?;
                let ghost fv = crate::chunker::strings_view(features@);
                let mut i: usize = 0;
                assert(first_bad_feature(fv, 0) == first_bad_feature(fv, 0));
                while i < features.len()
                    invariant
                        i <= features.len(),
                        fv == crate::chunker::strings_view(features@),
                        first_bad_feature(fv, 0) == first_bad_feature(fv, i as int),
                    decreases features.len() - i,
                {
                    assert(fv[i as int] == features@[i as int]@);
                    validate_crate_token(features[i].as_str(), "source.features")?;
                    i = i + 1;
                }
            },
        }
        Ok(())
    }

    /// The package this spec builds (its git SHA is set by the build).
    pub fn to_package(&self) -> (r: Package)
        ensures
            r.name@ == self.name@,
            r.registry@ == self.registry@,
            r.version@ == self.version@,
            opt_view(r.description) == opt_view(self.description),
            opt_view(r.source_url) == opt_view(self.source_url),
            r.git_sha is None,
    {
        Package {
            name: self.name.clone(),
            registry: self.registry.clone(),
            version: self.version.clone(),
            description: copy_opt_string(&self.description),
            source_url: copy_opt_string(&self.source_url),
            git_sha: None,
        }
    }
}

} // verus!
