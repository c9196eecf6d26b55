//! Which files of a documentation tree are indexed.  The directory walk is
//! I/O and is done by the application; it asks these two questions of every
//! directory and file it meets, and sorts the files it keeps.
use vstd::prelude::*;

use crate::parser::html::ascii_lower;
use crate::text::{chars_of, eq_lit};

verus! {

/// Directory names that are always skipped.
pub open spec fn excluded_dir(n: Seq<char>) -> bool {
    n == "node_modules"@ || n == ".git"@ || n == "__pycache__"@ || n == "target"@ || n == "dist"@ || n
        == "build"@ || n == ".next"@ || n == ".nuxt"@ || n == ".svelte-kit"@ || n == "vendor"@
}

/// Directory names skipped when examples are excluded.
pub open spec fn example_dir(n: Seq<char>) -> bool {
    n == "examples"@ || n == "example"@ || n == "fixtures"@ || n == "fixture"@ || n == "test"@ || n
        == "tests"@ || n == "spec"@ || n == "specs"@
}

/// File extensions of documentation sources.
pub open spec fn doc_extension(e: Seq<char>) -> bool {
    e == "md"@ || e == "mdx"@ || e == "qmd"@ || e == "rmd"@ || e == "html"@ || e == "htm"@ || e
        == "adoc"@ || e == "asciidoc"@ || e == "rst"@
}

/// File stems (compared ignoring ASCII case) that are never indexed.
pub open spec fn excluded_stem(s: Seq<char>) -> bool {
    let l = ascii_lower(s);
    l == "changelog"@ || l == "code_of_conduct"@ || l == "license"@ || l == "licence"@ || l
        == "contributing"@ || l == "authors"@ || l == "codeowners"@
}

/// Whether the walk skips a directory named `name`.
pub fn skip_dir(name: &str, exclude_examples: bool) -> (b: bool)
    ensures
        b == (excluded_dir(name@) || (exclude_examples && example_dir(name@))),
{
    let n = chars_of(name);
    let ex = eq_lit(&n, "node_modules") || eq_lit(&n, ".git") || eq_lit(&n, "__pycache__") || eq_lit(&n, "target")
        || eq_lit(&n, "dist") || eq_lit(&n, "build") || eq_lit(&n, ".next") || eq_lit(&n, ".nuxt") || eq_lit(
        &n,
        ".svelte-kit",
    ) || eq_lit(&n, "vendor");
    if ex {
        return true;
    }
    exclude_examples && (eq_lit(&n, "examples") || eq_lit(&n, "example") || eq_lit(&n, "fixtures") || eq_lit(
        &n,
        "fixture",
    ) || eq_lit(&n, "test") || eq_lit(&n, "tests") || eq_lit(&n, "spec") || eq_lit(&n, "specs"))
}

/// Whether a file with extension `ext` (empty when none) and stem `stem` is
/// indexed: a documentation extension, and not a changelog, licence or
/// similar file.
pub fn is_doc_file(ext: &str, stem: &str) -> (b: bool)
    ensures
        b == (doc_extension(ext@) && !excluded_stem(stem@)),
{
    let e = chars_of(ext);
    let de = eq_lit(&e, "md") || eq_lit(&e, "mdx") || eq_lit(&e, "qmd") || eq_lit(&e, "rmd") || eq_lit(&e, "html")
        || eq_lit(&e, "htm") || eq_lit(&e, "adoc") || eq_lit(&e, "asciidoc") || eq_lit(&e, "rst");
    if !de {
        return false;
    }
    let s = chars_of(stem);
    let mut l: Vec<char> = Vec::new();
    let mut i: usize = 0;
    while i < s.len()
        invariant
            i <= s.len(),
            l@ == ascii_lower(s@.take(i as int)),
        decreases s.len() - i,
    {
        let x = s[i];
        let y = if 'A' <= x && x <= 'Z' {
            ((x as u8) + 32) as char
        } else {
            x
        };
        l.push(y);
        assert(ascii_lower(s@.take(i + 1)) =~= ascii_lower(s@.take(i as int)).push(y));
        i = i + 1;
    }
    assert(s@.take(i as int) =~= s@);
    !(eq_lit(&l, "changelog") || eq_lit(&l, "code_of_conduct") || eq_lit(&l, "license") || eq_lit(&l, "licence")
        || eq_lit(&l, "contributing") || eq_lit(&l, "authors") || eq_lit(&l, "codeowners"))
}

} // verus!
