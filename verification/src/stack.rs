//! Project dependency detection ("stack scoping").
//!
//! From the texts of a project's `Cargo.toml`, `package.json` and
//! `pyproject.toml` (each when present), the declared dependencies as
//! `(registry, name, version)`, sorted by registry and name, consecutive
//! duplicates removed.  A missing or malformed manifest contributes nothing.
use vstd::prelude::*;

use crate::json::{as_object, as_str, get, json_get, json_object, json_str, opt_json, parse_json, JsonV, JsonValue, json_parse};
use crate::parser::html::ascii_lower;
use crate::parser::opt_view;
use crate::text::{
    chars_of, eq_lit, first_index, lemma_text_before_order, lemma_text_before_trans, string_of, text_before, text_before_exec, trim,
    trim_chars,
};
use crate::toml_doc::{
    opt_toml, parse_toml, tas_array, tas_str, tas_table, tget, toml_array, toml_get, toml_parse, toml_str,
    toml_table, tentries_get, TomlV, TomlValue,
};

verus! {

/// A dependency declared by a project manifest.
#[derive(Debug, Clone)]
pub struct Dependency {
    /// Registry of the dependency (`cargo`, `npm`, `pypi`).
    pub registry: String,
    /// Dependency name as written in the manifest.
    pub name: String,
    /// Declared version requirement, verbatim, if any.
    pub version: Option<String>,
}

pub struct DepV {
    pub registry: Seq<char>,
    pub name: Seq<char>,
    pub version: Option<Seq<char>>,
}

impl View for Dependency {
    type V = DepV;

    open spec fn view(&self) -> DepV {
        DepV { registry: self.registry@, name: self.name@, version: opt_view(self.version) }
    }
}

pub open spec fn deps_view(v: Seq<Dependency>) -> Seq<DepV> {
    v.map_values(|d: Dependency| d@)
}

// ───────────────────────────── Cargo.toml ─────────────────────────────

/// A cargo dependency's version: a bare version string, or the `version` of
/// a table.
pub open spec fn cargo_version(spec: TomlV) -> Option<Seq<char>> {
    match spec {
        TomlV::Str(s) => Some(s),
        TomlV::Table(es) => tas_str(tentries_get(es, "version"@)),
        _ => None,
    }
}

pub open spec fn table_deps(
    es: Seq<(Seq<char>, TomlV)>,
    registry: Seq<char>,
) -> Seq<DepV> {
    es.map_values(|e: (Seq<char>, TomlV)| DepV { registry, name: e.0, version: cargo_version(e.1) })
}

pub open spec fn opt_table_deps(t: Option<Seq<(Seq<char>, TomlV)>>) -> Seq<DepV> {
    match t {
        Some(es) => table_deps(es, "cargo"@),
        None => seq![],
    }
}

/// The dependencies of a `Cargo.toml`: `[dependencies]`,
/// `[dev-dependencies]`, `[build-dependencies]`, then
/// `[workspace.dependencies]`.
pub open spec fn cargo_deps(text: Option<Seq<char>>) -> Seq<DepV> {
    match text {
        None => seq![],
        Some(t) => match toml_parse(t) {
            None => seq![],
            Some(v) => opt_table_deps(tas_table(tget(Some(v), "dependencies"@))) + opt_table_deps(
                tas_table(tget(Some(v), "dev-dependencies"@)),
            ) + opt_table_deps(tas_table(tget(Some(v), "build-dependencies"@))) + opt_table_deps(
                tas_table(tget(tget(Some(v), "workspace"@), "dependencies"@)),
            ),
        },
    }
}

// ───────────────────────────── package.json ─────────────────────────────

pub open spec fn json_deps(es: Seq<(Seq<char>, JsonV)>) -> Seq<DepV> {
    es.map_values(|e: (Seq<char>, JsonV)| DepV { registry: "npm"@, name: e.0, version: as_str(Some(e.1)) })
}

pub open spec fn opt_json_deps(t: Option<Seq<(Seq<char>, JsonV)>>) -> Seq<DepV> {
    match t {
        Some(es) => json_deps(es),
        None => seq![],
    }
}

/// The dependencies of a `package.json`: `dependencies`, `devDependencies`,
/// `peerDependencies`.
pub open spec fn npm_deps(text: Option<Seq<char>>) -> Seq<DepV> {
    match text {
        None => seq![],
        Some(t) => match json_parse(t) {
            Err(_) => seq![],
            Ok(v) => opt_json_deps(as_object(get(v, "dependencies"@))) + opt_json_deps(
                as_object(get(v, "devDependencies"@)),
            ) + opt_json_deps(as_object(get(v, "peerDependencies"@))),
        },
    }
}

// ───────────────────────────── pyproject.toml ─────────────────────────────

pub open spec fn pep_stop(c: char) -> bool {
    c == '<' || c == '>' || c == '=' || c == '!' || c == '~' || c == '[' || c == ' ' || c == ';' || c
        == '('
}

/// The index of the first stop character of `s[k..]`, or `s.len()`.
pub open spec fn first_stop(s: Seq<char>, k: int) -> int
    decreases s.len() - k,
{
    if k < 0 || k >= s.len() {
        s.len() as int
    } else if pep_stop(s[k]) {
        k
    } else {
        first_stop(s, k + 1)
    }
}

/// `s` without a leading extras group `[…]`: from the `[` through the first
/// `]` (to the end when none closes it), the rest trimmed.
pub open spec fn skip_extras(s: Seq<char>) -> Seq<char> {
    if s.len() > 0 && s[0] == '[' {
        let c = first_index(s, ']');
        if c < s.len() {
            trim(s.skip((c + 1) as int))
        } else {
            seq![]
        }
    } else {
        s
    }
}

/// `(name, version)` of a PEP 508 requirement such as `requests>=2.0,<3` or
/// `numpy[extra]==1.0`: the name runs to the first version operator, `[`,
/// space, `;` or `(`; the version is the trimmed rest without its extras
/// group (`numpy[extra]==1.0` gives `("numpy", "==1.0")`).  `None` when the
/// name is empty.
pub open spec fn spec_pep508(req: Seq<char>) -> Option<(Seq<char>, Seq<char>)> {
    let r = trim(req);
    let end = first_stop(r, 0);
    let name = trim(r.take(end));
    if name.len() == 0 {
        None
    } else {
        Some((name, skip_extras(trim(r.skip(end)))))
    }
}

pub open spec fn pep_deps(items: Seq<TomlV>, k: int) -> Seq<DepV>
    decreases k,
{
    if k <= 0 || k > items.len() {
        seq![]
    } else {
        let r = pep_deps(items, k - 1);
        match tas_str(Some(items[k - 1])) {
            Some(s) => match spec_pep508(s) {
                Some((n, v)) => r.push(
                    DepV {
                        registry: "pypi"@,
                        name: n,
                        version: if v.len() == 0 {
                            None
                        } else {
                            Some(v)
                        },
                    },
                ),
                None => r,
            },
            None => r,
        }
    }
}

pub open spec fn is_python(name: Seq<char>) -> bool {
    ascii_lower(name) == "python"@
}

pub open spec fn poetry_deps(es: Seq<(Seq<char>, TomlV)>, k: int) -> Seq<DepV>
    decreases k,
{
    if k <= 0 || k > es.len() {
        seq![]
    } else {
        let r = poetry_deps(es, k - 1);
        if is_python(es[k - 1].0) {
            r
        } else {
            r.push(DepV { registry: "pypi"@, name: es[k - 1].0, version: tas_str(Some(es[k - 1].1)) })
        }
    }
}

/// The dependencies of a `pyproject.toml`: PEP 621 `[project].dependencies`,
/// then Poetry's `[tool.poetry.dependencies]` without `python`.
pub open spec fn pypi_deps(text: Option<Seq<char>>) -> Seq<DepV> {
    match text {
        None => seq![],
        Some(t) => match toml_parse(t) {
            None => seq![],
            Some(v) => (match tas_array(tget(tget(Some(v), "project"@), "dependencies"@)) {
                Some(items) => pep_deps(items, items.len() as int),
                None => seq![],
            }) + (match tas_table(tget(tget(tget(Some(v), "tool"@), "poetry"@), "dependencies"@)) {
                Some(es) => poetry_deps(es, es.len() as int),
                None => seq![],
            }),
        },
    }
}

// ───────────────────────────── sorting ─────────────────────────────

/// `a` sorts before `b`: by registry, then by name.
pub open spec fn dep_before(a: DepV, b: DepV) -> bool {
    text_before(a.registry, b.registry) || (a.registry == b.registry && text_before(a.name, b.name))
}

pub open spec fn dep_pos(s: Seq<DepV>, x: DepV, j: int) -> int
    decreases s.len() - j,
{
    if j < 0 || j >= s.len() {
        s.len() as int
    } else if dep_before(x, s[j]) {
        j
    } else {
        dep_pos(s, x, j + 1)
    }
}

/// `s` stably sorted by registry and name.
pub open spec fn sort_deps(s: Seq<DepV>) -> Seq<DepV>
    decreases s.len(),
{
    if s.len() == 0 {
        seq![]
    } else {
        let r = sort_deps(s.drop_last());
        r.insert(dep_pos(r, s.last(), 0), s.last())
    }
}

/// `s` with each run of equal dependencies reduced to one.
pub open spec fn dedup_deps(s: Seq<DepV>) -> Seq<DepV>
    decreases s.len(),
{
    if s.len() == 0 {
        seq![]
    } else {
        let r = dedup_deps(s.drop_last());
        if s.len() >= 2 && s[s.len() - 2] == s.last() {
            r
        } else {
            r.push(s.last())
        }
    }
}

/// The project's dependencies, from the texts of its manifests.
pub open spec fn spec_dependencies(cargo: Option<Seq<char>>, npm: Option<Seq<char>>, pypi: Option<Seq<char>>) -> Seq<DepV> {
    dedup_deps(sort_deps(cargo_deps(cargo) + npm_deps(npm) + pypi_deps(pypi)))
}

// ───────────────────────────── implementation ─────────────────────────────

fn push_table_deps(out: &mut Vec<Dependency>, t: Option<&Vec<(String, TomlValue)>>, ghost_t: Ghost<Option<Seq<(Seq<char>, TomlV)>>>)
    requires
        match t {
            Some(es) => ghost_t@ matches Some(s) && s.len() == es.len() && forall|i: int|
                0 <= i < es.len() ==> #[trigger] s[i] == (es@[i].0@, es@[i].1@),
            None => ghost_t@ is None,
        },
    ensures
        deps_view(final(out)@) == deps_view(old(out)@) + opt_table_deps(ghost_t@),
{
    let ghost o0 = deps_view(out@);
    match t {
        Some(es) => {
            let ghost s = ghost_t@->0;
            let mut i: usize = 0;
            while i < es.len()
                invariant
                    i <= es.len(),
                    s.len() == es.len(),
                    forall|j: int| 0 <= j < es.len() ==> #[trigger] s[j] == (es@[j].0@, es@[j].1@),
                    deps_view(out@) == o0 + table_deps(s, "cargo"@).take(i as int),
                decreases es.len() - i,
            {
                let ghost before = deps_view(out@);
                assert(s[i as int] == (es@[i as int].0@, es@[i as int].1@));
                let version = match &es[i].1 {
                    TomlValue::Str(x) => Some(x.clone()),
                    TomlValue::Table(_) => match toml_str(toml_get(Some(&es[i].1), "version")) {
                        Some(x) => Some(x.clone()),
                        None => None,
                    },
                    _ => None,
                };
                let d = Dependency { registry: "cargo".to_string(), name: es[i].0.clone(), version };
                out.push(d);
                proof {
                    assert(d@ == table_deps(s, "cargo"@)[i as int]);
                    assert(deps_view(out@) =~= before.push(d@));
                    assert(table_deps(s, "cargo"@).take(i + 1) =~= table_deps(s, "cargo"@).take(i as int).push(
                        table_deps(s, "cargo"@)[i as int],
                    ));
                }
                i = i + 1;
            }
            assert(table_deps(s, "cargo"@).take(i as int) =~= table_deps(s, "cargo"@));
        },
        None => {
            assert(deps_view(out@) =~= o0 + seq![]);
        },
    }
}

fn cargo_deps_exec(text: Option<&str>, out: &mut Vec<Dependency>)
    ensures
        deps_view(final(out)@) == deps_view(old(out)@) + cargo_deps(match text {
            Some(t) => Some(t@),
            None => None,
        }),
{
    let ghost o0 = deps_view(out@);
    let t = match text {
        Some(t) => t,
        None => {
            assert(deps_view(out@) =~= o0 + seq![]);
            return;
        },
    };
    let v = match parse_toml(t) {
        Some(v) => v,
        None => {
            assert(deps_view(out@) =~= o0 + seq![]);
            return;
        },
    };
    let ghost vv = Some(v@);
    push_table_deps(out, toml_table(toml_get(Some(&v), "dependencies")), Ghost(tas_table(tget(vv, "dependencies"@))));
    push_table_deps(out, toml_table(toml_get(Some(&v), "dev-dependencies")), Ghost(tas_table(tget(vv, "dev-dependencies"@))));
    push_table_deps(out, toml_table(toml_get(Some(&v), "build-dependencies")), Ghost(tas_table(tget(vv, "build-dependencies"@))));
    push_table_deps(
        out,
        toml_table(toml_get(toml_get(Some(&v), "workspace"), "dependencies")),
        Ghost(tas_table(tget(tget(vv, "workspace"@), "dependencies"@))),
    );
    proof {
        reveal_strlit("cargo");
    }
    assert(deps_view(out@) =~= o0 + cargo_deps(Some(t@)));
}

fn push_json_deps(out: &mut Vec<Dependency>, t: Option<&Vec<(String, JsonValue)>>, ghost_t: Ghost<Option<Seq<(Seq<char>, JsonV)>>>)
    requires
        match t {
            Some(es) => ghost_t@ matches Some(s) && s.len() == es.len() && forall|i: int|
                0 <= i < es.len() ==> #[trigger] s[i] == (es@[i].0@, es@[i].1@),
            None => ghost_t@ is None,
        },
    ensures
        deps_view(final(out)@) == deps_view(old(out)@) + opt_json_deps(ghost_t@),
{
    let ghost o0 = deps_view(out@);
    match t {
        Some(es) => {
            let ghost s = ghost_t@->0;
            let mut i: usize = 0;
            while i < es.len()
                invariant
                    i <= es.len(),
                    s.len() == es.len(),
                    forall|j: int| 0 <= j < es.len() ==> #[trigger] s[j] == (es@[j].0@, es@[j].1@),
                    deps_view(out@) == o0 + json_deps(s).take(i as int),
                decreases es.len() - i,
            {
                let ghost before = deps_view(out@);
                assert(s[i as int] == (es@[i as int].0@, es@[i as int].1@));
                let version = match json_str(Some(&es[i].1)) {
                    Some(x) => Some(x.clone()),
                    None => None,
                };
                let d = Dependency { registry: "npm".to_string(), name: es[i].0.clone(), version };
                out.push(d);
                proof {
                    assert(d@ == json_deps(s)[i as int]);
                    assert(deps_view(out@) =~= before.push(d@));
                    assert(json_deps(s).take(i + 1) =~= json_deps(s).take(i as int).push(json_deps(s)[i as int]));
                }
                i = i + 1;
            }
            assert(json_deps(s).take(i as int) =~= json_deps(s));
        },
        None => {
            assert(deps_view(out@) =~= o0 + seq![]);
        },
    }
}

fn npm_deps_exec(text: Option<&str>, out: &mut Vec<Dependency>)
    ensures
        deps_view(final(out)@) == deps_view(old(out)@) + npm_deps(match text {
            Some(t) => Some(t@),
            None => None,
        }),
{
    let ghost o0 = deps_view(out@);
    let t = match text {
        Some(t) => t,
        None => {
            assert(deps_view(out@) =~= o0 + seq![]);
            return;
        },
    };
    let v = match parse_json(t) {
        Ok(v) => v,
        Err(_) => {
            assert(deps_view(out@) =~= o0 + seq![]);
            return;
        },
    };
    push_json_deps(out, json_object(json_get(&v, "dependencies")), Ghost(as_object(get(v@, "dependencies"@))));
    push_json_deps(out, json_object(json_get(&v, "devDependencies")), Ghost(as_object(get(v@, "devDependencies"@))));
    push_json_deps(out, json_object(json_get(&v, "peerDependencies")), Ghost(as_object(get(v@, "peerDependencies"@))));
    assert(deps_view(out@) =~= o0 + npm_deps(Some(t@)));
}

/// `(name, version)` of a PEP 508 requirement (see [`spec_pep508`]).
pub fn parse_pep508(req: &str) -> (r: Option<(String, String)>)
    ensures
        match r {
            Some((n, v)) => spec_pep508(req@) == Some((n@, v@)),
            None => spec_pep508(req@) is None,
        },
{
    let rc = chars_of(req);
    let r = trim_chars(&rc);
    let mut end: usize = 0;
    while end < r.len() && !(r[end] == '<' || r[end] == '>' || r[end] == '=' || r[end] == '!' || r[end] == '~'
        || r[end] == '[' || r[end] == ' ' || r[end] == ';' || r[end] == '(')
        invariant
            end <= r.len(),
            first_stop(r@, 0) == first_stop(r@, end as int),
        decreases r.len() - end,
    {
        end = end + 1;
    }
    let head = crate::text::slice_chars(&r, 0, end);
    assert(head@ =~= r@.take(end as int));
    let name = trim_chars(&head);
    if name.len() == 0 {
        return None;
    }
    let tail = crate::text::slice_chars(&r, end, r.len());
    assert(tail@ =~= r@.skip(end as int));
    let t = trim_chars(&tail);
    let version = if t.len() > 0 && t[0] == '[' {
        let c = crate::text::find_char_from(&t, 0, ']');
        assert(t@.skip(0) =~= t@);
        if c < t.len() {
            let rest = crate::text::slice_chars(&t, c + 1, t.len());
            assert(rest@ =~= t@.skip(c + 1));
            trim_chars(&rest)
        } else {
            Vec::new()
        }
    } else {
        t
    };
    assert(version@ =~= skip_extras(trim(r@.skip(end as int))));
    Some((string_of(&name), string_of(&version)))
}

fn is_python_exec(name: &String) -> (b: bool)
    ensures
        b == is_python(name@),
{
    let c = chars_of(name.as_str());
    let mut l: Vec<char> = Vec::new();
    let mut i: usize = 0;
    while i < c.len()
        invariant
            i <= c.len(),
            l@ == ascii_lower(c@.take(i as int)),
        decreases c.len() - i,
    {
        let x = c[i];
        let y = if 'A' <= x && x <= 'Z' {
            ((x as u8) + 32) as char
        } else {
            x
        };
        l.push(y);
        assert(ascii_lower(c@.take(i + 1)) =~= ascii_lower(c@.take(i as int)).push(y));
        i = i + 1;
    }
    assert(c@.take(i as int) =~= c@);
    eq_lit(&l, "python")
}

fn pypi_deps_exec(text: Option<&str>, out: &mut Vec<Dependency>)
    ensures
        deps_view(final(out)@) == deps_view(old(out)@) + pypi_deps(match text {
            Some(t) => Some(t@),
            None => None,
        }),
{
    let ghost o0 = deps_view(out@);
    let t = match text {
        Some(t) => t,
        None => {
            assert(deps_view(out@) =~= o0 + seq![]);
            return;
        },
    };
    let v = match parse_toml(t) {
        Some(v) => v,
        None => {
            assert(deps_view(out@) =~= o0 + seq![]);
            return;
        },
    };
    let ghost vv = Some(v@);
    proof {
        reveal_strlit("pypi");
    }
    let arr = toml_array(toml_get(toml_get(Some(&v), "project"), "dependencies"));
    let ghost pep_part: Seq<DepV> = match tas_array(tget(tget(vv, "project"@), "dependencies"@)) {
        Some(items) => pep_deps(items, items.len() as int),
        None => seq![],
    };
    match arr {
        Some(items) => {
            let ghost s = tas_array(tget(tget(vv, "project"@), "dependencies"@))->0;
            let mut i: usize = 0;
            while i < items.len()
                invariant
                    i <= items.len(),
                    s.len() == items.len(),
                    forall|j: int| 0 <= j < items.len() ==> #[trigger] s[j] == items@[j]@,
                    deps_view(out@) == o0 + pep_deps(s, i as int),
                decreases items.len() - i,
            {
                let ghost before = deps_view(out@);
                assert(s[i as int] == items@[i as int]@);
                match toml_str(Some(&items[i])) {
                    Some(req) => match parse_pep508(req.as_str()) {
                        Some((n, ver)) => {
                            let vc = chars_of(ver.as_str());
                            let version = if vc.len() == 0 {
                                None
                            } else {
                                Some(ver)
                            };
                            let d = Dependency { registry: "pypi".to_string(), name: n, version };
                            out.push(d);
                            assert(deps_view(out@) =~= before.push(d@));
                        },
                        None => {},
                    },
                    None => {},
                }
                i = i + 1;
            }
        },
        None => {
            assert(deps_view(out@) =~= o0 + seq![]);
        },
    }
    let ghost o1 = deps_view(out@);
    assert(o1 == o0 + pep_part);
    let table = toml_table(toml_get(toml_get(toml_get(Some(&v), "tool"), "poetry"), "dependencies"));
    match table {
        Some(es) => {
            let ghost s = tas_table(tget(tget(tget(vv, "tool"@), "poetry"@), "dependencies"@))->0;
            let mut i: usize = 0;
            while i < es.len()
                invariant
                    i <= es.len(),
                    s.len() == es.len(),
                    forall|j: int| 0 <= j < es.len() ==> #[trigger] s[j] == (es@[j].0@, es@[j].1@),
                    deps_view(out@) == o1 + poetry_deps(s, i as int),
                decreases es.len() - i,
            {
                let ghost before = deps_view(out@);
                assert(s[i as int] == (es@[i as int].0@, es@[i as int].1@));
                if !is_python_exec(&es[i].0) {
                    let version = match toml_str(Some(&es[i].1)) {
                        Some(x) => Some(x.clone()),
                        None => None,
                    };
                    let d = Dependency { registry: "pypi".to_string(), name: es[i].0.clone(), version };
                    out.push(d);
                    assert(deps_view(out@) =~= before.push(d@));
                }
                i = i + 1;
            }
        },
        None => {
            assert(deps_view(out@) =~= o1 + seq![]);
        },
    }
    assert(deps_view(out@) =~= o0 + pypi_deps(Some(t@)));
}

fn dep_before_exec(a: &Dependency, b: &Dependency) -> (r: bool)
    ensures
        r == dep_before(a@, b@),
{
    let ar = chars_of(a.registry.as_str());
    let br = chars_of(b.registry.as_str());
    if text_before_exec(&ar, &br) {
        return true;
    }
    if !crate::text::chars_eq(&ar, &br) {
        return false;
    }
    let an = chars_of(a.name.as_str());
    let bn = chars_of(b.name.as_str());
    text_before_exec(&an, &bn)
}

fn copy_dep(d: &Dependency) -> (r: Dependency)
    ensures
        r@ == d@,
{
    Dependency {
        registry: d.registry.clone(),
        name: d.name.clone(),
        version: crate::chunker::copy_opt_string(&d.version),
    }
}

fn dep_eq(a: &Dependency, b: &Dependency) -> (r: bool)
    ensures
        r == (a@ == b@),
{
    let ar = chars_of(a.registry.as_str());
    let br = chars_of(b.registry.as_str());
    let an = chars_of(a.name.as_str());
    let bn = chars_of(b.name.as_str());
    if !crate::text::chars_eq(&ar, &br) || !crate::text::chars_eq(&an, &bn) {
        return false;
    }
    match (&a.version, &b.version) {
        (Some(x), Some(y)) => {
            let xc = chars_of(x.as_str());
            let yc = chars_of(y.as_str());
            crate::text::chars_eq(&xc, &yc)
        },
        (None, None) => true,
        _ => false,
    }
}

/// The project's dependencies from the texts of its `Cargo.toml`,
/// `package.json` and `pyproject.toml` (`None` where the file is absent):
/// sorted stably by registry then name, runs of equal entries reduced to
/// one.  A manifest that does not parse contributes nothing.
pub fn detect_dependencies(cargo_toml: Option<&str>, package_json: Option<&str>, pyproject_toml: Option<&str>) -> (r: Vec<Dependency>)
    ensures
        deps_view(r@) == spec_dependencies(
            match cargo_toml {
                Some(t) => Some(t@),
                None => None,
            },
            match package_json {
                Some(t) => Some(t@),
                None => None,
            },
            match pyproject_toml {
                Some(t) => Some(t@),
                None => None,
            },
        ),
{
    let mut all: Vec<Dependency> = Vec::new();
    assert(deps_view(all@) =~= seq![]);
    cargo_deps_exec(cargo_toml, &mut all);
    npm_deps_exec(package_json, &mut all);
    pypi_deps_exec(pyproject_toml, &mut all);
    let ghost av = deps_view(all@);
    // Stable insertion sort by (registry, name).
    let mut sorted: Vec<Dependency> = Vec::new();
    let n = all.len();
    let mut src = all;
    let mut k: usize = 0;
    while k < n
        invariant
            k <= n == av.len(),
            src.len() == n - k,
            deps_view(src@) == av.skip(k as int),
            deps_view(sorted@) == sort_deps(av.take(k as int)),
        decreases n - k,
    {
        let ghost s0 = src@;
        assert(deps_view(s0)[0] == s0[0]@);
        let x = src.remove(0);
        proof {
            assert(src@ =~= s0.subrange(1, s0.len() as int));
            assert forall|j: int| 0 <= j < deps_view(src@).len() implies deps_view(src@)[j] == av.skip(k + 1)[j] by {
                assert(deps_view(src@)[j] == src@[j]@);
                assert(src@[j] == s0[j + 1]);
                assert(deps_view(s0)[j + 1] == s0[j + 1]@);
            }
            assert(deps_view(src@) =~= av.skip(k + 1));
        }
        let ghost sv = deps_view(sorted@);
        let mut pos: usize = 0;
        while pos < sorted.len() && !dep_before_exec(&x, &sorted[pos])
            invariant
                pos <= sorted.len(),
                sv == deps_view(sorted@),
                dep_pos(sv, x@, 0) == dep_pos(sv, x@, pos as int),
            decreases sorted.len() - pos,
        {
            assert(sv[pos as int] == sorted@[pos as int]@);
            pos = pos + 1;
        }
        proof {
            if pos < sorted.len() {
                assert(sv[pos as int] == sorted@[pos as int]@);
            }
        }
        sorted.insert(pos, x);
        proof {
            assert(av.take(k + 1).drop_last() =~= av.take(k as int));
            assert(av.take(k + 1).last() == av[k as int]);
            assert(deps_view(sorted@) =~= sv.insert(pos as int, x@));
        }
        k = k + 1;
    }
    assert(av.take(k as int) =~= av);
    // Remove consecutive duplicates.
    let ghost so = deps_view(sorted@);
    let mut out: Vec<Dependency> = Vec::new();
    let mut i: usize = 0;
    while i < sorted.len()
        invariant
            i <= sorted.len(),
            so == deps_view(sorted@),
            deps_view(out@) == dedup_deps(so.take(i as int)),
        decreases sorted.len() - i,
    {
        let ghost o0 = deps_view(out@);
        assert(so.take(i + 1).drop_last() =~= so.take(i as int));
        assert(so[i as int] == sorted@[i as int]@);
        if i >= 1 && dep_eq(&sorted[i - 1], &sorted[i]) {
            assert(so[i - 1] == sorted@[i - 1]@);
        } else {
            if i >= 1 {
                assert(so[i - 1] == sorted@[i - 1]@);
            }
            let d = copy_dep(&sorted[i]);
            out.push(d);
            assert(deps_view(out@) =~= o0.push(so[i as int]));
        }
        i = i + 1;
    }
    assert(so.take(i as int) =~= so);
    out
}

// ───────────────────────────── laws ─────────────────────────────

/// No entry sorts before an earlier one.
pub open spec fn deps_sorted(s: Seq<DepV>) -> bool {
    forall|i: int, j: int| 0 <= i < j < s.len() ==> !dep_before(#[trigger] s[j], #[trigger] s[i])
}

proof fn lemma_dep_before_order(a: DepV, b: DepV, c: DepV)
    ensures
        !dep_before(a, a),
        dep_before(a, b) ==> !dep_before(b, a),
        dep_before(a, b) && dep_before(b, c) ==> dep_before(a, c),
{
    lemma_text_before_order(a.registry, b.registry);
    lemma_text_before_order(a.name, b.name);
    lemma_text_before_order(b.registry, c.registry);
    lemma_text_before_order(a.registry, c.registry);
    if text_before(a.registry, b.registry) && text_before(b.registry, c.registry) {
        lemma_text_before_trans(a.registry, b.registry, c.registry);
    }
    if text_before(a.name, b.name) && text_before(b.name, c.name) {
        lemma_text_before_trans(a.name, b.name, c.name);
    }
}

proof fn lemma_dep_pos(s: Seq<DepV>, x: DepV, j: int)
    requires
        0 <= j <= s.len(),
    ensures
        j <= dep_pos(s, x, j) <= s.len(),
        forall|i: int| j <= i < dep_pos(s, x, j) ==> !dep_before(x, #[trigger] s[i]),
        dep_pos(s, x, j) < s.len() ==> dep_before(x, s[dep_pos(s, x, j)]),
    decreases s.len() - j,
{
    if j < s.len() && !dep_before(x, s[j]) {
        lemma_dep_pos(s, x, j + 1);
    }
}

proof fn lemma_sort_deps_sorted(s: Seq<DepV>)
    ensures
        deps_sorted(sort_deps(s)),
        sort_deps(s).len() == s.len(),
    decreases s.len(),
{
    if s.len() > 0 {
        let r = sort_deps(s.drop_last());
        lemma_sort_deps_sorted(s.drop_last());
        let x = s.last();
        let p = dep_pos(r, x, 0);
        lemma_dep_pos(r, x, 0);
        let n = r.insert(p, x);
        assert forall|i: int, j: int| 0 <= i < j < n.len() implies !dep_before(#[trigger] n[j], #[trigger] n[i]) by {
            if j < p {
                assert(n[i] == r[i] && n[j] == r[j]);
            } else if j == p {
                assert(n[i] == r[i]);
            } else if i == p {
                assert(n[j] == r[j - 1]);
                lemma_dep_before_order(r[j - 1], x, r[p]);
                if j - 1 > p {
                    assert(!dep_before(r[j - 1], r[p]));
                }
            } else if i < p {
                assert(n[i] == r[i] && n[j] == r[j - 1]);
            } else {
                assert(n[i] == r[i - 1] && n[j] == r[j - 1]);
            }
        }
    }
}

proof fn lemma_dedup_shape(s: Seq<DepV>)
    ensures
        s.len() > 0 ==> dedup_deps(s).len() > 0 && dedup_deps(s).last() == s.last(),
        forall|k: int| 0 <= k < dedup_deps(s).len() ==> exists|i: int| 0 <= i < s.len() && #[trigger] dedup_deps(s)[k] == s[i],
    decreases s.len(),
{
    if s.len() > 0 {
        let t = s.drop_last();
        lemma_dedup_shape(t);
        let r = dedup_deps(t);
        let d = dedup_deps(s);
        assert forall|k: int| 0 <= k < d.len() implies exists|i: int| 0 <= i < s.len() && #[trigger] d[k] == s[i] by {
            if k < r.len() {
                assert(d[k] == r[k]);
                let i = choose|i: int| 0 <= i < t.len() && #[trigger] r[k] == t[i];
                assert(s[i] == t[i]);
            } else {
                assert(d[k] == s[s.len() - 1]);
            }
        }
    }
}

proof fn lemma_dedup_sorted(s: Seq<DepV>)
    requires
        deps_sorted(s),
    ensures
        deps_sorted(dedup_deps(s)),
        forall|k: int| 0 <= k < dedup_deps(s).len() - 1 ==> #[trigger] dedup_deps(s)[k] != dedup_deps(s)[k + 1],
    decreases s.len(),
{
    if s.len() > 0 {
        let t = s.drop_last();
        assert(deps_sorted(t)) by {
            assert forall|i: int, j: int| 0 <= i < j < t.len() implies !dep_before(#[trigger] t[j], #[trigger] t[i]) by {
                assert(t[i] == s[i] && t[j] == s[j]);
            }
        }
        lemma_dedup_sorted(t);
        lemma_dedup_shape(t);
        let r = dedup_deps(t);
        let d = dedup_deps(s);
        if !(s.len() >= 2 && s[s.len() - 2] == s.last()) {
            assert(d == r.push(s.last()));
            assert forall|i: int, j: int| 0 <= i < j < d.len() implies !dep_before(#[trigger] d[j], #[trigger] d[i]) by {
                if j < r.len() {
                    assert(d[i] == r[i] && d[j] == r[j]);
                } else {
                    assert(d[i] == r[i]);
                    let m = choose|m: int| 0 <= m < t.len() && #[trigger] r[i] == t[m];
                    assert(t[m] == s[m]);
                    assert(d[j] == s[s.len() - 1]);
                }
            }
            assert forall|k: int| 0 <= k < d.len() - 1 implies #[trigger] d[k] != d[k + 1] by {
                if k < r.len() - 1 {
                    assert(d[k] == r[k] && d[k + 1] == r[k + 1]);
                } else {
                    assert(d[k] == r.last());
                }
            }
        }
    }
}

/// The detected dependencies come sorted by registry then name, with no two
/// neighbours equal.
pub proof fn law_dependencies_sorted_without_repeats(
    cargo: Option<Seq<char>>,
    npm: Option<Seq<char>>,
    pypi: Option<Seq<char>>,
)
    ensures
        deps_sorted(spec_dependencies(cargo, npm, pypi)),
        forall|k: int|
            0 <= k < spec_dependencies(cargo, npm, pypi).len() - 1 ==> #[trigger] spec_dependencies(cargo, npm, pypi)[k]
                != spec_dependencies(cargo, npm, pypi)[k + 1],
{
    let all = cargo_deps(cargo) + npm_deps(npm) + pypi_deps(pypi);
    lemma_sort_deps_sorted(all);
    lemma_dedup_sorted(sort_deps(all));
}

proof fn lemma_sort_deps_keeps(s: Seq<DepV>, x: DepV)
    requires
        s.contains(x),
    ensures
        sort_deps(s).contains(x),
    decreases s.len(),
{
    let t = s.drop_last();
    let r = sort_deps(t);
    let p = dep_pos(r, s.last(), 0);
    lemma_dep_pos(r, s.last(), 0);
    let n = r.insert(p, s.last());
    if x == s.last() {
        assert(n[p] == x);
    } else {
        let i = choose|i: int| 0 <= i < s.len() && s[i] == x;
        assert(i < s.len() - 1);
        assert(t[i] == x);
        lemma_sort_deps_keeps(t, x);
        let j = choose|j: int| 0 <= j < r.len() && r[j] == x;
        if j < p {
            assert(n[j] == x);
        } else {
            assert(n[j + 1] == x);
        }
    }
}

proof fn lemma_dedup_deps_keeps(s: Seq<DepV>, x: DepV)
    requires
        s.contains(x),
    ensures
        dedup_deps(s).contains(x),
    decreases s.len(),
{
    let t = s.drop_last();
    let r = dedup_deps(t);
    let i = choose|i: int| 0 <= i < s.len() && s[i] == x;
    if i < s.len() - 1 {
        assert(t[i] == x);
        lemma_dedup_deps_keeps(t, x);
        let j = choose|j: int| 0 <= j < r.len() && r[j] == x;
        if !(s.len() >= 2 && s[s.len() - 2] == s.last()) {
            assert(r.push(s.last())[j] == x);
        }
    } else if s.len() >= 2 && s[s.len() - 2] == s.last() {
        assert(t[s.len() - 2] == x);
        lemma_dedup_deps_keeps(t, x);
    } else {
        assert(r.push(s.last())[r.len() as int] == x);
    }
}

/// Every entry of the `dependencies`, `devDependencies` or
/// `peerDependencies` object of a `package.json` that parses is among the
/// detected dependencies, as an `npm` dependency with its version string.
pub proof fn law_package_json_entries_detected(
    cargo: Option<Seq<char>>,
    npm: Seq<char>,
    pypi: Option<Seq<char>>,
    key: Seq<char>,
    i: int,
)
    requires
        key == "dependencies"@ || key == "devDependencies"@ || key == "peerDependencies"@,
        json_parse(npm) is Ok,
        as_object(get(json_parse(npm)->Ok_0, key)) is Some,
        0 <= i < as_object(get(json_parse(npm)->Ok_0, key))->0.len(),
    ensures
        ({
            let e = as_object(get(json_parse(npm)->Ok_0, key))->0[i];
            spec_dependencies(cargo, Some(npm), pypi).contains(
                DepV { registry: "npm"@, name: e.0, version: as_str(Some(e.1)) },
            )
        }),
{
    let v = json_parse(npm)->Ok_0;
    let es = as_object(get(v, key))->0;
    let x = DepV { registry: "npm"@, name: es[i].0, version: as_str(Some(es[i].1)) };
    let d = opt_json_deps(as_object(get(v, "dependencies"@)));
    let dv = opt_json_deps(as_object(get(v, "devDependencies"@)));
    let p = opt_json_deps(as_object(get(v, "peerDependencies"@)));
    assert(npm_deps(Some(npm)) == d + dv + p);
    assert(json_deps(es)[i] == x);
    let c = cargo_deps(cargo);
    let all = c + npm_deps(Some(npm)) + pypi_deps(pypi);
    if key == "dependencies"@ {
        assert(all[c.len() + i] == x);
    } else if key == "devDependencies"@ {
        assert(all[c.len() + d.len() + i] == x);
    } else {
        assert(all[c.len() + d.len() + dv.len() + i] == x);
    }
    assert(all.contains(x));
    lemma_sort_deps_keeps(all, x);
    lemma_dedup_deps_keeps(sort_deps(all), x);
}

} // verus!
