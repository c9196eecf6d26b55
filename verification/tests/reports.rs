use lore::diff::{diff_api, ApiSurface};
use lore::package::Package;
use lore::reports::{diff_report, package_listing, resolve_listing, stack_status_text, SessionSeen};
use lore::stack::Dependency;

fn pkg(registry: &str, name: &str, version: &str, desc: Option<&str>) -> Package {
    Package {
        name: name.into(),
        registry: registry.into(),
        version: version.into(),
        description: desc.map(|d| d.to_owned()),
        source_url: None,
        git_sha: None,
    }
}

fn installed() -> Vec<(String, Package)> {
    vec![
        ("cargo-tokio@1.44.2".to_owned(), pkg("cargo", "tokio", "1.44.2", Some("Async runtime"))),
        ("npm-react@19.0.0".to_owned(), pkg("npm", "react", "19.0.0", None)),
    ]
}

#[test]
fn listing_of_installed_packages() {
    assert_eq!(package_listing(&installed()), "- cargo-tokio@1.44.2: Async runtime\n- npm-react@19.0.0");
    assert_eq!(package_listing(&vec![]), "No packages installed. Use `lore add <package>` to install one.");
}

#[test]
fn resolve_matches_name_ignoring_case() {
    assert_eq!(resolve_listing(&installed(), "TOK"), "- cargo-tokio@1.44.2: Async runtime");
    assert_eq!(resolve_listing(&installed(), "vue"), "No installed package matches 'vue'.");
}

#[test]
fn stack_status_flags_drift_and_missing_docs() {
    let deps = vec![
        Dependency { registry: "cargo".into(), name: "tokio".into(), version: Some("1.44".into()) },
        Dependency { registry: "npm".into(), name: "react".into(), version: Some("^18.2".into()) },
        Dependency { registry: "pypi".into(), name: "requests".into(), version: None },
    ];
    assert_eq!(
        stack_status_text(&deps, &installed()),
        "✓ cargo/tokio (want 1.44, indexed 1.44.2) → cargo-tokio@1.44.2\n\
         ✓ npm/react (want ^18.2, indexed 19.0.0) → npm-react@19.0.0  ⚠ indexed docs may be stale\n\
         ✗ pypi/requests — no docs installed (try `lore add requests`)"
    );
}

#[test]
fn diff_report_lists_removed_added_changed() {
    let mut old = ApiSurface::new();
    old.add("a::f".into(), "fn f()".into());
    old.add("a::g".into(), "fn g()".into());
    let mut new = ApiSurface::new();
    new.add("a::f".into(), "fn f(x: u8)".into());
    new.add("a::h".into(), "fn h()".into());
    let d = diff_api(&old, &new);
    assert_eq!(
        diff_report("cargo-a@1", "cargo-a@2", &d),
        "API diff cargo-a@1 → cargo-a@2:\n- REMOVED a::g\n+ ADDED   a::h\n~ CHANGED a::f\n    was: fn f()\n    now: fn f(x: u8)\n"
    );
    let same = diff_api(&old, &old);
    assert_eq!(diff_report("x", "y", &same), "No API differences detected between x and y.");
}

#[test]
fn session_returns_each_result_once() {
    let mut s = SessionSeen::new();
    assert_eq!(s.keep_fresh("pkg", &vec![1, 2, 1]), vec![true, true, false]);
    assert_eq!(s.keep_fresh("pkg", &vec![2, 3]), vec![false, true]);
    assert_eq!(s.keep_fresh("other", &vec![2]), vec![true]);
    s.reset();
    assert_eq!(s.keep_fresh("pkg", &vec![1]), vec![true]);
}
