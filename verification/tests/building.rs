use lore::diff::{diff_api, ApiSurface};
use lore::json::JsonValue;
use lore::indexer::{heading_level_at, HeadingIds};
use lore::manifest::{
    build_manifest_text, epoch_to_utc, extract_signature_from_line, iso8601, signatures_in, supported_lang,
    ApiSignature, HeadingEntry,
};
use lore::error::LoreError;
use lore::source::rustdoc::{render_type, rustdoc_json_to_markdown, rustdoc_value_to_markdown};
use lore::source::{GitSource, LlmsTxtSource, LocalSource, RustdocInput, RustdocSource, WebsiteSource};
use lore::stack::{detect_dependencies, parse_pep508};
use lore::tokens::TokenCounter;

// ───────────────────────────── API diff ─────────────────────────────

fn surface(pairs: &[(&str, &str)]) -> ApiSurface {
    let mut s = ApiSurface::new();
    for (k, v) in pairs {
        s.add((*k).to_owned(), (*v).to_owned());
    }
    s
}

#[test]
fn detects_added_removed_changed() {
    let old = surface(&[
        ("axum::routing::get", "pub fn get(handler: H) -> Route"),
        ("axum::Server", "pub struct Server"),
        ("axum::routing::delete", "pub fn delete(handler: H) -> Route"),
    ]);
    let new = surface(&[
        ("axum::routing::get", "pub fn get(handler: H) -> MethodRouter"), // changed
        ("axum::serve", "pub fn serve(listener: L, service: S)"),         // added
        ("axum::routing::delete", "pub fn delete(handler: H) -> Route"),  // unchanged
    ]);
    let d = diff_api(&old, &new);
    assert_eq!(d.added, vec!["axum::serve"]);
    assert_eq!(d.removed, vec!["axum::Server"]);
    assert_eq!(d.changed.len(), 1);
    assert_eq!(d.changed[0].0, "axum::routing::get");
}

#[test]
fn identical_surfaces_have_no_diff() {
    let s = surface(&[("a::b", "fn b()")]);
    let d = diff_api(&s, &s);
    assert!(d.added.is_empty() && d.removed.is_empty() && d.changed.is_empty());
}

#[test]
fn surface_keeps_first_signature_and_sorted_keys() {
    let s = surface(&[("b", "fn b()"), ("a", "fn a()"), ("b", "fn b2()")]);
    let items: Vec<(String, String)> = s.items().clone();
    assert_eq!(
        items,
        vec![("a".to_owned(), "fn a()".to_owned()), ("b".to_owned(), "fn b()".to_owned())]
    );
}

#[test]
fn changed_entry_carries_both_signatures() {
    let old = surface(&[("k", "fn k() -> u8")]);
    let new = surface(&[("k", "fn k() -> u16")]);
    let d = diff_api(&old, &new);
    assert_eq!(
        d.changed,
        vec![("k".to_owned(), "fn k() -> u8".to_owned(), "fn k() -> u16".to_owned())]
    );
}

#[test]
fn diff_lists_are_in_key_order_and_reverse_cleanly() {
    let a = surface(&[("z", "fn z()"), ("m", "fn m1()"), ("c", "fn c1()"), ("x", "fn x()")]);
    let b = surface(&[("y", "fn y()"), ("c", "fn c2()"), ("m", "fn m2()"), ("b", "fn b()"), ("w", "fn w()")]);
    let d = diff_api(&a, &b);
    assert_eq!(d.added, vec!["b", "w", "y"]);
    assert_eq!(d.removed, vec!["x", "z"]);
    assert_eq!(
        d.changed,
        vec![
            ("c".to_owned(), "fn c1()".to_owned(), "fn c2()".to_owned()),
            ("m".to_owned(), "fn m1()".to_owned(), "fn m2()".to_owned()),
        ]
    );
    let r = diff_api(&b, &a);
    assert_eq!(r.added, d.removed);
    assert_eq!(r.removed, d.added);
    let swapped: Vec<(String, String, String)> = d.changed.iter().map(|(k, o, n)| (k.clone(), n.clone(), o.clone())).collect();
    assert_eq!(r.changed, swapped);
}

#[test]
fn code_block_keyed_by_heading_path_or_signature() {
    let mut s = ApiSurface::new();
    s.add_code_block(&Some("pub fn run()\n{ }".to_owned()), &Some(vec!["app".to_owned(), "run".to_owned()]));
    s.add_code_block(&Some("  pub fn solo(x: u8)  \nbody".to_owned()), &None);
    s.add_code_block(&Some("   \n".to_owned()), &None);
    s.add_code_block(&None, &None);
    let items: Vec<(String, String)> = s.items().clone();
    assert_eq!(
        items,
        vec![
            ("app::run".to_owned(), "pub fn run()".to_owned()),
            ("pub fn solo(x: u8)".to_owned(), "pub fn solo(x: u8)".to_owned()),
        ]
    );
}

// ───────────────────────────── manifest ─────────────────────────────

#[test]
fn epoch_zero_is_unix_epoch() {
    assert_eq!(epoch_to_utc(0), (1970, 1, 1, 0, 0, 0));
}

#[test]
fn known_timestamp() {
    // 2025-01-15 11:34:56 UTC  →  1_736_940_896
    assert_eq!(epoch_to_utc(1_736_940_896), (2025, 1, 15, 11, 34, 56));
}

#[test]
fn leap_day_timestamp() {
    // 2024-02-29 23:59:59 UTC
    assert_eq!(epoch_to_utc(1_709_251_199), (2024, 2, 29, 23, 59, 59));
}

#[test]
fn iso8601_formats_utc() {
    assert_eq!(iso8601(0), "1970-01-01T00:00:00Z");
    assert_eq!(iso8601(1_736_940_896), "2025-01-15T11:34:56Z");
}

#[test]
fn extract_signature_from_js_function() {
    assert_eq!(
        extract_signature_from_line("export async function cacheLife(profile: string): void {"),
        Some("cacheLife(profile: string): void".into()),
    );
}

#[test]
fn extract_signature_from_rust_fn() {
    assert_eq!(
        extract_signature_from_line("pub async fn serve(addr: &str) -> Result<(), Error> {"),
        Some("serve(addr: &str) -> Result<(), Error>".into()),
    );
}

#[test]
fn extract_signature_from_python_def() {
    assert_eq!(
        extract_signature_from_line("async def get_user(user_id: int) -> User:"),
        Some("get_user(user_id: int) -> User:".into()),
    );
}

#[test]
fn extract_signature_ignores_plain_statements() {
    assert_eq!(extract_signature_from_line("    return cacheLife(profile)"), None);
}

#[test]
fn extract_signature_truncates_long_lines() {
    let line = format!("fn {}(x: u8)", "a".repeat(80));
    let sig = extract_signature_from_line(&line).unwrap();
    assert_eq!(sig, format!("{}…", &format!("{}(x: u8)", "a".repeat(80))[..57]));
}

#[test]
fn signatures_found_in_code_block() {
    let sigs = signatures_in("def a(x):\n    return x\nclass B:\n", &"Caching".to_owned());
    let got: Vec<(String, String)> = sigs.into_iter().map(|s| (s.section, s.signature)).collect();
    assert_eq!(
        got,
        vec![("Caching".to_owned(), "a(x):".to_owned()), ("Caching".to_owned(), "B:".to_owned())]
    );
}

#[test]
fn build_manifest_text_under_500_tokens() {
    let counter = TokenCounter::new().unwrap();
    let headings = vec![
        HeadingEntry { title: "Caching".into(), level: 1 },
        HeadingEntry { title: "Routing".into(), level: 2 },
    ];
    let signatures = vec![
        ApiSignature { section: "Caching".into(), signature: "cacheLife(profile)".into() },
        ApiSignature { section: "Caching".into(), signature: "cacheTag(...tags)".into() },
        ApiSignature { section: "Routing".into(), signature: "redirect(path)".into() },
    ];

    let result = build_manifest_text(&headings, &signatures, &counter);
    assert!(counter.count(&result) <= 500, "manifest exceeds 500 tokens: {result}");
    assert!(result.contains("CACHING"), "must contain CACHING section");
    assert!(result.contains("cacheLife"), "must contain cacheLife signature");
}

#[test]
fn manifest_text_exact_lines() {
    let counter = TokenCounter::new().unwrap();
    let headings = vec![
        HeadingEntry { title: "Caching".into(), level: 1 },
        HeadingEntry { title: "Details".into(), level: 3 },
        HeadingEntry { title: "Routing".into(), level: 2 },
    ];
    let signatures = vec![
        ApiSignature { section: "Caching".into(), signature: "cacheLife(profile)".into() },
        ApiSignature { section: "caching".into(), signature: "cacheTag(...tags)".into() },
        ApiSignature { section: "Caching".into(), signature: "cacheLife(profile)".into() },
        ApiSignature { section: "Routing".into(), signature: "redirect(path)".into() },
    ];
    let result = build_manifest_text(&headings, &signatures, &counter);
    assert_eq!(result, "CACHING: cacheLife(profile), cacheTag(...tags)\nROUTING: redirect(path)");
}

// ───────────────────────────── sources ─────────────────────────────

#[test]
fn git_source_builder() {
    let src = GitSource::new("https://github.com/example/repo").with_branch("main");
    assert_eq!(src.url, "https://github.com/example/repo");
    assert_eq!(src.branch.as_deref(), Some("main"));
}

#[test]
fn website_source_builder() {
    let src = WebsiteSource::new("https://docs.example.com").with_max_pages(100);
    assert_eq!(src.root_url, "https://docs.example.com");
    assert_eq!(src.max_pages, 100);
}

#[test]
fn other_source_constructors() {
    assert_eq!(WebsiteSource::new("https://x.dev").max_pages, 500);
    assert_eq!(LocalSource::new("/docs").dir, "/docs");
    assert_eq!(LlmsTxtSource::new("https://x.dev/llms.txt").url, "https://x.dev/llms.txt");
    assert!(matches!(RustdocSource::from_json("a.json").input, RustdocInput::Json(ref p) if p == "a.json"));
    assert!(matches!(
        RustdocSource::from_crate("axum", "/src/axum").input,
        RustdocInput::Crate { ref name, ref manifest_dir } if name == "axum" && manifest_dir == "/src/axum"
    ));
}

// ───────────────────────────── rustdoc ─────────────────────────────

// Minimal rustdoc JSON (format_version 60 shape) with one function.
const SAMPLE: &str = r#"{
    "root": 45,
    "format_version": 60,
    "paths": {
        "0": {"crate_id": 0, "path": ["rdtest", "add"], "kind": "function"},
        "3": {"crate_id": 0, "path": ["rdtest", "Point"], "kind": "struct"},
        "45": {"crate_id": 0, "path": ["rdtest"], "kind": "module"}
    },
    "index": {
        "0": {"crate_id": 0, "name": "add", "docs": "Adds two numbers.",
              "inner": {"function": {"sig": {"inputs": [["a", {"primitive": "u32"}], ["b", {"primitive": "u32"}]], "output": {"primitive": "u32"}},
                                      "header": {"is_const": false, "is_async": false, "is_unsafe": false}}}},
        "3": {"crate_id": 0, "name": "Point", "docs": "A point.",
              "inner": {"struct": {"kind": "plain", "impls": []}}},
        "9": {"crate_id": 2, "name": "Drop", "docs": "from core",
              "inner": {"trait": {}}}
    }
}"#;

#[test]
fn converts_function_and_struct() {
    let md = rustdoc_json_to_markdown(SAMPLE).unwrap();
    assert!(md.contains("# rdtest"), "{md}");
    // The crate prefix is stripped from item headings (it's the H1).
    assert!(md.contains("## add"), "{md}");
    assert!(md.contains("pub fn add(a: u32, b: u32) -> u32"), "{md}");
    assert!(md.contains("Adds two numbers."));
    assert!(md.contains("## Point"));
    assert!(md.contains("pub struct Point"));
}

#[test]
fn excludes_foreign_crate_items() {
    let md = rustdoc_json_to_markdown(SAMPLE).unwrap();
    assert!(!md.contains("Drop"), "items from other crates must be excluded: {md}");
}

fn obj(entries: Vec<(&str, JsonValue)>) -> JsonValue {
    JsonValue::Object(entries.into_iter().map(|(k, v)| (k.to_owned(), v)).collect())
}

fn s(v: &str) -> JsonValue {
    JsonValue::Str(v.to_owned())
}

#[test]
fn renders_nested_generic_and_ref_types() {
    let vec_t = obj(vec![(
        "resolved_path",
        obj(vec![
            ("path", s("Vec")),
            (
                "args",
                obj(vec![(
                    "angle_bracketed",
                    obj(vec![("args", JsonValue::Array(vec![obj(vec![("type", obj(vec![("generic", s("T"))]))])]))]),
                )]),
            ),
        ]),
    )]);
    assert_eq!(render_type(&vec_t, 0), "Vec<T>");
    let ref_str = obj(vec![(
        "borrowed_ref",
        obj(vec![("is_mutable", JsonValue::Bool(false)), ("type", obj(vec![("primitive", s("str"))]))]),
    )]);
    assert_eq!(render_type(&ref_str, 0), "&str");
}

#[test]
fn renders_deep_types_as_placeholder() {
    let u8t = || obj(vec![("primitive", s("u8"))]);
    let t = u8t();
    assert_eq!(render_type(&t, 8), "u8");
    assert_eq!(render_type(&t, 9), "_");
    let tuple = obj(vec![("tuple", JsonValue::Array(vec![u8t(), obj(vec![("generic", s("T"))])]))]);
    assert_eq!(render_type(&tuple, 0), "(u8, T)");
    let slice = obj(vec![("slice", u8t())]);
    assert_eq!(render_type(&slice, 0), "[u8]");
    assert_eq!(render_type(&obj(vec![("impl_trait", JsonValue::Array(vec![]))]), 0), "impl _");
}

#[test]
fn malformed_json_errors() {
    assert!(rustdoc_json_to_markdown("not json").is_err());
}

#[test]
fn parsed_rustdoc_needs_an_index_object() {
    let no_index = obj(vec![("paths", obj(vec![]))]);
    let r = rustdoc_value_to_markdown(&no_index);
    assert!(matches!(r, Err(LoreError::Parse(ref m)) if m == "rustdoc JSON missing `index`"));
    let not_object = obj(vec![("index", JsonValue::Array(vec![]))]);
    assert!(matches!(rustdoc_value_to_markdown(&not_object), Err(LoreError::Parse(_))));
    let empty = obj(vec![("index", obj(vec![]))]);
    assert_eq!(rustdoc_value_to_markdown(&empty).ok(), Some("# crate\n\n".to_string()));
}

// ───────────────────────────── stack detection ─────────────────────────────

#[test]
fn reads_cargo_dependencies() {
    let cargo = "[dependencies]\ntokio = \"1.44\"\nserde = { version = \"1.0\", features = [\"derive\"] }\n";
    let deps = detect_dependencies(Some(cargo), None, None);
    assert!(deps.iter().any(|x| x.registry == "cargo" && x.name == "tokio"));
    assert!(deps.iter().any(|x| x.name == "serde" && x.version.as_deref() == Some("1.0")));
}

#[test]
fn reads_npm_dependencies() {
    let deps = detect_dependencies(None, Some(r#"{"dependencies":{"react":"19.0.0"}}"#), None);
    assert!(deps
        .iter()
        .any(|x| x.registry == "npm" && x.name == "react" && x.version.as_deref() == Some("19.0.0")));
}

#[test]
fn reads_pep621_dependencies() {
    let py = "[project]\nname = \"x\"\ndependencies = [\"requests>=2.0\", \"numpy==1.26\"]\n";
    let deps = detect_dependencies(None, None, Some(py));
    assert!(deps.iter().any(|x| x.registry == "pypi" && x.name == "requests"));
    assert!(deps.iter().any(|x| x.name == "numpy"));
}

#[test]
fn parse_pep508_variants() {
    assert_eq!(parse_pep508("requests>=2.0").unwrap().0, "requests");
    assert_eq!(parse_pep508("numpy[extra]==1.0").unwrap().0, "numpy");
    assert_eq!(parse_pep508("flask").unwrap(), ("flask".to_owned(), String::new()));
}

#[test]
fn pep508_skips_the_extras_group() {
    assert_eq!(parse_pep508("numpy[extra]==1.0"), Some(("numpy".to_owned(), "==1.0".to_owned())));
    assert_eq!(parse_pep508("requests[socks, security] >=2.0"), Some(("requests".to_owned(), ">=2.0".to_owned())));
    assert_eq!(parse_pep508("requests>=2.0"), Some(("requests".to_owned(), ">=2.0".to_owned())));
    assert_eq!(parse_pep508("pkg[unclosed"), Some(("pkg".to_owned(), String::new())));
    assert_eq!(parse_pep508(">=1.0"), None);
}

#[test]
fn missing_manifests_yield_empty() {
    assert!(detect_dependencies(None, None, None).is_empty());
}

#[test]
fn dependencies_sorted_and_deduplicated() {
    let cargo = "[dependencies]\nzeta = \"1\"\nalpha = \"2\"\n[dev-dependencies]\nalpha = \"2\"\n";
    let npm = r#"{"dependencies":{"react":"19.0.0"}}"#;
    let deps = detect_dependencies(Some(cargo), Some(npm), Some("not [valid toml"));
    let got: Vec<(String, String, Option<String>)> =
        deps.into_iter().map(|d| (d.registry, d.name, d.version)).collect();
    assert_eq!(
        got,
        vec![
            ("cargo".to_owned(), "alpha".to_owned(), Some("2".to_owned())),
            ("cargo".to_owned(), "zeta".to_owned(), Some("1".to_owned())),
            ("npm".to_owned(), "react".to_owned(), Some("19.0.0".to_owned())),
        ]
    );
}

// ───────────────────────────── heading nodes of a document ─────────────────────────────

fn hp(parts: &[&str]) -> Vec<String> {
    parts.iter().map(|p| p.to_string()).collect()
}

#[test]
fn recorded_heading_path_is_found_again() {
    let mut ids = HeadingIds::new();
    assert_eq!(ids.lookup(&hp(&["Guide"])), None);
    ids.record(&hp(&["Guide"]), 7);
    ids.record(&hp(&["Guide", "Install"]), 8);
    assert_eq!(ids.lookup(&hp(&["Guide"])), Some(7));
    assert_eq!(ids.lookup(&hp(&["Guide", "Install"])), Some(8));
    assert_eq!(ids.lookup(&hp(&["Install"])), None);
    ids.record(&hp(&["Guide"]), 9);
    assert_eq!(ids.lookup(&hp(&["Guide"])), Some(9));
    assert_eq!(ids.lookup(&hp(&["Guide", "Install"])), Some(8));
}

#[test]
fn heading_level_falls_back_to_depth() {
    assert_eq!(heading_level_at(&[1, 3], 2), 3);
    assert_eq!(heading_level_at(&[1], 3), 3);
    assert_eq!(heading_level_at(&[], 300), 44);
}

// ───────────────────────────── signature scanning ─────────────────────────────

#[test]
fn only_listed_languages_are_scanned() {
    assert!(supported_lang(&Some("rust".into())));
    assert!(supported_lang(&Some("tsx".into())));
    assert!(!supported_lang(&Some("Rust".into())));
    assert!(!supported_lang(&Some("bash".into())));
    assert!(!supported_lang(&None));
}

#[test]
fn long_signatures_cut_on_the_last_character_boundary() {
    let line = format!("pub fn {}é{}", "a".repeat(56), "b".repeat(10));
    let sig = extract_signature_from_line(&line).unwrap();
    assert_eq!(sig, format!("{}…", "a".repeat(56)));
    assert!(sig.chars().count() <= 60);
    let wide = format!("pub fn {}", "é".repeat(40));
    let sig = extract_signature_from_line(&wide).unwrap();
    assert_eq!(sig, format!("{}…", "é".repeat(28)));
    assert!(sig.len() <= 60);
    let v = signatures_in(&format!("pub fn a() {{}}\n{}", wide), &"S".to_string());
    assert_eq!(v.len(), 2);
    assert_eq!(v[1].signature, format!("{}…", "é".repeat(28)));
}
