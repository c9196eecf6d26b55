use lore::error::LoreError;
use lore::text::truncate;
use lore::node::{ancestor_ids_from_path, child_path, heading_titles_in_order, parse_id, placeholders_for, NodeKind};
use lore::package::{package_from_meta, package_meta_entries, validate_package_key, Package};
use lore::package_spec::{
    validate_crate_token, validate_source_url, validate_subdir, BuildOptions, PackageSpec, SourceSpec,
};

// ───────────────────────────── package keys ─────────────────────────────

#[test]
fn accepts_canonical_keys() {
    for key in [
        "npm-next@15.0.0",
        "cargo-tokio@1.44.2",
        "pypi-pandas@2.2.3",
        "local-my_lib@0.1.0",
        "swift-swiftui@6.0",
    ] {
        assert!(validate_package_key(key).is_ok(), "{key} should be valid");
    }
}

#[test]
fn rejects_path_traversal() {
    for key in ["../ESCAPED@1.0", "..", "a/../../b", "foo/bar", "foo\\bar", ""] {
        assert!(validate_package_key(key).is_err(), "{key:?} must be rejected");
    }
}

#[test]
fn rejects_nul_and_control() {
    assert!(validate_package_key("foo\0bar").is_err());
    assert!(validate_package_key("foo\nbar").is_err());
}

#[test]
fn package_validate_catches_component_traversal() {
    let malicious = Package {
        name: "evil".into(),
        registry: "../../../etc/cron.d/x".into(),
        version: "1".into(),
        description: None,
        source_url: None,
        git_sha: None,
    };
    assert!(malicious.validate().is_err());
}

#[test]
fn package_key_errors_are_invalid_config() {
    assert!(matches!(validate_package_key(""), Err(LoreError::InvalidConfig(_))));
    assert!(matches!(validate_package_key("a b"), Err(LoreError::InvalidConfig(_))));
}

#[test]
fn display_key_joins_registry_name_and_version() {
    let p = Package {
        name: "next".into(),
        registry: "npm".into(),
        version: "15.0.0".into(),
        description: None,
        source_url: None,
        git_sha: None,
    };
    assert_eq!(p.display_key(), "npm-next@15.0.0");
    assert!(p.validate().is_ok());
    assert!(validate_package_key(&p.display_key()).is_ok());
}

// ───────────────────────────── node kinds ─────────────────────────────

#[test]
fn test_node_kind_as_str_roundtrip() {
    for kind in [NodeKind::Heading, NodeKind::Chunk, NodeKind::CodeBlock] {
        let s = kind.as_str();
        let parsed = NodeKind::try_from(s).expect("try_from failed");
        assert_eq!(parsed, kind);
    }
}

#[test]
fn test_node_kind_try_from_invalid_returns_error() {
    let result = NodeKind::try_from("unknown_kind");
    assert!(result.is_err());
}

#[test]
fn node_kind_names() {
    assert_eq!(NodeKind::Heading.as_str(), "heading");
    assert_eq!(NodeKind::Chunk.as_str(), "chunk");
    assert_eq!(NodeKind::CodeBlock.as_str(), "code_block");
    assert!(matches!(NodeKind::from_name("Chunk"), Err(LoreError::Schema(_))));
}

// ───────────────────────────── package specs ─────────────────────────────

fn git_spec(url: &str, subdir: Option<&str>) -> PackageSpec {
    PackageSpec {
        name: "next".into(),
        registry: "npm".into(),
        version: "15.0.0".into(),
        description: Some("The React Framework for the Web".into()),
        source_url: Some("https://github.com/vercel/next.js".into()),
        source: SourceSpec::Git {
            url: url.into(),
            branch: Some("v15.0.0".into()),
            subdir: subdir.map(|s| s.to_owned()),
        },
        build: BuildOptions { exclude_examples: true },
    }
}

fn website_spec() -> PackageSpec {
    PackageSpec {
        name: "tokio".into(),
        registry: "cargo".into(),
        version: "1".into(),
        description: None,
        source_url: None,
        source: SourceSpec::Website { url: "https://tokio.rs".into(), max_pages: Some(200) },
        build: BuildOptions::default(),
    }
}

fn rustdoc_spec(crate_name: &str, version: &str, features: &[&str]) -> PackageSpec {
    PackageSpec {
        name: "sqlx".into(),
        registry: "cargo".into(),
        version: "0.8.6".into(),
        description: None,
        source_url: None,
        source: SourceSpec::Rustdoc {
            crate_name: crate_name.into(),
            version: version.into(),
            features: features.iter().map(|f| (*f).to_owned()).collect(),
        },
        build: BuildOptions::default(),
    }
}

#[test]
fn parse_and_validate_rustdoc_spec() {
    let spec = rustdoc_spec("sqlx", "0.8.6", &["runtime-tokio", "tls-rustls", "sqlite"]);
    assert!(matches!(
        spec.source,
        SourceSpec::Rustdoc { ref crate_name, ref version, .. }
            if crate_name == "sqlx" && version == "0.8.6"
    ));
    assert!(spec.validate().is_ok());
}

#[test]
fn rejects_rustdoc_arg_injection() {
    let spec = rustdoc_spec("--evil flag", "1.0.0", &[]);
    assert!(spec.validate().is_err());
}

#[test]
fn valid_specs_pass_validation() {
    for spec in [git_spec("https://github.com/vercel/next.js", Some("docs")), website_spec()] {
        assert!(spec.validate().is_ok());
    }
}

#[test]
fn rejects_subdir_traversal() {
    let spec = git_spec("https://github.com/x/y", Some("../../../etc"));
    assert!(spec.validate().is_err());
}

#[test]
fn rejects_option_like_url() {
    let spec = git_spec("--upload-pack=touch /tmp/pwned", None);
    assert!(spec.validate().is_err());
}

#[test]
fn crate_token_error_names_field_and_token() {
    match validate_crate_token("a b", "crate") {
        Err(LoreError::InvalidConfig(m)) => {
            assert_eq!(m, "crate 'a b' must be non-empty and match [A-Za-z0-9._+-]")
        }
        other => panic!("unexpected {other:?}"),
    }
    assert!(validate_crate_token("tokio-util_1.0+x", "crate").is_ok());
    assert!(validate_crate_token("", "version").is_err());
}

#[test]
fn rustdoc_feature_is_checked() {
    let spec = rustdoc_spec("sqlx", "0.8.6", &["ok", "bad;rm"]);
    assert!(spec.validate().is_err());
}

#[test]
fn subdir_checks() {
    assert!(validate_subdir("docs/guide").is_ok());
    assert!(validate_subdir("/etc").is_err());
    assert!(validate_subdir("a/../b").is_err());
}

#[test]
fn source_url_checks() {
    assert!(validate_source_url("https://github.com/x/y").is_ok());
    assert!(validate_source_url("git@github.com:x/y.git").is_ok());
    assert!(validate_source_url("-x").is_err());
    assert!(validate_source_url("ftp://example.com/x").is_err());
}

#[test]
fn spec_to_package_copies_identity() {
    let spec = git_spec("https://github.com/vercel/next.js", Some("docs"));
    let p = spec.to_package();
    assert_eq!(p.name, "next");
    assert_eq!(p.registry, "npm");
    assert_eq!(p.version, "15.0.0");
    assert_eq!(p.description.as_deref(), Some("The React Framework for the Web"));
    assert_eq!(p.source_url.as_deref(), Some("https://github.com/vercel/next.js"));
    assert!(p.git_sha.is_none());
}

// ───────────────────────────── materialized paths ─────────────────────────────

fn chars(s: &str) -> Vec<char> {
    s.chars().collect()
}

#[test]
fn ancestor_ids_leave_out_the_node_itself() {
    assert_eq!(ancestor_ids_from_path("1/4/9/23", 23), vec![1, 4, 9]);
}

#[test]
fn root_path_has_no_ancestors() {
    assert_eq!(ancestor_ids_from_path("7", 7), Vec::<i64>::new());
}

#[test]
fn ancestor_ids_skip_pieces_that_are_not_integers() {
    assert_eq!(ancestor_ids_from_path("1//x/-3/+5/", 99), vec![1, -3, 5]);
    assert_eq!(ancestor_ids_from_path("", 1), Vec::<i64>::new());
}

#[test]
fn parse_id_follows_str_parse() {
    for s in ["0", "42", "-17", "+8", "007", "9223372036854775807", "-9223372036854775808"] {
        assert_eq!(parse_id(&chars(s)), s.parse::<i64>().ok(), "{s}");
    }
    for s in ["", "+", "-", "1a", " 1", "9223372036854775808", "-9223372036854775809", "99999999999999999999999"] {
        assert_eq!(parse_id(&chars(s)), None, "{s}");
    }
}

#[test]
fn placeholders_number_each_parameter() {
    assert_eq!(placeholders_for(&[]), "");
    assert_eq!(placeholders_for(&[5]), "?1");
    assert_eq!(placeholders_for(&[5, 6, 7, 8, 9, 10, 11, 12, 13, 14, 15]), "?1, ?2, ?3, ?4, ?5, ?6, ?7, ?8, ?9, ?10, ?11");
}

#[test]
fn child_path_extends_the_parent_path() {
    assert_eq!(child_path(None, 5), "5");
    assert_eq!(child_path(Some("1/4"), 9), "1/4/9");
    assert_eq!(child_path(Some("3"), -12), "3/-12");
    assert_eq!(child_path(None, i64::MIN), i64::MIN.to_string());
    assert_eq!(child_path(None, i64::MAX), i64::MAX.to_string());
}

#[test]
fn stored_paths_give_back_their_ancestors() {
    let root = child_path(None, 1);
    let l2 = child_path(Some(&root), 40);
    let l3 = child_path(Some(&l2), 977);
    let leaf = child_path(Some(&l3), 1000);
    assert_eq!(leaf, "1/40/977/1000");
    assert_eq!(ancestor_ids_from_path(&leaf, 1000), vec![1, 40, 977]);
    assert_eq!(ancestor_ids_from_path(&root, 1), Vec::<i64>::new());
}

#[test]
fn heading_path_follows_ancestor_order() {
    // Rows come back ordered by id; the path follows the ancestors, root
    // first, and skips ancestors that are not headings or have no title.
    let rows = vec![(2, Some("Install".to_string())), (5, None), (9, Some("Guide".to_string()))];
    assert_eq!(heading_titles_in_order(&[9, 4, 2, 5], &rows), vec!["Guide".to_string(), "Install".to_string()]);
    assert_eq!(heading_titles_in_order(&[], &rows), Vec::<String>::new());
}

// ───────────────────────────── stored metadata ─────────────────────────────

fn stored(rows: &[(String, String)], key: &str) -> Option<String> {
    rows.iter().rev().find(|(k, _)| k == key).map(|(_, v)| v.clone())
}

#[test]
fn metadata_rows_list_present_fields_in_order() {
    let p = Package {
        name: "next".into(),
        registry: "npm".into(),
        version: "15.0.0".into(),
        description: Some("The React Framework".into()),
        source_url: None,
        git_sha: Some("abc123".into()),
    };
    let rows = package_meta_entries(&p);
    let keys: Vec<&str> = rows.iter().map(|(k, _)| k.as_str()).collect();
    assert_eq!(keys, vec!["name", "registry", "version", "description", "git_sha"]);
    assert_eq!(rows[3].1, "The React Framework");
}

#[test]
fn package_metadata_round_trips_through_the_store() {
    let p = Package {
        name: "tokio".into(),
        registry: "cargo".into(),
        version: "0.1.0".into(),
        description: None,
        source_url: Some("https://github.com/tokio-rs/tokio".into()),
        git_sha: None,
    };
    let rows = package_meta_entries(&p);
    let back = package_from_meta(
        stored(&rows, "name"),
        stored(&rows, "registry"),
        stored(&rows, "version"),
        stored(&rows, "description"),
        stored(&rows, "source_url"),
        stored(&rows, "git_sha"),
    )
    .expect("all required keys are stored");
    assert_eq!(back.name, "tokio");
    assert_eq!(back.registry, "cargo");
    assert_eq!(back.version, "0.1.0");
    assert_eq!(back.description, None);
    assert_eq!(back.source_url.as_deref(), Some("https://github.com/tokio-rs/tokio"));
    assert_eq!(back.git_sha, None);
}

#[test]
fn package_metadata_needs_name_registry_and_version() {
    assert!(package_from_meta(Some("orphan".into()), None, None, None, None, None).is_none());
    assert!(package_from_meta(Some("a".into()), Some("b".into()), None, None, None, None).is_none());
}

#[test]
fn truncate_keeps_at_most_max_characters() {
    assert_eq!(truncate("héllo wörld", 4), "héll");
    assert_eq!(truncate("abc", 10), "abc");
    assert_eq!(truncate("abc", 3), "abc");
    assert_eq!(truncate("abc", 0), "");
    assert_eq!(truncate("", 5), "");
}
