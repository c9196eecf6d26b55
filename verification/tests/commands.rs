use lore::commands::{
    check_query_len, declared_in, pick_package_name, looks_like_git_url, package_db_file, select_for_update, self_check_query,
    self_check_sample, split_words, update_row, update_source_description, updates_verdict, version_matches,
    UpdateStatus,
};
use lore::discovery::{is_doc_file, skip_dir};
use lore::error::LoreError;
use lore::package::Package;
use lore::stack::Dependency;

fn package(name: &str, registry: &str, source_url: Option<&str>) -> Package {
    Package {
        name: name.into(),
        registry: registry.into(),
        version: "1.0.0".into(),
        description: None,
        source_url: source_url.map(str::to_owned),
        git_sha: None,
    }
}

// ───────────────────────────── updates ─────────────────────────────

#[test]
fn git_urls_are_recognised() {
    for url in [
        "https://github.com/tokio-rs/tokio",
        "https://gitlab.com/a/b",
        "https://example.com/repo.git",
        "git://example.com/repo",
        "git@example.com:me/repo",
        "https://bitbucket.org/a/b",
    ] {
        assert!(looks_like_git_url(url), "{url}");
    }
    for url in [
        "https://tokio.rs",
        "https://docs.rs/tokio/latest",
        "https://example.com/git",
        "https://example.com/docs/usr.html",
        "https://example.com/github.com-mirror",
    ] {
        assert!(!looks_like_git_url(url), "{url}");
    }
}

#[test]
fn update_source_is_described_by_kind() {
    assert_eq!(
        update_source_description(&package("tokio", "cargo", Some("https://github.com/tokio-rs/tokio"))),
        "git https://github.com/tokio-rs/tokio"
    );
    assert_eq!(update_source_description(&package("tokio", "cargo", Some("https://tokio.rs"))), "website https://tokio.rs");
    assert_eq!(update_source_description(&package("tokio", "cargo", None)), "no remote source");
}

#[test]
fn update_selects_by_key_or_name() {
    let installed = vec![
        ("npm-next@15.0.0".to_string(), package("next", "npm", None)),
        ("cargo-tokio@1.0.0".to_string(), package("tokio", "cargo", None)),
    ];
    assert_eq!(select_for_update(&installed, &vec![]), vec![0, 1]);
    assert_eq!(select_for_update(&installed, &vec!["tokio".to_string()]), vec![1]);
    assert_eq!(select_for_update(&installed, &vec!["npm-next@15.0.0".to_string()]), vec![0]);
    assert_eq!(select_for_update(&installed, &vec!["tokio".to_string(), "next".to_string()]), vec![0, 1]);
    assert_eq!(select_for_update(&installed, &vec!["serde".to_string()]), Vec::<usize>::new());
}

#[test]
fn database_file_is_key_dot_db() {
    assert_eq!(package_db_file("npm-next@15.0.0"), Ok("npm-next@15.0.0.db".to_string()));
    assert_eq!(
        package_db_file("../etc/passwd"),
        Err(LoreError::InvalidConfig("package key '../etc/passwd' contains a '..' sequence".into()))
    );
    assert_eq!(
        package_db_file("a/b"),
        Err(LoreError::InvalidConfig("package key 'a/b' contains an illegal character '/'".into()))
    );
    assert_eq!(package_db_file(""), Err(LoreError::InvalidConfig("package key is empty".into())));
}

// ───────────────────────────── retrieval self-check ─────────────────────────────

#[test]
fn words_split_at_whitespace() {
    let words: Vec<String> = split_words("  spawn\ta  task\n").iter().map(|w| w.iter().collect()).collect();
    assert_eq!(words, vec!["spawn", "a", "task"]);
    assert!(split_words(" \n ").is_empty());
}

#[test]
fn self_check_query_is_first_ten_words() {
    assert_eq!(
        self_check_query("one two  three\nfour five six seven eight nine ten eleven twelve"),
        "one two three four five six seven eight nine ten"
    );
    assert_eq!(self_check_query("just three words"), "just three words");
}

#[test]
fn self_check_samples_chunks_with_four_words() {
    let contents = vec![
        Some("one two three four".to_string()),
        Some("too short".to_string()),
        None,
        Some("five six seven eight nine".to_string()),
    ];
    assert_eq!(self_check_sample(&contents), vec![0, 3]);
}

#[test]
fn self_check_sample_steps_through_long_documents() {
    let contents: Vec<Option<String>> = (0..100).map(|_| Some("a b c d".to_string())).collect();
    let expected: Vec<usize> = (0..40).map(|i| i * 2).collect();
    assert_eq!(self_check_sample(&contents), expected);
}

// ───────────────────────────── MCP tool input ─────────────────────────────

#[test]
fn query_length_is_limited_in_bytes() {
    assert_eq!(check_query_len("spawn a task"), Ok(()));
    assert_eq!(check_query_len(&"x".repeat(4096)), Ok(()));
    assert_eq!(check_query_len(&"x".repeat(4097)), Err("query too long (4097 bytes; max 4096)".to_string()));
    assert_eq!(check_query_len(&"é".repeat(2049)), Err("query too long (4098 bytes; max 4096)".to_string()));
}

#[test]
fn declared_versions_match_loosely() {
    assert!(version_matches("1.44", "1.44.2"));
    assert!(version_matches("^1.44", "1.44.2"));
    assert!(version_matches(">= 1.0", "1.0.5"));
    assert!(version_matches("1.44.2", "1.44.2"));
    assert!(version_matches("*", "0.1.0"));
    assert!(version_matches("^", "0.1.0"));
    assert!(!version_matches("1.4", "1.44.2"));
    assert!(!version_matches("2", "1.0.0"));
}

#[test]
fn declared_packages_match_registry_and_name() {
    let deps = vec![Dependency { registry: "cargo".into(), name: "tokio".into(), version: Some("1".into()) }];
    assert!(declared_in(&deps, "cargo", "tokio"));
    assert!(!declared_in(&deps, "npm", "tokio"));
    assert!(!declared_in(&deps, "cargo", "serde"));
}

// ───────────────────────────── discovery rules ─────────────────────────────

#[test]
fn build_and_dependency_directories_are_skipped() {
    assert!(skip_dir("node_modules", false));
    assert!(skip_dir(".git", false));
    assert!(skip_dir("target", false));
    assert!(!skip_dir("docs", false));
    assert!(!skip_dir("examples", false));
    assert!(skip_dir("examples", true));
    assert!(skip_dir("tests", true));
    assert!(!skip_dir("Examples", true));
}

#[test]
fn documentation_files_are_chosen_by_extension_and_stem() {
    assert!(is_doc_file("md", "README"));
    assert!(is_doc_file("adoc", "guide"));
    assert!(is_doc_file("rst", "index"));
    assert!(!is_doc_file("txt", "notes"));
    assert!(!is_doc_file("MD", "README"));
    assert!(!is_doc_file("md", "CHANGELOG"));
    assert!(!is_doc_file("md", "changelog"));
    assert!(!is_doc_file("html", "License"));
    assert!(!is_doc_file("", "Makefile"));
}

// ───────────────────────────── error messages ─────────────────────────────

#[test]
fn error_messages_name_their_kind() {
    assert_eq!(LoreError::Parse("bad heading".into()).message(), "parse error: bad heading");
    assert_eq!(LoreError::ConnectionClosed.message(), "database connection closed unexpectedly");
    assert_eq!(LoreError::Io("disk full".into()).message(), "I/O error: disk full");
    assert_eq!(LoreError::InvalidConfig("x".into()).message(), "invalid configuration: x");
    assert_eq!(LoreError::NotFound("y".into()).message(), "not found: y");
}

#[test]
fn update_rows_compare_installed_with_latest() {
    assert_eq!(update_row("1.2.0", &Ok(Some("1.2.0".into()))), ("1.2.0".to_string(), UpdateStatus::UpToDate));
    assert_eq!(update_row("1.2.0", &Ok(Some("1.3.0".into()))), ("1.3.0".to_string(), UpdateStatus::Stale));
    assert_eq!(update_row("1.2.0", &Ok(None)), ("—".to_string(), UpdateStatus::Unsupported));
    assert_eq!(update_row("1.2.0", &Err("timeout".into())), ("?".to_string(), UpdateStatus::Failed));
}

#[test]
fn stale_packages_fail_the_update_check() {
    let (up, stale) = (UpdateStatus::UpToDate, UpdateStatus::Stale);
    assert!(matches!(updates_verdict(&vec![up, up]), Ok(0)));
    assert!(matches!(updates_verdict(&vec![up, UpdateStatus::Unsupported, UpdateStatus::Failed]), Ok(2)));
    assert!(matches!(updates_verdict(&vec![]), Ok(0)));
    match updates_verdict(&vec![stale, UpdateStatus::Failed, stale, up]) {
        Err(LoreError::Registry(m)) => assert_eq!(m, "2 package(s) out of date"),
        _ => panic!("two stale packages must fail the check"),
    }
}

#[test]
fn package_name_falls_back_from_name_to_crate_to_json_stem() {
    let some = |s: &str| Some(s.to_string());
    assert_eq!(pick_package_name(&some("n"), &some("c"), &some("j")).ok(), some("n"));
    assert_eq!(pick_package_name(&None, &some("c"), &some("j")).ok(), some("c"));
    assert_eq!(pick_package_name(&None, &None, &some("j")).ok(), some("j"));
    match pick_package_name(&None, &None, &None) {
        Err(LoreError::InvalidConfig(m)) => assert_eq!(m, "provide --name, --crate, or --json"),
        _ => panic!("no name source must be a configuration error"),
    }
}
