use lore::commands::search_preview;
use lore::search::{apply_budget, sanitize_fts_query};

// ───────────────────────────── FTS5 query ─────────────────────────────

#[test]
fn sanitize_strips_special_chars() {
    assert_eq!(sanitize_fts_query("hello, world!"), "\"hello\" \"world\"");
}

#[test]
fn sanitize_drops_short_tokens() {
    assert_eq!(sanitize_fts_query("a b cd efg"), "\"cd\" \"efg\"");
}

#[test]
fn sanitize_quotes_hyphenated_and_apostrophe_tokens() {
    // Each token is wrapped as a quoted FTS5 phrase so `-` / `'` never hit
    // FTS5 operator parsing.
    assert_eq!(sanitize_fts_query("don't use async-std"), "\"don't\" \"use\" \"async-std\"");
}

#[test]
fn sanitize_quotes_fts5_operators_as_literals() {
    // Uppercase AND/OR/NOT and parens must not reach FTS5 as operators.
    assert_eq!(sanitize_fts_query("OR NOT working"), "\"OR\" \"NOT\" \"working\"");
}

#[test]
fn sanitize_empty_returns_empty() {
    assert_eq!(sanitize_fts_query(""), "");
}

#[test]
fn sanitize_all_specials_returns_empty() {
    assert_eq!(sanitize_fts_query("!@#$%^&*()"), "");
}

#[test]
fn sanitize_cjk_characters_are_preserved() {
    // CJK chars are alphanumeric, so they pass through the sanitizer (each
    // token quoted).
    assert_eq!(sanitize_fts_query("日本語 検索"), "\"日本語\" \"検索\"");
}

#[test]
fn sanitize_very_long_query_does_not_panic() {
    let long = "word ".repeat(500);
    let result = sanitize_fts_query(long.trim());
    assert!(!result.is_empty(), "long query should produce tokens");
}

#[test]
fn sanitize_single_char_tokens_are_dropped() {
    // Tokens shorter than 2 chars are filtered out.
    assert_eq!(sanitize_fts_query("a b c hello"), "\"hello\"");
}

#[test]
fn sanitize_mixed_unicode_and_ascii() {
    // Emoji are not alphanumeric — they act as separators.
    let result = sanitize_fts_query("hello 🚀 世界");
    assert!(result.contains("hello"), "ascii word must survive");
    assert!(result.contains("世界"), "CJK word must survive");
    assert!(!result.contains('🚀'), "emoji must be stripped");
}

#[test]
fn sanitize_separates_on_punctuation_inside_words() {
    assert_eq!(sanitize_fts_query("foo.bar(baz)"), "\"foo\" \"bar\" \"baz\"");
}

// ───────────────────────────── token budget ─────────────────────────────

#[test]
fn budget_limits_results() {
    assert_eq!(apply_budget(&vec![100, 100, 100], 250), 2);
}

#[test]
fn budget_includes_at_least_one_even_if_oversized() {
    assert_eq!(apply_budget(&vec![5000, 100], 100), 1);
}

#[test]
fn budget_allows_all_when_under_limit() {
    assert_eq!(apply_budget(&vec![50, 50, 50], 200), 3);
}

#[test]
fn empty_input_returns_empty() {
    assert_eq!(apply_budget(&vec![], 1000), 0);
}

#[test]
fn budget_stops_at_first_overflow() {
    // A later small result does not get in once one has been cut.
    assert_eq!(apply_budget(&vec![100, 200, 10], 150), 1);
    assert_eq!(apply_budget(&vec![100, 50, 10], 150), 2);
    assert_eq!(apply_budget(&vec![100, 50, 10], 160), 3);
    assert_eq!(apply_budget(&vec![7], 0), 1);
}

// ───────────────────────────── result preview ─────────────────────────────

#[test]
fn short_content_is_shown_whole() {
    assert_eq!(search_preview("fn main() {}"), "fn main() {}");
    let exactly = "x".repeat(200);
    assert_eq!(search_preview(&exactly), exactly);
}

#[test]
fn long_content_is_cut_to_200_bytes() {
    let long = "y".repeat(250);
    assert_eq!(search_preview(&long), format!("{}…", "y".repeat(200)));
}

#[test]
fn preview_cut_falls_on_a_character_boundary() {
    // 1 + 2 * 100 bytes: the 101st character would end at byte 201.
    let text = format!("a{}", "é".repeat(100));
    assert_eq!(search_preview(&text), format!("a{}…", "é".repeat(99)));
}

#[test]
fn sanitize_counts_token_length_in_characters() {
    // One character, two bytes: shorter than two characters, so dropped.
    assert_eq!(sanitize_fts_query("é"), "");
    assert_eq!(sanitize_fts_query("é x déjà"), "\"déjà\"");
    assert_eq!(sanitize_fts_query("éé"), "\"éé\"");
}
