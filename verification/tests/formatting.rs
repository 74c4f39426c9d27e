use aenyrathia::formatting::{
    normalise_newlines, resolve_article_path, resolve_article_slug, resolve_branch_name,
    validate_wiki_slug, InvalidWikiPath, HOME_PAGE,
};

#[test]
fn normalise_newlines_replaces_crlf_and_cr() {
    assert_eq!(normalise_newlines("a\r\nb\rc\n"), "a\nb\nc\n");
    assert_eq!(normalise_newlines("\r\r\n"), "\n\n");
    assert_eq!(normalise_newlines(""), "");
    assert_eq!(normalise_newlines("plain"), "plain");
}

#[test]
fn normalise_newlines_is_idempotent() {
    let once = normalise_newlines("x\r\n\r\ry");
    assert_eq!(once, "x\n\n\ny");
    assert_eq!(normalise_newlines(&once), once);
}

#[test]
fn slug_defaults_to_home() {
    assert_eq!(resolve_article_slug(None), Ok(HOME_PAGE.to_string()));
    assert_eq!(resolve_article_slug(Some(String::new())), Ok("Home".to_string()));
}

#[test]
fn slug_accepts_nested_paths() {
    assert_eq!(resolve_article_slug(Some("lore/places".to_string())), Ok("lore/places".to_string()));
    assert_eq!(validate_wiki_slug("a.b/c..d"), Ok(()));
}

#[test]
fn slug_rejects_bad_paths() {
    for bad in ["/abs", "trailing/", "a//b", "a/./b", "../x", "a/..", ".", "back\\slash", "nul\0", "tab\there", "bell\u{7}", "c1\u{85}x"] {
        assert_eq!(resolve_article_slug(Some(bad.to_string())), Err(InvalidWikiPath), "{bad:?}");
    }
}

#[test]
fn article_path_wraps_slug() {
    assert_eq!(resolve_article_path(None), Ok("wiki/Home.md".to_string()));
    assert_eq!(resolve_article_path(Some("lore/places".to_string())), Ok("wiki/lore/places.md".to_string()));
    assert_eq!(resolve_article_path(Some("a//b".to_string())), Err(InvalidWikiPath));
}

#[test]
fn branch_name_defaults_to_prime() {
    let email = "Alice@Example.com".to_string();
    assert_eq!(resolve_branch_name(None, Some(&email)), "prime");
    assert_eq!(resolve_branch_name(Some(false), Some(&email)), "prime");
    assert_eq!(resolve_branch_name(Some(true), None), "prime");
}

#[test]
fn branch_name_sanitises_email() {
    let email = "  Alice.Smith+wiki@Example.com ".to_string();
    assert_eq!(resolve_branch_name(Some(true), Some(&email)), "user/alice-smith-wiki-example-com");
    let dashes = "--a__b--".to_string();
    assert_eq!(resolve_branch_name(Some(true), Some(&dashes)), "user/a-b");
    let accented = "Zoë@x".to_string();
    assert_eq!(resolve_branch_name(Some(true), Some(&accented)), "user/zo-x");
}

#[test]
fn branch_name_falls_back_when_nothing_is_left() {
    let symbols = " @@ ".to_string();
    assert_eq!(resolve_branch_name(Some(true), Some(&symbols)), "prime");
    let empty = String::new();
    assert_eq!(resolve_branch_name(Some(true), Some(&empty)), "prime");
}

#[test]
fn branch_name_uses_unicode_lowercase() {
    // The Kelvin sign lowercases to an ASCII `k`.
    let kelvin = "\u{212A}ey".to_string();
    assert_eq!(resolve_branch_name(Some(true), Some(&kelvin)), "user/key");
}
