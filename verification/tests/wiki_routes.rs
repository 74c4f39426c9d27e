use aenyrathia::http::HttpStatus;
use aenyrathia::routes::auth::CurrentUser;
use aenyrathia::routes::wiki::{
    article_page, article_post_status, encode_query_value, encode_url_path, escape_html,
    first_heading, page_title, plan_article, plan_article_post, toggle_edit_mode, ArticlePage,
    CsrfForm, EditForm,
};

fn user() -> CurrentUser {
    CurrentUser {
        full_name: "Alice Smith".to_string(),
        email: "alice@example.com".to_string(),
        csrf_token: "tok".to_string(),
    }
}

#[test]
fn encoding_keeps_unreserved_bytes() {
    assert_eq!(encode_url_path("lore/places-1_2.x~y"), "lore/places-1_2.x~y");
    assert_eq!(encode_url_path("a b/ü"), "a%20b/%C3%BC");
    assert_eq!(encode_query_value("/a b?c=d&e"), "/a%20b%3Fc%3Dd%26e");
    assert_eq!(encode_query_value(""), "");
}

#[test]
fn escape_html_replaces_special_characters() {
    assert_eq!(escape_html("<a href=\"x\">Tom & Jerry's</a>"), "&lt;a href=&quot;x&quot;&gt;Tom &amp; Jerry&#39;s&lt;/a&gt;");
    assert_eq!(escape_html("plain"), "plain");
    assert_eq!(escape_html("&amp;"), "&amp;amp;");
}

#[test]
fn first_heading_finds_level_one_headings() {
    assert_eq!(first_heading("intro\n   #  The Title  \n# Later"), Some("The Title".to_string()));
    assert_eq!(first_heading("#NoSpace\n# \n## Sub\n# Real\r\n"), Some("Real".to_string()));
    assert_eq!(first_heading("no heading\n## only level two"), None);
    assert_eq!(first_heading(""), None);
}

#[test]
fn page_titles() {
    assert_eq!(page_title("Home", "# Ignored"), "Aenyrathia");
    assert_eq!(page_title("lore/places", "text\n# Places of Note"), "Aenyrathia - Places of Note");
    assert_eq!(page_title("lore/places", "no heading"), "Aenyrathia - places");
    assert_eq!(page_title("single", ""), "Aenyrathia - single");
}

#[test]
fn plan_for_a_signed_in_editor() {
    let u = user();
    let cookie = "true".to_string();
    let plan = plan_article(Some("lore/a b".to_string()), Some(&u), Some(&cookie)).ok().unwrap();
    assert_eq!(plan.slug, "lore/a b");
    assert_eq!(plan.relative_path, "wiki/lore/a b.md");
    assert_eq!(plan.current_path, "/lore/a%20b");
    assert_eq!(plan.current_path_query, "/lore/a%2520b");
    assert!(plan.edit_mode);
    assert_eq!(plan.branch, "user/alice-example-com");
}

#[test]
fn plan_for_a_visitor() {
    let cookie = "true".to_string();
    let plan = plan_article(None, None, Some(&cookie)).ok().unwrap();
    assert_eq!(plan.slug, "Home");
    assert_eq!(plan.relative_path, "wiki/Home.md");
    assert_eq!(plan.current_path, "/");
    assert_eq!(plan.current_path_query, "/");
    assert!(!plan.edit_mode);
    assert_eq!(plan.branch, "prime");
}

#[test]
fn plan_without_edit_cookie_reads_prime() {
    let u = user();
    let cookie = "yes".to_string();
    let plan = plan_article(Some("x".to_string()), Some(&u), Some(&cookie)).ok().unwrap();
    assert!(!plan.edit_mode);
    assert_eq!(plan.branch, "prime");
}

#[test]
fn plan_refuses_invalid_paths() {
    assert_eq!(plan_article(Some("../etc".to_string()), None, None).err(), Some(HttpStatus::BadRequest));
    assert_eq!(plan_article(Some("a//b".to_string()), None, None).err(), Some(HttpStatus::BadRequest));
}

#[test]
fn missing_page_is_not_found_outside_edit_mode() {
    let plan = plan_article(Some("gone".to_string()), None, None).ok().unwrap();
    let paths = vec!["alpha.md".to_string()];
    match article_page(&plan, None, &paths) {
        ArticlePage::NotFound { file_tree_html } => assert_eq!(
            file_tree_html,
            "<ul class=\"file-tree\"><li class=\"file-tree__item\"><a href=\"/alpha\" class=\"file-tree__link\">alpha</a></li></ul>"
        ),
        ArticlePage::Found { .. } => panic!("expected a missing page"),
    }
}

#[test]
fn missing_page_is_empty_in_edit_mode() {
    let u = user();
    let cookie = "true".to_string();
    let plan = plan_article(Some("new/page".to_string()), Some(&u), Some(&cookie)).ok().unwrap();
    match article_page(&plan, None, &Vec::new()) {
        ArticlePage::Found { raw_file_content, page_title, file_tree_html } => {
            assert_eq!(raw_file_content, "");
            assert_eq!(page_title, "Aenyrathia - page");
            assert_eq!(file_tree_html, "<ul class=\"file-tree\"></ul>");
        }
        ArticlePage::NotFound { .. } => panic!("expected an empty page"),
    }
}

#[test]
fn existing_page_is_shown_with_its_title() {
    let plan = plan_article(Some("alpha".to_string()), None, None).ok().unwrap();
    let paths = vec!["alpha.md".to_string()];
    match article_page(&plan, Some("# Alpha Page\nbody".to_string()), &paths) {
        ArticlePage::Found { raw_file_content, page_title, file_tree_html } => {
            assert_eq!(raw_file_content, "# Alpha Page\nbody");
            assert_eq!(page_title, "Aenyrathia - Alpha Page");
            assert_eq!(
                file_tree_html,
                "<ul class=\"file-tree\"><li class=\"file-tree__item\"><a href=\"/alpha\" class=\"file-tree__link active\">alpha</a></li></ul>"
            );
        }
        ArticlePage::NotFound { .. } => panic!("expected the page"),
    }
}

#[test]
fn toggle_edit_mode_flips_the_cookie() {
    let u = user();
    let csrf = "tok".to_string();
    let form = CsrfForm { csrf_token: "tok".to_string() };
    let on = "true".to_string();
    let (cookie, target) = toggle_edit_mode(Some(&csrf), &form, Some(&u), Some(&on), Some("/lore".to_string())).ok().unwrap();
    assert_eq!((cookie.name.as_str(), cookie.value.as_str(), cookie.path.as_deref()), ("edit_mode", "false", Some("/")));
    assert_eq!(target, "/lore");
    let (cookie, target) = toggle_edit_mode(Some(&csrf), &form, Some(&u), None, Some("//evil".to_string())).ok().unwrap();
    assert_eq!(cookie.value, "true");
    assert_eq!(target, "/");
}

#[test]
fn toggle_edit_mode_refusals() {
    let u = user();
    let csrf = "tok".to_string();
    let other = "other".to_string();
    let form = CsrfForm { csrf_token: "tok".to_string() };
    assert_eq!(toggle_edit_mode(Some(&other), &form, Some(&u), None, None).err(), Some(HttpStatus::Forbidden));
    assert_eq!(toggle_edit_mode(None, &form, Some(&u), None, None).err(), Some(HttpStatus::Forbidden));
    assert_eq!(toggle_edit_mode(Some(&csrf), &form, None, None, None).err(), Some(HttpStatus::Unauthorized));
    let stranger = CurrentUser { csrf_token: "mine".to_string(), ..user() };
    assert_eq!(toggle_edit_mode(Some(&csrf), &form, Some(&stranger), None, None).err(), Some(HttpStatus::Forbidden));
}

#[test]
fn saving_an_article() {
    let u = user();
    let csrf = "tok".to_string();
    let form = EditForm { markdown: "a\r\nb\r".to_string(), csrf_token: Some("tok".to_string()) };
    let w = plan_article_post(Some("lore/places".to_string()), Some(&u), Some(&csrf), &form).ok().unwrap();
    assert_eq!(w.relative_path, "wiki/lore/places.md");
    assert_eq!(w.branch, "user/alice-example-com");
    assert_eq!(w.content, "a\nb\n");
    assert_eq!(w.author.name, "Alice Smith");
    assert_eq!(w.author.email, "alice@example.com");
    let home = plan_article_post(None, Some(&u), Some(&csrf), &form).ok().unwrap();
    assert_eq!(home.relative_path, "wiki/Home.md");
}

#[test]
fn saving_an_article_refusals() {
    let u = user();
    let csrf = "tok".to_string();
    let good = EditForm { markdown: String::new(), csrf_token: Some("tok".to_string()) };
    let no_token = EditForm { markdown: String::new(), csrf_token: None };
    let wrong = EditForm { markdown: String::new(), csrf_token: Some("nope".to_string()) };
    let path = || Some("x".to_string());
    assert_eq!(plan_article_post(path(), None, Some(&csrf), &good).err(), Some(HttpStatus::Unauthorized));
    assert_eq!(plan_article_post(path(), Some(&u), Some(&csrf), &no_token).err(), Some(HttpStatus::Forbidden));
    assert_eq!(plan_article_post(path(), Some(&u), Some(&csrf), &wrong).err(), Some(HttpStatus::Forbidden));
    assert_eq!(plan_article_post(path(), Some(&u), None, &good).err(), Some(HttpStatus::Forbidden));
    assert_eq!(plan_article_post(Some("/abs".to_string()), Some(&u), Some(&csrf), &good).err(), Some(HttpStatus::BadRequest));
}

#[test]
fn save_status() {
    assert_eq!(article_post_status(true), HttpStatus::NoContent);
    assert_eq!(article_post_status(false), HttpStatus::InternalServerError);
    assert_eq!(article_post_status(true).code(), 204);
    assert_eq!(article_post_status(false).code(), 500);
}

#[test]
fn escaping_replaces_back() {
    for s in ["<a href=\"x\">Tom & Jerry's</a>", "&amp;&lt;", "plain", ""] {
        let r = escape_html(s);
        let back = r
            .replace("&lt;", "<")
            .replace("&gt;", ">")
            .replace("&quot;", "\"")
            .replace("&#39;", "'")
            .replace("&amp;", "&");
        assert_eq!(back, s);
        for (k, c) in r.char_indices() {
            if c == '&' {
                let tail = &r[k..];
                assert!(["&amp;", "&lt;", "&gt;", "&quot;", "&#39;"].iter().any(|e| tail.starts_with(e)));
            }
        }
    }
}

#[test]
fn encoding_is_identity_without_escapes() {
    assert_eq!(encode_query_value("lore/places-1_2.x~y"), "lore/places-1_2.x~y");
    assert_eq!(encode_query_value("/a b&é"), "/a%20b%26%C3%A9");
    assert_ne!(encode_query_value("a b"), "a b");
}
