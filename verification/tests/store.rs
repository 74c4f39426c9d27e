use aenyrathia::domain::filetree::{Directory, File, FileTree};
use aenyrathia::domain::markdown::Markdown;
use aenyrathia::filters::render_markdown;
use aenyrathia::git::{branch_refs, commit_message, push_needed, push_refspec, SyncBackoff, MAX_BACKOFF_MS};
use aenyrathia::handlers::{legacy_branch_name, update_page_response, user_branch};
use aenyrathia::serve::{editor_content, edit_post_response, page_file, plan_edit_get, plan_edit_post, wiki_page_url, EditPost};
use aenyrathia::http::{plain_cookie, response_headers, HttpStatus};
use aenyrathia::paths::{join_path, with_extension};
use aenyrathia::settings::{parse_sync_interval, parse_u64_str, resolve_settings};
use aenyrathia::wiki::Wiki;
use aenyrathia::DicePool;

#[test]
fn branch_references() {
    let r = branch_refs(Some("user/alice"));
    assert_eq!(r.branch, "user/alice");
    assert_eq!(r.remote_ref, "refs/remotes/origin/user/alice");
    assert_eq!(r.fallback_ref, "refs/remotes/origin/prime");
    assert_eq!(r.local_ref, "refs/heads/user/alice");
    let p = branch_refs(None);
    assert_eq!(p.branch, "prime");
    assert_eq!(p.remote_ref, "refs/remotes/origin/prime");
    assert_eq!(p.local_ref, "refs/heads/prime");
}

#[test]
fn commit_messages_and_refspecs() {
    assert_eq!(commit_message("wiki/Home.md"), "Update wiki/Home.md");
    assert_eq!(push_refspec("user/a"), "refs/heads/user/a:refs/heads/user/a");
}

#[test]
fn pushing_is_needed_unless_up_to_date() {
    assert!(push_needed(None));
    assert!(push_needed(Some(2)));
    assert!(!push_needed(Some(0)));
}

#[test]
fn sync_backoff_doubles_up_to_the_cap_and_resets() {
    let mut s = SyncBackoff::new(1000);
    let sleeps: Vec<u64> = (0..7).map(|_| s.after_attempt(false)).collect();
    assert_eq!(sleeps, vec![1000, 2000, 4000, 8000, 16000, 30000, 30000]);
    assert_eq!(s.backoff_ms, MAX_BACKOFF_MS);
    assert_eq!(s.after_attempt(true), 1000);
    assert_eq!(s.backoff_ms, 1000);
    assert_eq!(s.after_attempt(false), 1000);
}

#[test]
fn sync_backoff_with_a_long_interval() {
    let mut s = SyncBackoff::new(60000);
    assert_eq!(s.after_attempt(false), 60000);
    assert_eq!(s.after_attempt(false), 30000);
    assert_eq!(s.interval_ms, 60000);
}

#[test]
fn legacy_branches() {
    assert_eq!(user_branch("bob"), "user/bob");
    let bob = "bob".to_string();
    assert_eq!(legacy_branch_name(Some(true), Some(&bob)), "user/bob");
    assert_eq!(legacy_branch_name(Some(false), Some(&bob)), "prime");
    assert_eq!(legacy_branch_name(None, Some(&bob)), "prime");
    assert_eq!(legacy_branch_name(Some(true), None), "prime");
}

#[test]
fn path_joining() {
    assert_eq!(join_path("/repo", "wiki"), "/repo/wiki");
    assert_eq!(join_path("/repo/", "wiki"), "/repo/wiki");
    assert_eq!(join_path("", "wiki"), "wiki");
    assert_eq!(join_path("/repo", "/etc"), "/etc");
}

#[test]
fn extension_replacement() {
    assert_eq!(with_extension("a/b", "md"), "a/b.md");
    assert_eq!(with_extension("a/b.txt", "md"), "a/b.md");
    assert_eq!(with_extension("a/b.tar.gz", "md"), "a/b.tar.md");
    assert_eq!(with_extension("a/.hidden", "md"), "a/.hidden.md");
    assert_eq!(with_extension("a/b/", "md"), "a/b.md");
    assert_eq!(with_extension("a/..", "md"), "a/..");
    assert_eq!(with_extension("/", "md"), "/");
    assert_eq!(with_extension("a/b.txt", ""), "a/b");
}

#[test]
fn legacy_article_paths() {
    let wiki = Wiki { repo_directory: "/tmp/repo".to_string() };
    assert_eq!(wiki.resolve_article_path(""), "/tmp/repo/wiki/index.md");
    assert_eq!(wiki.resolve_article_path("lore/places"), "/tmp/repo/wiki/lore/places.md");
    assert_eq!(wiki.resolve_article_path("notes.txt"), "/tmp/repo/wiki/notes.txt.md");
    assert_eq!(wiki.resolve_article_path("a/v1.2"), "/tmp/repo/wiki/a/v1.2.md");
}

#[test]
fn parse_numbers_like_from_str() {
    assert_eq!(parse_u64_str("0"), Some(0));
    assert_eq!(parse_u64_str("+42"), Some(42));
    assert_eq!(parse_u64_str("18446744073709551615"), Some(u64::MAX));
    assert_eq!(parse_u64_str("18446744073709551616"), None);
    assert_eq!(parse_u64_str(""), None);
    assert_eq!(parse_u64_str("+"), None);
    assert_eq!(parse_u64_str("-1"), None);
    assert_eq!(parse_u64_str(" 1"), None);
    assert_eq!(parse_u64_str("1x"), None);
}

#[test]
fn sync_interval_setting() {
    assert_eq!(parse_sync_interval(None), 1000);
    assert_eq!(parse_sync_interval(Some(&"250".to_string())), 250);
    assert_eq!(parse_sync_interval(Some(&"0".to_string())), 1000);
    assert_eq!(parse_sync_interval(Some(&"soon".to_string())), 1000);
}

#[test]
fn settings_defaults() {
    let s = resolve_settings(None, None, None, None, None, None);
    assert_eq!(s.addr, "0.0.0.0:8080");
    assert_eq!(s.git_remote, "git@github.com:rrvsh/aenyrathia.git");
    assert_eq!(s.git_sync_interval_ms, 1000);
    assert_eq!(s.database_url, "sqlite://data/aenyrathia.sqlite3");
    assert_eq!(s.data_dir_to_create.as_deref(), Some("data"));
}

#[test]
fn settings_from_values() {
    let port = "3000".to_string();
    let host = "127.0.0.1".to_string();
    let remote = "file:///srv/wiki.git".to_string();
    let interval = "5000".to_string();
    let dir = "/var/lib/wiki".to_string();
    let s = resolve_settings(Some(&port), Some(&host), Some(&remote), Some(&interval), None, Some(&dir));
    assert_eq!(s.addr, "127.0.0.1:3000");
    assert_eq!(s.git_remote, "file:///srv/wiki.git");
    assert_eq!(s.git_sync_interval_ms, 5000);
    assert_eq!(s.database_url, "sqlite:///var/lib/wiki/aenyrathia.sqlite3");
    assert_eq!(s.data_dir_to_create.as_deref(), Some("/var/lib/wiki"));
    let url = "sqlite::memory:".to_string();
    let t = resolve_settings(None, None, None, None, Some(&url), Some(&dir));
    assert_eq!(t.database_url, "sqlite::memory:");
    assert!(t.data_dir_to_create.is_none());
}

#[test]
fn status_codes() {
    let all = [
        (HttpStatus::Success, 200),
        (HttpStatus::NoContent, 204),
        (HttpStatus::SeeOther, 303),
        (HttpStatus::BadRequest, 400),
        (HttpStatus::Unauthorized, 401),
        (HttpStatus::Forbidden, 403),
        (HttpStatus::NotFound, 404),
        (HttpStatus::RequestTimeout, 408),
        (HttpStatus::Conflict, 409),
        (HttpStatus::InternalServerError, 500),
        (HttpStatus::ServiceUnavailable, 503),
    ];
    for (status, code) in all {
        assert_eq!(status.code(), code);
    }
}

#[test]
fn plain_cookies() {
    let c = plain_cookie("username", "alice");
    assert_eq!((c.name.as_str(), c.value.as_str()), ("username", "alice"));
    assert!(c.path.is_none() && !c.http_only && !c.secure && !c.same_site_lax);
}

#[test]
fn security_headers_and_static_caching() {
    let page = response_headers("/lore");
    let expected = vec![
        ("x-content-type-options".to_string(), "nosniff".to_string()),
        ("referrer-policy".to_string(), "same-origin".to_string()),
        ("x-frame-options".to_string(), "SAMEORIGIN".to_string()),
    ];
    assert_eq!(page, expected);
    let asset = response_headers("/static/site.css");
    assert_eq!(asset.len(), 4);
    assert_eq!(asset[3], ("cache-control".to_string(), "public, max-age=31536000, immutable".to_string()));
    assert_eq!(response_headers("/static").len(), 3);
}

#[test]
fn directory_lines_in_order() {
    let tree = Directory {
        name: String::new(),
        children: vec![
            FileTree::FileNode(File { name: "README.md".to_string() }),
            FileTree::DirectoryNode(Directory {
                name: "wiki".to_string(),
                children: vec![
                    FileTree::FileNode(File { name: "wiki/Home.md".to_string() }),
                    FileTree::DirectoryNode(Directory { name: "wiki/lore".to_string(), children: vec![] }),
                ],
            }),
            FileTree::FileNode(File { name: "Cargo.toml".to_string() }),
        ],
    };
    assert_eq!(tree.lines(), vec!["README.md", "wiki", "wiki/Home.md", "wiki/lore", "Cargo.toml"]);
    let named = Directory { name: "root".to_string(), children: vec![] };
    assert_eq!(named.lines(), vec!["root"]);
}

#[test]
fn markdown_is_rendered() {
    assert_eq!(Markdown::new("# Hi".to_string()).as_html(), "<h1>Hi</h1>");
    assert_eq!(render_markdown("*x*"), "<p><em>x</em></p>");
    let safe = Markdown::new("<b>x</b>".to_string()).as_html();
    assert!(!safe.contains("<b>"));
    assert!(render_markdown("<b>x</b>").contains("<b>x</b>"));
}

#[test]
fn dice_totals_stay_in_range() {
    let pool = DicePool { amount: 2, sides: 6 };
    for _ in 0..50 {
        let total = pool.roll_mult(3);
        assert!((6..=36).contains(&total));
        let avg = pool.average_over(3);
        assert!((2..=12).contains(&avg));
    }
    let no_rolls = DicePool { amount: 3, sides: 0 };
    assert_eq!(no_rolls.roll_mult(0), 0);
    let empty = DicePool { amount: 0, sides: 0 };
    assert_eq!(empty.roll_mult(5), 0);
    assert_eq!(empty.average_over(5), 0);
    let ones = DicePool { amount: 4, sides: 1 };
    assert_eq!(ones.roll_mult(3), 12);
    assert_eq!(ones.average_over(3), 4);
}

#[test]
fn dice_rolls_vary() {
    let pool = DicePool { amount: 1, sides: 1000 };
    let first = pool.roll_mult(1);
    let varied = (0..200).any(|_| pool.roll_mult(1) != first);
    assert!(varied);
}

#[test]
fn legacy_update_answers() {
    assert_eq!(update_page_response("lore", None), Ok("/lore".to_string()));
    assert_eq!(update_page_response("lore", Some(true)), Ok("/lore".to_string()));
    assert_eq!(update_page_response("lore", Some(false)), Err(HttpStatus::NotFound));
}

#[test]
fn first_server_page_files() {
    assert_eq!(page_file("/tmp/x/wiki", "index"), "/tmp/x/wiki/index.md");
    assert_eq!(page_file("/tmp/x/wiki", "lore/places"), "/tmp/x/wiki/lore/places.md");
    assert_eq!(page_file("/tmp/x/wiki", "a.txt"), "/tmp/x/wiki/a.md");
    assert_eq!(wiki_page_url("lore/places"), "/wiki/lore/places");
}

#[test]
fn first_server_editor() {
    let bob = "bob".to_string();
    assert_eq!(plan_edit_get("/w", "p", None).err(), Some(HttpStatus::NotFound));
    let t = plan_edit_get("/w", "p", Some(&bob)).ok().unwrap();
    assert_eq!(t.branch, "user/bob");
    assert_eq!(t.path, "/w/p.md");
    assert_eq!(editor_content(false, Some("x".to_string())), Err(HttpStatus::NotFound));
    assert_eq!(editor_content(true, Some("x".to_string())), Ok("x".to_string()));
    assert_eq!(editor_content(true, None), Ok(String::new()));
}

#[test]
fn first_server_saving() {
    let bob = "bob".to_string();
    match plan_edit_post("/w", "p", None, "x") {
        EditPost::ShowPage { location } => assert_eq!(location, "/wiki/p"),
        EditPost::Write { .. } => panic!("nothing is written without a user"),
    }
    match plan_edit_post("/w", "p", Some(&bob), "a\r\nb") {
        EditPost::Write { branch, path, content, message, location } => {
            assert_eq!(branch, "user/bob");
            assert_eq!(path, "/w/p.md");
            assert_eq!(content, "a\nb");
            assert_eq!(message, "bob");
            assert_eq!(location, "/wiki/p");
        }
        EditPost::ShowPage { .. } => panic!("a user's save is written"),
    }
    assert_eq!(edit_post_response("/wiki/p".to_string(), false, false), Err(HttpStatus::NotFound));
    assert_eq!(edit_post_response("/wiki/p".to_string(), true, false), Err(HttpStatus::InternalServerError));
    assert_eq!(edit_post_response("/wiki/p".to_string(), true, true), Ok("/wiki/p".to_string()));
}
