use aenyrathia::http::HttpStatus;
use aenyrathia::routes::auth::{
    begin_login, check_login_password, cookie_secure, csrf_cookie, finish_login, hex_token,
    new_session_tokens, plan_logout, prepare_auth_form, prepare_registration, random_token,
    register_with_salt, registration_response, removal_cookie, safe_redirect_path,
    session_cookie, set_csrf_cookie, verify_csrf_cookie, InsertOutcome, LoginForm,
    LookupOutcome, RegisterForm, StoredCredentials, CSRF_COOKIE, SESSION_COOKIE,
};
use aenyrathia::routes::auth::{
    set_ui_state, username_login, username_register, UiStateForm, UsernameLoginForm,
    UsernameRegisterForm, UI_STATE_COOKIE, USERNAME_COOKIE,
};

fn some(s: &str) -> Option<String> {
    Some(s.to_string())
}

#[test]
fn safe_redirect_keeps_local_paths() {
    assert_eq!(safe_redirect_path(None), "/");
    assert_eq!(safe_redirect_path(some("/foo/bar?x=1")), "/foo/bar?x=1");
    assert_eq!(safe_redirect_path(some("/")), "/");
}

#[test]
fn safe_redirect_refuses_other_targets() {
    for bad in ["", "foo", "//evil.example", "/a:b", "https://x", "/a\nb", "/\u{9f}"] {
        assert_eq!(safe_redirect_path(some(bad)), "/", "{bad:?}");
    }
}

#[test]
fn csrf_check() {
    let cookie = "tok".to_string();
    assert_eq!(verify_csrf_cookie(Some(&cookie), "tok"), Ok(()));
    assert_eq!(verify_csrf_cookie(Some(&cookie), "other"), Err(HttpStatus::Forbidden));
    assert_eq!(verify_csrf_cookie(None, "tok"), Err(HttpStatus::Forbidden));
    let empty = String::new();
    assert_eq!(verify_csrf_cookie(Some(&empty), ""), Err(HttpStatus::Forbidden));
}

#[test]
fn cookies_have_their_attributes() {
    let s = session_cookie("abc", true);
    assert_eq!((s.name.as_str(), s.value.as_str(), s.path.as_deref()), (SESSION_COOKIE, "abc", Some("/")));
    assert!(s.http_only && s.secure && s.same_site_lax);
    let c = csrf_cookie("xyz", false);
    assert_eq!((c.name.as_str(), c.value.as_str()), (CSRF_COOKIE, "xyz"));
    assert!(c.http_only && !c.secure && c.same_site_lax);
    let r = removal_cookie("session_id");
    assert_eq!((r.name.as_str(), r.value.as_str(), r.path.as_deref()), ("session_id", "", Some("/")));
}

#[test]
fn cookie_secure_setting() {
    assert!(cookie_secure(Some(&"true".to_string())));
    assert!(cookie_secure(Some(&"1".to_string())));
    assert!(!cookie_secure(Some(&"yes".to_string())));
    assert!(!cookie_secure(None));
}

#[test]
fn hex_token_is_lowercase_hex() {
    assert_eq!(hex_token(&[0x00, 0x0f, 0xa5, 0xff]), "000fa5ff");
    let t = random_token();
    assert_eq!(t.len(), 64);
    assert!(t.chars().all(|c| c.is_ascii_digit() || ('a'..='f').contains(&c)));
    let tokens = new_session_tokens();
    assert_ne!(tokens.session_token, tokens.csrf_token);
}

#[test]
fn csrf_cookie_keeps_an_existing_token() {
    let (token, cookie) = set_csrf_cookie(some("kept"), false);
    assert_eq!(token, "kept");
    assert_eq!(cookie.value, "kept");
    let (fresh, _) = set_csrf_cookie(None, false);
    assert_eq!(fresh.len(), 64);
}

#[test]
fn auth_form_needs_a_database() {
    assert!(matches!(prepare_auth_form(false, None, None, false), Err(HttpStatus::ServiceUnavailable)));
    let page = prepare_auth_form(true, some("/a b"), some("t"), false).ok().unwrap();
    assert_eq!(page.redirect_path, "/a%20b");
    assert_eq!(page.csrf_token, "t");
    let page = prepare_auth_form(true, some("//evil"), None, false).ok().unwrap();
    assert_eq!(page.redirect_path, "/");
}

fn register_form(fullname: &str, email: &str, password: &str, csrf: &str) -> RegisterForm {
    RegisterForm {
        fullname: fullname.to_string(),
        email: email.to_string(),
        password: password.to_string(),
        csrf_token: csrf.to_string(),
    }
}

#[test]
fn registration_checks_in_order() {
    let cookie = "t".to_string();
    let form = register_form("A", "a@b.c", "pw", "t");
    assert!(matches!(prepare_registration(None, &form, true), Err(HttpStatus::Forbidden)));
    assert!(matches!(prepare_registration(Some(&cookie), &form, false), Err(HttpStatus::ServiceUnavailable)));
    let blank = register_form("  ", "a@b.c", "pw", "t");
    assert!(matches!(prepare_registration(Some(&cookie), &blank, true), Err(HttpStatus::BadRequest)));
    let no_password = register_form("A", "a@b.c", "", "t");
    assert!(matches!(prepare_registration(Some(&cookie), &no_password, true), Err(HttpStatus::BadRequest)));
}

#[test]
fn registration_normalises_and_hashes() {
    let cookie = "t".to_string();
    let form = register_form("  Alice Smith ", " Alice@Example.COM ", "passw0rd", "t");
    let user = prepare_registration(Some(&cookie), &form, true).ok().unwrap();
    assert_eq!(user.full_name, "Alice Smith");
    assert_eq!(user.email, "alice@example.com");
    assert!(user.password_hash.starts_with("$argon2id$"));
    assert!(!user.password_hash.contains("passw0rd"));
}

#[test]
fn registration_with_a_bad_salt_fails() {
    let cookie = "t".to_string();
    let form = register_form("A", "a@b.c", "pw", "t");
    assert!(matches!(register_with_salt(Some(&cookie), &form, true, "!"), Err(HttpStatus::InternalServerError)));
}

#[test]
fn registration_then_login_accepts_the_password() {
    let cookie = "t".to_string();
    let form = register_form("A", "a@b.c", "correct horse", "t");
    let user = prepare_registration(Some(&cookie), &form, true).ok().unwrap();
    let stored = || StoredCredentials { user_id: 7, password_hash: user.password_hash.clone() };
    assert_eq!(check_login_password(LookupOutcome::Found(stored()), "correct horse"), Ok(7));
    assert_eq!(check_login_password(LookupOutcome::Found(stored()), "wrong"), Err(HttpStatus::Unauthorized));
}

#[test]
fn login_password_check_outcomes() {
    assert_eq!(check_login_password(LookupOutcome::Missing, "x"), Err(HttpStatus::Unauthorized));
    assert_eq!(check_login_password(LookupOutcome::Failed, "x"), Err(HttpStatus::InternalServerError));
    let broken = StoredCredentials { user_id: 1, password_hash: "not a phc string".to_string() };
    assert_eq!(check_login_password(LookupOutcome::Found(broken), "x"), Err(HttpStatus::InternalServerError));
}

#[test]
fn registration_response_outcomes() {
    let done = registration_response(InsertOutcome::Inserted, some("/x")).ok().unwrap();
    assert_eq!(done.location, "/x");
    assert!(done.cookies.is_empty());
    assert_eq!(done.removed.len(), 1);
    assert_eq!((done.removed[0].name.as_str(), done.removed[0].value.as_str()), (UI_STATE_COOKIE, ""));
    assert!(matches!(registration_response(InsertOutcome::Duplicate, None), Err(HttpStatus::Conflict)));
    assert!(matches!(registration_response(InsertOutcome::Failed, None), Err(HttpStatus::InternalServerError)));
}

#[test]
fn login_start_checks() {
    let cookie = "t".to_string();
    let form = |email: &str, password: &str, csrf: &str| LoginForm {
        email: email.to_string(),
        password: password.to_string(),
        csrf_token: csrf.to_string(),
    };
    assert_eq!(begin_login(Some(&cookie), &form("a@b", "p", "x"), true), Err(HttpStatus::Forbidden));
    assert_eq!(begin_login(Some(&cookie), &form("a@b", "p", "t"), false), Err(HttpStatus::ServiceUnavailable));
    assert_eq!(begin_login(Some(&cookie), &form(" ", "p", "t"), true), Err(HttpStatus::Unauthorized));
    assert_eq!(begin_login(Some(&cookie), &form("a@b", "", "t"), true), Err(HttpStatus::Unauthorized));
    assert_eq!(begin_login(Some(&cookie), &form(" A@B ", "p", "t"), true), Ok("a@b".to_string()));
}

#[test]
fn login_finish_sets_both_cookies() {
    let tokens = new_session_tokens();
    assert!(matches!(finish_login(false, &tokens, false, None), Err(HttpStatus::InternalServerError)));
    let done = finish_login(true, &tokens, true, some("/wiki")).ok().unwrap();
    assert_eq!(done.location, "/wiki");
    assert_eq!(done.cookies.len(), 2);
    assert_eq!(done.cookies[0].name, SESSION_COOKIE);
    assert_eq!(done.cookies[0].value, tokens.session_token);
    assert_eq!(done.cookies[1].name, CSRF_COOKIE);
    assert!(done.cookies[1].secure);
    assert_eq!(done.removed.len(), 1);
    assert_eq!(done.removed[0].name, UI_STATE_COOKIE);
}

#[test]
fn logout_plan() {
    let cookie = "t".to_string();
    let (cleared, refused) = plan_logout(Some(&cookie), "x", true, some("s"), None);
    assert!(matches!(refused, Err(HttpStatus::Forbidden)));
    assert_eq!((cleared.name.as_str(), cleared.value.as_str()), (UI_STATE_COOKIE, ""));
    let plan = plan_logout(Some(&cookie), "t", true, some("s"), some("/back")).1.ok().unwrap();
    assert_eq!(plan.delete_session, some("s"));
    assert_eq!(plan.location, "/back");
    assert_eq!(plan.removed.len(), 2);
    assert_eq!(plan.removed[0].name, SESSION_COOKIE);
    assert_eq!(plan.removed[1].name, CSRF_COOKIE);
    let plan = plan_logout(Some(&cookie), "t", false, some("s"), None).1.ok().unwrap();
    assert_eq!(plan.delete_session, None);
}

#[test]
fn registered_email_is_the_login_key() {
    let cookie = "t".to_string();
    let form = register_form("Bob", "  Bob@Example.org", "s3cret", "t");
    let user = prepare_registration(Some(&cookie), &form, true).ok().unwrap();
    let login = LoginForm { email: "BOB@example.ORG ".to_string(), password: "s3cret".to_string(), csrf_token: "t".to_string() };
    assert_eq!(begin_login(Some(&cookie), &login, true), Ok(user.email.clone()));
    let stored = StoredCredentials { user_id: 3, password_hash: user.password_hash };
    assert_eq!(check_login_password(LookupOutcome::Found(stored), "s3cret"), Ok(3));
}

fn login_with(username: &str, password: &str) -> UsernameLoginForm {
    UsernameLoginForm { username: username.to_string(), password: password.to_string() }
}

fn register_with(fullname: &str, email: &str, username: &str, password: &str) -> UsernameRegisterForm {
    UsernameRegisterForm {
        fullname: fullname.to_string(),
        email: email.to_string(),
        username: username.to_string(),
        password: password.to_string(),
    }
}

#[test]
fn login_success_sets_cookie_and_redirects() {
    let r = username_login(&login_with("alice", "passw0rd"));
    assert_eq!(r.location, "/");
    assert_eq!(r.set.len(), 1);
    assert_eq!((r.set[0].name.as_str(), r.set[0].value.as_str()), (USERNAME_COOKIE, "alice"));
}

#[test]
fn login_clears_ui_state_cookie() {
    let r = username_login(&login_with("alice", "passw0rd"));
    assert_eq!(r.removed.len(), 1);
    assert_eq!((r.removed[0].name.as_str(), r.removed[0].value.as_str()), (UI_STATE_COOKIE, ""));
}

#[test]
fn login_missing_fields_redirects_with_error() {
    let r = username_login(&login_with("alice", ""));
    assert!(r.location.contains("error=missing_fields"));
    assert!(r.set.is_empty() && r.removed.is_empty());
    assert_eq!(username_login(&login_with("  ", "x")).location, "/login?error=missing_fields");
}

#[test]
fn register_success_sets_cookie_and_redirects() {
    let r = username_register(&register_with("Alice Smith", "a@b.com", "alice", "passw0rd"));
    assert_eq!(r.location, "/");
    assert_eq!((r.set[0].name.as_str(), r.set[0].value.as_str()), (USERNAME_COOKIE, "alice"));
}

#[test]
fn register_clears_ui_state_cookie() {
    let r = username_register(&register_with("Alice Smith", "a@b.com", "alice", "passw0rd"));
    assert_eq!(r.removed.len(), 1);
    assert_eq!((r.removed[0].name.as_str(), r.removed[0].value.as_str()), (UI_STATE_COOKIE, ""));
}

#[test]
fn register_invalid_email_redirects_with_error() {
    let r = username_register(&register_with("Alice Smith", "invalid", "alice", "passw0rd"));
    assert!(r.location.contains("error=invalid_email"));
    assert!(r.set.is_empty());
    for bad in ["@b.com", "a@", "@"] {
        assert_eq!(username_register(&register_with("A", bad, "a", "p")).location, "/register?error=invalid_email");
    }
    assert_eq!(username_register(&register_with("", "a@b", "a", "p")).location, "/register?error=missing_fields");
}

#[test]
fn ui_state_sets_cookie_and_redirects() {
    let r = set_ui_state(&UiStateForm { to_state: "login_form".to_string(), return_to: some("/foo") });
    assert_eq!(r.location, "/foo");
    assert_eq!((r.set[0].name.as_str(), r.set[0].value.as_str()), (UI_STATE_COOKIE, "login_form"));
    let r = set_ui_state(&UiStateForm { to_state: "register_form".to_string(), return_to: some("//evil") });
    assert_eq!(r.location, "/");
}

#[test]
fn logout_clears_ui_state_cookie() {
    let (cleared, outcome) = plan_logout(None, "", false, None, None);
    assert_eq!((cleared.name.as_str(), cleared.value.as_str()), (UI_STATE_COOKIE, ""));
    assert!(matches!(outcome, Err(HttpStatus::Forbidden)));
}

#[test]
fn auth_pages_render_with_a_database() {
    assert!(prepare_auth_form(true, None, None, false).is_ok());
    assert!(matches!(prepare_auth_form(false, None, None, false), Err(HttpStatus::ServiceUnavailable)));
}
