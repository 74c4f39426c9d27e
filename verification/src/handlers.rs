//! Handlers that keep a user's name in a `username` cookie: their forms,
//! the branch they read and write, and the answer to saving a page.
use vstd::prelude::*;
use crate::formatting::opt_ref_view;
use crate::http::HttpStatus;
use crate::text::push_str;

verus! {

/// The login form.
pub struct LoginRequest {
    pub username: String,
}

/// The `edit_mode` query parameter.
pub struct EditModeQuery {
    pub edit_mode: Option<bool>,
}

/// The editor's form.
pub struct EditForm {
    pub markdown: String,
}

/// A user's own branch: `user/{username}`.
pub fn user_branch(username: &str) -> (r: String)
    ensures
        r@ == "user/"@ + username@,
{
    let mut r = "user/".to_owned();
    push_str(&mut r, username);
    r
}

/// The branch a page is read from: the user's branch when edit mode is
/// asked for and a user is named, `prime` otherwise.
pub fn legacy_branch_name(edit_mode: Option<bool>, username: Option<&String>) -> (r: String)
    ensures
        r@ == match (edit_mode, opt_ref_view(username)) {
            (Some(true), Some(u)) => "user/"@ + u,
            _ => "prime"@,
        },
{
    match (edit_mode, username) {
        (Some(true), Some(u)) => user_branch(u.as_str()),
        _ => "prime".to_owned(),
    }
}

/// The answer to saving a page: the redirect to `/{article_path}`, unless
/// a user was named (`written` is `Some`) and writing the page failed,
/// which is answered `404`.
pub fn update_page_response(article_path: &str, written: Option<bool>) -> (r: Result<String, HttpStatus>)
    ensures
        written == Some(false) <==> r == Err::<String, HttpStatus>(HttpStatus::NotFound),
        written != Some(false) <==> r is Ok,
        r matches Ok(l) ==> l@ == "/"@ + article_path@,
{
    match written {
        Some(false) => Err(HttpStatus::NotFound),
        _ => {
            let mut r = "/".to_owned();
            push_str(&mut r, article_path);
            Ok(r)
        },
    }
}

} // verus!
