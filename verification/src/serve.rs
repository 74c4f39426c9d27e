//! The checkout server, which reads and edits pages in a checked-out wiki
//! directory and names its users by a `username` cookie: where a page's
//! file is, where a page is shown, and what opening the editor and saving
//! from it do.
use vstd::prelude::*;
use crate::formatting::{normalise_newlines, normalised_newlines, opt_ref_view};
use crate::handlers::user_branch;
use crate::http::HttpStatus;
use crate::paths::{join_path, path_join, path_with_extension, with_extension};
use crate::text::push_str;

verus! {

/// The file of the page `article_path` in `wiki_dir`: the joined path with
/// its extension set to `md`.
pub open spec fn page_file_of(wiki_dir: Seq<char>, article_path: Seq<char>) -> Seq<char> {
    path_with_extension(path_join(wiki_dir, article_path), "md"@)
}

/// The file of the page `article_path` in `wiki_dir`; the index page is the
/// page `index`.
pub fn page_file(wiki_dir: &str, article_path: &str) -> (r: String)
    ensures
        r@ == page_file_of(wiki_dir@, article_path@),
{
    let joined = join_path(wiki_dir, article_path);
    proof {
        reveal_strlit("md");
    }
    with_extension(joined.as_str(), "md")
}

/// Where a page is shown: `/wiki/` followed by its path.
pub fn wiki_page_url(article_path: &str) -> (r: String)
    ensures
        r@ == "/wiki/"@ + article_path@,
{
    let mut r = "/wiki/".to_owned();
    push_str(&mut r, article_path);
    r
}

/// What opening the editor on a page works on.
pub struct EditTarget {
    /// The user's branch, checked out before the file is read.
    pub branch: String,
    /// The page's file.
    pub path: String,
}

/// Opening the editor: `404` without a user named by the `username`
/// cookie; otherwise the user's branch and the page's file.
pub fn plan_edit_get(wiki_dir: &str, article_path: &str, username: Option<&String>) -> (r: Result<
    EditTarget,
    HttpStatus,
>)
    ensures
        username is None <==> r == Err::<EditTarget, HttpStatus>(HttpStatus::NotFound),
        username is Some <==> r is Ok,
        r matches Ok(t) ==> {
            &&& t.branch@ == "user/"@ + opt_ref_view(username)->Some_0
            &&& t.path@ == page_file_of(wiki_dir@, article_path@)
        },
{
    match username {
        None => Err(HttpStatus::NotFound),
        Some(u) => Ok(EditTarget { branch: user_branch(u.as_str()), path: page_file(wiki_dir, article_path) }),
    }
}

/// The text the editor opens with: `404` when the page's file cannot be
/// written; otherwise the file's text, or nothing for a new page.
pub fn editor_content(editable: bool, file_content: Option<String>) -> (r: Result<String, HttpStatus>)
    ensures
        !editable <==> r == Err::<String, HttpStatus>(HttpStatus::NotFound),
        editable <==> r is Ok,
        r matches Ok(c) ==> c@ == match file_content {
            Some(f) => f@,
            None => Seq::<char>::empty(),
        },
{
    if !editable {
        return Err(HttpStatus::NotFound);
    }
    match file_content {
        Some(c) => Ok(c),
        None => Ok(String::new()),
    }
}

/// What saving from the editor does.
pub enum EditPost {
    /// No user is named: nothing is written and the page is shown.
    ShowPage { location: String },
    /// The page's file is written on the user's branch, committed with the
    /// user's name as message and pushed; then the page is shown.
    Write { branch: String, path: String, content: String, message: String, location: String },
}

/// Saving from the editor: without a user, only the redirect to the page;
/// otherwise the user's branch, the page's file, the text with normalised
/// line endings, the commit message (the user's name) and the redirect.
pub fn plan_edit_post(wiki_dir: &str, article_path: &str, username: Option<&String>, markdown: &str) -> (r: EditPost)
    ensures
        match (r, opt_ref_view(username)) {
            (EditPost::ShowPage { location }, None) => location@ == "/wiki/"@ + article_path@,
            (EditPost::Write { branch, path, content, message, location }, Some(u)) => {
                &&& branch@ == "user/"@ + u
                &&& path@ == page_file_of(wiki_dir@, article_path@)
                &&& content@ == normalised_newlines(markdown@)
                &&& message@ == u
                &&& location@ == "/wiki/"@ + article_path@
            },
            _ => false,
        },
{
    match username {
        None => EditPost::ShowPage { location: wiki_page_url(article_path) },
        Some(u) => EditPost::Write {
            branch: user_branch(u.as_str()),
            path: page_file(wiki_dir, article_path),
            content: normalise_newlines(markdown),
            message: u.clone(),
            location: wiki_page_url(article_path),
        },
    }
}

/// The answer to a save once the file was or was not written: `404` when
/// the file could not be written to, `500` when writing failed, otherwise
/// the redirect to the page.
pub fn edit_post_response(location: String, editable: bool, written: bool) -> (r: Result<String, HttpStatus>)
    ensures
        !editable ==> r == Err::<String, HttpStatus>(HttpStatus::NotFound),
        editable && !written ==> r == Err::<String, HttpStatus>(HttpStatus::InternalServerError),
        editable && written ==> (r matches Ok(l) && l@ == location@),
{
    if !editable {
        Err(HttpStatus::NotFound)
    } else if !written {
        Err(HttpStatus::InternalServerError)
    } else {
        Ok(location)
    }
}

} // verus!
