//! A wiki kept in a cloned repository directory, with its pages under
//! `wiki/`.
use vstd::prelude::*;
use crate::paths::{join_path, path_join};
use crate::text::push_str;

verus! {

/// A wiki whose repository is cloned at `repo_directory`.
#[derive(Clone)]
pub struct Wiki {
    pub repo_directory: String,
}

/// The page that an empty article path names.
pub open spec fn page_or_index(article_path: Seq<char>) -> Seq<char> {
    if article_path.len() == 0 {
        "index"@
    } else {
        article_path
    }
}

impl Wiki {
    /// Resolves `{article_path}` to `{repo}/wiki/{article_path}.md`, with
    /// `index` for an empty path.
    pub fn resolve_article_path(&self, article_path: &str) -> (r: String)
        ensures
            r@ == path_join(
                path_join(self.repo_directory@, "wiki"@),
                page_or_index(article_path@) + ".md"@,
            ),
    {
        let mut page = if article_path.is_empty() {
            "index".to_owned()
        } else {
            article_path.to_owned()
        };
        proof {
            reveal_strlit("index");
        }
        push_str(&mut page, ".md");
        let dir = join_path(self.repo_directory.as_str(), "wiki");
        join_path(dir.as_str(), page.as_str())
    }
}

} // verus!
