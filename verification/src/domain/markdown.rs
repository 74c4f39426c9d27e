//! A markdown document.
use vstd::prelude::*;
use crate::filters::{markdown_html, markdown_to_html};

verus! {

/// A markdown document's text.
pub struct Markdown {
    content: String,
}

impl Markdown {
    /// The document with the given text.
    pub fn new(content: String) -> (m: Markdown)
        ensures
            m.content()@ == content@,
    {
        Markdown { content }
    }

    pub closed spec fn content(&self) -> String {
        self.content
    }

    /// The document rendered to HTML with the safe default options.
    pub fn as_html(&self) -> (r: String)
        ensures
            r@ == markdown_html(self.content()@),
    {
        markdown_to_html(self.content.as_str())
    }
}

} // verus!
