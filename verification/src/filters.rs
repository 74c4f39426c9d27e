//! Markdown rendering for pages and previews.
use vstd::prelude::*;

verus! {

#[verifier::external_type_specification]
#[verifier::external_body]
pub struct ExMarkdownMessage(markdown::message::Message);

/// The name of the HTML that `markdown::to_html` makes of a text (safe
/// defaults: raw HTML in the text is escaped).
pub uninterp spec fn markdown_html(text: Seq<char>) -> Seq<char>;

/// The name of the HTML that `markdown::to_html_with_options` makes of a
/// text with `allow_dangerous_html` on and all other options at their
/// defaults (raw HTML in the text is kept).
pub uninterp spec fn markdown_html_trusted(text: Seq<char>) -> Seq<char>;

/// `markdown::to_html`: CommonMark to HTML with the default options; a
/// function of the text alone.
#[verifier::external_body]
pub(crate) fn markdown_to_html(text: &str) -> (r: String)
    ensures
        r@ == markdown_html(text@),
{
    markdown::to_html(text)
}

/// `markdown::to_html_with_options` with `allow_dangerous_html` set and the
/// default parse options. Its documentation says that it never errors
/// unless MDX is turned on, which these options do not do; the HTML is a
/// function of the text alone.
#[verifier::external_body]
fn markdown_to_html_trusted(text: &str) -> (r: Result<String, markdown::message::Message>)
    ensures
        r is Ok,
        r matches Ok(h) ==> h@ == markdown_html_trusted(text@),
{
    markdown::to_html_with_options(
        text,
        &markdown::Options {
            compile: markdown::CompileOptions {
                allow_dangerous_html: true,
                ..markdown::CompileOptions::default()
            },
            ..markdown::Options::default()
        },
    )
}

/// Renders a page's markdown to HTML, keeping raw HTML written in it; the
/// safe default rendering is the fallback should the first one fail.
pub fn render_markdown(markdown: &str) -> (r: String)
    ensures
        r@ == markdown_html_trusted(markdown@),
{
    match markdown_to_html_trusted(markdown) {
        Ok(html) => html,
        Err(_) => markdown_to_html(markdown),
    }
}

} // verus!
