use vstd::prelude::*;
use crate::content::{MDContent, MDContentView};
use crate::file_name::{file_stem, spec_stem};
use crate::renderable::markdown_renders;

verus! {

/// The HTML that the markdown crate renders for a markdown text.
pub uninterp spec fn markdown_html(text: Seq<char>) -> Seq<char>;

/// Calls `markdown::to_html`. Trusted: its result is the named rendering of
/// the text, and it ends with a newline (the crate trims what it renders and
/// then pushes `'\n'`). The parser panics on a list item whose lines are all
/// empty (it indexes the item's empty list of blocks) and on a line that
/// holds three backticks and whose byte 3 falls inside a character (it cuts
/// the line there for the code block's language); `markdown_renders` leaves
/// both out. Left unsaid: on text nested (quotes within list items within
/// quotes...) deeply enough, the parser's recursion exhausts the thread's
/// stack, at a depth that depends on the machine.
#[verifier::external_body]
fn to_html(text: &str) -> (r: String)
    requires
        markdown_renders(text@),
    ensures
        r@ == markdown_html(text@),
        r@.len() > 0,
        r@.last() == '\n',
{
    ::markdown::to_html(text)
}

/// Renders a markdown text as HTML.
pub fn render_markdown(text: &str) -> (r: String)
    requires
        markdown_renders(text@),
    ensures
        r@ == markdown_html(text@),
        r@.len() > 0,
        r@.last() == '\n',
{
    to_html(text)
}

/// The markdown part of a page, from the file's name, its creation time and
/// its text: titled with the file's stem, with the text rendered as HTML.
pub fn markdown_content(file_name: &str, created: i64, text: &str) -> (r: MDContent)
    requires
        markdown_renders(text@),
    ensures
        r@ == (MDContentView {
            created: created,
            title: spec_stem(file_name@),
            body: markdown_html(text@),
        }),
{
    MDContent { created, title: file_stem(file_name), body: render_markdown(text) }
}

} // verus!
