use vstd::prelude::*;
use crate::content::{
    CSSContent, JSONContent, MDContent, PageContent, PageContentView, default_page_view,
};
use crate::file_name::spec_extension;
use crate::pages::is_markdown_file;
use crate::text::{lemma_replace_md_ending, occurs_at, replace_all, replaced};

verus! {

/// Which side file the loading of a single page is looking for.
#[derive(Debug, Clone, Copy, PartialEq, Eq, Structural)]
pub enum SideFile {
    Json,
    Css,
}

/// What the loading of a single page asks for next. The loader answers a
/// `Probe` with whether the probed path exists, and a read with the file's
/// content; `Finish` ends the loading with an empty page.
#[derive(Debug, PartialEq, Eq)]
pub enum SinglePageStep {
    /// Read the page's own markdown file: its creation time and its text.
    ReadMarkdown,
    /// Tell whether `probe` exists.
    Probe { probe: String, side: SideFile },
    /// Read the JSON file at `path`.
    ReadJson { path: String },
    /// Read the CSS file at `path`.
    ReadCss { path: String },
    /// Nothing is left to load.
    Finish,
}

/// The path probed for the side file `side` of the page at `path`: `.md`
/// replaced by the side file's extension without its dot.
pub open spec fn probe_path(path: Seq<char>, side: SideFile) -> Seq<char> {
    match side {
        SideFile::Json => replaced(path, ".md"@, "json"@),
        SideFile::Css => replaced(path, ".md"@, "css"@),
    }
}

/// The path read for the side file `side` of the page at `path`: `.md`
/// replaced by the side file's extension.
pub open spec fn side_path(path: Seq<char>, side: SideFile) -> Seq<char> {
    match side {
        SideFile::Json => replaced(path, ".md"@, ".json"@),
        SideFile::Css => replaced(path, ".md"@, ".css"@),
    }
}

/// For a page at `a` followed by `.md`, with `.md` nowhere else, the probes
/// look for `a` followed by `json` and `css`, and the side files read are
/// `a` followed by `.json` and `.css`.
pub proof fn lemma_side_files_of_md_path(a: Seq<char>)
    requires
        forall|i: int| !#[trigger] occurs_at(a, ".md"@, i),
    ensures
        probe_path(a + ".md"@, SideFile::Json) == a + "json"@,
        probe_path(a + ".md"@, SideFile::Css) == a + "css"@,
        side_path(a + ".md"@, SideFile::Json) == a + ".json"@,
        side_path(a + ".md"@, SideFile::Css) == a + ".css"@,
{
    lemma_replace_md_ending(a, "json"@);
    lemma_replace_md_ending(a, "css"@);
    lemma_replace_md_ending(a, ".json"@);
    lemma_replace_md_ending(a, ".css"@);
}

/// The first step of loading the page at `path`, whose last component is
/// `file_name`: a markdown file is read itself; otherwise its JSON side file
/// is probed for. A name without an extension is no page.
pub fn single_page_start(path: &str, file_name: &str) -> (r: SinglePageStep)
    requires
        spec_extension(file_name@) is Some,
    ensures
        spec_extension(file_name@)->0 == "md"@ ==> r is ReadMarkdown,
        spec_extension(file_name@)->0 != "md"@ ==> (r matches SinglePageStep::Probe { probe, side }
            && side is Json && probe@ == probe_path(path@, SideFile::Json)),
{
    proof {
        reveal_strlit(".md");
    }
    if is_markdown_file(file_name) {
        SinglePageStep::ReadMarkdown
    } else {
        SinglePageStep::Probe { probe: replace_all(path, ".md", "json"), side: SideFile::Json }
    }
}

/// The step after the probe for the side file `side` of the page at `path`
/// found that it `exists` or not: an existing side file is read; a missing
/// JSON file leads to a probe for the CSS file; a missing CSS file ends the
/// loading.
pub fn single_page_after_probe(path: &str, side: SideFile, exists: bool) -> (r: SinglePageStep)
    ensures
        exists && side is Json ==> (r matches SinglePageStep::ReadJson { path: p } && p@
            == side_path(path@, SideFile::Json)),
        exists && side is Css ==> (r matches SinglePageStep::ReadCss { path: p } && p@
            == side_path(path@, SideFile::Css)),
        !exists && side is Json ==> (r matches SinglePageStep::Probe { probe, side: s }
            && s is Css && probe@ == probe_path(path@, SideFile::Css)),
        !exists && side is Css ==> r is Finish,
{
    proof {
        reveal_strlit(".md");
    }
    match side {
        SideFile::Json => {
            if exists {
                SinglePageStep::ReadJson { path: replace_all(path, ".md", ".json") }
            } else {
                SinglePageStep::Probe { probe: replace_all(path, ".md", "css"), side: SideFile::Css }
            }
        },
        SideFile::Css => {
            if exists {
                SinglePageStep::ReadCss { path: replace_all(path, ".md", ".css") }
            } else {
                SinglePageStep::Finish
            }
        },
    }
}

/// A page that holds only its markdown.
pub fn markdown_page(markdown: MDContent) -> (r: PageContent)
    ensures
        r@ == (PageContentView { markdown: markdown@, ..default_page_view() }),
{
    PageContent { markdown, json: JSONContent::default(), css: CSSContent::default() }
}

/// A page that holds only a JSON side file.
pub fn json_page(payload: String) -> (r: PageContent)
    ensures
        r@ == (PageContentView { json: payload@, ..default_page_view() }),
{
    PageContent { markdown: MDContent::default(), json: JSONContent { payload }, css: CSSContent::default() }
}

/// A page that holds only a CSS side file.
pub fn css_page(payload: String) -> (r: PageContent)
    ensures
        r@ == (PageContentView { css: payload@, ..default_page_view() }),
{
    PageContent { markdown: MDContent::default(), json: JSONContent::default(), css: CSSContent { payload } }
}

} // verus!
