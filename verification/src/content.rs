use vstd::prelude::*;

verus! {

/// A markdown page: when its file was created (seconds since the Unix
/// epoch), its title and its body rendered as HTML.
#[derive(Debug, PartialEq, Eq)]
pub struct MDContent {
    pub created: i64,
    pub title: String,
    pub body: String,
}

/// What a JSON side file of a page holds.
#[derive(Debug, PartialEq, Eq)]
pub struct JSONContent {
    pub payload: String,
}

/// What a CSS side file of a page holds.
#[derive(Debug, PartialEq, Eq)]
pub struct CSSContent {
    pub payload: String,
}

/// Everything that is known of one page: its markdown and its side files.
#[derive(Debug, PartialEq, Eq)]
pub struct PageContent {
    pub markdown: MDContent,
    pub json: JSONContent,
    pub css: CSSContent,
}

/// A post as the front page of the first version of the site shows it.
#[derive(Debug, PartialEq, Eq)]
pub struct Post {
    pub id: i32,
    pub title: String,
    pub body: String,
}

/// The abstract value of an [`MDContent`].
pub struct MDContentView {
    pub created: i64,
    pub title: Seq<char>,
    pub body: Seq<char>,
}

/// The abstract value of a [`PageContent`].
pub struct PageContentView {
    pub markdown: MDContentView,
    pub json: Seq<char>,
    pub css: Seq<char>,
}

/// The abstract value of a [`Post`].
pub struct PostView {
    pub id: i32,
    pub title: Seq<char>,
    pub body: Seq<char>,
}

impl View for MDContent {
    type V = MDContentView;

    open spec fn view(&self) -> MDContentView {
        MDContentView { created: self.created, title: self.title@, body: self.body@ }
    }
}

impl View for JSONContent {
    type V = Seq<char>;

    open spec fn view(&self) -> Seq<char> {
        self.payload@
    }
}

impl View for CSSContent {
    type V = Seq<char>;

    open spec fn view(&self) -> Seq<char> {
        self.payload@
    }
}

impl View for PageContent {
    type V = PageContentView;

    open spec fn view(&self) -> PageContentView {
        PageContentView { markdown: self.markdown@, json: self.json@, css: self.css@ }
    }
}

impl View for Post {
    type V = PostView;

    open spec fn view(&self) -> PostView {
        PostView { id: self.id, title: self.title@, body: self.body@ }
    }
}

/// The markdown part of a page that has no markdown file: created at the
/// epoch, with title and body both `None`.
pub open spec fn default_markdown_view() -> MDContentView {
    MDContentView { created: 0, title: "None"@, body: "None"@ }
}

/// A page of which nothing has been loaded.
pub open spec fn default_page_view() -> PageContentView {
    PageContentView {
        markdown: default_markdown_view(),
        json: Seq::empty(),
        css: Seq::empty(),
    }
}

impl Default for MDContent {
    fn default() -> (r: Self)
        ensures
            r@ == default_markdown_view(),
            r.created == 0,
            r.title@ == "None"@,
            r.body@ == "None"@,
    {
        MDContent { created: 0, title: String::from_str("None"), body: String::from_str("None") }
    }
}

impl Default for JSONContent {
    fn default() -> (r: Self)
        ensures
            r@ == Seq::<char>::empty(),
    {
        JSONContent { payload: String::new() }
    }
}

impl Default for CSSContent {
    fn default() -> (r: Self)
        ensures
            r@ == Seq::<char>::empty(),
    {
        CSSContent { payload: String::new() }
    }
}

impl Default for PageContent {
    fn default() -> (r: Self)
        ensures
            r@ == default_page_view(),
            r.markdown.created == 0,
            r.markdown.title@ == "None"@,
            r.markdown.body@ == "None"@,
            r.json.payload@ == Seq::<char>::empty(),
            r.css.payload@ == Seq::<char>::empty(),
    {
        PageContent {
            markdown: MDContent::default(),
            json: JSONContent::default(),
            css: CSSContent::default(),
        }
    }
}

/// The post that the first version of the front page renders.
pub fn index_post() -> (r: Post)
    ensures
        r@ == (PostView { id: 0, title: "This"@, body: "works"@ }),
{
    Post { id: 0, title: String::from_str("This"), body: String::from_str("works") }
}

} // verus!
