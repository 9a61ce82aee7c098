use gatewaynode::content::{CSSContent, JSONContent, MDContent, PageContent};
use gatewaynode::ordering::sort_by_created;
use gatewaynode::pages::{assemble_pages, group_parts, PagePart, PartContent};
use gatewaynode::rendering::{markdown_content, render_markdown};

fn md(created: i64, title: &str) -> MDContent {
    MDContent { created, title: String::from(title), body: format!("<p>{}</p>\n", title) }
}

fn part(stem: &str, content: PartContent) -> PagePart {
    PagePart { stem: String::from(stem), content }
}

#[test]
fn default_markdown_is_epoch_and_none() {
    let m = MDContent::default();
    assert_eq!(m.created, 0);
    assert_eq!(m.title, "None");
    assert_eq!(m.body, "None");
    let p = PageContent::default();
    assert_eq!(p.markdown, MDContent::default());
    assert_eq!(p.json.payload, "");
    assert_eq!(p.css.payload, "");
}

#[test]
fn markdown_is_rendered_as_html() {
    assert_eq!(render_markdown("hello"), "<p>hello</p>\n");
    assert_eq!(render_markdown("# Hi"), "<h1 id='hi'>Hi</h1>\n");
    assert!(render_markdown("").ends_with('\n'));
}

#[test]
fn markdown_content_is_titled_by_stem() {
    let m = markdown_content("first post.md", 42, "hello");
    assert_eq!(m.created, 42);
    assert_eq!(m.title, "first post");
    assert_eq!(m.body, "<p>hello</p>\n");
}

#[test]
fn sorting_orders_by_creation_time() {
    let v = vec![md(30, "c"), md(10, "a"), md(20, "b"), md(-5, "z")];
    let r = sort_by_created(v);
    let titles: Vec<&str> = r.iter().map(|m| m.title.as_str()).collect();
    assert_eq!(titles, vec!["z", "a", "b", "c"]);
}

#[test]
fn sorting_keeps_every_item() {
    let v = vec![md(5, "x"), md(5, "y"), md(1, "w"), md(5, "x")];
    let r = sort_by_created(v);
    assert_eq!(r.len(), 4);
    assert_eq!(r[0].title, "w");
    let mut rest: Vec<&str> = r[1..].iter().map(|m| m.title.as_str()).collect();
    rest.sort();
    assert_eq!(rest, vec!["x", "x", "y"]);
    assert!(r.windows(2).all(|w| w[0].created <= w[1].created));
}

#[test]
fn sorting_nothing_gives_nothing() {
    let r: Vec<MDContent> = sort_by_created(Vec::new());
    assert!(r.is_empty());
}

#[test]
fn parts_are_grouped_by_stem_in_first_appearance_order() {
    let parts = vec![
        part("b", PartContent::Json(JSONContent { payload: String::from("{}") })),
        part("a", PartContent::Markdown(md(7, "a"))),
        part("b", PartContent::Markdown(md(3, "b"))),
        part("a", PartContent::Css(CSSContent { payload: String::from("p{}") })),
        part("c", PartContent::Other),
    ];
    let pages = group_parts(parts);
    assert_eq!(pages.len(), 3);
    assert_eq!(pages[0].markdown.title, "b");
    assert_eq!(pages[0].json.payload, "{}");
    assert_eq!(pages[0].css.payload, "");
    assert_eq!(pages[1].markdown.title, "a");
    assert_eq!(pages[1].css.payload, "p{}");
    assert_eq!(pages[2], PageContent::default());
}

#[test]
fn later_file_of_a_kind_replaces_earlier() {
    let parts = vec![
        part("a", PartContent::Json(JSONContent { payload: String::from("1") })),
        part("a", PartContent::Json(JSONContent { payload: String::from("2") })),
    ];
    let pages = group_parts(parts);
    assert_eq!(pages.len(), 1);
    assert_eq!(pages[0].json.payload, "2");
}

#[test]
fn assembled_pages_are_sorted_by_markdown_creation() {
    let parts = vec![
        part("late", PartContent::Markdown(md(100, "late"))),
        part("style", PartContent::Css(CSSContent { payload: String::from("x") })),
        part("early", PartContent::Markdown(md(1, "early"))),
        part("late", PartContent::Json(JSONContent { payload: String::from("j") })),
    ];
    let pages = assemble_pages(parts);
    assert_eq!(pages.len(), 3);
    assert_eq!(pages[0].markdown.title, "None");
    assert_eq!(pages[0].css.payload, "x");
    assert_eq!(pages[1].markdown.title, "early");
    assert_eq!(pages[2].markdown.title, "late");
    assert_eq!(pages[2].json.payload, "j");
}

#[test]
fn no_parts_no_pages() {
    assert!(assemble_pages(Vec::new()).is_empty());
}

#[test]
fn markdown_listing_matches_markdown_of_pages() {
    // A directory with a.md, a.json, b.css, c.md, d.txt.
    let parts = vec![
        part("a", PartContent::Markdown(md(20, "a"))),
        part("a", PartContent::Json(JSONContent { payload: String::from("{}") })),
        part("b", PartContent::Css(CSSContent { payload: String::from("x") })),
        part("c", PartContent::Markdown(md(10, "c"))),
        part("d", PartContent::Other),
    ];
    let listing = sort_by_created(vec![md(20, "a"), md(10, "c")]);
    let pages = assemble_pages(parts);
    let from_pages: Vec<&MDContent> = pages
        .iter()
        .filter(|p| p.markdown != MDContent::default())
        .map(|p| &p.markdown)
        .collect();
    assert_eq!(listing.len(), from_pages.len());
    for (l, p) in listing.iter().zip(from_pages.iter()) {
        assert_eq!(l, *p);
    }
}
