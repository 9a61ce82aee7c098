use gatewaynode::content::{index_post, MDContent, PageContent};
use gatewaynode::single_page::{
    css_page, json_page, markdown_page, single_page_after_probe, single_page_start, SideFile,
    SinglePageStep,
};
use gatewaynode::text::{blog_post_path, not_found_message, replace_all, robots_txt};

#[test]
fn markdown_page_is_read_itself() {
    assert_eq!(single_page_start("/blog/post.md", "post.md"), SinglePageStep::ReadMarkdown);
}

#[test]
fn other_page_probes_json_then_css() {
    let first = single_page_start("/blog/a.md.txt", "a.md.txt");
    assert_eq!(
        first,
        SinglePageStep::Probe { probe: String::from("/blog/ajson.txt"), side: SideFile::Json }
    );
    assert_eq!(
        single_page_after_probe("/blog/a.md.txt", SideFile::Json, true),
        SinglePageStep::ReadJson { path: String::from("/blog/a.json.txt") }
    );
    assert_eq!(
        single_page_after_probe("/blog/a.md.txt", SideFile::Json, false),
        SinglePageStep::Probe { probe: String::from("/blog/acss.txt"), side: SideFile::Css }
    );
    assert_eq!(
        single_page_after_probe("/blog/a.md.txt", SideFile::Css, true),
        SinglePageStep::ReadCss { path: String::from("/blog/a.css.txt") }
    );
    assert_eq!(
        single_page_after_probe("/blog/a.md.txt", SideFile::Css, false),
        SinglePageStep::Finish
    );
}

#[test]
fn path_without_md_is_probed_unchanged() {
    assert_eq!(
        single_page_start("/blog/data.json", "data.json"),
        SinglePageStep::Probe { probe: String::from("/blog/data.json"), side: SideFile::Json }
    );
}

#[test]
fn single_page_holds_one_part() {
    let m = MDContent { created: 9, title: String::from("t"), body: String::from("b") };
    let p = markdown_page(m);
    assert_eq!(p.markdown.created, 9);
    assert_eq!(p.markdown.title, "t");
    assert_eq!(p.markdown.body, "b");
    assert_eq!(p.json.payload, "");
    let j = json_page(String::from("{\"a\":1}"));
    assert_eq!(j.markdown, MDContent::default());
    assert_eq!(j.json.payload, "{\"a\":1}");
    assert_eq!(j.css.payload, "");
    let c = css_page(String::from("body{}"));
    assert_eq!(c.css.payload, "body{}");
    assert_eq!(c.json.payload, "");
    assert_eq!(c.markdown, PageContent::default().markdown);
}

#[test]
fn replace_all_replaces_every_occurrence() {
    assert_eq!(replace_all("a.md.md", ".md", "json"), "ajsonjson");
    assert_eq!(replace_all("x.mmd", ".md", "!"), "x.mmd");
    assert_eq!(replace_all("", ".md", "!"), "");
    assert_eq!(replace_all("aaa", "aa", "b"), "ba");
    assert_eq!(replace_all("é.md", ".md", ".css"), "é.css");
    assert_eq!(replace_all("p.md/q.md", ".md", ".json"), "p.md/q.md".replace(".md", ".json"));
}

#[test]
fn blog_post_path_joins_dir_title_and_md() {
    assert_eq!(
        blog_post_path("Hello world"),
        "/home/anon/Documents/gatewaynode_notes/website/blog/Hello world.md"
    );
}

#[test]
fn not_found_names_the_path() {
    assert_eq!(
        not_found_message("/nope"),
        "<p>Sorry, but '/nope' is not a valid path!</p>"
    );
}

#[test]
fn robots_allow_everything() {
    assert_eq!(
        robots_txt(),
        "User-agents: *\nAllow: *\n\nSitemap: https://gatewaynode.com/sitemap.xml"
    );
}

#[test]
fn first_front_page_post() {
    let p = index_post();
    assert_eq!(p.id, 0);
    assert_eq!(p.title, "This");
    assert_eq!(p.body, "works");
}
