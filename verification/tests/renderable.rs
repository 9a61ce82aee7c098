use gatewaynode::renderable::markdown_renders_safely;
use gatewaynode::rendering::render_markdown;

#[test]
fn ordinary_markdown_is_renderable() {
    let texts = [
        "",
        "hello",
        "# Title\n\nSome *text* with a [link](http://example.com \"t\").",
        "- one\n- two\n  - nested",
        "1. first\n2. second",
        "> quoted\n> more",
        "```rust\nlet x = 1;\n```",
        "Prix: 5€ et «citation»",
        "Ends with a sentence. ",
        "line\r\nother\r\n",
        "é\"",
        "[a](b\u{3000}\"t\")",
        "![a](b\u{a0}\"t\") after",
        "- \nbar",
        "text\n  - \nmore",
        "€```",
        "aé```",
        "\t€```",
    ];
    for t in texts {
        assert!(markdown_renders_safely(t), "{:?}", t);
        assert!(render_markdown(t).ends_with('\n'), "{:?}", t);
    }
}

#[test]
fn unfilled_list_items_are_refused() {
    for t in [
        "- ",
        "* ",
        "+ ",
        "1. ",
        "> - ",
        "- \r\n",
        "- \n- foo",
        "- \n\n",
        "- a\n  - \r\r\n",
        "intro\n- \n2020 was a year",
    ] {
        assert!(!markdown_renders_safely(t), "{:?}", t);
    }
}

#[test]
fn fences_cut_inside_a_character_are_refused() {
    assert!(!markdown_renders_safely("a€```"));
    assert!(!markdown_renders_safely("é€```"));
    assert!(!markdown_renders_safely("ok\n> a€```"));
    assert!(markdown_renders_safely("€ on its own line\n```\ncode\n```"));
}
