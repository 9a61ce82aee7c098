use gatewaynode::file_name::{file_extension, file_stem};
use gatewaynode::pages::{file_kind, is_markdown_file, FileKind};

#[test]
fn extension_of_markdown_file() {
    assert_eq!(file_extension("post.md"), Some(String::from("md")));
    assert_eq!(file_stem("post.md"), "post");
}

#[test]
fn extension_is_after_last_dot() {
    assert_eq!(file_extension("archive.tar.gz"), Some(String::from("gz")));
    assert_eq!(file_stem("archive.tar.gz"), "archive.tar");
}

#[test]
fn name_without_dot_has_no_extension() {
    assert_eq!(file_extension("README"), None);
    assert_eq!(file_stem("README"), "README");
}

#[test]
fn leading_dot_is_no_extension() {
    assert_eq!(file_extension(".bashrc"), None);
    assert_eq!(file_stem(".bashrc"), ".bashrc");
    assert_eq!(file_extension(".config.json"), Some(String::from("json")));
    assert_eq!(file_stem(".config.json"), ".config");
}

#[test]
fn parent_name_has_no_extension() {
    assert_eq!(file_extension(".."), None);
    assert_eq!(file_stem(".."), "..");
}

#[test]
fn trailing_dot_gives_empty_extension() {
    assert_eq!(file_extension("draft."), Some(String::new()));
    assert_eq!(file_stem("draft."), "draft");
}

#[test]
fn names_agree_with_std_path() {
    for name in ["post.md", "a.b.c", ".hidden", "x.", "plain", "é.md", ".a.b"] {
        let p = std::path::Path::new(name);
        let ext = p.extension().map(|e| e.to_string_lossy().into_owned());
        let stem = p.file_stem().unwrap().to_string_lossy().into_owned();
        assert_eq!(file_extension(name), ext, "extension of {}", name);
        assert_eq!(file_stem(name), stem, "stem of {}", name);
    }
}

#[test]
fn stem_dot_extension_rebuilds_name() {
    for name in ["post.md", "archive.tar.gz", "draft.", ".config.json"] {
        let ext = file_extension(name).unwrap();
        assert_eq!(format!("{}.{}", file_stem(name), ext), name);
    }
}

#[test]
fn kinds_by_extension() {
    assert_eq!(file_kind("page.md"), FileKind::Markdown);
    assert_eq!(file_kind("page.json"), FileKind::Json);
    assert_eq!(file_kind("page.css"), FileKind::Css);
    assert_eq!(file_kind("page.txt"), FileKind::Other);
    assert_eq!(file_kind("page.MD"), FileKind::Other);
    assert!(is_markdown_file("page.md"));
    assert!(!is_markdown_file("page.mdx"));
    assert!(!is_markdown_file("md.json"));
}
