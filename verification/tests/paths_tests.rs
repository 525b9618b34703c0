use mdbook_epub::normalize_path;
use mdbook_epub::output_filename;
use mdbook_epub::paths::{
    extension_of, join_path, parent_of, path_prefix, strip_prefix_path, stylesheet_rel_path,
    with_extension,
};

#[test]
fn normalize_keeps_plain_paths() {
    assert_eq!(normalize_path("a/b/c"), "a/b/c");
    assert_eq!(normalize_path("/a/b"), "/a/b");
}

#[test]
fn normalize_drops_dot_components() {
    assert_eq!(normalize_path("./rust-logo.png"), "rust-logo.png");
    assert_eq!(normalize_path("a/./b"), "a/b");
    assert_eq!(normalize_path("."), "");
}

#[test]
fn normalize_pops_on_parent_components() {
    assert_eq!(normalize_path("a/../b"), "b");
    assert_eq!(normalize_path("a/b/../../c"), "c");
    assert_eq!(normalize_path("../x"), "x");
    assert_eq!(normalize_path("/a/../b"), "/b");
}

#[test]
fn normalize_collapses_separators() {
    assert_eq!(normalize_path("a//b/"), "a/b");
    assert_eq!(normalize_path("/"), "/");
    assert_eq!(normalize_path(""), "");
}

#[test]
fn join_path_behaviour() {
    assert_eq!(join_path("a", "b"), "a/b");
    assert_eq!(join_path("", "b"), "b");
    assert_eq!(join_path("a/", "b"), "a/b");
    assert_eq!(join_path("a", "/b"), "/b");
}

#[test]
fn parent_of_behaviour() {
    assert_eq!(parent_of("a/b/c"), Some("a/b".to_string()));
    assert_eq!(parent_of("chapter_1.md"), Some("".to_string()));
    assert_eq!(parent_of("/a"), Some("/".to_string()));
    assert_eq!(parent_of(""), None);
    assert_eq!(parent_of("/"), None);
}

#[test]
fn extension_behaviour() {
    assert_eq!(extension_of("a/b.svg"), Some("svg".to_string()));
    assert_eq!(extension_of("archive.tar.gz"), Some("gz".to_string()));
    assert_eq!(extension_of(".hidden"), None);
    assert_eq!(extension_of("name"), None);
    assert_eq!(extension_of("trailing."), Some("".to_string()));
}

#[test]
fn with_extension_behaviour() {
    assert_eq!(with_extension("ch/page.md", "html"), "ch/page.html");
    assert_eq!(with_extension("name", "epub"), "name.epub");
    assert_eq!(with_extension("v1.2", "epub"), "v1.epub");
}

#[test]
fn strip_prefix_behaviour() {
    assert_eq!(
        strip_prefix_path("/src/ch/img.png", "/src"),
        Some("ch/img.png".to_string())
    );
    assert_eq!(strip_prefix_path("/other/x", "/src"), None);
    assert_eq!(strip_prefix_path("a/b", ""), Some("a/b".to_string()));
}

#[test]
fn path_prefix_addresses_the_package_root() {
    assert_eq!(path_prefix("cache/811c.svg"), "/cache/811c.svg");
    assert_eq!(path_prefix("img.png"), "/img.png");
}

#[test]
fn stylesheet_path_climbs_one_level_per_component() {
    assert_eq!(stylesheet_rel_path(""), "stylesheet.css");
    assert_eq!(stylesheet_rel_path("chapter_1"), "../stylesheet.css");
    assert_eq!(stylesheet_rel_path("a/b"), "../../stylesheet.css");
}

#[test]
fn output_filename_uses_title_or_fallback() {
    assert_eq!(
        output_filename("dest", &Some("DummyBook".to_string())),
        "dest/DummyBook.epub"
    );
    assert_eq!(output_filename("dest", &None), "dest/book.epub");
    assert_eq!(
        output_filename("dest", &Some("v1.2".to_string())),
        "dest/v1.epub"
    );
}
