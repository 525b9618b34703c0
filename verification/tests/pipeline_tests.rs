use std::cell::RefCell;

use mdbook_epub::book::{toc_level, BookContext, Chapter};
use mdbook_epub::config::Config;
use mdbook_epub::resources::{Asset, ContentRetriever, PathProbe};
use mdbook_epub::urls::parse_url;
use mdbook_epub::{Error, Generator};

struct MapFs {
    canonical: Vec<(String, String)>,
    files: Vec<String>,
}

impl PathProbe for MapFs {
    fn canonicalize(&self, path: &str) -> Option<String> {
        self.canonical
            .iter()
            .find(|(p, _)| p == path)
            .map(|(_, c)| c.clone())
    }
    fn is_file(&self, path: &str) -> bool {
        self.files.iter().any(|f| f == path)
    }
    fn is_symlink(&self, _path: &str) -> bool {
        false
    }
}

struct TestHandler {
    downloads: RefCell<Vec<String>>,
    reads: RefCell<Vec<String>>,
}

impl TestHandler {
    fn new() -> TestHandler {
        TestHandler {
            downloads: RefCell::new(Vec::new()),
            reads: RefCell::new(Vec::new()),
        }
    }
}

impl ContentRetriever for TestHandler {
    fn download(&self, asset: &Asset) -> Result<(), Error> {
        self.downloads.borrow_mut().push(asset.location_on_disk.clone());
        Ok(())
    }
    fn read(&self, path: &str, buffer: &mut Vec<u8>) -> Result<(), Error> {
        self.reads.borrow_mut().push(path.to_string());
        buffer.extend_from_slice(b"bytes");
        Ok(())
    }
    fn retrieve(&self, _url: &str) -> Result<Vec<u8>, Error> {
        Ok(b"payload".to_vec())
    }
}

fn chapter_with_subs(
    name: &str,
    content: &str,
    number: Option<Vec<u32>>,
    path: Option<&str>,
    sub_items: Vec<Chapter>,
) -> Chapter {
    Chapter {
        name: name.to_string(),
        content: content.to_string(),
        number,
        path: path.map(|p| p.to_string()),
        sub_items,
    }
}

fn ctx_with(sections: Vec<Chapter>) -> BookContext {
    BookContext {
        version: "0.4.52".to_string(),
        root: "tests/dummy".to_string(),
        source_dir: "src".to_string(),
        destination: "/dest".to_string(),
        title: Some("DummyBook".to_string()),
        description: None,
        authors: Vec::new(),
        language: Some("en".to_string()),
        sections,
    }
}

fn plain_fs() -> MapFs {
    MapFs {
        canonical: vec![("tests/dummy/src".to_string(), "/book/src".to_string())],
        files: vec![],
    }
}

fn bytes_contain(haystack: &[u8], needle: &str) -> bool {
    let n = needle.as_bytes();
    haystack.windows(n.len()).any(|w| w == n)
}

#[test]
fn render_only_draft_chapters_containing_sub() {
    let draft_sub = chapter_with_subs(
        "Draft_sub",
        "",
        None,
        None,
        vec![
            chapter_with_subs("draft_1", "# Draft 1", Some(vec![1]), Some("draft_1.md"), vec![]),
            chapter_with_subs(
                "draft_2",
                "# Draft 2",
                Some(vec![2]),
                Some("draft/draft_2.md"),
                vec![],
            ),
        ],
    );
    let draft_simple = chapter_with_subs("Draft_simple", "", None, None, vec![]);
    let ctx = ctx_with(vec![draft_sub, draft_simple]);
    let g = Generator::new(ctx, Config::default(), None, TestHandler::new(), plain_fs()).unwrap();
    let bytes = g.generate().unwrap();

    assert!(bytes_contain(&bytes, "Draft_sub.html"));
    assert!(bytes_contain(&bytes, "draft_1.html"));
    assert!(bytes_contain(&bytes, "draft/draft_2.html"));
    assert!(
        !bytes_contain(&bytes, "Draft_simple.html"),
        "should not embed draft chapter"
    );
}

#[test]
fn same_remote_address_embeds_once_and_rewrites_everywhere() {
    let link = "https://example.org/pic.svg";
    let ch1 = chapter_with_subs(
        "Chapter 1",
        &format!("# One\n\n![Image]({link})"),
        Some(vec![1]),
        Some("chapter_1.md"),
        vec![],
    );
    let ch2 = chapter_with_subs(
        "Chapter 2",
        &format!("# Two\n\n![Image]({link})"),
        Some(vec![2]),
        Some("chapter_2.md"),
        vec![],
    );
    let ctx = ctx_with(vec![ch1, ch2]);
    let mut g = Generator::new(ctx, Config::default(), None, TestHandler::new(), plain_fs()).unwrap();
    g.find_assets().unwrap();

    let filename = g.assets.get(link).unwrap().filename.clone();
    let expected = format!("<img src=\"/{}\"", filename);
    let one = g.render_chapter(&g.ctx.sections[0]).unwrap();
    let two = g.render_chapter(&g.ctx.sections[1]).unwrap();
    assert!(one.contains(&expected));
    assert!(two.contains(&expected));

    g.additional_assets().unwrap();
    assert_eq!(g.handler.downloads.borrow().len(), 1);
    assert_eq!(g.handler.reads.borrow().len(), 1);
    assert_eq!(g.handler.reads.borrow()[0], format!("/dest/{}", filename));
}

#[test]
fn two_references_to_one_file_embed_one_copy() {
    let content = "# One\n\n![a](./img.png)\n\n![b](img.png)";
    let ch = chapter_with_subs("Chapter 1", content, Some(vec![1]), Some("chapter_1.md"), vec![]);
    let ctx = ctx_with(vec![ch]);
    let fs = MapFs {
        canonical: vec![
            ("tests/dummy/src".to_string(), "/book/src".to_string()),
            ("/book/src/./img.png".to_string(), "/book/src/img.png".to_string()),
            ("/book/src/img.png".to_string(), "/book/src/img.png".to_string()),
        ],
        files: vec!["/book/src/img.png".to_string()],
    };
    let mut g = Generator::new(ctx, Config::default(), None, TestHandler::new(), fs).unwrap();
    g.find_assets().unwrap();
    assert_eq!(g.assets.len(), 2);
    g.additional_assets().unwrap();
    let reads = g.handler.reads.borrow().clone();
    assert_eq!(reads, vec!["/book/src/img.png".to_string()]);
}

#[test]
fn missing_local_file_aborts_before_any_package_is_written() {
    let ch = chapter_with_subs(
        "Chapter 1",
        "# One\n\n![gone](missing.png)",
        Some(vec![1]),
        Some("chapter_1.md"),
        vec![],
    );
    let ctx = ctx_with(vec![ch]);
    let g = Generator::new(ctx, Config::default(), None, TestHandler::new(), plain_fs()).unwrap();
    match g.generate() {
        Err(Error::AssetFileNotFound(m)) => {
            assert_eq!(m, "Asset was not found: missing.png");
        }
        Err(other) => panic!("expected a resolution failure, got {:?}", other),
        Ok(_) => panic!("the run must abort, not produce a package"),
    }
}

#[test]
fn package_version_gate_runs_before_generation() {
    let mut config = Config::default();
    config.epub_version = Some(3);
    let ctx = ctx_with(vec![]);
    assert!(Generator::new(ctx, config, None, TestHandler::new(), plain_fs()).is_ok());

    let mut config = Config::default();
    config.epub_version = Some(42);
    let ctx = ctx_with(vec![]);
    match Generator::new(ctx, config, None, TestHandler::new(), plain_fs()) {
        Err(Error::EpubDocCreate(_)) => {}
        other => panic!("expected a configuration failure, got {:?}", other.is_ok()),
    }
}

#[test]
fn nesting_levels_from_section_numbers() {
    assert_eq!(toc_level(&Some(vec![1, 2])), 1);
    assert_eq!(toc_level(&Some(vec![1])), 0);
    assert_eq!(toc_level(&None), 0);
}

#[test]
fn local_reference_round_trip() {
    let ch = chapter_with_subs(
        "Page",
        "# Page\n\n![img](./img.png)",
        Some(vec![1]),
        Some("ch/page.md"),
        vec![],
    );
    let ctx = BookContext {
        version: "0.4.52".to_string(),
        root: ".".to_string(),
        source_dir: "src".to_string(),
        destination: "/dest".to_string(),
        title: Some("Book".to_string()),
        description: None,
        authors: Vec::new(),
        language: None,
        sections: vec![ch],
    };
    let fs = MapFs {
        canonical: vec![
            ("./src".to_string(), "/abs/src".to_string()),
            ("/abs/src/ch/./img.png".to_string(), "/abs/src/ch/img.png".to_string()),
        ],
        files: vec!["/abs/src/ch/img.png".to_string()],
    };
    let mut g = Generator::new(ctx, Config::default(), None, TestHandler::new(), fs).unwrap();
    g.find_assets().unwrap();

    let asset = g.assets.get("./img.png").unwrap();
    assert_eq!(asset.location_on_disk, "/abs/src/ch/img.png");
    assert_eq!(asset.filename, "ch/img.png");

    let rendered = g.render_chapter(&g.ctx.sections[0]).unwrap();
    assert!(rendered.contains("src=\"./img.png\""));

    let bytes = g.generate().unwrap();
    assert!(bytes_contain(&bytes, "OEBPS/ch/img.png"));
}

/// A retriever whose byte reads always fail.
struct FailingReader;

impl ContentRetriever for FailingReader {
    fn download(&self, _asset: &Asset) -> Result<(), Error> {
        Ok(())
    }
    fn read(&self, _path: &str, _buffer: &mut Vec<u8>) -> Result<(), Error> {
        Err(Error::Io("no bytes here".to_string()))
    }
    fn retrieve(&self, _url: &str) -> Result<Vec<u8>, Error> {
        Err(Error::Io("no network here".to_string()))
    }
}

#[test]
fn malformed_template_is_rejected() {
    let mut config = Config::default();
    config.index_template = Some("custom.hbs".to_string());
    let ctx = ctx_with(vec![]);
    let custom = Some("{{#if}}broken".to_string());
    match Generator::new(ctx, config, custom, TestHandler::new(), plain_fs()) {
        Err(Error::TemplateParse) => {}
        other => panic!("expected a template failure, got {:?}", other.is_ok()),
    }
}

#[test]
fn unresolvable_stylesheet_fails_the_run() {
    let mut config = Config::default();
    config.additional_css = vec!["theme/extra.css".to_string()];
    let ctx = ctx_with(vec![]);
    let g = Generator::new(ctx, config, None, TestHandler::new(), plain_fs()).unwrap();
    match g.generate() {
        Err(Error::CssOpen(p)) => assert_eq!(p, "theme/extra.css"),
        other => panic!("expected a stylesheet failure, got {:?}", other.is_ok()),
    }
}

#[test]
fn unreadable_stylesheet_fails_the_run() {
    let mut config = Config::default();
    config.additional_css = vec!["extra.css".to_string()];
    let ctx = ctx_with(vec![]);
    let fs = MapFs {
        canonical: vec![
            ("tests/dummy/src".to_string(), "/book/src".to_string()),
            ("extra.css".to_string(), "/book/extra.css".to_string()),
        ],
        files: vec!["/book/extra.css".to_string()],
    };
    let g = Generator::new(ctx, config, None, FailingReader, fs).unwrap();
    assert!(matches!(g.generate(), Err(Error::StylesheetRead)));
}

#[test]
fn unreadable_asset_fails_the_run() {
    let ch = chapter_with_subs(
        "Chapter 1",
        "# One\n\n![a](img.png)",
        Some(vec![1]),
        Some("chapter_1.md"),
        vec![],
    );
    let ctx = ctx_with(vec![ch]);
    let fs = MapFs {
        canonical: vec![
            ("tests/dummy/src".to_string(), "/book/src".to_string()),
            ("/book/src/img.png".to_string(), "/book/src/img.png".to_string()),
        ],
        files: vec!["/book/src/img.png".to_string()],
    };
    let g = Generator::new(ctx, Config::default(), None, FailingReader, fs).unwrap();
    assert!(matches!(g.generate(), Err(Error::AssetOpen)));
}

#[test]
fn cover_image_is_embedded_when_configured() {
    let mut config = Config::default();
    config.cover_image = Some("cover.png".to_string());
    let ctx = ctx_with(vec![]);
    let fs = MapFs {
        canonical: vec![
            ("tests/dummy/src".to_string(), "/book/src".to_string()),
            ("cover.png".to_string(), "/book/cover.png".to_string()),
        ],
        files: vec!["/book/cover.png".to_string()],
    };
    let g = Generator::new(ctx, config, None, TestHandler::new(), fs).unwrap();
    let bytes = g.generate().unwrap();
    assert!(bytes_contain(&bytes, "OEBPS/cover.png"));
}

#[test]
fn extra_resources_are_embedded_under_their_configured_names() {
    let mut config = Config::default();
    config.additional_resources = vec!["fonts/face.otf".to_string()];
    let ctx = ctx_with(vec![]);
    let fs = MapFs {
        canonical: vec![
            ("tests/dummy/src".to_string(), "/book/src".to_string()),
            ("tests/dummy/src/fonts/face.otf".to_string(), "/book/src/fonts/face.otf".to_string()),
        ],
        files: vec!["/book/src/fonts/face.otf".to_string()],
    };
    let g = Generator::new(ctx, config, None, TestHandler::new(), fs).unwrap();
    let bytes = g.generate().unwrap();
    assert!(bytes_contain(&bytes, "OEBPS/fonts/face.otf"));
}

#[test]
fn remote_resolution_is_idempotent() {
    let link = "https://example.org/pic.svg";
    let first = parse_url(link).unwrap();
    let second = parse_url(link).unwrap();
    assert_eq!(first.canonical, second.canonical);
    assert_eq!(first.hash, second.hash);
    let here = Asset::from_url(&first, "/dest");
    let elsewhere = Asset::from_url(&second, "/elsewhere");
    assert_eq!(here.filename, elsewhere.filename);
}

#[test]
fn known_remote_address_has_its_known_cache_name() {
    let parts = parse_url("https://mdbook.epub/dummy.svg").unwrap();
    let asset = Asset::from_url(&parts, "/dest");
    assert_eq!(asset.filename, "cache/811c431d49ec880b.svg");
    assert_eq!(asset.location_on_disk, "/dest/cache/811c431d49ec880b.svg");
}
