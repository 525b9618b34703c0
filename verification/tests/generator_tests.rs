use std::cell::RefCell;

use mdbook_epub::book::{BookContext, Chapter};
use mdbook_epub::config::Config;
use mdbook_epub::resources::{AssetTable, Asset, AssetKind, ContentRetriever, PathProbe};
use mdbook_epub::rewrite::chapter_body;
use mdbook_epub::strutil::to_hex;
use mdbook_epub::urls::parse_url;
use mdbook_epub::{Error, Generator};

/// A scripted file system probe.
struct MapFs {
    canonical: Vec<(String, String)>,
    files: Vec<String>,
}

impl PathProbe for MapFs {
    fn canonicalize(&self, path: &str) -> Option<String> {
        self.canonical
            .iter()
            .find(|(p, _)| p == path)
            .map(|(_, c)| c.clone())
    }
    fn is_file(&self, path: &str) -> bool {
        self.files.iter().any(|f| f == path)
    }
    fn is_symlink(&self, _path: &str) -> bool {
        false
    }
}

/// A recording retriever: every download and read is noted.
struct TestHandler {
    downloads: RefCell<Vec<String>>,
    reads: RefCell<Vec<String>>,
}

impl TestHandler {
    fn new() -> TestHandler {
        TestHandler {
            downloads: RefCell::new(Vec::new()),
            reads: RefCell::new(Vec::new()),
        }
    }
}

impl ContentRetriever for TestHandler {
    fn download(&self, asset: &Asset) -> Result<(), Error> {
        self.downloads.borrow_mut().push(asset.location_on_disk.clone());
        Ok(())
    }
    fn read(&self, path: &str, buffer: &mut Vec<u8>) -> Result<(), Error> {
        self.reads.borrow_mut().push(path.to_string());
        buffer.push(0u8);
        Ok(())
    }
    fn retrieve(&self, _url: &str) -> Result<Vec<u8>, Error> {
        Ok(b"payload".to_vec())
    }
}

fn chapter_with_subs(
    name: &str,
    content: &str,
    number: Option<Vec<u32>>,
    path: Option<&str>,
    sub_items: Vec<Chapter>,
) -> Chapter {
    Chapter {
        name: name.to_string(),
        content: content.to_string(),
        number,
        path: path.map(|p| p.to_string()),
        sub_items,
    }
}

fn ctx_with(sections: Vec<Chapter>, destination: &str) -> BookContext {
    BookContext {
        version: "0.4.52".to_string(),
        root: "tests/dummy".to_string(),
        source_dir: "src".to_string(),
        destination: destination.to_string(),
        title: Some("DummyBook".to_string()),
        description: None,
        authors: Vec::new(),
        language: Some("en".to_string()),
        sections,
    }
}

#[test]
fn load_assets() {
    let png = "rust-logo.png";
    let svg = "rust-logo.svg";
    let url = "https://www.rust-lang.org/static/images/rust-logo-blk.svg";
    let content = format!(
        "# Chapter 1\n\n\
        ![Rust Logo]({png})\n\n\
        ![Rust Logo remote]({url})\n\n\
        <img alt=\"Rust Logo in html\" src=\"{svg}\" />\n"
    );
    let ctx = ctx_with(
        vec![chapter_with_subs("Chapter 1", &content, Some(vec![1]), Some("chapter_1.md"), vec![])],
        "/dest",
    );
    let fs = MapFs {
        canonical: vec![
            ("tests/dummy/src".to_string(), "/book/src".to_string()),
            ("/book/src/rust-logo.png".to_string(), "/book/src/rust-logo.png".to_string()),
            ("/book/src/rust-logo.svg".to_string(), "/book/src/rust-logo.svg".to_string()),
        ],
        files: vec![
            "/book/src/rust-logo.png".to_string(),
            "/book/src/rust-logo.svg".to_string(),
        ],
    };
    let hash = to_hex(parse_url(url).unwrap().hash);
    let cached = format!("/dest/cache/{}.svg", hash);

    let mut g = Generator::new(ctx, Config::default(), None, TestHandler::new(), fs).unwrap();
    g.find_assets().unwrap();
    assert_eq!(g.assets.len(), 3);
    g.additional_assets().unwrap();

    let downloads = g.handler.downloads.borrow().clone();
    assert_eq!(downloads, vec![cached.clone()]);
    let reads = g.handler.reads.borrow().clone();
    assert_eq!(reads.len(), 3);
    assert!(reads.contains(&"/book/src/rust-logo.png".to_string()));
    assert!(reads.contains(&"/book/src/rust-logo.svg".to_string()));
    assert!(reads.contains(&cached));
}

#[test]
fn render_assets() {
    let links = [
        "local.webp",
        "http://server/remote.svg",
        "http://server/link.png",
    ];
    let mut assets = AssetTable::new();
    assets.insert(
        links[0].to_string(),
        Asset {
            location_on_disk: format!("/root/src/{}", links[0]),
            filename: links[0].to_string(),
            mimetype: "image/webp".to_string(),
            source: AssetKind::Local(links[0].to_string()),
        },
    );
    let parts = parse_url(links[1]).unwrap();
    let hashed_filename = format!("{}.svg", to_hex(parts.hash));
    assets.insert(links[1].to_string(), Asset::from_url(&parts, "/root/book"));
    let markdown_str = format!(
        "Chapter 1\n\
        =====\n\n\
        * [link]({})\n\
        * ![Local Image]({})\n\
        * <img alt=\"Remote Image\" src=\"{}\" >\n",
        links[2], links[0], links[1]
    );

    let html_buf = chapter_body(&assets, &markdown_str, false).unwrap();

    assert_eq!(
        html_buf,
        format!(
            "<h1>Chapter 1</h1>\n\
            <ul>\n\
            <li><a href=\"{}\">link</a></li>\n\
            <li><img src=\"{}\" alt=\"Local Image\" /></li>\n\
            <li><img alt=\"Remote Image\" src=\"/cache/{}\" >\n\
            </li>\n\
            </ul>\n",
            links[2], links[0], hashed_filename
        )
    );
}

#[test]
fn render_remote_assets_in_sub_chapter() {
    let link = "https://mdbook.epub/dummy.svg";
    let sub = chapter_with_subs(
        "subchapter",
        &format!("# Subchapter\n\n![Image]({link})"),
        Some(vec![1, 1]),
        Some("chapter_1/subchapter.md"),
        vec![],
    );
    let ch1 = chapter_with_subs(
        "Chapter 1",
        &format!("# Chapter 1\n\n![Image]({link})"),
        Some(vec![1]),
        Some("chapter_1/index.md"),
        vec![sub],
    );
    let ch2 = chapter_with_subs(
        "Chapter 2",
        &format!("# Chapter 2\n\n![Image]({link})"),
        Some(vec![2]),
        Some("chapter_2.md"),
        vec![],
    );
    let ctx = ctx_with(vec![ch1, ch2], "/dest");
    let fs = MapFs {
        canonical: vec![("tests/dummy/src".to_string(), "/book/src".to_string())],
        files: vec![],
    };
    let mut g = Generator::new(ctx, Config::default(), None, TestHandler::new(), fs).unwrap();
    g.find_assets().unwrap();
    assert_eq!(g.assets.len(), 1);

    let pat = |heading: &str| {
        format!("<h1>{heading}</h1>\n<p><img src=\"/cache/811c431d49ec880b.svg\"")
    };
    let rendered = g.render_chapter(&g.ctx.sections[0]).unwrap();
    assert!(rendered.contains(&pat("Chapter 1")));
    let sub_rendered = g.render_chapter(&g.ctx.sections[0].sub_items[0]).unwrap();
    assert!(sub_rendered.contains(&pat("Subchapter")));
    let rendered2 = g.render_chapter(&g.ctx.sections[1]).unwrap();
    assert!(rendered2.contains(&pat("Chapter 2")));
}

#[test]
fn find_assets_with_wrong_src_dir() {
    let ctx = BookContext {
        version: "0.4.52".to_string(),
        root: "tests/dummy".to_string(),
        source_dir: "nosuchsrc".to_string(),
        destination: "/dest".to_string(),
        title: Some("DummyBook".to_string()),
        description: None,
        authors: Vec::new(),
        language: Some("en".to_string()),
        sections: vec![chapter_with_subs(
            "Chapter 1",
            "# Chapter 1\n\n",
            Some(vec![1]),
            Some("chapter_1.md"),
            vec![],
        )],
    };
    let fs = MapFs { canonical: vec![], files: vec![] };
    let mut g = Generator::new(ctx, Config::default(), None, TestHandler::new(), fs).unwrap();
    assert!(matches!(g.find_assets(), Err(Error::Io(_))));
}

#[test]
fn render_chapter_refuses_draft_chapters() {
    let draft = chapter_with_subs("Draft", "", None, None, vec![]);
    let ctx = ctx_with(vec![], "/dest");
    let fs = MapFs { canonical: vec![], files: vec![] };
    let g = Generator::new(ctx, Config::default(), None, TestHandler::new(), fs).unwrap();
    assert!(matches!(g.render_chapter(&draft), Err(Error::Render(_))));
}
