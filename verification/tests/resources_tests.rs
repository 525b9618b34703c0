use mdbook_epub::book::{BookContext, Chapter};
use mdbook_epub::normalize_path;
use mdbook_epub::resources::{find, find_assets_in_markdown, Asset, AssetKind, PathProbe};
use mdbook_epub::urls::parse_url;

/// A scripted file system: exact path strings mapped to canonical forms.
struct MapFs {
    canonical: Vec<(String, String)>,
    files: Vec<String>,
    symlinks: Vec<String>,
}

impl PathProbe for MapFs {
    fn canonicalize(&self, path: &str) -> Option<String> {
        self.canonical
            .iter()
            .find(|(p, _)| p == path)
            .map(|(_, c)| c.clone())
    }
    fn is_file(&self, path: &str) -> bool {
        self.files.iter().any(|f| f == path)
    }
    fn is_symlink(&self, path: &str) -> bool {
        self.symlinks.iter().any(|f| f == path)
    }
}

fn chapter(name: &str, content: &str, number: Option<Vec<u32>>, path: Option<&str>) -> Chapter {
    Chapter {
        name: name.to_string(),
        content: content.to_string(),
        number,
        path: path.map(|p| p.to_string()),
        sub_items: Vec::new(),
    }
}

fn ctx_with(sections: Vec<Chapter>, destination: &str) -> BookContext {
    BookContext {
        version: "0.4.52".to_string(),
        root: "tests/dummy".to_string(),
        source_dir: "src".to_string(),
        destination: destination.to_string(),
        title: Some("DummyBook".to_string()),
        description: None,
        authors: Vec::new(),
        language: Some("en".to_string()),
        sections,
    }
}

#[test]
fn find_images() {
    let src = "![Image 1](./rust-logo.png)\n[a link](to/nowhere) ![Image 2][2]\n\n[2]: reddit.svg\n\
        \n\n<img alt=\"Rust Logo in html\" src=\"rust-logo.svg\" class=\"center\" style=\"width: 20%;\" />\n\n\
        ![Image 4](./rust-logo.png)\n[a link](to/nowhere)";
    let got = find_assets_in_markdown(src).unwrap();
    let should_be = vec![
        "./rust-logo.png".to_string(),
        "reddit.svg".to_string(),
        "rust-logo.svg".to_string(),
    ];
    assert_eq!(got, should_be);
}

#[test]
fn find_local_asset() {
    let link = "./rust-logo.png";
    let link2 = "./epub-logo.svg";
    let content = format!("# Chapter 1\r\n\r\n![Image]({link})\r\n![Image]({link2})");
    let ctx = ctx_with(
        vec![chapter("Chapter 1", &content, Some(vec![1]), Some("chapter_1.md"))],
        "/dest",
    );
    let fs = MapFs {
        canonical: vec![
            ("tests/dummy/src".to_string(), "/book/src".to_string()),
            (
                "/book/src/./rust-logo.png".to_string(),
                "/book/src/rust-logo.png".to_string(),
            ),
            (
                "/book/src/./epub-logo.svg".to_string(),
                "/book/src/epub-logo.svg".to_string(),
            ),
        ],
        files: vec![
            "/book/src/rust-logo.png".to_string(),
            "/book/src/epub-logo.svg".to_string(),
        ],
        symlinks: vec![],
    };
    let assets = find(&ctx, &fs).unwrap();
    assert!(assets.len() == 2);

    fn assert_asset(a: &Asset, link: &str, canonical: &str) {
        let filename = normalize_path(link);
        let should_be = Asset::new(
            filename.clone(),
            canonical.to_string(),
            AssetKind::Local(link.to_string()),
        );
        assert_eq!(*a, should_be);
        assert_eq!(a.filename, filename);
        assert!(matches!(&a.source, AssetKind::Local(l) if l == link));
    }
    assert_asset(assets.get(link).unwrap(), link, "/book/src/rust-logo.png");
    assert_asset(assets.get(link2).unwrap(), link2, "/book/src/epub-logo.svg");
}

#[test]
fn find_remote_asset() {
    let link = "https://www.rust-lang.org/static/images/rust-logo-blk.svg";
    let link2 = "https://www.rust-lang.org/static/images/rust-logo-blk.png";
    let content =
        format!("# Chapter 1\r\n\r\n![Image]({link})\r\n<a href=\"\"><img  src=\"{link2}\"></a>");
    let ctx = ctx_with(
        vec![chapter("Chapter 1", &content, Some(vec![1]), Some("chapter_1.md"))],
        "/dest",
    );
    let fs = MapFs {
        canonical: vec![("tests/dummy/src".to_string(), "/book/src".to_string())],
        files: vec![],
        symlinks: vec![],
    };
    let assets = find(&ctx, &fs).unwrap();
    assert!(assets.len() == 2);

    let parts = parse_url(link).unwrap();
    let should_be = Asset::from_url(&parts, "/dest");
    let got = assets.get(link).unwrap();
    assert_eq!(*got, should_be);
    assert!(got.filename.starts_with("cache/"));
    assert!(got.filename.ends_with(".svg"));
    assert_eq!(got.location_on_disk, format!("/dest/{}", got.filename));
    assert_eq!(got.mimetype, "image/svg+xml");
    assert!(matches!(&got.source, AssetKind::Remote(c) if c == link));
}

#[test]
fn find_draft_chapter_without_error() {
    let ctx = ctx_with(vec![chapter("Chapter 1", "", Some(vec![1]), None)], "/dest");
    let fs = MapFs {
        canonical: vec![("tests/dummy/src".to_string(), "/book/src".to_string())],
        files: vec![],
        symlinks: vec![],
    };
    let assets = find(&ctx, &fs).unwrap();
    assert!(assets.len() == 0);
}

#[test]
fn missing_local_asset_is_a_resolution_failure() {
    let content = "# Chapter 1\r\n\r\n![Image](missing.png)";
    let ctx = ctx_with(
        vec![chapter("Chapter 1", content, Some(vec![1]), Some("chapter_1.md"))],
        "/dest",
    );
    let fs = MapFs {
        canonical: vec![("tests/dummy/src".to_string(), "/book/src".to_string())],
        files: vec![],
        symlinks: vec![],
    };
    match find(&ctx, &fs) {
        Err(mdbook_epub::Error::AssetFileNotFound(m)) => {
            assert_eq!(m, "Asset was not found: missing.png");
        }
        other => panic!("expected a resolution failure, got {:?}", other.map(|t| t.len())),
    }
}

#[test]
fn directory_asset_is_a_distinct_failure() {
    let content = "# Chapter 1\r\n\r\n![Image](wikimedia)";
    let ctx = ctx_with(
        vec![chapter("Chapter 1", content, Some(vec![1]), Some("third_party/a.md"))],
        "/dest",
    );
    let fs = MapFs {
        canonical: vec![
            ("tests/dummy/src".to_string(), "/book/src".to_string()),
            (
                "/book/src/third_party/wikimedia".to_string(),
                "/book/src/third_party/wikimedia".to_string(),
            ),
        ],
        files: vec![],
        symlinks: vec![],
    };
    match find(&ctx, &fs) {
        Err(mdbook_epub::Error::AssetFile(p)) => {
            assert_eq!(p, "/book/src/third_party/wikimedia");
        }
        other => panic!("expected a not-a-file failure, got {:?}", other.map(|t| t.len())),
    }
}

#[test]
fn symlinked_asset_keeps_its_unresolved_package_path() {
    let content = "# Chapter 1\r\n\r\n![Image](linked.png)";
    let ctx = ctx_with(
        vec![chapter("Chapter 1", content, Some(vec![1]), Some("chapter_1.md"))],
        "/dest",
    );
    let fs = MapFs {
        canonical: vec![
            ("tests/dummy/src".to_string(), "/book/src".to_string()),
            (
                "/book/src/linked.png".to_string(),
                "/elsewhere/target.png".to_string(),
            ),
        ],
        files: vec!["/elsewhere/target.png".to_string()],
        symlinks: vec!["/book/src/linked.png".to_string()],
    };
    let assets = find(&ctx, &fs).unwrap();
    let got = assets.get("linked.png").unwrap();
    assert_eq!(got.filename, "linked.png");
    assert_eq!(got.location_on_disk, "/elsewhere/target.png");
}
