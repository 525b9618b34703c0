use mdbook_epub::config::{Config, PackageVersion};
use mdbook_epub::Error;

#[test]
fn test_epub_version() {
    let c = Config::default();
    assert_eq!(PackageVersion::V2, c.epub_version().unwrap());

    let mut c = Config::default();
    c.epub_version = Some(2);
    assert_eq!(PackageVersion::V2, c.epub_version().unwrap());

    let mut c = Config::default();
    c.epub_version = Some(3);
    assert_eq!(PackageVersion::V3, c.epub_version().unwrap());

    let mut c = Config::default();
    c.epub_version = Some(42);
    assert!(matches!(c.epub_version(), Err(Error::EpubDocCreate(_))));
}

#[test]
fn unsupported_version_reports_the_value() {
    let mut c = Config::default();
    c.epub_version = Some(42);
    match c.epub_version() {
        Err(Error::EpubDocCreate(m)) => {
            assert_eq!(m, "Unsupported epub version specified in book.toml: 42");
        }
        other => panic!("expected a configuration failure, got {:?}", other),
    }
}

#[test]
fn default_template_is_used_without_a_custom_one() {
    let c = Config::default();
    let t = c.template(None).unwrap();
    assert!(t.contains("{{title}}"));
    assert!(t.contains("{{{body}}}"));
    assert!(t.contains("{{stylesheet}}"));
}

#[test]
fn configured_template_must_be_supplied() {
    let mut c = Config::default();
    c.index_template = Some("theme/custom.hbs".to_string());
    assert!(matches!(c.template(None), Err(Error::OpenTemplate(_))));
    let t = c.template(Some("<b>{{title}}</b>".to_string())).unwrap();
    assert_eq!(t, "<b>{{title}}</b>");
}
