use mdbook_epub::errors::Error;
use mdbook_epub::rewrite::replace_all;
use mdbook_epub::strutil::{str_eq, str_lt, to_decimal, to_hex};
use mdbook_epub::urls::{guess_mime, parse_url, sanitize_name};
use mdbook_epub::version_check;

#[test]
fn hex_rendering_matches_the_usual_form() {
    assert_eq!(to_hex(0), "0");
    assert_eq!(to_hex(255), "ff");
    assert_eq!(to_hex(0x811c431d49ec880b), "811c431d49ec880b");
    assert_eq!(to_hex(u64::MAX), format!("{:x}", u64::MAX));
}

#[test]
fn decimal_rendering_matches_the_usual_form() {
    assert_eq!(to_decimal(0), "0");
    assert_eq!(to_decimal(42), "42");
    assert_eq!(to_decimal(u64::MAX), format!("{}", u64::MAX));
}

#[test]
fn string_order_matches_the_host_order() {
    assert!(str_lt("a", "b"));
    assert!(str_lt("a", "ab"));
    assert!(!str_lt("b", "ab"));
    assert!(!str_lt("same", "same"));
    assert_eq!(str_lt("./x", "reddit.svg"), "./x" < "reddit.svg");
    assert!(str_eq("abc", "abc"));
    assert!(!str_eq("abc", "abd"));
}

#[test]
fn replace_all_substitutes_every_occurrence() {
    assert_eq!(replace_all("a-b-a", "a", "xy"), "xy-b-xy");
    assert_eq!(replace_all("aaa", "aa", "b"), "ba");
    assert_eq!(replace_all("nothing here", "zzz", "y"), "nothing here");
    assert_eq!(
        replace_all("<img src=\"u\"><img src=\"u\">", "u", "/cache/f.svg"),
        "<img src=\"/cache/f.svg\"><img src=\"/cache/f.svg\">"
    );
}

#[test]
fn url_classification_and_parts() {
    assert!(parse_url("./local.png").is_none());
    assert!(parse_url("img/pic.jpg").is_none());
    let parts = parse_url("https://example.org/a/pic.svg?x=1").unwrap();
    assert_eq!(parts.canonical, "https://example.org/a/pic.svg?x=1");
    assert_eq!(parts.path, "/a/pic.svg");
}

#[test]
fn mime_guesses_follow_the_extension() {
    assert_eq!(guess_mime("a/pic.png"), "image/png");
    assert_eq!(guess_mime("pic.svg"), "image/svg+xml");
    assert_eq!(guess_mime("noext"), "application/octet-stream");
    assert_eq!(guess_mime("style.css"), "text/css");
}

#[test]
fn sanitizer_is_applied_to_placeholder_names() {
    assert_eq!(sanitize_name("plain"), sanitize_filename::sanitize("plain"));
    let tricky = "a/b: c";
    assert_eq!(sanitize_name(tricky), sanitize_filename::sanitize(tricky));
    assert_ne!(sanitize_name(tricky), tricky);
}

#[test]
fn version_gate_accepts_compatible_and_rejects_others() {
    assert!(version_check("0.4.52", "0.4.40").is_ok());
    match version_check("0.5.0", "0.4.40") {
        Err(Error::IncompatibleVersion(expected, got)) => {
            assert_eq!(expected, "0.4.40");
            assert_eq!(got, "0.5.0");
        }
        other => panic!("expected an incompatibility report, got {:?}", other),
    }
    assert!(matches!(version_check("not-a-version", "0.4.40"), Err(Error::Semver(_))));
}

#[test]
fn error_messages_name_their_subject() {
    let e = Error::ContentFileNotFound("ch.md".to_string());
    assert_eq!(e.message(), "Content file was not found: 'ch.md'");
    let e = Error::AssetFile("/a/dir".to_string());
    assert_eq!(e.message(), "Asset was not a file /a/dir");
    let e = Error::IncompatibleVersion("0.4.40".to_string(), "0.5.0".to_string());
    assert_eq!(e.message(), "Incompatible mdbook version got 0.5.0 expected 0.4.40");
}

#[test]
fn discovery_of_empty_content_finds_nothing() {
    let links = mdbook_epub::resources::find_assets_in_markdown("").unwrap();
    assert!(links.is_empty());
}
