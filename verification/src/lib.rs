//! Asset resolution and document assembly for turning a book of chapters
//! into a single packaged EPUB document.
//!
//! The library discovers image references inside chapter content, classifies
//! each as local-on-disk or remote, computes a stable package location for
//! each, rewrites in-content references, and assembles chapters, stylesheet,
//! cover image and extra resources into one package in a deterministic order.

pub mod book;
pub mod config;
pub mod epub;
pub mod errors;
pub mod generator;
pub mod hbs;
pub mod htmlscan;
pub mod markdown;
pub mod paths;
pub mod resources;
pub mod rewrite;
pub mod strutil;
pub mod urls;

pub use crate::config::Config;
pub use crate::errors::Error;
pub use crate::generator::Generator;
pub use crate::paths::normalize_path;

use vstd::prelude::*;
use crate::paths::{join_path, spec_join, spec_with_extension, with_extension};
use crate::strutil::concat2;

verus! {

/// The default stylesheet used to make the rendered document readable.
pub const DEFAULT_CSS: &'static str = "html, body {\n  margin: 0;\n  padding: 0;\n}\n\nbody {\n  font-family: serif;\n  line-height: 1.5;\n  margin: 0 auto;\n  max-width: 38em;\n  padding: 0 1em;\n}\n\nh1, h2, h3, h4, h5, h6 {\n  font-family: sans-serif;\n  line-height: 1.2;\n}\n\npre, code {\n  font-family: monospace;\n  overflow-x: auto;\n}\n\nimg {\n  max-width: 100%;\n}\n\nblockquote {\n  border-left: 0.25em solid #ccc;\n  margin-left: 0;\n  padding-left: 1em;\n}\n\ntable {\n  border-collapse: collapse;\n}\n\ntable td, table th {\n  border: 1px solid #ccc;\n  padding: 0.25em 0.5em;\n}\n";

/// What the version matcher answers for a requirement and a version text:
/// whether the version satisfies the requirement, or a parse report; a
/// function of the two texts alone.
pub uninterp spec fn version_match_of(req: Seq<char>, version: Seq<char>) -> Result<bool, String>;

/// Relies on `semver::VersionReq::parse`, `semver::Version::parse` and
/// `VersionReq::matches`: whether the provided version satisfies the
/// requirement, with the parser's report on malformed input.
#[verifier::external_body]
fn version_req_matches(req: &str, version: &str) -> (r: Result<bool, String>)
    ensures
        r == version_match_of(req@, version@),
{
    let rq = match semver::VersionReq::parse(req) {
        Ok(r) => r,
        Err(e) => return Err(e.to_string()),
    };
    let v = match semver::Version::parse(version) {
        Ok(v) => v,
        Err(e) => return Err(e.to_string()),
    };
    Ok(rq.matches(&v))
}

/// Check that the version the host declares is compatible with the version
/// this backend expects: the provided version must satisfy `~expected`.
pub fn version_check(provided: &str, expected: &str) -> (r: Result<(), Error>)
    ensures
        match version_match_of("~"@ + expected@, provided@) {
            Ok(b) => if b {
                r is Ok
            } else {
                r matches Err(Error::IncompatibleVersion(e, g)) && e@ == expected@ && g@
                    == provided@
            },
            Err(m) => r matches Err(Error::Semver(em)) && em@ == m@,
        },
{
    let req = concat2("~", expected);
    match version_req_matches(req.as_str(), provided) {
        Ok(true) => Ok(()),
        Ok(false) => Err(Error::IncompatibleVersion(expected.to_owned(), provided.to_owned())),
        Err(m) => Err(Error::Semver(m)),
    }
}

/// The output file for the finished package: the book's title under the
/// destination directory with the package extension, or a fixed fallback
/// name when no title is set.
pub fn output_filename(dest: &str, title: &Option<String>) -> (r: String)
    ensures
        match title {
            Some(t) => r@ == spec_with_extension(spec_join(dest@, t@), "epub"@),
            None => r@ == spec_join(dest@, "book.epub"@),
        },
{
    match title {
        Some(t) => {
            let joined = join_path(dest, t.as_str());
            with_extension(joined.as_str(), "epub")
        },
        None => join_path(dest, "book.epub"),
    }
}

} // verus!
