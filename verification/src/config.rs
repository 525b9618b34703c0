//! Per-run configuration: styling, templates, cover image, extra resources,
//! section labels, quote handling, and the target package format version.

use vstd::prelude::*;
use crate::errors::Error;
use crate::strutil::{concat2, spec_decimal, to_decimal};

verus! {

/// The default page template applied to every rendered chapter.
pub const DEFAULT_TEMPLATE: &'static str = "<?xml version=\"1.0\" encoding=\"utf-8\"?>\n<!DOCTYPE html>\n<html xmlns=\"http://www.w3.org/1999/xhtml\">\n  <head>\n    <meta charset=\"utf-8\" />\n    <title>{{title}}</title>\n    <link rel=\"stylesheet\" type=\"text/css\" href=\"{{stylesheet}}\" />\n  </head>\n  <body>\n    {{{body}}}\n  </body>\n</html>\n";

/// The template applied to placeholder pages of contentless chapters.
pub const BLANK_TEMPLATE: &'static str = "<?xml version=\"1.0\" encoding=\"utf-8\"?>\n<!DOCTYPE html>\n<html xmlns=\"http://www.w3.org/1999/xhtml\">\n  <head>\n    <meta charset=\"utf-8\" />\n    <title>{{title}}</title>\n  </head>\n  <body></body>\n</html>\n";

/// The package format versions this generator can emit.
#[derive(Clone, Copy, Debug, PartialEq, Eq, Structural)]
pub enum PackageVersion {
    /// EPUB 2.0.1.
    V2,
    /// EPUB 3.0.1.
    V3,
}

/// The configuration used to tweak how the document is generated.
#[derive(Debug, Clone)]
pub struct Config {
    /// A list of additional stylesheets to include in the document.
    pub additional_css: Vec<String>,
    /// Should the default stylesheet be used (default: yes)?
    pub use_default_css: bool,
    /// The template file to use when rendering individual chapters
    /// (relative to the book root).
    pub index_template: Option<String>,
    /// A cover image to use for the package.
    pub cover_image: Option<String>,
    /// Additional resources to include in the package, such as typefaces.
    pub additional_resources: Vec<String>,
    /// Don't render section labels.
    pub no_section_label: bool,
    /// Use typographic quotes instead of the plain `"` character.
    pub curly_quotes: bool,
    /// Package format version to emit, when set.
    pub epub_version: Option<u8>,
}

impl Config {
    /// The package format version to emit: absent or `2` means the 2.0
    /// format, `3` the 3.0 format, and any other value is rejected before
    /// generation starts.
    pub fn epub_version(&self) -> (r: Result<PackageVersion, Error>)
        ensures
            match self.epub_version {
                None => r == Ok::<PackageVersion, Error>(PackageVersion::V2),
                Some(v) => if v == 2 {
                    r == Ok::<PackageVersion, Error>(PackageVersion::V2)
                } else if v == 3 {
                    r == Ok::<PackageVersion, Error>(PackageVersion::V3)
                } else {
                    r matches Err(Error::EpubDocCreate(m)) && m@
                        == "Unsupported epub version specified in book.toml: "@ + spec_decimal(
                        v as int,
                    )
                },
            },
    {
        match self.epub_version {
            None => Ok(PackageVersion::V2),
            Some(2) => Ok(PackageVersion::V2),
            Some(3) => Ok(PackageVersion::V3),
            Some(v) => {
                let digits = to_decimal(v as u64);
                Err(
                    Error::EpubDocCreate(
                        concat2("Unsupported epub version specified in book.toml: ", digits.as_str()),
                    ),
                )
            },
        }
    }

    /// The template text to render chapters with: the custom template text
    /// when one is configured and supplied, the default otherwise.
    pub fn template(&self, custom: Option<String>) -> (r: Result<String, Error>)
        ensures
            match self.index_template {
                Some(_) => match custom {
                    Some(text) => r == Ok::<String, Error>(text),
                    None => r matches Err(Error::OpenTemplate(p)) && p == self.index_template.unwrap(),
                },
                None => r matches Ok(t) && t@ == DEFAULT_TEMPLATE@,
            },
    {
        match &self.index_template {
            Some(path) => match custom {
                Some(text) => Ok(text),
                None => Err(Error::OpenTemplate(path.clone())),
            },
            None => Ok(DEFAULT_TEMPLATE.to_owned()),
        }
    }
}

impl Default for Config {
    /// The default configuration: default stylesheet on, nothing extra,
    /// section labels on, straight quotes, default package version.
    fn default() -> (r: Config)
        ensures
            r.additional_css@ =~= Seq::<String>::empty(),
            r.use_default_css,
            r.index_template is None,
            r.cover_image is None,
            r.additional_resources@ =~= Seq::<String>::empty(),
            !r.no_section_label,
            !r.curly_quotes,
            r.epub_version is None,
    {
        Config {
            use_default_css: true,
            additional_css: Vec::new(),
            index_template: None,
            cover_image: None,
            additional_resources: Vec::new(),
            no_section_label: false,
            curly_quotes: false,
            epub_version: None,
        }
    }
}

} // verus!
