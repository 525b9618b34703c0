//! The failure taxonomy of a generation run.  Every failure aborts the whole
//! run: either a complete package is produced, or none is, and the first
//! failure is reported.

use vstd::prelude::*;
use crate::strutil::concat2;

verus! {

/// Everything that can abort a run, with the payload each report carries.
#[derive(Debug, Clone)]
pub enum Error {
    /// The host's declared version is not compatible with this backend:
    /// expected base, then what was provided.
    IncompatibleVersion(String, String),
    /// The package document could not be set up as configured.
    EpubDocCreate(String),
    /// The page template could not be parsed.
    TemplateParse,
    /// A chapter's content file was not found.
    ContentFileNotFound(String),
    /// A referenced local asset does not exist on disk.
    AssetFileNotFound(String),
    /// A referenced local asset resolved to something that is not a file.
    AssetFile(String),
    /// A configured stylesheet could not be opened.
    CssOpen(String),
    /// A configured template file could not be opened.
    OpenTemplate(String),
    /// The host's rendering context could not be read.
    RenderContext,
    /// An asset's bytes could not be read.
    AssetOpen,
    /// A stylesheet's bytes could not be read.
    StylesheetRead,
    /// The finished package failed its final write.
    EpubCheck(String),
    /// A file system operation failed.
    Io(String),
    /// The host reported an error while loading the book.
    Book(String),
    /// A version string could not be parsed.
    Semver(String),
    /// The package writer reported an error.
    EpubBuilder(String),
    /// The template engine reported an error.
    Render(String),
    /// The configuration table could not be deserialized.
    TomlDeser(String),
    /// A remote transfer failed.
    HttpError(String),
}

impl Error {
    /// One line of text describing the failure.
    pub fn message(&self) -> (r: String)
        ensures
            match self {
                Error::IncompatibleVersion(expected, got) => r@ == "Incompatible mdbook version got "@
                    + got@ + " expected "@ + expected@,
                Error::EpubDocCreate(m) => r@ == m@,
                Error::TemplateParse => r@ == "Could not parse the template"@,
                Error::ContentFileNotFound(p) => r@ == "Content file was not found: '"@ + p@ + "'"@,
                Error::AssetFileNotFound(m) => r@ == m@,
                Error::AssetFile(p) => r@ == "Asset was not a file "@ + p@,
                Error::CssOpen(p) => r@ == "Could not open css file "@ + p@,
                Error::OpenTemplate(p) => r@ == "Unable to open template "@ + p@,
                Error::RenderContext => r@ == "Unable to parse render context"@,
                Error::AssetOpen => r@ == "Unable to open asset"@,
                Error::StylesheetRead => r@ == "Error reading stylesheet"@,
                Error::EpubCheck(m) => r@ == "Epub check failed: "@ + m@,
                Error::Io(m) => r@ == m@,
                Error::Book(m) => r@ == m@,
                Error::Semver(m) => r@ == m@,
                Error::EpubBuilder(m) => r@ == m@,
                Error::Render(m) => r@ == m@,
                Error::TomlDeser(m) => r@ == m@,
                Error::HttpError(m) => r@ == m@,
            },
    {
        match self {
            Error::IncompatibleVersion(expected, got) => {
                let head = concat2("Incompatible mdbook version got ", got.as_str());
                let mid = concat2(head.as_str(), " expected ");
                concat2(mid.as_str(), expected.as_str())
            },
            Error::EpubDocCreate(m) => m.clone(),
            Error::TemplateParse => "Could not parse the template".to_owned(),
            Error::ContentFileNotFound(p) => {
                let head = concat2("Content file was not found: '", p.as_str());
                concat2(head.as_str(), "'")
            },
            Error::AssetFileNotFound(m) => m.clone(),
            Error::AssetFile(p) => concat2("Asset was not a file ", p.as_str()),
            Error::CssOpen(p) => concat2("Could not open css file ", p.as_str()),
            Error::OpenTemplate(p) => concat2("Unable to open template ", p.as_str()),
            Error::RenderContext => "Unable to parse render context".to_owned(),
            Error::AssetOpen => "Unable to open asset".to_owned(),
            Error::StylesheetRead => "Error reading stylesheet".to_owned(),
            Error::EpubCheck(m) => concat2("Epub check failed: ", m.as_str()),
            Error::Io(m) => m.clone(),
            Error::Book(m) => m.clone(),
            Error::Semver(m) => m.clone(),
            Error::EpubBuilder(m) => m.clone(),
            Error::Render(m) => m.clone(),
            Error::TomlDeser(m) => m.clone(),
            Error::HttpError(m) => m.clone(),
        }
    }
}

} // verus!
