//! The package writer: the outside builder that collects pages, resources,
//! cover and stylesheet and serializes the finished package.
//!
//! The builder is opaque; what the logic relies on is its manifest, modeled
//! here as the sequence of entries added so far.  Each wrapper states how one
//! builder call grows that manifest, as the builder's source shows; byte
//! payloads flow through to the archive and are not modeled.

use vstd::prelude::*;
use crate::config::PackageVersion;

verus! {

/// What one manifest entry is for.
#[derive(Debug, Clone)]
pub enum PkgEntryKind {
    /// A linear document page, with its visible title and nesting level.
    Page { title: String, level: i32 },
    /// An embedded resource (image, typeface, extra file).
    Resource,
    /// The cover image.
    Cover,
    /// The stylesheet.
    Stylesheet,
}

/// One entry of the package manifest: where it sits in the package, its
/// mimetype, and what it is for.
#[derive(Debug, Clone)]
pub struct PkgEntry {
    /// The entry's path inside the package.
    pub path: String,
    /// The entry's mimetype.
    pub mime: String,
    /// What the entry is for.
    pub kind: PkgEntryKind,
}

/// The package builder, held opaquely: its generic zip backend is bounded by
/// a trait the builder's crate keeps private, so the builder cannot be
/// declared to the verifier and is carried in a hidden field instead.
#[verifier::external_body]
pub struct PackageSink {
    inner: epub_builder::EpubBuilder<epub_builder::ZipLibrary>,
}

/// The manifest a builder holds so far: one entry per added page, resource,
/// cover image or stylesheet, in the order they were added.
pub uninterp spec fn pkg_entries(b: PackageSink) -> Seq<PkgEntry>;

/// The metadata a builder has recorded so far: each key mapped to the values
/// standing under it.  A fresh builder has recorded nothing (its defaults are
/// the empty title, no authors, no language).
pub uninterp spec fn pkg_metadata(b: PackageSink) -> Map<Seq<char>, Seq<Seq<char>>>;

/// The values recorded under one metadata key; none when the key was never
/// recorded.
pub open spec fn meta_values(m: Map<Seq<char>, Seq<Seq<char>>>, k: Seq<char>) -> Seq<Seq<char>> {
    if m.dom().contains(k) {
        m[k]
    } else {
        Seq::empty()
    }
}

/// What recording one key and value does to the metadata, as the builder's
/// source shows: title, generator, toc_name, license and direction keep a
/// single value, replaced on each record; author, lang, description and
/// subject accumulate values, and an empty value clears them; any other key
/// is refused and records nothing.
pub open spec fn spec_meta_insert(
    m: Map<Seq<char>, Seq<Seq<char>>>,
    key: Seq<char>,
    value: Seq<char>,
) -> Map<Seq<char>, Seq<Seq<char>>> {
    if key == "title"@ || key == "generator"@ || key == "toc_name"@ || key == "license"@ || key
        == "direction"@ {
        m.insert(key, seq![value])
    } else if key == "author"@ || key == "lang"@ || key == "description"@ || key == "subject"@ {
        if value.len() == 0 {
            m.insert(key, Seq::empty())
        } else {
            m.insert(key, meta_values(m, key).push(value))
        }
    } else {
        m
    }
}

/// Relies on `ZipLibrary::new` and `EpubBuilder::new`: a fresh builder holds
/// no content entries (its `files` start empty; the archive scaffolding it
/// writes is not part of the manifest).
#[verifier::external_body]
pub fn builder_new() -> (r: Result<PackageSink, String>)
    ensures
        match r {
            Ok(b) => pkg_entries(b) == Seq::<PkgEntry>::empty() && pkg_metadata(b) == Map::<
                Seq<char>,
                Seq<Seq<char>>,
            >::empty(),
            Err(_) => true,
        },
{
    let zip = match epub_builder::ZipLibrary::new() {
        Ok(z) => z,
        Err(e) => return Err(e.to_string()),
    };
    match epub_builder::EpubBuilder::new(zip) {
        Ok(b) => Ok(PackageSink { inner: b }),
        Err(e) => Err(e.to_string()),
    }
}

/// Relies on `EpubBuilder::epub_version`: it records the format version and
/// touches no manifest entry.
#[verifier::external_body]
pub fn builder_set_version(
    b: &mut PackageSink,
    v: PackageVersion,
)
    ensures
        pkg_entries(*final(b)) == pkg_entries(*old(b)),
        pkg_metadata(*final(b)) == pkg_metadata(*old(b)),
{
    b.inner.epub_version(
        match v {
            PackageVersion::V2 => epub_builder::EpubVersion::V20,
            PackageVersion::V3 => epub_builder::EpubVersion::V30,
        },
    );
}

/// Relies on `EpubBuilder::metadata`: it records the key's value as
/// `spec_meta_insert` says, touches no manifest entry, records nothing on
/// failure, and accepts the keys the generator uses (author, title, lang,
/// generator, description).
#[verifier::external_body]
pub fn builder_metadata(
    b: &mut PackageSink,
    key: &str,
    value: &String,
) -> (r: Result<(), String>)
    ensures
        pkg_entries(*final(b)) == pkg_entries(*old(b)),
        (key@ == "author"@ || key@ == "title"@ || key@ == "lang"@ || key@ == "generator"@ || key@
            == "description"@) ==> r is Ok,
        r is Ok ==> pkg_metadata(*final(b)) == spec_meta_insert(
            pkg_metadata(*old(b)),
            key@,
            value@,
        ),
        r is Err ==> pkg_metadata(*final(b)) == pkg_metadata(*old(b)),
{
    match b.inner.metadata(key, value.as_str()) {
        Ok(_) => Ok(()),
        Err(e) => Err(e.to_string()),
    }
}

/// Relies on `EpubBuilder::add_content` (through `EpubContent` with a title
/// and a level): on success exactly one page entry is appended, with the
/// given path, title and level and the XHTML mimetype; on failure the
/// manifest is unchanged (the builder records the entry only after the
/// archive write).
#[verifier::external_body]
pub fn builder_add_page(
    b: &mut PackageSink,
    path: &String,
    html: &Vec<u8>,
    title: &String,
    level: i32,
) -> (r: Result<(), String>)
    ensures
        match r {
            Ok(_) => pkg_entries(*final(b)).len() == pkg_entries(*old(b)).len() + 1 && pkg_entries(
                *final(b),
            ).drop_last() == pkg_entries(*old(b)) && pkg_entries(*final(b)).last().path == *path
                && pkg_entries(*final(b)).last().mime@ == "application/xhtml+xml"@ && pkg_entries(
                *final(b),
            ).last().kind == (PkgEntryKind::Page { title: *title, level }),
            Err(_) => pkg_entries(*final(b)) == pkg_entries(*old(b)),
        },
        pkg_metadata(*final(b)) == pkg_metadata(*old(b)),
{
    let content = epub_builder::EpubContent::new(path.as_str(), html.as_slice()).title(
        title.as_str(),
    ).level(level);
    match b.inner.add_content(content) {
        Ok(_) => Ok(()),
        Err(e) => Err(e.to_string()),
    }
}

/// Relies on `EpubBuilder::add_resource`: on success exactly one resource
/// entry is appended, with the given path and mimetype; on failure the
/// manifest is unchanged.
#[verifier::external_body]
pub fn builder_add_resource(
    b: &mut PackageSink,
    path: &String,
    content: &Vec<u8>,
    mime: &String,
) -> (r: Result<(), String>)
    ensures
        match r {
            Ok(_) => pkg_entries(*final(b)) == pkg_entries(*old(b)).push(
                PkgEntry { path: *path, mime: *mime, kind: PkgEntryKind::Resource },
            ),
            Err(_) => pkg_entries(*final(b)) == pkg_entries(*old(b)),
        },
        pkg_metadata(*final(b)) == pkg_metadata(*old(b)),
{
    match b.inner.add_resource(path.as_str(), content.as_slice(), mime.as_str()) {
        Ok(_) => Ok(()),
        Err(e) => Err(e.to_string()),
    }
}

/// Relies on `EpubBuilder::add_cover_image`: on success exactly one cover
/// entry is appended, with the given path and mimetype; on failure the
/// manifest is unchanged.
#[verifier::external_body]
pub fn builder_add_cover(
    b: &mut PackageSink,
    path: &String,
    content: &Vec<u8>,
    mime: &String,
) -> (r: Result<(), String>)
    ensures
        match r {
            Ok(_) => pkg_entries(*final(b)) == pkg_entries(*old(b)).push(
                PkgEntry { path: *path, mime: *mime, kind: PkgEntryKind::Cover },
            ),
            Err(_) => pkg_entries(*final(b)) == pkg_entries(*old(b)),
        },
        pkg_metadata(*final(b)) == pkg_metadata(*old(b)),
{
    match b.inner.add_cover_image(path.as_str(), content.as_slice(), mime.as_str()) {
        Ok(_) => Ok(()),
        Err(e) => Err(e.to_string()),
    }
}

/// Relies on `EpubBuilder::stylesheet`: on success exactly one stylesheet
/// entry is appended, at `stylesheet.css` with the CSS mimetype; on failure
/// the manifest is unchanged.
#[verifier::external_body]
pub fn builder_stylesheet(
    b: &mut PackageSink,
    content: &Vec<u8>,
) -> (r: Result<(), String>)
    ensures
        match r {
            Ok(_) => pkg_entries(*final(b)).len() == pkg_entries(*old(b)).len() + 1 && pkg_entries(
                *final(b),
            ).drop_last() == pkg_entries(*old(b)) && pkg_entries(*final(b)).last().path@
                == "stylesheet.css"@ && pkg_entries(*final(b)).last().mime@ == "text/css"@
                && pkg_entries(*final(b)).last().kind == PkgEntryKind::Stylesheet,
            Err(_) => pkg_entries(*final(b)) == pkg_entries(*old(b)),
        },
        pkg_metadata(*final(b)) == pkg_metadata(*old(b)),
{
    match b.inner.stylesheet(content.as_slice()) {
        Ok(_) => Ok(()),
        Err(e) => Err(e.to_string()),
    }
}

/// Relies on `EpubBuilder::generate`: it serializes the finished package
/// into bytes, in memory.
#[verifier::external_body]
pub fn builder_finish(b: PackageSink) -> (r: Result<
    Vec<u8>,
    String,
>) {
    let mut out: Vec<u8> = Vec::new();
    match b.inner.generate(&mut out) {
        Ok(_) => Ok(out),
        Err(e) => Err(e.to_string()),
    }
}

} // verus!
