//! Assets: the embeddable resources a book's chapters refer to.
//!
//! A reference string is classified as Remote (it parses as an absolute
//! network address) or Local (a path relative to the chapter).  Each resolves
//! to an absolute byte source on disk, a package-relative filename, and a
//! mimetype; two assets with the same byte source and mimetype are the same
//! embedding candidate and are embedded exactly once.

use vstd::prelude::*;
use crate::book::{BookContext, Chapter};
use crate::errors::Error;
use crate::paths::{
    spec_join, spec_parent, spec_extension, spec_normalize, spec_strip_prefix, join_path,
    parent_of, extension_of, normalize_path, strip_prefix_path,
};
use crate::strutil::{concat2, concat3, spec_hex, spec_str_lt, str_eq, str_lt, to_hex};
use crate::urls::{guess_mime, mime_of, parse_url, parsed_url_of, UrlParts};
use crate::markdown::{md_scan, scan_events, MdEvent};
use crate::htmlscan::{html_nodes_of, html_img_srcs, list_img_srcs, parse_html_nodes, str_views};

verus! {

/// How a reference string was classified: a remote address (kept in its
/// canonical serialization) or a local path (kept as given).
#[derive(Debug, Clone)]
pub enum AssetKind {
    /// The reference parsed as an absolute network address.
    Remote(String),
    /// The reference is a path relative to the chapter.
    Local(String),
}

/// One resolved embeddable resource.
#[derive(Debug, Clone)]
pub struct Asset {
    /// The asset's absolute byte source on disk: an existing local file, or
    /// the cache destination a remote fetch will populate.
    pub location_on_disk: String,
    /// The asset's path inside the package, relative to the package root.
    pub filename: String,
    /// The asset's mimetype, inferred from the byte source's extension.
    pub mimetype: String,
    /// The asset's original reference, classified.
    pub source: AssetKind,
}

/// Two assets are the same embedding candidate when they share the byte
/// source and the mimetype, however they were referred to.
pub open spec fn same_identity(a: Asset, b: Asset) -> bool {
    a.location_on_disk@ == b.location_on_disk@ && a.mimetype@ == b.mimetype@
}

impl PartialEq for Asset {
    /// Equality is identity for deduplication: byte source and mimetype.
    fn eq(&self, other: &Self) -> bool {
        str_eq(self.location_on_disk.as_str(), other.location_on_disk.as_str()) && str_eq(
            self.mimetype.as_str(),
            other.mimetype.as_str(),
        )
    }
}

impl vstd::std_specs::cmp::PartialEqSpecImpl for Asset {
    open spec fn obeys_eq_spec() -> bool {
        true
    }

    open spec fn eq_spec(&self, other: &Asset) -> bool {
        same_identity(*self, *other)
    }
}

/// The content retrieval capability: byte-level local reads and remote
/// fetches, performed on behalf of the embedding step.  The host implements
/// it over its file system and network; tests implement it directly.  An
/// implementation owes the two stated failure taxonomies; nothing else is
/// promised of it, and the embedding logic is verified for every answer.
pub trait ContentRetriever {
    /// Make the asset's byte source exist on disk: fetch a remote asset into
    /// its cache destination (a no-op if already cached); nothing to do for
    /// a local one.  A failure is a missing remote resource, a transfer
    /// failure, or a file-system failure.
    fn download(&self, asset: &Asset) -> (r: Result<(), Error>)
        ensures
            r matches Err(e) ==> (e matches Error::AssetFileNotFound(_) || e matches
                Error::HttpError(_) || e matches Error::Io(_)),
    ;

    /// Read the bytes at a path into the buffer.
    fn read(&self, path: &str, buffer: &mut Vec<u8>) -> Result<(), Error>;

    /// Fetch a remote address, yielding its bytes; a not-found transfer is a
    /// distinct, reportable condition (a missing-resource failure), and any
    /// other failure is a transfer or file-system failure.
    fn retrieve(&self, url: &str) -> (r: Result<Vec<u8>, Error>)
        ensures
            r matches Err(e) ==> (e matches Error::AssetFileNotFound(_) || e matches
                Error::HttpError(_) || e matches Error::Io(_)),
    ;
}

/// The path-probing capability: what the host's file system says of a path.
/// The resolution logic is verified for every answer a probe can give.
pub trait PathProbe {
    /// The canonical absolute form of an existing path, or nothing.
    fn canonicalize(&self, path: &str) -> Option<String>;

    /// Is this path a regular file?
    fn is_file(&self, path: &str) -> bool;

    /// Is this path itself a symbolic link?
    fn is_symlink(&self, path: &str) -> bool;
}

/// What the file system said about one local reference: the canonical form
/// of the resolved path (when it exists), whether that resolves to a regular
/// file, and whether the unresolved path is a symbolic link.
#[derive(Debug, Clone)]
pub struct LocalProbe {
    /// The canonical form of the reference resolved against the chapter's
    /// directory, when that path exists.
    pub canonical: Option<String>,
    /// Whether the canonical path is a regular file.
    pub is_file: bool,
    /// Whether the unresolved path is itself a symbolic link.
    pub is_symlink: bool,
}

/// The package filename of a remote asset: `cache/`, the identity hash in
/// hexadecimal, and the address path's extension when it has one.
pub open spec fn spec_cache_filename(url_path: Seq<char>, hash: u64) -> Seq<char> {
    let base = "cache/"@ + spec_hex(hash as int);
    match spec_extension(url_path) {
        Some(e) => if e.len() > 0 {
            base + seq!['.'] + e
        } else {
            base
        },
        None => base,
    }
}

/// The path a local reference resolves to before the file system is asked:
/// the chapter's directory under the source root, then the reference.
pub open spec fn spec_full_filename(link: Seq<char>, src_dir: Seq<char>, chapter_path: Seq<char>) -> Option<
    Seq<char>,
> {
    match spec_parent(spec_join(src_dir, chapter_path)) {
        None => None,
        Some(parent) => Some(spec_join(parent, link)),
    }
}

impl Asset {
    /// Build an asset from its package filename, byte source and source
    /// kind; the mimetype is inferred from the byte source.
    pub fn new(filename: String, absolute_location: String, source: AssetKind) -> (r: Asset)
        ensures
            r.filename == filename,
            r.location_on_disk == absolute_location,
            r.mimetype@ == mime_of(absolute_location@),
            r.source == source,
    {
        let mimetype = guess_mime(absolute_location.as_str());
        Asset { location_on_disk: absolute_location, filename, mimetype, source }
    }

    /// Resolve a remote address: the cache filename is the identity hash of
    /// the canonical address (with the address path's extension), the byte
    /// source is that filename under the destination directory, and neither
    /// depends on which chapter referred to the address.
    pub fn from_url(parts: &UrlParts, dest_dir: &str) -> (r: Asset)
        ensures
            r.filename@ == spec_cache_filename(parts.path@, parts.hash),
            r.location_on_disk@ == spec_normalize(
                spec_join(dest_dir@, spec_cache_filename(parts.path@, parts.hash)),
            ),
            r.mimetype@ == mime_of(r.location_on_disk@),
            r.source matches AssetKind::Remote(c) && c@ == parts.canonical@,
    {
        let hex = to_hex(parts.hash);
        let base = concat2("cache/", hex.as_str());
        let filename = match extension_of(parts.path.as_str()) {
            Some(e) => {
                if e.as_str().unicode_len() > 0 {
                    let f = concat3(base.as_str(), ".", e.as_str());
                    proof {
                        reveal_strlit(".");
                        assert("."@ =~= seq!['.']);
                    }
                    f
                } else {
                    base
                }
            },
            None => base,
        };
        let joined = join_path(dest_dir, filename.as_str());
        let location = normalize_path(joined.as_str());
        Asset::new(filename, location, AssetKind::Remote(parts.canonical.clone()))
    }

    /// Resolve a local reference, given what the file system said of it: a
    /// missing path is a failure, a path that is not a regular file is a
    /// distinct failure; a symbolic link keeps its unresolved source-relative
    /// path as the package filename, anything else the canonical path's
    /// source-relative form.
    pub fn from_local_probe(
        link: &str,
        src_dir: &str,
        chapter_path: &str,
        probe: &LocalProbe,
    ) -> (r: Result<Asset, Error>)
        ensures
            match spec_full_filename(link@, src_dir@, chapter_path@) {
                None => r matches Err(Error::AssetFileNotFound(m)) && m@ == "Asset was not found: "@
                    + link@,
                Some(full) => match probe.canonical {
                    None => r matches Err(Error::AssetFileNotFound(m)) && m@
                        == "Asset was not found: "@ + link@,
                    Some(c) => if !probe.is_file {
                        r matches Err(Error::AssetFile(p)) && p@ == c@
                    } else {
                        match (if probe.is_symlink {
                            spec_strip_prefix(full, src_dir@)
                        } else {
                            spec_strip_prefix(c@, src_dir@)
                        }) {
                            None => r matches Err(Error::AssetFileNotFound(m)) && m@
                                == "Asset is outside the source directory: "@ + link@,
                            Some(f) => r matches Ok(a) && a.location_on_disk@ == c@ && a.filename@
                                == f && a.mimetype@ == mime_of(c@) && (a.source matches
                            AssetKind::Local(l) && l@ == link@),
                        }
                    },
                },
            },
    {
        let full_path = join_path(src_dir, chapter_path);
        let full_filename = match parent_of(full_path.as_str()) {
            Some(parent) => join_path(parent.as_str(), link),
            None => {
                return Err(Error::AssetFileNotFound(concat2("Asset was not found: ", link)));
            },
        };
        let canonical = match &probe.canonical {
            Some(c) => c,
            None => {
                return Err(Error::AssetFileNotFound(concat2("Asset was not found: ", link)));
            },
        };
        if !probe.is_file {
            return Err(Error::AssetFile(canonical.clone()));
        }
        let filename = if probe.is_symlink {
            strip_prefix_path(full_filename.as_str(), src_dir)
        } else {
            strip_prefix_path(canonical.as_str(), src_dir)
        };
        match filename {
            Some(f) => Ok(
                Asset::new(f, canonical.clone(), AssetKind::Local(link.to_owned())),
            ),
            None => Err(
                Error::AssetFileNotFound(
                    concat2("Asset is outside the source directory: ", link),
                ),
            ),
        }
    }

    /// Resolve a local reference by asking the file system, then deciding as
    /// `from_local_probe` does for what it answered.
    pub fn from_local<P: PathProbe>(
        fs: &P,
        link: &str,
        src_dir: &str,
        chapter_path: &str,
    ) -> (r: Result<Asset, Error>)
        ensures
            match r {
                Ok(a) => a.mimetype@ == mime_of(a.location_on_disk@) && (a.source matches
                AssetKind::Local(l) && l@ == link@),
                Err(e) => e matches Error::AssetFileNotFound(_) || e matches Error::AssetFile(_),
            },
    {
        let full_path = join_path(src_dir, chapter_path);
        let probe = match parent_of(full_path.as_str()) {
            Some(parent) => {
                let full_filename = join_path(parent.as_str(), link);
                let canonical = fs.canonicalize(full_filename.as_str());
                let is_file = match &canonical {
                    Some(c) => fs.is_file(c.as_str()),
                    None => false,
                };
                let is_symlink = fs.is_symlink(full_filename.as_str());
                LocalProbe { canonical, is_file, is_symlink }
            },
            None => LocalProbe { canonical: None, is_file: false, is_symlink: false },
        };
        Asset::from_local_probe(link, src_dir, chapter_path, &probe)
    }
}

/// The references one scanned event contributes: an image start contributes
/// its destination, a raw-markup block the image sources of its element
/// tree, anything else nothing.
pub open spec fn one_event_links(ev: MdEvent) -> Seq<Seq<char>> {
    match ev {
        MdEvent::Image { dest } => seq![dest@],
        MdEvent::Html { raw } => html_block_links(raw@),
        MdEvent::InlineHtml { raw } => html_block_links(raw@),
        MdEvent::Other => Seq::empty(),
    }
}

/// The image sources of a raw-markup block: those of its element tree when
/// it parses, none otherwise.
pub open spec fn html_block_links(raw: Seq<char>) -> Seq<Seq<char>> {
    match html_nodes_of(raw) {
        Some(ns) => list_img_srcs(ns@, 0),
        None => Seq::empty(),
    }
}

/// The references the first `i` events contribute, in order.
pub open spec fn event_links_upto(evs: Seq<MdEvent>, i: int) -> Seq<Seq<char>>
    decreases i,
{
    if i <= 0 {
        Seq::empty()
    } else {
        event_links_upto(evs, i - 1) + one_event_links(evs[i - 1])
    }
}

/// Every reference a chapter's content contains, in scan order, duplicates
/// included.
pub open spec fn content_links(content: Seq<char>) -> Seq<Seq<char>> {
    event_links_upto(md_scan(content, false), md_scan(content, false).len() as int)
}

/// Strictly ascending in lexicographic order; in particular duplicate-free.
pub open spec fn strictly_sorted(vs: Seq<Seq<char>>) -> bool {
    forall|i: int, j: int| 0 <= i < j < vs.len() ==> spec_str_lt(vs[i], vs[j])
}

/// An element of a concatenation is an element of one of the parts.
pub proof fn lemma_contains_cat(a: Seq<Seq<char>>, b: Seq<Seq<char>>, x: Seq<char>)
    ensures
        (a + b).contains(x) <==> (a.contains(x) || b.contains(x)),
{
    if (a + b).contains(x) {
        let i = choose|i: int| 0 <= i < (a + b).len() && (a + b)[i] == x;
        if i < a.len() {
            assert(a[i] == x);
        } else {
            assert(b[i - a.len()] == x);
        }
    }
    if a.contains(x) {
        let i = choose|i: int| 0 <= i < a.len() && a[i] == x;
        assert((a + b)[i] == x);
    }
    if b.contains(x) {
        let i = choose|i: int| 0 <= i < b.len() && b[i] == x;
        assert((a + b)[a.len() + i] == x);
    }
}

/// Mapping views commutes with inserting one string.
pub proof fn lemma_str_views_insert(v: Seq<String>, j: int, x: String)
    requires
        0 <= j <= v.len(),
    ensures
        str_views(v.insert(j, x)) =~= str_views(v).insert(j, x@),
{
    v.insert_ensures(j, x);
    str_views(v).insert_ensures(j, x@);
    assert forall|t: int| 0 <= t < v.len() + 1 implies str_views(v.insert(j, x))[t] == str_views(
        v,
    ).insert(j, x@)[t] by {
        if t < j {
        } else if t == j {
        } else {
            assert(v.insert(j, x)[t] == v[t - 1]);
            assert(str_views(v).insert(j, x@)[t] == str_views(v)[t - 1]);
        }
    }
}

/// The first position whose entry is not below `s`.
fn lower_bound(v: &Vec<String>, s: &str) -> (j: usize)
    ensures
        j <= v.len(),
        forall|k: int| 0 <= k < j ==> spec_str_lt(str_views(v@)[k], s@),
        j < v.len() ==> !spec_str_lt(str_views(v@)[j as int], s@),
{
    let n = v.len();
    let mut j: usize = 0;
    while j < n
        invariant
            n == v.len(),
            j <= n,
            forall|k: int| 0 <= k < j ==> spec_str_lt(str_views(v@)[k], s@),
        decreases n - j,
    {
        proof {
            assert(str_views(v@)[j as int] == v@[j as int]@);
        }
        if !str_lt(v[j].as_str(), s) {
            return j;
        }
        j += 1;
    }
    j
}

/// Put one reference into its place in a sorted, duplicate-free list; a
/// reference already present is left alone.
#[verifier::rlimit(30)]
pub fn insert_unique_sorted(v: &mut Vec<String>, s: String)
    requires
        strictly_sorted(str_views(old(v)@)),
    ensures
        strictly_sorted(str_views(final(v)@)),
        forall|x: Seq<char>|
            #[trigger] str_views(final(v)@).contains(x) <==> (str_views(old(v)@).contains(x) || x
                == s@),
{
    let ghost before: Seq<Seq<char>> = str_views(v@);
    let j = lower_bound(v, s.as_str());
    if j < v.len() {
        proof {
            assert(str_views(v@)[j as int] == v@[j as int]@);
        }
        if str_eq(v[j].as_str(), s.as_str()) {
            proof {
                assert(before[j as int] == s@);
                assert(before.contains(s@));
            }
            return ;
        }
    }
    proof {
        if j < v.len() {
            crate::strutil::lemma_str_lt_total(s@, before[j as int]);
        }
        lemma_str_views_insert(v@, j as int, s);
        before.insert_ensures(j as int, s@);
        let ghost after: Seq<Seq<char>> = before.insert(j as int, s@);
        assert forall|p: int, q: int| 0 <= p < q < after.len() implies spec_str_lt(
            after[p],
            after[q],
        ) by {
            if q < j {
            } else if p < j && q == j {
            } else if p < j && q > j {
                assert(after[q] == before[q - 1]);
            } else if p == j {
                assert(after[q] == before[q - 1]);
                if q - 1 > j {
                    crate::strutil::lemma_str_lt_trans(s@, before[j as int], before[q - 1]);
                }
            } else {
                assert(after[p] == before[p - 1]);
                assert(after[q] == before[q - 1]);
            }
        }
        assert forall|x: Seq<char>| #[trigger] after.contains(x) <==> (before.contains(x) || x
            == s@) by {
            if after.contains(x) {
                let i = choose|i: int| 0 <= i < after.len() && after[i] == x;
                if i < j {
                    assert(before[i] == x);
                    assert(before.contains(x));
                } else if i == j {
                } else {
                    assert(before[i - 1] == x);
                    assert(before.contains(x));
                }
            }
            if before.contains(x) {
                let i = choose|i: int| 0 <= i < before.len() && before[i] == x;
                if i < j {
                    assert(after[i] == x);
                } else {
                    assert(after[i + 1] == x);
                }
                assert(after.contains(x));
            }
            if x == s@ {
                assert(after[j as int] == x);
                assert(after.contains(x));
            }
        }
    }
    v.insert(j, s);
}

/// Put every image source of a raw-markup block into the sorted list.
fn insert_html_links(raw: &String, out: &mut Vec<String>)
    requires
        strictly_sorted(str_views(old(out)@)),
    ensures
        strictly_sorted(str_views(final(out)@)),
        forall|x: Seq<char>|
            #[trigger] str_views(final(out)@).contains(x) <==> (str_views(old(out)@).contains(x)
                || html_block_links(raw@).contains(x)),
{
    let ghost entry: Seq<Seq<char>> = str_views(out@);
    match parse_html_nodes(raw.as_str()) {
        Some(nodes) => {
            let srcs = html_img_srcs(&nodes);
            let m = srcs.len();
            let mut t: usize = 0;
            while t < m
                invariant
                    m == srcs.len(),
                    t <= m,
                    str_views(srcs@) == html_block_links(raw@),
                    strictly_sorted(str_views(out@)),
                    forall|x: Seq<char>|
                        #[trigger] str_views(out@).contains(x) <==> (entry.contains(x) || str_views(
                            srcs@,
                        ).take(t as int).contains(x)),
                decreases m - t,
            {
                proof {
                    assert(str_views(srcs@)[t as int] == srcs@[t as int]@);
                    assert(str_views(srcs@).take(t as int + 1).drop_last() =~= str_views(
                        srcs@,
                    ).take(t as int));
                    assert(str_views(srcs@).take(t as int + 1).last() == str_views(
                        srcs@,
                    )[t as int]);
                }
                let ghost mid: Seq<Seq<char>> = str_views(out@);
                insert_unique_sorted(out, srcs[t].clone());
                proof {
                    assert forall|x: Seq<char>| #[trigger] str_views(out@).contains(x) <==> (
                    entry.contains(x) || str_views(srcs@).take(t as int + 1).contains(x)) by {
                        let taken = str_views(srcs@).take(t as int + 1);
                        if taken.contains(x) {
                            let i = choose|i: int| 0 <= i < taken.len() && taken[i] == x;
                            if i < t {
                                assert(str_views(srcs@).take(t as int)[i] == x);
                            }
                        }
                        if str_views(srcs@).take(t as int).contains(x) {
                            let i = choose|i: int|
                                0 <= i < t && str_views(srcs@).take(t as int)[i] == x;
                            assert(str_views(srcs@).take(t as int + 1)[i] == x);
                        }
                        if x == str_views(srcs@)[t as int] {
                            assert(str_views(srcs@).take(t as int + 1)[t as int] == x);
                        }
                    }
                }
                t += 1;
            }
            proof {
                assert(str_views(srcs@).take(m as int) =~= str_views(srcs@));
            }
        },
        None => {},
    }
}

/// Look up every asset reference in one chapter's content: image
/// destinations from the markup events, image sources from raw-markup
/// blocks (recursively), returned sorted and duplicate-free, so that
/// regeneration is reproducible.  A chapter with no content contributes
/// nothing; the scan itself never fails.
pub fn find_assets_in_markdown(content: &str) -> (r: Result<Vec<String>, Error>)
    ensures
        r matches Ok(v) && strictly_sorted(str_views(v@)) && (forall|x: Seq<char>|
            #[trigger] str_views(v@).contains(x) <==> content_links(content@).contains(x)),
{
    let evs = scan_events(content, false);
    let mut out: Vec<String> = Vec::new();
    let n = evs.len();
    let mut i: usize = 0;
    proof {
        assert(str_views(out@) =~= Seq::<Seq<char>>::empty());
    }
    while i < n
        invariant
            n == evs.len(),
            evs@ == md_scan(content@, false),
            i <= n,
            strictly_sorted(str_views(out@)),
            forall|x: Seq<char>|
                #[trigger] str_views(out@).contains(x) <==> event_links_upto(
                    evs@,
                    i as int,
                ).contains(x),
        decreases n - i,
    {
        let ghost mid: Seq<Seq<char>> = str_views(out@);
        let ghost upto: Seq<Seq<char>> = event_links_upto(evs@, i as int);
        let ghost links_i: Seq<Seq<char>> = one_event_links(evs@[i as int]);
        match &evs[i] {
            MdEvent::Image { dest } => {
                insert_unique_sorted(&mut out, dest.clone());
                proof {
                    assert(links_i =~= seq![dest@]);
                    assert forall|x: Seq<char>| #[trigger] str_views(out@).contains(x) <==> (
                    upto + links_i).contains(x) by {
                        lemma_contains_cat(upto, links_i, x);
                        if x == dest@ {
                            assert(links_i[0] == x);
                        }
                        if links_i.contains(x) {
                            assert(x == dest@);
                        }
                    }
                }
            },
            MdEvent::Html { raw } => {
                insert_html_links(raw, &mut out);
                proof {
                    assert forall|x: Seq<char>| #[trigger] str_views(out@).contains(x) <==> (
                    upto + links_i).contains(x) by {
                        lemma_contains_cat(upto, links_i, x);
                    }
                }
            },
            MdEvent::InlineHtml { raw } => {
                insert_html_links(raw, &mut out);
                proof {
                    assert forall|x: Seq<char>| #[trigger] str_views(out@).contains(x) <==> (
                    upto + links_i).contains(x) by {
                        lemma_contains_cat(upto, links_i, x);
                    }
                }
            },
            MdEvent::Other => {
                proof {
                    assert(links_i =~= Seq::<Seq<char>>::empty());
                    assert forall|x: Seq<char>| #[trigger] str_views(out@).contains(x) <==> (
                    upto + links_i).contains(x) by {
                        lemma_contains_cat(upto, links_i, x);
                    }
                }
            },
        }
        i += 1;
    }
    Ok(out)
}

/// The position of the first entry keyed `k` at or after `i`, or `-1`.
pub open spec fn spec_index_of(s: Seq<(String, Asset)>, k: Seq<char>, i: int) -> int
    decreases s.len() - i,
{
    if i < 0 || i >= s.len() {
        -1
    } else if s[i].0@ == k {
        i
    } else {
        spec_index_of(s, k, i + 1)
    }
}

/// What the first position keyed `k` looks like: none at all, or the first.
pub proof fn lemma_index_of_spec(s: Seq<(String, Asset)>, k: Seq<char>, i: int)
    requires
        0 <= i,
    ensures
        ({
            let j = spec_index_of(s, k, i);
            (j == -1 && forall|t: int| i <= t < s.len() ==> s[t].0@ != k) || (i <= j < s.len()
                && s[j].0@ == k && forall|t: int| i <= t < j ==> s[t].0@ != k)
        }),
    decreases s.len() - i,
{
    if i < s.len() && s[i].0@ != k {
        lemma_index_of_spec(s, k, i + 1);
    }
}

/// Appending an entry leaves every earlier first position alone.
pub proof fn lemma_index_of_push(s: Seq<(String, Asset)>, p: (String, Asset), k: Seq<char>, i: int)
    requires
        0 <= i <= s.len(),
    ensures
        spec_index_of(s.push(p), k, i) == if spec_index_of(s, k, i) != -1 {
            spec_index_of(s, k, i)
        } else if p.0@ == k {
            s.len() as int
        } else {
            -1
        },
    decreases s.len() - i,
{
    if i < s.len() {
        lemma_index_of_push(s, p, k, i + 1);
    } else {
        assert(s.push(p)[s.len() as int] == p);
        assert(spec_index_of(s.push(p), k, s.len() as int + 1) == -1);
        assert(spec_index_of(s, k, i) == -1);
    }
}

/// Replacing an entry by one with the same key leaves first positions alone.
pub proof fn lemma_index_of_update(
    s: Seq<(String, Asset)>,
    j: int,
    p: (String, Asset),
    k: Seq<char>,
    i: int,
)
    requires
        0 <= i,
        0 <= j < s.len(),
        s[j].0@ == p.0@,
    ensures
        spec_index_of(s.update(j, p), k, i) == spec_index_of(s, k, i),
    decreases s.len() - i,
{
    if i < s.len() {
        lemma_index_of_update(s, j, p, k, i + 1);
    }
}

/// The run-scoped mapping from original reference string to resolved asset,
/// in discovery order.  Keys are reference strings as they appeared; the
/// same byte source may sit under several keys.
#[derive(Debug)]
pub struct AssetTable {
    /// The entries, in first-insertion order, one per distinct key.
    pub entries: Vec<(String, Asset)>,
}

impl AssetTable {
    /// The asset stored under a key.
    pub open spec fn spec_get(self, k: Seq<char>) -> Option<Asset> {
        let j = spec_index_of(self.entries@, k, 0);
        if j < 0 {
            None
        } else {
            Some(self.entries@[j].1)
        }
    }

    /// Is some asset stored under this key?
    pub open spec fn contains_key(self, k: Seq<char>) -> bool {
        self.spec_get(k) is Some
    }

    /// Each key appears at most once.
    pub open spec fn wf(self) -> bool {
        forall|i: int, j: int|
            0 <= i < j < self.entries@.len() ==> self.entries@[i].0@ != self.entries@[j].0@
    }

    /// The empty table.
    pub fn new() -> (t: AssetTable)
        ensures
            t.wf(),
            t.entries@.len() == 0,
            forall|k: Seq<char>| !t.contains_key(k),
    {
        AssetTable { entries: Vec::new() }
    }

    /// How many references are mapped.
    pub fn len(&self) -> (n: usize)
        ensures
            n == self.entries@.len(),
    {
        self.entries.len()
    }

    /// The asset under a reference string, when one is mapped.
    pub fn get(&self, link: &str) -> (r: Option<&Asset>)
        ensures
            match r {
                Some(a) => self.spec_get(link@) == Some(*a),
                None => self.spec_get(link@) is None,
            },
    {
        let n = self.entries.len();
        let mut i: usize = 0;
        while i < n
            invariant
                n == self.entries@.len(),
                i <= n,
                spec_index_of(self.entries@, link@, 0) == spec_index_of(
                    self.entries@,
                    link@,
                    i as int,
                ),
            decreases n - i,
        {
            if str_eq(self.entries[i].0.as_str(), link) {
                return Some(&self.entries[i].1);
            }
            i += 1;
        }
        None
    }

    /// Map a reference string to an asset: a key already present has its
    /// asset replaced in place, a new key is appended, so discovery order
    /// is kept.
    #[verifier::loop_isolation(false)]
    pub fn insert(&mut self, link: String, asset: Asset)
        requires
            old(self).wf(),
        ensures
            final(self).wf(),
            forall|k: Seq<char>|
                #[trigger] final(self).spec_get(k) == if k == link@ {
                    Some(asset)
                } else {
                    old(self).spec_get(k)
                },
            final(self).entries@.len() <= old(self).entries@.len() + 1,
    {
        let ghost before: Seq<(String, Asset)> = self.entries@;
        let n = self.entries.len();
        let mut i: usize = 0;
        while i < n
            invariant
                self.entries@ == before,
                n == self.entries@.len(),
                i <= n,
                spec_index_of(self.entries@, link@, 0) == spec_index_of(
                    self.entries@,
                    link@,
                    i as int,
                ),
            decreases n - i,
        {
            if str_eq(self.entries[i].0.as_str(), link.as_str()) {
                proof {
                    lemma_index_of_spec(before, link@, 0);
                    assert forall|k: Seq<char>| true implies #[trigger] spec_index_of(
                        before.update(i as int, (link, asset)),
                        k,
                        0,
                    ) == spec_index_of(before, k, 0) by {
                        lemma_index_of_update(before, i as int, (link, asset), k, 0);
                    }
                }
                proof {
                    assert(spec_index_of(before, link@, i as int) == i as int);
                }
                self.entries.set(i, (link, asset));
                proof {
                    assert forall|p: int, q: int|
                        0 <= p < q < self.entries@.len() implies self.entries@[p].0@
                        != self.entries@[q].0@ by {
                        assert(before[p].0@ != before[q].0@);
                    }
                    assert forall|k: Seq<char>| true implies #[trigger] self.spec_get(k) == (if k
                        == link@ {
                        Some(asset)
                    } else {
                        old(self).spec_get(k)
                    }) by {
                        assert(spec_index_of(self.entries@, k, 0) == spec_index_of(before, k, 0));
                        lemma_index_of_spec(before, k, 0);
                        if k != link@ {
                            let j = spec_index_of(before, k, 0);
                            if 0 <= j {
                                assert(before[j].0@ == k);
                                assert(j != i);
                            }
                        }
                    }
                }
                return ;
            }
            i += 1;
        }
        proof {
            assert(spec_index_of(before, link@, n as int) == -1);
            lemma_index_of_spec(before, link@, 0);
            assert(spec_index_of(before, link@, 0) == -1);
            assert forall|k: Seq<char>| true implies #[trigger] spec_index_of(
                before.push((link, asset)),
                k,
                0,
            ) == (if spec_index_of(before, k, 0) != -1 {
                spec_index_of(before, k, 0)
            } else if link@ == k {
                before.len() as int
            } else {
                -1
            }) by {
                lemma_index_of_push(before, (link, asset), k, 0);
            }
        }
        self.entries.push((link, asset));
        proof {
            assert forall|p: int, q: int|
                0 <= p < q < self.entries@.len() implies self.entries@[p].0@
                != self.entries@[q].0@ by {
                lemma_index_of_spec(before, link@, 0);
                if q < before.len() {
                    assert(before[p].0@ != before[q].0@);
                } else {
                    assert(self.entries@[q].0@ == link@);
                    assert(before[p].0@ != link@);
                }
            }
            assert forall|k: Seq<char>| true implies #[trigger] final(self).spec_get(k) == (if k
                == link@ {
                Some(asset)
            } else {
                old(self).spec_get(k)
            }) by {
                lemma_index_of_spec(before, k, 0);
                assert(self.entries@[before.len() as int].1 == asset);
            }
        }
    }
}

/// Does a resolved asset fit its reference?  A reference that parses as a
/// remote address carries the exact cache filename, byte source and
/// canonical address of its resolution; any other carries its reference as
/// a Local source.  Every asset's mimetype is inferred from its byte source.
pub open spec fn value_ok(k: Seq<char>, a: Asset, dest: Seq<char>) -> bool {
    match parsed_url_of(k) {
        Some(p) => a.filename@ == spec_cache_filename(p.path@, p.hash) && a.location_on_disk@
            == spec_normalize(spec_join(dest, spec_cache_filename(p.path@, p.hash)))
            && a.mimetype@ == mime_of(a.location_on_disk@) && (a.source matches AssetKind::Remote(
            c,
        ) && c@ == p.canonical@),
        None => a.mimetype@ == mime_of(a.location_on_disk@) && (a.source matches AssetKind::Local(
            l,
        ) && l@ == k),
    }
}

/// Every mapped asset fits its reference.
pub open spec fn table_ok(t: AssetTable, dest: Seq<char>) -> bool {
    forall|k: Seq<char>| #[trigger] t.contains_key(k) ==> value_ok(k, t.spec_get(k).unwrap(), dest)
}

/// The assets of a table, in insertion order.
pub open spec fn table_values(t: AssetTable) -> Seq<Asset> {
    t.entries@.map_values(|e: (String, Asset)| e.1)
}

/// Does an earlier asset of the list share this one's identity?
pub open spec fn has_earlier_identity(vals: Seq<Asset>, i: int) -> bool {
    exists|j: int| 0 <= j < i && same_identity(vals[j], vals[i])
}

/// The positions, among the first `i` assets, of the first asset of each
/// distinct identity, in order.
pub open spec fn dedup_idx_upto(vals: Seq<Asset>, i: int) -> Seq<int>
    decreases i,
{
    if i <= 0 || i > vals.len() {
        Seq::empty()
    } else {
        dedup_idx_upto(vals, i - 1) + (if !has_earlier_identity(vals, i - 1) {
            seq![i - 1]
        } else {
            Seq::<int>::empty()
        })
    }
}

/// One asset per distinct identity: the first of each, in first-appearance
/// order, so that regeneration embeds in a deterministic order.
pub open spec fn distinct_assets(vals: Seq<Asset>) -> Seq<Asset> {
    dedup_idx_upto(vals, vals.len() as int).map_values(|j: int| vals[j])
}

/// What the kept positions look like: each below `i`, strictly increasing,
/// each the first of its identity, and every asset below `i` shares its
/// identity with a kept one.
pub proof fn lemma_dedup_props(vals: Seq<Asset>, i: int)
    requires
        0 <= i <= vals.len(),
    ensures
        forall|t: int|
            0 <= t < dedup_idx_upto(vals, i).len() ==> 0 <= #[trigger] dedup_idx_upto(vals, i)[t]
                < i && !has_earlier_identity(vals, dedup_idx_upto(vals, i)[t]),
        forall|p: int, q: int|
            0 <= p < q < dedup_idx_upto(vals, i).len() ==> #[trigger] dedup_idx_upto(vals, i)[p]
                < #[trigger] dedup_idx_upto(vals, i)[q],
        forall|j: int|
            0 <= j < i ==> exists|t: int|
                0 <= t < dedup_idx_upto(vals, i).len() && same_identity(
                    #[trigger] vals[j],
                    vals[#[trigger] dedup_idx_upto(vals, i)[t]],
                ),
    decreases i,
{
    if i > 0 {
        lemma_dedup_props(vals, i - 1);
        let prev = dedup_idx_upto(vals, i - 1);
        let cur = dedup_idx_upto(vals, i);
        if !has_earlier_identity(vals, i - 1) {
            assert(cur == prev + seq![i - 1]);
            assert(cur[cur.len() - 1] == i - 1);
            assert forall|j: int| 0 <= j < i implies exists|t: int|
                0 <= t < cur.len() && same_identity(#[trigger] vals[j], vals[#[trigger] cur[t]]) by {
                if j == i - 1 {
                    assert(cur[cur.len() - 1] == i - 1);
                    assert(same_identity(vals[j], vals[cur[cur.len() - 1]]));
                } else {
                    let t = choose|t: int|
                        0 <= t < prev.len() && same_identity(vals[j], vals[#[trigger] prev[t]]);
                    assert(cur[t] == prev[t]);
                    assert(same_identity(vals[j], vals[cur[t]]));
                }
            }
        } else {
            assert(cur =~= prev);
            assert forall|j: int| 0 <= j < i implies exists|t: int|
                0 <= t < cur.len() && same_identity(#[trigger] vals[j], vals[#[trigger] cur[t]]) by {
                if j == i - 1 {
                    let j0 = choose|j0: int| 0 <= j0 < i - 1 && same_identity(#[trigger] vals[j0], vals[i - 1]);
                    let t = choose|t: int|
                        0 <= t < prev.len() && same_identity(vals[j0], vals[#[trigger] prev[t]]);
                    assert(same_identity(vals[j], vals[cur[t]]));
                } else {
                    let t = choose|t: int|
                        0 <= t < prev.len() && same_identity(vals[j], vals[#[trigger] prev[t]]);
                    assert(same_identity(vals[j], vals[cur[t]]));
                }
            }
        }
    }
}

/// Exactly one embedded copy per identity, first half: the embedding list
/// holds no two assets of the same identity.
pub proof fn lemma_embedded_at_most_once(vals: Seq<Asset>)
    ensures
        forall|p: int, q: int|
            0 <= p < q < distinct_assets(vals).len() ==> !same_identity(
                #[trigger] distinct_assets(vals)[p],
                #[trigger] distinct_assets(vals)[q],
            ),
{
    let idx = dedup_idx_upto(vals, vals.len() as int);
    let dd = distinct_assets(vals);
    lemma_dedup_props(vals, vals.len() as int);
    assert forall|p: int, q: int| 0 <= p < q < dd.len() implies !same_identity(
        #[trigger] dd[p],
        #[trigger] dd[q],
    ) by {
        assert(dd[p] == vals[idx[p]]);
        assert(dd[q] == vals[idx[q]]);
        if same_identity(vals[idx[p]], vals[idx[q]]) {
            assert(idx[p] < idx[q]);
            assert(has_earlier_identity(vals, idx[q]));
        }
    }
}

/// Exactly one embedded copy per identity, second half: every asset of the
/// table shares its identity with some entry of the embedding list, however
/// many distinct references pointed at it.
pub proof fn lemma_embedded_at_least_once(vals: Seq<Asset>, j: int)
    requires
        0 <= j < vals.len(),
    ensures
        exists|t: int|
            0 <= t < distinct_assets(vals).len() && same_identity(
                vals[j],
                #[trigger] distinct_assets(vals)[t],
            ),
{
    let idx = dedup_idx_upto(vals, vals.len() as int);
    lemma_dedup_props(vals, vals.len() as int);
    let t = choose|t: int| 0 <= t < idx.len() && same_identity(vals[j], vals[#[trigger] idx[t]]);
    assert(distinct_assets(vals)[t] == vals[idx[t]]);
    assert(0 <= t < distinct_assets(vals).len() && same_identity(
        vals[j],
        distinct_assets(vals)[t],
    ));
}

/// Two reference strings that resolve to assets of one identity are embedded
/// as one copy: the embedding list holds an asset of that identity, and no
/// two of its positions share it.
pub proof fn lemma_shared_identity_embeds_once(t: AssetTable, k1: Seq<char>, k2: Seq<char>)
    requires
        t.contains_key(k1),
        t.contains_key(k2),
        same_identity(t.spec_get(k1).unwrap(), t.spec_get(k2).unwrap()),
    ensures
        exists|u: int|
            0 <= u < distinct_assets(table_values(t)).len() && same_identity(
                t.spec_get(k1).unwrap(),
                #[trigger] distinct_assets(table_values(t))[u],
            ),
        forall|u1: int, u2: int|
            (0 <= u1 < distinct_assets(table_values(t)).len() && 0 <= u2 < distinct_assets(
                table_values(t),
            ).len() && same_identity(
                t.spec_get(k1).unwrap(),
                #[trigger] distinct_assets(table_values(t))[u1],
            ) && same_identity(
                t.spec_get(k1).unwrap(),
                #[trigger] distinct_assets(table_values(t))[u2],
            )) ==> u1 == u2,
{
    let vals = table_values(t);
    let j = spec_index_of(t.entries@, k1, 0);
    lemma_index_of_spec(t.entries@, k1, 0);
    assert(0 <= j < t.entries@.len());
    assert(vals[j] == t.entries@[j].1);
    assert(t.spec_get(k1).unwrap() == vals[j]);
    lemma_embedded_at_least_once(vals, j);
    lemma_embedded_at_most_once(vals);
    let dd = distinct_assets(vals);
    assert forall|u1: int, u2: int|
        (0 <= u1 < dd.len() && 0 <= u2 < dd.len() && same_identity(
            t.spec_get(k1).unwrap(),
            #[trigger] dd[u1],
        ) && same_identity(t.spec_get(k1).unwrap(), #[trigger] dd[u2])) implies u1 == u2 by {
        if u1 < u2 {
            assert(same_identity(dd[u1], dd[u2]));
        }
        if u2 < u1 {
            assert(same_identity(dd[u2], dd[u1]));
        }
    }
}

/// The references of the first `i` chapters of a list, subtrees included.
pub open spec fn chapters_links_upto(chs: Seq<Chapter>, i: int) -> Seq<Seq<char>>
    decreases chs, i,
{
    if i <= 0 || i > chs.len() {
        Seq::empty()
    } else {
        chapters_links_upto(chs, i - 1) + chapter_links(chs[i - 1])
    }
}

/// The references one chapter tree contributes, depth first: the chapter's
/// own content links (none for a draft chapter, which has no source path),
/// then its children's.
pub open spec fn chapter_links(ch: Chapter) -> Seq<Seq<char>>
    decreases ch, 1int,
{
    (if ch.path is Some {
        content_links(ch.content@)
    } else {
        Seq::empty()
    }) + chapters_links_upto(ch.sub_items@, ch.sub_items@.len() as int)
}

/// The references of a whole book.
pub open spec fn book_links(sections: Seq<Chapter>) -> Seq<Seq<char>> {
    chapters_links_upto(sections, sections.len() as int)
}

/// Resolve every reference of one chapter tree into the table.
#[verifier::loop_isolation(false)]
fn find_in_chapter<P: PathProbe>(
    fs: &P,
    ch: &Chapter,
    src_dir: &str,
    destination: &str,
    table: &mut AssetTable,
) -> (r: Result<(), Error>)
    requires
        old(table).wf(),
        table_ok(*old(table), destination@),
    ensures
        match r {
            Ok(_) => final(table).wf() && table_ok(*final(table), destination@) && (forall|
                k: Seq<char>,
            |
                #[trigger] final(table).contains_key(k) <==> (old(table).contains_key(k)
                    || chapter_links(*ch).contains(k))),
            Err(e) => e matches Error::AssetFileNotFound(_) || e matches Error::AssetFile(_),
        },
    decreases *ch, 2int,
{
    let ghost entry: AssetTable = *table;
    let ghost own_links: Seq<Seq<char>> = if ch.path is Some {
        content_links(ch.content@)
    } else {
        Seq::<Seq<char>>::empty()
    };
    match &ch.path {
        Some(chapter_path) => {
            let links = match find_assets_in_markdown(ch.content.as_str()) {
                Ok(l) => l,
                Err(e) => {
                    return Err(e);
                },
            };
            let m = links.len();
            let mut li: usize = 0;
            while li < m
                invariant
                    m == links.len(),
                    li <= m,
                    table.wf(),
                    table_ok(*table, destination@),
                    forall|k: Seq<char>|
                        #[trigger] table.contains_key(k) <==> (entry.contains_key(k) || str_views(
                            links@,
                        ).take(li as int).contains(k)),
                decreases m - li,
            {
                proof {
                    assert(str_views(links@)[li as int] == links@[li as int]@);
                }
                let link = &links[li];
                let asset = match parse_url(link.as_str()) {
                    Some(parts) => Asset::from_url(&parts, destination),
                    None => {
                        match Asset::from_local(fs, link.as_str(), src_dir, chapter_path.as_str()) {
                            Ok(a) => a,
                            Err(e) => {
                                return Err(e);
                            },
                        }
                    },
                };
                let ghost mid: AssetTable = *table;
                proof {
                    assert(value_ok(link@, asset, destination@));
                }
                table.insert(link.clone(), asset);
                proof {
                    assert forall|k: Seq<char>| #[trigger] table.contains_key(k) <==> (
                    entry.contains_key(k) || str_views(links@).take(li as int + 1).contains(
                        k,
                    )) by {
                        assert(table.spec_get(k) == if k == link@ {
                            Some(asset)
                        } else {
                            mid.spec_get(k)
                        });
                        assert(mid.contains_key(k) <==> (entry.contains_key(k) || str_views(
                            links@,
                        ).take(li as int).contains(k)));
                        let taken = str_views(links@).take(li as int + 1);
                        if taken.contains(k) {
                            let t = choose|t: int| 0 <= t < taken.len() && taken[t] == k;
                            if t < li {
                                assert(str_views(links@).take(li as int)[t] == k);
                            }
                        }
                        if str_views(links@).take(li as int).contains(k) {
                            let t = choose|t: int|
                                0 <= t < li && str_views(links@).take(li as int)[t] == k;
                            assert(taken[t] == k);
                        }
                        if k == link@ {
                            assert(taken[li as int] == k);
                        }
                    }
                    assert forall|k: Seq<char>| #[trigger] table.contains_key(k) implies value_ok(
                        k,
                        table.spec_get(k).unwrap(),
                        destination@,
                    ) by {
                        if k != link@ {
                            assert(table.spec_get(k) == mid.spec_get(k));
                            assert(mid.contains_key(k));
                        }
                    }
                }
                li += 1;
            }
            proof {
                assert(str_views(links@).take(m as int) =~= str_views(links@));
                assert forall|k: Seq<char>| #[trigger] table.contains_key(k) <==> (
                entry.contains_key(k) || own_links.contains(k)) by {}
            }
        },
        None => {},
    }
    let ghost after_own: AssetTable = *table;
    let n = ch.sub_items.len();
    let mut i: usize = 0;
    while i < n
        invariant
            n == ch.sub_items@.len(),
            i <= n,
            table.wf(),
            table_ok(*table, destination@),
            forall|k: Seq<char>|
                #[trigger] table.contains_key(k) <==> (after_own.contains_key(k)
                    || chapters_links_upto(ch.sub_items@, i as int).contains(k)),
        decreases n - i,
    {
        proof {
            assert(decreases_to!(*ch, 2int => ch.sub_items@[i as int], 2int));
        }
        let ghost mid: AssetTable = *table;
        match find_in_chapter(fs, &ch.sub_items[i], src_dir, destination, table) {
            Ok(_) => {},
            Err(e) => {
                return Err(e);
            },
        }
        proof {
            let ghost upto: Seq<Seq<char>> = chapters_links_upto(ch.sub_items@, i as int);
            let ghost child: Seq<Seq<char>> = chapter_links(ch.sub_items@[i as int]);
            assert forall|k: Seq<char>| #[trigger] table.contains_key(k) <==> (
            after_own.contains_key(k) || chapters_links_upto(ch.sub_items@, i as int + 1).contains(
                k,
            )) by {
                lemma_contains_cat(upto, child, k);
            }
        }
        i += 1;
    }
    proof {
        let ghost subs_all: Seq<Seq<char>> = chapters_links_upto(
            ch.sub_items@,
            ch.sub_items@.len() as int,
        );
        assert forall|k: Seq<char>| #[trigger] table.contains_key(k) <==> (entry.contains_key(k)
            || chapter_links(*ch).contains(k)) by {
            lemma_contains_cat(own_links, subs_all, k);
        }
    }
    Ok(())
}

/// Build the asset table: walk every chapter of the book, resolve every
/// reference its content contains, and map each reference string to its
/// asset.  Draft chapters contribute nothing; any resolution failure aborts
/// the run before anything is written.
pub fn find<P: PathProbe>(ctx: &BookContext, fs: &P) -> (r: Result<AssetTable, Error>)
    ensures
        match r {
            Ok(t) => t.wf() && table_ok(t, ctx.destination@) && (forall|k: Seq<char>|
                #[trigger] t.contains_key(k) <==> book_links(ctx.sections@).contains(k)),
            Err(e) => e matches Error::Io(_) || e matches Error::AssetFileNotFound(_) || e matches
                Error::AssetFile(_),
        },
{
    let src_join = join_path(ctx.root.as_str(), ctx.source_dir.as_str());
    let src_dir = match fs.canonicalize(src_join.as_str()) {
        Some(d) => d,
        None => {
            return Err(
                Error::Io(concat2("Could not canonicalize the source directory: ", src_join.as_str())),
            );
        },
    };
    let mut table = AssetTable::new();
    let n = ctx.sections.len();
    let mut i: usize = 0;
    while i < n
        invariant
            n == ctx.sections@.len(),
            table.wf(),
            table_ok(table, ctx.destination@),
            i <= n,
            forall|k: Seq<char>|
                #[trigger] table.contains_key(k) <==> chapters_links_upto(
                    ctx.sections@,
                    i as int,
                ).contains(k),
        decreases n - i,
    {
        let ghost mid: AssetTable = table;
        match find_in_chapter(
            fs,
            &ctx.sections[i],
            src_dir.as_str(),
            ctx.destination.as_str(),
            &mut table,
        ) {
            Ok(_) => {},
            Err(e) => {
                return Err(e);
            },
        }
        proof {
            let ghost upto: Seq<Seq<char>> = chapters_links_upto(ctx.sections@, i as int);
            let ghost child: Seq<Seq<char>> = chapter_links(ctx.sections@[i as int]);
            assert forall|k: Seq<char>| #[trigger] table.contains_key(k) <==> chapters_links_upto(
                ctx.sections@,
                i as int + 1,
            ).contains(k) by {
                lemma_contains_cat(upto, child, k);
            }
        }
        i += 1;
    }
    Ok(table)
}

} // verus!
