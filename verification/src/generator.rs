//! The generator: the sequential pipeline that populates metadata, discovers
//! and resolves assets, renders chapters, and embeds cover, stylesheet,
//! assets and extra resources into one package.  Every step either succeeds
//! or aborts the whole run; no partial package is considered valid.

use vstd::prelude::*;
use vstd::string::{StringSliceAdditionalSpecFns, StrSliceExecFns};
use crate::book::{
    chapter_title, number_view, spec_chapter_title, spec_toc_level, toc_level, BookContext, Chapter,
};
use crate::config::{Config, BLANK_TEMPLATE};
use crate::epub::{
    builder_add_cover, builder_add_page, builder_add_resource, builder_finish, builder_metadata,
    builder_new, builder_set_version, builder_stylesheet, pkg_entries, pkg_metadata,
    spec_meta_insert, PackageSink, PkgEntry, PkgEntryKind,
};
use crate::errors::Error;
use crate::hbs::{engine_new, engine_register, engine_render};
use crate::markdown::md_scan;
use crate::paths::{join_path, parent_of, spec_with_extension, stylesheet_rel_path, with_extension};
use crate::resources::{
    book_links, dedup_idx_upto, distinct_assets, find, has_earlier_identity, same_identity,
    table_ok, table_values, Asset, AssetKind, AssetTable, ContentRetriever, PathProbe,
};
use crate::rewrite::{all_subs_ok, chapter_body};
use crate::strutil::{concat2, push_str_chars, string_of};
use crate::urls::{guess_mime, mime_of, sanitized_of, sanitize_name};

verus! {

/// One page a chapter contributes to the package: its path, its visible
/// title, its nesting level, and whether it is a synthesized placeholder.
pub open spec fn page_of(path: Seq<char>, title: Seq<char>, level: int, blank: bool) -> (
    Seq<char>,
    Seq<char>,
    int,
    bool,
) {
    (path, title, level, blank)
}

/// The pages a chapter itself contributes: one rendered page for a chapter
/// with content; one placeholder page for a contentless chapter that has
/// children; nothing for a contentless chapter without children.
pub open spec fn chapter_own_pages(ch: Chapter, no_label: bool) -> Seq<
    (Seq<char>, Seq<char>, int, bool),
> {
    match ch.path {
        Some(p) => seq![
            page_of(
                spec_with_extension(p@, "html"@),
                spec_chapter_title(ch, no_label),
                spec_toc_level(number_view(ch.number)),
                false,
            ),
        ],
        None => if ch.sub_items@.len() == 0 {
            Seq::empty()
        } else {
            seq![
                page_of(
                    sanitized_of(ch.name@) + ".html"@,
                    spec_chapter_title(ch, no_label),
                    spec_toc_level(number_view(ch.number)),
                    true,
                ),
            ]
        },
    }
}

/// The pages the first `i` chapters of a list contribute, subtrees included.
pub open spec fn chapters_pages_upto(chs: Seq<Chapter>, i: int, no_label: bool) -> Seq<
    (Seq<char>, Seq<char>, int, bool),
>
    decreases chs, i,
{
    if i <= 0 || i > chs.len() {
        Seq::empty()
    } else {
        chapters_pages_upto(chs, i - 1, no_label) + spec_chapter_pages(chs[i - 1], no_label)
    }
}

/// The pages one chapter tree contributes, depth first: the chapter's own
/// page (if any), then its children's pages, in order, whether or not the
/// chapter itself produced a page.
pub open spec fn spec_chapter_pages(ch: Chapter, no_label: bool) -> Seq<
    (Seq<char>, Seq<char>, int, bool),
>
    decreases ch, 1int,
{
    chapter_own_pages(ch, no_label) + chapters_pages_upto(
        ch.sub_items@,
        ch.sub_items@.len() as int,
        no_label,
    )
}

/// The pages of the whole book.
pub open spec fn spec_book_pages(sections: Seq<Chapter>, no_label: bool) -> Seq<
    (Seq<char>, Seq<char>, int, bool),
> {
    chapters_pages_upto(sections, sections.len() as int, no_label)
}

/// Do these manifest entries carry exactly these pages: same length, and at
/// each position a page entry with that path, the XHTML mimetype, that
/// title and that level?
pub open spec fn pages_match(
    entries: Seq<PkgEntry>,
    pages: Seq<(Seq<char>, Seq<char>, int, bool)>,
) -> bool {
    entries.len() == pages.len() && forall|i: int|
        0 <= i < pages.len() ==> (#[trigger] entries[i]).path@ == pages[i].0 && entries[i].mime@
            == "application/xhtml+xml"@ && (entries[i].kind matches PkgEntryKind::Page {
            title,
            level,
        } && title@ == pages[i].1 && level as int == pages[i].2)
}

/// Growth by one batch of pages composes with growth by a second batch.
pub proof fn lemma_grow(
    base: Seq<PkgEntry>,
    mid: Seq<PkgEntry>,
    cur: Seq<PkgEntry>,
    done: Seq<(Seq<char>, Seq<char>, int, bool)>,
    cp: Seq<(Seq<char>, Seq<char>, int, bool)>,
)
    requires
        mid.len() == base.len() + done.len(),
        mid.take(base.len() as int) == base,
        pages_match(mid.skip(base.len() as int), done),
        cur.len() == mid.len() + cp.len(),
        cur.take(mid.len() as int) == mid,
        pages_match(cur.skip(mid.len() as int), cp),
    ensures
        cur.len() == base.len() + (done + cp).len(),
        cur.take(base.len() as int) == base,
        pages_match(cur.skip(base.len() as int), done + cp),
{
    assert(cur.take(base.len() as int) =~= base) by {
        assert forall|t: int| 0 <= t < base.len() implies cur.take(base.len() as int)[t]
            == base[t] by {
            assert(cur[t] == cur.take(mid.len() as int)[t]);
            assert(mid[t] == mid.take(base.len() as int)[t]);
        }
    }
    let tail = cur.skip(base.len() as int);
    let both = done + cp;
    assert(tail.len() == both.len());
    assert forall|i: int| 0 <= i < both.len() implies ((#[trigger] tail[i]).path@ == both[i].0
        && tail[i].mime@ == "application/xhtml+xml"@ && (tail[i].kind matches PkgEntryKind::Page {
        title,
        level,
    } && title@ == both[i].1 && level as int == both[i].2)) by {
        if i < done.len() {
            assert(tail[i] == cur[base.len() + i]);
            assert(cur[base.len() + i] == cur.take(mid.len() as int)[base.len() + i]);
            assert(mid[base.len() + i] == mid.skip(base.len() as int)[i]);
        } else {
            assert(tail[i] == cur.skip(mid.len() as int)[i - done.len()]);
        }
    }
}

/// A chapter with no content and no children contributes no page at all,
/// so it produces zero package entries.
pub proof fn lemma_childless_draft_contributes_nothing(ch: Chapter, no_label: bool)
    requires
        ch.path is None,
        ch.sub_items@.len() == 0,
    ensures
        spec_chapter_pages(ch, no_label).len() == 0,
{
    assert(spec_chapter_pages(ch, no_label) =~= Seq::<(Seq<char>, Seq<char>, int, bool)>::empty());
}

/// A chapter with no content but with children contributes exactly one page
/// of its own: a placeholder carrying the chapter's title; and all its
/// children's pages still follow it.
pub proof fn lemma_draft_parent_contributes_placeholder(ch: Chapter, no_label: bool)
    requires
        ch.path is None,
        ch.sub_items@.len() > 0,
    ensures
        chapter_own_pages(ch, no_label).len() == 1,
        chapter_own_pages(ch, no_label)[0].1 == spec_chapter_title(ch, no_label),
        chapter_own_pages(ch, no_label)[0].3,
        spec_chapter_pages(ch, no_label) == chapter_own_pages(ch, no_label)
            + chapters_pages_upto(ch.sub_items@, ch.sub_items@.len() as int, no_label),
{
}

/// The first `i` authors joined by the fixed delimiter.
pub open spec fn spec_joined_authors(authors: Seq<String>, i: int) -> Seq<char>
    decreases i,
{
    if i <= 0 || i > authors.len() {
        Seq::empty()
    } else if i == 1 {
        authors[0]@
    } else {
        spec_joined_authors(authors, i - 1) + ", "@ + authors[i - 1]@
    }
}

/// What one run records over a builder's metadata: the generator identifier,
/// the title and the description when set, the authors joined by the fixed
/// delimiter when there are any, and the language with the fixed fallback
/// locale code.
pub open spec fn spec_recorded_metadata(
    base: Map<Seq<char>, Seq<Seq<char>>>,
    ctx: BookContext,
) -> Map<Seq<char>, Seq<Seq<char>>> {
    let with_generator = spec_meta_insert(base, "generator"@, "mdbook-epub"@);
    let with_title = match ctx.title {
        Some(t) => spec_meta_insert(with_generator, "title"@, t@),
        None => with_generator,
    };
    let with_description = match ctx.description {
        Some(d) => spec_meta_insert(with_title, "description"@, d@),
        None => with_title,
    };
    let with_authors = if ctx.authors@.len() > 0 {
        spec_meta_insert(
            with_description,
            "author"@,
            spec_joined_authors(ctx.authors@, ctx.authors@.len() as int),
        )
    } else {
        with_description
    };
    spec_meta_insert(
        with_authors,
        "lang"@,
        match ctx.language {
            Some(l) => l@,
            None => "en"@,
        },
    )
}

/// The actual package generator.
pub struct Generator<H: ContentRetriever, P: PathProbe> {
    /// What the host handed the run.
    pub ctx: BookContext,
    /// The package builder.
    pub builder: PackageSink,
    /// The run's configuration.
    pub config: Config,
    /// The template engine, with the page and placeholder templates.
    pub hbs: handlebars::Handlebars<'static>,
    /// The asset table, built once before rendering.
    pub assets: AssetTable,
    /// The content retrieval capability.
    pub handler: H,
    /// The path probing capability.
    pub fs: P,
}

/// Render one chapter into its full page: rewrite its content against the
/// table, then apply the page template with the chapter's name and the
/// stylesheet's relative path.  A chapter without a source path cannot be
/// rendered this way.
fn render_chapter_with(
    hbs: &handlebars::Handlebars<'static>,
    assets: &AssetTable,
    curly: bool,
    ch: &Chapter,
) -> (r: Result<String, Error>)
    ensures
        ch.path is None ==> r matches Err(Error::Render(_)),
        r is Ok ==> ch.path is Some && all_subs_ok(*assets, md_scan(ch.content@, curly)),
        r matches Err(e) ==> (e matches Error::Render(_) || e matches Error::AssetFileNotFound(_)),
{
    let chapter_dir = match &ch.path {
        Some(p) => {
            match parent_of(p.as_str()) {
                Some(d) => d,
                None => {
                    return Err(
                        Error::Render(concat2("No stylesheet path for chapter: ", ch.name.as_str())),
                    );
                },
            }
        },
        None => {
            let mut m: Vec<char> = Vec::new();
            push_str_chars(&mut m, "Draft chapter: ");
            push_str_chars(&mut m, ch.name.as_str());
            push_str_chars(&mut m, " could not be rendered.");
            return Err(Error::Render(string_of(&m)));
        },
    };
    let body = match chapter_body(assets, ch.content.as_str(), curly) {
        Ok(b) => b,
        Err(e) => {
            return Err(e);
        },
    };
    let stylesheet = stylesheet_rel_path(chapter_dir.as_str());
    match engine_render(hbs, "index", &ch.name, Some((&body, &stylesheet))) {
        Ok(page) => Ok(page),
        Err(m) => Err(Error::Render(m)),
    }
}

/// Add one chapter tree to the package, depth first: the chapter's page (a
/// rendered page for a content chapter, a placeholder for a contentless one
/// with children, nothing otherwise), then each child, whether or not the
/// chapter itself produced a page.
#[verifier::loop_isolation(false)]
fn add_chapter(
    builder: &mut PackageSink,
    hbs: &handlebars::Handlebars<'static>,
    assets: &AssetTable,
    curly: bool,
    no_label: bool,
    ch: &Chapter,
) -> (r: Result<(), Error>)
    ensures
        match r {
            Ok(_) => pkg_entries(*final(builder)).len() == pkg_entries(*old(builder)).len()
                + spec_chapter_pages(*ch, no_label).len() && pkg_entries(*final(builder)).take(
                pkg_entries(*old(builder)).len() as int,
            ) == pkg_entries(*old(builder)) && pages_match(
                pkg_entries(*final(builder)).skip(pkg_entries(*old(builder)).len() as int),
                spec_chapter_pages(*ch, no_label),
            ),
            Err(e) => e matches Error::Render(_) || e matches Error::AssetFileNotFound(_) || e
                matches Error::EpubBuilder(_),
        },
    decreases *ch, 2int,
{
    let ghost base: Seq<PkgEntry> = pkg_entries(*builder);
    let ghost own: Seq<(Seq<char>, Seq<char>, int, bool)> = chapter_own_pages(*ch, no_label);
    match &ch.path {
        Some(ch_path) => {
            let path = with_extension(ch_path.as_str(), "html");
            let rendered = match render_chapter_with(hbs, assets, curly, ch) {
                Ok(s) => s,
                Err(e) => {
                    return Err(e);
                },
            };
            let title = chapter_title(ch, no_label);
            let level = toc_level(&ch.number);
            let html = rendered.as_str().as_bytes_vec();
            match builder_add_page(builder, &path, &html, &title, level) {
                Ok(_) => {},
                Err(m) => {
                    return Err(Error::EpubBuilder(m));
                },
            }
            proof {
                let cur = pkg_entries(*builder);
                assert(cur =~= base.push(cur.last()));
                assert(cur.take(base.len() as int) =~= base);
                assert(cur.skip(base.len() as int) =~= seq![cur.last()]);
                assert(pages_match(cur.skip(base.len() as int), own));
            }
        },
        None => {
            if ch.sub_items.len() == 0 {
                proof {
                    assert(own =~= Seq::<(Seq<char>, Seq<char>, int, bool)>::empty());
                    assert(pkg_entries(*builder).take(base.len() as int) =~= base);
                    assert(pkg_entries(*builder).skip(base.len() as int) =~= Seq::<
                        PkgEntry,
                    >::empty());
                }
            } else {
                let sanitized = sanitize_name(ch.name.as_str());
                let path = concat2(sanitized.as_str(), ".html");
                let rendered = match engine_render(hbs, "blank", &ch.name, None) {
                    Ok(s) => s,
                    Err(m) => {
                        return Err(Error::Render(m));
                    },
                };
                let title = chapter_title(ch, no_label);
                let level = toc_level(&ch.number);
                let html = rendered.as_str().as_bytes_vec();
                match builder_add_page(builder, &path, &html, &title, level) {
                    Ok(_) => {},
                    Err(m) => {
                        return Err(Error::EpubBuilder(m));
                    },
                }
                proof {
                    let cur = pkg_entries(*builder);
                    assert(cur =~= base.push(cur.last()));
                    assert(cur.take(base.len() as int) =~= base);
                    assert(cur.skip(base.len() as int) =~= seq![cur.last()]);
                    assert(pages_match(cur.skip(base.len() as int), own));
                }
            }
        },
    }
    let ghost mid: Seq<PkgEntry> = pkg_entries(*builder);
    let n = ch.sub_items.len();
    let mut i: usize = 0;
    proof {
        assert(chapters_pages_upto(ch.sub_items@, 0, no_label) =~= Seq::<
            (Seq<char>, Seq<char>, int, bool),
        >::empty());
        assert(mid.take(mid.len() as int) =~= mid);
        assert(mid.skip(mid.len() as int) =~= Seq::<PkgEntry>::empty());
    }
    while i < n
        invariant
            n == ch.sub_items@.len(),
            i <= n,
            pkg_entries(*builder).len() == mid.len() + chapters_pages_upto(
                ch.sub_items@,
                i as int,
                no_label,
            ).len(),
            pkg_entries(*builder).take(mid.len() as int) == mid,
            pages_match(
                pkg_entries(*builder).skip(mid.len() as int),
                chapters_pages_upto(ch.sub_items@, i as int, no_label),
            ),
        decreases n - i,
    {
        proof {
            assert(decreases_to!(*ch, 2int => ch.sub_items@[i as int], 2int));
        }
        let ghost step_base: Seq<PkgEntry> = pkg_entries(*builder);
        let ghost done: Seq<(Seq<char>, Seq<char>, int, bool)> = chapters_pages_upto(
            ch.sub_items@,
            i as int,
            no_label,
        );
        match add_chapter(builder, hbs, assets, curly, no_label, &ch.sub_items[i]) {
            Ok(_) => {},
            Err(e) => {
                return Err(e);
            },
        }
        proof {
            lemma_grow(
                mid,
                step_base,
                pkg_entries(*builder),
                done,
                spec_chapter_pages(ch.sub_items@[i as int], no_label),
            );
        }
        i += 1;
    }
    proof {
        lemma_grow(
            base,
            mid,
            pkg_entries(*builder),
            own,
            chapters_pages_upto(ch.sub_items@, n as int, no_label),
        );
    }
    Ok(())
}

/// The positions of the first asset of each distinct identity in the table,
/// in first-appearance order.
#[verifier::loop_isolation(false)]
#[verifier::rlimit(50)]
fn dedup_indices(assets: &AssetTable) -> (idxs: Vec<usize>)
    ensures
        idxs@.map_values(|u: usize| u as int) == dedup_idx_upto(
            table_values(*assets),
            table_values(*assets).len() as int,
        ),
        forall|t: int| 0 <= t < idxs@.len() ==> #[trigger] idxs@[t] < assets.entries@.len(),
{
    let ghost vals: Seq<Asset> = table_values(*assets);
    let n = assets.entries.len();
    let mut idxs: Vec<usize> = Vec::new();
    let mut i: usize = 0;
    proof {
        assert(idxs@.map_values(|u: usize| u as int) =~= dedup_idx_upto(vals, 0));
    }
    while i < n
        invariant
            n == assets.entries@.len(),
            i <= n,
            vals.len() == n,
            idxs@.map_values(|u: usize| u as int) == dedup_idx_upto(vals, i as int),
            forall|t: int| 0 <= t < idxs@.len() ==> #[trigger] idxs@[t] < i,
        decreases n - i,
    {
        proof {
            assert(vals[i as int] == assets.entries@[i as int].1);
        }
        let mut j: usize = 0;
        let mut found: bool = false;
        while j < i
            invariant
                i < n,
                vals.len() == n == assets.entries@.len(),
                j <= i,
                !found ==> forall|u: int| 0 <= u < j ==> !same_identity(#[trigger] vals[u], vals[i as int]),
                found ==> has_earlier_identity(vals, i as int),
            decreases i - j,
        {
            proof {
                assert(vals[j as int] == assets.entries@[j as int].1);
            }
            if assets.entries[j].1.eq(&assets.entries[i].1) {
                found = true;
            }
            j += 1;
        }
        if found {
            proof {
                assert(dedup_idx_upto(vals, i as int + 1) =~= dedup_idx_upto(vals, i as int));
            }
        } else {
            proof {
                assert(!has_earlier_identity(vals, i as int));
                assert(dedup_idx_upto(vals, i as int + 1) =~= dedup_idx_upto(vals, i as int)
                    + seq![i as int]);
                assert(idxs@.push(i).map_values(|u: usize| u as int) =~= idxs@.map_values(
                    |u: usize| u as int,
                ).push(i as int));
            }
            idxs.push(i);
        }
        i += 1;
    }
    idxs
}

impl<H: ContentRetriever, P: PathProbe> Generator<H, P> {
    /// Set up a generation run: a fresh package builder at the configured
    /// format version, and the template engine with the page template (the
    /// custom one when configured and supplied, the default otherwise) and
    /// the placeholder template.
    pub fn new(
        ctx: BookContext,
        config: Config,
        custom_template: Option<String>,
        handler: H,
        fs: P,
    ) -> (r: Result<Generator<H, P>, Error>)
        ensures
            match r {
                Ok(g) => pkg_entries(g.builder).len() == 0 && pkg_metadata(g.builder) == Map::<
                    Seq<char>,
                    Seq<Seq<char>>,
                >::empty() && g.assets.wf() && g.assets.entries@.len() == 0 && g.ctx == ctx
                    && g.config == config,
                Err(e) => e matches Error::EpubDocCreate(_) || e matches Error::EpubBuilder(_) || e
                    matches Error::TemplateParse || e matches Error::OpenTemplate(_),
            },
            (match config.epub_version {
                Some(v) => v != 2 && v != 3,
                None => false,
            }) ==> r matches Err(Error::EpubDocCreate(_)),
    {
        let version = match config.epub_version() {
            Ok(v) => v,
            Err(e) => {
                return Err(e);
            },
        };
        let mut builder = match builder_new() {
            Ok(b) => b,
            Err(m) => {
                return Err(Error::EpubBuilder(m));
            },
        };
        builder_set_version(&mut builder, version);
        let mut hbs = engine_new();
        let template = match config.template(custom_template) {
            Ok(t) => t,
            Err(e) => {
                return Err(e);
            },
        };
        match engine_register(&mut hbs, "index", template.as_str()) {
            Ok(_) => {},
            Err(_) => {
                return Err(Error::TemplateParse);
            },
        }
        match engine_register(&mut hbs, "blank", BLANK_TEMPLATE) {
            Ok(_) => {},
            Err(_) => {
                return Err(Error::TemplateParse);
            },
        }
        Ok(Generator { ctx, builder, config, hbs, assets: AssetTable::new(), handler, fs })
    }

    /// All authors joined by the fixed delimiter.
    fn joined_authors(&self) -> (r: String)
        ensures
            r@ == spec_joined_authors(self.ctx.authors@, self.ctx.authors@.len() as int),
    {
        let mut out: Vec<char> = Vec::new();
        let n = self.ctx.authors.len();
        let mut i: usize = 0;
        proof {
            assert(out@ =~= spec_joined_authors(self.ctx.authors@, 0));
        }
        while i < n
            invariant
                n == self.ctx.authors@.len(),
                i <= n,
                out@ == spec_joined_authors(self.ctx.authors@, i as int),
            decreases n - i,
        {
            if i > 0 {
                push_str_chars(&mut out, ", ");
            }
            push_str_chars(&mut out, self.ctx.authors[i].as_str());
            proof {
                assert(out@ =~= spec_joined_authors(self.ctx.authors@, i as int + 1));
            }
            i += 1;
        }
        string_of(&out)
    }

    /// Record the package metadata: the generator identifier, the title and
    /// the description when set, the authors joined by the fixed delimiter,
    /// and the language (with a fixed fallback locale code).  Metadata never
    /// touches the manifest.
    pub fn populate_metadata(&mut self) -> (r: Result<(), Error>)
        ensures
            r is Ok,
            pkg_entries(final(self).builder) == pkg_entries(old(self).builder),
            pkg_metadata(final(self).builder) == spec_recorded_metadata(
                pkg_metadata(old(self).builder),
                old(self).ctx,
            ),
            final(self).ctx == old(self).ctx,
            final(self).config == old(self).config,
            final(self).assets == old(self).assets,
    {
        let ghost base: Map<Seq<char>, Seq<Seq<char>>> = pkg_metadata(self.builder);
        let generator_id = "mdbook-epub".to_owned();
        match builder_metadata(&mut self.builder, "generator", &generator_id) {
            Ok(_) => {},
            Err(m) => {
                return Err(Error::EpubBuilder(m));
            },
        }
        match &self.ctx.title {
            Some(title) => {
                let t = title.clone();
                match builder_metadata(&mut self.builder, "title", &t) {
                    Ok(_) => {},
                    Err(m) => {
                        return Err(Error::EpubBuilder(m));
                    },
                }
            },
            None => {},
        }
        match &self.ctx.description {
            Some(desc) => {
                let d = desc.clone();
                match builder_metadata(&mut self.builder, "description", &d) {
                    Ok(_) => {},
                    Err(m) => {
                        return Err(Error::EpubBuilder(m));
                    },
                }
            },
            None => {},
        }
        if self.ctx.authors.len() > 0 {
            let authors = self.joined_authors();
            match builder_metadata(&mut self.builder, "author", &authors) {
                Ok(_) => {},
                Err(m) => {
                    return Err(Error::EpubBuilder(m));
                },
            }
        }
        let lang = match &self.ctx.language {
            Some(l) => l.clone(),
            None => "en".to_owned(),
        };
        match builder_metadata(&mut self.builder, "lang", &lang) {
            Ok(_) => {},
            Err(m) => {
                return Err(Error::EpubBuilder(m));
            },
        }
        proof {
            assert(pkg_metadata(self.builder) == spec_recorded_metadata(base, old(self).ctx));
        }
        Ok(())
    }

    /// Discover and resolve every asset reference of the book into the
    /// run's asset table, before any rendering happens.
    pub fn find_assets(&mut self) -> (r: Result<(), Error>)
        ensures
            match r {
                Ok(_) => final(self).assets.wf() && table_ok(
                    final(self).assets,
                    old(self).ctx.destination@,
                ) && (forall|k: Seq<char>|
                    #[trigger] final(self).assets.contains_key(k) <==> book_links(
                        old(self).ctx.sections@,
                    ).contains(k)) && pkg_entries(final(self).builder) == pkg_entries(
                    old(self).builder,
                ) && final(self).ctx == old(self).ctx && final(self).config == old(self).config,
                Err(e) => e matches Error::Io(_) || e matches Error::AssetFileNotFound(_) || e
                    matches Error::AssetFile(_),
            },
    {
        let table = match find(&self.ctx, &self.fs) {
            Ok(t) => t,
            Err(e) => {
                return Err(e);
            },
        };
        self.assets = table;
        Ok(())
    }

    /// Render one chapter into its full page against the run's asset table.
    pub fn render_chapter(&self, ch: &Chapter) -> (r: Result<String, Error>)
        ensures
            ch.path is None ==> r matches Err(Error::Render(_)),
            r is Ok ==> ch.path is Some && all_subs_ok(
                self.assets,
                md_scan(ch.content@, self.config.curly_quotes),
            ),
            r matches Err(e) ==> (e matches Error::Render(_) || e matches Error::AssetFileNotFound(
                _,
            )),
    {
        render_chapter_with(&self.hbs, &self.assets, self.config.curly_quotes, ch)
    }

    /// Render every chapter of the book into the package, depth first: the
    /// manifest gains exactly the book's pages, in order.
    #[verifier::loop_isolation(false)]
    pub fn generate_chapters(&mut self) -> (r: Result<(), Error>)
        ensures
            match r {
                Ok(_) => pkg_entries(final(self).builder).len() == pkg_entries(
                    old(self).builder,
                ).len() + spec_book_pages(
                    old(self).ctx.sections@,
                    old(self).config.no_section_label,
                ).len() && pkg_entries(final(self).builder).take(
                    pkg_entries(old(self).builder).len() as int,
                ) == pkg_entries(old(self).builder) && pages_match(
                    pkg_entries(final(self).builder).skip(
                        pkg_entries(old(self).builder).len() as int,
                    ),
                    spec_book_pages(old(self).ctx.sections@, old(self).config.no_section_label),
                ) && final(self).ctx == old(self).ctx && final(self).config == old(self).config
                    && final(self).assets == old(self).assets,
                Err(e) => e matches Error::Render(_) || e matches Error::AssetFileNotFound(_) || e
                    matches Error::EpubBuilder(_),
            },
    {
        let ghost base: Seq<PkgEntry> = pkg_entries(self.builder);
        let ghost no_label: bool = self.config.no_section_label;
        let n = self.ctx.sections.len();
        let mut i: usize = 0;
        proof {
            assert(chapters_pages_upto(self.ctx.sections@, 0, no_label) =~= Seq::<
                (Seq<char>, Seq<char>, int, bool),
            >::empty());
            assert(base.take(base.len() as int) =~= base);
            assert(base.skip(base.len() as int) =~= Seq::<PkgEntry>::empty());
        }
        while i < n
            invariant
                n == self.ctx.sections@.len(),
                i <= n,
                self.ctx == old(self).ctx,
                self.config == old(self).config,
                self.assets == old(self).assets,
                pkg_entries(self.builder).len() == base.len() + chapters_pages_upto(
                    self.ctx.sections@,
                    i as int,
                    no_label,
                ).len(),
                pkg_entries(self.builder).take(base.len() as int) == base,
                pages_match(
                    pkg_entries(self.builder).skip(base.len() as int),
                    chapters_pages_upto(self.ctx.sections@, i as int, no_label),
                ),
            decreases n - i,
        {
            let ghost step_base: Seq<PkgEntry> = pkg_entries(self.builder);
            let ghost done: Seq<(Seq<char>, Seq<char>, int, bool)> = chapters_pages_upto(
                self.ctx.sections@,
                i as int,
                no_label,
            );
            match add_chapter(
                &mut self.builder,
                &self.hbs,
                &self.assets,
                self.config.curly_quotes,
                self.config.no_section_label,
                &self.ctx.sections[i],
            ) {
                Ok(_) => {},
                Err(e) => {
                    return Err(e);
                },
            }
            proof {
                lemma_grow(
                    base,
                    step_base,
                    pkg_entries(self.builder),
                    done,
                    spec_chapter_pages(self.ctx.sections@[i as int], no_label),
                );
            }
            i += 1;
        }
        Ok(())
    }

    /// Resolve a configured path through the shared fallback chain: the path
    /// as given, then under root and source directory, then under root.
    fn resolve_fallback(&self, path: &str) -> Option<String> {
        match self.fs.canonicalize(path) {
            Some(c) => {
                return Some(c);
            },
            None => {},
        }
        let under_src = join_path(
            join_path(self.ctx.root.as_str(), self.ctx.source_dir.as_str()).as_str(),
            path,
        );
        match self.fs.canonicalize(under_src.as_str()) {
            Some(c) => {
                return Some(c);
            },
            None => {},
        }
        let under_root = join_path(self.ctx.root.as_str(), path);
        self.fs.canonicalize(under_root.as_str())
    }

    /// Embed the cover image, when one is configured: resolved through the
    /// fallback chain, read, and added as the package's one cover entry
    /// under its configured path.
    pub fn add_cover_image(&mut self) -> (r: Result<(), Error>)
        ensures
            match r {
                Ok(_) => final(self).ctx == old(self).ctx && final(self).config == old(self).config
                    && final(self).assets == old(self).assets && match old(
                    self,
                ).config.cover_image {
                    None => pkg_entries(final(self).builder) == pkg_entries(old(self).builder),
                    Some(p) => pkg_entries(final(self).builder).len() == pkg_entries(
                        old(self).builder,
                    ).len() + 1 && pkg_entries(final(self).builder).drop_last() == pkg_entries(
                        old(self).builder,
                    ) && pkg_entries(final(self).builder).last().path@ == p@ && pkg_entries(
                        final(self).builder,
                    ).last().kind is Cover && (exists|fp: Seq<char>|
                        pkg_entries(final(self).builder).last().mime@ == mime_of(fp)),
                },
                Err(e) => (e matches Error::AssetFileNotFound(m) ==> (
                old(self).config.cover_image matches Some(p) && m@
                    == "Failed to find the cover image: "@ + p@)) && (e matches
                Error::AssetFileNotFound(_) || e matches Error::AssetOpen || e matches
                Error::EpubBuilder(_)),
            },
    {
        let path = match &self.config.cover_image {
            Some(p) => p.clone(),
            None => {
                return Ok(());
            },
        };
        let full = match self.resolve_fallback(path.as_str()) {
            Some(f) => f,
            None => {
                return Err(
                    Error::AssetFileNotFound(concat2("Failed to find the cover image: ", path.as_str())),
                );
            },
        };
        let mime = guess_mime(full.as_str());
        let mut content: Vec<u8> = Vec::new();
        match self.handler.read(full.as_str(), &mut content) {
            Ok(_) => {},
            Err(_) => {
                return Err(Error::AssetOpen);
            },
        }
        match builder_add_cover(&mut self.builder, &path, &content, &mime) {
            Ok(_) => {
                proof {
                    assert(pkg_entries(self.builder).last().mime@ == mime_of(full@));
                }
                Ok(())
            },
            Err(m) => Err(Error::EpubBuilder(m)),
        }
    }

    /// Concatenate the stylesheet: the default stylesheet when enabled, then
    /// the bytes of each additional stylesheet in configured order, each
    /// resolved through the fallback chain.
    #[verifier::loop_isolation(false)]
    fn generate_stylesheet(&self) -> (r: Result<Vec<u8>, Error>)
        ensures
            match r {
                Ok(v) => (self.config.use_default_css ==> v@.len()
                    >= crate::DEFAULT_CSS.spec_bytes().len() && v@.take(
                    crate::DEFAULT_CSS.spec_bytes().len() as int,
                ) == crate::DEFAULT_CSS.spec_bytes()) && (!self.config.use_default_css
                    && self.config.additional_css@.len() == 0 ==> v@ == Seq::<u8>::empty()),
                Err(e) => (e matches Error::CssOpen(p) && (exists|i: int|
                    0 <= i < self.config.additional_css@.len() && p@
                        == self.config.additional_css@[i]@)) || e matches Error::StylesheetRead,
            },
    {
        let ghost dlen: int = crate::DEFAULT_CSS.spec_bytes().len() as int;
        let mut out: Vec<u8> = Vec::new();
        if self.config.use_default_css {
            let mut d = crate::DEFAULT_CSS.as_bytes_vec();
            out.append(&mut d);
            proof {
                assert(out@.take(dlen) =~= crate::DEFAULT_CSS.spec_bytes());
            }
        }
        let n = self.config.additional_css.len();
        let mut i: usize = 0;
        proof {
            if !self.config.use_default_css {
                assert(out@ =~= Seq::<u8>::empty());
            }
        }
        while i < n
            invariant
                n == self.config.additional_css@.len(),
                i <= n,
                self.config.use_default_css ==> out@.len() >= dlen && out@.take(dlen)
                    == crate::DEFAULT_CSS.spec_bytes(),
                !self.config.use_default_css && n == 0 ==> out@ == Seq::<u8>::empty(),
            decreases n - i,
        {
            let css = &self.config.additional_css[i];
            let full = match self.resolve_fallback(css.as_str()) {
                Some(f) => f,
                None => {
                    let p = css.clone();
                    proof {
                        assert(p@ == self.config.additional_css@[i as int]@);
                    }
                    return Err(Error::CssOpen(p));
                },
            };
            let mut buf: Vec<u8> = Vec::new();
            match self.handler.read(full.as_str(), &mut buf) {
                Ok(_) => {},
                Err(_) => {
                    return Err(Error::StylesheetRead);
                },
            }
            let ghost before: Seq<u8> = out@;
            out.append(&mut buf);
            proof {
                if self.config.use_default_css {
                    assert(out@.take(dlen) =~= before.take(dlen));
                }
            }
            i += 1;
        }
        Ok(out)
    }

    /// Build the stylesheet and add it to the package: exactly one
    /// stylesheet entry.
    pub fn embed_stylesheets(&mut self) -> (r: Result<(), Error>)
        ensures
            match r {
                Ok(_) => final(self).ctx == old(self).ctx && final(self).config == old(self).config
                    && final(self).assets == old(self).assets && pkg_entries(
                    final(self).builder,
                ).len() == pkg_entries(old(self).builder).len() + 1 && pkg_entries(
                    final(self).builder,
                ).drop_last() == pkg_entries(old(self).builder) && pkg_entries(
                    final(self).builder,
                ).last().path@ == "stylesheet.css"@ && pkg_entries(final(self).builder).last().kind
                    is Stylesheet,
                Err(e) => e matches Error::CssOpen(_) || e matches Error::StylesheetRead || e
                    matches Error::EpubBuilder(_),
            },
    {
        let stylesheet = match self.generate_stylesheet() {
            Ok(s) => s,
            Err(e) => {
                return Err(e);
            },
        };
        match builder_stylesheet(&mut self.builder, &stylesheet) {
            Ok(_) => Ok(()),
            Err(m) => Err(Error::EpubBuilder(m)),
        }
    }

    /// Embed every discovered asset exactly once per identity: deduplicate
    /// the table by (byte source, mimetype), then for each distinct identity
    /// fetch it (a download for a remote asset, a direct read otherwise) and
    /// add its bytes under its package filename with its mimetype, in
    /// first-appearance order.
    #[verifier::loop_isolation(false)]
    #[verifier::rlimit(60)]
    pub fn additional_assets(&mut self) -> (r: Result<(), Error>)
        requires
            old(self).assets.wf(),
        ensures
            match r {
                Ok(_) => final(self).ctx == old(self).ctx && final(self).config == old(self).config
                    && final(self).assets == old(self).assets && ({
                    let dd = distinct_assets(table_values(old(self).assets));
                    let base = pkg_entries(old(self).builder);
                    let cur = pkg_entries(final(self).builder);
                    cur.len() == base.len() + dd.len() && cur.take(base.len() as int) == base
                        && forall|u: int|
                        0 <= u < dd.len() ==> (#[trigger] cur.skip(base.len() as int)[u]).path
                            == dd[u].filename && cur.skip(base.len() as int)[u].mime
                            == dd[u].mimetype && cur.skip(base.len() as int)[u].kind is Resource
                }),
                Err(e) => e matches Error::AssetOpen || e matches Error::EpubBuilder(_) || e
                    matches Error::AssetFileNotFound(_) || e matches Error::HttpError(_) || e
                    matches Error::Io(_),
            },
    {
        let ghost vals: Seq<Asset> = table_values(self.assets);
        let idxs = dedup_indices(&self.assets);
        let ghost dd: Seq<Asset> = distinct_assets(vals);
        let ghost base: Seq<PkgEntry> = pkg_entries(self.builder);
        let k = idxs.len();
        let mut u: usize = 0;
        proof {
            assert(base.take(base.len() as int) =~= base);
        }
        while u < k
            invariant
                k == idxs@.len(),
                u <= k,
                vals == table_values(self.assets),
                self.assets == old(self).assets,
                self.ctx == old(self).ctx,
                self.config == old(self).config,
                vals.len() == self.assets.entries@.len(),
                idxs@.map_values(|uu: usize| uu as int) == dedup_idx_upto(vals, vals.len() as int),
                forall|t: int| 0 <= t < idxs@.len() ==> #[trigger] idxs@[t] < vals.len(),
                dd == distinct_assets(vals),
                dd.len() == k,
                pkg_entries(self.builder).len() == base.len() + u,
                pkg_entries(self.builder).take(base.len() as int) == base,
                forall|w: int|
                    0 <= w < u ==> (#[trigger] pkg_entries(self.builder).skip(base.len() as int)[w]).path
                        == dd[w].filename && pkg_entries(self.builder).skip(base.len() as int)[w].mime
                        == dd[w].mimetype && pkg_entries(self.builder).skip(
                        base.len() as int,
                    )[w].kind is Resource,
            decreases k - u,
        {
            let idx = idxs[u];
            proof {
                assert(idxs@.map_values(|uu: usize| uu as int)[u as int] == idxs@[u as int] as int);
                assert(dd[u as int] == vals[idxs@[u as int] as int]);
                assert(vals[idx as int] == self.assets.entries@[idx as int].1);
            }
            let is_remote = match &self.assets.entries[idx].1.source {
                AssetKind::Remote(_) => true,
                AssetKind::Local(_) => false,
            };
            if is_remote {
                match self.handler.download(&self.assets.entries[idx].1) {
                    Ok(_) => {},
                    Err(e) => {
                        return Err(e);
                    },
                }
            }
            let mut content: Vec<u8> = Vec::new();
            match self.handler.read(
                self.assets.entries[idx].1.location_on_disk.as_str(),
                &mut content,
            ) {
                Ok(_) => {},
                Err(_) => {
                    return Err(Error::AssetOpen);
                },
            }
            let ghost before: Seq<PkgEntry> = pkg_entries(self.builder);
            match builder_add_resource(
                &mut self.builder,
                &self.assets.entries[idx].1.filename,
                &content,
                &self.assets.entries[idx].1.mimetype,
            ) {
                Ok(_) => {},
                Err(m) => {
                    return Err(Error::EpubBuilder(m));
                },
            }
            proof {
                let cur = pkg_entries(self.builder);
                assert(cur.take(base.len() as int) =~= base) by {
                    assert forall|w: int| 0 <= w < base.len() implies cur.take(base.len() as int)[w]
                        == base[w] by {
                        assert(cur[w] == before[w]);
                        assert(before[w] == before.take(base.len() as int)[w]);
                    }
                }
                assert forall|w: int| 0 <= w < u + 1 implies (#[trigger] cur.skip(
                    base.len() as int,
                )[w]).path == dd[w].filename && cur.skip(base.len() as int)[w].mime
                    == dd[w].mimetype && cur.skip(base.len() as int)[w].kind is Resource by {
                    if w < u {
                        assert(cur[base.len() + w] == before[base.len() + w]);
                        assert(before.skip(base.len() as int)[w] == before[base.len() + w]);
                    } else {
                        assert(cur[base.len() + w] == cur.last());
                    }
                }
            }
            u += 1;
        }
        Ok(())
    }

    /// Embed each explicitly configured extra resource file, resolved
    /// through the fallback chain, under its configured relative name.
    #[verifier::loop_isolation(false)]
    pub fn additional_resources(&mut self) -> (r: Result<(), Error>)
        ensures
            match r {
                Ok(_) => final(self).ctx == old(self).ctx && final(self).config == old(self).config
                    && final(self).assets == old(self).assets && ({
                    let cfg = old(self).config.additional_resources@;
                    let base = pkg_entries(old(self).builder);
                    let cur = pkg_entries(final(self).builder);
                    cur.len() == base.len() + cfg.len() && cur.take(base.len() as int) == base
                        && forall|u: int|
                        0 <= u < cfg.len() ==> (#[trigger] cur.skip(base.len() as int)[u]).path@
                            == cfg[u]@ && cur.skip(base.len() as int)[u].kind is Resource && (
                        exists|fp: Seq<char>|
                            cur.skip(base.len() as int)[u].mime@ == mime_of(fp))
                }),
                Err(e) => (e matches Error::AssetFileNotFound(m) ==> (exists|i: int|
                    0 <= i < old(self).config.additional_resources@.len() && m@
                        == "Failed to find the resource file: "@ + old(
                    self,
                ).config.additional_resources@[i]@)) && (e matches Error::AssetFileNotFound(_) || e
                    matches Error::AssetOpen || e matches Error::EpubBuilder(_)),
            },
    {
        let ghost base: Seq<PkgEntry> = pkg_entries(self.builder);
        let ghost cfg: Seq<String> = self.config.additional_resources@;
        let n = self.config.additional_resources.len();
        let mut i: usize = 0;
        proof {
            assert(base.take(base.len() as int) =~= base);
        }
        while i < n
            invariant
                n == self.config.additional_resources@.len(),
                i <= n,
                self.ctx == old(self).ctx,
                self.config == old(self).config,
                self.assets == old(self).assets,
                cfg == self.config.additional_resources@,
                pkg_entries(self.builder).len() == base.len() + i,
                pkg_entries(self.builder).take(base.len() as int) == base,
                forall|u: int|
                    0 <= u < i ==> (#[trigger] pkg_entries(self.builder).skip(
                        base.len() as int,
                    )[u]).path@ == cfg[u]@ && pkg_entries(self.builder).skip(base.len() as int)[u].kind
                        is Resource && (exists|fp: Seq<char>|
                        pkg_entries(self.builder).skip(base.len() as int)[u].mime@ == mime_of(fp)),
            decreases n - i,
        {
            let path = self.config.additional_resources[i].clone();
            let full = match self.resolve_fallback(path.as_str()) {
                Some(f) => f,
                None => {
                    let report = concat2("Failed to find the resource file: ", path.as_str());
                    proof {
                        assert(report@ == "Failed to find the resource file: "@ + cfg[i as int]@);
                    }
                    return Err(Error::AssetFileNotFound(report));
                },
            };
            let mime = guess_mime(full.as_str());
            let mut content: Vec<u8> = Vec::new();
            match self.handler.read(full.as_str(), &mut content) {
                Ok(_) => {},
                Err(_) => {
                    return Err(Error::AssetOpen);
                },
            }
            let ghost before: Seq<PkgEntry> = pkg_entries(self.builder);
            match builder_add_resource(&mut self.builder, &path, &content, &mime) {
                Ok(_) => {},
                Err(m) => {
                    return Err(Error::EpubBuilder(m));
                },
            }
            proof {
                let cur = pkg_entries(self.builder);
                assert(cur.take(base.len() as int) =~= base) by {
                    assert forall|w: int| 0 <= w < base.len() implies cur.take(base.len() as int)[w]
                        == base[w] by {
                        assert(cur[w] == before[w]);
                        assert(before[w] == before.take(base.len() as int)[w]);
                    }
                }
                assert forall|u2: int| 0 <= u2 < i + 1 implies (#[trigger] cur.skip(
                    base.len() as int,
                )[u2]).path@ == cfg[u2]@ && cur.skip(base.len() as int)[u2].kind is Resource && (
                exists|fp: Seq<char>| cur.skip(base.len() as int)[u2].mime@ == mime_of(fp)) by {
                    if u2 < i {
                        assert(cur[base.len() + u2] == before[base.len() + u2]);
                        assert(before.skip(base.len() as int)[u2] == before[base.len() + u2]);
                        assert(exists|fp: Seq<char>|
                            before.skip(base.len() as int)[u2].mime@ == mime_of(fp));
                    } else {
                        assert(cur[base.len() + u2] == cur.last());
                        assert(cur.last().mime@ == mime_of(full@));
                    }
                }
            }
            i += 1;
        }
        Ok(())
    }

    /// Run the whole pipeline and serialize the finished package: populate
    /// metadata, build the asset table, render every chapter, then embed
    /// cover image, stylesheet, each distinct asset exactly once, and the
    /// configured extra resources, in that order; the first failure aborts
    /// the run with its own report and no package bytes are produced.  The
    /// serialized bytes carry no clause: they depend on the clock and a fresh
    /// identifier inside the archive writer; what each step adds to the
    /// package is stated on the step.
    pub fn generate(self) -> (r: Result<Vec<u8>, Error>)
        ensures
            r matches Err(e) ==> (e matches Error::Io(_) || e matches Error::AssetFileNotFound(_)
                || e matches Error::AssetFile(_) || e matches Error::Render(_) || e matches
            Error::EpubBuilder(_) || e matches Error::CssOpen(_) || e matches Error::StylesheetRead
                || e matches Error::AssetOpen || e matches Error::HttpError(_)),
    {
        let mut me = self;
        match me.populate_metadata() {
            Ok(_) => {},
            Err(e) => {
                return Err(e);
            },
        }
        match me.find_assets() {
            Ok(_) => {},
            Err(e) => {
                return Err(e);
            },
        }
        match me.generate_chapters() {
            Ok(_) => {},
            Err(e) => {
                return Err(e);
            },
        }
        match me.add_cover_image() {
            Ok(_) => {},
            Err(e) => {
                return Err(e);
            },
        }
        match me.embed_stylesheets() {
            Ok(_) => {},
            Err(e) => {
                return Err(e);
            },
        }
        match me.additional_assets() {
            Ok(_) => {},
            Err(e) => {
                return Err(e);
            },
        }
        match me.additional_resources() {
            Ok(_) => {},
            Err(e) => {
                return Err(e);
            },
        }
        match builder_finish(me.builder) {
            Ok(bytes) => Ok(bytes),
            Err(m) => Err(Error::EpubBuilder(m)),
        }
    }
}

} // verus!
