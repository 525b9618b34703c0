//! The content rewriter: a pure transform over parsed content events that
//! substitutes remote asset references with their resolved package path and
//! leaves local references untouched.
//!
//! Raw-markup blocks are rewritten by literal text substitution of each
//! distinct remote source, not by re-serializing the element tree, so
//! unrelated formatting stays as it was.  A reference that discovery should
//! have resolved but that is absent from the table is an internal
//! consistency failure and aborts the run.

use vstd::prelude::*;
use crate::errors::Error;
use crate::htmlscan::{html_nodes_of, parse_html_nodes, HtmlNode};
use crate::markdown::{md_scan, rendered_of, render_events, scan_events, MdEvent};
use crate::paths::{path_prefix, spec_path_prefix};
use crate::resources::{AssetKind, AssetTable};
use crate::strutil::{chars_of, concat2, str_eq, string_of};
use crate::urls::{parse_url, parsed_url_of};

verus! {

/// What replacing every occurrence of `from` in `s` by `to` yields, scanning
/// left to right over non-overlapping occurrences; an empty `from` replaces
/// nothing.
pub open spec fn spec_replace_all(s: Seq<char>, from: Seq<char>, to: Seq<char>) -> Seq<char>
    decreases s.len(),
{
    if from.len() == 0 || s.len() < from.len() {
        s
    } else if s.take(from.len() as int) == from {
        to + spec_replace_all(s.skip(from.len() as int), from, to)
    } else {
        seq![s[0]] + spec_replace_all(s.drop_first(), from, to)
    }
}

/// Does `from` occur in `s` at position `i`?
fn chars_match(s: &Vec<char>, i: usize, from: &Vec<char>) -> (r: bool)
    requires
        i + from@.len() <= s@.len(),
    ensures
        r == (s@.subrange(i as int, i + from@.len()) == from@),
{
    let m = from.len();
    let mut k: usize = 0;
    while k < m
        invariant
            m == from.len(),
            i + m <= s.len(),
            k <= m,
            forall|t: int| 0 <= t < k ==> s@[i + t] == from@[t],
        decreases m - k,
    {
        if s[i + k] != from[k] {
            proof {
                assert(s@.subrange(i as int, i + from@.len())[k as int] != from@[k as int]);
            }
            return false;
        }
        k += 1;
    }
    proof {
        assert(s@.subrange(i as int, i + from@.len()) =~= from@);
    }
    true
}

/// Replace every occurrence of `from` in `s` by `to`, scanning left to
/// right over non-overlapping occurrences.
#[verifier::loop_isolation(false)]
pub fn replace_all(s: &str, from: &str, to: &str) -> (r: String)
    ensures
        r@ == spec_replace_all(s@, from@, to@),
{
    let sc = chars_of(s);
    let fc = chars_of(from);
    let tc = chars_of(to);
    let n = sc.len();
    let flen = fc.len();
    let mut out: Vec<char> = Vec::new();
    let mut i: usize = 0;
    if flen == 0 {
        return s.to_owned();
    }
    proof {
        assert(s@.skip(0) =~= s@);
        assert(out@ =~= Seq::<char>::empty());
        assert(out@ + spec_replace_all(s@.skip(0), from@, to@) =~= spec_replace_all(
            s@,
            from@,
            to@,
        ));
    }
    while i < n
        invariant
            spec_replace_all(s@, from@, to@) == out@ + spec_replace_all(s@.skip(i as int), from@, to@),
            i <= n,
        decreases n - i,
    {
        if flen <= n - i && chars_match(&sc, i, &fc) {
            proof {
                assert(s@.skip(i as int).take(flen as int) =~= s@.subrange(i as int, i + flen));
                assert(s@.skip(i as int).skip(flen as int) =~= s@.skip(i as int + flen));
                assert(s@.skip(i as int).len() >= flen);
            }
            let ghost before: Seq<char> = out@;
            let m = tc.len();
            let mut k: usize = 0;
            while k < m
                invariant
                    m == tc.len(),
                    k <= m,
                    out@ =~= before + tc@.take(k as int),
                decreases m - k,
            {
                out.push(tc[k]);
                k += 1;
            }
            proof {
                assert(out@ =~= before + to@);
            }
            i += flen;
        } else {
            proof {
                if i + flen <= n {
                    assert(s@.skip(i as int).take(flen as int) =~= s@.subrange(i as int, i + flen));
                } else {
                    assert(s@.skip(i as int).len() < flen);
                }
                assert(s@.skip(i as int).drop_first() =~= s@.skip(i as int + 1));
                assert(seq![s@.skip(i as int)[0]] =~= seq![s@[i as int]]);
            }
            out.push(sc[i]);
            i += 1;
        }
    }
    proof {
        assert(s@.skip(n as int) =~= Seq::<char>::empty());
        assert(out@ + spec_replace_all(s@.skip(n as int), from@, to@) =~= out@);
    }
    string_of(&out)
}

/// The distinct-by-run image sources of the top-level elements of a parsed
/// raw-markup block that are themselves well-formed remote addresses, from
/// position `i` on, in document order.
pub open spec fn top_img_urls(nodes: Seq<HtmlNode>, i: int) -> Seq<Seq<char>>
    decreases nodes.len() - i,
{
    if i < 0 || i >= nodes.len() {
        Seq::empty()
    } else {
        (if nodes[i].name@ == "img"@ && nodes[i].src is Some && parsed_url_of(
            nodes[i].src.unwrap()@,
        ) is Some {
            seq![nodes[i].src.unwrap()@]
        } else {
            Seq::empty()
        }) + top_img_urls(nodes, i + 1)
    }
}

/// The same list with consecutive duplicates dropped.
pub open spec fn dedup_consec(s: Seq<Seq<char>>, i: int) -> Seq<Seq<char>>
    decreases s.len() - i,
{
    if i < 0 || i >= s.len() {
        Seq::empty()
    } else {
        (if i == 0 || s[i] != s[i - 1] {
            seq![s[i]]
        } else {
            Seq::empty()
        }) + dedup_consec(s, i + 1)
    }
}

/// The raw block's text after substituting, for each listed address in turn,
/// its asset's package-root path: an address without a table entry is a
/// consistency failure (`None`); one mapped to a local asset is left alone.
pub open spec fn fold_replace(
    table: AssetTable,
    content: Seq<char>,
    links: Seq<Seq<char>>,
    i: int,
) -> Option<Seq<char>>
    decreases links.len() - i,
{
    if i < 0 || i >= links.len() {
        Some(content)
    } else {
        match table.spec_get(links[i]) {
            Some(a) => match a.source {
                AssetKind::Remote(_) => fold_replace(
                    table,
                    spec_replace_all(content, links[i], spec_path_prefix(a.filename@)),
                    links,
                    i + 1,
                ),
                AssetKind::Local(_) => fold_replace(table, content, links, i + 1),
            },
            None => None,
        }
    }
}

/// What the rewriter decides for one event: no decision possible (an
/// internal consistency failure, outer `None`), leave the event alone
/// (inner `None`), or substitute this text.
pub open spec fn event_sub(table: AssetTable, ev: MdEvent) -> Option<Option<Seq<char>>> {
    match ev {
        MdEvent::Image { dest } => match table.spec_get(dest@) {
            None => None,
            Some(a) => match a.source {
                AssetKind::Remote(_) => Some(Some(spec_path_prefix(a.filename@))),
                AssetKind::Local(_) => Some(None),
            },
        },
        MdEvent::Html { raw } => match html_nodes_of(raw@) {
            Some(ns) => {
                let found = dedup_consec(top_img_urls(ns@, 0), 0);
                if found.len() == 0 {
                    Some(None)
                } else {
                    match fold_replace(table, raw@, found, 0) {
                        Some(c) => Some(Some(c)),
                        None => None,
                    }
                }
            },
            None => Some(None),
        },
        MdEvent::InlineHtml { raw: _ } => Some(None),
        MdEvent::Other => Some(None),
    }
}

/// Every event of this list has a rewrite decision under this table.
pub open spec fn all_subs_ok(table: AssetTable, evs: Seq<MdEvent>) -> bool {
    forall|i: int| 0 <= i < evs.len() ==> event_sub(table, evs[i]) is Some
}

/// The decided substitutions for a list of events.
pub open spec fn spec_subs(table: AssetTable, evs: Seq<MdEvent>) -> Seq<Option<Seq<char>>> {
    Seq::new(evs.len(), |i: int| event_sub(table, evs[i]).unwrap())
}

/// The consistency-failure report for one absent reference.
fn consistency_error(link: &str) -> (e: Error)
    ensures
        e matches Error::AssetFileNotFound(m) && m@ == "Asset expected in the table was absent: "@
            + link@,
{
    Error::AssetFileNotFound(concat2("Asset expected in the table was absent: ", link))
}

/// Decide the substitution for one raw-markup block.
#[verifier::loop_isolation(false)]
fn html_sub(table: &AssetTable, raw: &String) -> (r: Result<Option<String>, Error>)
    ensures
        match r {
            Ok(sub) => event_sub(*table, MdEvent::Html { raw: *raw }) == Some(
                match sub {
                    Some(s) => Some(s@),
                    None => None::<Seq<char>>,
                },
            ),
            Err(e) => event_sub(*table, MdEvent::Html { raw: *raw }) is None && e matches
                Error::AssetFileNotFound(_),
        },
{
    let nodes = match parse_html_nodes(raw.as_str()) {
        Some(ns) => ns,
        None => {
            return Ok(None);
        },
    };
    let n = nodes.len();
    let mut found: Vec<String> = Vec::new();
    let mut i: usize = 0;
    proof {
        assert(crate::htmlscan::str_views(found@) =~= Seq::<Seq<char>>::empty());
    }
    while i < n
        invariant
            n == nodes.len(),
            i <= n,
            top_img_urls(nodes@, 0) == crate::htmlscan::str_views(found@) + top_img_urls(
                nodes@,
                i as int,
            ),
        decreases n - i,
    {
        let node = &nodes[i];
        let is_img = str_eq(node.name.as_str(), "img");
        let mut take: Option<&String> = None;
        if is_img {
            match &node.src {
                Some(src) => {
                    if parse_url(src.as_str()).is_some() {
                        take = Some(src);
                    }
                },
                None => {},
            }
        }
        match take {
            Some(src) => {
                proof {
                    crate::htmlscan::lemma_str_views_push(found@, *src);
                    assert(top_img_urls(nodes@, i as int) =~= seq![src@] + top_img_urls(
                        nodes@,
                        i as int + 1,
                    ));
                    assert(crate::htmlscan::str_views(found@) + top_img_urls(nodes@, i as int)
                        =~= crate::htmlscan::str_views(found@.push(*src)) + top_img_urls(
                        nodes@,
                        i as int + 1,
                    ));
                }
                found.push(src.clone());
            },
            None => {
                proof {
                    assert(top_img_urls(nodes@, i as int) =~= top_img_urls(nodes@, i as int + 1));
                }
            },
        }
        i += 1;
    }
    proof {
        assert(crate::htmlscan::str_views(found@) + top_img_urls(nodes@, n as int)
            =~= crate::htmlscan::str_views(found@));
        assert(top_img_urls(nodes@, 0) == crate::htmlscan::str_views(found@));
    }
    let ghost all: Seq<Seq<char>> = top_img_urls(nodes@, 0);
    // Drop consecutive duplicates, as the found list is walked in order.
    let m = found.len();
    let mut distinct: Vec<String> = Vec::new();
    let mut t: usize = 0;
    proof {
        assert(crate::htmlscan::str_views(distinct@) =~= Seq::<Seq<char>>::empty());
    }
    while t < m
        invariant
            m == found.len(),
            t <= m,
            all == crate::htmlscan::str_views(found@),
            dedup_consec(all, 0) == crate::htmlscan::str_views(distinct@) + dedup_consec(
                all,
                t as int,
            ),
        decreases m - t,
    {
        proof {
            assert(all[t as int] == found@[t as int]@);
            if t > 0 {
                assert(all[t as int - 1] == found@[t as int - 1]@);
            }
        }
        let keep = if t == 0 {
            true
        } else {
            !str_eq(found[t].as_str(), found[t - 1].as_str())
        };
        if keep {
            proof {
                crate::htmlscan::lemma_str_views_push(distinct@, found@[t as int]);
                assert(dedup_consec(all, t as int) =~= seq![all[t as int]] + dedup_consec(
                    all,
                    t as int + 1,
                ));
                assert(crate::htmlscan::str_views(distinct@) + dedup_consec(all, t as int)
                    =~= crate::htmlscan::str_views(distinct@.push(found@[t as int]))
                    + dedup_consec(all, t as int + 1));
            }
            let copy = found[t].clone();
            distinct.push(copy);
        } else {
            proof {
                assert(dedup_consec(all, t as int) =~= dedup_consec(all, t as int + 1));
            }
        }
        t += 1;
    }
    proof {
        assert(crate::htmlscan::str_views(distinct@) + dedup_consec(all, m as int)
            =~= crate::htmlscan::str_views(distinct@));
        assert(dedup_consec(all, 0) == crate::htmlscan::str_views(distinct@));
    }
    if distinct.len() == 0 {
        return Ok(None);
    }
    let ghost fnd: Seq<Seq<char>> = dedup_consec(all, 0);
    let mut content = raw.clone();
    let k = distinct.len();
    let mut d: usize = 0;
    while d < k
        invariant
            k == distinct.len(),
            d <= k,
            fnd == crate::htmlscan::str_views(distinct@),
            fold_replace(*table, raw@, fnd, 0) == fold_replace(*table, content@, fnd, d as int),
        decreases k - d,
    {
        proof {
            assert(fnd[d as int] == distinct@[d as int]@);
        }
        let link = &distinct[d];
        match table.get(link.as_str()) {
            Some(a) => {
                match &a.source {
                    AssetKind::Remote(_) => {
                        let new = path_prefix(a.filename.as_str());
                        content = replace_all(content.as_str(), link.as_str(), new.as_str());
                    },
                    AssetKind::Local(_) => {},
                }
            },
            None => {
                return Err(consistency_error(link.as_str()));
            },
        }
        d += 1;
    }
    Ok(Some(content))
}

/// Decide the substitutions for a chapter's events: the resolved package
/// path (from the package root) for each remote image reference and for
/// each remote source inside a raw block; local references stay untouched;
/// a reference discovery should have mapped but did not aborts the run.
pub fn plan_rewrites(table: &AssetTable, events: &Vec<MdEvent>) -> (r: Result<
    Vec<Option<String>>,
    Error,
>)
    ensures
        match r {
            Ok(subs) => subs@.len() == events@.len() && all_subs_ok(*table, events@)
                && subs.deep_view() =~= spec_subs(*table, events@),
            Err(e) => !all_subs_ok(*table, events@) && e matches Error::AssetFileNotFound(_),
        },
{
    let n = events.len();
    let mut subs: Vec<Option<String>> = Vec::new();
    let mut i: usize = 0;
    while i < n
        invariant
            n == events.len(),
            i <= n,
            subs@.len() == i,
            forall|t: int|
                0 <= t < i ==> event_sub(*table, events@[t]) == Some(subs.deep_view()[t]),
        decreases n - i,
    {
        let ghost before: Seq<Option<Seq<char>>> = subs.deep_view();
        let sub: Option<String> = match &events[i] {
            MdEvent::Image { dest } => {
                match table.get(dest.as_str()) {
                    Some(a) => {
                        match &a.source {
                            AssetKind::Remote(_) => Some(path_prefix(a.filename.as_str())),
                            AssetKind::Local(_) => None,
                        }
                    },
                    None => {
                        return Err(consistency_error(dest.as_str()));
                    },
                }
            },
            MdEvent::Html { raw } => {
                match html_sub(table, raw) {
                    Ok(s) => s,
                    Err(e) => {
                        return Err(e);
                    },
                }
            },
            MdEvent::InlineHtml { raw: _ } => None,
            MdEvent::Other => None,
        };
        proof {
            assert(event_sub(*table, events@[i as int]) == Some(
                match sub {
                    Some(s) => Some(s@),
                    None => None::<Seq<char>>,
                },
            ));
        }
        subs.push(sub);
        proof {
            assert(subs.deep_view() =~= before.push(
                match subs@[i as int] {
                    Some(s) => Some(s@),
                    None => None::<Seq<char>>,
                },
            ));
        }
        i += 1;
    }
    proof {
        assert(subs.deep_view() =~= spec_subs(*table, events@));
    }
    Ok(subs)
}

/// Render one chapter's content to its page body: scan the events, decide
/// the rewrites against the asset table, and render the rewritten events to
/// HTML.  The body is a function of the content, the quote setting and the
/// table alone.
pub fn chapter_body(table: &AssetTable, content: &str, curly: bool) -> (r: Result<String, Error>)
    ensures
        match r {
            Ok(body) => all_subs_ok(*table, md_scan(content@, curly)) && body@ == rendered_of(
                content@,
                curly,
                spec_subs(*table, md_scan(content@, curly)),
            ),
            Err(e) => !all_subs_ok(*table, md_scan(content@, curly)) && e matches
                Error::AssetFileNotFound(_),
        },
{
    let events = scan_events(content, curly);
    let subs = match plan_rewrites(table, &events) {
        Ok(s) => s,
        Err(e) => {
            return Err(e);
        },
    };
    Ok(render_events(content, curly, &subs))
}

} // verus!
