//! The chapter content as the asset logic sees it: a stream of parse events,
//! of which only image starts and raw-markup blocks carry information.
//!
//! Parsing and HTML rendering belong to the markup parser; both are functions
//! of the chapter text, the quote setting, and (for rendering) the
//! substitutions the rewriter decided, so each is named and trusted once.

use vstd::prelude::*;
use pulldown_cmark::{CowStr, Event, Options, Parser, Tag};

verus! {

/// One parse event, reduced to what the asset logic reads.
#[derive(Debug, Clone)]
pub enum MdEvent {
    /// An image starts, referring to `dest`.
    Image { dest: String },
    /// A raw markup block.
    Html { raw: String },
    /// An inline raw markup fragment.
    InlineHtml { raw: String },
    /// Any other event.
    Other,
}

/// The parser's raw event type, carried only through trusted conversions.
#[verifier::external_type_specification]
#[verifier::external_body]
pub struct ExMdRawEvent<'a>(Event<'a>);

/// The parser's option set.
#[verifier::external_type_specification]
#[verifier::external_body]
pub struct ExMdOptions(Options);

/// What scanning a chapter's text yields: one model event per parse event,
/// in order; a function of the text and the quote setting alone.
pub uninterp spec fn md_scan(text: Seq<char>, smart: bool) -> Seq<MdEvent>;

/// What rendering a chapter's text to HTML yields, with `subs[i]` (when set)
/// replacing the destination of an image event, or the text of a raw block,
/// at position `i`; a function of these three inputs alone.
pub uninterp spec fn rendered_of(text: Seq<char>, smart: bool, subs: Seq<Option<Seq<char>>>) -> Seq<
    char,
>;

/// Relies on `pulldown_cmark::Options`: the extension set the host enables
/// (tables, footnotes, strikethrough, tasklists, heading attributes), plus
/// smart punctuation when typographic quotes are asked for.
#[verifier::external_body]
fn md_options(smart: bool) -> Options {
    let mut opts = Options::ENABLE_TABLES | Options::ENABLE_FOOTNOTES
        | Options::ENABLE_STRIKETHROUGH | Options::ENABLE_TASKLISTS
        | Options::ENABLE_HEADING_ATTRIBUTES;
    if smart {
        opts.insert(Options::ENABLE_SMART_PUNCTUATION);
    }
    opts
}

/// Keeps of one parse event what the asset logic reads: an image start's
/// destination, a raw block's text, one arm per kind.
#[verifier::external_body]
fn md_event_model(ev: Event<'_>) -> MdEvent {
    match ev {
        Event::Start(Tag::Image { link_type: _, dest_url, title: _, id: _ }) => MdEvent::Image {
            dest: dest_url.into_string(),
        },
        Event::Html(h) => MdEvent::Html { raw: h.into_string() },
        Event::InlineHtml(h) => MdEvent::InlineHtml { raw: h.into_string() },
        _ => MdEvent::Other,
    }
}

/// Relies on `pulldown_cmark::Parser::new_ext`: the event stream depends on
/// the text and the option set alone.
#[verifier::external_body]
pub fn scan_events(text: &str, smart: bool) -> (r: Vec<MdEvent>)
    ensures
        r@ == md_scan(text@, smart),
{
    Parser::new_ext(text, md_options(smart)).map(md_event_model).collect()
}

/// Applies one decided substitution: a new destination for an image start,
/// new text for a raw block; every other event passes through.
#[verifier::external_body]
fn md_apply_sub<'a>(ev: Event<'a>, sub: Option<&String>) -> Event<'a> {
    match (ev, sub) {
        (Event::Start(Tag::Image { link_type, dest_url: _, title, id }), Some(s)) => Event::Start(
            Tag::Image { link_type, dest_url: CowStr::from(s.clone()), title, id },
        ),
        (Event::Html(_), Some(s)) => Event::Html(CowStr::from(s.clone())),
        (ev, _) => ev,
    }
}

/// Relies on `pulldown_cmark::Parser::new_ext` and
/// `pulldown_cmark::html::push_html`: the rendered page body depends on the
/// text, the option set, and the substitutions alone.
#[verifier::external_body]
pub fn render_events(text: &str, smart: bool, subs: &Vec<Option<String>>) -> (r: String)
    ensures
        r@ == rendered_of(text@, smart, subs.deep_view()),
{
    let evs: Vec<Event> = Parser::new_ext(text, md_options(smart)).collect();
    let mut rewritten: Vec<Event> = Vec::new();
    for (i, ev) in evs.into_iter().enumerate() {
        rewritten.push(md_apply_sub(ev, subs.get(i).and_then(|o| o.as_ref())));
    }
    let mut out = String::new();
    pulldown_cmark::html::push_html(&mut out, rewritten.into_iter());
    out
}

} // verus!
