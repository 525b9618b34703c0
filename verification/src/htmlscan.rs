//! Raw-markup blocks as the asset logic sees them: an element tree reduced
//! to names, `src` attributes and children.  The walk that collects image
//! sources is verified; only the parse itself is trusted.

use vstd::prelude::*;

verus! {

/// One parsed element, reduced to what the scan reads.
#[derive(Debug)]
pub struct HtmlNode {
    /// The element's tag name.
    pub name: String,
    /// The element's `src` attribute, when present with a value.
    pub src: Option<String>,
    /// The element's child elements, in order.
    pub children: Vec<HtmlNode>,
}

/// The parser's node type, carried only through the trusted conversion.
#[verifier::external_type_specification]
#[verifier::external_body]
pub struct ExHtmlRawNode(html_parser::Node);

/// What parsing a raw-markup block yields: the element tree when the block
/// parses, nothing otherwise; a function of the block's text alone.
pub uninterp spec fn html_nodes_of(raw: Seq<char>) -> Option<Vec<HtmlNode>>;

/// Keeps of one parsed node what the scan reads: element name, `src`
/// attribute and children; text and comment nodes drop away.
#[verifier::external_body]
fn node_model(n: &html_parser::Node) -> Option<HtmlNode> {
    match n {
        html_parser::Node::Element(e) => Some(
            HtmlNode {
                name: e.name.clone(),
                src: e.attributes.get("src").cloned().flatten(),
                children: e.children.iter().filter_map(node_model).collect(),
            },
        ),
        _ => None,
    }
}

/// Relies on `html_parser::Dom::parse`: the element tree depends on the
/// block's text alone; a block that does not parse yields nothing and is
/// left alone by the scan.
#[verifier::external_body]
pub fn parse_html_nodes(raw: &str) -> (r: Option<Vec<HtmlNode>>)
    ensures
        r == html_nodes_of(raw@),
{
    match html_parser::Dom::parse(raw) {
        Ok(dom) => Some(dom.children.iter().filter_map(node_model).collect()),
        Err(_) => None,
    }
}

/// The image sources one element contributes: its own `src` when the element
/// is an `img`, then its children's, depth first.
pub open spec fn node_img_srcs(n: HtmlNode) -> Seq<Seq<char>>
    decreases n, 0int,
{
    let own = if n.name@ == "img"@ && n.src is Some {
        seq![n.src.unwrap()@]
    } else {
        Seq::empty()
    };
    own + list_img_srcs(n.children@, 0)
}

/// The image sources a list of elements contributes, from position `i` on.
pub open spec fn list_img_srcs(nodes: Seq<HtmlNode>, i: int) -> Seq<Seq<char>>
    decreases nodes, nodes.len() - i,
{
    if i < 0 || i >= nodes.len() {
        Seq::empty()
    } else {
        node_img_srcs(nodes[i]) + list_img_srcs(nodes, i + 1)
    }
}

/// The views of a sequence of strings.
pub open spec fn str_views(v: Seq<String>) -> Seq<Seq<char>> {
    v.map_values(|s: String| s@)
}

pub proof fn lemma_str_views_push(v: Seq<String>, x: String)
    ensures
        str_views(v.push(x)) =~= str_views(v).push(x@),
{
}

/// Collect one element's image sources, depth first.
pub fn node_collect(n: &HtmlNode, out: &mut Vec<String>)
    ensures
        str_views(final(out)@) =~= str_views(old(out)@) + node_img_srcs(*n),
    decreases *n, 0int,
{
    let ghost entry: Seq<String> = out@;
    if crate::strutil::str_eq(n.name.as_str(), "img") {
        match &n.src {
            Some(s) => {
                proof {
                    lemma_str_views_push(out@, *s);
                }
                out.push(s.clone());
            },
            None => {},
        }
    }
    let k = n.children.len();
    let mut i: usize = 0;
    while i < k
        invariant
            k == n.children.len(),
            i <= k,
            str_views(out@) + list_img_srcs(n.children@, i as int) =~= str_views(entry)
                + node_img_srcs(*n),
        decreases k - i,
    {
        proof {
            assert(decreases_to!(*n, 0int => n.children@[i as int], 0int));
        }
        node_collect(&n.children[i], out);
        i += 1;
    }
}

/// Collect every image source of an element list, depth first, in order.
pub fn html_img_srcs(nodes: &Vec<HtmlNode>) -> (r: Vec<String>)
    ensures
        str_views(r@) =~= list_img_srcs(nodes@, 0),
{
    let mut out: Vec<String> = Vec::new();
    let k = nodes.len();
    let mut i: usize = 0;
    proof {
        assert(str_views(out@) =~= Seq::<Seq<char>>::empty());
    }
    while i < k
        invariant
            k == nodes.len(),
            i <= k,
            str_views(out@) + list_img_srcs(nodes@, i as int) =~= list_img_srcs(nodes@, 0),
        decreases k - i,
    {
        node_collect(&nodes[i], &mut out);
        i += 1;
    }
    out
}

} // verus!
