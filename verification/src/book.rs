//! The document tree the generator works on: ordered chapters with optional
//! content, optional numbering and children, plus the run's locations,
//! metadata and configuration inputs.

use vstd::prelude::*;
use crate::strutil::{concat2, push_str_chars, spec_decimal, string_of, to_decimal};

verus! {

/// One chapter: a node of the document tree.
#[derive(Debug)]
pub struct Chapter {
    /// The chapter's visible name.
    pub name: String,
    /// The chapter's raw textual content (empty for structural chapters).
    pub content: String,
    /// The chapter's numeric path in the table of contents, when numbered.
    pub number: Option<Vec<u32>>,
    /// The chapter's source path, relative to the source directory; absent
    /// for structural (draft) chapters.
    pub path: Option<String>,
    /// The chapter's children, in order.
    pub sub_items: Vec<Chapter>,
}

/// Everything the host hands a generation run: where the book lives, where
/// the package goes, the book's metadata, and its chapters.
#[derive(Debug)]
pub struct BookContext {
    /// The host's declared version.
    pub version: String,
    /// The book's root directory.
    pub root: String,
    /// The source directory's name under the root.
    pub source_dir: String,
    /// The directory the package is generated into.
    pub destination: String,
    /// The book's title, when set.
    pub title: Option<String>,
    /// The book's description, when set.
    pub description: Option<String>,
    /// The book's authors.
    pub authors: Vec<String>,
    /// The book's language code, when set.
    pub language: Option<String>,
    /// The top-level chapters, in order.
    pub sections: Vec<Chapter>,
}

/// The visible form of a section number from position `i` on: each component
/// in decimal, each followed by a dot.
pub open spec fn spec_section_label(ns: Seq<u32>, i: int) -> Seq<char>
    decreases ns.len() - i,
{
    if i < 0 || i >= ns.len() {
        Seq::empty()
    } else {
        spec_decimal(ns[i] as int) + seq!['.'] + spec_section_label(ns, i + 1)
    }
}

/// The visible title of a chapter: its section-number label and its name,
/// unless numeric labels are suppressed or the chapter has no number.
pub open spec fn spec_chapter_title(ch: Chapter, no_section_label: bool) -> Seq<char> {
    if !no_section_label && ch.number is Some {
        spec_section_label(ch.number.unwrap()@, 0) + seq![' '] + ch.name@
    } else {
        ch.name@
    }
}

/// The nesting level of a chapter in the table of contents: one less than
/// the number of components of its section number (capped at the machine
/// limit), or zero without a number.
pub open spec fn spec_toc_level(number: Option<Seq<u32>>) -> int {
    match number {
        Some(n) => if n.len() == 0 {
            0
        } else if n.len() - 1 > i32::MAX {
            i32::MAX as int
        } else {
            n.len() - 1
        },
        None => 0,
    }
}

/// The view of an optional section number.
pub open spec fn number_view(number: Option<Vec<u32>>) -> Option<Seq<u32>> {
    match number {
        Some(n) => Some(n@),
        None => None,
    }
}

/// Compute a chapter's nesting level from its section number.
pub fn toc_level(number: &Option<Vec<u32>>) -> (r: i32)
    ensures
        r == spec_toc_level(number_view(*number)),
{
    match number {
        Some(n) => {
            let len = n.len();
            if len == 0 {
                0
            } else if len - 1 > (i32::MAX as usize) {
                i32::MAX
            } else {
                (len - 1) as i32
            }
        },
        None => 0,
    }
}

/// Render a section number as its visible label.
pub fn section_label(ns: &Vec<u32>) -> (r: String)
    ensures
        r@ == spec_section_label(ns@, 0),
{
    let mut out: Vec<char> = Vec::new();
    let n = ns.len();
    let mut i: usize = 0;
    proof {
        assert(out@ =~= Seq::<char>::empty());
    }
    while i < n
        invariant
            n == ns.len(),
            i <= n,
            spec_section_label(ns@, 0) == out@ + spec_section_label(ns@, i as int),
        decreases n - i,
    {
        let d = to_decimal(ns[i] as u64);
        push_str_chars(&mut out, d.as_str());
        out.push('.');
        i += 1;
    }
    string_of(&out)
}

/// Compute a chapter's visible title.
pub fn chapter_title(ch: &Chapter, no_section_label: bool) -> (r: String)
    ensures
        r@ == spec_chapter_title(*ch, no_section_label),
{
    if !no_section_label {
        match &ch.number {
            Some(ns) => {
                let label = section_label(ns);
                let mut out: Vec<char> = Vec::new();
                push_str_chars(&mut out, label.as_str());
                out.push(' ');
                push_str_chars(&mut out, ch.name.as_str());
                proof {
                    assert(out@ =~= spec_chapter_title(*ch, no_section_label));
                }
                return string_of(&out);
            },
            None => {},
        }
    }
    ch.name.clone()
}

} // verus!
