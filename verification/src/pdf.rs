//! PDF export of a transcript: the layout of the document (the rendering, with an embedded
//! font that covers Cyrillic, is the caller's).
use vstd::prelude::*;

verus! {

/// A block of the document: a speaker's replica (heading and time) or a paragraph.
pub struct PdfBlock {
    /// The speaker's name, in bold.
    pub heading: Option<String>,
    /// The time code, shown in grey after the heading.
    pub time: Option<String>,
    /// The text of the replica or paragraph.
    pub body: String,
}

/// An element of the document, in order.
pub enum PdfItem {
    /// The title: bold, 17 pt, then a full line of space.
    Title(String),
    /// A heading line: the name in bold, then the time (already spaced) in grey.
    Heading(String, Option<String>),
    /// A paragraph, then six tenths of a line of space.
    Body(String),
}

pub open spec fn item_view(i: PdfItem) -> (int, Seq<char>, Option<Seq<char>>) {
    match i {
        PdfItem::Title(t) => (0, t@, None),
        PdfItem::Heading(h, t) => (1, h@, match t {
            Some(x) => Some(x@),
            None => None,
        }),
        PdfItem::Body(b) => (2, b@, None),
    }
}

/// The items of one block: its heading line when it has a heading (a time without a heading
/// is not shown), then its body.
pub open spec fn block_items(b: PdfBlock) -> Seq<(int, Seq<char>, Option<Seq<char>>)> {
    match b.heading {
        Some(h) => seq![(1, h@, match b.time {
            Some(t) => Some("   "@ + t@),
            None => None,
        }), (2, b.body@, None)],
        None => seq![(2, b.body@, None)],
    }
}

pub open spec fn layout_spec(title: Seq<char>, blocks: Seq<PdfBlock>) -> Seq<(int, Seq<char>, Option<Seq<char>>)>
    decreases blocks.len(),
{
    if blocks.len() == 0 {
        seq![(0, title, None)]
    } else {
        layout_spec(title, blocks.drop_last()) + block_items(blocks.last())
    }
}

/// The document: the title, then each block.
pub fn layout(title: &str, blocks: &Vec<PdfBlock>) -> (r: Vec<PdfItem>)
    ensures
        r@.map_values(|i: PdfItem| item_view(i)) == layout_spec(title@, blocks@),
{
    let mut r: Vec<PdfItem> = Vec::new();
    r.push(PdfItem::Title(title.to_owned()));
    assert(r@.map_values(|i: PdfItem| item_view(i)) =~= layout_spec(title@, blocks@.take(0)));
    let mut k: usize = 0;
    while k < blocks.len()
        invariant
            k <= blocks@.len(),
            r@.map_values(|i: PdfItem| item_view(i)) == layout_spec(title@, blocks@.take(k as int)),
        decreases blocks@.len() - k,
    {
        let b = &blocks[k];
        let ghost before = r@.map_values(|i: PdfItem| item_view(i));
        assert(blocks@.take(k + 1).drop_last() =~= blocks@.take(k as int));
        assert(blocks@.take(k + 1).last() == *b);
        match &b.heading {
            Some(h) => {
                let t = match &b.time {
                    Some(t) => Some(crate::text::concat("   ", t.as_str())),
                    None => None,
                };
                r.push(PdfItem::Heading(h.clone(), t));
                r.push(PdfItem::Body(b.body.clone()));
                assert(r@.map_values(|i: PdfItem| item_view(i)) =~= before + block_items(*b));
            },
            None => {
                r.push(PdfItem::Body(b.body.clone()));
                assert(r@.map_values(|i: PdfItem| item_view(i)) =~= before + block_items(*b));
            },
        }
        k = k + 1;
    }
    assert(blocks@.take(blocks@.len() as int) =~= blocks@);
    r
}

} // verus!
