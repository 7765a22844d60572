//! The data model: a `Page` is one unit of extracted text tagged with the
//! position of its source image, and a `Project` is the ordered collection of
//! pages persisted for one directory.

use vstd::prelude::*;

verus! {

/// One processed page: `index` is the zero-based position of the source image
/// in the directory's input ordering (assigned before dispatch, never
/// renumbered), `text` is the extracted content.
pub struct Page {
    pub index: usize,
    pub text: String,
}

/// The mathematical value of a `Page`.
pub struct PageView {
    pub index: int,
    pub text: Seq<char>,
}

impl View for Page {
    type V = PageView;

    open spec fn view(&self) -> PageView {
        PageView { index: self.index as int, text: self.text@ }
    }
}

/// The document persisted for one directory: its pages in final presentation
/// order (profile page first when present, then pages by ascending `index`).
pub struct Project {
    pub pages: Vec<Page>,
}

impl View for Project {
    type V = Seq<PageView>;

    open spec fn view(&self) -> Seq<PageView> {
        self.pages@.map_values(|p: Page| p@)
    }
}

/// Pages stand in strictly ascending `index` order.
pub open spec fn pages_ordered(s: Seq<PageView>) -> bool {
    forall|i: int, j: int| 0 <= i < j < s.len() ==> s[i].index < s[j].index
}

} // verus!
