//! A piece of statement text with the box that it occupies on its page.

use vstd::prelude::*;

verus! {

/// A line of text placed on a page: `(x1, y1)` is the top-left corner of its
/// box, `(x2, y2)` the bottom-right one, and `page` the page's index.
#[derive(Debug)]
pub struct TextItem {
    pub text: String,
    pub x1: i32,
    pub y1: i32,
    pub x2: i32,
    pub y2: i32,
    pub page: i32,
}

impl TextItem {
    /// A text item with the given text, box and page.
    pub fn new(text: String, x1: i32, y1: i32, x2: i32, y2: i32, page: i32) -> (item: TextItem)
        ensures
            item.text == text,
            item.x1 == x1,
            item.y1 == y1,
            item.x2 == x2,
            item.y2 == y2,
            item.page == page,
    {
        TextItem { text, x1, y1, x2, y2, page }
    }
}

} // verus!
