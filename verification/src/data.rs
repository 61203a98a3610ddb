//! Records of elements, as a store of pages keeps them: what an element
//! holds as plain values, with the page and the element that it belongs to.

use crate::located::Located;
use crate::region::Region;
use vstd::prelude::*;

verus! {

/// The record of a piece of plain text.
#[derive(Debug, PartialEq, Eq)]
pub struct Text {
    /// The part of the page that the text covers.
    pub region: Region,
    /// The text itself.
    pub content: String,
    /// The page that holds the text.
    pub page_id: usize,
    /// The element that the text stands in, if it stands in one.
    pub parent_id: Option<usize>,
}

impl Text {
    /// The record of `element` on the page `page_id`, below the element
    /// `parent_id`.
    pub fn from_vimwiki_element(
        page_id: usize,
        parent_id: Option<usize>,
        element: Located<crate::elements::inline::Text<'_>>,
    ) -> (r: Text)
        ensures
            r.region == element.region,
            r.content@ == element.value@,
            r.page_id == page_id,
            r.parent_id == parent_id,
    {
        let region = element.region;
        let content = element.value.as_str().to_owned();
        Text { region, content, page_id, parent_id }
    }

    pub fn region(&self) -> (r: &Region)
        ensures
            *r == self.region,
    {
        &self.region
    }

    pub fn content(&self) -> (r: &str)
        ensures
            r@ == self.content@,
    {
        self.content.as_str()
    }

    pub fn page_id(&self) -> (r: usize)
        ensures
            r == self.page_id,
    {
        self.page_id
    }

    pub fn parent_id(&self) -> (r: Option<usize>)
        ensures
            r == self.parent_id,
    {
        self.parent_id
    }
}

} // verus!
