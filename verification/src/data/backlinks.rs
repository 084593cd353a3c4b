//! What a page points to.

use crate::tree::PageRef;
use vstd::prelude::*;

verus! {

/// Everything that a page points to, each kind in the order in which it was
/// met. Nothing is counted or left out here: what occurs twice is listed twice.
#[derive(Debug)]
pub struct Backlinks {
    /// The pages that are included.
    pub included_pages: Vec<PageRef>,
    /// The pages that are linked to.
    pub internal_links: Vec<PageRef>,
    /// The addresses outside the wiki that are linked to.
    pub external_links: Vec<String>,
}

impl Backlinks {
    /// No links at all.
    pub fn new() -> (links: Backlinks)
        ensures
            links.included_pages@.len() == 0,
            links.internal_links@.len() == 0,
            links.external_links@.len() == 0,
    {
        Backlinks {
            included_pages: Vec::new(),
            internal_links: Vec::new(),
            external_links: Vec::new(),
        }
    }
}

} // verus!
