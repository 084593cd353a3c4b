use crate::text::{bytes_eq, str_eq};
use vstd::prelude::*;

verus! {

/// A field of a request that may have been left out.
#[derive(Debug)]
pub enum ProvidedValue<T> {
    /// The field was given, with this value.
    Given(T),
    /// The field was left out: nothing is to change.
    Unset,
}

/// What is read of the newest revision of a page.
#[derive(Debug)]
pub struct PageRevision {
    /// The hash of the revision's wikitext.
    pub wikitext_hash: Vec<u8>,
    pub title: String,
    pub alt_title: Option<String>,
    pub slug: String,
}

/// The changes that a new revision asks for.
#[derive(Debug)]
pub struct RevisionChanges {
    /// The hash of the new wikitext.
    pub wikitext_hash: ProvidedValue<Vec<u8>>,
    pub title: ProvidedValue<String>,
    pub alt_title: ProvidedValue<Option<String>>,
    pub slug: ProvidedValue<String>,
    pub tags: ProvidedValue<Vec<String>>,
    pub metadata: ProvidedValue<String>,
}

/// The work that a new revision makes necessary.
#[derive(Debug, Copy, Clone, PartialEq, Eq, Structural)]
pub struct RevisionTasks {
    pub render: bool,
    pub links_incoming: bool,
    pub links_outgoing: bool,
    pub rename: bool,
    pub rerender_included: bool,
    pub process_navigation: bool,
    pub process_templates: bool,
}

/// The new wikitext is given and is another than the revision's.
pub open spec fn wikitext_changes(revision: PageRevision, changes: RevisionChanges) -> bool {
    changes.wikitext_hash matches ProvidedValue::Given(hash) && hash@ != revision.wikitext_hash@
}

/// A title is given and is another than the revision's.
pub open spec fn title_changes(revision: PageRevision, changes: RevisionChanges) -> bool {
    changes.title matches ProvidedValue::Given(title) && title@ != revision.title@
}

/// The text of an alternate title, where there is one.
pub open spec fn alt_title_text(alt_title: Option<String>) -> Option<Seq<char>> {
    match alt_title {
        Some(title) => Some(title@),
        None => None,
    }
}

/// An alternate title, or its absence, is given and is another than the revision's.
pub open spec fn alt_title_changes(revision: PageRevision, changes: RevisionChanges) -> bool {
    changes.alt_title matches ProvidedValue::Given(alt_title) && alt_title_text(alt_title)
        != alt_title_text(revision.alt_title)
}

/// A slug is given and is another than the revision's.
pub open spec fn slug_changes(revision: PageRevision, changes: RevisionChanges) -> bool {
    changes.slug matches ProvidedValue::Given(slug) && slug@ != revision.slug@
}

/// The tasks that follow from what changes. New text and a new slug touch
/// everything that shows or includes the page; a new title only what shows its
/// name. Tags and metadata ask for no work.
pub open spec fn tasks_for(text: bool, title: bool, alt_title: bool, slug: bool) -> RevisionTasks {
    RevisionTasks {
        render: text || title || alt_title || slug,
        links_incoming: text || title || alt_title || slug,
        links_outgoing: text || title || alt_title,
        rename: slug,
        rerender_included: text || slug,
        process_navigation: text || slug,
        process_templates: text || slug,
    }
}

fn same_alt_title(first: &Option<String>, second: &Option<String>) -> (same: bool)
    ensures
        same == (alt_title_text(*first) == alt_title_text(*second)),
{
    match (first, second) {
        (Some(a), Some(b)) => str_eq(a.as_str(), b.as_str()),
        (None, None) => true,
        _ => false,
    }
}

impl RevisionTasks {
    /// The tasks that the changes make necessary for a page at this revision.
    pub fn determine(revision: &PageRevision, changes: &RevisionChanges) -> (tasks: RevisionTasks)
        ensures
            tasks == tasks_for(
                wikitext_changes(*revision, *changes),
                title_changes(*revision, *changes),
                alt_title_changes(*revision, *changes),
                slug_changes(*revision, *changes),
            ),
    {
        let mut tasks = RevisionTasks {
            render: false,
            links_incoming: false,
            links_outgoing: false,
            rename: false,
            rerender_included: false,
            process_navigation: false,
            process_templates: false,
        };

        if let ProvidedValue::Given(hash) = &changes.wikitext_hash {
            if !bytes_eq(revision.wikitext_hash.as_slice(), hash.as_slice()) {
                tasks.render = true;
                tasks.links_incoming = true;
                tasks.links_outgoing = true;
                tasks.rerender_included = true;
                tasks.process_navigation = true;
                tasks.process_templates = true;
            }
        }

        if let ProvidedValue::Given(title) = &changes.title {
            if !str_eq(revision.title.as_str(), title.as_str()) {
                tasks.render = true;
                tasks.links_incoming = true;
                tasks.links_outgoing = true;
            }
        }

        if let ProvidedValue::Given(alt_title) = &changes.alt_title {
            if !same_alt_title(&revision.alt_title, alt_title) {
                tasks.render = true;
                tasks.links_incoming = true;
                tasks.links_outgoing = true;
            }
        }

        if let ProvidedValue::Given(slug) = &changes.slug {
            if !str_eq(revision.slug.as_str(), slug.as_str()) {
                tasks.render = true;
                tasks.links_incoming = true;
                tasks.rename = true;
                tasks.rerender_included = true;
                tasks.process_navigation = true;
                tasks.process_templates = true;
            }
        }

        tasks
    }

    /// There is nothing to do.
    pub fn is_empty(self) -> (empty: bool)
        ensures
            empty == (self == tasks_for(false, false, false, false)),
    {
        !self.render && !self.links_incoming && !self.links_outgoing && !self.rename
            && !self.rerender_included && !self.process_navigation && !self.process_templates
    }
}

} // verus!
