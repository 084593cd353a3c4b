//! What the link service decides. Reading and writing the stored links is left
//! to the caller: it looks pages up, hands over what it found, and carries out
//! the actions it is given.

use crate::link::tally::{ConnectionType, Tally, Target, TargetModel};
use crate::tree::PageRef;
use vstd::prelude::*;

verus! {

/// The service that keeps the links between pages.
#[derive(Debug)]
pub struct LinkService;

/// The site that stands for every site named by its slug.
pub const NAMED_SITE_ID: i64 = 1;

/// What is to be done with a stored link.
#[derive(Debug, Copy, Clone, PartialEq, Eq, Structural)]
pub enum Action {
    /// It is stored with the right count.
    Keep,
    /// It is to be stored with this count.
    Update(i32),
    /// Nothing points there any more: it is to be deleted.
    Delete,
}

/// The site that a reference leads to: the site of the page itself where it
/// names none.
pub open spec fn site_of(site_id: i64, page: PageRef) -> i64 {
    match page.site {
        Some(_) => NAMED_SITE_ID,
        None => site_id,
    }
}

/// What a reference to a page points to, given the page that was found for it.
pub open spec fn target_of(
    site_id: i64,
    page: PageRef,
    kind: ConnectionType,
    found: Option<i64>,
) -> TargetModel {
    match found {
        Some(page_id) => TargetModel::Page { page_id, kind },
        None => TargetModel::Missing { site_id: site_of(site_id, page), slug: page.page@, kind },
    }
}

/// What is to be done with a link stored with the count `stored`, when it is
/// now pointed to `wanted` times.
pub open spec fn action_for(stored: i32, wanted: int) -> Action {
    if wanted == 0 {
        Action::Delete
    } else if wanted == stored {
        Action::Keep
    } else {
        Action::Update(wanted as i32)
    }
}

/// How often an address occurs in a list.
pub open spec fn occurrences(urls: Seq<String>, url: Seq<char>) -> int
    decreases urls.len(),
{
    if urls.len() == 0 {
        0
    } else if urls.last()@ == url {
        occurrences(urls.drop_last(), url) + 1
    } else {
        occurrences(urls.drop_last(), url)
    }
}

/// What a list of addresses adds to the count of a target.
pub open spec fn occurrences_of(urls: Seq<String>, target: TargetModel) -> int {
    match target {
        TargetModel::External { url } => occurrences(urls, url),
        _ => 0,
    }
}

impl LinkService {
    /// The site on which a referenced page is looked up.
    pub fn target_site(site_id: i64, page: &PageRef) -> (site: i64)
        ensures
            site == site_of(site_id, *page),
    {
        match &page.site {
            None => site_id,
            Some(_slug) => NAMED_SITE_ID,
        }
    }

    /// Counts one reference to a page. `found` is the page that the lookup on
    /// `target_site` gave: the reference counts for that page, or for the slug
    /// on that site where no page was found.
    pub fn count_connection(
        counts: &mut Tally,
        site_id: i64,
        page: &PageRef,
        kind: ConnectionType,
        found: Option<i64>,
    )
        requires
            old(counts).well_formed(),
            old(counts).count(target_of(site_id, *page, kind, found)) < i32::MAX,
        ensures
            final(counts).well_formed(),
            forall|other: TargetModel|
                final(counts).count(other) == old(counts).count(other) + (if other == target_of(
                    site_id,
                    *page,
                    kind,
                    found,
                ) {
                    1int
                } else {
                    0int
                }),
    {
        let to_site_id = LinkService::target_site(site_id, page);
        match found {
            Some(page_id) => counts.add(Target::Page { page_id, kind }),
            None => counts.add(Target::Missing { site_id: to_site_id, slug: page.page.clone(), kind }),
        }
    }

    /// Counts every address of a list, once for each time it occurs.
    pub fn count_external_links(counts: &mut Tally, urls: &Vec<String>)
        requires
            old(counts).well_formed(),
            forall|other: TargetModel| (#[trigger] old(counts).count(other)) + urls.len() <= i32::MAX,
        ensures
            final(counts).well_formed(),
            forall|other: TargetModel|
                final(counts).count(other) == old(counts).count(other) + occurrences_of(
                    urls@,
                    other,
                ),
    {
        let mut i: usize = 0;
        assert(urls@.take(0) =~= Seq::<String>::empty());
        while i < urls.len()
            invariant
                i <= urls.len(),
                counts.well_formed(),
                forall|other: TargetModel|
                    (#[trigger] old(counts).count(other)) + urls.len() <= i32::MAX,
                forall|other: TargetModel|
                    counts.count(other) == old(counts).count(other) + occurrences_of(
                        urls@.take(i as int),
                        other,
                    ),
                forall|other: TargetModel|
                    0 <= (#[trigger] occurrences_of(urls@.take(i as int), other)) <= i,
            decreases urls.len() - i,
        {
            let target = Target::External { url: urls[i].clone() };
            proof {
                assert(urls@.take(i + 1).drop_last() =~= urls@.take(i as int));
                assert(counts.count(target@) == old(counts).count(target@) + occurrences_of(
                    urls@.take(i as int),
                    target@,
                ));
            }
            counts.add(target);
            proof {
                let longer = urls@.take(i + 1);
                let shorter = urls@.take(i as int);
                assert forall|other: TargetModel|
                    0 <= (#[trigger] occurrences_of(longer, other)) <= i + 1 && occurrences_of(
                        longer,
                        other,
                    ) == occurrences_of(shorter, other) + (if other == (TargetModel::External {
                        url: urls@[i as int]@,
                    }) {
                        1int
                    } else {
                        0int
                    }) by {
                    assert(0 <= occurrences_of(shorter, other) <= i);
                }
            }
            i += 1;
        }
        assert(urls@.take(i as int) =~= urls@);
    }

    /// Decides what is to be done with one stored link, and takes its target
    /// off the counts: what is left on them in the end is what has to be
    /// stored anew.
    pub fn reconcile(counts: &mut Tally, target: &Target, stored: i32) -> (action: Action)
        requires
            old(counts).well_formed(),
        ensures
            final(counts).well_formed(),
            action == action_for(stored, old(counts).count(target@)),
            forall|other: TargetModel|
                final(counts).count(other) == (if other == target@ {
                    0
                } else {
                    old(counts).count(other)
                }),
    {
        match counts.remove(target) {
            // The link is pointed to as often as before.
            Some(count) if count == stored => Action::Keep,
            // The link is pointed to, with another count.
            Some(count) => Action::Update(count),
            // Nothing points there any more.
            None => Action::Delete,
        }
    }
}

} // verus!
