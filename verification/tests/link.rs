use ftml::data::backlinks::Backlinks;
use ftml::link::service::{Action, LinkService, NAMED_SITE_ID};
use ftml::link::tally::{ConnectionType, Tally, Target};
use ftml::tree::PageRef;

fn page(site: Option<&str>, slug: &str) -> PageRef {
    PageRef { site: site.map(String::from), page: String::from(slug) }
}

fn external(url: &str) -> Target {
    Target::External { url: String::from(url) }
}

#[test]
fn connection_type_names() {
    let kinds = [
        (ConnectionType::IncludeMessy, "include-messy"),
        (ConnectionType::IncludeElements, "include-elements"),
        (ConnectionType::Component, "component"),
        (ConnectionType::Link, "link"),
        (ConnectionType::Redirect, "redirect"),
    ];
    for (kind, name) in kinds {
        assert_eq!(kind.name(), name);
        assert_eq!(ConnectionType::from_name(name), Some(kind));
    }
    assert_eq!(ConnectionType::from_name("Link"), None);
    assert_eq!(ConnectionType::from_name(""), None);
}

#[test]
fn same_targets() {
    let a = Target::Page { page_id: 1, kind: ConnectionType::Link };
    let b = Target::Page { page_id: 1, kind: ConnectionType::IncludeMessy };
    let c = Target::Missing { site_id: 1, slug: String::from("x"), kind: ConnectionType::Link };
    let d = Target::Missing { site_id: 1, slug: String::from("y"), kind: ConnectionType::Link };
    assert!(a.same(&Target::Page { page_id: 1, kind: ConnectionType::Link }));
    assert!(!a.same(&b));
    assert!(!a.same(&c));
    assert!(!c.same(&d));
    assert!(c.same(&Target::Missing {
        site_id: 1,
        slug: String::from("x"),
        kind: ConnectionType::Link
    }));
    assert!(external("u").same(&external("u")));
    assert!(!external("u").same(&external("v")));
}

#[test]
fn tally_counts_each_target() {
    let mut tally = Tally::new();
    assert_eq!(tally.len(), 0);
    assert_eq!(tally.get(&external("a")), 0);
    tally.add(external("a"));
    tally.add(external("b"));
    tally.add(external("a"));
    tally.add(Target::Page { page_id: 7, kind: ConnectionType::Link });
    assert_eq!(tally.len(), 3);
    assert_eq!(tally.get(&external("a")), 2);
    assert_eq!(tally.get(&external("b")), 1);
    assert_eq!(tally.get(&external("c")), 0);
    assert_eq!(tally.get(&Target::Page { page_id: 7, kind: ConnectionType::Link }), 1);
    assert_eq!(tally.get(&Target::Page { page_id: 7, kind: ConnectionType::Redirect }), 0);
    assert!(tally.target(0).same(&external("a")));
    assert_eq!(tally.count_at(0), 2);
}

#[test]
fn tally_remove_gives_the_count() {
    let mut tally = Tally::new();
    tally.add(external("a"));
    tally.add(external("b"));
    tally.add(external("a"));
    assert_eq!(tally.remove(&external("a")), Some(2));
    assert_eq!(tally.remove(&external("a")), None);
    assert_eq!(tally.get(&external("a")), 0);
    assert_eq!(tally.get(&external("b")), 1);
    assert_eq!(tally.len(), 1);
}

#[test]
fn site_of_a_reference() {
    assert_eq!(LinkService::target_site(42, &page(None, "p")), 42);
    assert_eq!(LinkService::target_site(42, &page(Some("other"), "p")), NAMED_SITE_ID);
}

#[test]
fn references_count_for_pages_found_or_missing() {
    let mut tally = Tally::new();
    LinkService::count_connection(&mut tally, 5, &page(None, "a"), ConnectionType::Link, Some(10));
    LinkService::count_connection(&mut tally, 5, &page(None, "a"), ConnectionType::Link, Some(10));
    LinkService::count_connection(
        &mut tally,
        5,
        &page(None, "a"),
        ConnectionType::IncludeMessy,
        Some(10),
    );
    LinkService::count_connection(&mut tally, 5, &page(None, "b"), ConnectionType::Link, None);
    LinkService::count_connection(&mut tally, 5, &page(Some("s"), "b"), ConnectionType::Link, None);
    assert_eq!(tally.get(&Target::Page { page_id: 10, kind: ConnectionType::Link }), 2);
    assert_eq!(tally.get(&Target::Page { page_id: 10, kind: ConnectionType::IncludeMessy }), 1);
    assert_eq!(
        tally.get(&Target::Missing {
            site_id: 5,
            slug: String::from("b"),
            kind: ConnectionType::Link
        }),
        1
    );
    assert_eq!(
        tally.get(&Target::Missing {
            site_id: NAMED_SITE_ID,
            slug: String::from("b"),
            kind: ConnectionType::Link
        }),
        1
    );
}

#[test]
fn external_links_keep_their_multiplicity() {
    let mut links = Backlinks::new();
    for url in ["https://a", "https://b", "https://a", "https://a"] {
        links.external_links.push(String::from(url));
    }
    let mut tally = Tally::new();
    LinkService::count_external_links(&mut tally, &links.external_links);
    assert_eq!(tally.get(&external("https://a")), 3);
    assert_eq!(tally.get(&external("https://b")), 1);
    assert_eq!(tally.len(), 2);
}

#[test]
fn stored_links_are_kept_updated_or_deleted() {
    let mut tally = Tally::new();
    tally.add(external("same"));
    tally.add(external("same"));
    tally.add(external("more"));
    tally.add(external("more"));
    tally.add(external("new"));
    assert_eq!(LinkService::reconcile(&mut tally, &external("same"), 2), Action::Keep);
    assert_eq!(LinkService::reconcile(&mut tally, &external("more"), 1), Action::Update(2));
    assert_eq!(LinkService::reconcile(&mut tally, &external("gone"), 4), Action::Delete);
    // What is left is stored anew.
    assert_eq!(tally.len(), 1);
    assert!(tally.target(0).same(&external("new")));
    assert_eq!(tally.count_at(0), 1);
    // A link met a second time has nothing left to point to it.
    assert_eq!(LinkService::reconcile(&mut tally, &external("same"), 2), Action::Delete);
}
