use ftml::revision::tasks::{PageRevision, ProvidedValue, RevisionChanges, RevisionTasks};

fn revision() -> PageRevision {
    PageRevision {
        wikitext_hash: vec![1, 2, 3, 4],
        title: String::from("Title"),
        alt_title: None,
        slug: String::from("page"),
    }
}

fn no_changes() -> RevisionChanges {
    RevisionChanges {
        wikitext_hash: ProvidedValue::Unset,
        title: ProvidedValue::Unset,
        alt_title: ProvidedValue::Unset,
        slug: ProvidedValue::Unset,
        tags: ProvidedValue::Unset,
        metadata: ProvidedValue::Unset,
    }
}

const NOTHING: RevisionTasks = RevisionTasks {
    render: false,
    links_incoming: false,
    links_outgoing: false,
    rename: false,
    rerender_included: false,
    process_navigation: false,
    process_templates: false,
};

#[test]
fn no_change_no_task() {
    let tasks = RevisionTasks::determine(&revision(), &no_changes());
    assert_eq!(tasks, NOTHING);
    assert!(tasks.is_empty());
}

#[test]
fn same_values_no_task() {
    let mut changes = no_changes();
    changes.wikitext_hash = ProvidedValue::Given(vec![1, 2, 3, 4]);
    changes.title = ProvidedValue::Given(String::from("Title"));
    changes.alt_title = ProvidedValue::Given(None);
    changes.slug = ProvidedValue::Given(String::from("page"));
    let tasks = RevisionTasks::determine(&revision(), &changes);
    assert!(tasks.is_empty());
}

#[test]
fn new_wikitext() {
    let mut changes = no_changes();
    changes.wikitext_hash = ProvidedValue::Given(vec![1, 2, 3, 5]);
    let tasks = RevisionTasks::determine(&revision(), &changes);
    assert_eq!(
        tasks,
        RevisionTasks {
            render: true,
            links_incoming: true,
            links_outgoing: true,
            rename: false,
            rerender_included: true,
            process_navigation: true,
            process_templates: true,
        }
    );
    assert!(!tasks.is_empty());
}

#[test]
fn shorter_hash_is_another_hash() {
    let mut changes = no_changes();
    changes.wikitext_hash = ProvidedValue::Given(vec![1, 2, 3]);
    assert!(RevisionTasks::determine(&revision(), &changes).render);
}

#[test]
fn new_title() {
    let mut changes = no_changes();
    changes.title = ProvidedValue::Given(String::from("Other title"));
    let tasks = RevisionTasks::determine(&revision(), &changes);
    assert_eq!(
        tasks,
        RevisionTasks {
            render: true,
            links_incoming: true,
            links_outgoing: true,
            ..NOTHING
        }
    );
}

#[test]
fn new_alt_title() {
    let mut changes = no_changes();
    changes.alt_title = ProvidedValue::Given(Some(String::from("Alt")));
    let tasks = RevisionTasks::determine(&revision(), &changes);
    assert_eq!(
        tasks,
        RevisionTasks {
            render: true,
            links_incoming: true,
            links_outgoing: true,
            ..NOTHING
        }
    );
}

#[test]
fn new_slug() {
    let mut changes = no_changes();
    changes.slug = ProvidedValue::Given(String::from("moved"));
    let tasks = RevisionTasks::determine(&revision(), &changes);
    assert_eq!(
        tasks,
        RevisionTasks {
            render: true,
            links_incoming: true,
            links_outgoing: false,
            rename: true,
            rerender_included: true,
            process_navigation: true,
            process_templates: true,
        }
    );
}

#[test]
fn tags_and_metadata_ask_for_nothing() {
    let mut changes = no_changes();
    changes.tags = ProvidedValue::Given(vec![String::from("tale")]);
    changes.metadata = ProvidedValue::Given(String::from("{}"));
    assert!(RevisionTasks::determine(&revision(), &changes).is_empty());
}

#[test]
fn one_task_is_not_empty() {
    assert!(!RevisionTasks { rename: true, ..NOTHING }.is_empty());
    assert!(!RevisionTasks { process_templates: true, ..NOTHING }.is_empty());
}
