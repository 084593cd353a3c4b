//! Counting how often each target is pointed to.

use crate::text::str_eq;
use vstd::prelude::*;

verus! {

/// The ways in which one page can depend on another.
#[derive(Debug, Copy, Clone, PartialEq, Eq, Structural)]
pub enum ConnectionType {
    IncludeMessy,
    IncludeElements,
    Component,
    Link,
    Redirect,
}

impl ConnectionType {
    pub open spec fn name_text(self) -> Seq<char> {
        match self {
            ConnectionType::IncludeMessy => "include-messy"@,
            ConnectionType::IncludeElements => "include-elements"@,
            ConnectionType::Component => "component"@,
            ConnectionType::Link => "link"@,
            ConnectionType::Redirect => "redirect"@,
        }
    }

    /// The name under which the kind is stored.
    pub fn name(self) -> (name: &'static str)
        ensures
            name@ == self.name_text(),
    {
        match self {
            ConnectionType::IncludeMessy => "include-messy",
            ConnectionType::IncludeElements => "include-elements",
            ConnectionType::Component => "component",
            ConnectionType::Link => "link",
            ConnectionType::Redirect => "redirect",
        }
    }

    /// The kind that is stored under a name, if the name is that of a kind.
    pub fn from_name(name: &str) -> (kind: Option<ConnectionType>)
        ensures
            match kind {
                Some(found) => found.name_text() == name@,
                None => forall|other: ConnectionType| other.name_text() != name@,
            },
    {
        if str_eq(name, "include-messy") {
            Some(ConnectionType::IncludeMessy)
        } else if str_eq(name, "include-elements") {
            Some(ConnectionType::IncludeElements)
        } else if str_eq(name, "component") {
            Some(ConnectionType::Component)
        } else if str_eq(name, "link") {
            Some(ConnectionType::Link)
        } else if str_eq(name, "redirect") {
            Some(ConnectionType::Redirect)
        } else {
            None
        }
    }
}

/// What a page can point to.
#[derive(Debug)]
pub enum Target {
    /// A page that exists.
    Page { page_id: i64, kind: ConnectionType },
    /// A page that does not exist, by the site it would be on and its slug.
    Missing { site_id: i64, slug: String, kind: ConnectionType },
    /// An address outside the wiki.
    External { url: String },
}

/// The model of a target: the same, with texts for strings.
pub enum TargetModel {
    Page { page_id: i64, kind: ConnectionType },
    Missing { site_id: i64, slug: Seq<char>, kind: ConnectionType },
    External { url: Seq<char> },
}

impl View for Target {
    type V = TargetModel;

    open spec fn view(&self) -> TargetModel {
        match *self {
            Target::Page { page_id, kind } => TargetModel::Page { page_id, kind },
            Target::Missing { site_id, slug, kind } => TargetModel::Missing {
                site_id,
                slug: slug@,
                kind,
            },
            Target::External { url } => TargetModel::External { url: url@ },
        }
    }
}

impl Target {
    /// Whether two targets are the same target.
    pub fn same(&self, other: &Target) -> (same: bool)
        ensures
            same == (self@ == other@),
    {
        match (self, other) {
            (
                Target::Page { page_id: a, kind: x },
                Target::Page { page_id: b, kind: y },
            ) => *a == *b && *x == *y,
            (
                Target::Missing { site_id: a, slug: s, kind: x },
                Target::Missing { site_id: b, slug: t, kind: y },
            ) => *a == *b && *x == *y && str_eq(s.as_str(), t.as_str()),
            (Target::External { url: s }, Target::External { url: t }) => str_eq(
                s.as_str(),
                t.as_str(),
            ),
            _ => false,
        }
    }
}

/// How often `target` occurs in a list of counted targets.
pub open spec fn count_in(entries: Seq<(TargetModel, i32)>, target: TargetModel) -> int
    decreases entries.len(),
{
    if entries.len() == 0 {
        0
    } else if entries.last().0 == target {
        count_in(entries.drop_last(), target) + entries.last().1
    } else {
        count_in(entries.drop_last(), target)
    }
}

/// The models of a list of counted targets.
pub open spec fn entries_model(entries: Seq<(Target, i32)>) -> Seq<(TargetModel, i32)> {
    entries.map_values(|entry: (Target, i32)| (entry.0@, entry.1))
}

/// No target is listed twice, and each is counted at least once.
pub open spec fn is_tally(entries: Seq<(TargetModel, i32)>) -> bool {
    &&& forall|i: int| 0 <= i < entries.len() ==> (#[trigger] entries[i]).1 > 0
    &&& forall|i: int, j: int|
        0 <= i < j < entries.len() ==> (#[trigger] entries[i]).0 != (#[trigger] entries[j]).0
}

/// For each target, how often it is pointed to.
#[derive(Debug)]
pub struct Tally {
    entries: Vec<(Target, i32)>,
}

impl View for Tally {
    type V = Seq<(TargetModel, i32)>;

    closed spec fn view(&self) -> Seq<(TargetModel, i32)> {
        entries_model(self.entries@)
    }
}

proof fn lemma_count_absent(entries: Seq<(TargetModel, i32)>, target: TargetModel)
    requires
        forall|i: int| 0 <= i < entries.len() ==> (#[trigger] entries[i]).0 != target,
    ensures
        count_in(entries, target) == 0,
    decreases entries.len(),
{
    if entries.len() > 0 {
        let rest = entries.drop_last();
        assert forall|i: int| 0 <= i < rest.len() implies (#[trigger] rest[i]).0 != target by {
            assert(rest[i] == entries[i]);
        }
        lemma_count_absent(rest, target);
    }
}

proof fn lemma_count_at(entries: Seq<(TargetModel, i32)>, at: int)
    requires
        is_tally(entries),
        0 <= at < entries.len(),
    ensures
        count_in(entries, entries[at].0) == entries[at].1,
    decreases entries.len(),
{
    let rest = entries.drop_last();
    assert forall|i: int| 0 <= i < rest.len() implies rest[i] == entries[i] by {}
    if at == entries.len() - 1 {
        assert forall|i: int| 0 <= i < rest.len() implies (#[trigger] rest[i]).0 != entries[at].0 by {
            assert(rest[i] == entries[i]);
        }
        lemma_count_absent(rest, entries[at].0);
    } else {
        assert(is_tally(rest)) by {
            assert forall|i: int, j: int| 0 <= i < j < rest.len() implies (#[trigger] rest[i]).0 != (
            #[trigger] rest[j]).0 by {
                assert(rest[i] == entries[i]);
                assert(rest[j] == entries[j]);
            }
            assert forall|i: int| 0 <= i < rest.len() implies (#[trigger] rest[i]).1 > 0 by {
                assert(rest[i] == entries[i]);
            }
        }
        assert(rest[at] == entries[at]);
        lemma_count_at(rest, at);
    }
}

proof fn lemma_count_push(entries: Seq<(TargetModel, i32)>, entry: (TargetModel, i32), target: TargetModel)
    ensures
        count_in(entries.push(entry), target) == count_in(entries, target) + (if entry.0 == target {
            entry.1 as int
        } else {
            0
        }),
{
    assert(entries.push(entry).drop_last() =~= entries);
}

proof fn lemma_count_update(
    entries: Seq<(TargetModel, i32)>,
    at: int,
    entry: (TargetModel, i32),
    target: TargetModel,
)
    requires
        0 <= at < entries.len(),
        entry.0 == entries[at].0,
    ensures
        count_in(entries.update(at, entry), target) == count_in(entries, target) + (if entry.0
            == target {
            entry.1 - entries[at].1
        } else {
            0
        }),
    decreases entries.len(),
{
    let changed = entries.update(at, entry);
    if at == entries.len() - 1 {
        assert(changed.drop_last() =~= entries.drop_last());
    } else {
        assert(changed.drop_last() =~= entries.drop_last().update(at, entry));
        lemma_count_update(entries.drop_last(), at, entry, target);
    }
}

proof fn lemma_count_remove(entries: Seq<(TargetModel, i32)>, at: int, target: TargetModel)
    requires
        0 <= at < entries.len(),
    ensures
        count_in(entries.remove(at), target) == count_in(entries, target) - (if entries[at].0
            == target {
            entries[at].1 as int
        } else {
            0
        }),
    decreases entries.len(),
{
    let fewer = entries.remove(at);
    if at == entries.len() - 1 {
        assert(fewer =~= entries.drop_last());
    } else {
        assert(fewer.drop_last() =~= entries.drop_last().remove(at));
        assert(fewer.last() == entries.last());
        lemma_count_remove(entries.drop_last(), at, target);
    }
}

impl Tally {
    /// The invariant of the type.
    pub open spec fn well_formed(&self) -> bool {
        is_tally(self@)
    }

    /// How often a target is pointed to; zero where it is not listed.
    pub open spec fn count(&self, target: TargetModel) -> int {
        count_in(self@, target)
    }

    /// Nothing counted.
    pub fn new() -> (tally: Tally)
        ensures
            tally.well_formed(),
            tally@.len() == 0,
            forall|target: TargetModel| tally.count(target) == 0,
    {
        let tally = Tally { entries: Vec::new() };
        assert(tally@ =~= Seq::empty());
        tally
    }

    /// How many targets are listed.
    pub fn len(&self) -> (count: usize)
        ensures
            count == self@.len(),
    {
        self.entries.len()
    }

    /// The target at a place of the list.
    pub fn target(&self, index: usize) -> (target: &Target)
        requires
            index < self@.len(),
        ensures
            target@ == self@[index as int].0,
    {
        &self.entries[index].0
    }

    /// The count at a place of the list.
    pub fn count_at(&self, index: usize) -> (count: i32)
        requires
            index < self@.len(),
        ensures
            count == self@[index as int].1,
    {
        self.entries[index].1
    }

    fn find(&self, target: &Target) -> (found: Option<usize>)
        ensures
            match found {
                Some(at) => at < self@.len() && self@[at as int].0 == target@,
                None => forall|i: int| 0 <= i < self@.len() ==> (#[trigger] self@[i]).0 != target@,
            },
    {
        let mut i: usize = 0;
        while i < self.entries.len()
            invariant
                i <= self.entries.len(),
                forall|k: int| 0 <= k < i ==> (#[trigger] self@[k]).0 != target@,
            decreases self.entries.len() - i,
        {
            if self.entries[i].0.same(target) {
                return Some(i);
            }
            i += 1;
        }
        None
    }

    /// How often a target is pointed to.
    pub fn get(&self, target: &Target) -> (count: i32)
        requires
            self.well_formed(),
        ensures
            count == self.count(target@),
            count >= 0,
    {
        match self.find(target) {
            Some(at) => {
                proof {
                    lemma_count_at(self@, at as int);
                }
                self.entries[at].1
            },
            None => {
                proof {
                    lemma_count_absent(self@, target@);
                }
                0
            },
        }
    }
}


impl Tally {
    /// Counts a target once more.
    pub fn add(&mut self, target: Target)
        requires
            old(self).well_formed(),
            old(self).count(target@) < i32::MAX,
        ensures
            final(self).well_formed(),
            forall|other: TargetModel|
                final(self).count(other) == old(self).count(other) + (if other == target@ {
                    1int
                } else {
                    0int
                }),
    {
        let ghost before = self@;
        let ghost model = target@;
        match self.find(&target) {
            Some(at) => {
                proof {
                    lemma_count_at(before, at as int);
                }
                let count = self.entries[at].1;
                self.entries.set(at, (target, count + 1));
                proof {
                    let entry = (model, (count + 1) as i32);
                    assert(self@ =~= before.update(at as int, entry));
                    assert forall|other: TargetModel| self.count(other) == count_in(before, other)
                        + (if other == model {
                        1int
                    } else {
                        0int
                    }) by {
                        lemma_count_update(before, at as int, entry, other);
                    }
                }
            },
            None => {
                self.entries.push((target, 1));
                proof {
                    let entry = (model, 1i32);
                    assert(self@ =~= before.push(entry));
                    assert forall|other: TargetModel| self.count(other) == count_in(before, other)
                        + (if other == model {
                        1int
                    } else {
                        0int
                    }) by {
                        lemma_count_push(before, entry, other);
                    }
                }
            },
        }
    }

    /// Takes a target off the list and gives the count it had, if it was listed.
    pub fn remove(&mut self, target: &Target) -> (count: Option<i32>)
        requires
            old(self).well_formed(),
        ensures
            final(self).well_formed(),
            match count {
                Some(had) => had == old(self).count(target@) && had > 0,
                None => old(self).count(target@) == 0,
            },
            forall|other: TargetModel|
                final(self).count(other) == (if other == target@ {
                    0
                } else {
                    old(self).count(other)
                }),
    {
        let ghost before = self@;
        match self.find(target) {
            Some(at) => {
                proof {
                    lemma_count_at(before, at as int);
                }
                let entry = self.entries.remove(at);
                proof {
                    assert(self@ =~= before.remove(at as int));
                    assert forall|other: TargetModel| self.count(other) == (if other == target@ {
                        0
                    } else {
                        count_in(before, other)
                    }) by {
                        lemma_count_remove(before, at as int, other);
                    }
                }
                Some(entry.1)
            },
            None => {
                proof {
                    lemma_count_absent(before, target@);
                }
                None
            },
        }
    }
}

} // verus!
