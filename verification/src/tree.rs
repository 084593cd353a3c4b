//! The parts of the syntax tree that the renderer of images reads.

use crate::text::{chars_of, str_eq};
use vstd::prelude::*;
use vstd::string::StringExecFns;

verus! {

/// Where an image comes from.
#[derive(Debug)]
pub enum ImageSource {
    /// An address outside the wiki.
    Url(String),
    /// A file attached to the page that shows the image.
    File1 { file: String },
    /// A file attached to another page of the site.
    File2 { page: String, file: String },
    /// A file attached to a page of another site.
    File3 { site: String, page: String, file: String },
}

impl ImageSource {
    pub open spec fn name_text(self) -> Seq<char> {
        match self {
            ImageSource::Url(_) => "url"@,
            ImageSource::File1 { .. } => "file1"@,
            ImageSource::File2 { .. } => "file2"@,
            ImageSource::File3 { .. } => "file3"@,
        }
    }

    /// The name of the kind of source.
    pub fn name(&self) -> (name: &'static str)
        ensures
            name@ == self.name_text(),
    {
        match self {
            ImageSource::Url(_) => "url",
            ImageSource::File1 { .. } => "file1",
            ImageSource::File2 { .. } => "file2",
            ImageSource::File3 { .. } => "file3",
        }
    }
}

/// A page of a wiki: its slug and, where it is on another site, that site's.
#[derive(Debug)]
pub struct PageRef {
    pub site: Option<String>,
    pub page: String,
}

/// Where a link leads.
#[derive(Debug)]
pub enum LinkLocation {
    /// To a page of a wiki.
    Page(PageRef),
    /// To an address, or to an anchor of the page itself.
    Url(String),
}

/// The side that a block is aligned to.
#[derive(Debug, Copy, Clone, PartialEq, Eq, Structural)]
pub enum Alignment {
    Left,
    Right,
    Center,
    Justify,
}

impl Alignment {
    pub open spec fn name_text(self) -> Seq<char> {
        match self {
            Alignment::Left => "left"@,
            Alignment::Right => "right"@,
            Alignment::Center => "center"@,
            Alignment::Justify => "justify"@,
        }
    }

    /// The name of the side.
    pub fn name(self) -> (name: &'static str)
        ensures
            name@ == self.name_text(),
    {
        match self {
            Alignment::Left => "left",
            Alignment::Right => "right",
            Alignment::Center => "center",
            Alignment::Justify => "justify",
        }
    }

    pub open spec fn class_text(self) -> Seq<char> {
        match self {
            Alignment::Left => "wj-align-left"@,
            Alignment::Right => "wj-align-right"@,
            Alignment::Center => "wj-align-center"@,
            Alignment::Justify => "wj-align-justify"@,
        }
    }

    /// The class that a container aligned to this side carries.
    pub fn html_class(self) -> (class: &'static str)
        ensures
            class@ == self.class_text(),
    {
        match self {
            Alignment::Left => "wj-align-left",
            Alignment::Right => "wj-align-right",
            Alignment::Center => "wj-align-center",
            Alignment::Justify => "wj-align-justify",
        }
    }
}

/// The class that a floating container carries besides that of its side.
pub const FLOAT_CLASS: &'static str = "wj-float";

/// How an image is placed: the side, and whether text flows around it.
#[derive(Debug, Copy, Clone, PartialEq, Eq, Structural)]
pub struct FloatAlignment {
    pub align: Alignment,
    pub float: bool,
}

impl FloatAlignment {
    /// The classes of a container placed so: that of its side and, where it
    /// floats, the class for floating after a space.
    pub open spec fn class_text(self) -> Seq<char> {
        if self.float {
            self.align.class_text() + seq![' '] + FLOAT_CLASS@
        } else {
            self.align.class_text()
        }
    }

    /// The classes of a container placed so.
    pub fn html_class(self) -> (class: String)
        ensures
            class@ == self.class_text(),
    {
        let mut class = String::new();
        class.append(self.align.html_class());
        if self.float {
            class.push(' ');
            class.append(FLOAT_CLASS);
        }
        assert(class@ =~= self.class_text());
        class
    }
}

/// Whether a character may stand in the name of an attribute: an ASCII letter
/// or digit, a hyphen, an underscore or a colon.
pub open spec fn is_name_char(c: char) -> bool {
    ('a' <= c <= 'z') || ('A' <= c <= 'Z') || ('0' <= c <= '9') || c == '-' || c == '_' || c == ':'
}

/// Whether a text can be the name of an attribute: not empty, and made of
/// characters that a name may hold.
pub open spec fn is_attribute_name(name: Seq<char>) -> bool {
    name.len() > 0 && forall|i: int| 0 <= i < name.len() ==> is_name_char(#[trigger] name[i])
}

/// Attributes that are handed through to the page as they were written, in the
/// order in which they were first given. Every name can be the name of an
/// attribute, and none occurs twice.
#[derive(Debug)]
pub struct AttributeMap {
    entries: Vec<(String, String)>,
}

/// The texts of a list of attributes.
pub open spec fn entries_view(entries: Seq<(String, String)>) -> Seq<(Seq<char>, Seq<char>)> {
    entries.map_values(|entry: (String, String)| (entry.0@, entry.1@))
}

/// Every name of the list can be the name of an attribute, and none occurs twice.
pub open spec fn well_formed_attributes(entries: Seq<(Seq<char>, Seq<char>)>) -> bool {
    &&& forall|i: int| 0 <= i < entries.len() ==> is_attribute_name(#[trigger] entries[i].0)
    &&& forall|i: int, j: int|
        0 <= i < j < entries.len() ==> (#[trigger] entries[i]).0 != (#[trigger] entries[j]).0
}

/// Whether a name occurs in a list of attributes.
pub open spec fn has_name(entries: Seq<(Seq<char>, Seq<char>)>, name: Seq<char>) -> bool {
    exists|i: int| 0 <= i < entries.len() && (#[trigger] entries[i]).0 == name
}

/// The list with one attribute set: the value takes the place of an earlier one
/// for the same name, or the attribute is added at the end.
pub open spec fn with_attribute(
    entries: Seq<(Seq<char>, Seq<char>)>,
    name: Seq<char>,
    value: Seq<char>,
) -> Seq<(Seq<char>, Seq<char>)> {
    if has_name(entries, name) {
        entries.map_values(
            |entry: (Seq<char>, Seq<char>)|
                if entry.0 == name {
                    (name, value)
                } else {
                    entry
                },
        )
    } else {
        entries.push((name, value))
    }
}

impl View for AttributeMap {
    type V = Seq<(Seq<char>, Seq<char>)>;

    closed spec fn view(&self) -> Seq<(Seq<char>, Seq<char>)> {
        entries_view(self.entries@)
    }
}

/// Whether a text can be the name of an attribute.
pub fn check_attribute_name(name: &str) -> (valid: bool)
    ensures
        valid == is_attribute_name(name@),
{
    let chars = chars_of(name);
    if chars.len() == 0 {
        return false;
    }
    let mut i: usize = 0;
    while i < chars.len()
        invariant
            i <= chars.len(),
            chars@ == name@,
            forall|k: int| 0 <= k < i ==> is_name_char(#[trigger] chars@[k]),
        decreases chars.len() - i,
    {
        let c = chars[i];
        let valid = ('a' <= c && c <= 'z') || ('A' <= c && c <= 'Z') || ('0' <= c && c <= '9') || c
            == '-' || c == '_' || c == ':';
        if !valid {
            return false;
        }
        i += 1;
    }
    true
}

impl AttributeMap {
    /// The invariant of the type: every name can be the name of an attribute,
    /// and none occurs twice.
    pub open spec fn well_formed(&self) -> bool {
        well_formed_attributes(self@)
    }

    /// No attributes.
    pub fn new() -> (map: AttributeMap)
        ensures
            map@ == Seq::<(Seq<char>, Seq<char>)>::empty(),
            map.well_formed(),
    {
        let map = AttributeMap { entries: Vec::new() };
        assert(map@ =~= Seq::<(Seq<char>, Seq<char>)>::empty());
        map
    }

    /// How many attributes there are.
    pub fn len(&self) -> (count: usize)
        ensures
            count == self@.len(),
    {
        self.entries.len()
    }

    /// The name of the attribute at a place.
    pub fn key(&self, index: usize) -> (name: &str)
        requires
            index < self@.len(),
        ensures
            name@ == self@[index as int].0,
    {
        self.entries[index].0.as_str()
    }

    /// The value of the attribute at a place.
    pub fn value(&self, index: usize) -> (value: &str)
        requires
            index < self@.len(),
        ensures
            value@ == self@[index as int].1,
    {
        self.entries[index].1.as_str()
    }

    /// The value that is set for a name, if any.
    pub fn get(&self, name: &str) -> (value: Option<&str>)
        ensures
            match value {
                Some(found) => exists|i: int|
                    0 <= i < self@.len() && (#[trigger] self@[i]) == (name@, found@),
                None => !has_name(self@, name@),
            },
    {
        let mut i: usize = 0;
        while i < self.entries.len()
            invariant
                i <= self.entries.len(),
                forall|k: int| 0 <= k < i ==> (#[trigger] self@[k]).0 != name@,
            decreases self.entries.len() - i,
        {
            if str_eq(self.entries[i].0.as_str(), name) {
                assert(self@[i as int] == (name@, self.entries[i as int].1@));
                return Some(self.entries[i].1.as_str());
            }
            i += 1;
        }
        None
    }

    /// Sets an attribute. A text that cannot be the name of an attribute is
    /// refused, and the map stays as it is.
    pub fn insert(&mut self, name: &str, value: &str) -> (accepted: bool)
        requires
            old(self).well_formed(),
        ensures
            final(self).well_formed(),
            accepted == is_attribute_name(name@),
            accepted ==> final(self)@ == with_attribute(old(self)@, name@, value@),
            !accepted ==> final(self)@ == old(self)@,
    {
        if !check_attribute_name(name) {
            return false;
        }
        let ghost before = self@;
        let mut i: usize = 0;
        while i < self.entries.len()
            invariant
                i <= self.entries.len(),
                self@ == before,
                before == old(self)@,
                is_attribute_name(name@),
                well_formed_attributes(before),
                forall|k: int| 0 <= k < i ==> (#[trigger] before[k]).0 != name@,
            decreases self.entries.len() - i,
        {
            if str_eq(self.entries[i].0.as_str(), name) {
                self.entries.set(i, (name.to_owned(), value.to_owned()));
                proof {
                    assert(before[i as int].0 == name@);
                    assert(self@ =~= with_attribute(before, name@, value@));
                }
                return true;
            }
            i += 1;
        }
        self.entries.push((name.to_owned(), value.to_owned()));
        proof {
            assert(self@ =~= with_attribute(before, name@, value@));
        }
        true
    }
}

} // verus!
