//! The page that is being written.

use crate::render::handle::{Handle, PageInfo, WikitextSettings};
use crate::render::html::escape::{escape, escape_into};
use crate::tree::AttributeMap;
use vstd::prelude::*;
use vstd::string::StringExecFns;

verus! {

/// An attribute with its value: a space, the name, and the escaped value
/// between double quotes.
pub open spec fn attribute_text(name: Seq<char>, value: Seq<char>) -> Seq<char> {
    seq![' '] + name + seq!['=', '"'] + escape(value) + seq!['"']
}

/// An attribute without a value: a space and the name.
pub open spec fn flag_text(name: Seq<char>) -> Seq<char> {
    seq![' '] + name
}

/// A list of attributes, each with its value, in their order.
pub open spec fn attributes_text(entries: Seq<(Seq<char>, Seq<char>)>) -> Seq<char>
    decreases entries.len(),
{
    if entries.len() == 0 {
        Seq::empty()
    } else {
        attributes_text(entries.drop_last()) + attribute_text(entries.last().0, entries.last().1)
    }
}

/// The start of an opening tag, before its attributes.
pub open spec fn tag_start_text(name: Seq<char>) -> Seq<char> {
    seq!['<'] + name
}

/// A closing tag.
pub open spec fn tag_end_text(name: Seq<char>) -> Seq<char> {
    seq!['<', '/'] + name + seq!['>']
}

/// What a page is rendered with, and the HTML written so far.
pub struct HtmlContext<'a, H: Handle> {
    buffer: String,
    handle: &'a H,
    info: &'a PageInfo,
    settings: &'a WikitextSettings,
}

impl<'a, H: Handle> HtmlContext<'a, H> {
    /// The HTML written so far.
    pub closed spec fn html(&self) -> Seq<char> {
        self.buffer@
    }

    /// The answers of the site that the page is rendered for.
    pub closed spec fn site_handle(&self) -> &'a H {
        self.handle
    }

    /// The page that is rendered.
    pub closed spec fn page_info(&self) -> PageInfo {
        *self.info
    }

    /// The choices of the site.
    pub closed spec fn site_settings(&self) -> WikitextSettings {
        *self.settings
    }

    /// The two contexts render the same page for the same site.
    pub open spec fn same_page(&self, other: &Self) -> bool {
        self.site_handle() == other.site_handle() && self.page_info() == other.page_info()
            && self.site_settings() == other.site_settings()
    }

    /// A context with nothing written.
    pub fn new(info: &'a PageInfo, handle: &'a H, settings: &'a WikitextSettings) -> (ctx: Self)
        ensures
            ctx.html() == Seq::<char>::empty(),
            ctx.site_handle() == handle,
            ctx.page_info() == *info,
            ctx.site_settings() == *settings,
    {
        HtmlContext { buffer: String::new(), handle, info, settings }
    }

    /// The answers of the site.
    pub fn handle(&self) -> (handle: &'a H)
        ensures
            handle == self.site_handle(),
    {
        self.handle
    }

    /// The page that is rendered.
    pub fn info(&self) -> (info: &'a PageInfo)
        ensures
            *info == self.page_info(),
    {
        self.info
    }

    /// The choices of the site.
    pub fn settings(&self) -> (settings: &'a WikitextSettings)
        ensures
            *settings == self.site_settings(),
    {
        self.settings
    }

    /// The language that messages are asked in.
    pub fn language(&self) -> (language: &'a str)
        ensures
            language@ == self.page_info().language@,
    {
        self.info.language.as_str()
    }

    /// The HTML written so far.
    pub fn buffer(&self) -> (html: &str)
        ensures
            html@ == self.html(),
    {
        self.buffer.as_str()
    }

    /// Ends the rendering and hands out what was written.
    pub fn into_html(self) -> (html: String)
        ensures
            html@ == self.html(),
    {
        self.buffer
    }

    /// Starts an opening tag.
    pub fn tag_start(&mut self, name: &str)
        ensures
            final(self).html() == old(self).html() + tag_start_text(name@),
            final(self).same_page(old(self)),
    {
        self.buffer.push('<');
        self.buffer.append(name);
        assert(self.buffer@ =~= old(self).buffer@ + tag_start_text(name@));
    }

    /// Writes an attribute with its value.
    pub fn attribute(&mut self, name: &str, value: &str)
        ensures
            final(self).html() == old(self).html() + attribute_text(name@, value@),
            final(self).same_page(old(self)),
    {
        self.buffer.push(' ');
        self.buffer.append(name);
        self.buffer.push('=');
        self.buffer.push('"');
        escape_into(&mut self.buffer, value);
        self.buffer.push('"');
        assert(self.buffer@ =~= old(self).buffer@ + attribute_text(name@, value@));
    }

    /// Writes an attribute that has no value.
    pub fn flag(&mut self, name: &str)
        ensures
            final(self).html() == old(self).html() + flag_text(name@),
            final(self).same_page(old(self)),
    {
        self.buffer.push(' ');
        self.buffer.append(name);
        assert(self.buffer@ =~= old(self).buffer@ + flag_text(name@));
    }

    /// Writes the attributes of a map, all of them and in their order.
    pub fn attributes(&mut self, map: &AttributeMap)
        ensures
            final(self).html() == old(self).html() + attributes_text(map@),
            final(self).same_page(old(self)),
    {
        let mut i: usize = 0;
        assert(map@.take(0) =~= Seq::<(Seq<char>, Seq<char>)>::empty());
        assert(old(self).html() + attributes_text(map@.take(0)) =~= old(self).html());
        while i < map.len()
            invariant
                i <= map@.len(),
                self.html() == old(self).html() + attributes_text(map@.take(i as int)),
                self.same_page(old(self)),
            decreases map@.len() - i,
        {
            self.attribute(map.key(i), map.value(i));
            proof {
                assert(map@.take(i + 1).drop_last() =~= map@.take(i as int));
                assert(self.html() =~= old(self).html() + attributes_text(map@.take(i + 1)));
            }
            i += 1;
        }
        assert(map@.take(i as int) =~= map@);
    }

    /// Ends an opening tag.
    pub fn tag_finish(&mut self)
        ensures
            final(self).html() == old(self).html() + seq!['>'],
            final(self).same_page(old(self)),
    {
        self.buffer.push('>');
        assert(self.buffer@ =~= old(self).buffer@ + seq!['>']);
    }

    /// Writes a closing tag.
    pub fn tag_end(&mut self, name: &str)
        ensures
            final(self).html() == old(self).html() + tag_end_text(name@),
            final(self).same_page(old(self)),
    {
        self.buffer.push('<');
        self.buffer.push('/');
        self.buffer.append(name);
        self.buffer.push('>');
        assert(self.buffer@ =~= old(self).buffer@ + tag_end_text(name@));
    }

    /// Writes text, escaped.
    pub fn text(&mut self, text: &str)
        ensures
            final(self).html() == old(self).html() + escape(text@),
            final(self).same_page(old(self)),
    {
        escape_into(&mut self.buffer, text);
    }
}

} // verus!
