//! What the renderer asks of the site it renders for.

use crate::tree::{ImageSource, LinkLocation};
use vstd::prelude::*;
use vstd::string::StringExecFns;

verus! {

/// The page that is rendered.
#[derive(Debug)]
pub struct PageInfo {
    /// The slug of the site.
    pub site: String,
    /// The slug of the page.
    pub page: String,
    /// The tag of the language that messages are asked in.
    pub language: String,
}

/// The choices that a site makes for its wikitext.
#[derive(Debug, Copy, Clone, PartialEq, Eq, Structural)]
pub struct WikitextSettings {
    /// Whether sources outside the site are refused.
    pub strict: bool,
}

/// The text of an answer that may be missing.
pub open spec fn answer_text(answer: Option<String>) -> Option<Seq<char>> {
    match answer {
        Some(text) => Some(text@),
        None => None,
    }
}

/// The answers of the site. The renderer asks, and takes what it is told: each
/// answer depends on the question alone, so that the same tree always gives the
/// same page.
pub trait Handle {
    /// The address under which an image is found, if the site knows one.
    open spec fn image_link(
        &self,
        source: ImageSource,
        info: PageInfo,
        settings: WikitextSettings,
    ) -> Option<Seq<char>> {
        arbitrary()
    }

    /// The message with the given key, in the given language.
    open spec fn message(&self, language: Seq<char>, key: Seq<char>) -> Seq<char> {
        arbitrary()
    }

    /// The address that a link leads to.
    open spec fn link(&self, location: LinkLocation) -> Seq<char> {
        arbitrary()
    }

    /// Asks for the address of an image.
    fn get_image_link(
        &self,
        source: &ImageSource,
        info: &PageInfo,
        settings: &WikitextSettings,
    ) -> (url: Option<String>)
        ensures
            answer_text(url) == self.image_link(*source, *info, *settings),
    ;

    /// Asks for a message.
    fn get_message(&self, language: &str, key: &str) -> (message: String)
        ensures
            message@ == self.message(language@, key@),
    ;

    /// Asks for the address of a link.
    fn normalize_link(&self, location: &LinkLocation) -> (url: String)
        ensures
            url@ == self.link(*location),
    ;
}

} // verus!

verus! {

/// A site that knows nothing: an image has an address only where the source
/// gives one outright, a message is its own key, and a link leads to the
/// address it names or to the page of that slug on this site.
#[derive(Debug, Copy, Clone, PartialEq, Eq, Structural)]
pub struct NullHandle;

impl Handle for NullHandle {
    open spec fn image_link(
        &self,
        source: ImageSource,
        info: PageInfo,
        settings: WikitextSettings,
    ) -> Option<Seq<char>> {
        match source {
            ImageSource::Url(url) => Some(url@),
            _ => None,
        }
    }

    open spec fn message(&self, language: Seq<char>, key: Seq<char>) -> Seq<char> {
        key
    }

    open spec fn link(&self, location: LinkLocation) -> Seq<char> {
        match location {
            LinkLocation::Url(url) => url@,
            LinkLocation::Page(page) => seq!['/'] + page.page@,
        }
    }

    fn get_image_link(
        &self,
        source: &ImageSource,
        info: &PageInfo,
        settings: &WikitextSettings,
    ) -> (url: Option<String>) {
        match source {
            ImageSource::Url(url) => Some(url.clone()),
            _ => None,
        }
    }

    fn get_message(&self, language: &str, key: &str) -> (message: String) {
        key.to_owned()
    }

    fn normalize_link(&self, location: &LinkLocation) -> (url: String) {
        match location {
            LinkLocation::Url(url) => url.clone(),
            LinkLocation::Page(page) => {
                let mut url = String::new();
                url.push('/');
                url.append(page.page.as_str());
                assert(url@ =~= seq!['/'] + page.page@);
                url
            },
        }
    }
}

} // verus!
