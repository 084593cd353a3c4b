//! Images.

use crate::render::handle::{Handle, PageInfo, WikitextSettings};
use crate::render::html::context::{
    attribute_text, attributes_text, flag_text, tag_end_text, tag_start_text, HtmlContext,
};
use crate::render::html::escape::escape;
use crate::tree::{AttributeMap, FloatAlignment, ImageSource, LinkLocation};
use vstd::prelude::*;
use vstd::string::StringExecFns;

verus! {

/// The class of the block around an image.
pub const CONTAINER_CLASS: &'static str = "wj-image-container";

/// The class of an image.
pub const IMAGE_CLASS: &'static str = "wj-image";

/// The class of the block that stands where something could not be shown.
pub const ERROR_CLASS: &'static str = "wj-error-block";

/// The key of the message for an image that was not found.
pub const MISSING_MESSAGE: &'static str = "image-context-bad";

/// The classes of the block around an image: the class of such blocks and,
/// where the image is placed, those of its placement after a space.
pub open spec fn container_class(alignment: Option<FloatAlignment>) -> Seq<char> {
    match alignment {
        Some(placed) => CONTAINER_CLASS@ + seq![' '] + placed.class_text(),
        None => CONTAINER_CLASS@,
    }
}

/// The tag of an image: its class, its address, the flag that lets it be
/// loaded from elsewhere, and then every attribute that was handed through.
pub open spec fn image_tag(url: Seq<char>, attributes: Seq<(Seq<char>, Seq<char>)>) -> Seq<char> {
    tag_start_text("img"@) + attribute_text("class"@, IMAGE_CLASS@) + attribute_text("src"@, url)
        + flag_text("crossorigin"@) + attributes_text(attributes) + seq!['>']
}

/// The block for an image that was found: the image in its block, inside a
/// link where it has one.
pub open spec fn image_html(
    url: Seq<char>,
    href: Option<Seq<char>>,
    alignment: Option<FloatAlignment>,
    attributes: Seq<(Seq<char>, Seq<char>)>,
) -> Seq<char> {
    let inner = match href {
        Some(target) => tag_start_text("a"@) + attribute_text("href"@, target) + seq!['>']
            + image_tag(url, attributes) + tag_end_text("a"@),
        None => image_tag(url, attributes),
    };
    tag_start_text("div"@) + attribute_text("class"@, container_class(alignment)) + seq!['>']
        + inner + tag_end_text("div"@)
}

/// The block that stands for an image that was not found: the message, escaped,
/// in a block of the class for errors.
pub open spec fn missing_html(message: Seq<char>) -> Seq<char> {
    tag_start_text("div"@) + attribute_text("class"@, ERROR_CLASS@) + seq!['>'] + escape(message)
        + tag_end_text("div"@)
}

/// The address that the link around an image leads to, as the site gives it.
pub open spec fn link_target<H: Handle>(handle: &H, link: Option<LinkLocation>) -> Option<
    Seq<char>,
> {
    match link {
        Some(location) => Some(handle.link(location)),
        None => None,
    }
}

/// What is written for an image: its block where the site knows its address,
/// and the block for a missing image where it does not.
pub open spec fn image_block<H: Handle>(
    handle: &H,
    info: PageInfo,
    settings: WikitextSettings,
    source: ImageSource,
    link: Option<LinkLocation>,
    alignment: Option<FloatAlignment>,
    attributes: Seq<(Seq<char>, Seq<char>)>,
) -> Seq<char> {
    match handle.image_link(source, info, settings) {
        Some(url) => image_html(url, link_target(handle, link), alignment, attributes),
        None => missing_html(handle.message(info.language@, MISSING_MESSAGE@)),
    }
}

/// Writes an image. The site is asked for the address of the image; where it
/// has none, the block for a missing image is written in its place.
pub fn render_image<H: Handle>(
    ctx: &mut HtmlContext<'_, H>,
    source: &ImageSource,
    link: &Option<LinkLocation>,
    alignment: Option<FloatAlignment>,
    attributes: &AttributeMap,
)
    ensures
        final(ctx).html() == old(ctx).html() + image_block(
            old(ctx).site_handle(),
            old(ctx).page_info(),
            old(ctx).site_settings(),
            *source,
            *link,
            alignment,
            attributes@,
        ),
        final(ctx).same_page(old(ctx)),
{
    let source_url = ctx.handle().get_image_link(source, ctx.info(), ctx.settings());
    match source_url {
        // Found URL
        Some(url) => render_image_element(ctx, url.as_str(), link, alignment, attributes),
        // Missing or error
        None => render_image_missing(ctx),
    }
}

fn write_image_tag<H: Handle>(ctx: &mut HtmlContext<'_, H>, url: &str, attributes: &AttributeMap)
    ensures
        final(ctx).html() == old(ctx).html() + image_tag(url@, attributes@),
        final(ctx).same_page(old(ctx)),
{
    ctx.tag_start("img");
    ctx.attribute("class", IMAGE_CLASS);
    ctx.attribute("src", url);
    ctx.flag("crossorigin");
    ctx.attributes(attributes);
    ctx.tag_finish();
    assert(ctx.html() =~= old(ctx).html() + image_tag(url@, attributes@));
}

/// Writes the block for an image whose address is known.
pub fn render_image_element<H: Handle>(
    ctx: &mut HtmlContext<'_, H>,
    url: &str,
    link: &Option<LinkLocation>,
    alignment: Option<FloatAlignment>,
    attributes: &AttributeMap,
)
    ensures
        final(ctx).html() == old(ctx).html() + image_html(
            url@,
            link_target(old(ctx).site_handle(), *link),
            alignment,
            attributes@,
        ),
        final(ctx).same_page(old(ctx)),
{
    let mut class = String::new();
    class.append(CONTAINER_CLASS);
    if let Some(placed) = alignment {
        class.push(' ');
        let placement = placed.html_class();
        class.append(placement.as_str());
    }
    assert(class@ =~= container_class(alignment));

    ctx.tag_start("div");
    ctx.attribute("class", class.as_str());
    ctx.tag_finish();
    match link {
        Some(location) => {
            let target = ctx.handle().normalize_link(location);
            ctx.tag_start("a");
            ctx.attribute("href", target.as_str());
            ctx.tag_finish();
            write_image_tag(ctx, url, attributes);
            ctx.tag_end("a");
        },
        None => {
            write_image_tag(ctx, url, attributes);
        },
    }
    ctx.tag_end("div");
    assert(ctx.html() =~= old(ctx).html() + image_html(
        url@,
        link_target(old(ctx).site_handle(), *link),
        alignment,
        attributes@,
    ));
}

/// Writes the block that stands for an image that was not found.
pub fn render_image_missing<H: Handle>(ctx: &mut HtmlContext<'_, H>)
    ensures
        final(ctx).html() == old(ctx).html() + missing_html(
            old(ctx).site_handle().message(old(ctx).page_info().language@, MISSING_MESSAGE@),
        ),
        final(ctx).same_page(old(ctx)),
{
    let message = ctx.handle().get_message(ctx.language(), MISSING_MESSAGE);
    ctx.tag_start("div");
    ctx.attribute("class", ERROR_CLASS);
    ctx.tag_finish();
    ctx.text(message.as_str());
    ctx.tag_end("div");
    assert(ctx.html() =~= old(ctx).html() + missing_html(message@));
}

} // verus!
