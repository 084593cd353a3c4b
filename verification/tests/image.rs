use ftml::render::handle::{Handle, NullHandle, PageInfo, WikitextSettings};
use ftml::render::html::context::HtmlContext;
use ftml::render::html::element::image::{render_image, render_image_element, render_image_missing};
use ftml::render::html::escape::escape_into;
use ftml::tree::{Alignment, AttributeMap, FloatAlignment, ImageSource, LinkLocation, PageRef};

/// A site that knows addresses given outright and the files of the page itself.
struct Site;

impl Handle for Site {
    fn get_image_link(
        &self,
        source: &ImageSource,
        info: &PageInfo,
        _settings: &WikitextSettings,
    ) -> Option<String> {
        match source {
            ImageSource::Url(url) => Some(url.clone()),
            ImageSource::File1 { file } => Some(format!("/local--files/{}/{}", info.page, file)),
            _ => None,
        }
    }

    fn get_message(&self, language: &str, key: &str) -> String {
        format!("<{}:{}>", language, key)
    }

    fn normalize_link(&self, location: &LinkLocation) -> String {
        match location {
            LinkLocation::Url(url) => url.clone(),
            LinkLocation::Page(PageRef { site: None, page }) => format!("/{}", page),
            LinkLocation::Page(PageRef { site: Some(site), page }) => {
                format!("https://{}.example.com/{}", site, page)
            }
        }
    }
}

fn info() -> PageInfo {
    PageInfo {
        site: String::from("www"),
        page: String::from("some-page"),
        language: String::from("en"),
    }
}

const SETTINGS: WikitextSettings = WikitextSettings { strict: false };

fn rendered(
    source: ImageSource,
    link: Option<LinkLocation>,
    alignment: Option<FloatAlignment>,
    attributes: &AttributeMap,
) -> String {
    let info = info();
    let mut ctx = HtmlContext::new(&info, &Site, &SETTINGS);
    render_image(&mut ctx, &source, &link, alignment, attributes);
    ctx.into_html()
}

#[test]
fn plain_image() {
    assert_eq!(
        rendered(
            ImageSource::Url(String::from("https://example.com/a.png")),
            None,
            None,
            &AttributeMap::new()
        ),
        "<div class=\"wj-image-container\"><img class=\"wj-image\" src=\"https://example.com/a.png\" crossorigin></div>"
    );
}

#[test]
fn image_of_the_page() {
    assert_eq!(
        rendered(
            ImageSource::File1 { file: String::from("b.png") },
            None,
            None,
            &AttributeMap::new()
        ),
        "<div class=\"wj-image-container\"><img class=\"wj-image\" src=\"/local--files/some-page/b.png\" crossorigin></div>"
    );
}

#[test]
fn linked_image() {
    assert_eq!(
        rendered(
            ImageSource::Url(String::from("a.png")),
            Some(LinkLocation::Page(PageRef { site: None, page: String::from("target") })),
            None,
            &AttributeMap::new()
        ),
        "<div class=\"wj-image-container\"><a href=\"/target\"><img class=\"wj-image\" src=\"a.png\" crossorigin></a></div>"
    );
    assert_eq!(
        rendered(
            ImageSource::Url(String::from("a.png")),
            Some(LinkLocation::Url(String::from("https://example.com/?a=1&b=2"))),
            None,
            &AttributeMap::new()
        ),
        "<div class=\"wj-image-container\"><a href=\"https://example.com/?a=1&amp;b=2\"><img class=\"wj-image\" src=\"a.png\" crossorigin></a></div>"
    );
}

#[test]
fn placed_image() {
    let left = FloatAlignment { align: Alignment::Left, float: false };
    let floating = FloatAlignment { align: Alignment::Right, float: true };
    assert_eq!(
        rendered(ImageSource::Url(String::from("a.png")), None, Some(left), &AttributeMap::new()),
        "<div class=\"wj-image-container wj-align-left\"><img class=\"wj-image\" src=\"a.png\" crossorigin></div>"
    );
    assert_eq!(
        rendered(
            ImageSource::Url(String::from("a.png")),
            None,
            Some(floating),
            &AttributeMap::new()
        ),
        "<div class=\"wj-image-container wj-align-right wj-float\"><img class=\"wj-image\" src=\"a.png\" crossorigin></div>"
    );
}

#[test]
fn attributes_are_handed_through_in_order() {
    let mut attributes = AttributeMap::new();
    assert!(attributes.insert("width", "100"));
    assert!(attributes.insert("alt", "a \"b\" <c>"));
    assert!(attributes.insert("data-x", "it's"));
    assert_eq!(
        rendered(ImageSource::Url(String::from("a.png")), None, None, &attributes),
        "<div class=\"wj-image-container\"><img class=\"wj-image\" src=\"a.png\" crossorigin width=\"100\" alt=\"a &quot;b&quot; &lt;c&gt;\" data-x=\"it&#39;s\"></div>"
    );
}

#[test]
fn missing_image_is_the_error_block() {
    let expected = "<div class=\"wj-error-block\">&lt;en:image-context-bad&gt;</div>";
    assert_eq!(
        rendered(
            ImageSource::File2 { page: String::from("p"), file: String::from("f.png") },
            Some(LinkLocation::Url(String::from("https://example.com/"))),
            Some(FloatAlignment { align: Alignment::Center, float: true }),
            &AttributeMap::new()
        ),
        expected
    );
    assert_eq!(
        rendered(
            ImageSource::File3 {
                site: String::from("s"),
                page: String::from("p"),
                file: String::from("f.png")
            },
            None,
            None,
            &AttributeMap::new()
        ),
        expected
    );
}

#[test]
fn rendering_appends_to_what_was_written() {
    let info = info();
    let mut ctx = HtmlContext::new(&info, &Site, &SETTINGS);
    ctx.text("a<b");
    render_image_missing(&mut ctx);
    render_image_element(&mut ctx, "x.png", &None, None, &AttributeMap::new());
    assert_eq!(
        ctx.buffer(),
        "a&lt;b<div class=\"wj-error-block\">&lt;en:image-context-bad&gt;</div><div class=\"wj-image-container\"><img class=\"wj-image\" src=\"x.png\" crossorigin></div>"
    );
    assert_eq!(ctx.language(), "en");
    assert_eq!(ctx.info().page, "some-page");
    assert!(!ctx.settings().strict);
}

#[test]
fn escaping() {
    let mut buffer = String::from("x");
    escape_into(&mut buffer, "a & b < c > d \" e ' f \u{e9}");
    assert_eq!(buffer, "xa &amp; b &lt; c &gt; d &quot; e &#39; f \u{e9}");
    let mut plain = String::new();
    escape_into(&mut plain, "nothing to escape");
    assert_eq!(plain, "nothing to escape");
}

#[test]
fn attribute_map() {
    let mut attributes = AttributeMap::new();
    assert_eq!(attributes.len(), 0);
    assert!(attributes.insert("id", "one"));
    assert!(attributes.insert("class", "a"));
    assert!(attributes.insert("id", "two"));
    assert_eq!(attributes.len(), 2);
    assert_eq!(attributes.key(0), "id");
    assert_eq!(attributes.value(0), "two");
    assert_eq!(attributes.key(1), "class");
    assert_eq!(attributes.get("class"), Some("a"));
    assert_eq!(attributes.get("style"), None);
    for name in ["", "a b", "on>click", "x=\"y\"", "caf\u{e9}"] {
        assert!(!attributes.insert(name, "v"), "{:?} was accepted", name);
    }
    assert_eq!(attributes.len(), 2);
}

#[test]
fn names_and_classes() {
    assert_eq!(ImageSource::Url(String::new()).name(), "url");
    assert_eq!(ImageSource::File1 { file: String::new() }.name(), "file1");
    assert_eq!(
        ImageSource::File2 { page: String::new(), file: String::new() }.name(),
        "file2"
    );
    assert_eq!(
        ImageSource::File3 { site: String::new(), page: String::new(), file: String::new() }
            .name(),
        "file3"
    );
    assert_eq!(Alignment::Left.name(), "left");
    assert_eq!(Alignment::Justify.name(), "justify");
    assert_eq!(Alignment::Center.html_class(), "wj-align-center");
    assert_eq!(
        FloatAlignment { align: Alignment::Justify, float: false }.html_class(),
        "wj-align-justify"
    );
    assert_eq!(
        FloatAlignment { align: Alignment::Left, float: true }.html_class(),
        "wj-align-left wj-float"
    );
}

#[test]
fn a_site_that_knows_nothing() {
    let info = info();
    let handle = NullHandle;
    let mut ctx = HtmlContext::new(&info, &handle, &SETTINGS);
    render_image(
        &mut ctx,
        &ImageSource::Url(String::from("a.png")),
        &Some(LinkLocation::Page(PageRef { site: None, page: String::from("home") })),
        None,
        &AttributeMap::new(),
    );
    render_image(
        &mut ctx,
        &ImageSource::File1 { file: String::from("a.png") },
        &None,
        None,
        &AttributeMap::new(),
    );
    assert_eq!(
        ctx.into_html(),
        "<div class=\"wj-image-container\"><a href=\"/home\"><img class=\"wj-image\" src=\"a.png\" crossorigin></a></div><div class=\"wj-error-block\">image-context-bad</div>"
    );
    assert_eq!(
        handle.normalize_link(&LinkLocation::Url(String::from("https://x"))),
        "https://x"
    );
    assert_eq!(handle.get_message("en", "some-key"), "some-key");
}
