//! Reading the few HTML elements the icon search needs, through the `scraper`
//! crate's HTML5 parser, as plain values.

use vstd::prelude::*;
use crate::weburl::opt_view;

verus! {

/// Attributes of one `<link rel=...>` element.
pub struct LinkTag {
    pub rel: String,
    pub href: Option<String>,
    pub sizes: Option<String>,
    pub mime_type: Option<String>,
}

pub struct LinkTagView {
    pub rel: Seq<char>,
    pub href: Option<Seq<char>>,
    pub sizes: Option<Seq<char>>,
    pub mime_type: Option<Seq<char>>,
}

impl View for LinkTag {
    type V = LinkTagView;

    open spec fn view(&self) -> LinkTagView {
        LinkTagView {
            rel: self.rel@,
            href: opt_view(self.href),
            sizes: opt_view(self.sizes),
            mime_type: opt_view(self.mime_type),
        }
    }
}

pub open spec fn link_views(v: Seq<LinkTag>) -> Seq<LinkTagView> {
    v.map_values(|t: LinkTag| t@)
}

pub open spec fn opt_views(v: Seq<Option<String>>) -> Seq<Option<Seq<char>>> {
    v.map_values(|o: Option<String>| opt_view(o))
}

/// Text of the document's first `<title>` element, if it has one.
pub uninterp spec fn html_title(html: Seq<char>) -> Option<Seq<char>>;

/// The `link[rel]` elements of the document, in document order.
pub uninterp spec fn html_links(html: Seq<char>) -> Seq<LinkTagView>;

/// The `content` attribute of each `meta[property='og:image']` element.
pub uninterp spec fn html_og_images(html: Seq<char>) -> Seq<Option<Seq<char>>>;

/// The `href` of the document's first `base[href]` element.
pub uninterp spec fn html_base_href(html: Seq<char>) -> Option<Seq<char>>;

/// Parses the document with `scraper::Html::parse_document` and concatenates
/// the text of the first element matching `title`. The result is named
/// `html_title` of the source text; nothing more is stated.
#[verifier::external_body]
pub(crate) fn first_title_text(html: &str) -> (r: Option<String>)
    ensures
        opt_view(r) == html_title(html@),
{
    let document = scraper::Html::parse_document(html);
    let selector = scraper::Selector::parse("title").expect("static selector");
    document.select(&selector).next().map(|element| element.text().collect::<String>())
}

/// Parses the document with `scraper::Html::parse_document` and reads the
/// `rel`, `href`, `sizes` and `type` attributes of every element matching
/// `link[rel]`. The result is named `html_links` of the source text.
#[verifier::external_body]
pub(crate) fn link_tags(html: &str) -> (r: Vec<LinkTag>)
    ensures
        link_views(r@) == html_links(html@),
{
    let document = scraper::Html::parse_document(html);
    let selector = scraper::Selector::parse("link[rel]").expect("static selector");
    document
        .select(&selector)
        .map(|element| {
            let value = element.value();
            LinkTag {
                rel: value.attr("rel").unwrap_or("").to_string(),
                href: value.attr("href").map(|text| text.to_string()),
                sizes: value.attr("sizes").map(|text| text.to_string()),
                mime_type: value.attr("type").map(|text| text.to_string()),
            }
        })
        .collect()
}

/// Parses the document with `scraper::Html::parse_document` and reads the
/// `content` attribute of every element matching
/// `meta[property='og:image']`. The result is named `html_og_images`.
#[verifier::external_body]
pub(crate) fn og_image_contents(html: &str) -> (r: Vec<Option<String>>)
    ensures
        opt_views(r@) == html_og_images(html@),
{
    let document = scraper::Html::parse_document(html);
    let selector = scraper::Selector::parse("meta[property='og:image']").expect("static selector");
    document
        .select(&selector)
        .map(|element| element.value().attr("content").map(|text| text.to_string()))
        .collect()
}

/// Parses the document with `scraper::Html::parse_document` and reads the
/// `href` of the first element matching `base[href]`. The result is named
/// `html_base_href`.
#[verifier::external_body]
pub(crate) fn base_href(html: &str) -> (r: Option<String>)
    ensures
        opt_view(r) == html_base_href(html@),
{
    let document = scraper::Html::parse_document(html);
    let selector = scraper::Selector::parse("base[href]").expect("static selector");
    document
        .select(&selector)
        .next()
        .and_then(|element| element.value().attr("href"))
        .map(|text| text.to_string())
}

} // verus!
