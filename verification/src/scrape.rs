//! Reading image and anchor elements out of page markup.
//!
//! Markup parsing is the `scraper` crate's job. Parsing is a
//! deterministic function of the markup bytes, so what it finds — the
//! image elements with their source attributes, and the anchor elements
//! with their reference attribute — is named by uninterpreted spec
//! functions and trusted at the two wrappers below.

use vstd::prelude::*;

use crate::bytes::opt_view;

verus! {

/// The view of one image element: its source attribute and its
/// lazy-load source attribute.
pub open spec fn elem_view(e: (Option<Vec<u8>>, Option<Vec<u8>>)) -> (
    Option<Seq<u8>>,
    Option<Seq<u8>>,
) {
    (opt_view(e.0), opt_view(e.1))
}

/// The views of a sequence of image elements.
pub open spec fn elem_views(s: Seq<(Option<Vec<u8>>, Option<Vec<u8>>)>) -> Seq<
    (Option<Seq<u8>>, Option<Seq<u8>>),
> {
    s.map_values(|e: (Option<Vec<u8>>, Option<Vec<u8>>)| elem_view(e))
}

/// The views of a sequence of anchor attributes.
pub open spec fn opt_views(s: Seq<Option<Vec<u8>>>) -> Seq<Option<Seq<u8>>> {
    s.map_values(|o: Option<Vec<u8>>| opt_view(o))
}

/// The `img` elements of the markup, in document order, each as its
/// `src` and `data-src` attributes.
pub uninterp spec fn img_elements_of(html: Seq<u8>) -> Seq<(Option<Seq<u8>>, Option<Seq<u8>>)>;

/// The `href` attributes of the markup's `a` elements, in document
/// order.
pub uninterp spec fn anchor_hrefs_of(html: Seq<u8>) -> Seq<Option<Seq<u8>>>;

/// Relies on `scraper::Html::parse_document` and
/// `scraper::ElementRef::attr`: the `img` elements of the parsed
/// markup in document order, with their `src` and `data-src`
/// attributes; a function of the markup bytes alone.
#[verifier::external_body]
pub(crate) fn scrape_img_elements(html: &[u8]) -> (r: Vec<(Option<Vec<u8>>, Option<Vec<u8>>)>)
    ensures
        elem_views(r@) == img_elements_of(html@),
{
    let text = String::from_utf8_lossy(html);
    let doc = scraper::Html::parse_document(&text);
    let sel = scraper::Selector::parse("img").unwrap();
    doc.select(&sel).map(|e| {
        (
            e.value().attr("src").map(|a| a.as_bytes().to_vec()),
            e.value().attr("data-src").map(|a| a.as_bytes().to_vec()),
        )
    }).collect()
}

/// Relies on `scraper::Html::parse_document` and
/// `scraper::ElementRef::attr`: the `href` attributes of the parsed
/// markup's `a` elements in document order; a function of the markup
/// bytes alone.
#[verifier::external_body]
pub(crate) fn scrape_anchor_hrefs(html: &[u8]) -> (r: Vec<Option<Vec<u8>>>)
    ensures
        opt_views(r@) == anchor_hrefs_of(html@),
{
    let text = String::from_utf8_lossy(html);
    let doc = scraper::Html::parse_document(&text);
    let sel = scraper::Selector::parse("a").unwrap();
    doc.select(&sel).map(|e| e.value().attr("href").map(|a| a.as_bytes().to_vec())).collect()
}

} // verus!
