//! Access to parsed HTML through the scraper crate.
use vstd::prelude::*;

use crate::twir_crawler::texts;

verus! {

/// Whether a CSS selector group compiles.
pub uninterp spec fn selector_parses(css: Seq<char>) -> bool;

/// The serialized markup of each element of the page `page` that the selector group `css`
/// matches, in the order in which the parsed tree is walked.
pub uninterp spec fn markup_of(css: Seq<char>, page: Seq<char>) -> Seq<Seq<char>>;

/// Relies on scraper::Selector::parse, scraper::Html::parse_document, scraper::Html::select
/// and scraper::ElementRef::html: the selector group is compiled, which succeeds or fails on
/// its text alone; the page is parsed into a tree; and each element that the selector matches
/// is serialized. With attributes kept sorted, the markup depends on the two texts alone.
#[verifier::external_body]
fn select_markup(css: &str, page: &str) -> (r: Option<Vec<String>>)
    ensures
        r is Some == selector_parses(css@),
        r matches Some(v) ==> texts(v@) == markup_of(css@, page@),
{
    let selector = scraper::Selector::parse(css).ok()?;
    let document = scraper::Html::parse_document(page);
    Some(document.select(&selector).map(|element| element.html()).collect())
}

/// The selector of anchors: `a`.
pub open spec fn anchor_selector() -> Seq<char> {
    seq!['a']
}

/// The markup of every anchor of a page; `None` exactly when the anchor selector does not
/// compile.
pub fn anchor_markup(page: &str) -> (r: Option<Vec<String>>)
    ensures
        r is Some == selector_parses(anchor_selector()),
        r matches Some(v) ==> texts(v@) == markup_of(anchor_selector(), page@),
{
    let css = "a";
    proof {
        reveal_strlit("a");
        assert(css@ =~= anchor_selector());
    }
    select_markup(css, page)
}

} // verus!
