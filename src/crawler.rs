//! Reading the archive page for the links of its issues alone, without their titles.
use vstd::prelude::*;

use crate::html::{anchor_markup, anchor_selector, markup_of, selector_parses};
use crate::twir_crawler::{
    is_issue_anchor, is_issue_markup, link_of_markup, texts, TwirCrawler,
};

verus! {

/// What can go wrong while reading the archive.
#[derive(Debug)]
pub enum CrawlerError {
    /// A request failed or answered with a status other than success.
    Request(String),
    /// The selector of anchors did not compile.
    SelectorParsing,
}

/// The links read from the pieces of markup that link to an issue, in order.
pub open spec fn issue_links_of(ms: Seq<Seq<char>>) -> Seq<Seq<char>>
    decreases ms.len(),
{
    if ms.len() == 0 {
        Seq::empty()
    } else if is_issue_markup(ms.last()) {
        issue_links_of(ms.drop_last()).push(link_of_markup(ms.last()))
    } else {
        issue_links_of(ms.drop_last())
    }
}

/// The link of each piece of anchor markup that links to an issue, in order.
pub fn issue_links_from_markup(markups: &Vec<String>) -> (r: Vec<String>)
    ensures
        texts(r@) == issue_links_of(texts(markups@)),
{
    let mut r: Vec<String> = Vec::new();
    let mut i: usize = 0;
    while i < markups.len()
        invariant
            i <= markups.len(),
            texts(r@) == issue_links_of(texts(markups@).take(i as int)),
        decreases markups.len() - i,
    {
        let ghost ms = texts(markups@);
        assert(ms.take(i + 1).drop_last() =~= ms.take(i as int));
        let m = crate::text::chars_of(markups[i].as_str());
        if is_issue_anchor(&m) {
            let ghost before = texts(r@);
            let element = TwirCrawler::extract_link_and_title(markups[i].clone());
            r.push(element.link.0);
            assert(texts(r@) =~= before.push(link_of_markup(ms[i as int])));
        }
        i = i + 1;
    }
    assert(texts(markups@).take(markups.len() as int) =~= texts(markups@));
    r
}

/// The links of the issues that an archive page lists, in the order in which the parsed page holds them.
pub fn get_latest_issue_index(archive_page: &str) -> (r: Result<Vec<String>, CrawlerError>)
    ensures
        match r {
            Ok(v) => selector_parses(anchor_selector()) && texts(v@) == issue_links_of(
                markup_of(anchor_selector(), archive_page@),
            ),
            Err(e) => !selector_parses(anchor_selector()) && e is SelectorParsing,
        },
{
    match anchor_markup(archive_page) {
        Some(markups) => {
            let links = issue_links_from_markup(&markups);
            Ok(links)
        },
        None => Err(CrawlerError::SelectorParsing),
    }
}

} // verus!
