//! Extraction of issue links from archive and issue pages, and the search over them.
use vstd::prelude::*;

use crate::cache::{corpus_of, decode_corpus, encode_corpus, encoding};
use crate::html::{anchor_markup, anchor_selector, markup_of, selector_parses};
use crate::model::{Link, TwirLinkElement};
use crate::text::{
    chars_of, contains, contains_chars, lacks, lemma_prefix_before_first,
    lemma_remove_all_absent, lemma_remove_all_concat, lemma_suffix_after_absent,
    lemma_suffix_after_last, prefix_before, prefix_before_char, remove_all, remove_all_chars,
    has_char, string_of, suffix_after, suffix_after_char,
};

verus! {

/// The markup that opens an anchor: `<a href="`.
pub open spec fn anchor_open() -> Seq<char> {
    seq!['<', 'a', ' ', 'h', 'r', 'e', 'f', '=', '"']
}

/// The markup that closes an anchor: `</a>`.
pub open spec fn anchor_close() -> Seq<char> {
    seq!['<', '/', 'a', '>']
}

/// Anchor markup with every `<a href="` taken out.
pub open spec fn stripped_markup(m: Seq<char>) -> Seq<char> {
    remove_all(m, anchor_open())
}

/// The URL read from anchor markup: what precedes the first quote once the opening is gone,
/// and nothing where no quote is left.
pub open spec fn link_of_markup(m: Seq<char>) -> Seq<char> {
    if lacks(stripped_markup(m), '"') {
        Seq::empty()
    } else {
        prefix_before(stripped_markup(m), '"')
    }
}

/// The title read from anchor markup: what follows the last quote, without `</a>` and `>`.
pub open spec fn title_of_markup(m: Seq<char>) -> Seq<char> {
    remove_all(remove_all(suffix_after(stripped_markup(m), '"'), anchor_close()), seq!['>'])
}

/// The element read from anchor markup, as (title, link).
pub open spec fn element_of_markup(m: Seq<char>) -> (Seq<char>, Seq<char>) {
    (title_of_markup(m), link_of_markup(m))
}

/// Extraction inverts the shape `<a href="URL">TITLE</a>`: it gives back exactly the URL and
/// the title, for every URL and title that hold no quote and no angle bracket.
pub proof fn lemma_extract_well_formed(url: Seq<char>, title: Seq<char>)
    requires
        lacks(url, '"'),
        lacks(url, '<'),
        lacks(url, '>'),
        lacks(title, '"'),
        lacks(title, '<'),
        lacks(title, '>'),
    ensures
        element_of_markup(anchor_open() + url + seq!['"', '>'] + title + anchor_close()) == (
        title,
        url,
    ),
{
    let a = anchor_open();
    let c = anchor_close();
    let body = url + seq!['"', '>'] + title;
    let m = a + url + seq!['"', '>'] + title + c;
    assert(m.take(a.len() as int) =~= a);
    assert(m.skip(a.len() as int) =~= body + c);
    assert(lacks(body, '<'));
    lemma_remove_all_concat(body, c, a);
    assert(remove_all(c, a) == c);
    assert(stripped_markup(m) == body + c);
    let rest = seq!['>'] + title + c;
    assert(body + c =~= url + seq!['"'] + rest);
    lemma_prefix_before_first(url, '"', rest);
    assert((body + c)[url.len() as int] == '"');
    assert(lacks(rest, '"'));
    lemma_suffix_after_last(url, '"', rest);
    let head = seq!['>'] + title;
    assert(lacks(head, '<'));
    assert(rest =~= head + c);
    lemma_remove_all_concat(head, c, c);
    assert(c.take(c.len() as int) =~= c);
    assert(c.skip(c.len() as int) =~= Seq::<char>::empty());
    assert(remove_all(c.skip(c.len() as int), c) == c.skip(c.len() as int));
    assert(remove_all(c, c) =~= Seq::<char>::empty());
    assert(remove_all(rest, c) =~= head);
    assert(head.take(1) =~= seq!['>']);
    assert(head.skip(1) =~= title);
    lemma_remove_all_absent(title, seq!['>'], 0);
}

/// Markup without any quote gives an empty link, and the title is read from all of it.
pub proof fn lemma_extract_without_quotes(m: Seq<char>)
    requires
        lacks(m, '"'),
    ensures
        link_of_markup(m) == Seq::<char>::empty(),
        title_of_markup(m) == remove_all(remove_all(m, anchor_close()), seq!['>']),
{
    lemma_remove_all_absent(m, anchor_open(), 8);
    lemma_suffix_after_absent(m, '"');
}

fn anchor_open_chars() -> (r: Vec<char>)
    ensures
        r@ == anchor_open(),
{
    let r = vec!['<', 'a', ' ', 'h', 'r', 'e', 'f', '=', '"'];
    assert(r@ =~= anchor_open());
    r
}

fn anchor_close_chars() -> (r: Vec<char>)
    ensures
        r@ == anchor_close(),
{
    let r = vec!['<', '/', 'a', '>'];
    assert(r@ =~= anchor_close());
    r
}

/// Name that marks an issue in the archive.
pub const ISSUE_BACK_BONE_THIS: &'static str = "this-week-in-rust-";

/// Name that marks an issue in the archive, as some issues were titled.
pub const ISSUE_BACK_BONE_LAST: &'static str = "last-week-in-rust-";

/// Name that marks an issue in the archive, as some issues were titled.
pub const ISSUE_BACK_BONE_THESE: &'static str = "these-weeks-in-rust-";

/// Path of the file that caches the contents of every issue.
pub const TWIR_CONTENTS_FILE_PATH: &'static str = "twir_content.json";

/// A search limit that admits every issue.
pub const UNLIMITED: i32 = 2147483647;

/// Anchor markup that links to an issue under one of its three historical names.
pub open spec fn is_issue_markup(m: Seq<char>) -> bool {
    contains(m, ISSUE_BACK_BONE_THIS@) || contains(m, ISSUE_BACK_BONE_LAST@) || contains(
        m,
        ISSUE_BACK_BONE_THESE@,
    )
}

/// The texts of a sequence of strings.
pub open spec fn texts(v: Seq<String>) -> Seq<Seq<char>> {
    v.map_values(|s: String| s@)
}

/// The (title, link) pairs of a sequence of elements.
pub open spec fn views(v: Seq<TwirLinkElement>) -> Seq<(Seq<char>, Seq<char>)> {
    v.map_values(|e: TwirLinkElement| e@)
}

/// The elements read from each piece of anchor markup, in order.
pub open spec fn elements_of(ms: Seq<Seq<char>>) -> Seq<(Seq<char>, Seq<char>)>
    decreases ms.len(),
{
    if ms.len() == 0 {
        Seq::empty()
    } else {
        elements_of(ms.drop_last()).push(element_of_markup(ms.last()))
    }
}

/// The elements read from the pieces of markup that link to an issue, in order.
pub open spec fn issues_of(ms: Seq<Seq<char>>) -> Seq<(Seq<char>, Seq<char>)>
    decreases ms.len(),
{
    if ms.len() == 0 {
        Seq::empty()
    } else if is_issue_markup(ms.last()) {
        issues_of(ms.drop_last()).push(element_of_markup(ms.last()))
    } else {
        issues_of(ms.drop_last())
    }
}

/// The entries whose title holds the query, in order.
pub open spec fn titled(es: Seq<(Seq<char>, Seq<char>)>, q: Seq<char>) -> Seq<
    (Seq<char>, Seq<char>),
>
    decreases es.len(),
{
    if es.len() == 0 {
        Seq::empty()
    } else if contains(es.last().0, q) {
        titled(es.drop_last(), q).push(es.last())
    } else {
        titled(es.drop_last(), q)
    }
}

/// The entries whose mark is set, in order.
pub open spec fn kept(es: Seq<(Seq<char>, Seq<char>)>, marks: Seq<bool>) -> Seq<
    (Seq<char>, Seq<char>),
>
    decreases es.len(),
{
    if es.len() == 0 {
        Seq::empty()
    } else if marks.last() {
        kept(es.drop_last(), marks.drop_last()).push(es.last())
    } else {
        kept(es.drop_last(), marks.drop_last())
    }
}

/// Where a search looks for results.
#[derive(Debug, Clone, Copy, PartialEq, Eq, Structural)]
pub enum SearchMode {
    /// Crawl the archive now.
    Online,
    /// Read the cached contents.
    Offline,
}

/// A search crawls when no cache is present or when the caller asks for it, and reads the
/// cache otherwise.
pub fn search_mode(cache_present: bool, online: bool) -> (r: SearchMode)
    ensures
        r == (if !cache_present || online {
            SearchMode::Online
        } else {
            SearchMode::Offline
        }),
{
    if !cache_present || online {
        SearchMode::Online
    } else {
        SearchMode::Offline
    }
}

/// The results of a search, with any failure read as no results.
pub fn results_or_empty(outcome: Result<Vec<TwirLinkElement>, CrawlerError>) -> (r: Vec<
    TwirLinkElement,
>)
    ensures
        match outcome {
            Ok(v) => r@ == v@,
            Err(_) => r@.len() == 0,
        },
{
    match outcome {
        Ok(v) => v,
        Err(_) => Vec::new(),
    }
}

/// Title filtering is literal containment: an entry stays exactly when the query occurs in its
/// title. A query that differs from the title while being at least as long, such as the title
/// in other casing, does not select it.
pub proof fn lemma_title_filter_literal(title: Seq<char>, link: Seq<char>, q: Seq<char>)
    ensures
        titled(seq![(title, link)], q) == (if contains(title, q) {
            seq![(title, link)]
        } else {
            Seq::empty()
        }),
        q.len() >= title.len() && q != title ==> titled(seq![(title, link)], q).len() == 0,
{
    let one = seq![(title, link)];
    assert(one.len() == 1);
    assert(one.drop_last().len() == 0);
    assert(titled(one.drop_last(), q) == Seq::<(Seq<char>, Seq<char>)>::empty());
    assert(one.last() == (title, link));
    assert(Seq::<(Seq<char>, Seq<char>)>::empty().push((title, link)) =~= one);
    if contains(title, q) {
        assert(titled(one, q) == titled(one.drop_last(), q).push(one.last()));
    } else {
        assert(titled(one, q) == titled(one.drop_last(), q));
    }
    if q.len() >= title.len() && q != title && contains(title, q) {
        let i = choose|i: int| 0 <= i <= title.len() - q.len() && #[trigger] title.subrange(i, i + q.len()) == q;
        assert(i == 0 && q.len() == title.len());
        assert(title.subrange(0, title.len() as int) =~= title);
    }
}

/// The issues read from a prefix of the markup are a prefix of those read from all of it.
proof fn lemma_issues_prefix(ms: Seq<Seq<char>>, k: int)
    requires
        0 <= k <= ms.len(),
    ensures
        issues_of(ms.take(k)).len() <= issues_of(ms).len(),
        forall|a: int| 0 <= a < issues_of(ms.take(k)).len() ==> #[trigger] issues_of(ms)[a]
            == issues_of(ms.take(k))[a],
    decreases ms.len(),
{
    if k == ms.len() {
        assert(ms.take(k) =~= ms);
    } else {
        assert(ms.drop_last().take(k) =~= ms.take(k));
        lemma_issues_prefix(ms.drop_last(), k);
    }
}

/// The archive keeps the order of its markup: of two pieces that each link to an issue, the
/// element of the earlier one comes first in what is read, each at a known place.
pub proof fn lemma_issues_keep_order(ms: Seq<Seq<char>>, i: int, j: int)
    requires
        0 <= i < j < ms.len(),
        is_issue_markup(ms[i]),
        is_issue_markup(ms[j]),
    ensures
        issues_of(ms.take(i)).len() < issues_of(ms.take(j)).len(),
        issues_of(ms.take(j)).len() < issues_of(ms).len(),
        issues_of(ms)[issues_of(ms.take(i)).len() as int] == element_of_markup(ms[i]),
        issues_of(ms)[issues_of(ms.take(j)).len() as int] == element_of_markup(ms[j]),
{
    assert(ms.take(i + 1).drop_last() =~= ms.take(i));
    assert(ms.take(j + 1).drop_last() =~= ms.take(j));
    assert(ms.take(i + 1).last() == ms[i]);
    assert(ms.take(j + 1).last() == ms[j]);
    lemma_issues_prefix(ms, i + 1);
    lemma_issues_prefix(ms, j + 1);
    lemma_issues_prefix(ms.take(j), i + 1);
    assert(ms.take(j).take(i + 1) =~= ms.take(i + 1));
    let ci = issues_of(ms.take(i)).len() as int;
    let cj = issues_of(ms.take(j)).len() as int;
    assert(issues_of(ms.take(i + 1))[ci] == element_of_markup(ms[i]));
    assert(issues_of(ms.take(j + 1))[cj] == element_of_markup(ms[j]));
}

/// Whether anchor markup links to an issue under one of its three historical names.
pub fn is_issue_anchor(m: &Vec<char>) -> (r: bool)
    ensures
        r == is_issue_markup(m@),
{
    contains_chars(m, &chars_of(ISSUE_BACK_BONE_THIS)) || contains_chars(
        m,
        &chars_of(ISSUE_BACK_BONE_LAST),
    ) || contains_chars(m, &chars_of(ISSUE_BACK_BONE_THESE))
}

/// The entries whose title holds `sentence`, in their order. The match is literal and
/// case-sensitive.
pub fn filter_by_title(entries: &Vec<TwirLinkElement>, sentence: &str) -> (r: Vec<
    TwirLinkElement,
>)
    ensures
        views(r@) == titled(views(entries@), sentence@),
{
    let q = chars_of(sentence);
    let mut r: Vec<TwirLinkElement> = Vec::new();
    let mut i: usize = 0;
    while i < entries.len()
        invariant
            i <= entries.len(),
            q@ == sentence@,
            views(r@) == titled(views(entries@).take(i as int), sentence@),
        decreases entries.len() - i,
    {
        let ghost es = views(entries@);
        assert(es.take(i + 1).drop_last() =~= es.take(i as int));
        let title = chars_of(entries[i].title.as_str());
        if contains_chars(&title, &q) {
            let ghost before = views(r@);
            r.push(entries[i].duplicate());
            assert(views(r@) =~= before.push(es[i as int]));
        }
        i = i + 1;
    }
    assert(views(entries@).take(entries.len() as int) =~= views(entries@));
    r
}

/// What can go wrong while crawling, caching or searching.
#[derive(Debug)]
pub enum CrawlerError {
    /// A request failed or answered with a status other than success.
    Request(String),
    /// The selector of anchors did not compile.
    SelectorParsing,
    /// Fetching or storing the contents of the issues failed.
    Fetch,
    /// Reading or writing the cache file failed.
    IO(String),
    /// The cache file does not hold a list of title and link records.
    Deserialize,
    /// A fetch task did not run to completion.
    Async(String),
}

/// Stateless crawler over the archive of the newsletter.
#[derive(Debug, Default)]
pub struct TwirCrawler {}

impl TwirCrawler {
    /// Splits the markup of one anchor into its URL and title. Never fails: markup that
    /// does not have the expected shape gives a degraded link or title.
    pub fn extract_link_and_title(link: String) -> (r: TwirLinkElement)
        ensures
            r@ == element_of_markup(link@),
    {
        let markup = chars_of(link.as_str());
        let stripped = remove_all_chars(&markup, &anchor_open_chars());
        let url = if has_char(&stripped, '"') {
            prefix_before_char(&stripped, '"')
        } else {
            Vec::new()
        };
        let tail = suffix_after_char(&stripped, '"');
        let without_close = remove_all_chars(&tail, &anchor_close_chars());
        let gt = vec!['>'];
        assert(gt@ =~= seq!['>']);
        let title = remove_all_chars(&without_close, &gt);
        TwirLinkElement::new(Link(string_of(&url)), string_of(&title))
    }

    /// The issues that an archive page links to, in the order in which the parsed page holds them.
    pub fn get_all_archived_twir_issues(&self, archive_page: &str) -> (r: Result<
        Vec<TwirLinkElement>,
        CrawlerError,
    >)
        ensures
            match r {
                Ok(v) => selector_parses(anchor_selector()) && views(v@) == issues_of(
                    markup_of(anchor_selector(), archive_page@),
                ),
                Err(e) => !selector_parses(anchor_selector()) && e is SelectorParsing,
            },
    {
        match anchor_markup(archive_page) {
            Some(markups) => {
                let found = Self::issues_from_markup(&markups);
                Ok(found)
            },
            None => Err(CrawlerError::SelectorParsing),
        }
    }

    /// Every link of an issue page with its title, in the order in which the parsed page holds them.
    pub fn get_page_content(&self, page: &str) -> (r: Result<Vec<TwirLinkElement>, CrawlerError>)
        ensures
            match r {
                Ok(v) => selector_parses(anchor_selector()) && views(v@) == elements_of(
                    markup_of(anchor_selector(), page@),
                ),
                Err(e) => !selector_parses(anchor_selector()) && e is SelectorParsing,
            },
    {
        match anchor_markup(page) {
            Some(markups) => {
                let found = Self::elements_from_markup(&markups);
                Ok(found)
            },
            None => Err(CrawlerError::SelectorParsing),
        }
    }

    /// The links of an issue page whose title holds `sentence`, in the order in which the parsed page holds
    /// them.
    pub fn parse_page(page: &str, sentence: &str) -> (r: Result<
        Vec<TwirLinkElement>,
        CrawlerError,
    >)
        ensures
            match r {
                Ok(v) => selector_parses(anchor_selector()) && views(v@) == titled(
                    elements_of(markup_of(anchor_selector(), page@)),
                    sentence@,
                ),
                Err(e) => !selector_parses(anchor_selector()) && e is SelectorParsing,
            },
    {
        match anchor_markup(page) {
            Some(markups) => {
                let all = Self::elements_from_markup(&markups);
                let found = filter_by_title(&all, sentence);
                Ok(found)
            },
            None => Err(CrawlerError::SelectorParsing),
        }
    }

    /// The cached entries whose title holds `sentence`, in their cached order. It fails, with
    /// `Deserialize`, exactly when the cache text holds no corpus.
    pub fn search_offline(&self, sentence: &str, cache_text: &str) -> (r: Result<
        Vec<TwirLinkElement>,
        CrawlerError,
    >)
        ensures
            match r {
                Ok(v) => corpus_of(cache_text@) matches Some(c) && views(v@) == titled(
                    c,
                    sentence@,
                ),
                Err(e) => e is Deserialize && corpus_of(cache_text@) is None,
            },
    {
        match decode_corpus(cache_text) {
            Ok(corpus) => {
                let found = filter_by_title(&corpus, sentence);
                Ok(found)
            },
            Err(e) => Err(e),
        }
    }

    /// The text of the cache for a corpus, which `search_offline` reads back.
    pub fn save_text(&self, corpus: &Vec<TwirLinkElement>) -> (r: String)
        ensures
            r@ == encoding(views(corpus@)),
    {
        encode_corpus(corpus)
    }

    /// Keeps the issues whose link was found reachable, in order; `reachable` holds the
    /// verdict for each issue.
    pub fn lychee_filter_issues(&self, issues: &mut Vec<TwirLinkElement>, reachable: &Vec<bool>)
        requires
            old(issues).len() == reachable.len(),
        ensures
            views(final(issues)@) == kept(views(old(issues)@), reachable@),
    {
        let ghost es = views(issues@);
        let mut r: Vec<TwirLinkElement> = Vec::new();
        let mut i: usize = 0;
        while i < issues.len()
            invariant
                i <= issues.len(),
                issues.len() == reachable.len(),
                es == views(issues@),
                views(r@) == kept(es.take(i as int), reachable@.take(i as int)),
            decreases issues.len() - i,
        {
            assert(es.take(i + 1).drop_last() =~= es.take(i as int));
            assert(reachable@.take(i + 1).drop_last() =~= reachable@.take(i as int));
            if reachable[i] {
                let ghost before = views(r@);
                r.push(issues[i].duplicate());
                assert(views(r@) =~= before.push(es[i as int]));
            }
            i = i + 1;
        }
        assert(es.take(issues.len() as int) =~= es);
        assert(reachable@.take(issues.len() as int) =~= reachable@);
        *issues = r;
    }

    /// The element read from each piece of anchor markup, in order.
    pub fn elements_from_markup(markups: &Vec<String>) -> (r: Vec<TwirLinkElement>)
        ensures
            views(r@) == elements_of(texts(markups@)),
    {
        let mut r: Vec<TwirLinkElement> = Vec::new();
        let mut i: usize = 0;
        while i < markups.len()
            invariant
                i <= markups.len(),
                views(r@) == elements_of(texts(markups@).take(i as int)),
            decreases markups.len() - i,
        {
            let ghost ms = texts(markups@);
            let ghost before = views(r@);
            assert(ms.take(i + 1).drop_last() =~= ms.take(i as int));
            let e = Self::extract_link_and_title(markups[i].clone());
            r.push(e);
            assert(views(r@) =~= before.push(element_of_markup(ms[i as int])));
            i = i + 1;
        }
        assert(texts(markups@).take(markups.len() as int) =~= texts(markups@));
        r
    }

    /// The element read from each piece of anchor markup that links to an issue, in order.
    pub fn issues_from_markup(markups: &Vec<String>) -> (r: Vec<TwirLinkElement>)
        ensures
            views(r@) == issues_of(texts(markups@)),
    {
        let mut r: Vec<TwirLinkElement> = Vec::new();
        let mut i: usize = 0;
        while i < markups.len()
            invariant
                i <= markups.len(),
                views(r@) == issues_of(texts(markups@).take(i as int)),
            decreases markups.len() - i,
        {
            let ghost ms = texts(markups@);
            assert(ms.take(i + 1).drop_last() =~= ms.take(i as int));
            let m = chars_of(markups[i].as_str());
            if is_issue_anchor(&m) {
                let ghost before = views(r@);
                let e = Self::extract_link_and_title(markups[i].clone());
                r.push(e);
                assert(views(r@) =~= before.push(element_of_markup(ms[i as int])));
            }
            i = i + 1;
        }
        assert(texts(markups@).take(markups.len() as int) =~= texts(markups@));
        r
    }
}

} // verus!
