use twir_search::model::{Link, TwirLinkElement};
use twir_search::twir_crawler::{
    filter_by_title, results_or_empty, search_mode, CrawlerError, SearchMode, TwirCrawler,
};

fn element(title: &str, link: &str) -> TwirLinkElement {
    TwirLinkElement::new(Link(String::from(link)), String::from(title))
}

fn pairs(v: &[TwirLinkElement]) -> Vec<(String, String)> {
    v.iter().map(|e| (e.title.clone(), e.link.0.clone())).collect()
}

#[test]
fn test_link_extraction_valid_html_link() {
    let link = String::from("<a href=\"https://this-week-in-rust.org/blog/2013/08/10/this-week-in-rust-10/\">This Week in Rust 10</a>");

    let currated_link = TwirCrawler::extract_link_and_title(link);
    assert_eq!(
        currated_link.link,
        Link(String::from(
            "https://this-week-in-rust.org/blog/2013/08/10/this-week-in-rust-10/"
        ))
    );
}

#[test]
fn test_link_extraction_no_html() {
    let link =
        String::from("https://this-week-in-rust.org/blog/2013/08/10/this-week-in-rust-10/");

    let currated_link = TwirCrawler::extract_link_and_title(link);
    assert_eq!(currated_link.link, Link(String::from("")));
}

#[test]
fn extraction_without_quotes_keeps_the_text_as_title() {
    let e = TwirCrawler::extract_link_and_title(String::from("plain text</a>"));
    assert_eq!(e.link.0, "");
    assert_eq!(e.title, "plain text");
}

#[test]
fn test_filter_issues() {
    let crawler = TwirCrawler::default();
    let issue1 = TwirLinkElement::new(
        Link(String::from("https://www.google.com")),
        String::from("Google"),
    );
    let issue2 = TwirLinkElement::new(
        Link(String::from("https://www.youtube.com")),
        String::from("Youtube"),
    );

    let mut issues = vec![issue1.clone(), issue2];
    crawler.lychee_filter_issues(&mut issues, &vec![true, true]);
    assert_eq!(issues.len(), 2);
}

#[test]
fn extraction_gives_back_url_and_title_of_a_well_formed_anchor() {
    let e = TwirCrawler::extract_link_and_title(String::from(
        "<a href=\"https://this-week-in-rust.org/blog/2020/07/14/this-week-in-rust-347/\">This Week in Rust 347</a>",
    ));
    assert_eq!(
        e.link.0,
        "https://this-week-in-rust.org/blog/2020/07/14/this-week-in-rust-347/"
    );
    assert_eq!(e.title, "This Week in Rust 347");
}

#[test]
fn extraction_without_closing_tag_keeps_the_text() {
    let e = TwirCrawler::extract_link_and_title(String::from("<a href=\"https://a\">Title"));
    assert_eq!(e.link.0, "https://a");
    assert_eq!(e.title, "Title");
}

#[test]
fn extraction_of_empty_markup_is_empty() {
    let e = TwirCrawler::extract_link_and_title(String::new());
    assert_eq!(e.link.0, "");
    assert_eq!(e.title, "");
}

#[test]
fn extraction_with_other_attributes_keeps_the_last_segment() {
    let e = TwirCrawler::extract_link_and_title(String::from(
        "<a href=\"https://a\" title=\"x\">Text</a>",
    ));
    assert_eq!(e.link.0, "https://a");
    assert_eq!(e.title, "Text");
}

#[test]
fn archive_filter_keeps_all_three_names_in_order() {
    let markups = vec![
        String::from("<a href=\"https://x/blog/this-week-in-rust-1/\">This Week in Rust 1</a>"),
        String::from("<a href=\"https://x/about\">About</a>"),
        String::from("<a href=\"https://x/blog/last-week-in-rust-2/\">Last Week in Rust 2</a>"),
        String::from("<a href=\"https://x/rss\">Feed</a>"),
        String::from("<a href=\"https://x/blog/these-weeks-in-rust-3/\">These Weeks in Rust 3</a>"),
    ];
    let found = TwirCrawler::issues_from_markup(&markups);
    assert_eq!(
        pairs(&found),
        vec![
            (String::from("This Week in Rust 1"), String::from("https://x/blog/this-week-in-rust-1/")),
            (String::from("Last Week in Rust 2"), String::from("https://x/blog/last-week-in-rust-2/")),
            (String::from("These Weeks in Rust 3"), String::from("https://x/blog/these-weeks-in-rust-3/")),
        ]
    );
}

#[test]
fn archive_page_is_parsed_into_issues() {
    let page = "<html><body><ul>\
        <li><a href=\"https://x/blog/this-week-in-rust-10/\">This Week in Rust 10</a></li>\
        <li><a href=\"https://x/contact\">Contact</a></li>\
        <li><a href=\"https://x/blog/last-week-in-rust-11/\">Last Week in Rust 11</a></li>\
        <li><a href=\"https://x/blog/these-weeks-in-rust-12/\">These Weeks in Rust 12</a></li>\
        </ul></body></html>";
    let crawler = TwirCrawler::default();
    let found = crawler.get_all_archived_twir_issues(page).unwrap();
    assert_eq!(
        pairs(&found),
        vec![
            (String::from("This Week in Rust 10"), String::from("https://x/blog/this-week-in-rust-10/")),
            (String::from("Last Week in Rust 11"), String::from("https://x/blog/last-week-in-rust-11/")),
            (String::from("These Weeks in Rust 12"), String::from("https://x/blog/these-weeks-in-rust-12/")),
        ]
    );
}

#[test]
fn page_content_lists_every_anchor() {
    let page = "<p><a href=\"https://a\">Async runtimes compared</a> and <a href=\"https://b\">Rust 2024 roadmap</a></p>";
    let crawler = TwirCrawler::default();
    let found = crawler.get_page_content(page).unwrap();
    assert_eq!(
        pairs(&found),
        vec![
            (String::from("Async runtimes compared"), String::from("https://a")),
            (String::from("Rust 2024 roadmap"), String::from("https://b")),
        ]
    );
}

#[test]
fn parse_page_keeps_matching_titles() {
    let page = "<p><a href=\"https://a\">Async runtimes compared</a><a href=\"https://b\">Rust 2024 roadmap</a></p>";
    let found = TwirCrawler::parse_page(page, "Rust").unwrap();
    assert_eq!(
        pairs(&found),
        vec![(String::from("Rust 2024 roadmap"), String::from("https://b"))]
    );
}

#[test]
fn page_without_anchors_gives_nothing() {
    let crawler = TwirCrawler::default();
    assert!(crawler.get_page_content("<p>no links</p>").unwrap().is_empty());
}

#[test]
fn title_filter_is_case_sensitive_containment() {
    let entries = vec![element("Rust 2024 roadmap", "https://b")];
    assert_eq!(filter_by_title(&entries, "2024 road").len(), 1);
    assert_eq!(filter_by_title(&entries, "Rust").len(), 1);
    assert_eq!(filter_by_title(&entries, "rust").len(), 0);
    assert_eq!(filter_by_title(&entries, "RUST 2024 ROADMAP").len(), 0);
    assert_eq!(filter_by_title(&entries, "").len(), 1);
}

#[test]
fn validator_verdicts_drop_unreachable_links() {
    let crawler = TwirCrawler::default();
    let mut issues = vec![element("A", "https://a"), element("B", "https://b"), element("C", "https://c")];
    crawler.lychee_filter_issues(&mut issues, &vec![false, true, false]);
    assert_eq!(pairs(&issues), vec![(String::from("B"), String::from("https://b"))]);
}

#[test]
fn search_mode_prefers_the_cache_unless_told_otherwise() {
    assert_eq!(search_mode(true, false), SearchMode::Offline);
    assert_eq!(search_mode(true, true), SearchMode::Online);
    assert_eq!(search_mode(false, false), SearchMode::Online);
    assert_eq!(search_mode(false, true), SearchMode::Online);
}

#[test]
fn failed_search_reads_as_no_results() {
    let ok = results_or_empty(Ok(vec![element("A", "https://a")]));
    assert_eq!(ok.len(), 1);
    let failed = results_or_empty(Err(CrawlerError::Request(String::from("offline"))));
    assert!(failed.is_empty());
}

#[test]
fn offline_search_scenario() {
    let crawler = TwirCrawler::default();
    let corpus = vec![
        element("Async runtimes compared", "https://a"),
        element("Rust 2024 roadmap", "https://b"),
    ];
    let text = crawler.save_text(&corpus);
    let mut found = crawler.search_offline("Rust", &text).unwrap();
    crawler.lychee_filter_issues(&mut found, &vec![true]);
    assert_eq!(
        pairs(&found),
        vec![(String::from("Rust 2024 roadmap"), String::from("https://b"))]
    );
}

#[test]
fn offline_search_on_a_corrupt_cache_fails() {
    let crawler = TwirCrawler::default();
    let r = crawler.search_offline("Rust", "{not a cache");
    assert!(matches!(r, Err(CrawlerError::Deserialize)));
}
