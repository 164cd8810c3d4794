use twir_search::dispatch::{Dispatcher, MAX_IN_FLIGHT};
use twir_search::model::{Link, TwirLinkElement};
use twir_search::twir_crawler::{CrawlerError, UNLIMITED};

fn element(title: &str, link: &str) -> TwirLinkElement {
    TwirLinkElement::new(Link(String::from(link)), String::from(title))
}

#[test]
fn dispatch_never_exceeds_the_cap() {
    let m = 10;
    let k = 3;
    let mut d = Dispatcher::new(m, UNLIMITED, k);
    let mut pending: Vec<usize> = Vec::new();
    let mut launched: Vec<usize> = Vec::new();
    let mut high_water = 0;
    loop {
        while let Some(i) = d.next_launch() {
            pending.push(i);
            launched.push(i);
            high_water = high_water.max(d.in_flight_count());
            assert!(d.in_flight_count() <= k);
        }
        if d.is_finished() {
            break;
        }
        // finish the oldest fetch first, then the newest, to mix completion orders
        let i = if pending.len() % 2 == 0 { pending.remove(0) } else { pending.pop().unwrap() };
        let title = format!("issue {}", i);
        d.record(Ok(vec![element(&title, "https://x")])).unwrap();
    }
    assert_eq!(high_water, k);
    assert_eq!(launched, (0..m).collect::<Vec<usize>>());
    let found = d.into_found();
    assert_eq!(found.len(), m);
    let mut titles: Vec<String> = found.iter().map(|e| e.title.clone()).collect();
    titles.sort();
    let mut expected: Vec<String> = (0..m).map(|i| format!("issue {}", i)).collect();
    expected.sort();
    assert_eq!(titles, expected);
}

#[test]
fn dispatch_covers_only_the_leading_issues() {
    let mut d = Dispatcher::new(10, 4, MAX_IN_FLIGHT);
    let mut launched = Vec::new();
    while let Some(i) = d.next_launch() {
        launched.push(i);
    }
    assert_eq!(launched, vec![0, 1, 2, 3]);
}

#[test]
fn negative_limit_covers_every_issue() {
    let mut d = Dispatcher::new(5, -1, 2);
    let mut count = 0;
    loop {
        while d.next_launch().is_some() {
            count += 1;
        }
        if d.is_finished() {
            break;
        }
        d.record(Ok(Vec::new())).unwrap();
    }
    assert_eq!(count, 5);
}

#[test]
fn a_failed_fetch_stops_the_crawl() {
    let mut d = Dispatcher::new(10, UNLIMITED, 2);
    assert_eq!(d.next_launch(), Some(0));
    assert_eq!(d.next_launch(), Some(1));
    assert_eq!(d.next_launch(), None);
    let r = d.record(Err(CrawlerError::Fetch));
    assert!(matches!(r, Err(CrawlerError::Fetch)));
    assert_eq!(d.next_launch(), None);
    assert!(!d.is_finished());
    d.record(Ok(vec![element("late", "https://l")])).unwrap();
    assert!(d.is_finished());
}

#[test]
fn empty_archive_is_finished_at_once() {
    let mut d = Dispatcher::new(0, UNLIMITED, 1);
    assert_eq!(d.next_launch(), None);
    assert!(d.is_finished());
    assert!(d.into_found().is_empty());
}
