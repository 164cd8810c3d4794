use twir_search::cache::{decode_corpus, encode_corpus};
use twir_search::model::{Link, TwirLinkElement};
use twir_search::twir_crawler::CrawlerError;

fn element(title: &str, link: &str) -> TwirLinkElement {
    TwirLinkElement::new(Link(String::from(link)), String::from(title))
}

fn pairs(v: &[TwirLinkElement]) -> Vec<(String, String)> {
    v.iter().map(|e| (e.title.clone(), e.link.0.clone())).collect()
}

fn round_trip(corpus: Vec<TwirLinkElement>) {
    let text = encode_corpus(&corpus);
    let back = decode_corpus(&text).unwrap();
    assert_eq!(pairs(&back), pairs(&corpus));
}

#[test]
fn round_trip_of_empty_corpus() {
    assert_eq!(encode_corpus(&Vec::new()), "[]");
    round_trip(Vec::new());
}

#[test]
fn round_trip_of_one_entry() {
    assert_eq!(
        encode_corpus(&vec![element("A", "https://a")]),
        "[{\"title\":\"A\",\"link\":\"https://a\"}]"
    );
    round_trip(vec![element("A", "https://a")]);
}

#[test]
fn round_trip_of_many_entries_with_special_characters() {
    round_trip(vec![
        element("Say \"hi\"", "https://a/?q=\\x"),
        element("line\nbreak\ttab\r", "https://b"),
        element("bell\u{7} back\u{8} feed\u{c} unit\u{1f}", "https://c"),
        element("Grüße — 東京 🦀", "https://d/ü"),
        element("", ""),
        element("Rust 2024 roadmap", "https://b"),
    ]);
}

#[test]
fn control_characters_are_escaped_as_json() {
    let text = encode_corpus(&vec![element("a\"b\\c\nd\u{1}", "l")]);
    assert_eq!(text, "[{\"title\":\"a\\\"b\\\\c\\nd\\u0001\",\"link\":\"l\"}]");
}

#[test]
fn decoding_reads_escapes() {
    let back = decode_corpus("[{\"title\":\"x\\u001fy\\b\",\"link\":\"z\"}]").unwrap();
    assert_eq!(pairs(&back), vec![(String::from("x\u{1f}y\u{8}"), String::from("z"))]);
}

#[test]
fn decoding_accepts_whitespace_either_key_order_and_every_escape() {
    let text = " [ { \"link\" : \"https:\\/\\/a\" , \"title\" : \"A\\u0041\\u00e9\" } ,\n\t{\"title\":\"\\uD83E\\uDD80 crab\",\"link\":\"b\"} ]\r\n";
    let back = decode_corpus(text).unwrap();
    assert_eq!(
        pairs(&back),
        vec![
            (String::from("AAé"), String::from("https://a")),
            (String::from("🦀 crab"), String::from("b")),
        ]
    );
}

#[test]
fn decoding_accepts_an_empty_list_with_whitespace() {
    assert!(decode_corpus(" [ ] ").unwrap().is_empty());
}

#[test]
fn decoding_rejects_what_is_not_a_cache() {
    for text in [
        "",
        "[",
        "]",
        "[{}]",
        "[{\"title\":\"a\"}]",
        "[{\"title\":\"a\",\"link\":\"b\"},]",
        "[{\"title\":\"a\",\"link\":\"b\"}] x",
        "[{\"title\":\"a\",\"title\":\"b\"}]",
        "[{\"title\":\"a\",\"name\":\"b\"}]",
        "[{\"title\":\"a\\q\",\"link\":\"b\"}]",
        "[{\"title\":\"a\\ud83e\",\"link\":\"b\"}]",
        "[{\"title\":\"a\\udd80\",\"link\":\"b\"}]",
        "[{\"title\":\"a\\u00g1\",\"link\":\"b\"}]",
        "[{\"title\":\"a\nb\",\"link\":\"b\"}]",
    ] {
        assert!(
            matches!(decode_corpus(text), Err(CrawlerError::Deserialize)),
            "accepted {:?}",
            text
        );
    }
}
