use twir_search::cli::{get_search_arg, Args};
use twir_search::crawler::get_latest_issue_index;
use twir_search::model::Link;

#[test]
fn search_text_is_taken_as_given() {
    let args = Args { search: String::from("Rust ASYNC"), online: false, limit: 500, update_cache: false };
    assert_eq!(get_search_arg(&args), "Rust ASYNC");
}

#[test]
fn latest_issue_index_lists_issue_links() {
    let page = "<ul><li><a href=\"https://x/blog/this-week-in-rust-275/\">This Week in Rust 275</a></li>\
        <li><a href=\"https://x/tags\">Tags</a></li></ul>";
    let links = get_latest_issue_index(page).unwrap();
    assert_eq!(links, vec![String::from("https://x/blog/this-week-in-rust-275/")]);
}

#[test]
fn link_shows_its_text() {
    let l = Link(String::from("https://a"));
    assert_eq!(l.to_string(), "https://a");
    assert_eq!(l.as_str(), "https://a");
    assert_eq!(l.len(), 9);
}
