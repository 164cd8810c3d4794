//! The parameters of one run: what to search for, and how.
use vstd::prelude::*;

verus! {

/// The parameters of one run.
#[derive(Debug, Clone)]
pub struct Args {
    /// Text to search for in the titles of the archive.
    pub search: String,
    /// Always crawl the archive, even where a cache is present.
    pub online: bool,
    /// How many of the leading issues a crawl reads.
    pub limit: i32,
    /// Fetch every issue and rewrite the cache before searching.
    pub update_cache: bool,
}

/// The text that a run searches for, as given.
pub fn get_search_arg(args: &Args) -> (r: String)
    ensures
        r@ == args.search@,
{
    args.search.clone()
}

} // verus!
