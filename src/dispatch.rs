//! The decisions of a bounded crawl: which issue page to fetch next, how many fetches are in
//! flight, and what the finished fetches found. The caller performs the fetches.
use vstd::prelude::*;

use crate::model::TwirLinkElement;
use crate::twir_crawler::{views, CrawlerError};

verus! {

/// How many fetches a crawl keeps in flight at most.
pub const MAX_IN_FLIGHT: usize = 100;

/// How many leading issues a crawl over `n` issues fetches under `limit`; a negative limit
/// admits every issue.
pub open spec fn dispatch_count(n: nat, limit: i32) -> nat {
    if limit < 0 || limit as nat >= n {
        n
    } else {
        limit as nat
    }
}

/// State of a bounded crawl over the leading issues of an archive. Only those issues are
/// started, in index order; the crawl finishes once every started fetch has reported back,
/// so no result of a started fetch is dropped unless some fetch failed. Fetches report back
/// in any order, and what they found is kept in that order.
pub struct Dispatcher {
    cap: usize,
    total: usize,
    launched: usize,
    in_flight: usize,
    aborted: bool,
    found: Vec<TwirLinkElement>,
}

impl Dispatcher {
    /// The most fetches in flight at once.
    pub closed spec fn cap(&self) -> nat {
        self.cap as nat
    }

    /// How many issues the crawl fetches.
    pub closed spec fn total(&self) -> nat {
        self.total as nat
    }

    /// How many fetches were started; they were for issues `0..launched`, in that order.
    pub closed spec fn launched(&self) -> nat {
        self.launched as nat
    }

    /// How many fetches were started and have not reported back.
    pub closed spec fn in_flight(&self) -> nat {
        self.in_flight as nat
    }

    /// Whether a failed fetch stopped the crawl.
    pub closed spec fn aborted(&self) -> bool {
        self.aborted
    }

    /// What the finished fetches found, in the order in which they reported back.
    pub closed spec fn found(&self) -> Seq<(Seq<char>, Seq<char>)> {
        views(self.found@)
    }

    /// The state is consistent: no more in flight than the cap, and no more started than
    /// the crawl covers.
    pub closed spec fn wf(&self) -> bool {
        &&& self.cap > 0
        &&& self.in_flight <= self.cap
        &&& self.in_flight <= self.launched
        &&& self.launched <= self.total
    }

    /// A crawl over the leading issues of `n_issues` under `limit`, with at most `cap`
    /// fetches in flight.
    pub fn new(n_issues: usize, limit: i32, cap: usize) -> (r: Self)
        requires
            cap > 0,
        ensures
            r.wf(),
            r.cap() == cap,
            r.total() == dispatch_count(n_issues as nat, limit),
            r.launched() == 0,
            r.in_flight() == 0,
            !r.aborted(),
            r.found() == Seq::<(Seq<char>, Seq<char>)>::empty(),
    {
        let total = if limit < 0 || limit as usize >= n_issues {
            n_issues
        } else {
            limit as usize
        };
        let r = Dispatcher { cap, total, launched: 0, in_flight: 0, aborted: false, found: Vec::new() };
        assert(views(r.found@) =~= Seq::<(Seq<char>, Seq<char>)>::empty());
        r
    }

    /// The issue whose page to fetch now, if any: the next one in index order, while a slot
    /// is free, issues remain, and no fetch failed.
    pub fn next_launch(&mut self) -> (r: Option<usize>)
        requires
            old(self).wf(),
        ensures
            final(self).wf(),
            final(self).cap() == old(self).cap(),
            final(self).total() == old(self).total(),
            final(self).aborted() == old(self).aborted(),
            final(self).found() == old(self).found(),
            r matches Some(i) ==> i as nat == old(self).launched() && (i as nat) < old(self).total(),
            if !old(self).aborted() && old(self).in_flight() < old(self).cap()
                && old(self).launched() < old(self).total() {
                &&& r == Some(old(self).launched() as usize)
                &&& final(self).launched() == old(self).launched() + 1
                &&& final(self).in_flight() == old(self).in_flight() + 1
            } else {
                &&& r is None
                &&& final(self).launched() == old(self).launched()
                &&& final(self).in_flight() == old(self).in_flight()
            },
    {
        if !self.aborted && self.in_flight < self.cap && self.launched < self.total {
            let index = self.launched;
            self.launched = self.launched + 1;
            self.in_flight = self.in_flight + 1;
            Some(index)
        } else {
            None
        }
    }

    /// Takes in what one fetch reported. Its links are kept; a failure stops the crawl and is
    /// handed back.
    pub fn record(&mut self, outcome: Result<Vec<TwirLinkElement>, CrawlerError>) -> (r: Result<
        (),
        CrawlerError,
    >)
        requires
            old(self).wf(),
            old(self).in_flight() > 0,
        ensures
            final(self).wf(),
            final(self).cap() == old(self).cap(),
            final(self).total() == old(self).total(),
            final(self).launched() == old(self).launched(),
            final(self).in_flight() == old(self).in_flight() - 1,
            match outcome {
                Ok(v) => {
                    &&& r is Ok
                    &&& final(self).aborted() == old(self).aborted()
                    &&& final(self).found() == old(self).found() + views(v@)
                },
                Err(e) => {
                    &&& r == Err::<(), CrawlerError>(e)
                    &&& final(self).aborted()
                    &&& final(self).found() == old(self).found()
                },
            },
    {
        self.in_flight = self.in_flight - 1;
        match outcome {
            Ok(mut v) => {
                let ghost before = views(self.found@);
                let ghost added = views(v@);
                self.found.append(&mut v);
                assert(views(self.found@) =~= before + added);
                Ok(())
            },
            Err(e) => {
                self.aborted = true;
                Err(e)
            },
        }
    }

    /// Whether nothing is left to start or to wait for.
    pub fn is_finished(&self) -> (r: bool)
        requires
            self.wf(),
        ensures
            r == (self.in_flight() == 0 && (self.aborted() || self.launched() == self.total())),
    {
        self.in_flight == 0 && (self.aborted || self.launched == self.total)
    }

    /// What the finished fetches found.
    pub fn into_found(self) -> (r: Vec<TwirLinkElement>)
        ensures
            views(r@) == self.found(),
    {
        self.found
    }

    /// How many fetches are in flight.
    pub fn in_flight_count(&self) -> (r: usize)
        ensures
            r == self.in_flight(),
    {
        self.in_flight
    }
}

/// A consistent crawl never has more fetches in flight than its cap, and every step keeps it
/// consistent: however starts and reports interleave, the cap holds.
pub proof fn lemma_in_flight_within_cap(d: Dispatcher)
    requires
        d.wf(),
    ensures
        d.in_flight() <= d.cap(),
        d.launched() <= d.total(),
{
}

} // verus!
