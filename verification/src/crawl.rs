//! Decisions around a crawl run: whether one may start, how its summary
//! reads, how many checks run at once, and where a site's well-known files
//! live.

use vstd::prelude::*;
use crate::parse::opt_view;
use crate::types::CrawlSummary;
use crate::weburl::{spec_url_join, spec_url_parse};

verus! {

broadcast use vstd::string::group_string_axioms;

/// A crawl may start only when none is running.
pub fn begin_crawl(running: bool) -> (r: Result<(), String>)
    ensures
        !running ==> r is Ok,
        running ==> (r matches Err(m) && m@ == "A crawl is already running"@),
{
    if running {
        Err("A crawl is already running".to_string())
    } else {
        Ok(())
    }
}

/// The summary sent when a crawl ends: it was cancelled if cancellation was
/// asked for before it started or while it ran.
pub fn crawl_summary(pages_crawled: usize, cancelled_before: bool, cancelled_now: bool) -> (s:
    CrawlSummary)
    ensures
        s.pages_crawled == pages_crawled,
        s.resources_checked == 0,
        s.cancelled == (cancelled_before || cancelled_now),
{
    CrawlSummary {
        pages_crawled,
        resources_checked: 0,
        cancelled: cancelled_before || cancelled_now,
    }
}

/// The start URL of a crawl, parsed and serialized; an unparsable one is
/// refused with the reason.
pub fn start_url(raw: &str) -> (r: Result<String, String>)
    ensures
        r is Ok <==> spec_url_parse(raw@) is Ok,
        r matches Ok(s) ==> spec_url_parse(raw@) == Ok::<Seq<char>, Seq<char>>(s@),
        r matches Err(m) ==> (spec_url_parse(raw@) matches Err(e) && m@ == "Invalid start URL: "@
            + e),
{
    match crate::weburl::url_parse(raw) {
        Ok(u) => Ok(u),
        Err(e) => {
            let mut m = "Invalid start URL: ".to_string();
            m.append(e.as_str());
            Err(m)
        },
    }
}

/// What a crawl run does once a round of its loop has handed out the pages
/// it may.
pub enum RoundEnd {
    /// Wait for the next running page fetch or resource check to finish.
    Collect,
    /// Paused with pages waiting and nothing running: report progress and
    /// wait a moment before the next round.
    Idle,
    /// Nothing runs and nothing more will be handed out: the run is over.
    Finish,
}

/// The end of a loop round, given the page fetches and resource checks
/// running, whether the run is paused and how many pages wait.
pub fn round_end(pages_running: usize, checks_running: usize, paused: bool, queued: usize) -> (r:
    RoundEnd)
    ensures
        pages_running > 0 || checks_running > 0 ==> r is Collect,
        pages_running == 0 && checks_running == 0 && paused && queued > 0 ==> r is Idle,
        pages_running == 0 && checks_running == 0 && !(paused && queued > 0) ==> r is Finish,
{
    if pages_running > 0 || checks_running > 0 {
        RoundEnd::Collect
    } else if paused && queued > 0 {
        RoundEnd::Idle
    } else {
        RoundEnd::Finish
    }
}

/// Resource checks that may run at once: the configured concurrency, at
/// least one.
pub fn resource_permits(concurrency: usize) -> (n: usize)
    ensures
        n == (if concurrency == 0 {
            1
        } else {
            concurrency
        }),
{
    if concurrency == 0 {
        1
    } else {
        concurrency
    }
}

/// The URL of a site-wide file (such as `/robots.txt`) of the site at
/// `origin`.
pub fn site_file_url(origin: &str, path: &str) -> (r: Option<String>)
    ensures
        opt_view(r) == spec_url_join(origin@, path@),
{
    crate::weburl::url_join(origin, path)
}

} // verus!
