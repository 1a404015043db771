//! Crawl scheduling: which URLs are fetched, in what order, and at what
//! depth. Every URL is remembered by its key (the URL without fragment) and
//! is scheduled at most once; no more pages are scheduled than the page
//! budget allows, and no page is scheduled deeper than the depth limit.

use vstd::prelude::*;
use std::collections::VecDeque;
use crate::page::contains_string;
use crate::parse::strings_view;
use crate::robots::RobotsRules;
use crate::types::PageResult;
use crate::weburl::{normalized, spec_url_host, spec_url_path};

verus! {

/// A page waiting to be fetched.
pub struct FrontierEntry {
    pub url: String,
    pub depth: usize,
    pub via_sitemap: bool,
}

/// The scheduler's state.
pub struct CrawlFrontier {
    start_url: String,
    max_pages: usize,
    max_depth: usize,
    visited: Vec<String>,
    queue: VecDeque<FrontierEntry>,
    scheduled: usize,
    in_flight: usize,
    crawled: usize,
    linked: Vec<String>,
}

/// The scheduler's state as plain values.
pub struct FrontierState {
    pub start_url: Seq<char>,
    pub max_pages: nat,
    pub max_depth: nat,
    /// Keys of every URL ever scheduled, in scheduling order.
    pub visited: Seq<Seq<char>>,
    /// Pages waiting to be fetched: URL, depth, found in the sitemap.
    pub queue: Seq<(Seq<char>, nat, bool)>,
    pub scheduled: nat,
    /// Pages handed out for fetching and not yet recorded.
    pub in_flight: nat,
    pub crawled: nat,
    /// Keys of every internal link target seen on a crawled page.
    pub linked: Seq<Seq<char>>,
}

pub open spec fn entry_view(e: FrontierEntry) -> (Seq<char>, nat, bool) {
    (e.url@, e.depth as nat, e.via_sitemap)
}

impl View for CrawlFrontier {
    type V = FrontierState;

    closed spec fn view(&self) -> FrontierState {
        FrontierState {
            start_url: self.start_url@,
            max_pages: self.max_pages as nat,
            max_depth: self.max_depth as nat,
            visited: strings_view(self.visited@),
            queue: self.queue@.map_values(|e: FrontierEntry| entry_view(e)),
            scheduled: self.scheduled as nat,
            in_flight: self.in_flight as nat,
            crawled: self.crawled as nat,
            linked: strings_view(self.linked@),
        }
    }
}

/// The scheduler's invariant.
pub open spec fn frontier_wf(s: FrontierState) -> bool {
    &&& s.visited.no_duplicates()
    &&& s.linked.no_duplicates()
    &&& s.scheduled == s.visited.len()
    &&& 1 <= s.max_pages
    &&& s.scheduled <= s.max_pages
    &&& s.crawled + s.in_flight + s.queue.len() == s.scheduled
    &&& forall|i: int|
        0 <= i < s.queue.len() ==> s.visited.contains(normalized((#[trigger] s.queue[i]).0))
            && s.queue[i].1 <= s.max_depth
}

/// Schedules `url` at `depth` unless its key was seen before or the page
/// budget is spent.
pub open spec fn offer(s: FrontierState, url: Seq<char>, depth: nat, via_sitemap: bool) -> FrontierState {
    let key = normalized(url);
    if !s.visited.contains(key) && s.scheduled < s.max_pages {
        FrontierState {
            visited: s.visited.push(key),
            queue: s.queue.push((url, depth, via_sitemap)),
            scheduled: s.scheduled + 1,
            ..s
        }
    } else {
        s
    }
}

/// Sitemap URLs on the start URL's host are scheduled at depth 0, in order.
pub open spec fn offer_sitemap(s: FrontierState, urls: Seq<Seq<char>>) -> FrontierState
    decreases urls.len(),
{
    if urls.len() == 0 {
        s
    } else {
        let t = offer_sitemap(s, urls.drop_last());
        let u = urls.last();
        if spec_url_host(u) != spec_url_host(s.start_url) {
            t
        } else {
            offer(t, u, 0, true)
        }
    }
}

/// `key` added to the linked set.
pub open spec fn note_link(s: FrontierState, key: Seq<char>) -> FrontierState {
    if s.linked.contains(key) {
        s
    } else {
        FrontierState { linked: s.linked.push(key), ..s }
    }
}

/// The internal links of a page at `depth`: each is noted as linked and,
/// below the depth limit, scheduled one level deeper.
pub open spec fn follow_links(s: FrontierState, depth: nat, links: Seq<Seq<char>>) -> FrontierState
    decreases links.len(),
{
    if links.len() == 0 {
        s
    } else {
        let t = follow_links(s, depth, links.drop_last());
        let u = links.last();
        let t2 = note_link(t, normalized(u));
        if depth < s.max_depth {
            offer(t2, u, depth + 1, false)
        } else {
            t2
        }
    }
}

/// The next waiting page handed out: counted as crawled when robots.txt
/// forbids it (`blocked`), as in flight otherwise.
pub open spec fn take_step(s: FrontierState, blocked: bool) -> FrontierState {
    if s.queue.len() == 0 {
        s
    } else {
        let rest = FrontierState { queue: s.queue.drop_first(), ..s };
        if blocked {
            FrontierState { crawled: rest.crawled + 1, ..rest }
        } else {
            FrontierState { in_flight: rest.in_flight + 1, ..rest }
        }
    }
}

/// A fetched page at `depth` recorded with its internal links.
pub open spec fn record_step(s: FrontierState, depth: nat, links: Seq<Seq<char>>) -> FrontierState {
    follow_links(
        FrontierState { crawled: s.crawled + 1, in_flight: (s.in_flight - 1) as nat, ..s },
        depth,
        links,
    )
}

/// One thing that happens to a crawl's schedule.
pub enum FrontierEvent {
    /// Sitemap URLs are offered.
    Sitemap(Seq<Seq<char>>),
    /// The next waiting page is handed out; `true` when robots.txt forbids it.
    Take(bool),
    /// A page handed out for fetching comes back at a depth with its
    /// internal links (ignored when no page is in flight).
    Record(nat, Seq<Seq<char>>),
}

pub open spec fn apply_event(s: FrontierState, e: FrontierEvent) -> FrontierState {
    match e {
        FrontierEvent::Sitemap(urls) => offer_sitemap(s, urls),
        FrontierEvent::Take(blocked) => take_step(s, blocked),
        FrontierEvent::Record(depth, links) => if s.in_flight > 0 {
            record_step(s, depth, links)
        } else {
            s
        },
    }
}

/// The schedule after the events `es`, in order.
pub open spec fn run_events(s: FrontierState, es: Seq<FrontierEvent>) -> FrontierState
    decreases es.len(),
{
    if es.len() == 0 {
        s
    } else {
        apply_event(run_events(s, es.drop_last()), es.last())
    }
}

/// The path that robots.txt rules are checked against.
pub open spec fn robots_path(url: Seq<char>) -> Seq<char> {
    match spec_url_path(url) {
        Some(p) => p,
        None => Seq::empty(),
    }
}

/// What the scheduler hands out.
pub enum Dispatch {
    /// Fetch this page.
    Fetch(FrontierEntry),
    /// robots.txt forbids this page; its result is final.
    Blocked(PageResult),
}

proof fn lemma_offer_wf(s: FrontierState, url: Seq<char>, depth: nat, via: bool)
    requires
        frontier_wf(s),
        depth <= s.max_depth,
    ensures
        frontier_wf(offer(s, url, depth, via)),
        offer(s, url, depth, via).max_pages == s.max_pages,
        offer(s, url, depth, via).max_depth == s.max_depth,
        offer(s, url, depth, via).start_url == s.start_url,
        offer(s, url, depth, via).linked == s.linked,
        offer(s, url, depth, via).crawled == s.crawled,
        offer(s, url, depth, via).in_flight == s.in_flight,
{
    let t = offer(s, url, depth, via);
    let key = normalized(url);
    if !s.visited.contains(key) && s.scheduled < s.max_pages {
        assert forall|i: int| 0 <= i < t.queue.len() implies t.visited.contains(
            normalized((#[trigger] t.queue[i]).0),
        ) && t.queue[i].1 <= t.max_depth by {
            if i < s.queue.len() {
                assert(t.queue[i] == s.queue[i]);
                let j = choose|j: int| 0 <= j < s.visited.len() && s.visited[j] == normalized(s.queue[i].0);
                assert(t.visited[j] == s.visited[j]);
            } else {
                assert(t.visited[t.visited.len() - 1] == key);
            }
        }
        assert forall|i: int, j: int|
            0 <= i < t.visited.len() && 0 <= j < t.visited.len() && i != j implies t.visited[i]
            != t.visited[j] by {
            if i < s.visited.len() && j < s.visited.len() {
            } else if i < s.visited.len() {
                assert(s.visited.contains(s.visited[i]));
            } else {
                assert(s.visited.contains(s.visited[j]));
            }
        }
    }
}

proof fn lemma_note_link_wf(s: FrontierState, key: Seq<char>)
    requires
        frontier_wf(s),
    ensures
        frontier_wf(note_link(s, key)),
        note_link(s, key).max_pages == s.max_pages,
        note_link(s, key).max_depth == s.max_depth,
        note_link(s, key).start_url == s.start_url,
{
    let t = note_link(s, key);
    if !s.linked.contains(key) {
        assert forall|i: int, j: int|
            0 <= i < t.linked.len() && 0 <= j < t.linked.len() && i != j implies t.linked[i]
            != t.linked[j] by {
            if i < s.linked.len() && j < s.linked.len() {
            } else if i < s.linked.len() {
                assert(s.linked.contains(s.linked[i]));
            } else {
                assert(s.linked.contains(s.linked[j]));
            }
        }
    }
}


/// The result written for a page that robots.txt forbids.
pub open spec fn blocked_result(p: PageResult, url: Seq<char>, depth: nat) -> bool {
    &&& p.url@ == url
    &&& p.depth == depth
    &&& p.status.is_none()
    &&& p.status_text@ == "Blocked"@
    &&& p.content_type.is_none()
    &&& p.redirect_url.is_none()
    &&& p.indexability@ == "Non-Indexable (robots.txt)"@
    &&& p.response_time_ms == 0
    &&& p.error.is_none()
    &&& crate::page::no_analysis(p)
}

fn copy_strings(v: &Vec<String>) -> (r: Vec<String>)
    ensures
        strings_view(r@) == strings_view(v@),
{
    let mut r: Vec<String> = Vec::new();
    let mut i: usize = 0;
    while i < v.len()
        invariant
            i <= v@.len(),
            strings_view(r@) == strings_view(v@.take(i as int)),
        decreases v.len() - i,
    {
        let c = v[i].clone();
        assert(c@ == v@[i as int]@);
        let ghost prev = strings_view(r@);
        r.push(c);
        assert(strings_view(r@) =~= prev.push(c@));
        assert(strings_view(v@.take(i + 1)) =~= strings_view(v@.take(i as int)).push(v@[i as int]@));
        i = i + 1;
    }
    assert(v@.take(v@.len() as int) == v@);
    r
}

impl CrawlFrontier {
    /// A crawl that starts at `start_url` (at depth 0), with at most
    /// `max(max_pages, 1)` pages and links followed to depth `max_depth`.
    pub fn new(start_url: &str, max_pages: usize, max_depth: usize) -> (f: Self)
        ensures
            f@ == (FrontierState {
                start_url: start_url@,
                max_pages: if max_pages == 0 {
                    1
                } else {
                    max_pages as nat
                },
                max_depth: max_depth as nat,
                visited: seq![normalized(start_url@)],
                queue: seq![(start_url@, 0nat, false)],
                scheduled: 1,
                in_flight: 0,
                crawled: 0,
                linked: Seq::empty(),
            }),
            frontier_wf(f@),
    {
        let mut visited: Vec<String> = Vec::new();
        visited.push(crate::weburl::normalize(start_url));
        let mut queue: VecDeque<FrontierEntry> = VecDeque::new();
        queue.push_back(FrontierEntry { url: start_url.to_string(), depth: 0, via_sitemap: false });
        let f = CrawlFrontier {
            start_url: start_url.to_string(),
            max_pages: if max_pages == 0 {
                1
            } else {
                max_pages
            },
            max_depth,
            visited,
            queue,
            scheduled: 1,
            in_flight: 0,
            crawled: 0,
            linked: Vec::new(),
        };
        assert(f@.visited =~= seq![normalized(start_url@)]);
        assert(f@.queue =~= seq![(start_url@, 0nat, false)]);
        assert(f@.linked =~= Seq::<Seq<char>>::empty());
        assert(f@.visited[0] == normalized(start_url@));
        f
    }

    /// Schedules `url` at `depth` unless its key was seen or the budget is spent.
    fn offer_exec(&mut self, url: &String, depth: usize, via_sitemap: bool)
        requires
            frontier_wf(old(self)@),
            depth <= old(self)@.max_depth,
        ensures
            final(self)@ == offer(old(self)@, url@, depth as nat, via_sitemap),
            frontier_wf(final(self)@),
    {
        proof {
            lemma_offer_wf(self@, url@, depth as nat, via_sitemap);
        }
        let key = crate::weburl::normalize(url.as_str());
        if !contains_string(&self.visited, &key) && self.scheduled < self.max_pages {
            let ghost s = self@;
            self.visited.push(key);
            self.queue.push_back(
                FrontierEntry { url: url.clone(), depth, via_sitemap },
            );
            self.scheduled = self.scheduled + 1;
            assert(self@.visited =~= s.visited.push(normalized(url@)));
            assert(self@.queue =~= s.queue.push((url@, depth as nat, via_sitemap)));
        }
    }

    /// Schedules the sitemap's URLs that are on the start URL's host, at depth 0.
    pub fn add_sitemap_urls(&mut self, urls: &Vec<String>)
        requires
            frontier_wf(old(self)@),
        ensures
            final(self)@ == offer_sitemap(old(self)@, strings_view(urls@)),
            frontier_wf(final(self)@),
    {
        let start_host = crate::weburl::url_host(self.start_url.as_str());
        let ghost s0 = self@;
        let mut i: usize = 0;
        while i < urls.len()
            invariant
                i <= urls@.len(),
                frontier_wf(self@),
                self@ == offer_sitemap(s0, strings_view(urls@.take(i as int))),
                self@.start_url == s0.start_url,
                crate::weburl::opt_view(start_host) == spec_url_host(s0.start_url),
            decreases urls.len() - i,
        {
            let ghost t = strings_view(urls@.take(i + 1));
            assert(t.drop_last() == strings_view(urls@.take(i as int)));
            assert(t.last() == urls@[i as int]@);
            let h = crate::weburl::url_host(urls[i].as_str());
            let same = match (&h, &start_host) {
                (Some(a), Some(b)) => crate::text::chars_eq(
                    &crate::text::chars_of(a.as_str()),
                    &crate::text::chars_of(b.as_str()),
                ),
                (None, None) => true,
                _ => false,
            };
            if same {
                self.offer_exec(&urls[i], 0, true);
            }
            i = i + 1;
        }
        assert(urls@.take(urls@.len() as int) == urls@);
    }

    /// Whether another page may be handed out while `running` pages are
    /// being fetched, at most `concurrency` at a time.
    pub fn wants_more(&self, running: usize, concurrency: usize) -> (b: bool)
        ensures
            b == (running < concurrency && self@.queue.len() > 0),
    {
        running < concurrency && self.queue.len() > 0
    }

    /// Hands out the next waiting page: robots.txt `rules`, when given,
    /// decide on the URL's path; a forbidden page is counted as crawled and
    /// gets its final result at once.
    pub fn take_next(&mut self, rules: &Option<RobotsRules>) -> (d: Option<Dispatch>)
        requires
            frontier_wf(old(self)@),
        ensures
            frontier_wf(final(self)@),
            old(self)@.queue.len() == 0 ==> d is None && final(self)@ == old(self)@,
            old(self)@.queue.len() > 0 ==> {
                let (url, depth, via) = old(self)@.queue[0];
                let rest = FrontierState { queue: old(self)@.queue.drop_first(), ..old(self)@ };
                if rules matches Some(r) && !r.allows(robots_path(url)) {
                    &&& d matches Some(Dispatch::Blocked(p)) && blocked_result(p, url, depth)
                    &&& final(self)@ == FrontierState { crawled: rest.crawled + 1, ..rest }
                } else {
                    &&& d matches Some(Dispatch::Fetch(e)) && entry_view(e) == (url, depth, via)
                    &&& final(self)@ == FrontierState { in_flight: rest.in_flight + 1, ..rest }
                }
            },
            final(self)@ == take_step(old(self)@, d matches Some(Dispatch::Blocked(_))),
    {
        let ghost s = self@;
        match self.queue.pop_front() {
            None => None,
            Some(e) => {
                assert(self.queue@.map_values(|e: FrontierEntry| entry_view(e)) =~= s.queue.drop_first());
                assert(s.queue[0] == entry_view(e));
                proof {
                    assert forall|i: int| 0 <= i < self@.queue.len() implies self@.visited.contains(
                        normalized((#[trigger] self@.queue[i]).0),
                    ) && self@.queue[i].1 <= self@.max_depth by {
                        assert(self@.queue[i] == s.queue[i + 1]);
                    }
                }
                let blocked = match rules {
                    Some(r) => {
                        let path = match crate::weburl::url_path(e.url.as_str()) {
                            Some(p) => p,
                            None => String::new(),
                        };
                        !r.is_allowed(path.as_str())
                    },
                    None => false,
                };
                if blocked {
                    self.crawled = self.crawled + 1;
                    Some(Dispatch::Blocked(crate::page::robots_blocked_result(e.url.as_str(), e.depth)))
                } else {
                    self.in_flight = self.in_flight + 1;
                    Some(Dispatch::Fetch(e))
                }
            },
        }
    }

    /// Records a fetched page at `depth` and the internal links found on
    /// it: each link is noted as linked and, below the depth limit,
    /// scheduled one level deeper.
    pub fn record_page(&mut self, depth: usize, internal_links: &Vec<String>)
        requires
            frontier_wf(old(self)@),
            old(self)@.in_flight > 0,
        ensures
            final(self)@ == follow_links(
                FrontierState {
                    crawled: old(self)@.crawled + 1,
                    in_flight: (old(self)@.in_flight - 1) as nat,
                    ..old(self)@
                },
                depth as nat,
                strings_view(internal_links@),
            ),
            final(self)@ == record_step(old(self)@, depth as nat, strings_view(internal_links@)),
            frontier_wf(final(self)@),
    {
        self.crawled = self.crawled + 1;
        self.in_flight = self.in_flight - 1;
        let ghost s0 = self@;
        let mut i: usize = 0;
        while i < internal_links.len()
            invariant
                i <= internal_links@.len(),
                frontier_wf(self@),
                self@ == follow_links(s0, depth as nat, strings_view(internal_links@.take(i as int))),
                self@.max_depth == s0.max_depth,
            decreases internal_links.len() - i,
        {
            let ghost t = strings_view(internal_links@.take(i + 1));
            assert(t.drop_last() == strings_view(internal_links@.take(i as int)));
            assert(t.last() == internal_links@[i as int]@);
            let link = &internal_links[i];
            let key = crate::weburl::normalize(link.as_str());
            proof {
                lemma_note_link_wf(self@, key@);
            }
            if !contains_string(&self.linked, &key) {
                let ghost before = self@;
                self.linked.push(key);
                assert(self@.linked =~= before.linked.push(normalized(link@)));
            }
            if depth < self.max_depth {
                self.offer_exec(link, depth + 1, false);
            }
            i = i + 1;
        }
        assert(internal_links@.take(internal_links@.len() as int) == internal_links@);
    }

    /// Pages waiting to be fetched.
    pub fn queued(&self) -> (n: usize)
        ensures
            n == self@.queue.len(),
    {
        self.queue.len()
    }

    /// Pages crawled so far (fetched, failed or forbidden).
    pub fn crawled(&self) -> (n: usize)
        ensures
            n == self@.crawled,
    {
        self.crawled
    }

    /// Pages handed out and not yet recorded.
    pub fn in_flight(&self) -> (n: usize)
        ensures
            n == self@.in_flight,
    {
        self.in_flight
    }

    /// Keys of every internal link target seen on a crawled page; pages that
    /// were only found in the sitemap and are not among them are orphans.
    pub fn linked_urls(&self) -> (r: Vec<String>)
        ensures
            strings_view(r@) == self@.linked,
    {
        copy_strings(&self.linked)
    }

    /// Progress counters.
    pub fn progress(&self, resources_checked: usize, resources_total: usize, paused: bool) -> (p:
        crate::types::CrawlProgress)
        ensures
            p.crawled == self@.crawled,
            p.queued == self@.queue.len(),
            p.resources_checked == resources_checked,
            p.resources_total == resources_total,
            p.running,
            p.paused == paused,
    {
        crate::types::CrawlProgress {
            crawled: self.crawled,
            queued: self.queue.len(),
            resources_checked,
            resources_total,
            running: true,
            paused,
        }
    }
}


// ---------------------------------------------------------------------------
// Laws

/// A URL whose key was scheduled before is never scheduled again.
pub proof fn law_seen_url_not_rescheduled(s: FrontierState, url: Seq<char>, depth: nat, via: bool)
    requires
        s.visited.contains(normalized(url)),
    ensures
        offer(s, url, depth, via) == s,
{
}

/// Following a page's links keeps every key scheduled at most once, keeps
/// the page budget and the depth limit, and only ever adds keys.
pub proof fn law_following_links_keeps_invariant(s: FrontierState, depth: nat, links: Seq<Seq<char>>)
    requires
        frontier_wf(s),
    ensures
        frontier_wf(follow_links(s, depth, links)),
        s.visited.is_prefix_of(follow_links(s, depth, links).visited),
        follow_links(s, depth, links).scheduled <= s.max_pages,
        follow_links(s, depth, links).max_pages == s.max_pages,
        follow_links(s, depth, links).max_depth == s.max_depth,
        follow_links(s, depth, links).start_url == s.start_url,
    decreases links.len(),
{
    if links.len() > 0 {
        law_following_links_keeps_invariant(s, depth, links.drop_last());
        let t = follow_links(s, depth, links.drop_last());
        let u = links.last();
        lemma_note_link_wf(t, normalized(u));
        let t2 = note_link(t, normalized(u));
        if depth < s.max_depth {
            lemma_offer_wf(t2, u, depth + 1, false);
        }
    }
}

/// Scheduling sitemap URLs keeps every key scheduled at most once, keeps
/// the page budget, and only ever adds keys.
pub proof fn law_sitemap_keeps_invariant(s: FrontierState, urls: Seq<Seq<char>>)
    requires
        frontier_wf(s),
    ensures
        frontier_wf(offer_sitemap(s, urls)),
        s.visited.is_prefix_of(offer_sitemap(s, urls).visited),
        offer_sitemap(s, urls).scheduled <= s.max_pages,
        offer_sitemap(s, urls).start_url == s.start_url,
        offer_sitemap(s, urls).max_pages == s.max_pages,
        offer_sitemap(s, urls).max_depth == s.max_depth,
    decreases urls.len(),
{
    if urls.len() > 0 {
        law_sitemap_keeps_invariant(s, urls.drop_last());
        let t = offer_sitemap(s, urls.drop_last());
        lemma_offer_wf(t, urls.last(), 0, true);
    }
}


/// Whatever the order in which sitemap URLs are offered, pages handed out and
/// fetched pages recorded, a crawl keeps its invariant: no URL key is ever
/// scheduled twice, never more than `max_pages` pages are scheduled, every
/// waiting page is within the depth limit, and scheduled keys are only ever
/// added.
pub proof fn law_whole_run_keeps_invariant(s: FrontierState, es: Seq<FrontierEvent>)
    requires
        frontier_wf(s),
    ensures
        frontier_wf(run_events(s, es)),
        s.visited.is_prefix_of(run_events(s, es).visited),
        run_events(s, es).scheduled <= s.max_pages,
        run_events(s, es).max_pages == s.max_pages,
        run_events(s, es).max_depth == s.max_depth,
        run_events(s, es).start_url == s.start_url,
    decreases es.len(),
{
    if es.len() > 0 {
        law_whole_run_keeps_invariant(s, es.drop_last());
        let t = run_events(s, es.drop_last());
        let u = apply_event(t, es.last());
        match es.last() {
            FrontierEvent::Sitemap(urls) => {
                law_sitemap_keeps_invariant(t, urls);
            },
            FrontierEvent::Take(blocked) => {
                if t.queue.len() > 0 {
                    assert forall|i: int| 0 <= i < u.queue.len() implies u.visited.contains(
                        normalized((#[trigger] u.queue[i]).0),
                    ) && u.queue[i].1 <= u.max_depth by {
                        assert(u.queue[i] == t.queue[i + 1]);
                    }
                }
            },
            FrontierEvent::Record(depth, links) => {
                if t.in_flight > 0 {
                    let r = FrontierState {
                        crawled: t.crawled + 1,
                        in_flight: (t.in_flight - 1) as nat,
                        ..t
                    };
                    law_following_links_keeps_invariant(r, depth, links);
                }
            },
        }
        assert(s.visited.is_prefix_of(u.visited)) by {
            assert forall|i: int| 0 <= i < s.visited.len() implies s.visited[i] == u.visited[i] by {
                assert(s.visited[i] == t.visited[i]);
                assert(t.visited[i] == u.visited[i]);
            }
        }
    }
}


/// `e` offers sitemap URLs among which is `url`.
pub open spec fn sitemap_offers(e: FrontierEvent, url: Seq<char>) -> bool {
    e matches FrontierEvent::Sitemap(urls) && urls.contains(url)
}

/// `e` records a page at `depth` on which `url` is an internal link.
pub open spec fn link_on_page(e: FrontierEvent, depth: nat, url: Seq<char>) -> bool {
    e matches FrontierEvent::Record(d, links) && d == depth && links.contains(url)
}

/// Where a page scheduled at `depth` during the events `es` after `s0` may
/// come from: the start URL at depth 0, a sitemap URL on the start URL's
/// host at depth 0, or an internal link of a page recorded at `depth - 1`,
/// within the depth limit.
pub open spec fn scheduled_from(s0: FrontierState, es: Seq<FrontierEvent>, url: Seq<char>, depth: nat) -> bool {
    ||| depth == 0 && url == s0.start_url
    ||| depth == 0 && spec_url_host(url) == spec_url_host(s0.start_url) && exists|i: int|
        0 <= i < es.len() && #[trigger] sitemap_offers(es[i], url)
    ||| 1 <= depth <= s0.max_depth && exists|i: int|
        0 <= i < es.len() && #[trigger] link_on_page(es[i], (depth - 1) as nat, url)
}

/// Every scheduled key comes from some URL scheduled that way.
pub open spec fn key_scheduled_from(s0: FrontierState, es: Seq<FrontierEvent>, key: Seq<char>) -> bool {
    exists|u: Seq<char>, d: nat| normalized(u) == key && #[trigger] scheduled_from(s0, es, u, d)
}

proof fn lemma_scheduled_from_later(s0: FrontierState, es: Seq<FrontierEvent>, url: Seq<char>, depth: nat)
    requires
        es.len() > 0,
        scheduled_from(s0, es.drop_last(), url, depth),
    ensures
        scheduled_from(s0, es, url, depth),
{
    let p = es.drop_last();
    if depth == 0 && url == s0.start_url {
    } else if depth == 0 && spec_url_host(url) == spec_url_host(s0.start_url) && exists|i: int|
        0 <= i < p.len() && #[trigger] sitemap_offers(p[i], url) {
        let i = choose|i: int| 0 <= i < p.len() && #[trigger] sitemap_offers(p[i], url);
        assert(es[i] == p[i]);
        assert(sitemap_offers(es[i], url));
    } else {
        let i = choose|i: int| 0 <= i < p.len() && #[trigger] link_on_page(p[i], (depth - 1) as nat, url);
        assert(es[i] == p[i]);
        assert(link_on_page(es[i], (depth - 1) as nat, url));
    }
}

/// What offering sitemap URLs adds: pairs of a queued page and its key,
/// each a URL of `urls` on the start URL's host, at depth 0.
proof fn lemma_sitemap_growth(t: FrontierState, urls: Seq<Seq<char>>)
    ensures
        ({
            let r = offer_sitemap(t, urls);
            &&& r.start_url == t.start_url
            &&& r.max_depth == t.max_depth
            &&& t.queue.len() <= r.queue.len()
            &&& t.visited.len() <= r.visited.len()
            &&& r.queue.len() - t.queue.len() == r.visited.len() - t.visited.len()
            &&& forall|j: int| 0 <= j < t.queue.len() ==> r.queue[j] == t.queue[j]
            &&& forall|j: int| 0 <= j < t.visited.len() ==> r.visited[j] == t.visited[j]
            &&& forall|j: int|
                t.queue.len() <= j < r.queue.len() ==> {
                    &&& (#[trigger] r.queue[j]).1 == 0
                    &&& urls.contains(r.queue[j].0)
                    &&& spec_url_host(r.queue[j].0) == spec_url_host(t.start_url)
                    &&& r.visited[j - t.queue.len() + t.visited.len()] == normalized(r.queue[j].0)
                }
        }),
    decreases urls.len(),
{
    if urls.len() > 0 {
        let p = urls.drop_last();
        lemma_sitemap_growth(t, p);
        let tt = offer_sitemap(t, p);
        let u = urls.last();
        let r = offer_sitemap(t, urls);
        assert forall|j: int| t.queue.len() <= j < r.queue.len() implies {
            &&& (#[trigger] r.queue[j]).1 == 0
            &&& urls.contains(r.queue[j].0)
            &&& spec_url_host(r.queue[j].0) == spec_url_host(t.start_url)
            &&& r.visited[j - t.queue.len() + t.visited.len()] == normalized(r.queue[j].0)
        } by {
            if j < tt.queue.len() {
                assert(r.queue[j] == tt.queue[j]);
                let k = choose|k: int| 0 <= k < p.len() && p[k] == tt.queue[j].0;
                assert(urls[k] == p[k]);
                assert(r.visited[j - t.queue.len() + t.visited.len()] == tt.visited[j - t.queue.len() + t.visited.len()]);
            } else {
                assert(urls[urls.len() - 1] == u);
            }
        }
    }
}

/// What following a page's links adds: pairs of a queued page and its key,
/// each a link of `links` at `depth + 1`, below the depth limit.
proof fn lemma_links_growth(t: FrontierState, depth: nat, links: Seq<Seq<char>>)
    ensures
        ({
            let r = follow_links(t, depth, links);
            &&& r.start_url == t.start_url
            &&& r.max_depth == t.max_depth
            &&& t.queue.len() <= r.queue.len()
            &&& t.visited.len() <= r.visited.len()
            &&& r.queue.len() - t.queue.len() == r.visited.len() - t.visited.len()
            &&& forall|j: int| 0 <= j < t.queue.len() ==> r.queue[j] == t.queue[j]
            &&& forall|j: int| 0 <= j < t.visited.len() ==> r.visited[j] == t.visited[j]
            &&& forall|j: int|
                t.queue.len() <= j < r.queue.len() ==> {
                    &&& (#[trigger] r.queue[j]).1 == depth + 1
                    &&& depth < t.max_depth
                    &&& links.contains(r.queue[j].0)
                    &&& r.visited[j - t.queue.len() + t.visited.len()] == normalized(r.queue[j].0)
                }
        }),
    decreases links.len(),
{
    if links.len() > 0 {
        let p = links.drop_last();
        lemma_links_growth(t, depth, p);
        let tt = follow_links(t, depth, p);
        let u = links.last();
        let t2 = note_link(tt, normalized(u));
        let r = follow_links(t, depth, links);
        assert forall|j: int| t.queue.len() <= j < r.queue.len() implies {
            &&& (#[trigger] r.queue[j]).1 == depth + 1
            &&& depth < t.max_depth
            &&& links.contains(r.queue[j].0)
            &&& r.visited[j - t.queue.len() + t.visited.len()] == normalized(r.queue[j].0)
        } by {
            if j < tt.queue.len() {
                assert(r.queue[j] == tt.queue[j]);
                let k = choose|k: int| 0 <= k < p.len() && p[k] == tt.queue[j].0;
                assert(links[k] == p[k]);
                assert(r.visited[j - t.queue.len() + t.visited.len()] == tt.visited[j - t.queue.len() + t.visited.len()]);
            } else {
                assert(links[links.len() - 1] == u);
            }
        }
    }
}

/// Where every scheduled page comes from, over a whole crawl that starts
/// from a fresh schedule (its start URL alone, at depth 0): each waiting
/// page, and the key of each page ever scheduled, is the start URL or a
/// sitemap URL on the start URL's host, at depth 0, or an internal link of a
/// page recorded at depth `d`, scheduled at `d + 1` within the depth limit.
pub proof fn law_scheduled_pages_have_origin(s0: FrontierState, es: Seq<FrontierEvent>)
    requires
        frontier_wf(s0),
        s0.visited == seq![normalized(s0.start_url)],
        s0.queue == seq![(s0.start_url, 0nat, false)],
    ensures
        forall|j: int|
            0 <= j < run_events(s0, es).queue.len() ==> scheduled_from(
                s0,
                es,
                (#[trigger] run_events(s0, es).queue[j]).0,
                run_events(s0, es).queue[j].1,
            ),
        forall|j: int|
            0 <= j < run_events(s0, es).visited.len() ==> key_scheduled_from(
                s0,
                es,
                #[trigger] run_events(s0, es).visited[j],
            ),
    decreases es.len(),
{
    if es.len() == 0 {
        assert(scheduled_from(s0, es, s0.start_url, 0));
        assert forall|j: int| 0 <= j < s0.visited.len() implies key_scheduled_from(
            s0,
            es,
            #[trigger] s0.visited[j],
        ) by {
            assert(scheduled_from(s0, es, s0.start_url, 0));
        }
    } else {
        let p = es.drop_last();
        law_scheduled_pages_have_origin(s0, p);
        law_whole_run_keeps_invariant(s0, p);
        let t = run_events(s0, p);
        let r = run_events(s0, es);
        let e = es.last();
        assert(es[es.len() - 1] == e);
        // What was scheduled before stays explained.
        assert forall|j: int| 0 <= j < t.queue.len() implies scheduled_from(
            s0,
            es,
            (#[trigger] t.queue[j]).0,
            t.queue[j].1,
        ) by {
            lemma_scheduled_from_later(s0, es, t.queue[j].0, t.queue[j].1);
        }
        assert forall|j: int| 0 <= j < t.visited.len() implies key_scheduled_from(
            s0,
            es,
            #[trigger] t.visited[j],
        ) by {
            assert(key_scheduled_from(s0, p, t.visited[j]));
            let (u, d) = choose|u: Seq<char>, d: nat| normalized(u) == t.visited[j] && #[trigger] scheduled_from(s0, p, u, d);
            lemma_scheduled_from_later(s0, es, u, d);
        }
        match e {
            FrontierEvent::Take(blocked) => {
                if t.queue.len() > 0 {
                    assert forall|j: int| 0 <= j < r.queue.len() implies scheduled_from(
                        s0,
                        es,
                        (#[trigger] r.queue[j]).0,
                        r.queue[j].1,
                    ) by {
                        assert(r.queue[j] == t.queue[j + 1]);
                    }
                }
            },
            FrontierEvent::Sitemap(urls) => {
                lemma_sitemap_growth(t, urls);
                assert forall|j: int| 0 <= j < r.queue.len() implies scheduled_from(
                    s0,
                    es,
                    (#[trigger] r.queue[j]).0,
                    r.queue[j].1,
                ) by {
                    if j < t.queue.len() {
                        assert(r.queue[j] == t.queue[j]);
                    } else {
                        assert(sitemap_offers(es[es.len() - 1], r.queue[j].0));
                    }
                }
                assert forall|j: int| 0 <= j < r.visited.len() implies key_scheduled_from(
                    s0,
                    es,
                    #[trigger] r.visited[j],
                ) by {
                    if j < t.visited.len() {
                        assert(r.visited[j] == t.visited[j]);
                    } else {
                        let q = j - t.visited.len() + t.queue.len();
                        assert(r.visited[q - t.queue.len() + t.visited.len()] == normalized(r.queue[q].0));
                        assert(sitemap_offers(es[es.len() - 1], r.queue[q].0));
                        assert(scheduled_from(s0, es, r.queue[q].0, r.queue[q].1));
                    }
                }
            },
            FrontierEvent::Record(depth, links) => {
                if t.in_flight > 0 {
                    let t1 = FrontierState {
                        crawled: t.crawled + 1,
                        in_flight: (t.in_flight - 1) as nat,
                        ..t
                    };
                    lemma_links_growth(t1, depth, links);
                    assert forall|j: int| 0 <= j < r.queue.len() implies scheduled_from(
                        s0,
                        es,
                        (#[trigger] r.queue[j]).0,
                        r.queue[j].1,
                    ) by {
                        if j < t.queue.len() {
                            assert(r.queue[j] == t.queue[j]);
                        } else {
                            assert(link_on_page(es[es.len() - 1], depth, r.queue[j].0));
                            assert((r.queue[j].1 - 1) as nat == depth);
                        }
                    }
                    assert forall|j: int| 0 <= j < r.visited.len() implies key_scheduled_from(
                        s0,
                        es,
                        #[trigger] r.visited[j],
                    ) by {
                        if j < t.visited.len() {
                            assert(r.visited[j] == t.visited[j]);
                        } else {
                            let q = j - t.visited.len() + t.queue.len();
                            assert(r.visited[q - t.queue.len() + t.visited.len()] == normalized(r.queue[q].0));
                            assert(link_on_page(es[es.len() - 1], depth, r.queue[q].0));
                            assert((r.queue[q].1 - 1) as nat == depth);
                            assert(scheduled_from(s0, es, r.queue[q].0, r.queue[q].1));
                        }
                    }
                }
            },
        }
    }
}

} // verus!
