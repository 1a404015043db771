use seocrawler::frontier::{CrawlFrontier, Dispatch};
use seocrawler::robots::RobotsRules;

fn fetch(d: Option<Dispatch>) -> (String, usize, bool) {
    match d {
        Some(Dispatch::Fetch(e)) => (e.url, e.depth, e.via_sitemap),
        _ => panic!("expected a page to fetch"),
    }
}

#[test]
fn start_page_first_then_links_one_level_deeper() {
    let mut f = CrawlFrontier::new("https://a.test/", 10, 2);
    assert_eq!(f.queued(), 1);
    let (u, d, via) = fetch(f.take_next(&None));
    assert_eq!((u.as_str(), d, via), ("https://a.test/", 0, false));
    f.record_page(0, &vec!["https://a.test/a".to_string(), "https://a.test/#frag".to_string(), "https://a.test/a#x".to_string()]);
    assert_eq!(f.crawled(), 1);
    assert_eq!(f.queued(), 1);
    let (u, d, _) = fetch(f.take_next(&None));
    assert_eq!((u.as_str(), d), ("https://a.test/a", 1));
    assert!(f.take_next(&None).is_none());
    let mut linked = f.linked_urls();
    linked.sort();
    assert_eq!(linked, vec!["https://a.test/".to_string(), "https://a.test/a".to_string()]);
}

#[test]
fn depth_limit_and_page_budget() {
    let mut f = CrawlFrontier::new("https://a.test/", 2, 0);
    let _ = fetch(f.take_next(&None));
    f.record_page(0, &vec!["https://a.test/deep".to_string()]);
    assert_eq!(f.queued(), 0);
    assert_eq!(f.linked_urls(), vec!["https://a.test/deep".to_string()]);

    let mut f = CrawlFrontier::new("https://a.test/", 2, 5);
    let _ = fetch(f.take_next(&None));
    f.record_page(0, &vec!["https://a.test/1".to_string(), "https://a.test/2".to_string()]);
    assert_eq!(f.queued(), 1);
}

#[test]
fn zero_budget_still_crawls_start() {
    let mut f = CrawlFrontier::new("https://a.test/", 0, 5);
    let _ = fetch(f.take_next(&None));
    f.record_page(0, &vec!["https://a.test/1".to_string()]);
    assert_eq!(f.queued(), 0);
}

#[test]
fn sitemap_urls_on_same_host_only() {
    let mut f = CrawlFrontier::new("https://a.test/", 10, 3);
    f.add_sitemap_urls(&vec![
        "https://a.test/s1".to_string(),
        "https://b.test/s2".to_string(),
        "https://a.test/".to_string(),
    ]);
    assert_eq!(f.queued(), 2);
    let _ = fetch(f.take_next(&None));
    let (u, d, via) = fetch(f.take_next(&None));
    assert_eq!((u.as_str(), d, via), ("https://a.test/s1", 0, true));
}

#[test]
fn robots_blocked_pages_are_counted() {
    let rules = RobotsRules::parse("User-agent: *\nDisallow: /private\n");
    let mut f = CrawlFrontier::new("https://a.test/private/x?q=1", 10, 3);
    match f.take_next(&Some(rules)) {
        Some(Dispatch::Blocked(p)) => {
            assert_eq!(p.url, "https://a.test/private/x?q=1");
            assert_eq!(p.status_text, "Blocked");
        }
        _ => panic!("expected a blocked page"),
    }
    assert_eq!(f.crawled(), 1);
    assert_eq!(f.in_flight(), 0);
}

#[test]
fn concurrency_and_progress() {
    let f = CrawlFrontier::new("https://a.test/", 10, 3);
    assert!(f.wants_more(0, 2));
    assert!(!f.wants_more(2, 2));
    assert!(!f.wants_more(0, 0));
    let p = f.progress(3, 7, true);
    assert_eq!((p.crawled, p.queued, p.resources_checked, p.resources_total, p.running, p.paused), (0, 1, 3, 7, true, true));
}

#[test]
fn whole_run_schedules_each_url_once_within_budget_and_depth() {
    let mut f = CrawlFrontier::new("https://a.test/", 5, 2);
    f.add_sitemap_urls(&vec!["https://a.test/".to_string(), "https://a.test/s".to_string()]);
    let mut seen: Vec<(String, usize)> = Vec::new();
    while let Some(d) = f.take_next(&None) {
        let (u, depth, _) = fetch(Some(d));
        assert!(depth <= 2);
        assert!(!seen.iter().any(|(s, _)| s == &u));
        seen.push((u.clone(), depth));
        let links: Vec<String> = (0..4).map(|i| format!("{}{}/", u, i)).chain(std::iter::once(u.clone())).collect();
        f.record_page(depth, &links);
        assert!(f.crawled() + f.in_flight() + f.queued() <= 5);
    }
    assert_eq!(seen.len(), 5);
    assert_eq!(f.crawled(), 5);
}
