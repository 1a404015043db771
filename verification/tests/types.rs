use seocrawler::crawl::{begin_crawl, crawl_summary, resource_permits, round_end, site_file_url, start_url, RoundEnd};
use seocrawler::types::{
    default_concurrency, default_max_depth, default_max_pages, default_timeout, default_true,
    default_user_agent,
};

#[test]
fn config_defaults() {
    assert_eq!(default_max_pages(), 500);
    assert_eq!(default_max_depth(), 10);
    assert_eq!(default_concurrency(), 5);
    assert_eq!(default_timeout(), 15);
    assert!(default_true());
    assert_eq!(default_user_agent(), "GSEOCrawler/0.1 (+https://worldcraftlogistics.com)");
}

#[test]
fn crawl_decisions() {
    assert_eq!(begin_crawl(true), Err("A crawl is already running".to_string()));
    assert_eq!(begin_crawl(false), Ok(()));
    let s = crawl_summary(12, false, true);
    assert_eq!((s.pages_crawled, s.resources_checked, s.cancelled), (12, 0, true));
    assert!(!crawl_summary(1, false, false).cancelled);
    assert_eq!(resource_permits(0), 1);
    assert_eq!(resource_permits(4), 4);
    assert_eq!(site_file_url("https://a.test/deep/page?x", "/robots.txt"), Some("https://a.test/robots.txt".to_string()));
}

#[test]
fn start_url_is_parsed_or_refused() {
    assert_eq!(start_url("https://example.com").unwrap(), "https://example.com/");
    assert_eq!(start_url("HTTPS://Example.com/a#x").unwrap(), "https://example.com/a#x");
    let err = start_url("not a url").unwrap_err();
    assert_eq!(err, "Invalid start URL: relative URL without a base");
}

#[test]
fn round_end_decides_wait_idle_or_finish() {
    assert!(matches!(round_end(1, 0, false, 0), RoundEnd::Collect));
    assert!(matches!(round_end(0, 2, true, 5), RoundEnd::Collect));
    assert!(matches!(round_end(0, 0, true, 3), RoundEnd::Idle));
    assert!(matches!(round_end(0, 0, true, 0), RoundEnd::Finish));
    assert!(matches!(round_end(0, 0, false, 3), RoundEnd::Finish));
}
