use seocrawler::robots::RobotsRules;

#[test]
fn allow_all_has_no_rules_or_delay() {
    let rules = RobotsRules::allow_all();
    assert!(rules.is_allowed("/anything"));
    assert_eq!(rules.crawl_delay_ms, None);
}

#[test]
fn disallow_blocks_matching_prefix() {
    let rules = RobotsRules::parse("User-agent: *\nDisallow: /admin\n");
    assert!(!rules.is_allowed("/admin"));
    assert!(!rules.is_allowed("/admin/settings"));
    assert!(rules.is_allowed("/blog"));
}

#[test]
fn longer_allow_overrides_shorter_disallow() {
    let rules = RobotsRules::parse("User-agent: *\nDisallow: /private\nAllow: /private/public-page\n");
    assert!(!rules.is_allowed("/private/secret"));
    assert!(rules.is_allowed("/private/public-page"));
    assert!(rules.is_allowed("/private/public-page/sub"));
}

#[test]
fn only_the_wildcard_user_agent_group_is_honored() {
    let rules = RobotsRules::parse("User-agent: Googlebot\nDisallow: /googlebot-only\n\nUser-agent: *\nDisallow: /everyone\n");
    assert!(rules.is_allowed("/googlebot-only"));
    assert!(!rules.is_allowed("/everyone"));
}

#[test]
fn crawl_delay_is_parsed_as_milliseconds() {
    let rules = RobotsRules::parse("User-agent: *\nCrawl-delay: 2\n");
    assert_eq!(rules.crawl_delay_ms, Some(2000));
}

#[test]
fn crawl_delay_supports_fractional_seconds() {
    let rules = RobotsRules::parse("User-agent: *\nCrawl-delay: 0.5\n");
    assert_eq!(rules.crawl_delay_ms, Some(500));
}

#[test]
fn crawl_delay_outside_wildcard_group_is_ignored() {
    let rules = RobotsRules::parse("User-agent: Bingbot\nCrawl-delay: 10\n\nUser-agent: *\nDisallow: /x\n");
    assert_eq!(rules.crawl_delay_ms, None);
}

#[test]
fn malformed_crawl_delay_is_ignored() {
    let rules = RobotsRules::parse("User-agent: *\nCrawl-delay: not-a-number\n");
    assert_eq!(rules.crawl_delay_ms, None);
}

#[test]
fn comments_and_blank_lines_are_ignored() {
    let rules = RobotsRules::parse("# a comment\n\nUser-agent: *\n# another comment\nDisallow: /x # trailing comment\n");
    assert!(!rules.is_allowed("/x"));
    assert!(rules.is_allowed("/y"));
}

// ---------------------------------------------------------------------------

#[test]
fn allow_beats_disallow_of_equal_length() {
    let rules = RobotsRules::parse("User-agent: *\nDisallow: /same\nAllow: /same\n");
    assert!(rules.is_allowed("/same/page"));
}

#[test]
fn longer_disallow_beats_shorter_allow() {
    let rules = RobotsRules::parse("User-agent: *\nAllow: /docs\nDisallow: /docs/internal\n");
    assert!(rules.is_allowed("/docs/public"));
    assert!(!rules.is_allowed("/docs/internal/x"));
}

#[test]
fn keys_are_case_insensitive_and_values_trimmed() {
    let rules = RobotsRules::parse("USER-AGENT:   *  \r\nDISALLOW:   /tmp   \r\n");
    assert!(!rules.is_allowed("/tmp/file"));
    assert!(rules.is_allowed("/tm"));
}

#[test]
fn empty_disallow_allows_everything() {
    let rules = RobotsRules::parse("User-agent: *\nDisallow:\n");
    assert!(rules.is_allowed("/"));
    assert!(rules.is_allowed("/anything"));
}

#[test]
fn lines_without_colon_are_skipped() {
    let rules = RobotsRules::parse("User-agent *\nDisallow: /a\n");
    assert!(rules.is_allowed("/a"));
}

#[test]
fn user_agent_star_must_be_exact() {
    let rules = RobotsRules::parse("User-agent: *bot\nDisallow: /a\n");
    assert!(rules.is_allowed("/a"));
}

#[test]
fn later_valid_delay_wins_and_invalid_keeps_previous() {
    let rules = RobotsRules::parse("User-agent: *\nCrawl-delay: 3\nCrawl-delay: oops\n");
    assert_eq!(rules.crawl_delay_ms, Some(3000));
    let rules = RobotsRules::parse("User-agent: *\nCrawl-delay: 3\nCrawl-delay: 1.25\n");
    assert_eq!(rules.crawl_delay_ms, Some(1250));
}

#[test]
fn crawl_delay_number_forms() {
    let d = |v: &str| RobotsRules::parse(&format!("User-agent: *\nCrawl-delay: {}\n", v)).crawl_delay_ms;
    assert_eq!(d("1e3"), Some(1_000_000));
    assert_eq!(d("2E-3"), Some(2));
    assert_eq!(d(".25"), Some(250));
    assert_eq!(d("4."), Some(4000));
    assert_eq!(d("+1.5"), Some(1500));
    assert_eq!(d("-0"), Some(0));
    assert_eq!(d("0.0004"), Some(0));
    assert_eq!(d("-1"), None);
    assert_eq!(d("inf"), None);
    assert_eq!(d("nan"), None);
    assert_eq!(d("."), None);
    assert_eq!(d("1e"), None);
    assert_eq!(d("1.2.3"), None);
    assert_eq!(d("99999999999999999999"), Some(u64::MAX));
}

#[test]
fn from_fetch_without_body_allows_all() {
    let rules = RobotsRules::from_fetch(None);
    assert!(rules.is_allowed("/x"));
    assert_eq!(rules.crawl_delay_ms, None);
    let rules = RobotsRules::from_fetch(Some("User-agent: *\nDisallow: /x\n".to_string()));
    assert!(!rules.is_allowed("/x"));
}

#[test]
fn crawl_delay_beyond_f64_is_refused() {
    let d = |v: &str| RobotsRules::parse(&format!("User-agent: *\nCrawl-delay: {}\n", v)).crawl_delay_ms;
    assert_eq!(d("1e400"), None);
    assert_eq!(d("1.7976931348623157e308"), Some(u64::MAX));
    assert_eq!(d("179769313486231580793728971405303415079934132710037826936173778980444968292764750946649017977587207096330286416692887910946555547851940402630657488671505820681908902000708383676273854845817711531764475730270069855571366959622842914819860834936475292719074168444365510704342711559699508093042880177904174497792"), None);
    assert_eq!(d("179769313486231580793728971405303415079934132710037826936173778980444968292764750946649017977587207096330286416692887910946555547851940402630657488671505820681908902000708383676273854845817711531764475730270069855571366959622842914819860834936475292719074168444365510704342711559699508093042880177904174497791"), Some(u64::MAX));
    assert_eq!(d("179769313486231580793728971405303415079934132710037826936173778980444968292764750946649017977587207096330286416692887910946555547851940402630657488671505820681908902000708383676273854845817711531764475730270069855571366959622842914819860834936475292719074168444365510704342711559699508093042880177904174497791.999"), Some(u64::MAX));
    assert_eq!(d("0.179769313486231580793728971405303415079934132710037826936173778980444968292764750946649017977587207096330286416692887910946555547851940402630657488671505820681908902000708383676273854845817711531764475730270069855571366959622842914819860834936475292719074168444365510704342711559699508093042880177904174497792e309"), None);
    assert_eq!(d("1e-400"), Some(0));
}

#[test]
fn crawl_delay_getter_reads_the_field() {
    let rules = RobotsRules::parse("User-agent: *\nCrawl-delay: 1.5\n");
    assert_eq!(rules.crawl_delay_ms(), Some(1500));
    assert_eq!(RobotsRules::allow_all().crawl_delay_ms(), None);
}
