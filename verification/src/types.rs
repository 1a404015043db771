//! Plain data exchanged between the crawler and its user interface.

use vstd::prelude::*;

verus! {

broadcast use vstd::string::group_string_axioms;

/// Settings of one crawl.
pub struct CrawlConfig {
    pub start_url: String,
    pub max_pages: usize,
    pub max_depth: usize,
    pub concurrency: usize,
    pub user_agent: String,
    pub timeout_secs: u64,
    pub check_external_links: bool,
    pub check_images: bool,
    pub respect_robots: bool,
    pub use_sitemap: bool,
    pub render_js: bool,
}

/// Default page budget of a crawl.
pub fn default_max_pages() -> (r: usize)
    ensures
        r == 500,
{
    500
}

/// Default link depth of a crawl.
pub fn default_max_depth() -> (r: usize)
    ensures
        r == 10,
{
    10
}

/// Default number of pages fetched at once.
pub fn default_concurrency() -> (r: usize)
    ensures
        r == 5,
{
    5
}

/// Default `User-Agent` header.
pub fn default_user_agent() -> (r: String)
    ensures
        r@ == "GSEOCrawler/0.1 (+https://worldcraftlogistics.com)"@,
{
    "GSEOCrawler/0.1 (+https://worldcraftlogistics.com)".to_string()
}

/// Default request timeout, in seconds.
pub fn default_timeout() -> (r: u64)
    ensures
        r == 15,
{
    15
}

/// Default of the checks that are on unless switched off.
pub fn default_true() -> (r: bool)
    ensures
        r,
{
    true
}

/// Kind of a checked resource.
#[derive(Clone, Copy, PartialEq, Eq, Debug)]
pub enum ResourceType {
    Link,
    Image,
}

/// What the crawler found out about one page.
///
/// `minify_savings_pct_bits` holds the IEEE-754 bits of the estimated
/// minification savings, a percentage.
pub struct PageResult {
    pub url: String,
    pub depth: usize,
    pub status: Option<u16>,
    pub status_text: String,
    pub content_type: Option<String>,
    pub title: Option<String>,
    pub title_length: usize,
    pub meta_description: Option<String>,
    pub meta_description_length: usize,
    pub h1: Option<String>,
    pub h1_count: usize,
    pub word_count: usize,
    pub canonical: Option<String>,
    pub meta_robots: Option<String>,
    pub redirect_url: Option<String>,
    pub indexability: String,
    pub response_time_ms: u64,
    pub internal_link_count: usize,
    pub external_link_count: usize,
    pub image_count: usize,
    pub html_size_bytes: usize,
    pub minify_savings_pct_bits: u64,
    pub is_minified: bool,
    pub rendered: bool,
    pub error: Option<String>,
}

/// The state of a checked link or image.
pub struct ResourceResult {
    pub url: String,
    pub resource_type: ResourceType,
    pub source_page: String,
    pub alt_text: Option<String>,
    pub status: Option<u16>,
    pub status_text: String,
    pub is_internal: bool,
    pub error: Option<String>,
}

/// Progress counters reported while a crawl runs.
pub struct CrawlProgress {
    pub crawled: usize,
    pub queued: usize,
    pub resources_checked: usize,
    pub resources_total: usize,
    pub running: bool,
    pub paused: bool,
}

/// Final counters of a crawl.
pub struct CrawlSummary {
    pub pages_crawled: usize,
    pub resources_checked: usize,
    pub cancelled: bool,
}

/// A saved crawl.
pub struct CrawlSnapshot {
    pub start_url: String,
    pub saved_at_unix_ms: u64,
    pub pages: Vec<PageResult>,
    pub resources: Vec<ResourceResult>,
}

} // verus!
