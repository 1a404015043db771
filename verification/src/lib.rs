//! Verified core of an SEO site crawler: robots.txt rules, page analysis,
//! technology fingerprinting, crawl scheduling and report rows.

pub mod text;

pub mod crawl;
pub mod delay;
pub mod export;
pub mod frontier;
pub mod hosting;
pub mod html;
pub mod parse;
pub mod page;
pub mod resources;
pub mod robots;
pub mod sitemap;
pub mod techdetect;
pub mod types;
pub mod weburl;
