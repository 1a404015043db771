use seocrawler::sitemap::{child_sitemaps, parse_locs};

#[test]
fn locs_are_collected_and_parsed() {
    let xml = "<?xml version=\"1.0\"?><urlset><url><loc> HTTPS://Example.COM/a </loc></url>\
               <url><loc>not a url</loc></url><url><loc>https://example.com/b</loc><lastmod>https://x.test/</lastmod></url></urlset>";
    assert_eq!(parse_locs(xml), vec!["https://example.com/a".to_string(), "https://example.com/b".to_string()]);
}

#[test]
fn text_outside_loc_is_ignored() {
    assert!(parse_locs("<urlset><url>https://example.com/</url></urlset>").is_empty());
    assert!(parse_locs("").is_empty());
}

#[test]
fn sitemap_index_children_are_capped() {
    let locs: Vec<String> = (0..12).map(|i| format!("https://a.test/s{}.xml", i)).collect();
    let c = child_sitemaps("<sitemapindex><sitemap>..</sitemap></sitemapindex>", &locs).unwrap();
    assert_eq!(c.len(), 10);
    assert_eq!(c[9], "https://a.test/s9.xml");
    assert!(child_sitemaps("<urlset></urlset>", &locs).is_none());
}
