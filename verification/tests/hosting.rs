use seocrawler::hosting::{hosting_info, ip_api_url, lookup_target, sorted_unique};

fn s(x: &str) -> Option<String> {
    Some(x.to_string())
}

#[test]
fn addresses_sorted_and_deduplicated() {
    let ips = vec!["10.0.0.2".to_string(), "10.0.0.10".to_string(), "10.0.0.2".to_string(), "::1".to_string()];
    assert_eq!(sorted_unique(&ips), vec!["10.0.0.10".to_string(), "10.0.0.2".to_string(), "::1".to_string()]);
    assert!(sorted_unique(&vec![]).is_empty());
}

#[test]
fn lookup_targets() {
    assert_eq!(lookup_target("https://a.test/x"), Some(("a.test".to_string(), 443)));
    assert_eq!(lookup_target("http://a.test/x"), Some(("a.test".to_string(), 80)));
    assert_eq!(lookup_target("http://a.test:8080/x"), Some(("a.test".to_string(), 8080)));
    assert_eq!(lookup_target("mailto:me@a.test"), None);
}

#[test]
fn organisation_from_lookup() {
    assert!(hosting_info("fail", s("Org"), None, None, s("DE")).is_none());
    let i = hosting_info("success", None, s("ISP"), s("AS1"), s("DE")).unwrap();
    assert_eq!(i.org, s("ISP"));
    assert_eq!(i.country, s("DE"));
    let i = hosting_info("success", s("Org"), s("ISP"), None, None).unwrap();
    assert_eq!(i.org, s("Org"));
    let i = hosting_info("success", None, None, s("AS1"), None).unwrap();
    assert_eq!(i.org, s("AS1"));
    assert_eq!(ip_api_url("1.2.3.4"), "http://ip-api.com/json/1.2.3.4?fields=status,message,country,isp,org,as");
}
