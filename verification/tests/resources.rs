use seocrawler::resources::{check_status, finished, needs_get, ResourceRegistry};
use seocrawler::types::ResourceType;

#[test]
fn registry_queues_each_url_once() {
    let mut r = ResourceRegistry::new();
    let p = r.begin_check("https://b.test/x", ResourceType::Link, "https://a.test/", None, false);
    assert!(p.is_some());
    let p = p.unwrap();
    assert_eq!(p.status_text, "Checking");
    assert_eq!(p.status, None);
    assert!(r.begin_check("https://b.test/x", ResourceType::Image, "https://a.test/other", None, true).is_none());
    assert_eq!(r.total(), 1);
    assert_eq!(r.checked(), 0);
    let done = finished(&p, Some(200), "200 OK".to_string(), None);
    r.insert(done);
    assert_eq!(r.total(), 1);
    assert_eq!(r.checked(), 1);
    let all = r.snapshot();
    assert_eq!(all[0].status, Some(200));
    assert_eq!(all[0].source_page, "https://a.test/");
    assert!(r.contains("https://b.test/x"));
    assert!(!r.contains("https://b.test/y"));
}

#[test]
fn page_resources_respect_switches() {
    let mut r = ResourceRegistry::new();
    let ext = vec!["https://b.test/".to_string(), "https://b.test/".to_string()];
    let imgs = vec![
        ("https://a.test/i.png".to_string(), Some("alt".to_string())),
        ("https://cdn.test/j.png".to_string(), None),
    ];
    let jobs = r.queue_page_resources(true, false, "https://a.test/", "https://a.test/p", &ext, &imgs);
    assert_eq!(jobs.len(), 1);
    assert_eq!(jobs[0].resource_type, ResourceType::Link);
    let jobs = r.queue_page_resources(true, true, "https://a.test/", "https://a.test/q", &ext, &imgs);
    assert_eq!(jobs.len(), 2);
    assert!(jobs[0].is_internal);
    assert_eq!(jobs[0].alt_text, Some("alt".to_string()));
    assert!(!jobs[1].is_internal);
    assert_eq!(r.total(), 3);
}

#[test]
fn head_then_get() {
    assert!(!needs_get(&Ok(200)));
    assert!(needs_get(&Ok(405)));
    assert!(needs_get(&Ok(501)));
    assert!(needs_get(&Err("refused".to_string())));
    assert_eq!(check_status(&Ok(404), &None), (Some(404), "404 Not Found".to_string(), None));
    assert_eq!(check_status(&Ok(405), &Some(Ok(200))), (Some(200), "200 OK".to_string(), None));
    assert_eq!(check_status(&Ok(405), &Some(Err("get failed".to_string()))), (None, "Error".to_string(), Some("get failed".to_string())));
    assert_eq!(check_status(&Err("head failed".to_string()), &Some(Ok(204))), (Some(204), "204 No Content".to_string(), None));
    assert_eq!(check_status(&Err("head failed".to_string()), &Some(Err("get failed".to_string()))), (None, "Error".to_string(), Some("head failed".to_string())));
}
