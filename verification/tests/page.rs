use seocrawler::page::{
    analysed_outcome, body_failed_outcome, empty_page_result, fetch_failed, indexability_for,
    is_html, not_html_outcome, robots_blocked_result, status_text, RedirectStep, RedirectWalk,
    ResponseFacts,
};

fn s(x: &str) -> Option<String> {
    Some(x.to_string())
}

#[test]
fn indexability_reasons() {
    let u = "https://a.test/p";
    assert_eq!(indexability_for(404, &None, &None, &None, u, u), "Non-Indexable (404)");
    assert_eq!(indexability_for(0, &None, &None, &None, u, u), "Non-Indexable (0)");
    assert_eq!(indexability_for(200, &None, &None, &None, u, "https://a.test/q"), "Redirected");
    assert_eq!(indexability_for(200, &None, &s("NOINDEX,follow"), &None, u, u), "Non-Indexable (noindex)");
    assert_eq!(indexability_for(200, &None, &None, &s("noindex"), u, u), "Non-Indexable (noindex)");
    assert_eq!(indexability_for(200, &s("https://a.test/other"), &None, &None, u, u), "Canonicalised");
    assert_eq!(indexability_for(200, &s(u), &None, &None, u, u), "Indexable");
    assert_eq!(indexability_for(301, &None, &None, &None, u, u), "Indexable");
}

#[test]
fn status_texts() {
    assert_eq!(status_text(200, false), "200 OK");
    assert_eq!(status_text(404, false), "404 Not Found");
    assert_eq!(status_text(301, true), "301 Moved Permanently (redirect loop or too many hops)");
    assert_eq!(status_text(599, false), "599 <unknown status code>");
}

#[test]
fn blocked_and_empty_results() {
    let p = robots_blocked_result("https://a.test/secret", 3);
    assert_eq!(p.url, "https://a.test/secret");
    assert_eq!(p.depth, 3);
    assert_eq!(p.status, None);
    assert_eq!(p.status_text, "Blocked");
    assert_eq!(p.indexability, "Non-Indexable (robots.txt)");
    assert!(p.is_minified);
    assert!(!p.rendered);
    let e = empty_page_result("https://a.test/", 1, Some(500), "500 Internal Server Error".to_string(), s("text/html"), None, "x".to_string(), 12, s("boom"));
    assert_eq!(e.status, Some(500));
    assert_eq!(e.response_time_ms, 12);
    assert_eq!(e.error, s("boom"));
    assert_eq!(e.title, None);
}

fn facts(url: &str, final_url: &str, status: u16, ct: Option<&str>) -> ResponseFacts {
    ResponseFacts {
        url: url.to_string(),
        depth: 2,
        status,
        redirect_capped: false,
        final_url: final_url.to_string(),
        content_type: ct.map(|c| c.to_string()),
        x_robots_tag: None,
    }
}

#[test]
fn outcomes_without_analysis() {
    let o = fetch_failed("https://a.test/", 0, 7, "timeout".to_string());
    assert_eq!(o.result.status_text, "Error");
    assert_eq!(o.result.indexability, "Non-Indexable (Error)");
    assert_eq!(o.result.error, s("timeout"));
    let f = facts("https://a.test/doc.pdf", "https://a.test/doc.pdf", 200, Some("application/pdf"));
    assert!(!is_html(&f));
    let o = not_html_outcome(&f, 5);
    assert_eq!(o.result.status, Some(200));
    assert_eq!(o.result.status_text, "200 OK");
    assert_eq!(o.result.indexability, "Indexable");
    assert_eq!(o.result.redirect_url, None);
    let f = facts("https://a.test/", "https://a.test/home", 200, Some("text/html; charset=utf-8"));
    assert!(is_html(&f));
    let o = body_failed_outcome(&f, 9, "reset".to_string());
    assert_eq!(o.result.redirect_url, s("https://a.test/home"));
    assert_eq!(o.result.indexability, "Non-Indexable (Error)");
}

#[test]
fn analysed_page() {
    let f = facts("https://a.test/", "https://a.test/", 200, Some("text/html"));
    let body = "<title>Hé</title><meta name=description content='Desc'><h1>H</h1><a href='/x'>x</a><a href='https://b.test/'>b</a><img src='i.png'>";
    let o = analysed_outcome(&f, body, true, 42);
    assert_eq!(o.result.title, s("Hé"));
    assert_eq!(o.result.title_length, 2);
    assert_eq!(o.result.meta_description_length, 4);
    assert_eq!(o.result.internal_link_count, 1);
    assert_eq!(o.result.external_link_count, 1);
    assert_eq!(o.result.image_count, 1);
    assert_eq!(o.result.html_size_bytes, body.len());
    assert!(o.result.rendered);
    assert_eq!(o.result.indexability, "Indexable");
    assert_eq!(o.discovered_internal, vec!["https://a.test/x".to_string()]);
    assert_eq!(o.discovered_images[0].0, "https://a.test/i.png");
}

#[test]
fn redirect_walk_follows_and_stops() {
    let mut w = RedirectWalk::new("https://a.test/start");
    match w.on_response(301, s("/next#f")) {
        RedirectStep::Follow(u) => assert_eq!(u, "https://a.test/next#f"),
        _ => panic!("expected a hop"),
    }
    assert_eq!(w.current(), "https://a.test/next#f");
    match w.on_response(302, s("/start")) {
        RedirectStep::Done { capped } => assert!(capped),
        _ => panic!("a loop must stop"),
    }
    let mut w = RedirectWalk::new("https://a.test/");
    assert!(matches!(w.on_response(200, s("/x")), RedirectStep::Done { capped: false }));
    assert!(matches!(w.on_response(301, None), RedirectStep::Done { capped: false }));
}

#[test]
fn redirect_walk_hop_limit() {
    let mut w = RedirectWalk::new("https://a.test/0");
    let mut follows = 0;
    loop {
        let next = format!("/{}", follows + 1);
        match w.on_response(302, Some(next)) {
            RedirectStep::Follow(_) => follows += 1,
            RedirectStep::Done { capped } => {
                assert!(capped);
                break;
            }
        }
    }
    assert_eq!(follows, 9);
}
