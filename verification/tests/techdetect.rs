use seocrawler::techdetect::{detect_from_headers, detect_from_html, HeaderEntry, ResponseHeaders};

fn headers(pairs: &[(&str, Option<&str>)]) -> ResponseHeaders {
    ResponseHeaders {
        entries: pairs
            .iter()
            .map(|(n, v)| HeaderEntry { name: n.to_string(), value: v.map(|s| s.to_string()) })
            .collect(),
    }
}

#[test]
fn wordpress_and_libraries_are_recognised() {
    let html = "<html><link href='/wp-content/themes/x.css'><script src='jquery.min.js'></script>\
                <div class='container'>bootstrap</div></html>";
    let (cms, tech) = detect_from_html(html);
    assert_eq!(cms, Some("WordPress".to_string()));
    assert_eq!(tech, vec!["jQuery".to_string(), "Bootstrap".to_string()]);
}

#[test]
fn html_matching_ignores_case() {
    let (cms, tech) = detect_from_html("<SCRIPT SRC='https://CDN.SHOPIFY.COM/x.js'></SCRIPT><div DATA-REACTROOT></div>");
    assert_eq!(cms, Some("Shopify".to_string()));
    assert_eq!(tech, vec!["React".to_string()]);
}

#[test]
fn cms_order_decides_between_several() {
    let (cms, _) = detect_from_html("wp-includes and /sites/default/files");
    assert_eq!(cms, Some("WordPress".to_string()));
    let (cms, _) = detect_from_html("drupal.settings and joomla!");
    assert_eq!(cms, Some("Drupal".to_string()));
}

#[test]
fn plain_html_has_no_fingerprints() {
    let (cms, tech) = detect_from_html("<html><body>Hello</body></html>");
    assert_eq!(cms, None);
    assert!(tech.is_empty());
}

#[test]
fn every_technology_in_fixed_order() {
    let html = "cdn.jsdelivr.net gtag( googletagmanager.com/gtm.js tailwind bootstrap jquery \
                __vue__ react-dom ng-version __nuxt__ __next_data__";
    let (_, tech) = detect_from_html(html);
    let expected = [
        "Next.js", "Nuxt.js", "Angular", "React", "Vue.js", "jQuery", "Bootstrap", "Tailwind CSS",
        "Google Tag Manager", "Google Analytics", "jsDelivr CDN",
    ];
    assert_eq!(tech, expected.iter().map(|s| s.to_string()).collect::<Vec<_>>());
}

#[test]
fn server_headers_and_cloudflare() {
    let h = headers(&[("server", Some("cloudflare")), ("x-powered-by", Some("PHP/8.2"))]);
    let t = detect_from_headers(&h);
    assert_eq!(t.server, Some("cloudflare".to_string()));
    assert_eq!(t.powered_by, Some("PHP/8.2".to_string()));
    assert_eq!(t.cdn, Some("Cloudflare".to_string()));
}

#[test]
fn cdn_headers_in_order() {
    assert_eq!(detect_from_headers(&headers(&[("x-amz-cf-id", Some("a"))])).cdn, Some("Amazon CloudFront".to_string()));
    assert_eq!(detect_from_headers(&headers(&[("x-served-by", Some("Cache-FRA"))])).cdn, Some("Fastly".to_string()));
    assert_eq!(detect_from_headers(&headers(&[("x-served-by", Some("origin"))])).cdn, None);
    assert_eq!(detect_from_headers(&headers(&[("x-vercel-id", None)])).cdn, Some("Vercel".to_string()));
    assert_eq!(detect_from_headers(&headers(&[("x-nf-request-id", Some("1"))])).cdn, Some("Netlify".to_string()));
    assert_eq!(detect_from_headers(&headers(&[("server", Some("AkamaiGHost"))])).cdn, Some("Akamai".to_string()));
    assert_eq!(
        detect_from_headers(&headers(&[("x-vercel-id", Some("1")), ("cf-ray", Some("2"))])).cdn,
        Some("Cloudflare".to_string())
    );
}

#[test]
fn first_header_value_counts_and_non_text_is_absent() {
    let h = headers(&[("server", None), ("server", Some("nginx"))]);
    let t = detect_from_headers(&h);
    assert_eq!(t.server, None);
    let h = headers(&[("server", Some("nginx")), ("server", Some("apache"))]);
    assert_eq!(detect_from_headers(&h).server, Some("nginx".to_string()));
    assert_eq!(detect_from_headers(&h).cdn, None);
}
