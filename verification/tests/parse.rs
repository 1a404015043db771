use seocrawler::parse::{is_same_site, parse_page, resolve_url};

const PAGE: &str = r##"<!doctype html>
<html><head>
<title>  My   Page </title>
<meta name="Description" content="  First  ">
<meta name="robots" content="noindex, follow">
<link rel="canonical" href="/canonical#frag">
<script>var hidden = "words in script";</script>
<style>.x { color: red }</style>
</head>
<body>
<h1> Welcome </h1>
<h1>   </h1>
<h1>Second <span>heading</span></h1>
<p>Hello world <noscript>not counted</noscript> again</p>
<a href="/about#team">About</a>
<a href="https://other.example.org/x">Other</a>
<a href="mailto:me@example.com">Mail</a>
<a href="#top">Top</a>
<a href="  JavaScript:void(0)">JS</a>
<img src="/logo.png" alt="Logo">
<img src="/blank.png" alt="">
<img src="data:image/png;base64,AAAA">
</body></html>"##;

#[test]
fn page_analysis() {
    let p = parse_page(PAGE, "https://example.com/dir/page");
    assert_eq!(p.title, Some("My   Page".to_string()));
    assert_eq!(p.meta_description, Some("First".to_string()));
    assert_eq!(p.meta_robots, Some("noindex, follow".to_string()));
    assert_eq!(p.h1, Some("Welcome".to_string()));
    assert_eq!(p.h1_count, 2);
    assert_eq!(p.canonical, Some("https://example.com/canonical".to_string()));
    assert_eq!(p.internal_links, vec!["https://example.com/about".to_string()]);
    assert_eq!(p.external_links, vec!["https://other.example.org/x".to_string()]);
    assert_eq!(
        p.images,
        vec![
            ("https://example.com/logo.png".to_string(), Some("Logo".to_string())),
            ("https://example.com/blank.png".to_string(), None),
        ]
    );
    // Welcome, Second heading, Hello world again, About Other Mail Top JS
    assert_eq!(p.word_count, 11);
}

#[test]
fn script_text_is_not_visible() {
    let p = parse_page("<html><head><title>T<script>x</script></title></head><body>one <script>two three</script> four</body></html>", "https://a.test/");
    assert_eq!(p.word_count, 2);
}

#[test]
fn empty_document() {
    let p = parse_page("", "https://a.test/");
    assert_eq!(p.title, None);
    assert_eq!(p.h1, None);
    assert_eq!(p.h1_count, 0);
    assert_eq!(p.word_count, 0);
    assert_eq!(p.canonical, None);
    assert!(p.internal_links.is_empty());
}

#[test]
fn last_meta_description_wins_even_if_empty() {
    let p = parse_page(r#"<meta name="description" content="a"><meta name="description" content=" ">"#, "https://a.test/");
    assert_eq!(p.meta_description, None);
}

#[test]
fn resolving_links() {
    assert_eq!(resolve_url("https://a.test/x/y", "z#frag"), Some("https://a.test/x/z".to_string()));
    assert_eq!(resolve_url("https://a.test/x/y", "  /abs  "), Some("https://a.test/abs".to_string()));
    assert_eq!(resolve_url("https://a.test/", "#only"), None);
    assert_eq!(resolve_url("https://a.test/", "   "), None);
    assert_eq!(resolve_url("https://a.test/", "TEL:123"), None);
    assert_eq!(resolve_url("https://a.test/", "data:text/plain,hi"), None);
    assert_eq!(resolve_url("https://a.test/", "http://[::1"), None);
}

#[test]
fn same_site_compares_hosts() {
    assert!(is_same_site("https://a.test/x", "http://a.test:8080/y"));
    assert!(!is_same_site("https://a.test/x", "https://b.test/x"));
    assert!(!is_same_site("https://a.test/x", "https://www.a.test/x"));
}
