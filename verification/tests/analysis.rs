use seocrawler::html::{ElementFacts, TextPiece};
use seocrawler::page::format_status;
use seocrawler::parse::{headings_from, meta_from, title_from, word_count_from};
use seocrawler::sitemap::{locs_from_events, XmlEvent};

fn piece(text: &str, ancestors: &[Option<&str>]) -> Option<TextPiece> {
    Some(TextPiece {
        text: text.to_string(),
        ancestors: ancestors.iter().map(|a| a.map(|s| s.to_string())).collect(),
    })
}

fn element(depth: usize, attrs: &[Option<&str>], nodes: Vec<Option<TextPiece>>) -> ElementFacts {
    ElementFacts { attrs: attrs.iter().map(|a| a.map(|s| s.to_string())).collect(), nodes, depth }
}

#[test]
fn visible_text_skips_hidden_subtrees() {
    // <body> (depth 2) with "a b" directly, "c" inside <script>, "d e" inside <p>
    let body = element(
        2,
        &[],
        vec![
            None,
            piece("a b", &[Some("body"), Some("html"), None]),
            None,
            piece("c", &[Some("script"), Some("body"), Some("html"), None]),
            None,
            piece("d e", &[Some("p"), Some("body"), Some("html"), None]),
        ],
    );
    assert_eq!(word_count_from(&vec![body]), 4);
    assert_eq!(word_count_from(&vec![]), 0);
}

#[test]
fn hidden_ancestors_above_the_element_do_not_matter() {
    // a <title> inside <noscript>: its own text is still its text
    let t = element(3, &[], vec![None, piece("  Hi  ", &[Some("title"), Some("noscript"), Some("head"), None])]);
    assert_eq!(title_from(&vec![t]), Some("Hi".to_string()));
}

#[test]
fn headings_and_meta_from_elements() {
    let h = vec![
        element(2, &[], vec![None, piece(" ", &[Some("h1"), Some("body"), None])]),
        element(2, &[], vec![None, piece("B", &[Some("h1"), Some("body"), None])]),
    ];
    assert_eq!(headings_from(&h), vec!["B".to_string()]);
    let m = vec![
        element(2, &[Some("ROBOTS"), Some(" noindex ")], vec![None]),
        element(2, &[Some("description")], vec![None]),
        element(2, &[None, Some("x")], vec![None]),
    ];
    assert_eq!(meta_from(&m), (None, Some("noindex".to_string())));
}

#[test]
fn locs_from_events_tracks_loc_elements() {
    let evs = vec![
        XmlEvent::Start("urlset".to_string()),
        XmlEvent::Text("https://a.test/outside".to_string()),
        XmlEvent::Start("loc".to_string()),
        XmlEvent::Text(" https://a.test/in ".to_string()),
        XmlEvent::Other,
        XmlEvent::Text("nope".to_string()),
        XmlEvent::End("loc".to_string()),
        XmlEvent::Text("https://a.test/after".to_string()),
    ];
    assert_eq!(locs_from_events(&evs), vec!["https://a.test/in".to_string()]);
}

#[test]
fn status_formatting_with_given_reason() {
    assert_eq!(format_status(418, &Some("I'm a teapot".to_string()), false), "418 I'm a teapot");
    assert_eq!(format_status(799, &None, true), "799 <unknown status code> (redirect loop or too many hops)");
}
