use seocrawler::export::{export_kind, page_csv_header, page_csv_row, resource_csv_header, resource_csv_row, ExportKind};
use seocrawler::page::robots_blocked_result;
use seocrawler::types::{ResourceResult, ResourceType};

#[test]
fn export_kinds() {
    assert_eq!(export_kind("pages"), Ok(ExportKind::Pages));
    assert_eq!(export_kind("resources"), Ok(ExportKind::Resources));
    assert_eq!(export_kind("images"), Err("Unknown export type: images".to_string()));
}

#[test]
fn page_rows() {
    let h = page_csv_header();
    assert_eq!(h.len(), 21);
    assert_eq!(h[16], "Response Time (ms)");
    let p = robots_blocked_result("https://a.test/x", 4);
    let r = page_csv_row(&p);
    assert_eq!(r.len(), h.len());
    assert_eq!(r[0], "https://a.test/x");
    assert_eq!(r[1], "");
    assert_eq!(r[2], "Blocked");
    assert_eq!(r[3], "Non-Indexable (robots.txt)");
    assert_eq!(r[4], "4");
    assert_eq!(r[6], "0");
}

#[test]
fn resource_rows() {
    let res = ResourceResult {
        url: "https://b.test/i.png".to_string(),
        resource_type: ResourceType::Image,
        source_page: "https://a.test/".to_string(),
        alt_text: None,
        status: Some(404),
        status_text: "404 Not Found".to_string(),
        is_internal: false,
        error: None,
    };
    assert_eq!(resource_csv_header().len(), 8);
    assert_eq!(
        resource_csv_row(&res),
        vec!["https://b.test/i.png", "Image", "https://a.test/", "404", "404 Not Found", "false", "", ""]
            .into_iter()
            .map(|s| s.to_string())
            .collect::<Vec<_>>()
    );
}
