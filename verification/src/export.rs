//! Report rows: the columns written for pages and for resources when a crawl
//! is exported as CSV, and the choice of export.

use vstd::prelude::*;
use crate::parse::{opt_view, strings_view};
use crate::text::decimal;
use crate::types::{PageResult, ResourceResult, ResourceType};

verus! {

broadcast use vstd::string::group_string_axioms;

/// What can be exported.
#[derive(Clone, Copy, PartialEq, Eq, Debug)]
pub enum ExportKind {
    Pages,
    Resources,
}

/// The export that `what` names: `pages` or `resources`; anything else is
/// refused with a message that names it.
pub fn export_kind(what: &str) -> (r: Result<ExportKind, String>)
    ensures
        what@ == "pages"@ ==> r == Ok::<ExportKind, String>(ExportKind::Pages),
        what@ == "resources"@ ==> r == Ok::<ExportKind, String>(ExportKind::Resources),
        what@ != "pages"@ && what@ != "resources"@ ==> (r matches Err(m) && m@
            == "Unknown export type: "@ + what@),
{
    proof {
        reveal_strlit("pages");
        reveal_strlit("resources");
        assert("pages"@ != "resources"@) by {
            assert("pages"@.len() != "resources"@.len());
        }
    }
    let w = crate::text::chars_of(what);
    if crate::text::chars_eq(&w, &crate::text::chars_of("pages")) {
        Ok(ExportKind::Pages)
    } else if crate::text::chars_eq(&w, &crate::text::chars_of("resources")) {
        Ok(ExportKind::Resources)
    } else {
        let mut m = "Unknown export type: ".to_string();
        m.append(what);
        Err(m)
    }
}

pub open spec fn or_empty(o: Option<Seq<char>>) -> Seq<char> {
    match o {
        Some(s) => s,
        None => Seq::empty(),
    }
}

pub open spec fn status_cell(s: Option<u16>) -> Seq<char> {
    match s {
        Some(c) => decimal(c as nat),
        None => Seq::empty(),
    }
}

/// Column titles of the pages report.
pub open spec fn page_header() -> Seq<Seq<char>> {
    seq![
        "URL"@,
        "Status"@,
        "Status Text"@,
        "Indexability"@,
        "Depth"@,
        "Title"@,
        "Title Length"@,
        "Meta Description"@,
        "Meta Description Length"@,
        "H1"@,
        "H1 Count"@,
        "Word Count"@,
        "Canonical"@,
        "Meta Robots"@,
        "Redirect URL"@,
        "Content Type"@,
        "Response Time (ms)"@,
        "Internal Links"@,
        "External Links"@,
        "Images"@,
        "Error"@,
    ]
}

/// The pages report row of a page; absent values are empty cells.
pub open spec fn page_row(p: PageResult) -> Seq<Seq<char>> {
    seq![
        p.url@,
        status_cell(p.status),
        p.status_text@,
        p.indexability@,
        decimal(p.depth as nat),
        or_empty(opt_view(p.title)),
        decimal(p.title_length as nat),
        or_empty(opt_view(p.meta_description)),
        decimal(p.meta_description_length as nat),
        or_empty(opt_view(p.h1)),
        decimal(p.h1_count as nat),
        decimal(p.word_count as nat),
        or_empty(opt_view(p.canonical)),
        or_empty(opt_view(p.meta_robots)),
        or_empty(opt_view(p.redirect_url)),
        or_empty(opt_view(p.content_type)),
        decimal(p.response_time_ms as nat),
        decimal(p.internal_link_count as nat),
        decimal(p.external_link_count as nat),
        decimal(p.image_count as nat),
        or_empty(opt_view(p.error)),
    ]
}

/// Column titles of the resources report.
pub open spec fn resource_header() -> Seq<Seq<char>> {
    seq![
        "URL"@,
        "Type"@,
        "Source Page"@,
        "Status"@,
        "Status Text"@,
        "Internal"@,
        "Alt Text"@,
        "Error"@,
    ]
}

pub open spec fn kind_cell(k: ResourceType) -> Seq<char> {
    match k {
        ResourceType::Link => "Link"@,
        ResourceType::Image => "Image"@,
    }
}

pub open spec fn bool_cell(b: bool) -> Seq<char> {
    if b {
        "true"@
    } else {
        "false"@
    }
}

/// The resources report row of a resource; absent values are empty cells.
pub open spec fn resource_row(r: ResourceResult) -> Seq<Seq<char>> {
    seq![
        r.url@,
        kind_cell(r.resource_type),
        r.source_page@,
        status_cell(r.status),
        r.status_text@,
        bool_cell(r.is_internal),
        or_empty(opt_view(r.alt_text)),
        or_empty(opt_view(r.error)),
    ]
}

fn lit_row(items: &[&str]) -> (r: Vec<String>)
    ensures
        strings_view(r@) == items@.map_values(|s: &str| s@),
{
    let mut r: Vec<String> = Vec::new();
    let mut i: usize = 0;
    while i < items.len()
        invariant
            i <= items@.len(),
            strings_view(r@) == items@.take(i as int).map_values(|s: &str| s@),
        decreases items.len() - i,
    {
        let s = items[i].to_string();
        let ghost prev = strings_view(r@);
        r.push(s);
        assert(strings_view(r@) =~= prev.push(s@));
        assert(items@.take(i + 1).map_values(|s: &str| s@) =~= items@.take(i as int).map_values(
            |s: &str| s@,
        ).push(items@[i as int]@));
        i = i + 1;
    }
    assert(items@.take(items@.len() as int) == items@);
    r
}

/// Column titles of the pages report.
pub fn page_csv_header() -> (r: Vec<String>)
    ensures
        strings_view(r@) == page_header(),
{
    let items = [
        "URL",
        "Status",
        "Status Text",
        "Indexability",
        "Depth",
        "Title",
        "Title Length",
        "Meta Description",
        "Meta Description Length",
        "H1",
        "H1 Count",
        "Word Count",
        "Canonical",
        "Meta Robots",
        "Redirect URL",
        "Content Type",
        "Response Time (ms)",
        "Internal Links",
        "External Links",
        "Images",
        "Error",
    ];
    let r = lit_row(&items);
    assert(strings_view(r@) =~= page_header());
    r
}

/// Column titles of the resources report.
pub fn resource_csv_header() -> (r: Vec<String>)
    ensures
        strings_view(r@) == resource_header(),
{
    let items = [
        "URL",
        "Type",
        "Source Page",
        "Status",
        "Status Text",
        "Internal",
        "Alt Text",
        "Error",
    ];
    let r = lit_row(&items);
    assert(strings_view(r@) =~= resource_header());
    r
}

fn cell_opt(o: &Option<String>) -> (s: String)
    ensures
        s@ == or_empty(opt_view(*o)),
{
    match o {
        Some(v) => v.clone(),
        None => String::new(),
    }
}

fn cell_status(o: Option<u16>) -> (s: String)
    ensures
        s@ == status_cell(o),
{
    match o {
        Some(c) => crate::text::decimal_string(c as u64),
        None => String::new(),
    }
}

fn cell_num(n: u64) -> (s: String)
    ensures
        s@ == decimal(n as nat),
{
    crate::text::decimal_string(n)
}

/// The pages report row of a page.
pub fn page_csv_row(p: &PageResult) -> (r: Vec<String>)
    ensures
        strings_view(r@) == page_row(*p),
{
    let mut r: Vec<String> = Vec::new();
    r.push(p.url.clone());
    r.push(cell_status(p.status));
    r.push(p.status_text.clone());
    r.push(p.indexability.clone());
    r.push(cell_num(p.depth as u64));
    r.push(cell_opt(&p.title));
    r.push(cell_num(p.title_length as u64));
    r.push(cell_opt(&p.meta_description));
    r.push(cell_num(p.meta_description_length as u64));
    r.push(cell_opt(&p.h1));
    r.push(cell_num(p.h1_count as u64));
    r.push(cell_num(p.word_count as u64));
    r.push(cell_opt(&p.canonical));
    r.push(cell_opt(&p.meta_robots));
    r.push(cell_opt(&p.redirect_url));
    r.push(cell_opt(&p.content_type));
    r.push(cell_num(p.response_time_ms));
    r.push(cell_num(p.internal_link_count as u64));
    r.push(cell_num(p.external_link_count as u64));
    r.push(cell_num(p.image_count as u64));
    r.push(cell_opt(&p.error));
    assert(strings_view(r@) =~= page_row(*p));
    r
}

/// The resources report row of a resource.
pub fn resource_csv_row(res: &ResourceResult) -> (r: Vec<String>)
    ensures
        strings_view(r@) == resource_row(*res),
{
    let mut r: Vec<String> = Vec::new();
    r.push(res.url.clone());
    r.push(
        match res.resource_type {
            ResourceType::Link => "Link".to_string(),
            ResourceType::Image => "Image".to_string(),
        },
    );
    r.push(res.source_page.clone());
    r.push(cell_status(res.status));
    r.push(res.status_text.clone());
    r.push(
        if res.is_internal {
            "true".to_string()
        } else {
            "false".to_string()
        },
    );
    r.push(cell_opt(&res.alt_text));
    r.push(cell_opt(&res.error));
    assert(strings_view(r@) =~= resource_row(*res));
    r
}


/// Every pages report row has one cell per column.
pub proof fn law_page_rows_fit_header(p: PageResult)
    ensures
        page_row(p).len() == page_header().len(),
{
}

/// Every resources report row has one cell per column.
pub proof fn law_resource_rows_fit_header(r: ResourceResult)
    ensures
        resource_row(r).len() == resource_header().len(),
{
}


/// Each cell of a pages report row sits under the title of the field it
/// shows: column `k` is titled as below and holds that field of the page.
pub proof fn law_page_cells_under_their_titles(p: PageResult)
    ensures
        page_header()[0] == "URL"@ && page_row(p)[0] == p.url@,
        page_header()[1] == "Status"@ && page_row(p)[1] == status_cell(p.status),
        page_header()[2] == "Status Text"@ && page_row(p)[2] == p.status_text@,
        page_header()[3] == "Indexability"@ && page_row(p)[3] == p.indexability@,
        page_header()[4] == "Depth"@ && page_row(p)[4] == decimal(p.depth as nat),
        page_header()[5] == "Title"@ && page_row(p)[5] == or_empty(opt_view(p.title)),
        page_header()[6] == "Title Length"@ && page_row(p)[6] == decimal(p.title_length as nat),
        page_header()[7] == "Meta Description"@ && page_row(p)[7] == or_empty(opt_view(p.meta_description)),
        page_header()[8] == "Meta Description Length"@ && page_row(p)[8] == decimal(p.meta_description_length as nat),
        page_header()[9] == "H1"@ && page_row(p)[9] == or_empty(opt_view(p.h1)),
        page_header()[10] == "H1 Count"@ && page_row(p)[10] == decimal(p.h1_count as nat),
        page_header()[11] == "Word Count"@ && page_row(p)[11] == decimal(p.word_count as nat),
        page_header()[12] == "Canonical"@ && page_row(p)[12] == or_empty(opt_view(p.canonical)),
        page_header()[13] == "Meta Robots"@ && page_row(p)[13] == or_empty(opt_view(p.meta_robots)),
        page_header()[14] == "Redirect URL"@ && page_row(p)[14] == or_empty(opt_view(p.redirect_url)),
        page_header()[15] == "Content Type"@ && page_row(p)[15] == or_empty(opt_view(p.content_type)),
        page_header()[16] == "Response Time (ms)"@ && page_row(p)[16] == decimal(p.response_time_ms as nat),
        page_header()[17] == "Internal Links"@ && page_row(p)[17] == decimal(p.internal_link_count as nat),
        page_header()[18] == "External Links"@ && page_row(p)[18] == decimal(p.external_link_count as nat),
        page_header()[19] == "Images"@ && page_row(p)[19] == decimal(p.image_count as nat),
        page_header()[20] == "Error"@ && page_row(p)[20] == or_empty(opt_view(p.error)),
{
}

/// Each cell of a resources report row sits under the title of the field it
/// shows: column `k` is titled as below and holds that field of the resource.
pub proof fn law_resource_cells_under_their_titles(r: ResourceResult)
    ensures
        resource_header()[0] == "URL"@ && resource_row(r)[0] == r.url@,
        resource_header()[1] == "Type"@ && resource_row(r)[1] == kind_cell(r.resource_type),
        resource_header()[2] == "Source Page"@ && resource_row(r)[2] == r.source_page@,
        resource_header()[3] == "Status"@ && resource_row(r)[3] == status_cell(r.status),
        resource_header()[4] == "Status Text"@ && resource_row(r)[4] == r.status_text@,
        resource_header()[5] == "Internal"@ && resource_row(r)[5] == bool_cell(r.is_internal),
        resource_header()[6] == "Alt Text"@ && resource_row(r)[6] == or_empty(opt_view(r.alt_text)),
        resource_header()[7] == "Error"@ && resource_row(r)[7] == or_empty(opt_view(r.error)),
{
}

} // verus!
