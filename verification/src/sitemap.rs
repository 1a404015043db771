//! Sitemaps: the page URLs that `<loc>` elements list, and whether a sitemap
//! is an index of further sitemaps.

use vstd::prelude::*;
use quick_xml::events::Event;
use crate::parse::strings_view;
use crate::text::{has_substring, trim};
use crate::weburl::spec_url_parse;

verus! {

broadcast use vstd::string::group_string_axioms;

/// Child sitemaps of an index that are read.
pub const MAX_CHILD_SITEMAPS: usize = 10;

/// An XML event, as far as sitemap reading cares.
pub enum XmlEvent {
    /// A start tag and its qualified name.
    Start(String),
    /// An end tag and its qualified name.
    End(String),
    /// Character data between tags, trimmed of XML whitespace and not empty.
    Text(String),
    /// Anything else, including text that does not decode.
    Other,
}

/// An XML event as plain values.
pub enum XmlItem {
    Start(Seq<char>),
    End(Seq<char>),
    Text(Seq<char>),
    Other,
}

pub open spec fn event_view(e: XmlEvent) -> XmlItem {
    match e {
        XmlEvent::Start(n) => XmlItem::Start(n@),
        XmlEvent::End(n) => XmlItem::End(n@),
        XmlEvent::Text(t) => XmlItem::Text(t@),
        XmlEvent::Other => XmlItem::Other,
    }
}

/// The events that `quick_xml` reads from `xml` (text trimmed), up to the end
/// of the input or the first error.
pub uninterp spec fn spec_xml_events(xml: Seq<char>) -> Seq<XmlItem>;

/// Reads the events of an XML document. Trusted: `quick_xml::Reader::from_str`
/// with text trimming on and `read_event_into` until `Eof` or an error, each
/// event mapped to an [`XmlEvent`]; the contract only names the result.
#[verifier::external_body]
pub(crate) fn xml_events(xml: &str) -> (r: Vec<XmlEvent>)
    ensures
        r@.map_values(|e: XmlEvent| event_view(e)) == spec_xml_events(xml@),
{
    let mut reader = quick_xml::Reader::from_str(xml);
    reader.config_mut().trim_text(true);
    let (mut buf, mut out) = (Vec::new(), Vec::new());
    loop {
        out.push(match reader.read_event_into(&mut buf) {
            Ok(Event::Start(e)) => XmlEvent::Start(String::from_utf8_lossy(e.name().0).into()),
            Ok(Event::End(e)) => XmlEvent::End(String::from_utf8_lossy(e.name().0).into()),
            Ok(Event::Text(t)) => t.decode().map_or(XmlEvent::Other, |s| XmlEvent::Text(s.into())),
            Ok(Event::Eof) | Err(_) => return out,
            Ok(_) => XmlEvent::Other,
        });
        buf.clear();
    }
}

/// The URLs listed in `<loc>` elements, after events `evs`; `in_loc` tells
/// whether the events end inside a `<loc>` element.
pub open spec fn locs_after(evs: Seq<XmlItem>) -> (Seq<Seq<char>>, bool)
    decreases evs.len(),
{
    if evs.len() == 0 {
        (Seq::empty(), false)
    } else {
        let (urls, in_loc) = locs_after(evs.drop_last());
        match evs.last() {
            XmlItem::Start(n) => if n == "loc"@ {
                (urls, true)
            } else {
                (urls, in_loc)
            },
            XmlItem::End(n) => if n == "loc"@ {
                (urls, false)
            } else {
                (urls, in_loc)
            },
            XmlItem::Text(t) => if in_loc {
                match spec_url_parse(trim(t)) {
                    Ok(u) => (urls.push(u), in_loc),
                    Err(_) => (urls, in_loc),
                }
            } else {
                (urls, in_loc)
            },
            XmlItem::Other => (urls, in_loc),
        }
    }
}

/// The URLs listed in a sitemap's `<loc>` elements that parse as URLs.
pub open spec fn sitemap_locs(xml: Seq<char>) -> Seq<Seq<char>> {
    locs_after(spec_xml_events(xml)).0
}

fn is_loc(n: &String) -> (b: bool)
    ensures
        b == (n@ == "loc"@),
{
    crate::text::chars_eq(&crate::text::chars_of(n.as_str()), &crate::text::chars_of("loc"))
}

/// The URLs listed in a sitemap's `<loc>` elements that parse as URLs.
pub fn parse_locs(xml: &str) -> (r: Vec<String>)
    ensures
        strings_view(r@) == sitemap_locs(xml@),
{
    locs_from_events(&xml_events(xml))
}

/// The URLs in `<loc>` elements among the events `evs` that parse as URLs.
pub fn locs_from_events(evs: &Vec<XmlEvent>) -> (r: Vec<String>)
    ensures
        strings_view(r@) == locs_after(evs@.map_values(|e: XmlEvent| event_view(e))).0,
{
    let ghost all = evs@.map_values(|e: XmlEvent| event_view(e));
    let mut urls: Vec<String> = Vec::new();
    let mut in_loc = false;
    let mut i: usize = 0;
    while i < evs.len()
        invariant
            i <= evs@.len(),
            all == evs@.map_values(|e: XmlEvent| event_view(e)),
            (strings_view(urls@), in_loc) == locs_after(all.take(i as int)),
        decreases evs.len() - i,
    {
        assert(all.take(i + 1).drop_last() == all.take(i as int));
        assert(all.take(i + 1).last() == event_view(evs@[i as int]));
        match &evs[i] {
            XmlEvent::Start(n) => {
                if is_loc(n) {
                    in_loc = true;
                }
            },
            XmlEvent::End(n) => {
                if is_loc(n) {
                    in_loc = false;
                }
            },
            XmlEvent::Text(t) => {
                if in_loc {
                    let tt = crate::text::string_of(
                        &crate::text::trim_chars(&crate::text::chars_of(t.as_str())),
                    );
                    match crate::weburl::url_parse(tt.as_str()) {
                        Ok(u) => {
                            let ghost prev = strings_view(urls@);
                            urls.push(u);
                            assert(strings_view(urls@) =~= prev.push(u@));
                        },
                        Err(_) => {},
                    }
                }
            },
            XmlEvent::Other => {},
        }
        i = i + 1;
    }
    assert(all.take(all.len() as int) == all);
    urls
}

/// When the sitemap is an index (it mentions `<sitemapindex`), the child
/// sitemaps to read: the first [`MAX_CHILD_SITEMAPS`] of its URLs.
pub fn child_sitemaps(body: &str, locs: &Vec<String>) -> (r: Option<Vec<String>>)
    ensures
        r is Some == has_substring(body@, "<sitemapindex"@),
        r matches Some(c) ==> strings_view(c@) == strings_view(locs@).take(
            if locs@.len() < MAX_CHILD_SITEMAPS {
                locs@.len() as int
            } else {
                MAX_CHILD_SITEMAPS as int
            },
        ),
{
    if !crate::text::contains_chars(
        &crate::text::chars_of(body),
        &crate::text::chars_of("<sitemapindex"),
    ) {
        return None;
    }
    let n = if locs.len() < MAX_CHILD_SITEMAPS {
        locs.len()
    } else {
        MAX_CHILD_SITEMAPS
    };
    let mut c: Vec<String> = Vec::new();
    let mut i: usize = 0;
    while i < n
        invariant
            i <= n <= locs@.len(),
            strings_view(c@) == strings_view(locs@).take(i as int),
        decreases n - i,
    {
        let s = locs[i].clone();
        let ghost prev = strings_view(c@);
        c.push(s);
        assert(strings_view(c@) =~= prev.push(s@));
        assert(strings_view(locs@).take(i + 1) =~= strings_view(locs@).take(i as int).push(
            locs@[i as int]@,
        ));
        i = i + 1;
    }
    Some(c)
}

} // verus!
