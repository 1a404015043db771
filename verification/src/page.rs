//! Page results: indexability, the result rows written for pages that could
//! not be analysed, the result of an analysed page, and the redirect walk.

use vstd::prelude::*;
use crate::parse::{
    ParsedPage, opt_view, page_canonical, page_headings, page_images, page_links, page_meta,
    page_title, page_word_count, strings_view,
};
use crate::text::{ascii_lower, decimal, has_substring};
use crate::types::PageResult;
use crate::weburl::{normalized, spec_url_join};

verus! {

broadcast use vstd::string::group_string_axioms;

// ---------------------------------------------------------------------------
// Status text

/// The standard reason phrase of an HTTP status code, if it has one.
pub uninterp spec fn spec_status_reason(code: u16) -> Option<Seq<char>>;

/// The reason phrase of a status code. Trusted: `http::StatusCode::from_u16`
/// (through `reqwest::StatusCode`) and `canonical_reason`; the contract only
/// names the result.
#[verifier::external_body]
pub(crate) fn status_reason(code: u16) -> (r: Option<String>)
    ensures
        opt_view(r) == spec_status_reason(code),
{
    match reqwest::StatusCode::from_u16(code) {
        Ok(s) => s.canonical_reason().map(|t| t.to_string()),
        Err(_) => None,
    }
}

/// A status code as shown to users: the code, a space, and its reason phrase
/// (`StatusCode`'s `Display`), given the reason phrase.
pub open spec fn status_display_with(code: u16, reason: Option<Seq<char>>) -> Seq<char> {
    decimal(code as nat) + " "@ + match reason {
        Some(r) => r,
        None => "<unknown status code>"@,
    }
}

/// The status text of a response, given the status's reason phrase; a
/// redirect walk that was cut short says so.
pub open spec fn status_line_with(code: u16, reason: Option<Seq<char>>, capped: bool) -> Seq<char> {
    if capped {
        status_display_with(code, reason) + " (redirect loop or too many hops)"@
    } else {
        status_display_with(code, reason)
    }
}

/// The status text of a response.
pub open spec fn status_line(code: u16, capped: bool) -> Seq<char> {
    status_line_with(code, spec_status_reason(code), capped)
}

/// The status text of a response with status `code` whose reason phrase is
/// `reason`.
pub fn format_status(code: u16, reason: &Option<String>, capped: bool) -> (s: String)
    ensures
        s@ == status_line_with(code, opt_view(*reason), capped),
{
    let mut s = crate::text::decimal_string(code as u64);
    s.append(" ");
    match reason {
        Some(r) => s.append(r.as_str()),
        None => s.append("<unknown status code>"),
    }
    if capped {
        s.append(" (redirect loop or too many hops)");
    }
    s
}

/// The status text of a response.
pub fn status_text(code: u16, capped: bool) -> (s: String)
    ensures
        s@ == status_line(code, capped),
{
    format_status(code, &status_reason(code), capped)
}

// ---------------------------------------------------------------------------
// Indexability

/// `v` mentions `noindex`, ignoring ASCII case.
pub open spec fn has_noindex(v: Option<Seq<char>>) -> bool {
    match v {
        Some(s) => has_substring(ascii_lower(s), "noindex"@),
        None => false,
    }
}

/// Whether a page may be indexed, and if not, why.
pub open spec fn indexability(
    status: u16,
    canonical: Option<Seq<char>>,
    meta_robots: Option<Seq<char>>,
    x_robots_tag: Option<Seq<char>>,
    requested: Seq<char>,
    final_url: Seq<char>,
) -> Seq<char> {
    if status >= 400 || status == 0 {
        "Non-Indexable ("@ + decimal(status as nat) + ")"@
    } else if requested != final_url {
        "Redirected"@
    } else if has_noindex(meta_robots) || has_noindex(x_robots_tag) {
        "Non-Indexable (noindex)"@
    } else if canonical matches Some(c) && c != requested && c != final_url {
        "Canonicalised"@
    } else {
        "Indexable"@
    }
}

/// A `noindex` in the X-Robots-Tag header, or in the meta robots tag, in any
/// ASCII case, makes a page that answered without error at its own URL
/// non-indexable, whatever the other of the two says and whatever its
/// canonical link is.
pub proof fn law_noindex_makes_page_non_indexable(
    status: u16,
    canonical: Option<Seq<char>>,
    meta_robots: Option<Seq<char>>,
    x_robots_tag: Option<Seq<char>>,
    url: Seq<char>,
)
    requires
        0 < status < 400,
        (x_robots_tag matches Some(x) && has_substring(ascii_lower(x), "noindex"@)) || (
        meta_robots matches Some(m) && has_substring(ascii_lower(m), "noindex"@)),
    ensures
        indexability(status, canonical, meta_robots, x_robots_tag, url, url)
            == "Non-Indexable (noindex)"@,
{
}

/// How a page is classified: an error status (400 and above, or none at
/// all) names the status; otherwise a page that ended elsewhere than it was
/// requested is redirected; otherwise `noindex` decides; otherwise a
/// canonical link to another URL makes it canonicalised; otherwise it is
/// indexable.
pub proof fn law_indexability_classes(
    status: u16,
    canonical: Option<Seq<char>>,
    meta_robots: Option<Seq<char>>,
    x_robots_tag: Option<Seq<char>>,
    requested: Seq<char>,
    final_url: Seq<char>,
)
    ensures
        ({
            let r = indexability(status, canonical, meta_robots, x_robots_tag, requested, final_url);
            let noindex = (meta_robots matches Some(m) && has_substring(ascii_lower(m), "noindex"@))
                || (x_robots_tag matches Some(x) && has_substring(ascii_lower(x), "noindex"@));
            let elsewhere = canonical matches Some(c) && c != requested && c != final_url;
            &&& (status == 0 || status >= 400) ==> r == "Non-Indexable ("@ + decimal(status as nat)
                + ")"@
            &&& (0 < status < 400 && requested != final_url) ==> r == "Redirected"@
            &&& (0 < status < 400 && requested == final_url && noindex) ==> r
                == "Non-Indexable (noindex)"@
            &&& (0 < status < 400 && requested == final_url && !noindex && elsewhere) ==> r
                == "Canonicalised"@
            &&& (0 < status < 400 && requested == final_url && !noindex && !elsewhere) ==> r
                == "Indexable"@
        }),
{
}

fn has_noindex_exec(v: &Option<String>) -> (b: bool)
    ensures
        b == has_noindex(opt_view(*v)),
{
    match v {
        Some(s) => crate::text::contains_chars(
            &crate::text::lower_chars(&crate::text::chars_of(s.as_str())),
            &crate::text::chars_of("noindex"),
        ),
        None => false,
    }
}

fn str_eq(a: &str, b: &str) -> (r: bool)
    ensures
        r == (a@ == b@),
{
    crate::text::chars_eq(&crate::text::chars_of(a), &crate::text::chars_of(b))
}

/// Whether a page may be indexed, and if not, why.
pub fn indexability_for(
    status: u16,
    canonical: &Option<String>,
    meta_robots: &Option<String>,
    x_robots_tag: &Option<String>,
    requested: &str,
    final_url: &str,
) -> (s: String)
    ensures
        s@ == indexability(
            status,
            opt_view(*canonical),
            opt_view(*meta_robots),
            opt_view(*x_robots_tag),
            requested@,
            final_url@,
        ),
{
    if status >= 400 || status == 0 {
        let mut s = "Non-Indexable (".to_string();
        let d = crate::text::decimal_string(status as u64);
        s.append(d.as_str());
        s.append(")");
        return s;
    }
    if !str_eq(requested, final_url) {
        return "Redirected".to_string();
    }
    if has_noindex_exec(meta_robots) || has_noindex_exec(x_robots_tag) {
        return "Non-Indexable (noindex)".to_string();
    }
    match canonical {
        Some(c) => {
            if !str_eq(c.as_str(), requested) && !str_eq(c.as_str(), final_url) {
                return "Canonicalised".to_string();
            }
        },
        None => {},
    }
    "Indexable".to_string()
}


// ---------------------------------------------------------------------------
// Page results

/// What is known of a page's final response before its body is read.
pub struct ResponseFacts {
    /// The URL that was requested.
    pub url: String,
    pub depth: usize,
    pub status: u16,
    /// The redirect walk stopped at a loop or at the hop limit.
    pub redirect_capped: bool,
    /// The URL of the final response.
    pub final_url: String,
    pub content_type: Option<String>,
    pub x_robots_tag: Option<String>,
}

/// A page's result and the links and images found on it.
pub struct PageFetchOutcome {
    pub result: PageResult,
    pub discovered_internal: Vec<String>,
    pub discovered_external: Vec<String>,
    pub discovered_images: Vec<(String, Option<String>)>,
}

/// No analysis data: the fields that only an analysed page fills.
pub open spec fn no_analysis(p: PageResult) -> bool {
    &&& p.title.is_none()
    &&& p.title_length == 0
    &&& p.meta_description.is_none()
    &&& p.meta_description_length == 0
    &&& p.h1.is_none()
    &&& p.h1_count == 0
    &&& p.word_count == 0
    &&& p.canonical.is_none()
    &&& p.meta_robots.is_none()
    &&& p.internal_link_count == 0
    &&& p.external_link_count == 0
    &&& p.image_count == 0
    &&& p.html_size_bytes == 0
    &&& p.minify_savings_pct_bits == 0
    &&& p.is_minified
    &&& !p.rendered
}

pub open spec fn no_discoveries(o: PageFetchOutcome) -> bool {
    &&& o.discovered_internal@.len() == 0
    &&& o.discovered_external@.len() == 0
    &&& o.discovered_images@.len() == 0
}

/// A result for a page that was not analysed.
pub fn empty_page_result(
    url: &str,
    depth: usize,
    status: Option<u16>,
    status_text: String,
    content_type: Option<String>,
    redirect_url: Option<String>,
    indexability: String,
    response_time_ms: u64,
    error: Option<String>,
) -> (p: PageResult)
    ensures
        p.url@ == url@,
        p.depth == depth,
        p.status == status,
        p.status_text == status_text,
        p.content_type == content_type,
        p.redirect_url == redirect_url,
        p.indexability == indexability,
        p.response_time_ms == response_time_ms,
        p.error == error,
        no_analysis(p),
{
    PageResult {
        url: url.to_string(),
        depth,
        status,
        status_text,
        content_type,
        title: None,
        title_length: 0,
        meta_description: None,
        meta_description_length: 0,
        h1: None,
        h1_count: 0,
        word_count: 0,
        canonical: None,
        meta_robots: None,
        redirect_url,
        indexability,
        response_time_ms,
        internal_link_count: 0,
        external_link_count: 0,
        image_count: 0,
        html_size_bytes: 0,
        minify_savings_pct_bits: 0,
        is_minified: true,
        rendered: false,
        error,
    }
}

/// The result for a page that robots.txt keeps the crawler from fetching.
pub fn robots_blocked_result(url: &str, depth: usize) -> (p: PageResult)
    ensures
        p.url@ == url@,
        p.depth == depth,
        p.status.is_none(),
        p.status_text@ == "Blocked"@,
        p.content_type.is_none(),
        p.redirect_url.is_none(),
        p.indexability@ == "Non-Indexable (robots.txt)"@,
        p.response_time_ms == 0,
        p.error.is_none(),
        no_analysis(p),
{
    empty_page_result(
        url,
        depth,
        None,
        "Blocked".to_string(),
        None,
        None,
        "Non-Indexable (robots.txt)".to_string(),
        0,
        None,
    )
}

fn outcome_of(result: PageResult) -> (o: PageFetchOutcome)
    ensures
        o.result == result,
        no_discoveries(o),
{
    PageFetchOutcome {
        result,
        discovered_internal: Vec::new(),
        discovered_external: Vec::new(),
        discovered_images: Vec::new(),
    }
}

/// The outcome when no response could be had.
pub fn fetch_failed(url: &str, depth: usize, elapsed_ms: u64, error: String) -> (o:
    PageFetchOutcome)
    ensures
        o.result.url@ == url@,
        o.result.depth == depth,
        o.result.status.is_none(),
        o.result.status_text@ == "Error"@,
        o.result.content_type.is_none(),
        o.result.redirect_url.is_none(),
        o.result.indexability@ == "Non-Indexable (Error)"@,
        o.result.response_time_ms == elapsed_ms,
        o.result.error == Some(error),
        no_analysis(o.result),
        no_discoveries(o),
{
    outcome_of(
        empty_page_result(
            url,
            depth,
            None,
            "Error".to_string(),
            None,
            None,
            "Non-Indexable (Error)".to_string(),
            elapsed_ms,
            Some(error),
        ),
    )
}

/// The response is HTML (its content type mentions `html`); only then is
/// the body read and analysed.
pub fn is_html(f: &ResponseFacts) -> (b: bool)
    ensures
        b == (opt_view(f.content_type) matches Some(ct) && has_substring(ct, "html"@)),
{
    match &f.content_type {
        Some(ct) => crate::text::contains_chars(
            &crate::text::chars_of(ct.as_str()),
            &crate::text::chars_of("html"),
        ),
        None => false,
    }
}

/// The final URL, when it differs from the requested one.
pub open spec fn redirect_target(f: ResponseFacts) -> Option<Seq<char>> {
    if f.final_url@ != f.url@ {
        Some(f.final_url@)
    } else {
        None
    }
}

fn redirect_url_of(f: &ResponseFacts) -> (r: Option<String>)
    ensures
        opt_view(r) == redirect_target(*f),
{
    if !str_eq(f.final_url.as_str(), f.url.as_str()) {
        Some(f.final_url.clone())
    } else {
        None
    }
}

/// The fields that every result built from a response shares.
pub open spec fn from_response(p: PageResult, f: ResponseFacts, elapsed_ms: u64) -> bool {
    &&& p.url@ == f.url@
    &&& p.depth == f.depth
    &&& p.status == Some(f.status)
    &&& p.status_text@ == status_line(f.status, f.redirect_capped)
    &&& p.content_type == f.content_type
    &&& opt_view(p.redirect_url) == redirect_target(f)
    &&& p.response_time_ms == elapsed_ms
}

/// The outcome for a response that is not HTML.
pub fn not_html_outcome(f: &ResponseFacts, elapsed_ms: u64) -> (o: PageFetchOutcome)
    ensures
        from_response(o.result, *f, elapsed_ms),
        o.result.indexability@ == indexability(
            f.status,
            None,
            None,
            opt_view(f.x_robots_tag),
            f.url@,
            f.final_url@,
        ),
        o.result.error.is_none(),
        no_analysis(o.result),
        no_discoveries(o),
{
    let none: Option<String> = None;
    let ix = indexability_for(
        f.status,
        &none,
        &none,
        &f.x_robots_tag,
        f.url.as_str(),
        f.final_url.as_str(),
    );
    outcome_of(
        empty_page_result(
            f.url.as_str(),
            f.depth,
            Some(f.status),
            status_text(f.status, f.redirect_capped),
            f.content_type.clone(),
            redirect_url_of(f),
            ix,
            elapsed_ms,
            None,
        ),
    )
}

/// The outcome when an HTML response's body could not be read.
pub fn body_failed_outcome(f: &ResponseFacts, elapsed_ms: u64, error: String) -> (o:
    PageFetchOutcome)
    ensures
        from_response(o.result, *f, elapsed_ms),
        o.result.indexability@ == "Non-Indexable (Error)"@,
        o.result.error == Some(error),
        no_analysis(o.result),
        no_discoveries(o),
{
    outcome_of(
        empty_page_result(
            f.url.as_str(),
            f.depth,
            Some(f.status),
            status_text(f.status, f.redirect_capped),
            f.content_type.clone(),
            redirect_url_of(f),
            "Non-Indexable (Error)".to_string(),
            elapsed_ms,
            Some(error),
        ),
    )
}

fn opt_len(s: &Option<String>) -> (n: usize)
    ensures
        n == (match opt_view(*s) {
            Some(t) => t.len(),
            None => 0,
        }),
{
    match s {
        Some(t) => crate::text::chars_of(t.as_str()).len(),
        None => 0,
    }
}

/// The outcome for an HTML page whose body was read (`rendered` when a
/// browser produced it): the page analysed against its final URL. The
/// page's size is the body's length in bytes; no minification analysis is
/// made, so the savings are 0 and the page counts as minified.
pub fn analysed_outcome(f: &ResponseFacts, body: &str, rendered: bool, elapsed_ms: u64) -> (o:
    PageFetchOutcome)
    ensures
        from_response(o.result, *f, elapsed_ms),
        opt_view(o.result.title) == page_title(body@),
        o.result.title_length == (match page_title(body@) {
            Some(t) => t.len(),
            None => 0,
        }),
        opt_view(o.result.meta_description) == page_meta(body@).0,
        o.result.meta_description_length == (match page_meta(body@).0 {
            Some(t) => t.len(),
            None => 0,
        }),
        opt_view(o.result.meta_robots) == page_meta(body@).1,
        o.result.h1_count == page_headings(body@).len(),
        opt_view(o.result.h1) == (if page_headings(body@).len() == 0 {
            None
        } else {
            Some(page_headings(body@)[0])
        }),
        o.result.word_count == page_word_count(body@),
        opt_view(o.result.canonical) == page_canonical(body@, f.final_url@),
        o.result.indexability@ == indexability(
            f.status,
            page_canonical(body@, f.final_url@),
            page_meta(body@).1,
            opt_view(f.x_robots_tag),
            f.url@,
            f.final_url@,
        ),
        strings_view(o.discovered_internal@) == page_links(body@, f.final_url@).0,
        strings_view(o.discovered_external@) == page_links(body@, f.final_url@).1,
        crate::parse::images_view(o.discovered_images@) == page_images(body@, f.final_url@),
        o.result.internal_link_count == page_links(body@, f.final_url@).0.len(),
        o.result.external_link_count == page_links(body@, f.final_url@).1.len(),
        o.result.image_count == page_images(body@, f.final_url@).len(),
        o.result.html_size_bytes == body.len(),
        o.result.minify_savings_pct_bits == 0,
        o.result.is_minified,
        o.result.rendered == rendered,
        o.result.error.is_none(),
{
    let parsed: ParsedPage = crate::parse::parse_page(body, f.final_url.as_str());
    let ix = indexability_for(
        f.status,
        &parsed.canonical,
        &parsed.meta_robots,
        &f.x_robots_tag,
        f.url.as_str(),
        f.final_url.as_str(),
    );
    let title_length = opt_len(&parsed.title);
    let meta_description_length = opt_len(&parsed.meta_description);
    let internal_link_count = parsed.internal_links.len();
    let external_link_count = parsed.external_links.len();
    let image_count = parsed.images.len();
    let result = PageResult {
        url: f.url.clone(),
        depth: f.depth,
        status: Some(f.status),
        status_text: status_text(f.status, f.redirect_capped),
        content_type: f.content_type.clone(),
        title: parsed.title,
        title_length,
        meta_description: parsed.meta_description,
        meta_description_length,
        h1: parsed.h1,
        h1_count: parsed.h1_count,
        word_count: parsed.word_count,
        canonical: parsed.canonical,
        meta_robots: parsed.meta_robots,
        redirect_url: redirect_url_of(f),
        indexability: ix,
        response_time_ms: elapsed_ms,
        internal_link_count,
        external_link_count,
        image_count,
        html_size_bytes: body.len(),
        minify_savings_pct_bits: 0,
        is_minified: true,
        rendered,
        error: None,
    };
    PageFetchOutcome {
        result,
        discovered_internal: parsed.internal_links,
        discovered_external: parsed.external_links,
        discovered_images: parsed.images,
    }
}


// ---------------------------------------------------------------------------
// Redirect walk

/// Redirects followed for one page before giving up.
pub const MAX_REDIRECT_HOPS: usize = 10;

/// The walk along a page's redirects. Every hop is requested by the caller;
/// this decides, after each response, whether to request the next URL.
pub struct RedirectWalk {
    current: String,
    chain: Vec<String>,
    seen: Vec<String>,
}

/// What to do after a response.
pub enum RedirectStep {
    /// Request this URL next.
    Follow(String),
    /// The response is final; `capped` when the walk stopped at a loop or at
    /// the hop limit rather than at a non-redirect response.
    Done { capped: bool },
}

impl RedirectWalk {
    /// The URL to request next.
    pub closed spec fn current_url(&self) -> Seq<char> {
        self.current@
    }

    /// Every URL requested before the current one, in order.
    pub closed spec fn chain(&self) -> Seq<Seq<char>> {
        strings_view(self.chain@)
    }

    /// The keys (fragment-less URLs) of the URLs requested so far.
    pub closed spec fn seen(&self) -> Seq<Seq<char>> {
        strings_view(self.seen@)
    }

    /// A walk that has not yet been cut short: no URL is requested twice and
    /// fewer than [`MAX_REDIRECT_HOPS`] hops were taken.
    pub open spec fn wf(&self) -> bool {
        &&& self.seen().no_duplicates()
        &&& self.chain().len() < MAX_REDIRECT_HOPS
        &&& self.seen().contains(normalized(self.current_url()))
    }

    /// A walk that starts at `start`.
    pub fn new(start: &str) -> (w: Self)
        ensures
            w.current_url() == start@,
            w.chain() == Seq::<Seq<char>>::empty(),
            w.seen() == seq![normalized(start@)],
            w.wf(),
    {
        let mut seen: Vec<String> = Vec::new();
        seen.push(crate::weburl::normalize(start));
        let w = RedirectWalk { current: start.to_string(), chain: Vec::new(), seen };
        assert(w.chain() =~= Seq::<Seq<char>>::empty());
        assert(w.seen() =~= seq![normalized(start@)]);
        assert(w.seen()[0] == normalized(start@));
        w
    }

    /// The URL to request next.
    pub fn current(&self) -> (u: String)
        ensures
            u@ == self.current_url(),
    {
        self.current.clone()
    }

    /// Decides what follows a response with status `status` and `Location`
    /// header `location` to the current URL.
    pub fn on_response(&mut self, status: u16, location: Option<String>) -> (step: RedirectStep)
        requires
            old(self).wf(),
        ensures
            ({
                let cur = old(self).current_url();
                let hop = 300 <= status < 400 && location is Some && spec_url_join(
                    cur,
                    location.unwrap()@,
                ) is Some;
                if !hop {
                    &&& step == RedirectStep::Done { capped: false }
                    &&& *final(self) == *old(self)
                } else {
                    let next = spec_url_join(cur, location.unwrap()@).unwrap();
                    let chain = old(self).chain().push(cur);
                    if chain.len() >= MAX_REDIRECT_HOPS || old(self).seen().contains(
                        normalized(next),
                    ) {
                        &&& step == RedirectStep::Done { capped: true }
                        &&& *final(self) == *old(self)
                    } else {
                        &&& step matches RedirectStep::Follow(u) && u@ == next
                        &&& final(self).chain() == chain
                        &&& final(self).current_url() == next
                        &&& final(self).seen() == old(self).seen().push(normalized(next))
                        &&& final(self).wf()
                    }
                }
            }),
    {
        if !(300 <= status && status < 400) {
            return RedirectStep::Done { capped: false };
        }
        let loc = match &location {
            Some(l) => l,
            None => {
                return RedirectStep::Done { capped: false };
            },
        };
        let next = match crate::weburl::url_join(self.current.as_str(), loc.as_str()) {
            Some(n) => n,
            None => {
                return RedirectStep::Done { capped: false };
            },
        };
        let ghost old_chain = self.chain();
        let ghost old_seen = self.seen();
        let key = crate::weburl::normalize(next.as_str());
        let dup = contains_string(&self.seen, &key);
        if self.chain.len() >= MAX_REDIRECT_HOPS - 1 || dup {
            return RedirectStep::Done { capped: true };
        }
        self.chain.push(self.current.clone());
        assert(self.chain() =~= old_chain.push(old(self).current_url()));
        self.seen.push(key);
        assert(self.seen() =~= old_seen.push(normalized(next@)));
        self.current = next.clone();
        proof {
            assert(self.seen()[self.seen().len() - 1] == normalized(next@));
            assert forall|i: int, j: int|
                0 <= i < self.seen().len() && 0 <= j < self.seen().len() && i != j implies self.seen()[i]
                != self.seen()[j] by {
                if i < old_seen.len() && j < old_seen.len() {
                    assert(old_seen[i] == self.seen()[i]);
                    assert(old_seen[j] == self.seen()[j]);
                } else if i < old_seen.len() {
                    assert(old_seen.contains(old_seen[i]));
                } else {
                    assert(old_seen.contains(old_seen[j]));
                }
            }
        }
        RedirectStep::Follow(next)
    }
}

/// `v` holds a string equal to `s`.
pub fn contains_string(v: &Vec<String>, s: &String) -> (b: bool)
    ensures
        b == strings_view(v@).contains(s@),
{
    let t = crate::text::chars_of(s.as_str());
    let mut i: usize = 0;
    while i < v.len()
        invariant
            i <= v@.len(),
            t@ == s@,
            forall|k: int| 0 <= k < i ==> v@[k]@ != s@,
        decreases v.len() - i,
    {
        if crate::text::chars_eq(&crate::text::chars_of(v[i].as_str()), &t) {
            assert(strings_view(v@)[i as int] == s@);
            return true;
        }
        i = i + 1;
    }
    proof {
        if strings_view(v@).contains(s@) {
            let k = choose|k: int| 0 <= k < strings_view(v@).len() && strings_view(v@)[k] == s@;
            assert(v@[k]@ == s@);
        }
    }
    false
}

} // verus!
