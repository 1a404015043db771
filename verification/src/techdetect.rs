//! Technology fingerprinting from response headers and from raw HTML.

use vstd::prelude::*;
use crate::text::{ascii_lower, has_substring};

verus! {

broadcast use vstd::string::group_string_axioms;

/// What the response headers reveal about the serving stack.
pub struct HeaderTech {
    pub server: Option<String>,
    pub powered_by: Option<String>,
    pub cdn: Option<String>,
}

/// One response header: its (lowercase) name and its value when the value is
/// visible ASCII text.
pub struct HeaderEntry {
    pub name: String,
    pub value: Option<String>,
}

/// The headers of a response, in the order the server sent them.
pub struct ResponseHeaders {
    pub entries: Vec<HeaderEntry>,
}

/// Name and value of each header, as plain text.
pub open spec fn headers_view(h: ResponseHeaders) -> Seq<(Seq<char>, Option<Seq<char>>)> {
    h.entries@.map_values(
        |e: HeaderEntry|
            (
                e.name@,
                match e.value {
                    Some(v) => Some(v@),
                    None => None,
                },
            ),
    )
}

/// The first header named `name`, if any (`HeaderMap::get`).
pub open spec fn header_get(h: Seq<(Seq<char>, Option<Seq<char>>)>, name: Seq<char>) -> Option<
    Option<Seq<char>>,
>
    decreases h.len(),
{
    if h.len() == 0 {
        None
    } else if h[0].0 == name {
        Some(h[0].1)
    } else {
        header_get(h.drop_first(), name)
    }
}

/// The text of the first header named `name`, when there is one and it is
/// visible ASCII.
pub open spec fn header_text(h: Seq<(Seq<char>, Option<Seq<char>>)>, name: Seq<char>) -> Option<
    Seq<char>,
> {
    match header_get(h, name) {
        Some(Some(v)) => Some(v),
        _ => None,
    }
}

/// Some header is named `name` (`HeaderMap::contains_key`).
pub open spec fn header_present(h: Seq<(Seq<char>, Option<Seq<char>>)>, name: Seq<char>) -> bool {
    header_get(h, name).is_some()
}

/// The CDN that the headers point to, checked in a fixed order.
pub open spec fn cdn_of(h: Seq<(Seq<char>, Option<Seq<char>>)>) -> Option<Seq<char>> {
    let server_lower = ascii_lower(
        match header_text(h, "server"@) {
            Some(s) => s,
            None => Seq::empty(),
        },
    );
    if header_present(h, "cf-ray"@) || has_substring(server_lower, "cloudflare"@) {
        Some("Cloudflare"@)
    } else if header_present(h, "x-amz-cf-id"@) {
        Some("Amazon CloudFront"@)
    } else if match header_text(h, "x-served-by"@) {
        Some(v) => has_substring(ascii_lower(v), "cache"@),
        None => false,
    } {
        Some("Fastly"@)
    } else if header_present(h, "x-vercel-id"@) {
        Some("Vercel"@)
    } else if header_present(h, "x-nf-request-id"@) {
        Some("Netlify"@)
    } else if header_present(h, "x-akamai-request-id"@) || has_substring(
        server_lower,
        "akamaighost"@,
    ) {
        Some("Akamai"@)
    } else {
        None
    }
}

pub open spec fn opt_string_view(o: Option<String>) -> Option<Seq<char>> {
    match o {
        Some(s) => Some(s@),
        None => None,
    }
}

/// The first header named `name`, if any.
fn header_get_exec(h: &ResponseHeaders, name: &str) -> (r: Option<Option<String>>)
    ensures
        r.is_some() == header_get(headers_view(*h), name@).is_some(),
        r matches Some(v) ==> header_get(headers_view(*h), name@) == Some(opt_string_view(v)),
{
    let n = crate::text::chars_of(name);
    let mut i: usize = 0;
    let ghost hv = headers_view(*h);
    assert(hv.skip(0) == hv);
    while i < h.entries.len()
        invariant
            i <= h.entries@.len(),
            hv == headers_view(*h),
            n@ == name@,
            header_get(hv, name@) == header_get(hv.skip(i as int), name@),
        decreases h.entries.len() - i,
    {
        let e = &h.entries[i];
        let en = crate::text::chars_of(e.name.as_str());
        assert(hv.skip(i as int)[0] == hv[i as int]);
        if crate::text::chars_eq(&en, &n) {
            let v = match &e.value {
                Some(s) => Some(s.clone()),
                None => None,
            };
            return Some(v);
        }
        assert(hv.skip(i as int).drop_first() == hv.skip(i + 1));
        i = i + 1;
    }
    None
}

fn header_text_exec(h: &ResponseHeaders, name: &str) -> (r: Option<String>)
    ensures
        opt_string_view(r) == header_text(headers_view(*h), name@),
{
    match header_get_exec(h, name) {
        Some(v) => v,
        None => None,
    }
}

/// `text` (lowercased) contains `needle`.
fn lower_contains(text: &Option<String>, needle: &str) -> (b: bool)
    ensures
        b == has_substring(
            ascii_lower(
                match opt_string_view(*text) {
                    Some(s) => s,
                    None => Seq::empty(),
                },
            ),
            needle@,
        ),
{
    let chars = match text {
        Some(s) => crate::text::chars_of(s.as_str()),
        None => Vec::new(),
    };
    let lower = crate::text::lower_chars(&chars);
    crate::text::contains_chars(&lower, &crate::text::chars_of(needle))
}

/// Server software, framework and CDN named by the response headers.
pub fn detect_from_headers(headers: &ResponseHeaders) -> (t: HeaderTech)
    ensures
        opt_string_view(t.server) == header_text(headers_view(*headers), "server"@),
        opt_string_view(t.powered_by) == header_text(headers_view(*headers), "x-powered-by"@),
        opt_string_view(t.cdn) == cdn_of(headers_view(*headers)),
{
    let server = header_text_exec(headers, "server");
    let powered_by = header_text_exec(headers, "x-powered-by");
    let served_by = header_text_exec(headers, "x-served-by");
    let cdn = if header_get_exec(headers, "cf-ray").is_some() || lower_contains(
        &server,
        "cloudflare",
    ) {
        Some("Cloudflare".to_string())
    } else if header_get_exec(headers, "x-amz-cf-id").is_some() {
        Some("Amazon CloudFront".to_string())
    } else if served_by.is_some() && lower_contains(&served_by, "cache") {
        Some("Fastly".to_string())
    } else if header_get_exec(headers, "x-vercel-id").is_some() {
        Some("Vercel".to_string())
    } else if header_get_exec(headers, "x-nf-request-id").is_some() {
        Some("Netlify".to_string())
    } else if header_get_exec(headers, "x-akamai-request-id").is_some() || lower_contains(
        &server,
        "akamaighost",
    ) {
        Some("Akamai".to_string())
    } else {
        None
    };
    HeaderTech { server, powered_by, cdn }
}

// ---------------------------------------------------------------------------
// HTML fingerprints

/// The CMS that the (lowercased) HTML points to, checked in a fixed order.
pub open spec fn cms_of(l: Seq<char>) -> Option<Seq<char>> {
    if has_substring(l, "wp-content"@) || has_substring(l, "wp-includes"@) {
        Some("WordPress"@)
    } else if has_substring(l, "/sites/default/files"@) || has_substring(l, "drupal.settings"@) {
        Some("Drupal"@)
    } else if has_substring(l, "joomla!"@) || has_substring(l, "/media/jui/"@) {
        Some("Joomla"@)
    } else if has_substring(l, "cdn.shopify.com"@) || has_substring(l, "shopify.theme"@) {
        Some("Shopify"@)
    } else if has_substring(l, "static.wixstatic.com"@) || has_substring(l, "wix.com"@) {
        Some("Wix"@)
    } else if has_substring(l, "squarespace"@) {
        Some("Squarespace"@)
    } else if has_substring(l, "cdn.webflow.com"@) {
        Some("Webflow"@)
    } else {
        None
    }
}

pub open spec fn push_if(s: Seq<Seq<char>>, cond: bool, name: Seq<char>) -> Seq<Seq<char>> {
    if cond {
        s.push(name)
    } else {
        s
    }
}

/// The libraries and services that the (lowercased) HTML points to, in a
/// fixed order.
pub open spec fn technologies_of(l: Seq<char>) -> Seq<Seq<char>> {
    let s = Seq::<Seq<char>>::empty();
    let s = push_if(
        s,
        has_substring(l, "_next/static"@) || has_substring(l, "__next_data__"@),
        "Next.js"@,
    );
    let s = push_if(s, has_substring(l, "__nuxt__"@), "Nuxt.js"@);
    let s = push_if(s, has_substring(l, "ng-version"@), "Angular"@);
    let s = push_if(
        s,
        has_substring(l, "data-reactroot"@) || has_substring(l, "react-dom"@),
        "React"@,
    );
    let s = push_if(
        s,
        has_substring(l, "data-v-app"@) || has_substring(l, "vue.js"@) || has_substring(
            l,
            "__vue__"@,
        ),
        "Vue.js"@,
    );
    let s = push_if(s, has_substring(l, "jquery"@), "jQuery"@);
    let s = push_if(s, has_substring(l, "bootstrap"@), "Bootstrap"@);
    let s = push_if(s, has_substring(l, "tailwind"@), "Tailwind CSS"@);
    let s = push_if(s, has_substring(l, "googletagmanager.com/gtm.js"@), "Google Tag Manager"@);
    let s = push_if(
        s,
        has_substring(l, "google-analytics.com"@) || has_substring(l, "gtag("@),
        "Google Analytics"@,
    );
    push_if(s, has_substring(l, "cdn.jsdelivr.net"@), "jsDelivr CDN"@)
}

pub open spec fn strings_view(v: Seq<String>) -> Seq<Seq<char>> {
    v.map_values(|s: String| s@)
}

/// Lowercased HTML contains `needle`.
fn has(lower: &Vec<char>, needle: &str) -> (b: bool)
    ensures
        b == has_substring(lower@, needle@),
{
    crate::text::contains_chars(lower, &crate::text::chars_of(needle))
}

fn push_name(v: &mut Vec<String>, cond: bool, name: &str)
    ensures
        strings_view(final(v)@) == push_if(strings_view(old(v)@), cond, name@),
{
    if cond {
        v.push(name.to_string());
        assert(strings_view(v@) =~= strings_view(old(v)@).push(name@));
    }
}

/// Cheap substring-based fingerprinting of the raw homepage HTML: the CMS, if
/// one is recognised, and the front-end technologies found.
pub fn detect_from_html(html: &str) -> (r: (Option<String>, Vec<String>))
    ensures
        opt_string_view(r.0) == cms_of(ascii_lower(html@)),
        strings_view(r.1@) == technologies_of(ascii_lower(html@)),
{
    let lower = crate::text::lower_chars(&crate::text::chars_of(html));
    let cms = if has(&lower, "wp-content") || has(&lower, "wp-includes") {
        Some("WordPress")
    } else if has(&lower, "/sites/default/files") || has(&lower, "drupal.settings") {
        Some("Drupal")
    } else if has(&lower, "joomla!") || has(&lower, "/media/jui/") {
        Some("Joomla")
    } else if has(&lower, "cdn.shopify.com") || has(&lower, "shopify.theme") {
        Some("Shopify")
    } else if has(&lower, "static.wixstatic.com") || has(&lower, "wix.com") {
        Some("Wix")
    } else if has(&lower, "squarespace") {
        Some("Squarespace")
    } else if has(&lower, "cdn.webflow.com") {
        Some("Webflow")
    } else {
        None
    };
    let cms = match cms {
        Some(s) => Some(s.to_string()),
        None => None,
    };
    let mut t: Vec<String> = Vec::new();
    assert(strings_view(t@) =~= Seq::<Seq<char>>::empty());
    let c = has(&lower, "_next/static") || has(&lower, "__next_data__");
    push_name(&mut t, c, "Next.js");
    let c = has(&lower, "__nuxt__");
    push_name(&mut t, c, "Nuxt.js");
    let c = has(&lower, "ng-version");
    push_name(&mut t, c, "Angular");
    let c = has(&lower, "data-reactroot") || has(&lower, "react-dom");
    push_name(&mut t, c, "React");
    let c = has(&lower, "data-v-app") || has(&lower, "vue.js") || has(&lower, "__vue__");
    push_name(&mut t, c, "Vue.js");
    let c = has(&lower, "jquery");
    push_name(&mut t, c, "jQuery");
    let c = has(&lower, "bootstrap");
    push_name(&mut t, c, "Bootstrap");
    let c = has(&lower, "tailwind");
    push_name(&mut t, c, "Tailwind CSS");
    let c = has(&lower, "googletagmanager.com/gtm.js");
    push_name(&mut t, c, "Google Tag Manager");
    let c = has(&lower, "google-analytics.com") || has(&lower, "gtag(");
    push_name(&mut t, c, "Google Analytics");
    let c = has(&lower, "cdn.jsdelivr.net");
    push_name(&mut t, c, "jsDelivr CDN");
    (cms, t)
}


proof fn lemma_lower_idempotent(s: Seq<char>)
    ensures
        ascii_lower(ascii_lower(s)) == ascii_lower(s),
{
    assert(ascii_lower(ascii_lower(s)) =~= ascii_lower(s));
}

/// Fingerprints ignore ASCII case: HTML that differs only in the case of
/// ASCII letters is recognised alike.
pub proof fn law_html_detection_ignores_case(a: Seq<char>, b: Seq<char>)
    requires
        ascii_lower(a) == ascii_lower(b),
    ensures
        cms_of(ascii_lower(a)) == cms_of(ascii_lower(b)),
        technologies_of(ascii_lower(a)) == technologies_of(ascii_lower(b)),
{
}

/// Lowercasing the HTML first changes nothing.
pub proof fn law_lowercased_html_detected_alike(h: Seq<char>)
    ensures
        cms_of(ascii_lower(ascii_lower(h))) == cms_of(ascii_lower(h)),
        technologies_of(ascii_lower(ascii_lower(h))) == technologies_of(ascii_lower(h)),
{
    lemma_lower_idempotent(h);
}


proof fn lemma_push_if_contains(s: Seq<Seq<char>>, c: bool, n: Seq<char>, x: Seq<char>)
    ensures
        push_if(s, c, n).contains(x) <==> (s.contains(x) || (c && n == x)),
{
    if c {
        let t = s.push(n);
        if s.contains(x) {
            let i = choose|i: int| 0 <= i < s.len() && s[i] == x;
            assert(t[i] == s[i]);
        }
        if n == x {
            assert(t[s.len() as int] == n);
        }
        if t.contains(x) {
            let i = choose|i: int| 0 <= i < t.len() && t[i] == x;
            if i < s.len() {
                assert(s[i] == t[i]);
            }
        }
    }
}

/// Whether `x` is listed among the technologies of the (lowercased) HTML
/// `l`, step by step through the fingerprint table.
proof fn lemma_technologies_contain(l: Seq<char>, x: Seq<char>)
    ensures
        technologies_of(l).contains(x) <==> (
(x == "Next.js"@ && (has_substring(l, "_next/static"@) || has_substring(l, "__next_data__"@)))
            || (x == "Nuxt.js"@ && (has_substring(l, "__nuxt__"@)))
            || (x == "Angular"@ && (has_substring(l, "ng-version"@)))
            || (x == "React"@ && (has_substring(l, "data-reactroot"@) || has_substring(l, "react-dom"@)))
            || (x == "Vue.js"@ && (has_substring(l, "data-v-app"@) || has_substring(l, "vue.js"@) || has_substring(l, "__vue__"@)))
            || (x == "jQuery"@ && (has_substring(l, "jquery"@)))
            || (x == "Bootstrap"@ && (has_substring(l, "bootstrap"@)))
            || (x == "Tailwind CSS"@ && (has_substring(l, "tailwind"@)))
            || (x == "Google Tag Manager"@ && (has_substring(l, "googletagmanager.com/gtm.js"@)))
            || (x == "Google Analytics"@ && (has_substring(l, "google-analytics.com"@) || has_substring(l, "gtag("@)))
            || (x == "jsDelivr CDN"@ && (has_substring(l, "cdn.jsdelivr.net"@)))),
{
    let s0 = Seq::<Seq<char>>::empty();
    let c1 = has_substring(l, "_next/static"@) || has_substring(l, "__next_data__"@);
    let s1 = push_if(s0, c1, "Next.js"@);
    lemma_push_if_contains(s0, c1, "Next.js"@, x);
    let c2 = has_substring(l, "__nuxt__"@);
    let s2 = push_if(s1, c2, "Nuxt.js"@);
    lemma_push_if_contains(s1, c2, "Nuxt.js"@, x);
    let c3 = has_substring(l, "ng-version"@);
    let s3 = push_if(s2, c3, "Angular"@);
    lemma_push_if_contains(s2, c3, "Angular"@, x);
    let c4 = has_substring(l, "data-reactroot"@) || has_substring(l, "react-dom"@);
    let s4 = push_if(s3, c4, "React"@);
    lemma_push_if_contains(s3, c4, "React"@, x);
    let c5 = has_substring(l, "data-v-app"@) || has_substring(l, "vue.js"@) || has_substring(l, "__vue__"@);
    let s5 = push_if(s4, c5, "Vue.js"@);
    lemma_push_if_contains(s4, c5, "Vue.js"@, x);
    let c6 = has_substring(l, "jquery"@);
    let s6 = push_if(s5, c6, "jQuery"@);
    lemma_push_if_contains(s5, c6, "jQuery"@, x);
    let c7 = has_substring(l, "bootstrap"@);
    let s7 = push_if(s6, c7, "Bootstrap"@);
    lemma_push_if_contains(s6, c7, "Bootstrap"@, x);
    let c8 = has_substring(l, "tailwind"@);
    let s8 = push_if(s7, c8, "Tailwind CSS"@);
    lemma_push_if_contains(s7, c8, "Tailwind CSS"@, x);
    let c9 = has_substring(l, "googletagmanager.com/gtm.js"@);
    let s9 = push_if(s8, c9, "Google Tag Manager"@);
    lemma_push_if_contains(s8, c9, "Google Tag Manager"@, x);
    let c10 = has_substring(l, "google-analytics.com"@) || has_substring(l, "gtag("@);
    let s10 = push_if(s9, c10, "Google Analytics"@);
    lemma_push_if_contains(s9, c10, "Google Analytics"@, x);
    let c11 = has_substring(l, "cdn.jsdelivr.net"@);
    let s11 = push_if(s10, c11, "jsDelivr CDN"@);
    lemma_push_if_contains(s10, c11, "jsDelivr CDN"@, x);
    assert(s11 == technologies_of(l));
    assert(!s0.contains(x));
}

/// Each front-end technology is listed exactly when one of its fingerprints
/// occurs in the HTML, in any ASCII case.
pub proof fn law_technology_fingerprints(html: Seq<char>)
    ensures
        ({
            let l = ascii_lower(html);
            let t = technologies_of(l);
            &&& (t.contains("Next.js"@) <==> (has_substring(l, "_next/static"@) || has_substring(l, "__next_data__"@)))
            &&& (t.contains("Nuxt.js"@) <==> (has_substring(l, "__nuxt__"@)))
            &&& (t.contains("Angular"@) <==> (has_substring(l, "ng-version"@)))
            &&& (t.contains("React"@) <==> (has_substring(l, "data-reactroot"@) || has_substring(l, "react-dom"@)))
            &&& (t.contains("Vue.js"@) <==> (has_substring(l, "data-v-app"@) || has_substring(l, "vue.js"@) || has_substring(l, "__vue__"@)))
            &&& (t.contains("jQuery"@) <==> (has_substring(l, "jquery"@)))
            &&& (t.contains("Bootstrap"@) <==> (has_substring(l, "bootstrap"@)))
            &&& (t.contains("Tailwind CSS"@) <==> (has_substring(l, "tailwind"@)))
            &&& (t.contains("Google Tag Manager"@) <==> (has_substring(l, "googletagmanager.com/gtm.js"@)))
            &&& (t.contains("Google Analytics"@) <==> (has_substring(l, "google-analytics.com"@) || has_substring(l, "gtag("@)))
            &&& (t.contains("jsDelivr CDN"@) <==> (has_substring(l, "cdn.jsdelivr.net"@)))
        }),
{
    reveal_strlit("Next.js");
    reveal_strlit("Nuxt.js");
    reveal_strlit("Angular");
    reveal_strlit("React");
    reveal_strlit("Vue.js");
    reveal_strlit("jQuery");
    reveal_strlit("Bootstrap");
    reveal_strlit("Tailwind CSS");
    reveal_strlit("Google Tag Manager");
    reveal_strlit("Google Analytics");
    reveal_strlit("jsDelivr CDN");
    assert("Next.js"@[1] != "Nuxt.js"@[1]);
    assert("Next.js"@[0] != "Angular"@[0]);
    assert("Next.js"@.len() != "React"@.len());
    assert("Next.js"@.len() != "Vue.js"@.len());
    assert("Next.js"@.len() != "jQuery"@.len());
    assert("Next.js"@.len() != "Bootstrap"@.len());
    assert("Next.js"@.len() != "Tailwind CSS"@.len());
    assert("Next.js"@.len() != "Google Tag Manager"@.len());
    assert("Next.js"@.len() != "Google Analytics"@.len());
    assert("Next.js"@.len() != "jsDelivr CDN"@.len());
    assert("Nuxt.js"@[0] != "Angular"@[0]);
    assert("Nuxt.js"@.len() != "React"@.len());
    assert("Nuxt.js"@.len() != "Vue.js"@.len());
    assert("Nuxt.js"@.len() != "jQuery"@.len());
    assert("Nuxt.js"@.len() != "Bootstrap"@.len());
    assert("Nuxt.js"@.len() != "Tailwind CSS"@.len());
    assert("Nuxt.js"@.len() != "Google Tag Manager"@.len());
    assert("Nuxt.js"@.len() != "Google Analytics"@.len());
    assert("Nuxt.js"@.len() != "jsDelivr CDN"@.len());
    assert("Angular"@.len() != "React"@.len());
    assert("Angular"@.len() != "Vue.js"@.len());
    assert("Angular"@.len() != "jQuery"@.len());
    assert("Angular"@.len() != "Bootstrap"@.len());
    assert("Angular"@.len() != "Tailwind CSS"@.len());
    assert("Angular"@.len() != "Google Tag Manager"@.len());
    assert("Angular"@.len() != "Google Analytics"@.len());
    assert("Angular"@.len() != "jsDelivr CDN"@.len());
    assert("React"@.len() != "Vue.js"@.len());
    assert("React"@.len() != "jQuery"@.len());
    assert("React"@.len() != "Bootstrap"@.len());
    assert("React"@.len() != "Tailwind CSS"@.len());
    assert("React"@.len() != "Google Tag Manager"@.len());
    assert("React"@.len() != "Google Analytics"@.len());
    assert("React"@.len() != "jsDelivr CDN"@.len());
    assert("Vue.js"@[0] != "jQuery"@[0]);
    assert("Vue.js"@.len() != "Bootstrap"@.len());
    assert("Vue.js"@.len() != "Tailwind CSS"@.len());
    assert("Vue.js"@.len() != "Google Tag Manager"@.len());
    assert("Vue.js"@.len() != "Google Analytics"@.len());
    assert("Vue.js"@.len() != "jsDelivr CDN"@.len());
    assert("jQuery"@.len() != "Bootstrap"@.len());
    assert("jQuery"@.len() != "Tailwind CSS"@.len());
    assert("jQuery"@.len() != "Google Tag Manager"@.len());
    assert("jQuery"@.len() != "Google Analytics"@.len());
    assert("jQuery"@.len() != "jsDelivr CDN"@.len());
    assert("Bootstrap"@.len() != "Tailwind CSS"@.len());
    assert("Bootstrap"@.len() != "Google Tag Manager"@.len());
    assert("Bootstrap"@.len() != "Google Analytics"@.len());
    assert("Bootstrap"@.len() != "jsDelivr CDN"@.len());
    assert("Tailwind CSS"@.len() != "Google Tag Manager"@.len());
    assert("Tailwind CSS"@.len() != "Google Analytics"@.len());
    assert("Tailwind CSS"@[0] != "jsDelivr CDN"@[0]);
    assert("Google Tag Manager"@.len() != "Google Analytics"@.len());
    assert("Google Tag Manager"@.len() != "jsDelivr CDN"@.len());
    assert("Google Analytics"@.len() != "jsDelivr CDN"@.len());
    let l = ascii_lower(html);
    lemma_technologies_contain(l, "Next.js"@);
    lemma_technologies_contain(l, "Nuxt.js"@);
    lemma_technologies_contain(l, "Angular"@);
    lemma_technologies_contain(l, "React"@);
    lemma_technologies_contain(l, "Vue.js"@);
    lemma_technologies_contain(l, "jQuery"@);
    lemma_technologies_contain(l, "Bootstrap"@);
    lemma_technologies_contain(l, "Tailwind CSS"@);
    lemma_technologies_contain(l, "Google Tag Manager"@);
    lemma_technologies_contain(l, "Google Analytics"@);
    lemma_technologies_contain(l, "jsDelivr CDN"@);
}

/// The CMS is the first, in a fixed order, whose fingerprint occurs in the
/// HTML, in any ASCII case; none when no fingerprint occurs.
pub proof fn law_cms_fingerprints(html: Seq<char>)
    ensures
        ({
            let l = ascii_lower(html);
            let c = cms_of(l);
            &&& ((has_substring(l, "wp-content"@) || has_substring(l, "wp-includes"@)) ==> c == Some("WordPress"@))
            &&& (!(has_substring(l, "wp-content"@) || has_substring(l, "wp-includes"@)) && (has_substring(l, "/sites/default/files"@) || has_substring(l, "drupal.settings"@)) ==> c == Some("Drupal"@))
            &&& (!(has_substring(l, "wp-content"@) || has_substring(l, "wp-includes"@)) && !(has_substring(l, "/sites/default/files"@) || has_substring(l, "drupal.settings"@)) && (has_substring(l, "joomla!"@) || has_substring(l, "/media/jui/"@)) ==> c == Some("Joomla"@))
            &&& (!(has_substring(l, "wp-content"@) || has_substring(l, "wp-includes"@)) && !(has_substring(l, "/sites/default/files"@) || has_substring(l, "drupal.settings"@)) && !(has_substring(l, "joomla!"@) || has_substring(l, "/media/jui/"@)) && (has_substring(l, "cdn.shopify.com"@) || has_substring(l, "shopify.theme"@)) ==> c == Some("Shopify"@))
            &&& (!(has_substring(l, "wp-content"@) || has_substring(l, "wp-includes"@)) && !(has_substring(l, "/sites/default/files"@) || has_substring(l, "drupal.settings"@)) && !(has_substring(l, "joomla!"@) || has_substring(l, "/media/jui/"@)) && !(has_substring(l, "cdn.shopify.com"@) || has_substring(l, "shopify.theme"@)) && (has_substring(l, "static.wixstatic.com"@) || has_substring(l, "wix.com"@)) ==> c == Some("Wix"@))
            &&& (!(has_substring(l, "wp-content"@) || has_substring(l, "wp-includes"@)) && !(has_substring(l, "/sites/default/files"@) || has_substring(l, "drupal.settings"@)) && !(has_substring(l, "joomla!"@) || has_substring(l, "/media/jui/"@)) && !(has_substring(l, "cdn.shopify.com"@) || has_substring(l, "shopify.theme"@)) && !(has_substring(l, "static.wixstatic.com"@) || has_substring(l, "wix.com"@)) && (has_substring(l, "squarespace"@)) ==> c == Some("Squarespace"@))
            &&& (!(has_substring(l, "wp-content"@) || has_substring(l, "wp-includes"@)) && !(has_substring(l, "/sites/default/files"@) || has_substring(l, "drupal.settings"@)) && !(has_substring(l, "joomla!"@) || has_substring(l, "/media/jui/"@)) && !(has_substring(l, "cdn.shopify.com"@) || has_substring(l, "shopify.theme"@)) && !(has_substring(l, "static.wixstatic.com"@) || has_substring(l, "wix.com"@)) && !(has_substring(l, "squarespace"@)) && (has_substring(l, "cdn.webflow.com"@)) ==> c == Some("Webflow"@))
            &&& (!(has_substring(l, "wp-content"@) || has_substring(l, "wp-includes"@)) && !(has_substring(l, "/sites/default/files"@) || has_substring(l, "drupal.settings"@)) && !(has_substring(l, "joomla!"@) || has_substring(l, "/media/jui/"@)) && !(has_substring(l, "cdn.shopify.com"@) || has_substring(l, "shopify.theme"@)) && !(has_substring(l, "static.wixstatic.com"@) || has_substring(l, "wix.com"@)) && !(has_substring(l, "squarespace"@)) && !(has_substring(l, "cdn.webflow.com"@)) ==> c is None)
        }),
{
}

} // verus!
