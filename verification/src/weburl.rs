//! URLs, held as their serialization (`Url::as_str`). Parsing, joining and
//! component access are done by the `url` crate; each call below names its
//! result as a function of its arguments.

use vstd::prelude::*;

verus! {

/// The serialization of the URL that `s` parses to (`Url::parse`), or the
/// text of the parse error (its `Display`).
pub uninterp spec fn spec_url_parse(s: Seq<char>) -> Result<Seq<char>, Seq<char>>;

/// The serialization of `href` resolved against the URL that `base` parses
/// to (`Url::join`), if both succeed.
pub uninterp spec fn spec_url_join(base: Seq<char>, href: Seq<char>) -> Option<Seq<char>>;

/// The serialization of the URL that `s` parses to, without its fragment
/// (`Url::set_fragment(None)`), if `s` parses.
pub uninterp spec fn spec_url_without_fragment(s: Seq<char>) -> Option<Seq<char>>;

/// The host of the URL that `s` parses to (`Url::host_str`); `None` when it
/// has none or `s` does not parse.
pub uninterp spec fn spec_url_host(s: Seq<char>) -> Option<Seq<char>>;

/// The path of the URL that `s` parses to (`Url::path`), if `s` parses.
pub uninterp spec fn spec_url_path(s: Seq<char>) -> Option<Seq<char>>;

/// The port of the URL that `s` parses to, or its scheme's default
/// (`Url::port_or_known_default`); `None` when there is neither or `s` does
/// not parse.
pub uninterp spec fn spec_url_port(s: Seq<char>) -> Option<u16>;

pub open spec fn opt_view(o: Option<String>) -> Option<Seq<char>> {
    match o {
        Some(s) => Some(s@),
        None => None,
    }
}

pub open spec fn result_view(r: Result<String, String>) -> Result<Seq<char>, Seq<char>> {
    match r {
        Ok(s) => Ok(s@),
        Err(e) => Err(e@),
    }
}

/// Parses an absolute URL. Trusted: `url::Url::parse`, then the
/// serialization of the result, or the error's text; the contract only
/// names the result.
#[verifier::external_body]
pub(crate) fn url_parse(s: &str) -> (r: Result<String, String>)
    ensures
        result_view(r) == spec_url_parse(s@),
{
    match url::Url::parse(s) {
        Ok(u) => Ok(u.to_string()),
        Err(e) => Err(e.to_string()),
    }
}

/// Resolves `href` against `base`. Trusted: `url::Url::join` on the URL that
/// `base` parses to; the contract only names the result.
#[verifier::external_body]
pub(crate) fn url_join(base: &str, href: &str) -> (r: Option<String>)
    ensures
        opt_view(r) == spec_url_join(base@, href@),
{
    match url::Url::parse(base) {
        Ok(b) => match b.join(href) {
            Ok(u) => Some(u.to_string()),
            Err(_) => None,
        },
        Err(_) => None,
    }
}

/// The URL without its fragment. Trusted: `url::Url::set_fragment(None)` on
/// the URL that `s` parses to; the contract only names the result.
#[verifier::external_body]
pub(crate) fn url_without_fragment(s: &str) -> (r: Option<String>)
    ensures
        opt_view(r) == spec_url_without_fragment(s@),
{
    match url::Url::parse(s) {
        Ok(mut u) => {
            u.set_fragment(None);
            Some(u.to_string())
        },
        Err(_) => None,
    }
}

/// The URL's host. Trusted: `url::Url::host_str`; the contract only names
/// the result.
#[verifier::external_body]
pub(crate) fn url_host(s: &str) -> (r: Option<String>)
    ensures
        opt_view(r) == spec_url_host(s@),
{
    match url::Url::parse(s) {
        Ok(u) => u.host_str().map(|h| h.to_string()),
        Err(_) => None,
    }
}

/// The URL's path. Trusted: `url::Url::path`; the contract only names the
/// result.
#[verifier::external_body]
pub(crate) fn url_path(s: &str) -> (r: Option<String>)
    ensures
        opt_view(r) == spec_url_path(s@),
{
    match url::Url::parse(s) {
        Ok(u) => Some(u.path().to_string()),
        Err(_) => None,
    }
}

/// The URL's port or its scheme's default. Trusted:
/// `url::Url::port_or_known_default`; the contract only names the result.
#[verifier::external_body]
pub(crate) fn url_port(s: &str) -> (r: Option<u16>)
    ensures
        r == spec_url_port(s@),
{
    match url::Url::parse(s) {
        Ok(u) => u.port_or_known_default(),
        Err(_) => None,
    }
}

/// The key under which a URL is remembered: its serialization without the
/// fragment (the text itself if it is not a URL).
pub open spec fn normalized(s: Seq<char>) -> Seq<char> {
    match spec_url_without_fragment(s) {
        Some(t) => t,
        None => s,
    }
}

/// The key under which a URL is remembered.
pub fn normalize(url: &str) -> (r: String)
    ensures
        r@ == normalized(url@),
{
    match url_without_fragment(url) {
        Some(t) => t,
        None => url.to_string(),
    }
}

} // verus!
