//! Analysis of a fetched HTML page: title, meta tags, headings, canonical
//! link, visible word count, links and images.
//!
//! Text inside `script`, `style`, `noscript` and `template` elements does not
//! count as visible text: a text node is visible under an element when no
//! such element stands between the two.

use vstd::prelude::*;
use crate::html::{ElementFacts, FactsView, facts_view, html_select};
use crate::text::{ascii_lower, is_ws, trim};
use crate::weburl::{spec_url_host, spec_url_join, spec_url_without_fragment};

verus! {

broadcast use vstd::string::group_string_axioms;

/// What the analysis of one page yields. Links and images are resolved
/// against the page's URL and held as URL serializations.
pub struct ParsedPage {
    pub title: Option<String>,
    pub meta_description: Option<String>,
    pub meta_robots: Option<String>,
    pub h1: Option<String>,
    pub h1_count: usize,
    pub word_count: usize,
    pub canonical: Option<String>,
    pub internal_links: Vec<String>,
    pub external_links: Vec<String>,
    pub images: Vec<(String, Option<String>)>,
}

// ---------------------------------------------------------------------------
// Specification

pub open spec fn is_stripped(name: Option<Seq<char>>) -> bool {
    name == Some("script"@) || name == Some("style"@) || name == Some("noscript"@) || name
        == Some("template"@)
}

/// A text node with these ancestors is visible under an element with
/// `depth` ancestors.
pub open spec fn piece_visible(ancestors: Seq<Option<Seq<char>>>, depth: nat) -> bool {
    forall|i: int| 0 <= i < ancestors.len() - depth - 1 ==> !is_stripped(#[trigger] ancestors[i])
}

/// The visible text nodes under an element, in document order.
pub open spec fn visible_pieces(
    nodes: Seq<Option<(Seq<char>, Seq<Option<Seq<char>>>)>>,
    depth: nat,
) -> Seq<Seq<char>>
    decreases nodes.len(),
{
    if nodes.len() == 0 {
        Seq::empty()
    } else {
        let rest = visible_pieces(nodes.drop_last(), depth);
        match nodes.last() {
            Some((t, anc)) => if piece_visible(anc, depth) {
                rest.push(t)
            } else {
                rest
            },
            None => rest,
        }
    }
}

/// The strings of `ps` joined with `sep` between them.
pub open spec fn join(ps: Seq<Seq<char>>, sep: Seq<char>) -> Seq<char>
    decreases ps.len(),
{
    if ps.len() == 0 {
        Seq::empty()
    } else if ps.len() == 1 {
        ps[0]
    } else {
        join(ps.drop_last(), sep) + sep + ps.last()
    }
}

/// An element's visible text (`ElementRef::text` collected into one string).
pub open spec fn element_text(f: FactsView) -> Seq<char> {
    join(visible_pieces(f.1, f.2), Seq::empty())
}

/// An element's visible text, trimmed, when that is not empty.
pub open spec fn nonempty_trimmed(s: Seq<char>) -> Option<Seq<char>> {
    if trim(s).len() == 0 {
        None
    } else {
        Some(trim(s))
    }
}

/// The `i`-th requested attribute of an element.
pub open spec fn attr_at(f: FactsView, i: int) -> Option<Seq<char>> {
    if 0 <= i < f.0.len() {
        f.0[i]
    } else {
        None
    }
}

/// Number of whitespace-separated words (`str::split_whitespace().count()`).
pub open spec fn word_count(s: Seq<char>) -> nat
    decreases s.len(),
{
    if s.len() == 0 {
        0
    } else {
        let starts = !is_ws(s.last()) && (s.len() == 1 || is_ws(s[s.len() - 2]));
        word_count(s.drop_last()) + if starts {
            1nat
        } else {
            0nat
        }
    }
}

/// `href` resolved against `base`, without fragment; `None` for empty
/// links, in-page anchors and `mailto:`, `tel:`, `javascript:` and `data:`
/// links, and for links that do not resolve.
pub open spec fn resolved(base: Seq<char>, href: Seq<char>) -> Option<Seq<char>> {
    let h = trim(href);
    let l = ascii_lower(h);
    if h.len() == 0 || h[0] == '#' {
        None
    } else if "mailto:"@.is_prefix_of(l) || "tel:"@.is_prefix_of(l) || "javascript:"@.is_prefix_of(
        l,
    ) || "data:"@.is_prefix_of(l) {
        None
    } else {
        match spec_url_join(base, h) {
            Some(j) => spec_url_without_fragment(j),
            None => None,
        }
    }
}

/// The title: the first `title` element's trimmed visible text, if not empty.
pub open spec fn title_of_elements(ts: Seq<FactsView>) -> Option<Seq<char>> {
    if ts.len() == 0 {
        None
    } else {
        nonempty_trimmed(element_text(ts[0]))
    }
}

pub open spec fn page_title(src: Seq<char>) -> Option<Seq<char>> {
    title_of_elements(html_select(src, "title"@, seq![]))
}

/// The meta description and meta robots values after the `meta` elements
/// `ms`: the last description (or robots) tag decides, its trimmed content
/// when not empty.
pub open spec fn meta_values(ms: Seq<FactsView>) -> (Option<Seq<char>>, Option<Seq<char>>)
    decreases ms.len(),
{
    if ms.len() == 0 {
        (None, None)
    } else {
        let (d, r) = meta_values(ms.drop_last());
        let m = ms.last();
        let name = ascii_lower(
            match attr_at(m, 0) {
                Some(n) => n,
                None => Seq::empty(),
            },
        );
        let content = match attr_at(m, 1) {
            Some(c) => nonempty_trimmed(c),
            None => None,
        };
        if name == "description"@ {
            (content, r)
        } else if name == "robots"@ {
            (d, content)
        } else {
            (d, r)
        }
    }
}

pub open spec fn page_meta(src: Seq<char>) -> (Option<Seq<char>>, Option<Seq<char>>) {
    meta_values(html_select(src, "meta"@, seq!["name"@, "content"@]))
}

/// The trimmed, non-empty texts of the `h1` elements `hs`, in order.
pub open spec fn headings(hs: Seq<FactsView>) -> Seq<Seq<char>>
    decreases hs.len(),
{
    if hs.len() == 0 {
        Seq::empty()
    } else {
        match nonempty_trimmed(element_text(hs.last())) {
            Some(t) => headings(hs.drop_last()).push(t),
            None => headings(hs.drop_last()),
        }
    }
}

pub open spec fn page_headings(src: Seq<char>) -> Seq<Seq<char>> {
    headings(html_select(src, "h1"@, seq![]))
}

/// The canonical URL: the `href` of the first canonical link, resolved.
pub open spec fn page_canonical(src: Seq<char>, base: Seq<char>) -> Option<Seq<char>> {
    canonical_of_elements(html_select(src, "link[rel=\"canonical\"]"@, seq!["href"@]), base)
}

pub open spec fn canonical_of_elements(cs: Seq<FactsView>, base: Seq<char>) -> Option<Seq<char>> {
    if cs.len() == 0 {
        None
    } else {
        match attr_at(cs[0], 0) {
            Some(h) => resolved(base, h),
            None => None,
        }
    }
}

/// Words of the first `body` element's visible text nodes, joined by spaces.
pub open spec fn page_word_count(src: Seq<char>) -> nat {
    word_count_of_elements(html_select(src, "body"@, seq![]))
}

pub open spec fn word_count_of_elements(bs: Seq<FactsView>) -> nat {
    if bs.len() == 0 {
        0
    } else {
        word_count(join(visible_pieces(bs[0].1, bs[0].2), " "@))
    }
}

/// The resolved link targets of the anchors `xs`, split into those on the
/// base URL's host and the others.
pub open spec fn link_targets(xs: Seq<FactsView>, base: Seq<char>) -> (Seq<Seq<char>>, Seq<Seq<char>>)
    decreases xs.len(),
{
    if xs.len() == 0 {
        (Seq::empty(), Seq::empty())
    } else {
        let (i, e) = link_targets(xs.drop_last(), base);
        match attr_at(xs.last(), 0) {
            Some(h) => match resolved(base, h) {
                Some(u) => if spec_url_host(base) == spec_url_host(u) {
                    (i.push(u), e)
                } else {
                    (i, e.push(u))
                },
                None => (i, e),
            },
            None => (i, e),
        }
    }
}

pub open spec fn page_links(src: Seq<char>, base: Seq<char>) -> (Seq<Seq<char>>, Seq<Seq<char>>) {
    link_targets(html_select(src, "a[href]"@, seq!["href"@]), base)
}

/// The resolved sources of the images `xs` with their non-empty `alt` text.
pub open spec fn image_targets(xs: Seq<FactsView>, base: Seq<char>) -> Seq<
    (Seq<char>, Option<Seq<char>>),
>
    decreases xs.len(),
{
    if xs.len() == 0 {
        Seq::empty()
    } else {
        let rest = image_targets(xs.drop_last(), base);
        let x = xs.last();
        match attr_at(x, 0) {
            Some(s) => match resolved(base, s) {
                Some(u) => rest.push(
                    (
                        u,
                        match attr_at(x, 1) {
                            Some(a) => if a.len() == 0 {
                                None
                            } else {
                                Some(a)
                            },
                            None => None,
                        },
                    ),
                ),
                None => rest,
            },
            None => rest,
        }
    }
}

pub open spec fn page_images(src: Seq<char>, base: Seq<char>) -> Seq<(Seq<char>, Option<Seq<char>>)> {
    image_targets(html_select(src, "img[src]"@, seq!["src"@, "alt"@]), base)
}

pub open spec fn opt_view(o: Option<String>) -> Option<Seq<char>> {
    match o {
        Some(s) => Some(s@),
        None => None,
    }
}

pub open spec fn strings_view(v: Seq<String>) -> Seq<Seq<char>> {
    v.map_values(|s: String| s@)
}

pub open spec fn images_view(v: Seq<(String, Option<String>)>) -> Seq<(Seq<char>, Option<Seq<char>>)> {
    v.map_values(|p: (String, Option<String>)| (p.0@, opt_view(p.1)))
}


/// Text inside a `script`, `style`, `noscript` or `template` element below
/// the selected element is not visible text: adding such a text node changes
/// nothing.
pub proof fn law_hidden_text_not_counted(
    nodes: Seq<Option<(Seq<char>, Seq<Option<Seq<char>>>)>>,
    depth: nat,
    text: Seq<char>,
    ancestors: Seq<Option<Seq<char>>>,
    i: int,
)
    requires
        0 <= i < ancestors.len() - depth - 1,
        is_stripped(ancestors[i]),
    ensures
        visible_pieces(nodes.push(Some((text, ancestors))), depth) == visible_pieces(nodes, depth),
{
    assert(nodes.push(Some((text, ancestors))).drop_last() == nodes);
}

/// Text inside a `script`, `style`, `noscript` or `template` element below
/// the selected element is never visible: such a text node adds nothing to
/// the element's visible text, wherever it stands among the nodes.
pub proof fn law_script_style_noscript_template_text_hidden(
    before: Seq<Option<(Seq<char>, Seq<Option<Seq<char>>>)>>,
    text: Seq<char>,
    ancestors: Seq<Option<Seq<char>>>,
    after: Seq<Option<(Seq<char>, Seq<Option<Seq<char>>>)>>,
    depth: nat,
    i: int,
)
    requires
        0 <= i < ancestors.len() - depth - 1,
        ancestors[i] == Some("script"@) || ancestors[i] == Some("style"@) || ancestors[i] == Some(
            "noscript"@,
        ) || ancestors[i] == Some("template"@),
    ensures
        visible_pieces(before + seq![Some((text, ancestors))] + after, depth) == visible_pieces(
            before + after,
            depth,
        ),
    decreases after.len(),
{
    if after.len() == 0 {
        assert(before + seq![Some((text, ancestors))] + after == before.push(Some((text, ancestors))));
        assert(before + after == before);
        assert(before.push(Some((text, ancestors))).drop_last() == before);
        assert(!piece_visible(ancestors, depth));
    } else {
        law_script_style_noscript_template_text_hidden(before, text, ancestors, after.drop_last(), depth, i);
        let l = before + seq![Some((text, ancestors))] + after;
        let m = before + after;
        assert(l.drop_last() == before + seq![Some((text, ancestors))] + after.drop_last());
        assert(m.drop_last() == before + after.drop_last());
        assert(l.last() == after.last());
        assert(m.last() == after.last());
    }
}

/// Words add up: text that ends in whitespace (or is empty) followed by
/// more text has the words of both.
pub proof fn law_word_counts_add(a: Seq<char>, b: Seq<char>)
    requires
        a.len() == 0 || is_ws(a.last()),
    ensures
        word_count(a + b) == word_count(a) + word_count(b),
    decreases b.len(),
{
    if b.len() == 0 {
        assert(a + b == a);
    } else {
        law_word_counts_add(a, b.drop_last());
        let c = a + b;
        assert(c.drop_last() == a + b.drop_last());
        assert(c.last() == b.last());
        if b.len() >= 2 {
            assert(c[c.len() - 2] == b[b.len() - 2]);
        } else if a.len() > 0 {
            assert(c[c.len() - 2] == a.last());
        }
    }
}

/// Text with no whitespace is one word; whitespace alone is none.
pub proof fn law_single_word_and_blank(s: Seq<char>)
    ensures
        s.len() > 0 && (forall|i: int| 0 <= i < s.len() ==> !is_ws(#[trigger] s[i])) ==> word_count(
            s,
        ) == 1,
        (forall|i: int| 0 <= i < s.len() ==> is_ws(#[trigger] s[i])) ==> word_count(s) == 0,
    decreases s.len(),
{
    if s.len() > 0 {
        law_single_word_and_blank(s.drop_last());
        assert(s.drop_last().len() == s.len() - 1);
        if s.len() >= 2 {
            assert(s.drop_last()[s.len() - 2] == s[s.len() - 2]);
            assert(s.drop_last().last() == s[s.len() - 2]);
        }
        assert(s.last() == s[s.len() - 1]);
        assert forall|i: int| 0 <= i < s.drop_last().len() implies s.drop_last()[i] == s[i] by {}
    }
}

// ---------------------------------------------------------------------------
// Executable analysis

pub open spec fn chars_seqs(v: Seq<Vec<char>>) -> Seq<Seq<char>> {
    v.map_values(|c: Vec<char>| c@)
}

fn opt_eq_literal(a: &Option<String>, lit: &str) -> (b: bool)
    ensures
        b == (opt_view(*a) == Some(lit@)),
{
    match a {
        Some(s) => crate::text::chars_eq(
            &crate::text::chars_of(s.as_str()),
            &crate::text::chars_of(lit),
        ),
        None => false,
    }
}

fn is_stripped_exec(a: &Option<String>) -> (b: bool)
    ensures
        b == is_stripped(opt_view(*a)),
{
    opt_eq_literal(a, "script") || opt_eq_literal(a, "style") || opt_eq_literal(a, "noscript")
        || opt_eq_literal(a, "template")
}

fn piece_visible_exec(p: &crate::html::TextPiece, depth: usize) -> (b: bool)
    ensures
        b == piece_visible(
            p.ancestors@.map_values(|a: Option<String>| crate::html::opt_view(a)),
            depth as nat,
        ),
{
    let ghost anc = p.ancestors@.map_values(|a: Option<String>| crate::html::opt_view(a));
    let n = p.ancestors.len();
    let lim: usize = if n > depth {
        n - depth - 1
    } else {
        0
    };
    let mut i: usize = 0;
    while i < lim
        invariant
            i <= lim,
            lim <= n == p.ancestors@.len(),
            lim == 0 || lim == n - depth - 1,
            anc == p.ancestors@.map_values(|a: Option<String>| crate::html::opt_view(a)),
            forall|k: int| 0 <= k < i ==> !is_stripped(#[trigger] anc[k]),
        decreases lim - i,
    {
        assert(anc[i as int] == opt_view(p.ancestors@[i as int]));
        if is_stripped_exec(&p.ancestors[i]) {
            return false;
        }
        i = i + 1;
    }
    true
}

/// The visible text nodes of an element.
fn visible_pieces_exec(f: &ElementFacts) -> (r: Vec<Vec<char>>)
    ensures
        chars_seqs(r@) == visible_pieces(facts_view(*f).1, f.depth as nat),
{
    let ghost nodes = facts_view(*f).1;
    let mut r: Vec<Vec<char>> = Vec::new();
    let mut i: usize = 0;
    while i < f.nodes.len()
        invariant
            i <= f.nodes@.len(),
            nodes == facts_view(*f).1,
            chars_seqs(r@) == visible_pieces(nodes.take(i as int), f.depth as nat),
        decreases f.nodes.len() - i,
    {
        assert(nodes.take(i + 1).drop_last() == nodes.take(i as int));
        assert(nodes.take(i + 1).last() == crate::html::piece_view(f.nodes@[i as int]));
        match &f.nodes[i] {
            Some(p) => {
                if piece_visible_exec(p, f.depth) {
                    let ghost prev = chars_seqs(r@);
                    r.push(crate::text::chars_of(p.text.as_str()));
                    assert(chars_seqs(r@) =~= prev.push(p.text@));
                }
            },
            None => {},
        }
        i = i + 1;
    }
    assert(nodes.take(nodes.len() as int) == nodes);
    r
}


/// The pieces joined with `sep` between them.
fn join_exec(ps: &Vec<Vec<char>>, sep: &[char]) -> (r: Vec<char>)
    ensures
        r@ == join(chars_seqs(ps@), sep@),
{
    let mut r: Vec<char> = Vec::new();
    let mut i: usize = 0;
    while i < ps.len()
        invariant
            i <= ps@.len(),
            r@ == join(chars_seqs(ps@).take(i as int), sep@),
        decreases ps.len() - i,
    {
        let ghost prev = chars_seqs(ps@).take(i as int);
        let ghost next = chars_seqs(ps@).take(i + 1);
        assert(next.drop_last() == prev);
        assert(next.last() == ps@[i as int]@);
        if i > 0 {
            let mut k: usize = 0;
            let ghost r0 = r@;
            while k < sep.len()
                invariant
                    k <= sep@.len(),
                    r@ == r0 + sep@.take(k as int),
                decreases sep.len() - k,
            {
                r.push(sep[k]);
                assert(sep@.take(k + 1) == sep@.take(k as int).push(sep@[k as int]));
                k = k + 1;
            }
            assert(sep@.take(sep@.len() as int) == sep@);
        }
        let piece = &ps[i];
        let ghost r1 = r@;
        let mut k: usize = 0;
        while k < piece.len()
            invariant
                k <= piece@.len(),
                r@ == r1 + piece@.take(k as int),
            decreases piece.len() - k,
        {
            r.push(piece[k]);
            assert(piece@.take(k + 1) == piece@.take(k as int).push(piece@[k as int]));
            k = k + 1;
        }
        assert(piece@.take(piece@.len() as int) == piece@);
        proof {
            if i == 0 {
                assert(prev.len() == 0);
                assert(r@ == piece@);
            } else {
                assert(r@ == join(prev, sep@) + sep@ + piece@);
            }
        }
        i = i + 1;
    }
    assert(chars_seqs(ps@).take(ps@.len() as int) == chars_seqs(ps@));
    r
}

/// An element's visible text.
fn element_text_exec(f: &ElementFacts) -> (r: Vec<char>)
    ensures
        r@ == element_text(facts_view(*f)),
{
    let ps = visible_pieces_exec(f);
    let empty: Vec<char> = Vec::new();
    join_exec(&ps, &empty)
}

fn nonempty_trimmed_exec(s: &[char]) -> (r: Option<String>)
    ensures
        opt_view(r) == nonempty_trimmed(s@),
{
    let t = crate::text::trim_chars(s);
    if t.len() == 0 {
        None
    } else {
        Some(crate::text::string_of(&t))
    }
}

/// The `i`-th requested attribute of an element.
fn attr_at_exec(f: &ElementFacts, i: usize) -> (r: Option<String>)
    ensures
        opt_view(r) == attr_at(facts_view(*f), i as int),
{
    if i < f.attrs.len() {
        match &f.attrs[i] {
            Some(v) => Some(v.clone()),
            None => None,
        }
    } else {
        None
    }
}

fn word_count_exec(s: &[char]) -> (n: usize)
    ensures
        n == word_count(s@),
{
    let mut n: usize = 0;
    let mut i: usize = 0;
    while i < s.len()
        invariant
            i <= s@.len(),
            n == word_count(s@.take(i as int)),
            n <= i,
        decreases s.len() - i,
    {
        let ghost t = s@.take(i + 1);
        assert(t.drop_last() == s@.take(i as int));
        assert(t.last() == s@[i as int]);
        if i > 0 {
            assert(t[t.len() - 2] == s@[i - 1]);
        }
        let starts = !crate::text::is_whitespace(s[i]) && (i == 0 || crate::text::is_whitespace(
            s[i - 1],
        ));
        if starts {
            n = n + 1;
        }
        i = i + 1;
    }
    assert(s@.take(s@.len() as int) == s@);
    n
}

/// `href` resolved against the page URL `base`, without fragment; `None`
/// for empty links, in-page anchors and `mailto:`, `tel:`, `javascript:` and
/// `data:` links, and for links that do not resolve.
pub fn resolve_url(base: &str, href: &str) -> (r: Option<String>)
    ensures
        opt_view(r) == resolved(base@, href@),
{
    let h = crate::text::trim_chars(&crate::text::chars_of(href));
    if h.len() == 0 || h[0] == '#' {
        return None;
    }
    let l = crate::text::lower_chars(&h);
    if crate::text::starts_with_chars(&l, &crate::text::chars_of("mailto:"))
        || crate::text::starts_with_chars(&l, &crate::text::chars_of("tel:"))
        || crate::text::starts_with_chars(&l, &crate::text::chars_of("javascript:"))
        || crate::text::starts_with_chars(&l, &crate::text::chars_of("data:")) {
        return None;
    }
    let hs = crate::text::string_of(&h);
    match crate::weburl::url_join(base, hs.as_str()) {
        Some(j) => crate::weburl::url_without_fragment(j.as_str()),
        None => None,
    }
}

/// `other` is on the same host as `base`.
pub fn is_same_site(base: &str, other: &str) -> (b: bool)
    ensures
        b == (spec_url_host(base@) == spec_url_host(other@)),
{
    let a = crate::weburl::url_host(base);
    let b = crate::weburl::url_host(other);
    match (a, b) {
        (Some(x), Some(y)) => crate::text::chars_eq(
            &crate::text::chars_of(x.as_str()),
            &crate::text::chars_of(y.as_str()),
        ),
        (None, None) => true,
        _ => false,
    }
}


pub open spec fn names_view(v: Seq<String>) -> Seq<Seq<char>> {
    v.map_values(|a: String| a@)
}

fn no_attrs() -> (v: Vec<String>)
    ensures
        names_view(v@) == Seq::<Seq<char>>::empty(),
{
    let v: Vec<String> = Vec::new();
    assert(names_view(v@) =~= Seq::<Seq<char>>::empty());
    v
}

fn one_attr(a: &str) -> (v: Vec<String>)
    ensures
        names_view(v@) == seq![a@],
{
    let mut v: Vec<String> = Vec::new();
    v.push(a.to_string());
    assert(names_view(v@) =~= seq![a@]);
    v
}

fn two_attrs(a: &str, b: &str) -> (v: Vec<String>)
    ensures
        names_view(v@) == seq![a@, b@],
{
    let mut v: Vec<String> = Vec::new();
    v.push(a.to_string());
    v.push(b.to_string());
    assert(names_view(v@) =~= seq![a@, b@]);
    v
}

pub open spec fn facts_seq(v: Seq<ElementFacts>) -> Seq<FactsView> {
    v.map_values(|f: ElementFacts| facts_view(f))
}

/// The title among the `title` elements `ts`.
pub fn title_from(ts: &Vec<ElementFacts>) -> (r: Option<String>)
    ensures
        opt_view(r) == title_of_elements(facts_seq(ts@)),
{
    if ts.len() == 0 {
        None
    } else {
        assert(facts_seq(ts@)[0] == facts_view(ts@[0]));
        nonempty_trimmed_exec(&element_text_exec(&ts[0]))
    }
}

/// Meta description and meta robots values among the `meta` elements `ms`
/// (attributes `name` and `content`).
pub fn meta_from(ms: &Vec<ElementFacts>) -> (r: (Option<String>, Option<String>))
    ensures
        (opt_view(r.0), opt_view(r.1)) == meta_values(facts_seq(ms@)),
{
    let ghost all = facts_seq(ms@);
    let mut desc: Option<String> = None;
    let mut robots: Option<String> = None;
    let mut i: usize = 0;
    while i < ms.len()
        invariant
            i <= ms@.len(),
            all == facts_seq(ms@),
            (opt_view(desc), opt_view(robots)) == meta_values(all.take(i as int)),
        decreases ms.len() - i,
    {
        assert(all.take(i + 1).drop_last() == all.take(i as int));
        assert(all.take(i + 1).last() == facts_view(ms@[i as int]));
        let m = &ms[i];
        let name = match attr_at_exec(m, 0) {
            Some(n) => crate::text::lower_chars(&crate::text::chars_of(n.as_str())),
            None => Vec::new(),
        };
        proof {
            if attr_at(facts_view(*m), 0).is_none() {
                assert(name@ =~= ascii_lower(Seq::empty()));
            }
        }
        let content = match attr_at_exec(m, 1) {
            Some(c) => nonempty_trimmed_exec(&crate::text::chars_of(c.as_str())),
            None => None,
        };
        if crate::text::chars_eq(&name, &crate::text::chars_of("description")) {
            desc = content;
        } else if crate::text::chars_eq(&name, &crate::text::chars_of("robots")) {
            robots = content;
        }
        i = i + 1;
    }
    assert(all.take(all.len() as int) == all);
    (desc, robots)
}

/// The non-empty headings among the `h1` elements `hs`.
pub fn headings_from(hs: &Vec<ElementFacts>) -> (r: Vec<String>)
    ensures
        strings_view(r@) == headings(facts_seq(hs@)),
{
    let ghost all = facts_seq(hs@);
    let mut r: Vec<String> = Vec::new();
    let mut i: usize = 0;
    while i < hs.len()
        invariant
            i <= hs@.len(),
            all == facts_seq(hs@),
            strings_view(r@) == headings(all.take(i as int)),
        decreases hs.len() - i,
    {
        assert(all.take(i + 1).drop_last() == all.take(i as int));
        assert(all.take(i + 1).last() == facts_view(hs@[i as int]));
        match nonempty_trimmed_exec(&element_text_exec(&hs[i])) {
            Some(t) => {
                let ghost prev = strings_view(r@);
                r.push(t);
                assert(strings_view(r@) =~= prev.push(t@));
            },
            None => {},
        }
        i = i + 1;
    }
    assert(all.take(all.len() as int) == all);
    r
}

/// The canonical URL among the canonical links `cs` (attribute `href`).
pub fn canonical_from(cs: &Vec<ElementFacts>, base: &str) -> (r: Option<String>)
    ensures
        opt_view(r) == canonical_of_elements(facts_seq(cs@), base@),
{
    if cs.len() == 0 {
        return None;
    }
    assert(facts_seq(cs@)[0] == facts_view(cs@[0]));
    match attr_at_exec(&cs[0], 0) {
        Some(h) => resolve_url(base, h.as_str()),
        None => None,
    }
}

/// The visible word count of the first of the `body` elements `bs`.
pub fn word_count_from(bs: &Vec<ElementFacts>) -> (n: usize)
    ensures
        n == word_count_of_elements(facts_seq(bs@)),
{
    if bs.len() == 0 {
        return 0;
    }
    assert(facts_seq(bs@)[0] == facts_view(bs@[0]));
    let ps = visible_pieces_exec(&bs[0]);
    let sp = crate::text::chars_of(" ");
    let joined = join_exec(&ps, &sp);
    word_count_exec(&joined)
}

/// Internal and external link targets of the anchors `xs` (attribute `href`).
pub fn links_from(xs: &Vec<ElementFacts>, base: &str) -> (r: (Vec<String>, Vec<String>))
    ensures
        (strings_view(r.0@), strings_view(r.1@)) == link_targets(facts_seq(xs@), base@),
{
    let ghost all = facts_seq(xs@);
    let mut internal: Vec<String> = Vec::new();
    let mut external: Vec<String> = Vec::new();
    let mut i: usize = 0;
    while i < xs.len()
        invariant
            i <= xs@.len(),
            all == facts_seq(xs@),
            (strings_view(internal@), strings_view(external@)) == link_targets(
                all.take(i as int),
                base@,
            ),
        decreases xs.len() - i,
    {
        assert(all.take(i + 1).drop_last() == all.take(i as int));
        assert(all.take(i + 1).last() == facts_view(xs@[i as int]));
        match attr_at_exec(&xs[i], 0) {
            Some(h) => match resolve_url(base, h.as_str()) {
                Some(u) => {
                    if is_same_site(base, u.as_str()) {
                        let ghost prev = strings_view(internal@);
                        internal.push(u);
                        assert(strings_view(internal@) =~= prev.push(u@));
                    } else {
                        let ghost prev = strings_view(external@);
                        external.push(u);
                        assert(strings_view(external@) =~= prev.push(u@));
                    }
                },
                None => {},
            },
            None => {},
        }
        i = i + 1;
    }
    assert(all.take(all.len() as int) == all);
    (internal, external)
}

/// Sources and alternative texts of the images `xs` (attributes `src`, `alt`).
pub fn images_from(xs: &Vec<ElementFacts>, base: &str) -> (r: Vec<(String, Option<String>)>)
    ensures
        images_view(r@) == image_targets(facts_seq(xs@), base@),
{
    let ghost all = facts_seq(xs@);
    let mut r: Vec<(String, Option<String>)> = Vec::new();
    let mut i: usize = 0;
    while i < xs.len()
        invariant
            i <= xs@.len(),
            all == facts_seq(xs@),
            images_view(r@) == image_targets(all.take(i as int), base@),
        decreases xs.len() - i,
    {
        assert(all.take(i + 1).drop_last() == all.take(i as int));
        assert(all.take(i + 1).last() == facts_view(xs@[i as int]));
        match attr_at_exec(&xs[i], 0) {
            Some(src) => match resolve_url(base, src.as_str()) {
                Some(u) => {
                    let alt = match attr_at_exec(&xs[i], 1) {
                        Some(a) => if a.as_str().is_empty() {
                            None
                        } else {
                            Some(a)
                        },
                        None => None,
                    };
                    let ghost prev = images_view(r@);
                    let ghost item = (u@, opt_view(alt));
                    r.push((u, alt));
                    assert(images_view(r@) =~= prev.push(item));
                },
                None => {},
            },
            None => {},
        }
        i = i + 1;
    }
    assert(all.take(all.len() as int) == all);
    r
}

/// Analyses an HTML page fetched from the URL `base`.
pub fn parse_page(body: &str, base: &str) -> (p: ParsedPage)
    ensures
        opt_view(p.title) == page_title(body@),
        opt_view(p.meta_description) == page_meta(body@).0,
        opt_view(p.meta_robots) == page_meta(body@).1,
        p.h1_count == page_headings(body@).len(),
        opt_view(p.h1) == (if page_headings(body@).len() == 0 {
            None
        } else {
            Some(page_headings(body@)[0])
        }),
        p.word_count == page_word_count(body@),
        opt_view(p.canonical) == page_canonical(body@, base@),
        strings_view(p.internal_links@) == page_links(body@, base@).0,
        strings_view(p.external_links@) == page_links(body@, base@).1,
        images_view(p.images@) == page_images(body@, base@),
{
    let doc = crate::html::parse_document(body);
    let title = title_from(&crate::html::select(&doc, "title", &no_attrs()));
    let (meta_description, meta_robots) = meta_from(
        &crate::html::select(&doc, "meta", &two_attrs("name", "content")),
    );
    let hs = headings_from(&crate::html::select(&doc, "h1", &no_attrs()));
    let h1_count = hs.len();
    let h1 = if hs.len() == 0 {
        None
    } else {
        Some(hs[0].clone())
    };
    let canonical = canonical_from(
        &crate::html::select(&doc, "link[rel=\"canonical\"]", &one_attr("href")),
        base,
    );
    let word_count = word_count_from(&crate::html::select(&doc, "body", &no_attrs()));
    let (internal_links, external_links) = links_from(
        &crate::html::select(&doc, "a[href]", &one_attr("href")),
        base,
    );
    let images = images_from(&crate::html::select(&doc, "img[src]", &two_attrs("src", "alt")), base);
    ParsedPage {
        title,
        meta_description,
        meta_robots,
        h1,
        h1_count,
        word_count,
        canonical,
        internal_links,
        external_links,
        images,
    }
}

} // verus!
