//! Checks of the links and images found on crawled pages: the registry of
//! what was queued and found, and the status a check arrives at.

use vstd::prelude::*;
use crate::page::status_line;
use crate::parse::{opt_view, strings_view, images_view};
use crate::types::{ResourceResult, ResourceType};
use crate::weburl::spec_url_host;

verus! {

broadcast use vstd::string::group_string_axioms;

/// A checked resource as plain values.
pub struct ResourceEntry {
    pub url: Seq<char>,
    pub resource_type: ResourceType,
    pub source_page: Seq<char>,
    pub alt_text: Option<Seq<char>>,
    pub status: Option<u16>,
    pub status_text: Seq<char>,
    pub is_internal: bool,
    pub error: Option<Seq<char>>,
}

pub open spec fn resource_view(r: ResourceResult) -> ResourceEntry {
    ResourceEntry {
        url: r.url@,
        resource_type: r.resource_type,
        source_page: r.source_page@,
        alt_text: opt_view(r.alt_text),
        status: r.status,
        status_text: r.status_text@,
        is_internal: r.is_internal,
        error: opt_view(r.error),
    }
}

pub open spec fn resources_view(v: Seq<ResourceResult>) -> Seq<ResourceEntry> {
    v.map_values(|r: ResourceResult| resource_view(r))
}

/// Every resource queued for checking, at most one per URL.
pub struct ResourceRegistry {
    entries: Vec<ResourceResult>,
}

impl View for ResourceRegistry {
    type V = Seq<ResourceEntry>;

    closed spec fn view(&self) -> Seq<ResourceEntry> {
        resources_view(self.entries@)
    }
}

/// Index of the entry for `url`, or `es.len()`.
pub open spec fn entry_index(es: Seq<ResourceEntry>, url: Seq<char>) -> int
    decreases es.len(),
{
    if es.len() == 0 {
        0
    } else if es[0].url == url {
        0
    } else {
        1 + entry_index(es.drop_first(), url)
    }
}

pub open spec fn has_entry(es: Seq<ResourceEntry>, url: Seq<char>) -> bool {
    exists|i: int| 0 <= i < es.len() && (#[trigger] es[i]).url == url
}

/// No two entries share a URL.
pub open spec fn registry_wf(es: Seq<ResourceEntry>) -> bool {
    forall|i: int, j: int|
        0 <= i < es.len() && 0 <= j < es.len() && i != j ==> (#[trigger] es[i]).url != (
        #[trigger] es[j]).url
}

/// The entry `e` stored: it replaces the entry for its URL, or is appended.
pub open spec fn store(es: Seq<ResourceEntry>, e: ResourceEntry) -> Seq<ResourceEntry> {
    if has_entry(es, e.url) {
        es.update(entry_index(es, e.url), e)
    } else {
        es.push(e)
    }
}

/// A placeholder for a resource about to be checked.
pub open spec fn pending(
    url: Seq<char>,
    kind: ResourceType,
    source_page: Seq<char>,
    alt: Option<Seq<char>>,
    is_internal: bool,
) -> ResourceEntry {
    ResourceEntry {
        url,
        resource_type: kind,
        source_page,
        alt_text: alt,
        status: None,
        status_text: "Checking"@,
        is_internal,
        error: None,
    }
}

/// Queue `e` unless its URL is already known.
pub open spec fn enqueue(es: Seq<ResourceEntry>, e: ResourceEntry) -> Seq<ResourceEntry> {
    if has_entry(es, e.url) {
        es
    } else {
        es.push(e)
    }
}

/// Entries whose check is over (a status or an error was recorded).
pub open spec fn checked_count(es: Seq<ResourceEntry>) -> nat
    decreases es.len(),
{
    if es.len() == 0 {
        0
    } else {
        checked_count(es.drop_last()) + if es.last().status.is_some()
            || es.last().error.is_some() {
            1nat
        } else {
            0nat
        }
    }
}

proof fn lemma_entry_index(es: Seq<ResourceEntry>, url: Seq<char>)
    ensures
        0 <= entry_index(es, url) <= es.len(),
        entry_index(es, url) < es.len() <==> has_entry(es, url),
        entry_index(es, url) < es.len() ==> es[entry_index(es, url)].url == url,
    decreases es.len(),
{
    if es.len() > 0 {
        lemma_entry_index(es.drop_first(), url);
        if es[0].url != url {
            if has_entry(es, url) {
                let i = choose|i: int| 0 <= i < es.len() && (#[trigger] es[i]).url == url;
                assert(es.drop_first()[i - 1] == es[i]);
            }
            if has_entry(es.drop_first(), url) {
                let i = choose|i: int|
                    0 <= i < es.drop_first().len() && (#[trigger] es.drop_first()[i]).url == url;
                assert(es[i + 1] == es.drop_first()[i]);
            }
        }
    }
}

proof fn lemma_store_wf(es: Seq<ResourceEntry>, e: ResourceEntry)
    requires
        registry_wf(es),
    ensures
        registry_wf(store(es, e)),
        registry_wf(enqueue(es, e)),
{
    lemma_entry_index(es, e.url);
    let k = entry_index(es, e.url);
    if has_entry(es, e.url) {
        let t = store(es, e);
        assert forall|i: int, j: int|
            0 <= i < t.len() && 0 <= j < t.len() && i != j implies (#[trigger] t[i]).url != (
            #[trigger] t[j]).url by {
            if i == k {
                assert(es[i].url == e.url);
                assert(es[j].url != es[i].url);
            } else if j == k {
                assert(es[i].url != es[j].url);
            }
        }
    } else {
        let t = es.push(e);
        assert forall|i: int, j: int|
            0 <= i < t.len() && 0 <= j < t.len() && i != j implies (#[trigger] t[i]).url != (
            #[trigger] t[j]).url by {
            if i == es.len() {
                assert(t[j] == es[j]);
            } else if j == es.len() {
                assert(t[i] == es[i]);
            }
        }
    }
}

/// A copy of a resource result.
pub fn copy_resource(r: &ResourceResult) -> (c: ResourceResult)
    ensures
        resource_view(c) == resource_view(*r),
{
    ResourceResult {
        url: r.url.clone(),
        resource_type: r.resource_type,
        source_page: r.source_page.clone(),
        alt_text: match &r.alt_text {
            Some(a) => Some(a.clone()),
            None => None,
        },
        status: r.status,
        status_text: r.status_text.clone(),
        is_internal: r.is_internal,
        error: match &r.error {
            Some(e) => Some(e.clone()),
            None => None,
        },
    }
}

/// The external links of a page queued as link checks.
pub open spec fn enqueue_links(
    es: Seq<ResourceEntry>,
    page: Seq<char>,
    links: Seq<Seq<char>>,
) -> Seq<ResourceEntry>
    decreases links.len(),
{
    if links.len() == 0 {
        es
    } else {
        enqueue(
            enqueue_links(es, page, links.drop_last()),
            pending(links.last(), ResourceType::Link, page, None, false),
        )
    }
}

/// The images of a page queued as image checks; an image is internal when
/// it is on the start URL's host.
pub open spec fn enqueue_images(
    es: Seq<ResourceEntry>,
    start: Seq<char>,
    page: Seq<char>,
    imgs: Seq<(Seq<char>, Option<Seq<char>>)>,
) -> Seq<ResourceEntry>
    decreases imgs.len(),
{
    if imgs.len() == 0 {
        es
    } else {
        let (u, alt) = imgs.last();
        enqueue(
            enqueue_images(es, start, page, imgs.drop_last()),
            pending(u, ResourceType::Image, page, alt, spec_url_host(u) == spec_url_host(start)),
        )
    }
}

/// The entries of `after` beyond the first `n`.
pub open spec fn new_entries(after: Seq<ResourceEntry>, n: nat) -> Seq<ResourceEntry> {
    after.skip(n as int)
}

impl ResourceRegistry {
    pub closed spec fn wf(&self) -> bool {
        registry_wf(self@)
    }

    /// An empty registry.
    pub fn new() -> (r: Self)
        ensures
            r@ == Seq::<ResourceEntry>::empty(),
            r.wf(),
    {
        let r = ResourceRegistry { entries: Vec::new() };
        assert(r@ =~= Seq::<ResourceEntry>::empty());
        r
    }

    /// Position of the entry for `url`, or the number of entries.
    fn find(&self, url: &str) -> (i: usize)
        ensures
            i == entry_index(self@, url@),
    {
        let u = crate::text::chars_of(url);
        let mut i: usize = 0;
        assert(self@.skip(0) == self@);
        while i < self.entries.len()
            invariant
                i <= self.entries@.len(),
                u@ == url@,
                entry_index(self@, url@) == i + entry_index(self@.skip(i as int), url@),
            decreases self.entries.len() - i,
        {
            assert(self@.skip(i as int)[0] == resource_view(self.entries@[i as int]));
            if crate::text::chars_eq(&crate::text::chars_of(self.entries[i].url.as_str()), &u) {
                return i;
            }
            assert(self@.skip(i as int).drop_first() == self@.skip(i + 1));
            i = i + 1;
        }
        i
    }

    /// Whether `url` is known.
    pub fn contains(&self, url: &str) -> (b: bool)
        ensures
            b == has_entry(self@, url@),
    {
        proof {
            lemma_entry_index(self@, url@);
        }
        self.find(url) < self.entries.len()
    }

    /// Stores a result, replacing the one for the same URL.
    pub fn insert(&mut self, entry: ResourceResult)
        requires
            old(self).wf(),
        ensures
            final(self)@ == store(old(self)@, resource_view(entry)),
            final(self).wf(),
    {
        proof {
            lemma_entry_index(self@, entry.url@);
            lemma_store_wf(self@, resource_view(entry));
        }
        let i = self.find(entry.url.as_str());
        let ghost es = self@;
        if i < self.entries.len() {
            self.entries.set(i, entry);
            assert(self@ =~= es.update(i as int, resource_view(entry)));
        } else {
            self.entries.push(entry);
            assert(self@ =~= es.push(resource_view(entry)));
        }
    }

    /// Queues a check of `url` unless it is already known; the placeholder
    /// that was stored, if any.
    pub fn begin_check(
        &mut self,
        url: &str,
        kind: ResourceType,
        source_page: &str,
        alt_text: Option<String>,
        is_internal: bool,
    ) -> (r: Option<ResourceResult>)
        requires
            old(self).wf(),
        ensures
            final(self).wf(),
            ({
                let e = pending(url@, kind, source_page@, opt_view(alt_text), is_internal);
                &&& final(self)@ == enqueue(old(self)@, e)
                &&& (r matches Some(p) ==> resource_view(p) == e)
                &&& r is Some <==> !has_entry(old(self)@, url@)
            }),
    {
        if self.contains(url) {
            return None;
        }
        let p = ResourceResult {
            url: url.to_string(),
            resource_type: kind,
            source_page: source_page.to_string(),
            alt_text,
            status: None,
            status_text: "Checking".to_string(),
            is_internal,
            error: None,
        };
        let c = copy_resource(&p);
        proof {
            lemma_store_wf(self@, resource_view(p));
        }
        let ghost es = self@;
        self.entries.push(p);
        assert(self@ =~= es.push(resource_view(c)));
        Some(c)
    }

    /// Queues the checks that a crawled page calls for: its external links
    /// when `check_links`, its images when `check_images`. Returns the
    /// placeholders stored, in order: one check is due for each.
    pub fn queue_page_resources(
        &mut self,
        check_links: bool,
        check_images: bool,
        start_url: &str,
        page_url: &str,
        external: &Vec<String>,
        images: &Vec<(String, Option<String>)>,
    ) -> (jobs: Vec<ResourceResult>)
        requires
            old(self).wf(),
        ensures
            final(self).wf(),
            ({
                let es1 = if check_links {
                    enqueue_links(old(self)@, page_url@, strings_view(external@))
                } else {
                    old(self)@
                };
                let es2 = if check_images {
                    enqueue_images(es1, start_url@, page_url@, images_view(images@))
                } else {
                    es1
                };
                &&& final(self)@ == es2
                &&& resources_view(jobs@) == new_entries(es2, old(self)@.len())
            }),
    {
        let ghost es0 = self@;
        let mut jobs: Vec<ResourceResult> = Vec::new();
        if check_links {
            let mut i: usize = 0;
            while i < external.len()
                invariant
                    i <= external@.len(),
                    self.wf(),
                    self@ == enqueue_links(es0, page_url@, strings_view(external@.take(i as int))),
                    es0.is_prefix_of(self@),
                    resources_view(jobs@) == new_entries(self@, es0.len()),
                decreases external.len() - i,
            {
                let ghost t = strings_view(external@.take(i + 1));
                assert(t.drop_last() == strings_view(external@.take(i as int)));
                assert(t.last() == external@[i as int]@);
                let ghost before = self@;
                match self.begin_check(external[i].as_str(), ResourceType::Link, page_url, None, false) {
                    Some(p) => {
                        let ghost prev = resources_view(jobs@);
                        jobs.push(p);
                        assert(resources_view(jobs@) =~= prev.push(resource_view(p)));
                        assert(new_entries(self@, es0.len()) =~= new_entries(before, es0.len()).push(resource_view(p)));
                    },
                    None => {},
                }
                i = i + 1;
            }
            assert(external@.take(external@.len() as int) == external@);
        }
        let ghost es1 = self@;
        if check_images {
            let start_host = crate::weburl::url_host(start_url);
            let mut i: usize = 0;
            while i < images.len()
                invariant
                    i <= images@.len(),
                    self.wf(),
                    self@ == enqueue_images(es1, start_url@, page_url@, images_view(images@.take(i as int))),
                    es0.is_prefix_of(es1),
                    es1.is_prefix_of(self@),
                    resources_view(jobs@) == new_entries(self@, es0.len()),
                    opt_view(start_host) == spec_url_host(start_url@),
                decreases images.len() - i,
            {
                let ghost t = images_view(images@.take(i + 1));
                assert(t.drop_last() == images_view(images@.take(i as int)));
                assert(t.last() == (images@[i as int].0@, opt_view(images@[i as int].1)));
                let (u, alt) = &images[i];
                let h = crate::weburl::url_host(u.as_str());
                let internal = match (&h, &start_host) {
                    (Some(a), Some(b)) => crate::text::chars_eq(
                        &crate::text::chars_of(a.as_str()),
                        &crate::text::chars_of(b.as_str()),
                    ),
                    (None, None) => true,
                    _ => false,
                };
                let alt_copy = match alt {
                    Some(a) => Some(a.clone()),
                    None => None,
                };
                let ghost before = self@;
                match self.begin_check(u.as_str(), ResourceType::Image, page_url, alt_copy, internal) {
                    Some(p) => {
                        let ghost prev = resources_view(jobs@);
                        jobs.push(p);
                        assert(resources_view(jobs@) =~= prev.push(resource_view(p)));
                        assert(new_entries(self@, es0.len()) =~= new_entries(before, es0.len()).push(resource_view(p)));
                    },
                    None => {},
                }
                i = i + 1;
            }
            assert(images@.take(images@.len() as int) == images@);
        }
        jobs
    }

    /// Number of resources whose check is over.
    pub fn checked(&self) -> (n: usize)
        ensures
            n == checked_count(self@),
    {
        let mut n: usize = 0;
        let mut i: usize = 0;
        while i < self.entries.len()
            invariant
                i <= self.entries@.len(),
                n == checked_count(self@.take(i as int)),
                n <= i,
            decreases self.entries.len() - i,
        {
            assert(self@.take(i + 1).drop_last() == self@.take(i as int));
            assert(self@.take(i + 1).last() == resource_view(self.entries@[i as int]));
            if self.entries[i].status.is_some() || self.entries[i].error.is_some() {
                n = n + 1;
            }
            i = i + 1;
        }
        assert(self@.take(self@.len() as int) == self@);
        n
    }

    /// Number of resources known.
    pub fn total(&self) -> (n: usize)
        ensures
            n == self@.len(),
    {
        self.entries.len()
    }

    /// All results, in the order their URLs were first queued.
    pub fn snapshot(&self) -> (v: Vec<ResourceResult>)
        ensures
            resources_view(v@) == self@,
    {
        let mut v: Vec<ResourceResult> = Vec::new();
        let mut i: usize = 0;
        while i < self.entries.len()
            invariant
                i <= self.entries@.len(),
                resources_view(v@) == self@.take(i as int),
            decreases self.entries.len() - i,
        {
            let c = copy_resource(&self.entries[i]);
            let ghost prev = resources_view(v@);
            v.push(c);
            assert(resources_view(v@) =~= prev.push(resource_view(c)));
            assert(self@.take(i + 1) =~= self@.take(i as int).push(self@[i as int]));
            i = i + 1;
        }
        assert(self@.take(self@.len() as int) == self@);
        v
    }
}


// ---------------------------------------------------------------------------
// Outcome of a check

/// A check starts with a HEAD request; servers that refuse HEAD (405, 501),
/// and HEAD requests that fail, are retried with GET.
pub open spec fn head_needs_get(head: Result<u16, Seq<char>>) -> bool {
    match head {
        Ok(s) => s == 405 || s == 501,
        Err(_) => true,
    }
}

/// Status, status text and error of a check. When both requests fail the
/// HEAD request's error is reported.
pub open spec fn check_outcome(head: Result<u16, Seq<char>>, get: Result<u16, Seq<char>>) -> (
    Option<u16>,
    Seq<char>,
    Option<Seq<char>>,
) {
    match head {
        Ok(s) => if s == 405 || s == 501 {
            match get {
                Ok(c) => (Some(c), status_line(c, false), None),
                Err(e) => (None, "Error"@, Some(e)),
            }
        } else {
            (Some(s), status_line(s, false), None)
        },
        Err(e) => match get {
            Ok(c) => (Some(c), status_line(c, false), None),
            Err(_) => (None, "Error"@, Some(e)),
        },
    }
}

pub open spec fn result_view(r: Result<u16, String>) -> Result<u16, Seq<char>> {
    match r {
        Ok(c) => Ok(c),
        Err(e) => Err(e@),
    }
}

/// Whether a GET request must follow the HEAD request's outcome.
pub fn needs_get(head: &Result<u16, String>) -> (b: bool)
    ensures
        b == head_needs_get(result_view(*head)),
{
    match head {
        Ok(s) => *s == 405 || *s == 501,
        Err(_) => true,
    }
}

/// Status, status text and error of a check; `get` is the GET request's
/// outcome when one was due.
pub fn check_status(head: &Result<u16, String>, get: &Option<Result<u16, String>>) -> (r: (
    Option<u16>,
    String,
    Option<String>,
))
    requires
        get.is_some() == head_needs_get(result_view(*head)),
    ensures
        (*get) matches Some(g) ==> (r.0, r.1@, opt_view(r.2)) == check_outcome(
            result_view(*head),
            result_view(g),
        ),
        get.is_none() ==> ((*head) matches Ok(s) && (r.0, r.1@, opt_view(r.2)) == (
            Some(s),
            status_line(s, false),
            None::<Seq<char>>,
        )),
{
    match (head, get) {
        (Ok(s), None) => (Some(*s), crate::page::status_text(*s, false), None),
        (Ok(_), Some(Ok(c))) => (Some(*c), crate::page::status_text(*c, false), None),
        (Ok(_), Some(Err(e))) => (None, "Error".to_string(), Some(e.clone())),
        (Err(_), Some(Ok(c))) => (Some(*c), crate::page::status_text(*c, false), None),
        (Err(e), _) => (None, "Error".to_string(), Some(e.clone())),
    }
}

/// The final result of a check of the resource `pending`.
pub fn finished(pending: &ResourceResult, status: Option<u16>, status_text: String, error: Option<
    String,
>) -> (r: ResourceResult)
    ensures
        resource_view(r) == (ResourceEntry {
            status,
            status_text: status_text@,
            error: opt_view(error),
            ..resource_view(*pending)
        }),
{
    let c = copy_resource(pending);
    ResourceResult { status, status_text, error, ..c }
}


/// Never more resources are counted as checked than are known.
pub proof fn law_checked_at_most_total(es: Seq<ResourceEntry>)
    ensures
        checked_count(es) <= es.len(),
    decreases es.len(),
{
    if es.len() > 0 {
        law_checked_at_most_total(es.drop_last());
    }
}

/// A URL is queued for checking at most once: queueing a known URL again
/// changes nothing, and the registry keeps one entry per URL.
pub proof fn law_resource_queued_once(es: Seq<ResourceEntry>, e: ResourceEntry)
    requires
        registry_wf(es),
    ensures
        has_entry(es, e.url) ==> enqueue(es, e) == es,
        registry_wf(enqueue(es, e)),
        registry_wf(store(es, e)),
{
    lemma_store_wf(es, e);
}

} // verus!
