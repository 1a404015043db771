//! Hosting facts: the addresses a site resolves to, and the organisation that
//! owns an address.

use vstd::prelude::*;
use crate::parse::{opt_view, strings_view};
use crate::weburl::{spec_url_host, spec_url_port};

verus! {

broadcast use vstd::string::group_string_axioms;

/// Organisation and country that own an IP address.
pub struct HostingOrgInfo {
    pub org: Option<String>,
    pub country: Option<String>,
}

/// Host and port to resolve for a URL: its host, and its port or its
/// scheme's default, or 443 when there is neither.
pub open spec fn lookup_target_of(url: Seq<char>) -> Option<(Seq<char>, u16)> {
    match spec_url_host(url) {
        Some(h) => Some(
            (
                h,
                match spec_url_port(url) {
                    Some(p) => p,
                    None => 443,
                },
            ),
        ),
        None => None,
    }
}

/// Host and port to resolve for a URL; `None` when it has no host.
pub fn lookup_target(url: &str) -> (r: Option<(String, u16)>)
    ensures
        match r {
            Some((h, p)) => lookup_target_of(url@) == Some((h@, p)),
            None => lookup_target_of(url@).is_none(),
        },
{
    match crate::weburl::url_host(url) {
        Some(h) => {
            let p = match crate::weburl::url_port(url) {
                Some(p) => p,
                None => 443,
            };
            Some((h, p))
        },
        None => None,
    }
}

/// The organisation of an IP address from a lookup service's answer: only a
/// `success` answer counts; the organisation is the first of `org`, `isp`
/// and `as` that is given.
pub fn hosting_info(
    status: &str,
    org: Option<String>,
    isp: Option<String>,
    asn: Option<String>,
    country: Option<String>,
) -> (r: Option<HostingOrgInfo>)
    ensures
        r is Some <==> status@ == "success"@,
        r matches Some(i) ==> {
            &&& opt_view(i.org) == (if org is Some {
                opt_view(org)
            } else if isp is Some {
                opt_view(isp)
            } else {
                opt_view(asn)
            })
            &&& i.country == country
        },
{
    if !crate::text::chars_eq(&crate::text::chars_of(status), &crate::text::chars_of("success")) {
        return None;
    }
    let o = match org {
        Some(o) => Some(o),
        None => match isp {
            Some(i) => Some(i),
            None => asn,
        },
    };
    Some(HostingOrgInfo { org: o, country })
}

/// The lookup service's address for `ip`, asking for the status, message,
/// country, ISP, organisation and AS fields.
pub fn ip_api_url(ip: &str) -> (u: String)
    ensures
        u@ == "http://ip-api.com/json/"@ + ip@ + "?fields=status,message,country,isp,org,as"@,
{
    let mut u = "http://ip-api.com/json/".to_string();
    u.append(ip);
    u.append("?fields=status,message,country,isp,org,as");
    u
}

// ---------------------------------------------------------------------------
// Address lists

/// `a` sorts before `b` (`String`'s order: by code points, a proper prefix
/// first).
pub open spec fn str_lt(a: Seq<char>, b: Seq<char>) -> bool
    decreases a.len(),
{
    if a.len() == 0 {
        b.len() > 0
    } else if b.len() == 0 {
        false
    } else if a[0] != b[0] {
        a[0] < b[0]
    } else {
        str_lt(a.drop_first(), b.drop_first())
    }
}

/// Strictly increasing, hence without duplicates.
pub open spec fn strictly_sorted(s: Seq<Seq<char>>) -> bool {
    forall|i: int, j: int| 0 <= i < j < s.len() ==> str_lt(#[trigger] s[i], #[trigger] s[j])
}

proof fn lemma_str_lt_trans(a: Seq<char>, b: Seq<char>, c: Seq<char>)
    requires
        str_lt(a, b),
        str_lt(b, c),
    ensures
        str_lt(a, c),
    decreases a.len(),
{
    if a.len() > 0 && b.len() > 0 && c.len() > 0 && a[0] == b[0] && b[0] == c[0] {
        lemma_str_lt_trans(a.drop_first(), b.drop_first(), c.drop_first());
    }
}

proof fn lemma_str_lt_irrefl(a: Seq<char>)
    ensures
        !str_lt(a, a),
    decreases a.len(),
{
    if a.len() > 0 {
        lemma_str_lt_irrefl(a.drop_first());
    }
}

proof fn lemma_str_lt_total(a: Seq<char>, b: Seq<char>)
    ensures
        a == b || str_lt(a, b) || str_lt(b, a),
        !(str_lt(a, b) && str_lt(b, a)),
        !str_lt(a, a),
    decreases a.len(),
{
    lemma_str_lt_irrefl(a);
    if a.len() > 0 && b.len() > 0 {
        if a[0] == b[0] {
            lemma_str_lt_total(a.drop_first(), b.drop_first());
            if a.drop_first() == b.drop_first() {
                assert(a =~= seq![a[0]] + a.drop_first());
                assert(b =~= seq![b[0]] + b.drop_first());
            }
        } else {
        }
    } else if a.len() == 0 && b.len() == 0 {
        assert(a =~= b);
    }
}

fn str_lt_exec(a: &[char], b: &[char]) -> (r: bool)
    ensures
        r == str_lt(a@, b@),
{
    let mut i: usize = 0;
    assert(a@.skip(0) == a@);
    assert(b@.skip(0) == b@);
    while i < a.len() && i < b.len() && a[i] == b[i]
        invariant
            i <= a@.len(),
            i <= b@.len(),
            str_lt(a@, b@) == str_lt(a@.skip(i as int), b@.skip(i as int)),
        decreases a.len() - i,
    {
        assert(a@.skip(i as int).drop_first() == a@.skip(i + 1));
        assert(b@.skip(i as int).drop_first() == b@.skip(i + 1));
        i = i + 1;
    }
    if i == a.len() {
        i < b.len()
    } else if i == b.len() {
        false
    } else {
        a[i] < b[i]
    }
}

/// The addresses in increasing order, each once (`sort` then `dedup`).
pub fn sorted_unique(ips: &Vec<String>) -> (r: Vec<String>)
    ensures
        strictly_sorted(strings_view(r@)),
        forall|x: Seq<char>| strings_view(r@).contains(x) <==> strings_view(ips@).contains(x),
{
    let mut r: Vec<String> = Vec::new();
    let mut i: usize = 0;
    while i < ips.len()
        invariant
            i <= ips@.len(),
            strictly_sorted(strings_view(r@)),
            forall|x: Seq<char>|
                strings_view(r@).contains(x) <==> strings_view(ips@.take(i as int)).contains(x),
        decreases ips.len() - i,
    {
        let x = crate::text::chars_of(ips[i].as_str());
        let ghost rv = strings_view(r@);
        // position of the first element not below x
        let mut p: usize = 0;
        while p < r.len() && str_lt_exec(&crate::text::chars_of(r[p].as_str()), &x)
            invariant
                p <= r@.len(),
                rv == strings_view(r@),
                forall|k: int| 0 <= k < p ==> str_lt(#[trigger] rv[k], x@),
            decreases r.len() - p,
        {
            p = p + 1;
        }
        let dup = p < r.len() && crate::text::chars_eq(&crate::text::chars_of(r[p].as_str()), &x);
        let ghost before = strings_view(ips@.take(i as int));
        let ghost after = strings_view(ips@.take(i + 1));
        assert(after =~= before.push(x@));
        assert forall|y: Seq<char>| after.contains(y) <==> before.contains(y) || y == x@ by {
            if after.contains(y) {
                let k = choose|k: int| 0 <= k < after.len() && after[k] == y;
                if k < before.len() {
                    assert(before[k] == y);
                }
            }
            if before.contains(y) {
                let k = choose|k: int| 0 <= k < before.len() && before[k] == y;
                assert(after[k] == y);
            }
            if y == x@ {
                assert(after[before.len() as int] == y);
            }
        }
        if !dup {
            let s = ips[i].clone();
            r.insert(p, s);
            proof {
                let nv = strings_view(r@);
                assert(nv =~= rv.insert(p as int, x@));
                if p < rv.len() {
                    lemma_str_lt_total(rv[p as int], x@);
                }
                assert forall|a: int, b: int| 0 <= a < b < nv.len() implies str_lt(
                    #[trigger] nv[a],
                    #[trigger] nv[b],
                ) by {
                    if b < p {
                        assert(nv[a] == rv[a] && nv[b] == rv[b]);
                    } else if b == p {
                        assert(nv[a] == rv[a]);
                    } else if a < p {
                        assert(nv[a] == rv[a] && nv[b] == rv[b - 1]);
                        if b - 1 > p {
                            lemma_str_lt_trans(x@, rv[p as int], rv[b - 1]);
                        }
                        lemma_str_lt_trans(rv[a], x@, rv[b - 1]);
                    } else if a == p {
                        assert(nv[b] == rv[b - 1]);
                        if b - 1 > p {
                            lemma_str_lt_trans(x@, rv[p as int], rv[b - 1]);
                        }
                    } else {
                        assert(nv[a] == rv[a - 1] && nv[b] == rv[b - 1]);
                    }
                }
                assert forall|y: Seq<char>| nv.contains(y) <==> rv.contains(y) || y == x@ by {
                    if nv.contains(y) {
                        let k = choose|k: int| 0 <= k < nv.len() && nv[k] == y;
                        if k < p {
                            assert(rv[k] == y);
                        } else if k > p {
                            assert(rv[k - 1] == y);
                        }
                    }
                    if rv.contains(y) {
                        let k = choose|k: int| 0 <= k < rv.len() && rv[k] == y;
                        if k < p {
                            assert(nv[k] == y);
                        } else {
                            assert(nv[k + 1] == y);
                        }
                    }
                    if y == x@ {
                        assert(nv[p as int] == y);
                    }
                }
            }
        } else {
            assert(rv.contains(x@)) by {
                assert(rv[p as int] == x@);
            }
        }
        i = i + 1;
    }
    assert(ips@.take(ips@.len() as int) == ips@);
    r
}

} // verus!
