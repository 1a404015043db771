//! robots.txt rules.
//!
//! Only the `User-agent: *` group is honored. Path matching is prefix-based,
//! without wildcard or `$`-anchor support. The longest matching rule wins and
//! an Allow rule beats a Disallow rule of equal length.

use vstd::prelude::*;
use crate::delay::{delay_ms, parse_delay_ms};
use crate::text::{ascii_lower, trim};

verus! {

/// Simplified robots.txt rule set.
pub struct RobotsRules {
    disallow: Vec<String>,
    allow: Vec<String>,
    /// The `User-agent: *` group's `Crawl-delay`, in milliseconds, if the file specifies one.
    pub crawl_delay_ms: Option<u64>,
}

// ---------------------------------------------------------------------------
// Specification of the parser

/// The pieces of `s` between occurrences of `sep` (`str::split`).
pub open spec fn pieces(s: Seq<char>, sep: char) -> Seq<Seq<char>>
    decreases s.len(),
{
    if s.len() == 0 {
        seq![Seq::<char>::empty()]
    } else {
        let p = pieces(s.drop_last(), sep);
        if s.last() == sep {
            p.push(Seq::empty())
        } else {
            p.update(p.len() - 1, p.last().push(s.last()))
        }
    }
}

/// The lines of a robots.txt body. A line ending's carriage return, and the
/// empty piece after a final newline, are absorbed by the trimming and the
/// skipping of empty lines in [`directive`].
pub open spec fn body_lines(body: Seq<char>) -> Seq<Seq<char>> {
    pieces(body, '\n')
}

/// The key (lowercased) and value of a robots.txt line, if it has one:
/// comments start at `#`, surrounding whitespace is trimmed, and the key is
/// separated from the value by the first `:`.
pub open spec fn directive(line: Seq<char>) -> Option<(Seq<char>, Seq<char>)> {
    let l = trim(line.take(crate::delay::index_of(line, '#')));
    let i = crate::delay::index_of(l, ':');
    if l.len() == 0 || i >= l.len() {
        None
    } else {
        Some((ascii_lower(trim(l.take(i))), trim(l.skip(i + 1))))
    }
}

/// What the parser has gathered after some lines.
pub struct RobotsAccum {
    pub in_wildcard_group: bool,
    pub disallow: Seq<Seq<char>>,
    pub allow: Seq<Seq<char>>,
    pub delay: Option<nat>,
}

pub open spec fn accum_start() -> RobotsAccum {
    RobotsAccum { in_wildcard_group: false, disallow: seq![], allow: seq![], delay: None }
}

/// The effect of one line.
pub open spec fn robots_step(a: RobotsAccum, line: Seq<char>) -> RobotsAccum {
    match directive(line) {
        None => a,
        Some((key, value)) => {
            if key == "user-agent"@ {
                RobotsAccum { in_wildcard_group: value == "*"@, ..a }
            } else if key == "disallow"@ && a.in_wildcard_group && value.len() > 0 {
                RobotsAccum { disallow: a.disallow.push(value), ..a }
            } else if key == "allow"@ && a.in_wildcard_group && value.len() > 0 {
                RobotsAccum { allow: a.allow.push(value), ..a }
            } else if key == "crawl-delay"@ && a.in_wildcard_group {
                match delay_ms(value) {
                    Some(ms) => RobotsAccum { delay: Some(ms), ..a },
                    None => a,
                }
            } else {
                a
            }
        },
    }
}

/// The effect of a sequence of lines, from state `a`.
pub open spec fn robots_fold(a: RobotsAccum, lines: Seq<Seq<char>>) -> RobotsAccum
    decreases lines.len(),
{
    if lines.len() == 0 {
        a
    } else {
        robots_step(robots_fold(a, lines.drop_last()), lines.last())
    }
}

/// What a robots.txt body yields.
pub open spec fn robots_parse(body: Seq<char>) -> RobotsAccum {
    robots_fold(accum_start(), body_lines(body))
}

// ---------------------------------------------------------------------------
// Specification of the matcher

/// Length of the longest rule that is a prefix of `path`, or -1.
pub open spec fn longest_match(rules: Seq<Seq<char>>, path: Seq<char>) -> int
    decreases rules.len(),
{
    if rules.len() == 0 {
        -1
    } else {
        let rest = longest_match(rules.drop_last(), path);
        let r = rules.last();
        if r.is_prefix_of(path) && r.len() > rest {
            r.len() as int
        } else {
            rest
        }
    }
}

/// The longest matching rule decides; an Allow rule beats a Disallow rule of
/// equal length; a path that no rule matches is allowed.
pub open spec fn rules_allow(disallow: Seq<Seq<char>>, allow: Seq<Seq<char>>, path: Seq<char>)
    -> bool {
    longest_match(allow, path) >= longest_match(disallow, path)
}

pub open spec fn strings_view(v: Seq<String>) -> Seq<Seq<char>> {
    v.map_values(|s: String| s@)
}

impl RobotsRules {
    /// The Disallow rules, in file order.
    pub closed spec fn disallow_rules(&self) -> Seq<Seq<char>> {
        strings_view(self.disallow@)
    }

    /// The Allow rules, in file order.
    pub closed spec fn allow_rules(&self) -> Seq<Seq<char>> {
        strings_view(self.allow@)
    }

    /// The crawl delay in milliseconds: the value of the public field
    /// `crawl_delay_ms`. The rule lists are private, so outside this module
    /// Verus sees the struct as opaque and the field is spoken of through
    /// this function (and read through the method of the same name).
    pub closed spec fn delay(&self) -> Option<u64> {
        self.crawl_delay_ms
    }

    /// Whether the rules allow `path`.
    pub open spec fn allows(&self, path: Seq<char>) -> bool {
        rules_allow(self.disallow_rules(), self.allow_rules(), path)
    }

    /// The crawl delay in milliseconds (the `crawl_delay_ms` field), for
    /// callers that Verus keeps from reading the field itself.
    pub fn crawl_delay_ms(&self) -> (d: Option<u64>)
        ensures
            d == self.delay(),
    {
        self.crawl_delay_ms
    }

    /// Rules that allow everything and set no delay.
    pub fn allow_all() -> (r: Self)
        ensures
            r.disallow_rules() == Seq::<Seq<char>>::empty(),
            r.allow_rules() == Seq::<Seq<char>>::empty(),
            r.delay().is_none(),
    {
        let r = Self { disallow: Vec::new(), allow: Vec::new(), crawl_delay_ms: None };
        assert(r.disallow_rules() =~= Seq::<Seq<char>>::empty());
        assert(r.allow_rules() =~= Seq::<Seq<char>>::empty());
        r
    }

    /// Longest matching prefix wins; an Allow rule beats a Disallow rule of equal length.
    pub fn is_allowed(&self, path: &str) -> (b: bool)
        ensures
            b == self.allows(path@),
    {
        let p = crate::text::chars_of(path);
        let d = longest_match_exec(&self.disallow, &p);
        let a = longest_match_exec(&self.allow, &p);
        proof {
            assert(self.disallow_rules() == strings_view(self.disallow@));
        }
        a >= d
    }
}

/// The parser's state as a [`RobotsAccum`].
pub open spec fn accum_of(r: RobotsRules, in_group: bool) -> RobotsAccum {
    RobotsAccum {
        in_wildcard_group: in_group,
        disallow: r.disallow_rules(),
        allow: r.allow_rules(),
        delay: match r.delay() {
            Some(ms) => Some(ms as nat),
            None => None,
        },
    }
}

impl RobotsRules {
    /// Applies one line of a robots.txt body.
    fn apply_line(&mut self, in_group: &mut bool, line: &Vec<char>)
        ensures
            accum_of(*final(self), *final(in_group)) == robots_step(
                accum_of(*old(self), *old(in_group)),
                line@,
            ),
    {
        let h = crate::delay::index_of_exec(line, '#');
        let before = crate::text::slice_chars(line, 0, h);
        assert(before@ == line@.take(h as int));
        let l = crate::text::trim_chars(&before);
        if l.len() == 0 {
            return;
        }
        let c = crate::delay::index_of_exec(&l, ':');
        if c >= l.len() {
            return;
        }
        let k = crate::text::slice_chars(&l, 0, c);
        assert(k@ == l@.take(c as int));
        let key = crate::text::lower_chars(&crate::text::trim_chars(&k));
        let v = crate::text::slice_chars(&l, c + 1, l.len());
        assert(v@ == l@.skip(c + 1));
        let value = crate::text::trim_chars(&v);
        let ghost a = accum_of(*old(self), *old(in_group));
        if crate::text::chars_eq(&key, &crate::text::chars_of("user-agent")) {
            *in_group = crate::text::chars_eq(&value, &crate::text::chars_of("*"));
        } else if crate::text::chars_eq(&key, &crate::text::chars_of("disallow")) && *in_group
            && value.len() > 0 {
            self.disallow.push(crate::text::string_of(&value));
            assert(self.disallow_rules() =~= a.disallow.push(value@));
        } else if crate::text::chars_eq(&key, &crate::text::chars_of("allow")) && *in_group
            && value.len() > 0 {
            self.allow.push(crate::text::string_of(&value));
            assert(self.allow_rules() =~= a.allow.push(value@));
        } else if crate::text::chars_eq(&key, &crate::text::chars_of("crawl-delay"))
            && *in_group {
            match parse_delay_ms(&value) {
                Some(ms) => {
                    self.crawl_delay_ms = Some(ms);
                },
                None => {},
            }
        }
    }

    /// Parses a robots.txt body.
    pub fn parse(body: &str) -> (r: Self)
        ensures
            r.disallow_rules() == robots_parse(body@).disallow,
            r.allow_rules() == robots_parse(body@).allow,
            r.delay().is_some() == robots_parse(body@).delay.is_some(),
            r.delay().is_some() ==> r.delay().unwrap() as nat == robots_parse(body@).delay.unwrap(),
    {
        let b = crate::text::chars_of(body);
        let mut rules = Self::allow_all();
        let mut in_group = false;
        assert(accum_of(rules, in_group) == accum_start());
        let mut start: usize = 0;
        let mut i: usize = 0;
        assert(b@.take(0) =~= Seq::<char>::empty());
        while i < b.len()
            invariant
                start <= i <= b@.len(),
                pieces(b@.take(i as int), '\n').len() >= 1,
                pieces(b@.take(i as int), '\n').last() == b@.subrange(start as int, i as int),
                accum_of(rules, in_group) == robots_fold(
                    accum_start(),
                    pieces(b@.take(i as int), '\n').drop_last(),
                ),
            decreases b.len() - i,
        {
            let ghost p = pieces(b@.take(i as int), '\n');
            assert(b@.take(i + 1).drop_last() == b@.take(i as int));
            assert(b@.take(i + 1).last() == b@[i as int]);
            if b[i] == '\n' {
                let line = crate::text::slice_chars(&b, start, i);
                rules.apply_line(&mut in_group, &line);
                assert(p.drop_last().push(p.last()) == p);
                assert(pieces(b@.take(i + 1), '\n').drop_last() == p);
                start = i + 1;
                assert(b@.subrange(start as int, i + 1) =~= Seq::<char>::empty());
            } else {
                assert(pieces(b@.take(i + 1), '\n').drop_last() =~= p.drop_last());
                assert(b@.subrange(start as int, i + 1) =~= b@.subrange(start as int, i as int).push(
                    b@[i as int],
                ));
            }
            i = i + 1;
        }
        assert(b@.take(b@.len() as int) == b@);
        let ghost p = pieces(b@, '\n');
        let line = crate::text::slice_chars(&b, start, b.len());
        rules.apply_line(&mut in_group, &line);
        assert(p.drop_last().push(p.last()) == p);
        rules
    }
}

impl RobotsRules {
    /// The rules of a site given what fetching its robots.txt gave: the
    /// body of a successful response, or nothing (no file, an error, or an
    /// unsuccessful status), in which case everything is allowed.
    pub fn from_fetch(body: Option<String>) -> (r: Self)
        ensures
            body is None ==> r.disallow_rules().len() == 0 && r.allow_rules().len() == 0
                && r.delay().is_none(),
            body matches Some(b) ==> {
                &&& r.disallow_rules() == robots_parse(b@).disallow
                &&& r.allow_rules() == robots_parse(b@).allow
                &&& r.delay().is_some() == robots_parse(b@).delay.is_some()
                &&& r.delay().is_some() ==> r.delay().unwrap() as nat == robots_parse(
                    b@,
                ).delay.unwrap()
            },
    {
        match body {
            Some(b) => Self::parse(b.as_str()),
            None => Self::allow_all(),
        }
    }
}

/// Length of the longest rule that is a prefix of `path`, or -1.
fn longest_match_exec(rules: &Vec<String>, path: &Vec<char>) -> (r: i128)
    ensures
        r == longest_match(strings_view(rules@), path@),
{
    let mut best: i128 = -1;
    let mut i: usize = 0;
    while i < rules.len()
        invariant
            i <= rules@.len(),
            best == longest_match(strings_view(rules@.take(i as int)), path@),
            -1 <= best <= usize::MAX,
        decreases rules.len() - i,
    {
        let rule = crate::text::chars_of(rules[i].as_str());
        let m = crate::text::starts_with_chars(path, &rule);
        proof {
            let s = strings_view(rules@.take(i + 1));
            assert(s.drop_last() == strings_view(rules@.take(i as int)));
            assert(s.last() == rules@[i as int]@);
        }
        if m && (rule.len() as i128) > best {
            best = rule.len() as i128;
        }
        i = i + 1;
    }
    assert(rules@.take(rules@.len() as int) == rules@);
    best
}


// ---------------------------------------------------------------------------
// Laws

proof fn lemma_fold_concat(a: RobotsAccum, x: Seq<Seq<char>>, y: Seq<Seq<char>>)
    ensures
        robots_fold(a, x + y) == robots_fold(robots_fold(a, x), y),
    decreases y.len(),
{
    if y.len() == 0 {
        assert(x + y == x);
    } else {
        lemma_fold_concat(a, x, y.drop_last());
        assert((x + y).drop_last() == x + y.drop_last());
        assert((x + y).last() == y.last());
    }
}

/// Rules with no Disallow and no Allow entry (those of `allow_all`) allow
/// every path.
pub proof fn law_no_rules_allow_every_path(path: Seq<char>)
    ensures
        rules_allow(Seq::empty(), Seq::empty(), path),
{
}

/// Comments and blank lines are ignored: a line that holds nothing but
/// whitespace before its first `#` changes nothing, wherever it stands.
pub proof fn law_comment_and_blank_lines_ignored(
    before: Seq<Seq<char>>,
    line: Seq<char>,
    after: Seq<Seq<char>>,
)
    requires
        trim(line.take(crate::delay::index_of(line, '#'))).len() == 0,
    ensures
        robots_fold(accum_start(), before + seq![line] + after) == robots_fold(
            accum_start(),
            before + after,
        ),
{
    lemma_fold_concat(accum_start(), before + seq![line], after);
    lemma_fold_concat(accum_start(), before, after);
    assert((before + seq![line]).drop_last() == before);
    assert(directive(line).is_none());
}

/// Only the `User-agent: *` group is honored: lines that never open such a
/// group yield no rules and no crawl delay.
pub proof fn law_only_wildcard_group_counts(lines: Seq<Seq<char>>)
    requires
        forall|i: int|
            0 <= i < lines.len() ==> !(#[trigger] directive(lines[i]) matches Some(
                (k, v),
            ) && k == "user-agent"@ && v == "*"@),
    ensures
        robots_fold(accum_start(), lines) == accum_start(),
    decreases lines.len(),
{
    if lines.len() > 0 {
        assert forall|i: int|
            0 <= i < lines.drop_last().len() implies !(#[trigger] directive(
            lines.drop_last()[i],
        ) matches Some((k, v)) && k == "user-agent"@ && v == "*"@) by {
            assert(lines.drop_last()[i] == lines[i]);
        }
        law_only_wildcard_group_counts(lines.drop_last());
        assert(directive(lines[lines.len() - 1]) == directive(lines.last()));
    }
}

/// Outside a `User-agent: *` group only `User-agent` lines have an effect:
/// Disallow, Allow and Crawl-delay lines there change nothing.
pub proof fn law_lines_outside_wildcard_group_ignored(a: RobotsAccum, line: Seq<char>)
    requires
        !a.in_wildcard_group,
        !(directive(line) matches Some((k, v)) && k == "user-agent"@),
    ensures
        robots_step(a, line) == a,
{
}

proof fn lemma_longest_match_bounds(rules: Seq<Seq<char>>, path: Seq<char>)
    ensures
        longest_match(rules, path) >= -1,
        forall|i: int|
            0 <= i < rules.len() && (#[trigger] rules[i]).is_prefix_of(path) ==> rules[i].len()
                <= longest_match(rules, path),
        longest_match(rules, path) == -1 || exists|i: int|
            0 <= i < rules.len() && (#[trigger] rules[i]).is_prefix_of(path) && rules[i].len()
                == longest_match(rules, path),
    decreases rules.len(),
{
    if rules.len() > 0 {
        let rest = rules.drop_last();
        lemma_longest_match_bounds(rest, path);
        assert forall|i: int|
            0 <= i < rules.len() && (#[trigger] rules[i]).is_prefix_of(path) implies rules[i].len()
            <= longest_match(rules, path) by {
            if i < rules.len() - 1 {
                assert(rest[i] == rules[i]);
            }
        }
        if longest_match(rules, path) != -1 {
            if longest_match(rules, path) == longest_match(rest, path) {
                let i = choose|i: int|
                    0 <= i < rest.len() && (#[trigger] rest[i]).is_prefix_of(path) && rest[i].len()
                        == longest_match(rest, path);
                assert(rules[i] == rest[i]);
            } else {
                assert(rules[rules.len() - 1] == rules.last());
            }
        }
    }
}

/// A path that no Disallow rule prefixes is allowed.
pub proof fn law_unmatched_path_allowed(
    disallow: Seq<Seq<char>>,
    allow: Seq<Seq<char>>,
    path: Seq<char>,
)
    requires
        forall|i: int| 0 <= i < disallow.len() ==> !(#[trigger] disallow[i]).is_prefix_of(path),
    ensures
        rules_allow(disallow, allow, path),
{
    lemma_longest_match_bounds(disallow, path);
    lemma_longest_match_bounds(allow, path);
}

/// A Disallow rule that prefixes a path refuses it unless some Allow rule at
/// least as long also prefixes it.
pub proof fn law_matching_disallow_refuses(
    disallow: Seq<Seq<char>>,
    allow: Seq<Seq<char>>,
    path: Seq<char>,
    i: int,
)
    requires
        0 <= i < disallow.len(),
        disallow[i].is_prefix_of(path),
        forall|j: int|
            0 <= j < allow.len() && (#[trigger] allow[j]).is_prefix_of(path) ==> allow[j].len()
                < disallow[i].len(),
    ensures
        !rules_allow(disallow, allow, path),
{
    lemma_longest_match_bounds(disallow, path);
    lemma_longest_match_bounds(allow, path);
}

/// An Allow rule that prefixes a path admits it when no matching Disallow
/// rule is longer; in particular an Allow rule beats a Disallow rule of
/// equal length.
pub proof fn law_matching_allow_admits(
    disallow: Seq<Seq<char>>,
    allow: Seq<Seq<char>>,
    path: Seq<char>,
    j: int,
)
    requires
        0 <= j < allow.len(),
        allow[j].is_prefix_of(path),
        forall|i: int|
            0 <= i < disallow.len() && (#[trigger] disallow[i]).is_prefix_of(path)
                ==> disallow[i].len() <= allow[j].len(),
    ensures
        rules_allow(disallow, allow, path),
{
    lemma_longest_match_bounds(disallow, path);
    lemma_longest_match_bounds(allow, path);
}


/// Lines that open no group change nothing outside the wildcard group.
proof fn lemma_outside_group_lines_ignored(a: RobotsAccum, lines: Seq<Seq<char>>)
    requires
        !a.in_wildcard_group,
        forall|i: int|
            0 <= i < lines.len() ==> !(#[trigger] directive(lines[i]) matches Some((k, v)) && k
                == "user-agent"@),
    ensures
        robots_fold(a, lines) == a,
    decreases lines.len(),
{
    if lines.len() > 0 {
        assert forall|i: int| 0 <= i < lines.drop_last().len() implies !(#[trigger] directive(
            lines.drop_last()[i],
        ) matches Some((k, v)) && k == "user-agent"@) by {
            assert(lines.drop_last()[i] == lines[i]);
        }
        lemma_outside_group_lines_ignored(a, lines.drop_last());
        assert(directive(lines[lines.len() - 1]) == directive(lines.last()));
    }
}

/// A `User-agent` line that names anything but `*` closes the wildcard
/// group, whatever groups came before it: the Disallow, Allow and
/// Crawl-delay lines that follow it, up to the next `User-agent` line, add no
/// rule and set no delay.
pub proof fn law_other_user_agent_closes_group(
    body: Seq<char>,
    before: Seq<Seq<char>>,
    agent_line: Seq<char>,
    group: Seq<Seq<char>>,
)
    requires
        body_lines(body) == before + seq![agent_line] + group,
        directive(agent_line) matches Some((k, v)) && k == "user-agent"@ && v != "*"@,
        forall|i: int|
            0 <= i < group.len() ==> !(#[trigger] directive(group[i]) matches Some((k, v)) && k
                == "user-agent"@),
    ensures
        !robots_parse(body).in_wildcard_group,
        robots_parse(body).disallow == robots_fold(accum_start(), before).disallow,
        robots_parse(body).allow == robots_fold(accum_start(), before).allow,
        robots_parse(body).delay == robots_fold(accum_start(), before).delay,
{
    let x = before + seq![agent_line];
    lemma_fold_concat(accum_start(), x, group);
    assert(x.drop_last() == before);
    assert(x.last() == agent_line);
    let a = robots_fold(accum_start(), x);
    assert(!a.in_wildcard_group);
    lemma_outside_group_lines_ignored(a, group);
}


/// Inside the `User-agent: *` group a Disallow or Allow line with a value
/// adds that value, in file order, to its own list and leaves the other
/// list alone; one with an empty value adds nothing. `User-agent: *` opens
/// the group, whatever came before.
pub proof fn law_wildcard_group_lines_recorded(a: RobotsAccum, line: Seq<char>, v: Seq<char>)
    ensures
        directive(line) == Some(("user-agent"@, "*"@)) ==> robots_step(a, line).in_wildcard_group,
        a.in_wildcard_group && directive(line) == Some(("disallow"@, v)) ==> {
            &&& robots_step(a, line).disallow == (if v.len() > 0 {
                a.disallow.push(v)
            } else {
                a.disallow
            })
            &&& robots_step(a, line).allow == a.allow
            &&& robots_step(a, line).in_wildcard_group
        },
        a.in_wildcard_group && directive(line) == Some(("allow"@, v)) ==> {
            &&& robots_step(a, line).allow == (if v.len() > 0 {
                a.allow.push(v)
            } else {
                a.allow
            })
            &&& robots_step(a, line).disallow == a.disallow
            &&& robots_step(a, line).in_wildcard_group
        },
{
    reveal_strlit("user-agent");
    reveal_strlit("disallow");
    reveal_strlit("allow");
    assert("disallow"@ != "user-agent"@) by {
        assert("disallow"@.len() != "user-agent"@.len());
    }
    assert("allow"@ != "user-agent"@) by {
        assert("allow"@.len() != "user-agent"@.len());
    }
    assert("allow"@ != "disallow"@) by {
        assert("allow"@.len() != "disallow"@.len());
    }
}

} // verus!
